use vstd::prelude::*;

use edit_xml::Element;

use super::{list_under, values_under, PomEditor};
use crate::editor::dom::{self, NodeState, nodes, holder, is_element_of, well_formed};
use crate::editor::utils::{
    self as eu, add_or_update_item, find_element, find_or_create_then_set_text_content, first_child, optional_view,
    synced, upsert_outcome,
};
use crate::editor::XMLEditorError;
use crate::pom::{first_text, Plugin};

verus! {

/// Edits the build section of a project.
#[derive(Debug)]
pub struct BuildEditor<'a> {
    parent: &'a mut PomEditor,
    build_element: Element,
}

impl<'a> BuildEditor<'a> {
    /// The editor and its section are consistent.
    pub closed spec fn wf(&self) -> bool {
        &&& (*self.parent).wf()
        &&& is_element_of((*self.parent).doc(), self.build_element)
    }

    /// The elements of the document.
    pub closed spec fn model(&self) -> Map<Element, NodeState> {
        (*self.parent).model()
    }

    /// The build element.
    pub closed spec fn element(&self) -> Element {
        self.build_element
    }

    pub(super) fn new(parent: &'a mut PomEditor) -> (r: Self)
        requires
            old(parent).wf(),
        ensures
            r.wf(),
            first_child(old(parent).model(), old(parent).root_spec(), "build"@) matches Some(k) ==> r.model()
                == old(parent).model() && r.element() == k,
            first_child(old(parent).model(), old(parent).root_spec(), "build"@) is None ==> {
                &&& r.model()[r.element()].children.len() == 0
                &&& r.model()[r.element()].name == dom::local_name("build"@)
                &&& !old(parent).model().dom().contains(r.element())
                &&& r.model()[old(parent).root_spec()].children == old(parent).model()[old(parent).root_spec()].children.push(
                    r.element(),
                )
            },
    {
        let build_element = parent.section("build");
        BuildEditor { parent, build_element }
    }

    fn get_text(&self, name: &str) -> (r: Option<String>)
        requires
            self.wf(),
        ensures
            optional_view(r) == first_text(self.model(), self.element(), name@),
    {
        match find_element(self.build_element, name, &self.parent.document) {
            Some(k) => {
                proof {
                    eu::lemma_first_named(self.model(), self.model()[self.build_element].children, name@);
                }
                Some(dom::text_of(&self.parent.document, k))
            },
            None => None,
        }
    }

    fn set_text(&mut self, name: &str, value: &str)
        requires
            old(self).wf(),
            name@ == dom::local_name(name@),
        ensures
            final(self).wf(),
            final(self).element() == old(self).element(),
            synced(old(self).model(), final(self).model(), old(self).element(), name@, Some(value@)),
    {
        let ghost root = (*self.parent).root_spec();
        proof {
            assert(nodes(self.parent.document)[holder(self.parent.document)].children.contains(root));
        }
        find_or_create_then_set_text_content(&mut self.parent.document, self.build_element, name, value);
    }
}

} // verus!

verus! {

impl<'a> BuildEditor<'a> {
    pub fn set_source_directory(&mut self, value: &str)
        requires
            old(self).wf(),
        ensures
            final(self).wf(),
            synced(old(self).model(), final(self).model(), old(self).element(), "sourceDirectory"@, Some(value@)),
            first_text(final(self).model(), old(self).element(), "sourceDirectory"@) == Some(value@),
    {
        proof {
            reveal_strlit("sourceDirectory");
            dom::lemma_plain_name("sourceDirectory"@);
        }
        self.set_text("sourceDirectory", value);
        proof {
            eu::lemma_synced_then_first_text(old(self).model(), self.model(), old(self).element(), "sourceDirectory"@, value@);
        }
    }

    pub fn get_source_directory(&self) -> (r: Option<String>)
        requires
            self.wf(),
        ensures
            optional_view(r) == first_text(self.model(), self.element(), "sourceDirectory"@),
    {
        self.get_text("sourceDirectory")
    }

    pub fn set_final_name(&mut self, value: &str)
        requires
            old(self).wf(),
        ensures
            final(self).wf(),
            synced(old(self).model(), final(self).model(), old(self).element(), "finalName"@, Some(value@)),
            first_text(final(self).model(), old(self).element(), "finalName"@) == Some(value@),
    {
        proof {
            reveal_strlit("finalName");
            dom::lemma_plain_name("finalName"@);
        }
        self.set_text("finalName", value);
        proof {
            eu::lemma_synced_then_first_text(old(self).model(), self.model(), old(self).element(), "finalName"@, value@);
        }
    }

    pub fn get_final_name(&self) -> (r: Option<String>)
        requires
            self.wf(),
        ensures
            optional_view(r) == first_text(self.model(), self.element(), "finalName"@),
    {
        self.get_text("finalName")
    }

    pub fn set_directory(&mut self, value: &str)
        requires
            old(self).wf(),
        ensures
            final(self).wf(),
            synced(old(self).model(), final(self).model(), old(self).element(), "directory"@, Some(value@)),
            first_text(final(self).model(), old(self).element(), "directory"@) == Some(value@),
    {
        proof {
            reveal_strlit("directory");
            dom::lemma_plain_name("directory"@);
        }
        self.set_text("directory", value);
        proof {
            eu::lemma_synced_then_first_text(old(self).model(), self.model(), old(self).element(), "directory"@, value@);
        }
    }

    pub fn get_directory(&self) -> (r: Option<String>)
        requires
            self.wf(),
        ensures
            optional_view(r) == first_text(self.model(), self.element(), "directory"@),
    {
        self.get_text("directory")
    }

    pub fn set_default_goal(&mut self, value: &str)
        requires
            old(self).wf(),
        ensures
            final(self).wf(),
            synced(old(self).model(), final(self).model(), old(self).element(), "defaultGoal"@, Some(value@)),
            first_text(final(self).model(), old(self).element(), "defaultGoal"@) == Some(value@),
    {
        proof {
            reveal_strlit("defaultGoal");
            dom::lemma_plain_name("defaultGoal"@);
        }
        self.set_text("defaultGoal", value);
        proof {
            eu::lemma_synced_then_first_text(old(self).model(), self.model(), old(self).element(), "defaultGoal"@, value@);
        }
    }

    pub fn get_default_goal(&self) -> (r: Option<String>)
        requires
            self.wf(),
        ensures
            optional_view(r) == first_text(self.model(), self.element(), "defaultGoal"@),
    {
        self.get_text("defaultGoal")
    }

    /// The plugins of the build; none when the list is missing.
    pub fn get_plugins(&self) -> (r: Result<Vec<Plugin>, XMLEditorError>)
        requires
            self.wf(),
        ensures
            list_under::<Plugin>(self.model(), self.element(), "plugins"@, r),
    {
        values_under::<Plugin>(&self.parent.document, self.build_element, "plugins")
    }

    /// Adds `plugin`, or updates the plugin that is the same item; returns it as it was.
    pub fn add_or_update_plugin(&mut self, plugin: Plugin) -> (r: Result<Option<Plugin>, XMLEditorError>)
        requires
            old(self).wf(),
        ensures
            final(self).wf(),
            upsert_outcome(
                old(self).model(),
                final(self).model(),
                first_child(old(self).model(), old(self).element(), "plugins"@),
                old(self).element(),
                plugin,
                r,
            ),
    {
        let plugins = find_element(self.build_element, "plugins", &self.parent.document);
        proof {
            eu::lemma_first_named(self.model(), self.model()[self.build_element].children, "plugins"@);
        }
        add_or_update_item(&mut self.parent.document, plugins, self.build_element, plugin)
    }
}

impl PomEditor {
    /// An editor of the build section, which is created when missing.
    pub fn get_or_create_build_element(&mut self) -> (r: BuildEditor<'_>)
        requires
            old(self).wf(),
        ensures
            r.wf(),
            first_child(old(self).model(), old(self).root_spec(), "build"@) matches Some(k) ==> r.model() == old(self).model()
                && r.element() == k,
            first_child(old(self).model(), old(self).root_spec(), "build"@) is None ==> {
                &&& r.model()[r.element()].children.len() == 0
                &&& r.model()[r.element()].name == dom::local_name("build"@)
                &&& !old(self).model().dom().contains(r.element())
                &&& r.model()[old(self).root_spec()].children == old(self).model()[old(self).root_spec()].children.push(
                    r.element(),
                )
            },
    {
        BuildEditor::new(self)
    }

    /// An editor of the build section, when there is one.
    pub fn get_build_element_or_none(&mut self) -> (r: Option<BuildEditor<'_>>)
        requires
            old(self).wf(),
        ensures
            r matches Some(e) ==> e.wf() && e.model() == old(self).model(),
            r is None ==> *final(self) == *old(self),
    {
        if self.has_build() {
            return Some(BuildEditor::new(self));
        }
        None
    }
}

} // verus!
