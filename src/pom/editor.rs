//! Editing a project descriptor in place: what the editor does not model is left as written.
use vstd::prelude::*;

use edit_xml::{Document, Element};

use crate::editor::dom::{self, NodeState, nodes, holder, well_formed, is_element_of};
use crate::editor::utils::{
    self as eu, add_or_update_item, find_element, first_child, get_all_children_of_element, list_decodes,
    optional_view, sync_element, synced, upsert_outcome, MissingElementError,
};
use crate::editor::{
    ChildOfListElement, ComparableElement, ElementConverter, HasElementName, UpdatableElement, XMLEditorError,
};
use crate::pom::{first_text, Dependency, Developer, Parent, Repository, Scm};
use crate::utils::str_eq;

mod build_editor;
mod dependency_management;
mod distribution_management;

pub use build_editor::BuildEditor;
pub use dependency_management::DependencyManagementEditor;
pub use distribution_management::DistributionManagementEditor;

verus! {

/// Edits a project descriptor whose root element is `project`.
#[derive(Debug)]
pub struct PomEditor {
    document: Document,
    pub ident_level: usize,
}

/// What reading the children `kids` as a list gives, records only.
pub open spec fn list_values<E: ElementConverter + HasElementName>(
    m: Map<Element, NodeState>,
    kids: Seq<Element>,
    r: Result<Vec<E>, XMLEditorError>,
) -> bool {
    exists|res: Result<Vec<(E, Element)>, XMLEditorError>|
        #![trigger list_decodes::<E>(m, kids, res)]
        list_decodes::<E>(m, kids, res) && match (res, r) {
            (Ok(v), Ok(w)) => w.len() == v.len() && forall|i: int| 0 <= i < w.len() ==> w[i] == (#[trigger] v[i]).0,
            (Err(e1), Err(e2)) => e1 == e2,
            _ => false,
        }
}

/// What reading the list held by the first child of `parent` named `tag` gives; no list is empty.
pub open spec fn list_under<E: ElementConverter + HasElementName>(
    m: Map<Element, NodeState>,
    parent: Element,
    tag: Seq<char>,
    r: Result<Vec<E>, XMLEditorError>,
) -> bool {
    match first_child(m, parent, tag) {
        None => r matches Ok(v) && v.len() == 0,
        Some(c) => list_values::<E>(m, m[c].children, r),
    }
}

/// Reads the list held by the first child of `parent` named `tag`.
pub fn values_under<E: ElementConverter + HasElementName>(document: &Document, parent: Element, tag: &str) -> (r: Result<
    Vec<E>,
    XMLEditorError,
>)
    requires
        well_formed(*document),
        nodes(*document).dom().contains(parent),
    ensures
        list_under::<E>(nodes(*document), parent, tag@, r),
{
    let Some(container) = find_element(parent, tag, document) else {
        return Ok(Vec::new());
    };
    proof {
        eu::lemma_first_named(nodes(*document), nodes(*document)[parent].children, tag@);
    }
    let all = get_all_children_of_element::<E>(document, container);
    let ghost res = all;
    match all {
        Err(e) => Err(e),
        Ok(mut pairs) => {
            let ghost v = pairs@;
            let mut values: Vec<E> = Vec::new();
            let mut i: usize = 0;
            let n = pairs.len();
            while i < n
                invariant
                    n == v.len(),
                    i <= n,
                    pairs@ == v.subrange(i as int, n as int),
                    values.len() == i,
                    forall|j: int| 0 <= j < i ==> values[j] == (#[trigger] v[j]).0,
                decreases n - i,
            {
                let (value, _) = pairs.remove(0);
                values.push(value);
                assert(pairs@ =~= v.subrange(i + 1, n as int));
                i = i + 1;
            }
            Ok(values)
        },
    }
}

/// Empties the list held by the first child of `parent` named `tag`, if there is one.
pub fn clear_under(document: &mut Document, parent: Element, tag: &str)
    requires
        well_formed(*old(document)),
        is_element_of(*old(document), parent),
    ensures
        well_formed(*final(document)),
        holder(*final(document)) == holder(*old(document)),
        nodes(*final(document))[holder(*old(document))].children == nodes(*old(document))[holder(*old(document))].children,
        match first_child(nodes(*old(document)), parent, tag@) {
            None => nodes(*final(document)) == nodes(*old(document)),
            Some(c) => {
                &&& nodes(*final(document))[c].children.len() == 0
                &&& nodes(*final(document)).dom() == nodes(*old(document)).dom()
                &&& dom::unchanged_except(
                    nodes(*old(document)),
                    nodes(*final(document)),
                    nodes(*old(document))[c].children.to_set().insert(c),
                )
            },
        },
{
    if let Some(container) = find_element(parent, tag, document) {
        proof {
            eu::lemma_first_named(nodes(*document), nodes(*document)[parent].children, tag@);
        }
        dom::clear_children(document, container);
    }
}

impl PomEditor {
    /// The document is well formed and has a root element.
    pub closed spec fn wf(&self) -> bool {
        &&& well_formed(self.document)
        &&& nodes(self.document)[holder(self.document)].children.len() > 0
    }

    /// The document.
    pub closed spec fn doc(&self) -> Document {
        self.document
    }

    /// The elements of the document.
    pub closed spec fn model(&self) -> Map<Element, NodeState> {
        nodes(self.document)
    }

    /// The root element.
    pub closed spec fn root_spec(&self) -> Element {
        nodes(self.document)[holder(self.document)].children[0]
    }

    pub(crate) fn root(&self) -> (r: Element)
        requires
            self.wf(),
        ensures
            r == self.root_spec(),
            is_element_of(self.doc(), r),
            self.model().dom().contains(r),
    {
        match dom::root_element(&self.document) {
            Some(r) => r,
            None => {
                assert(false);
                dom::document_holder(&self.document)
            },
        }
    }

    /// The text of the first child of the root named `name`.
    fn get_text(&self, name: &str) -> (r: Option<String>)
        requires
            self.wf(),
        ensures
            optional_view(r) == first_text(self.model(), self.root_spec(), name@),
    {
        let root = self.root();
        match find_element(root, name, &self.document) {
            Some(k) => {
                proof {
                    eu::lemma_first_named(nodes(self.document), nodes(self.document)[root].children, name@);
                }
                Some(dom::text_of(&self.document, k))
            },
            None => None,
        }
    }

    /// Sets, or with `None` removes, the first child of the root named `name`.
    fn set_text(&mut self, name: &str, value: Option<&str>)
        requires
            old(self).wf(),
            name@ == dom::local_name(name@),
        ensures
            final(self).wf(),
            final(self).root_spec() == old(self).root_spec(),
            synced(
                old(self).model(),
                final(self).model(),
                old(self).root_spec(),
                name@,
                match value {
                    Some(v) => Some(v@),
                    None => None,
                },
            ),
    {
        let root = self.root();
        sync_element(&mut self.document, root, name, value);
        proof {
            assert(nodes(old(self).document)[holder(old(self).document)].children.contains(root));
        }
    }
}

} // verus!

verus! {

impl PomEditor {
    /// The group id of the project.
    pub fn get_group_id(&self) -> (r: Option<String>)
        requires
            self.wf(),
        ensures
            optional_view(r) == first_text(self.model(), self.root_spec(), "groupId"@),
    {
        self.get_text("groupId")
    }

    /// Sets the `groupId` element; `None` removes it.
    pub fn set_group_id(&mut self, value: Option<&str>)
        requires
            old(self).wf(),
        ensures
            final(self).wf(),
            final(self).root_spec() == old(self).root_spec(),
            synced(old(self).model(), final(self).model(), old(self).root_spec(), "groupId"@, match value {
                Some(v) => Some(v@),
                None => None,
            }),
            value matches Some(v) ==> first_text(final(self).model(), final(self).root_spec(), "groupId"@) == Some(v@),
    {
        proof {
            reveal_strlit("groupId");
            dom::lemma_plain_name("groupId"@);
        }
        self.set_text("groupId", value);
        proof {
            if let Some(v) = value {
                eu::lemma_synced_then_first_text(old(self).model(), self.model(), old(self).root_spec(), "groupId"@, v@);
            }
        }
    }

    /// The artifact id of the project.
    pub fn get_artifact_id(&self) -> (r: Option<String>)
        requires
            self.wf(),
        ensures
            optional_view(r) == first_text(self.model(), self.root_spec(), "artifactId"@),
    {
        self.get_text("artifactId")
    }

    /// Sets the `artifactId` element; `None` removes it.
    pub fn set_artifact_id(&mut self, value: Option<&str>)
        requires
            old(self).wf(),
        ensures
            final(self).wf(),
            final(self).root_spec() == old(self).root_spec(),
            synced(old(self).model(), final(self).model(), old(self).root_spec(), "artifactId"@, match value {
                Some(v) => Some(v@),
                None => None,
            }),
            value matches Some(v) ==> first_text(final(self).model(), final(self).root_spec(), "artifactId"@) == Some(v@),
    {
        proof {
            reveal_strlit("artifactId");
            dom::lemma_plain_name("artifactId"@);
        }
        self.set_text("artifactId", value);
        proof {
            if let Some(v) = value {
                eu::lemma_synced_then_first_text(old(self).model(), self.model(), old(self).root_spec(), "artifactId"@, v@);
            }
        }
    }

    /// The version of the project.
    pub fn get_version(&self) -> (r: Option<String>)
        requires
            self.wf(),
        ensures
            optional_view(r) == first_text(self.model(), self.root_spec(), "version"@),
    {
        self.get_text("version")
    }

    /// Sets the `version` element; `None` removes it.
    pub fn set_version(&mut self, value: Option<&str>)
        requires
            old(self).wf(),
        ensures
            final(self).wf(),
            final(self).root_spec() == old(self).root_spec(),
            synced(old(self).model(), final(self).model(), old(self).root_spec(), "version"@, match value {
                Some(v) => Some(v@),
                None => None,
            }),
            value matches Some(v) ==> first_text(final(self).model(), final(self).root_spec(), "version"@) == Some(v@),
    {
        proof {
            reveal_strlit("version");
            dom::lemma_plain_name("version"@);
        }
        self.set_text("version", value);
        proof {
            if let Some(v) = value {
                eu::lemma_synced_then_first_text(old(self).model(), self.model(), old(self).root_spec(), "version"@, v@);
            }
        }
    }

    /// The name of the project.
    pub fn get_name(&self) -> (r: Option<String>)
        requires
            self.wf(),
        ensures
            optional_view(r) == first_text(self.model(), self.root_spec(), "name"@),
    {
        self.get_text("name")
    }

    /// Sets the `name` element; `None` removes it.
    pub fn set_name(&mut self, value: Option<&str>)
        requires
            old(self).wf(),
        ensures
            final(self).wf(),
            final(self).root_spec() == old(self).root_spec(),
            synced(old(self).model(), final(self).model(), old(self).root_spec(), "name"@, match value {
                Some(v) => Some(v@),
                None => None,
            }),
            value matches Some(v) ==> first_text(final(self).model(), final(self).root_spec(), "name"@) == Some(v@),
    {
        proof {
            reveal_strlit("name");
            dom::lemma_plain_name("name"@);
        }
        self.set_text("name", value);
        proof {
            if let Some(v) = value {
                eu::lemma_synced_then_first_text(old(self).model(), self.model(), old(self).root_spec(), "name"@, v@);
            }
        }
    }

    /// The description of the project.
    pub fn get_description(&self) -> (r: Option<String>)
        requires
            self.wf(),
        ensures
            optional_view(r) == first_text(self.model(), self.root_spec(), "description"@),
    {
        self.get_text("description")
    }

    /// Sets the `description` element; `None` removes it.
    pub fn set_description(&mut self, value: Option<&str>)
        requires
            old(self).wf(),
        ensures
            final(self).wf(),
            final(self).root_spec() == old(self).root_spec(),
            synced(old(self).model(), final(self).model(), old(self).root_spec(), "description"@, match value {
                Some(v) => Some(v@),
                None => None,
            }),
            value matches Some(v) ==> first_text(final(self).model(), final(self).root_spec(), "description"@) == Some(v@),
    {
        proof {
            reveal_strlit("description");
            dom::lemma_plain_name("description"@);
        }
        self.set_text("description", value);
        proof {
            if let Some(v) = value {
                eu::lemma_synced_then_first_text(old(self).model(), self.model(), old(self).root_spec(), "description"@, v@);
            }
        }
    }

    /// The url of the project.
    pub fn get_url(&self) -> (r: Option<String>)
        requires
            self.wf(),
        ensures
            optional_view(r) == first_text(self.model(), self.root_spec(), "url"@),
    {
        self.get_text("url")
    }

    /// Sets the `url` element; `None` removes it.
    pub fn set_url(&mut self, value: Option<&str>)
        requires
            old(self).wf(),
        ensures
            final(self).wf(),
            final(self).root_spec() == old(self).root_spec(),
            synced(old(self).model(), final(self).model(), old(self).root_spec(), "url"@, match value {
                Some(v) => Some(v@),
                None => None,
            }),
            value matches Some(v) ==> first_text(final(self).model(), final(self).root_spec(), "url"@) == Some(v@),
    {
        proof {
            reveal_strlit("url");
            dom::lemma_plain_name("url"@);
        }
        self.set_text("url", value);
        proof {
            if let Some(v) = value {
                eu::lemma_synced_then_first_text(old(self).model(), self.model(), old(self).root_spec(), "url"@, v@);
            }
        }
    }

    /// The year the project started.
    pub fn get_inception_year(&self) -> (r: Option<String>)
        requires
            self.wf(),
        ensures
            optional_view(r) == first_text(self.model(), self.root_spec(), "inceptionYear"@),
    {
        self.get_text("inceptionYear")
    }

    /// Sets the `inceptionYear` element; `None` removes it.
    pub fn set_inception_year(&mut self, value: Option<&str>)
        requires
            old(self).wf(),
        ensures
            final(self).wf(),
            final(self).root_spec() == old(self).root_spec(),
            synced(old(self).model(), final(self).model(), old(self).root_spec(), "inceptionYear"@, match value {
                Some(v) => Some(v@),
                None => None,
            }),
            value matches Some(v) ==> first_text(final(self).model(), final(self).root_spec(), "inceptionYear"@) == Some(v@),
    {
        proof {
            reveal_strlit("inceptionYear");
            dom::lemma_plain_name("inceptionYear"@);
        }
        self.set_text("inceptionYear", value);
        proof {
            if let Some(v) = value {
                eu::lemma_synced_then_first_text(old(self).model(), self.model(), old(self).root_spec(), "inceptionYear"@, v@);
            }
        }
    }

    /// The model version of the descriptor, currently always `4.0.0`.
    pub fn get_model_version(&self) -> (r: Option<String>)
        requires
            self.wf(),
        ensures
            optional_view(r) == first_text(self.model(), self.root_spec(), "modelVersion"@),
    {
        self.get_text("modelVersion")
    }

    /// Sets the `modelVersion` element; `None` removes it.
    pub fn set_model_version(&mut self, value: Option<&str>)
        requires
            old(self).wf(),
        ensures
            final(self).wf(),
            final(self).root_spec() == old(self).root_spec(),
            synced(old(self).model(), final(self).model(), old(self).root_spec(), "modelVersion"@, match value {
                Some(v) => Some(v@),
                None => None,
            }),
            value matches Some(v) ==> first_text(final(self).model(), final(self).root_spec(), "modelVersion"@) == Some(v@),
    {
        proof {
            reveal_strlit("modelVersion");
            dom::lemma_plain_name("modelVersion"@);
        }
        self.set_text("modelVersion", value);
        proof {
            if let Some(v) = value {
                eu::lemma_synced_then_first_text(old(self).model(), self.model(), old(self).root_spec(), "modelVersion"@, v@);
            }
        }
    }

    /// How the project is packaged.
    pub fn get_packaging(&self) -> (r: Option<String>)
        requires
            self.wf(),
        ensures
            optional_view(r) == first_text(self.model(), self.root_spec(), "packaging"@),
    {
        self.get_text("packaging")
    }

    /// Sets the `packaging` element; `None` removes it.
    pub fn set_packaging(&mut self, value: Option<&str>)
        requires
            old(self).wf(),
        ensures
            final(self).wf(),
            final(self).root_spec() == old(self).root_spec(),
            synced(old(self).model(), final(self).model(), old(self).root_spec(), "packaging"@, match value {
                Some(v) => Some(v@),
                None => None,
            }),
            value matches Some(v) ==> first_text(final(self).model(), final(self).root_spec(), "packaging"@) == Some(v@),
    {
        proof {
            reveal_strlit("packaging");
            dom::lemma_plain_name("packaging"@);
        }
        self.set_text("packaging", value);
        proof {
            if let Some(v) = value {
                eu::lemma_synced_then_first_text(old(self).model(), self.model(), old(self).root_spec(), "packaging"@, v@);
            }
        }
    }

    /// The repositories of the project; none when the list is missing.
    pub fn get_repositories(&self) -> (r: Result<Vec<Repository>, XMLEditorError>)
        requires
            self.wf(),
        ensures
            list_under::<Repository>(self.model(), self.root_spec(), "repositories"@, r),
    {
        let root = self.root();
        values_under::<Repository>(&self.document, root, "repositories")
    }

    /// Adds `value` to the repositories, or updates the repository that is the same item.
    /// Returns the repository as it was before an update.
    pub fn add_or_update_repository(&mut self, value: Repository) -> (r: Result<Option<Repository>, XMLEditorError>)
        requires
            old(self).wf(),
        ensures
            final(self).wf(),
            final(self).root_spec() == old(self).root_spec(),
            upsert_outcome(
                old(self).model(),
                final(self).model(),
                first_child(old(self).model(), old(self).root_spec(), "repositories"@),
                old(self).root_spec(),
                value,
                r,
            ),
    {
        self.add_item("repositories", value)
    }

    /// Removes every repository; the list element stays.
    pub fn clear_repositories(&mut self) -> (r: Result<(), XMLEditorError>)
        requires
            old(self).wf(),
        ensures
            r is Ok,
            final(self).wf(),
            final(self).root_spec() == old(self).root_spec(),
            match first_child(old(self).model(), old(self).root_spec(), "repositories"@) {
                None => final(self).model() == old(self).model(),
                Some(c) => {
                    &&& final(self).model()[c].children.len() == 0
                    &&& final(self).model().dom() == old(self).model().dom()
                    &&& dom::unchanged_except(old(self).model(), final(self).model(), old(self).model()[c].children.to_set().insert(c))
                },
            },
    {
        let root = self.root();
        clear_under(&mut self.document, root, "repositories");
        Ok(())
    }

    /// The developers of the project; none when the list is missing.
    pub fn get_developers(&self) -> (r: Result<Vec<Developer>, XMLEditorError>)
        requires
            self.wf(),
        ensures
            list_under::<Developer>(self.model(), self.root_spec(), "developers"@, r),
    {
        let root = self.root();
        values_under::<Developer>(&self.document, root, "developers")
    }

    /// Adds `value` to the developers, or updates the developer that is the same item.
    /// Returns the developer as it was before an update.
    pub fn add_or_update_developer(&mut self, value: Developer) -> (r: Result<Option<Developer>, XMLEditorError>)
        requires
            old(self).wf(),
        ensures
            final(self).wf(),
            final(self).root_spec() == old(self).root_spec(),
            upsert_outcome(
                old(self).model(),
                final(self).model(),
                first_child(old(self).model(), old(self).root_spec(), "developers"@),
                old(self).root_spec(),
                value,
                r,
            ),
    {
        self.add_item("developers", value)
    }

    /// Removes every developer; the list element stays.
    pub fn clear_developers(&mut self) -> (r: Result<(), XMLEditorError>)
        requires
            old(self).wf(),
        ensures
            r is Ok,
            final(self).wf(),
            final(self).root_spec() == old(self).root_spec(),
            match first_child(old(self).model(), old(self).root_spec(), "developers"@) {
                None => final(self).model() == old(self).model(),
                Some(c) => {
                    &&& final(self).model()[c].children.len() == 0
                    &&& final(self).model().dom() == old(self).model().dom()
                    &&& dom::unchanged_except(old(self).model(), final(self).model(), old(self).model()[c].children.to_set().insert(c))
                },
            },
    {
        let root = self.root();
        clear_under(&mut self.document, root, "developers");
        Ok(())
    }

    /// The dependencies of the project; none when the list is missing.
    pub fn get_dependencies(&self) -> (r: Result<Vec<Dependency>, XMLEditorError>)
        requires
            self.wf(),
        ensures
            list_under::<Dependency>(self.model(), self.root_spec(), "dependencies"@, r),
    {
        let root = self.root();
        values_under::<Dependency>(&self.document, root, "dependencies")
    }

    /// Adds `value` to the dependencies, or updates the dependency that is the same item.
    /// Returns the dependency as it was before an update.
    pub fn add_or_update_dependency(&mut self, value: Dependency) -> (r: Result<Option<Dependency>, XMLEditorError>)
        requires
            old(self).wf(),
        ensures
            final(self).wf(),
            final(self).root_spec() == old(self).root_spec(),
            upsert_outcome(
                old(self).model(),
                final(self).model(),
                first_child(old(self).model(), old(self).root_spec(), "dependencies"@),
                old(self).root_spec(),
                value,
                r,
            ),
    {
        self.add_item("dependencies", value)
    }

    /// Removes every dependency; the list element stays.
    pub fn clear_dependencies(&mut self) -> (r: Result<(), XMLEditorError>)
        requires
            old(self).wf(),
        ensures
            r is Ok,
            final(self).wf(),
            final(self).root_spec() == old(self).root_spec(),
            match first_child(old(self).model(), old(self).root_spec(), "dependencies"@) {
                None => final(self).model() == old(self).model(),
                Some(c) => {
                    &&& final(self).model()[c].children.len() == 0
                    &&& final(self).model().dom() == old(self).model().dom()
                    &&& dom::unchanged_except(old(self).model(), final(self).model(), old(self).model()[c].children.to_set().insert(c))
                },
            },
    {
        let root = self.root();
        clear_under(&mut self.document, root, "dependencies");
        Ok(())
    }

}

} // verus!

verus! {

impl PomEditor {
    /// Adds or updates `item` in the list named `tag` under the root.
    fn add_item<I: UpdatableElement + ChildOfListElement + HasElementName + ComparableElement>(
        &mut self,
        tag: &str,
        item: I,
    ) -> (r: Result<Option<I>, XMLEditorError>)
        requires
            old(self).wf(),
        ensures
            final(self).wf(),
            final(self).root_spec() == old(self).root_spec(),
            upsert_outcome(
                old(self).model(),
                final(self).model(),
                first_child(old(self).model(), old(self).root_spec(), tag@),
                old(self).root_spec(),
                item,
                r,
            ),
    {
        let root = self.root();
        let parent_element = find_element(root, tag, &self.document);
        proof {
            eu::lemma_first_named(nodes(self.document), nodes(self.document)[root].children, tag@);
        }
        add_or_update_item(&mut self.document, parent_element, root, item)
    }

    /// Reads the first child of the root named `tag` as a `T`.
    fn get_structured<T: ElementConverter>(&self, tag: &str) -> (r: Result<Option<T>, XMLEditorError>)
        requires
            self.wf(),
        ensures
            match first_child(self.model(), self.root_spec(), tag@) {
                None => r == Ok::<Option<T>, XMLEditorError>(None),
                Some(k) => exists|x: Result<T, XMLEditorError>|
                    #![trigger T::decodes(self.model(), k, x)]
                    T::decodes(self.model(), k, x) && match x {
                        Ok(v) => r == Ok::<Option<T>, XMLEditorError>(Some(v)),
                        Err(e) => r == Err::<Option<T>, XMLEditorError>(e),
                    },
            },
    {
        let root = self.root();
        match find_element(root, tag, &self.document) {
            None => Ok(None),
            Some(k) => {
                proof {
                    eu::lemma_first_named(nodes(self.document), nodes(self.document)[root].children, tag@);
                }
                let x = T::from_element(k, &self.document);
                let ghost xg = x;
                match x {
                    Ok(v) => Ok(Some(v)),
                    Err(e) => Err(e),
                }
            },
        }
    }

    /// Updates the first child of the root named `T`'s tag from `value`, creates it when it is
    /// missing, or removes it when `value` is `None`.
    fn set_structured<T: UpdatableElement + HasElementName>(&mut self, value: Option<T>) -> (r: Result<(), XMLEditorError>)
        requires
            old(self).wf(),
        ensures
            r is Ok,
            final(self).wf(),
            final(self).root_spec() == old(self).root_spec(),
            match (value, first_child(old(self).model(), old(self).root_spec(), T::tag())) {
                (Some(v), Some(k)) => v.updates(old(self).model(), final(self).model(), k),
                (Some(v), None) => {
                    &&& final(self).model()[old(self).root_spec()].children.len() == old(self).model()[old(self).root_spec()].children.len() + 1
                    &&& eu::written_element(
                        old(self).model(),
                        final(self).model(),
                        final(self).model()[old(self).root_spec()].children.last(),
                        v,
                    )
                },
                (None, Some(k)) => final(self).model()[old(self).root_spec()].children == dom::remove_first(
                    old(self).model()[old(self).root_spec()].children,
                    k,
                ),
                (None, None) => final(self).model() == old(self).model(),
            },
    {
        let ghost a = nodes(self.document);
        let root = self.root();
        let existing = find_element(root, T::element_name(), &self.document);
        proof {
            eu::lemma_first_named(nodes(self.document), nodes(self.document)[root].children, T::tag());
            assert(nodes(self.document)[holder(self.document)].children.contains(root));
        }
        match value {
            Some(v) => {
                if let Some(element) = existing {
                    let _ = v.update_element(element, &mut self.document);
                    return Ok(());
                }
                let ghost vg = v;
                let new_element = match eu::into_element(v, &mut self.document) {
                    Ok(e) => e,
                    Err(e) => return Err(e),
                };
                let ghost m1 = nodes(self.document);
                proof {
                    dom::lemma_fresh_not_ancestor(a, m1, new_element, root);
                }
                let _ = dom::push_child(&mut self.document, root, new_element);
                proof {
                    let b = nodes(self.document);
                    assert forall|i: int, j: int|
                        0 <= i < m1[new_element].children.len() && 0 <= j < m1[m1[new_element].children[i]].children.len()
                        implies !set![root, new_element].contains(#[trigger] m1[m1[new_element].children[i]].children[j]) by {
                        assert(m1.dom().contains(m1[new_element].children[i]));
                        assert(m1.dom().contains(m1[m1[new_element].children[i]].children[j]));
                        assert(m1[m1[m1[new_element].children[i]].children[j]].parent == Some(m1[new_element].children[i]));
                    }
                    vg.lemma_written_as_frame(m1, b, m1[new_element].children, set![root, new_element]);
                }
            },
            None => {
                if let Some(element) = existing {
                    let _ = dom::detach(&mut self.document, element);
                }
            },
        }
        Ok(())
    }

    /// The parent of the project.
    pub fn get_parent(&self) -> (r: Result<Option<Parent>, XMLEditorError>)
        requires
            self.wf(),
        ensures
            match first_child(self.model(), self.root_spec(), "parent"@) {
                None => r == Ok::<Option<Parent>, XMLEditorError>(None),
                Some(k) => r matches Ok(Some(p)) && Parent::decodes(self.model(), k, Ok(p)),
            },
    {
        self.get_structured::<Parent>("parent")
    }

    /// Sets the parent of the project; `None` removes it.
    pub fn set_parent(&mut self, value: Option<Parent>) -> (r: Result<(), XMLEditorError>)
        requires
            old(self).wf(),
        ensures
            r is Ok,
            final(self).wf(),
            final(self).root_spec() == old(self).root_spec(),
            match (value, first_child(old(self).model(), old(self).root_spec(), "parent"@)) {
                (Some(v), Some(k)) => v.updates(old(self).model(), final(self).model(), k),
                (Some(v), None) => eu::written_element(
                    old(self).model(),
                    final(self).model(),
                    final(self).model()[old(self).root_spec()].children.last(),
                    v,
                ),
                (None, Some(k)) => final(self).model()[old(self).root_spec()].children == dom::remove_first(
                    old(self).model()[old(self).root_spec()].children,
                    k,
                ),
                (None, None) => final(self).model() == old(self).model(),
            },
    {
        self.set_structured::<Parent>(value)
    }

    /// The source control of the project.
    pub fn get_scm(&self) -> (r: Result<Option<Scm>, XMLEditorError>)
        requires
            self.wf(),
        ensures
            match first_child(self.model(), self.root_spec(), "scm"@) {
                None => r == Ok::<Option<Scm>, XMLEditorError>(None),
                Some(k) => r matches Ok(Some(p)) && Scm::decodes(self.model(), k, Ok(p)),
            },
    {
        self.get_structured::<Scm>("scm")
    }

    /// Sets the source control of the project; `None` removes it.
    pub fn set_scm(&mut self, value: Option<Scm>) -> (r: Result<(), XMLEditorError>)
        requires
            old(self).wf(),
        ensures
            r is Ok,
            final(self).wf(),
            final(self).root_spec() == old(self).root_spec(),
            match (value, first_child(old(self).model(), old(self).root_spec(), "scm"@)) {
                (Some(v), Some(k)) => v.updates(old(self).model(), final(self).model(), k),
                (Some(v), None) => eu::written_element(
                    old(self).model(),
                    final(self).model(),
                    final(self).model()[old(self).root_spec()].children.last(),
                    v,
                ),
                (None, Some(k)) => final(self).model()[old(self).root_spec()].children == dom::remove_first(
                    old(self).model()[old(self).root_spec()].children,
                    k,
                ),
                (None, None) => final(self).model() == old(self).model(),
            },
    {
        self.set_structured::<Scm>(value)
    }
}

} // verus!

verus! {

impl PomEditor {
    /// A new descriptor: a `project` root with the schema attributes and model version `4.0.0`.
    pub fn new() -> (r: Self)
        ensures
            r.wf(),
            r.model()[r.root_spec()].name == "project"@,
            first_text(r.model(), r.root_spec(), "modelVersion"@) == Some("4.0.0"@),
    {
        proof {
            reveal_strlit("project");
            dom::lemma_plain_name("project"@);
        }
        let mut document = dom::new_document();
        let project = dom::new_element(&mut document, "project");
        dom::set_attribute(&mut document, project, "xmlns", "http://maven.apache.org/POM/4.0.0");
        dom::set_attribute(&mut document, project, "xmlns:xsi", "http://www.w3.org/2001/XMLSchema-instance");
        dom::set_attribute(
            &mut document,
            project,
            "xsi:schemaLocation",
            "http://maven.apache.org/POM/4.0.0 http://maven.apache.org/maven-v4_0_0.xsd",
        );
        let holder_element = dom::document_holder(&document);
        let _ = dom::push_child(&mut document, holder_element, project);
        let ghost m0 = nodes(document);
        assert(m0[holder(document)].children =~= seq![project]);
        let mut editor = PomEditor { document, ident_level: 2 };
        assert(editor.root_spec() == project);
        editor.set_model_version(Some("4.0.0"));
        proof {
            let m = editor.model();
            reveal_strlit("modelVersion");
            dom::lemma_plain_name("modelVersion"@);
            assert(m0[project].children.len() == 0);
            eu::lemma_first_named(m, m[project].children, "modelVersion"@);
            assert(m[project].children.len() == 1);
            assert(m[project].children[0] == m[project].children.last());
        }
        editor
    }

    /// A new descriptor with the group id and artifact id set.
    pub fn new_with_group_and_artifact(group_id: &str, artifact_id: &str) -> (r: Self)
        ensures
            r.wf(),
            first_text(r.model(), r.root_spec(), "groupId"@) == Some(group_id@),
            first_text(r.model(), r.root_spec(), "artifactId"@) == Some(artifact_id@),
    {
        let mut editor = Self::new();
        let ghost m0 = editor.model();
        editor.set_group_id(Some(group_id));
        let ghost m1 = editor.model();
        editor.set_artifact_id(Some(artifact_id));
        proof {
            let root = editor.root_spec();
            reveal_strlit("groupId");
            reveal_strlit("artifactId");
            dom::lemma_plain_name("groupId"@);
            dom::lemma_plain_name("artifactId"@);
            eu::lemma_synced_then_first_text(m0, m1, root, "groupId"@, group_id@);
            assert(m1.dom().contains(root));
            eu::lemma_synced_keeps_first_text(m1, editor.model(), root, "artifactId"@, artifact_id@, "groupId"@);
        }
        editor
    }

    /// Checks that the document has a root element named `project`.
    fn assert_requirements_for_pom(document: &Document) -> (r: Result<(), XMLEditorError>)
        requires
            well_formed(*document),
        ensures
            match r {
                Ok(_) => nodes(*document)[holder(*document)].children.len() > 0 && nodes(*document)[nodes(
                    *document,
                )[holder(*document)].children[0]].name == "project"@,
                Err(e) => if nodes(*document)[holder(*document)].children.len() == 0 {
                    e matches XMLEditorError::MissingElement(MissingElementError(t)) && t@ == "project"@
                } else {
                    let name = nodes(*document)[nodes(*document)[holder(*document)].children[0]].name;
                    &&& name != "project"@
                    &&& (e matches XMLEditorError::UnexpectedElementType { found, .. } && found@ == name)
                },
            },
    {
        let root = match dom::root_element(document) {
            Some(root) => root,
            None => return Err(XMLEditorError::MissingElement(MissingElementError("project"))),
        };
        let name = dom::name_of(document, root);
        if !str_eq(name.as_str(), "project") {
            return Err(XMLEditorError::UnexpectedElementType { expected: "project", found: name });
        }
        Ok(())
    }

    /// Reads a descriptor; its root element must be `project`.
    pub fn load_from_str(value: &str) -> (r: Result<Self, XMLEditorError>)
        ensures
            r is Ok == (dom::xml_parses(value@) && dom::parsed_root_name(value@) == Some("project"@)),
            r matches Ok(editor) ==> editor.wf() && editor.model()[editor.root_spec()].name == "project"@,
            !dom::xml_parses(value@) ==> r matches Err(XMLEditorError::EditXMLError(_)),
            dom::xml_parses(value@) ==> match dom::parsed_root_name(value@) {
                None => r matches Err(XMLEditorError::MissingElement(MissingElementError(t))) && t@ == "project"@,
                Some(n) => n != "project"@ ==> (r matches Err(XMLEditorError::UnexpectedElementType { found, .. })
                    && found@ == n),
            },
    {
        let document = match dom::parse_document(value) {
            Ok(document) => document,
            Err(e) => return Err(XMLEditorError::EditXMLError(e)),
        };
        match Self::assert_requirements_for_pom(&document) {
            Ok(()) => Ok(PomEditor { document, ident_level: 2 }),
            Err(e) => Err(e),
        }
    }

    /// Writes the descriptor, with the XML declaration, indented by `ident_level`.
    pub fn write_to_str(&self) -> (r: Result<String, XMLEditorError>) {
        match dom::write_document(&self.document, self.ident_level) {
            Ok(s) => Ok(s),
            Err(e) => Err(XMLEditorError::EditXMLError(e)),
        }
    }

    /// Whether the root has a child named `tag`.
    fn has_section(&self, tag: &str) -> (r: bool)
        requires
            self.wf(),
        ensures
            r == first_child(self.model(), self.root_spec(), tag@) is Some,
    {
        let root = self.root();
        find_element(root, tag, &self.document).is_some()
    }

    /// Removes the first child of the root named `tag`; tells whether there was one.
    fn delete_section(&mut self, tag: &str) -> (r: Result<bool, XMLEditorError>)
        requires
            old(self).wf(),
        ensures
            final(self).wf(),
            final(self).root_spec() == old(self).root_spec(),
            match first_child(old(self).model(), old(self).root_spec(), tag@) {
                Some(k) => r == Ok::<bool, XMLEditorError>(true) && final(self).model()[old(self).root_spec()].children
                    == dom::remove_first(old(self).model()[old(self).root_spec()].children, k),
                None => r == Ok::<bool, XMLEditorError>(false) && final(self).model() == old(self).model(),
            },
    {
        let root = self.root();
        match find_element(root, tag, &self.document) {
            Some(element) => {
                proof {
                    eu::lemma_first_named(nodes(self.document), nodes(self.document)[root].children, tag@);
                    assert(nodes(self.document)[holder(self.document)].children.contains(root));
                }
                let _ = dom::detach(&mut self.document, element);
                Ok(true)
            },
            None => Ok(false),
        }
    }

    /// The first child of the root named `tag`, created when missing.
    fn section(&mut self, tag: &str) -> (r: Element)
        requires
            old(self).wf(),
        ensures
            final(self).wf(),
            final(self).root_spec() == old(self).root_spec(),
            is_element_of(final(self).doc(), r),
            final(self).model()[r].parent == Some(old(self).root_spec()),
            match first_child(old(self).model(), old(self).root_spec(), tag@) {
                Some(k) => r == k && final(self).model() == old(self).model(),
                None => {
                    &&& final(self).model()[r].children.len() == 0
                    &&& final(self).model()[r].name == dom::local_name(tag@)
                    &&& !old(self).model().dom().contains(r)
                    &&& final(self).model()[old(self).root_spec()].children == old(self).model()[old(self).root_spec()].children.push(r)
                },
            },
    {
        let root = self.root();
        proof {
            assert(nodes(self.document)[holder(self.document)].children.contains(root));
        }
        eu::get_or_create_top_level_element(tag, &mut self.document, root)
    }

    pub fn has_build(&self) -> (r: bool)
        requires
            self.wf(),
        ensures
            r == first_child(self.model(), self.root_spec(), "build"@) is Some,
    {
        self.has_section("build")
    }

    /// Removes the build section; tells whether there was one.
    pub fn delete_build(&mut self) -> (r: Result<bool, XMLEditorError>)
        requires
            old(self).wf(),
        ensures
            final(self).wf(),
            final(self).root_spec() == old(self).root_spec(),
            r == Ok::<bool, XMLEditorError>(first_child(old(self).model(), old(self).root_spec(), "build"@) is Some),
            match first_child(old(self).model(), old(self).root_spec(), "build"@) {
                Some(k) => final(self).model()[old(self).root_spec()].children == dom::remove_first(
                    old(self).model()[old(self).root_spec()].children,
                    k,
                ),
                None => final(self).model() == old(self).model(),
            },
    {
        self.delete_section("build")
    }

    pub fn has_dependency_management(&self) -> (r: bool)
        requires
            self.wf(),
        ensures
            r == first_child(self.model(), self.root_spec(), "dependencyManagement"@) is Some,
    {
        self.has_section("dependencyManagement")
    }

    /// Removes the dependency management section; tells whether there was one.
    pub fn delete_dependency_management(&mut self) -> (r: Result<bool, XMLEditorError>)
        requires
            old(self).wf(),
        ensures
            final(self).wf(),
            r == Ok::<bool, XMLEditorError>(
                first_child(old(self).model(), old(self).root_spec(), "dependencyManagement"@) is Some,
            ),
            final(self).root_spec() == old(self).root_spec(),
            match first_child(old(self).model(), old(self).root_spec(), "dependencyManagement"@) {
                Some(k) => final(self).model()[old(self).root_spec()].children == dom::remove_first(
                    old(self).model()[old(self).root_spec()].children,
                    k,
                ),
                None => final(self).model() == old(self).model(),
            },
    {
        self.delete_section("dependencyManagement")
    }

    pub fn has_distribution_management(&self) -> (r: bool)
        requires
            self.wf(),
        ensures
            r == first_child(self.model(), self.root_spec(), "distributionManagement"@) is Some,
    {
        self.has_section("distributionManagement")
    }

    /// Removes the distribution management section; tells whether there was one.
    pub fn delete_distribution_management(&mut self) -> (r: Result<bool, XMLEditorError>)
        requires
            old(self).wf(),
        ensures
            final(self).wf(),
            r == Ok::<bool, XMLEditorError>(
                first_child(old(self).model(), old(self).root_spec(), "distributionManagement"@) is Some,
            ),
            final(self).root_spec() == old(self).root_spec(),
            match first_child(old(self).model(), old(self).root_spec(), "distributionManagement"@) {
                Some(k) => final(self).model()[old(self).root_spec()].children == dom::remove_first(
                    old(self).model()[old(self).root_spec()].children,
                    k,
                ),
                None => final(self).model() == old(self).model(),
            },
    {
        self.delete_section("distributionManagement")
    }
}

impl Default for PomEditor {
    fn default() -> (r: Self)
        ensures
            r.wf(),
    {
        PomEditor::new()
    }
}

} // verus!
