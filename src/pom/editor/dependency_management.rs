use vstd::prelude::*;

use edit_xml::Element;

use super::{list_under, values_under, PomEditor};
use crate::editor::dom::{self, NodeState, nodes, holder, is_element_of};
use crate::editor::utils::{self as eu, add_or_update_item, find_element, first_child, upsert_outcome};
use crate::editor::XMLEditorError;
use crate::pom::Dependency;

verus! {

/// Edits the dependency management section of a project.
#[derive(Debug)]
pub struct DependencyManagementEditor<'a> {
    parent: &'a mut PomEditor,
    dependency_management_element: Element,
}

impl<'a> DependencyManagementEditor<'a> {
    /// The editor and its section are consistent.
    pub closed spec fn wf(&self) -> bool {
        &&& (*self.parent).wf()
        &&& is_element_of((*self.parent).doc(), self.dependency_management_element)
    }

    /// The elements of the document.
    pub closed spec fn model(&self) -> Map<Element, NodeState> {
        (*self.parent).model()
    }

    /// The dependency management element.
    pub closed spec fn element(&self) -> Element {
        self.dependency_management_element
    }

    pub(super) fn new(parent: &'a mut PomEditor) -> (r: Self)
        requires
            old(parent).wf(),
        ensures
            r.wf(),
            first_child(old(parent).model(), old(parent).root_spec(), "dependencyManagement"@) matches Some(k) ==> r.model()
                == old(parent).model() && r.element() == k,
            first_child(old(parent).model(), old(parent).root_spec(), "dependencyManagement"@) is None ==> {
                &&& r.model()[r.element()].children.len() == 0
                &&& r.model()[r.element()].name == dom::local_name("dependencyManagement"@)
                &&& !old(parent).model().dom().contains(r.element())
                &&& r.model()[old(parent).root_spec()].children == old(parent).model()[old(parent).root_spec()].children.push(
                    r.element(),
                )
            },
    {
        let dependency_management_element = parent.section("dependencyManagement");
        DependencyManagementEditor { parent, dependency_management_element }
    }

    fn dependencies_element(&self) -> (r: Option<Element>)
        requires
            self.wf(),
        ensures
            r == first_child(self.model(), self.element(), "dependencies"@),
    {
        find_element(self.dependency_management_element, "dependencies", &self.parent.document)
    }

    /// The managed dependencies; none when the list is missing.
    pub fn get_dependencies(&self) -> (r: Result<Vec<Dependency>, XMLEditorError>)
        requires
            self.wf(),
        ensures
            list_under::<Dependency>(self.model(), self.element(), "dependencies"@, r),
    {
        values_under::<Dependency>(&self.parent.document, self.dependency_management_element, "dependencies")
    }

    /// Adds `dependency`, or updates the dependency that is the same item; returns it as it was.
    pub fn add_or_update_dependency(&mut self, dependency: Dependency) -> (r: Result<Option<Dependency>, XMLEditorError>)
        requires
            old(self).wf(),
        ensures
            final(self).wf(),
            upsert_outcome(
                old(self).model(),
                final(self).model(),
                first_child(old(self).model(), old(self).element(), "dependencies"@),
                old(self).element(),
                dependency,
                r,
            ),
    {
        let dependencies_element = self.dependencies_element();
        proof {
            eu::lemma_first_named(self.model(), self.model()[self.dependency_management_element].children, "dependencies"@);
        }
        add_or_update_item(&mut self.parent.document, dependencies_element, self.dependency_management_element, dependency)
    }
}

impl PomEditor {
    /// An editor of the dependency management section, which is created when missing.
    pub fn get_or_create_dependency_management_element(&mut self) -> (r: DependencyManagementEditor<'_>)
        requires
            old(self).wf(),
        ensures
            r.wf(),
            first_child(old(self).model(), old(self).root_spec(), "dependencyManagement"@) matches Some(k) ==> r.model() == old(self).model()
                && r.element() == k,
            first_child(old(self).model(), old(self).root_spec(), "dependencyManagement"@) is None ==> {
                &&& r.model()[r.element()].children.len() == 0
                &&& r.model()[r.element()].name == dom::local_name("dependencyManagement"@)
                &&& !old(self).model().dom().contains(r.element())
                &&& r.model()[old(self).root_spec()].children == old(self).model()[old(self).root_spec()].children.push(
                    r.element(),
                )
            },
    {
        DependencyManagementEditor::new(self)
    }

    /// An editor of the dependency management section, when there is one.
    pub fn get_dependency_management_element_or_none(&mut self) -> (r: Option<DependencyManagementEditor<'_>>)
        requires
            old(self).wf(),
        ensures
            r matches Some(e) ==> e.wf() && e.model() == old(self).model(),
            r is None ==> *final(self) == *old(self),
            r is Some == first_child(old(self).model(), old(self).root_spec(), "dependencyManagement"@) is Some,
    {
        if self.has_dependency_management() {
            return Some(DependencyManagementEditor::new(self));
        }
        None
    }
}

} // verus!
