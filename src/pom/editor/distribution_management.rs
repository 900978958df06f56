use vstd::prelude::*;

use edit_xml::{Document, Element};

use super::PomEditor;
use crate::editor::dom::{self, NodeState, nodes, holder, is_element_of, well_formed};
use crate::editor::utils::{self as eu, find_element, first_child};
use crate::editor::{ElementConverter, HasElementName, UpdatableElement, XMLEditorError};
use crate::pom::{DistributionRepositoryRepository, DistributionRepositorySnapshotRepository};

verus! {

/// Edits the distribution management section of a project.
#[derive(Debug)]
pub struct DistributionManagementEditor<'a> {
    parent: &'a mut PomEditor,
    element: Element,
}

/// Reads the first child of `parent` named `tag` as a `T`.
fn get_structured_under<T: ElementConverter>(document: &Document, parent: Element, tag: &str) -> (r: Result<Option<T>, XMLEditorError>)
    requires
        well_formed(*document),
        nodes(*document).dom().contains(parent),
    ensures
        match first_child(nodes(*document), parent, tag@) {
            None => r == Ok::<Option<T>, XMLEditorError>(None),
            Some(k) => exists|x: Result<T, XMLEditorError>|
                #![trigger T::decodes(nodes(*document), k, x)]
                T::decodes(nodes(*document), k, x) && match x {
                    Ok(v) => r == Ok::<Option<T>, XMLEditorError>(Some(v)),
                    Err(e) => r == Err::<Option<T>, XMLEditorError>(e),
                },
        },
{
    match find_element(parent, tag, document) {
        None => Ok(None),
        Some(k) => {
            proof {
                eu::lemma_first_named(nodes(*document), nodes(*document)[parent].children, tag@);
            }
            let x = T::from_element(k, document);
            let ghost xg = x;
            match x {
                Ok(v) => Ok(Some(v)),
                Err(e) => Err(e),
            }
        },
    }
}

/// Updates the first child of `parent` named `T`'s tag from `value`, appends it when missing,
/// or removes it when `value` is `None`.
fn set_structured_under<T: UpdatableElement + HasElementName>(document: &mut Document, parent: Element, value: Option<T>) -> (r: Result<(), XMLEditorError>)
    requires
        well_formed(*old(document)),
        is_element_of(*old(document), parent),
    ensures
        r is Ok,
        well_formed(*final(document)),
        holder(*final(document)) == holder(*old(document)),
        nodes(*old(document)).dom().subset_of(nodes(*final(document)).dom()),
        nodes(*final(document))[holder(*old(document))].children == nodes(*old(document))[holder(*old(document))].children,
        match (value, first_child(nodes(*old(document)), parent, T::tag())) {
            (Some(v), Some(k)) => v.updates(nodes(*old(document)), nodes(*final(document)), k),
            (Some(v), None) => eu::written_element(
                nodes(*old(document)),
                nodes(*final(document)),
                nodes(*final(document))[parent].children.last(),
                v,
            ),
            (None, Some(k)) => nodes(*final(document))[parent].children == dom::remove_first(
                nodes(*old(document))[parent].children,
                k,
            ),
            (None, None) => nodes(*final(document)) == nodes(*old(document)),
        },
{
    let existing = find_element(parent, T::element_name(), document);
    proof {
        eu::lemma_first_named(nodes(*document), nodes(*document)[parent].children, T::tag());
    }
    match value {
        Some(v) => {
            if let Some(element) = existing {
                let _ = v.update_element(element, document);
                return Ok(());
            }
            let ghost vg = v;
            let new_element = match eu::into_element(v, document) {
                Ok(e) => e,
                Err(e) => return Err(e),
            };
            let ghost m1 = nodes(*document);
            proof {
                dom::lemma_fresh_not_ancestor(nodes(*old(document)), m1, new_element, parent);
            }
            let _ = dom::push_child(document, parent, new_element);
            proof {
                let b = nodes(*document);
                assert forall|i: int, j: int|
                    0 <= i < m1[new_element].children.len() && 0 <= j < m1[m1[new_element].children[i]].children.len()
                    implies !set![parent, new_element].contains(#[trigger] m1[m1[new_element].children[i]].children[j]) by {
                    assert(m1.dom().contains(m1[new_element].children[i]));
                    assert(m1.dom().contains(m1[m1[new_element].children[i]].children[j]));
                    assert(m1[m1[m1[new_element].children[i]].children[j]].parent == Some(m1[new_element].children[i]));
                }
                vg.lemma_written_as_frame(m1, b, m1[new_element].children, set![parent, new_element]);
            }
        },
        None => {
            if let Some(element) = existing {
                let _ = dom::detach(document, element);
            }
        },
    }
    Ok(())
}

impl<'a> DistributionManagementEditor<'a> {
    /// The editor and its section are consistent.
    pub closed spec fn wf(&self) -> bool {
        &&& (*self.parent).wf()
        &&& is_element_of((*self.parent).doc(), self.element)
    }

    /// The elements of the document.
    pub closed spec fn model(&self) -> Map<Element, NodeState> {
        (*self.parent).model()
    }

    /// The distribution management element.
    pub closed spec fn element(&self) -> Element {
        self.element
    }

    pub(super) fn new(parent: &'a mut PomEditor) -> (r: Self)
        requires
            old(parent).wf(),
        ensures
            r.wf(),
            first_child(old(parent).model(), old(parent).root_spec(), "distributionManagement"@) matches Some(k) ==> r.model()
                == old(parent).model() && r.element() == k,
            first_child(old(parent).model(), old(parent).root_spec(), "distributionManagement"@) is None ==> {
                &&& r.model()[r.element()].children.len() == 0
                &&& r.model()[r.element()].name == dom::local_name("distributionManagement"@)
                &&& !old(parent).model().dom().contains(r.element())
                &&& r.model()[old(parent).root_spec()].children == old(parent).model()[old(parent).root_spec()].children.push(
                    r.element(),
                )
            },
    {
        let element = parent.section("distributionManagement");
        DistributionManagementEditor { parent, element }
    }

    /// The repository that releases are deployed to.
    pub fn get_repository(&self) -> (r: Result<Option<DistributionRepositoryRepository>, XMLEditorError>)
        requires
            self.wf(),
        ensures
            match first_child(self.model(), self.element(), "repository"@) {
                None => r == Ok::<Option<DistributionRepositoryRepository>, XMLEditorError>(None),
                Some(k) => exists|x: Result<DistributionRepositoryRepository, XMLEditorError>|
                    #![trigger DistributionRepositoryRepository::decodes(self.model(), k, x)]
                    DistributionRepositoryRepository::decodes(self.model(), k, x) && match x {
                        Ok(v) => r == Ok::<Option<DistributionRepositoryRepository>, XMLEditorError>(Some(v)),
                        Err(e) => r == Err::<Option<DistributionRepositoryRepository>, XMLEditorError>(e),
                    },
            },
    {
        get_structured_under::<DistributionRepositoryRepository>(&self.parent.document, self.element, "repository")
    }

    /// The repository that snapshots are deployed to.
    pub fn get_snapshot_repository(&self) -> (r: Result<Option<DistributionRepositorySnapshotRepository>, XMLEditorError>)
        requires
            self.wf(),
        ensures
            match first_child(self.model(), self.element(), "snapshotRepository"@) {
                None => r == Ok::<Option<DistributionRepositorySnapshotRepository>, XMLEditorError>(None),
                Some(k) => exists|x: Result<DistributionRepositorySnapshotRepository, XMLEditorError>|
                    #![trigger DistributionRepositorySnapshotRepository::decodes(self.model(), k, x)]
                    DistributionRepositorySnapshotRepository::decodes(self.model(), k, x) && match x {
                        Ok(v) => r == Ok::<Option<DistributionRepositorySnapshotRepository>, XMLEditorError>(Some(v)),
                        Err(e) => r == Err::<Option<DistributionRepositorySnapshotRepository>, XMLEditorError>(e),
                    },
            },
    {
        get_structured_under::<DistributionRepositorySnapshotRepository>(
            &self.parent.document,
            self.element,
            "snapshotRepository",
        )
    }

    fn set_under<T: UpdatableElement + HasElementName>(&mut self, value: Option<T>) -> (r: Result<(), XMLEditorError>)
        requires
            old(self).wf(),
        ensures
            r is Ok,
            final(self).wf(),
            final(self).element() == old(self).element(),
            match (value, first_child(old(self).model(), old(self).element(), T::tag())) {
                (Some(v), Some(k)) => v.updates(old(self).model(), final(self).model(), k),
                (Some(v), None) => eu::written_element(
                    old(self).model(),
                    final(self).model(),
                    final(self).model()[old(self).element()].children.last(),
                    v,
                ),
                (None, Some(k)) => final(self).model()[old(self).element()].children == dom::remove_first(
                    old(self).model()[old(self).element()].children,
                    k,
                ),
                (None, None) => final(self).model() == old(self).model(),
            },
    {
        let ghost root = (*self.parent).root_spec();
        proof {
            assert(nodes(self.parent.document)[holder(self.parent.document)].children.contains(root));
        }
        set_structured_under::<T>(&mut self.parent.document, self.element, value)
    }

    /// Sets the release repository; `None` removes it.
    pub fn set_repository(&mut self, value: Option<DistributionRepositoryRepository>) -> (r: Result<(), XMLEditorError>)
        requires
            old(self).wf(),
        ensures
            r is Ok,
            final(self).wf(),
            final(self).element() == old(self).element(),
            match (value, first_child(old(self).model(), old(self).element(), "repository"@)) {
                (Some(v), Some(k)) => v.updates(old(self).model(), final(self).model(), k),
                (Some(v), None) => eu::written_element(
                    old(self).model(),
                    final(self).model(),
                    final(self).model()[old(self).element()].children.last(),
                    v,
                ),
                (None, Some(k)) => final(self).model()[old(self).element()].children == dom::remove_first(
                    old(self).model()[old(self).element()].children,
                    k,
                ),
                (None, None) => final(self).model() == old(self).model(),
            },
    {
        self.set_under(value)
    }

    /// Sets the snapshot repository; `None` removes it.
    pub fn set_snapshot_repository(&mut self, value: Option<DistributionRepositorySnapshotRepository>) -> (r: Result<(), XMLEditorError>)
        requires
            old(self).wf(),
        ensures
            r is Ok,
            final(self).wf(),
            final(self).element() == old(self).element(),
            match (value, first_child(old(self).model(), old(self).element(), "snapshotRepository"@)) {
                (Some(v), Some(k)) => v.updates(old(self).model(), final(self).model(), k),
                (Some(v), None) => eu::written_element(
                    old(self).model(),
                    final(self).model(),
                    final(self).model()[old(self).element()].children.last(),
                    v,
                ),
                (None, Some(k)) => final(self).model()[old(self).element()].children == dom::remove_first(
                    old(self).model()[old(self).element()].children,
                    k,
                ),
                (None, None) => final(self).model() == old(self).model(),
            },
    {
        self.set_under(value)
    }
}

impl PomEditor {
    /// An editor of the distribution management section, which is created when missing.
    pub fn get_or_create_distribution_management_element(&mut self) -> (r: DistributionManagementEditor<'_>)
        requires
            old(self).wf(),
        ensures
            r.wf(),
            first_child(old(self).model(), old(self).root_spec(), "distributionManagement"@) matches Some(k) ==> r.model() == old(self).model()
                && r.element() == k,
            first_child(old(self).model(), old(self).root_spec(), "distributionManagement"@) is None ==> {
                &&& r.model()[r.element()].children.len() == 0
                &&& r.model()[r.element()].name == dom::local_name("distributionManagement"@)
                &&& !old(self).model().dom().contains(r.element())
                &&& r.model()[old(self).root_spec()].children == old(self).model()[old(self).root_spec()].children.push(
                    r.element(),
                )
            },
    {
        DistributionManagementEditor::new(self)
    }

    /// An editor of the distribution management section, when there is one.
    pub fn get_distribution_management_element_or_none(&mut self) -> (r: Option<DistributionManagementEditor<'_>>)
        requires
            old(self).wf(),
        ensures
            r matches Some(e) ==> e.wf() && e.model() == old(self).model(),
            r is None ==> *final(self) == *old(self),
            r is Some == first_child(old(self).model(), old(self).root_spec(), "distributionManagement"@) is Some,
    {
        if self.has_distribution_management() {
            return Some(DistributionManagementEditor::new(self));
        }
        None
    }
}

} // verus!
