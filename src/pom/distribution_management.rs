use vstd::prelude::*;

use edit_xml::{Document, Element};

use crate::editor::dom::{self, NodeState, nodes};
use crate::editor::utils::{
    create_text_elements, find_or_create_then_set_text_content, last_text, last_texts, leaves_written,
    optional_field, optional_view, optional_rendered_value, pairs_view, read_typed, sync_element, synced,
    take_last, text_leaf, typed_result, as_str_option, MissingElementError, children_parse, validate_children,
};
use crate::editor::{ComparableElement, ElementConverter, HasElementName, PomValue, UpdatableElement, XMLEditorError};
use crate::pom::{is_missing, is_same_named, same_named, ChecksumPolicy, UpdatePolicy, repository_fields_synced, update_repository_fields};

verus! {

/// Where a project is deployed to.
#[derive(Debug, Clone, Default, PartialEq, Eq)]
pub struct DistributionRepository {
    pub id: Option<String>,
    pub name: Option<String>,
    pub url: String,
    pub layout: Option<String>,
    pub update_policy: Option<UpdatePolicy>,
    pub checksum_policy: Option<ChecksumPolicy>,
}

impl DistributionRepository {
    pub open spec fn fields(&self) -> Seq<(Seq<char>, Seq<char>)> {
        optional_field("id"@, optional_view(self.id)) + optional_field("name"@, optional_view(self.name))
            + seq![("url"@, self.url@)] + optional_field("layout"@, optional_view(self.layout))
            + optional_field("updatePolicy"@, optional_rendered_value(self.update_policy))
            + optional_field("checksumPolicy"@, optional_rendered_value(self.checksum_policy))
    }

    /// This repository, written as `<repository>`.
    pub fn repository(self) -> (r: DistributionRepositoryRepository)
        ensures
            r.0 == self,
    {
        DistributionRepositoryRepository::new(self)
    }

    /// This repository, written as `<snapshotRepository>`.
    pub fn snapshot_repository(self) -> (r: DistributionRepositorySnapshotRepository)
        ensures
            r.0 == self,
    {
        DistributionRepositorySnapshotRepository::new(self)
    }

    /// The tags and texts of the leaves, in canonical order.
    pub fn field_pairs(&self) -> (r: Vec<(&'static str, String)>)
        ensures
            pairs_view(r@) == self.fields(),
    {
        let mut fields: Vec<(&str, String)> = Vec::new();
        if let Some(v) = &self.id {
            fields.push(("id", v.clone()));
        }
        let ghost f1 = pairs_view(fields@);
        assert(f1 =~= optional_field("id"@, optional_view(self.id)));
        if let Some(v) = &self.name {
            fields.push(("name", v.clone()));
        }
        let ghost f2 = pairs_view(fields@);
        assert(f2 =~= f1 + optional_field("name"@, optional_view(self.name)));
        fields.push(("url", self.url.clone()));
        let ghost f3 = pairs_view(fields@);
        assert(f3 =~= f2 + seq![("url"@, self.url@)]);
        if let Some(v) = &self.layout {
            fields.push(("layout", v.clone()));
        }
        let ghost f4 = pairs_view(fields@);
        assert(f4 =~= f3 + optional_field("layout"@, optional_view(self.layout)));
        if let Some(v) = self.update_policy {
            fields.push(("updatePolicy", v.to_string_for_editor()));
        }
        let ghost f5 = pairs_view(fields@);
        assert(f5 =~= f4 + optional_field("updatePolicy"@, optional_rendered_value(self.update_policy)));
        if let Some(v) = self.checksum_policy {
            fields.push(("checksumPolicy", v.to_string_for_editor()));
        }
        assert(pairs_view(fields@) =~= f5 + optional_field("checksumPolicy"@, optional_rendered_value(self.checksum_policy)));
        fields
    }
}

impl ComparableElement for DistributionRepository {
    open spec fn same_item(&self, other: &Self) -> bool {
        same_named(self.name, other.name)
    }

    fn is_same_item(&self, other: &Self) -> (r: bool) {
        is_same_named(&self.name, &other.name)
    }
}

impl ElementConverter for DistributionRepository {
    open spec fn decodes(m: Map<Element, NodeState>, e: Element, r: Result<Self, XMLEditorError>) -> bool {
        let kids = m[e].children;
        if exists|x: XMLEditorError| children_parse::<UpdatePolicy>(m, kids, "updatePolicy"@, Err(x)) {
            r matches Err(err) && children_parse::<UpdatePolicy>(m, kids, "updatePolicy"@, Err(err))
        } else         if exists|x: XMLEditorError| children_parse::<ChecksumPolicy>(m, kids, "checksumPolicy"@, Err(x)) {
            r matches Err(err) && children_parse::<ChecksumPolicy>(m, kids, "checksumPolicy"@, Err(err))
        } else {
            exists|ru: Result<Option<UpdatePolicy>, XMLEditorError>, rc: Result<Option<ChecksumPolicy>, XMLEditorError>|
                #![trigger typed_result(last_text(m, kids, "updatePolicy"@), ru), typed_result(last_text(m, kids, "checksumPolicy"@), rc)]
                typed_result(last_text(m, kids, "updatePolicy"@), ru) && typed_result(last_text(m, kids, "checksumPolicy"@), rc)
                    && match (ru, rc) {
                    (Err(x), _) => r == Err::<Self, XMLEditorError>(x),
                    (Ok(_), Err(x)) => r == Err::<Self, XMLEditorError>(x),
                    (Ok(u), Ok(c)) => if last_text(m, kids, "url"@) is None {
                        r matches Err(err) && is_missing(err, "url"@)
                    } else {
                        r matches Ok(d) && {
                            &&& optional_view(d.id) == last_text(m, kids, "id"@)
                            &&& optional_view(d.name) == last_text(m, kids, "name"@)
                            &&& d.url@ == last_text(m, kids, "url"@)->0
                            &&& optional_view(d.layout) == last_text(m, kids, "layout"@)
                            &&& d.update_policy == u
                            &&& d.checksum_policy == c
                        }
                    },
                }
        }
    }

    open spec fn written_as(&self, m: Map<Element, NodeState>, kids: Seq<Element>) -> bool {
        leaves_written(m, kids, self.fields())
    }

    proof fn lemma_written_as_frame(
        &self,
        a: Map<Element, NodeState>,
        b: Map<Element, NodeState>,
        kids: Seq<Element>,
        changed: Set<Element>,
    ) {
        assert forall|i: int| 0 <= i < kids.len() implies text_leaf(b, #[trigger] kids[i], self.fields()[i].0, self.fields()[i].1) by {
            assert(!changed.contains(kids[i]));
        }
    }

    fn from_element(element: Element, document: &Document) -> (r: Result<Self, XMLEditorError>) {
        match validate_children::<UpdatePolicy>(element, "updatePolicy", document) {
            Ok(()) => {},
            Err(e) => return Err(e),
        }
        match validate_children::<ChecksumPolicy>(element, "checksumPolicy", document) {
            Ok(()) => {},
            Err(e) => return Err(e),
        }
        let tags = vec!["id", "name", "url", "layout", "updatePolicy", "checksumPolicy"];
        let mut vals = last_texts(element, &tags, document);
        let checksum_policy = take_last(&mut vals);
        let update_policy = take_last(&mut vals);
        let layout = take_last(&mut vals);
        let url = take_last(&mut vals);
        let name = take_last(&mut vals);
        let id = take_last(&mut vals);
        proof {
            assert(tags[0]@ == "id"@);
            assert(tags[1]@ == "name"@);
            assert(tags[2]@ == "url"@);
            assert(tags[3]@ == "layout"@);
            assert(tags[4]@ == "updatePolicy"@);
            assert(tags[5]@ == "checksumPolicy"@);
        }
        let ru = read_typed::<UpdatePolicy>(update_policy);
        let rc = read_typed::<ChecksumPolicy>(checksum_policy);
        let ghost (gru, grc) = (ru, rc);
        let update_policy = match ru {
            Ok(v) => v,
            Err(e) => return Err(e),
        };
        let checksum_policy = match rc {
            Ok(v) => v,
            Err(e) => return Err(e),
        };
        let url = match url {
            Some(u) => u,
            None => return Err(XMLEditorError::MissingElement(MissingElementError("url"))),
        };
        Ok(DistributionRepository { id, name, url, layout, update_policy, checksum_policy })
    }

    fn into_children(self, document: &mut Document) -> (r: Result<Vec<Element>, XMLEditorError>) {
        let fields = self.field_pairs();
        Ok(create_text_elements(document, fields))
    }
}

impl UpdatableElement for DistributionRepository {
    /// Every managed field is written, or removed when absent; other children stay.
    open spec fn updates(&self, a: Map<Element, NodeState>, b: Map<Element, NodeState>, e: Element) -> bool {
        repository_fields_synced(a, b, e, self.id, self.name, self.url@, self.layout, self.update_policy, self.checksum_policy)
    }

    fn update_element(&self, element: Element, document: &mut Document) -> (r: Result<(), XMLEditorError>) {
        update_repository_fields(
            document,
            element,
            &self.id,
            &self.name,
            &self.url,
            &self.layout,
            &self.update_policy,
            &self.checksum_policy,
        );
        Ok(())
    }
}

/// A distribution repository written as `<repository>`.
#[derive(Debug, Clone, PartialEq, Eq)]
pub struct DistributionRepositoryRepository(pub DistributionRepository);

/// A distribution repository written as `<snapshotRepository>`.
#[derive(Debug, Clone, PartialEq, Eq)]
pub struct DistributionRepositorySnapshotRepository(pub DistributionRepository);

impl DistributionRepositoryRepository {
    pub fn new(repository: DistributionRepository) -> (r: Self)
        ensures
            r.0 == repository,
    {
        DistributionRepositoryRepository(repository)
    }
}

impl DistributionRepositorySnapshotRepository {
    pub fn new(repository: DistributionRepository) -> (r: Self)
        ensures
            r.0 == repository,
    {
        DistributionRepositorySnapshotRepository(repository)
    }
}

} // verus!

verus! {

impl HasElementName for DistributionRepositoryRepository {
    open spec fn tag() -> Seq<char> {
        "repository"@
    }

    fn element_name() -> (r: &'static str) {
        "repository"
    }
}

impl ComparableElement for DistributionRepositoryRepository {
    open spec fn same_item(&self, other: &Self) -> bool {
        self.0.same_item(&other.0)
    }

    fn is_same_item(&self, other: &Self) -> (r: bool) {
        self.0.is_same_item(&other.0)
    }
}

impl ElementConverter for DistributionRepositoryRepository {
    open spec fn decodes(m: Map<Element, NodeState>, e: Element, r: Result<Self, XMLEditorError>) -> bool {
        match r {
            Ok(w) => DistributionRepository::decodes(m, e, Ok(w.0)),
            Err(x) => DistributionRepository::decodes(m, e, Err(x)),
        }
    }

    open spec fn written_as(&self, m: Map<Element, NodeState>, kids: Seq<Element>) -> bool {
        self.0.written_as(m, kids)
    }

    proof fn lemma_written_as_frame(
        &self,
        a: Map<Element, NodeState>,
        b: Map<Element, NodeState>,
        kids: Seq<Element>,
        changed: Set<Element>,
    ) {
        self.0.lemma_written_as_frame(a, b, kids, changed);
    }

    fn from_element(element: Element, document: &Document) -> (r: Result<Self, XMLEditorError>) {
        match DistributionRepository::from_element(element, document) {
            Ok(repository) => Ok(DistributionRepositoryRepository(repository)),
            Err(e) => Err(e),
        }
    }

    fn into_children(self, document: &mut Document) -> (r: Result<Vec<Element>, XMLEditorError>) {
        self.0.into_children(document)
    }
}

impl UpdatableElement for DistributionRepositoryRepository {
    open spec fn updates(&self, a: Map<Element, NodeState>, b: Map<Element, NodeState>, e: Element) -> bool {
        self.0.updates(a, b, e)
    }

    fn update_element(&self, element: Element, document: &mut Document) -> (r: Result<(), XMLEditorError>) {
        self.0.update_element(element, document)
    }
}

impl HasElementName for DistributionRepositorySnapshotRepository {
    open spec fn tag() -> Seq<char> {
        "snapshotRepository"@
    }

    fn element_name() -> (r: &'static str) {
        "snapshotRepository"
    }
}

impl ComparableElement for DistributionRepositorySnapshotRepository {
    open spec fn same_item(&self, other: &Self) -> bool {
        self.0.same_item(&other.0)
    }

    fn is_same_item(&self, other: &Self) -> (r: bool) {
        self.0.is_same_item(&other.0)
    }
}

impl ElementConverter for DistributionRepositorySnapshotRepository {
    open spec fn decodes(m: Map<Element, NodeState>, e: Element, r: Result<Self, XMLEditorError>) -> bool {
        match r {
            Ok(w) => DistributionRepository::decodes(m, e, Ok(w.0)),
            Err(x) => DistributionRepository::decodes(m, e, Err(x)),
        }
    }

    open spec fn written_as(&self, m: Map<Element, NodeState>, kids: Seq<Element>) -> bool {
        self.0.written_as(m, kids)
    }

    proof fn lemma_written_as_frame(
        &self,
        a: Map<Element, NodeState>,
        b: Map<Element, NodeState>,
        kids: Seq<Element>,
        changed: Set<Element>,
    ) {
        self.0.lemma_written_as_frame(a, b, kids, changed);
    }

    fn from_element(element: Element, document: &Document) -> (r: Result<Self, XMLEditorError>) {
        match DistributionRepository::from_element(element, document) {
            Ok(repository) => Ok(DistributionRepositorySnapshotRepository(repository)),
            Err(e) => Err(e),
        }
    }

    fn into_children(self, document: &mut Document) -> (r: Result<Vec<Element>, XMLEditorError>) {
        self.0.into_children(document)
    }
}

impl UpdatableElement for DistributionRepositorySnapshotRepository {
    open spec fn updates(&self, a: Map<Element, NodeState>, b: Map<Element, NodeState>, e: Element) -> bool {
        self.0.updates(a, b, e)
    }

    fn update_element(&self, element: Element, document: &mut Document) -> (r: Result<(), XMLEditorError>) {
        self.0.update_element(element, document)
    }
}

} // verus!
