use vstd::prelude::*;

use edit_xml::{Document, Element};

use crate::editor::dom::{self, NodeState, nodes};
use crate::editor::utils::{
    create_text_elements, find_or_create_then_set_text_content, last_text, last_texts, leaves_written,
    optional_field, optional_view, pairs_view, replace_all_elements, sync_element, synced, take_last, text_leaf,
    as_str_option, MissingElementError,
};
use crate::editor::{
    ChildOfListElement, ComparableElement, ElementConverter, HasElementName, UpdatableElement, XMLEditorError,
};
use crate::pom::is_missing;

verus! {

/// The parent project a project inherits from.
#[derive(Debug, Clone, Default, PartialEq, Eq, Hash)]
pub struct Parent {
    pub group_id: Option<String>,
    pub artifact_id: Option<String>,
    pub version: Option<String>,
    pub relative_path: Option<String>,
}

impl Parent {
    pub open spec fn fields(&self) -> Seq<(Seq<char>, Seq<char>)> {
        optional_field("groupId"@, optional_view(self.group_id))
            + optional_field("artifactId"@, optional_view(self.artifact_id))
            + optional_field("version"@, optional_view(self.version))
            + optional_field("relativePath"@, optional_view(self.relative_path))
    }
}

impl HasElementName for Parent {
    open spec fn tag() -> Seq<char> {
        "parent"@
    }

    fn element_name() -> (r: &'static str) {
        "parent"
    }
}

impl ElementConverter for Parent {
    open spec fn decodes(m: Map<Element, NodeState>, e: Element, r: Result<Self, XMLEditorError>) -> bool {
        let kids = m[e].children;
        r matches Ok(d) && {
            &&& optional_view(d.group_id) == last_text(m, kids, "groupId"@)
            &&& optional_view(d.artifact_id) == last_text(m, kids, "artifactId"@)
            &&& optional_view(d.version) == last_text(m, kids, "version"@)
            &&& optional_view(d.relative_path) == last_text(m, kids, "relativePath"@)
        }
    }

    open spec fn written_as(&self, m: Map<Element, NodeState>, kids: Seq<Element>) -> bool {
        leaves_written(m, kids, self.fields())
    }

    proof fn lemma_written_as_frame(
        &self,
        a: Map<Element, NodeState>,
        b: Map<Element, NodeState>,
        kids: Seq<Element>,
        changed: Set<Element>,
    ) {
        assert forall|i: int| 0 <= i < kids.len() implies text_leaf(b, #[trigger] kids[i], self.fields()[i].0, self.fields()[i].1) by {
            assert(!changed.contains(kids[i]));
        }
    }

    fn from_element(element: Element, document: &Document) -> (r: Result<Self, XMLEditorError>) {
        let tags = vec!["groupId", "artifactId", "version", "relativePath"];
        let mut vals = last_texts(element, &tags, document);
        let relative_path = take_last(&mut vals);
        let version = take_last(&mut vals);
        let artifact_id = take_last(&mut vals);
        let group_id = take_last(&mut vals);
        proof {
            assert(tags[0]@ == "groupId"@);
            assert(tags[1]@ == "artifactId"@);
            assert(tags[2]@ == "version"@);
            assert(tags[3]@ == "relativePath"@);
        }
        Ok(Parent { group_id, artifact_id, version, relative_path })
    }

    fn into_children(self, document: &mut Document) -> (r: Result<Vec<Element>, XMLEditorError>) {
        let ghost me = self;
        let mut fields: Vec<(&str, String)> = Vec::new();
        let ghost f0 = pairs_view(fields@);
        assert(f0 =~= Seq::empty());
        if let Some(v) = self.group_id {
            fields.push(("groupId", v));
        }
        let ghost f1 = pairs_view(fields@);
        assert(f1 =~= f0 + optional_field("groupId"@, optional_view(me.group_id)));
        if let Some(v) = self.artifact_id {
            fields.push(("artifactId", v));
        }
        let ghost f2 = pairs_view(fields@);
        assert(f2 =~= f1 + optional_field("artifactId"@, optional_view(me.artifact_id)));
        if let Some(v) = self.version {
            fields.push(("version", v));
        }
        let ghost f3 = pairs_view(fields@);
        assert(f3 =~= f2 + optional_field("version"@, optional_view(me.version)));
        if let Some(v) = self.relative_path {
            fields.push(("relativePath", v));
        }
        let ghost f4 = pairs_view(fields@);
        assert(f4 =~= f3 + optional_field("relativePath"@, optional_view(me.relative_path)));
        assert(pairs_view(fields@) =~= me.fields());
        Ok(create_text_elements(document, fields))
    }
}

impl UpdatableElement for Parent {
    open spec fn updates(&self, a: Map<Element, NodeState>, b: Map<Element, NodeState>, e: Element) -> bool {
        exists|m1: Map<Element, NodeState>, m2: Map<Element, NodeState>, m3: Map<Element, NodeState>|
            synced(a, m1, e, "groupId"@, optional_view(self.group_id))
                && synced(m1, m2, e, "artifactId"@, optional_view(self.artifact_id))
                && synced(m2, m3, e, "version"@, optional_view(self.version))
                && synced(m3, b, e, "relativePath"@, optional_view(self.relative_path))
    }

    fn update_element(&self, element: Element, document: &mut Document) -> (r: Result<(), XMLEditorError>) {
        proof {
            reveal_strlit("groupId");
            dom::lemma_plain_name("groupId"@);
            reveal_strlit("artifactId");
            dom::lemma_plain_name("artifactId"@);
            reveal_strlit("version");
            dom::lemma_plain_name("version"@);
            reveal_strlit("relativePath");
            dom::lemma_plain_name("relativePath"@);
        }
        let ghost m0 = nodes(*document);
        sync_element(document, element, "groupId", as_str_option(&self.group_id));
        let ghost m1 = nodes(*document);
        sync_element(document, element, "artifactId", as_str_option(&self.artifact_id));
        let ghost m2 = nodes(*document);
        sync_element(document, element, "version", as_str_option(&self.version));
        let ghost m3 = nodes(*document);
        sync_element(document, element, "relativePath", as_str_option(&self.relative_path));
        let ghost m4 = nodes(*document);
        assert(synced(m0, m1, element, "groupId"@, optional_view(self.group_id)));
        assert(synced(m1, m2, element, "artifactId"@, optional_view(self.artifact_id)));
        assert(synced(m2, m3, element, "version"@, optional_view(self.version)));
        assert(synced(m3, m4, element, "relativePath"@, optional_view(self.relative_path)));
        proof {
            crate::editor::utils::lemma_synced_then(m2, m3, m4, element, "version"@, optional_view(self.version));
            crate::editor::utils::lemma_synced_then(m1, m2, m4, element, "artifactId"@, optional_view(self.artifact_id));
            crate::editor::utils::lemma_synced_then(m0, m1, m4, element, "groupId"@, optional_view(self.group_id));
        }
        Ok(())
    }
}

} // verus!
