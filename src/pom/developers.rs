use vstd::prelude::*;

use edit_xml::{Document, Element};

use crate::editor::dom::{self, NodeState, nodes};
use crate::editor::utils::{
    create_text_elements, find_or_create_then_set_text_content, last_text, last_texts, leaves_written,
    optional_field, optional_view, pairs_view, replace_all_elements, sync_element, synced, take_last, text_leaf,
    as_str_option, MissingElementError,
};
use crate::editor::{
    ChildOfListElement, ComparableElement, ElementConverter, HasElementName, UpdatableElement, XMLEditorError,
};
use crate::pom::is_missing;

verus! {

/// A developer of a project.
#[derive(Debug, Clone, Default, PartialEq, Eq)]
pub struct Developer {
    pub id: Option<String>,
    pub name: Option<String>,
    pub email: Option<String>,
    pub url: Option<String>,
    pub organization: Option<String>,
    pub organization_url: Option<String>,
    pub timezone: Option<String>,
}

impl Developer {
    pub open spec fn fields(&self) -> Seq<(Seq<char>, Seq<char>)> {
        optional_field("id"@, optional_view(self.id))
            + optional_field("name"@, optional_view(self.name))
            + optional_field("email"@, optional_view(self.email))
            + optional_field("url"@, optional_view(self.url))
            + optional_field("organization"@, optional_view(self.organization))
            + optional_field("organizationUrl"@, optional_view(self.organization_url))
            + optional_field("timezone"@, optional_view(self.timezone))
    }
}

impl HasElementName for Developer {
    open spec fn tag() -> Seq<char> {
        "developer"@
    }

    fn element_name() -> (r: &'static str) {
        "developer"
    }
}

impl ChildOfListElement for Developer {
    open spec fn container_tag() -> Seq<char> {
        "developers"@
    }

    fn parent_element_name() -> (r: &'static str) {
        "developers"
    }
}

impl ComparableElement for Developer {
    open spec fn same_item(&self, other: &Self) -> bool {
        optional_view(self.id) == optional_view(other.id)
    }

    fn is_same_item(&self, other: &Self) -> (r: bool) {
        self.is_same_developer(other)
    }
}

impl ElementConverter for Developer {
    open spec fn decodes(m: Map<Element, NodeState>, e: Element, r: Result<Self, XMLEditorError>) -> bool {
        let kids = m[e].children;
        r matches Ok(d) && {
            &&& optional_view(d.id) == last_text(m, kids, "id"@)
            &&& optional_view(d.name) == last_text(m, kids, "name"@)
            &&& optional_view(d.email) == last_text(m, kids, "email"@)
            &&& optional_view(d.url) == last_text(m, kids, "url"@)
            &&& optional_view(d.organization) == last_text(m, kids, "organization"@)
            &&& optional_view(d.organization_url) == last_text(m, kids, "organizationUrl"@)
            &&& optional_view(d.timezone) == last_text(m, kids, "timezone"@)
        }
    }

    open spec fn written_as(&self, m: Map<Element, NodeState>, kids: Seq<Element>) -> bool {
        leaves_written(m, kids, self.fields())
    }

    proof fn lemma_written_as_frame(
        &self,
        a: Map<Element, NodeState>,
        b: Map<Element, NodeState>,
        kids: Seq<Element>,
        changed: Set<Element>,
    ) {
        assert forall|i: int| 0 <= i < kids.len() implies text_leaf(b, #[trigger] kids[i], self.fields()[i].0, self.fields()[i].1) by {
            assert(!changed.contains(kids[i]));
        }
    }

    fn from_element(element: Element, document: &Document) -> (r: Result<Self, XMLEditorError>) {
        let tags = vec!["id", "name", "email", "url", "organization", "organizationUrl", "timezone"];
        let mut vals = last_texts(element, &tags, document);
        let timezone = take_last(&mut vals);
        let organization_url = take_last(&mut vals);
        let organization = take_last(&mut vals);
        let url = take_last(&mut vals);
        let email = take_last(&mut vals);
        let name = take_last(&mut vals);
        let id = take_last(&mut vals);
        proof {
            assert(tags[0]@ == "id"@);
            assert(tags[1]@ == "name"@);
            assert(tags[2]@ == "email"@);
            assert(tags[3]@ == "url"@);
            assert(tags[4]@ == "organization"@);
            assert(tags[5]@ == "organizationUrl"@);
            assert(tags[6]@ == "timezone"@);
        }
        Ok(Developer { id, name, email, url, organization, organization_url, timezone })
    }

    fn into_children(self, document: &mut Document) -> (r: Result<Vec<Element>, XMLEditorError>) {
        let ghost me = self;
        let mut fields: Vec<(&str, String)> = Vec::new();
        let ghost f0 = pairs_view(fields@);
        assert(f0 =~= Seq::empty());
        if let Some(v) = self.id {
            fields.push(("id", v));
        }
        let ghost f1 = pairs_view(fields@);
        assert(f1 =~= f0 + optional_field("id"@, optional_view(me.id)));
        if let Some(v) = self.name {
            fields.push(("name", v));
        }
        let ghost f2 = pairs_view(fields@);
        assert(f2 =~= f1 + optional_field("name"@, optional_view(me.name)));
        if let Some(v) = self.email {
            fields.push(("email", v));
        }
        let ghost f3 = pairs_view(fields@);
        assert(f3 =~= f2 + optional_field("email"@, optional_view(me.email)));
        if let Some(v) = self.url {
            fields.push(("url", v));
        }
        let ghost f4 = pairs_view(fields@);
        assert(f4 =~= f3 + optional_field("url"@, optional_view(me.url)));
        if let Some(v) = self.organization {
            fields.push(("organization", v));
        }
        let ghost f5 = pairs_view(fields@);
        assert(f5 =~= f4 + optional_field("organization"@, optional_view(me.organization)));
        if let Some(v) = self.organization_url {
            fields.push(("organizationUrl", v));
        }
        let ghost f6 = pairs_view(fields@);
        assert(f6 =~= f5 + optional_field("organizationUrl"@, optional_view(me.organization_url)));
        if let Some(v) = self.timezone {
            fields.push(("timezone", v));
        }
        let ghost f7 = pairs_view(fields@);
        assert(f7 =~= f6 + optional_field("timezone"@, optional_view(me.timezone)));
        assert(pairs_view(fields@) =~= me.fields());
        Ok(create_text_elements(document, fields))
    }
}

impl UpdatableElement for Developer {
    open spec fn updates(&self, a: Map<Element, NodeState>, b: Map<Element, NodeState>, e: Element) -> bool {
        exists|m1: Map<Element, NodeState>, m2: Map<Element, NodeState>, m3: Map<Element, NodeState>, m4: Map<Element, NodeState>, m5: Map<Element, NodeState>, m6: Map<Element, NodeState>|
            synced(a, m1, e, "id"@, optional_view(self.id))
                && synced(m1, m2, e, "name"@, optional_view(self.name))
                && synced(m2, m3, e, "email"@, optional_view(self.email))
                && synced(m3, m4, e, "url"@, optional_view(self.url))
                && synced(m4, m5, e, "organization"@, optional_view(self.organization))
                && synced(m5, m6, e, "organizationUrl"@, optional_view(self.organization_url))
                && synced(m6, b, e, "timezone"@, optional_view(self.timezone))
    }

    fn update_element(&self, element: Element, document: &mut Document) -> (r: Result<(), XMLEditorError>) {
        proof {
            reveal_strlit("id");
            dom::lemma_plain_name("id"@);
            reveal_strlit("name");
            dom::lemma_plain_name("name"@);
            reveal_strlit("email");
            dom::lemma_plain_name("email"@);
            reveal_strlit("url");
            dom::lemma_plain_name("url"@);
            reveal_strlit("organization");
            dom::lemma_plain_name("organization"@);
            reveal_strlit("organizationUrl");
            dom::lemma_plain_name("organizationUrl"@);
            reveal_strlit("timezone");
            dom::lemma_plain_name("timezone"@);
        }
        let ghost m0 = nodes(*document);
        sync_element(document, element, "id", as_str_option(&self.id));
        let ghost m1 = nodes(*document);
        sync_element(document, element, "name", as_str_option(&self.name));
        let ghost m2 = nodes(*document);
        sync_element(document, element, "email", as_str_option(&self.email));
        let ghost m3 = nodes(*document);
        sync_element(document, element, "url", as_str_option(&self.url));
        let ghost m4 = nodes(*document);
        sync_element(document, element, "organization", as_str_option(&self.organization));
        let ghost m5 = nodes(*document);
        sync_element(document, element, "organizationUrl", as_str_option(&self.organization_url));
        let ghost m6 = nodes(*document);
        sync_element(document, element, "timezone", as_str_option(&self.timezone));
        let ghost m7 = nodes(*document);
        assert(synced(m0, m1, element, "id"@, optional_view(self.id)));
        assert(synced(m1, m2, element, "name"@, optional_view(self.name)));
        assert(synced(m2, m3, element, "email"@, optional_view(self.email)));
        assert(synced(m3, m4, element, "url"@, optional_view(self.url)));
        assert(synced(m4, m5, element, "organization"@, optional_view(self.organization)));
        assert(synced(m5, m6, element, "organizationUrl"@, optional_view(self.organization_url)));
        assert(synced(m6, m7, element, "timezone"@, optional_view(self.timezone)));
        proof {
            crate::editor::utils::lemma_synced_then(m5, m6, m7, element, "organizationUrl"@, optional_view(self.organization_url));
            crate::editor::utils::lemma_synced_then(m4, m5, m7, element, "organization"@, optional_view(self.organization));
            crate::editor::utils::lemma_synced_then(m3, m4, m7, element, "url"@, optional_view(self.url));
            crate::editor::utils::lemma_synced_then(m2, m3, m7, element, "email"@, optional_view(self.email));
            crate::editor::utils::lemma_synced_then(m1, m2, m7, element, "name"@, optional_view(self.name));
            crate::editor::utils::lemma_synced_then(m0, m1, m7, element, "id"@, optional_view(self.id));
        }
        Ok(())
    }
}

} // verus!

verus! {

impl Developer {
    /// Same id, both absent counting as the same.
    pub fn is_same_developer(&self, other: &Developer) -> (r: bool)
        ensures
            r == (optional_view(self.id) == optional_view(other.id)),
    {
        match (&self.id, &other.id) {
            (Some(a), Some(b)) => crate::utils::str_eq(a.as_str(), b.as_str()),
            (None, None) => true,
            _ => false,
        }
    }
}

} // verus!

verus! {

/// Updating a developer keeps every child of another tag, with its own children.
pub proof fn lemma_update_keeps_unmodelled_children(item: Developer, a: Map<Element, NodeState>, b: Map<Element, NodeState>, e: Element, x: Element)
    requires
        item.updates(a, b, e),
        a.dom().contains(x),
        a[e].children.contains(x),
        a[x].name != "id"@ && a[x].name != "name"@ && a[x].name != "email"@ && a[x].name != "url"@ && a[x].name != "organization"@ && a[x].name != "organizationUrl"@ && a[x].name != "timezone"@,
    ensures
        b[e].children.contains(x),
        b[x].name == a[x].name,
        b[x].children == a[x].children,
{
    let (m1, m2, m3, m4, m5, m6) = choose|m1: Map<Element, NodeState>, m2: Map<Element, NodeState>, m3: Map<Element, NodeState>, m4: Map<Element, NodeState>, m5: Map<Element, NodeState>, m6: Map<Element, NodeState>|
        synced(a, m1, e, "id"@, optional_view(item.id)) && synced(m1, m2, e, "name"@, optional_view(item.name)) && synced(m2, m3, e, "email"@, optional_view(item.email)) && synced(m3, m4, e, "url"@, optional_view(item.url)) && synced(m4, m5, e, "organization"@, optional_view(item.organization)) && synced(m5, m6, e, "organizationUrl"@, optional_view(item.organization_url)) && synced(m6, b, e, "timezone"@, optional_view(item.timezone));
    crate::editor::utils::lemma_synced_keeps_other_child(a, m1, e, "id"@, optional_view(item.id), x);
    crate::editor::utils::lemma_synced_keeps_other_child(m1, m2, e, "name"@, optional_view(item.name), x);
    crate::editor::utils::lemma_synced_keeps_other_child(m2, m3, e, "email"@, optional_view(item.email), x);
    crate::editor::utils::lemma_synced_keeps_other_child(m3, m4, e, "url"@, optional_view(item.url), x);
    crate::editor::utils::lemma_synced_keeps_other_child(m4, m5, e, "organization"@, optional_view(item.organization), x);
    crate::editor::utils::lemma_synced_keeps_other_child(m5, m6, e, "organizationUrl"@, optional_view(item.organization_url), x);
    crate::editor::utils::lemma_synced_keeps_other_child(m6, b, e, "timezone"@, optional_view(item.timezone), x);
}

} // verus!

verus! {

/// Developer identity is symmetric and transitive, so the general upsert laws apply to every list of them.
pub proof fn lemma_developer_identity_is_equivalence(v: Seq<(Developer, Element)>, extra: Seq<Developer>)
    ensures
        crate::editor::utils::identity_is_equivalence(v, extra),
{
}

} // verus!
