use vstd::prelude::*;

use edit_xml::{Document, Element};

use crate::editor::dom::{self, NodeState, nodes};
use crate::editor::utils::{
    create_text_elements, find_or_create_then_set_text_content, last_text, last_texts, leaves_written,
    optional_field, optional_view, pairs_view, replace_all_elements, sync_element, synced, take_last, text_leaf,
    as_str_option, MissingElementError,
};
use crate::editor::{
    ChildOfListElement, ComparableElement, ElementConverter, HasElementName, UpdatableElement, XMLEditorError,
};
use crate::pom::is_missing;

verus! {

/// Where the sources of a project live. A connection is written `scm:{provider}:{provider_specific}`.
#[derive(Debug, Clone, Default, PartialEq, Eq)]
pub struct Scm {
    pub url: Option<String>,
    pub connection: Option<String>,
    pub tag: Option<String>,
    pub developer_connection: Option<String>,
}

impl Scm {
    pub open spec fn fields(&self) -> Seq<(Seq<char>, Seq<char>)> {
        optional_field("url"@, optional_view(self.url))
            + optional_field("connection"@, optional_view(self.connection))
            + optional_field("tag"@, optional_view(self.tag))
            + optional_field("developerConnection"@, optional_view(self.developer_connection))
    }
}

impl HasElementName for Scm {
    open spec fn tag() -> Seq<char> {
        "scm"@
    }

    fn element_name() -> (r: &'static str) {
        "scm"
    }
}

impl ElementConverter for Scm {
    open spec fn decodes(m: Map<Element, NodeState>, e: Element, r: Result<Self, XMLEditorError>) -> bool {
        let kids = m[e].children;
        r matches Ok(d) && {
            &&& optional_view(d.url) == last_text(m, kids, "url"@)
            &&& optional_view(d.connection) == last_text(m, kids, "connection"@)
            &&& optional_view(d.tag) == last_text(m, kids, "tag"@)
            &&& optional_view(d.developer_connection) == last_text(m, kids, "developerConnection"@)
        }
    }

    open spec fn written_as(&self, m: Map<Element, NodeState>, kids: Seq<Element>) -> bool {
        leaves_written(m, kids, self.fields())
    }

    proof fn lemma_written_as_frame(
        &self,
        a: Map<Element, NodeState>,
        b: Map<Element, NodeState>,
        kids: Seq<Element>,
        changed: Set<Element>,
    ) {
        assert forall|i: int| 0 <= i < kids.len() implies text_leaf(b, #[trigger] kids[i], self.fields()[i].0, self.fields()[i].1) by {
            assert(!changed.contains(kids[i]));
        }
    }

    fn from_element(element: Element, document: &Document) -> (r: Result<Self, XMLEditorError>) {
        let tags = vec!["url", "connection", "tag", "developerConnection"];
        let mut vals = last_texts(element, &tags, document);
        let developer_connection = take_last(&mut vals);
        let tag = take_last(&mut vals);
        let connection = take_last(&mut vals);
        let url = take_last(&mut vals);
        proof {
            assert(tags[0]@ == "url"@);
            assert(tags[1]@ == "connection"@);
            assert(tags[2]@ == "tag"@);
            assert(tags[3]@ == "developerConnection"@);
        }
        Ok(Scm { url, connection, tag, developer_connection })
    }

    fn into_children(self, document: &mut Document) -> (r: Result<Vec<Element>, XMLEditorError>) {
        let ghost me = self;
        let mut fields: Vec<(&str, String)> = Vec::new();
        let ghost f0 = pairs_view(fields@);
        assert(f0 =~= Seq::empty());
        if let Some(v) = self.url {
            fields.push(("url", v));
        }
        let ghost f1 = pairs_view(fields@);
        assert(f1 =~= f0 + optional_field("url"@, optional_view(me.url)));
        if let Some(v) = self.connection {
            fields.push(("connection", v));
        }
        let ghost f2 = pairs_view(fields@);
        assert(f2 =~= f1 + optional_field("connection"@, optional_view(me.connection)));
        if let Some(v) = self.tag {
            fields.push(("tag", v));
        }
        let ghost f3 = pairs_view(fields@);
        assert(f3 =~= f2 + optional_field("tag"@, optional_view(me.tag)));
        if let Some(v) = self.developer_connection {
            fields.push(("developerConnection", v));
        }
        let ghost f4 = pairs_view(fields@);
        assert(f4 =~= f3 + optional_field("developerConnection"@, optional_view(me.developer_connection)));
        assert(pairs_view(fields@) =~= me.fields());
        Ok(create_text_elements(document, fields))
    }
}

impl UpdatableElement for Scm {
    open spec fn updates(&self, a: Map<Element, NodeState>, b: Map<Element, NodeState>, e: Element) -> bool {
        exists|m1: Map<Element, NodeState>, m2: Map<Element, NodeState>, m3: Map<Element, NodeState>|
            synced(a, m1, e, "url"@, optional_view(self.url))
                && synced(m1, m2, e, "connection"@, optional_view(self.connection))
                && synced(m2, m3, e, "tag"@, optional_view(self.tag))
                && synced(m3, b, e, "developerConnection"@, optional_view(self.developer_connection))
    }

    fn update_element(&self, element: Element, document: &mut Document) -> (r: Result<(), XMLEditorError>) {
        proof {
            reveal_strlit("url");
            dom::lemma_plain_name("url"@);
            reveal_strlit("connection");
            dom::lemma_plain_name("connection"@);
            reveal_strlit("tag");
            dom::lemma_plain_name("tag"@);
            reveal_strlit("developerConnection");
            dom::lemma_plain_name("developerConnection"@);
        }
        let ghost m0 = nodes(*document);
        sync_element(document, element, "url", as_str_option(&self.url));
        let ghost m1 = nodes(*document);
        sync_element(document, element, "connection", as_str_option(&self.connection));
        let ghost m2 = nodes(*document);
        sync_element(document, element, "tag", as_str_option(&self.tag));
        let ghost m3 = nodes(*document);
        sync_element(document, element, "developerConnection", as_str_option(&self.developer_connection));
        let ghost m4 = nodes(*document);
        assert(synced(m0, m1, element, "url"@, optional_view(self.url)));
        assert(synced(m1, m2, element, "connection"@, optional_view(self.connection)));
        assert(synced(m2, m3, element, "tag"@, optional_view(self.tag)));
        assert(synced(m3, m4, element, "developerConnection"@, optional_view(self.developer_connection)));
        proof {
            crate::editor::utils::lemma_synced_then(m2, m3, m4, element, "tag"@, optional_view(self.tag));
            crate::editor::utils::lemma_synced_then(m1, m2, m4, element, "connection"@, optional_view(self.connection));
            crate::editor::utils::lemma_synced_then(m0, m1, m4, element, "url"@, optional_view(self.url));
        }
        Ok(())
    }
}

} // verus!

verus! {

/// Why a connection string is not of the form `scm:{provider}:{provider_specific}`.
#[derive(Debug, Clone, Copy, PartialEq, Eq)]
pub enum SCMError {
    DidNotStartWithScm,
    MissingProvider,
}

/// The provider and the provider specific part of a connection string.
pub open spec fn split_scm(s: Seq<char>) -> Result<(Seq<char>, Seq<char>), SCMError> {
    match dom::first_colon(s, 0) {
        None => if s == "scm"@ {
            Err(SCMError::MissingProvider)
        } else {
            Err(SCMError::DidNotStartWithScm)
        },
        Some(i) => if s.subrange(0, i) != "scm"@ {
            Err(SCMError::DidNotStartWithScm)
        } else {
            match dom::first_colon(s, i + 1) {
                None => Ok((s.subrange(i + 1, s.len() as int), Seq::empty())),
                Some(j) => Ok((s.subrange(i + 1, j), s.subrange(j + 1, s.len() as int))),
            }
        },
    }
}

/// What reading the connection of an scm gives.
pub open spec fn connection_parts(connection: Option<String>) -> Result<(Seq<char>, Seq<char>), SCMError> {
    match connection {
        None => Err(SCMError::MissingProvider),
        Some(c) => split_scm(c@),
    }
}

impl Scm {
    /// The provider of the connection: `git` in `scm:git:https://host/repo`.
    pub fn get_provider_for_connection(&self) -> (r: Result<Option<String>, SCMError>)
        ensures
            match connection_parts(self.connection) {
                Ok((provider, _)) => r matches Ok(Some(p)) && p@ == provider,
                Err(e) => r == Err::<Option<String>, SCMError>(e),
            },
    {
        match self.split_connection() {
            Ok((provider, _)) => Ok(Some(provider)),
            Err(e) => Err(e),
        }
    }

    /// Everything after the provider: `https://host/repo` in `scm:git:https://host/repo`.
    pub fn get_provider_specific_for_connection(&self) -> (r: Result<Option<String>, SCMError>)
        ensures
            match connection_parts(self.connection) {
                Ok((_, specific)) => r matches Ok(Some(p)) && p@ == specific,
                Err(e) => r == Err::<Option<String>, SCMError>(e),
            },
    {
        match self.split_connection() {
            Ok((_, specific)) => Ok(Some(specific)),
            Err(e) => Err(e),
        }
    }

    fn split_connection(&self) -> (r: Result<(String, String), SCMError>)
        ensures
            match connection_parts(self.connection) {
                Ok((provider, specific)) => r matches Ok(p) && p.0@ == provider && p.1@ == specific,
                Err(e) => r == Err::<(String, String), SCMError>(e),
            },
    {
        let url = match &self.connection {
            Some(c) => c.as_str(),
            None => return Err(SCMError::MissingProvider),
        };
        let n = url.unicode_len();
        let i = match dom::find_colon(url, 0) {
            Some(i) => i,
            None => {
                if crate::utils::str_eq(url, "scm") {
                    return Err(SCMError::MissingProvider);
                }
                return Err(SCMError::DidNotStartWithScm);
            },
        };
        proof {
            crate::pom::depend::lemma_first_colon_bounds(url@, 0);
        }
        if !crate::utils::str_eq(url.substring_char(0, i), "scm") {
            return Err(SCMError::DidNotStartWithScm);
        }
        match dom::find_colon(url, i + 1) {
            None => Ok((url.substring_char(i + 1, n).to_string(), String::new())),
            Some(j) => {
                proof {
                    crate::pom::depend::lemma_first_colon_bounds(url@, i + 1);
                }
                Ok((url.substring_char(i + 1, j).to_string(), url.substring_char(j + 1, n).to_string()))
            },
        }
    }
}

} // verus!
