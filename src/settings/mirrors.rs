use vstd::prelude::*;

use edit_xml::{Document, Element};

use crate::editor::dom::{self, NodeState, nodes};
use crate::editor::utils::{
    create_text_elements, find_or_create_then_set_text_content, last_text, last_texts, leaves_written,
    optional_field, optional_view, pairs_view, replace_all_elements, sync_element, synced, take_last, text_leaf,
    as_str_option, MissingElementError,
};
use crate::editor::{
    ChildOfListElement, ComparableElement, ElementConverter, HasElementName, UpdatableElement, XMLEditorError,
};
use crate::pom::is_missing;

verus! {

/// A mirror of one or more repositories.
#[derive(Debug, Clone, Default, PartialEq, Eq)]
pub struct Mirror {
    pub id: String,
    pub name: String,
    pub url: String,
    pub mirror_of: String,
}

impl Mirror {
    pub open spec fn fields(&self) -> Seq<(Seq<char>, Seq<char>)> {
        seq![("id"@, self.id@)]
            + seq![("name"@, self.name@)]
            + seq![("url"@, self.url@)]
            + seq![("mirrorOf"@, self.mirror_of@)]
    }
}

impl HasElementName for Mirror {
    open spec fn tag() -> Seq<char> {
        "mirror"@
    }

    fn element_name() -> (r: &'static str) {
        "mirror"
    }
}

impl ChildOfListElement for Mirror {
    open spec fn container_tag() -> Seq<char> {
        "mirrors"@
    }

    fn parent_element_name() -> (r: &'static str) {
        "mirrors"
    }
}

impl ComparableElement for Mirror {
    open spec fn same_item(&self, other: &Self) -> bool {
        self.id@ == other.id@
    }

    fn is_same_item(&self, other: &Self) -> (r: bool) {
        self.id == other.id
    }
}

impl ElementConverter for Mirror {
    open spec fn decodes(m: Map<Element, NodeState>, e: Element, r: Result<Self, XMLEditorError>) -> bool {
        let kids = m[e].children;
        if last_text(m, kids, "id"@) is None {
            r matches Err(err) && is_missing(err, "id"@)
        } else 
        if last_text(m, kids, "name"@) is None {
            r matches Err(err) && is_missing(err, "name"@)
        } else 
        if last_text(m, kids, "url"@) is None {
            r matches Err(err) && is_missing(err, "url"@)
        } else 
        if last_text(m, kids, "mirrorOf"@) is None {
            r matches Err(err) && is_missing(err, "mirrorOf"@)
        } else 
        {
            r matches Ok(d) && {
                &&& d.id@ == last_text(m, kids, "id"@)->0
                &&& d.name@ == last_text(m, kids, "name"@)->0
                &&& d.url@ == last_text(m, kids, "url"@)->0
                &&& d.mirror_of@ == last_text(m, kids, "mirrorOf"@)->0
            }
        }
    }

    open spec fn written_as(&self, m: Map<Element, NodeState>, kids: Seq<Element>) -> bool {
        leaves_written(m, kids, self.fields())
    }

    proof fn lemma_written_as_frame(
        &self,
        a: Map<Element, NodeState>,
        b: Map<Element, NodeState>,
        kids: Seq<Element>,
        changed: Set<Element>,
    ) {
        assert forall|i: int| 0 <= i < kids.len() implies text_leaf(b, #[trigger] kids[i], self.fields()[i].0, self.fields()[i].1) by {
            assert(!changed.contains(kids[i]));
        }
    }

    fn from_element(element: Element, document: &Document) -> (r: Result<Self, XMLEditorError>) {
        let tags = vec!["id", "name", "url", "mirrorOf"];
        let mut vals = last_texts(element, &tags, document);
        let mirror_of = take_last(&mut vals);
        let url = take_last(&mut vals);
        let name = take_last(&mut vals);
        let id = take_last(&mut vals);
        proof {
            assert(tags[0]@ == "id"@);
            assert(tags[1]@ == "name"@);
            assert(tags[2]@ == "url"@);
            assert(tags[3]@ == "mirrorOf"@);
        }
        let id = match id {
            Some(v) => v,
            None => return Err(XMLEditorError::MissingElement(MissingElementError("id"))),
        };
        let name = match name {
            Some(v) => v,
            None => return Err(XMLEditorError::MissingElement(MissingElementError("name"))),
        };
        let url = match url {
            Some(v) => v,
            None => return Err(XMLEditorError::MissingElement(MissingElementError("url"))),
        };
        let mirror_of = match mirror_of {
            Some(v) => v,
            None => return Err(XMLEditorError::MissingElement(MissingElementError("mirrorOf"))),
        };
        Ok(Mirror { id, name, url, mirror_of })
    }

    fn into_children(self, document: &mut Document) -> (r: Result<Vec<Element>, XMLEditorError>) {
        let ghost me = self;
        let mut fields: Vec<(&str, String)> = Vec::new();
        let ghost f0 = pairs_view(fields@);
        assert(f0 =~= Seq::empty());
        fields.push(("id", self.id));
        let ghost f1 = pairs_view(fields@);
        assert(f1 =~= f0 + seq![("id"@, me.id@)]);
        fields.push(("name", self.name));
        let ghost f2 = pairs_view(fields@);
        assert(f2 =~= f1 + seq![("name"@, me.name@)]);
        fields.push(("url", self.url));
        let ghost f3 = pairs_view(fields@);
        assert(f3 =~= f2 + seq![("url"@, me.url@)]);
        fields.push(("mirrorOf", self.mirror_of));
        let ghost f4 = pairs_view(fields@);
        assert(f4 =~= f3 + seq![("mirrorOf"@, me.mirror_of@)]);
        assert(pairs_view(fields@) =~= me.fields());
        Ok(create_text_elements(document, fields))
    }
}

impl UpdatableElement for Mirror {
    open spec fn updates(&self, a: Map<Element, NodeState>, b: Map<Element, NodeState>, e: Element) -> bool {
        exists|m1: Map<Element, NodeState>, m2: Map<Element, NodeState>|
            synced(a, m1, e, "name"@, Some(self.name@))
                && synced(m1, m2, e, "url"@, Some(self.url@))
                && synced(m2, b, e, "mirrorOf"@, Some(self.mirror_of@))
    }

    fn update_element(&self, element: Element, document: &mut Document) -> (r: Result<(), XMLEditorError>) {
        proof {
            reveal_strlit("name");
            dom::lemma_plain_name("name"@);
            reveal_strlit("url");
            dom::lemma_plain_name("url"@);
            reveal_strlit("mirrorOf");
            dom::lemma_plain_name("mirrorOf"@);
        }
        let ghost m0 = nodes(*document);
        find_or_create_then_set_text_content(document, element, "name", self.name.as_str());
        let ghost m1 = nodes(*document);
        find_or_create_then_set_text_content(document, element, "url", self.url.as_str());
        let ghost m2 = nodes(*document);
        find_or_create_then_set_text_content(document, element, "mirrorOf", self.mirror_of.as_str());
        let ghost m3 = nodes(*document);
        assert(synced(m0, m1, element, "name"@, Some(self.name@)));
        assert(synced(m1, m2, element, "url"@, Some(self.url@)));
        assert(synced(m2, m3, element, "mirrorOf"@, Some(self.mirror_of@)));
        proof {
            crate::editor::utils::lemma_synced_then(m1, m2, m3, element, "url"@, Some(self.url@));
            crate::editor::utils::lemma_synced_then(m0, m1, m3, element, "name"@, Some(self.name@));
        }
        Ok(())
    }
}

} // verus!
