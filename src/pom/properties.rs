use vstd::prelude::*;

use edit_xml::{Document, Element};

use crate::editor::dom::{self, NodeState, nodes, well_formed};
use crate::editor::utils::{create_text_elements, leaves_written, pairs_view, replace_all_elements, text_leaf};
use crate::editor::{ElementConverter, HasElementName, UpdatableElement, XMLEditorError};

verus! {

/// The free-form properties of a project: names and values, in the order the document
/// declares them, each name once. The order is kept on purpose: a rewrite of the container
/// writes the properties back in the order they were read, so the document does not
/// reshuffle from one edit to the next.
#[derive(Debug, Clone, Default, PartialEq, Eq)]
pub struct Properties(pub Vec<(String, String)>);

pub open spec fn entries_view(entries: Seq<(String, String)>) -> Seq<(Seq<char>, Seq<char>)> {
    entries.map_values(|p: (String, String)| (p.0@, p.1@))
}

/// No two entries share a name.
pub open spec fn keys_distinct(s: Seq<(Seq<char>, Seq<char>)>) -> bool {
    forall|i: int, j: int| 0 <= i < j < s.len() ==> s[i].0 != s[j].0
}

/// The index of the entry named `key`.
pub open spec fn key_index(s: Seq<(Seq<char>, Seq<char>)>, key: Seq<char>) -> Option<int>
    decreases s.len(),
{
    if s.len() == 0 {
        None
    } else if s.last().0 == key {
        Some(s.len() - 1)
    } else {
        key_index(s.drop_last(), key)
    }
}

/// Sets `key` to `value`: a known name keeps its place, a new one goes last.
pub open spec fn insert_entry(s: Seq<(Seq<char>, Seq<char>)>, key: Seq<char>, value: Seq<char>) -> Seq<(Seq<char>, Seq<char>)> {
    match key_index(s, key) {
        Some(i) => s.update(i, (key, value)),
        None => s.push((key, value)),
    }
}

/// The properties declared by `kids`; a later declaration of a name overrides its value.
pub open spec fn entries_of(m: Map<Element, NodeState>, kids: Seq<Element>) -> Seq<(Seq<char>, Seq<char>)>
    decreases kids.len(),
{
    if kids.len() == 0 {
        Seq::empty()
    } else {
        insert_entry(entries_of(m, kids.drop_last()), m[kids.last()].name, m[kids.last()].text)
    }
}

pub proof fn lemma_key_index(s: Seq<(Seq<char>, Seq<char>)>, key: Seq<char>)
    ensures
        match key_index(s, key) {
            Some(i) => 0 <= i < s.len() && s[i].0 == key,
            None => forall|j: int| 0 <= j < s.len() ==> s[j].0 != key,
        },
    decreases s.len(),
{
    if s.len() > 0 && s.last().0 != key {
        lemma_key_index(s.drop_last(), key);
        assert(forall|j: int| 0 <= j < s.len() - 1 ==> s.drop_last()[j] == s[j]);
    }
}

/// The index of the last entry named `key`.
fn find_key(entries: &Vec<(String, String)>, key: &String) -> (r: Option<usize>)
    ensures
        match key_index(entries_view(entries@), key@) {
            Some(i) => r == Some(i as usize),
            None => r is None,
        },
{
    let ghost s = entries_view(entries@);
    let mut i: usize = entries.len();
    assert(s.take(i as int) =~= s);
    while i > 0
        invariant
            i <= entries.len(),
            s == entries_view(entries@),
            key_index(s, key@) == key_index(s.take(i as int), key@),
        decreases i,
    {
        assert(s.take(i as int).drop_last() =~= s.take(i - 1));
        assert(s.take(i as int).last() == s[i - 1]);
        if entries[i - 1].0 == *key {
            return Some(i - 1);
        }
        i = i - 1;
    }
    None
}

/// Setting a name keeps names distinct.
pub proof fn lemma_insert_keeps_keys_distinct(s: Seq<(Seq<char>, Seq<char>)>, key: Seq<char>, value: Seq<char>)
    requires
        keys_distinct(s),
    ensures
        keys_distinct(insert_entry(s, key, value)),
{
    lemma_key_index(s, key);
}

/// The properties read from any children have distinct names.
pub proof fn lemma_entries_keys_distinct(m: Map<Element, NodeState>, kids: Seq<Element>)
    ensures
        keys_distinct(entries_of(m, kids)),
    decreases kids.len(),
{
    if kids.len() > 0 {
        lemma_entries_keys_distinct(m, kids.drop_last());
        lemma_insert_keeps_keys_distinct(entries_of(m, kids.drop_last()), m[kids.last()].name, m[kids.last()].text);
    }
}

impl Properties {
    /// The entries have distinct names.
    pub open spec fn wf(&self) -> bool {
        keys_distinct(entries_view(self.0@))
    }

    /// Sets `key` to `value`, keeping the place of a known name.
    pub fn insert(&mut self, key: String, value: String)
        ensures
            entries_view(final(self).0@) == insert_entry(entries_view(old(self).0@), key@, value@),
            old(self).wf() ==> final(self).wf(),
    {
        proof {
            if self.wf() {
                lemma_insert_keeps_keys_distinct(entries_view(self.0@), key@, value@);
            }
        }
        let ghost s = entries_view(self.0@);
        let found = find_key(&self.0, &key);
        proof {
            lemma_key_index(s, key@);
            assert(s.len() == self.0@.len());
            if let Some(i) = key_index(s, key@) {
                assert(0 <= i < self.0.len());
                assert(found == Some(i as usize));
                assert((i as usize) as int == i);
            }
        }
        match found {
            Some(j) => {
                assert(key_index(s, key@) == Some(j as int));
                assert(insert_entry(s, key@, value@) == s.update(j as int, (key@, value@)));
                self.0.set(j, (key, value));
                assert(entries_view(self.0@) =~= s.update(j as int, (key@, value@)));
            },
            None => {
                assert(insert_entry(s, key@, value@) == s.push((key@, value@)));
                self.0.push((key, value));
                assert(entries_view(self.0@) =~= s.push((key@, value@)));
            },
        }
    }

    /// A copy, entry by entry.
    pub fn clone_properties(&self) -> (r: Properties)
        ensures
            r.0@ == self.0@,
    {
        let mut v: Vec<(String, String)> = Vec::new();
        let mut i: usize = 0;
        while i < self.0.len()
            invariant
                i <= self.0.len(),
                v@ == self.0@.take(i as int),
            decreases self.0.len() - i,
        {
            v.push((self.0[i].0.clone(), self.0[i].1.clone()));
            assert(v@ =~= self.0@.take(i + 1));
            i = i + 1;
        }
        assert(v@ =~= self.0@);
        Properties(v)
    }
}

impl HasElementName for Properties {
    open spec fn tag() -> Seq<char> {
        "properties"@
    }

    fn element_name() -> (r: &'static str) {
        "properties"
    }
}

impl ElementConverter for Properties {
    open spec fn decodes(m: Map<Element, NodeState>, e: Element, r: Result<Self, XMLEditorError>) -> bool {
        r matches Ok(p) && entries_view(p.0@) == entries_of(m, m[e].children) && p.wf()
    }

    open spec fn written_as(&self, m: Map<Element, NodeState>, kids: Seq<Element>) -> bool {
        leaves_written(m, kids, entries_view(self.0@))
    }

    proof fn lemma_written_as_frame(
        &self,
        a: Map<Element, NodeState>,
        b: Map<Element, NodeState>,
        kids: Seq<Element>,
        changed: Set<Element>,
    ) {
        assert forall|i: int| 0 <= i < kids.len() implies text_leaf(b, #[trigger] kids[i], entries_view(self.0@)[i].0, entries_view(self.0@)[i].1) by {
            assert(!changed.contains(kids[i]));
        }
    }

    fn from_element(element: Element, document: &Document) -> (r: Result<Self, XMLEditorError>) {
        let ghost m = nodes(*document);
        let kids = dom::children_of(document, element);
        let mut properties = Properties(Vec::new());
        let mut i: usize = 0;
        while i < kids.len()
            invariant
                m == nodes(*document),
                well_formed(*document),
                m.dom().contains(element),
                kids@ == m[element].children,
                i <= kids.len(),
                entries_view(properties.0@) == entries_of(m, kids@.take(i as int)),
            decreases kids.len() - i,
        {
            assert(m.dom().contains(m[element].children[i as int]));
            let name = dom::name_of(document, kids[i]);
            let value = dom::text_of(document, kids[i]);
            properties.insert(name, value);
            assert(kids@.take(i + 1).drop_last() =~= kids@.take(i as int));
            i = i + 1;
        }
        assert(kids@.take(kids.len() as int) =~= kids@);
        proof {
            lemma_entries_keys_distinct(m, kids@);
        }
        Ok(properties)
    }

    fn into_children(self, document: &mut Document) -> (r: Result<Vec<Element>, XMLEditorError>) {
        let mut fields: Vec<(&str, String)> = Vec::new();
        let mut i: usize = 0;
        while i < self.0.len()
            invariant
                i <= self.0.len(),
                pairs_view(fields@) == entries_view(self.0@).take(i as int),
            decreases self.0.len() - i,
        {
            let ghost before = pairs_view(fields@);
            fields.push((self.0[i].0.as_str(), self.0[i].1.clone()));
            assert(pairs_view(fields@) =~= before.push((self.0@[i as int].0@, self.0@[i as int].1@)));
            assert(entries_view(self.0@).take(i + 1) =~= entries_view(self.0@).take(i as int).push(
                (self.0@[i as int].0@, self.0@[i as int].1@),
            ));
            i = i + 1;
        }
        assert(entries_view(self.0@).take(self.0.len() as int) =~= entries_view(self.0@));
        Ok(create_text_elements(document, fields))
    }
}

impl UpdatableElement for Properties {
    /// All the children are replaced by the entries, in order.
    open spec fn updates(&self, a: Map<Element, NodeState>, b: Map<Element, NodeState>, e: Element) -> bool {
        &&& self.written_as(b, b[e].children)
        &&& forall|i: int| 0 <= i < b[e].children.len() ==> !a.dom().contains(#[trigger] b[e].children[i])
    }

    fn update_element(&self, element: Element, document: &mut Document) -> (r: Result<(), XMLEditorError>) {
        let copy = self.clone_properties();
        assert(entries_view(copy.0@) == entries_view(self.0@));
        replace_all_elements(copy, element, document)
    }
}

} // verus!
