//! Finding, creating and syncing child elements, and the list merge engine.
use vstd::prelude::*;

use edit_xml::{Document, Element};

use super::dom::{
    self, NodeState, nodes, holder, well_formed, is_element_of, is_leaf, local_name, unchanged_except,
    remove_first,
};
use super::{
    InvalidValueError,
    content_kept_except, extends, fresh_detached, ChildOfListElement, ComparableElement, ElementConverter, HasElementName,
    PomValue, UpdatableElement, XMLEditorError,
};
use crate::utils::str_eq;

verus! {

/// A required element is missing; it holds the element's tag.
#[derive(Debug, Clone, Copy, PartialEq, Eq)]
pub struct MissingElementError(pub &'static str);

/// The index of the first element of `kids[from..]` named `tag`.
pub open spec fn first_named_from(
    m: Map<Element, NodeState>,
    kids: Seq<Element>,
    tag: Seq<char>,
    from: int,
) -> Option<int>
    decreases kids.len() - from,
{
    if from < 0 || from >= kids.len() {
        None
    } else if m[kids[from]].name == tag {
        Some(from)
    } else {
        first_named_from(m, kids, tag, from + 1)
    }
}

/// The index of the first of `kids` named `tag`.
pub open spec fn first_named(m: Map<Element, NodeState>, kids: Seq<Element>, tag: Seq<char>) -> Option<int> {
    first_named_from(m, kids, tag, 0)
}

/// The index of the last of `kids` named `tag`.
pub open spec fn last_named(m: Map<Element, NodeState>, kids: Seq<Element>, tag: Seq<char>) -> Option<int>
    decreases kids.len(),
{
    if kids.len() == 0 {
        None
    } else if m[kids.last()].name == tag {
        Some(kids.len() - 1)
    } else {
        last_named(m, kids.drop_last(), tag)
    }
}

/// The text of the last of `kids` named `tag`: later elements override earlier ones.
pub open spec fn last_text(m: Map<Element, NodeState>, kids: Seq<Element>, tag: Seq<char>) -> Option<Seq<char>> {
    match last_named(m, kids, tag) {
        Some(i) => Some(m[kids[i]].text),
        None => None,
    }
}

/// The first child element of `e` named `tag`.
pub open spec fn first_child(m: Map<Element, NodeState>, e: Element, tag: Seq<char>) -> Option<Element> {
    match first_named(m, m[e].children, tag) {
        Some(i) => Some(m[e].children[i]),
        None => None,
    }
}

/// `e` is a leaf named `tag` holding `text`, with no parent.
pub open spec fn text_leaf(m: Map<Element, NodeState>, e: Element, tag: Seq<char>, text: Seq<char>) -> bool {
    &&& m.dom().contains(e)
    &&& m[e].name == local_name(tag)
    &&& m[e].text == text
    &&& m[e].children.len() == 0
}

proof fn lemma_first_named_from(m: Map<Element, NodeState>, kids: Seq<Element>, tag: Seq<char>, from: int)
    requires
        0 <= from <= kids.len(),
    ensures
        match first_named_from(m, kids, tag, from) {
            Some(i) => from <= i < kids.len() && m[kids[i]].name == tag && forall|j: int|
                from <= j < i ==> m[kids[j]].name != tag,
            None => forall|j: int| from <= j < kids.len() ==> m[kids[j]].name != tag,
        },
    decreases kids.len() - from,
{
    if from < kids.len() && m[kids[from]].name != tag {
        lemma_first_named_from(m, kids, tag, from + 1);
    }
}

pub proof fn lemma_first_named(m: Map<Element, NodeState>, kids: Seq<Element>, tag: Seq<char>)
    ensures
        match first_named(m, kids, tag) {
            Some(i) => 0 <= i < kids.len() && m[kids[i]].name == tag && forall|j: int|
                0 <= j < i ==> m[kids[j]].name != tag,
            None => forall|j: int| 0 <= j < kids.len() ==> m[kids[j]].name != tag,
        },
{
    lemma_first_named_from(m, kids, tag, 0);
}

pub proof fn lemma_last_named(m: Map<Element, NodeState>, kids: Seq<Element>, tag: Seq<char>)
    ensures
        match last_named(m, kids, tag) {
            Some(i) => 0 <= i < kids.len() && m[kids[i]].name == tag && forall|j: int|
                i < j < kids.len() ==> m[kids[j]].name != tag,
            None => forall|j: int| 0 <= j < kids.len() ==> m[kids[j]].name != tag,
        },
    decreases kids.len(),
{
    if kids.len() > 0 && m[kids.last()].name != tag {
        let rest = kids.drop_last();
        lemma_last_named(m, rest, tag);
        assert(forall|j: int| 0 <= j < rest.len() ==> rest[j] == kids[j]);
        assert(kids[kids.len() - 1] == kids.last());
    }
}

/// The first child element of `element` named `name`.
pub fn find_element(element: Element, name: &str, document: &Document) -> (r: Option<Element>)
    requires
        well_formed(*document),
        nodes(*document).dom().contains(element),
    ensures
        r == first_child(nodes(*document), element, name@),
{
    let kids = dom::children_of(document, element);
    let ghost m = nodes(*document);
    let mut i: usize = 0;
    while i < kids.len()
        invariant
            well_formed(*document),
            m == nodes(*document),
            m.dom().contains(element),
            kids@ == m[element].children,
            i <= kids.len(),
            first_named(m, kids@, name@) == first_named_from(m, kids@, name@, i as int),
        decreases kids.len() - i,
    {
        let kid = kids[i];
        let kid_name = dom::name_of(document, kid);
        if str_eq(kid_name.as_str(), name) {
            return Some(kid);
        }
        i = i + 1;
    }
    None
}

/// The first child element of `element` named `name`, or which element is missing.
pub fn find_element_or_err(element: Element, name: &'static str, document: &Document) -> (r: Result<
    Element,
    MissingElementError,
>)
    requires
        well_formed(*document),
        nodes(*document).dom().contains(element),
    ensures
        match first_child(nodes(*document), element, name@) {
            Some(k) => r == Ok::<Element, MissingElementError>(k),
            None => r == Err::<Element, MissingElementError>(MissingElementError(name)),
        },
{
    match find_element(element, name, document) {
        Some(k) => Ok(k),
        None => Err(MissingElementError(name)),
    }
}

/// The text of the first child element of `element` named `name`.
pub fn find_to_string_or_none(element: Element, name: &str, document: &Document) -> (r: Option<String>)
    requires
        well_formed(*document),
        nodes(*document).dom().contains(element),
    ensures
        match first_child(nodes(*document), element, name@) {
            Some(k) => r matches Some(s) && s@ == nodes(*document)[k].text,
            None => r is None,
        },
{
    match find_element(element, name, document) {
        Some(k) => {
            proof {
                lemma_first_named(nodes(*document), nodes(*document)[element].children, name@);
            }
            Some(dom::text_of(document, k))
        },
        None => None,
    }
}

/// A new detached element named `name` whose text is `value`.
pub fn create_text_element(document: &mut Document, name: &str, value: &str) -> (e: Element)
    requires
        well_formed(*old(document)),
    ensures
        well_formed(*final(document)),
        holder(*final(document)) == holder(*old(document)),
        !nodes(*old(document)).dom().contains(e),
        extends(nodes(*old(document)), nodes(*final(document))),
        nodes(*final(document)).dom() == nodes(*old(document)).dom().insert(e),
        text_leaf(nodes(*final(document)), e, name@, value@),
        nodes(*final(document))[e].parent is None,
{
    let e = dom::new_element(document, name);
    dom::set_text(document, e, value);
    assert(nodes(*document).dom() =~= nodes(*old(document)).dom().insert(e));
    e
}

/// A new detached element named `name` holding the text of `value`.
pub fn create_basic_text_element<V: PomValue>(document: &mut Document, name: &str, value: V) -> (e: Element)
    requires
        well_formed(*old(document)),
    ensures
        well_formed(*final(document)),
        holder(*final(document)) == holder(*old(document)),
        !nodes(*old(document)).dom().contains(e),
        extends(nodes(*old(document)), nodes(*final(document))),
        nodes(*final(document)).dom() == nodes(*old(document)).dom().insert(e),
        text_leaf(nodes(*final(document)), e, name@, value.rendered()),
        nodes(*final(document))[e].parent is None,
{
    let text = value.to_string_for_editor();
    create_text_element(document, name, text.as_str())
}

/// The first child of `parent` named `name`; one is appended when there is none.
pub fn get_or_create_top_level_element(name: &str, document: &mut Document, parent: Element) -> (e: Element)
    requires
        well_formed(*old(document)),
        nodes(*old(document)).dom().contains(parent),
    ensures
        well_formed(*final(document)),
        holder(*final(document)) == holder(*old(document)),
        is_element_of(*final(document), e),
        nodes(*final(document))[e].parent == Some(parent),
        match first_child(nodes(*old(document)), parent, name@) {
            Some(k) => e == k && nodes(*final(document)) == nodes(*old(document)),
            None => {
                &&& !nodes(*old(document)).dom().contains(e)
                &&& nodes(*final(document)).dom() == nodes(*old(document)).dom().insert(e)
                &&& nodes(*final(document))[parent].children == nodes(*old(document))[parent].children.push(e)
                &&& nodes(*final(document))[parent].name == nodes(*old(document))[parent].name
                &&& nodes(*final(document))[parent].parent == nodes(*old(document))[parent].parent
                &&& nodes(*final(document))[e].name == local_name(name@)
                &&& nodes(*final(document))[e].children.len() == 0
                &&& nodes(*final(document))[e].text.len() == 0
                &&& unchanged_except(nodes(*old(document)), nodes(*final(document)), set![parent])
            },
        },
{
    if let Some(e) = find_element(parent, name, document) {
        proof {
            lemma_first_named(nodes(*document), nodes(*document)[parent].children, name@);
            assert(nodes(*document)[parent].children.contains(e));
        }
        return e;
    }
    let e = dom::new_element(document, name);
    let ghost mid = nodes(*document);
    proof {
        dom::lemma_fresh_not_ancestor(nodes(*old(document)), mid, e, parent);
    }
    let _ = dom::push_child(document, parent, e);
    proof {
        assert(nodes(*document).dom() =~= nodes(*old(document)).dom().insert(e));
        assert(unchanged_except(nodes(*old(document)), nodes(*document), set![parent])) by {
            assert forall|x: Element| #![trigger nodes(*document)[x]]
                nodes(*old(document)).dom().contains(x) && !set![parent].contains(x) implies {
                    &&& nodes(*document)[x].name == nodes(*old(document))[x].name
                    &&& nodes(*document)[x].children == nodes(*old(document))[x].children
                    &&& nodes(*document)[x].parent == nodes(*old(document))[x].parent
                    &&& (is_leaf(nodes(*old(document)), x) ==> nodes(*document)[x].text == nodes(*old(document))[x].text)
                } by {
                assert(mid[x] == nodes(*old(document))[x]);
                assert(x != e);
            }
        }
    }
    e
}

} // verus!

verus! {

/// Every element but `e` and its children keeps its name and its children, and keeps its
/// text when it has no children.
pub open spec fn unchanged_outside(a: Map<Element, NodeState>, b: Map<Element, NodeState>, e: Element) -> bool {
    forall|x: Element|
        #![trigger b[x]]
        a.dom().contains(x) && x != e && !a[e].children.contains(x) ==> {
            &&& b[x].name == a[x].name
            &&& b[x].children == a[x].children
            &&& (a[x].children.len() == 0 ==> b[x].text == a[x].text)
        }
}

/// `s` without the elements named `tag`, in order.
pub open spec fn without_tag(m: Map<Element, NodeState>, s: Seq<Element>, tag: Seq<char>) -> Seq<Element>
    decreases s.len(),
{
    if s.len() == 0 {
        s
    } else if m[s.last()].name == tag {
        without_tag(m, s.drop_last(), tag)
    } else {
        without_tag(m, s.drop_last(), tag).push(s.last())
    }
}

/// The last element of `s` named `tag`.
pub open spec fn last_elem(m: Map<Element, NodeState>, s: Seq<Element>, tag: Seq<char>) -> Option<Element> {
    match last_named(m, s, tag) {
        Some(i) => Some(s[i]),
        None => None,
    }
}

pub proof fn lemma_without_tag_subset(m: Map<Element, NodeState>, s: Seq<Element>, tag: Seq<char>)
    ensures
        forall|x: Element| without_tag(m, s, tag).contains(x) ==> s.contains(x) && m[x].name != tag,
    decreases s.len(),
{
    if s.len() > 0 {
        let r = s.drop_last();
        let l = s.last();
        let w = without_tag(m, r, tag);
        lemma_without_tag_subset(m, r, tag);
        assert forall|x: Element| without_tag(m, s, tag).contains(x) implies s.contains(x) && m[x].name != tag by {
            if m[l].name == tag {
                assert(without_tag(m, s, tag) == w);
            } else {
                assert(without_tag(m, s, tag) == w.push(l));
                let j = choose|j: int| 0 <= j < w.push(l).len() && w.push(l)[j] == x;
                if j == w.len() {
                    assert(s[s.len() - 1] == x);
                } else {
                    assert(w[j] == x);
                    assert(w.contains(x));
                }
            }
            if x != l || m[l].name == tag {
                if w.contains(x) {
                    assert(r.contains(x));
                    let k = choose|k: int| 0 <= k < r.len() && r[k] == x;
                    assert(s[k] == r[k]);
                }
            }
        }
    }
}

pub proof fn lemma_without_tag_same_names(a: Map<Element, NodeState>, b: Map<Element, NodeState>, s: Seq<Element>, tag: Seq<char>)
    requires
        forall|i: int| 0 <= i < s.len() ==> a[#[trigger] s[i]].name == b[s[i]].name,
    ensures
        without_tag(a, s, tag) == without_tag(b, s, tag),
    decreases s.len(),
{
    if s.len() > 0 {
        let r = s.drop_last();
        assert(a[s[s.len() - 1]].name == b[s[s.len() - 1]].name);
        assert forall|i: int| 0 <= i < r.len() implies a[#[trigger] r[i]].name == b[r[i]].name by {
            assert(r[i] == s[i]);
        }
        lemma_without_tag_same_names(a, b, r, tag);
    }
}

pub proof fn lemma_without_tag_none(m: Map<Element, NodeState>, s: Seq<Element>, tag: Seq<char>)
    requires
        forall|i: int| 0 <= i < s.len() ==> m[#[trigger] s[i]].name != tag,
    ensures
        without_tag(m, s, tag) == s,
    decreases s.len(),
{
    if s.len() > 0 {
        let r = s.drop_last();
        assert(m[s[s.len() - 1]].name != tag);
        assert forall|i: int| 0 <= i < r.len() implies m[#[trigger] r[i]].name != tag by {
            assert(r[i] == s[i]);
        }
        lemma_without_tag_none(m, r, tag);
        assert(r.push(s.last()) =~= s);
    }
}

pub proof fn lemma_without_tag_remove(m: Map<Element, NodeState>, s: Seq<Element>, k: int, tag: Seq<char>)
    requires
        0 <= k < s.len(),
        m[s[k]].name == tag,
    ensures
        without_tag(m, s.remove(k), tag) == without_tag(m, s, tag),
    decreases s.len(),
{
    let t = s.remove(k);
    if k == s.len() - 1 {
        assert(t =~= s.drop_last());
    } else {
        lemma_without_tag_remove(m, s.drop_last(), k, tag);
        assert(t.drop_last() =~= s.drop_last().remove(k));
        assert(t.last() == s.last());
    }
}

/// Dropping the elements named `tag` keeps the last element named `other`.
pub proof fn lemma_without_tag_last_elem(
    a: Map<Element, NodeState>,
    b: Map<Element, NodeState>,
    s: Seq<Element>,
    tag: Seq<char>,
    other: Seq<char>,
)
    requires
        tag != other,
        forall|i: int| 0 <= i < s.len() ==> a[#[trigger] s[i]].name == b[s[i]].name,
    ensures
        last_elem(b, without_tag(a, s, tag), other) == last_elem(a, s, other),
    decreases s.len(),
{
    if s.len() > 0 {
        let r = s.drop_last();
        let l = s.last();
        assert(s[s.len() - 1] == l);
        assert(a[s[s.len() - 1]].name == b[s[s.len() - 1]].name);
        assert forall|i: int| 0 <= i < r.len() implies a[#[trigger] r[i]].name == b[r[i]].name by {
            assert(r[i] == s[i]);
        }
        lemma_without_tag_last_elem(a, b, r, tag, other);
        lemma_last_named(a, r, other);
        let w = without_tag(a, r, tag);
        lemma_last_named(b, w, other);
        if a[l].name != other {
            assert(last_named(a, s, other) == last_named(a, r, other));
            if let Some(i) = last_named(a, r, other) {
                assert(s[i] == r[i]);
            }
        }
        if a[l].name == tag {
            assert(without_tag(a, s, tag) == w);
        } else {
            let ww = w.push(l);
            assert(without_tag(a, s, tag) == ww);
            assert(ww.drop_last() =~= w);
            assert(ww.last() == l);
            if a[l].name != other {
                assert(last_named(b, ww, other) == last_named(b, w, other));
                if let Some(j) = last_named(b, w, other) {
                    assert(ww[j] == w[j]);
                }
            } else {
                assert(ww[ww.len() - 1] == l);
            }
        }
    }
}

/// `x` is the child whose text a sync with a present value writes.
pub open spec fn synced_child(a: Map<Element, NodeState>, kids: Seq<Element>, tag: Seq<char>, value: Option<Seq<char>>, x: Element) -> bool {
    value is Some && (first_named(a, kids, tag) matches Some(i) && x == kids[i])
}

/// How `b` follows from `a` when the child of `parent` named `tag` is synced with `value`.
pub open spec fn synced(
    a: Map<Element, NodeState>,
    b: Map<Element, NodeState>,
    parent: Element,
    tag: Seq<char>,
    value: Option<Seq<char>>,
) -> bool {
    let kids = a[parent].children;
    &&& a.dom().subset_of(b.dom())
    &&& b[parent].parent == a[parent].parent
    &&& forall|x: Element| #![trigger b[x]] a.dom().contains(x) ==> b[x].name == a[x].name
    &&& unchanged_outside(a, b, parent)
    &&& forall|x: Element|
        #![trigger b[x]]
        a.dom().contains(x) && kids.contains(x) && !synced_child(a, kids, tag, value, x) ==> b[x].children
            == a[x].children
    &&& match (value, first_named(a, kids, tag)) {
        (Some(v), Some(i)) => {
            &&& b[parent].children == kids
            &&& b[kids[i]].text == v
            &&& b[kids[i]].children.len() == 0
            &&& forall|x: Element| #![trigger b[x]]
                a.dom().contains(x) && is_leaf(a, x) && x != kids[i] ==> b[x].text == a[x].text && is_leaf(b, x)
        },
        (Some(v), None) => {
            &&& b[parent].children.len() == kids.len() + 1
            &&& b[parent].children.drop_last() == kids
            &&& !a.dom().contains(b[parent].children.last())
            &&& text_leaf(b, b[parent].children.last(), tag, v)
            &&& forall|x: Element| #![trigger b[x]]
                a.dom().contains(x) && is_leaf(a, x) && x != parent ==> b[x].text == a[x].text && is_leaf(b, x)
        },
        (None, _) => {
            &&& b[parent].children == without_tag(a, kids, tag)
            &&& forall|x: Element| #![trigger b[x]]
                a.dom().contains(x) && is_leaf(a, x) && x != parent ==> b[x].text == a[x].text && is_leaf(b, x)
        },
    }
}

/// The child of `parent` named `name` gets the text `value`; it is appended when missing.
pub fn find_or_create_then_set_text_content(document: &mut Document, parent: Element, name: &str, value: &str)
    requires
        well_formed(*old(document)),
        is_element_of(*old(document), parent),
        name@ == local_name(name@),
    ensures
        well_formed(*final(document)),
        holder(*final(document)) == holder(*old(document)),
        synced(nodes(*old(document)), nodes(*final(document)), parent, name@, Some(value@)),
{
    let ghost a = nodes(*document);
    let element = get_or_create_top_level_element(name, document, parent);
    let ghost mid = nodes(*document);
    proof {
        lemma_first_named(a, a[parent].children, name@);
    }
    dom::clear_children(document, element);
    let ghost mid2 = nodes(*document);
    dom::set_text(document, element, value);
    proof {
        let b = nodes(*document);
        let kids = a[parent].children;
        assert(a.dom().subset_of(b.dom()));
        assert(b[parent].parent == a[parent].parent);
        match first_named(a, kids, name@) {
            Some(i) => {
                assert(kids[i] == element);
                assert forall|x: Element| #![trigger b[x]]
                    a.dom().contains(x) && is_leaf(a, x) && x != element implies b[x].text == a[x].text && is_leaf(b, x) by {
                    if a[element].children.contains(x) {
                        let j = choose|j: int| 0 <= j < a[element].children.len() && a[element].children[j] == x;
                        assert(mid[a[element].children[j]].children == a[a[element].children[j]].children);
                        assert(mid2[x].children == mid[x].children);
                    }
                }
            },
            None => {
                assert(b[parent].children.drop_last() =~= kids);
                assert(text_leaf(b, b[parent].children.last(), name@, value@));
            },
        }
    }
}

/// Creates, updates or removes the child of `parent` named `name`.
pub fn sync_element(document: &mut Document, parent: Element, name: &str, value: Option<&str>)
    requires
        well_formed(*old(document)),
        is_element_of(*old(document), parent),
        name@ == local_name(name@),
    ensures
        well_formed(*final(document)),
        holder(*final(document)) == holder(*old(document)),
        synced(
            nodes(*old(document)),
            nodes(*final(document)),
            parent,
            name@,
            match value {
                Some(v) => Some(v@),
                None => None,
            },
        ),
{
    match value {
        Some(v) => find_or_create_then_set_text_content(document, parent, name, v),
        None => {
            let ghost a = nodes(*document);
            assert(!a[parent].children.contains(parent)) by {
                if a[parent].children.contains(parent) {
                    let j = choose|j: int| 0 <= j < a[parent].children.len() && a[parent].children[j] == parent;
                    assert(a[a[parent].children[j]].parent == Some(parent));
                }
            }
            let mut found = find_element(parent, name, document);
            while found.is_some()
                invariant
                    well_formed(*document),
                    holder(*document) == holder(*old(document)),
                    is_element_of(*document, parent),
                    a == nodes(*old(document)),
                    nodes(*document).dom() == a.dom(),
                    found == first_child(nodes(*document), parent, name@),
                    forall|x: Element| #![trigger nodes(*document)[x]] a.dom().contains(x) ==> nodes(*document)[x].name == a[x].name,
                    forall|x: Element| #![trigger nodes(*document)[x]]
                        a.dom().contains(x) && is_leaf(a, x) && x != parent ==> nodes(*document)[x].text == a[x].text && is_leaf(nodes(*document), x),
                    nodes(*document)[parent].parent == a[parent].parent,
                    unchanged_outside(a, nodes(*document), parent),
                    forall|y: Element| nodes(*document)[parent].children.contains(y) ==> a[parent].children.contains(y),
                    forall|x: Element| #![trigger nodes(*document)[x]]
                        a.dom().contains(x) && a[parent].children.contains(x) ==> nodes(*document)[x].children == a[x].children,
                    !a[parent].children.contains(parent),
                    without_tag(nodes(*document), nodes(*document)[parent].children, name@) == without_tag(a, a[parent].children, name@),
                decreases nodes(*document)[parent].children.len(),
            {
                let element = found.unwrap();
                let ghost cur = nodes(*document);
                let ghost kids = cur[parent].children;
                proof {
                    lemma_first_named(cur, kids, name@);
                    let i = first_named(cur, kids, name@)->0;
                    assert(kids[i] == element);
                    assert(kids.contains(element));
                    assert(cur[element].parent == Some(parent));
                    assert(kids.index_of_first(element) == Some(i)) by {
                        kids.index_of_first_ensures(element);
                        let j = kids.index_of_first(element)->0;
                        if j < i {
                            assert(cur[kids[j]].name == name@);
                        }
                    }
                }
                let _ = dom::detach(document, element);
                proof {
                    let nxt = nodes(*document);
                    let i = first_named(cur, kids, name@)->0;
                    let rest = kids.remove(i);
                    assert(nxt[parent].children == rest);
                    assert forall|q: int| 0 <= q < rest.len() implies cur[#[trigger] rest[q]].name == nxt[rest[q]].name by {
                        if q < i {
                            assert(rest[q] == kids[q]);
                        } else {
                            assert(rest[q] == kids[q + 1]);
                        }
                        assert(cur.dom().contains(rest[q]));
                    }
                    lemma_without_tag_same_names(cur, nxt, rest, name@);
                    lemma_without_tag_remove(cur, kids, i, name@);
                    assert forall|y: Element| rest.contains(y) implies a[parent].children.contains(y) by {
                        let q = choose|q: int| 0 <= q < rest.len() && rest[q] == y;
                        if q < i {
                            assert(kids[q] == y);
                        } else {
                            assert(kids[q + 1] == y);
                        }
                    }
                    assert forall|x: Element| #![trigger nxt[x]]
                        a.dom().contains(x) && x != parent && !a[parent].children.contains(x) implies {
                            &&& nxt[x].name == a[x].name
                            &&& nxt[x].children == a[x].children
                            &&& (a[x].children.len() == 0 ==> nxt[x].text == a[x].text)
                        } by {
                        assert(x != element);
                        assert(cur[x].children == a[x].children);
                    }
                }
                found = find_element(parent, name, document);
            }
            proof {
                let cur = nodes(*document);
                lemma_first_named(cur, cur[parent].children, name@);
                lemma_without_tag_none(cur, cur[parent].children, name@);
            }
        },
    }
}

} // verus!

verus! {

/// For each of `tags`, the text of the last child element of `element` with that name.
pub fn last_texts(element: Element, tags: &Vec<&str>, document: &Document) -> (r: Vec<Option<String>>)
    requires
        nodes(*document).dom().contains(element),
        well_formed(*document),
    ensures
        r.len() == tags.len(),
        forall|j: int|
            0 <= j < tags.len() ==> match last_text(nodes(*document), nodes(*document)[element].children, #[trigger] tags[j]@) {
                Some(t) => r[j] matches Some(s) && s@ == t,
                None => r[j] is None,
            },
{
    let ghost m = nodes(*document);
    let kids = dom::children_of(document, element);
    let mut r: Vec<Option<String>> = Vec::new();
    let mut j: usize = 0;
    while j < tags.len()
        invariant
            j <= tags.len(),
            r.len() == j,
            forall|t: int| 0 <= t < j ==> r[t] is None,
        decreases tags.len() - j,
    {
        r.push(None);
        j = j + 1;
    }
    let mut i: usize = 0;
    while i < kids.len()
        invariant
            m == nodes(*document),
            well_formed(*document),
            kids@ == m[element].children,
            m.dom().contains(element),
            i <= kids.len(),
            r.len() == tags.len(),
            forall|t: int|
                0 <= t < tags.len() ==> match last_text(m, kids@.take(i as int), #[trigger] tags[t]@) {
                    Some(x) => r[t] matches Some(s) && s@ == x,
                    None => r[t] is None,
                },
        decreases kids.len() - i,
    {
        let kid = kids[i];
        let name = dom::name_of(document, kid);
        let text = dom::text_of(document, kid);
        let ghost r0 = r@;
        let mut t: usize = 0;
        while t < tags.len()
            invariant
                m == nodes(*document),
                well_formed(*document),
                kids@ == m[element].children,
                i < kids.len(),
                kid == kids@[i as int],
                name@ == m[kid].name,
                text@ == m[kid].text,
                t <= tags.len(),
                r.len() == tags.len(),
                r0.len() == tags.len(),
                forall|u: int| t <= u < tags.len() ==> r[u] == r0[u],
                forall|u: int|
                    0 <= u < t ==> match last_text(m, kids@.take(i + 1), #[trigger] tags[u]@) {
                        Some(x) => r[u] matches Some(s) && s@ == x,
                        None => r[u] is None,
                    },
                forall|u: int|
                    0 <= u < tags.len() ==> match last_text(m, kids@.take(i as int), #[trigger] tags[u]@) {
                        Some(x) => r0[u] matches Some(s) && s@ == x,
                        None => r0[u] is None,
                    },
            decreases tags.len() - t,
        {
            let ghost pre = kids@.take(i + 1);
            assert(pre.drop_last() =~= kids@.take(i as int));
            assert(pre.last() == kid);
            assert(pre.len() == i + 1);
            assert(last_named(m, pre, tags[t as int]@) == if m[kid].name == tags[t as int]@ {
                Some(i as int)
            } else {
                last_named(m, kids@.take(i as int), tags[t as int]@)
            });
            assert(pre[i as int] == kid);
            if str_eq(name.as_str(), tags[t]) {
                let copy = text.clone();
                r.set(t, Some(copy));
                assert(r[t as int] matches Some(s) && s@ == m[kid].text);
                assert(last_text(m, pre, tags[t as int]@) == Some(m[kid].text));
            } else {
                assert(r[t as int] == r0[t as int]);
                proof {
                    lemma_last_named(m, kids@.take(i as int), tags[t as int]@);
                    if let Some(k) = last_named(m, kids@.take(i as int), tags[t as int]@) {
                        assert(pre[k] == kids@.take(i as int)[k]);
                    }
                }
                assert(last_text(m, pre, tags[t as int]@) == last_text(m, kids@.take(i as int), tags[t as int]@));
            }
            assert(match last_text(m, pre, tags[t as int]@) {
                Some(x) => r[t as int] matches Some(s) && s@ == x,
                None => r[t as int] is None,
            });
            t = t + 1;
        }
        i = i + 1;
    }
    assert(kids@.take(kids.len() as int) =~= kids@);
    r
}

/// The last child element of `element` named `name`.
pub fn find_last_element(element: Element, name: &str, document: &Document) -> (r: Option<Element>)
    requires
        nodes(*document).dom().contains(element),
        well_formed(*document),
    ensures
        match last_named(nodes(*document), nodes(*document)[element].children, name@) {
            Some(i) => r == Some(nodes(*document)[element].children[i]),
            None => r is None,
        },
{
    let ghost m = nodes(*document);
    let kids = dom::children_of(document, element);
    let mut found: Option<Element> = None;
    let mut i: usize = 0;
    while i < kids.len()
        invariant
            m == nodes(*document),
            well_formed(*document),
            kids@ == m[element].children,
            m.dom().contains(element),
            i <= kids.len(),
            match last_named(m, kids@.take(i as int), name@) {
                Some(k) => found == Some(kids@[k]),
                None => found is None,
            },
        decreases kids.len() - i,
    {
        let ghost pre = kids@.take(i + 1);
        assert(pre.drop_last() =~= kids@.take(i as int));
        assert(m.dom().contains(m[element].children[i as int]));
        let kid_name = dom::name_of(document, kids[i]);
        if str_eq(kid_name.as_str(), name) {
            found = Some(kids[i]);
        }
        i = i + 1;
    }
    assert(kids@.take(kids.len() as int) =~= kids@);
    found
}

} // verus!

verus! {

/// The first `i` children are elements named `E`'s tag that read without error.
pub open spec fn prefix_decodes<E: ElementConverter + HasElementName>(
    m: Map<Element, NodeState>,
    kids: Seq<Element>,
    i: int,
) -> bool {
    forall|j: int|
        0 <= j < i ==> m[#[trigger] kids[j]].name == E::tag() && exists|x: E| E::decodes(m, kids[j], Ok(x))
}

/// What reading the children `kids` as a list of `E` gives: every child must carry `E`'s tag
/// and read without error; otherwise the first child that fails decides the error.
pub open spec fn list_decodes<E: ElementConverter + HasElementName>(
    m: Map<Element, NodeState>,
    kids: Seq<Element>,
    r: Result<Vec<(E, Element)>, XMLEditorError>,
) -> bool {
    match r {
        Ok(v) => {
            &&& v.len() == kids.len()
            &&& forall|i: int|
                0 <= i < kids.len() ==> {
                    &&& (#[trigger] v[i]).1 == kids[i]
                    &&& m[kids[i]].name == E::tag()
                    &&& E::decodes(m, kids[i], Ok(v[i].0))
                }
        },
        Err(err) => exists|i: int|
            0 <= i < kids.len() && prefix_decodes::<E>(m, kids, i) && #[trigger] fails_at::<E>(
                m,
                kids[i],
                err,
            ),
    }
}

/// Reading the child `k` as an `E` fails with `err`.
pub open spec fn fails_at<E: ElementConverter + HasElementName>(
    m: Map<Element, NodeState>,
    k: Element,
    err: XMLEditorError,
) -> bool {
    if m[k].name != E::tag() {
        err matches XMLEditorError::UnexpectedElementType { expected, found } && expected@ == E::tag()
            && found@ == m[k].name
    } else {
        E::decodes(m, k, Err(err))
    }
}

/// Reads every child of `element` as an `E`, with its element.
pub fn get_all_children_of_element<E: ElementConverter + HasElementName>(
    document: &Document,
    element: Element,
) -> (r: Result<Vec<(E, Element)>, XMLEditorError>)
    requires
        well_formed(*document),
        nodes(*document).dom().contains(element),
    ensures
        list_decodes::<E>(nodes(*document), nodes(*document)[element].children, r),
{
    let ghost m = nodes(*document);
    let kids = dom::children_of(document, element);
    let mut result: Vec<(E, Element)> = Vec::new();
    let mut i: usize = 0;
    while i < kids.len()
        invariant
            m == nodes(*document),
            well_formed(*document),
            m.dom().contains(element),
            kids@ == m[element].children,
            i <= kids.len(),
            result.len() == i,
            forall|j: int|
                0 <= j < i ==> {
                    &&& (#[trigger] result[j]).1 == kids[j]
                    &&& m[kids[j]].name == E::tag()
                    &&& E::decodes(m, kids[j], Ok(result[j].0))
                },
        decreases kids.len() - i,
    {
        let raw_element = kids[i];
        assert(m.dom().contains(m[element].children[i as int]));
        proof {
            assert forall|j: int| 0 <= j < i implies m[#[trigger] kids@[j]].name == E::tag()
                && exists|x: E| E::decodes(m, kids@[j], Ok(x)) by {
                assert(E::decodes(m, kids@[j], Ok(result[j].0)));
            }
        }
        let element_name = dom::name_of(document, raw_element);
        let expected = E::element_name();
        if !str_eq(element_name.as_str(), expected) {
            let err = XMLEditorError::UnexpectedElementType { expected, found: element_name };
            assert(fails_at::<E>(m, kids@[i as int], err));
            return Err(err);
        }
        match E::from_element(raw_element, document) {
            Ok(value) => {
                result.push((value, raw_element));
            },
            Err(err) => {
                assert(fails_at::<E>(m, kids@[i as int], err));
                return Err(err);
            },
        }
        i = i + 1;
    }
    Ok(result)
}

} // verus!

verus! {

/// Where `e` is the element written for `item`: a new element with `I`'s tag and no parent.
pub open spec fn written_element<I: ElementConverter + HasElementName>(
    a: Map<Element, NodeState>,
    b: Map<Element, NodeState>,
    e: Element,
    item: I,
) -> bool {
    &&& !a.dom().contains(e)
    &&& b.dom().contains(e)
    &&& b[e].name == local_name(I::tag())
    &&& item.written_as(b, b[e].children)
    &&& forall|i: int| 0 <= i < b[e].children.len() ==> !a.dom().contains(#[trigger] b[e].children[i])
}

/// Creates the element for `item`: its tag, and its children in canonical order.
pub fn into_element<I: ElementConverter + HasElementName>(item: I, document: &mut Document) -> (r: Result<
    Element,
    XMLEditorError,
>)
    requires
        well_formed(*old(document)),
    ensures
        well_formed(*final(document)),
        holder(*final(document)) == holder(*old(document)),
        r matches Ok(e) && {
            &&& written_element(nodes(*old(document)), nodes(*final(document)), e, item)
            &&& nodes(*final(document))[e].parent is None
            &&& extends(nodes(*old(document)), nodes(*final(document)))
        },
{
    let ghost item_g = item;
    let ghost a = nodes(*document);
    let children = match item.into_children(document) {
        Ok(children) => children,
        Err(e) => return Err(e),
    };
    let ghost mid = nodes(*document);
    let element = dom::new_element(document, I::element_name());
    let ghost base = nodes(*document);
    let mut i: usize = 0;
    while i < children.len()
        invariant
            well_formed(*document),
            holder(*document) == holder(*old(document)),
            extends(a, mid),
            a.dom().contains(holder(*old(document))),
            fresh_detached(a, mid, children@),
            item_g.written_as(mid, children@),
            !mid.dom().contains(element),
            base == mid.insert(element, base[element]),
            base[element].parent is None,
            base[element].children.len() == 0,
            base[element].name == local_name(I::tag()),
            nodes(*document).dom() == base.dom(),
            i <= children.len(),
            nodes(*document)[element].children == children@.take(i as int),
            nodes(*document)[element].name == base[element].name,
            nodes(*document)[element].parent is None,
            forall|x: Element|
                #![trigger nodes(*document)[x]]
                mid.dom().contains(x) && !children@.take(i as int).contains(x) ==> nodes(*document)[x] == mid[x],
            forall|j: int|
                0 <= j < i ==> {
                    &&& nodes(*document)[#[trigger] children@[j]].name == mid[children@[j]].name
                    &&& nodes(*document)[children@[j]].children == mid[children@[j]].children
                    &&& nodes(*document)[children@[j]].text == mid[children@[j]].text
                },
        decreases children.len() - i,
    {
        let child = children[i];
        proof {
            assert(!children@.take(i as int).contains(child)) by {
                if children@.take(i as int).contains(child) {
                    let j = choose|j: int| 0 <= j < i && children@.take(i as int)[j] == child;
                    assert(children@[j] == children@[i as int]);
                }
            }
            assert(nodes(*document)[child] == mid[child]);
        }
        let ghost before = nodes(*document);
        let _ = dom::push_child(document, element, child);
        proof {
            assert(children@.take(i + 1) =~= children@.take(i as int).push(child));
            assert forall|x: Element| #![trigger nodes(*document)[x]]
                mid.dom().contains(x) && !children@.take(i + 1).contains(x) implies nodes(*document)[x] == mid[x] by {
                assert(children@.take(i + 1)[i as int] == child);
                assert(x != child);
                assert(!children@.take(i as int).contains(x)) by {
                    if children@.take(i as int).contains(x) {
                        let j = choose|j: int| 0 <= j < i && children@.take(i as int)[j] == x;
                        assert(children@.take(i + 1)[j] == x);
                    }
                }
                assert(before[x] == mid[x]);
            }
        }
        i = i + 1;
    }
    proof {
        let b = nodes(*document);
        assert(children@.take(children.len() as int) =~= children@);
        assert(content_kept_except(mid, b, set![element])) by {
            assert forall|x: Element| #![trigger b[x]]
                mid.dom().contains(x) && !set![element].contains(x) implies {
                    &&& b[x].name == mid[x].name
                    &&& b[x].children == mid[x].children
                    &&& (mid[x].children.len() == 0 ==> b[x].text == mid[x].text)
                } by {
                if children@.contains(x) {
                    let j = choose|j: int| 0 <= j < children.len() && children@[j] == x;
                    assert(b[children@[j]].name == mid[children@[j]].name);
                }
            }
        }
        item_g.lemma_written_as_frame(mid, b, children@, set![element]);
        assert(extends(a, b)) by {
            assert forall|x: Element| #![trigger b[x]] a.dom().contains(x) implies b[x] == a[x] by {
                assert(mid[x] == a[x]);
                if children@.contains(x) {
                    let j = choose|j: int| 0 <= j < children.len() && children@[j] == x;
                    assert(!a.dom().contains(children@[j]));
                }
            }
        }
    }
    Ok(element)
}

} // verus!

verus! {

/// The index of the first of `v[from..]` whose record is the same item as `item`.
pub open spec fn first_match_from<I: ComparableElement>(v: Seq<(I, Element)>, item: I, from: int) -> Option<int>
    decreases v.len() - from,
{
    if from < 0 || from >= v.len() {
        None
    } else if v[from].0.same_item(&item) {
        Some(from)
    } else {
        first_match_from(v, item, from + 1)
    }
}

/// The index of the first record of `v` that is the same item as `item`.
pub open spec fn first_match<I: ComparableElement>(v: Seq<(I, Element)>, item: I) -> Option<int> {
    first_match_from(v, item, 0)
}

/// What the container `c` holds after `item` was appended to it as a new element.
pub open spec fn appended<I: ElementConverter + HasElementName>(
    a: Map<Element, NodeState>,
    b: Map<Element, NodeState>,
    c: Element,
    item: I,
) -> bool {
    &&& b[c].children.len() == a[c].children.len() + 1
    &&& b[c].children.drop_last() == a[c].children
    &&& written_element(a, b, b[c].children.last(), item)
    &&& b[b[c].children.last()].parent == Some(c)
    &&& content_kept_except(a, b, set![c])
}

/// The outcome of adding or updating `item` in the list held by `parent_element` under
/// `insert_into`, from `a` to `b`, with result `r`.
pub open spec fn upsert_outcome<I: UpdatableElement + ChildOfListElement + HasElementName + ComparableElement>(
    a: Map<Element, NodeState>,
    b: Map<Element, NodeState>,
    parent_element: Option<Element>,
    insert_into: Element,
    item: I,
    r: Result<Option<I>, XMLEditorError>,
) -> bool {
    match parent_element {
        None => r matches Ok(None) && {
            let c = b[insert_into].children.last();
                &&& !a.dom().contains(c)
                &&& b[c].name == local_name(I::container_tag())
                &&& b[insert_into].children == a[insert_into].children.push(c)
                &&& b[c].children.len() == 1
                &&& b[c].parent == Some(insert_into)
                &&& written_element(a, b, b[c].children[0], item)
                &&& content_kept_except(a, b, set![insert_into])
            },
            Some(c) => exists|res: Result<Vec<(I, Element)>, XMLEditorError>|
                #![trigger list_decodes::<I>(a, a[c].children, res)]
                list_decodes::<I>(a, a[c].children, res) && match res {
                    Err(err) => r matches Err(e) && e == err && b == a,
                    Ok(v) => match first_match(v@, item) {
                        Some(i) => r matches Ok(Some(prev)) && prev == v[i].0 && item.updates(
                            a,
                            b,
                            a[c].children[i],
                        ) && unchanged_outside(a, b, a[c].children[i]) && b[c].children == a[c].children,
                        None => r matches Ok(None) && appended(a, b, c, item),
                    },
                },
        }
}

/// Adds `item` to the list held by `parent_element` under `insert_into`, or updates the first
/// element of the list that holds the same item. The list is created when it is missing.
/// Returns the record that was updated, as it was read before the update.
pub fn add_or_update_item<I: UpdatableElement + ChildOfListElement + HasElementName + ComparableElement>(
    document: &mut Document,
    parent_element: Option<Element>,
    insert_into: Element,
    item: I,
) -> (r: Result<Option<I>, XMLEditorError>)
    requires
        well_formed(*old(document)),
        is_element_of(*old(document), insert_into),
        parent_element matches Some(c) ==> is_element_of(*old(document), c),
    ensures
        well_formed(*final(document)),
        holder(*final(document)) == holder(*old(document)),
        nodes(*final(document))[holder(*old(document))].children == nodes(*old(document))[holder(*old(document))].children,
        upsert_outcome(nodes(*old(document)), nodes(*final(document)), parent_element, insert_into, item, r),
{
    let ghost a = nodes(*document);
    let ghost item_g = item;
    let parent_container = match parent_element {
        None => {
            let value = match into_element(item, document) {
                Ok(value) => value,
                Err(e) => return Err(e),
            };
            let ghost m1 = nodes(*document);
            let dependencies = dom::new_element(document, I::parent_element_name());
            let ghost m2 = nodes(*document);
            let _ = dom::push_child(document, dependencies, value);
            let ghost m3 = nodes(*document);
            proof {
                assert forall|z: Element| #![trigger m3[z].parent] a.dom().contains(z) implies m3[z].parent == a[z].parent by {
                    assert(m1[z] == a[z]);
                    assert(m2[z] == m1[z]);
                }
                dom::lemma_fresh_not_ancestor(a, m3, dependencies, insert_into);
            }
            let _ = dom::push_child(document, insert_into, dependencies);
            proof {
                let b = nodes(*document);
                assert(m3[dependencies].children =~= seq![value]);
                assert(b[dependencies].children[0] == value);
                assert(content_kept_except(m1, b, set![insert_into, dependencies])) by {
                    assert forall|x: Element| #![trigger b[x]]
                        m1.dom().contains(x) && !set![insert_into, dependencies].contains(x) implies {
                            &&& b[x].name == m1[x].name
                            &&& b[x].children == m1[x].children
                            &&& (m1[x].children.len() == 0 ==> b[x].text == m1[x].text)
                        } by {
                        assert(m2[x] == m1[x]);
                        if x != value {
                            assert(m3[x] == m2[x]);
                        }
                    }
                }
                assert forall|i: int, j: int|
                    0 <= i < m1[value].children.len() && 0 <= j < m1[m1[value].children[i]].children.len()
                    implies !set![insert_into, dependencies].contains(#[trigger] m1[m1[value].children[i]].children[j]) by {
                    assert(m1.dom().contains(m1[value].children[i]));
                    assert(m1.dom().contains(m1[m1[value].children[i]].children[j]));
                }
                item_g.lemma_written_as_frame(m1, b, m1[value].children, set![insert_into, dependencies]);
                assert(content_kept_except(a, b, set![insert_into])) by {
                    assert forall|x: Element| #![trigger b[x]]
                        a.dom().contains(x) && !set![insert_into].contains(x) implies {
                            &&& b[x].name == a[x].name
                            &&& b[x].children == a[x].children
                            &&& (a[x].children.len() == 0 ==> b[x].text == a[x].text)
                        } by {
                        assert(m1[x] == a[x]);
                    }
                }
            }
            return Ok(None);
        },
        Some(c) => c,
    };
    let elements_in_parent = match get_all_children_of_element::<I>(document, parent_container) {
        Ok(v) => v,
        Err(e) => {
            assert(list_decodes::<I>(a, a[parent_container].children, Err::<Vec<(I, Element)>, XMLEditorError>(e)));
            return Err(e);
        },
    };
    let ghost v0 = elements_in_parent;
    assert(list_decodes::<I>(a, a[parent_container].children, Ok::<Vec<(I, Element)>, XMLEditorError>(v0)));
    let mut elements_in_parent = elements_in_parent;
    let mut i: usize = 0;
    while i < elements_in_parent.len()
        invariant
            elements_in_parent@ == v0@,
            nodes(*document) == a,
            well_formed(*document),
            *document == *old(document),
            parent_element == Some(parent_container),
            is_element_of(*document, parent_container),
            list_decodes::<I>(a, a[parent_container].children, Ok::<Vec<(I, Element)>, XMLEditorError>(v0)),
            i <= elements_in_parent.len(),
            first_match(v0@, item) == first_match_from(v0@, item, i as int),
        decreases elements_in_parent.len() - i,
    {
        if elements_in_parent[i].0.is_same_item(&item) {
            let (current_value, element) = elements_in_parent.remove(i);
            assert(v0[i as int].1 == a[parent_container].children[i as int]);
            assert(a.dom().contains(a[parent_container].children[i as int]));
            let _ = item.update_element(element, document);
            proof {
                assert(a[element].parent == Some(parent_container));
                assert(element != parent_container);
                assert(!a[element].children.contains(parent_container)) by {
                    if a[element].children.contains(parent_container) {
                        let j = choose|j: int| 0 <= j < a[element].children.len() && a[element].children[j] == parent_container;
                        assert(a[a[element].children[j]].parent == Some(element));
                    }
                }
            }
            return Ok(Some(current_value));
        }
        i = i + 1;
    }
    let value = match into_element(item, document) {
        Ok(value) => value,
        Err(e) => return Err(e),
    };
    let ghost m1 = nodes(*document);
    proof {
        dom::lemma_fresh_not_ancestor(a, m1, value, parent_container);
    }
    let _ = dom::push_child(document, parent_container, value);
    proof {
        let b = nodes(*document);
        assert(b[parent_container].children.drop_last() =~= a[parent_container].children);
        assert forall|i: int, j: int|
            0 <= i < m1[value].children.len() && 0 <= j < m1[m1[value].children[i]].children.len()
            implies !set![parent_container, value].contains(#[trigger] m1[m1[value].children[i]].children[j]) by {
            assert(m1.dom().contains(m1[value].children[i]));
            assert(m1.dom().contains(m1[m1[value].children[i]].children[j]));
            assert(m1[m1[m1[value].children[i]].children[j]].parent == Some(m1[value].children[i]));
        }
        assert(content_kept_except(m1, b, set![parent_container, value]));
        item_g.lemma_written_as_frame(m1, b, m1[value].children, set![parent_container, value]);
        assert(content_kept_except(a, b, set![parent_container])) by {
            assert forall|x: Element| #![trigger b[x]]
                a.dom().contains(x) && !set![parent_container].contains(x) implies {
                    &&& b[x].name == a[x].name
                    &&& b[x].children == a[x].children
                    &&& (a[x].children.len() == 0 ==> b[x].text == a[x].text)
                } by {
                assert(m1[x] == a[x]);
            }
        }
    }
    Ok(None)
}

} // verus!

verus! {

/// The tag and text of each leaf a record is written as, in canonical order.
pub open spec fn pairs_view(fields: Seq<(&str, String)>) -> Seq<(Seq<char>, Seq<char>)> {
    fields.map_values(|p: (&str, String)| (p.0@, p.1@))
}

/// `kids` are leaves carrying the tags and texts of `fields`, in order.
pub open spec fn leaves_written(
    m: Map<Element, NodeState>,
    kids: Seq<Element>,
    fields: Seq<(Seq<char>, Seq<char>)>,
) -> bool {
    &&& kids.len() == fields.len()
    &&& forall|i: int| 0 <= i < kids.len() ==> text_leaf(m, #[trigger] kids[i], fields[i].0, fields[i].1)
}

/// A field that is written only when present.
pub open spec fn optional_field(tag: Seq<char>, value: Option<Seq<char>>) -> Seq<(Seq<char>, Seq<char>)> {
    match value {
        Some(v) => seq![(tag, v)],
        None => Seq::empty(),
    }
}

pub open spec fn optional_view(value: Option<String>) -> Option<Seq<char>> {
    match value {
        Some(v) => Some(v@),
        None => None,
    }
}

/// Creates one detached leaf per field, in order.
pub fn create_text_elements(document: &mut Document, fields: Vec<(&str, String)>) -> (r: Vec<Element>)
    requires
        well_formed(*old(document)),
    ensures
        well_formed(*final(document)),
        holder(*final(document)) == holder(*old(document)),
        extends(nodes(*old(document)), nodes(*final(document))),
        fresh_detached(nodes(*old(document)), nodes(*final(document)), r@),
        leaves_written(nodes(*final(document)), r@, pairs_view(fields@)),
{
    let ghost a = nodes(*document);
    let mut r: Vec<Element> = Vec::new();
    let mut i: usize = 0;
    while i < fields.len()
        invariant
            well_formed(*document),
            holder(*document) == holder(*old(document)),
            extends(a, nodes(*document)),
            i <= fields.len(),
            r.len() == i,
            fresh_detached(a, nodes(*document), r@),
            leaves_written(nodes(*document), r@, pairs_view(fields@).take(i as int)),
        decreases fields.len() - i,
    {
        let ghost before = nodes(*document);
        let e = create_text_element(document, fields[i].0, fields[i].1.as_str());
        proof {
            assert forall|j: int| 0 <= j < r.len() implies e != r@[j] by {
                assert(before.dom().contains(r@[j]));
            }
        }
        r.push(e);
        proof {
            let b = nodes(*document);
            assert(pairs_view(fields@).take(i + 1) =~= pairs_view(fields@).take(i as int).push(
                (fields@[i as int].0@, fields@[i as int].1@),
            ));
            assert forall|j: int| 0 <= j < r.len() implies text_leaf(b, #[trigger] r@[j],
                pairs_view(fields@).take(i + 1)[j].0, pairs_view(fields@).take(i + 1)[j].1) by {
                if j < i {
                    assert(before.dom().contains(r@[j]));
                    assert(b[r@[j]] == before[r@[j]]);
                }
            }
        }
        i = i + 1;
    }
    assert(pairs_view(fields@).take(fields.len() as int) =~= pairs_view(fields@));
    r
}

/// Drops every child of `element` and writes `item` into it again from scratch.
pub fn replace_all_elements<I: ElementConverter>(item: I, element: Element, document: &mut Document) -> (r: Result<(), XMLEditorError>)
    requires
        well_formed(*old(document)),
        is_element_of(*old(document), element),
    ensures
        r is Ok,
        well_formed(*final(document)),
        holder(*final(document)) == holder(*old(document)),
        nodes(*old(document)).dom().subset_of(nodes(*final(document)).dom()),
        nodes(*final(document))[element].name == nodes(*old(document))[element].name,
        nodes(*final(document))[element].parent == nodes(*old(document))[element].parent,
        item.written_as(nodes(*final(document)), nodes(*final(document))[element].children),
        forall|i: int|
            0 <= i < nodes(*final(document))[element].children.len() ==> !nodes(*old(document)).dom().contains(
                #[trigger] nodes(*final(document))[element].children[i],
            ),
        unchanged_outside(nodes(*old(document)), nodes(*final(document)), element),
        forall|x: Element|
            #![trigger nodes(*final(document))[x]]
            nodes(*old(document)).dom().contains(x) && x != element ==> {
                &&& nodes(*final(document))[x].name == nodes(*old(document))[x].name
                &&& nodes(*final(document))[x].children == nodes(*old(document))[x].children
                &&& (nodes(*old(document))[x].children.len() == 0 ==> nodes(*final(document))[x].text
                    == nodes(*old(document))[x].text)
            },
        forall|x: Element|
            #![trigger nodes(*final(document))[x]]
            nodes(*old(document)).dom().contains(x) && x != element && !nodes(*old(document))[element].children.contains(x)
                ==> nodes(*final(document))[x].parent == nodes(*old(document))[x].parent,
{
    let ghost item_g = item;
    dom::clear_children(document, element);
    let ghost m0 = nodes(*document);
    let children = match item.into_children(document) {
        Ok(children) => children,
        Err(e) => return Err(e),
    };
    let ghost mid = nodes(*document);
    assert(forall|z: Element| #![trigger m0[z].parent] m0.dom().contains(z) && m0[z].parent is Some ==> m0.dom().contains(m0[z].parent->0));
    let mut i: usize = 0;
    while i < children.len()
        invariant
            well_formed(*document),
            holder(*document) == holder(*old(document)),
            extends(m0, mid),
            m0.dom().contains(holder(*old(document))),
            m0.dom().contains(element),
            m0[element].children.len() == 0,
            m0[element].parent == nodes(*old(document))[element].parent,
            m0[element].parent matches Some(p) ==> m0.dom().contains(p),
            m0[element].name == nodes(*old(document))[element].name,
            nodes(*old(document)).dom().subset_of(m0.dom()),
            fresh_detached(m0, mid, children@),
            item_g.written_as(mid, children@),
            nodes(*document).dom() == mid.dom(),
            i <= children.len(),
            nodes(*document)[element].children == children@.take(i as int),
            nodes(*document)[element].name == m0[element].name,
            nodes(*document)[element].parent == m0[element].parent,
            content_kept_except(mid, nodes(*document), set![element]),
            forall|j: int| i <= j < children.len() ==> nodes(*document)[#[trigger] children@[j]].parent is None,
            forall|z: Element| #![trigger m0[z].parent] m0.dom().contains(z) && m0[z].parent is Some ==> m0.dom().contains(m0[z].parent->0),
            forall|z: Element| #![trigger nodes(*document)[z].parent] m0.dom().contains(z) ==> nodes(*document)[z].parent == m0[z].parent,
        decreases children.len() - i,
    {
        let child = children[i];
        let ghost before = nodes(*document);
        assert(!m0.dom().contains(children@[i as int]));
        proof {
            dom::lemma_fresh_not_ancestor(m0, before, child, element);
        }
        let _ = dom::push_child(document, element, child);
        proof {
            let b = nodes(*document);
            assert(children@.take(i + 1) =~= children@.take(i as int).push(child));
            assert forall|j: int| i + 1 <= j < children.len() implies b[#[trigger] children@[j]].parent is None by {
                assert(children@[j] != child);
            }
        }
        i = i + 1;
    }
    proof {
        let b = nodes(*document);
        assert(children@.take(children.len() as int) =~= children@);
        item_g.lemma_written_as_frame(mid, b, children@, set![element]);
        let o = nodes(*old(document));
        assert forall|x: Element| #![trigger b[x]] o.dom().contains(x) && x != element implies {
            &&& b[x].name == o[x].name
            &&& b[x].children == o[x].children
            &&& (o[x].children.len() == 0 ==> b[x].text == o[x].text)
        } by {
            assert(mid[x] == m0[x]);
            if o[element].children.contains(x) {
                let j = choose|j: int| 0 <= j < o[element].children.len() && o[element].children[j] == x;
                assert(m0[o[element].children[j]].name == o[o[element].children[j]].name);
            }
        }
    }
    Ok(())
}

} // verus!

verus! {

/// Removes and returns the last element of `v`.
pub fn take_last<T>(v: &mut Vec<T>) -> (r: T)
    requires
        old(v).len() > 0,
    ensures
        r == old(v)@.last(),
        final(v)@ == old(v)@.drop_last(),
{
    v.pop().unwrap()
}

} // verus!

verus! {

/// The text of an optional string, borrowed.
pub fn as_str_option(o: &Option<String>) -> (r: Option<&str>)
    ensures
        (match r {
            Some(v) => Some(v@),
            None => None,
        }) == optional_view(*o),
{
    match o {
        Some(s) => Some(s.as_str()),
        None => None,
    }
}

/// A copy of an optional string.
pub fn clone_option(o: &Option<String>) -> (r: Option<String>)
    ensures
        r == *o,
{
    match o {
        Some(s) => Some(s.clone()),
        None => None,
    }
}

} // verus!

verus! {

/// A new detached element named `tag` whose children are one leaf per field, in order.
pub fn create_element_of_leaves(document: &mut Document, tag: &str, fields: Vec<(&str, String)>) -> (e: Element)
    requires
        well_formed(*old(document)),
    ensures
        well_formed(*final(document)),
        holder(*final(document)) == holder(*old(document)),
        extends(nodes(*old(document)), nodes(*final(document))),
        !nodes(*old(document)).dom().contains(e),
        nodes(*final(document)).dom().contains(e),
        nodes(*final(document))[e].name == local_name(tag@),
        nodes(*final(document))[e].parent is None,
        leaves_written(nodes(*final(document)), nodes(*final(document))[e].children, pairs_view(fields@)),
        forall|i: int|
            0 <= i < nodes(*final(document))[e].children.len() ==> !nodes(*old(document)).dom().contains(
                #[trigger] nodes(*final(document))[e].children[i],
            ),
{
    let ghost a = nodes(*document);
    let children = create_text_elements(document, fields);
    let ghost mid = nodes(*document);
    let element = dom::new_element(document, tag);
    let mut i: usize = 0;
    while i < children.len()
        invariant
            well_formed(*document),
            holder(*document) == holder(*old(document)),
            extends(a, mid),
            a.dom().contains(holder(*old(document))),
            fresh_detached(a, mid, children@),
            leaves_written(mid, children@, pairs_view(fields@)),
            !mid.dom().contains(element),
            nodes(*document).dom() == mid.dom().insert(element),
            i <= children.len(),
            nodes(*document)[element].children == children@.take(i as int),
            nodes(*document)[element].name == local_name(tag@),
            nodes(*document)[element].parent is None,
            forall|x: Element|
                #![trigger nodes(*document)[x]]
                mid.dom().contains(x) && !children@.take(i as int).contains(x) ==> nodes(*document)[x] == mid[x],
            forall|j: int|
                0 <= j < i ==> {
                    &&& nodes(*document)[#[trigger] children@[j]].name == mid[children@[j]].name
                    &&& nodes(*document)[children@[j]].children == mid[children@[j]].children
                    &&& nodes(*document)[children@[j]].text == mid[children@[j]].text
                },
        decreases children.len() - i,
    {
        let child = children[i];
        proof {
            assert(!children@.take(i as int).contains(child)) by {
                if children@.take(i as int).contains(child) {
                    let j = choose|j: int| 0 <= j < i && children@.take(i as int)[j] == child;
                    assert(children@[j] == children@[i as int]);
                }
            }
            assert(nodes(*document)[child] == mid[child]);
        }
        let ghost before = nodes(*document);
        let _ = dom::push_child(document, element, child);
        proof {
            assert(children@.take(i + 1) =~= children@.take(i as int).push(child));
            assert forall|x: Element| #![trigger nodes(*document)[x]]
                mid.dom().contains(x) && !children@.take(i + 1).contains(x) implies nodes(*document)[x] == mid[x] by {
                assert(children@.take(i + 1)[i as int] == child);
                assert(x != child);
                assert(!children@.take(i as int).contains(x)) by {
                    if children@.take(i as int).contains(x) {
                        let j = choose|j: int| 0 <= j < i && children@.take(i as int)[j] == x;
                        assert(children@.take(i + 1)[j] == x);
                    }
                }
                assert(before[x] == mid[x]);
            }
        }
        i = i + 1;
    }
    proof {
        let b = nodes(*document);
        assert(children@.take(children.len() as int) =~= children@);
        assert forall|j: int| 0 <= j < children.len() implies text_leaf(b, #[trigger] children@[j],
            pairs_view(fields@)[j].0, pairs_view(fields@)[j].1) by {
            assert(text_leaf(mid, children@[j], pairs_view(fields@)[j].0, pairs_view(fields@)[j].1));
        }
        assert(extends(a, b)) by {
            assert forall|x: Element| #![trigger b[x]] a.dom().contains(x) implies b[x] == a[x] by {
                assert(mid[x] == a[x]);
                if children@.contains(x) {
                    let j = choose|j: int| 0 <= j < children.len() && children@[j] == x;
                    assert(!a.dom().contains(children@[j]));
                }
            }
        }
    }
    element
}

} // verus!

verus! {

/// The text of an optional value as it is written.
pub open spec fn optional_rendered_value<V: PomValue>(o: Option<V>) -> Option<Seq<char>> {
    match o {
        Some(v) => Some(v.rendered()),
        None => None,
    }
}

/// What reading an optional text as a `V` gives: absent stays absent.
pub open spec fn typed_result<V: PomValue>(text: Option<Seq<char>>, r: Result<Option<V>, XMLEditorError>) -> bool {
    match text {
        None => r == Ok::<Option<V>, XMLEditorError>(None),
        Some(t) => match r {
            Ok(Some(x)) => V::parses_to(t, Ok(x)),
            Ok(None) => false,
            Err(XMLEditorError::InvalidValue(e)) => V::parses_to(t, Err(e)),
            Err(_) => false,
        },
    }
}

/// Reads an optional text as a `V`.
pub fn read_typed<V: PomValue>(text: Option<String>) -> (r: Result<Option<V>, XMLEditorError>)
    ensures
        typed_result(optional_view(text), r),
{
    match text {
        None => {
            let r = Ok(None);
            assert(typed_result(None, r));
            r
        },
        Some(t) => {
            let v = V::from_str_for_editor(t.as_str());
            let ghost vg = v;
            let r = match v {
                Ok(x) => Ok(Some(x)),
                Err(e) => Err(XMLEditorError::InvalidValue(e)),
            };
            assert(V::parses_to(t@, vg));
            assert(match vg {
                Ok(x) => r == Ok::<Option<V>, XMLEditorError>(Some(x)),
                Err(e) => r == Err::<Option<V>, XMLEditorError>(XMLEditorError::InvalidValue(e)),
            });
            assert(optional_view(Some(t)) == Some(t@));
            assert(typed_result(Some(t@), r));
            r
        },
    }
}

} // verus!

verus! {

/// Two steps that each keep what lies outside `e` and its children, where the first makes
/// no earlier element a new child of `e`, together keep it.
pub proof fn lemma_outside_then(a: Map<Element, NodeState>, b: Map<Element, NodeState>, c: Map<Element, NodeState>, e: Element)
    requires
        a.dom().subset_of(b.dom()),
        unchanged_outside(a, b, e),
        unchanged_outside(b, c, e),
        forall|x: Element| a.dom().contains(x) && b[e].children.contains(x) ==> a[e].children.contains(x),
    ensures
        unchanged_outside(a, c, e),
{
    assert forall|x: Element| #![trigger c[x]]
        a.dom().contains(x) && x != e && !a[e].children.contains(x) implies {
            &&& c[x].name == a[x].name
            &&& c[x].children == a[x].children
            &&& (a[x].children.len() == 0 ==> c[x].text == a[x].text)
        } by {
        assert(b[x].children == a[x].children);
        assert(b.dom().contains(x));
    }
}

/// What syncing keeps: the elements, the parent of `parent`, and no earlier element becomes
/// a new child.
pub proof fn lemma_synced_facts(a: Map<Element, NodeState>, b: Map<Element, NodeState>, e: Element, tag: Seq<char>, value: Option<Seq<char>>)
    requires
        synced(a, b, e, tag, value),
    ensures
        a.dom().subset_of(b.dom()),
        unchanged_outside(a, b, e),
        forall|x: Element| a.dom().contains(x) && b[e].children.contains(x) ==> a[e].children.contains(x),
{
    lemma_synced_then(a, b, b, e, tag, value);
    lemma_first_named(a, a[e].children, tag);
    assert forall|x: Element| a.dom().contains(x) && b[e].children.contains(x) implies a[e].children.contains(x) by {
        let j = choose|j: int| 0 <= j < b[e].children.len() && b[e].children[j] == x;
        match (value, first_named(a, a[e].children, tag)) {
            (Some(v), Some(i)) => {},
            (Some(v), None) => {
                if j < a[e].children.len() {
                    assert(b[e].children.drop_last()[j] == x);
                }
            },
            (None, _) => {
                lemma_without_tag_subset(a, a[e].children, tag);
            },
        }
    }
}

/// Syncing a child of `e` and then keeping the children outside `e` keeps them from the start.
pub proof fn lemma_synced_then(
    a: Map<Element, NodeState>,
    b: Map<Element, NodeState>,
    c: Map<Element, NodeState>,
    e: Element,
    tag: Seq<char>,
    value: Option<Seq<char>>,
)
    requires
        synced(a, b, e, tag, value),
        unchanged_outside(b, c, e),
    ensures
        unchanged_outside(a, c, e),
{
    assert forall|x: Element| #![trigger c[x]]
        a.dom().contains(x) && x != e && !a[e].children.contains(x) implies {
            &&& c[x].name == a[x].name
            &&& c[x].children == a[x].children
            &&& (a[x].children.len() == 0 ==> c[x].text == a[x].text)
        } by {
        assert(b[x].children == a[x].children);
        assert(b[x].name == a[x].name);
        assert(b.dom().contains(x));
        lemma_first_named(a, a[e].children, tag);
        if b[e].children.contains(x) {
            let j = choose|j: int| 0 <= j < b[e].children.len() && b[e].children[j] == x;
            match (value, first_named(a, a[e].children, tag)) {
                (Some(v), Some(i)) => {},
                (Some(v), None) => {
                    if j < a[e].children.len() {
                        assert(b[e].children.drop_last()[j] == x);
                    }
                },
                (None, _) => {
                    lemma_without_tag_subset(a, a[e].children, tag);
                },
            }
        }
        if a[x].children.len() == 0 {
            match (value, first_named(a, a[e].children, tag)) {
                (Some(v), Some(i)) => {
                    assert(x != a[e].children[i]);
                },
                _ => {},
            }
            assert(b[x].text == a[x].text);
        }
    }
}

} // verus!

verus! {

/// A list whose children mix `E`'s tag with another fails to read, and the error names the
/// first foreign child when every child before it reads without error.
pub proof fn lemma_mixed_container_rejected<E: ElementConverter + HasElementName>(
    m: Map<Element, NodeState>,
    kids: Seq<Element>,
    r: Result<Vec<(E, Element)>, XMLEditorError>,
    j: int,
)
    requires
        list_decodes::<E>(m, kids, r),
        0 <= j < kids.len(),
        m[kids[j]].name != E::tag(),
    ensures
        r is Err,
        (forall|i: int| 0 <= i < j ==> m[#[trigger] kids[i]].name == E::tag() && forall|err: XMLEditorError| !E::decodes(m, kids[i], Err(err)))
            ==> (r matches Err(XMLEditorError::UnexpectedElementType { expected, found }) && expected@ == E::tag()
            && found@ == m[kids[j]].name),
{
    if let Ok(v) = r {
        assert(v[j].1 == kids[j]);
        assert(m[kids[j]].name == E::tag());
    }
    if forall|i: int| 0 <= i < j ==> m[#[trigger] kids[i]].name == E::tag() && forall|err: XMLEditorError| !E::decodes(m, kids[i], Err(err)) {
        if let Err(err) = r {
            let i = choose|i: int| 0 <= i < kids.len() && prefix_decodes::<E>(m, kids, i) && #[trigger] fails_at::<E>(m, kids[i], err);
            if i < j {
                assert(m[kids[i]].name == E::tag());
                assert(!E::decodes(m, kids[i], Err(err)));
            } else if i > j {
                assert(m[kids[j]].name == E::tag());
            }
        }
    }
}

/// Syncing an absent value removes every child with that tag and keeps the other children
/// in order: reading the tag again finds nothing.
pub proof fn lemma_field_deletion(a: Map<Element, NodeState>, b: Map<Element, NodeState>, e: Element, tag: Seq<char>)
    requires
        synced(a, b, e, tag, None),
        forall|i: int| 0 <= i < a[e].children.len() ==> a.dom().contains(#[trigger] a[e].children[i]),
    ensures
        b[e].children == without_tag(a, a[e].children, tag),
        last_text(b, b[e].children, tag) is None,
        forall|i: int| 0 <= i < b[e].children.len() ==> b[#[trigger] b[e].children[i]].name != tag,
{
    let kids = a[e].children;
    lemma_without_tag_subset(a, kids, tag);
    assert forall|i: int| 0 <= i < b[e].children.len() implies b[#[trigger] b[e].children[i]].name != tag by {
        let x = b[e].children[i];
        assert(b[e].children.contains(x));
        assert(kids.contains(x));
        let q = choose|q: int| 0 <= q < kids.len() && kids[q] == x;
        assert(a.dom().contains(kids[q]));
    }
    lemma_last_named(b, b[e].children, tag);
}

} // verus!

verus! {

pub proof fn lemma_last_named_same_names(a: Map<Element, NodeState>, b: Map<Element, NodeState>, s: Seq<Element>, tag: Seq<char>)
    requires
        forall|i: int| 0 <= i < s.len() ==> a[#[trigger] s[i]].name == b[s[i]].name,
    ensures
        last_named(a, s, tag) == last_named(b, s, tag),
    decreases s.len(),
{
    if s.len() > 0 {
        assert(a[s[s.len() - 1]].name == b[s[s.len() - 1]].name);
        let rest = s.drop_last();
        assert forall|i: int| 0 <= i < rest.len() implies a[#[trigger] rest[i]].name == b[rest[i]].name by {
            assert(rest[i] == s[i]);
        }
        lemma_last_named_same_names(a, b, rest, tag);
    }
}

pub proof fn lemma_last_named_remove(m: Map<Element, NodeState>, s: Seq<Element>, k: int, tag: Seq<char>)
    requires
        0 <= k < s.len(),
        m[s[k]].name != tag,
    ensures
        last_named(m, s.remove(k), tag) == match last_named(m, s, tag) {
            Some(i) => Some(if i < k { i } else { i - 1 }),
            None => None::<int>,
        },
{
    let t = s.remove(k);
    lemma_last_named(m, s, tag);
    lemma_last_named(m, t, tag);
    assert forall|j: int| 0 <= j < t.len() implies #[trigger] t[j] == if j < k { s[j] } else { s[j + 1] } by {}
    match last_named(m, s, tag) {
        Some(i) => {
            let j = if i < k { i } else { i - 1 };
            assert(i != k);
            assert(t[j] == s[i]);
            match last_named(m, t, tag) {
                Some(j2) => {
                    if j2 < j {
                        assert(m[t[j]].name == tag);
                    } else if j2 > j {
                        let i2 = if j2 < k { j2 } else { j2 + 1 };
                        assert(t[j2] == s[i2]);
                    }
                },
                None => {
                    assert(m[t[j]].name == tag);
                },
            }
        },
        None => {
            if let Some(j2) = last_named(m, t, tag) {
                let i2 = if j2 < k { j2 } else { j2 + 1 };
                assert(t[j2] == s[i2]);
            }
        },
    }
}

/// Syncing the child named `tag` leaves the last child named `other` as it was, when that
/// child has no children of its own.
pub proof fn lemma_synced_keeps_other(
    a: Map<Element, NodeState>,
    b: Map<Element, NodeState>,
    e: Element,
    tag: Seq<char>,
    value: Option<Seq<char>>,
    other: Seq<char>,
)
    requires
        synced(a, b, e, tag, value),
        local_name(tag) == tag,
        other != tag,
        forall|i: int| 0 <= i < a[e].children.len() ==> a.dom().contains(#[trigger] a[e].children[i]),
        last_named(a, a[e].children, other) matches Some(i) && is_leaf(a, a[e].children[i]),
    ensures
        last_text(b, b[e].children, other) == last_text(a, a[e].children, other),
        last_named(b, b[e].children, other) matches Some(j) && b[e].children[j] == a[e].children[
            last_named(a, a[e].children, other)->0
        ] && is_leaf(b, b[e].children[j]),
        forall|i: int| 0 <= i < b[e].children.len() ==> b.dom().contains(#[trigger] b[e].children[i]),
{
    let kids = a[e].children;
    let i = last_named(a, kids, other)->0;
    lemma_last_named(a, kids, other);
    lemma_first_named(a, kids, tag);
    assert forall|x: int| 0 <= x < kids.len() implies a[#[trigger] kids[x]].name == b[kids[x]].name by {
        assert(a.dom().contains(kids[x]));
    }
    lemma_last_named_same_names(a, b, kids, other);
    let x = kids[i];
    assert(a.dom().contains(x));
    match (value, first_named(a, kids, tag)) {
        (Some(v), Some(k)) => {
            assert(kids[k] != x);
        },
        (Some(v), None) => {
            let n = b[e].children.last();
            assert(b[e].children =~= kids.push(n));
            assert(b[e].children.drop_last() == kids);
            assert(b[n].name == tag);
            assert(x != e) by {
                if x == e {
                    assert(a[e].children.contains(e));
                }
            }
        },
        (None, _) => {
            let w = b[e].children;
            lemma_without_tag_last_elem(a, b, kids, tag, other);
            lemma_without_tag_subset(a, kids, tag);
            lemma_last_named(b, w, other);
            assert(x != e) by {
                if x == e {
                    assert(a[e].children.contains(e));
                }
            }
            assert forall|q: int| 0 <= q < w.len() implies b.dom().contains(#[trigger] w[q]) by {
                assert(w.contains(w[q]));
                assert(kids.contains(w[q]));
                let p = choose|p: int| 0 <= p < kids.len() && kids[p] == w[q];
                assert(a.dom().contains(kids[p]));
            }
            let j = last_named(b, w, other)->0;
            assert(w[j] == x);
        },
    }
}

} // verus!

verus! {

pub proof fn lemma_first_named_same_names(a: Map<Element, NodeState>, b: Map<Element, NodeState>, s: Seq<Element>, tag: Seq<char>, from: int)
    requires
        0 <= from <= s.len(),
        forall|i: int| 0 <= i < s.len() ==> a[#[trigger] s[i]].name == b[s[i]].name,
    ensures
        first_named_from(a, s, tag, from) == first_named_from(b, s, tag, from),
    decreases s.len() - from,
{
    if from < s.len() {
        lemma_first_named_same_names(a, b, s, tag, from + 1);
    }
}

pub proof fn lemma_first_named_push(m: Map<Element, NodeState>, s: Seq<Element>, x: Element, tag: Seq<char>, from: int)
    requires
        0 <= from <= s.len(),
        forall|i: int| from <= i < s.len() ==> m[#[trigger] s[i]].name != tag,
        m[x].name == tag,
    ensures
        first_named_from(m, s.push(x), tag, from) == Some(s.len() as int),
    decreases s.len() - from,
{
    if from < s.len() {
        assert(s.push(x)[from] == s[from]);
        lemma_first_named_push(m, s, x, tag, from + 1);
    } else {
        assert(s.push(x)[from] == x);
    }
}

/// After syncing a present value, the first child with the tag holds that value.
pub proof fn lemma_synced_then_first_text(a: Map<Element, NodeState>, b: Map<Element, NodeState>, e: Element, tag: Seq<char>, v: Seq<char>)
    requires
        synced(a, b, e, tag, Some(v)),
        local_name(tag) == tag,
        forall|i: int| 0 <= i < a[e].children.len() ==> a.dom().contains(#[trigger] a[e].children[i]),
    ensures
        first_child(b, e, tag) matches Some(k) && b[k].text == v && b[k].children.len() == 0,
{
    let kids = a[e].children;
    lemma_first_named(a, kids, tag);
    assert forall|i: int| 0 <= i < kids.len() implies a[#[trigger] kids[i]].name == b[kids[i]].name by {
        assert(a.dom().contains(kids[i]));
    }
    match first_named(a, kids, tag) {
        Some(i) => {
            lemma_first_named_same_names(a, b, kids, tag, 0);
        },
        None => {
            let n = b[e].children.last();
            assert(b[e].children =~= kids.push(n));
            assert forall|i: int| 0 <= i < kids.len() implies b[#[trigger] kids[i]].name != tag by {
                assert(a[kids[i]].name == b[kids[i]].name);
            }
            lemma_first_named_push(b, kids, n, tag, 0);
        },
    }
}

} // verus!

verus! {

/// Syncing keeps the children of `e` among the elements; it adds no child named `other`
/// when there was none, and an absent value leaves no child named `tag`.
pub proof fn lemma_synced_absence(
    a: Map<Element, NodeState>,
    b: Map<Element, NodeState>,
    e: Element,
    tag: Seq<char>,
    value: Option<Seq<char>>,
    other: Seq<char>,
)
    requires
        synced(a, b, e, tag, value),
        local_name(tag) == tag,
        forall|i: int| 0 <= i < a[e].children.len() ==> a.dom().contains(#[trigger] a[e].children[i]),
    ensures
        forall|i: int| 0 <= i < b[e].children.len() ==> b.dom().contains(#[trigger] b[e].children[i]),
        other != tag && (forall|i: int| 0 <= i < a[e].children.len() ==> a[#[trigger] a[e].children[i]].name != other)
            ==> forall|i: int| 0 <= i < b[e].children.len() ==> b[#[trigger] b[e].children[i]].name != other,
        value is None ==> forall|i: int| 0 <= i < b[e].children.len() ==> b[#[trigger] b[e].children[i]].name != tag,
{
    let kids = a[e].children;
    lemma_first_named(a, kids, tag);
    match (value, first_named(a, kids, tag)) {
        (Some(v), Some(k)) => {
            assert forall|i: int| 0 <= i < b[e].children.len() implies b.dom().contains(#[trigger] b[e].children[i]) && b[b[e].children[i]].name == a[kids[i]].name by {
                assert(a.dom().contains(kids[i]));
            }
        },
        (Some(v), None) => {
            assert forall|i: int| 0 <= i < b[e].children.len() - 1 implies b.dom().contains(#[trigger] b[e].children[i]) && b[b[e].children[i]].name == a[kids[i]].name by {
                assert(b[e].children.drop_last()[i] == kids[i]);
                assert(a.dom().contains(kids[i]));
            }
            assert(b[e].children[b[e].children.len() - 1] == b[e].children.last());
        },
        (None, _) => {
            lemma_field_deletion(a, b, e, tag);
            lemma_without_tag_subset(a, kids, tag);
            assert forall|i: int| 0 <= i < b[e].children.len() implies b.dom().contains(#[trigger] b[e].children[i]) && exists|q: int| 0 <= q < kids.len() && kids[q] == b[e].children[i] by {
                let x = b[e].children[i];
                assert(b[e].children.contains(x));
                assert(kids.contains(x));
                let q = choose|q: int| 0 <= q < kids.len() && kids[q] == x;
                assert(a.dom().contains(kids[q]));
            }
            if other != tag && (forall|i: int| 0 <= i < a[e].children.len() ==> a[#[trigger] a[e].children[i]].name != other) {
                assert forall|i: int| 0 <= i < b[e].children.len() implies b[#[trigger] b[e].children[i]].name != other by {
                    let q = choose|q: int| 0 <= q < kids.len() && kids[q] == b[e].children[i];
                    assert(a.dom().contains(kids[q]));
                }
            }
        },
    }
}

} // verus!

verus! {

pub proof fn lemma_first_named_push_found(m: Map<Element, NodeState>, s: Seq<Element>, x: Element, tag: Seq<char>, from: int)
    requires
        0 <= from <= s.len(),
        first_named_from(m, s, tag, from) is Some,
    ensures
        first_named_from(m, s.push(x), tag, from) == first_named_from(m, s, tag, from),
    decreases s.len() - from,
{
    if from < s.len() {
        assert(s.push(x)[from] == s[from]);
        if m[s[from]].name != tag {
            lemma_first_named_push_found(m, s, x, tag, from + 1);
        }
    }
}

/// Syncing the child named `tag` keeps the first child named `other`, and its text when it
/// has no children.
pub proof fn lemma_synced_keeps_first_text(
    a: Map<Element, NodeState>,
    b: Map<Element, NodeState>,
    e: Element,
    tag: Seq<char>,
    v: Seq<char>,
    other: Seq<char>,
)
    requires
        synced(a, b, e, tag, Some(v)),
        local_name(tag) == tag,
        other != tag,
        forall|i: int| 0 <= i < a[e].children.len() ==> a.dom().contains(#[trigger] a[e].children[i]),
        first_child(a, e, other) matches Some(k) && a[k].children.len() == 0,
    ensures
        first_child(b, e, other) == first_child(a, e, other),
        first_child(a, e, other) matches Some(k) && b[k].text == a[k].text && b[k].children.len() == 0,
{
    let kids = a[e].children;
    lemma_first_named(a, kids, tag);
    lemma_first_named(a, kids, other);
    assert forall|x: int| 0 <= x < kids.len() implies a[#[trigger] kids[x]].name == b[kids[x]].name by {
        assert(a.dom().contains(kids[x]));
    }
    lemma_first_named_same_names(a, b, kids, other, 0);
    let i = first_named(a, kids, other)->0;
    let k = kids[i];
    assert(a.dom().contains(k));
    assert(k != e) by {
        if k == e {
            assert(a[e].children.len() > 0);
        }
    }
    match first_named(a, kids, tag) {
        Some(j) => {
            assert(kids[j] != k);
        },
        None => {
            let n = b[e].children.last();
            assert(b[e].children =~= kids.push(n));
            lemma_first_named_push_found(b, kids, n, other, 0);
            assert(b[e].children[i] == kids[i]);
        },
    }
}

} // verus!

verus! {

pub proof fn lemma_without_tag_keeps(m: Map<Element, NodeState>, s: Seq<Element>, tag: Seq<char>, x: Element)
    requires
        s.contains(x),
        m[x].name != tag,
    ensures
        without_tag(m, s, tag).contains(x),
    decreases s.len(),
{
    let r = s.drop_last();
    let l = s.last();
    if x == l {
        let w = without_tag(m, r, tag);
        assert(w.push(l)[w.len() as int] == x);
    } else {
        let j = choose|j: int| 0 <= j < s.len() && s[j] == x;
        assert(j < s.len() - 1);
        assert(r[j] == x);
        lemma_without_tag_keeps(m, r, tag, x);
        if m[l].name != tag {
            let w = without_tag(m, r, tag);
            let q = choose|q: int| 0 <= q < w.len() && w[q] == x;
            assert(w.push(l)[q] == x);
        }
    }
}

/// A child named otherwise than the synced tag stays a child, with its name and children.
pub proof fn lemma_synced_keeps_other_child(
    a: Map<Element, NodeState>,
    b: Map<Element, NodeState>,
    e: Element,
    tag: Seq<char>,
    value: Option<Seq<char>>,
    x: Element,
)
    requires
        synced(a, b, e, tag, value),
        a.dom().contains(x),
        a[e].children.contains(x),
        a[x].name != tag,
    ensures
        b[e].children.contains(x),
        b[x].name == a[x].name,
        b[x].children == a[x].children,
{
    let kids = a[e].children;
    lemma_first_named(a, kids, tag);
    match (value, first_named(a, kids, tag)) {
        (Some(v), Some(i)) => {
            assert(x != kids[i]);
        },
        (Some(v), None) => {
            let j = choose|j: int| 0 <= j < kids.len() && kids[j] == x;
            assert(b[e].children.drop_last()[j] == x);
            assert(b[e].children[j] == x);
        },
        (None, _) => {
            lemma_without_tag_keeps(a, kids, tag, x);
        },
    }
}

} // verus!

verus! {

/// Every child of `kids` named `tag` reads as a `V`; otherwise the first that does not, in
/// document order, gives the error.
pub open spec fn children_parse<V: PomValue>(
    m: Map<Element, NodeState>,
    kids: Seq<Element>,
    tag: Seq<char>,
    r: Result<(), XMLEditorError>,
) -> bool {
    match r {
        Ok(_) => forall|i: int|
            0 <= i < kids.len() && m[kids[i]].name == tag ==> exists|x: V| #[trigger] V::parses_to(m[kids[i]].text, Ok(x)),
        Err(err) => exists|i: int|
            #![trigger kids[i]]
            0 <= i < kids.len() && m[kids[i]].name == tag && (forall|j: int|
                0 <= j < i && m[kids[j]].name == tag ==> exists|x: V| #[trigger] V::parses_to(m[kids[j]].text, Ok(x)))
                && (err matches XMLEditorError::InvalidValue(e) && V::parses_to(m[kids[i]].text, Err(e))),
    }
}

/// Checks that every child of `element` named `tag` reads as a `V`.
pub fn validate_children<V: PomValue>(element: Element, tag: &str, document: &Document) -> (r: Result<(), XMLEditorError>)
    requires
        well_formed(*document),
        nodes(*document).dom().contains(element),
    ensures
        children_parse::<V>(nodes(*document), nodes(*document)[element].children, tag@, r),
{
    let ghost m = nodes(*document);
    let kids = dom::children_of(document, element);
    let mut i: usize = 0;
    while i < kids.len()
        invariant
            m == nodes(*document),
            well_formed(*document),
            m.dom().contains(element),
            kids@ == m[element].children,
            i <= kids.len(),
            forall|j: int|
                0 <= j < i && m[kids@[j]].name == tag@ ==> exists|x: V| #[trigger] V::parses_to(m[kids@[j]].text, Ok(x)),
        decreases kids.len() - i,
    {
        assert(m.dom().contains(m[element].children[i as int]));
        let name = dom::name_of(document, kids[i]);
        if str_eq(name.as_str(), tag) {
            let text = dom::text_of(document, kids[i]);
            match V::from_str_for_editor(text.as_str()) {
                Ok(x) => {
                    assert(V::parses_to(m[kids@[i as int]].text, Ok(x)));
                },
                Err(e) => {
                    let err = XMLEditorError::InvalidValue(e);
                    assert(kids@[i as int] == kids@[i as int]);
                    return Err(err);
                },
            }
        }
        i = i + 1;
    }
    Ok(())
}

} // verus!

verus! {

/// Every child of `kids` named `tag` reads as an `E`; otherwise the first that does not, in
/// document order, gives the error.
pub open spec fn children_decode<E: ElementConverter>(
    m: Map<Element, NodeState>,
    kids: Seq<Element>,
    tag: Seq<char>,
    r: Result<(), XMLEditorError>,
) -> bool {
    match r {
        Ok(_) => forall|i: int|
            0 <= i < kids.len() && m[kids[i]].name == tag ==> exists|x: E| #[trigger] E::decodes(m, kids[i], Ok(x)),
        Err(err) => exists|i: int|
            #![trigger kids[i]]
            0 <= i < kids.len() && m[kids[i]].name == tag && (forall|j: int|
                0 <= j < i && m[kids[j]].name == tag ==> exists|x: E| #[trigger] E::decodes(m, kids[j], Ok(x)))
                && E::decodes(m, kids[i], Err(err)),
    }
}

/// Checks that every child of `element` named `tag` reads as an `E`.
pub fn validate_child_elements<E: ElementConverter>(element: Element, tag: &str, document: &Document) -> (r: Result<(), XMLEditorError>)
    requires
        well_formed(*document),
        nodes(*document).dom().contains(element),
    ensures
        children_decode::<E>(nodes(*document), nodes(*document)[element].children, tag@, r),
{
    let ghost m = nodes(*document);
    let kids = dom::children_of(document, element);
    let mut i: usize = 0;
    while i < kids.len()
        invariant
            m == nodes(*document),
            well_formed(*document),
            m.dom().contains(element),
            kids@ == m[element].children,
            i <= kids.len(),
            forall|j: int|
                0 <= j < i && m[kids@[j]].name == tag@ ==> exists|x: E| #[trigger] E::decodes(m, kids@[j], Ok(x)),
        decreases kids.len() - i,
    {
        assert(m.dom().contains(m[element].children[i as int]));
        let name = dom::name_of(document, kids[i]);
        if str_eq(name.as_str(), tag) {
            match E::from_element(kids[i], document) {
                Ok(x) => {
                    assert(E::decodes(m, kids@[i as int], Ok(x)));
                },
                Err(e) => {
                    assert(kids@[i as int] == kids@[i as int]);
                    return Err(e);
                },
            }
        }
        i = i + 1;
    }
    Ok(())
}

} // verus!

verus! {

/// No two records of the list are the same item.
pub open spec fn items_distinct<I: ComparableElement>(v: Seq<(I, Element)>) -> bool {
    forall|i: int, j: int| 0 <= i < v.len() && 0 <= j < v.len() && i != j ==> !v[i].0.same_item(&v[j].0)
}

/// The identity relation is symmetric and transitive on the records of `v` and on `extra`.
pub open spec fn identity_is_equivalence<I: ComparableElement>(v: Seq<(I, Element)>, extra: Seq<I>) -> bool {
    let all = v.map_values(|p: (I, Element)| p.0) + extra;
    &&& forall|x: int, y: int|
        0 <= x < all.len() && 0 <= y < all.len() && all[x].same_item(&all[y]) ==> #[trigger] all[y].same_item(&all[x])
    &&& forall|x: int, y: int, z: int|
        0 <= x < all.len() && 0 <= y < all.len() && 0 <= z < all.len() && #[trigger] all[x].same_item(&all[y])
            && #[trigger] all[y].same_item(&all[z]) ==> all[x].same_item(&all[z])
}

/// The list after an upsert of `item`, where `stored` is the record the document holds for it
/// afterwards: the first record that is the same item is replaced, or `stored` is appended.
pub open spec fn upserted_items<I: ComparableElement>(v: Seq<(I, Element)>, item: I, stored: I, e: Element) -> Seq<(I, Element)> {
    match first_match(v, item) {
        Some(i) => v.update(i, (stored, v[i].1)),
        None => v.push((stored, e)),
    }
}

pub proof fn lemma_first_match_bounds<I: ComparableElement>(v: Seq<(I, Element)>, item: I, from: int)
    requires
        0 <= from <= v.len(),
    ensures
        match first_match_from(v, item, from) {
            Some(i) => from <= i < v.len() && v[i].0.same_item(&item) && forall|j: int|
                from <= j < i ==> !v[j].0.same_item(&item),
            None => forall|j: int| from <= j < v.len() ==> !v[j].0.same_item(&item),
        },
    decreases v.len() - from,
{
    if from < v.len() && !v[from].0.same_item(&item) {
        lemma_first_match_bounds(v, item, from + 1);
    }
}

/// For any record type: upserting keeps the records of a list distinct items, when the stored
/// record is the same item as the upserted one in both directions and identity is an
/// equivalence on the records involved.
pub proof fn lemma_upsert_keeps_items_distinct<I: ComparableElement>(v: Seq<(I, Element)>, item: I, stored: I, e: Element)
    requires
        items_distinct(v),
        identity_is_equivalence(v, seq![item, stored]),
        stored.same_item(&item),
    ensures
        items_distinct(upserted_items(v, item, stored, e)),
{
    let all = v.map_values(|p: (I, Element)| p.0) + seq![item, stored];
    let n = v.len() as int;
    assert(all[n] == item);
    assert(all[n + 1] == stored);
    assert forall|k: int| 0 <= k < n implies all[k] == v[k].0 by {}
    lemma_first_match_bounds(v, item, 0);
    let w = upserted_items(v, item, stored, e);
    assert forall|i: int, j: int| 0 <= i < w.len() && 0 <= j < w.len() && i != j implies !w[i].0.same_item(&w[j].0) by {
        match first_match(v, item) {
            Some(k) => {
                if i == k {
                    if stored.same_item(&v[j].0) {
                        assert(all[n + 1].same_item(&all[n]));
                        assert(all[n].same_item(&all[n + 1]));
                        assert(all[n].same_item(&all[j]));
                        assert(all[k].same_item(&all[n]));
                        assert(all[k].same_item(&all[j]));
                    }
                } else if j == k {
                    if v[i].0.same_item(&stored) {
                        assert(all[i].same_item(&all[n + 1]));
                        assert(all[i].same_item(&all[n]));
                        assert(all[k].same_item(&all[n]));
                        assert(all[n].same_item(&all[k]));
                        assert(all[i].same_item(&all[k]));
                    }
                }
            },
            None => {
                if j == n {
                    if v[i].0.same_item(&stored) {
                        assert(all[i].same_item(&all[n + 1]));
                        assert(all[i].same_item(&all[n]));
                    }
                } else if i == n {
                    if stored.same_item(&v[j].0) {
                        assert(all[n + 1].same_item(&all[j]));
                        assert(all[j].same_item(&all[n + 1]));
                        assert(all[j].same_item(&all[n]));
                    }
                }
            },
        }
    }
}

/// For any record type: an upsert of the same item twice finds, on the second call, the record
/// the first call stored, and leaves exactly one record that is that item.
pub proof fn lemma_upsert_twice_items<I: ComparableElement>(
    v: Seq<(I, Element)>,
    item: I,
    first: I,
    e1: Element,
    second: I,
    e2: Element,
)
    requires
        items_distinct(v),
        identity_is_equivalence(v, seq![item, first, second]),
        first.same_item(&item),
        second.same_item(&item),
    ensures
        first_match(upserted_items(v, item, first, e1), item) matches Some(k) && upserted_items(v, item, first, e1)[k].0 == first,
        ({
            let v2 = upserted_items(upserted_items(v, item, first, e1), item, second, e2);
            exists|k: int| 0 <= k < v2.len() && (#[trigger] v2[k]).0.same_item(&item)
                && forall|j: int| 0 <= j < v2.len() && j != k ==> !v2[j].0.same_item(&item)
        }),
{
    let n = v.len() as int;
    let all = v.map_values(|p: (I, Element)| p.0) + seq![item, first, second];
    assert(all[n] == item);
    assert(all[n + 1] == first);
    assert(all[n + 2] == second);
    assert forall|k: int| 0 <= k < n implies all[k] == v[k].0 by {}
    let all2 = v.map_values(|p: (I, Element)| p.0) + seq![item, first];
    assert forall|k: int| 0 <= k < all2.len() implies all2[k] == all[k] by {}
    assert(identity_is_equivalence(v, seq![item, first])) by {
        assert forall|x: int, y: int| 0 <= x < all2.len() && 0 <= y < all2.len() && all2[x].same_item(&all2[y]) implies #[trigger] all2[y].same_item(&all2[x]) by {
            assert(all[x].same_item(&all[y]));
        }
        assert forall|x: int, y: int, z: int|
            0 <= x < all2.len() && 0 <= y < all2.len() && 0 <= z < all2.len() && #[trigger] all2[x].same_item(&all2[y])
                && #[trigger] all2[y].same_item(&all2[z]) implies all2[x].same_item(&all2[z]) by {
            assert(all[x].same_item(&all[y]));
            assert(all[y].same_item(&all[z]));
        }
    }
    lemma_upsert_keeps_items_distinct(v, item, first, e1);
    let v1 = upserted_items(v, item, first, e1);
    lemma_first_match_bounds(v, item, 0);
    lemma_first_match_bounds(v1, item, 0);
    let k = match first_match(v, item) {
        Some(i) => i,
        None => n,
    };
    assert(v1[k].0 == first);
    assert(first_match(v1, item) == Some(k)) by {
        if let Some(m) = first_match(v1, item) {
            if m < k {
                assert(v1[m] == v[m]);
            } else if m > k {
                assert(!v1[k].0.same_item(&item));
            }
        } else {
            assert(!v1[k].0.same_item(&item));
        }
    }
    let v2 = upserted_items(v1, item, second, e2);
    assert(v2.len() == v1.len());
    assert(v2[k].0 == second);
    assert forall|j: int| 0 <= j < v2.len() && j != k implies !v2[j].0.same_item(&item) by {
        assert(v2[j] == v1[j]);
        if v1[j].0.same_item(&item) {
            let jj = if j < n { j } else { n + 1 };
            assert(all[jj] == v1[j].0) by {
                if j < n && j != k {
                    assert(v1[j] == v[j]);
                }
            }
            assert(all[jj].same_item(&all[n]));
            assert(all[n + 1].same_item(&all[n]));
            assert(all[n].same_item(&all[n + 1]));
            assert(all[jj].same_item(&all[n + 1]));
            assert(!v1[j].0.same_item(&v1[k].0));
        }
    }
}

} // verus!
