//! The document tree of `edit_xml`, seen through a model: for each element handle,
//! its local name, its text content, its child elements in order and its parent.
use vstd::prelude::*;

use edit_xml::{Document, EditXMLError, Element};

verus! {

#[verifier::external_type_specification]
#[verifier::external_body]
pub struct ExDocument(edit_xml::Document);

#[verifier::external_type_specification]
#[verifier::external_body]
pub struct ExElement(edit_xml::Element);

#[verifier::external_type_specification]
#[verifier::external_body]
pub struct ExEditXMLError(edit_xml::EditXMLError);

/// What the model records of one element.
pub struct NodeState {
    /// The local name: the part of the full name after the first `:`, if there is one.
    pub name: Seq<char>,
    /// The text content: the text of all descendants, in document order.
    pub text: Seq<char>,
    /// The child elements, in document order.
    pub children: Seq<Element>,
    pub parent: Option<Element>,
}

/// The elements a document holds, by handle.
pub uninterp spec fn nodes(d: Document) -> Map<Element, NodeState>;

/// The invisible element that holds a document's root nodes.
pub uninterp spec fn holder(d: Document) -> Element;

/// The index of the first `:` in `s`, if any.
pub open spec fn first_colon(s: Seq<char>, i: int) -> Option<int>
    decreases s.len() - i,
{
    if i < 0 || i >= s.len() {
        None
    } else if s[i] == ':' {
        Some(i)
    } else {
        first_colon(s, i + 1)
    }
}

/// The local part of a full name `prefix:name`.
pub open spec fn local_name(full: Seq<char>) -> Seq<char> {
    match first_colon(full, 0) {
        Some(i) => full.subrange(i + 1, full.len() as int),
        None => full,
    }
}

/// `x` is reached from `y` by following parent links between one and `n` times.
pub open spec fn ancestor_within(m: Map<Element, NodeState>, x: Element, y: Element, n: nat) -> bool
    decreases n,
{
    n > 0 && m[y].parent is Some && (m[y].parent->0 == x || ancestor_within(m, x, m[y].parent->0, (n - 1) as nat))
}

/// `x` is a proper ancestor of `y`.
pub open spec fn is_ancestor(m: Map<Element, NodeState>, x: Element, y: Element) -> bool {
    exists|n: nat| ancestor_within(m, x, y, n)
}

/// The model is a tree in which parents and children agree, the holder has no parent,
/// and no element is its own ancestor.
pub open spec fn well_formed(d: Document) -> bool {
    let m = nodes(d);
    &&& m.dom().contains(holder(d))
    &&& m[holder(d)].parent is None
    &&& forall|e: Element, i: int|
        #![trigger m[e].children[i]]
        m.dom().contains(e) && 0 <= i < m[e].children.len() ==> {
            &&& m.dom().contains(m[e].children[i])
            &&& m[e].children[i] != holder(d)
            &&& m[m[e].children[i]].parent == Some(e)
        }
    &&& forall|e: Element|
        #![trigger m[e].parent]
        m.dom().contains(e) && m[e].parent is Some ==> {
            &&& m.dom().contains(m[e].parent->0)
            &&& m[m[e].parent->0].children.contains(e)
            &&& m[e].parent != Some(e)
            &&& m[m[e].parent->0].parent != Some(e)
        }
    &&& forall|e: Element| m.dom().contains(e) ==> !#[trigger] is_ancestor(m, e, e)
}

/// An element with no parent has no ancestor.
pub proof fn lemma_no_parent_no_ancestor(m: Map<Element, NodeState>, x: Element, y: Element)
    requires
        m[y].parent is None,
    ensures
        !is_ancestor(m, x, y),
{
    assert forall|n: nat| !ancestor_within(m, x, y, n) by {}
}

proof fn lemma_fresh_not_ancestor_within(a: Map<Element, NodeState>, b: Map<Element, NodeState>, x: Element, y: Element, n: nat)
    requires
        a.dom().contains(y),
        !a.dom().contains(x),
        forall|z: Element| #![trigger a[z].parent] a.dom().contains(z) && a[z].parent is Some ==> a.dom().contains(a[z].parent->0),
        forall|z: Element| #![trigger b[z].parent] a.dom().contains(z) ==> b[z].parent == a[z].parent,
    ensures
        !ancestor_within(b, x, y, n),
    decreases n,
{
    if n > 0 && b[y].parent is Some {
        assert(b[y].parent == a[y].parent);
        lemma_fresh_not_ancestor_within(a, b, x, a[y].parent->0, (n - 1) as nat);
    }
}

/// An element that was not in `a` is no ancestor, in `b`, of an element of `a`, when the
/// elements of `a` keep their parents.
pub proof fn lemma_fresh_not_ancestor(a: Map<Element, NodeState>, b: Map<Element, NodeState>, x: Element, y: Element)
    requires
        a.dom().contains(y),
        !a.dom().contains(x),
        forall|z: Element| #![trigger a[z].parent] a.dom().contains(z) && a[z].parent is Some ==> a.dom().contains(a[z].parent->0),
        forall|z: Element| #![trigger b[z].parent] a.dom().contains(z) ==> b[z].parent == a[z].parent,
    ensures
        !is_ancestor(b, x, y),
{
    assert forall|n: nat| !ancestor_within(b, x, y, n) by {
        lemma_fresh_not_ancestor_within(a, b, x, y, n);
    }
}

/// An element of the document other than its holder.
pub open spec fn is_element_of(d: Document, e: Element) -> bool {
    nodes(d).dom().contains(e) && e != holder(d)
}

pub open spec fn is_leaf(m: Map<Element, NodeState>, e: Element) -> bool {
    m[e].children.len() == 0
}

/// Everything but the elements in `changed` keeps name, children and parent, and every
/// element with no child elements outside `changed` keeps its text.
pub open spec fn unchanged_except(
    a: Map<Element, NodeState>,
    b: Map<Element, NodeState>,
    changed: Set<Element>,
) -> bool {
    forall|x: Element|
        #![trigger b[x]]
        a.dom().contains(x) && !changed.contains(x) ==> {
            &&& b[x].name == a[x].name
            &&& b[x].children == a[x].children
            &&& b[x].parent == a[x].parent
            &&& (is_leaf(a, x) ==> b[x].text == a[x].text)
        }
}

/// `s` without its first occurrence of `x`.
pub open spec fn remove_first(s: Seq<Element>, x: Element) -> Seq<Element> {
    match s.index_of_first(x) {
        Some(i) => s.remove(i),
        None => s,
    }
}

/// Relies on `Document::new`: a document that holds only its invisible holder.
#[verifier::external_body]
pub fn new_document() -> (d: Document)
    ensures
        well_formed(d),
        nodes(d).dom() == set![holder(d)],
        nodes(d)[holder(d)].children.len() == 0,
{
    Document::new()
}

/// Whether `Document::parse_str_with_opts`, with no XML declaration required, accepts the text.
pub uninterp spec fn xml_parses(text: Seq<char>) -> bool;

/// The local name of the first root element of the document parsed from the text, if any.
pub uninterp spec fn parsed_root_name(text: Seq<char>) -> Option<Seq<char>>;

/// The local name of the first root element of `d`, if any.
pub open spec fn root_name(d: Document) -> Option<Seq<char>> {
    if nodes(d)[holder(d)].children.len() == 0 {
        None
    } else {
        Some(nodes(d)[nodes(d)[holder(d)].children[0]].name)
    }
}

/// Relies on `Document::parse_str_with_opts` with no XML declaration required; what it
/// returns depends on the text alone.
#[verifier::external_body]
pub fn parse_document(text: &str) -> (r: Result<Document, EditXMLError>)
    ensures
        r is Ok == xml_parses(text@),
        r matches Ok(d) ==> well_formed(d) && root_name(d) == parsed_root_name(text@),
{
    Document::parse_str_with_opts(
        text,
        edit_xml::ReadOptions { require_decl: false, ..Default::default() },
    )
}

/// Relies on `Document::write_str_with_opts` with the XML declaration and the given indent.
#[verifier::external_body]
pub fn write_document(d: &Document, indent_size: usize) -> (r: Result<String, EditXMLError>) {
    d.write_str_with_opts(
        edit_xml::WriteOptions { write_decl: true, indent_size, ..Default::default() },
    )
}

/// Relies on `Document::root_element`: the first child element of the holder.
#[verifier::external_body]
pub fn root_element(d: &Document) -> (r: Option<Element>)
    ensures
        r == (if nodes(*d)[holder(*d)].children.len() == 0 {
            None
        } else {
            Some(nodes(*d)[holder(*d)].children[0])
        }),
{
    d.root_element()
}

/// Relies on `Document::container`.
#[verifier::external_body]
pub fn document_holder(d: &Document) -> (r: Element)
    ensures
        r == holder(*d),
{
    d.container()
}

/// Relies on `Element::name`: the local name.
#[verifier::external_body]
pub fn name_of(d: &Document, e: Element) -> (r: String)
    requires
        nodes(*d).dom().contains(e),
    ensures
        r@ == nodes(*d)[e].name,
{
    e.name(d).to_string()
}

/// Relies on `Element::text_content`; in a tree the recursion ends.
#[verifier::external_body]
pub fn text_of(d: &Document, e: Element) -> (r: String)
    requires
        well_formed(*d),
        nodes(*d).dom().contains(e),
    ensures
        r@ == nodes(*d)[e].text,
{
    e.text_content(d)
}

/// Relies on `Element::child_elements`.
#[verifier::external_body]
pub fn children_of(d: &Document, e: Element) -> (r: Vec<Element>)
    requires
        nodes(*d).dom().contains(e),
    ensures
        r@ == nodes(*d)[e].children,
{
    e.child_elements(d)
}

/// Relies on `Element::new`: a new element with no parent, no children and no text.
#[verifier::external_body]
pub fn new_element(d: &mut Document, name: &str) -> (e: Element)
    requires
        well_formed(*old(d)),
    ensures
        well_formed(*final(d)),
        holder(*final(d)) == holder(*old(d)),
        !nodes(*old(d)).dom().contains(e),
        nodes(*final(d)) == nodes(*old(d)).insert(
            e,
            NodeState { name: local_name(name@), text: Seq::empty(), children: Seq::empty(), parent: None },
        ),
{
    Element::new(d, name)
}

/// Relies on `Element::set_text_content`: the children are dropped for one text node.
#[verifier::external_body]
pub fn set_text(d: &mut Document, e: Element, text: &str)
    requires
        well_formed(*old(d)),
        is_element_of(*old(d), e),
    ensures
        well_formed(*final(d)),
        holder(*final(d)) == holder(*old(d)),
        nodes(*final(d)).dom() == nodes(*old(d)).dom(),
        nodes(*final(d))[e].name == nodes(*old(d))[e].name,
        nodes(*final(d))[e].text == text@,
        nodes(*final(d))[e].children.len() == 0,
        nodes(*final(d))[e].parent == nodes(*old(d))[e].parent,
        unchanged_except(
            nodes(*old(d)),
            nodes(*final(d)),
            nodes(*old(d))[e].children.to_set().insert(e),
        ),
        forall|i: int|
            0 <= i < nodes(*old(d))[e].children.len() ==> {
                let k = #[trigger] nodes(*old(d))[e].children[i];
                &&& nodes(*final(d))[k].parent is None
                &&& nodes(*final(d))[k].name == nodes(*old(d))[k].name
                &&& nodes(*final(d))[k].children == nodes(*old(d))[k].children
                &&& (is_leaf(nodes(*old(d)), k) ==> nodes(*final(d))[k].text == nodes(*old(d))[k].text)
            },
        nodes(*old(d))[e].parent is None && nodes(*old(d))[e].children.len() == 0 ==> nodes(
            *final(d),
        ) == nodes(*old(d)).insert(e, nodes(*final(d))[e]),
{
    e.set_text_content(d, text)
}

/// Relies on `Element::push_child`, which appends an element that has no parent.
#[verifier::external_body]
pub fn push_child(d: &mut Document, parent: Element, child: Element) -> (r: Result<(), EditXMLError>)
    requires
        well_formed(*old(d)),
        nodes(*old(d)).dom().contains(parent),
        is_element_of(*old(d), child),
        nodes(*old(d))[child].parent is None,
        child != parent,
        !is_ancestor(nodes(*old(d)), child, parent),
    ensures
        r is Ok,
        well_formed(*final(d)),
        holder(*final(d)) == holder(*old(d)),
        nodes(*final(d)).dom() == nodes(*old(d)).dom(),
        nodes(*final(d))[parent].name == nodes(*old(d))[parent].name,
        nodes(*final(d))[parent].children == nodes(*old(d))[parent].children.push(child),
        nodes(*final(d))[parent].parent == nodes(*old(d))[parent].parent,
        nodes(*final(d))[child].name == nodes(*old(d))[child].name,
        nodes(*final(d))[child].children == nodes(*old(d))[child].children,
        is_leaf(nodes(*old(d)), child) ==> nodes(*final(d))[child].text == nodes(*old(d))[child].text,
        nodes(*final(d))[child].parent == Some(parent),
        unchanged_except(nodes(*old(d)), nodes(*final(d)), set![parent, child]),
        nodes(*old(d))[parent].parent is None ==> nodes(*final(d)) == nodes(*old(d)).insert(
            parent,
            nodes(*final(d))[parent],
        ).insert(child, nodes(*final(d))[child]),
        nodes(*old(d))[parent].parent is None ==> nodes(*final(d))[child].text == nodes(
            *old(d),
        )[child].text,
{
    parent.push_child(d, child)
}

/// Relies on `Element::clear_children`: every child node is removed.
#[verifier::external_body]
pub fn clear_children(d: &mut Document, e: Element)
    requires
        well_formed(*old(d)),
        nodes(*old(d)).dom().contains(e),
    ensures
        well_formed(*final(d)),
        holder(*final(d)) == holder(*old(d)),
        nodes(*final(d)).dom() == nodes(*old(d)).dom(),
        nodes(*final(d))[e].name == nodes(*old(d))[e].name,
        nodes(*final(d))[e].text.len() == 0,
        nodes(*final(d))[e].children.len() == 0,
        nodes(*final(d))[e].parent == nodes(*old(d))[e].parent,
        unchanged_except(
            nodes(*old(d)),
            nodes(*final(d)),
            nodes(*old(d))[e].children.to_set().insert(e),
        ),
        forall|i: int|
            0 <= i < nodes(*old(d))[e].children.len() ==> {
                let k = #[trigger] nodes(*old(d))[e].children[i];
                &&& nodes(*final(d))[k].parent is None
                &&& nodes(*final(d))[k].name == nodes(*old(d))[k].name
                &&& nodes(*final(d))[k].children == nodes(*old(d))[k].children
                &&& (is_leaf(nodes(*old(d)), k) ==> nodes(*final(d))[k].text == nodes(*old(d))[k].text)
            },
{
    e.clear_children(d);
}

/// Relies on `Element::detach`: the element leaves its parent's children.
#[verifier::external_body]
pub fn detach(d: &mut Document, e: Element) -> (r: Result<(), EditXMLError>)
    requires
        well_formed(*old(d)),
        is_element_of(*old(d), e),
    ensures
        r is Ok,
        well_formed(*final(d)),
        holder(*final(d)) == holder(*old(d)),
        nodes(*final(d)).dom() == nodes(*old(d)).dom(),
        nodes(*final(d))[e].name == nodes(*old(d))[e].name,
        nodes(*final(d))[e].children == nodes(*old(d))[e].children,
        nodes(*final(d))[e].parent is None,
        match nodes(*old(d))[e].parent {
            Some(p) => {
                &&& nodes(*final(d))[p].name == nodes(*old(d))[p].name
                &&& nodes(*final(d))[p].children == remove_first(nodes(*old(d))[p].children, e)
                &&& nodes(*final(d))[p].parent == nodes(*old(d))[p].parent
                &&& unchanged_except(nodes(*old(d)), nodes(*final(d)), set![p, e])
            },
            None => nodes(*final(d)) == nodes(*old(d)),
        },
        is_leaf(nodes(*old(d)), e) ==> nodes(*final(d))[e].text == nodes(*old(d))[e].text,
{
    e.detach(d)
}

/// Relies on `Element::set_attribute`; attributes are not part of the model.
#[verifier::external_body]
pub fn set_attribute(d: &mut Document, e: Element, name: &str, value: &str)
    requires
        nodes(*old(d)).dom().contains(e),
    ensures
        nodes(*final(d)) == nodes(*old(d)),
        holder(*final(d)) == holder(*old(d)),
{
    e.set_attribute(d, name, value)
}

} // verus!

verus! {

pub proof fn lemma_no_colon_from(s: Seq<char>, i: int)
    requires
        0 <= i,
        forall|j: int| 0 <= j < s.len() ==> s[j] != ':',
    ensures
        first_colon(s, i) is None,
    decreases s.len() - i,
{
    if i < s.len() {
        lemma_no_colon_from(s, i + 1);
    }
}

/// A name with no `:` is its own local name.
pub proof fn lemma_plain_name(s: Seq<char>)
    requires
        forall|j: int| 0 <= j < s.len() ==> s[j] != ':',
    ensures
        local_name(s) == s,
{
    lemma_no_colon_from(s, 0);
}

/// The first `:` of `s` at or after `from`.
pub fn find_colon(s: &str, from: usize) -> (r: Option<usize>)
    requires
        from <= s@.len(),
    ensures
        match first_colon(s@, from as int) {
            Some(i) => r == Some(i as usize),
            None => r is None,
        },
{
    let n = s.unicode_len();
    let mut i = from;
    while i < n
        invariant
            n == s@.len(),
            from <= i <= n,
            first_colon(s@, from as int) == first_colon(s@, i as int),
        decreases n - i,
    {
        if s.get_char(i) == ':' {
            return Some(i);
        }
        i = i + 1;
    }
    None
}

} // verus!
