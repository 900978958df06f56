//! Editing XML documents in place: records are read from and written to elements
//! without touching what the records do not model, so comments and layout survive.
use vstd::prelude::*;

use edit_xml::{Document, EditXMLError, Element};

pub mod dom;
pub mod utils;

use dom::{NodeState, nodes, holder, well_formed, is_element_of};
use utils::MissingElementError;

verus! {

/// Why reading or editing a record failed.
#[derive(Debug)]
pub enum XMLEditorError {
    /// A required child element is absent.
    MissingElement(MissingElementError),
    /// An element carries another tag than the one expected.
    UnexpectedElementType { expected: &'static str, found: String },
    /// The text of an element is not a value of the expected kind.
    InvalidValue(InvalidValueError),
    /// The document refused an edit.
    EditXMLError(EditXMLError),
    /// An assembled record breaks one of its own rules.
    ValidationError { pom_type: &'static str, error: String },
}

/// Why a scalar text could not be read as a value.
#[derive(Debug, Clone, PartialEq, Eq)]
pub enum InvalidValueError {
    InvalidValue { expected: &'static str, found: String },
    InvalidFormattedValue { error: String },
}

impl InvalidValueError {
    /// A message for people.
    pub fn to_string(&self) -> (r: String)
        ensures
            r@ == match self {
                InvalidValueError::InvalidValue { expected, found } => "Expected "@ + expected@
                    + " found "@ + found@,
                InvalidValueError::InvalidFormattedValue { error } => "Invalid Value: "@ + error@,
            },
    {
        match self {
            InvalidValueError::InvalidValue { expected, found } => {
                let mut s = String::from_str("Expected ");
                s.append(expected);
                s.append(" found ");
                s.append(found.as_str());
                s
            },
            InvalidValueError::InvalidFormattedValue { error } => {
                let mut s = String::from_str("Invalid Value: ");
                s.append(error.as_str());
                s
            },
        }
    }
}

/// A value that is written as the text of one element.
pub trait PomValue: Sized {
    /// What reading `text` gives.
    spec fn parses_to(text: Seq<char>, r: Result<Self, InvalidValueError>) -> bool;

    /// The text the value is written as.
    spec fn rendered(&self) -> Seq<char>;

    fn from_str_for_editor(value: &str) -> (r: Result<Self, InvalidValueError>)
        ensures
            Self::parses_to(value@, r),
    ;

    fn to_string_for_editor(&self) -> (r: String)
        ensures
            r@ == self.rendered(),
    ;
}

/// Reads the value held in the text of `element`.
pub fn value_from_element<V: PomValue>(element: Element, document: &Document) -> (r: Result<V, XMLEditorError>)
    requires
        well_formed(*document),
        nodes(*document).dom().contains(element),
    ensures
        exists|v: Result<V, InvalidValueError>| {
            &&& V::parses_to(nodes(*document)[element].text, v)
            &&& match v {
                Ok(x) => r == Ok::<V, XMLEditorError>(x),
                Err(e) => r == Err::<V, XMLEditorError>(XMLEditorError::InvalidValue(e)),
            }
        },
{
    let text = dom::text_of(document, element);
    let v = V::from_str_for_editor(text.as_str());
    match v {
        Ok(x) => Ok(x),
        Err(e) => Err(XMLEditorError::InvalidValue(e)),
    }
}

impl PomValue for bool {
    open spec fn parses_to(text: Seq<char>, r: Result<bool, InvalidValueError>) -> bool {
        if text == "true"@ {
            r == Ok::<bool, InvalidValueError>(true)
        } else if text == "false"@ {
            r == Ok::<bool, InvalidValueError>(false)
        } else {
            r matches Err(InvalidValueError::InvalidValue { expected, found }) && found@ == text
                && expected@ == "true or false"@
        }
    }

    open spec fn rendered(&self) -> Seq<char> {
        if *self {
            "true"@
        } else {
            "false"@
        }
    }

    fn from_str_for_editor(value: &str) -> (r: Result<bool, InvalidValueError>) {
        if crate::utils::str_eq(value, "true") {
            Ok(true)
        } else if crate::utils::str_eq(value, "false") {
            Ok(false)
        } else {
            Err(InvalidValueError::InvalidValue { expected: "true or false", found: value.to_string() })
        }
    }

    fn to_string_for_editor(&self) -> (r: String) {
        if *self {
            String::from_str("true")
        } else {
            String::from_str("false")
        }
    }
}

impl PomValue for String {
    open spec fn parses_to(text: Seq<char>, r: Result<String, InvalidValueError>) -> bool {
        r matches Ok(s) && s@ == text
    }

    open spec fn rendered(&self) -> Seq<char> {
        self@
    }

    fn from_str_for_editor(value: &str) -> (r: Result<String, InvalidValueError>) {
        Ok(value.to_string())
    }

    fn to_string_for_editor(&self) -> (r: String) {
        self.clone()
    }
}

/// An element with a fixed tag.
pub trait HasElementName {
    spec fn tag() -> Seq<char>;

    fn element_name() -> (r: &'static str)
        ensures
            r@ == Self::tag(),
    ;
}

/// Every element of `a` is in `b` unchanged.
pub open spec fn extends(a: Map<Element, NodeState>, b: Map<Element, NodeState>) -> bool {
    &&& a.dom().subset_of(b.dom())
    &&& forall|x: Element| #![trigger b[x]] a.dom().contains(x) ==> b[x] == a[x]
}

/// Outside `changed`, every element of `a` keeps its name and children in `b`, and every
/// element of `a` without children keeps its text.
pub open spec fn content_kept_except(a: Map<Element, NodeState>, b: Map<Element, NodeState>, changed: Set<Element>) -> bool {
    &&& a.dom().subset_of(b.dom())
    &&& forall|x: Element|
        #![trigger b[x]]
        a.dom().contains(x) && !changed.contains(x) ==> {
            &&& b[x].name == a[x].name
            &&& b[x].children == a[x].children
            &&& (a[x].children.len() == 0 ==> b[x].text == a[x].text)
        }
}

/// `kids` are new elements, distinct, with no parent.
pub open spec fn fresh_detached(
    a: Map<Element, NodeState>,
    b: Map<Element, NodeState>,
    kids: Seq<Element>,
) -> bool {
    &&& forall|i: int|
        #![trigger kids[i]]
        0 <= i < kids.len() ==> {
            &&& !a.dom().contains(kids[i])
            &&& b.dom().contains(kids[i])
            &&& b[kids[i]].parent is None
        }
    &&& forall|i: int, j: int| 0 <= i < j < kids.len() ==> kids[i] != kids[j]
}

/// Converting an element to a record and back.
pub trait ElementConverter: Sized {
    /// What reading the element `e` of a document with elements `m` gives.
    spec fn decodes(m: Map<Element, NodeState>, e: Element, r: Result<Self, XMLEditorError>) -> bool;

    /// The child elements `kids` in `m` are what the record is written as.
    spec fn written_as(&self, m: Map<Element, NodeState>, kids: Seq<Element>) -> bool;

    /// What is written depends only on the names and children of the written elements and
    /// their children, and on the texts of those without children.
    proof fn lemma_written_as_frame(
        &self,
        a: Map<Element, NodeState>,
        b: Map<Element, NodeState>,
        kids: Seq<Element>,
        changed: Set<Element>,
    )
        requires
            self.written_as(a, kids),
            content_kept_except(a, b, changed),
            forall|i: int| 0 <= i < kids.len() ==> !changed.contains(#[trigger] kids[i]),
            forall|i: int, j: int|
                0 <= i < kids.len() && 0 <= j < a[kids[i]].children.len() ==> !changed.contains(
                    #[trigger] a[kids[i]].children[j],
                ),
        ensures
            self.written_as(b, kids),
    ;

    fn from_element(element: Element, document: &Document) -> (r: Result<Self, XMLEditorError>)
        requires
            well_formed(*document),
            nodes(*document).dom().contains(element),
        ensures
            Self::decodes(nodes(*document), element, r),
    ;

    /// Creates the child elements of the record, detached, in canonical order.
    fn into_children(self, document: &mut Document) -> (r: Result<Vec<Element>, XMLEditorError>)
        requires
            well_formed(*old(document)),
        ensures
            well_formed(*final(document)),
            holder(*final(document)) == holder(*old(document)),
            r matches Ok(kids) && {
                &&& extends(nodes(*old(document)), nodes(*final(document)))
                &&& fresh_detached(nodes(*old(document)), nodes(*final(document)), kids@)
                &&& self.written_as(nodes(*final(document)), kids@)
            },
    ;
}

/// Identity of records in a list: the same logical item, whatever its other fields.
pub trait ComparableElement {
    spec fn same_item(&self, other: &Self) -> bool;

    fn is_same_item(&self, other: &Self) -> (r: bool)
        ensures
            r == self.same_item(other),
    ;
}

/// Updating an existing element in place from a record.
pub trait UpdatableElement: ElementConverter {
    /// How the document `a` becomes `b` when the element `e` is updated from the record.
    spec fn updates(&self, a: Map<Element, NodeState>, b: Map<Element, NodeState>, e: Element) -> bool;

    fn update_element(&self, element: Element, document: &mut Document) -> (r: Result<(), XMLEditorError>)
        requires
            well_formed(*old(document)),
            is_element_of(*old(document), element),
        ensures
            r is Ok,
            well_formed(*final(document)),
            holder(*final(document)) == holder(*old(document)),
            nodes(*old(document)).dom().subset_of(nodes(*final(document)).dom()),
            nodes(*final(document))[element].parent == nodes(*old(document))[element].parent,
            nodes(*final(document))[element].name == nodes(*old(document))[element].name,
            utils::unchanged_outside(nodes(*old(document)), nodes(*final(document)), element),
            self.updates(nodes(*old(document)), nodes(*final(document)), element),
    ;
}

/// A record that lives in a list under a container element.
pub trait ChildOfListElement: ElementConverter {
    spec fn container_tag() -> Seq<char>;

    fn parent_element_name() -> (r: &'static str)
        ensures
            r@ == Self::container_tag(),
    ;
}

} // verus!

verus! {

impl PomValue for usize {
    open spec fn parses_to(text: Seq<char>, r: Result<usize, InvalidValueError>) -> bool {
        match crate::utils::unsigned_value(text) {
            Some(v) if v <= usize::MAX => r == Ok::<usize, InvalidValueError>(v as usize),
            _ => r matches Err(InvalidValueError::InvalidValue { expected, found }) && found@ == text
                && expected@ == "A number"@,
        }
    }

    open spec fn rendered(&self) -> Seq<char> {
        crate::utils::decimal(*self as nat)
    }

    fn from_str_for_editor(value: &str) -> (r: Result<usize, InvalidValueError>) {
        match crate::utils::parse_usize(value) {
            Some(v) => Ok(v),
            None => Err(InvalidValueError::InvalidValue { expected: "A number", found: value.to_string() }),
        }
    }

    fn to_string_for_editor(&self) -> (r: String) {
        crate::utils::decimal_string(*self)
    }
}

} // verus!
