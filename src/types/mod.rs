//! Values that may reference properties: `1.0`, `${project.version}`, `${a}-${b}`.
use vstd::prelude::*;

pub mod prop;

pub use prop::ParseState;
use prop::parse_property;
use crate::editor::{InvalidValueError, PomValue};
use crate::utils::parse::{ParseContext, ParseErrorExt};
use crate::utils::decimal_string;

verus! {

broadcast use vstd::std_specs::vec::group_vec_axioms, vstd::seq::group_seq_axioms;

/// A scalar value split into literal runs and variable references.
#[derive(Debug, PartialEq, Eq, Hash)]
pub enum Property {
    /// `${name}`
    Variable(String),
    /// `${text` with no closing brace; kept so that the text is written back unchanged.
    UnclosedVariable(String),
    /// Plain text with no variable in it.
    Literal(String),
    /// Two or more parts, in order.
    Expression(Vec<Property>),
}

/// The mathematical value of a [`Property`].
pub enum PropertyView {
    Variable(Seq<char>),
    UnclosedVariable(Seq<char>),
    Literal(Seq<char>),
    Expression(Seq<PropertyView>),
}

pub open spec fn property_view(p: Property) -> PropertyView
    decreases p, 0int,
{
    match p {
        Property::Variable(name) => PropertyView::Variable(name@),
        Property::UnclosedVariable(text) => PropertyView::UnclosedVariable(text@),
        Property::Literal(text) => PropertyView::Literal(text@),
        Property::Expression(parts) => PropertyView::Expression(
            property_views(parts, parts.len() as int),
        ),
    }
}

/// The views of the first `k` parts.
pub open spec fn property_views(parts: Vec<Property>, k: int) -> Seq<PropertyView>
    decreases parts, k,
{
    if k <= 0 || k > parts.len() {
        Seq::empty()
    } else {
        property_views(parts, k - 1).push(property_view(parts[k - 1]))
    }
}

impl View for Property {
    type V = PropertyView;

    open spec fn view(&self) -> PropertyView {
        property_view(*self)
    }
}

/// The text that a property stands for.
pub open spec fn render(p: PropertyView) -> Seq<char>
    decreases p, 0int,
{
    match p {
        PropertyView::Variable(name) => seq!['$', '{'] + name + seq!['}'],
        PropertyView::UnclosedVariable(text) => seq!['$', '{'] + text,
        PropertyView::Literal(text) => text,
        PropertyView::Expression(parts) => render_parts(parts, parts.len() as int),
    }
}

/// The texts of the first `k` parts, joined.
pub open spec fn render_parts(parts: Seq<PropertyView>, k: int) -> Seq<char>
    decreases parts, k,
{
    if k <= 0 || k > parts.len() {
        Seq::empty()
    } else {
        render_parts(parts, k - 1) + render(parts[k - 1])
    }
}

pub open spec fn starts_with(s: Seq<char>, prefix: Seq<char>) -> bool {
    prefix.len() <= s.len() && s.subrange(0, prefix.len() as int) == prefix
}

pub open spec fn variable_named_with(p: PropertyView, prefix: Seq<char>) -> bool {
    match p {
        PropertyView::Variable(name) => starts_with(name, prefix),
        _ => false,
    }
}

/// Whether `s` starts with the literal `prefix`.
pub fn str_starts_with(s: &str, prefix: &str) -> (r: bool)
    ensures
        r == starts_with(s@, prefix@),
{
    let n = s.unicode_len();
    let m = prefix.unicode_len();
    if m > n {
        return false;
    }
    let mut i: usize = 0;
    while i < m
        invariant
            n == s@.len(),
            m == prefix@.len(),
            m <= n,
            i <= m,
            forall|j: int| 0 <= j < i ==> s@[j] == prefix@[j],
        decreases m - i,
    {
        if s.get_char(i) != prefix.get_char(i) {
            assert(s@.subrange(0, m as int)[i as int] != prefix@[i as int]);
            return false;
        }
        i = i + 1;
    }
    assert(s@.subrange(0, m as int) =~= prefix@);
    true
}

impl Default for Property {
    fn default() -> (r: Self)
        ensures
            r@ == PropertyView::Literal(Seq::empty()),
    {
        Property::Literal(String::new())
    }
}

/// What the parser expected, in words.
pub open spec fn context_text(ctx: ParseContext) -> Seq<char> {
    match ctx {
        ParseContext::VariableSuffix => "expected `}` to close the variable"@,
        ParseContext::Part => "expected a variable or literal text"@,
    }
}

impl ParseContext {
    /// What the parser expected, in words.
    pub fn describe(&self) -> (r: &'static str)
        ensures
            r@ == context_text(*self),
    {
        match self {
            ParseContext::VariableSuffix => "expected `}` to close the variable",
            ParseContext::Part => "expected a variable or literal text",
        }
    }
}

impl<I> ParseErrorExt<I> {
    /// A message for people: where parsing stopped and what was expected there.
    pub fn to_string(&self) -> (r: String)
        ensures
            r@ == "Parsing stopped at offset "@ + crate::utils::decimal(self.offset as nat) + ", context: "@
                + context_text(self.inner),
    {
        let mut s = String::from_str("Parsing stopped at offset ");
        let offset = decimal_string(self.offset);
        s.append(offset.as_str());
        s.append(", context: ");
        s.append(self.inner.describe());
        s
    }
}

impl PomValue for Property {
    open spec fn parses_to(text: Seq<char>, r: Result<Property, InvalidValueError>) -> bool {
        match parse_property(text, false) {
            Ok(p) => r matches Ok(q) && q@ == p,
            Err(_) => r matches Err(InvalidValueError::InvalidFormattedValue { .. }),
        }
    }

    open spec fn rendered(&self) -> Seq<char> {
        render(self@)
    }

    fn from_str_for_editor(value: &str) -> (r: Result<Property, InvalidValueError>) {
        let state = ParseState { allow_unclosed_variable: false };
        match state.parse(value) {
            Ok(p) => Ok(p),
            Err(e) => Err(InvalidValueError::InvalidFormattedValue { error: e.to_string() }),
        }
    }

    fn to_string_for_editor(&self) -> (r: String) {
        self.to_string()
    }
}

impl Property {
    /// Parses `value` with unclosed variables refused.
    pub fn parse_str(value: &str) -> (r: Result<Property, ParseErrorExt<()>>)
        ensures
            match parse_property(value@, false) {
                Ok(p) => r matches Ok(q) && q@ == p,
                Err((pos, ctx)) => r matches Err(e) && e.offset == prop::byte_offset(value@, pos) as usize
                    && e.inner == ctx,
            },
    {
        let state = ParseState { allow_unclosed_variable: false };
        match state.parse(value) {
            Ok(p) => Ok(p),
            Err(e) => Err(ParseErrorExt::new((), e.offset, e.inner)),
        }
    }
}

impl std::str::FromStr for Property {
    type Err = ParseErrorExt<()>;

    fn from_str(s: &str) -> (r: Result<Self, Self::Err>)
        ensures
            match parse_property(s@, false) {
                Ok(p) => r matches Ok(q) && q@ == p,
                Err((pos, ctx)) => r matches Err(e) && e.offset == prop::byte_offset(s@, pos) as usize
                    && e.inner == ctx,
            },
    {
        Property::parse_str(s)
    }
}

impl Property {
    /// Parses `value` with unclosed variables refused; a failure keeps `value` as its input.
    pub fn try_from<'s>(value: &'s str) -> (r: Result<Property, ParseErrorExt<&'s str>>)
        ensures
            match parse_property(value@, false) {
                Ok(p) => r matches Ok(q) && q@ == p,
                Err((pos, ctx)) => r matches Err(e) && e.input == value && e.offset == prop::byte_offset(
                    value@,
                    pos,
                ) as usize && e.inner == ctx,
            },
    {
        let state = ParseState { allow_unclosed_variable: false };
        state.parse(value)
    }

    /// Parses an owned `value` with unclosed variables refused; a failure keeps `value`.
    pub fn try_from_string(value: String) -> (r: Result<Property, ParseErrorExt<String>>)
        ensures
            match parse_property(value@, false) {
                Ok(p) => r matches Ok(q) && q@ == p,
                Err((pos, ctx)) => r matches Err(e) && e.input == value && e.offset == prop::byte_offset(
                    value@,
                    pos,
                ) as usize && e.inner == ctx,
            },
    {
        let state = ParseState { allow_unclosed_variable: false };
        match state.parse(value.as_str()) {
            Ok(p) => Ok(p),
            Err(e) => {
                let offset = e.offset;
                let inner = e.inner;
                Err(ParseErrorExt::new(value, offset, inner))
            },
        }
    }
}

/// A copy of `p`, part by part.
pub fn clone_property(p: &Property) -> (r: Property)
    ensures
        r@ == p@,
    decreases p,
{
    match p {
        Property::Variable(name) => Property::Variable(name.clone()),
        Property::UnclosedVariable(text) => Property::UnclosedVariable(text.clone()),
        Property::Literal(text) => Property::Literal(text.clone()),
        Property::Expression(parts) => {
            let mut copy: Vec<Property> = Vec::new();
            let mut i: usize = 0;
            while i < parts.len()
                invariant
                    *p == Property::Expression(*parts),
                    i <= parts.len(),
                    copy.len() == i,
                    forall|j: int| 0 <= j < i ==> property_view(#[trigger] copy[j]) == property_view(parts[j]),
                decreases parts.len() - i,
            {
                proof {
                    vstd::std_specs::vec::axiom_vec_index_decreases(*parts, i as int);
                    assert(decreases_to!(*p => p->Expression_0));
                }
                let part = clone_property(&parts[i]);
                copy.push(part);
                i = i + 1;
            }
            proof {
                lemma_property_views_same(copy, *parts, i as int);
            }
            Property::Expression(copy)
        },
    }
}

proof fn lemma_property_views_same(a: Vec<Property>, b: Vec<Property>, k: int)
    requires
        0 <= k <= a.len(),
        a.len() == b.len(),
        forall|j: int| 0 <= j < k ==> property_view(#[trigger] a[j]) == property_view(b[j]),
    ensures
        property_views(a, k) == property_views(b, k),
    decreases k,
{
    if k > 0 {
        lemma_property_views_same(a, b, k - 1);
    }
}

impl Clone for Property {
    fn clone(&self) -> (r: Self)
        ensures
            r@ == self@,
    {
        clone_property(self)
    }
}

impl Property {
    pub fn is_variable(&self) -> (r: bool)
        ensures
            r == (self@ is Variable),
    {
        matches!(self, Property::Variable(_))
    }

    /// A variable whose name starts with `maven.`.
    pub fn is_maven_variable(&self) -> (r: bool)
        ensures
            r == variable_named_with(self@, "maven."@),
    {
        match self {
            Property::Variable(name) => str_starts_with(name.as_str(), "maven."),
            _ => false,
        }
    }

    /// A variable whose name starts with `project.`.
    pub fn is_project_variable(&self) -> (r: bool)
        ensures
            r == variable_named_with(self@, "project."@),
    {
        match self {
            Property::Variable(name) => str_starts_with(name.as_str(), "project."),
            _ => false,
        }
    }

    /// The text this property stands for.
    pub fn to_string(&self) -> (r: String)
        ensures
            r@ == render(self@),
        decreases self,
    {
        match self {
            Property::Variable(name) => {
                assert(self@ == PropertyView::Variable(name@));
                let mut s = String::from_str("${");
                s.append(name.as_str());
                s.append("}");
                proof {
                    reveal_strlit("${");
                    reveal_strlit("}");
                }
                assert(s@ =~= render(self@));
                s
            },
            Property::UnclosedVariable(text) => {
                let mut s = String::from_str("${");
                s.append(text.as_str());
                proof {
                    reveal_strlit("${");
                }
                assert(s@ =~= render(self@));
                s
            },
            Property::Literal(text) => text.clone(),
            Property::Expression(parts) => {
                let mut s = String::new();
                let mut i: usize = 0;
                while i < parts.len()
                    invariant
                        *self == Property::Expression(*parts),
                        i <= parts.len(),
                        self@ == PropertyView::Expression(property_views(*parts, parts.len() as int)),
                        s@ == render_parts(property_views(*parts, parts.len() as int), i as int),
                    decreases parts.len() - i,
                {
                    proof {
                        lemma_property_views_index(*parts, parts.len() as int, i as int);
                    }
                    proof {
                        vstd::std_specs::vec::axiom_vec_index_decreases(*parts, i as int);
                        assert(decreases_to!(*self => self->Expression_0));
                    }
                    let part = parts[i].to_string();
                    s.append(part.as_str());
                    i = i + 1;
                }
                proof {
                    lemma_property_views_len(*parts, parts.len() as int);
                }
                s
            },
        }
    }
}

pub proof fn lemma_property_views_index(parts: Vec<Property>, k: int, i: int)
    requires
        0 <= i < k <= parts.len(),
    ensures
        property_views(parts, k).len() == k,
        property_views(parts, k)[i] == property_view(parts[i]),
    decreases k,
{
    if i < k - 1 {
        lemma_property_views_index(parts, k - 1, i);
    } else {
        lemma_property_views_len(parts, k - 1);
    }
}

pub proof fn lemma_property_views_len(parts: Vec<Property>, k: int)
    requires
        0 <= k <= parts.len(),
    ensures
        property_views(parts, k).len() == k,
    decreases k,
{
    if k > 0 {
        lemma_property_views_len(parts, k - 1);
    }
}

} // verus!
