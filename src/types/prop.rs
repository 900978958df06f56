//! The grammar of property expressions:
//! `expr := part*`, `part := variable | unclosed_variable | literal`,
//! `variable := "${" name "}"`, `unclosed_variable := "${" text`, `literal := text`,
//! where `text` runs up to the next `$` or the end of the input.
use vstd::prelude::*;
use vstd::utf8::encode_utf8;

use super::{Property, PropertyView, render, render_parts, property_views, lemma_property_views_index, lemma_property_views_len};
use crate::utils::parse::{ParseContext, ParseErrorExt};

verus! {

broadcast use vstd::std_specs::vec::group_vec_axioms, vstd::seq::group_seq_axioms;

/// What `char::is_alphanumeric` answers for a character (Unicode alphabetic or numeric).
pub uninterp spec fn alphanumeric(c: char) -> bool;

/// Relies on `char::is_alphanumeric`, which decides whether `c` is alphabetic or numeric:
/// ASCII letters and digits are, and the punctuation of the grammar is not.
#[verifier::external_body]
fn is_alphanumeric(c: char) -> (r: bool)
    ensures
        r == alphanumeric(c),
        ('a' <= c <= 'z' || 'A' <= c <= 'Z' || '0' <= c <= '9') ==> r,
        (c == '$' || c == '{' || c == '}' || c == '/' || c == ':' || c == ' ') ==> !r,
{
    c.is_alphanumeric()
}

/// The characters a variable name is made of.
pub open spec fn is_name_char(c: char) -> bool {
    c == ' ' || c == '\t' || alphanumeric(c) || c == '.' || c == '-'
}

/// The end of the run of name characters that starts at `i`.
pub open spec fn name_end(s: Seq<char>, i: int) -> int
    decreases s.len() - i,
{
    if 0 <= i < s.len() && is_name_char(s[i]) {
        name_end(s, i + 1)
    } else {
        i
    }
}

/// The first `$` at or after `i`, or the end of `s`.
pub open spec fn next_dollar(s: Seq<char>, i: int) -> int
    decreases s.len() - i,
{
    if 0 <= i < s.len() && s[i] != '$' {
        next_dollar(s, i + 1)
    } else {
        i
    }
}

pub open spec fn opens_variable(s: Seq<char>, i: int) -> bool {
    0 <= i && i + 1 < s.len() && s[i] == '$' && s[i + 1] == '{'
}

pub open spec fn prepend(
    p: PropertyView,
    rest: Result<Seq<PropertyView>, (int, ParseContext)>,
) -> Result<Seq<PropertyView>, (int, ParseContext)> {
    match rest {
        Ok(parts) => Ok(seq![p] + parts),
        Err(e) => Err(e),
    }
}

/// The parts of `s` from character `i` on, or the character position and context of the failure.
pub open spec fn parse_parts(s: Seq<char>, i: int, allow_unclosed: bool) -> Result<
    Seq<PropertyView>,
    (int, ParseContext),
>
    decreases s.len() - i,
    via parse_parts_decreases
{
    if i < 0 || i >= s.len() {
        Ok(Seq::empty())
    } else if opens_variable(s, i) {
        let e = name_end(s, i + 2);
        if e < s.len() && s[e] == '}' {
            prepend(
                PropertyView::Variable(s.subrange(i + 2, e)),
                parse_parts(s, e + 1, allow_unclosed),
            )
        } else if allow_unclosed {
            let k = next_dollar(s, i + 2);
            prepend(
                PropertyView::UnclosedVariable(s.subrange(i + 2, k)),
                parse_parts(s, k, allow_unclosed),
            )
        } else {
            Err((e, ParseContext::VariableSuffix))
        }
    } else {
        let k = next_dollar(s, i);
        if k == i {
            Err((i, ParseContext::Part))
        } else {
            prepend(PropertyView::Literal(s.subrange(i, k)), parse_parts(s, k, allow_unclosed))
        }
    }
}

pub proof fn lemma_name_end_bounds(s: Seq<char>, i: int)
    requires
        0 <= i <= s.len(),
    ensures
        i <= name_end(s, i) <= s.len(),
        name_end(s, i) < s.len() ==> !is_name_char(s[name_end(s, i)]),
    decreases s.len() - i,
{
    if i < s.len() && is_name_char(s[i]) {
        lemma_name_end_bounds(s, i + 1);
    }
}

pub proof fn lemma_next_dollar_bounds(s: Seq<char>, i: int)
    requires
        0 <= i <= s.len(),
    ensures
        i <= next_dollar(s, i) <= s.len(),
        next_dollar(s, i) < s.len() ==> s[next_dollar(s, i)] == '$',
        forall|j: int| i <= j < next_dollar(s, i) ==> s[j] != '$',
    decreases s.len() - i,
{
    if i < s.len() && s[i] != '$' {
        lemma_next_dollar_bounds(s, i + 1);
    }
}

#[via_fn]
proof fn parse_parts_decreases(s: Seq<char>, i: int, allow_unclosed: bool) {
    if 0 <= i < s.len() {
        if opens_variable(s, i) {
            lemma_name_end_bounds(s, i + 2);
            lemma_next_dollar_bounds(s, i + 2);
        } else {
            lemma_next_dollar_bounds(s, i);
        }
    }
}

/// One part stands alone; any other number of parts makes an expression.
pub open spec fn collapse(parts: Seq<PropertyView>) -> PropertyView {
    if parts.len() == 1 {
        parts[0]
    } else {
        PropertyView::Expression(parts)
    }
}

/// What parsing `s` gives: the property, or the character position and context of the failure.
pub open spec fn parse_property(s: Seq<char>, allow_unclosed: bool) -> Result<
    PropertyView,
    (int, ParseContext),
> {
    match parse_parts(s, 0, allow_unclosed) {
        Ok(parts) => Ok(collapse(parts)),
        Err(e) => Err(e),
    }
}

/// The byte offset of character position `pos` in `s`.
pub open spec fn byte_offset(s: Seq<char>, pos: int) -> nat {
    encode_utf8(s.subrange(0, pos)).len()
}

pub proof fn lemma_encode_utf8_concat(a: Seq<char>, b: Seq<char>)
    ensures
        encode_utf8(a + b) == encode_utf8(a) + encode_utf8(b),
    decreases a.len(),
{
    if a.len() > 0 {
        assert((a + b)[0] == a[0]);
        assert((a + b).drop_first() =~= a.drop_first() + b);
        lemma_encode_utf8_concat(a.drop_first(), b);
        assert(encode_utf8(a + b) =~= encode_utf8(a) + encode_utf8(b));
    } else {
        assert(a + b =~= b);
        assert(encode_utf8(a) =~= Seq::<u8>::empty());
        assert(encode_utf8(a) + encode_utf8(b) =~= encode_utf8(b));
    }
}

/// A failure is reported at a character position inside the input or at its end.
pub proof fn lemma_parse_failure_position(s: Seq<char>, i: int, allow_unclosed: bool)
    requires
        0 <= i <= s.len(),
        parse_parts(s, i, allow_unclosed) is Err,
    ensures
        0 <= parse_parts(s, i, allow_unclosed)->Err_0.0 <= s.len(),
    decreases s.len() - i,
{
    if i < s.len() {
        if opens_variable(s, i) {
            lemma_name_end_bounds(s, i + 2);
            lemma_next_dollar_bounds(s, i + 2);
            let e = name_end(s, i + 2);
            if e < s.len() && s[e] == '}' {
                lemma_parse_failure_position(s, e + 1, allow_unclosed);
            } else if allow_unclosed {
                lemma_parse_failure_position(s, next_dollar(s, i + 2), allow_unclosed);
            }
        } else {
            lemma_next_dollar_bounds(s, i);
            let k = next_dollar(s, i);
            if k != i {
                lemma_parse_failure_position(s, k, allow_unclosed);
            }
        }
    }
}

/// The byte offset of a position in the input is at most the input's byte length.
pub proof fn lemma_byte_offset_bound(s: Seq<char>, pos: int)
    requires
        0 <= pos <= s.len(),
    ensures
        byte_offset(s, pos) <= encode_utf8(s).len(),
{
    lemma_encode_utf8_concat(s.subrange(0, pos), s.subrange(pos, s.len() as int));
    assert(s.subrange(0, pos) + s.subrange(pos, s.len() as int) =~= s);
}

/// Options of the property parser.
#[derive(Debug, Default)]
pub struct ParseState {
    /// Keep `${text` with no closing brace as an unclosed variable instead of failing.
    pub allow_unclosed_variable: bool,
}

fn name_end_exec(s: &str, n: usize, i: usize) -> (e: usize)
    requires
        n == s@.len(),
        i <= n,
    ensures
        e == name_end(s@, i as int),
        i <= e <= n,
{
    let mut j = i;
    while j < n && (s.get_char(j) == ' ' || s.get_char(j) == '\t' || is_alphanumeric(s.get_char(j))
        || s.get_char(j) == '.' || s.get_char(j) == '-')
        invariant
            n == s@.len(),
            i <= j <= n,
            name_end(s@, i as int) == name_end(s@, j as int),
        decreases n - j,
    {
        j = j + 1;
    }
    j
}

fn next_dollar_exec(s: &str, n: usize, i: usize) -> (k: usize)
    requires
        n == s@.len(),
        i <= n,
    ensures
        k == next_dollar(s@, i as int),
        i <= k <= n,
{
    let mut j = i;
    while j < n && s.get_char(j) != '$'
        invariant
            n == s@.len(),
            i <= j <= n,
            next_dollar(s@, i as int) == next_dollar(s@, j as int),
        decreases n - j,
    {
        j = j + 1;
    }
    j
}

fn substring(s: &str, from: usize, to: usize) -> (r: String)
    requires
        from <= to <= s@.len(),
    ensures
        r@ == s@.subrange(from as int, to as int),
{
    s.substring_char(from, to).to_string()
}

impl ParseState {
    /// Splits `value` into literal runs and variable references.
    pub fn parse<'i>(&self, value: &'i str) -> (r: Result<Property, ParseErrorExt<&'i str>>)
        ensures
            match parse_property(value@, self.allow_unclosed_variable) {
                Ok(p) => r matches Ok(q) && q@ == p,
                Err((pos, ctx)) => r matches Err(e) && e.input == value && e.offset == byte_offset(
                    value@,
                    pos,
                ) as usize && e.inner == ctx && byte_offset(value@, pos) <= encode_utf8(value@).len(),
            },
    {
        proof {
            if parse_parts(value@, 0, self.allow_unclosed_variable) is Err {
                lemma_parse_failure_position(value@, 0, self.allow_unclosed_variable);
                lemma_byte_offset_bound(value@, parse_parts(value@, 0, self.allow_unclosed_variable)->Err_0.0);
            }
        }
        let allow = self.allow_unclosed_variable;
        let n = value.unicode_len();
        let mut parts: Vec<Property> = Vec::new();
        let mut i: usize = 0;
        while i < n
            invariant
                n == value@.len(),
                i <= n,
                allow == self.allow_unclosed_variable,
                parse_parts(value@, 0, allow) is Err ==> byte_offset(value@, parse_parts(value@, 0, allow)->Err_0.0)
                    <= encode_utf8(value@).len(),
                property_views(parts, parts.len() as int).len() == parts.len(),
                parse_parts(value@, 0, allow) == glue(
                    property_views(parts, parts.len() as int),
                    parse_parts(value@, i as int, allow),
                ),
            decreases n - i,
        {
            let ghost before = property_views(parts, parts.len() as int);
            let ghost old_parts = parts;
            proof {
                lemma_next_dollar_bounds(value@, i as int);
                if i + 2 <= n {
                    lemma_name_end_bounds(value@, i + 2);
                    lemma_next_dollar_bounds(value@, i + 2);
                }
            }
            let opens = i + 1 < n && value.get_char(i) == '$' && value.get_char(i + 1) == '{';
            let next: usize;
            if opens {
                let e = name_end_exec(value, n, i + 2);
                if e < n && value.get_char(e) == '}' {
                    parts.push(Property::Variable(substring(value, i + 2, e)));
                    next = e + 1;
                } else if allow {
                    let k = next_dollar_exec(value, n, i + 2);
                    parts.push(Property::UnclosedVariable(substring(value, i + 2, k)));
                    next = k;
                } else {
                    let offset = value.substring_char(0, e).len();
                    return Err(ParseErrorExt::new(value, offset, ParseContext::VariableSuffix));
                }
            } else {
                let k = next_dollar_exec(value, n, i);
                if k == i {
                    let offset = value.substring_char(0, i).len();
                    return Err(ParseErrorExt::new(value, offset, ParseContext::Part));
                }
                parts.push(Property::Literal(substring(value, i, k)));
                next = k;
            }
            proof {
                lemma_views_push(parts, parts.len() as int);
                lemma_views_prefix(parts, old_parts, old_parts.len() as int);
                assert(before.push(property_views(parts, parts.len() as int).last())
                    =~= property_views(parts, parts.len() as int));
                lemma_glue_push(before, property_views(parts, parts.len() as int).last(),
                    parse_parts(value@, next as int, allow));
            }
            i = next;
        }
        let ghost all = property_views(parts, parts.len() as int);
        assert(parse_parts(value@, 0, allow) == Ok::<Seq<PropertyView>, (int, ParseContext)>(all)) by {
            assert(all + Seq::<PropertyView>::empty() =~= all);
        }
        if parts.len() == 1 {
            proof {
                lemma_property_views_index(parts, 1, 0);
            }
            Ok(parts.remove(0))
        } else {
            Ok(Property::Expression(parts))
        }
    }
}

/// Rendering what a successful parse gives reproduces the input exactly,
/// whether or not unclosed variables are allowed.
pub proof fn lemma_render_parse_round_trip(s: Seq<char>, allow_unclosed: bool)
    requires
        parse_property(s, allow_unclosed) is Ok,
    ensures
        render(parse_property(s, allow_unclosed)->Ok_0) == s,
{
    let parts = parse_parts(s, 0, allow_unclosed)->Ok_0;
    lemma_parts_render(s, 0, allow_unclosed);
    assert(s.subrange(0, s.len() as int) =~= s);
    if parts.len() == 1 {
        assert(render_parts(parts, 1) == render_parts(parts, 0) + render(parts[0]));
        assert(render_parts(parts, 0) + render(parts[0]) =~= render(parts[0]));
    }
}

proof fn lemma_parts_render(s: Seq<char>, i: int, allow_unclosed: bool)
    requires
        0 <= i <= s.len(),
        parse_parts(s, i, allow_unclosed) is Ok,
    ensures
        render_parts(
            parse_parts(s, i, allow_unclosed)->Ok_0,
            parse_parts(s, i, allow_unclosed)->Ok_0.len() as int,
        ) == s.subrange(i, s.len() as int),
    decreases s.len() - i,
{
    if i < s.len() {
        let next: int;
        let p: PropertyView;
        if opens_variable(s, i) {
            lemma_name_end_bounds(s, i + 2);
            lemma_next_dollar_bounds(s, i + 2);
            let e = name_end(s, i + 2);
            if e < s.len() && s[e] == '}' {
                next = e + 1;
                p = PropertyView::Variable(s.subrange(i + 2, e));
                assert(render(p) =~= s.subrange(i, next));
            } else {
                next = next_dollar(s, i + 2);
                p = PropertyView::UnclosedVariable(s.subrange(i + 2, next));
                assert(render(p) =~= s.subrange(i, next));
            }
        } else {
            lemma_next_dollar_bounds(s, i);
            next = next_dollar(s, i);
            p = PropertyView::Literal(s.subrange(i, next));
            assert(render(p) =~= s.subrange(i, next));
        }
        let rest = parse_parts(s, next, allow_unclosed)->Ok_0;
        assert(parse_parts(s, i, allow_unclosed)->Ok_0 == seq![p] + rest);
        lemma_parts_render(s, next, allow_unclosed);
        lemma_render_parts_prepend(p, rest, rest.len() as int);
        assert(s.subrange(i, next) + s.subrange(next, s.len() as int) =~= s.subrange(i, s.len() as int));
    }
}

proof fn lemma_render_parts_prepend(p: PropertyView, rest: Seq<PropertyView>, k: int)
    requires
        0 <= k <= rest.len(),
    ensures
        render_parts(seq![p] + rest, k + 1) == render(p) + render_parts(rest, k),
    decreases k,
{
    let all = seq![p] + rest;
    if k == 0 {
        assert(render_parts(all, 0) + render(all[0]) =~= render(p) + render_parts(rest, 0));
    } else {
        lemma_render_parts_prepend(p, rest, k - 1);
        assert(all[k] == rest[k - 1]);
        assert(render(p) + render_parts(rest, k - 1) + render(rest[k - 1])
            =~= render(p) + (render_parts(rest, k - 1) + render(rest[k - 1])));
    }
}

pub open spec fn glue(
    prefix: Seq<PropertyView>,
    rest: Result<Seq<PropertyView>, (int, ParseContext)>,
) -> Result<Seq<PropertyView>, (int, ParseContext)> {
    match rest {
        Ok(parts) => Ok(prefix + parts),
        Err(e) => Err(e),
    }
}

proof fn lemma_glue_push(
    prefix: Seq<PropertyView>,
    p: PropertyView,
    rest: Result<Seq<PropertyView>, (int, ParseContext)>,
)
    ensures
        glue(prefix, prepend(p, rest)) == glue(prefix.push(p), rest),
{
    if let Ok(parts) = rest {
        assert(prefix + (seq![p] + parts) =~= prefix.push(p) + parts);
    }
}

proof fn lemma_views_push(parts: Vec<Property>, k: int)
    requires
        0 < k <= parts.len(),
    ensures
        property_views(parts, k).len() == k,
        property_views(parts, k).last() == super::property_view(parts[k - 1]),
{
    lemma_property_views_len(parts, k);
}

proof fn lemma_views_prefix(a: Vec<Property>, b: Vec<Property>, k: int)
    requires
        0 <= k <= a.len(),
        k <= b.len(),
        forall|j: int| 0 <= j < k ==> a[j] == b[j],
    ensures
        property_views(a, k) == property_views(b, k),
    decreases k,
{
    if k > 0 {
        lemma_views_prefix(a, b, k - 1);
    }
}

} // verus!
