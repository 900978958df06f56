use vstd::prelude::*;

verus! {

/// Where inside a property expression the parser gave up.
#[derive(Clone, Copy, Debug, PartialEq, Eq)]
pub enum ParseContext {
    /// A variable was opened with `${` and its name was not followed by `}`.
    VariableSuffix,
    /// A `$` that does not start a variable was met where a part should begin.
    Part,
}

/// A failed parse: the input, the byte offset at which parsing stopped and the context.
#[derive(Clone, Debug, PartialEq, Eq)]
pub struct ParseErrorExt<I> {
    /// The input at the point where parsing started.
    pub input: I,
    /// The byte offset in `input` where parsing stopped; it may equal the input's length.
    pub offset: usize,
    /// What the parser expected at `offset`.
    pub inner: ParseContext,
}

impl<I> ParseErrorExt<I> {
    pub fn new(input: I, offset: usize, inner: ParseContext) -> (r: Self)
        ensures
            r.input == input,
            r.offset == offset,
            r.inner == inner,
    {
        ParseErrorExt { input, offset, inner }
    }

    /// Replaces the input by what `op` makes of it; offset and context are kept.
    pub fn map<U, F: FnOnce(&I) -> U>(self, op: F) -> (r: ParseErrorExt<U>)
        requires
            op.requires((&self.input,)),
        ensures
            op.ensures((&self.input,), r.input),
            r.offset == self.offset,
            r.inner == self.inner,
    {
        let input = op(&self.input);
        ParseErrorExt::new(input, self.offset, self.inner)
    }
}

} // verus!
