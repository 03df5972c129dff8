use vstd::prelude::*;

verus! {

/// A source location with line, column, and length.
///
/// All values are 1-based. A `Span` with `line == 0` is a "dummy" span that
/// carries no position information.
#[derive(Debug, Clone, Copy, PartialEq, Eq, Structural)]
pub struct Span {
    /// 1-based line number (0 means "no position information").
    pub line: u32,
    /// 1-based column number.
    pub col: u32,
    /// Character count of the token or construct.
    pub len: u32,
}

impl Span {
    /// Construct a span with explicit line, col, and length.
    pub fn new(line: u32, col: u32, len: u32) -> (s: Self)
        ensures
            s == (Span { line, col, len }),
    {
        Span { line, col, len }
    }

    /// The sentinel span that carries no position information: all fields zero.
    pub open spec fn spec_dummy() -> Span {
        Span { line: 0, col: 0, len: 0 }
    }

    /// A sentinel span that carries no position information.
    pub fn dummy() -> (s: Self)
        ensures
            s == Span::spec_dummy(),
    {
        Span { line: 0, col: 0, len: 0 }
    }

    /// Returns `true` when this span has no meaningful position data.
    pub fn is_dummy(&self) -> (b: bool)
        ensures
            b == (self.line == 0),
    {
        self.line == 0
    }
}

} // verus!
