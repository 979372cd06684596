//! Source positions and position-tagged payloads.
//!
//! Every token and every syntax-tree node carries the source range it was
//! read from, so that any later diagnostic can point at the exact text.

use vstd::prelude::*;

verus! {

/// A place in the source text: 1-based line and column.  The `end` flag is a
/// sentinel meaning "already at end of input"; diagnostics carrying it are
/// printed without a source excerpt.
#[derive(Debug, Clone, Copy, PartialEq, Eq, Structural)]
pub struct Position {
    pub line: usize,
    pub col: usize,
    pub end: bool,
}

impl Position {
    /// The position at the start of a text.
    pub fn new() -> (p: Position)
        ensures
            p == (Position { line: 1, col: 1, end: false }),
    {
        Position { line: 1, col: 1, end: false }
    }

    /// The "already at end of input" sentinel.
    pub fn end() -> (p: Position)
        ensures
            p == (Position { line: 1, col: 1, end: true }),
    {
        Position { line: 1, col: 1, end: true }
    }
}

/// Order on positions: lexicographic by `(line, col)`; the `end` flag does
/// not take part in the order.
pub open spec fn pos_le(a: Position, b: Position) -> bool {
    a.line < b.line || (a.line == b.line && a.col <= b.col)
}

/// The earlier of two positions; `a` on ties.
pub fn pos_min(a: Position, b: Position) -> (r: Position)
    ensures
        r == if pos_le(a, b) {
            a
        } else {
            b
        },
{
    if a.line < b.line || (a.line == b.line && a.col <= b.col) {
        a
    } else {
        b
    }
}

/// The later of two positions; `b` on ties.
pub fn pos_max(a: Position, b: Position) -> (r: Position)
    ensures
        r == if pos_le(a, b) {
            b
        } else {
            a
        },
{
    if a.line < b.line || (a.line == b.line && a.col <= b.col) {
        b
    } else {
        a
    }
}

/// A payload together with the source range it came from.
#[derive(Debug)]
pub struct Positioned<T> {
    pub inner: T,
    pub start: Position,
    pub end: Position,
}

/// The mathematical image of a `Positioned<T>`: the payload's own image with
/// the same source range.
pub ghost struct Spanned<V> {
    pub inner: V,
    pub start: Position,
    pub end: Position,
}

impl<T: View> View for Positioned<T> {
    type V = Spanned<T::V>;

    open spec fn view(&self) -> Spanned<T::V> {
        Spanned { inner: self.inner@, start: self.start, end: self.end }
    }
}

} // verus!
