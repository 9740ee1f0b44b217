//! Source positions: absolute character index plus zero-based line and
//! column coordinates, and inclusive ranges of such positions.

use vstd::prelude::*;

verus! {

/// A position in the input: `index` counts the characters consumed since
/// the start of the input, `line` and `column` are zero-based cursor
/// coordinates.  Consuming a newline increments `line` and resets `column`
/// to zero; consuming any other character increments `column`; `index`
/// increments unconditionally.
#[derive(Clone, Copy, Debug, PartialEq, Eq, Structural)]
pub struct LocationPoint {
    pub index: usize,
    pub line: usize,
    pub column: usize,
}

impl Default for LocationPoint {
    fn default() -> (r: Self)
        ensures
            r == (LocationPoint { index: 0, line: 0, column: 0 }),
    {
        LocationPoint { index: 0, line: 0, column: 0 }
    }
}

/// An inclusive range of positions covering the first and last character
/// consumed to produce a token or to locate an error.
#[derive(Clone, Copy, Debug, PartialEq, Eq, Structural)]
pub struct LocationArea {
    pub start: LocationPoint,
    pub end: LocationPoint,
}

impl LocationArea {
    /// The degenerate area that covers the single position `p`.
    pub fn point(p: LocationPoint) -> (r: Self)
        ensures
            r == (LocationArea { start: p, end: p }),
    {
        LocationArea { start: p, end: p }
    }
}

/// The number of newline characters among the first `i` characters of `s`.
pub open spec fn line_of(s: Seq<char>, i: int) -> nat
    decreases i,
{
    if i <= 0 {
        0
    } else {
        line_of(s, i - 1) + (if s[i - 1] == '\n' {
            1nat
        } else {
            0nat
        })
    }
}

/// The column coordinate after consuming the first `i` characters of `s`:
/// the distance from the most recent newline.
pub open spec fn col_of(s: Seq<char>, i: int) -> nat
    decreases i,
{
    if i <= 0 {
        0
    } else if s[i - 1] == '\n' {
        0
    } else {
        col_of(s, i - 1) + 1
    }
}

/// The cursor position after consuming the first `i` characters of `s`;
/// equivalently, the position of the character `s[i]`.
pub open spec fn loc_at(s: Seq<char>, i: int) -> LocationPoint {
    LocationPoint { index: i as usize, line: line_of(s, i) as usize, column: col_of(s, i) as usize }
}

/// The inclusive area covering the characters `s[a]` through `s[b]`.
pub open spec fn span_of(s: Seq<char>, a: int, b: int) -> LocationArea {
    LocationArea { start: loc_at(s, a), end: loc_at(s, b) }
}

/// The degenerate area covering the single character `s[a]`.
pub open spec fn point_of(s: Seq<char>, a: int) -> LocationArea {
    span_of(s, a, a)
}

/// Line and column coordinates never exceed the character index.
pub proof fn lemma_coords_bounded(s: Seq<char>, i: int)
    requires
        0 <= i,
    ensures
        line_of(s, i) <= i,
        col_of(s, i) <= i,
    decreases i,
{
    if i > 0 {
        lemma_coords_bounded(s, i - 1);
    }
}

} // verus!
