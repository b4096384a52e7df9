use vstd::prelude::*;
use vstd::slice::slice_index_get;

verus! {

/// A raw byte-offset pair produced by parsing, before row/column resolution.
#[derive(Clone, Copy, Debug, PartialEq, Eq, Structural)]
pub struct Location {
    pub begin: usize,
    pub end: usize,
}

/// A resolved source position range, with 1-based rows and columns.
#[derive(Clone, Copy, Debug, PartialEq, Eq, Structural)]
pub struct Range {
    pub start_row: usize,
    pub start_col: usize,
    pub end_row: usize,
    pub end_col: usize,
}

/// A pair of byte-offset locations delimiting a region.
#[derive(Clone, Copy, Debug, PartialEq, Eq, Structural)]
pub struct LocationRange {
    pub start: Location,
    pub end: Location,
}

/// Number of newline bytes among the first `n` bytes of `text`.
pub open spec fn newline_count(text: Seq<u8>, n: int) -> int
    decreases n,
{
    if n <= 0 {
        0
    } else {
        newline_count(text, n - 1) + if text[n - 1] == 10u8 {
            1int
        } else {
            0int
        }
    }
}

/// Start offset of the line containing byte offset `off`: one past the last
/// newline strictly before `off`.
pub open spec fn line_start(text: Seq<u8>, off: int) -> int
    decreases off,
{
    if off <= 0 {
        0
    } else if text[off - 1] == 10u8 {
        off
    } else {
        line_start(text, off - 1)
    }
}

/// 1-based row of byte offset `off` in `text`.
pub open spec fn spec_row(text: Seq<u8>, off: int) -> int {
    1 + newline_count(text, off)
}

/// 1-based column of byte offset `off` in `text`, counted in bytes from the
/// start of its line.
pub open spec fn spec_col(text: Seq<u8>, off: int) -> int {
    off - line_start(text, off) + 1
}

proof fn lemma_line_start_bounds(text: Seq<u8>, off: int)
    requires
        0 <= off,
    ensures
        0 <= line_start(text, off) <= off,
    decreases off,
{
    if off > 0 && text[off - 1] != 10u8 {
        lemma_line_start_bounds(text, off - 1);
    }
}

/// Converts a byte offset into a 1-based (row, column) pair. Offsets are
/// byte-based, matching the units the parser emits; the offset one past the
/// end of `text` is a valid position.
pub fn line_col(text: &[u8], off: usize) -> (r: (usize, usize))
    requires
        off <= text@.len(),
        text@.len() < usize::MAX,
    ensures
        r.0 == spec_row(text@, off as int),
        r.1 == spec_col(text@, off as int),
{
    let mut row: usize = 1;
    let mut start: usize = 0;
    let mut i: usize = 0;
    while i < off
        invariant
            i <= off,
            off <= text@.len(),
            text@.len() < usize::MAX,
            row == spec_row(text@, i as int),
            row <= i + 1,
            start == line_start(text@, i as int),
            start <= i,
        decreases off - i,
    {
        if *slice_index_get(text, i) == 10u8 {
            row = row + 1;
            start = i + 1;
        }
        i = i + 1;
    }
    proof {
        lemma_line_start_bounds(text@, off as int);
    }
    (row, off - start + 1)
}

} // verus!
