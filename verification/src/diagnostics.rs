//! Diagnostics the library computes for PHP files, and the conversion of
//! character offsets into editor positions they need.

pub mod unknown_members;

use vstd::prelude::*;

use crate::lsp::{Position, Range};

verus! {

/// Number of newlines in `s`.
pub open spec fn count_nl(s: Seq<char>) -> nat
    decreases s.len(),
{
    if s.len() == 0 {
        0
    } else {
        count_nl(s.drop_last()) + if s.last() == '\n' {
            1nat
        } else {
            0nat
        }
    }
}

/// Offset in `s` where its last line starts (just after the last
/// newline, or zero).
pub open spec fn last_line_start(s: Seq<char>) -> nat
    decreases s.len(),
{
    if s.len() == 0 {
        0
    } else if s.last() == '\n' {
        s.len()
    } else {
        last_line_start(s.drop_last())
    }
}

/// The position of character offset `off` in `s`: its line number and
/// its column within that line; `None` past the end of `s`.
pub open spec fn spec_offset_position(s: Seq<char>, off: int) -> Option<Position> {
    if off < 0 || off > s.len() {
        None
    } else {
        let p = s.take(off);
        Some(
            Position {
                line: count_nl(p) as u32,
                character: (off - last_line_start(p)) as u32,
            },
        )
    }
}

/// The range between two character offsets of `s`; `None` when either
/// lies past the end.
pub open spec fn spec_offset_range(s: Seq<char>, start: int, end: int) -> Option<Range> {
    match (spec_offset_position(s, start), spec_offset_position(s, end)) {
        (Some(a), Some(b)) => Some(Range { start: a, end: b }),
        _ => None,
    }
}

/// The position of character offset `off` in `content`.
pub fn offset_to_position(content: &Vec<char>, off: usize) -> (r: Option<Position>)
    ensures
        r == spec_offset_position(content@, off as int),
{
    if off > content.len() {
        return None;
    }
    let mut i: usize = 0;
    let mut line: usize = 0;
    let mut start: usize = 0;
    assert(content@.take(0) =~= Seq::<char>::empty());
    while i < off
        invariant
            i <= off <= content@.len(),
            line == count_nl(content@.take(i as int)),
            start == last_line_start(content@.take(i as int)),
            line <= i,
            start <= i,
        decreases off - i,
    {
        assert(content@.take(i + 1).drop_last() =~= content@.take(i as int));
        if content[i] == '\n' {
            line = line + 1;
            start = i + 1;
        }
        i = i + 1;
    }
    Some(Position::new(line as u32, (off - start) as u32))
}

/// The editor range between two character offsets of `content`.
pub fn offset_range_to_lsp_range(content: &Vec<char>, start: usize, end: usize) -> (r: Option<
    Range,
>)
    ensures
        r == spec_offset_range(content@, start as int, end as int),
{
    match (offset_to_position(content, start), offset_to_position(content, end)) {
        (Some(a), Some(b)) => Some(Range { start: a, end: b }),
        _ => None,
    }
}

} // verus!
