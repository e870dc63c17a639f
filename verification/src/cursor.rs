//! The cursor model: deriving user-facing line/column coordinates from a
//! byte offset into the content.
//!
//! Lines are counted by newline bytes before the offset; columns count
//! characters (never bytes) from the start of the line, so multi-byte
//! characters advance the column by exactly one.
use vstd::prelude::*;
use vstd::utf8::valid_utf8;
use vstd::utf8::is_char_boundary;
use vstd::utf8::is_char_boundary_iff_not_is_continuation_byte;
use vstd::utf8::is_continuation_byte;
use crate::text::char_count;
use crate::text::column_of;
use crate::text::count_chars_in;
use crate::text::lemma_char_count_add;
use crate::text::lemma_char_count_pos;
use crate::text::lemma_line_start_le;
use crate::text::lemma_line_start_stable;
use crate::text::lemma_newline_count_add;
use crate::text::lemma_newline_count_zero;
use crate::text::line_of;
use crate::text::line_start_at;
use crate::text::newline_count;
use crate::text::NEWLINE;

verus! {

/// Computes the zero-based `(line, column)` coordinates of a byte offset.
/// The offset must lie on a character boundary; callers establish that
/// before asking for coordinates.
pub fn position_of(content: &Vec<u8>, offset: usize) -> (r: (usize, usize))
    requires
        valid_utf8(content@),
        offset <= content@.len(),
        is_char_boundary(content@, offset as int),
    ensures
        r.0 == line_of(content@, offset as int),
        r.1 == column_of(content@, offset as int),
{
    let mut line: usize = 0;
    let mut line_start: usize = 0;
    let mut j: usize = 0;
    while j < offset
        invariant
            j <= offset <= content@.len(),
            line == newline_count(content@.subrange(0, j as int)),
            line_start == line_start_at(content@, j as int),
            line <= j,
            line_start <= j,
        decreases offset - j,
    {
        let b = content[j];
        proof {
            let pre = content@.subrange(0, j as int);
            let ext = content@.subrange(0, j + 1);
            assert(ext.drop_last() =~= pre);
            assert(ext.last() == content@[j as int]);
        }
        if b == NEWLINE {
            line = line + 1;
            line_start = j + 1;
        }
        j = j + 1;
    }
    proof {
        assert(content@.take(offset as int) =~= content@.subrange(0, offset as int));
    }
    let column = count_chars_in(content, line_start, offset);
    (line, column)
}

/// Newline counts of prefixes grow with the prefix.
proof fn lemma_newline_prefix_mono(s: Seq<u8>, a: int, b: int)
    requires
        0 <= a <= b <= s.len(),
    ensures
        newline_count(s.take(a)) <= newline_count(s.take(b)),
{
    assert(s.take(b) =~= s.take(a) + s.subrange(a, b));
    lemma_newline_count_add(s.take(a), s.subrange(a, b));
}

/// All-continuation byte ranges encode no character of their own.
proof fn lemma_char_count_zero_all_cont(s: Seq<u8>)
    requires
        forall|i: int| 0 <= i < s.len() ==> is_continuation_byte(s[i]),
    ensures
        char_count(s) == 0,
    decreases s.len(),
{
    if s.len() > 0 {
        assert forall|i: int| 0 <= i < s.len() - 1 implies is_continuation_byte(
            s.drop_last()[i],
        ) by {
            assert(s.drop_last()[i] == s[i]);
        }
        lemma_char_count_zero_all_cont(s.drop_last());
    }
}

/// The position right after a one-byte character at a boundary is itself a
/// boundary.
proof fn lemma_boundary_after_ascii(s: Seq<u8>, p: int)
    requires
        valid_utf8(s),
        0 <= p < s.len(),
        is_char_boundary(s, p),
        s[p] < 0x80,
    ensures
        is_char_boundary(s, p + 1),
{
    let suffix = s.subrange(p, s.len() as int);
    vstd::utf8::valid_utf8_split(s, p);
    assert(suffix[0] == s[p]);
    assert(vstd::utf8::length_of_first_scalar(suffix) == 1);
    assert(is_char_boundary(suffix, 1)) by {
        reveal_with_fuel(vstd::utf8::is_char_boundary, 2);
        assert(valid_utf8(vstd::utf8::pop_first_scalar(suffix)));
    }
    crate::text::lemma_boundary_in_suffix(s, p, 1);
}

/// First position at or after `start` that is not inside a multi-byte
/// character: the end of the content, or the next non-continuation byte.
fn skip_continuation_bytes(content: &Vec<u8>, start: usize) -> (r: usize)
    requires
        start <= content@.len(),
    ensures
        start <= r <= content@.len(),
        forall|t: int| start <= t < r ==> is_continuation_byte(content@[t]),
        r < content@.len() ==> !is_continuation_byte(content@[r as int]),
{
    let n = content.len();
    let mut o: usize = start;
    while o < n
        invariant
            start <= o <= n,
            n == content@.len(),
            forall|t: int| start <= t < o ==> is_continuation_byte(content@[t]),
        decreases n - o,
    {
        let cb = content[o];
        if !(0x80 <= cb && cb <= 0xbf) {
            return o;
        }
        o = o + 1;
    }
    o
}

/// Character counts of ranges sharing a start grow with the range.
proof fn lemma_char_range_mono(s: Seq<u8>, start: int, a: int, b: int)
    requires
        0 <= start <= a <= b <= s.len(),
    ensures
        char_count(s.subrange(start, a)) <= char_count(s.subrange(start, b)),
{
    assert(s.subrange(start, b) =~= s.subrange(start, a) + s.subrange(a, b));
    lemma_char_count_add(s.subrange(start, a), s.subrange(a, b));
}

/// The line/column pair computed from a character-boundary offset singles
/// that offset out: no two distinct boundary offsets share both their line
/// and their column, so walking the content line by line and then column
/// by column recovers exactly the offset the pair came from.
pub proof fn lemma_position_identifies_offset(s: Seq<u8>, o1: int, o2: int)
    requires
        valid_utf8(s),
        0 <= o1 <= s.len(),
        0 <= o2 <= s.len(),
        is_char_boundary(s, o1),
        is_char_boundary(s, o2),
        line_of(s, o1) == line_of(s, o2),
        column_of(s, o1) == column_of(s, o2),
    ensures
        o1 == o2,
    decreases o1,
{
    if o2 < o1 {
        lemma_position_identifies_offset(s, o2, o1);
    } else if o1 < o2 {
        let mid = s.subrange(o1, o2);
        assert(s.take(o2) =~= s.take(o1) + mid);
        lemma_newline_count_add(s.take(o1), mid);
        assert(newline_count(mid) == 0);
        lemma_newline_count_zero(mid);
        assert forall|jj: int| o1 <= jj < o2 implies s[jj] != NEWLINE by {
            assert(mid[jj - o1] == s[jj]);
        }
        lemma_line_start_stable(s, o1, o2);
        lemma_line_start_le(s, o1);
        let ls = line_start_at(s, o1);
        assert(s.subrange(ls, o2) =~= s.subrange(ls, o1) + mid);
        lemma_char_count_add(s.subrange(ls, o1), mid);
        is_char_boundary_iff_not_is_continuation_byte(s, o1);
        assert(mid[0] == s[o1]);
        lemma_char_count_pos(mid);
        assert(column_of(s, o2) >= column_of(s, o1) + 1);
    }
}

/// Walks the content to the byte offset of a line/column pair: past `line`
/// newlines, then `column` characters along that line. For coordinates
/// that were computed from a character-boundary offset this recovers that
/// offset exactly; coordinates past the last line, or past the end of
/// their line, name no offset and yield nothing.
pub fn offset_of_position(content: &Vec<u8>, line: usize, column: usize) -> (r: Option<usize>)
    requires
        valid_utf8(content@),
    ensures
        r matches Some(found) ==> found <= content@.len() && is_char_boundary(
            content@,
            found as int,
        ) && line_of(content@, found as int) == line && column_of(content@, found as int)
            == column,
        forall|o: int|
            0 <= o <= content@.len() && is_char_boundary(content@, o) && line_of(content@, o)
                == line && column_of(content@, o) == column ==> r == Some(o as usize),
{
    let ghost s = content@;
    let n = content.len();
    let mut line_start: usize = 0;
    let mut l: usize = 0;
    let mut j: usize = 0;
    while j < n && l < line
        invariant
            j <= n,
            n == s.len(),
            s == content@,
            l == newline_count(s.take(j as int)),
            line_start == line_start_at(s, j as int),
            l <= line,
            line_start <= j,
            l == line ==> line_start == j,
        decreases n - j,
    {
        let b = content[j];
        proof {
            let pre = s.take(j as int);
            let ext = s.take(j + 1);
            assert(ext.drop_last() =~= pre);
            assert(ext.last() == s[j as int]);
        }
        if b == NEWLINE {
            l = l + 1;
            line_start = j + 1;
        }
        j = j + 1;
    }
    if l < line {
        proof {
            assert(s.take(n as int) =~= s);
            assert forall|o: int|
                0 <= o <= s.len() && is_char_boundary(s, o) && line_of(s, o) == line && column_of(
                    s,
                    o,
                ) == column implies false by {
                lemma_newline_prefix_mono(s, o, n as int);
            }
        }
        return None;
    }
    let ghost ls = line_start as int;
    proof {
        assert(newline_count(s.take(ls)) == line);
        assert(line_start_at(s, ls) == ls);
        if line_start > 0 {
            lemma_line_start_le(s, ls - 1);
            assert(s[ls - 1] == NEWLINE);
            is_char_boundary_iff_not_is_continuation_byte(s, ls - 1);
            lemma_boundary_after_ascii(s, ls - 1);
        } else {
            vstd::utf8::is_char_boundary_start_end_of_seq(s);
        }
    }
    let mut o: usize = line_start;
    let mut c: usize = 0;
    while c < column
        invariant
            line_start <= o <= n,
            n == s.len(),
            s == content@,
            valid_utf8(s),
            ls == line_start as int,
            is_char_boundary(s, o as int),
            c == char_count(s.subrange(ls, o as int)),
            c <= column,
            newline_count(s.take(ls)) == line,
            line_start_at(s, ls) == ls,
            line_start > 0 ==> s[ls - 1] == NEWLINE,
            forall|t: int| ls <= t < o ==> s[t] != NEWLINE,
        decreases column - c,
    {
        if o >= n {
            proof {
                lemma_no_offset_with_column(s, ls, n as int, line, column, c as int);
            }
            return None;
        }
        let b = content[o];
        proof {
            is_char_boundary_iff_not_is_continuation_byte(s, o as int);
        }
        if b == NEWLINE {
            proof {
                lemma_no_offset_with_column(s, ls, o as int, line, column, c as int);
            }
            return None;
        }
        proof {
            let pre = s.subrange(ls, o as int);
            let ext = s.subrange(ls, o + 1);
            assert(ext.drop_last() =~= pre);
            assert(ext.last() == s[o as int]);
        }
        let ghost char_body = o + 1;
        let next = skip_continuation_bytes(content, o + 1);
        proof {
            assert(s.subrange(ls, next as int) =~= s.subrange(ls, char_body) + s.subrange(
                char_body,
                next as int,
            ));
            lemma_char_count_add(s.subrange(ls, char_body), s.subrange(char_body, next as int));
            assert forall|t: int| 0 <= t < next - char_body implies is_continuation_byte(
                s.subrange(char_body, next as int)[t],
            ) by {
                assert(s.subrange(char_body, next as int)[t] == s[char_body + t]);
            }
            lemma_char_count_zero_all_cont(s.subrange(char_body, next as int));
            assert forall|t: int| ls <= t < next implies s[t] != NEWLINE by {
                if char_body <= t {
                    assert(is_continuation_byte(s[t]));
                }
            }
            if next < n {
                is_char_boundary_iff_not_is_continuation_byte(s, next as int);
            } else {
                vstd::utf8::is_char_boundary_start_end_of_seq(s);
            }
        }
        o = next;
        c = c + 1;
    }
    proof {
        assert(s.take(o as int) =~= s.take(ls) + s.subrange(ls, o as int));
        lemma_newline_count_add(s.take(ls), s.subrange(ls, o as int));
        lemma_newline_count_zero(s.subrange(ls, o as int));
        assert forall|t: int| 0 <= t < o - ls implies s.subrange(ls, o as int)[t] != NEWLINE by {
            assert(s.subrange(ls, o as int)[t] == s[ls + t]);
        }
        assert(line_of(s, o as int) == line);
        lemma_line_start_stable(s, ls, o as int);
        assert(column_of(s, o as int) == column);
        assert forall|q: int|
            0 <= q <= s.len() && is_char_boundary(s, q) && line_of(s, q) == line && column_of(
                s,
                q,
            ) == column implies q == o as int by {
            lemma_position_identifies_offset(s, q, o as int);
        }
    }
    Some(o)
}

/// When the line starting at `ls` ends at `stop` (the end of the content
/// or a newline) after only `have` characters, no character-boundary
/// offset carries the coordinates `(line, column)` for any larger column.
proof fn lemma_no_offset_with_column(
    s: Seq<u8>,
    ls: int,
    stop: int,
    line: usize,
    column: usize,
    have: int,
)
    requires
        valid_utf8(s),
        0 <= ls <= stop <= s.len(),
        newline_count(s.take(ls)) == line,
        line_start_at(s, ls) == ls,
        ls > 0 ==> s[ls - 1] == NEWLINE,
        forall|t: int| ls <= t < stop ==> s[t] != NEWLINE,
        stop < s.len() ==> s[stop] == NEWLINE,
        have == char_count(s.subrange(ls, stop)),
        have < column,
    ensures
        forall|o: int|
            0 <= o <= s.len() && is_char_boundary(s, o) && line_of(s, o) == line && column_of(
                s,
                o,
            ) == column ==> false,
{
    assert forall|o: int|
        0 <= o <= s.len() && is_char_boundary(s, o) && line_of(s, o) == line && column_of(s, o)
            == column implies false by {
        if o < ls {
            assert(ls > 0);
            lemma_newline_prefix_mono(s, o, ls - 1);
            assert(s.take(ls).drop_last() =~= s.take(ls - 1));
            assert(s.take(ls).last() == s[ls - 1]);
            assert(newline_count(s.take(ls - 1)) == line - 1);
        } else if o <= stop {
            lemma_line_start_stable(s, ls, o);
            lemma_char_range_mono(s, ls, o, stop);
        } else {
            assert(s.take(o) =~= s.take(stop + 1) + s.subrange(stop + 1, o));
            lemma_newline_count_add(s.take(stop + 1), s.subrange(stop + 1, o));
            assert(s.take(stop + 1).drop_last() =~= s.take(stop));
            assert(s.take(stop + 1).last() == s[stop]);
            assert(s.take(stop) =~= s.take(ls) + s.subrange(ls, stop));
            lemma_newline_count_add(s.take(ls), s.subrange(ls, stop));
            lemma_newline_count_zero(s.subrange(ls, stop));
            assert forall|t: int| 0 <= t < stop - ls implies s.subrange(ls, stop)[t] != NEWLINE by {
                assert(s.subrange(ls, stop)[t] == s[ls + t]);
            }
            assert(newline_count(s.take(o)) >= line + 1);
        }
    }
}

} // verus!
