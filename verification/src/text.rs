//! Byte-level model of UTF-8 text: validity checking, character counting,
//! and line/column bookkeeping over byte offsets.
//!
//! The editor stores document content as raw bytes that are valid UTF-8 at
//! all times. User-facing coordinates are character-granular, while offsets
//! into the content are byte-granular; the functions here bridge the two.
use vstd::prelude::*;
use vstd::utf8::is_continuation_byte;
use vstd::utf8::valid_leading_and_continuation_bytes_first_codepoint;
use vstd::utf8::decode_first_codepoint;
use vstd::utf8::length_of_first_codepoint;
use vstd::utf8::length_of_first_scalar;
use vstd::utf8::not_overlong_encoding;
use vstd::utf8::not_surrogate;
use vstd::utf8::valid_first_scalar;
use vstd::utf8::pop_first_scalar;
use vstd::utf8::valid_utf8;
use vstd::utf8::partial_valid_utf8;
use vstd::utf8::partial_valid_utf8_extend;
use vstd::utf8::partial_valid_partial_invalid_utf8;
use vstd::utf8::is_char_boundary;
use vstd::utf8::is_char_boundary_start_end_of_seq;
use vstd::utf8::is_char_boundary_iff_not_is_continuation_byte;
use vstd::utf8::valid_utf8_split;

verus! {

/// The newline byte; multi-byte characters never contain it, so counting
/// newlines byte-wise is exact on valid UTF-8 text.
pub const NEWLINE: u8 = 0x0a;

/// Number of characters encoded in a byte sequence, counted as the number
/// of bytes that are not UTF-8 continuation bytes. On valid UTF-8 text each
/// character contributes exactly one leading byte, so this is the character
/// count of the decoded text.
pub open spec fn char_count(s: Seq<u8>) -> nat
    decreases s.len(),
{
    if s.len() == 0 {
        0
    } else {
        char_count(s.drop_last()) + if is_continuation_byte(s.last()) {
            0nat
        } else {
            1nat
        }
    }
}

/// Number of newline bytes in a byte sequence.
pub open spec fn newline_count(s: Seq<u8>) -> nat
    decreases s.len(),
{
    if s.len() == 0 {
        0
    } else {
        newline_count(s.drop_last()) + if s.last() == NEWLINE {
            1nat
        } else {
            0nat
        }
    }
}

/// Byte offset of the start of the line containing offset `o`: the position
/// just past the last newline strictly before `o`, or 0 when there is none.
pub open spec fn line_start_at(s: Seq<u8>, o: int) -> int
    decreases o,
{
    if o <= 0 {
        0
    } else if s[o - 1] == NEWLINE {
        o
    } else {
        line_start_at(s, o - 1)
    }
}

/// Zero-based line number of byte offset `o`: the number of newline bytes
/// strictly before it.
pub open spec fn line_of(s: Seq<u8>, o: int) -> nat {
    newline_count(s.take(o))
}

/// Zero-based column of byte offset `o`: the number of characters between
/// the start of its line and `o` itself.
pub open spec fn column_of(s: Seq<u8>, o: int) -> nat {
    char_count(s.subrange(line_start_at(s, o), o))
}

/// Number of newline-delimited segments of the content, at least 1 even for
/// empty content. A trailing newline does not open a further segment, which
/// matches how the line iterator of `str` counts lines.
pub open spec fn line_count_of(s: Seq<u8>) -> nat {
    let segments = newline_count(s) + if s.len() > 0 && s.last() != NEWLINE {
        1nat
    } else {
        0nat
    };
    if segments == 0 {
        1nat
    } else {
        segments
    }
}

/// Newline counts never exceed the length counted over.
pub proof fn lemma_newline_count_le_len(s: Seq<u8>)
    ensures
        newline_count(s) <= s.len(),
    decreases s.len(),
{
    if s.len() > 0 {
        lemma_newline_count_le_len(s.drop_last());
    }
}

/// Character counts add up across a concatenation.
pub proof fn lemma_char_count_add(a: Seq<u8>, b: Seq<u8>)
    ensures
        char_count(a + b) == char_count(a) + char_count(b),
    decreases b.len(),
{
    if b.len() == 0 {
        assert(a + b =~= a);
    } else {
        lemma_char_count_add(a, b.drop_last());
        assert((a + b).drop_last() =~= a + b.drop_last());
        assert((a + b).last() == b.last());
    }
}

/// Newline counts add up across a concatenation.
pub proof fn lemma_newline_count_add(a: Seq<u8>, b: Seq<u8>)
    ensures
        newline_count(a + b) == newline_count(a) + newline_count(b),
    decreases b.len(),
{
    if b.len() == 0 {
        assert(a + b =~= a);
    } else {
        lemma_newline_count_add(a, b.drop_last());
        assert((a + b).drop_last() =~= a + b.drop_last());
        assert((a + b).last() == b.last());
    }
}

/// A sequence that starts with a non-continuation byte encodes at least one
/// character.
pub proof fn lemma_char_count_pos(s: Seq<u8>)
    requires
        s.len() > 0,
        !is_continuation_byte(s[0]),
    ensures
        char_count(s) >= 1,
    decreases s.len(),
{
    if s.len() > 1 {
        lemma_char_count_pos(s.drop_last());
    }
}

/// A sequence with no newline bytes has newline count zero, and conversely.
pub proof fn lemma_newline_count_zero(s: Seq<u8>)
    ensures
        newline_count(s) == 0 <==> (forall|i: int| 0 <= i < s.len() ==> s[i] != NEWLINE),
    decreases s.len(),
{
    if s.len() > 0 {
        lemma_newline_count_zero(s.drop_last());
        if newline_count(s) == 0 {
            assert forall|i: int| 0 <= i < s.len() implies s[i] != NEWLINE by {
                if i < s.len() - 1 {
                    assert(s.drop_last()[i] == s[i]);
                }
            }
        } else {
            if newline_count(s.drop_last()) > 0 {
                let i = choose|i: int| 0 <= i < s.len() - 1 && s.drop_last()[i] == NEWLINE;
                assert(s[i] == NEWLINE);
            }
        }
    }
}

/// The start of the line of `o` lies between 0 and `o`.
pub proof fn lemma_line_start_le(s: Seq<u8>, o: int)
    requires
        0 <= o,
    ensures
        0 <= line_start_at(s, o) <= o,
    decreases o,
{
    if o > 0 && s[o - 1] != NEWLINE {
        lemma_line_start_le(s, o - 1);
    }
}

/// Offsets with no newline between them lie on the same line start.
pub proof fn lemma_line_start_stable(s: Seq<u8>, a: int, b: int)
    requires
        0 <= a <= b,
        forall|j: int| a <= j < b ==> s[j] != NEWLINE,
    ensures
        line_start_at(s, b) == line_start_at(s, a),
    decreases b - a,
{
    if b > a {
        lemma_line_start_stable(s, a, b - 1);
    }
}

/// A valid UTF-8 sequence that is a byte-prefix of another valid UTF-8
/// sequence ends on a character boundary of the longer one.
pub proof fn lemma_valid_prefix_is_boundary(w: Seq<u8>, m: int)
    requires
        valid_utf8(w),
        0 <= m <= w.len(),
        valid_utf8(w.subrange(0, m)),
    ensures
        is_char_boundary(w, m),
    decreases m,
{
    if m > 0 {
        let v = w.subrange(0, m);
        assert(v[0] == w[0]);
        let k = length_of_first_scalar(w);
        assert(length_of_first_scalar(v) == k);
        assert(1 <= k <= m) by {
            assert(valid_leading_and_continuation_bytes_first_codepoint(v));
        }
        let wt = pop_first_scalar(w);
        let vt = pop_first_scalar(v);
        assert(vt =~= wt.subrange(0, m - k));
        lemma_valid_prefix_is_boundary(wt, m - k);
    }
}

/// Composing boundaries: a boundary at `j` within the suffix of `s` that
/// starts at boundary `i` is a boundary at `i + j` of `s` itself.
pub proof fn lemma_boundary_in_suffix(s: Seq<u8>, i: int, j: int)
    requires
        valid_utf8(s),
        is_char_boundary(s, i),
        0 <= i <= s.len(),
        0 <= j <= s.len() - i,
        is_char_boundary(s.subrange(i, s.len() as int), j),
    ensures
        is_char_boundary(s, i + j),
{
    let suffix = s.subrange(i, s.len() as int);
    valid_utf8_split(s, i);
    if i + j == s.len() {
        is_char_boundary_start_end_of_seq(s);
    } else {
        is_char_boundary_iff_not_is_continuation_byte(suffix, j);
        assert(suffix[j] == s[i + j]);
        is_char_boundary_iff_not_is_continuation_byte(s, i + j);
    }
}

/// A sequence whose first byte is not a continuation byte and whose other
/// bytes all are encodes exactly one character.
proof fn lemma_char_count_single(s: Seq<u8>)
    requires
        s.len() >= 1,
        !is_continuation_byte(s[0]),
        forall|i: int| 1 <= i < s.len() ==> is_continuation_byte(s[i]),
    ensures
        char_count(s) == 1,
    decreases s.len(),
{
    if s.len() == 1 {
        reveal_with_fuel(char_count, 2);
        assert(s.drop_last().len() == 0);
        assert(!is_continuation_byte(s.last()));
    } else {
        assert(s.drop_last()[0] == s[0]);
        assert forall|i: int| 1 <= i < s.len() - 1 implies is_continuation_byte(
            s.drop_last()[i],
        ) by {
            assert(s.drop_last()[i] == s[i]);
        }
        lemma_char_count_single(s.drop_last());
        assert(is_continuation_byte(s.last()));
    }
}

/// On valid UTF-8 text the byte-level character count equals the length of
/// the decoded character sequence: each character contributes exactly one
/// non-continuation byte.
pub proof fn lemma_char_count_is_decoded_len(s: Seq<u8>)
    requires
        valid_utf8(s),
    ensures
        char_count(s) == vstd::utf8::decode_utf8(s).len(),
    decreases s.len(),
{
    if s.len() > 0 {
        let k = length_of_first_scalar(s);
        let head = vstd::utf8::take_first_scalar(s);
        let tail = pop_first_scalar(s);
        assert(1 <= k <= s.len()) by {
            assert(valid_leading_and_continuation_bytes_first_codepoint(s));
        }
        assert(char_count(head) == 1) by {
            assert(head[0] == s[0]);
            assert forall|i: int| 1 <= i < head.len() implies is_continuation_byte(head[i]) by {
                assert(head[i] == s[i]);
            }
            lemma_char_count_single(head);
        }
        lemma_char_count_add(head, tail);
        assert(head + tail =~= s);
        lemma_char_count_is_decoded_len(tail);
    }
}

/// Transporting boundaries into a suffix: a boundary at `end` of `s` is a
/// boundary at `end - start` of the suffix of `s` that begins at boundary
/// `start`.
pub proof fn lemma_boundary_within_suffix(s: Seq<u8>, start: int, end: int)
    requires
        valid_utf8(s),
        0 <= start <= end <= s.len(),
        is_char_boundary(s, start),
        is_char_boundary(s, end),
    ensures
        is_char_boundary(s.subrange(start, s.len() as int), end - start),
{
    let suffix = s.subrange(start, s.len() as int);
    valid_utf8_split(s, start);
    if end == s.len() {
        is_char_boundary_start_end_of_seq(suffix);
    } else {
        is_char_boundary_iff_not_is_continuation_byte(s, end);
        assert(suffix[end - start] == s[end]);
        is_char_boundary_iff_not_is_continuation_byte(suffix, end - start);
    }
}

/// Checks whether `bytes` is a valid UTF-8 encoding, byte for byte, against
/// the reference definition of the specification library.
pub fn check_utf8(bytes: &Vec<u8>) -> (r: bool)
    ensures
        r == valid_utf8(bytes@),
{
    let n = bytes.len();
    let mut i: usize = 0;
    while i < n
        invariant
            0 <= i <= n,
            n == bytes@.len(),
            valid_utf8(bytes@.subrange(0, i as int)),
        decreases n - i,
    {
        let ghost suffix = bytes@.subrange(i as int, n as int);
        proof {
            assert(partial_valid_utf8(bytes@, i as int));
            assert(suffix.len() == n - i);
        }
        let b1 = bytes[i];
        proof {
            assert(suffix[0] == bytes@[i as int]);
        }
        if b1 < 0x80 {
            proof {
                assert(b1 & 0x7f == b1) by (bit_vector)
                    requires
                        b1 < 0x80,
                ;
                assert(valid_first_scalar(suffix));
                partial_valid_utf8_extend(bytes@, i as int);
                assert(length_of_first_scalar(suffix) == 1);
            }
            i = i + 1;
        } else if b1 < 0xc0 {
            proof {
                assert(!valid_leading_and_continuation_bytes_first_codepoint(suffix));
                assert(!valid_utf8(suffix));
                partial_valid_partial_invalid_utf8(bytes@, i as int);
            }
            return false;
        } else if b1 < 0xe0 {
            if n - i < 2 {
                proof {
                    assert(!valid_leading_and_continuation_bytes_first_codepoint(suffix));
                    partial_valid_partial_invalid_utf8(bytes@, i as int);
                }
                return false;
            }
            let b2 = bytes[i + 1];
            proof {
                assert(suffix[1] == bytes@[i + 1]);
            }
            if !(0x80 <= b2 && b2 <= 0xbf) {
                proof {
                    assert(!valid_leading_and_continuation_bytes_first_codepoint(suffix));
                    partial_valid_partial_invalid_utf8(bytes@, i as int);
                }
                return false;
            }
            let cp: u32 = (((b1 & 0x1f) as u32) << 6u32) | ((b2 & 0x3f) as u32);
            proof {
                assert(decode_first_codepoint(suffix) == cp);
                assert(length_of_first_codepoint(suffix) == 2);
            }
            if cp < 0x80 {
                proof {
                    assert(!not_overlong_encoding(decode_first_codepoint(suffix), 2));
                    partial_valid_partial_invalid_utf8(bytes@, i as int);
                }
                return false;
            }
            proof {
                assert((((b1 & 0x1f) as u32) << 6u32) | ((b2 & 0x3f) as u32) < 0x800) by (bit_vector);
                assert(valid_first_scalar(suffix));
                partial_valid_utf8_extend(bytes@, i as int);
            }
            i = i + 2;
        } else if b1 < 0xf0 {
            if n - i < 3 {
                proof {
                    assert(!valid_leading_and_continuation_bytes_first_codepoint(suffix));
                    partial_valid_partial_invalid_utf8(bytes@, i as int);
                }
                return false;
            }
            let b2 = bytes[i + 1];
            let b3 = bytes[i + 2];
            proof {
                assert(suffix[1] == bytes@[i + 1]);
                assert(suffix[2] == bytes@[i + 2]);
            }
            if !(0x80 <= b2 && b2 <= 0xbf) || !(0x80 <= b3 && b3 <= 0xbf) {
                proof {
                    assert(!valid_leading_and_continuation_bytes_first_codepoint(suffix));
                    partial_valid_partial_invalid_utf8(bytes@, i as int);
                }
                return false;
            }
            let cp: u32 = (((b1 & 0x0f) as u32) << 12u32) | (((b2 & 0x3f) as u32) << 6u32) | ((b3
                & 0x3f) as u32);
            proof {
                assert(decode_first_codepoint(suffix) == cp);
                assert(length_of_first_codepoint(suffix) == 3);
            }
            if cp < 0x800 {
                proof {
                    assert(!not_overlong_encoding(decode_first_codepoint(suffix), 3));
                    partial_valid_partial_invalid_utf8(bytes@, i as int);
                }
                return false;
            }
            if 0xd800 <= cp && cp <= 0xdfff {
                proof {
                    assert(!not_surrogate(decode_first_codepoint(suffix)));
                    partial_valid_partial_invalid_utf8(bytes@, i as int);
                }
                return false;
            }
            proof {
                assert(valid_first_scalar(suffix));
                partial_valid_utf8_extend(bytes@, i as int);
            }
            i = i + 3;
        } else if b1 < 0xf8 {
            if n - i < 4 {
                proof {
                    assert(!valid_leading_and_continuation_bytes_first_codepoint(suffix));
                    partial_valid_partial_invalid_utf8(bytes@, i as int);
                }
                return false;
            }
            let b2 = bytes[i + 1];
            let b3 = bytes[i + 2];
            let b4 = bytes[i + 3];
            proof {
                assert(suffix[1] == bytes@[i + 1]);
                assert(suffix[2] == bytes@[i + 2]);
                assert(suffix[3] == bytes@[i + 3]);
            }
            if !(0x80 <= b2 && b2 <= 0xbf) || !(0x80 <= b3 && b3 <= 0xbf) || !(0x80 <= b4 && b4
                <= 0xbf) {
                proof {
                    assert(!valid_leading_and_continuation_bytes_first_codepoint(suffix));
                    partial_valid_partial_invalid_utf8(bytes@, i as int);
                }
                return false;
            }
            let cp: u32 = (((b1 & 0x07) as u32) << 18u32) | (((b2 & 0x3f) as u32) << 12u32) | (((b3
                & 0x3f) as u32) << 6u32) | ((b4 & 0x3f) as u32);
            proof {
                assert(decode_first_codepoint(suffix) == cp);
                assert(length_of_first_codepoint(suffix) == 4);
            }
            if cp < 0x10000 || cp > 0x10ffff {
                proof {
                    assert(!not_overlong_encoding(decode_first_codepoint(suffix), 4));
                    partial_valid_partial_invalid_utf8(bytes@, i as int);
                }
                return false;
            }
            proof {
                assert(valid_first_scalar(suffix));
                partial_valid_utf8_extend(bytes@, i as int);
            }
            i = i + 4;
        } else {
            proof {
                assert(!valid_leading_and_continuation_bytes_first_codepoint(suffix));
                partial_valid_partial_invalid_utf8(bytes@, i as int);
            }
            return false;
        }
    }
    proof {
        assert(bytes@.subrange(0, n as int) =~= bytes@);
    }
    true
}

/// Checks whether byte offset `i` lies on a character boundary of valid
/// UTF-8 content: either the end of the content or a non-continuation byte.
pub fn check_char_boundary(bytes: &Vec<u8>, i: usize) -> (r: bool)
    requires
        valid_utf8(bytes@),
    ensures
        r == (i <= bytes@.len() && is_char_boundary(bytes@, i as int)),
{
    let n = bytes.len();
    if i > n {
        false
    } else if i == 0 || i == n {
        proof {
            is_char_boundary_start_end_of_seq(bytes@);
        }
        true
    } else {
        let b = bytes[i];
        proof {
            is_char_boundary_iff_not_is_continuation_byte(bytes@, i as int);
        }
        !(0x80 <= b && b <= 0xbf)
    }
}

/// Counts the characters in the byte range `[start, end)` of `bytes`.
pub fn count_chars_in(bytes: &Vec<u8>, start: usize, end: usize) -> (r: usize)
    requires
        start <= end <= bytes@.len(),
    ensures
        r == char_count(bytes@.subrange(start as int, end as int)),
{
    let mut count: usize = 0;
    let mut i: usize = start;
    while i < end
        invariant
            start <= i <= end <= bytes@.len(),
            count == char_count(bytes@.subrange(start as int, i as int)),
            count <= i - start,
        decreases end - i,
    {
        let b = bytes[i];
        proof {
            let pre = bytes@.subrange(start as int, i as int);
            let ext = bytes@.subrange(start as int, i + 1);
            assert(ext.drop_last() =~= pre);
            assert(ext.last() == bytes@[i as int]);
        }
        if !(0x80 <= b && b <= 0xbf) {
            count = count + 1;
        }
        i = i + 1;
    }
    count
}

/// Counts the newline bytes in all of `bytes`.
pub fn count_newlines(bytes: &Vec<u8>) -> (r: usize)
    ensures
        r == newline_count(bytes@),
{
    let n = bytes.len();
    let mut count: usize = 0;
    let mut i: usize = 0;
    while i < n
        invariant
            0 <= i <= n,
            n == bytes@.len(),
            count == newline_count(bytes@.subrange(0, i as int)),
            count <= i,
        decreases n - i,
    {
        let b = bytes[i];
        proof {
            let pre = bytes@.subrange(0, i as int);
            let ext = bytes@.subrange(0, i + 1);
            assert(ext.drop_last() =~= pre);
            assert(ext.last() == bytes@[i as int]);
        }
        if b == NEWLINE {
            count = count + 1;
        }
        i = i + 1;
    }
    proof {
        assert(bytes@.subrange(0, n as int) =~= bytes@);
    }
    count
}

} // verus!
