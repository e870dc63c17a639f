//! The search engine: leftmost substring search over the buffer bytes, and
//! the strict find-then-replace-selection protocol.
//!
//! Replacement succeeds only when the currently selected slice still equals
//! the search text byte for byte, so a buffer change between find and
//! replace can never silently replace the wrong occurrence.
use vstd::prelude::*;
use vstd::utf8::valid_utf8;
use vstd::utf8::is_char_boundary;
use vstd::utf8::is_char_boundary_start_end_of_seq;
use vstd::utf8::valid_utf8_split;
use vstd::utf8::valid_utf8_concat;
use vstd::utf8::valid_leading_and_continuation_bytes_first_codepoint;
use vstd::utf8::is_continuation_byte;
use crate::buffer::splice_bytes;
use crate::buffer::TextBuffer;
use crate::errors::ReplaceError;
use crate::text::check_char_boundary;
use crate::text::lemma_boundary_in_suffix;
use crate::text::lemma_valid_prefix_is_boundary;

verus! {

/// True when `needle` occurs in `s` starting at byte offset `i`.
pub open spec fn matches_at(s: Seq<u8>, needle: Seq<u8>, i: int) -> bool {
    &&& 0 <= i
    &&& i + needle.len() <= s.len()
    &&& s.subrange(i, i + needle.len()) == needle
}

/// A valid, non-empty UTF-8 sequence starts with a leading byte, never a
/// continuation byte.
pub proof fn lemma_valid_starts_with_leading_byte(s: Seq<u8>)
    requires
        valid_utf8(s),
        s.len() > 0,
    ensures
        !is_continuation_byte(s[0]),
{
    assert(valid_leading_and_continuation_bytes_first_codepoint(s));
}

/// Where a valid needle matches inside valid content at a character
/// boundary, both ends of the match lie on character boundaries.
pub proof fn lemma_match_ends_on_boundaries(s: Seq<u8>, needle: Seq<u8>, i: int)
    requires
        valid_utf8(s),
        valid_utf8(needle),
        needle.len() > 0,
        matches_at(s, needle, i),
        is_char_boundary(s, i),
    ensures
        is_char_boundary(s, i + needle.len()),
{
    let suffix = s.subrange(i, s.len() as int);
    valid_utf8_split(s, i);
    assert(suffix.subrange(0, needle.len() as int) =~= s.subrange(i, i + needle.len()));
    lemma_valid_prefix_is_boundary(suffix, needle.len() as int);
    lemma_boundary_in_suffix(s, i, needle.len() as int);
}

/// First occurrence of `needle` in the content at or after byte offset
/// `start`, leftmost-match. An empty needle matches at `start` itself when
/// `start` lies on a character boundary; a `start` inside a multi-byte
/// character is adjusted forward to the next boundary.
pub fn find(content: &TextBuffer, needle: &Vec<u8>, start: usize) -> (r: Option<usize>)
    requires
        content.wf(),
    ensures
        ({
            let s = content.bytes@;
            let m = needle@.len();
            match r {
                Some(i) => {
                    &&& start <= i <= s.len()
                    &&& m > 0 ==> matches_at(s, needle@, i as int) && (forall|j: int|
                        start <= j < i ==> !matches_at(s, needle@, j))
                    &&& m == 0 ==> is_char_boundary(s, i as int) && (forall|j: int|
                        start <= j < i ==> !is_char_boundary(s, j))
                },
                None => {
                    &&& m > 0 ==> forall|j: int| start <= j ==> !matches_at(s, needle@, j)
                    &&& m == 0 ==> start > s.len()
                },
            }
        }),
        needle@.len() == 0 && start <= content.bytes@.len() && is_char_boundary(
            content.bytes@,
            start as int,
        ) ==> r == Some(start),
{
    let n = content.bytes.len();
    let m = needle.len();
    if start > n {
        return None;
    }
    if m == 0 {
        let mut i: usize = start;
        while i < n && !check_char_boundary(&content.bytes, i)
            invariant
                start <= i <= n,
                n == content.bytes@.len(),
                content.wf(),
                forall|j: int| start <= j < i ==> !is_char_boundary(content.bytes@, j),
            decreases n - i,
        {
            i = i + 1;
        }
        proof {
            if i == n {
                is_char_boundary_start_end_of_seq(content.bytes@);
            }
        }
        return Some(i);
    }
    if m > n {
        return None;
    }
    if start > n - m {
        return None;
    }
    let mut i: usize = start;
    while i <= n - m
        invariant
            start <= i,
            i <= n - m + 1,
            m >= 1,
            m <= n,
            n == content.bytes@.len(),
            m == needle@.len(),
            forall|j: int| start <= j < i ==> !matches_at(content.bytes@, needle@, j),
        decreases n - m - i + 1,
    {
        let mut k: usize = 0;
        let mut hit: bool = true;
        while k < m && hit
            invariant
                0 <= k <= m,
                m == needle@.len(),
                i + m <= n,
                n == content.bytes@.len(),
                hit ==> forall|t: int| 0 <= t < k ==> content.bytes@[i + t] == needle@[t],
                !hit ==> k > 0 && content.bytes@[i + k - 1] != needle@[k - 1],
            decreases m - k,
        {
            if content.bytes[i + k] != needle[k] {
                hit = false;
            }
            k = k + 1;
        }
        if hit {
            proof {
                assert(content.bytes@.subrange(i as int, i + m) =~= needle@);
            }
            return Some(i);
        }
        proof {
            let s = content.bytes@;
            let kk = k - 1;
            if matches_at(s, needle@, i as int) {
                assert(s.subrange(i as int, i + m)[kk] == needle@[kk]);
            }
        }
        i = i + 1;
    }
    proof {
        assert forall|j: int| start <= j implies !matches_at(content.bytes@, needle@, j) by {
            if j + needle@.len() <= content.bytes@.len() {
                assert(j < i);
            }
        }
    }
    None
}

/// Replaces the selected slice of the content with `replacement`, but only
/// when that slice still equals `needle` exactly. On success the new
/// content and the selection covering the replacement are returned; on
/// refusal nothing is produced and the content is untouched.
pub fn replace_selected(
    content: &TextBuffer,
    selection: Option<(usize, usize)>,
    needle: &Vec<u8>,
    replacement: &Vec<u8>,
) -> (r: Result<(TextBuffer, (usize, usize)), ReplaceError>)
    requires
        content.wf(),
        valid_utf8(replacement@),
        selection matches Some(sel) ==> sel.0 <= sel.1 <= content.bytes@.len() && is_char_boundary(
            content.bytes@,
            sel.0 as int,
        ) && is_char_boundary(content.bytes@, sel.1 as int),
    ensures
        ({
            let s = content.bytes@;
            match r {
                Ok(out) => {
                    &&& selection matches Some(sel) && s.subrange(sel.0 as int, sel.1 as int)
                        == needle@ && out.0.bytes@ == s.subrange(0, sel.0 as int) + replacement@
                        + s.subrange(sel.1 as int, s.len() as int) && out.1.0 == sel.0 && out.1.1
                        == sel.0 + replacement@.len()
                    &&& out.0.wf()
                    &&& out.1.0 <= out.1.1 <= out.0.bytes@.len()
                    &&& is_char_boundary(out.0.bytes@, out.1.0 as int)
                    &&& is_char_boundary(out.0.bytes@, out.1.1 as int)
                },
                Err(e) => {
                    &&& (e matches ReplaceError::NoSelection) <==> (selection is None)
                    &&& (e matches ReplaceError::Mismatch) <==> (selection matches Some(sel)
                        && s.subrange(sel.0 as int, sel.1 as int) != needle@)
                },
            }
        }),
{
    match selection {
        None => Err(ReplaceError::NoSelection),
        Some(sel) => {
            let sel_start = sel.0;
            let sel_end = sel.1;
            let m = needle.len();
            if sel_end - sel_start != m {
                proof {
                    let s = content.bytes@;
                    let sub = s.subrange(sel_start as int, sel_end as int);
                    assert(sub.len() == sel_end - sel_start);
                    assert(sub != needle@);
                }
                return Err(ReplaceError::Mismatch);
            }
            let mut k: usize = 0;
            while k < m
                invariant
                    0 <= k <= m,
                    m == needle@.len(),
                    sel_start + m == sel_end <= content.bytes@.len(),
                    selection == Some((sel_start, sel_end)),
                    forall|t: int| 0 <= t < k ==> content.bytes@[sel_start + t] == needle@[t],
                decreases m - k,
            {
                if content.bytes[sel_start + k] != needle[k] {
                    proof {
                        let s = content.bytes@;
                        let sub = s.subrange(sel_start as int, sel_end as int);
                        assert(sub[k as int] == s[sel_start + k]);
                        assert(sub != needle@);
                    }
                    return Err(ReplaceError::Mismatch);
                }
                k = k + 1;
            }
            proof {
                assert(content.bytes@.subrange(sel_start as int, sel_end as int) =~= needle@);
            }
            let new_bytes = splice_bytes(&content.bytes, sel_start, sel_end, replacement);
            let out = TextBuffer { bytes: new_bytes };
            proof {
                let s = content.bytes@;
                let head = s.subrange(0, sel_start as int);
                let tail = s.subrange(sel_end as int, s.len() as int);
                valid_utf8_split(s, sel_start as int);
                assert(valid_utf8(tail)) by {
                    crate::text::lemma_boundary_within_suffix(s, sel_start as int, sel_end as int);
                    valid_utf8_split(
                        s.subrange(sel_start as int, s.len() as int),
                        (sel_end - sel_start) as int,
                    );
                    assert(s.subrange(sel_start as int, s.len() as int).subrange(
                        (sel_end - sel_start) as int,
                        (s.len() - sel_start) as int,
                    ) =~= tail);
                }
                valid_utf8_concat(head, replacement@);
                valid_utf8_concat(head + replacement@, tail);
                assert((head + replacement@) + tail =~= head + replacement@ + tail);
                assert(out.wf());
                assert(is_char_boundary(out.bytes@, sel_start as int)) by {
                    assert(out.bytes@.subrange(0, sel_start as int) =~= head);
                    lemma_valid_prefix_is_boundary(out.bytes@, sel_start as int);
                }
                assert(is_char_boundary(out.bytes@, sel_start + replacement@.len())) by {
                    assert(out.bytes@.subrange(0, sel_start + replacement@.len()) =~= head
                        + replacement@);
                    lemma_valid_prefix_is_boundary(out.bytes@, sel_start + replacement@.len());
                }
            }
            let total = out.bytes.len();
            proof {
                assert(sel_start + replacement@.len() <= total);
            }
            let new_end = sel_start + replacement.len();
            Ok((out, (sel_start, new_end)))
        },
    }
}

} // verus!
