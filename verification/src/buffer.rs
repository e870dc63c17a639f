//! The text buffer: owned document content, valid UTF-8 at all times.
//!
//! All mutation happens at character boundaries, so the validity invariant
//! is preserved by construction and no edit can strand a partial multi-byte
//! character in the content.
use vstd::prelude::*;
use vstd::utf8::valid_utf8;
use vstd::utf8::is_char_boundary;
use vstd::utf8::valid_utf8_split;
use vstd::utf8::valid_utf8_concat;
use crate::errors::BoundaryError;
use crate::errors::DecodeError;
use crate::text::char_count;
use crate::text::check_char_boundary;
use crate::text::check_utf8;
use crate::text::count_chars_in;
use crate::text::count_newlines;
use crate::text::line_count_of;
use crate::text::newline_count;
use crate::text::NEWLINE;

verus! {

/// Owned text content, stored as UTF-8 bytes.
pub struct TextBuffer {
    pub bytes: Vec<u8>,
}

/// Splices `insert` into `content` in place of the byte range
/// `[start, end)`, returning the new content.
pub fn splice_bytes(content: &Vec<u8>, start: usize, end: usize, insert: &Vec<u8>) -> (out: Vec<
    u8,
>)
    requires
        start <= end <= content@.len(),
    ensures
        out@ == content@.subrange(0, start as int) + insert@ + content@.subrange(
            end as int,
            content@.len() as int,
        ),
{
    let n = content.len();
    let m = insert.len();
    let mut out: Vec<u8> = Vec::new();
    let mut i: usize = 0;
    while i < start
        invariant
            i <= start <= end <= n,
            n == content@.len(),
            out@ == content@.subrange(0, i as int),
        decreases start - i,
    {
        out.push(content[i]);
        proof {
            assert(content@.subrange(0, i + 1) =~= content@.subrange(0, i as int).push(
                content@[i as int],
            ));
        }
        i = i + 1;
    }
    let mut j: usize = 0;
    while j < m
        invariant
            j <= m,
            m == insert@.len(),
            start <= end <= n,
            n == content@.len(),
            out@ == content@.subrange(0, start as int) + insert@.subrange(0, j as int),
        decreases m - j,
    {
        out.push(insert[j]);
        proof {
            assert(content@.subrange(0, start as int) + insert@.subrange(0, j + 1)
                =~= (content@.subrange(0, start as int) + insert@.subrange(0, j as int)).push(
                insert@[j as int],
            ));
        }
        j = j + 1;
    }
    proof {
        assert(insert@.subrange(0, m as int) =~= insert@);
    }
    let mut k: usize = end;
    while k < n
        invariant
            end <= k <= n,
            n == content@.len(),
            start <= end,
            out@ == content@.subrange(0, start as int) + insert@ + content@.subrange(
                end as int,
                k as int,
            ),
        decreases n - k,
    {
        out.push(content[k]);
        proof {
            assert(content@.subrange(end as int, k + 1) =~= content@.subrange(
                end as int,
                k as int,
            ).push(content@[k as int]));
        }
        k = k + 1;
    }
    out
}

impl TextBuffer {
    /// The buffer invariant: its bytes always form valid UTF-8 text.
    pub open spec fn wf(self) -> bool {
        valid_utf8(self.bytes@)
    }

    /// Wraps raw text verbatim; succeeds exactly when the bytes are valid
    /// UTF-8, and never alters them.
    pub fn load(raw: Vec<u8>) -> (r: Result<TextBuffer, DecodeError>)
        ensures
            r is Ok <==> valid_utf8(raw@),
            r matches Ok(b) ==> b.wf() && b.bytes@ == raw@,
    {
        if check_utf8(&raw) {
            Ok(TextBuffer { bytes: raw })
        } else {
            Err(DecodeError)
        }
    }

    /// An empty buffer.
    pub fn new() -> (r: TextBuffer)
        ensures
            r.wf(),
            r.bytes@.len() == 0,
    {
        TextBuffer { bytes: Vec::new() }
    }

    /// Replaces the byte range `[start, end)` with `new_text`. The range
    /// must fall on character boundaries; otherwise nothing changes and a
    /// `BoundaryError` is reported.
    pub fn replace_range(&mut self, start: usize, end: usize, new_text: &Vec<u8>) -> (r: Result<
        (),
        BoundaryError,
    >)
        requires
            old(self).wf(),
            valid_utf8(new_text@),
        ensures
            final(self).wf(),
            r is Ok <==> (start <= end <= old(self).bytes@.len() && is_char_boundary(
                old(self).bytes@,
                start as int,
            ) && is_char_boundary(old(self).bytes@, end as int)),
            r is Ok ==> final(self).bytes@ == old(self).bytes@.subrange(0, start as int)
                + new_text@ + old(self).bytes@.subrange(
                end as int,
                old(self).bytes@.len() as int,
            ),
            r is Err ==> final(self).bytes@ == old(self).bytes@,
    {
        let n = self.bytes.len();
        if !(start <= end && end <= n) {
            return Err(BoundaryError);
        }
        if !check_char_boundary(&self.bytes, start) {
            return Err(BoundaryError);
        }
        if !check_char_boundary(&self.bytes, end) {
            return Err(BoundaryError);
        }
        let out = splice_bytes(&self.bytes, start, end, new_text);
        proof {
            let s = self.bytes@;
            valid_utf8_split(s, start as int);
            valid_utf8_split(s, end as int);
            let head = s.subrange(0, start as int);
            let tail = s.subrange(end as int, s.len() as int);
            assert(valid_utf8(tail)) by {
                crate::text::lemma_boundary_within_suffix(s, start as int, end as int);
                valid_utf8_split(s.subrange(start as int, s.len() as int), (end - start) as int);
                assert(s.subrange(start as int, s.len() as int).subrange(
                    (end - start) as int,
                    (s.len() - start) as int,
                ) =~= tail);
            }
            valid_utf8_concat(head, new_text@);
            valid_utf8_concat(head + new_text@, tail);
            assert((head + new_text@) + tail =~= head + new_text@ + tail);
        }
        self.bytes = out;
        Ok(())
    }

    /// Number of newline-delimited lines of the content, at least 1 even
    /// for empty content.
    pub fn line_count(&self) -> (r: usize)
        ensures
            r == line_count_of(self.bytes@),
            r >= 1,
    {
        let n = self.bytes.len();
        let nl = count_newlines(&self.bytes);
        proof {
            crate::text::lemma_newline_count_le_len(self.bytes@);
        }
        if n == 0 {
            1
        } else if self.bytes[n - 1] == NEWLINE {
            if nl == 0 {
                1
            } else {
                nl
            }
        } else {
            proof {
                crate::text::lemma_newline_count_le_len(self.bytes@.drop_last());
                assert(newline_count(self.bytes@) == newline_count(self.bytes@.drop_last()));
            }
            nl + 1
        }
    }

    /// Number of characters (not bytes) in the byte range `[start, end)` of
    /// the content; used to report the size of a selection.
    pub fn slice_chars(&self, start: usize, end: usize) -> (r: usize)
        requires
            start <= end <= self.bytes@.len(),
        ensures
            r == char_count(self.bytes@.subrange(start as int, end as int)),
    {
        count_chars_in(&self.bytes, start, end)
    }

    /// Length of the content in bytes.
    pub fn len(&self) -> (r: usize)
        ensures
            r == self.bytes@.len(),
    {
        self.bytes.len()
    }
}

} // verus!
