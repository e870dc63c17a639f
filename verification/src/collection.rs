//! The ordered registry of open documents.
//!
//! Membership is positional: closing a document shifts every later index
//! down by one, so the active index a caller holds must be reconciled
//! after every close.
use vstd::prelude::*;
use crate::document::Document;

verus! {

/// An ordered sequence of open documents, addressed by index.
pub struct DocumentCollection {
    pub documents: Vec<Document>,
}

/// Document `b` is document `a` with the configuration's presentation
/// flags copied in and everything else untouched.
pub open spec fn settings_applied(a: Document, b: Document, line_numbers: bool, word_wrap: bool) -> bool {
    &&& b.line_numbers == line_numbers
    &&& b.word_wrap == word_wrap
    &&& b.content.bytes@ == a.content.bytes@
    &&& b.path == a.path
    &&& b.filename == a.filename
    &&& b.syntax_hint == a.syntax_hint
    &&& b.is_modified == a.is_modified
    &&& b.cursor_position == a.cursor_position
    &&& b.selection == a.selection
    &&& b.viewport == a.viewport
    &&& b.current_line == a.current_line
    &&& b.current_column == a.current_column
}

impl DocumentCollection {
    /// Every held document satisfies its own invariant.
    pub open spec fn wf(self) -> bool {
        forall|i: int| 0 <= i < self.documents@.len() ==> self.documents@[i].wf()
    }

    /// An empty collection.
    pub fn new() -> (r: DocumentCollection)
        ensures
            r.wf(),
            r.documents@.len() == 0,
    {
        DocumentCollection { documents: Vec::new() }
    }

    /// Appends a document; its index is the old length.
    pub fn add(&mut self, document: Document) -> (idx: usize)
        requires
            old(self).wf(),
            document.wf(),
        ensures
            final(self).wf(),
            final(self).documents@ == old(self).documents@.push(document),
            idx == old(self).documents@.len(),
    {
        let idx = self.documents.len();
        self.documents.push(document);
        idx
    }

    /// The document at `index`, or nothing when the index is out of range.
    pub fn get(&self, index: usize) -> (r: Option<&Document>)
        ensures
            index < self.documents@.len() ==> (r matches Some(d) && *d == self.documents@[
                index as int]),
            index >= self.documents@.len() ==> r is None,
    {
        if index < self.documents.len() {
            Some(&self.documents[index])
        } else {
            None
        }
    }

    /// Mutable access to the document at `index`, or nothing when the
    /// index is out of range.
    pub fn get_mut(&mut self, index: usize) -> (r: Option<&mut Document>)
        ensures
            index < old(self).documents@.len() ==> (r matches Some(d) && *d == old(
                self,
            ).documents@[index as int] && final(self).documents@ == old(self).documents@.update(
                index as int,
                *final(d),
            )),
            index >= old(self).documents@.len() ==> r is None && final(self).documents@ == old(
                self,
            ).documents@,
    {
        if index < self.documents.len() {
            Some(&mut self.documents[index])
        } else {
            None
        }
    }

    /// How many documents are open.
    pub fn len(&self) -> (r: usize)
        ensures
            r == self.documents@.len(),
    {
        self.documents.len()
    }

    /// Removes the document at `index` when it is in range, shifting every
    /// later document down by one, and reports whether a removal happened.
    /// An out-of-range index is silently ignored: nothing changes and the
    /// answer is false.
    pub fn close(&mut self, index: usize) -> (removed: bool)
        requires
            old(self).wf(),
        ensures
            final(self).wf(),
            removed <==> index < old(self).documents@.len(),
            removed ==> final(self).documents@ == old(self).documents@.remove(index as int),
            !removed ==> final(self).documents@ == old(self).documents@,
    {
        if index < self.documents.len() {
            self.documents.remove(index);
            proof {
                assert forall|i: int| 0 <= i < self.documents@.len() implies self.documents@[i].wf()
                by {
                    assert(self.documents@ == old(self).documents@.remove(index as int));
                }
            }
            true
        } else {
            false
        }
    }

    /// Copies the presentation flags of the global configuration onto
    /// every open document; nothing else about any document changes.
    pub fn apply_settings_to_documents(&mut self, line_numbers: bool, word_wrap: bool)
        requires
            old(self).wf(),
        ensures
            final(self).wf(),
            final(self).documents@.len() == old(self).documents@.len(),
            forall|i: int|
                0 <= i < old(self).documents@.len() ==> #[trigger] settings_applied(
                    old(self).documents@[i],
                    final(self).documents@[i],
                    line_numbers,
                    word_wrap,
                ),
    {
        let n = self.documents.len();
        let mut i: usize = 0;
        while i < n
            invariant
                0 <= i <= n,
                n == self.documents@.len(),
                n == old(self).documents@.len(),
                forall|j: int| 0 <= j < n ==> #[trigger] self.documents@[j].wf(),
                forall|j: int|
                    i <= j < n ==> #[trigger] self.documents@[j] == old(self).documents@[j],
                forall|j: int|
                    0 <= j < i ==> #[trigger] settings_applied(
                        old(self).documents@[j],
                        self.documents@[j],
                        line_numbers,
                        word_wrap,
                    ),
            decreases n - i,
        {
            let ghost pre = self.documents@;
            let doc = vstd::std_specs::vec::vec_index_mut(&mut self.documents, i);
            doc.apply_settings(line_numbers, word_wrap);
            proof {
                assert forall|j: int| 0 <= j < i + 1 implies #[trigger] settings_applied(
                    old(self).documents@[j],
                    self.documents@[j],
                    line_numbers,
                    word_wrap,
                ) by {
                    if j < i {
                        assert(self.documents@[j] == pre[j]);
                    }
                }
            }
            i = i + 1;
        }
    }
}

/// The active index after a close, per the reconciliation policy: an empty
/// collection has no active document; otherwise the old active index is
/// kept unless it now points past the end, in which case the new last
/// document becomes active.
pub fn reconcile_active_index(old_index: usize, new_len: usize) -> (r: Option<usize>)
    ensures
        (r is Some) <==> new_len > 0,
        r matches Some(i) ==> i == if old_index < new_len {
            old_index as int
        } else {
            new_len - 1
        },
{
    if new_len == 0 {
        None
    } else if old_index < new_len {
        Some(old_index)
    } else {
        Some(new_len - 1)
    }
}

} // verus!
