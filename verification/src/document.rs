//! The document: content, identity, cursor, selection and viewport state,
//! kept consistent across loads, edits, search and replace.
//!
//! The content is valid UTF-8 at all times; the cursor and both selection
//! ends always lie on character boundaries, so no operation can observe or
//! create a position inside a multi-byte character.
use vstd::prelude::*;
use vstd::utf8::valid_utf8;
use vstd::utf8::is_char_boundary;
use vstd::utf8::is_char_boundary_start_end_of_seq;
use vstd::utf8::is_char_boundary_iff_not_is_continuation_byte;
use crate::buffer::TextBuffer;
use crate::cursor::position_of;
use crate::errors::BoundaryError;
use crate::errors::DecodeError;
use crate::errors::ReplaceError;
use crate::search::matches_at;
use crate::search::lemma_match_ends_on_boundaries;
use crate::search::lemma_valid_starts_with_leading_byte;
use crate::text::char_count;
use crate::text::column_of;
use crate::text::count_chars_in;
use crate::text::line_count_of;
use crate::text::line_of;
use crate::viewport::clamped;
use crate::viewport::max_scroll;
use crate::viewport::ViewportState;
use crate::viewport::APPROX_LINE_HEIGHT;

verus! {

/// One open document: its text, where it came from, and the cursor,
/// selection and scroll state attached to it.
pub struct Document {
    /// Where the document was loaded from or last saved to; `None` means
    /// it was never saved.
    pub path: Option<String>,
    /// The text itself, valid UTF-8 at all times.
    pub content: TextBuffer,
    /// Display name, derived from the path; a sentinel when there is none.
    pub filename: String,
    /// Set on any content mutation, cleared on a successful save.
    pub is_modified: bool,
    /// Scroll state of the view onto this document.
    pub viewport: ViewportState,
    /// Byte offset of the cursor; always on a character boundary.
    pub cursor_position: usize,
    /// Label resolved once from the file extension at load time; the core
    /// never interprets it.
    pub syntax_hint: Option<String>,
    /// Presentation flag copied from the configuration.
    pub line_numbers: bool,
    /// Presentation flag copied from the configuration.
    pub word_wrap: bool,
    /// Highlighted half-open byte range; both ends on character boundaries.
    pub selection: Option<(usize, usize)>,
    /// Zero-based line of the cursor, recomputed after moves and edits.
    pub current_line: usize,
    /// Zero-based character column of the cursor on its line.
    pub current_column: usize,
}

impl Document {
    /// The document invariant: valid content, cursor and selection on
    /// character boundaries, selection ordered and in bounds, scroll
    /// offset within the band covered by the content.
    pub open spec fn wf(self) -> bool {
        &&& self.content.wf()
        &&& self.cursor_position <= self.content.bytes@.len()
        &&& is_char_boundary(self.content.bytes@, self.cursor_position as int)
        &&& (self.selection matches Some(sel) ==> sel.0 <= sel.1 <= self.content.bytes@.len()
            && is_char_boundary(self.content.bytes@, sel.0 as int) && is_char_boundary(
            self.content.bytes@,
            sel.1 as int,
        ))
        &&& self.viewport.scroll_offset <= max_scroll(line_count_of(self.content.bytes@))
    }

    /// Fields that neither search, replace, cursor moves nor scrolling
    /// ever touch.
    pub open spec fn same_identity(self, other: Document) -> bool {
        &&& self.path == other.path
        &&& self.filename == other.filename
        &&& self.syntax_hint == other.syntax_hint
        &&& self.line_numbers == other.line_numbers
        &&& self.word_wrap == other.word_wrap
    }

    /// An empty, never-saved document with default presentation flags.
    pub fn new() -> (d: Document)
        ensures
            d.wf(),
            d.path is None,
            d.content.bytes@.len() == 0,
            d.filename@ == "Untitled"@,
            !d.is_modified,
            d.viewport.scroll_offset == 0,
            d.cursor_position == 0,
            d.syntax_hint is None,
            d.line_numbers,
            d.word_wrap,
            d.selection is None,
            d.current_line == 0,
            d.current_column == 0,
    {
        Document {
            path: None,
            content: TextBuffer::new(),
            filename: "Untitled".to_owned(),
            is_modified: false,
            viewport: ViewportState::new(),
            cursor_position: 0,
            syntax_hint: None,
            line_numbers: true,
            word_wrap: true,
            selection: None,
            current_line: 0,
            current_column: 0,
        }
    }

    /// Hydrates a document from the raw bytes read out of a file, keeping
    /// them verbatim; loading fails exactly when they are not valid UTF-8
    /// text, and then no document is created. The syntax hint is resolved
    /// once from the file extension through the external highlighting
    /// engine; the caller derives filename and extension from the path.
    pub fn from_file(raw: Vec<u8>, path: String, filename: String, extension: &str) -> (r: Result<
        Document,
        DecodeError,
    >)
        ensures
            r is Ok <==> valid_utf8(raw@),
            r matches Ok(d) ==> {
                &&& d.wf()
                &&& d.content.bytes@ == raw@
                &&& d.path matches Some(p) && p@ == path@
                &&& d.filename@ == filename@
                &&& !d.is_modified
                &&& d.viewport.scroll_offset == 0
                &&& d.cursor_position == 0
                &&& d.line_numbers
                &&& d.word_wrap
                &&& d.selection is None
                &&& d.current_line == 0
                &&& d.current_column == 0
                &&& d.syntax_hint.deep_view() == crate::syntax::default_syntax_label(extension@)
            },
    {
        let content = match TextBuffer::load(raw) {
            Ok(b) => b,
            Err(e) => {
                return Err(e);
            },
        };
        let hint = crate::syntax::resolve_syntax_hint(extension);
        proof {
            is_char_boundary_start_end_of_seq(content.bytes@);
        }
        Ok(
            Document {
                path: Some(path),
                content,
                filename,
                is_modified: false,
                viewport: ViewportState::new(),
                cursor_position: 0,
                syntax_hint: hint,
                line_numbers: true,
                word_wrap: true,
                selection: None,
                current_line: 0,
                current_column: 0,
            },
        )
    }

    /// Records a completed save to the given location: the document gains
    /// the path and the filename derived from it, and is no longer marked
    /// modified. The content is untouched, so the bytes a save wrote are
    /// exactly the bytes a later load of that file sees.
    pub fn mark_saved(&mut self, path: String, filename: String)
        requires
            old(self).wf(),
        ensures
            final(self).wf(),
            final(self).path matches Some(p) && p@ == path@,
            final(self).filename@ == filename@,
            !final(self).is_modified,
            final(self).content.bytes@ == old(self).content.bytes@,
            final(self).cursor_position == old(self).cursor_position,
            final(self).selection == old(self).selection,
            final(self).viewport == old(self).viewport,
            final(self).current_line == old(self).current_line,
            final(self).current_column == old(self).current_column,
            final(self).syntax_hint == old(self).syntax_hint,
            final(self).line_numbers == old(self).line_numbers,
            final(self).word_wrap == old(self).word_wrap,
    {
        self.path = Some(path);
        self.filename = filename;
        self.is_modified = false;
    }

    /// Number of newline-delimited lines of the content, at least 1.
    pub fn get_line_count(&self) -> (r: usize)
        ensures
            r == line_count_of(self.content.bytes@),
            r >= 1,
    {
        self.content.line_count()
    }

    /// The cursor's zero-based line/column pair, as last computed.
    pub fn get_current_position(&self) -> (r: (usize, usize))
        ensures
            r.0 == self.current_line,
            r.1 == self.current_column,
    {
        (self.current_line, self.current_column)
    }

    /// Jumps to the given line of the content: remembers it as the current
    /// line and scrolls the viewport to its approximate position.
    pub fn scroll_to_line(&mut self, line: usize)
        requires
            old(self).wf(),
            line < line_count_of(old(self).content.bytes@),
            line * APPROX_LINE_HEIGHT <= usize::MAX,
        ensures
            final(self).wf(),
            final(self).current_line == line,
            final(self).viewport.scroll_offset == line * APPROX_LINE_HEIGHT,
            final(self).content.bytes@ == old(self).content.bytes@,
            final(self).cursor_position == old(self).cursor_position,
            final(self).selection == old(self).selection,
            final(self).is_modified == old(self).is_modified,
            final(self).current_column == old(self).current_column,
            final(self).same_identity(*old(self)),
    {
        self.current_line = line;
        self.viewport.scroll_to_line(line);
        proof {
            assert((line + 1) * APPROX_LINE_HEIGHT <= line_count_of(self.content.bytes@)
                * APPROX_LINE_HEIGHT) by (nonlinear_arith)
                requires
                    line + 1 <= line_count_of(self.content.bytes@),
            ;
        }
    }

    /// Applies a scroll delta and clamps the viewport to the band covered
    /// by the content; the offset never goes negative or past the last
    /// line. Reports the clamped offset.
    pub fn apply_scroll_delta(&mut self, delta: i64) -> (r: usize)
        requires
            old(self).wf(),
            line_count_of(old(self).content.bytes@) * APPROX_LINE_HEIGHT <= usize::MAX,
        ensures
            final(self).wf(),
            final(self).viewport.scroll_offset == clamped(
                old(self).viewport.scroll_offset + delta,
                max_scroll(line_count_of(old(self).content.bytes@)),
            ),
            r == final(self).viewport.scroll_offset,
            final(self).content.bytes@ == old(self).content.bytes@,
            final(self).cursor_position == old(self).cursor_position,
            final(self).selection == old(self).selection,
            final(self).is_modified == old(self).is_modified,
            final(self).current_line == old(self).current_line,
            final(self).current_column == old(self).current_column,
            final(self).same_identity(*old(self)),
    {
        let line_count = self.content.line_count();
        self.viewport.apply_delta(delta, line_count)
    }

    /// Moves the cursor to the end of the content and recomputes the
    /// line/column pair at character granularity. Runs after every content
    /// mutation; the jump to the end reproduces the inherited behavior of
    /// this core instead of keeping the cursor at the edit site.
    pub fn update_cursor_position_from_content(&mut self)
        requires
            old(self).wf(),
        ensures
            final(self).wf(),
            final(self).cursor_position == old(self).content.bytes@.len(),
            final(self).current_line == line_of(
                old(self).content.bytes@,
                old(self).content.bytes@.len() as int,
            ),
            final(self).current_column == column_of(
                old(self).content.bytes@,
                old(self).content.bytes@.len() as int,
            ),
            final(self).content.bytes@ == old(self).content.bytes@,
            final(self).selection == old(self).selection,
            final(self).is_modified == old(self).is_modified,
            final(self).viewport == old(self).viewport,
            final(self).same_identity(*old(self)),
    {
        let end = self.content.len();
        proof {
            is_char_boundary_start_end_of_seq(self.content.bytes@);
        }
        self.cursor_position = end;
        let pos = position_of(&self.content.bytes, end);
        self.current_line = pos.0;
        self.current_column = pos.1;
    }

    /// Replaces the byte range `[start, end)` of the content with
    /// `new_text`: the free-form edit of a document. The range must fall
    /// on character boundaries; otherwise nothing changes and a
    /// `BoundaryError` is reported. On success the document is marked
    /// modified, the selection is cleared (its old offsets name nothing in
    /// the new content), the viewport is clamped to the new content, and
    /// the cursor jumps to the end of the content with its line/column
    /// recomputed.
    pub fn edit_range(&mut self, start: usize, end: usize, new_text: &Vec<u8>) -> (r: Result<
        (),
        BoundaryError,
    >)
        requires
            old(self).wf(),
            valid_utf8(new_text@),
        ensures
            final(self).wf(),
            final(self).same_identity(*old(self)),
            r is Ok <==> (start <= end <= old(self).content.bytes@.len() && is_char_boundary(
                old(self).content.bytes@,
                start as int,
            ) && is_char_boundary(old(self).content.bytes@, end as int)),
            r is Ok ==> {
                &&& final(self).content.bytes@ == old(self).content.bytes@.subrange(
                    0,
                    start as int,
                ) + new_text@ + old(self).content.bytes@.subrange(
                    end as int,
                    old(self).content.bytes@.len() as int,
                )
                &&& final(self).is_modified
                &&& final(self).selection is None
                &&& final(self).cursor_position == final(self).content.bytes@.len()
                &&& final(self).current_line == line_of(
                    final(self).content.bytes@,
                    final(self).content.bytes@.len() as int,
                )
                &&& final(self).current_column == column_of(
                    final(self).content.bytes@,
                    final(self).content.bytes@.len() as int,
                )
                &&& final(self).viewport.scroll_offset == clamped(
                    old(self).viewport.scroll_offset as int,
                    max_scroll(line_count_of(final(self).content.bytes@)),
                )
            },
            r is Err ==> {
                &&& final(self).content.bytes@ == old(self).content.bytes@
                &&& final(self).is_modified == old(self).is_modified
                &&& final(self).selection == old(self).selection
                &&& final(self).cursor_position == old(self).cursor_position
                &&& final(self).current_line == old(self).current_line
                &&& final(self).current_column == old(self).current_column
                &&& final(self).viewport == old(self).viewport
            },
    {
        match self.content.replace_range(start, end, new_text) {
            Ok(u) => {
                self.is_modified = true;
                self.selection = None;
                let line_count = self.content.line_count();
                self.viewport.clamp_to(line_count);
                let end_pos = self.content.len();
                proof {
                    is_char_boundary_start_end_of_seq(self.content.bytes@);
                }
                self.cursor_position = end_pos;
                let p = position_of(&self.content.bytes, end_pos);
                self.current_line = p.0;
                self.current_column = p.1;
                Ok(u)
            },
            Err(e) => Err(e),
        }
    }

    /// Width of a piece of text in characters, never bytes.
    pub fn text_width(&self, text: &Vec<u8>) -> (r: usize)
        ensures
            r == char_count(text@),
    {
        proof {
            assert(text@.subrange(0, text@.len() as int) =~= text@);
        }
        count_chars_in(text, 0, text.len())
    }

    /// Finds the first occurrence of the search text from the start of the
    /// content, moves the cursor to the hit and selects it, leftmost-match.
    /// An empty search text matches at offset 0. When the text does not
    /// occur, nothing changes and nothing is reported.
    pub fn find_text(&mut self, needle: &Vec<u8>) -> (r: Option<usize>)
        requires
            old(self).wf(),
            valid_utf8(needle@),
        ensures
            final(self).wf(),
            final(self).content.bytes@ == old(self).content.bytes@,
            final(self).is_modified == old(self).is_modified,
            final(self).viewport == old(self).viewport,
            final(self).same_identity(*old(self)),
            ({
                let s = old(self).content.bytes@;
                match r {
                    Some(pos) => {
                        &&& needle@.len() > 0 ==> matches_at(s, needle@, pos as int) && (forall|
                            j: int,
                        | 0 <= j < pos ==> !matches_at(s, needle@, j))
                        &&& needle@.len() == 0 ==> pos == 0
                        &&& final(self).cursor_position == pos
                        &&& final(self).selection matches Some(sel) && sel.0 == pos && sel.1 == pos
                            + needle@.len()
                        &&& final(self).current_line == line_of(s, pos as int)
                        &&& final(self).current_column == column_of(s, pos as int)
                    },
                    None => {
                        &&& needle@.len() > 0
                        &&& forall|j: int| 0 <= j ==> !matches_at(s, needle@, j)
                        &&& final(self).cursor_position == old(self).cursor_position
                        &&& final(self).selection == old(self).selection
                        &&& final(self).current_line == old(self).current_line
                        &&& final(self).current_column == old(self).current_column
                    },
                }
            }),
    {
        let found = crate::search::find(&self.content, needle, 0);
        match found {
            Some(pos) => {
                let m = needle.len();
                let n = self.content.len();
                proof {
                    let s = self.content.bytes@;
                    if m > 0 {
                        lemma_valid_starts_with_leading_byte(needle@);
                        assert(s.subrange(pos as int, pos + m)[0] == s[pos as int]);
                        is_char_boundary_iff_not_is_continuation_byte(s, pos as int);
                        lemma_match_ends_on_boundaries(s, needle@, pos as int);
                        assert(pos + m <= n);
                    }
                }
                self.cursor_position = pos;
                self.selection = Some((pos, pos + m));
                let p = position_of(&self.content.bytes, pos);
                self.current_line = p.0;
                self.current_column = p.1;
                Some(pos)
            },
            None => None,
        }
    }

    /// Replaces the selected text when that selection still equals the
    /// search text exactly. On success the content is spliced, the
    /// replacement becomes the selection, the document is marked modified,
    /// the cursor jumps to the end of the content with its line/column
    /// recomputed, and the viewport is clamped to the new content. On
    /// refusal the document is left exactly as it was.
    pub fn replace_text(&mut self, needle: &Vec<u8>, replacement: &Vec<u8>) -> (r: Result<
        (),
        ReplaceError,
    >)
        requires
            old(self).wf(),
            valid_utf8(replacement@),
        ensures
            final(self).wf(),
            final(self).same_identity(*old(self)),
            ({
                let s = old(self).content.bytes@;
                match r {
                    Ok(u) => {
                        let sel = old(self).selection.unwrap();
                        let ns = final(self).selection.unwrap();
                        &&& old(self).selection is Some
                        &&& final(self).selection is Some
                        &&& s.subrange(sel.0 as int, sel.1 as int) == needle@
                        &&& final(self).content.bytes@ == s.subrange(0, sel.0 as int)
                            + replacement@ + s.subrange(sel.1 as int, s.len() as int)
                        &&& ns.0 == sel.0
                        &&& ns.1 == sel.0 + replacement@.len()
                        &&& final(self).is_modified
                        &&& final(self).cursor_position == final(self).content.bytes@.len()
                        &&& final(self).current_line == line_of(
                            final(self).content.bytes@,
                            final(self).content.bytes@.len() as int,
                        )
                        &&& final(self).current_column == column_of(
                            final(self).content.bytes@,
                            final(self).content.bytes@.len() as int,
                        )
                    },
                    Err(e) => {
                        &&& (e matches ReplaceError::NoSelection) <==> (old(self).selection
                            is None)
                        &&& (e matches ReplaceError::Mismatch) <==> (old(self).selection
                            matches Some(sel) && s.subrange(sel.0 as int, sel.1 as int) != needle@)
                        &&& final(self).content.bytes@ == s
                        &&& final(self).cursor_position == old(self).cursor_position
                        &&& final(self).selection == old(self).selection
                        &&& final(self).is_modified == old(self).is_modified
                        &&& final(self).current_line == old(self).current_line
                        &&& final(self).current_column == old(self).current_column
                        &&& final(self).viewport == old(self).viewport
                    },
                }
            }),
    {
        let outcome = crate::search::replace_selected(
            &self.content,
            self.selection,
            needle,
            replacement,
        );
        match outcome {
            Ok(out) => {
                let (new_content, new_selection) = out;
                self.content = new_content;
                self.selection = Some(new_selection);
                self.is_modified = true;
                let line_count = self.content.line_count();
                self.viewport.clamp_to(line_count);
                let end = self.content.len();
                proof {
                    is_char_boundary_start_end_of_seq(self.content.bytes@);
                }
                self.cursor_position = end;
                let p = position_of(&self.content.bytes, end);
                self.current_line = p.0;
                self.current_column = p.1;
                Ok(())
            },
            Err(e) => Err(e),
        }
    }

    /// Copies the presentation flags of the global configuration onto this
    /// document.
    pub fn apply_settings(&mut self, line_numbers: bool, word_wrap: bool)
        requires
            old(self).wf(),
        ensures
            final(self).wf(),
            final(self).line_numbers == line_numbers,
            final(self).word_wrap == word_wrap,
            final(self).content.bytes@ == old(self).content.bytes@,
            final(self).path == old(self).path,
            final(self).filename == old(self).filename,
            final(self).syntax_hint == old(self).syntax_hint,
            final(self).is_modified == old(self).is_modified,
            final(self).cursor_position == old(self).cursor_position,
            final(self).selection == old(self).selection,
            final(self).viewport == old(self).viewport,
            final(self).current_line == old(self).current_line,
            final(self).current_column == old(self).current_column,
    {
        self.line_numbers = line_numbers;
        self.word_wrap = word_wrap;
    }
}

} // verus!
