//! Pure computations behind the widgets: the numbers and sizes the host
//! UI displays. Rendering itself belongs to the host layer; what is
//! computed from document state is kept here, where it is checked.
use vstd::prelude::*;
use crate::document::Document;
use crate::text::char_count;

verus! {

/// Number of decimal digits of `n`, at least 1.
pub open spec fn decimal_digits(n: nat) -> nat
    decreases n,
{
    if n < 10 {
        1
    } else {
        1 + decimal_digits(n / 10)
    }
}

/// Marker type grouping the display computations of the widget layer.
pub struct UiComponents;

impl UiComponents {
    /// Width of the line-number gutter in digits: the number of decimal
    /// digits of the largest line number shown.
    pub fn line_number_digits(line_count: usize) -> (r: usize)
        ensures
            r == decimal_digits(line_count as nat),
            r >= 1,
    {
        let mut digits: usize = 1;
        let mut v: usize = line_count;
        while v >= 10
            invariant
                digits >= 1,
                v <= line_count,
                decimal_digits(line_count as nat) == digits - 1 + decimal_digits(v as nat),
            decreases v,
        {
            proof {
                lemma_decimal_digits_le(line_count as nat);
                assert(decimal_digits(v as nat) == 1 + decimal_digits((v / 10) as nat));
            }
            v = v / 10;
            digits = digits + 1;
        }
        digits
    }

    /// One-based line/column pair for the status bar, from the zero-based
    /// coordinates the cursor model keeps.
    pub fn displayed_position(line: usize, column: usize) -> (r: (usize, usize))
        requires
            line < usize::MAX,
            column < usize::MAX,
        ensures
            r.0 == line + 1,
            r.1 == column + 1,
    {
        (line + 1, column + 1)
    }

    /// Size of the active selection in characters (never bytes), as shown
    /// beside the cursor position; zero when nothing is selected.
    pub fn selection_size(doc: &Document) -> (r: usize)
        requires
            doc.wf(),
        ensures
            doc.selection matches Some(sel) ==> r == char_count(
                doc.content.bytes@.subrange(sel.0 as int, sel.1 as int),
            ),
            doc.selection is None ==> r == 0,
    {
        match doc.selection {
            Some(sel) => doc.content.slice_chars(sel.0, sel.1),
            None => 0,
        }
    }
}

/// A number has no more decimal digits than its own value, once positive.
pub proof fn lemma_decimal_digits_le(n: nat)
    requires
        n >= 1,
    ensures
        decimal_digits(n) <= n,
    decreases n,
{
    if n >= 10 {
        lemma_decimal_digits_le(n / 10);
    }
}

} // verus!
