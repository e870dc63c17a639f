//! Scroll/viewport bookkeeping. The viewport converts target lines into
//! scroll offsets with a fixed approximate row height, and clamps every
//! offset into the band covered by the content.
use vstd::prelude::*;

verus! {

/// Fixed approximate height of one rendered text row, in scroll units.
/// Scroll positions are computed from it instead of measuring real rows,
/// trading visual precision for constant-time scroll arithmetic.
pub const APPROX_LINE_HEIGHT: usize = 18;

/// The largest admissible scroll offset for content with the given number
/// of lines.
pub open spec fn max_scroll(line_count: nat) -> int {
    line_count * APPROX_LINE_HEIGHT
}

/// A scroll target clamped into `[0, max]`.
pub open spec fn clamped(target: int, max: int) -> int {
    if target < 0 {
        0
    } else if target > max {
        max
    } else {
        target
    }
}

/// Scroll state of one document view.
pub struct ViewportState {
    pub scroll_offset: usize,
}

impl ViewportState {
    /// A viewport at the top of the content.
    pub fn new() -> (r: ViewportState)
        ensures
            r.scroll_offset == 0,
    {
        ViewportState { scroll_offset: 0 }
    }

    /// Jumps the viewport to the given line: the offset becomes the line
    /// number times the approximate row height.
    pub fn scroll_to_line(&mut self, line: usize)
        requires
            line * APPROX_LINE_HEIGHT <= usize::MAX,
        ensures
            final(self).scroll_offset == line * APPROX_LINE_HEIGHT,
    {
        self.scroll_offset = line * APPROX_LINE_HEIGHT;
    }

    /// Adds a scroll delta and clamps the result to the band covered by
    /// content with `line_count` lines: never negative, never past the
    /// last line.
    pub fn apply_delta(&mut self, delta: i64, line_count: usize) -> (r: usize)
        requires
            line_count * APPROX_LINE_HEIGHT <= usize::MAX,
        ensures
            final(self).scroll_offset == clamped(
                old(self).scroll_offset + delta,
                max_scroll(line_count as nat),
            ),
            r == final(self).scroll_offset,
    {
        let max: usize = line_count * APPROX_LINE_HEIGHT;
        if delta >= 0 {
            if self.scroll_offset >= max {
                self.scroll_offset = max;
            } else {
                let room: usize = max - self.scroll_offset;
                if delta as u128 >= room as u128 {
                    self.scroll_offset = max;
                } else {
                    self.scroll_offset = self.scroll_offset + (delta as usize);
                }
            }
        } else {
            let magnitude: u128 = (-(delta as i128)) as u128;
            if magnitude >= self.scroll_offset as u128 {
                self.scroll_offset = 0;
            } else {
                let base: usize = self.scroll_offset - (magnitude as usize);
                if base > max {
                    self.scroll_offset = max;
                } else {
                    self.scroll_offset = base;
                }
            }
        }
        self.scroll_offset
    }

    /// Clamps the offset to the band covered by content with `line_count`
    /// lines, after the content changed underneath the viewport.
    pub fn clamp_to(&mut self, line_count: usize)
        ensures
            final(self).scroll_offset == clamped(
                old(self).scroll_offset as int,
                max_scroll(line_count as nat),
            ),
    {
        let max_wide: u128 = (line_count as u128) * (APPROX_LINE_HEIGHT as u128);
        if (self.scroll_offset as u128) > max_wide {
            self.scroll_offset = max_wide as usize;
        }
    }
}

} // verus!
