//! The viewport of the selector's user interface.
use vstd::prelude::*;

use crate::sliding_window::{clamped_offset, shown_len, SlidingWindow};

verus! {

/// The rows of matches that are on screen: a sliding window over the match list.
pub struct Window {
    inner: SlidingWindow,
}

impl Window {
    /// The configured number of rows.
    pub closed spec fn spec_size(&self) -> nat {
        self.inner.spec_size()
    }

    /// The index of the first visible match.
    pub closed spec fn spec_offset(&self) -> nat {
        self.inner.spec_offset()
    }

    pub fn new(size: usize) -> (r: Self)
        ensures
            r.spec_size() == size,
            r.spec_offset() == 0,
    {
        Window { inner: SlidingWindow::new(size) }
    }

    /// Scroll down by one row; the next `apply` clamps the offset
    pub fn scroll_down(&mut self)
        requires
            old(self).spec_offset() < usize::MAX,
        ensures
            final(self).spec_size() == old(self).spec_size(),
            final(self).spec_offset() == old(self).spec_offset() + 1,
    {
        self.inner.scroll_down();
    }

    /// Scroll up by one row, stopping at the top
    pub fn scroll_up(&mut self)
        ensures
            final(self).spec_size() == old(self).spec_size(),
            final(self).spec_offset() == if old(self).spec_offset() == 0 {
                0
            } else {
                (old(self).spec_offset() - 1) as nat
            },
    {
        self.inner.scroll_up();
    }

    /// The visible part of `slice`
    pub fn apply<'a, T>(&mut self, slice: &'a [T]) -> (r: &'a [T])
        ensures
            final(self).spec_size() == old(self).spec_size(),
            final(self).spec_offset() == clamped_offset(
                old(self).spec_size(),
                old(self).spec_offset(),
                slice@.len(),
            ),
            final(self).spec_offset() + shown_len(old(self).spec_size(), slice@.len())
                <= slice@.len(),
            r@.len() == shown_len(old(self).spec_size(), slice@.len()),
            r@ == slice@.subrange(
                final(self).spec_offset() as int,
                final(self).spec_offset() + r@.len() as int,
            ),
    {
        self.inner.apply(slice)
    }
}

} // verus!
