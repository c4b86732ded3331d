use vstd::prelude::*;

verus! {

/// The offset that `apply` settles on for a sequence of `len` items.
pub open spec fn clamped_offset(size: nat, offset: nat, len: nat) -> nat {
    let shown = if size < len { size } else { len };
    if offset <= len - shown { offset } else { (len - shown) as nat }
}

/// The number of items that `apply` shows out of `len`.
pub open spec fn shown_len(size: nat, len: nat) -> nat {
    if size < len { size } else { len }
}

/// Whatever offset scrolling has left, applying the window to `len` items settles the
/// offset within `0 ..= max(0, len - size)` and shows `min(size, len)` items; an offset
/// already in that range is kept.
pub proof fn lemma_apply_bounds(size: nat, offset: nat, len: nat)
    ensures
        clamped_offset(size, offset, len) <= if len > size { len - size } else { 0 },
        shown_len(size, len) == if size < len { size } else { len },
        offset <= (if len > size { len - size } else { 0 }) ==> clamped_offset(size, offset, len) == offset,
{
}

/// A sliding window over a slice
#[derive(Debug, Clone, Copy, Default)]
pub struct SlidingWindow {
    size: usize,
    offset: usize,
}

impl SlidingWindow {
    /// The configured number of rows.
    pub closed spec fn spec_size(&self) -> nat {
        self.size as nat
    }

    /// The index of the first visible item.
    pub closed spec fn spec_offset(&self) -> nat {
        self.offset as nat
    }

    /// Create a new sliding window of a given size
    /// By default it starts at offset 0
    pub fn new(size: usize) -> (r: Self)
        ensures
            r.spec_size() == size,
            r.spec_offset() == 0,
    {
        Self { size, offset: 0 }
    }

    /// The index of the first visible item.
    pub fn offset(&self) -> (r: usize)
        ensures
            r == self.spec_offset(),
    {
        self.offset
    }

    /// Scroll the window down by one; the offset is clamped by the next `apply`
    pub fn scroll_down(&mut self)
        requires
            old(self).spec_offset() < usize::MAX,
        ensures
            final(self).spec_size() == old(self).spec_size(),
            final(self).spec_offset() == old(self).spec_offset() + 1,
    {
        self.offset += 1;
    }

    /// Scroll the window up by one, stopping at the top
    pub fn scroll_up(&mut self)
        ensures
            final(self).spec_size() == old(self).spec_size(),
            final(self).spec_offset() == if old(self).spec_offset() == 0 {
                0
            } else {
                (old(self).spec_offset() - 1) as nat
            },
    {
        self.offset = self.offset.saturating_sub(1);
    }

    /// Apply the window to a given slice
    pub fn apply<'a, T>(&mut self, slice: &'a [T]) -> (r: &'a [T])
        ensures
            final(self).spec_size() == old(self).spec_size(),
            final(self).spec_offset() == clamped_offset(
                old(self).spec_size(),
                old(self).spec_offset(),
                slice@.len(),
            ),
            final(self).spec_offset() + shown_len(old(self).spec_size(), slice@.len())
                <= slice@.len(),
            r@.len() == shown_len(old(self).spec_size(), slice@.len()),
            r@ == slice@.subrange(
                final(self).spec_offset() as int,
                final(self).spec_offset() + r@.len() as int,
            ),
    {
        let size = if self.size < slice.len() { self.size } else { slice.len() };
        if self.offset > slice.len() - size {
            self.offset = slice.len() - size;
        }
        &slice[self.offset..self.offset + size]
    }
}

} // verus!
