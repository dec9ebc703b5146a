use vstd::prelude::*;

verus! {

/// Bytes at the start of the heap that hold the cursor itself: one pointer-sized word.
pub const RESERVED_MEM: usize = 8;

/// Where the next allocation of `size` bytes aligned to `align` lands in a heap of
/// `len` bytes from `start` whose cursor stands at `cursor` (zero before the first
/// allocation, meaning the top of the heap): the cursor moved down by `size`, stopping at
/// zero, then rounded down to the alignment; `None` when that reaches into the reserved
/// word.
pub open spec fn allocation_spec(start: usize, len: usize, cursor: usize, size: usize, align: usize) -> Option<
    usize,
> {
    let top: int = if cursor == 0 {
        start + len
    } else {
        cursor as int
    };
    let lowered: usize = if top >= size {
        (top - size) as usize
    } else {
        0
    };
    let aligned: usize = lowered & !((align - 1) as usize);
    if aligned < start + RESERVED_MEM {
        None
    } else {
        Some(aligned)
    }
}

/// A bump allocator over the heap `[start, start + len)`: allocations go downwards from
/// the top and are never freed.
pub struct BumpAllocator {
    pub start: usize,
    pub len: usize,
    /// Zero before the first allocation, else the address last handed out.
    pub cursor: usize,
}

impl BumpAllocator {
    /// The heap and its reserved word lie within the address space.
    pub open spec fn wf(&self) -> bool {
        self.start + self.len <= usize::MAX && self.start + RESERVED_MEM <= usize::MAX
    }

    /// A heap with nothing allocated.
    pub fn new(start: usize, len: usize) -> (r: Self)
        ensures
            r.start == start,
            r.len == len,
            r.cursor == 0,
    {
        BumpAllocator { start, len, cursor: 0 }
    }

    /// The heap position as of this call.
    pub fn pos(&self) -> (r: usize)
        ensures
            r == self.cursor,
    {
        self.cursor
    }

    /// Resets the cursor to `pos`.
    pub fn move_cursor(&mut self, pos: usize)
        ensures
            final(self).cursor == pos,
            final(self).start == old(self).start,
            final(self).len == old(self).len,
    {
        self.cursor = pos;
    }

    /// The heap position, for a report of the usage.
    pub fn print_usage(&self) -> (r: usize)
        ensures
            r == self.cursor,
    {
        self.pos()
    }

    /// Hands out the address of `size` bytes aligned to `align` and moves the cursor
    /// there; `None`, with the cursor left where it was, when the heap is exhausted.
    pub fn allocate(&mut self, size: usize, align: usize) -> (r: Option<usize>)
        requires
            old(self).wf(),
            align >= 1,
        ensures
            final(self).start == old(self).start,
            final(self).len == old(self).len,
            r == allocation_spec(old(self).start, old(self).len, old(self).cursor, size, align),
            r matches Some(p) ==> final(self).cursor == p,
            r is None ==> final(self).cursor == old(self).cursor,
    {
        let mut pos = self.cursor;
        if pos == 0 {
            pos = self.start + self.len;
        }
        pos = pos.saturating_sub(size);
        pos = pos & !(align - 1);
        if pos < self.start + RESERVED_MEM {
            return None;
        }
        self.cursor = pos;
        Some(pos)
    }
}

} // verus!
