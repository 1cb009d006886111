//! One erase-granular page of a device: a value type constructed on demand
//! as `index * erase_size`, never persisted.

use vstd::prelude::*;

verus! {

/// One erase page: the address range `[start, start + size)`.
#[derive(Clone, Copy, Debug, PartialEq, Eq, Structural)]
pub struct Page {
    /// The first address of the page.
    pub start: u32,
    /// The size of the page in bytes.
    pub size: usize,
}

impl Page {
    /// The end address of the page, one past its last byte.
    pub open spec fn spec_end(&self) -> int {
        self.start + self.size
    }

    /// The page with index `index` in a device whose erase granularity is
    /// `size`.
    pub fn new(index: u32, size: usize) -> (r: Page)
        requires
            index * size <= u32::MAX,
        ensures
            r.start == index * size,
            r.size == size,
    {
        proof {
            assert(index * size >= 0) by (nonlinear_arith);
        }
        Page { start: ((index as usize) * size) as u32, size }
    }

    /// The end address of the page.
    pub fn end(&self) -> (r: u32)
        requires
            self.spec_end() <= u32::MAX,
        ensures
            r == self.spec_end(),
    {
        self.start + (self.size as u32)
    }

    /// Checks if an address offset is contained within the page.
    pub fn contains(&self, address: u32) -> (r: bool)
        requires
            self.spec_end() <= u32::MAX,
        ensures
            r == (self.start <= address < self.spec_end()),
    {
        (self.start <= address) && (self.end() > address)
    }
}

} // verus!
