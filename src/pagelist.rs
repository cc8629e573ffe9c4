//! Ordered lists of the pages that hold a stream.
use vstd::prelude::*;
use crate::msf::PageNumber;

verus! {

/// A byte range of the source file.
#[derive(Debug, Clone, Copy, PartialEq, Eq, Structural)]
pub struct SourceSlice {
    /// Offset into the source file.
    pub offset: u32,
    /// Size of the range.
    pub size: u32,
}

/// The pages used by a stream, in stream order.
#[derive(Debug, Clone)]
pub struct PageList {
    /// Size of each page; valid values are 512, 1024, 2048 and 4096.
    pub page_size: u32,
    /// The page numbers.
    pub pfns: Vec<PageNumber>,
}

impl Default for PageList {
    fn default() -> (r: PageList)
        ensures
            r.page_size == 0,
            r.pfns@ == Seq::<u32>::empty(),
    {
        PageList { page_size: 0, pfns: Vec::new() }
    }
}

impl PageList {
    /// Bytes covered by the listed pages.
    pub open spec fn spec_len(&self) -> int {
        self.pfns@.len() * self.page_size
    }

    /// An empty list for pages of `page_size` bytes.
    pub fn new(page_size: u32) -> (r: PageList)
        ensures
            r.page_size == page_size,
            r.pfns@ == Seq::<u32>::empty(),
    {
        PageList { page_size, pfns: Vec::new() }
    }

    /// Appends a page.
    pub fn push(&mut self, page: PageNumber)
        ensures
            final(self).page_size == old(self).page_size,
            final(self).pfns@ == old(self).pfns@.push(page),
    {
        self.pfns.push(page);
    }

    /// Total bytes covered by the listed pages.
    pub fn len(&self) -> (r: u32)
        requires
            self.spec_len() <= u32::MAX,
        ensures
            r == self.spec_len(),
    {
        let n = self.pfns.len() as u64;
        let p = self.page_size as u64;
        proof {
            assert(n * p == self.spec_len());
        }
        (n * p) as u32
    }
}

} // verus!
