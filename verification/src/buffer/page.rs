use vstd::prelude::*;

use crate::buffer::PageId;

verus! {

/// Size in bytes of a page, on disk and in a frame.
pub const BUSTUBX_PAGE_SIZE: usize = 4096;

/// The bytes of one page.
pub type PageData = [u8; BUSTUBX_PAGE_SIZE];

/// The contents of a page of zero bytes.
pub open spec fn zeroed_data() -> PageData {
    vstd::array::spec_array_fill_for_copy_type::<u8, BUSTUBX_PAGE_SIZE>(0u8)
}

/// A page held in a frame of the buffer pool.
#[derive(Clone, Copy)]
pub struct Page {
    pub page_id: PageId,
    pub data: PageData,
    /// Whether the frame holds changes not yet written to disk.
    pub is_dirty: bool,
    /// How many users hold the page; a pinned page is never evicted.
    pub pin_count: u32,
}

impl Page {
    /// A clean, unpinned page of zero bytes.
    pub open spec fn blank(page_id: PageId) -> Page {
        Page { page_id, data: zeroed_data(), is_dirty: false, pin_count: 0 }
    }

    pub fn new(page_id: PageId) -> (p: Page)
        ensures
            p == Page::blank(page_id),
    {
        Page { page_id, data: [0u8; BUSTUBX_PAGE_SIZE], is_dirty: false, pin_count: 0 }
    }

    /// Resets the page to a blank page with id 0.
    pub fn destroy(&mut self)
        ensures
            *final(self) == Page::blank(0),
    {
        *self = Page::new(0);
    }
}

} // verus!
