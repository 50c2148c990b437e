//! A byte region whose first byte lies on a page boundary.
//!
//! The region is a window into a slightly larger zeroed allocation: the
//! window starts at the first byte whose address is a multiple of the page
//! size.
use vstd::prelude::*;

verus! {

/// A zero-initialised byte region of a requested size, placed inside its
/// backing store so that its first byte is page-aligned.
pub struct PageAlignedByteBuffer {
    data: Vec<u8>,
    start: usize,
    size: usize,
    base: usize,
    page: usize,
}

/// Calls `page_size::get`, which asks the operating system for the size of a
/// memory page.  Nothing is claimed of the value: it is the machine's.
#[verifier::external_body]
fn system_page_size() -> (page: usize) {
    page_size::get()
}

/// Calls `Vec::as_ptr` and gives the address of the first byte of the
/// allocation as a number.  Nothing is claimed of the value: it is the
/// allocator's.
#[verifier::external_body]
fn base_address(data: &Vec<u8>) -> (address: usize) {
    data.as_ptr() as usize
}

/// The least `pad` with `(base + pad) % page == 0`.
pub open spec fn padding(base: int, page: int) -> int {
    if base % page == 0 {
        0
    } else {
        page - base % page
    }
}

/// Distance from `base` to the next multiple of `page`.
pub fn align_offset(base: usize, page: usize) -> (pad: usize)
    requires
        page > 0,
    ensures
        pad == padding(base as int, page as int),
        pad < page,
        (base + pad) % (page as int) == 0,
{
    let r: usize = base % page;
    if r == 0 {
        0
    } else {
        assert((base + (page - r)) % (page as int) == 0) by (nonlinear_arith)
            requires
                r == base % page,
                0 < r < page,
        ;
        page - r
    }
}

impl View for PageAlignedByteBuffer {
    type V = Seq<u8>;

    closed spec fn view(&self) -> Seq<u8> {
        self.data@.subrange(self.start as int, self.start + self.size)
    }
}

impl PageAlignedByteBuffer {
    /// The window lies inside the backing store.
    pub closed spec fn wf(&self) -> bool {
        self.start + self.size <= self.data@.len()
    }

    /// The page size that was reported when the buffer was made.
    pub closed spec fn page(&self) -> int {
        self.page as int
    }

    /// The address of the backing store that was reported when the buffer was
    /// made.
    pub closed spec fn base(&self) -> int {
        self.base as int
    }

    /// Offset of the region within the backing store.
    pub closed spec fn start(&self) -> int {
        self.start as int
    }

    /// The region starts on a page boundary, going by the reported address
    /// and page size.
    pub open spec fn aligned(&self) -> bool {
        self.page() > 0 && (self.base() + self.start()) % self.page() == 0
    }

    /// A region of `buffer_size` zero bytes.  It is page-aligned whenever
    /// the size and one page together fit the address space.
    pub fn new(buffer_size: usize) -> (buffer: Self)
        ensures
            buffer.wf(),
            buffer@.len() == buffer_size,
            forall|i: int| 0 <= i < buffer_size ==> buffer@[i] == 0,
            0 < buffer.page() && buffer_size + buffer.page() <= usize::MAX ==> buffer.aligned(),
    {
        let page: usize = system_page_size();
        if page > 0 && buffer_size <= usize::MAX - page {
            let data: Vec<u8> = vec![0u8; buffer_size + page];
            let base: usize = base_address(&data);
            let start: usize = align_offset(base, page);
            PageAlignedByteBuffer { data, start, size: buffer_size, base, page }
        } else {
            let data: Vec<u8> = vec![0u8; buffer_size];
            let base: usize = base_address(&data);
            PageAlignedByteBuffer { data, start: 0, size: buffer_size, base, page }
        }
    }

    /// Number of bytes in the region.
    pub fn len(&self) -> (n: usize)
        requires
            self.wf(),
        ensures
            n == self@.len(),
    {
        self.size
    }

    /// Whether the region starts on a page boundary.
    pub fn is_page_aligned(&self) -> (b: bool)
        ensures
            b == self.aligned(),
    {
        self.page > 0 && (self.base as u128 + self.start as u128) % (self.page as u128) == 0
    }

    /// Read access to the region.
    pub fn as_slice(&self) -> (bytes: &[u8])
        requires
            self.wf(),
        ensures
            bytes@ == self@,
    {
        let whole: &[u8] = self.data.as_slice();
        let n: usize = whole.len();
        vstd::slice::slice_subrange(whole, self.start, self.start + self.size)
    }

    /// Exclusive write access to the region.  What the holder leaves in the
    /// slice is what the region holds afterwards; its place does not change.
    pub fn get_buffer(&mut self) -> (bytes: &mut [u8])
        requires
            old(self).wf(),
        ensures
            bytes@ == old(self)@,
            final(bytes)@.len() == old(self)@.len() ==> final(self).wf(),
            final(bytes)@.len() == old(self)@.len() ==> final(self)@ == final(bytes)@,
            final(self).aligned() == old(self).aligned(),
    {
        let (_, rest) = self.data.as_mut_slice().split_at_mut(self.start);
        let (window, _) = rest.split_at_mut(self.size);
        window
    }
}

} // verus!
