//! The container's superblock and the container itself.
use vstd::prelude::*;
use crate::directory::{
    StreamDirectory, block_map_written, commit_succeeds, directory_complete, directory_flushed,
    lemma_directory_record_round_trip, lemma_read_stream_unchanged,
    file_after, lemma_unchanged_streams_keep_file, np_after, pfn_table_start, stream_count, stream_flushed,
    stream_pfns, stream_read, stream_size_at, stream_unchanged, streams_in_range, with_dir_size,
};
use crate::error::MsfError;
use crate::pagelist::PageList;
use crate::view::{
    SourceView, flushed_file, flushed_pfns, gather, growth, pages_in_range, resized, tail_pfns,
    zeros,
};
use crate::codec::{copy_into, lemma_u32_splice_same, read_u32, splice, u32_at, u32_le, write_u32};

verus! {

/// Size of the superblock overlay in bytes.
pub const MSF_HEADER_SIZE: usize = 0x38;

/// Offsets of the superblock's fields.
pub const PAGE_SIZE_OFFSET: usize = 0x20;
pub const FREE_PAGE_MAP_OFFSET: usize = 0x24;
pub const NUM_PAGES_OFFSET: usize = 0x28;
pub const STREAM_DIR_SIZE_OFFSET: usize = 0x2C;
pub const UNKNOWN_OFFSET: usize = 0x30;
pub const STREAM_BLOCK_MAP_OFFSET: usize = 0x34;

/// Length of the magic at the start of the superblock.
pub const MAGIC_LEN: usize = 32;

/// Magic bytes of the format, version 7.00:
/// "Microsoft C/C++ MSF 7.00\r\n" followed by 1A 44 53 00 00 00.
pub const MAGIC: [u8; 32] = [
    0x4D, 0x69, 0x63, 0x72, 0x6F, 0x73, 0x6F, 0x66, 0x74, 0x20, 0x43, 0x2F, 0x43, 0x2B, 0x2B, 0x20,
    0x4D, 0x53, 0x46, 0x20, 0x37, 0x2E, 0x30, 0x30, 0x0D, 0x0A, 0x1A, 0x44, 0x53, 0x00, 0x00, 0x00,
];

pub type PageNumber = u32;

/// Pages needed to hold `n` bytes in pages of `d` bytes.
pub open spec fn ceil_div(n: nat, d: nat) -> nat {
    n / d + (if n % d == 0 { 0nat } else { 1nat })
}

/// Page size recorded in superblock `h`.
pub open spec fn page_size_of(h: Seq<u8>) -> u32 {
    u32_at(h, PAGE_SIZE_OFFSET as int)
}

/// Page of the free page map recorded in superblock `h`.
pub open spec fn free_page_map_of(h: Seq<u8>) -> u32 {
    u32_at(h, FREE_PAGE_MAP_OFFSET as int)
}

/// Page count recorded in superblock `h`.
pub open spec fn num_pages_of(h: Seq<u8>) -> u32 {
    u32_at(h, NUM_PAGES_OFFSET as int)
}

/// Stream directory size recorded in superblock `h`.
pub open spec fn stream_dir_size_of(h: Seq<u8>) -> u32 {
    u32_at(h, STREAM_DIR_SIZE_OFFSET as int)
}

/// The unnamed field of superblock `h`.
pub open spec fn unknown_of(h: Seq<u8>) -> u32 {
    u32_at(h, UNKNOWN_OFFSET as int)
}

/// Page that lists the directory's pages, as recorded in superblock `h`.
pub open spec fn stream_block_map_of(h: Seq<u8>) -> u32 {
    u32_at(h, STREAM_BLOCK_MAP_OFFSET as int)
}

/// A superblock whose page count covers exactly `len` bytes.
#[verifier::opaque]
pub open spec fn covers(h: Seq<u8>, len: nat) -> bool {
    num_pages_of(h) as int * page_size_of(h) as int == len
}

/// `ceil_div` as the executable code computes it.
pub fn pages_for(bytes: u32, page_size: u32) -> (r: u32)
    requires
        page_size > 0,
    ensures
        r == ceil_div(bytes as nat, page_size as nat),
{
    if bytes % page_size == 0 {
        bytes / page_size
    } else {
        proof {
            assert(bytes / page_size < 0xFFFF_FFFF) by (nonlinear_arith)
                requires
                    page_size > 1 || bytes % page_size == 0,
                    bytes % page_size != 0,
                    bytes <= 0xFFFF_FFFF,
            ;
        }
        bytes / page_size + 1
    }
}

/// Superblock `h` with its page count set to `v`.
pub open spec fn with_num_pages(h: Seq<u8>, v: u32) -> Seq<u8> {
    splice(h, NUM_PAGES_OFFSET as int, u32_le(v))
}

/// The pages that hold the stream directory of `file`, as listed on the
/// page that the superblock names.
pub open spec fn directory_pfns(file: Seq<u8>) -> Seq<u32> {
    let h = file.subrange(0, MSF_HEADER_SIZE as int);
    let off = stream_block_map_of(h) * page_size_of(h);
    Seq::new(
        ceil_div(stream_dir_size_of(h) as nat, page_size_of(h) as nat),
        |k: int| u32_at(file, off + 4 * k),
    )
}

/// The stream directory's bytes in `file`.
pub open spec fn directory_record(file: Seq<u8>) -> Seq<u8> {
    let h = file.subrange(0, MSF_HEADER_SIZE as int);
    resized(
        gather(file, directory_pfns(file), page_size_of(h) as nat),
        stream_dir_size_of(h) as nat,
    )
}

/// The list of the directory's pages lies within `file`.
pub open spec fn directory_pfns_in_file(file: Seq<u8>) -> bool {
    let h = file.subrange(0, MSF_HEADER_SIZE as int);
    stream_block_map_of(h) * page_size_of(h) + 4 * ceil_div(
        stream_dir_size_of(h) as nat,
        page_size_of(h) as nat,
    ) <= file.len()
}

/// Committing a stream directory exactly as it was read leaves the file
/// byte for byte as it was, where the file allows that: no stream is
/// recorded with size zero (such a stream is written back as nil), the
/// directory record ends with its last page list, and the rest of the page
/// that lists the directory's pages is zero. `dir` is what
/// `get_stream_directory` reads from `file`; `new_dir`, `h1` and `f1` are
/// what `StreamDirectory::flush` makes of it, the file being `f1` with `h1`
/// at its start.
pub proof fn lemma_commit_unchanged(
    file: Seq<u8>,
    dir: StreamDirectory,
    new_dir: StreamDirectory,
    h1: Seq<u8>,
    f1: Seq<u8>,
)
    requires
        ({
            let h = file.subrange(0, MSF_HEADER_SIZE as int);
            let ps = page_size_of(h) as nat;
            let d = directory_record(file);
            let off = stream_block_map_of(h) * page_size_of(h);
            let m = directory_pfns(file).len();
            &&& file.len() >= MSF_HEADER_SIZE
            &&& ps > 0
            &&& directory_pfns_in_file(file)
            &&& pages_in_range(directory_pfns(file), ps, file.len())
            &&& directory_complete(d, ps)
            &&& streams_in_range(d, ps, file.len())
            &&& d.len() == pfn_table_start(d, ps, stream_count(d))
            &&& forall|i: int| 0 <= i < stream_count(d) ==> stream_size_at(d, i) != 0
            &&& off + ps <= file.len()
            &&& 4 * m <= ps
            &&& forall|k: int| off + 4 * m <= k < off + ps ==> file[k] == 0u8
            &&& dir.view.bytes@ == d
            &&& dir.view.pages.page_size == ps
            &&& dir.view.pages.pfns@ == directory_pfns(file)
            &&& dir.streams@.len() == stream_count(d)
            &&& forall|i: int|
                0 <= i < dir.streams@.len() ==> stream_read(
                    #[trigger] dir.streams@[i],
                    d,
                    ps,
                    file,
                    i as nat,
                )
            &&& directory_flushed(dir, new_dir, h, file, h1, f1)
        }),
    ensures
        splice(f1, 0, h1) == file,
{
    reveal(directory_flushed);
    let h = file.subrange(0, MSF_HEADER_SIZE as int);
    let ps = page_size_of(h) as nat;
    let d = directory_record(file);
    let s0 = dir.streams@;
    let s1 = new_dir.streams@;
    let n = s0.len();
    let np0 = num_pages_of(h) as nat;
    lemma_commit_streams(file, dir, new_dir);
    lemma_directory_record_round_trip(s1, d, ps, file);
    reveal(crate::directory::directory_bytes);
    crate::directory::lemma_directory_bytes_len(s1);
    let dir_pfns = directory_pfns(file);
    let off = stream_block_map_of(h) * page_size_of(h);
    lemma_commit_record_pages(file);
    lemma_commit_block_map(file);
    lemma_u32_splice_same(h, NUM_PAGES_OFFSET as int);
    lemma_u32_splice_same(h, STREAM_DIR_SIZE_OFFSET as int);
    reveal(with_dir_size);
    reveal(growth);
    assert(growth(d.len(), dir_pfns.len(), ps) == 0);
    assert(h1 == h);
    assert(splice(file, 0, h) =~= file);
}

/// The streams of a directory as read, committed: the file stays as it was,
/// and each flushed stream is still the stream as read.
proof fn lemma_commit_streams(file: Seq<u8>, dir: StreamDirectory, new_dir: StreamDirectory)
    requires
        ({
            let h = file.subrange(0, MSF_HEADER_SIZE as int);
            let ps = page_size_of(h) as nat;
            let d = directory_record(file);
            let np0 = num_pages_of(h) as nat;
            &&& file.len() >= MSF_HEADER_SIZE
            &&& ps > 0
            &&& streams_in_range(d, ps, file.len())
            &&& dir.streams@.len() == stream_count(d)
            &&& forall|i: int|
                0 <= i < dir.streams@.len() ==> stream_read(
                    #[trigger] dir.streams@[i],
                    d,
                    ps,
                    file,
                    i as nat,
                )
            &&& new_dir.streams@.len() == dir.streams@.len()
            &&& forall|j: int|
                0 <= j < dir.streams@.len() ==> stream_flushed(
                    #[trigger] new_dir.streams@[j],
                    dir.streams@[j],
                    np_after(dir.streams@, np0, j as nat),
                )
        }),
    ensures
        ({
            let h = file.subrange(0, MSF_HEADER_SIZE as int);
            let ps = page_size_of(h) as nat;
            let d = directory_record(file);
            let np0 = num_pages_of(h) as nat;
            let n = dir.streams@.len();
            &&& file_after(dir.streams@, file, np0, n) == file
            &&& np_after(dir.streams@, np0, n) == np0
            &&& forall|j: int|
                0 <= j < n ==> stream_read(#[trigger] new_dir.streams@[j], d, ps, file, j as nat)
        }),
{
    reveal(flushed_pfns);
    reveal(growth);
    let h = file.subrange(0, MSF_HEADER_SIZE as int);
    let ps = page_size_of(h) as nat;
    let d = directory_record(file);
    let s0 = dir.streams@;
    let s1 = new_dir.streams@;
    let n = s0.len();
    let np0 = num_pages_of(h) as nat;
    assert forall|j: int| 0 <= j < n implies stream_unchanged(#[trigger] s0[j], file, ps) by {
        assert(pages_in_range(stream_pfns(d, ps, j as nat), ps, file.len()));
        lemma_read_stream_unchanged(s0[j], d, ps, file, j as nat);
    }
    lemma_unchanged_streams_keep_file(s0, file, np0, ps, n);
    assert forall|j: int| 0 <= j < n implies stream_read(#[trigger] s1[j], d, ps, file, j as nat) by {
        assert(stream_unchanged(s0[j], file, ps));
        assert(stream_flushed(s1[j], s0[j], np_after(s0, np0, j as nat)));
        assert(tail_pfns(np_after(s0, np0, j as nat), 0) =~= Seq::<u32>::empty());
        assert(s0[j].view.pages.pfns@ + tail_pfns(np_after(s0, np0, j as nat), 0)
            =~= s0[j].view.pages.pfns@);
    }
}

/// The directory's own pages, written back with the record as read, need
/// no new pages and leave the file as it was.
proof fn lemma_commit_record_pages(file: Seq<u8>)
    requires
        file.len() >= MSF_HEADER_SIZE,
        page_size_of(file.subrange(0, MSF_HEADER_SIZE as int)) > 0,
        pages_in_range(
            directory_pfns(file),
            page_size_of(file.subrange(0, MSF_HEADER_SIZE as int)) as nat,
            file.len(),
        ),
    ensures
        ({
            let h = file.subrange(0, MSF_HEADER_SIZE as int);
            let ps = page_size_of(h) as nat;
            let d = directory_record(file);
            let np0 = num_pages_of(h) as nat;
            &&& d.len() == stream_dir_size_of(h)
            &&& growth(d.len(), directory_pfns(file).len(), ps) == 0
            &&& flushed_pfns(directory_pfns(file), d.len(), ps, np0) == directory_pfns(file)
            &&& flushed_file(file, directory_pfns(file), ps, d, np0) == file
        }),
{
    reveal(flushed_pfns);
    reveal(flushed_file);
    reveal(growth);
    let h = file.subrange(0, MSF_HEADER_SIZE as int);
    let ps = page_size_of(h) as nat;
    let dir_pfns = directory_pfns(file);
    let np0 = num_pages_of(h) as nat;
    crate::view::lemma_ceil_div_covers(stream_dir_size_of(h) as nat, ps);
    crate::view::lemma_gather_len(file, dir_pfns, ps);
    assert(tail_pfns(np0, 0) =~= Seq::<u32>::empty());
    assert(dir_pfns + tail_pfns(np0, 0) =~= dir_pfns);
    assert(file + zeros(0) =~= file);
    crate::view::lemma_flush_unchanged_view(file, dir_pfns, ps, stream_dir_size_of(h) as nat);
}

/// Relisting the directory's pages on a page that lists just them, then
/// zeros, leaves the file as it was.
proof fn lemma_commit_block_map(file: Seq<u8>)
    requires
        ({
            let h = file.subrange(0, MSF_HEADER_SIZE as int);
            let ps = page_size_of(h) as nat;
            let off = stream_block_map_of(h) * page_size_of(h);
            let m = directory_pfns(file).len();
            &&& file.len() >= MSF_HEADER_SIZE
            &&& off + ps <= file.len()
            &&& 4 * m <= ps
            &&& forall|k: int| off + 4 * m <= k < off + ps ==> file[k] == 0u8
        }),
    ensures
        ({
            let h = file.subrange(0, MSF_HEADER_SIZE as int);
            let ps = page_size_of(h) as nat;
            let off = stream_block_map_of(h) * page_size_of(h);
            block_map_written(file, off, ps, directory_pfns(file)) == file
        }),
{
    reveal(block_map_written);
    let h = file.subrange(0, MSF_HEADER_SIZE as int);
    let ps = page_size_of(h) as nat;
    let off = stream_block_map_of(h) * page_size_of(h);
    let dir_pfns = directory_pfns(file);
    let m = dir_pfns.len();
    crate::directory::lemma_pfns_bytes_of_run(file, off, m);
    assert(dir_pfns =~= Seq::new(m, |k: int| u32_at(file, off + 4 * k)));
    assert(splice(splice(file, off, zeros(ps)), off, crate::directory::pfns_bytes(dir_pfns)) =~= file);
}

/// The product of two 32-bit values fits in 64 bits.
pub proof fn lemma_u32_product_fits(a: int, b: int)
    requires
        0 <= a <= 0xFFFF_FFFF,
        0 <= b <= 0xFFFF_FFFF,
    ensures
        0 <= a * b <= 0xFFFF_FFFE_0000_0001,
{
    assert(0 <= a * b <= 0xFFFF_FFFF * 0xFFFF_FFFF) by (nonlinear_arith)
        requires
            0 <= a <= 0xFFFF_FFFF,
            0 <= b <= 0xFFFF_FFFF,
    ;
}

/// A multiple of the page size needs no partial last page: the pages hold
/// exactly the bytes.
pub proof fn lemma_exact_multiple_fills_pages(n: nat, page_size: nat)
    requires
        page_size > 0,
        n % page_size == 0,
    ensures
        ceil_div(n, page_size) * page_size == n,
{
    vstd::arithmetic::div_mod::lemma_fundamental_div_mod(n as int, page_size as int);
    assert(ceil_div(n, page_size) == n / page_size);
    assert(page_size * (n / page_size) == (n / page_size) * page_size) by (nonlinear_arith);
}

/// Read-only overlay of the superblock: the first bytes of the container.
pub struct MsfBigHeader<'a> {
    pub ptr: &'a [u8],
}

/// Writable overlay of the superblock.
pub struct MsfBigHeaderMut<'a> {
    pub ptr: &'a mut [u8],
}

impl<'a> View for MsfBigHeader<'a> {
    type V = Seq<u8>;

    open spec fn view(&self) -> Seq<u8> {
        self.ptr@
    }
}

impl<'a> View for MsfBigHeaderMut<'a> {
    type V = Seq<u8>;

    open spec fn view(&self) -> Seq<u8> {
        self.ptr@
    }
}

impl<'a> MsfBigHeader<'a> {
    /// The overlay covers exactly its fields.
    pub open spec fn wf(&self) -> bool {
        self@.len() == MSF_HEADER_SIZE
    }

    /// Overlays the first bytes of `ptr`, if there are enough of them.
    pub fn new(ptr: &'a [u8]) -> (r: Option<MsfBigHeader<'a>>)
        ensures
            ptr@.len() >= MSF_HEADER_SIZE <==> r is Some,
            r is Some ==> r->Some_0.wf() && r->Some_0@ == ptr@.subrange(0, MSF_HEADER_SIZE as int),
    {
        if ptr.len() >= MSF_HEADER_SIZE {
            Some(MsfBigHeader { ptr: &ptr[0..MSF_HEADER_SIZE] })
        } else {
            None
        }
    }

    /// Overlays the first bytes of `bytes` where they start with the magic.
    pub fn from(bytes: &'a [u8]) -> (r: Option<MsfBigHeader<'a>>)
        ensures
            r is Some <==> bytes@.len() >= MSF_HEADER_SIZE && bytes@.subrange(0, MAGIC_LEN as int)
                == MAGIC@,
            r is Some ==> r->Some_0.wf() && r->Some_0@ == bytes@.subrange(0, MSF_HEADER_SIZE as int),
    {
        let header = match Self::new(bytes) {
            Some(h) => h,
            None => return None,
        };
        if has_magic(header.ptr) {
            Some(header)
        } else {
            assert(header@.subrange(0, MAGIC_LEN as int) =~= bytes@.subrange(0, MAGIC_LEN as int));
            None
        }
    }

    pub fn size() -> (r: usize)
        ensures
            r == MSF_HEADER_SIZE,
    {
        MSF_HEADER_SIZE
    }

    /// How many pages are needed to store `bytes` bytes.
    pub fn pages_needed_to_store(&self, bytes: u32) -> (r: u32)
        requires
            self.wf(),
            page_size_of(self@) > 0,
        ensures
            r == ceil_div(bytes as nat, page_size_of(self@) as nat),
    {
        pages_for(bytes, self.get_page_size())
    }

    /// Byte offset of the page that lists the stream directory's pages.
    pub fn stream_block_map(&self) -> (r: usize)
        requires
            self.wf(),
            stream_block_map_of(self@) as int * page_size_of(self@) as int <= usize::MAX,
        ensures
            r == stream_block_map_of(self@) as int * page_size_of(self@) as int,
    {
        let m = self.get_stream_block_map() as u64;
        let p = self.get_page_size() as u64;
        proof {
            lemma_u32_product_fits(m as int, p as int);
        }
        (m * p) as usize
    }

    /// The byte of the overlay at `pos` counted from the magic's start, where
    /// `pos` lies within the overlay.
    pub fn get_magic_at(&self, pos: usize) -> (r: Option<u8>)
        requires
            self.wf(),
        ensures
            r == (if pos < MSF_HEADER_SIZE {
                Some(self@[pos as int])
            } else {
                None::<u8>
            }),
    {
        if pos < MSF_HEADER_SIZE {
            Some(self.ptr[pos])
        } else {
            None
        }
    }

    /// The whole magic.
    pub fn get_magic(&self) -> (r: [u8; 32])
        requires
            self.wf(),
        ensures
            r@ == self@.subrange(0, MAGIC_LEN as int),
    {
        let mut a = [0u8; 32];
        let mut i: usize = 0;
        while i < MAGIC_LEN
            invariant
                i <= MAGIC_LEN,
                self.wf(),
                a@.len() == MAGIC_LEN,
                forall|k: int| 0 <= k < i ==> a@[k] == self@[k],
            decreases MAGIC_LEN - i,
        {
            a[i] = self.ptr[i];
            i = i + 1;
        }
        assert(a@ =~= self@.subrange(0, MAGIC_LEN as int));
        a
    }

    /// Reads the `page_size` field.
    pub fn get_page_size(&self) -> (r: u32)
        requires
            self.wf(),
        ensures
            r == page_size_of(self@),
    {
        read_u32(self.ptr, PAGE_SIZE_OFFSET)
    }

    /// Reads the `free_page_map` field.
    pub fn get_free_page_map(&self) -> (r: u32)
        requires
            self.wf(),
        ensures
            r == free_page_map_of(self@),
    {
        read_u32(self.ptr, FREE_PAGE_MAP_OFFSET)
    }

    /// Reads the `num_pages` field.
    pub fn get_num_pages(&self) -> (r: u32)
        requires
            self.wf(),
        ensures
            r == num_pages_of(self@),
    {
        read_u32(self.ptr, NUM_PAGES_OFFSET)
    }

    /// Reads the `stream_dir_size` field.
    pub fn get_stream_dir_size(&self) -> (r: u32)
        requires
            self.wf(),
        ensures
            r == stream_dir_size_of(self@),
    {
        read_u32(self.ptr, STREAM_DIR_SIZE_OFFSET)
    }

    /// Reads the `unknown` field.
    pub fn get_unknown(&self) -> (r: u32)
        requires
            self.wf(),
        ensures
            r == unknown_of(self@),
    {
        read_u32(self.ptr, UNKNOWN_OFFSET)
    }

    /// Reads the `stream_block_map` field.
    pub fn get_stream_block_map(&self) -> (r: u32)
        requires
            self.wf(),
        ensures
            r == stream_block_map_of(self@),
    {
        read_u32(self.ptr, STREAM_BLOCK_MAP_OFFSET)
    }

}

impl<'a> MsfBigHeaderMut<'a> {
    /// The overlay covers exactly its fields.
    pub open spec fn wf(&self) -> bool {
        self@.len() == MSF_HEADER_SIZE
    }

    /// Overlays the first bytes of `ptr`, if there are enough of them; writes
    /// through the overlay land in `ptr`.
    pub fn new(ptr: &'a mut [u8]) -> (r: Option<MsfBigHeaderMut<'a>>)
        ensures
            old(ptr)@.len() >= MSF_HEADER_SIZE <==> r is Some,
            r is Some ==> r->Some_0.wf() && r->Some_0@ == old(ptr)@.subrange(0, MSF_HEADER_SIZE as int)
                && final(ptr)@ == final(r->Some_0.ptr)@ + old(ptr)@.subrange(
                MSF_HEADER_SIZE as int,
                old(ptr)@.len() as int,
            ),
            r is None ==> final(ptr)@ == old(ptr)@,
    {
        if ptr.len() >= MSF_HEADER_SIZE {
            let (a, _b) = ptr.split_at_mut(MSF_HEADER_SIZE);
            Some(MsfBigHeaderMut { ptr: a })
        } else {
            None
        }
    }

    pub fn size() -> (r: usize)
        ensures
            r == MSF_HEADER_SIZE,
    {
        MSF_HEADER_SIZE
    }

    /// Clears every byte of the overlay.
    pub fn zero(&mut self)
        requires
            old(self).wf(),
        ensures
            final(self)@ == Seq::new(MSF_HEADER_SIZE as nat, |i: int| 0u8),
            final(final(self).ptr)@ == final(old(self).ptr)@,
    {
        let mut i: usize = 0;
        while i < MSF_HEADER_SIZE
            invariant
                i <= MSF_HEADER_SIZE,
                self.wf(),
                forall|k: int| 0 <= k < i ==> self@[k] == 0u8,
                final(self.ptr)@ == final(old(self).ptr)@,
            decreases MSF_HEADER_SIZE - i,
        {
            self.ptr[i] = 0;
            i = i + 1;
        }
        assert(self@ =~= Seq::new(MSF_HEADER_SIZE as nat, |i: int| 0u8));
    }

    /// Copies the overlay to the start of `buff`.
    pub fn flush(&self, buff: &mut Vec<u8>)
        requires
            self.wf(),
            old(buff)@.len() >= MSF_HEADER_SIZE,
        ensures
            final(buff)@ == splice(old(buff)@, 0, self@),
    {
        copy_into(buff, 0, self.ptr);
    }

    /// Writes one byte of the overlay, counted from the magic's start, where
    /// `pos` lies within the overlay.
    pub fn set_magic_at(&mut self, pos: usize, val: u8) -> (r: bool)
        requires
            old(self).wf(),
        ensures
            r == (pos < MSF_HEADER_SIZE),
            final(self)@ == (if r {
                old(self)@.update(pos as int, val)
            } else {
                old(self)@
            }),
            final(final(self).ptr)@ == final(old(self).ptr)@,
    {
        if pos < MSF_HEADER_SIZE {
            self.ptr[pos] = val;
            true
        } else {
            false
        }
    }

    /// Writes the whole magic.
    pub fn set_magic(&mut self, val: [u8; 32])
        requires
            old(self).wf(),
        ensures
            final(self)@ == splice(old(self)@, 0, val@),
            final(final(self).ptr)@ == final(old(self).ptr)@,
    {
        let mut i: usize = 0;
        while i < MAGIC_LEN
            invariant
                i <= MAGIC_LEN,
                self.wf(),
                val@.len() == MAGIC_LEN,
                forall|k: int| 0 <= k < i ==> self@[k] == val@[k],
                forall|k: int| i <= k < MSF_HEADER_SIZE ==> self@[k] == old(self)@[k],
                final(self.ptr)@ == final(old(self).ptr)@,
            decreases MAGIC_LEN - i,
        {
            self.ptr[i] = val[i];
            i = i + 1;
        }
        assert(self@ =~= splice(old(self)@, 0, val@));
    }

    /// How many pages are needed to store `bytes` bytes.
    pub fn pages_needed_to_store(&self, bytes: u32) -> (r: u32)
        requires
            self.wf(),
            page_size_of(self@) > 0,
        ensures
            r == ceil_div(bytes as nat, page_size_of(self@) as nat),
    {
        pages_for(bytes, self.get_page_size())
    }

    /// Byte offset of the page that lists the stream directory's pages.
    pub fn stream_block_map(&self) -> (r: usize)
        requires
            self.wf(),
            stream_block_map_of(self@) as int * page_size_of(self@) as int <= usize::MAX,
        ensures
            r == stream_block_map_of(self@) as int * page_size_of(self@) as int,
    {
        let m = self.get_stream_block_map() as u64;
        let p = self.get_page_size() as u64;
        proof {
            lemma_u32_product_fits(m as int, p as int);
        }
        (m * p) as usize
    }

    /// The byte of the overlay at `pos` counted from the magic's start, where
    /// `pos` lies within the overlay.
    pub fn get_magic_at(&self, pos: usize) -> (r: Option<u8>)
        requires
            self.wf(),
        ensures
            r == (if pos < MSF_HEADER_SIZE {
                Some(self@[pos as int])
            } else {
                None::<u8>
            }),
    {
        if pos < MSF_HEADER_SIZE {
            Some(self.ptr[pos])
        } else {
            None
        }
    }

    /// The whole magic.
    pub fn get_magic(&self) -> (r: [u8; 32])
        requires
            self.wf(),
        ensures
            r@ == self@.subrange(0, MAGIC_LEN as int),
    {
        let mut a = [0u8; 32];
        let mut i: usize = 0;
        while i < MAGIC_LEN
            invariant
                i <= MAGIC_LEN,
                self.wf(),
                a@.len() == MAGIC_LEN,
                forall|k: int| 0 <= k < i ==> a@[k] == self@[k],
            decreases MAGIC_LEN - i,
        {
            a[i] = self.ptr[i];
            i = i + 1;
        }
        assert(a@ =~= self@.subrange(0, MAGIC_LEN as int));
        a
    }

    /// Writes the `page_size` field.
    pub fn set_page_size(&mut self, val: u32)
        requires
            old(self).wf(),
        ensures
            final(self)@ == splice(old(self)@, PAGE_SIZE_OFFSET as int, u32_le(val)),
            final(final(self).ptr)@ == final(old(self).ptr)@,
    {
        write_u32(self.ptr, PAGE_SIZE_OFFSET, val)
    }

    /// Reads the `page_size` field.
    pub fn get_page_size(&self) -> (r: u32)
        requires
            self.wf(),
        ensures
            r == page_size_of(self@),
    {
        read_u32(self.ptr, PAGE_SIZE_OFFSET)
    }

    /// Writes the `free_page_map` field.
    pub fn set_free_page_map(&mut self, val: u32)
        requires
            old(self).wf(),
        ensures
            final(self)@ == splice(old(self)@, FREE_PAGE_MAP_OFFSET as int, u32_le(val)),
            final(final(self).ptr)@ == final(old(self).ptr)@,
    {
        write_u32(self.ptr, FREE_PAGE_MAP_OFFSET, val)
    }

    /// Reads the `free_page_map` field.
    pub fn get_free_page_map(&self) -> (r: u32)
        requires
            self.wf(),
        ensures
            r == free_page_map_of(self@),
    {
        read_u32(self.ptr, FREE_PAGE_MAP_OFFSET)
    }

    /// Writes the `num_pages` field.
    pub fn set_num_pages(&mut self, val: u32)
        requires
            old(self).wf(),
        ensures
            final(self)@ == splice(old(self)@, NUM_PAGES_OFFSET as int, u32_le(val)),
            final(final(self).ptr)@ == final(old(self).ptr)@,
    {
        write_u32(self.ptr, NUM_PAGES_OFFSET, val)
    }

    /// Reads the `num_pages` field.
    pub fn get_num_pages(&self) -> (r: u32)
        requires
            self.wf(),
        ensures
            r == num_pages_of(self@),
    {
        read_u32(self.ptr, NUM_PAGES_OFFSET)
    }

    /// Writes the `stream_dir_size` field.
    pub fn set_stream_dir_size(&mut self, val: u32)
        requires
            old(self).wf(),
        ensures
            final(self)@ == splice(old(self)@, STREAM_DIR_SIZE_OFFSET as int, u32_le(val)),
            final(final(self).ptr)@ == final(old(self).ptr)@,
    {
        write_u32(self.ptr, STREAM_DIR_SIZE_OFFSET, val)
    }

    /// Reads the `stream_dir_size` field.
    pub fn get_stream_dir_size(&self) -> (r: u32)
        requires
            self.wf(),
        ensures
            r == stream_dir_size_of(self@),
    {
        read_u32(self.ptr, STREAM_DIR_SIZE_OFFSET)
    }

    /// Writes the `unknown` field.
    pub fn set_unknown(&mut self, val: u32)
        requires
            old(self).wf(),
        ensures
            final(self)@ == splice(old(self)@, UNKNOWN_OFFSET as int, u32_le(val)),
            final(final(self).ptr)@ == final(old(self).ptr)@,
    {
        write_u32(self.ptr, UNKNOWN_OFFSET, val)
    }

    /// Reads the `unknown` field.
    pub fn get_unknown(&self) -> (r: u32)
        requires
            self.wf(),
        ensures
            r == unknown_of(self@),
    {
        read_u32(self.ptr, UNKNOWN_OFFSET)
    }

    /// Writes the `stream_block_map` field.
    pub fn set_stream_block_map(&mut self, val: u32)
        requires
            old(self).wf(),
        ensures
            final(self)@ == splice(old(self)@, STREAM_BLOCK_MAP_OFFSET as int, u32_le(val)),
            final(final(self).ptr)@ == final(old(self).ptr)@,
    {
        write_u32(self.ptr, STREAM_BLOCK_MAP_OFFSET, val)
    }

    /// Reads the `stream_block_map` field.
    pub fn get_stream_block_map(&self) -> (r: u32)
        requires
            self.wf(),
        ensures
            r == stream_block_map_of(self@),
    {
        read_u32(self.ptr, STREAM_BLOCK_MAP_OFFSET)
    }

}

/// Whether `s` starts with the magic.
pub fn has_magic(s: &[u8]) -> (r: bool)
    requires
        s@.len() >= MAGIC_LEN,
    ensures
        r == (s@.subrange(0, MAGIC_LEN as int) == MAGIC@),
{
    let mut i: usize = 0;
    while i < MAGIC_LEN
        invariant
            i <= MAGIC_LEN <= s@.len(),
            forall|k: int| 0 <= k < i ==> s@[k] == MAGIC@[k],
        decreases MAGIC_LEN - i,
    {
        if s[i] != MAGIC[i] {
            assert(s@.subrange(0, MAGIC_LEN as int)[i as int] != MAGIC@[i as int]);
            return false;
        }
        i = i + 1;
    }
    assert(s@.subrange(0, MAGIC_LEN as int) =~= MAGIC@);
    true
}

/// A whole container file, held in memory.
#[derive(Debug)]
pub struct BigMsf {
    /// The file's bytes.
    pub bytes: Vec<u8>,
}

impl Default for BigMsf {
    fn default() -> (r: BigMsf)
        ensures
            r.bytes@ == Seq::<u8>::empty(),
    {
        BigMsf { bytes: Vec::new() }
    }
}

impl BigMsf {
    /// Takes ownership of a container's bytes.
    pub fn new(bytes: Vec<u8>) -> (r: BigMsf)
        ensures
            r.bytes@ == bytes@,
    {
        BigMsf { bytes }
    }

    /// Takes ownership of a container's bytes, rejecting those that do not
    /// start with the format's magic.
    pub fn open(bytes: Vec<u8>) -> (r: Result<BigMsf, MsfError>)
        ensures
            match r {
                Ok(m) => m.bytes@ == bytes@,
                Err(e) => e == MsfError::BadMagic,
            },
            r is Ok <==> bytes@.len() >= MSF_HEADER_SIZE && bytes@.subrange(0, MAGIC_LEN as int)
                == MAGIC@,
    {
        let ok = match MsfBigHeader::from(bytes.as_slice()) {
            Some(_) => true,
            None => false,
        };
        if ok {
            Ok(BigMsf { bytes })
        } else {
            Err(MsfError::BadMagic)
        }
    }

    /// Read-only overlay of the superblock.
    pub fn header(&self) -> (r: Option<MsfBigHeader<'_>>)
        ensures
            self.bytes@.len() >= MSF_HEADER_SIZE <==> r is Some,
            r is Some ==> r->Some_0.wf() && r->Some_0@ == self.bytes@.subrange(
                0,
                MSF_HEADER_SIZE as int,
            ),
    {
        MsfBigHeader::new(self.bytes.as_slice())
    }

    /// Writable overlay of the superblock; writes through it land in the
    /// container's bytes.
    pub fn header_mut(&mut self) -> (r: Option<MsfBigHeaderMut<'_>>)
        ensures
            old(self).bytes@.len() >= MSF_HEADER_SIZE <==> r is Some,
            r is Some ==> r->Some_0.wf() && r->Some_0@ == old(self).bytes@.subrange(
                0,
                MSF_HEADER_SIZE as int,
            ) && final(self).bytes@ == final(r->Some_0.ptr)@ + old(self).bytes@.subrange(
                MSF_HEADER_SIZE as int,
                old(self).bytes@.len() as int,
            ),
            r is None ==> final(self).bytes@ == old(self).bytes@,
    {
        MsfBigHeaderMut::new(self.bytes.as_mut_slice())
    }

    /// Finds and reads the stream directory and every stream it lists. The
    /// result holds copies: changing it leaves the container as it is.
    pub fn get_stream_directory(&self) -> (r: Result<StreamDirectory, MsfError>)
        ensures
            ({
                let file = self.bytes@;
                let h = file.subrange(0, MSF_HEADER_SIZE as int);
                let ps = page_size_of(h) as nat;
                let d = directory_record(file);
                &&& file.len() < MSF_HEADER_SIZE ==> r == Err::<StreamDirectory, MsfError>(
                    MsfError::ShortSlice,
                )
                &&& file.len() >= MSF_HEADER_SIZE && ps == 0 ==> r == Err::<
                    StreamDirectory,
                    MsfError,
                >(MsfError::ParseError)
                &&& file.len() >= MSF_HEADER_SIZE && ps > 0 && !directory_pfns_in_file(file) ==> r
                    == Err::<StreamDirectory, MsfError>(MsfError::ParseError)
                &&& file.len() >= MSF_HEADER_SIZE && ps > 0 && directory_pfns_in_file(file)
                    && !pages_in_range(directory_pfns(file), ps, file.len()) ==> r == Err::<
                    StreamDirectory,
                    MsfError,
                >(MsfError::OutOfRangePfn)
                &&& file.len() >= MSF_HEADER_SIZE && ps > 0 && directory_pfns_in_file(file)
                    && pages_in_range(directory_pfns(file), ps, file.len()) ==> {
                    &&& r is Ok <==> directory_complete(d, ps) && streams_in_range(
                        d,
                        ps,
                        file.len(),
                    )
                    &&& r matches Err(e) ==> (e == MsfError::ParseError && !directory_complete(
                        d,
                        ps,
                    )) || (e == MsfError::OutOfRangePfn && directory_complete(d, ps))
                    &&& r matches Ok(dir) ==> {
                        &&& dir.view.bytes@ == d
                        &&& dir.view.pages.page_size == ps
                        &&& dir.view.pages.pfns@ == directory_pfns(file)
                        &&& dir.streams@.len() == crate::directory::stream_count(d)
                        &&& forall|i: int|
                            0 <= i < dir.streams@.len() ==> stream_read(
                                #[trigger] dir.streams@[i],
                                d,
                                ps,
                                file,
                                i as nat,
                            )
                    }
                }
            }),
    {
        let header = match self.header() {
            Some(h) => h,
            None => return Err(MsfError::ShortSlice),
        };
        let ps = header.get_page_size();
        if ps == 0 {
            return Err(MsfError::ParseError);
        }
        let ghost file = self.bytes@;
        let dir_size = header.get_stream_dir_size();
        let num_pages = header.pages_needed_to_store(dir_size);
        let map = header.get_stream_block_map();
        let off = crate::view::page_offset(map, ps);
        let slen = self.bytes.len();
        let blen = slen as u64;
        if off > blen || (blen - off) / 4 < num_pages as u64 {
            return Err(MsfError::ParseError);
        }
        let mut pages = PageList::new(ps);
        let mut k: u32 = 0;
        while k < num_pages
            invariant
                k <= num_pages,
                self.bytes@ == file,
                file.len() >= MSF_HEADER_SIZE,
                header@ == file.subrange(0, MSF_HEADER_SIZE as int),
                ps == page_size_of(header@),
                num_pages == ceil_div(stream_dir_size_of(header@) as nat, ps as nat),
                off == stream_block_map_of(header@) * page_size_of(header@),
                off + 4 * num_pages <= file.len(),
                blen == file.len() == slen,
                pages.page_size == ps,
                pages.pfns@ == directory_pfns(file).subrange(0, k as int),
            decreases num_pages - k,
        {
            let pfn = crate::codec::read_u32(self.bytes.as_slice(), off as usize + 4 * k as usize);
            pages.push(pfn);
            assert(pages.pfns@ =~= directory_pfns(file).subrange(0, k + 1));
            k = k + 1;
        }
        assert(pages.pfns@ =~= directory_pfns(file));
        let view = match SourceView::with_size(self.bytes.as_slice(), pages, dir_size as usize) {
            Some(v) => v,
            None => return Err(MsfError::OutOfRangePfn),
        };
        StreamDirectory::new(self.bytes.as_slice(), view, &header)
    }

    /// Writes `dir` back into the container: every stream, the directory and
    /// the page that lists the directory's pages, then the superblock with
    /// its new page count and directory size. The superblock is worked on as
    /// a copy, so that the container's bytes and the superblock are never
    /// borrowed at once, and copied back at the end. Fails, possibly after
    /// part of the file was written, where `StreamDirectory::flush` does.
    pub fn set_stream_directory(&mut self, dir: StreamDirectory) -> (r: Result<(), MsfError>)
        requires
            old(self).bytes@.len() >= MSF_HEADER_SIZE,
            page_size_of(old(self).bytes@.subrange(0, MSF_HEADER_SIZE as int)) > 0,
            covers(old(self).bytes@.subrange(0, MSF_HEADER_SIZE as int), old(self).bytes@.len()),
            forall|j: int|
                0 <= j < dir.streams@.len() ==> (#[trigger] dir.streams@[j]).view.pages.page_size
                    == page_size_of(old(self).bytes@.subrange(0, MSF_HEADER_SIZE as int))
                    && pages_in_range(
                    dir.streams@[j].view.pages.pfns@,
                    page_size_of(old(self).bytes@.subrange(0, MSF_HEADER_SIZE as int)) as nat,
                    old(self).bytes@.len(),
                ),
            dir.view.pages.page_size == page_size_of(
                old(self).bytes@.subrange(0, MSF_HEADER_SIZE as int),
            ),
            pages_in_range(
                dir.view.pages.pfns@,
                page_size_of(old(self).bytes@.subrange(0, MSF_HEADER_SIZE as int)) as nat,
                old(self).bytes@.len(),
            ),
        ensures
            r is Ok <==> commit_succeeds(
                dir,
                old(self).bytes@.subrange(0, MSF_HEADER_SIZE as int),
                old(self).bytes@,
            ),
            r matches Err(e) ==> e == MsfError::EncodeError,
            r is Ok ==> exists|d: StreamDirectory, h1: Seq<u8>, f1: Seq<u8>|
                #[trigger] directory_flushed(
                    dir,
                    d,
                    old(self).bytes@.subrange(0, MSF_HEADER_SIZE as int),
                    old(self).bytes@,
                    h1,
                    f1,
                ) && splice(f1, 0, h1) == final(self).bytes@,
            r is Ok ==> final(self).bytes@.len() >= MSF_HEADER_SIZE && covers(
                final(self).bytes@.subrange(0, MSF_HEADER_SIZE as int),
                final(self).bytes@.len(),
            ),
    {
        let mut dir = dir;
        let ghost f0 = self.bytes@;
        let mut header_bytes: Vec<u8> = Vec::new();
        crate::codec::extend_from(&mut header_bytes, self.bytes.as_slice(), 0, MSF_HEADER_SIZE);
        assert(header_bytes@ == f0.subrange(0, MSF_HEADER_SIZE as int));
        let mut header = match MsfBigHeaderMut::new(header_bytes.as_mut_slice()) {
            Some(h) => h,
            None => return Err(MsfError::ShortSlice),
        };
        assert(header@ =~= f0.subrange(0, MSF_HEADER_SIZE as int));
        match dir.flush(&mut self.bytes, &mut header) {
            Ok(()) => {},
            Err(e) => return Err(e),
        }
        let ghost h1 = header@;
        header.flush(&mut self.bytes);
        proof {
            reveal(covers);
            assert(self.bytes@.subrange(0, MSF_HEADER_SIZE as int) =~= h1);
        }
        Ok(())
    }
}

} // verus!
