//! The stream directory: every stream's size and pages.
use vstd::prelude::*;
use crate::codec::{
    lemma_splice_twice, lemma_u32_round_trip, lemma_u32_splice_other, lemma_u32_splice_same,
    push_u32, read_u32, splice, try_read_u32, u32_at, u32_le, write_u32,
};
use crate::error::MsfError;
use crate::msf::{
    MSF_HEADER_SIZE, MsfBigHeader, MsfBigHeaderMut, NUM_PAGES_OFFSET, PAGE_SIZE_OFFSET,
    STREAM_BLOCK_MAP_OFFSET, STREAM_DIR_SIZE_OFFSET, ceil_div, covers,
    num_pages_of, page_size_of, pages_for, stream_block_map_of, stream_dir_size_of, with_num_pages,
};
use crate::pagelist::PageList;
use crate::view::{
    SourceView, fits_flush, flushed_file, flushed_pfns, gather, growth, lemma_pages_in_range_grows,
    page_offset, pages_in_range, resized, tail_pfns, zeros,
};

verus! {

/// The stream index that refers to no stream.
pub const INVALID_STREAM_INDEX: u16 = 0xFFFF;

/// The recorded size of a stream that does not exist.
pub const INVALID_STREAM_SIZE: u32 = 0xFFFF_FFFF;

/// The index of the DBI stream.
pub const DBI_STREAM_INDEX: usize = 3;

/// Number of streams recorded at the start of the directory bytes `d`.
pub open spec fn stream_count(d: Seq<u8>) -> nat {
    u32_at(d, 0) as nat
}

/// Recorded size of stream `i`.
pub open spec fn stream_size_at(d: Seq<u8>, i: int) -> u32 {
    u32_at(d, 4 + 4 * i)
}

/// Pages listed for a stream of the given recorded size.
pub open spec fn pages_of_size(size: u32, page_size: nat) -> nat {
    if size == INVALID_STREAM_SIZE {
        0
    } else {
        ceil_div(size as nat, page_size)
    }
}

/// Offset in the directory bytes of the page list of stream `i`.
pub open spec fn pfn_table_start(d: Seq<u8>, page_size: nat, i: nat) -> nat
    decreases i,
{
    if i == 0 {
        4 + 4 * stream_count(d)
    } else {
        pfn_table_start(d, page_size, (i - 1) as nat) + 4 * pages_of_size(
            stream_size_at(d, i - 1),
            page_size,
        )
    }
}

/// The pages listed for stream `i`.
pub open spec fn stream_pfns(d: Seq<u8>, page_size: nat, i: nat) -> Seq<u32> {
    Seq::new(
        pages_of_size(stream_size_at(d, i as int), page_size),
        |k: int| u32_at(d, pfn_table_start(d, page_size, i) + 4 * k),
    )
}

/// The directory bytes hold the stream count, every size and every page list.
pub open spec fn directory_complete(d: Seq<u8>, page_size: nat) -> bool {
    &&& 4 <= d.len()
    &&& pfn_table_start(d, page_size, stream_count(d)) <= d.len()
}

/// Every listed page of every stream lies within a file of `len` bytes.
pub open spec fn streams_in_range(d: Seq<u8>, page_size: nat, len: nat) -> bool {
    forall|i: nat|
        i < stream_count(d) ==> pages_in_range(
            #[trigger] stream_pfns(d, page_size, i),
            page_size,
            len,
        )
}

/// The bytes of stream `i` as the directory describes them in `file`.
pub open spec fn stream_bytes(d: Seq<u8>, page_size: nat, file: Seq<u8>, i: nat) -> Seq<u8> {
    if stream_size_at(d, i as int) == INVALID_STREAM_SIZE {
        Seq::empty()
    } else {
        resized(
            gather(file, stream_pfns(d, page_size, i), page_size),
            stream_size_at(d, i as int) as nat,
        )
    }
}

/// Page-list offsets only grow from stream to stream.
pub proof fn lemma_pfn_table_start_grows(d: Seq<u8>, page_size: nat, i: nat, j: nat)
    requires
        i <= j,
    ensures
        pfn_table_start(d, page_size, i) <= pfn_table_start(d, page_size, j),
    decreases j - i,
{
    if i < j {
        lemma_pfn_table_start_grows(d, page_size, i, (j - 1) as nat);
    }
}

/// Stream `s` holds what its pages in `file` hold, needs no page beyond
/// them, and its pages lie within `file`.
pub open spec fn stream_unchanged(s: Stream, file: Seq<u8>, page_size: nat) -> bool {
    &&& s.view.pages.page_size == page_size
    &&& pages_in_range(s.view.pages.pfns@, page_size, file.len())
    &&& s.view.bytes@.len() <= s.view.pages.pfns@.len() * page_size
    &&& s.view.bytes@ == resized(
        gather(file, s.view.pages.pfns@, page_size),
        s.view.bytes@.len(),
    )
}

/// A stream as read from the directory holds what its pages hold and needs
/// no new pages.
pub proof fn lemma_read_stream_unchanged(s: Stream, d: Seq<u8>, page_size: nat, file: Seq<u8>, i: nat)
    requires
        page_size > 0,
        stream_read(s, d, page_size, file, i),
        pages_in_range(stream_pfns(d, page_size, i), page_size, file.len()),
    ensures
        stream_unchanged(s, file, page_size),
{
    let size = stream_size_at(d, i as int);
    if size == INVALID_STREAM_SIZE {
        reveal_with_fuel(gather, 1);
        assert(s.view.pages.pfns@.len() == 0);
        assert(resized(gather(file, s.view.pages.pfns@, page_size), 0) =~= Seq::<u8>::empty());
    } else {
        crate::view::lemma_ceil_div_covers(size as nat, page_size);
        crate::view::lemma_gather_len(file, s.view.pages.pfns@, page_size);
    }
}

/// Flushing streams that hold what their pages hold, and need no new
/// pages, leaves the file and its page count as they were.
pub proof fn lemma_unchanged_streams_keep_file(
    streams: Seq<Stream>,
    file: Seq<u8>,
    num_pages: nat,
    page_size: nat,
    i: nat,
)
    requires
        page_size > 0,
        i <= streams.len(),
        forall|j: int| 0 <= j < streams.len() ==> stream_unchanged(#[trigger] streams[j], file, page_size),
    ensures
        file_after(streams, file, num_pages, i) == file,
        np_after(streams, num_pages, i) == num_pages,
    decreases i,
{
    reveal_with_fuel(file_after, 1);
    reveal_with_fuel(np_after, 1);
    if i > 0 {
        lemma_unchanged_streams_keep_file(streams, file, num_pages, page_size, (i - 1) as nat);
        let v = streams[i - 1].view;
        assert(stream_unchanged(streams[i - 1], file, page_size));
        reveal(growth);
        reveal(flushed_file);
        reveal(flushed_pfns);
        assert(growth(v.bytes@.len(), v.pages.pfns@.len(), page_size) == 0);
        assert(tail_pfns(num_pages, 0) =~= Seq::<u32>::empty());
        assert(v.pages.pfns@ + tail_pfns(num_pages, 0) =~= v.pages.pfns@);
        assert(file + zeros(0) =~= file);
        crate::view::lemma_flush_unchanged_view(file, v.pages.pfns@, page_size, v.bytes@.len());
    }
}

/// A run of `m` page numbers read from `d` at `base` writes back as the
/// bytes it was read from.
pub proof fn lemma_pfns_bytes_of_run(d: Seq<u8>, base: int, m: nat)
    requires
        0 <= base,
        base + 4 * m <= d.len(),
    ensures
        pfns_bytes(Seq::new(m, |k: int| u32_at(d, base + 4 * k))) == d.subrange(base, base + 4 * m),
    decreases m,
{
    reveal_with_fuel(pfns_bytes, 1);
    let run = Seq::new(m, |k: int| u32_at(d, base + 4 * k));
    if m > 0 {
        let prev = Seq::new((m - 1) as nat, |k: int| u32_at(d, base + 4 * k));
        assert(run.drop_last() =~= prev);
        lemma_pfns_bytes_of_run(d, base, (m - 1) as nat);
        crate::codec::lemma_u32_le_of_at(d, base + 4 * (m - 1));
        assert(d.subrange(base, base + 4 * (m - 1)) + d.subrange(base + 4 * (m - 1), base + 4 * m)
            =~= d.subrange(base, base + 4 * m));
    } else {
        assert(d.subrange(base, base) =~= Seq::<u8>::empty());
    }
}

/// Streams read from a directory record whose sizes are never zero, and
/// which ends with its last page list, write back as that very record.
pub proof fn lemma_directory_record_round_trip(
    streams: Seq<Stream>,
    d: Seq<u8>,
    page_size: nat,
    file: Seq<u8>,
)
    requires
        page_size > 0,
        directory_complete(d, page_size),
        d.len() == pfn_table_start(d, page_size, stream_count(d)),
        streams.len() == stream_count(d),
        forall|i: int|
            0 <= i < streams.len() ==> stream_read(#[trigger] streams[i], d, page_size, file, i as nat),
        forall|i: int| 0 <= i < streams.len() ==> stream_size_at(d, i) != 0,
    ensures
        directory_bytes(streams) == d,
{
    reveal(directory_bytes);
    let n = streams.len();
    lemma_pfn_table_start_grows(d, page_size, 0, n);
    lemma_sizes_round_trip(streams, d, page_size, file, n);
    lemma_tables_round_trip(streams, d, page_size, file, n);
    assert(streams.take(n as int) =~= streams);
    crate::codec::lemma_u32_le_of_at(d, 0);
    assert(n as u32 == u32_at(d, 0));
    assert(d.subrange(0, 4) + d.subrange(4, (4 + 4 * n) as int) + d.subrange(
        (4 + 4 * n) as int,
        pfn_table_start(d, page_size, n) as int,
    ) =~= d);
}

/// The sizes of streams read from `d` write back as the bytes they were
/// read from.
proof fn lemma_sizes_round_trip(streams: Seq<Stream>, d: Seq<u8>, page_size: nat, file: Seq<u8>, i: nat)
    requires
        directory_complete(d, page_size),
        streams.len() == stream_count(d),
        i <= streams.len(),
        forall|j: int|
            0 <= j < streams.len() ==> stream_read(#[trigger] streams[j], d, page_size, file, j as nat),
        forall|j: int| 0 <= j < streams.len() ==> stream_size_at(d, j) != 0,
    ensures
        sizes_bytes(streams.take(i as int)) == d.subrange(4, (4 + 4 * i) as int),
    decreases i,
{
    reveal_with_fuel(sizes_bytes, 1);
    lemma_pfn_table_start_grows(d, page_size, 0, stream_count(d));
    if i > 0 {
        lemma_sizes_round_trip(streams, d, page_size, file, (i - 1) as nat);
        assert(streams.take(i as int).drop_last() =~= streams.take(i - 1));
        let s = streams[i - 1];
        assert(stream_read(s, d, page_size, file, (i - 1) as nat));
        assert(size_entry(s) == stream_size_at(d, i - 1));
        crate::codec::lemma_u32_le_of_at(d, 4 + 4 * (i - 1));
        assert(d.subrange(4, 4 + 4 * (i - 1)) + d.subrange(4 + 4 * (i - 1), (4 + 4 * i) as int) =~= d.subrange(
            4,
            (4 + 4 * i) as int,
        ));
    } else {
        assert(d.subrange(4, 4) =~= Seq::<u8>::empty());
    }
}

/// The page lists of streams read from `d` write back as the bytes they
/// were read from.
proof fn lemma_tables_round_trip(streams: Seq<Stream>, d: Seq<u8>, page_size: nat, file: Seq<u8>, i: nat)
    requires
        directory_complete(d, page_size),
        streams.len() == stream_count(d),
        i <= streams.len(),
        forall|j: int|
            0 <= j < streams.len() ==> stream_read(#[trigger] streams[j], d, page_size, file, j as nat),
    ensures
        tables_bytes(streams.take(i as int)) == d.subrange(
            (4 + 4 * streams.len()) as int,
            pfn_table_start(d, page_size, i) as int,
        ),
    decreases i,
{
    reveal_with_fuel(tables_bytes, 1);
    let n = streams.len();
    lemma_pfn_table_start_grows(d, page_size, i, n);
    if i > 0 {
        lemma_tables_round_trip(streams, d, page_size, file, (i - 1) as nat);
        assert(streams.take(i as int).drop_last() =~= streams.take(i - 1));
        let s = streams[i - 1];
        assert(stream_read(s, d, page_size, file, (i - 1) as nat));
        let base = pfn_table_start(d, page_size, (i - 1) as nat);
        let m = pages_of_size(stream_size_at(d, i - 1), page_size);
        lemma_pfn_table_start_grows(d, page_size, 0, (i - 1) as nat);
        lemma_pfns_bytes_of_run(d, base as int, m);
        assert(s.view.pages.pfns@ =~= Seq::new(m, |k: int| u32_at(d, base + 4 * k)));
        assert(d.subrange((4 + 4 * n) as int, base as int) + d.subrange(base as int, (base + 4 * m) as int) =~= d.subrange(
            (4 + 4 * n) as int,
            pfn_table_start(d, page_size, i) as int,
        ));
    } else {
        assert(d.subrange((4 + 4 * n) as int, (4 + 4 * n) as int) =~= Seq::<u8>::empty());
    }
}

/// A stream recorded as nil lists no pages and reads as no bytes.
pub proof fn lemma_nil_stream_has_no_pages(d: Seq<u8>, page_size: nat, file: Seq<u8>, i: nat)
    requires
        stream_size_at(d, i as int) == INVALID_STREAM_SIZE,
    ensures
        stream_pfns(d, page_size, i).len() == 0,
        stream_bytes(d, page_size, file, i) == Seq::<u8>::empty(),
        pfn_table_start(d, page_size, i + 1) == pfn_table_start(d, page_size, i),
{
}

/// A stream with no bytes and no pages is written as nil, with no page
/// numbers.
pub proof fn lemma_empty_stream_written_as_nil(s: Stream)
    requires
        s.view.bytes@.len() == 0,
        s.view.pages.pfns@.len() == 0,
    ensures
        size_entry(s) == INVALID_STREAM_SIZE,
        pfns_bytes(s.view.pages.pfns@) == Seq::<u8>::empty(),
{
    reveal_with_fuel(pfns_bytes, 1);
}

/// Whether `index` refers to a stream at all.
pub fn is_valid_stream_index(index: u16) -> (r: bool)
    ensures
        r == (index != INVALID_STREAM_INDEX),
{
    index != INVALID_STREAM_INDEX
}

/// One stream: its size as recorded when it was read, and its bytes.
#[derive(Debug, Clone)]
pub struct Stream {
    /// Size recorded in the directory when the stream was read.
    pub original_stream_size: u32,
    /// The stream's bytes and pages.
    pub view: SourceView,
}

impl Default for Stream {
    fn default() -> (r: Stream)
        ensures
            r.original_stream_size == 0,
            r.view.bytes@ == Seq::<u8>::empty(),
            r.view.pages.page_size == 0,
            r.view.pages.pfns@ == Seq::<u32>::empty(),
    {
        Stream { original_stream_size: 0, view: SourceView::default() }
    }
}

/// Stream `s` is stream `i` of directory bytes `d` read from `file`.
pub open spec fn stream_read(s: Stream, d: Seq<u8>, page_size: nat, file: Seq<u8>, i: nat) -> bool {
    &&& s.original_stream_size == stream_size_at(d, i as int)
    &&& s.view.pages.page_size == page_size
    &&& s.view.pages.pfns@ == stream_pfns(d, page_size, i)
    &&& s.view.bytes@ == stream_bytes(d, page_size, file, i)
}

/// The size recorded for a stream when the directory is written.
pub open spec fn size_entry(s: Stream) -> u32 {
    if s.view.bytes@.len() == 0 {
        INVALID_STREAM_SIZE
    } else {
        s.view.bytes@.len() as u32
    }
}

/// The recorded sizes of `streams`, in order.
#[verifier::opaque]
pub open spec fn sizes_bytes(streams: Seq<Stream>) -> Seq<u8>
    decreases streams.len(),
{
    if streams.len() == 0 {
        Seq::empty()
    } else {
        sizes_bytes(streams.drop_last()) + u32_le(size_entry(streams.last()))
    }
}

/// Page numbers as consecutive little-endian integers.
#[verifier::opaque]
pub open spec fn pfns_bytes(pfns: Seq<u32>) -> Seq<u8>
    decreases pfns.len(),
{
    if pfns.len() == 0 {
        Seq::empty()
    } else {
        pfns_bytes(pfns.drop_last()) + u32_le(pfns.last())
    }
}

/// The page lists of `streams`, one after another.
#[verifier::opaque]
pub open spec fn tables_bytes(streams: Seq<Stream>) -> Seq<u8>
    decreases streams.len(),
{
    if streams.len() == 0 {
        Seq::empty()
    } else {
        tables_bytes(streams.drop_last()) + pfns_bytes(streams.last().view.pages.pfns@)
    }
}

/// Number of pages listed for `streams` in all.
#[verifier::opaque]
pub open spec fn pfn_count(streams: Seq<Stream>) -> nat
    decreases streams.len(),
{
    if streams.len() == 0 {
        0
    } else {
        pfn_count(streams.drop_last()) + streams.last().view.pages.pfns@.len()
    }
}

/// The directory record for `streams`: their number, their sizes, then their
/// page lists.
#[verifier::opaque]
pub open spec fn directory_bytes(streams: Seq<Stream>) -> Seq<u8> {
    u32_le(streams.len() as u32) + sizes_bytes(streams) + tables_bytes(streams)
}

/// Length of the directory record for `streams`.
pub open spec fn directory_size(streams: Seq<Stream>) -> nat {
    4 + 4 * streams.len() + 4 * pfn_count(streams)
}

/// The page count after the first `i` streams are flushed into a file of
/// `num_pages` pages.
#[verifier::opaque]
pub open spec fn np_after(streams: Seq<Stream>, num_pages: nat, i: nat) -> nat
    decreases i,
{
    if i == 0 {
        num_pages
    } else {
        let v = streams[i - 1].view;
        np_after(streams, num_pages, (i - 1) as nat) + growth(
            v.bytes@.len(),
            v.pages.pfns@.len(),
            v.pages.page_size as nat,
        )
    }
}

/// The file after the first `i` streams are flushed into it.
#[verifier::opaque]
pub open spec fn file_after(streams: Seq<Stream>, file: Seq<u8>, num_pages: nat, i: nat) -> Seq<u8>
    decreases i,
{
    if i == 0 {
        file
    } else {
        let v = streams[i - 1].view;
        flushed_file(
            file_after(streams, file, num_pages, (i - 1) as nat),
            v.pages.pfns@,
            v.pages.page_size as nat,
            v.bytes@,
            np_after(streams, num_pages, (i - 1) as nat),
        )
    }
}

/// Each of the first `n` streams fits the format's limits when its turn to
/// be flushed comes.
pub open spec fn streams_fit(streams: Seq<Stream>, num_pages: nat, n: nat) -> bool {
    forall|j: int|
        0 <= j < n ==> fits_flush(
            (#[trigger] streams[j]).view.bytes@.len(),
            streams[j].view.pages.pfns@,
            streams[j].view.pages.page_size as nat,
            np_after(streams, num_pages, j as nat),
        )
}

/// `new` is `old` after flushing it into a file of `num_pages` pages.
pub open spec fn stream_flushed(new: Stream, old: Stream, num_pages: nat) -> bool {
    &&& new.original_stream_size == old.original_stream_size
    &&& new.view.bytes@ == old.view.bytes@
    &&& new.view.pages.page_size == old.view.pages.page_size
    &&& new.view.pages.pfns@ == flushed_pfns(
        old.view.pages.pfns@,
        old.view.bytes@.len(),
        old.view.pages.page_size as nat,
        num_pages,
    )
}

/// Setting the page count leaves the other fields the contracts read.
pub proof fn lemma_with_num_pages(h: Seq<u8>, v: u32)
    requires
        h.len() == MSF_HEADER_SIZE,
    ensures
        with_num_pages(h, v).len() == MSF_HEADER_SIZE,
        num_pages_of(with_num_pages(h, v)) == v,
        page_size_of(with_num_pages(h, v)) == page_size_of(h),
        stream_block_map_of(with_num_pages(h, v)) == stream_block_map_of(h),
{
    lemma_u32_round_trip(h, NUM_PAGES_OFFSET as int, v);
    lemma_u32_splice_other(h, NUM_PAGES_OFFSET as int, u32_le(v), PAGE_SIZE_OFFSET as int);
    lemma_u32_splice_other(h, NUM_PAGES_OFFSET as int, u32_le(v), STREAM_BLOCK_MAP_OFFSET as int);
}

/// Superblock `h` with its directory size set to `v`.
#[verifier::opaque]
pub open spec fn with_dir_size(h: Seq<u8>, v: u32) -> Seq<u8> {
    splice(h, STREAM_DIR_SIZE_OFFSET as int, u32_le(v))
}

/// The superblock after the directory record is written: its size first,
/// then possibly a new page count.
pub proof fn lemma_record_header(h0: Seq<u8>, dsz: u32, np1: u32, h2: Seq<u8>, h3: Seq<u8>)
    requires
        h0.len() == MSF_HEADER_SIZE,
        h2 == with_dir_size(h0, dsz),
        h3 == h2 || h3 == with_num_pages(h2, np1),
        num_pages_of(h3) == np1,
    ensures
        h3 == with_dir_size(with_num_pages(h0, np1), dsz),
{
    reveal(with_dir_size);
    lemma_u32_splice_other(h0, STREAM_DIR_SIZE_OFFSET as int, u32_le(dsz), NUM_PAGES_OFFSET as int);
    if h3 == h2 {
        lemma_u32_splice_same(h0, NUM_PAGES_OFFSET as int);
        assert(with_num_pages(h0, np1) == h0);
    } else {
        assert(h3 =~= with_dir_size(with_num_pages(h0, np1), dsz));
    }
}

/// Flushes stream `i` where it fits the format's limits; otherwise changes
/// nothing.
fn flush_stream_at(
    streams: &mut Vec<Stream>,
    i: usize,
    buff: &mut Vec<u8>,
    header: &mut MsfBigHeaderMut<'_>,
) -> (ok: bool)
    requires
        i < old(streams)@.len(),
        old(header).wf(),
        old(streams)@[i as int].view.pages.page_size > 0,
        page_size_of(old(header)@) == old(streams)@[i as int].view.pages.page_size,
        covers(old(header)@, old(buff)@.len()),
        pages_in_range(
            old(streams)@[i as int].view.pages.pfns@,
            old(streams)@[i as int].view.pages.page_size as nat,
            old(buff)@.len(),
        ),
    ensures
        ({
            let v = old(streams)@[i as int].view;
            let np = num_pages_of(old(header)@) as nat;
            let g = growth(
                v.bytes@.len(),
                v.pages.pfns@.len(),
                v.pages.page_size as nat,
            );
            &&& ok == fits_flush(v.bytes@.len(), v.pages.pfns@, v.pages.page_size as nat, np)
            &&& final(final(header).ptr)@ == final(old(header).ptr)@
            &&& final(header).wf()
            &&& ok ==> {
                &&& final(streams)@.len() == old(streams)@.len()
                &&& stream_flushed(final(streams)@[i as int], old(streams)@[i as int], np)
                &&& forall|j: int|
                    0 <= j < old(streams)@.len() && j != i ==> #[trigger] final(streams)@[j] == old(
                        streams,
                    )@[j]
                &&& final(buff)@ == flushed_file(
                    old(buff)@,
                    v.pages.pfns@,
                    v.pages.page_size as nat,
                    v.bytes@,
                    np,
                )
                &&& final(buff)@.len() >= old(buff)@.len()
                &&& final(header)@ == (if g > 0 {
                    with_num_pages(old(header)@, (np + g) as u32)
                } else {
                    old(header)@
                })
                &&& np + g <= u32::MAX
                &&& covers(final(header)@, final(buff)@.len())
            }
        }),
{
    streams[i].view.try_flush(buff, header)
}

/// The page that lists the directory's pages lies within a file of `len`
/// bytes.
#[verifier::opaque]
pub open spec fn block_map_in_range(h: Seq<u8>, len: nat) -> bool {
    stream_block_map_of(h) * page_size_of(h) + page_size_of(h) <= len
}

/// `file` with the page at `off` cleared and the directory's pages listed
/// from its start.
#[verifier::opaque]
pub open spec fn block_map_written(file: Seq<u8>, off: int, page_size: nat, pfns: Seq<u32>) -> Seq<u8> {
    splice(splice(file, off, zeros(page_size)), off, pfns_bytes(pfns))
}

/// Four bytes for each page number.
pub proof fn lemma_pfns_bytes_len(pfns: Seq<u32>)
    ensures
        pfns_bytes(pfns).len() == 4 * pfns.len(),
    decreases pfns.len(),
{
    reveal_with_fuel(sizes_bytes, 1);
    reveal_with_fuel(pfns_bytes, 1);
    reveal_with_fuel(tables_bytes, 1);
    reveal_with_fuel(pfn_count, 1);
    if pfns.len() > 0 {
        lemma_pfns_bytes_len(pfns.drop_last());
    }
}

/// Four bytes for each size and for each listed page.
pub proof fn lemma_directory_bytes_len(streams: Seq<Stream>)
    ensures
        sizes_bytes(streams).len() == 4 * streams.len(),
        tables_bytes(streams).len() == 4 * pfn_count(streams),
    decreases streams.len(),
{
    reveal_with_fuel(sizes_bytes, 1);
    reveal_with_fuel(pfns_bytes, 1);
    reveal_with_fuel(tables_bytes, 1);
    reveal_with_fuel(pfn_count, 1);
    if streams.len() > 0 {
        lemma_directory_bytes_len(streams.drop_last());
        lemma_pfns_bytes_len(streams.last().view.pages.pfns@);
    }
}

/// The pages of a prefix of `streams` are no more than those of all of them.
pub proof fn lemma_pfn_count_prefix(streams: Seq<Stream>, i: int)
    requires
        0 <= i <= streams.len(),
    ensures
        pfn_count(streams.take(i)) <= pfn_count(streams),
    decreases streams.len() - i,
{
    reveal_with_fuel(sizes_bytes, 1);
    reveal_with_fuel(pfns_bytes, 1);
    reveal_with_fuel(tables_bytes, 1);
    reveal_with_fuel(pfn_count, 1);
    if i < streams.len() {
        assert(streams.take(i + 1).drop_last() =~= streams.take(i));
        lemma_pfn_count_prefix(streams, i + 1);
    } else {
        assert(streams.take(i) =~= streams);
    }
}

/// Writes the directory record for `streams`, or nothing where it would not
/// fit the format's 32-bit size.
pub fn serialize_directory(streams: &Vec<Stream>) -> (r: Option<Vec<u8>>)
    ensures
        r is Some <==> directory_size(streams@) <= u32::MAX,
        r matches Some(b) ==> b@ == directory_bytes(streams@),
{
    reveal(directory_bytes);
    reveal_with_fuel(sizes_bytes, 1);
    reveal_with_fuel(pfns_bytes, 1);
    reveal_with_fuel(tables_bytes, 1);
    reveal_with_fuel(pfn_count, 1);
    let n = streams.len();
    if n > 0x3FFF_FFFE {
        return None;
    }
    let mut total: u64 = 4 + 4 * n as u64;
    let mut i: usize = 0;
    while i < n
        invariant
            i <= n == streams@.len() <= 0x3FFF_FFFE,
            total == 4 + 4 * n + 4 * pfn_count(streams@.take(i as int)),
            total <= 0xFFFF_FFFF,
        decreases n - i,
    {
        reveal_with_fuel(sizes_bytes, 1);
        reveal_with_fuel(pfns_bytes, 1);
        reveal_with_fuel(tables_bytes, 1);
        reveal_with_fuel(pfn_count, 1);
        let k = streams[i].view.pages.pfns.len();
        assert(streams@.take(i + 1).drop_last() =~= streams@.take(i as int));
        if k > 0x3FFF_FFFF || total + 4 * k as u64 > 0xFFFF_FFFF {
            proof {
                lemma_pfn_count_prefix(streams@, i + 1);
            }
            return None;
        }
        total = total + 4 * k as u64;
        i = i + 1;
    }
    assert(streams@.take(n as int) =~= streams@);
    let mut out: Vec<u8> = Vec::new();
    push_u32(&mut out, n as u32);
    let mut i: usize = 0;
    assert(streams@.take(0) =~= Seq::<Stream>::empty());
    while i < n
        invariant
            i <= n == streams@.len(),
            out@ == u32_le(n as u32) + sizes_bytes(streams@.take(i as int)),
        decreases n - i,
    {
        reveal_with_fuel(sizes_bytes, 1);
        reveal_with_fuel(pfns_bytes, 1);
        reveal_with_fuel(tables_bytes, 1);
        reveal_with_fuel(pfn_count, 1);
        let len = streams[i].view.bytes.len();
        let entry: u32 = if len == 0 {
            INVALID_STREAM_SIZE
        } else {
            len as u32
        };
        assert(streams@.take(i + 1).drop_last() =~= streams@.take(i as int));
        push_u32(&mut out, entry);
        i = i + 1;
    }
    let ghost head = out@;
    let mut i: usize = 0;
    while i < n
        invariant
            i <= n == streams@.len(),
            head == u32_le(n as u32) + sizes_bytes(streams@),
            out@ == head + tables_bytes(streams@.take(i as int)),
        decreases n - i,
    {
        reveal_with_fuel(sizes_bytes, 1);
        reveal_with_fuel(pfns_bytes, 1);
        reveal_with_fuel(tables_bytes, 1);
        reveal_with_fuel(pfn_count, 1);
        let pfns = &streams[i].view.pages.pfns;
        let m = pfns.len();
        let ghost before = out@;
        let mut k: usize = 0;
        assert(pfns@.take(0) =~= Seq::<u32>::empty());
        assert(before + pfns_bytes(pfns@.take(0)) =~= before);
        while k < m
            invariant
                k <= m == pfns@.len(),
                out@ == before + pfns_bytes(pfns@.take(k as int)),
            decreases m - k,
        {
            reveal_with_fuel(sizes_bytes, 1);
            reveal_with_fuel(pfns_bytes, 1);
            reveal_with_fuel(tables_bytes, 1);
            reveal_with_fuel(pfn_count, 1);
            assert(pfns@.take(k + 1).drop_last() =~= pfns@.take(k as int));
            push_u32(&mut out, pfns[k]);
            assert(out@ =~= before + pfns_bytes(pfns@.take(k + 1)));
            k = k + 1;
        }
        assert(pfns@.take(m as int) =~= pfns@);
        assert(streams@.take(i + 1).drop_last() =~= streams@.take(i as int));
        assert(out@ =~= head + tables_bytes(streams@.take(i + 1)));
        i = i + 1;
    }
    assert(streams@.take(n as int) =~= streams@);
    Some(out)
}

/// Clears the page at `off` and lists `pfns` from its start.
fn write_block_map(buff: &mut Vec<u8>, off: usize, page_size: u32, pfns: &Vec<u32>)
    requires
        off + page_size <= old(buff)@.len(),
        4 * pfns@.len() <= page_size,
    ensures
        final(buff)@ == block_map_written(old(buff)@, off as int, page_size as nat, pfns@),
        final(buff)@.len() == old(buff)@.len(),
{
    reveal(block_map_written);
    reveal_with_fuel(sizes_bytes, 1);
    reveal_with_fuel(pfns_bytes, 1);
    reveal_with_fuel(tables_bytes, 1);
    reveal_with_fuel(pfn_count, 1);
    let blen = buff.len();
    let mut k: usize = 0;
    while k < page_size as usize
        invariant
            k <= page_size,
            off + page_size <= blen,
            buff@.len() == blen == old(buff)@.len(),
            buff@ == splice(old(buff)@, off as int, zeros(k as nat)),
        decreases page_size - k,
    {
        reveal_with_fuel(sizes_bytes, 1);
        reveal_with_fuel(pfns_bytes, 1);
        reveal_with_fuel(tables_bytes, 1);
        reveal_with_fuel(pfn_count, 1);
        buff.set(off + k, 0);
        assert(buff@ =~= splice(old(buff)@, off as int, zeros((k + 1) as nat)));
        k = k + 1;
    }
    let ghost cleared = buff@;
    let m = pfns.len();
    let mut k: usize = 0;
    assert(pfns@.take(0) =~= Seq::<u32>::empty());
    assert(splice(cleared, off as int, pfns_bytes(pfns@.take(0))) =~= cleared);
    while k < m
        invariant
            k <= m == pfns@.len(),
            4 * m <= page_size,
            off + page_size <= blen,
            buff@.len() == blen == cleared.len(),
            buff@ == splice(cleared, off as int, pfns_bytes(pfns@.take(k as int))),
        decreases m - k,
    {
        reveal_with_fuel(sizes_bytes, 1);
        reveal_with_fuel(pfns_bytes, 1);
        reveal_with_fuel(tables_bytes, 1);
        reveal_with_fuel(pfn_count, 1);
        assert(pfns@.take(k + 1).drop_last() =~= pfns@.take(k as int));
        proof {
            lemma_pfns_bytes_len(pfns@.take(k as int));
        }
        write_u32(buff.as_mut_slice(), off + 4 * k, pfns[k]);
        assert(buff@ =~= splice(cleared, off as int, pfns_bytes(pfns@.take(k + 1))));
        k = k + 1;
    }
    assert(pfns@.take(m as int) =~= pfns@);
}

/// Pages listed for the first `i` streams once they are flushed, in order,
/// into a file of `num_pages` pages.
pub open spec fn flushed_pfn_count(streams: Seq<Stream>, num_pages: nat, i: nat) -> nat
    decreases i,
{
    if i == 0 {
        0
    } else {
        let v = streams[i - 1].view;
        flushed_pfn_count(streams, num_pages, (i - 1) as nat) + flushed_pfns(
            v.pages.pfns@,
            v.bytes@.len(),
            v.pages.page_size as nat,
            np_after(streams, num_pages, (i - 1) as nat),
        ).len()
    }
}

/// Flushing directory `old` into file `f0` with superblock `h0` succeeds:
/// the page that lists the directory's pages exists, every stream and the
/// directory fit the format's limits, and the directory's page list fits in
/// one page.
#[verifier::opaque]
pub open spec fn commit_succeeds(old: StreamDirectory, h0: Seq<u8>, f0: Seq<u8>) -> bool {
    let s0 = old.streams@;
    let np0 = num_pages_of(h0) as nat;
    let ps = page_size_of(h0) as nat;
    let nps = np_after(s0, np0, s0.len());
    let dsz = 4 + 4 * s0.len() + 4 * flushed_pfn_count(s0, np0, s0.len());
    let dir_pfns = old.view.pages.pfns@;
    &&& block_map_in_range(h0, f0.len())
    &&& streams_fit(s0, np0, s0.len())
    &&& dsz <= u32::MAX
    &&& fits_flush(dsz, dir_pfns, ps, nps)
    &&& 4 * flushed_pfns(dir_pfns, dsz, ps, nps).len() <= ps
}

/// The flushed streams list as many pages as `flushed_pfn_count` counts.
pub proof fn lemma_flushed_pfn_count(s0: Seq<Stream>, s1: Seq<Stream>, num_pages: nat, i: nat)
    requires
        s1.len() == s0.len(),
        i <= s0.len(),
        forall|j: int|
            0 <= j < s0.len() ==> stream_flushed(
                #[trigger] s1[j],
                s0[j],
                np_after(s0, num_pages, j as nat),
            ),
    ensures
        pfn_count(s1.take(i as int)) == flushed_pfn_count(s0, num_pages, i),
    decreases i,
{
    reveal_with_fuel(pfn_count, 1);
    if i > 0 {
        lemma_flushed_pfn_count(s0, s1, num_pages, (i - 1) as nat);
        assert(s1.take(i as int).drop_last() =~= s1.take(i - 1));
        assert(stream_flushed(s1[i - 1], s0[i - 1], np_after(s0, num_pages, (i - 1) as nat)));
    }
}

/// `new` and the file `f1` with superblock `h1` are what flushing directory
/// `old` into file `f0` with superblock `h0` yields.
#[verifier::opaque]
pub open spec fn directory_flushed(
    old: StreamDirectory,
    new: StreamDirectory,
    h0: Seq<u8>,
    f0: Seq<u8>,
    h1: Seq<u8>,
    f1: Seq<u8>,
) -> bool {
    let s0 = old.streams@;
    let np0 = num_pages_of(h0) as nat;
    let ps = page_size_of(h0) as nat;
    let n = s0.len();
    let nps = np_after(s0, np0, n);
    let s1 = new.streams@;
    let dsz = directory_size(s1);
    let dir_pfns = old.view.pages.pfns@;
    let new_dir_pfns = flushed_pfns(dir_pfns, dsz, ps, nps);
    let np1 = nps + growth(dsz, dir_pfns.len(), ps);
    &&& s1.len() == n
    &&& forall|j: int|
        0 <= j < n ==> stream_flushed(#[trigger] s1[j], s0[j], np_after(s0, np0, j as nat))
    &&& new.view.bytes@ == directory_bytes(s1)
    &&& new.view.pages.page_size == ps
    &&& new.view.pages.pfns@ == new_dir_pfns
    &&& h1 == with_dir_size(with_num_pages(h0, np1 as u32), dsz as u32)
    &&& f1 == block_map_written(
        flushed_file(file_after(s0, f0, np0, n), dir_pfns, ps, directory_bytes(s1), nps),
        stream_block_map_of(h0) * ps,
        ps,
        new_dir_pfns,
    )
}

/// Every stream, in index order, and the directory's own view.
#[derive(Debug, Clone)]
pub struct StreamDirectory {
    /// The streams; a stream's index is its position.
    pub streams: Vec<Stream>,
    /// The directory's own bytes and pages.
    pub view: SourceView,
}

impl StreamDirectory {
    /// Reads every stream that the directory bytes in `view` describe from
    /// the file bytes `bytes`.
    #[verifier::loop_isolation(false)]
    pub fn new(bytes: &[u8], view: SourceView, header: &MsfBigHeader<'_>) -> (r: Result<
        StreamDirectory,
        MsfError,
    >)
        requires
            header.wf(),
            page_size_of(header@) > 0,
        ensures
            r is Ok <==> directory_complete(view.bytes@, page_size_of(header@) as nat)
                && streams_in_range(view.bytes@, page_size_of(header@) as nat, bytes@.len()),
            r matches Err(e) ==> (e == MsfError::ParseError && !directory_complete(
                view.bytes@,
                page_size_of(header@) as nat,
            )) || (e == MsfError::OutOfRangePfn && directory_complete(
                view.bytes@,
                page_size_of(header@) as nat,
            )),
            r matches Ok(dir) ==> {
                &&& dir.view == view
                &&& dir.streams@.len() == stream_count(view.bytes@)
                &&& forall|i: int|
                    0 <= i < dir.streams@.len() ==> stream_read(
                        #[trigger] dir.streams@[i],
                        view.bytes@,
                        page_size_of(header@) as nat,
                        bytes@,
                        i as nat,
                    )
            },
    {
        let ps = header.get_page_size();
        let ghost d = view.bytes@;
        let ghost psn = ps as nat;
        let buff = view.as_slice();
        let num = match try_read_u32(buff, 0) {
            Some(n) => n,
            None => return Err(MsfError::ParseError),
        };
        let slen = buff.len();
        let blen = slen as u64;
        if blen < 4 + 4 * num as u64 {
            proof {
                lemma_pfn_table_start_grows(d, psn, 0, num as nat);
            }
            return Err(MsfError::ParseError);
        }
        // Check that every page list lies within the directory bytes.
        let mut off: u64 = 4 + 4 * num as u64;
        let mut i: u32 = 0;
        while i < num
            invariant
                i <= num,
                num == stream_count(d),
                blen == d.len() == slen,
                buff@ == d,
                ps == psn,
                psn > 0,
                4 + 4 * num <= blen,
                off == pfn_table_start(d, psn, i as nat),
                off <= blen,
            decreases num - i,
        {
            let size = read_u32(buff, 4 + 4 * i as usize);
            let np: u32 = if size == INVALID_STREAM_SIZE {
                0
            } else {
                pages_for(size, ps)
            };
            assert(pfn_table_start(d, psn, (i + 1) as nat) == off + 4 * np);
            if 4 * (np as u64) > blen - off {
                proof {
                    lemma_pfn_table_start_grows(d, psn, (i + 1) as nat, num as nat);
                    assert(pfn_table_start(d, psn, stream_count(d)) > d.len());
                }
                return Err(MsfError::ParseError);
            }
            off = off + 4 * np as u64;
            i = i + 1;
        }
        assert(directory_complete(d, psn));
        // Read each stream's pages.
        let mut streams: Vec<Stream> = Vec::new();
        let mut i: u32 = 0;
        let mut off: usize = 4 + 4 * num as usize;
        while i < num
            invariant
                i <= num,
                num == stream_count(d),
                blen == d.len() == slen,
                buff@ == d,
                ps == psn,
                psn > 0,
                directory_complete(d, psn),
                4 + 4 * num <= slen,
                off == pfn_table_start(d, psn, i as nat),
                streams@.len() == i,
                forall|j: nat| j < i ==> pages_in_range(#[trigger] stream_pfns(d, psn, j), psn, bytes@.len()),
                forall|j: int|
                    0 <= j < i ==> stream_read(#[trigger] streams@[j], d, psn, bytes@, j as nat),
            decreases num - i,
        {
            proof {
                lemma_pfn_table_start_grows(d, psn, (i + 1) as nat, num as nat);
            }
            let size = read_u32(buff, 4 + 4 * i as usize);
            let np: u32 = if size == INVALID_STREAM_SIZE {
                0
            } else {
                pages_for(size, ps)
            };
            assert(pfn_table_start(d, psn, (i + 1) as nat) == off + 4 * np);
            let mut pages = PageList::new(ps);
            let mut k: u32 = 0;
            while k < np
                invariant
                    k <= np,
                    np == pages_of_size(stream_size_at(d, i as int), psn),
                    buff@ == d,
                    d.len() == slen,
                    off + 4 * np <= d.len(),
                    off == pfn_table_start(d, psn, i as nat),
                    pages.page_size == ps,
                    pages.pfns@ == stream_pfns(d, psn, i as nat).subrange(0, k as int),
                decreases np - k,
            {
                let pfn = read_u32(buff, off + 4 * k as usize);
                pages.push(pfn);
                assert(pages.pfns@ =~= stream_pfns(d, psn, i as nat).subrange(0, k + 1));
                k = k + 1;
            }
            assert(pages.pfns@ =~= stream_pfns(d, psn, i as nat));
            let sv = if size == INVALID_STREAM_SIZE {
                SourceView { bytes: Vec::new(), pages }
            } else {
                match SourceView::with_size(bytes, pages, size as usize) {
                    Some(v) => v,
                    None => {
                        assert(!streams_in_range(d, psn, bytes@.len()));
                        return Err(MsfError::OutOfRangePfn);
                    },
                }
            };
            assert(pages_in_range(stream_pfns(d, psn, i as nat), psn, bytes@.len()));
            streams.push(Stream { original_stream_size: size, view: sv });
            off = off + 4 * np as usize;
            i = i + 1;
        }
        assert(streams_in_range(d, psn, bytes@.len()));
        Ok(StreamDirectory { streams, view })
    }

    /// The stream at `index`.
    pub fn get_stream(&self, index: u16) -> (r: Result<&Stream, MsfError>)
        ensures
            r is Ok <==> index != INVALID_STREAM_INDEX && index < self.streams@.len(),
            r matches Err(e) ==> e == MsfError::InvalidStreamIndex,
            r matches Ok(s) ==> *s == self.streams@[index as int],
    {
        if index == INVALID_STREAM_INDEX || index as usize >= self.streams.len() {
            return Err(MsfError::InvalidStreamIndex);
        }
        Ok(&self.streams[index as usize])
    }

    /// Replaces the stream at `index`.
    pub fn set_stream(&mut self, index: u16, stream: Stream) -> (r: Result<(), MsfError>)
        ensures
            r is Ok <==> index != INVALID_STREAM_INDEX && index < old(self).streams@.len(),
            r matches Err(e) ==> e == MsfError::InvalidStreamIndex && *final(self) == *old(self),
            r is Ok ==> final(self).streams@ == old(self).streams@.update(index as int, stream)
                && final(self).view == old(self).view,
    {
        if index == INVALID_STREAM_INDEX || index as usize >= self.streams.len() {
            return Err(MsfError::InvalidStreamIndex);
        }
        self.streams.set(index as usize, stream);
        Ok(())
    }

    /// Appends a stream and gives its index, unless every valid index is
    /// taken.
    pub fn push_stream(&mut self, stream: Stream) -> (r: Result<u16, MsfError>)
        ensures
            r is Ok <==> old(self).streams@.len() < INVALID_STREAM_INDEX,
            r matches Err(e) ==> e == MsfError::InvalidStreamIndex && *final(self) == *old(self),
            r matches Ok(i) ==> i == old(self).streams@.len() && final(self).streams@ == old(
                self,
            ).streams@.push(stream) && final(self).view == old(self).view,
    {
        let n = self.streams.len();
        if n >= INVALID_STREAM_INDEX as usize {
            return Err(MsfError::InvalidStreamIndex);
        }
        self.streams.push(stream);
        Ok(n as u16)
    }

    /// Writes the directory back into the file: every stream, then the
    /// directory record, then the page that lists the directory's pages.
    /// The new page count and directory size go to `header`. Fails, possibly
    /// after part of the file was written, where a stream or the directory
    /// outgrows the format's limits or the directory's page list does not fit
    /// in one page.
    #[verifier::spinoff_prover]
    #[verifier::rlimit(50)]
    pub fn flush(&mut self, buff: &mut Vec<u8>, header: &mut MsfBigHeaderMut<'_>) -> (r: Result<
        (),
        MsfError,
    >)
        requires
            old(header).wf(),
            page_size_of(old(header)@) > 0,
            covers(old(header)@, old(buff)@.len()),
            forall|j: int|
                0 <= j < old(self).streams@.len() ==> (#[trigger] old(self).streams@[j]).view.pages.page_size
                    == page_size_of(old(header)@) && pages_in_range(
                    old(self).streams@[j].view.pages.pfns@,
                    page_size_of(old(header)@) as nat,
                    old(buff)@.len(),
                ),
            old(self).view.pages.page_size == page_size_of(old(header)@),
            pages_in_range(
                old(self).view.pages.pfns@,
                page_size_of(old(header)@) as nat,
                old(buff)@.len(),
            ),
        ensures
            r is Ok <==> commit_succeeds(*old(self), old(header)@, old(buff)@),
            r matches Err(e) ==> e == MsfError::EncodeError,
            final(final(header).ptr)@ == final(old(header).ptr)@,
            final(header).wf(),
            r is Ok ==> directory_flushed(
                *old(self),
                *final(self),
                old(header)@,
                old(buff)@,
                final(header)@,
                final(buff)@,
            ),
            r is Ok ==> covers(final(header)@, final(buff)@.len()) && final(buff)@.len() >= old(
                buff,
            )@.len() && num_pages_of(final(header)@) * page_size_of(final(header)@)
                == final(buff)@.len(),
    {
        reveal(block_map_in_range);
        let ghost h0 = header@;
        let ps = header.get_page_size();
        let map = header.get_stream_block_map();
        let map_off = page_offset(map, ps);
        let blen = buff.len() as u64;
        if map_off > blen || blen - map_off < ps as u64 {
            proof {
                reveal(commit_succeeds);
            }
            return Err(MsfError::EncodeError);
        }
        if !self.flush_streams(buff, header) {
            proof {
                reveal(commit_succeeds);
            }
            return Err(MsfError::EncodeError);
        }
        proof {
            lemma_pages_in_range_grows(
                self.view.pages.pfns@,
                ps as nat,
                old(buff)@.len(),
                buff@.len(),
            );
        }
        let ghost nps = num_pages_of(header@);
        proof {
            lemma_with_num_pages(h0, nps);
        }
        let ghost s0 = old(self).streams@;
        let ghost np0 = num_pages_of(h0) as nat;
        let ghost psn = ps as nat;
        let ghost nps_n = np_after(s0, np0, s0.len());
        assert(nps as nat == nps_n);
        assert(streams_fit(s0, np0, s0.len()));
        assert(block_map_in_range(h0, old(buff)@.len()));
        let r = self.write_record(buff, header, map_off);
        proof {
            let dsz = directory_size(self.streams@);
            let dir_pfns = old(self).view.pages.pfns@;
            let cond = dsz <= u32::MAX && fits_flush(dsz, dir_pfns, psn, nps_n) && 4 * flushed_pfns(
                dir_pfns,
                dsz,
                psn,
                nps_n,
            ).len() <= psn;
            assert(r is Ok <==> cond);
            lemma_flushed_pfn_count(s0, self.streams@, np0, s0.len());
            assert(self.streams@.take(s0.len() as int) =~= self.streams@);
            assert(r is Ok <==> commit_succeeds(*old(self), h0, old(buff)@)) by {
                reveal(commit_succeeds);
            }
            if r is Ok {
                let np1 = num_pages_of(header@);
                lemma_splice_twice(h0, NUM_PAGES_OFFSET as int, u32_le(nps), u32_le(np1));
                reveal(covers);
                assert(directory_flushed(*old(self), *self, h0, old(buff)@, header@, buff@)) by {
                    reveal(directory_flushed);
                }
            }
        }
        r
    }

    /// Writes the directory record for the streams as they stand, flushes it,
    /// and lists its pages on the page at `map_off`.
    #[verifier::spinoff_prover]
    fn write_record(&mut self, buff: &mut Vec<u8>, header: &mut MsfBigHeaderMut<'_>, map_off: u64) -> (r:
        Result<(), MsfError>)
        requires
            old(header).wf(),
            page_size_of(old(header)@) > 0,
            covers(old(header)@, old(buff)@.len()),
            old(self).view.pages.page_size == page_size_of(old(header)@),
            pages_in_range(
                old(self).view.pages.pfns@,
                page_size_of(old(header)@) as nat,
                old(buff)@.len(),
            ),
            map_off == stream_block_map_of(old(header)@) * page_size_of(old(header)@),
            map_off + page_size_of(old(header)@) <= old(buff)@.len(),
        ensures
            ({
                let ps = page_size_of(old(header)@) as nat;
                let np = num_pages_of(old(header)@) as nat;
                let dsz = directory_size(old(self).streams@);
                let dir_pfns = old(self).view.pages.pfns@;
                let new_dir_pfns = flushed_pfns(dir_pfns, dsz, ps, np);
                let np1 = np + growth(dsz, dir_pfns.len(), ps);
                &&& final(self).streams == old(self).streams
                &&& r is Ok <==> dsz <= u32::MAX && fits_flush(dsz, dir_pfns, ps, np) && 4
                    * new_dir_pfns.len() <= ps
                &&& r matches Err(e) ==> e == MsfError::EncodeError
                &&& final(final(header).ptr)@ == final(old(header).ptr)@
                &&& final(header).wf()
                &&& r is Ok ==> {
                    &&& final(self).view.bytes@ == directory_bytes(old(self).streams@)
                    &&& final(self).view.pages.page_size == ps
                    &&& final(self).view.pages.pfns@ == new_dir_pfns
                    &&& final(header)@ == with_dir_size(
                        with_num_pages(old(header)@, np1 as u32),
                        dsz as u32,
                    )
                    &&& num_pages_of(final(header)@) == np1
                    &&& stream_dir_size_of(final(header)@) == dsz
                    &&& final(buff)@ == block_map_written(
                        flushed_file(old(buff)@, dir_pfns, ps, directory_bytes(old(self).streams@), np),
                        map_off as int,
                        ps,
                        new_dir_pfns,
                    )
                    &&& final(buff)@.len() >= old(buff)@.len()
                    &&& covers(final(header)@, final(buff)@.len())
                }
            }),
    {
        reveal(covers);
        let ghost h0 = header@;
        let ps = header.get_page_size();
        let blen0 = buff.len();
        if !self.set_record(header) {
            return Err(MsfError::EncodeError);
        }
        proof {
            reveal(directory_bytes);
            lemma_directory_bytes_len(self.streams@);
            assert(self.view.bytes@.len() == directory_size(self.streams@));
        }
        let ghost h2 = header@;
        if !self.view.try_flush(buff, header) {
            return Err(MsfError::EncodeError);
        }
        proof {
            lemma_record_header(h0, directory_size(self.streams@) as u32, num_pages_of(header@), h2, header@);
        }
        if self.view.pages.pfns.len() > (ps / 4) as usize {
            return Err(MsfError::EncodeError);
        }
        assert(map_off <= blen0);
        write_block_map(buff, map_off as usize, ps, &self.view.pages.pfns);
        Ok(())
    }

    /// Puts the directory record for the streams as they stand in the
    /// directory's view and its size in `header`, where the size fits in 32
    /// bits; otherwise changes nothing.
    fn set_record(&mut self, header: &mut MsfBigHeaderMut<'_>) -> (ok: bool)
        requires
            old(header).wf(),
        ensures
            ok == (directory_size(old(self).streams@) <= u32::MAX),
            final(self).streams == old(self).streams,
            final(self).view.pages == old(self).view.pages,
            final(final(header).ptr)@ == final(old(header).ptr)@,
            final(header).wf(),
            !ok ==> final(header)@ == old(header)@,
            ok ==> {
                &&& final(self).view.bytes@ == directory_bytes(old(self).streams@)
                &&& final(header)@ == with_dir_size(
                    old(header)@,
                    directory_size(old(self).streams@) as u32,
                )
                &&& num_pages_of(final(header)@) == num_pages_of(old(header)@)
                &&& page_size_of(final(header)@) == page_size_of(old(header)@)
                &&& stream_dir_size_of(final(header)@) == directory_size(old(self).streams@)
            },
    {
        reveal(with_dir_size);
        reveal(directory_bytes);
        let dir = match serialize_directory(&self.streams) {
            Some(d) => d,
            None => return false,
        };
        proof {
            lemma_directory_bytes_len(self.streams@);
        }
        let dsz = dir.len() as u32;
        let ghost h1 = header@;
        header.set_stream_dir_size(dsz);
        proof {
            lemma_u32_round_trip(h1, STREAM_DIR_SIZE_OFFSET as int, dsz);
            lemma_u32_splice_other(h1, STREAM_DIR_SIZE_OFFSET as int, u32_le(dsz), PAGE_SIZE_OFFSET as int);
            lemma_u32_splice_other(h1, STREAM_DIR_SIZE_OFFSET as int, u32_le(dsz), NUM_PAGES_OFFSET as int);
        }
        self.view.bytes = dir;
        true
    }

    /// Flushes every stream in index order, stopping at the first one that
    /// does not fit the format's limits.
    #[verifier::spinoff_prover]
    fn flush_streams(&mut self, buff: &mut Vec<u8>, header: &mut MsfBigHeaderMut<'_>) -> (ok: bool)
        requires
            old(header).wf(),
            page_size_of(old(header)@) > 0,
            covers(old(header)@, old(buff)@.len()),
            forall|j: int|
                0 <= j < old(self).streams@.len() ==> (#[trigger] old(self).streams@[j]).view.pages.page_size
                    == page_size_of(old(header)@) && pages_in_range(
                    old(self).streams@[j].view.pages.pfns@,
                    page_size_of(old(header)@) as nat,
                    old(buff)@.len(),
                ),
        ensures
            ok == streams_fit(
                old(self).streams@,
                num_pages_of(old(header)@) as nat,
                old(self).streams@.len(),
            ),
            final(self).view == old(self).view,
            final(header).wf(),
            final(final(header).ptr)@ == final(old(header).ptr)@,
            ok ==> {
                &&& final(self).streams@.len() == old(self).streams@.len()
                &&& forall|j: int|
                    0 <= j < old(self).streams@.len() ==> stream_flushed(
                        #[trigger] final(self).streams@[j],
                        old(self).streams@[j],
                        np_after(old(self).streams@, num_pages_of(old(header)@) as nat, j as nat),
                    )
                &&& final(buff)@ == file_after(
                    old(self).streams@,
                    old(buff)@,
                    num_pages_of(old(header)@) as nat,
                    old(self).streams@.len(),
                )
                &&& final(buff)@.len() >= old(buff)@.len()
                &&& final(header)@ == with_num_pages(
                    old(header)@,
                    np_after(
                        old(self).streams@,
                        num_pages_of(old(header)@) as nat,
                        old(self).streams@.len(),
                    ) as u32,
                )
                &&& np_after(
                    old(self).streams@,
                    num_pages_of(old(header)@) as nat,
                    old(self).streams@.len(),
                ) <= u32::MAX
                &&& covers(final(header)@, final(buff)@.len())
            },
    {
        let ghost s0 = self.streams@;
        let ghost np0 = num_pages_of(header@) as nat;
        let ghost ps = page_size_of(header@);
        let n = self.streams.len();

        let mut i: usize = 0;
        proof {
            lemma_u32_splice_same(header@, NUM_PAGES_OFFSET as int);
            reveal_with_fuel(np_after, 1);
            reveal_with_fuel(file_after, 1);
        }
        while i < n
            invariant
                i <= n == s0.len(),
                s0 == old(self).streams@,
                self.streams@.len() == n,
                self.view == old(self).view,
                header.wf(),
                old(header).wf(),
                page_size_of(old(header)@) == ps > 0,
                np0 == num_pages_of(old(header)@),
                np_after(s0, np0, i as nat) <= u32::MAX,
                header@ == with_num_pages(old(header)@, np_after(s0, np0, i as nat) as u32),
                covers(header@, buff@.len()),
                buff@.len() >= old(buff)@.len(),
                buff@ == file_after(s0, old(buff)@, np0, i as nat),
                streams_fit(s0, np0, i as nat),
                forall|j: int|
                    0 <= j < i ==> stream_flushed(
                        #[trigger] self.streams@[j],
                        s0[j],
                        np_after(s0, np0, j as nat),
                    ),
                forall|j: int| i <= j < n ==> #[trigger] self.streams@[j] == s0[j],
                forall|j: int|
                    0 <= j < n ==> (#[trigger] s0[j]).view.pages.page_size == ps && pages_in_range(
                        s0[j].view.pages.pfns@,
                        ps as nat,
                        old(buff)@.len(),
                    ),
                final(header.ptr)@ == final(old(header).ptr)@,
            decreases n - i,
        {
            proof {
                lemma_with_num_pages(old(header)@, np_after(s0, np0, i as nat) as u32);
                assert(self.streams@[i as int] == s0[i as int]);
            }
            let ok = flush_stream_at(&mut self.streams, i, buff, header);
            if !ok {
                assert(!streams_fit(s0, np0, n as nat));
                return false;
            }
            proof {
                reveal_with_fuel(np_after, 1);
                reveal_with_fuel(file_after, 1);
                let g = growth(
                    s0[i as int].view.bytes@.len(),
                    s0[i as int].view.pages.pfns@.len(),
                    s0[i as int].view.pages.page_size as nat,
                );
                assert(np_after(s0, np0, (i + 1) as nat) == np_after(s0, np0, i as nat) + g);
                lemma_splice_twice(
                    old(header)@,
                    NUM_PAGES_OFFSET as int,
                    u32_le(np_after(s0, np0, i as nat) as u32),
                    u32_le(np_after(s0, np0, (i + 1) as nat) as u32),
                );
                assert(streams_fit(s0, np0, (i + 1) as nat));
            }
            i = i + 1;
        }
        true
    }
}

} // verus!
