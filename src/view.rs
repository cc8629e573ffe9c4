//! Linear views of streams whose pages are scattered through the container.
use vstd::prelude::*;
use crate::codec::{
    copy_into, extend_from, extend_zeros, lemma_u32_round_trip, lemma_u32_splice_other, splice,
    u32_le,
};
use crate::msf::{
    MsfBigHeaderMut, NUM_PAGES_OFFSET, PAGE_SIZE_OFFSET, ceil_div, covers, lemma_u32_product_fits,
    num_pages_of, page_size_of, pages_for, with_num_pages,
};
use crate::pagelist::PageList;

verus! {

/// Byte offset of page `pfn`.
pub open spec fn page_start(pfn: u32, page_size: nat) -> int {
    pfn * page_size
}

/// The bytes of page `pfn`.
pub open spec fn page_at(src: Seq<u8>, pfn: u32, page_size: nat) -> Seq<u8> {
    src.subrange(page_start(pfn, page_size), page_start(pfn, page_size) + page_size)
}

/// The listed pages of `src`, one after another.
#[verifier::opaque]
pub open spec fn gather(src: Seq<u8>, pfns: Seq<u32>, page_size: nat) -> Seq<u8>
    decreases pfns.len(),
{
    if pfns.len() == 0 {
        Seq::empty()
    } else {
        page_at(src, pfns[0], page_size) + gather(src, pfns.drop_first(), page_size)
    }
}

/// Every listed page lies within the first `len` bytes.
pub open spec fn pages_in_range(pfns: Seq<u32>, page_size: nat, len: nat) -> bool {
    forall|i: int| 0 <= i < pfns.len() ==> page_start(#[trigger] pfns[i], page_size) + page_size <= len
}

/// `n` zero bytes.
pub open spec fn zeros(n: nat) -> Seq<u8> {
    Seq::new(n, |i: int| 0u8)
}

/// `s` cut or zero-extended to `n` bytes.
pub open spec fn resized(s: Seq<u8>, n: nat) -> Seq<u8> {
    if n <= s.len() {
        s.subrange(0, n as int)
    } else {
        s + zeros((n - s.len()) as nat)
    }
}

/// `dst` after `bytes` are written page by page to the listed pages; the last
/// page written may be partial, and pages past the end of `bytes` are left as
/// they are.
#[verifier::opaque]
pub open spec fn scatter(dst: Seq<u8>, pfns: Seq<u32>, page_size: nat, bytes: Seq<u8>) -> Seq<u8>
    decreases pfns.len(),
{
    if pfns.len() == 0 {
        dst
    } else {
        let n = if bytes.len() < page_size {
            bytes.len()
        } else {
            page_size
        };
        scatter(
            splice(dst, page_start(pfns[0], page_size), bytes.subrange(0, n as int)),
            pfns.drop_first(),
            page_size,
            bytes.subrange(n as int, bytes.len() as int),
        )
    }
}

/// Page numbers `high`, `high + 1`, ... : `n` of them.
pub open spec fn tail_pfns(high: nat, n: nat) -> Seq<u32> {
    Seq::new(n, |k: int| (high + k) as u32)
}

/// Pages to add so that `pages` pages of `page_size` bytes cover `len`
/// bytes.
#[verifier::opaque]
pub open spec fn growth(len: nat, pages: nat, page_size: nat) -> nat {
    if len > pages * page_size {
        ceil_div((len - pages * page_size) as nat, page_size)
    } else {
        0
    }
}

/// A view of `len` bytes on pages `pfns` can be flushed into a file of
/// `num_pages` pages without leaving the integer ranges of the format.
#[verifier::opaque]
pub open spec fn fits_flush(len: nat, pfns: Seq<u32>, page_size: nat, num_pages: nat) -> bool {
    &&& len <= u32::MAX
    &&& pfns.len() * page_size <= u32::MAX
    &&& num_pages + growth(len, pfns.len(), page_size) <= u32::MAX
    &&& (num_pages + growth(len, pfns.len(), page_size)) * page_size <= usize::MAX
}

/// The pages of a view of `len` bytes after it is flushed into a file of
/// `num_pages` pages: new pages follow the file's last page.
#[verifier::opaque]
pub open spec fn flushed_pfns(pfns: Seq<u32>, len: nat, page_size: nat, num_pages: nat) -> Seq<
    u32,
> {
    pfns + tail_pfns(num_pages, growth(len, pfns.len(), page_size))
}

/// The file after a view is flushed into it.
#[verifier::opaque]
pub open spec fn flushed_file(
    file: Seq<u8>,
    pfns: Seq<u32>,
    page_size: nat,
    bytes: Seq<u8>,
    num_pages: nat,
) -> Seq<u8> {
    scatter(
        file + zeros(growth(bytes.len(), pfns.len(), page_size) * page_size),
        flushed_pfns(pfns, bytes.len(), page_size, num_pages),
        page_size,
        bytes,
    )
}

/// Rounding up to whole pages covers the bytes.
pub proof fn lemma_ceil_div_covers(n: nat, d: nat)
    requires
        d > 0,
    ensures
        ceil_div(n, d) * d >= n,
        ceil_div(n, d) * d < n + d,
{
    vstd::arithmetic::div_mod::lemma_fundamental_div_mod(n as int, d as int);
    let q = n / d;
    assert(d * q == q * d) by (nonlinear_arith);
    if n % d == 0 {
        assert(ceil_div(n, d) == q);
    } else {
        assert(ceil_div(n, d) == q + 1);
        assert((q + 1) * d == q * d + d) by (nonlinear_arith);
    }
}

/// New pages at the tail of the file lie within the grown file.
proof fn lemma_tail_page_in_range(high: nat, k: nat, n: nat, page_size: nat)
    requires
        k < n,
    ensures
        (high + k) * page_size + page_size <= (high + n) * page_size,
{
    assert((high + k) * page_size + page_size <= (high + n) * page_size) by (nonlinear_arith)
        requires
            k < n,
    ;
}

/// Writing back a gathered view that was not changed and needs no new pages
/// leaves the file as it was.
pub proof fn lemma_flush_unchanged_view(buff: Seq<u8>, pfns: Seq<u32>, page_size: nat, size: nat)
    requires
        page_size > 0,
        pages_in_range(pfns, page_size, buff.len()),
        size <= pfns.len() * page_size,
    ensures
        scatter(buff, pfns, page_size, resized(gather(buff, pfns, page_size), size)) == buff,
    decreases pfns.len(),
{
    reveal_with_fuel(gather, 1);
    reveal_with_fuel(scatter, 1);
    lemma_gather_len(buff, pfns, page_size);
    let g = gather(buff, pfns, page_size);
    assert(resized(g, size) == g.subrange(0, size as int));
    if pfns.len() > 0 {
        let p0 = pfns[0];
        let rest = pfns.drop_first();
        assert(pages_in_range(rest, page_size, buff.len())) by {
            assert forall|i: int| 0 <= i < rest.len() implies page_start(#[trigger] rest[i], page_size)
                + page_size <= buff.len() by {
                assert(rest[i] == pfns[i + 1]);
            }
        }
        assert(page_start(pfns[0], page_size) + page_size <= buff.len());
        let bytes = g.subrange(0, size as int);
        let n = if bytes.len() < page_size {
            bytes.len()
        } else {
            page_size
        };
        let st = page_start(p0, page_size);
        assert(bytes.subrange(0, n as int) =~= buff.subrange(st, st + n));
        assert(splice(buff, st, buff.subrange(st, st + n)) =~= buff);
        lemma_gather_len(buff, rest, page_size);
        assert((pfns.len() - 1) * page_size == pfns.len() * page_size - page_size)
            by (nonlinear_arith);
        let k = (size - n) as nat;
        assert(bytes.subrange(n as int, bytes.len() as int) =~= gather(buff, rest, page_size).subrange(
            0,
            k as int,
        ));
        lemma_flush_unchanged_view(buff, rest, page_size, k);
        assert(resized(gather(buff, rest, page_size), k) == gather(buff, rest, page_size).subrange(
            0,
            k as int,
        ));
    }
}

/// Gathering yields a whole page for each listed page.
pub proof fn lemma_gather_len(buff: Seq<u8>, pfns: Seq<u32>, page_size: nat)
    requires
        pages_in_range(pfns, page_size, buff.len()),
    ensures
        gather(buff, pfns, page_size).len() == pfns.len() * page_size,
    decreases pfns.len(),
{
    reveal_with_fuel(gather, 1);
    if pfns.len() > 0 {
        let rest = pfns.drop_first();
        assert(page_start(pfns[0], page_size) + page_size <= buff.len());
        assert(pages_in_range(rest, page_size, buff.len())) by {
            assert forall|i: int| 0 <= i < rest.len() implies page_start(#[trigger] rest[i], page_size)
                + page_size <= buff.len() by {
                assert(rest[i] == pfns[i + 1]);
            }
        }
        lemma_gather_len(buff, rest, page_size);
        assert(pfns.len() * page_size == (pfns.len() - 1) * page_size + page_size)
            by (nonlinear_arith);
    }
}

/// A flush that grows a stream past its pages adds exactly the pages the
/// excess needs, numbered on from the file's last page; one that does not
/// keeps the pages as they were.
pub proof fn lemma_growth_appends_at_tail(pfns: Seq<u32>, len: nat, page_size: nat, num_pages: nat)
    ensures
        growth(len, pfns.len(), page_size) == (if len > pfns.len() * page_size {
            ceil_div((len - pfns.len() * page_size) as nat, page_size)
        } else {
            0
        }),
        flushed_pfns(pfns, len, page_size, num_pages) == pfns + tail_pfns(
            num_pages,
            growth(len, pfns.len(), page_size),
        ),
        forall|k: int|
            0 <= k < growth(len, pfns.len(), page_size) ==> #[trigger] flushed_pfns(
                pfns,
                len,
                page_size,
                num_pages,
            )[pfns.len() + k] == (num_pages + k) as u32,
{
    reveal(growth);
    reveal(flushed_pfns);
}

/// After a flush a stream has exactly as many pages as its bytes need,
/// where it had no more than that before.
pub proof fn lemma_flushed_page_count(pfns: Seq<u32>, len: nat, page_size: nat, num_pages: nat)
    requires
        page_size > 0,
        pfns.len() <= ceil_div(len, page_size),
    ensures
        flushed_pfns(pfns, len, page_size, num_pages).len() == ceil_div(len, page_size),
{
    reveal(flushed_pfns);
    reveal(growth);
    let k = pfns.len();
    let ps = page_size;
    vstd::arithmetic::div_mod::lemma_fundamental_div_mod(len as int, ps as int);
    let q = len / ps;
    let r = len % ps;
    assert(len == q * ps + r) by (nonlinear_arith)
        requires
            len == ps * q + r,
    ;
    if len > k * ps {
        assert(q >= k) by (nonlinear_arith)
            requires
                len == q * ps + r,
                0 <= r < ps,
                len > k * ps,
        ;
        assert(len - k * ps == (q - k) * ps + r) by (nonlinear_arith)
            requires
                len == q * ps + r,
        ;
        vstd::arithmetic::div_mod::lemma_fundamental_div_mod_converse(
            len - k * ps,
            ps as int,
            q - k,
            r as int,
        );
    } else {
        if r == 0 {
            assert(q <= k) by (nonlinear_arith)
                requires
                    len == q * ps,
                    len <= k * ps,
                    ps > 0,
            ;
        } else {
            assert(q < k) by (nonlinear_arith)
                requires
                    len == q * ps + r,
                    0 < r,
                    len <= k * ps,
                    ps > 0,
            ;
        }
    }
}

/// Pages within a file stay within it as it grows.
pub proof fn lemma_pages_in_range_grows(pfns: Seq<u32>, page_size: nat, len: nat, new_len: nat)
    requires
        pages_in_range(pfns, page_size, len),
        len <= new_len,
    ensures
        pages_in_range(pfns, page_size, new_len),
{
}

/// Byte offset of page `pfn`.
pub fn page_offset(pfn: u32, page_size: u32) -> (r: u64)
    ensures
        r == page_start(pfn, page_size as nat),
{
    proof {
        lemma_u32_product_fits(pfn as int, page_size as int);
    }
    pfn as u64 * page_size as u64
}

/// A stream's bytes gathered from its pages, with the pages they came from.
#[derive(Debug, Clone)]
pub struct SourceView {
    /// The stream's bytes, in order.
    pub bytes: Vec<u8>,
    /// The pages that hold them.
    pub pages: PageList,
}

impl Default for SourceView {
    fn default() -> (r: SourceView)
        ensures
            r.bytes@ == Seq::<u8>::empty(),
            r.pages.page_size == 0,
            r.pages.pfns@ == Seq::<u32>::empty(),
    {
        SourceView { bytes: Vec::new(), pages: PageList::default() }
    }
}

impl SourceView {
    /// Gathers the listed pages of `buff` into one linear buffer, or nothing
    /// where a page lies past the end of `buff`.
    pub fn new(buff: &[u8], pages: PageList) -> (r: Option<SourceView>)
        ensures
            r is Some <==> pages_in_range(pages.pfns@, pages.page_size as nat, buff@.len()),
            r is Some ==> r->Some_0.bytes@ == gather(buff@, pages.pfns@, pages.page_size as nat)
                && r->Some_0.pages.page_size == pages.page_size && r->Some_0.pages.pfns@
                == pages.pfns@,
    {
        let ps = pages.page_size;
        let mut bytes: Vec<u8> = Vec::new();
        let mut i: usize = 0;
        reveal_with_fuel(gather, 1);
        assert(pages.pfns@.skip(0) =~= pages.pfns@);
        assert(bytes@ + gather(buff@, pages.pfns@, pages.page_size as nat) =~= gather(buff@, pages.pfns@, pages.page_size as nat));
        while i < pages.pfns.len()
            invariant
                i <= pages.pfns@.len(),
                ps == pages.page_size,
                bytes@ + gather(buff@, pages.pfns@.skip(i as int), pages.page_size as nat) == gather(
                    buff@,
                    pages.pfns@,
                    pages.page_size as nat,
                ),
                forall|k: int|
                    0 <= k < i ==> page_start(#[trigger] pages.pfns@[k], pages.page_size as nat)
                        + pages.page_size <= buff@.len(),
            decreases pages.pfns@.len() - i,
        {
            let pfn = pages.pfns[i];
            let start = page_offset(pfn, pages.page_size);
            let blen = buff.len() as u64;
            if start > blen || blen - start < ps as u64 {
                assert(page_start(pages.pfns@[i as int], pages.page_size as nat) + pages.page_size
                    > buff@.len());
                return None;
            }
            let s = start as usize;
            let e = s + ps as usize;
            let ghost rest = pages.pfns@.skip(i as int);
            reveal_with_fuel(gather, 1);
            assert(rest.drop_first() =~= pages.pfns@.skip(i + 1));
            assert(rest[0] == pfn);
            extend_from(&mut bytes, buff, s, e);
            assert(bytes@ + gather(buff@, pages.pfns@.skip(i + 1), pages.page_size as nat) =~= gather(
                buff@,
                pages.pfns@,
                pages.page_size as nat,
            ));
            i = i + 1;
        }
        assert(pages.pfns@.skip(i as int) =~= Seq::<u32>::empty());
        reveal_with_fuel(gather, 1);
        assert(bytes@ =~= gather(buff@, pages.pfns@, pages.page_size as nat));
        Some(SourceView { bytes, pages })
    }

    /// Gathers the listed pages of `buff` and cuts or zero-extends the result
    /// to `size` bytes, or nothing where a page lies past the end of `buff`.
    pub fn with_size(buff: &[u8], pages: PageList, size: usize) -> (r: Option<SourceView>)
        ensures
            r is Some <==> pages_in_range(pages.pfns@, pages.page_size as nat, buff@.len()),
            r is Some ==> r->Some_0.bytes@ == resized(
                gather(buff@, pages.pfns@, pages.page_size as nat),
                size as nat,
            ) && r->Some_0.pages.page_size == pages.page_size && r->Some_0.pages.pfns@
                == pages.pfns@,
    {
        match Self::new(buff, pages) {
            Some(mut view) => {
                let n = view.bytes.len();
                if size <= n {
                    view.bytes.truncate(size);
                } else {
                    extend_zeros(&mut view.bytes, size - n);
                }
                Some(view)
            },
            None => None,
        }
    }

    /// Pages that flushing adds so that the pages hold every byte.
    pub open spec fn growth(&self) -> nat {
        growth(self.bytes@.len(), self.pages.pfns@.len(), self.pages.page_size as nat)
    }

    /// Writes the bytes back to their pages in `buff`. Where the bytes have
    /// outgrown their pages, new pages are first taken at the end of the file:
    /// the page count in `header` grows and `buff` grows by zero bytes. The
    /// last page written may be partial; the rest of it is left as it was.
    pub fn flush(&mut self, buff: &mut Vec<u8>, header: &mut MsfBigHeaderMut<'_>)
        requires
            old(header).wf(),
            old(self).pages.page_size > 0,
            page_size_of(old(header)@) == old(self).pages.page_size,
            covers(old(header)@, old(buff)@.len()),
            pages_in_range(
                old(self).pages.pfns@,
                old(self).pages.page_size as nat,
                old(buff)@.len(),
            ),
            fits_flush(
                old(self).bytes@.len(),
                old(self).pages.pfns@,
                old(self).pages.page_size as nat,
                num_pages_of(old(header)@) as nat,
            ),
        ensures
            final(self).bytes@ == old(self).bytes@,
            final(self).pages.page_size == old(self).pages.page_size,
            final(self).pages.pfns@ == flushed_pfns(
                old(self).pages.pfns@,
                old(self).bytes@.len(),
                old(self).pages.page_size as nat,
                num_pages_of(old(header)@) as nat,
            ),
            final(buff)@ == flushed_file(
                old(buff)@,
                old(self).pages.pfns@,
                old(self).pages.page_size as nat,
                old(self).bytes@,
                num_pages_of(old(header)@) as nat,
            ),
            final(buff)@.len() == old(buff)@.len() + old(self).growth() * (old(self).pages.page_size as nat),
            final(header)@ == (if old(self).growth() > 0 {
                with_num_pages(old(header)@, (num_pages_of(old(header)@) + old(self).growth()) as u32)
            } else {
                old(header)@
            }),
            num_pages_of(final(header)@) == num_pages_of(old(header)@) + old(self).growth(),
            final(header).wf(),
            page_size_of(final(header)@) == old(self).pages.page_size,
            covers(final(header)@, final(buff)@.len()),
            pages_in_range(final(self).pages.pfns@, old(self).pages.page_size as nat, final(buff)@.len()),
            final(self).pages.spec_len() >= old(self).bytes@.len(),
            final(final(header).ptr)@ == final(old(header).ptr)@,
    {
        reveal(growth);
        reveal(fits_flush);
        reveal(flushed_pfns);
        reveal(flushed_file);
        reveal(covers);
        self.grow(buff, header);
        self.write_pages(buff);
    }

    /// Flushes as `flush` does where the view fits the format's limits, and
    /// otherwise changes nothing.
    pub(crate) fn try_flush(&mut self, buff: &mut Vec<u8>, header: &mut MsfBigHeaderMut<'_>) -> (ok:
        bool)
        requires
            old(header).wf(),
            old(self).pages.page_size > 0,
            page_size_of(old(header)@) == old(self).pages.page_size,
            covers(old(header)@, old(buff)@.len()),
            pages_in_range(
                old(self).pages.pfns@,
                old(self).pages.page_size as nat,
                old(buff)@.len(),
            ),
        ensures
            ok == fits_flush(
                old(self).bytes@.len(),
                old(self).pages.pfns@,
                old(self).pages.page_size as nat,
                num_pages_of(old(header)@) as nat,
            ),
            final(final(header).ptr)@ == final(old(header).ptr)@,
            final(header).wf(),
            !ok ==> *final(self) == *old(self) && final(buff)@ == old(buff)@ && final(header)@ == old(
                header,
            )@,
            ok ==> {
                &&& final(self).bytes@ == old(self).bytes@
                &&& final(self).pages.page_size == old(self).pages.page_size
                &&& final(self).pages.pfns@ == flushed_pfns(
                        old(self).pages.pfns@,
                        old(self).bytes@.len(),
                        old(self).pages.page_size as nat,
                        num_pages_of(old(header)@) as nat,
                    )
                &&& final(buff)@ == flushed_file(
                        old(buff)@,
                        old(self).pages.pfns@,
                        old(self).pages.page_size as nat,
                        old(self).bytes@,
                        num_pages_of(old(header)@) as nat,
                    )
                &&& final(buff)@.len() == old(buff)@.len() + old(self).growth() * (old(self).pages.page_size as nat)
                &&& final(header)@ == (if old(self).growth() > 0 {
                        with_num_pages(old(header)@, (num_pages_of(old(header)@) + old(self).growth()) as u32)
                    } else {
                        old(header)@
                    })
                &&& num_pages_of(final(header)@) == num_pages_of(old(header)@) + old(self).growth()
                &&& final(header).wf()
                &&& page_size_of(final(header)@) == old(self).pages.page_size
                &&& covers(final(header)@, final(buff)@.len())
                &&& pages_in_range(final(self).pages.pfns@, old(self).pages.page_size as nat, final(buff)@.len())
                &&& final(self).pages.spec_len() >= old(self).bytes@.len()
            },
    {
        reveal(growth);
        reveal(fits_flush);
        reveal(flushed_pfns);
        reveal(flushed_file);
        reveal(covers);
        let ps = self.pages.page_size;
        let len = self.bytes.len();
        if len > 0xFFFF_FFFF {
            return false;
        }
        let n = self.pages.pfns.len();
        if n > 0xFFFF_FFFF {
            assert(n * ps >= n) by (nonlinear_arith)
                requires
                    ps >= 1,
            ;
            return false;
        }
        proof {
            lemma_u32_product_fits(n as int, ps as int);
        }
        let covered = n as u64 * ps as u64;
        if covered > 0xFFFF_FFFF {
            return false;
        }
        let g: u64 = if len as u64 > covered {
            pages_for((len as u64 - covered) as u32, ps) as u64
        } else {
            0
        };
        assert(g == self.growth());
        let np = header.get_num_pages() as u64;
        if np + g > 0xFFFF_FFFF {
            return false;
        }
        let total = page_offset((np + g) as u32, ps);
        if total > usize::MAX as u64 {
            return false;
        }
        self.flush(buff, header);
        true
    }

    /// Takes the pages that the bytes need beyond their current pages.
    #[verifier::loop_isolation(false)]
    fn grow(&mut self, buff: &mut Vec<u8>, header: &mut MsfBigHeaderMut<'_>)
        requires
            old(header).wf(),
            old(self).pages.page_size > 0,
            page_size_of(old(header)@) == old(self).pages.page_size,
            covers(old(header)@, old(buff)@.len()),
            pages_in_range(
                old(self).pages.pfns@,
                old(self).pages.page_size as nat,
                old(buff)@.len(),
            ),
            fits_flush(
                old(self).bytes@.len(),
                old(self).pages.pfns@,
                old(self).pages.page_size as nat,
                num_pages_of(old(header)@) as nat,
            ),
        ensures
            final(self).bytes@ == old(self).bytes@,
            final(self).pages.page_size == old(self).pages.page_size,
            final(self).pages.pfns@ == flushed_pfns(
                old(self).pages.pfns@,
                old(self).bytes@.len(),
                old(self).pages.page_size as nat,
                num_pages_of(old(header)@) as nat,
            ),
            final(buff)@ == old(buff)@ + zeros(old(self).growth() * (old(self).pages.page_size as nat)),
            final(buff)@.len() == old(buff)@.len() + old(self).growth() * (old(self).pages.page_size as nat),
            final(header)@ == (if old(self).growth() > 0 {
                with_num_pages(old(header)@, (num_pages_of(old(header)@) + old(self).growth()) as u32)
            } else {
                old(header)@
            }),
            num_pages_of(final(header)@) == num_pages_of(old(header)@) + old(self).growth(),
            final(header).wf(),
            page_size_of(final(header)@) == old(self).pages.page_size,
            covers(final(header)@, final(buff)@.len()),
            pages_in_range(final(self).pages.pfns@, old(self).pages.page_size as nat, final(buff)@.len()),
            final(self).pages.spec_len() >= old(self).bytes@.len(),
            final(final(header).ptr)@ == final(old(header).ptr)@,
    {
        reveal(growth);
        reveal(fits_flush);
        reveal(flushed_pfns);
        reveal(flushed_file);
        reveal(covers);
        let ps = self.pages.page_size;
        let covered = self.pages.len();
        let len = self.bytes.len();
        let ghost old_pfns = self.pages.pfns@;
        let ghost np = num_pages_of(header@) as nat;
        let ghost g = self.growth();
        if len > covered as usize {
            let cnt = header.pages_needed_to_store((len - covered as usize) as u32);
            let high = header.get_num_pages();
            let mut k: u32 = 0;
            while k < cnt
                invariant
                    k <= cnt,
                    cnt == g,
                    high == np,
                    self.pages.page_size == ps,
                    self.bytes@ == old(self).bytes@,
                    self.pages.pfns@ == old_pfns + tail_pfns(np, k as nat),
                decreases cnt - k,
            {
                self.pages.push(high + k);
                assert(self.pages.pfns@ =~= old_pfns + tail_pfns(np, (k + 1) as nat));
                k = k + 1;
            }
            header.set_num_pages(high + cnt);
            proof {
                lemma_u32_round_trip(old(header)@, NUM_PAGES_OFFSET as int, (np + g) as u32);
                lemma_u32_splice_other(
                    old(header)@,
                    NUM_PAGES_OFFSET as int,
                    u32_le((np + g) as u32),
                    PAGE_SIZE_OFFSET as int,
                );
                lemma_u32_product_fits(np as int, ps as int);
                lemma_u32_product_fits(g as int, ps as int);
                assert((np + g) * ps == np * ps + g * ps) by (nonlinear_arith);
            }
            let extra = page_offset(cnt, ps) as usize;
            extend_zeros(buff, extra);
            assert(extra == g * ps);
            assert(buff@ =~= old(buff)@ + zeros((g * ps) as nat));
            proof {
                let newp = self.pages.pfns@;
                let newlen = buff@.len();
                assert(newlen == (np + g) * ps);
                assert forall|j: int| 0 <= j < newp.len() implies page_start(
                    #[trigger] newp[j],
                    ps as nat,
                ) + ps <= newlen by {
                    if j < old_pfns.len() {
                        assert(newp[j] == old_pfns[j]);
                    } else {
                        let kk = (j - old_pfns.len()) as nat;
                        assert(newp[j] == (np + kk) as u32);
                        lemma_tail_page_in_range(np, kk, g, ps as nat);
                    }
                }
                lemma_ceil_div_covers((len - covered) as nat, ps as nat);
                assert((old_pfns.len() + g) * ps == old_pfns.len() * ps + g * ps)
                    by (nonlinear_arith);
            }
        } else {
            assert(g == 0);
            assert(tail_pfns(np, 0) =~= Seq::<u32>::empty());
            assert(self.pages.pfns@ =~= old_pfns + tail_pfns(np, 0));
            assert(zeros(0) =~= Seq::<u8>::empty());
            assert(buff@ =~= old(buff)@ + zeros(0));
        }
    }

    /// Writes the bytes page by page to their pages in `buff`.
    fn write_pages(&self, buff: &mut Vec<u8>)
        requires
            self.pages.page_size > 0,
            pages_in_range(self.pages.pfns@, self.pages.page_size as nat, old(buff)@.len()),
        ensures
            final(buff)@ == scatter(
                old(buff)@,
                self.pages.pfns@,
                self.pages.page_size as nat,
                self.bytes@,
            ),
            final(buff)@.len() == old(buff)@.len(),
    {
        let ps = self.pages.page_size;
        let len = self.bytes.len();
        let ghost grown = buff@;
        let blen = buff.len();
        let ghost pfns = self.pages.pfns@;
        let ghost bytes = self.bytes@;
        let mut off: usize = 0;
        let mut i: usize = 0;
        assert(pfns.skip(0) =~= pfns);
        assert(bytes.subrange(0, len as int) =~= bytes);
        while i < self.pages.pfns.len()
            invariant
                i <= pfns.len(),
                off <= len,
                ps == self.pages.page_size,
                len == bytes.len(),
                self.pages.pfns@ == pfns,
                self.bytes@ == bytes,
                buff@.len() == grown.len() == blen,
                pages_in_range(pfns, ps as nat, buff@.len()),
                scatter(buff@, pfns.skip(i as int), ps as nat, bytes.subrange(off as int, len as int))
                    == scatter(grown, pfns, ps as nat, bytes),
            decreases pfns.len() - i,
        {
            let pfn = self.pages.pfns[i];
            assert(pfns[i as int] == pfn);
            assert(page_start(pfn, ps as nat) + ps <= buff@.len());
            let start = page_offset(pfn, ps) as usize;
            let n = if len - off < ps as usize {
                len - off
            } else {
                ps as usize
            };
            let ghost before = buff@;
            let ghost rest = bytes.subrange(off as int, len as int);
            reveal_with_fuel(scatter, 1);
            assert(pfns.skip(i as int)[0] == pfn);
            assert(pfns.skip(i as int).drop_first() =~= pfns.skip(i + 1));
            assert(rest.subrange(0, n as int) =~= bytes.subrange(off as int, off + n));
            assert(rest.subrange(n as int, rest.len() as int) =~= bytes.subrange(
                off + n,
                len as int,
            ));
            assert(scatter(before, pfns.skip(i as int), ps as nat, rest) == scatter(
                splice(before, page_start(pfn, ps as nat), bytes.subrange(off as int, off + n)),
                pfns.skip(i + 1),
                ps as nat,
                bytes.subrange(off + n, len as int),
            ));
            copy_into(buff, start, &self.bytes.as_slice()[off..off + n]);
            i = i + 1;
            off = off + n;
        }
        assert(pfns.skip(i as int) =~= Seq::<u32>::empty());
        reveal_with_fuel(scatter, 1);
        assert(buff@ == scatter(grown, pfns, ps as nat, bytes));
    }

    /// The stream's bytes.
    pub fn as_slice(&self) -> (r: &[u8])
        ensures
            r@ == self.bytes@,
    {
        self.bytes.as_slice()
    }

    /// The stream's bytes, for writing in place.
    pub fn as_mut_slice(&mut self) -> (r: &mut [u8])
        ensures
            r@ == old(self).bytes@,
            final(self).bytes@ == final(r)@,
            final(self).pages == old(self).pages,
    {
        self.bytes.as_mut_slice()
    }
}

} // verus!
