//! OMAP streams: sorted tables that translate addresses from one image
//! layout to another.
use vstd::prelude::*;
use crate::codec::{push_u32, read_u32, u32_at, u32_le};
use crate::directory::Stream;
use crate::error::MsfError;

verus! {

/// One mapping: addresses from `0` on translate to addresses from `1` on.
#[derive(Debug, Default, Clone, Copy, PartialEq, Eq, Structural)]
pub struct OmapEntry(pub u32, pub u32);

/// Entries ordered by strictly increasing source address.
pub open spec fn sorted_by_source(es: Seq<OmapEntry>) -> bool {
    forall|i: int, j: int| 0 <= i < j < es.len() ==> es[i].0 < es[j].0
}

/// Index of the last entry whose source is at most `a`, or -1 where there
/// is none.
pub open spec fn floor_index(es: Seq<OmapEntry>, a: u32) -> int
    decreases es.len(),
{
    if es.len() == 0 {
        -1
    } else if es.last().0 <= a {
        es.len() - 1
    } else {
        floor_index(es.drop_last(), a)
    }
}

/// Where the table `es` sends address `a`: addresses before the first entry
/// and addresses whose entry has target zero stay as they are; the others
/// keep their distance from their entry's source, counted from its target
/// (modulo 2^32).
pub open spec fn translated(es: Seq<OmapEntry>, a: u32) -> u32 {
    let i = floor_index(es, a);
    if i < 0 || es[i].1 == 0 {
        a
    } else {
        ((a - es[i].0 + es[i].1) % 0x1_0000_0000) as u32
    }
}

/// Number of entries whose source is below `s`.
pub open spec fn count_below(es: Seq<OmapEntry>, s: u32) -> int
    decreases es.len(),
{
    if es.len() == 0 {
        0
    } else if es.last().0 < s {
        es.len() as int
    } else {
        count_below(es.drop_last(), s)
    }
}

/// The serialized table: each entry as its source then its target.
pub open spec fn omap_bytes(es: Seq<OmapEntry>) -> Seq<u8>
    decreases es.len(),
{
    if es.len() == 0 {
        Seq::empty()
    } else {
        omap_bytes(es.drop_last()) + u32_le(es.last().0) + u32_le(es.last().1)
    }
}

/// The `i`-th pair of integers in `b`.
pub open spec fn pair_at(b: Seq<u8>, i: int) -> OmapEntry {
    OmapEntry(u32_at(b, 8 * i), u32_at(b, 8 * i + 4))
}

/// Reading the first `n` pairs of `b`: the entries kept, and whether reading
/// stopped. A pair whose source repeats the last kept source is skipped; a
/// pair whose source is below it stops the reading.
pub open spec fn omap_scan(b: Seq<u8>, n: nat) -> (Seq<OmapEntry>, bool)
    decreases n,
{
    if n == 0 {
        (Seq::empty(), false)
    } else {
        let (es, stopped) = omap_scan(b, (n - 1) as nat);
        let p = pair_at(b, n - 1);
        if stopped {
            (es, true)
        } else if es.len() > 0 && p.0 < es.last().0 {
            (es, true)
        } else if es.len() > 0 && p.0 == es.last().0 {
            (es, false)
        } else {
            (es.push(p), false)
        }
    }
}

/// In a sorted table, the entries up to `floor_index` are those at or below
/// `a`.
proof fn lemma_floor_index(es: Seq<OmapEntry>, a: u32, k: int)
    requires
        sorted_by_source(es),
        0 <= k <= es.len(),
        forall|i: int| 0 <= i < k ==> es[i].0 <= a,
        forall|i: int| k <= i < es.len() ==> es[i].0 > a,
    ensures
        floor_index(es, a) == k - 1,
    decreases es.len(),
{
    if es.len() > 0 && k < es.len() {
        lemma_floor_index(es.drop_last(), a, k);
    }
}

/// In a sorted table, the entries below `count_below` are those below `s`.
proof fn lemma_count_below(es: Seq<OmapEntry>, s: u32, k: int)
    requires
        sorted_by_source(es),
        0 <= k <= es.len(),
        forall|i: int| 0 <= i < k ==> es[i].0 < s,
        forall|i: int| k <= i < es.len() ==> es[i].0 >= s,
    ensures
        count_below(es, s) == k,
    decreases es.len(),
{
    if es.len() > 0 && k < es.len() {
        lemma_count_below(es.drop_last(), s, k);
    }
}

/// Within the range of one entry, translation never decreases: for `a <= b`
/// that find the same entry, `a` goes no higher than `b`, where `b`'s
/// translation does not wrap past 2^32.
pub proof fn lemma_translate_monotonic(es: Seq<OmapEntry>, a: u32, b: u32)
    requires
        a <= b,
        floor_index(es, a) == floor_index(es, b),
        floor_index(es, b) >= 0 ==> b - es[floor_index(es, b)].0 + es[floor_index(es, b)].1
            < 0x1_0000_0000,
    ensures
        translated(es, a) <= translated(es, b),
{
    lemma_floor_index_bounds(es, a);
    lemma_floor_index_bounds(es, b);
    let i = floor_index(es, b);
    if i >= 0 && es[i].1 != 0 {
        let x = (a - es[i].0 + es[i].1) as nat;
        let y = (b - es[i].0 + es[i].1) as nat;
        vstd::arithmetic::div_mod::lemma_small_mod(x, 0x1_0000_0000);
        vstd::arithmetic::div_mod::lemma_small_mod(y, 0x1_0000_0000);
    }
}

/// An address below the first entry's source stays as it is.
pub proof fn lemma_translate_below_first(es: Seq<OmapEntry>, a: u32)
    requires
        sorted_by_source(es),
        es.len() > 0,
        a < es[0].0,
    ensures
        translated(es, a) == a,
{
    assert forall|i: int| 0 <= i < es.len() implies es[i].0 > a by {
        if i > 0 {
            assert(es[0].0 < es[i].0);
        }
    }
    lemma_floor_index(es, a, 0);
}

/// An address whose entry has target zero stays as it is.
pub proof fn lemma_translate_unmapped(es: Seq<OmapEntry>, a: u32)
    requires
        floor_index(es, a) >= 0,
        es[floor_index(es, a)].1 == 0,
    ensures
        translated(es, a) == a,
{
}

/// `floor_index` names an entry of the table, one at or below `a`, or none.
pub proof fn lemma_floor_index_bounds(es: Seq<OmapEntry>, a: u32)
    ensures
        -1 <= floor_index(es, a) < es.len(),
        floor_index(es, a) >= 0 ==> es[floor_index(es, a)].0 <= a,
    decreases es.len(),
{
    if es.len() > 0 && es.last().0 > a {
        lemma_floor_index_bounds(es.drop_last(), a);
    }
}

/// A table of address mappings, sorted by source address, one entry per
/// source.
#[derive(Debug)]
pub struct OmapStream(Vec<OmapEntry>);

impl View for OmapStream {
    type V = Seq<OmapEntry>;

    closed spec fn view(&self) -> Seq<OmapEntry> {
        self.0@
    }
}

impl Default for OmapStream {
    fn default() -> (r: OmapStream)
        ensures
            r@ == Seq::<OmapEntry>::empty(),
    {
        OmapStream(Vec::new())
    }
}

impl OmapStream {
    #[verifier::type_invariant]
    spec fn sorted(self) -> bool {
        sorted_by_source(self.0@)
    }

    /// Reads a table from a stream: pairs of source and target, up to the
    /// end of the stream or to the first pair whose source goes back below
    /// the last one kept. A pair that repeats the last source is skipped.
    /// Fails where the stream ends inside a pair before the reading stops.
    pub fn new(stream: Stream) -> (r: Result<OmapStream, MsfError>)
        ensures
            ({
                let b = stream.view.bytes@;
                let (es, stopped) = omap_scan(b, b.len() / 8);
                &&& r is Ok <==> stopped || b.len() % 8 == 0
                &&& r matches Err(e) ==> e == MsfError::ParseError
                &&& r matches Ok(o) ==> o@ == es && sorted_by_source(o@)
            }),
    {
        let b = stream.view.as_slice();
        let blen = b.len();
        let n = blen / 8;
        let mut es: Vec<OmapEntry> = Vec::new();
        let mut i: usize = 0;
        let mut stopped = false;
        while i < n && !stopped
            invariant
                i <= n == b@.len() / 8,
                blen == b@.len(),
                (es@, stopped) == omap_scan(b@, i as nat),
                sorted_by_source(es@),
                stopped ==> forall|j: nat| i <= j <= n ==> #[trigger] omap_scan(b@, j) == (es@, true),
            decreases n - i,
        {
            let source = read_u32(b, 8 * i);
            let target = read_u32(b, 8 * i + 4);
            let len = es.len();
            if len > 0 && source < es[len - 1].0 {
                stopped = true;
                assert forall|j: nat| i + 1 <= j <= n implies #[trigger] omap_scan(b@, j) == (
                    es@,
                    true,
                ) by {
                    lemma_scan_stays_stopped(b@, (i + 1) as nat, j);
                }
            } else if len > 0 && source == es[len - 1].0 {
            } else {
                es.push(OmapEntry(source, target));
            }
            i = i + 1;
        }
        if stopped {
            assert(omap_scan(b@, n as nat) == (es@, true));
            Ok(OmapStream(es))
        } else if b.len() % 8 == 0 {
            Ok(OmapStream(es))
        } else {
            Err(MsfError::ParseError)
        }
    }

    /// Number of entries; the entries are sorted by source.
    pub fn len(&self) -> (r: usize)
        ensures
            r == self@.len(),
            sorted_by_source(self@),
    {
        proof {
            use_type_invariant(self);
        }
        self.0.len()
    }

    /// The entry at `i`.
    pub fn get(&self, i: usize) -> (r: OmapEntry)
        requires
            i < self@.len(),
        ensures
            r == self@[i as int],
    {
        self.0[i]
    }

    /// Adds `entry` in source order, unless an entry with the same source is
    /// there already; says whether it was added.
    pub fn insert(&mut self, entry: OmapEntry) -> (r: bool)
        ensures
            r == !(exists|i: int| 0 <= i < old(self)@.len() && old(self)@[i].0 == entry.0),
            r ==> final(self)@ == old(self)@.insert(count_below(old(self)@, entry.0), entry),
            !r ==> final(self)@ == old(self)@,
            sorted_by_source(final(self)@),
    {
        proof {
            use_type_invariant(&*self);
        }
        let pos = self.lower_bound(entry.0);
        if pos < self.0.len() && self.0[pos].0 == entry.0 {
            return false;
        }
        proof {
            lemma_count_below(self.0@, entry.0, pos as int);
            assert(!(exists|i: int| 0 <= i < self.0@.len() && self.0@[i].0 == entry.0)) by {
                if exists|i: int| 0 <= i < self.0@.len() && self.0@[i].0 == entry.0 {
                    let i = choose|i: int| 0 <= i < self.0@.len() && self.0@[i].0 == entry.0;
                    if i < pos {
                    } else if i > pos {
                        assert(self.0@[pos as int].0 < self.0@[i].0);
                    }
                }
            }
            assert(sorted_by_source(self.0@.insert(pos as int, entry)));
        }
        let mut v = self.0.clone();
        assert(v@ =~= self.0@);
        v.insert(pos, entry);
        *self = OmapStream(v);
        true
    }

    /// Number of entries whose source is below `s`.
    fn lower_bound(&self, s: u32) -> (r: usize)
        ensures
            r <= self@.len(),
            forall|i: int| 0 <= i < r ==> self@[i].0 < s,
            forall|i: int| r <= i < self@.len() ==> self@[i].0 >= s,
    {
        proof {
            use_type_invariant(self);
        }
        let mut lo: usize = 0;
        let mut hi: usize = self.0.len();
        while lo < hi
            invariant
                lo <= hi <= self.0@.len(),
                sorted_by_source(self.0@),
                forall|i: int| 0 <= i < lo ==> self.0@[i].0 < s,
                forall|i: int| hi <= i < self.0@.len() ==> self.0@[i].0 >= s,
            decreases hi - lo,
        {
            let mid = lo + (hi - lo) / 2;
            if self.0[mid].0 < s {
                lo = mid + 1;
            } else {
                hi = mid;
            }
        }
        lo
    }

    /// Number of entries whose source is at most `a`.
    fn upper_bound(&self, a: u32) -> (r: usize)
        ensures
            r <= self@.len(),
            forall|i: int| 0 <= i < r ==> self@[i].0 <= a,
            forall|i: int| r <= i < self@.len() ==> self@[i].0 > a,
    {
        proof {
            use_type_invariant(self);
        }
        let mut lo: usize = 0;
        let mut hi: usize = self.0.len();
        while lo < hi
            invariant
                lo <= hi <= self.0@.len(),
                sorted_by_source(self.0@),
                forall|i: int| 0 <= i < lo ==> self.0@[i].0 <= a,
                forall|i: int| hi <= i < self.0@.len() ==> self.0@[i].0 > a,
            decreases hi - lo,
        {
            let mid = lo + (hi - lo) / 2;
            if self.0[mid].0 <= a {
                lo = mid + 1;
            } else {
                hi = mid;
            }
        }
        lo
    }

    /// Looks up `source_address` in the table: the address it translates to,
    /// or the address itself where no entry maps it.
    pub fn translate(&self, source_address: u32) -> (r: u32)
        ensures
            r == translated(self@, source_address),
    {
        proof {
            use_type_invariant(self);
        }
        let k = self.upper_bound(source_address);
        proof {
            lemma_floor_index(self.0@, source_address, k as int);
        }
        if k == 0 {
            return source_address;
        }
        let record = self.0[k - 1];
        if record.1 == 0 {
            return source_address;
        }
        (source_address - record.0).wrapping_add(record.1)
    }

    /// The table as bytes: each entry's source then its target, little-endian,
    /// in source order.
    pub fn serialize(&self) -> (r: Vec<u8>)
        ensures
            r@ == omap_bytes(self@),
    {
        let mut out: Vec<u8> = Vec::new();
        let mut i: usize = 0;
        assert(self.0@.take(0) =~= Seq::<OmapEntry>::empty());
        while i < self.0.len()
            invariant
                i <= self.0@.len(),
                out@ == omap_bytes(self.0@.take(i as int)),
            decreases self.0@.len() - i,
        {
            let e = self.0[i];
            push_u32(&mut out, e.0);
            push_u32(&mut out, e.1);
            assert(self.0@.take(i + 1).drop_last() =~= self.0@.take(i as int));
            i = i + 1;
        }
        assert(self.0@.take(i as int) =~= self.0@);
        out
    }
}

/// Once reading has stopped it stays stopped, with the same entries.
proof fn lemma_scan_stays_stopped(b: Seq<u8>, i: nat, j: nat)
    requires
        i <= j,
        omap_scan(b, i).1,
    ensures
        omap_scan(b, j) == omap_scan(b, i),
    decreases j - i,
{
    if i < j {
        lemma_scan_stays_stopped(b, i, (j - 1) as nat);
    }
}

} // verus!
