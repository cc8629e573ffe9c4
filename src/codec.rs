//! Little-endian integers inside byte sequences, and byte copies.
use vstd::prelude::*;

verus! {

/// The unsigned 16-bit value stored little-endian at `off`.
pub open spec fn u16_at(s: Seq<u8>, off: int) -> u16 {
    (s[off] as int + s[off + 1] as int * 0x100) as u16
}

/// The unsigned 32-bit value stored little-endian at `off`.
pub open spec fn u32_at(s: Seq<u8>, off: int) -> u32 {
    (s[off] as int + s[off + 1] as int * 0x100 + s[off + 2] as int * 0x1_0000 + s[off + 3] as int
        * 0x100_0000) as u32
}

/// The two bytes of `v`, least significant first.
pub open spec fn u16_le(v: u16) -> Seq<u8> {
    seq![(v % 0x100) as u8, (v / 0x100) as u8]
}

/// The four bytes of `v`, least significant first.
pub open spec fn u32_le(v: u32) -> Seq<u8> {
    seq![
        (v % 0x100) as u8,
        ((v / 0x100) % 0x100) as u8,
        ((v / 0x1_0000) % 0x100) as u8,
        (v / 0x100_0000) as u8,
    ]
}

/// `s` with the bytes from `off` on replaced by `b`.
pub open spec fn splice(s: Seq<u8>, off: int, b: Seq<u8>) -> Seq<u8> {
    s.subrange(0, off) + b + s.subrange(off + b.len(), s.len() as int)
}

/// Reading back a 16-bit value just written gives that value.
pub proof fn lemma_u16_round_trip(s: Seq<u8>, off: int, v: u16)
    requires
        0 <= off,
        off + 2 <= s.len(),
    ensures
        u16_at(splice(s, off, u16_le(v)), off) == v,
        splice(s, off, u16_le(v)).len() == s.len(),
{
    let t = splice(s, off, u16_le(v));
    assert(t[off] == (v % 0x100) as u8);
    assert(t[off + 1] == (v / 0x100) as u8);
}

/// Reading back a 32-bit value just written gives that value.
pub proof fn lemma_u32_round_trip(s: Seq<u8>, off: int, v: u32)
    requires
        0 <= off,
        off + 4 <= s.len(),
    ensures
        u32_at(splice(s, off, u32_le(v)), off) == v,
        splice(s, off, u32_le(v)).len() == s.len(),
{
    let t = splice(s, off, u32_le(v));
    assert(t[off] == (v % 0x100) as u8);
    assert(t[off + 1] == ((v / 0x100) % 0x100) as u8);
    assert(t[off + 2] == ((v / 0x1_0000) % 0x100) as u8);
    assert(t[off + 3] == (v / 0x100_0000) as u8);
}

/// Writing four bytes leaves a 32-bit value elsewhere as it was.
pub proof fn lemma_u32_splice_other(s: Seq<u8>, off: int, b: Seq<u8>, other: int)
    requires
        0 <= off,
        off + b.len() <= s.len(),
        0 <= other,
        other + 4 <= s.len(),
        other + 4 <= off || off + b.len() <= other,
    ensures
        u32_at(splice(s, off, b), other) == u32_at(s, other),
{
    let t = splice(s, off, b);
    assert(t[other] == s[other]);
    assert(t[other + 1] == s[other + 1]);
    assert(t[other + 2] == s[other + 2]);
    assert(t[other + 3] == s[other + 3]);
}

/// Writing a 32-bit value over itself changes nothing.
pub proof fn lemma_u32_splice_same(s: Seq<u8>, off: int)
    requires
        0 <= off,
        off + 4 <= s.len(),
    ensures
        splice(s, off, u32_le(u32_at(s, off))) == s,
{
    let v = u32_at(s, off);
    let (b0, b1, b2, b3) = (s[off] as int, s[off + 1] as int, s[off + 2] as int, s[off + 3] as int);
    let q1 = b1 + b2 * 0x100 + b3 * 0x1_0000;
    let q2 = b2 + b3 * 0x100;
    assert(v == b0 + q1 * 0x100);
    vstd::arithmetic::div_mod::lemma_fundamental_div_mod_converse(v as int, 0x100, q1, b0);
    vstd::arithmetic::div_mod::lemma_fundamental_div_mod_converse(q1, 0x100, q2, b1);
    vstd::arithmetic::div_mod::lemma_fundamental_div_mod_converse(q2, 0x100, b3, b2);
    vstd::arithmetic::div_mod::lemma_div_denominator(v as int, 0x100, 0x100);
    vstd::arithmetic::div_mod::lemma_div_denominator(v as int, 0x1_0000, 0x100);
    let t = splice(s, off, u32_le(v));
    assert(t =~= s);
}

/// The four bytes of the value at `off` are the bytes found there.
pub proof fn lemma_u32_le_of_at(s: Seq<u8>, off: int)
    requires
        0 <= off,
        off + 4 <= s.len(),
    ensures
        u32_le(u32_at(s, off)) == s.subrange(off, off + 4),
{
    lemma_u32_splice_same(s, off);
    let t = splice(s, off, u32_le(u32_at(s, off)));
    assert forall|k: int| 0 <= k < 4 implies u32_le(u32_at(s, off))[k] == s[off + k] by {
        assert(t[off + k] == u32_le(u32_at(s, off))[k]);
    }
    assert(u32_le(u32_at(s, off)) =~= s.subrange(off, off + 4));
}

/// A second write at the same place replaces the first.
pub proof fn lemma_splice_twice(s: Seq<u8>, off: int, a: Seq<u8>, b: Seq<u8>)
    requires
        0 <= off,
        off + a.len() <= s.len(),
        a.len() == b.len(),
    ensures
        splice(splice(s, off, a), off, b) == splice(s, off, b),
{
    assert(splice(splice(s, off, a), off, b) =~= splice(s, off, b));
}

/// Reads the little-endian `u16` at `off`.
pub fn read_u16(s: &[u8], off: usize) -> (r: u16)
    requires
        off + 2 <= s@.len(),
    ensures
        r == u16_at(s@, off as int),
{
    let b0 = s[off] as u16;
    let b1 = s[off + 1] as u16;
    b0 + b1 * 0x100
}

/// Reads the little-endian `u32` at `off`.
pub fn read_u32(s: &[u8], off: usize) -> (r: u32)
    requires
        off + 4 <= s@.len(),
    ensures
        r == u32_at(s@, off as int),
{
    let b0 = s[off] as u32;
    let b1 = s[off + 1] as u32;
    let b2 = s[off + 2] as u32;
    let b3 = s[off + 3] as u32;
    b0 + b1 * 0x100 + b2 * 0x1_0000 + b3 * 0x100_0000
}

/// Reads the little-endian `u32` at `off`, or nothing where fewer than four
/// bytes are left there.
pub fn try_read_u32(s: &[u8], off: usize) -> (r: Option<u32>)
    ensures
        r == (if off + 4 <= s@.len() {
            Some(u32_at(s@, off as int))
        } else {
            None::<u32>
        }),
{
    if off <= s.len() && s.len() - off >= 4 {
        Some(read_u32(s, off))
    } else {
        None
    }
}

/// Writes `v` little-endian at `off`.
pub fn write_u16(s: &mut [u8], off: usize, v: u16)
    requires
        off + 2 <= old(s)@.len(),
    ensures
        final(s)@ == splice(old(s)@, off as int, u16_le(v)),
{
    s[off] = (v % 0x100) as u8;
    s[off + 1] = (v / 0x100) as u8;
    assert(s@ =~= splice(old(s)@, off as int, u16_le(v)));
}

/// Writes `v` little-endian at `off`.
pub fn write_u32(s: &mut [u8], off: usize, v: u32)
    requires
        off + 4 <= old(s)@.len(),
    ensures
        final(s)@ == splice(old(s)@, off as int, u32_le(v)),
{
    s[off] = (v % 0x100) as u8;
    s[off + 1] = ((v / 0x100) % 0x100) as u8;
    s[off + 2] = ((v / 0x1_0000) % 0x100) as u8;
    s[off + 3] = (v / 0x100_0000) as u8;
    assert(s@ =~= splice(old(s)@, off as int, u32_le(v)));
}

/// Copies `src` into `dst` from `at` on.
pub fn copy_into(dst: &mut Vec<u8>, at: usize, src: &[u8])
    requires
        at + src@.len() <= old(dst)@.len(),
    ensures
        final(dst)@ == splice(old(dst)@, at as int, src@),
{
    let dst_len = dst.len();
    let mut i: usize = 0;
    while i < src.len()
        invariant
            i <= src@.len(),
            dst@.len() == old(dst)@.len() == dst_len,
            at + src@.len() <= old(dst)@.len(),
            dst@ == splice(old(dst)@, at as int, src@.subrange(0, i as int)),
        decreases src@.len() - i,
    {
        let b = src[i];
        dst.set(at + i, b);
        assert(dst@ =~= splice(old(dst)@, at as int, src@.subrange(0, i + 1)));
        i = i + 1;
    }
    assert(src@.subrange(0, i as int) =~= src@);
}

/// Appends `src[start..end]` to `dst`.
pub fn extend_from(dst: &mut Vec<u8>, src: &[u8], start: usize, end: usize)
    requires
        start <= end <= src@.len(),
    ensures
        final(dst)@ == old(dst)@ + src@.subrange(start as int, end as int),
{
    let mut k: usize = start;
    while k < end
        invariant
            start <= k <= end <= src@.len(),
            dst@ == old(dst)@ + src@.subrange(start as int, k as int),
        decreases end - k,
    {
        dst.push(src[k]);
        assert(dst@ =~= old(dst)@ + src@.subrange(start as int, k + 1));
        k = k + 1;
    }
}

/// Appends `x` little-endian to `dst`.
pub fn push_u32(dst: &mut Vec<u8>, x: u32)
    ensures
        final(dst)@ == old(dst)@ + u32_le(x),
{
    dst.push((x % 0x100) as u8);
    dst.push(((x / 0x100) % 0x100) as u8);
    dst.push(((x / 0x1_0000) % 0x100) as u8);
    dst.push((x / 0x100_0000) as u8);
    assert(dst@ =~= old(dst)@ + u32_le(x));
}

/// Appends `n` zero bytes to `dst`.
pub fn extend_zeros(dst: &mut Vec<u8>, n: usize)
    ensures
        final(dst)@ == old(dst)@ + Seq::new(n as nat, |i: int| 0u8),
{
    let mut k: usize = 0;
    while k < n
        invariant
            k <= n,
            dst@ == old(dst)@ + Seq::new(k as nat, |i: int| 0u8),
        decreases n - k,
    {
        dst.push(0);
        assert(dst@ =~= old(dst)@ + Seq::new((k + 1) as nat, |i: int| 0u8));
        k = k + 1;
    }
}

} // verus!
