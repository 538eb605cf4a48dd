//! Little-endian fields in byte strings.
use vstd::prelude::*;
use vstd::slice::slice_to_vec;

verus! {

/// The `u32` whose little-endian bytes stand at `off`.
pub open spec fn u32_at(s: Seq<u8>, off: int) -> u32 {
    (s[off] + s[off + 1] * 0x100 + s[off + 2] * 0x1_0000 + s[off + 3] * 0x100_0000) as u32
}

/// The `u64` whose little-endian bytes stand at `off`.
pub open spec fn u64_at(s: Seq<u8>, off: int) -> u64 {
    (u32_at(s, off) + u32_at(s, off + 4) * 0x1_0000_0000) as u64
}

/// The four bytes of `v`, least significant first.
pub open spec fn u32_bytes(v: u32) -> Seq<u8> {
    seq![
        (v % 0x100) as u8,
        (v / 0x100 % 0x100) as u8,
        (v / 0x1_0000 % 0x100) as u8,
        (v / 0x100_0000) as u8,
    ]
}

/// The eight bytes of `v`, least significant first.
pub open spec fn u64_bytes(v: u64) -> Seq<u8> {
    u32_bytes((v % 0x1_0000_0000) as u32) + u32_bytes((v / 0x1_0000_0000) as u32)
}

/// The two's complement bits of `v`.
pub open spec fn i32_bits(v: i32) -> u32 {
    if v < 0 {
        (v + 0x1_0000_0000) as u32
    } else {
        v as u32
    }
}

/// The number whose two's complement bits are `b`.
pub open spec fn bits_i32(b: u32) -> i32 {
    if b >= 0x8000_0000 {
        (b - 0x1_0000_0000) as i32
    } else {
        b as i32
    }
}

pub fn i32_to_bits(v: i32) -> (r: u32)
    ensures
        r == i32_bits(v),
{
    if v < 0 {
        (v as i64 + 0x1_0000_0000) as u32
    } else {
        v as u32
    }
}

pub fn i32_from_bits(b: u32) -> (r: i32)
    ensures
        r == bits_i32(b),
{
    if b >= 0x8000_0000 {
        (b as i64 - 0x1_0000_0000) as i32
    } else {
        b as i32
    }
}

/// `s` with the bytes from `off` on replaced by `b`.
pub open spec fn splice(s: Seq<u8>, off: int, b: Seq<u8>) -> Seq<u8> {
    s.subrange(0, off) + b + s.subrange(off + b.len(), s.len() as int)
}

/// `s` with the `u32` at `off` replaced by `v`.
pub open spec fn with_u32(s: Seq<u8>, off: int, v: u32) -> Seq<u8> {
    splice(s, off, u32_bytes(v))
}

/// `s` with the `u64` at `off` replaced by `v`.
pub open spec fn with_u64(s: Seq<u8>, off: int, v: u64) -> Seq<u8> {
    splice(s, off, u64_bytes(v))
}

pub fn get_u32(buf: &[u8], off: usize) -> (r: u32)
    requires
        off + 4 <= buf@.len(),
    ensures
        r == u32_at(buf@, off as int),
{
    let n: usize = buf.len();
    buf[off] as u32 + buf[off + 1] as u32 * 0x100 + buf[off + 2] as u32 * 0x1_0000 + buf[off + 3] as u32 * 0x100_0000
}

pub fn get_u64(buf: &[u8], off: usize) -> (r: u64)
    requires
        off + 8 <= buf@.len(),
    ensures
        r == u64_at(buf@, off as int),
{
    let n: usize = buf.len();
    get_u32(buf, off) as u64 + get_u32(buf, off + 4) as u64 * 0x1_0000_0000
}

pub fn u32_to_bytes(v: u32) -> (r: Vec<u8>)
    ensures
        r@ == u32_bytes(v),
{
    let mut r: Vec<u8> = Vec::new();
    r.push((v % 0x100) as u8);
    r.push((v / 0x100 % 0x100) as u8);
    r.push((v / 0x1_0000 % 0x100) as u8);
    r.push((v / 0x100_0000) as u8);
    r
}

pub fn u64_to_bytes(v: u64) -> (r: Vec<u8>)
    ensures
        r@ == u64_bytes(v),
{
    let mut r: Vec<u8> = u32_to_bytes((v % 0x1_0000_0000) as u32);
    let mut high: Vec<u8> = u32_to_bytes((v / 0x1_0000_0000) as u32);
    r.append(&mut high);
    r
}

pub fn put_bytes(buf: &mut Vec<u8>, off: usize, b: &Vec<u8>)
    requires
        off + b@.len() <= old(buf)@.len(),
    ensures
        final(buf)@ == splice(old(buf)@, off as int, b@),
{
    let mut i: usize = 0;
    let n: usize = buf.len();
    while i < b.len()
        invariant
            n == old(buf)@.len(),
            i <= b@.len(),
            off + b@.len() <= old(buf)@.len(),
            buf@ == splice(old(buf)@, off as int, b@.subrange(0, i as int)),
        decreases b.len() - i,
    {
        buf[off + i] = b[i];
        i = i + 1;
        assert(buf@ =~= splice(old(buf)@, off as int, b@.subrange(0, i as int)));
    }
    assert(b@.subrange(0, i as int) =~= b@);
}

pub fn put_u32(buf: &mut Vec<u8>, off: usize, v: u32)
    requires
        off + 4 <= old(buf)@.len(),
    ensures
        final(buf)@ == with_u32(old(buf)@, off as int, v),
{
    let b: Vec<u8> = u32_to_bytes(v);
    put_bytes(buf, off, &b);
}

pub fn put_u64(buf: &mut Vec<u8>, off: usize, v: u64)
    requires
        off + 8 <= old(buf)@.len(),
    ensures
        final(buf)@ == with_u64(old(buf)@, off as int, v),
{
    let b: Vec<u8> = u64_to_bytes(v);
    put_bytes(buf, off, &b);
}

pub fn append(out: &mut Vec<u8>, b: &[u8])
    ensures
        final(out)@ == old(out)@ + b@,
{
    let mut tail: Vec<u8> = slice_to_vec(b);
    out.append(&mut tail);
}

pub fn append_u32(out: &mut Vec<u8>, v: u32)
    ensures
        final(out)@ == old(out)@ + u32_bytes(v),
{
    let mut tail: Vec<u8> = u32_to_bytes(v);
    out.append(&mut tail);
}

pub fn append_u64(out: &mut Vec<u8>, v: u64)
    ensures
        final(out)@ == old(out)@ + u64_bytes(v),
{
    let mut tail: Vec<u8> = u64_to_bytes(v);
    out.append(&mut tail);
}

/// `n` zero bytes.
pub open spec fn zeros(n: nat) -> Seq<u8> {
    Seq::new(n, |i: int| 0u8)
}

pub fn zeroed(n: usize) -> (r: Vec<u8>)
    ensures
        r@ == zeros(n as nat),
{
    let mut r: Vec<u8> = Vec::new();
    while r.len() < n
        invariant
            r@ == zeros(r@.len()),
            r@.len() <= n,
        decreases n - r.len(),
    {
        r.push(0);
        assert(r@ =~= zeros(r@.len()));
    }
    r
}

/// A field reads back as it was written, and writing it changes no other byte.
pub proof fn law_fields_read_back(s: Seq<u8>, off: int, v: u32, w: u64)
    ensures
        0 <= off && off + 4 <= s.len() ==> u32_at(with_u32(s, off, v), off) == v && with_u32(
            s,
            off,
            v,
        ).len() == s.len() && forall|i: int|
            0 <= i < s.len() && !(off <= i < off + 4) ==> #[trigger] with_u32(s, off, v)[i] == s[i],
        0 <= off && off + 8 <= s.len() ==> u64_at(with_u64(s, off, w), off) == w && with_u64(
            s,
            off,
            w,
        ).len() == s.len() && forall|i: int|
            0 <= i < s.len() && !(off <= i < off + 8) ==> #[trigger] with_u64(s, off, w)[i] == s[i],
{
    if 0 <= off && off + 4 <= s.len() {
        let t = with_u32(s, off, v);
        lemma_u32_round_trip(v);
        assert(t[off] == u32_bytes(v)[0] && t[off + 1] == u32_bytes(v)[1] && t[off + 2]
            == u32_bytes(v)[2] && t[off + 3] == u32_bytes(v)[3]);
    }
    if 0 <= off && off + 8 <= s.len() {
        let t = with_u64(s, off, w);
        lemma_u32_round_trip((w % 0x1_0000_0000) as u32);
        lemma_u32_round_trip((w / 0x1_0000_0000) as u32);
        assert(forall|i: int| 0 <= i < 8 ==> #[trigger] t[off + i] == u64_bytes(w)[i]);
        assert(u32_at(t, off) == u32_at(u32_bytes((w % 0x1_0000_0000) as u32), 0)) by {
            assert(t[off + 0] == u64_bytes(w)[0]);
            assert(t[off + 1] == u64_bytes(w)[1]);
            assert(t[off + 2] == u64_bytes(w)[2]);
            assert(t[off + 3] == u64_bytes(w)[3]);
        }
        assert(u32_at(t, off + 4) == u32_at(u32_bytes((w / 0x1_0000_0000) as u32), 0)) by {
            assert(t[off + 4] == u64_bytes(w)[4]);
            assert(t[off + 5] == u64_bytes(w)[5]);
            assert(t[off + 6] == u64_bytes(w)[6]);
            assert(t[off + 7] == u64_bytes(w)[7]);
        }
    }
}

pub proof fn lemma_u32_round_trip(v: u32)
    ensures
        u32_bytes(v).len() == 4,
        u32_at(u32_bytes(v), 0) == v,
{
    assert(v % 0x100 + (v / 0x100 % 0x100) * 0x100 + (v / 0x1_0000 % 0x100) * 0x1_0000 + (v
        / 0x100_0000) * 0x100_0000 == v);
}

pub proof fn lemma_u64_round_trip(v: u64)
    ensures
        u64_bytes(v).len() == 8,
        u64_at(u64_bytes(v), 0) == v,
{
    let low = (v % 0x1_0000_0000) as u32;
    let high = (v / 0x1_0000_0000) as u32;
    lemma_u32_round_trip(low);
    lemma_u32_round_trip(high);
    lemma_u32_same(u64_bytes(v), 0, u32_bytes(low), 0);
    lemma_u32_same(u64_bytes(v), 4, u32_bytes(high), 0);
}

/// Equal bytes hold equal numbers.
pub proof fn lemma_u32_same(s: Seq<u8>, i: int, t: Seq<u8>, j: int)
    requires
        forall|k: int| 0 <= k < 4 ==> #[trigger] s[i + k] == t[j + k],
    ensures
        u32_at(s, i) == u32_at(t, j),
{
    assert(s[i + 0] == t[j + 0]);
    assert(s[i + 1] == t[j + 1]);
    assert(s[i + 2] == t[j + 2]);
    assert(s[i + 3] == t[j + 3]);
}

/// Equal bytes hold equal numbers.
pub proof fn lemma_u64_same(s: Seq<u8>, i: int, t: Seq<u8>, j: int)
    requires
        forall|k: int| 0 <= k < 8 ==> #[trigger] s[i + k] == t[j + k],
    ensures
        u64_at(s, i) == u64_at(t, j),
{
    lemma_u32_same(s, i, t, j);
    assert forall|k: int| 0 <= k < 4 implies #[trigger] s[i + 4 + k] == t[j + 4 + k] by {
        assert(s[i + (4 + k)] == t[j + (4 + k)]);
    }
    lemma_u32_same(s, i + 4, t, j + 4);
}

} // verus!
