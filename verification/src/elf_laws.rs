//! Where the name of a library stands in its file.
use crate::abi::until_nul;
use crate::bytes::{u32_at, u64_at};
use crate::elf::{first_of, in_file, segments, spec_soname, tagged, Segment};
use vstd::prelude::*;
use vstd::utf8::{decode_utf8, valid_utf8};

verus! {

/// Where the `i`-th program header of a file begins: their offset stands at 32, the size of each at
/// 54, how many there are at 56.
pub open spec fn header_at(b: Seq<u8>, i: int) -> int {
    u64_at(b, 32) + (b[54] + 256 * b[55]) * i
}

pub open spec fn headers(b: Seq<u8>) -> int {
    b[56] + 256 * b[57]
}

/// A 64-bit, little-endian file whose program headers are all there.
pub open spec fn is_whole(b: Seq<u8>) -> bool {
    &&& b.len() >= 64
    &&& b[0] == 0x7f
    &&& b[1] == 'E' as u8
    &&& b[2] == 'L' as u8
    &&& b[3] == 'F' as u8
    &&& b[4] == 2
    &&& b[5] == 1
    &&& b[54] + 256 * b[55] >= 56
    &&& header_at(b, headers(b)) <= b.len()
}

proof fn lemma_first_of(s: Seq<Segment>, kind: u32, d: int)
    requires
        0 <= d < s.len(),
        s[d].kind == kind,
        forall|i: int| 0 <= i < d ==> (#[trigger] s[i]).kind != kind,
    ensures
        first_of(s, kind) == Some(s[d]),
    decreases d,
{
    if d > 0 {
        assert(s[0].kind != kind);
        let rest = s.drop_first();
        assert forall|i: int| 0 <= i < d - 1 implies (#[trigger] rest[i]).kind != kind by {
            assert(rest[i] == s[i + 1]);
        }
        lemma_first_of(rest, kind, d - 1);
    }
}

/// Whether a segment is loaded and holds the address.
pub open spec fn loads(s: Segment, address: u64) -> bool {
    s.kind == 1 && s.address <= address < s.address + s.size
}

proof fn lemma_in_file(s: Seq<Segment>, address: u64, l: int)
    requires
        0 <= l < s.len(),
        loads(s[l], address),
        forall|i: int| 0 <= i < l ==> !loads(#[trigger] s[i], address),
    ensures
        in_file(s, address) == Some(s[l].offset + address - s[l].address),
    decreases l,
{
    if l > 0 {
        assert(!loads(s[0], address));
        let rest = s.drop_first();
        assert forall|i: int| 0 <= i < l - 1 implies !loads(#[trigger] rest[i], address) by {
            assert(rest[i] == s[i + 1]);
        }
        lemma_in_file(rest, address, l - 1);
    }
}

proof fn lemma_tagged(b: Seq<u8>, at: int, end: int, tag: u64, k: int)
    requires
        0 <= k,
        at + 16 * k + 16 <= end,
        u64_at(b, at + 16 * k) == tag,
        forall|i: int|
            0 <= i < k ==> #[trigger] u64_at(b, at + 16 * i) != tag && u64_at(b, at + 16 * i) != 0,
    ensures
        tagged(b, at, end, tag) == Some(u64_at(b, at + 16 * k + 8)),
    decreases k,
{
    if k > 0 {
        assert(u64_at(b, at + 16 * 0) != tag);
        assert forall|i: int| 0 <= i < k - 1 implies #[trigger] u64_at(b, at + 16 + 16 * i) != tag
            && u64_at(b, at + 16 + 16 * i) != 0 by {
            assert(u64_at(b, at + 16 * (i + 1)) != tag);
        }
        lemma_tagged(b, at + 16, end, tag, k - 1);
    }
}

proof fn lemma_ended(t: Seq<u8>, n: int)
    requires
        0 <= n < t.len(),
        t[n] == 0,
        forall|i: int| 0 <= i < n ==> #[trigger] t[i] != 0,
    ensures
        until_nul(t) == t.take(n),
    decreases n,
{
    if n > 0 {
        assert(t[0] != 0);
        let rest = t.drop_first();
        assert(rest[n - 1] == t[n]);
        assert forall|i: int| 0 <= i < n - 1 implies #[trigger] rest[i] != 0 by {
            assert(rest[i] == t[i + 1]);
        }
        lemma_ended(rest, n - 1);
        assert(seq![t[0]] + rest.take(n - 1) =~= t.take(n));
    } else {
        assert(t.take(0) =~= Seq::<u8>::empty());
    }
}

/// A library is found under the text that its dynamic section names. The section is the first segment
/// of kind 2. Its entries take 16 bytes, a tag and a value, and end at a tag of zero: the first with
/// tag 5 gives the address of the string table, which the first segment of kind 1 that holds it turns
/// into a place in the file, and the first with tag 14 gives the place of the name in the table. The
/// name ends at a zero.
pub proof fn law_library_names_are_found(
    b: Seq<u8>,
    d: int,
    k: int,
    m: int,
    l: int,
    at: int,
    n: int,
)
    requires
        is_whole(b),
        0 <= d < headers(b),
        u32_at(b, header_at(b, d)) == 2,
        forall|i: int| 0 <= i < d ==> u32_at(b, #[trigger] header_at(b, i)) != 2,
        ({
            let dynamic = u64_at(b, header_at(b, d) + 8);
            let end = dynamic + u64_at(b, header_at(b, d) + 32);
            &&& end <= b.len()
            &&& 0 <= k && dynamic + 16 * k + 16 <= end
            &&& 0 <= m && dynamic + 16 * m + 16 <= end
            &&& u64_at(b, dynamic + 16 * k) == 5
            &&& u64_at(b, dynamic + 16 * m) == 14
            &&& forall|i: int|
                0 <= i < k ==> #[trigger] u64_at(b, dynamic + 16 * i) != 5 && u64_at(
                    b,
                    dynamic + 16 * i,
                ) != 0
            &&& forall|i: int|
                0 <= i < m ==> #[trigger] u64_at(b, dynamic + 16 * i) != 14 && u64_at(
                    b,
                    dynamic + 16 * i,
                ) != 0
            &&& 0 <= l < headers(b)
            &&& holds_at(b, l, u64_at(b, dynamic + 16 * k + 8))
            &&& forall|i: int|
                0 <= i < l ==> !#[trigger] holds_at(b, i, u64_at(b, dynamic + 16 * k + 8))
            &&& at == u64_at(b, header_at(b, l) + 8) + u64_at(b, dynamic + 16 * k + 8) - u64_at(
                b,
                header_at(b, l) + 16,
            ) + u64_at(b, dynamic + 16 * m + 8)
        }),
        0 < n,
        at + n < b.len(),
        b[at + n] == 0,
        forall|i: int| at <= i < at + n ==> #[trigger] b[i] != 0,
        valid_utf8(b.subrange(at, at + n)),
    ensures
        spec_soname(b) == Some(decode_utf8(b.subrange(at, at + n))),
{
    let s = segments(b);
    let dynamic = u64_at(b, header_at(b, d) + 8);
    let end = dynamic + u64_at(b, header_at(b, d) + 32);
    let table = u64_at(b, dynamic + 16 * k + 8);
    assert(s.len() == headers(b));
    assert forall|i: int| 0 <= i < s.len() implies #[trigger] s[i] == Segment::at(
        b,
        header_at(b, i),
    ) by {}
    assert forall|i: int| 0 <= i < d implies (#[trigger] s[i]).kind != 2 by {
        assert(s[i] == Segment::at(b, header_at(b, i)));
        assert(u32_at(b, header_at(b, i)) != 2);
    }
    assert(s[d] == Segment::at(b, header_at(b, d)));
    lemma_first_of(s, 2, d);
    lemma_tagged(b, dynamic as int, end, 5, k);
    lemma_tagged(b, dynamic as int, end, 14, m);
    assert forall|i: int| 0 <= i < l implies !loads(#[trigger] s[i], table) by {
        assert(s[i] == Segment::at(b, header_at(b, i)));
        assert(!holds_at(b, i, table));
    }
    assert(s[l] == Segment::at(b, header_at(b, l)));
    lemma_in_file(s, table, l);
    assert(at >= 0);
    let t = b.skip(at);
    assert(t[n] == b[at + n]);
    assert forall|i: int| 0 <= i < n implies #[trigger] t[i] != 0 by {
        assert(t[i] == b[at + i]);
    }
    lemma_ended(t, n);
    assert(t.take(n) =~= b.subrange(at, at + n));
}

/// Whether the `i`-th program header is of a segment that is loaded and holds the address: its kind
/// stands at 0, its place in the file at 8, its address at 16 and its size at 32.
pub open spec fn holds_at(b: Seq<u8>, i: int, address: u64) -> bool {
    let p = header_at(b, i);
    u32_at(b, p) == 1 && u64_at(b, p + 16) <= address < u64_at(b, p + 16) + u64_at(b, p + 32)
}

/// What is not a whole file of that kind, or has no segment of kind 2, names no library.
pub proof fn law_other_files_have_no_name(b: Seq<u8>)
    requires
        !is_whole(b) || forall|i: int|
            0 <= i < headers(b) ==> u32_at(b, #[trigger] header_at(b, i)) != 2,
    ensures
        spec_soname(b) is None,
{
    let s = segments(b);
    assert forall|i: int| 0 <= i < s.len() implies (#[trigger] s[i]).kind != 2 by {
        assert(s[i] == Segment::at(b, header_at(b, i)));
        assert(u32_at(b, header_at(b, i)) != 2);
    }
    lemma_none_of(s, 2);
}

proof fn lemma_none_of(s: Seq<Segment>, kind: u32)
    requires
        forall|i: int| 0 <= i < s.len() ==> (#[trigger] s[i]).kind != kind,
    ensures
        first_of(s, kind) is None,
    decreases s.len(),
{
    if s.len() > 0 {
        let rest = s.drop_first();
        assert forall|i: int| 0 <= i < rest.len() implies (#[trigger] rest[i]).kind != kind by {
            assert(rest[i] == s[i + 1]);
        }
        assert(s[0].kind != kind);
        lemma_none_of(rest, kind);
    }
}

} // verus!
