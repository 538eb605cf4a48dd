//! The name that a shared library asks to be found under.
//!
//! Only what leads there is read: 64-bit, little-endian files, their program headers, and two
//! entries of the dynamic section.
use crate::abi::until_nul;
use crate::bytes::{get_u32, get_u64, u32_at, u64_at};
use crate::text::utf8_text;
use vstd::prelude::*;
use vstd::slice::slice_subrange;
use vstd::utf8::{decode_utf8, valid_utf8};

verus! {

/// The size of a file's header, and where it says where the program headers are.
pub const HEADER_SIZE: usize = 64;

pub const PROGRAM_OFFSET: usize = 32;

pub const PROGRAM_ENTRY_SIZE: usize = 54;

pub const PROGRAM_ENTRIES: usize = 56;

/// The size of a program header.
pub const SEGMENT_SIZE: usize = 56;

/// A segment that is loaded.
pub const PT_LOAD: u32 = 1;

/// The segment of the dynamic section.
pub const PT_DYNAMIC: u32 = 2;

/// The size of an entry of the dynamic section.
pub const DYNAMIC_SIZE: usize = 16;

/// The entry that gives the address of the string table.
pub const DT_STRTAB: u64 = 5;

/// The entry that gives the place of the library's name in the string table.
pub const DT_SONAME: u64 = 14;

/// The two bytes at `at`, as a number.
pub open spec fn u16_at(b: Seq<u8>, at: int) -> int {
    b[at] + 256 * b[at + 1]
}

/// Whether the file is of the kind that is read here.
pub open spec fn is_elf64(b: Seq<u8>) -> bool {
    &&& b.len() >= HEADER_SIZE
    &&& b[0] == 0x7f && b[1] == 0x45 && b[2] == 0x4c && b[3] == 0x46
    &&& b[4] == 2 && b[5] == 1
}

/// What a program header says.
#[derive(Clone, Copy, Debug, PartialEq, Eq, Structural)]
pub struct Segment {
    pub kind: u32,
    /// Where the segment stands in the file.
    pub offset: u64,
    /// Where it stands once loaded.
    pub address: u64,
    /// How long it is in the file.
    pub size: u64,
}

impl Segment {
    pub open spec fn at(b: Seq<u8>, at: int) -> Segment {
        Segment {
            kind: u32_at(b, at),
            offset: u64_at(b, at + 8),
            address: u64_at(b, at + 16),
            size: u64_at(b, at + 32),
        }
    }
}

/// The program headers, if all of them are there.
pub open spec fn segments(b: Seq<u8>) -> Seq<Segment> {
    let from = u64_at(b, PROGRAM_OFFSET as int);
    let each = u16_at(b, PROGRAM_ENTRY_SIZE as int);
    let count = u16_at(b, PROGRAM_ENTRIES as int);
    if !is_elf64(b) || each < SEGMENT_SIZE || from + each * count > b.len() {
        Seq::empty()
    } else {
        Seq::new(count as nat, |i: int| Segment::at(b, from + each * i))
    }
}

/// The first segment of this kind.
pub open spec fn first_of(s: Seq<Segment>, kind: u32) -> Option<Segment>
    decreases s.len(),
{
    if s.len() == 0 {
        None
    } else if s[0].kind == kind {
        Some(s[0])
    } else {
        first_of(s.drop_first(), kind)
    }
}

/// Where what is loaded at `address` stands in the file.
pub open spec fn in_file(s: Seq<Segment>, address: u64) -> Option<int>
    decreases s.len(),
{
    if s.len() == 0 {
        None
    } else if s[0].kind == PT_LOAD && s[0].address <= address < s[0].address + s[0].size {
        Some(s[0].offset + address - s[0].address)
    } else {
        in_file(s.drop_first(), address)
    }
}

/// The value of the first entry with this tag, from `at` on and before the section's end.
pub open spec fn tagged(b: Seq<u8>, at: int, end: int, tag: u64) -> Option<u64>
    decreases end - at,
{
    if at + DYNAMIC_SIZE > end {
        None
    } else if u64_at(b, at) == tag {
        Some(u64_at(b, at + 8))
    } else if u64_at(b, at) == 0 {
        None
    } else {
        tagged(b, at + DYNAMIC_SIZE, end, tag)
    }
}

/// The text at `at`, up to the zero behind it; none where it is empty, not ended or not text.
pub open spec fn text_at(b: Seq<u8>, at: int) -> Option<Seq<char>> {
    let t = until_nul(b.skip(at));
    if at >= b.len() || t.len() == 0 || at + t.len() == b.len() || !valid_utf8(t) {
        None
    } else {
        Some(decode_utf8(t))
    }
}

/// The name that a library asks to be found under.
pub open spec fn spec_soname(b: Seq<u8>) -> Option<Seq<char>> {
    let s = segments(b);
    match first_of(s, PT_DYNAMIC) {
        None => None,
        Some(d) => if d.offset + d.size > b.len() {
            None
        } else {
            let end = d.offset + d.size;
            match (
                tagged(b, d.offset as int, end, DT_STRTAB),
                tagged(b, d.offset as int, end, DT_SONAME),
            ) {
                (Some(table), Some(name)) => match in_file(s, table) {
                    Some(start) => text_at(b, start + name),
                    None => None,
                },
                _ => None,
            }
        },
    }
}

fn read_segments(b: &[u8]) -> (r: Vec<Segment>)
    ensures
        r@ == segments(b@),
{
    let mut r: Vec<Segment> = Vec::new();
    assert(r@ =~= Seq::<Segment>::empty());
    if b.len() < HEADER_SIZE || b[0] != 0x7f || b[1] != 0x45 || b[2] != 0x4c || b[3] != 0x46 || b[4]
        != 2 || b[5] != 1 {
        return r;
    }
    let from: u64 = get_u64(b, PROGRAM_OFFSET);
    let each: u64 = b[PROGRAM_ENTRY_SIZE] as u64 + 256 * (b[PROGRAM_ENTRY_SIZE + 1] as u64);
    let count: u64 = b[PROGRAM_ENTRIES] as u64 + 256 * (b[PROGRAM_ENTRIES + 1] as u64);
    if each < SEGMENT_SIZE as u64 {
        return r;
    }
    assert(0 <= each * count <= 65535 * 65535) by (nonlinear_arith)
        requires
            each <= 65535,
            count <= 65535,
    ;
    let all: u64 = each * count;
    if all > b.len() as u64 || from > b.len() as u64 - all {
        return r;
    }
    let mut i: u64 = 0;
    let mut at: u64 = from;
    assert(each * 0 == 0) by (nonlinear_arith);
    while i < count
        invariant
            i <= count,
            each >= SEGMENT_SIZE,
            at == from + each * i,
            from + each * count <= b@.len(),
            r@ == Seq::new(i as nat, |j: int| Segment::at(b@, from + each * j)),
        decreases count - i,
    {
        assert(each * i + each == each * (i + 1) <= each * count) by (nonlinear_arith)
            requires
                0 <= i < count,
                each >= 0,
        ;
        assert(at + SEGMENT_SIZE <= b@.len());
        assert(b.len() == b@.len());
        let p: usize = at as usize;
        assert(p == at);
        r.push(
            Segment {
                kind: get_u32(b, p),
                offset: get_u64(b, p + 8),
                address: get_u64(b, p + 16),
                size: get_u64(b, p + 32),
            },
        );
        at = at + each;
        i = i + 1;
        assert(r@ =~= Seq::new(i as nat, |j: int| Segment::at(b@, from + each * j)));
    }
    r
}

fn find_segment(s: &Vec<Segment>, kind: u32) -> (r: Option<Segment>)
    ensures
        r == first_of(s@, kind),
{
    let mut i: usize = 0;
    assert(s@.skip(0) =~= s@);
    while i < s.len()
        invariant
            i <= s@.len(),
            first_of(s@, kind) == first_of(s@.skip(i as int), kind),
        decreases s.len() - i,
    {
        if s[i].kind == kind {
            return Some(s[i]);
        }
        assert(s@.skip(i as int).drop_first() =~= s@.skip(i + 1));
        i = i + 1;
    }
    None
}

/// Where `address` stands in a file of `len` bytes, unless it lies behind the file's end.
fn locate(s: &Vec<Segment>, address: u64, len: u64) -> (r: Option<u64>)
    ensures
        match r {
            Some(at) => in_file(s@, address) == Some(at as int) && at < len,
            None => in_file(s@, address) matches Some(at) ==> at >= len,
        },
{
    let mut i: usize = 0;
    assert(s@.skip(0) =~= s@);
    while i < s.len()
        invariant
            i <= s@.len(),
            in_file(s@, address) == in_file(s@.skip(i as int), address),
        decreases s.len() - i,
    {
        let one: Segment = s[i];
        if one.kind == PT_LOAD && one.address <= address && address - one.address < one.size {
            let inside: u64 = address - one.address;
            if one.offset >= len || inside >= len - one.offset {
                return None;
            }
            return Some(one.offset + inside);
        }
        assert(s@.skip(i as int).drop_first() =~= s@.skip(i + 1));
        i = i + 1;
    }
    None
}

fn find_tag(b: &[u8], from: usize, end: usize, tag: u64) -> (r: Option<u64>)
    requires
        from <= end <= b@.len(),
    ensures
        r == tagged(b@, from as int, end as int, tag),
{
    let mut at: usize = from;
    while end - at >= DYNAMIC_SIZE
        invariant
            from <= at <= end <= b@.len(),
            tagged(b@, from as int, end as int, tag) == tagged(b@, at as int, end as int, tag),
        decreases end - at,
    {
        let t: u64 = get_u64(b, at);
        if t == tag {
            return Some(get_u64(b, at + 8));
        }
        if t == 0 {
            return None;
        }
        at = at + DYNAMIC_SIZE;
    }
    None
}

/// Where the first zero stands from `from` on, or the end.
fn nul_from(b: &[u8], from: usize) -> (r: usize)
    requires
        from <= b@.len(),
    ensures
        from <= r <= b@.len(),
        until_nul(b@.skip(from as int)) == b@.subrange(from as int, r as int),
{
    let mut end: usize = from;
    let ghost all = b@.skip(from as int);
    assert(until_nul(all) =~= b@.subrange(from as int, from as int) + until_nul(all));
    while end < b.len() && b[end] != 0
        invariant
            from <= end <= b@.len(),
            all == b@.skip(from as int),
            until_nul(all) == b@.subrange(from as int, end as int) + until_nul(b@.skip(end as int)),
        decreases b.len() - end,
    {
        let ghost cur = b@.skip(end as int);
        assert(cur.drop_first() =~= b@.skip(end + 1));
        assert(b@.subrange(from as int, end as int) + (seq![cur[0]] + until_nul(b@.skip(end + 1)))
            =~= b@.subrange(from as int, end + 1) + until_nul(b@.skip(end + 1)));
        end = end + 1;
    }
    assert(b@.subrange(from as int, end as int) + until_nul(b@.skip(end as int)) =~= b@.subrange(
        from as int,
        end as int,
    ));
    end
}

fn read_text(b: &[u8], at: usize) -> (r: Option<String>)
    requires
        at < b@.len(),
    ensures
        match r {
            Some(s) => text_at(b@, at as int) == Some(s@),
            None => text_at(b@, at as int) is None,
        },
{
    let end: usize = nul_from(b, at);
    if end == at || end == b.len() {
        return None;
    }
    match utf8_text(slice_subrange(b, at, end)) {
        Some(s) => Some(s.to_owned()),
        None => None,
    }
}

/// The name that a library asks to be found under, from the bytes of its file.
pub fn soname(file: &[u8]) -> (r: Option<String>)
    ensures
        match r {
            Some(s) => spec_soname(file@) == Some(s@),
            None => spec_soname(file@) is None,
        },
{
    let s: Vec<Segment> = read_segments(file);
    let d: Segment = match find_segment(&s, PT_DYNAMIC) {
        Some(d) => d,
        None => {
            return None;
        },
    };
    let len: u64 = file.len() as u64;
    if d.size > len || d.offset > len - d.size {
        return None;
    }
    let from: usize = d.offset as usize;
    let end: usize = (d.offset + d.size) as usize;
    match (find_tag(file, from, end, DT_STRTAB), find_tag(file, from, end, DT_SONAME)) {
        (Some(table), Some(name)) => match locate(&s, table, len) {
            Some(start) => if name < len - start {
                read_text(file, (start + name) as usize)
            } else {
                None
            },
            None => None,
        },
        _ => None,
    }
}

} // verus!
