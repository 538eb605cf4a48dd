//! The numbers that each profile holds a guest to.
//!
//! Escapes are written here as they travel: 200 `CARD_INFO`, 201 `REGISTER_FD`, 206
//! `ALLOC_OS_EVENT`, 207 `FREE_OS_EVENT`, 210 `CHECK_VERSION_STR`, 212 `ATTACH_GPUS_TO_FD`, 214
//! `SYS_PARAMS` and 218 `WAIT_OPEN_COMPLETE`; of the resource manager 0x27 `ALLOC_MEMORY`, 0x29
//! `FREE`, 0x2a `CONTROL`, 0x2b `ALLOC`, 0x34 `DUP_OBJECT`, 0x41 `IDLE_CHANNELS`, 0x4a
//! `VID_HEAP_CONTROL`, 0x4e `MAP_MEMORY`, 0x4f `UNMAP_MEMORY`, 0x54 `ALLOC_CONTEXT_DMA2`, 0x57
//! `MAP_MEMORY_DMA`, 0x58 `UNMAP_MEMORY_DMA` and 0x5e `UPDATE_DEVICE_MAPPING_INFO`.
use crate::abi::{check, AbiCheck};
use crate::ioctl::{frontend_escapes, ioc, lemma_ioc_fields, rm_escapes};
use crate::version::DriverVersion;
use crate::versions::{
    spec_lookup, spec_supported, spec_table_for, v535_129_03, v580_178_04, v595_58_03, IoctlEntry,
    IoctlKind,
};
use vstd::prelude::*;

verus! {

/// A version as one number, in which later ones are larger.
pub open spec fn rank(v: DriverVersion) -> int {
    v.major * 0x1_0000_0000_0000_0000 + v.minor * 0x1_0000_0000 + v.patch
}

pub open spec fn release(major: int, minor: int, patch: int) -> int {
    major * 0x1_0000_0000_0000_0000 + minor * 0x1_0000_0000 + patch
}

/// Later versions are those with the larger major number, then the larger minor one, then the
/// larger patch.
pub proof fn law_versions_are_ordered(a: DriverVersion, b: DriverVersion)
    ensures
        a.spec_at_least(b) <==> rank(a) >= rank(b),
        rank(a) == rank(b) <==> a == b,
{
}

/// Under the profile of `v`, this escape goes through with this many bytes of parameters, and with
/// any other number of them is told the right one.
pub open spec fn takes(v: DriverVersion, escape: u32, size: u32) -> bool {
    forall|n: u32|
        #![trigger check(spec_table_for(v), escape, n)]
        if n == size {
            check(spec_table_for(v), escape, n) == AbiCheck::Accepted
        } else {
            check(spec_table_for(v), escape, n) == (AbiCheck::SizeMismatch {
                expected: size,
                actual: n,
            })
        }
}

/// Under the profile of `v`, this escape goes through with any number of bytes.
pub open spec fn takes_any(v: DriverVersion, escape: u32) -> bool {
    forall|n: u32| #[trigger]
        check(spec_table_for(v), escape, n) == AbiCheck::VariableLength
}

/// The profile of `v` does not list this escape.
pub open spec fn is_stranger(v: DriverVersion, escape: u32) -> bool {
    forall|n: u32| #[trigger]
        check(spec_table_for(v), escape, n) == AbiCheck::UnknownEscape
}

/// The profile of `v` lists the escape as one of this kind, with an ioctl number of type `F` that
/// reads and writes this many bytes.
pub open spec fn lists(v: DriverVersion, escape: u32, size: int, kind: IoctlKind) -> bool {
    &&& spec_table_for(v) is Some
    &&& spec_lookup(spec_table_for(v)->0, escape) matches Some(e) && {
        &&& e.escape == escape
        &&& e.kind == kind
        &&& e.number == 0xc000_4600 + size * 0x1_0000 + escape
    }
}

/// The first entry with the escape is what is found.
proof fn lemma_found(table: Seq<IoctlEntry>, i: int)
    requires
        0 <= i < table.len(),
        forall|j: int| 0 <= j < i ==> (#[trigger] table[j]).escape != table[i].escape,
    ensures
        spec_lookup(table, table[i].escape) == Some(table[i]),
    decreases i,
{
    if i > 0 {
        let rest = table.drop_first();
        assert(rest[i - 1] == table[i]);
        assert forall|j: int| 0 <= j < i - 1 implies (#[trigger] rest[j]).escape != rest[i - 1].escape by {
            assert(rest[j] == table[j + 1]);
        }
        assert(table[0].escape != table[i].escape);
        lemma_found(rest, i - 1);
    }
}

proof fn lemma_not_found(table: Seq<IoctlEntry>, escape: u32)
    requires
        forall|j: int| 0 <= j < table.len() ==> (#[trigger] table[j]).escape != escape,
    ensures
        spec_lookup(table, escape) is None,
    decreases table.len(),
{
    if table.len() > 0 {
        let rest = table.drop_first();
        assert forall|j: int| 0 <= j < rest.len() implies (#[trigger] rest[j]).escape != escape by {
            assert(rest[j] == table[j + 1]);
        }
        assert(table[0].escape != escape);
        lemma_not_found(rest, escape);
    }
}

/// An entry of a table stands for its escape.
proof fn lemma_row(v: DriverVersion, table: Seq<IoctlEntry>, i: int, escape: u32, size: u32)
    requires
        spec_table_for(v) == Some(table),
        0 <= i < table.len(),
        table[i].escape == escape,
        table[i].number == ioc(3, 0x46, escape, size),
        escape < 0x100,
        size < 0x4000,
        forall|j: int| 0 <= j < i ==> (#[trigger] table[j]).escape != escape,
    ensures
        lists(v, escape, size as int, table[i].kind),
        table[i].param_size matches Some(n) ==> takes(v, escape, n),
        table[i].param_size is None ==> takes_any(v, escape),
{
    lemma_found(table, i);
    lemma_ioc_fields(3, 0x46, escape, size);
}

/// Two releases are supported by name, 535.129.03 and 595.58.03.
pub proof fn law_supported_releases(v: DriverVersion)
    ensures
        spec_supported().contains(v) <==> rank(v) == release(535, 129, 3) || rank(v) == release(
            595,
            58,
            3,
        ),
{
    let s = spec_supported();
    assert(s.len() == 2 && rank(s[0]) == release(535, 129, 3) && rank(s[1]) == release(595, 58, 3));
    if rank(v) == release(535, 129, 3) {
        law_versions_are_ordered(v, s[0]);
    }
    if rank(v) == release(595, 58, 3) {
        law_versions_are_ordered(v, s[1]);
    }
}

/// The escapes of the frontend, and those of the resource manager.
pub proof fn law_escape_numbers(e: u32)
    ensures
        frontend_escapes().contains(e) <==> e == 200 || e == 201 || e == 206 || e == 207 || e == 209 || e == 210
            || e == 211 || e == 212 || e == 213 || e == 214 || e == 217
            || e == 218,
        rm_escapes().contains(e) <==> e == 0x27 || e == 0x28 || e == 0x29 || e == 0x2a || e == 0x2b
            || e == 0x34 || e == 0x35 || e == 0x39 || e == 0x41 || e == 0x4a
            || e == 0x4d || e == 0x4e || e == 0x4f || e == 0x52 || e == 0x54
            || e == 0x56 || e == 0x57 || e == 0x58 || e == 0x59 || e == 0x5c
            || e == 0x5d || e == 0x5e || e == 0x5f,
{
}

/// No driver older than 535.129.03 has a profile.
pub proof fn law_old_drivers_have_no_profile(v: DriverVersion, escape: u32, n: u32)
    requires
        rank(v) < release(535, 129, 3),
    ensures
        check(spec_table_for(v), escape, n) == AbiCheck::NoProfile,
{
}

/// From 535.129.03 on and before 580.178.04, each listed escape goes through with the size that its
/// struct has, and with no other; an escape that is not listed is unknown.
pub proof fn law_sizes_under_535_129_03(v: DriverVersion, other: u32)
    requires
        release(535, 129, 3) <= rank(v),
        rank(v) < release(580, 178, 4),
    ensures
        takes(v, 210, 72),
        takes_any(v, 200),
        takes(v, 201, 4),
        takes(v, 0x2b, 48),
        takes(v, 0x2a, 32),
        takes(v, 0x29, 16),
        takes(v, 0x4e, 56),
        takes(v, 0x4f, 32),
        takes(v, 206, 16),
        takes(v, 207, 16),
        lists(v, 210, 4096, IoctlKind::Simple),
        lists(v, 200, 4096, IoctlKind::Simple),
        lists(v, 201, 8, IoctlKind::FdCarrying),
        lists(v, 0x2b, 48, IoctlKind::RmAlloc),
        lists(v, 0x2a, 56, IoctlKind::RmControl),
        lists(v, 0x29, 16, IoctlKind::Simple),
        lists(v, 0x4e, 56, IoctlKind::Mapping),
        lists(v, 0x4f, 40, IoctlKind::Simple),
        lists(v, 206, 16, IoctlKind::FdCarrying),
        lists(v, 207, 16, IoctlKind::FdCarrying),
        other != 210 && other != 200 && other != 201 && other != 0x2b && other != 0x2a
            && other != 0x29 && other != 0x4e && other != 0x4f && other != 206
            && other != 207
            ==> is_stranger(v, other),
{
    let t = v535_129_03::spec_table();
    assert(spec_table_for(v) == Some(t));
    lemma_row(v, t, 0, 210, 4096);
    lemma_row(v, t, 1, 200, 4096);
    lemma_row(v, t, 2, 201, 8);
    lemma_row(v, t, 3, 0x2b, 48);
    lemma_row(v, t, 4, 0x2a, 56);
    lemma_row(v, t, 5, 0x29, 16);
    lemma_row(v, t, 6, 0x4e, 56);
    lemma_row(v, t, 7, 0x4f, 40);
    lemma_row(v, t, 8, 206, 16);
    lemma_row(v, t, 9, 207, 16);
    if other != 210 && other != 200 && other != 201 && other != 0x2b && other != 0x2a
        && other != 0x29 && other != 0x4e && other != 0x4f && other != 206
        && other != 207 {
        lemma_not_found(t, other);
    }
}

/// From 580.178.04 on and before 595.58.03, each escape that was captured goes through with the size
/// that it was captured with, and with no other; those without a recorded size go through with any,
/// and an escape that was not captured is unknown.
pub proof fn law_sizes_under_580_178_04(v: DriverVersion, other: u32)
    requires
        release(580, 178, 4) <= rank(v),
        rank(v) < release(595, 58, 3),
    ensures
        takes(v, 210, 72),
        takes_any(v, 200),
        takes(v, 201, 4),
        takes(v, 206, 16),
        takes(v, 207, 16),
        takes(v, 214, 8),
        takes(v, 0x27, 56),
        takes(v, 0x29, 16),
        takes(v, 0x2a, 32),
        takes(v, 0x2b, 48),
        takes(v, 0x4a, 184),
        takes(v, 0x4e, 56),
        takes(v, 0x4f, 32),
        takes(v, 0x57, 64),
        takes(v, 0x58, 48),
        takes(v, 0x5e, 40),
        takes_any(v, 212),
        takes_any(v, 218),
        takes_any(v, 0x34),
        takes_any(v, 0x41),
        takes_any(v, 0x54),
        lists(v, 210, 72, IoctlKind::Simple),
        lists(v, 200, 4096, IoctlKind::Bytes),
        lists(v, 201, 4, IoctlKind::FdCarrying),
        lists(v, 206, 16, IoctlKind::FdCarrying),
        lists(v, 207, 16, IoctlKind::FdCarrying),
        lists(v, 214, 8, IoctlKind::Simple),
        lists(v, 0x27, 56, IoctlKind::FdCarrying),
        lists(v, 0x29, 16, IoctlKind::Simple),
        lists(v, 0x2a, 32, IoctlKind::RmControl),
        lists(v, 0x2b, 48, IoctlKind::RmAlloc),
        lists(v, 0x4a, 184, IoctlKind::Simple),
        lists(v, 0x4e, 56, IoctlKind::Mapping),
        lists(v, 0x4f, 32, IoctlKind::Simple),
        lists(v, 0x57, 64, IoctlKind::Simple),
        lists(v, 0x58, 48, IoctlKind::Simple),
        lists(v, 0x5e, 40, IoctlKind::Simple),
        lists(v, 212, 0, IoctlKind::Bytes),
        lists(v, 218, 0, IoctlKind::Bytes),
        lists(v, 0x34, 0, IoctlKind::Bytes),
        lists(v, 0x41, 0, IoctlKind::Bytes),
        lists(v, 0x54, 0, IoctlKind::Bytes),
        other != 210 && other != 200 && other != 201 && other != 206 && other != 207
            && other != 214 && other != 0x27 && other != 0x29 && other != 0x2a
            && other != 0x2b && other != 0x4a && other != 0x4e && other != 0x4f
            && other != 0x57 && other != 0x58 && other != 0x5e && other != 212
            && other != 218 && other != 0x34 && other != 0x41 && other != 0x54
            ==> is_stranger(v, other),
{
    let t = v580_178_04::spec_table();
    assert(spec_table_for(v) == Some(t));
    lemma_row(v, t, 0, 210, 72);
    lemma_row(v, t, 1, 200, 4096);
    lemma_row(v, t, 2, 201, 4);
    lemma_row(v, t, 3, 206, 16);
    lemma_row(v, t, 4, 207, 16);
    lemma_row(v, t, 5, 214, 8);
    lemma_row(v, t, 6, 0x27, 56);
    lemma_row(v, t, 7, 0x29, 16);
    lemma_row(v, t, 8, 0x2a, 32);
    lemma_row(v, t, 9, 0x2b, 48);
    lemma_row(v, t, 10, 0x4a, 184);
    lemma_row(v, t, 11, 0x4e, 56);
    lemma_row(v, t, 12, 0x4f, 32);
    lemma_row(v, t, 13, 0x57, 64);
    lemma_row(v, t, 14, 0x58, 48);
    lemma_row(v, t, 15, 0x5e, 40);
    lemma_row(v, t, 16, 212, 0);
    lemma_row(v, t, 17, 218, 0);
    lemma_row(v, t, 18, 0x34, 0);
    lemma_row(v, t, 19, 0x41, 0);
    lemma_row(v, t, 20, 0x54, 0);
    if other != 210 && other != 200 && other != 201 && other != 206 && other != 207
        && other != 214 && other != 0x27 && other != 0x29 && other != 0x2a
        && other != 0x2b && other != 0x4a && other != 0x4e && other != 0x4f
        && other != 0x57 && other != 0x58 && other != 0x5e && other != 212
        && other != 218 && other != 0x34 && other != 0x41 && other != 0x54 {
        lemma_not_found(t, other);
    }
}

/// From 595.58.03 on, each listed escape goes through with the size that its struct has, and with no
/// other; an escape that is not listed is unknown.
pub proof fn law_sizes_under_595_58_03(v: DriverVersion, other: u32)
    requires
        release(595, 58, 3) <= rank(v),
    ensures
        takes(v, 210, 72),
        takes_any(v, 200),
        takes(v, 201, 4),
        takes(v, 0x2b, 48),
        takes(v, 0x2a, 32),
        takes(v, 0x29, 16),
        takes(v, 0x4e, 56),
        takes(v, 0x4f, 32),
        takes(v, 206, 16),
        takes(v, 207, 16),
        takes(v, 0x57, 64),
        lists(v, 210, 4096, IoctlKind::Simple),
        lists(v, 200, 4096, IoctlKind::Simple),
        lists(v, 201, 8, IoctlKind::FdCarrying),
        lists(v, 0x2b, 48, IoctlKind::RmAlloc),
        lists(v, 0x2a, 56, IoctlKind::RmControl),
        lists(v, 0x29, 16, IoctlKind::Simple),
        lists(v, 0x4e, 56, IoctlKind::Mapping),
        lists(v, 0x4f, 40, IoctlKind::Simple),
        lists(v, 206, 16, IoctlKind::FdCarrying),
        lists(v, 207, 16, IoctlKind::FdCarrying),
        lists(v, 0x57, 64, IoctlKind::Simple),
        other != 210 && other != 200 && other != 201 && other != 0x2b && other != 0x2a
            && other != 0x29 && other != 0x4e && other != 0x4f && other != 206
            && other != 207 && other != 0x57
            ==> is_stranger(v, other),
{
    let t = v595_58_03::spec_table();
    assert(spec_table_for(v) == Some(t));
    lemma_row(v, t, 0, 210, 4096);
    lemma_row(v, t, 1, 200, 4096);
    lemma_row(v, t, 2, 201, 8);
    lemma_row(v, t, 3, 0x2b, 48);
    lemma_row(v, t, 4, 0x2a, 56);
    lemma_row(v, t, 5, 0x29, 16);
    lemma_row(v, t, 6, 0x4e, 56);
    lemma_row(v, t, 7, 0x4f, 40);
    lemma_row(v, t, 8, 206, 16);
    lemma_row(v, t, 9, 207, 16);
    lemma_row(v, t, 10, 0x57, 64);
    if other != 210 && other != 200 && other != 201 && other != 0x2b && other != 0x2a
        && other != 0x29 && other != 0x4e && other != 0x4f && other != 206
        && other != 207 && other != 0x57 {
        lemma_not_found(t, other);
    }
}

} // verus!
