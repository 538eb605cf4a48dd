//! Per-version ABI tables.
//!
//! Profiles key off ranges, not points: a driver release between two known versions selects the
//! lower profile. A profile lists the ioctls that are known to be safe to forward to its releases;
//! an escape that it does not list is refused even where the device has a handler for it, unless
//! the permissive policy is chosen.
pub mod v535_129_03;
pub mod v580_178_04;
pub mod v595_58_03;

use crate::version::DriverVersion;
pub use crate::versions::v535_129_03::{IoctlEntry, IoctlKind};
use vstd::prelude::*;

verus! {

pub open spec fn spec_supported() -> Seq<DriverVersion> {
    seq![
        DriverVersion { major: 535, minor: 129, patch: 3 },
        DriverVersion { major: 595, minor: 58, patch: 3 },
    ]
}

/// The releases that are supported by name.
pub fn supported() -> (r: Vec<DriverVersion>)
    ensures
        r@ == spec_supported(),
{
    let mut r: Vec<DriverVersion> = Vec::new();
    r.push(DriverVersion::new(535, 129, 3));
    r.push(DriverVersion::new(595, 58, 3));
    assert(r@ =~= spec_supported());
    r
}

/// Returns true if the given version is supported.
pub fn is_supported(v: DriverVersion) -> (r: bool)
    ensures
        r == spec_supported().contains(v),
{
    let known: Vec<DriverVersion> = supported();
    let mut i: usize = 0;
    while i < known.len()
        invariant
            known@ == spec_supported(),
            i <= known@.len(),
            forall|j: int| 0 <= j < i ==> known@[j] != v,
        decreases known.len() - i,
    {
        if known[i] == v {
            return true;
        }
        i = i + 1;
    }
    false
}

/// The releases that have a profile, oldest first.
pub open spec fn profiled() -> Seq<DriverVersion> {
    seq![
        DriverVersion { major: 535, minor: 129, patch: 3 },
        DriverVersion { major: 580, minor: 178, patch: 4 },
        DriverVersion { major: 595, minor: 58, patch: 3 },
    ]
}

/// The profile of the `i`-th release of `profiled`.
pub open spec fn profile(i: int) -> Seq<IoctlEntry> {
    if i == 0 {
        v535_129_03::spec_table()
    } else if i == 1 {
        v580_178_04::spec_table()
    } else {
        v595_58_03::spec_table()
    }
}

/// The profile that serves `v`: that of the newest release not newer than `v`.
pub open spec fn spec_table_for(v: DriverVersion) -> Option<Seq<IoctlEntry>> {
    if v.spec_at_least(profiled()[2]) {
        Some(profile(2))
    } else if v.spec_at_least(profiled()[1]) {
        Some(profile(1))
    } else if v.spec_at_least(profiled()[0]) {
        Some(profile(0))
    } else {
        None
    }
}

/// The ABI profile for a host driver, or `None` if it is older than every profile.
pub fn table_for(v: DriverVersion) -> (r: Option<Vec<IoctlEntry>>)
    ensures
        match r {
            Some(t) => spec_table_for(v) == Some(t@),
            None => spec_table_for(v) is None,
        },
{
    if v.at_least(DriverVersion::new(595, 58, 3)) {
        Some(v595_58_03::table())
    } else if v.at_least(DriverVersion::new(580, 178, 4)) {
        Some(v580_178_04::table())
    } else if v.at_least(DriverVersion::new(535, 129, 3)) {
        Some(v535_129_03::table())
    } else {
        None
    }
}

/// The first entry of `table` for `escape`.
pub open spec fn spec_lookup(table: Seq<IoctlEntry>, escape: u32) -> Option<IoctlEntry>
    decreases table.len(),
{
    if table.len() == 0 {
        None
    } else if table[0].escape == escape {
        Some(table[0])
    } else {
        spec_lookup(table.drop_first(), escape)
    }
}

/// Find an escape in a profile.
pub fn lookup(table: &Vec<IoctlEntry>, escape: u32) -> (r: Option<IoctlEntry>)
    ensures
        r == spec_lookup(table@, escape),
{
    let mut i: usize = 0;
    assert(table@.skip(0) =~= table@);
    while i < table.len()
        invariant
            i <= table@.len(),
            spec_lookup(table@, escape) == spec_lookup(table@.skip(i as int), escape),
        decreases table.len() - i,
    {
        if table[i].escape == escape {
            return Some(table[i]);
        }
        assert(table@.skip(i as int).drop_first() =~= table@.skip(i + 1));
        i = i + 1;
    }
    None
}

/// A release at or after a profiled one and before the next selects the former's profile; one
/// older than all of them selects none.
pub proof fn law_profiles_are_ranges(v: DriverVersion, i: int)
    requires
        0 <= i < profiled().len(),
    ensures
        v.spec_at_least(profiled()[i]) && (i + 1 < profiled().len() ==> !v.spec_at_least(
            profiled()[i + 1],
        )) ==> spec_table_for(v) == Some(profile(i)),
        !v.spec_at_least(profiled()[0]) ==> spec_table_for(v) is None,
{
}

/// Every supported release selects its own profile.
pub proof fn law_supported_releases_have_profiles(v: DriverVersion)
    requires
        spec_supported().contains(v),
    ensures
        exists|i: int| 0 <= i < profiled().len() && profiled()[i] == v && spec_table_for(v) == Some(
            #[trigger] profile(i),
        ),
{
    let k = choose|k: int| 0 <= k < spec_supported().len() && spec_supported()[k] == v;
    if k == 0 {
        assert(spec_table_for(v) == Some(profile(0)));
    } else {
        assert(spec_table_for(v) == Some(profile(2)));
    }
}

} // verus!
