//! Holding a guest's ioctls to the host's ABI profile.
//!
//! A size mismatch is the failure this is for: the guest and host disagree about a struct layout,
//! so the host reads or writes the wrong number of bytes. Without a check it surfaces as corrupt
//! GPU state rather than an error.
use crate::errno::{EINVAL, ENOTTY};
use crate::text::utf8_text;
use crate::version::DriverVersion;
use crate::versions::{lookup, spec_lookup, IoctlEntry};
use vstd::prelude::*;
use vstd::slice::slice_subrange;
use vstd::utf8::{decode_utf8, valid_utf8};

verus! {

/// The result of checking one guest ioctl against the host's ABI profile.
#[derive(Clone, Copy, Debug, PartialEq, Eq, Structural)]
pub enum AbiCheck {
    /// The escape is known and the guest's parameter size matches.
    Accepted,
    /// No profile yet: `NV_ESC_CHECK_VERSION_STR` has not been seen.
    NoProfile,
    /// The escape is not in this driver's table.
    UnknownEscape,
    /// The escape is variable length; there is no size to check.
    VariableLength,
    /// The guest disagrees with the host ABI about this struct's size.
    SizeMismatch { expected: u32, actual: u32 },
}

/// What to do with an ioctl that the profile does not describe. One that it describes with another
/// size is refused in any case.
#[derive(Clone, Copy, Debug, PartialEq, Eq, Structural)]
pub enum AbiPolicy {
    /// Refuse it.
    Enforce,
    /// Forward it. For finding out what a workload needs that the tables lack.
    Permissive,
}

/// How an escape with parameters of `param_size` bytes stands to a profile.
pub open spec fn check(
    table: Option<Seq<IoctlEntry>>,
    escape: u32,
    param_size: u32,
) -> AbiCheck {
    match table {
        None => AbiCheck::NoProfile,
        Some(t) => match spec_lookup(t, escape) {
            None => AbiCheck::UnknownEscape,
            Some(entry) => match entry.param_size {
                None => AbiCheck::VariableLength,
                Some(expected) => if expected == param_size {
                    AbiCheck::Accepted
                } else {
                    AbiCheck::SizeMismatch { expected, actual: param_size }
                },
            },
        },
    }
}

/// The profile as a sequence.
pub open spec fn table_view(table: Option<Vec<IoctlEntry>>) -> Option<Seq<IoctlEntry>> {
    match table {
        Some(t) => Some(t@),
        None => None,
    }
}

pub fn check_table(table: &Option<Vec<IoctlEntry>>, escape: u32, param_size: u32) -> (r: AbiCheck)
    ensures
        r == check(table_view(*table), escape, param_size),
{
    match table {
        None => AbiCheck::NoProfile,
        Some(t) => match lookup(t, escape) {
            None => AbiCheck::UnknownEscape,
            Some(entry) => match entry.param_size {
                None => AbiCheck::VariableLength,
                Some(expected) => if expected == param_size {
                    AbiCheck::Accepted
                } else {
                    AbiCheck::SizeMismatch { expected, actual: param_size }
                },
            },
        },
    }
}

impl AbiPolicy {
    /// The errno that refuses an ioctl which checked as `c`, or `None` where it is forwarded.
    pub open spec fn spec_refusal(self, c: AbiCheck) -> Option<i32> {
        match (self, c) {
            (_, AbiCheck::SizeMismatch { .. }) => Some(EINVAL),
            (AbiPolicy::Enforce, AbiCheck::UnknownEscape) => Some(ENOTTY),
            _ => None,
        }
    }

    pub fn refusal(self, c: AbiCheck) -> (r: Option<i32>)
        ensures
            r == self.spec_refusal(c),
    {
        match (self, c) {
            (_, AbiCheck::SizeMismatch { .. }) => Some(EINVAL),
            (AbiPolicy::Enforce, AbiCheck::UnknownEscape) => Some(ENOTTY),
            _ => None,
        }
    }
}

/// The bytes of `s` before the first zero.
pub open spec fn until_nul(s: Seq<u8>) -> Seq<u8>
    decreases s.len(),
{
    if s.len() == 0 || s[0] == 0 {
        Seq::empty()
    } else {
        seq![s[0]] + until_nul(s.drop_first())
    }
}

/// The driver version that a reply to `NV_ESC_CHECK_VERSION_STR` gives.
///
/// Layout is `nv_ioctl_rm_api_version_t`: cmd (4), reply (4), then a NUL-terminated version
/// string.
pub open spec fn version_in(reply: Seq<u8>) -> Option<DriverVersion> {
    let text = until_nul(reply.skip(8));
    if reply.len() < 12 || !valid_utf8(text) {
        None
    } else {
        DriverVersion::spec_parse(decode_utf8(text))
    }
}

pub fn read_version(reply: &[u8]) -> (r: Option<DriverVersion>)
    ensures
        r == version_in(reply@),
{
    if reply.len() < 12 {
        return None;
    }
    let ghost tail = reply@.skip(8);
    let mut end: usize = 8;
    assert(reply@.subrange(8, 8) + until_nul(reply@.skip(8)) =~= until_nul(tail));
    while end < reply.len() && reply[end] != 0
        invariant
            8 <= end <= reply@.len(),
            tail == reply@.skip(8),
            until_nul(tail) == reply@.subrange(8, end as int) + until_nul(reply@.skip(end as int)),
        decreases reply.len() - end,
    {
        let ghost cur = reply@.skip(end as int);
        assert(cur.drop_first() =~= reply@.skip(end + 1));
        assert(reply@.subrange(8, end + 1) =~= reply@.subrange(8, end as int).push(reply@[end as int]));
        assert(reply@.subrange(8, end as int) + (seq![cur[0]] + until_nul(reply@.skip(end + 1)))
            =~= reply@.subrange(8, end + 1) + until_nul(reply@.skip(end + 1)));
        end = end + 1;
    }
    assert(reply@.subrange(8, end as int) + until_nul(reply@.skip(end as int)) =~= reply@.subrange(
        8,
        end as int,
    ));
    match utf8_text(slice_subrange(reply, 8, end)) {
        Some(text) => DriverVersion::parse(text),
        None => None,
    }
}

} // verus!
