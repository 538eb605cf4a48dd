//! What this host's NVIDIA driver looks like, as the guest needs to be told.
//!
//! The kernel publishes which driver is loaded, which cards it owns and what each card's
//! `information` file says under `/proc/driver/nvidia`. Whoever reads those files hands their text
//! to this module.
use crate::abi::until_nul;
use crate::files::{by_path, law_by_path_sorts, sort_by_path, views, FileView, HostFile};
use crate::text::{all_digits, chars_of, is_space, lossy, spec_is_space, spec_lossy, string_of};
use crate::version::first_index;
use crate::virtio::{slot_of, GpuSlot};
use vstd::prelude::*;
use vstd::slice::slice_subrange;
use vstd::string::StringExecFns;

verus! {

/// Where a loaded NVIDIA kernel module publishes itself.
pub const PROC_NVIDIA: &'static str = "/proc/driver/nvidia";

/// Whether `w` is a version: three numbers with a dot between each two, and nothing else.
pub open spec fn version_shaped(w: Seq<char>) -> bool {
    let i = first_index(w, '.');
    let rest = w.skip(i + 1);
    let j = first_index(rest, '.');
    let last = rest.skip(j + 1);
    &&& 0 < i < w.len() && all_digits(w.take(i))
    &&& 0 < j < rest.len() && all_digits(rest.take(j))
    &&& 0 < last.len() && all_digits(last)
}

/// How many characters stand before the first white space.
pub open spec fn word_len(s: Seq<char>) -> int
    decreases s.len(),
{
    if s.len() == 0 || spec_is_space(s[0]) {
        0
    } else {
        1 + word_len(s.drop_first())
    }
}

/// The first word of `s` that is a version.
pub open spec fn first_version(s: Seq<char>) -> Option<Seq<char>>
    decreases s.len(),
{
    if s.len() == 0 {
        None
    } else if spec_is_space(s[0]) {
        first_version(s.drop_first())
    } else {
        let n = word_len(s);
        if version_shaped(s.take(n)) {
            Some(s.take(n))
        } else if 0 < n <= s.len() {
            first_version(s.skip(n))
        } else {
            None
        }
    }
}

/// Whether the characters from `from` to `to` are one or more digits.
fn digits(c: &Vec<char>, from: usize, to: usize) -> (r: bool)
    requires
        from <= to <= c@.len(),
    ensures
        r == (from < to && all_digits(c@.subrange(from as int, to as int))),
{
    let ghost t = c@.subrange(from as int, to as int);
    let mut i: usize = from;
    while i < to
        invariant
            from <= i <= to <= c@.len(),
            t == c@.subrange(from as int, to as int),
            forall|j: int| 0 <= j < i - from ==> crate::text::is_digit(#[trigger] t[j]),
        decreases to - i,
    {
        assert(t[i - from] == c@[i as int]);
        if c[i] < '0' || c[i] > '9' {
            return false;
        }
        i = i + 1;
    }
    from < to
}

/// Where the first dot stands from `from` on and before `to`, or `to`.
fn dot(c: &Vec<char>, from: usize, to: usize) -> (r: usize)
    requires
        from <= to <= c@.len(),
    ensures
        r == from + first_index(c@.subrange(from as int, to as int), '.'),
        from <= r <= to,
{
    let mut i: usize = from;
    while i < to && c[i] != '.'
        invariant
            from <= i <= to <= c@.len(),
            from + first_index(c@.subrange(from as int, to as int), '.') == i + first_index(
                c@.subrange(i as int, to as int),
                '.',
            ),
        decreases to - i,
    {
        assert(c@.subrange(i as int, to as int).drop_first() =~= c@.subrange(i + 1, to as int));
        i = i + 1;
    }
    i
}

pub(crate) fn is_version(c: &Vec<char>, from: usize, to: usize) -> (r: bool)
    requires
        from <= to <= c@.len(),
    ensures
        r == version_shaped(c@.subrange(from as int, to as int)),
{
    let ghost w = c@.subrange(from as int, to as int);
    let i: usize = dot(c, from, to);
    assert(c@.subrange(from as int, i as int) =~= w.take(i - from));
    if i >= to || !digits(c, from, i) {
        return false;
    }
    let ghost rest = w.skip(i - from + 1);
    assert(c@.subrange(i + 1, to as int) =~= rest);
    let j: usize = dot(c, i + 1, to);
    assert(c@.subrange(i + 1, j as int) =~= rest.take(j - i - 1));
    if j >= to || !digits(c, i + 1, j) {
        return false;
    }
    assert(c@.subrange(j + 1, to as int) =~= rest.skip(j - i - 1 + 1));
    digits(c, j + 1, to)
}

/// The loaded driver's version, e.g. `615.71.09`, from the text of its `version` file.
///
/// Matched by shape rather than by position: the words around it differ between the open and
/// proprietary modules, and have changed before.
pub fn driver_version(text: &str) -> (r: Option<String>)
    ensures
        match r {
            Some(v) => first_version(text@) == Some(v@),
            None => first_version(text@) is None,
        },
{
    let c: Vec<char> = chars_of(text);
    let mut i: usize = 0;
    assert(c@.skip(0) =~= c@);
    while i < c.len()
        invariant
            c@ == text@,
            i <= c@.len(),
            first_version(text@) == first_version(c@.skip(i as int)),
        decreases c.len() - i,
    {
        let ghost rest = c@.skip(i as int);
        if is_space(c[i]) {
            assert(rest.drop_first() =~= c@.skip(i + 1));
            i = i + 1;
        } else {
            let mut end: usize = i;
            while end < c.len() && !is_space(c[end])
                invariant
                    i <= end <= c@.len(),
                    rest == c@.skip(i as int),
                    word_len(rest) == end - i + word_len(c@.skip(end as int)),
                decreases c.len() - end,
            {
                assert(c@.skip(end as int).drop_first() =~= c@.skip(end + 1));
                end = end + 1;
            }
            assert(word_len(c@.skip(end as int)) == 0);
            assert(c@.subrange(i as int, end as int) =~= rest.take(end - i));
            assert(rest.skip(end - i) =~= c@.skip(end as int));
            if is_version(&c, i, end) {
                return Some(string_of(&c, i, end));
            }
            i = end;
        }
    }
    None
}

/// Every GPU the host driver owns, in PCI address order, from the name of its directory and the
/// text of its `information` file.
///
/// The index is the minor number because the kernel numbers `/dev/nvidiaN` in PCI order. Ordering
/// is by address so the table a guest sees is stable across reboots; readdir order is not.
pub fn gpu_slots(found: Vec<HostFile>) -> (r: Vec<GpuSlot>)
    ensures
        r@.len() == found@.len(),
        forall|i: int|
            0 <= i < r@.len() ==> slot_of(
                #[trigger] r@[i],
                by_path(views(found@))[i].path,
                i as u32,
                by_path(views(found@))[i].content,
            ),
{
    let ghost sorted = by_path(views(found@));
    proof {
        law_by_path_sorts(views(found@));
    }
    let ordered: Vec<HostFile> = sort_by_path(found);
    assert(views(ordered@).len() == ordered@.len());
    let mut r: Vec<GpuSlot> = Vec::new();
    let mut i: usize = 0;
    while i < ordered.len()
        invariant
            i <= ordered@.len(),
            sorted == views(ordered@),
            r@.len() == i,
            forall|k: int|
                0 <= k < i ==> slot_of(#[trigger] r@[k], sorted[k].path, k as u32, sorted[k].content),
        decreases ordered.len() - i,
    {
        assert(sorted[i as int] == ordered@[i as int]@);
        r.push(
            GpuSlot::from_bytes(
                ordered[i].path.as_slice(),
                i as u32,
                ordered[i].content.as_slice(),
            ),
        );
        i = i + 1;
    }
    r
}

/// The GPUs come out in the order of their addresses, and none is lost or made up.
pub proof fn law_gpus_are_ordered(found: Seq<FileView>)
    ensures
        by_path(found).len() == found.len(),
        by_path(found).to_multiset() == found.to_multiset(),
        forall|i: int, j: int|
            #![trigger by_path(found)[i], by_path(found)[j]]
            0 <= i < j < found.len() ==> crate::files::lex_le(
                by_path(found)[i].path,
                by_path(found)[j].path,
            ),
{
    law_by_path_sorts(found);
}

/// The path below `/sys` of a GPU's PCI config space.
pub open spec fn spec_config_path(addr: Seq<u8>) -> Seq<char> {
    "bus/pci/devices/"@ + spec_lossy(until_nul(addr)) + "/config"@
}

/// The one file per GPU that the driver wants of sysfs; everything else it needs the kernel
/// synthesises.
pub fn config_path(slot: &GpuSlot) -> (r: String)
    ensures
        r@ == spec_config_path(slot.pci_addr@),
{
    let addr: &[u8] = slot.pci_addr.as_slice();
    let mut end: usize = 0;
    let ghost all = addr@;
    assert(all.subrange(0, 0) + until_nul(all.skip(0)) =~= until_nul(all)) by {
        assert(all.skip(0) =~= all);
    }
    while end < addr.len() && addr[end] != 0
        invariant
            end <= addr@.len(),
            all == addr@,
            until_nul(all) == all.subrange(0, end as int) + until_nul(all.skip(end as int)),
        decreases addr.len() - end,
    {
        let ghost cur = all.skip(end as int);
        assert(cur.drop_first() =~= all.skip(end + 1));
        assert(all.subrange(0, end + 1) =~= all.subrange(0, end as int).push(all[end as int]));
        assert(all.subrange(0, end as int) + (seq![cur[0]] + until_nul(all.skip(end + 1)))
            =~= all.subrange(0, end + 1) + until_nul(all.skip(end + 1)));
        end = end + 1;
    }
    assert(all.subrange(0, end as int) + until_nul(all.skip(end as int)) =~= all.subrange(
        0,
        end as int,
    ));
    let mut r: String = String::from_str("bus/pci/devices/");
    r.append(lossy(slice_subrange(addr, 0, end)).as_str());
    r.append("/config");
    r
}

} // verus!
