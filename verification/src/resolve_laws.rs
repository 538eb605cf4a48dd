//! In what order files are found, and what repeating them changes.
use crate::paths::{spec_components, spec_join};
use crate::resolve::{
    base_name, first_present, guest_dir, law_every_wanted_entry_is_accounted_for,
    law_nothing_is_staged_twice, lemma_staged_at, outcome, reported, selected, staged_at,
    ResolvedView,
};
use crate::userspace::{Capability, EntryView};
use vstd::prelude::*;

verus! {

/// The path that a file found at `host` goes to in the guest.
pub open spec fn place_of(e: EntryView, host: Seq<char>) -> Seq<char> {
    spec_join(guest_dir(e.kind, host), base_name(e.name))
}

/// Where the file of an entry that is looked for stands on the host.
pub open spec fn found_at(
    e: EntryView,
    caps: Seq<Capability>,
    search: Seq<Seq<char>>,
    present: Seq<Seq<char>>,
) -> Option<Seq<char>> {
    if selected(e, caps) {
        first_present(search, base_name(e.name), present)
    } else {
        None
    }
}

/// Whether the two entries are both found and their files go to the same path.
pub open spec fn share_a_place(
    e: EntryView,
    f: EntryView,
    caps: Seq<Capability>,
    search: Seq<Seq<char>>,
    present: Seq<Seq<char>>,
) -> bool {
    match (found_at(e, caps, search, present), found_at(f, caps, search, present)) {
        (Some(g), Some(h)) => spec_components(place_of(e, g)) == spec_components(place_of(f, h)),
        _ => false,
    }
}

/// Whether the entry is looked for and found nowhere.
pub open spec fn absent(
    e: EntryView,
    caps: Seq<Capability>,
    search: Seq<Seq<char>>,
    present: Seq<Seq<char>>,
) -> bool {
    selected(e, caps) && first_present(search, base_name(e.name), present) is None
}

/// The entries that are found and go where none before them goes, in their order.
pub open spec fn first_found(
    entries: Seq<EntryView>,
    caps: Seq<Capability>,
    search: Seq<Seq<char>>,
    present: Seq<Seq<char>>,
) -> Seq<EntryView>
    decreases entries.len(),
{
    if entries.len() == 0 {
        Seq::empty()
    } else {
        let before = entries.drop_last();
        let e = entries.last();
        let rest = first_found(before, caps, search, present);
        if found_at(e, caps, search, present) is Some && !exists|j: int|
            0 <= j < before.len() && share_a_place(#[trigger] before[j], e, caps, search, present) {
            rest.push(e)
        } else {
            rest
        }
    }
}

/// The entries that are found nowhere and have a name that none of those before them has, in their
/// order.
pub open spec fn first_absent(
    entries: Seq<EntryView>,
    caps: Seq<Capability>,
    search: Seq<Seq<char>>,
    present: Seq<Seq<char>>,
) -> Seq<EntryView>
    decreases entries.len(),
{
    if entries.len() == 0 {
        Seq::empty()
    } else {
        let before = entries.drop_last();
        let e = entries.last();
        let rest = first_absent(before, caps, search, present);
        if absent(e, caps, search, present) && !exists|j: int|
            0 <= j < before.len() && absent(#[trigger] before[j], caps, search, present)
                && before[j].name == e.name {
            rest.push(e)
        } else {
            rest
        }
    }
}

/// Whether `r` is the file of `e`, whatever categories others added to it.
pub open spec fn is_file_of(
    r: ResolvedView,
    e: EntryView,
    search: Seq<Seq<char>>,
    present: Seq<Seq<char>>,
) -> bool {
    &&& first_present(search, base_name(e.name), present) == Some(r.host_path)
    &&& r.guest_path == place_of(e, r.host_path)
    &&& r.entry.name == e.name
    &&& r.entry.kind == e.kind
    &&& e.categories.subset_of(r.entry.categories)
}

/// What is found is found for some entry, and what is missing is so.
proof fn lemma_origin(
    entries: Seq<EntryView>,
    caps: Seq<Capability>,
    search: Seq<Seq<char>>,
    present: Seq<Seq<char>>,
)
    ensures
        ({
            let o = outcome(entries, caps, search, present);
            &&& forall|i: int|
                0 <= i < o.found.len() ==> exists|j: int|
                    {
                        &&& 0 <= j < entries.len()
                        &&& found_at(#[trigger] entries[j], caps, search, present) is Some
                        &&& (#[trigger] o.found[i]).guest_path == place_of(
                            entries[j],
                            found_at(entries[j], caps, search, present)->0,
                        )
                    }
            &&& forall|i: int|
                0 <= i < o.missing.len() ==> exists|j: int|
                    {
                        &&& 0 <= j < entries.len()
                        &&& absent(#[trigger] entries[j], caps, search, present)
                        &&& (#[trigger] o.missing[i]).name == entries[j].name
                    }
        }),
    decreases entries.len(),
{
    if entries.len() > 0 {
        let less = entries.drop_last();
        let e = entries.last();
        let n = entries.len() - 1;
        lemma_origin(less, caps, search, present);
        let before = outcome(less, caps, search, present);
        let o = outcome(entries, caps, search, present);
        match first_present(search, base_name(e.name), present) {
            Some(host) => {
                lemma_staged_at(before.found, place_of(e, host));
            },
            None => {},
        }
        assert forall|i: int| 0 <= i < o.found.len() implies exists|j: int|
            {
                &&& 0 <= j < entries.len()
                &&& found_at(#[trigger] entries[j], caps, search, present) is Some
                &&& (#[trigger] o.found[i]).guest_path == place_of(
                    entries[j],
                    found_at(entries[j], caps, search, present)->0,
                )
            } by {
            if i < before.found.len() {
                assert(o.found[i].guest_path == before.found[i].guest_path);
                let j = choose|j: int|
                    {
                        &&& 0 <= j < less.len()
                        &&& found_at(#[trigger] less[j], caps, search, present) is Some
                        &&& before.found[i].guest_path == place_of(
                            less[j],
                            found_at(less[j], caps, search, present)->0,
                        )
                    };
                assert(entries[j] == less[j]);
            } else {
                assert(entries[n] == e);
            }
        }
        assert forall|i: int| 0 <= i < o.missing.len() implies exists|j: int|
            {
                &&& 0 <= j < entries.len()
                &&& absent(#[trigger] entries[j], caps, search, present)
                &&& (#[trigger] o.missing[i]).name == entries[j].name
            } by {
            if i < before.missing.len() {
                assert(o.missing[i] == before.missing[i]);
                let j = choose|j: int|
                    {
                        &&& 0 <= j < less.len()
                        &&& absent(#[trigger] less[j], caps, search, present)
                        &&& before.missing[i].name == less[j].name
                    };
                assert(entries[j] == less[j]);
            } else {
                assert(entries[n] == e);
            }
        }
    }
}

/// An entry that comes after another with the same place is staged already, and one that comes
/// first is not.
proof fn lemma_staged_before(
    entries: Seq<EntryView>,
    e: EntryView,
    host: Seq<char>,
    caps: Seq<Capability>,
    search: Seq<Seq<char>>,
    present: Seq<Seq<char>>,
)
    requires
        found_at(e, caps, search, present) == Some(host),
    ensures
        ({
            let o = outcome(entries, caps, search, present);
            staged_at(o.found, place_of(e, host)) < o.found.len() <==> exists|j: int|
                0 <= j < entries.len() && share_a_place(
                    #[trigger] entries[j],
                    e,
                    caps,
                    search,
                    present,
                )
        }),
{
    let o = outcome(entries, caps, search, present);
    let place = place_of(e, host);
    lemma_staged_at(o.found, place);
    lemma_origin(entries, caps, search, present);
    let at = staged_at(o.found, place);
    if at < o.found.len() {
        let j = choose|j: int|
            {
                &&& 0 <= j < entries.len()
                &&& found_at(#[trigger] entries[j], caps, search, present) is Some
                &&& o.found[at].guest_path == place_of(
                    entries[j],
                    found_at(entries[j], caps, search, present)->0,
                )
            };
        assert(share_a_place(entries[j], e, caps, search, present));
    }
    if exists|j: int|
        0 <= j < entries.len() && share_a_place(#[trigger] entries[j], e, caps, search, present) {
        let j = choose|j: int|
            0 <= j < entries.len() && share_a_place(#[trigger] entries[j], e, caps, search, present);
        law_every_wanted_entry_is_accounted_for(entries, caps, search, present, j);
        let f = entries[j];
        let h = found_at(f, caps, search, present)->0;
        let i = choose|i: int|
            {
                &&& 0 <= i < o.found.len()
                &&& spec_components((#[trigger] o.found[i]).guest_path) == spec_components(
                    spec_join(guest_dir(f.kind, h), base_name(f.name)),
                )
                &&& f.categories.subset_of(o.found[i].entry.categories)
            };
        assert(spec_components(o.found[i].guest_path) == spec_components(place));
    }
}

/// The same of entries that are found nowhere.
proof fn lemma_reported_before(
    entries: Seq<EntryView>,
    e: EntryView,
    caps: Seq<Capability>,
    search: Seq<Seq<char>>,
    present: Seq<Seq<char>>,
)
    requires
        absent(e, caps, search, present),
    ensures
        reported(outcome(entries, caps, search, present).missing, e.name) <==> exists|j: int|
            0 <= j < entries.len() && absent(#[trigger] entries[j], caps, search, present)
                && entries[j].name == e.name,
{
    let o = outcome(entries, caps, search, present);
    lemma_origin(entries, caps, search, present);
    if reported(o.missing, e.name) {
        let i = choose|i: int| 0 <= i < o.missing.len() && (#[trigger] o.missing[i]).name == e.name;
        let j = choose|j: int|
            {
                &&& 0 <= j < entries.len()
                &&& absent(#[trigger] entries[j], caps, search, present)
                &&& o.missing[i].name == entries[j].name
            };
        assert(absent(entries[j], caps, search, present) && entries[j].name == e.name);
    }
    if exists|j: int|
        0 <= j < entries.len() && absent(#[trigger] entries[j], caps, search, present)
            && entries[j].name == e.name {
        let j = choose|j: int|
            0 <= j < entries.len() && absent(#[trigger] entries[j], caps, search, present)
                && entries[j].name == e.name;
        law_every_wanted_entry_is_accounted_for(entries, caps, search, present, j);
    }
}

/// Files are found and reported in the order in which they first appear in the manifest: the found
/// ones are those of the first entries that go to their places, and the missing ones are the first
/// entries of their names.
pub proof fn law_order_of_first_appearance(
    entries: Seq<EntryView>,
    caps: Seq<Capability>,
    search: Seq<Seq<char>>,
    present: Seq<Seq<char>>,
)
    ensures
        ({
            let o = outcome(entries, caps, search, present);
            let files = first_found(entries, caps, search, present);
            &&& o.found.len() == files.len()
            &&& forall|i: int|
                0 <= i < files.len() ==> is_file_of(
                    #[trigger] o.found[i],
                    files[i],
                    search,
                    present,
                )
            &&& o.missing == first_absent(entries, caps, search, present)
        }),
    decreases entries.len(),
{
    if entries.len() > 0 {
        let less = entries.drop_last();
        let e = entries.last();
        law_order_of_first_appearance(less, caps, search, present);
        let before = outcome(less, caps, search, present);
        let o = outcome(entries, caps, search, present);
        let files = first_found(less, caps, search, present);
        if selected(e, caps) {
            match first_present(search, base_name(e.name), present) {
                Some(host) => {
                    lemma_staged_at(before.found, place_of(e, host));
                    lemma_staged_before(less, e, host, caps, search, present);
                    let after = first_found(entries, caps, search, present);
                    assert forall|i: int| 0 <= i < after.len() implies is_file_of(
                        #[trigger] o.found[i],
                        after[i],
                        search,
                        present,
                    ) by {
                        if i < files.len() {
                            assert(after[i] == files[i]);
                            assert(is_file_of(before.found[i], files[i], search, present));
                        }
                    }
                },
                None => {
                    lemma_reported_before(less, e, caps, search, present);
                },
            }
        }
    }
}

/// An entry that an outcome accounts for changes nothing when it comes again.
proof fn lemma_again(
    entries: Seq<EntryView>,
    k: int,
    caps: Seq<Capability>,
    search: Seq<Seq<char>>,
    present: Seq<Seq<char>>,
)
    requires
        0 <= k < entries.len(),
    ensures
        outcome(entries, caps, search, present).after(entries[k], caps, search, present) == outcome(
            entries,
            caps,
            search,
            present,
        ),
{
    let o = outcome(entries, caps, search, present);
    let e = entries[k];
    if selected(e, caps) {
        law_every_wanted_entry_is_accounted_for(entries, caps, search, present, k);
        match first_present(search, base_name(e.name), present) {
            Some(host) => {
                let place = place_of(e, host);
                let i = choose|i: int|
                    {
                        &&& 0 <= i < o.found.len()
                        &&& spec_components((#[trigger] o.found[i]).guest_path) == spec_components(
                            spec_join(guest_dir(e.kind, host), base_name(e.name)),
                        )
                        &&& e.categories.subset_of(o.found[i].entry.categories)
                    };
                lemma_staged_at(o.found, place);
                law_nothing_is_staged_twice(entries, caps, search, present);
                let at = staged_at(o.found, place);
                assert(at == i) by {
                    if at < i {
                        assert(spec_components(o.found[at].guest_path) != spec_components(
                            o.found[i].guest_path,
                        ));
                    } else if i < at {
                        assert(spec_components(o.found[i].guest_path) != spec_components(place));
                    }
                }
                let kept = o.found[i];
                assert(kept.entry.categories.union(e.categories) =~= kept.entry.categories);
                assert(o.with_file(e, host, place).found =~= o.found);
            },
            None => {},
        }
    }
}

/// A manifest that says everything twice finds the same files and reports the same ones missing.
pub proof fn law_doubled_manifest_changes_nothing(
    entries: Seq<EntryView>,
    caps: Seq<Capability>,
    search: Seq<Seq<char>>,
    present: Seq<Seq<char>>,
)
    ensures
        outcome(entries + entries, caps, search, present) == outcome(
            entries,
            caps,
            search,
            present,
        ),
{
    lemma_repeated(entries, entries.len() as int, caps, search, present);
    assert(entries.take(entries.len() as int) =~= entries);
}

proof fn lemma_repeated(
    entries: Seq<EntryView>,
    n: int,
    caps: Seq<Capability>,
    search: Seq<Seq<char>>,
    present: Seq<Seq<char>>,
)
    requires
        0 <= n <= entries.len(),
    ensures
        outcome(entries + entries.take(n), caps, search, present) == outcome(
            entries,
            caps,
            search,
            present,
        ),
    decreases n,
{
    let all = entries + entries.take(n);
    if n == 0 {
        assert(all =~= entries);
    } else {
        lemma_repeated(entries, n - 1, caps, search, present);
        assert(all.drop_last() =~= entries + entries.take(n - 1));
        assert(all.last() == entries[n - 1]);
        lemma_again(entries, n - 1, caps, search, present);
    }
}

} // verus!
