//! Finding the files of a manifest on this host, and where each belongs in a guest.
//!
//! A caller asks `candidates` which paths matter, looks which of them exist, and hands those to
//! `resolve`.
use crate::paths::{
    components, file_name, join, same_path, spec_components, spec_file_name, spec_is_name,
    spec_join, texts,
};
use crate::text::same_text;
use crate::userspace::{
    entries_wf, entry_views, Capability, Entry, EntryView, FileKind, KindView,
};
use vstd::prelude::*;
use vstd::string::StringExecFns;

verus! {

/// A resolved entry: a manifest line plus where it actually is on this host.
#[derive(Debug, Clone, PartialEq, Eq)]
pub struct Resolved {
    pub entry: Entry,
    pub host_path: String,
    /// Where it should land in the guest, relative to the share root.
    pub guest_path: String,
}

/// What a `Resolved` holds.
#[verifier::ext_equal]
pub struct ResolvedView {
    pub entry: EntryView,
    pub host_path: Seq<char>,
    pub guest_path: Seq<char>,
}

impl Resolved {
    pub open spec fn view(&self) -> ResolvedView {
        ResolvedView {
            entry: self.entry@,
            host_path: self.host_path@,
            guest_path: self.guest_path@,
        }
    }
}

pub open spec fn resolved_views(r: Seq<Resolved>) -> Seq<ResolvedView> {
    r.map_values(|x: Resolved| x@)
}

/// The name that is searched for: the manifest may carry a leading directory component, which is
/// not reused as a path.
pub open spec fn base_name(name: Seq<char>) -> Seq<char> {
    match spec_file_name(name) {
        Some(f) => f,
        None => name,
    }
}

/// Components below one another.
pub open spec fn joined(parts: Seq<Seq<char>>) -> Seq<char>
    decreases parts.len(),
{
    if parts.len() == 0 {
        Seq::empty()
    } else {
        spec_join(joined(parts.drop_last()), parts.last())
    }
}

/// Where the first component `share` stands, or the length.
pub open spec fn share_index(parts: Seq<Seq<char>>) -> int
    decreases parts.len(),
{
    if parts.len() == 0 || parts[0] == "share"@ {
        0
    } else {
        1 + share_index(parts.drop_first())
    }
}

/// The components of the directory that holds `path`.
pub open spec fn parent_of(path: Seq<char>) -> Seq<Seq<char>> {
    let c = spec_components(path);
    if c.len() == 0 || c.last() == seq!['/'] {
        Seq::empty()
    } else {
        c.drop_last()
    }
}

/// The directory that a file of this kind belongs in, relative to the share root.
///
/// A JSON file keeps the tail that its loader looks in: what follows the component `share`, or
/// where there is none the name of its directory.
pub open spec fn guest_dir(kind: KindView, host_path: Seq<char>) -> Seq<char> {
    match kind {
        KindView::Binary => "bin"@,
        KindView::Modprobe => "bin"@,
        KindView::Json => {
            let parent = parent_of(host_path);
            let i = share_index(parent);
            if i < parent.len() {
                joined(seq!["share"@] + parent.skip(i + 1))
            } else if parent.len() > 0 && spec_is_name(parent.last()) {
                spec_join("share"@, parent.last())
            } else {
                "share"@
            }
        },
        _ => "lib"@,
    }
}

/// Whether an entry is looked for at all.
pub open spec fn selected(e: EntryView, caps: Seq<Capability>) -> bool {
    !e.is_host_only() && e.wanted_by(caps)
}

/// The first directory of `search` below which `base` is present, as the path there.
pub open spec fn first_present(
    search: Seq<Seq<char>>,
    base: Seq<char>,
    present: Seq<Seq<char>>,
) -> Option<Seq<char>>
    decreases search.len(),
{
    if search.len() == 0 {
        None
    } else if present.contains(spec_join(search[0], base)) {
        Some(spec_join(search[0], base))
    } else {
        first_present(search.drop_first(), base, present)
    }
}

/// Where a file stands that goes to the same place, or the length.
pub open spec fn staged_at(found: Seq<ResolvedView>, guest_path: Seq<char>) -> int
    decreases found.len(),
{
    if found.len() == 0 || spec_components(found[0].guest_path) == spec_components(guest_path) {
        0
    } else {
        1 + staged_at(found.drop_first(), guest_path)
    }
}

/// Whether `missing` names this file.
pub open spec fn reported(missing: Seq<EntryView>, name: Seq<char>) -> bool {
    exists|i: int| 0 <= i < missing.len() && (#[trigger] missing[i]).name == name
}

/// What has been found, and what has not.
#[verifier::ext_equal]
pub struct Outcome {
    pub found: Seq<ResolvedView>,
    pub missing: Seq<EntryView>,
}

impl Outcome {
    /// After a file was found at `host_path`. A file that goes where another does is staged once,
    /// under the categories of both.
    pub open spec fn with_file(self, e: EntryView, host_path: Seq<char>, guest_path: Seq<char>) -> Outcome {
        let i = staged_at(self.found, guest_path);
        if i < self.found.len() {
            let kept = self.found[i];
            Outcome {
                found: self.found.update(
                    i,
                    ResolvedView {
                        entry: EntryView {
                            categories: kept.entry.categories.union(e.categories),
                            ..kept.entry
                        },
                        ..kept
                    },
                ),
                ..self
            }
        } else {
            Outcome {
                found: self.found.push(ResolvedView { entry: e, host_path, guest_path }),
                ..self
            }
        }
    }

    /// After a file was found nowhere. It is reported once.
    pub open spec fn without_file(self, e: EntryView) -> Outcome {
        if reported(self.missing, e.name) {
            self
        } else {
            Outcome { missing: self.missing.push(e), ..self }
        }
    }

    /// After one entry of the manifest.
    pub open spec fn after(
        self,
        e: EntryView,
        caps: Seq<Capability>,
        search: Seq<Seq<char>>,
        present: Seq<Seq<char>>,
    ) -> Outcome {
        let base = base_name(e.name);
        if !selected(e, caps) {
            self
        } else {
            match first_present(search, base, present) {
                Some(host) => self.with_file(e, host, spec_join(guest_dir(e.kind, host), base)),
                None => self.without_file(e),
            }
        }
    }
}

/// What the entries of a manifest come to, one after another.
pub open spec fn outcome(
    entries: Seq<EntryView>,
    caps: Seq<Capability>,
    search: Seq<Seq<char>>,
    present: Seq<Seq<char>>,
) -> Outcome
    decreases entries.len(),
{
    if entries.len() == 0 {
        Outcome { found: Seq::empty(), missing: Seq::empty() }
    } else {
        outcome(entries.drop_last(), caps, search, present).after(
            entries.last(),
            caps,
            search,
            present,
        )
    }
}

fn base_of(name: &str) -> (r: String)
    ensures
        r@ == base_name(name@),
{
    match file_name(name) {
        Some(f) => f,
        None => name.to_owned(),
    }
}

fn in_list(list: &Vec<String>, s: &str) -> (r: bool)
    ensures
        r == texts(list@).contains(s@),
{
    let ghost all = texts(list@);
    let mut i: usize = 0;
    while i < list.len()
        invariant
            i <= list@.len() == all.len(),
            all == texts(list@),
            forall|j: int| 0 <= j < i ==> all[j] != s@,
        decreases list.len() - i,
    {
        assert(all[i as int] == list@[i as int]@);
        if same_text(list[i].as_str(), s) {
            assert(all.contains(s@));
            return true;
        }
        i = i + 1;
    }
    false
}

fn locate(search: &Vec<String>, base: &str, present: &Vec<String>) -> (r: Option<String>)
    ensures
        match r {
            Some(p) => first_present(texts(search@), base@, texts(present@)) == Some(p@),
            None => first_present(texts(search@), base@, texts(present@)) is None,
        },
{
    let ghost dirs = texts(search@);
    let mut i: usize = 0;
    assert(dirs.skip(0) =~= dirs);
    while i < search.len()
        invariant
            i <= search@.len() == dirs.len(),
            dirs == texts(search@),
            first_present(dirs, base@, texts(present@)) == first_present(
                dirs.skip(i as int),
                base@,
                texts(present@),
            ),
        decreases search.len() - i,
    {
        assert(dirs[i as int] == search@[i as int]@);
        let p: String = join(search[i].as_str(), base);
        if in_list(present, p.as_str()) {
            return Some(p);
        }
        assert(dirs.skip(i as int).drop_first() =~= dirs.skip(i + 1));
        i = i + 1;
    }
    None
}

fn guest_directory(kind: &FileKind, host_path: &str) -> (r: String)
    ensures
        r@ == guest_dir(kind@, host_path@),
{
    match kind {
        FileKind::Binary | FileKind::Modprobe => String::from_str("bin"),
        FileKind::Json => json_directory(host_path),
        _ => String::from_str("lib"),
    }
}

fn json_directory(host_path: &str) -> (r: String)
    ensures
        r@ == guest_dir(KindView::Json, host_path@),
{
    let mut parts: Vec<String> = components(host_path);
    let ghost all = texts(parts@);
    assert(all.len() == parts@.len());
    proof {
        reveal_strlit("/");
        assert("/"@ =~= seq!['/']);
    }
    if parts.len() > 0 {
        let last: usize = parts.len() - 1;
        assert(all[last as int] == parts@[last as int]@);
        if same_text(parts[last].as_str(), "/") {
            parts = Vec::new();
        } else {
            parts.remove(last);
        }
    }
    let ghost parent = parent_of(host_path@);
    assert(texts(parts@) =~= parent);
    let mut i: usize = 0;
    assert(parent.skip(0) =~= parent);
    assert(parent.len() == parts@.len());
    while i < parts.len() && !same_text(parts[i].as_str(), "share")
        invariant
            i <= parts@.len() == parent.len(),
            parent == texts(parts@),
            share_index(parent) == i + share_index(parent.skip(i as int)),
        decreases parts.len() - i,
    {
        assert(parent[i as int] == parts@[i as int]@);
        assert(parent.skip(i as int).drop_first() =~= parent.skip(i + 1));
        i = i + 1;
    }
    assert(share_index(parent) == i) by {
        if i < parts@.len() {
            assert(parent[i as int] == parts@[i as int]@);
        }
    }
    let mut r: String = String::from_str("share");
    if i < parts.len() {
        let ghost tail = seq!["share"@] + parent.skip(i + 1);
        let mut k: usize = i + 1;
        assert(tail.take(1).drop_last() =~= Seq::<Seq<char>>::empty());
        assert(tail.take(1).last() == "share"@);
        assert(joined(tail.take(1)) =~= "share"@) by {
            reveal_strlit("share");
            assert(joined(Seq::<Seq<char>>::empty()) =~= Seq::<char>::empty());
        }
        while k < parts.len()
            invariant
                i < k <= parts@.len() == parent.len(),
                parent == texts(parts@),
                tail == seq!["share"@] + parent.skip(i + 1),
                r@ == joined(tail.take(k - i)),
            decreases parts.len() - k,
        {
            assert(parent[k as int] == parts@[k as int]@);
            assert(tail.take(k - i + 1).drop_last() =~= tail.take(k - i));
            assert(tail.take(k - i + 1).last() == parent[k as int]);
            r = join(r.as_str(), parts[k].as_str());
            k = k + 1;
        }
        assert(tail.take(k - i) =~= tail);
        return r;
    }
    if parts.len() > 0 {
        let last: usize = parts.len() - 1;
        assert(parent[last as int] == parts@[last as int]@);
        if !same_text(parts[last].as_str(), "/") && !same_text(parts[last].as_str(), ".")
            && !same_text(parts[last].as_str(), "..") {
            proof {
                reveal_strlit(".");
                reveal_strlit("..");
                assert("."@ =~= seq!['.']);
                assert(".."@ =~= seq!['.', '.']);
            }
            return join("share", parts[last].as_str());
        }
        proof {
            reveal_strlit(".");
            reveal_strlit("..");
            assert("."@ =~= seq!['.']);
            assert(".."@ =~= seq!['.', '.']);
        }
    }
    r
}

/// Where a file that goes to `guest_path` is staged already, or the length.
fn find_staged(found: &Vec<Resolved>, guest_path: &str) -> (r: usize)
    ensures
        r == staged_at(resolved_views(found@), guest_path@),
        r <= found@.len(),
{
    let ghost all = resolved_views(found@);
    let mut i: usize = 0;
    assert(all.skip(0) =~= all);
    while i < found.len() && !same_path(found[i].guest_path.as_str(), guest_path)
        invariant
            i <= found@.len() == all.len(),
            all == resolved_views(found@),
            staged_at(all, guest_path@) == i + staged_at(all.skip(i as int), guest_path@),
        decreases found.len() - i,
    {
        assert(all[i as int] == found@[i as int]@);
        assert(all.skip(i as int).drop_first() =~= all.skip(i + 1));
        i = i + 1;
    }
    assert(i < found@.len() ==> all[i as int] == found@[i as int]@);
    i
}

fn is_reported(missing: &Vec<Entry>, name: &str) -> (r: bool)
    ensures
        r == reported(entry_views(missing@), name@),
{
    let ghost all = entry_views(missing@);
    let mut i: usize = 0;
    while i < missing.len()
        invariant
            i <= missing@.len() == all.len(),
            all == entry_views(missing@),
            forall|j: int| 0 <= j < i ==> (#[trigger] all[j]).name != name@,
        decreases missing.len() - i,
    {
        assert(all[i as int] == missing@[i as int]@);
        if same_text(missing[i].name.as_str(), name) {
            assert(all[i as int].name == name@);
            return true;
        }
        i = i + 1;
    }
    false
}

/// Every path where an entry that is looked for could be, in the order of the search.
pub open spec fn spec_candidates(
    entries: Seq<EntryView>,
    caps: Seq<Capability>,
    search: Seq<Seq<char>>,
) -> Seq<Seq<char>>
    decreases entries.len(),
{
    if entries.len() == 0 {
        Seq::empty()
    } else {
        let before = spec_candidates(entries.drop_last(), caps, search);
        if selected(entries.last(), caps) {
            before + below(search, base_name(entries.last().name))
        } else {
            before
        }
    }
}

/// `base` below each directory of `search`.
pub open spec fn below(search: Seq<Seq<char>>, base: Seq<char>) -> Seq<Seq<char>> {
    search.map_values(|d: Seq<char>| spec_join(d, base))
}

/// The paths whose existence decides what `resolve` finds.
pub fn candidates(entries: &Vec<Entry>, caps: &[Capability], search_paths: &Vec<String>) -> (r: Vec<String>)
    ensures
        texts(r@) == spec_candidates(entry_views(entries@), caps@, texts(search_paths@)),
{
    let ghost views = entry_views(entries@);
    let ghost dirs = texts(search_paths@);
    let mut r: Vec<String> = Vec::new();
    let mut i: usize = 0;
    assert(texts(r@) =~= Seq::<Seq<char>>::empty());
    while i < entries.len()
        invariant
            i <= entries@.len() == views.len(),
            views == entry_views(entries@),
            dirs == texts(search_paths@),
            texts(r@) == spec_candidates(views.take(i as int), caps@, dirs),
        decreases entries.len() - i,
    {
        let e: &Entry = &entries[i];
        assert(views[i as int] == e@);
        assert(views.take(i + 1).drop_last() =~= views.take(i as int));
        assert(views.take(i + 1).last() == e@);
        if !e.is_host_only() && e.wanted_by(caps) {
            let base: String = base_of(e.name.as_str());
            let ghost before = texts(r@);
            let ghost all = below(dirs, base@);
            let mut k: usize = 0;
            assert(before + all.take(0) =~= before);
            while k < search_paths.len()
                invariant
                    k <= search_paths@.len() == dirs.len(),
                    dirs == texts(search_paths@),
                    all == below(dirs, base@),
                    texts(r@) == before + all.take(k as int),
                decreases search_paths.len() - k,
            {
                assert(dirs[k as int] == search_paths@[k as int]@);
                let p: String = join(search_paths[k].as_str(), base.as_str());
                let ghost was = texts(r@);
                r.push(p);
                assert(texts(r@) =~= was.push(p@));
                assert(all.take(k + 1) =~= all.take(k as int).push(all[k as int]));
                k = k + 1;
                assert(texts(r@) =~= before + all.take(k as int));
            }
            assert(all.take(k as int) =~= all);
        }
        i = i + 1;
    }
    assert(views.take(i as int) =~= views);
    r
}

/// Find each wanted entry on this host, given which paths are present.
///
/// Returns what was found and what was not, each deduplicated: a driver manifest lists the same
/// file once per group of capabilities it belongs to. A missing file is reported rather than being
/// an error: manifests cover optional packages.
pub fn resolve(
    entries: &Vec<Entry>,
    caps: &[Capability],
    search_paths: &Vec<String>,
    present: &Vec<String>,
) -> (r: (Vec<Resolved>, Vec<Entry>))
    requires
        entries_wf(entries@),
    ensures
        ({
            let o = outcome(
                entry_views(entries@),
                caps@,
                texts(search_paths@),
                texts(present@),
            );
            resolved_views(r.0@) == o.found && entry_views(r.1@) == o.missing
        }),
        entries_wf(r.1@),
        forall|i: int| 0 <= i < r.0@.len() ==> (#[trigger] r.0@[i]).entry.wf(),
{
    let ghost views = entry_views(entries@);
    let ghost dirs = texts(search_paths@);
    let ghost there = texts(present@);
    let mut found: Vec<Resolved> = Vec::new();
    let mut missing: Vec<Entry> = Vec::new();
    let mut i: usize = 0;
    assert(resolved_views(found@) =~= Seq::<ResolvedView>::empty());
    assert(entry_views(missing@) =~= Seq::<EntryView>::empty());
    while i < entries.len()
        invariant
            i <= entries@.len() == views.len(),
            entries_wf(entries@),
            views == entry_views(entries@),
            dirs == texts(search_paths@),
            there == texts(present@),
            resolved_views(found@) == outcome(views.take(i as int), caps@, dirs, there).found,
            entry_views(missing@) == outcome(views.take(i as int), caps@, dirs, there).missing,
            entries_wf(missing@),
            forall|j: int| 0 <= j < found@.len() ==> (#[trigger] found@[j]).entry.wf(),
        decreases entries.len() - i,
    {
        let e: &Entry = &entries[i];
        let ghost so_far = outcome(views.take(i as int), caps@, dirs, there);
        assert(e.wf());
        assert(views[i as int] == e@);
        assert(views.take(i + 1).drop_last() =~= views.take(i as int));
        assert(views.take(i + 1).last() == e@);
        if !e.is_host_only() && e.wanted_by(caps) {
            let base: String = base_of(e.name.as_str());
            match locate(search_paths, base.as_str(), present) {
                Some(host_path) => {
                    let dir: String = guest_directory(&e.kind, host_path.as_str());
                    let guest_path: String = join(dir.as_str(), base.as_str());
                    let k: usize = find_staged(&found, guest_path.as_str());
                    let ghost before = resolved_views(found@);
                    if k < found.len() {
                        let mut kept: Resolved = found.remove(k);
                        kept.entry.categories.extend(&e.categories);
                        found.insert(k, kept);
                        assert(resolved_views(found@) =~= before.update(k as int, kept@));
                        assert(before[k as int].host_path == kept@.host_path);
                    } else {
                        let kept: Resolved = Resolved { entry: e.copy(), host_path, guest_path };
                        found.push(kept);
                        assert(resolved_views(found@) =~= before.push(kept@));
                    }
                },
                None => {
                    if !is_reported(&missing, e.name.as_str()) {
                        let ghost before = entry_views(missing@);
                        let copy: Entry = e.copy();
                        missing.push(copy);
                        assert(entry_views(missing@) =~= before.push(copy@));
                    }
                },
            }
        }
        i = i + 1;
    }
    assert(views.take(i as int) =~= views);
    (found, missing)
}

pub(crate) proof fn lemma_staged_at(found: Seq<ResolvedView>, guest_path: Seq<char>)
    ensures
        0 <= staged_at(found, guest_path) <= found.len(),
        forall|i: int|
            0 <= i < staged_at(found, guest_path) ==> spec_components(
                (#[trigger] found[i]).guest_path,
            ) != spec_components(guest_path),
        staged_at(found, guest_path) < found.len() ==> spec_components(
            found[staged_at(found, guest_path)].guest_path,
        ) == spec_components(guest_path),
    decreases found.len(),
{
    if found.len() > 0 && spec_components(found[0].guest_path) != spec_components(guest_path) {
        let rest = found.drop_first();
        lemma_staged_at(rest, guest_path);
        assert forall|i: int| 0 <= i < staged_at(found, guest_path) implies spec_components(
            (#[trigger] found[i]).guest_path,
        ) != spec_components(guest_path) by {
            if i > 0 {
                assert(found[i] == rest[i - 1]);
            }
        }
        if staged_at(found, guest_path) < found.len() {
            assert(found[staged_at(found, guest_path)] == rest[staged_at(rest, guest_path)]);
        }
    }
}

/// No two files of a share go to the same path, and no file is reported missing twice.
pub proof fn law_nothing_is_staged_twice(
    entries: Seq<EntryView>,
    caps: Seq<Capability>,
    search: Seq<Seq<char>>,
    present: Seq<Seq<char>>,
)
    ensures
        ({
            let o = outcome(entries, caps, search, present);
            &&& forall|i: int, j: int|
                #![trigger o.found[i], o.found[j]]
                0 <= i < j < o.found.len() ==> spec_components(o.found[i].guest_path)
                    != spec_components(o.found[j].guest_path)
            &&& forall|i: int, j: int|
                #![trigger o.missing[i], o.missing[j]]
                0 <= i < j < o.missing.len() ==> o.missing[i].name != o.missing[j].name
        }),
    decreases entries.len(),
{
    if entries.len() > 0 {
        law_nothing_is_staged_twice(entries.drop_last(), caps, search, present);
        let before = outcome(entries.drop_last(), caps, search, present);
        let e = entries.last();
        match first_present(search, base_name(e.name), present) {
            Some(host) => {
                let guest = spec_join(guest_dir(e.kind, host), base_name(e.name));
                lemma_staged_at(before.found, guest);
            },
            None => {},
        }
    }
}

/// Firmware and modprobe never reach a guest, whatever the manifest, the capabilities and the host.
pub proof fn law_host_only_files_stay(
    entries: Seq<EntryView>,
    caps: Seq<Capability>,
    search: Seq<Seq<char>>,
    present: Seq<Seq<char>>,
)
    ensures
        ({
            let o = outcome(entries, caps, search, present);
            &&& forall|i: int|
                0 <= i < o.found.len() ==> !(#[trigger] o.found[i]).entry.is_host_only()
            &&& forall|i: int| 0 <= i < o.missing.len() ==> !(#[trigger] o.missing[i]).is_host_only()
        }),
    decreases entries.len(),
{
    if entries.len() > 0 {
        law_host_only_files_stay(entries.drop_last(), caps, search, present);
        let before = outcome(entries.drop_last(), caps, search, present);
        let e = entries.last();
        match first_present(search, base_name(e.name), present) {
            Some(host) => {
                let guest = spec_join(guest_dir(e.kind, host), base_name(e.name));
                lemma_staged_at(before.found, guest);
            },
            None => {},
        }
    }
}

/// Whether an outcome accounts for an entry: as a file that goes where this one belongs and is
/// recorded under every category that it serves, or as a missing one.
pub open spec fn accounted(
    o: Outcome,
    e: EntryView,
    search: Seq<Seq<char>>,
    present: Seq<Seq<char>>,
) -> bool {
    let base = base_name(e.name);
    match first_present(search, base, present) {
        Some(host) => exists|i: int|
            {
                &&& 0 <= i < o.found.len()
                &&& spec_components((#[trigger] o.found[i]).guest_path) == spec_components(
                    spec_join(guest_dir(e.kind, host), base),
                )
                &&& e.categories.subset_of(o.found[i].entry.categories)
            },
        None => reported(o.missing, e.name),
    }
}

/// Every entry that is asked for is either staged, under all its categories, or reported missing.
pub proof fn law_every_wanted_entry_is_accounted_for(
    entries: Seq<EntryView>,
    caps: Seq<Capability>,
    search: Seq<Seq<char>>,
    present: Seq<Seq<char>>,
    k: int,
)
    requires
        0 <= k < entries.len(),
        selected(entries[k], caps),
    ensures
        accounted(outcome(entries, caps, search, present), entries[k], search, present),
    decreases entries.len(),
{
    let before = outcome(entries.drop_last(), caps, search, present);
    let after = outcome(entries, caps, search, present);
    let last = entries.last();
    let e = entries[k];
    let base = base_name(last.name);
    if k < entries.len() - 1 {
        law_every_wanted_entry_is_accounted_for(entries.drop_last(), caps, search, present, k);
        assert(entries.drop_last()[k] == e);
        if selected(last, caps) {
            match first_present(search, base, present) {
                Some(host) => {
                    let guest = spec_join(guest_dir(last.kind, host), base);
                    lemma_staged_at(before.found, guest);
                    lemma_still_accounted(before, after, last, host, guest, e, search, present);
                },
                None => {
                    lemma_still_reported(before, after, last, e, search, present);
                },
            }
        }
    } else {
        match first_present(search, base, present) {
            Some(host) => {
                let guest = spec_join(guest_dir(last.kind, host), base);
                lemma_staged_at(before.found, guest);
                let i = staged_at(before.found, guest);
                assert(spec_components(after.found[i].guest_path) == spec_components(guest));
                assert(e.categories.subset_of(after.found[i].entry.categories));
            },
            None => {
                if !reported(before.missing, last.name) {
                    assert(after.missing[before.missing.len() as int].name == last.name);
                }
            },
        }
    }
}

proof fn lemma_still_accounted(
    before: Outcome,
    after: Outcome,
    last: EntryView,
    host: Seq<char>,
    guest: Seq<char>,
    e: EntryView,
    search: Seq<Seq<char>>,
    present: Seq<Seq<char>>,
)
    requires
        accounted(before, e, search, present),
        after == before.with_file(last, host, guest),
        0 <= staged_at(before.found, guest) <= before.found.len(),
    ensures
        accounted(after, e, search, present),
{
    match first_present(search, base_name(e.name), present) {
        Some(h) => {
            let target = spec_components(spec_join(guest_dir(e.kind, h), base_name(e.name)));
            let i = choose|i: int|
                {
                    &&& 0 <= i < before.found.len()
                    &&& spec_components((#[trigger] before.found[i]).guest_path) == target
                    &&& e.categories.subset_of(before.found[i].entry.categories)
                };
            assert(spec_components(after.found[i].guest_path) == target);
            assert(e.categories.subset_of(after.found[i].entry.categories));
        },
        None => {
            assert(after.missing == before.missing);
        },
    }
}

proof fn lemma_still_reported(
    before: Outcome,
    after: Outcome,
    last: EntryView,
    e: EntryView,
    search: Seq<Seq<char>>,
    present: Seq<Seq<char>>,
)
    requires
        accounted(before, e, search, present),
        after == before.without_file(last),
    ensures
        accounted(after, e, search, present),
{
    match first_present(search, base_name(e.name), present) {
        Some(_) => {
            assert(after.found == before.found);
        },
        None => {
            let i = choose|i: int|
                0 <= i < before.missing.len() && (#[trigger] before.missing[i]).name == e.name;
            assert(after.missing[i].name == e.name);
        },
    }
}

/// What is found depends on no path but the candidates.
pub proof fn law_only_candidates_matter(
    entries: Seq<EntryView>,
    caps: Seq<Capability>,
    search: Seq<Seq<char>>,
    here: Seq<Seq<char>>,
    there: Seq<Seq<char>>,
)
    requires
        forall|p: Seq<char>| #[trigger]
            spec_candidates(entries, caps, search).contains(p) ==> (here.contains(p)
                <==> there.contains(p)),
    ensures
        outcome(entries, caps, search, here) == outcome(entries, caps, search, there),
    decreases entries.len(),
{
    if entries.len() > 0 {
        let less = entries.drop_last();
        let e = entries.last();
        let all = spec_candidates(entries, caps, search);
        let before = spec_candidates(less, caps, search);
        assert forall|p: Seq<char>| #[trigger] before.contains(p) implies (here.contains(p)
            <==> there.contains(p)) by {
            let i = choose|i: int| 0 <= i < before.len() && before[i] == p;
            assert(all[i] == p);
            assert(all.contains(p));
        }
        law_only_candidates_matter(less, caps, search, here, there);
        if selected(e, caps) {
            let base = base_name(e.name);
            assert forall|k: int| 0 <= k < search.len() implies (here.contains(
                #[trigger] spec_join(search[k], base),
            ) <==> there.contains(spec_join(search[k], base))) by {
                assert(all[before.len() + k] == below(search, base)[k]);
                assert(all.contains(spec_join(search[k], base)));
            }
            lemma_same_place(search, base, here, there);
        }
    }
}

proof fn lemma_same_place(
    search: Seq<Seq<char>>,
    base: Seq<char>,
    here: Seq<Seq<char>>,
    there: Seq<Seq<char>>,
)
    requires
        forall|k: int|
            0 <= k < search.len() ==> (here.contains(#[trigger] spec_join(search[k], base))
                <==> there.contains(spec_join(search[k], base))),
    ensures
        first_present(search, base, here) == first_present(search, base, there),
    decreases search.len(),
{
    if search.len() > 0 {
        assert(here.contains(spec_join(search[0], base)) <==> there.contains(
            spec_join(search[0], base),
        ));
        let rest = search.drop_first();
        assert forall|k: int| 0 <= k < rest.len() implies (here.contains(
            #[trigger] spec_join(rest[k], base),
        ) <==> there.contains(spec_join(rest[k], base))) by {
            assert(rest[k] == search[k + 1]);
            assert(here.contains(spec_join(search[k + 1], base)) <==> there.contains(
                spec_join(search[k + 1], base),
            ));
        }
        lemma_same_place(rest, base, here, there);
    }
}

} // verus!
