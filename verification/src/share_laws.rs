//! Which files a capability stands for, by the driver's own words.
use crate::paths::{spec_components, spec_file_name, spec_is_name, spec_join};
use crate::resolve::{
    below, first_present, guest_dir, joined, lemma_staged_at, outcome, parent_of, selected,
    share_index, spec_candidates, ResolvedView,
};
use crate::staging::{names_in, spec_staged_version, version_in_name};
use crate::text_laws::law_components_below_a_directory;
use crate::userspace::{kind_of, spec_default_search_paths, Capability, EntryView, KindView};
use vstd::prelude::*;

verus! {

/// Whether a file may never leave the host: firmware and `nvidia-modprobe`, by type or by category.
pub open spec fn stays(e: EntryView) -> bool {
    ||| e.kind is Firmware
    ||| e.kind is Modprobe
    ||| e.categories.contains("firmware"@)
    ||| e.categories.contains("modprobe"@)
}

/// Whether a file is in one of the driver's categories that make up a capability.
pub open spec fn serves(e: EntryView, cap: Capability) -> bool {
    match cap {
        Capability::Utility => {
            ||| e.categories.contains("nvml"@)
            ||| e.categories.contains("utils"@)
        },
        Capability::Compute => {
            ||| e.categories.contains("cuda"@)
            ||| e.categories.contains("opencl"@)
            ||| e.categories.contains("optix"@)
        },
        Capability::Graphics => {
            ||| e.categories.contains("vulkan"@)
            ||| e.categories.contains("egl"@)
            ||| e.categories.contains("egl_headless"@)
            ||| e.categories.contains("egl_wayland"@)
            ||| e.categories.contains("egl_gbm"@)
            ||| e.categories.contains("egl_x11"@)
            ||| e.categories.contains("glx"@)
            ||| e.categories.contains("gbm"@)
            ||| e.categories.contains("glvnd"@)
        },
        Capability::Video => e.categories.contains("video"@),
    }
}

/// A capability covers exactly the driver's categories for it: utility is `nvml` and `utils`,
/// compute is `cuda`, `opencl` and `optix`, graphics is `vulkan`, `egl`, `egl_headless`,
/// `egl_wayland`, `egl_gbm`, `egl_x11`, `glx`, `gbm` and `glvnd`, and video is `video`. A file in
/// any one of them that may leave the host is selected, and no other is.
pub proof fn law_capabilities_cover_the_drivers_categories(e: EntryView, cap: Capability)
    ensures
        selected(e, seq![cap]) <==> !stays(e) && serves(e, cap),
        cap.spec_categories().len() == (match cap {
            Capability::Utility => 2nat,
            Capability::Compute => 3,
            Capability::Graphics => 9,
            Capability::Video => 1,
        }),
{
    let c = cap.spec_categories();
    if serves(e, cap) {
        match cap {
            Capability::Utility => {
                assert(e.categories.contains(c[0]) || e.categories.contains(c[1]));
            },
            Capability::Compute => {
                assert(e.categories.contains(c[0]) || e.categories.contains(c[1])
                    || e.categories.contains(c[2]));
            },
            Capability::Graphics => {
                assert(e.categories.contains(c[0]) || e.categories.contains(c[1])
                    || e.categories.contains(c[2]) || e.categories.contains(c[3])
                    || e.categories.contains(c[4]) || e.categories.contains(c[5])
                    || e.categories.contains(c[6]) || e.categories.contains(c[7])
                    || e.categories.contains(c[8]));
            },
            Capability::Video => {
                assert(e.categories.contains(c[0]));
            },
        }
        let j = choose|j: int| 0 <= j < c.len() && e.categories.contains(#[trigger] c[j]);
        assert(seq![cap][0] == cap);
        assert(e.categories.contains(seq![cap][0].spec_categories()[j]));
    }
    if e.wanted_by(seq![cap]) {
        let (i, j) = choose|i: int, j: int|
            0 <= i < seq![cap].len() && 0 <= j < seq![cap][i].spec_categories().len()
                && e.categories.contains(#[trigger] seq![cap][i].spec_categories()[j]);
        assert(seq![cap][i] == cap);
        assert(e.categories.contains(c[j]));
    }
}

/// Several capabilities select what one of them does.
pub proof fn law_capabilities_add_up(e: EntryView, caps: Seq<Capability>)
    ensures
        selected(e, caps) <==> exists|i: int|
            0 <= i < caps.len() && selected(e, seq![#[trigger] caps[i]]),
{
    if selected(e, caps) {
        let (i, j) = choose|i: int, j: int|
            0 <= i < caps.len() && 0 <= j < caps[i].spec_categories().len()
                && e.categories.contains(#[trigger] caps[i].spec_categories()[j]);
        assert(seq![caps[i]][0] == caps[i]);
        assert(e.categories.contains(seq![caps[i]][0].spec_categories()[j]));
        assert(selected(e, seq![caps[i]]));
    }
    if exists|i: int| 0 <= i < caps.len() && selected(e, seq![#[trigger] caps[i]]) {
        let i = choose|i: int| 0 <= i < caps.len() && selected(e, seq![#[trigger] caps[i]]);
        let one = seq![caps[i]];
        let (k, j) = choose|k: int, j: int|
            0 <= k < one.len() && 0 <= j < one[k].spec_categories().len() && e.categories.contains(
                #[trigger] one[k].spec_categories()[j],
            );
        assert(one[k] == caps[i]);
        assert(e.categories.contains(caps[i].spec_categories()[j]));
    }
}

/// Each word of the manifest for a type means one kind, and a word that it does not know stays as it
/// is.
pub proof fn law_words_for_kinds(word: Seq<char>)
    ensures
        kind_of(word) is Lib <==> word == "LIB"@,
        kind_of(word) is Binary <==> word == "BINARY"@,
        kind_of(word) is Json <==> word == "JSON"@ || word == "ICD"@,
        kind_of(word) is Firmware <==> word == "FIRMWARE"@,
        kind_of(word) is Symlink <==> word == "SYMLINK"@,
        kind_of(word) is Modprobe <==> word == "MODPROBE"@,
        kind_of(word) matches KindView::Other(w) ==> w == word,
{
    reveal_strlit("LIB");
    reveal_strlit("BINARY");
    reveal_strlit("JSON");
    reveal_strlit("ICD");
    reveal_strlit("FIRMWARE");
    reveal_strlit("SYMLINK");
    reveal_strlit("MODPROBE");
    assert("LIB"@[0] != "ICD"@[0]);
    assert("FIRMWARE"@[0] != "MODPROBE"@[0]);
    assert("LIB"@.len() == 3 && "ICD"@.len() == 3 && "JSON"@.len() == 4 && "BINARY"@.len() == 6
        && "SYMLINK"@.len() == 7 && "FIRMWARE"@.len() == 8 && "MODPROBE"@.len() == 8);
    assert(word =~= "JSON"@ ==> word == "JSON"@);
    assert(word =~= "ICD"@ ==> word == "ICD"@);
    assert(word =~= "SYMLINK"@ ==> word == "SYMLINK"@);
}

/// Each kind has a word of its own for a reader.
pub proof fn law_kinds_are_named(w: Seq<char>)
    ensures
        KindView::Lib.text() == "lib"@,
        KindView::Binary.text() == "binary"@,
        KindView::Json.text() == "json"@,
        KindView::Firmware.text() == "firmware"@,
        KindView::Symlink.text() == "symlink"@,
        KindView::Modprobe.text() == "modprobe"@,
        KindView::Other(w).text() == w,
{
}

/// Programs go to `bin`, and everything but a JSON file goes to `lib`, wherever the host has it.
pub proof fn law_programs_and_libraries_have_their_directories(kind: KindView, path: Seq<char>)
    requires
        !(kind is Json),
    ensures
        kind is Binary || kind is Modprobe ==> guest_dir(kind, path) == "bin"@,
        !(kind is Binary || kind is Modprobe) ==> guest_dir(kind, path) == "lib"@,
{
}

/// Where the first component `share` stands.
proof fn lemma_share_index(before: Seq<Seq<char>>, tail: Seq<Seq<char>>)
    requires
        forall|i: int| 0 <= i < before.len() ==> before[i] != "share"@,
    ensures
        share_index(before + seq!["share"@] + tail) == before.len(),
    decreases before.len(),
{
    let all = before + seq!["share"@] + tail;
    if before.len() == 0 {
        assert(all[0] == "share"@);
    } else {
        assert(all[0] == before[0]);
        assert(all.drop_first() =~= before.drop_first() + seq!["share"@] + tail);
        lemma_share_index(before.drop_first(), tail);
    }
}

proof fn lemma_no_share(parts: Seq<Seq<char>>)
    requires
        forall|i: int| 0 <= i < parts.len() ==> parts[i] != "share"@,
    ensures
        share_index(parts) == parts.len(),
    decreases parts.len(),
{
    if parts.len() > 0 {
        lemma_no_share(parts.drop_first());
    }
}

/// A JSON file keeps the directories that its loader looks in: those from the first component
/// `share` of its path on. Where there is none, it goes below `share` to a directory named like its
/// own.
pub proof fn law_json_files_keep_their_directory(
    path: Seq<char>,
    before: Seq<Seq<char>>,
    tail: Seq<Seq<char>>,
)
    requires
        forall|i: int| 0 <= i < before.len() ==> before[i] != "share"@,
    ensures
        parent_of(path) == before + seq!["share"@] + tail ==> guest_dir(KindView::Json, path)
            == joined(seq!["share"@] + tail),
        parent_of(path) == before && before.len() > 0 && spec_is_name(before.last())
            ==> guest_dir(KindView::Json, path) == spec_join("share"@, before.last()),
        parent_of(path) == before && before.len() == 0 ==> guest_dir(KindView::Json, path)
            == "share"@,
{
    lemma_share_index(before, tail);
    lemma_no_share(before);
    let all = before + seq!["share"@] + tail;
    assert(all.skip(before.len() as int + 1) =~= tail);
}

/// A file is found in the first directory of the search that has it.
pub proof fn law_first_directory_wins(
    search: Seq<Seq<char>>,
    base: Seq<char>,
    present: Seq<Seq<char>>,
)
    ensures
        match first_present(search, base, present) {
            Some(path) => present.contains(path) && exists|i: int|
                0 <= i < search.len() && path == spec_join(#[trigger] search[i], base) && forall|
                    j: int,
                |
                    0 <= j < i ==> !present.contains(spec_join(#[trigger] search[j], base)),
            None => forall|j: int|
                0 <= j < search.len() ==> !present.contains(spec_join(#[trigger] search[j], base)),
        },
    decreases search.len(),
{
    if search.len() > 0 {
        let rest = search.drop_first();
        law_first_directory_wins(rest, base, present);
        if present.contains(spec_join(search[0], base)) {
            assert(first_present(search, base, present) == Some(spec_join(search[0], base)));
        } else {
            match first_present(rest, base, present) {
                Some(path) => {
                    let i = choose|i: int|
                        0 <= i < rest.len() && path == spec_join(#[trigger] rest[i], base)
                            && forall|j: int|
                            0 <= j < i ==> !present.contains(spec_join(#[trigger] rest[j], base));
                    assert(rest[i] == search[i + 1]);
                    assert forall|j: int| 0 <= j < i + 1 implies !present.contains(
                        spec_join(#[trigger] search[j], base),
                    ) by {
                        if j > 0 {
                            assert(rest[j - 1] == search[j]);
                        }
                    }
                    assert(path == spec_join(search[i + 1], base));
                },
                None => {
                    assert forall|j: int| 0 <= j < search.len() implies !present.contains(
                        spec_join(#[trigger] search[j], base),
                    ) by {
                        if j > 0 {
                            assert(rest[j - 1] == search[j]);
                        }
                    }
                },
            }
        }
    }
}

/// The name that a file of the manifest is looked for under: the last part of what the manifest gives.
pub open spec fn looked_for(e: EntryView) -> Seq<char> {
    match spec_file_name(e.name) {
        Some(last) => last,
        None => e.name,
    }
}

/// Whether a staged file is one that the manifest asks for, in the first directory that has it, and
/// goes to the directory of its kind.
pub open spec fn is_asked_for(
    r: ResolvedView,
    e: EntryView,
    caps: Seq<Capability>,
    search: Seq<Seq<char>>,
    present: Seq<Seq<char>>,
) -> bool {
    &&& selected(e, caps)
    &&& r.entry.name == e.name
    &&& r.entry.kind == e.kind
    &&& e.categories.subset_of(r.entry.categories)
    &&& first_present(search, looked_for(e), present) == Some(r.host_path)
    &&& r.guest_path == spec_join(guest_dir(e.kind, r.host_path), looked_for(e))
}

/// Whether some entry of the manifest asks for a staged file.
pub open spec fn some_asks_for(
    r: ResolvedView,
    entries: Seq<EntryView>,
    caps: Seq<Capability>,
    search: Seq<Seq<char>>,
    present: Seq<Seq<char>>,
) -> bool {
    exists|k: int|
        0 <= k < entries.len() && is_asked_for(r, #[trigger] entries[k], caps, search, present)
}

/// Whether a file is one that the manifest asks for and that no directory has.
pub open spec fn some_misses(
    m: EntryView,
    entries: Seq<EntryView>,
    caps: Seq<Capability>,
    search: Seq<Seq<char>>,
    present: Seq<Seq<char>>,
) -> bool {
    &&& entries.contains(m)
    &&& selected(m, caps)
    &&& first_present(search, looked_for(m), present) is None
}

/// Every staged file is one that the manifest asks for, and every file reported missing is one that it
/// asks for and that no directory has.
pub proof fn law_nothing_else_is_staged(
    entries: Seq<EntryView>,
    caps: Seq<Capability>,
    search: Seq<Seq<char>>,
    present: Seq<Seq<char>>,
)
    ensures
        forall|i: int|
            0 <= i < outcome(entries, caps, search, present).found.len() ==> some_asks_for(
                #[trigger] outcome(entries, caps, search, present).found[i],
                entries,
                caps,
                search,
                present,
            ),
        forall|i: int|
            0 <= i < outcome(entries, caps, search, present).missing.len() ==> some_misses(
                #[trigger] outcome(entries, caps, search, present).missing[i],
                entries,
                caps,
                search,
                present,
            ),
    decreases entries.len(),
{
    if entries.len() > 0 {
        let less = entries.drop_last();
        let e = entries.last();
        let n = less.len() as int;
        law_nothing_else_is_staged(less, caps, search, present);
        let before = outcome(less, caps, search, present);
        let after = outcome(entries, caps, search, present);
        assert(after == before.after(e, caps, search, present));
        assert(entries[n] == e);
        let guest = match first_present(search, looked_for(e), present) {
            Some(host) => spec_join(guest_dir(e.kind, host), looked_for(e)),
            None => Seq::empty(),
        };
        lemma_staged_at(before.found, guest);
        assert forall|i: int| 0 <= i < after.found.len() implies some_asks_for(
            #[trigger] after.found[i],
            entries,
            caps,
            search,
            present,
        ) by {
            if i < before.found.len() {
                assert(some_asks_for(before.found[i], less, caps, search, present));
                let k = choose|k: int|
                    0 <= k < less.len() && is_asked_for(
                        before.found[i],
                        #[trigger] less[k],
                        caps,
                        search,
                        present,
                    );
                assert(entries[k] == less[k]);
                assert(is_asked_for(after.found[i], entries[k], caps, search, present));
            } else {
                assert(is_asked_for(after.found[i], entries[n], caps, search, present));
            }
        }
        assert forall|i: int| 0 <= i < after.missing.len() implies some_misses(
            #[trigger] after.missing[i],
            entries,
            caps,
            search,
            present,
        ) by {
            if i < before.missing.len() {
                assert(some_misses(before.missing[i], less, caps, search, present));
                assert(after.missing[i] == before.missing[i]);
                let k = choose|k: int| 0 <= k < less.len() && less[k] == before.missing[i];
                assert(entries[k] == less[k]);
            } else {
                assert(after.missing[i] == entries[n]);
            }
        }
    }
}

/// A path is a candidate if it is that of a selected file below a directory of the search.
pub proof fn law_candidates_are_where_files_could_be(
    entries: Seq<EntryView>,
    caps: Seq<Capability>,
    search: Seq<Seq<char>>,
    path: Seq<char>,
)
    ensures
        spec_candidates(entries, caps, search).contains(path) <==> exists|k: int, j: int|
            0 <= k < entries.len() && 0 <= j < search.len() && selected(entries[k], caps) && path
                == spec_join(#[trigger] search[j], looked_for(#[trigger] entries[k])),
    decreases entries.len(),
{
    if entries.len() > 0 {
        let less = entries.drop_last();
        let e = entries.last();
        let n = less.len() as int;
        law_candidates_are_where_files_could_be(less, caps, search, path);
        let before = spec_candidates(less, caps, search);
        let all = spec_candidates(entries, caps, search);
        let new = below(search, looked_for(e));
        assert(entries[n] == e);
        if before.contains(path) {
            let a = choose|a: int| 0 <= a < before.len() && before[a] == path;
            assert(all[a] == path);
            let (k, j) = choose|k: int, j: int|
                0 <= k < less.len() && 0 <= j < search.len() && selected(less[k], caps) && path
                    == spec_join(#[trigger] search[j], looked_for(#[trigger] less[k]));
            assert(entries[k] == less[k]);
            assert(path == spec_join(search[j], looked_for(entries[k])));
        }
        if all.contains(path) && !before.contains(path) {
            let a = choose|a: int| 0 <= a < all.len() && all[a] == path;
            if a < before.len() {
                assert(before[a] == path);
            }
            let j = a - before.len();
            assert(new[j] == path);
            assert(path == spec_join(search[j], looked_for(entries[n])));
        }
        if exists|k: int, j: int|
            0 <= k < entries.len() && 0 <= j < search.len() && selected(entries[k], caps) && path
                == spec_join(#[trigger] search[j], looked_for(#[trigger] entries[k])) {
            let (k, j) = choose|k: int, j: int|
                0 <= k < entries.len() && 0 <= j < search.len() && selected(entries[k], caps) && path
                    == spec_join(#[trigger] search[j], looked_for(#[trigger] entries[k]));
            if k < n {
                assert(less[k] == entries[k]);
                assert(path == spec_join(search[j], looked_for(less[k])));
            } else {
                assert(new[j] == path);
                assert(all[before.len() + j] == path);
            }
        }
    }
}

/// Directories below one another are joined one by one.
pub proof fn law_directories_are_joined(parts: Seq<Seq<char>>, last: Seq<char>)
    ensures
        joined(Seq::empty()).len() == 0,
        joined(parts.push(last)) == spec_join(joined(parts), last),
{
    assert(parts.push(last).drop_last() =~= parts);
}

/// The directory of a file is the path without its name.
pub proof fn law_directory_of_a_file(dir: Seq<char>, name: Seq<char>)
    requires
        dir.len() > 0,
        dir.last() != '/',
        name.len() > 0,
        !name.contains('/'),
        name != seq!['.'],
    ensures
        parent_of(spec_join(dir, name)) == spec_components(dir),
{
    law_components_below_a_directory(dir, name);
    assert(name != seq!['/']) by {
        if name == seq!['/'] {
            assert(name[0] == '/');
            assert(name.contains(name[0]));
        }
    }
    assert(spec_components(dir).push(name).drop_last() =~= spec_components(dir));
}

/// The names in a share are those of its files.
pub proof fn law_names_in_a_share(found: Seq<ResolvedView>, name: Seq<char>)
    ensures
        names_in(found).contains(name) <==> exists|i: int|
            0 <= i < found.len() && spec_file_name((#[trigger] found[i]).guest_path) == Some(name),
    decreases found.len(),
{
    if found.len() > 0 {
        let less = found.drop_last();
        let n = less.len() as int;
        law_names_in_a_share(less, name);
        let before = names_in(less);
        let all = names_in(found);
        assert(found[n] == found.last());
        if before.contains(name) {
            let a = choose|a: int| 0 <= a < before.len() && before[a] == name;
            assert(all[a] == name);
            let i = choose|i: int|
                0 <= i < less.len() && spec_file_name((#[trigger] less[i]).guest_path) == Some(name);
            assert(found[i] == less[i]);
        }
        if spec_file_name(found.last().guest_path) == Some(name) {
            assert(all[before.len() as int] == name);
        }
        if all.contains(name) && !before.contains(name) {
            let a = choose|a: int| 0 <= a < all.len() && all[a] == name;
            if a < before.len() {
                assert(before[a] == name);
            }
            assert(spec_file_name(found[n].guest_path) == Some(name));
        }
        if exists|i: int|
            0 <= i < found.len() && spec_file_name((#[trigger] found[i]).guest_path) == Some(name) {
            let i = choose|i: int|
                0 <= i < found.len() && spec_file_name((#[trigger] found[i]).guest_path) == Some(name);
            if i < n {
                assert(less[i] == found[i]);
            }
        }
    }
}

/// The driver version of a share is that of the first file whose name gives one.
pub proof fn law_version_of_a_share(found: Seq<ResolvedView>, k: int)
    requires
        0 <= k <= found.len(),
        forall|i: int| 0 <= i < k ==> version_in_name((#[trigger] found[i]).entry.name) is None,
    ensures
        k == found.len() ==> spec_staged_version(found) is None,
        k < found.len() && version_in_name(found[k].entry.name) is Some ==> spec_staged_version(found)
            == version_in_name(found[k].entry.name),
    decreases k,
{
    if k > 0 {
        let rest = found.drop_first();
        assert(version_in_name(found[0].entry.name) is None);
        assert forall|i: int| 0 <= i < k - 1 implies version_in_name(
            (#[trigger] rest[i]).entry.name,
        ) is None by {
            assert(rest[i] == found[i + 1]);
        }
        law_version_of_a_share(rest, k - 1);
        if k < found.len() {
            assert(rest[k - 1] == found[k]);
        }
    }
}

/// A host is searched in the directories of libraries, then of programs, then of what loaders read,
/// in this order.
pub proof fn law_default_search_order()
    ensures
        ({
            let s = spec_default_search_paths();
            &&& s.len() == 12
            &&& s[0] == "/usr/lib"@
            &&& s[1] == "/usr/lib64"@
            &&& s[2] == "/usr/lib/x86_64-linux-gnu"@
            &&& s[3] == "/usr/bin"@
            &&& s[4] == "/usr/share/vulkan/icd.d"@
            &&& s[5] == "/usr/share/vulkan/implicit_layer.d"@
            &&& s[6] == "/usr/share/vulkansc/icd.d"@
            &&& s[7] == "/usr/share/glvnd/egl_vendor.d"@
            &&& s[8] == "/usr/share/nvidia"@
            &&& s[9] == "/usr/lib/nvidia"@
            &&& s[10] == "/usr/lib/xorg/modules/drivers"@
            &&& s[11] == "/usr/lib/xorg/modules/extensions"@
        }),
{
}

} // verus!
