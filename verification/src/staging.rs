//! Deciding what goes into a guest's share of the host's driver files.
use crate::host::{is_version, version_shaped};
use crate::manifest::{quote_text, quoted_text};
use crate::paths::{file_name, spec_file_name, texts};
use crate::resolve::{resolved_views, Resolved, ResolvedView};
use crate::text::{chars_of, same_text, string_of};
use crate::userspace::Capability;
use crate::version::{trim, trimmed};
use vstd::prelude::*;
use vstd::string::StringExecFns;

verus! {

/// An ASCII letter in lower case; any other character as it is.
pub open spec fn lowered(c: char) -> char {
    if 'A' <= c <= 'Z' {
        (c as int + 32) as char
    } else {
        c
    }
}

/// A capability's name, without the white space around it and in lower case.
pub open spec fn plain_name(name: Seq<char>) -> Seq<char> {
    trimmed(name).map_values(|c: char| lowered(c))
}

pub open spec fn spec_capability(name: Seq<char>) -> Option<Capability> {
    let n = plain_name(name);
    if n == "utility"@ {
        Some(Capability::Utility)
    } else if n == "compute"@ {
        Some(Capability::Compute)
    } else if n == "graphics"@ {
        Some(Capability::Graphics)
    } else if n == "video"@ {
        Some(Capability::Video)
    } else {
        None
    }
}

/// The capability of this name, in whatever case, or what is wrong with it.
pub fn capability(name: &str) -> (r: core::result::Result<Capability, String>)
    ensures
        match r {
            Ok(c) => spec_capability(name@) == Some(c),
            Err(text) => {
                &&& spec_capability(name@) is None
                &&& text@ == "unknown capability "@ + quoted_text(plain_name(name@))
                    + " (utility, compute, graphics, video)"@
            },
        },
{
    let all: Vec<char> = chars_of(name);
    let t: Vec<char> = trim(&all);
    let mut plain: String = String::new();
    let mut i: usize = 0;
    while i < t.len()
        invariant
            i <= t@.len(),
            plain@ == t@.take(i as int).map_values(|c: char| lowered(c)),
        decreases t.len() - i,
    {
        let c: char = t[i];
        let l: char = if 'A' <= c && c <= 'Z' {
            (c as u8 + 32) as char
        } else {
            c
        };
        plain.push(l);
        i = i + 1;
        assert(plain@ =~= t@.take(i as int).map_values(|c: char| lowered(c)));
    }
    assert(t@.take(i as int) =~= t@);
    if same_text(plain.as_str(), "utility") {
        Ok(Capability::Utility)
    } else if same_text(plain.as_str(), "compute") {
        Ok(Capability::Compute)
    } else if same_text(plain.as_str(), "graphics") {
        Ok(Capability::Graphics)
    } else if same_text(plain.as_str(), "video") {
        Ok(Capability::Video)
    } else {
        let mut text: String = String::from_str("unknown capability ");
        text.append(quote_text(plain.as_str()).as_str());
        text.append(" (utility, compute, graphics, video)");
        Err(text)
    }
}

/// How the driver whose files were found stands to the one that is loaded.
#[derive(Clone, Copy, Debug, PartialEq, Eq, Structural)]
pub enum Verdict {
    Matches,
    Differs,
    /// No module is loaded to check against.
    Unchecked,
    /// The files do not say which driver they are of.
    Unknown,
}

pub open spec fn text_of(s: Option<String>) -> Option<Seq<char>> {
    match s {
        Some(t) => Some(t@),
        None => None,
    }
}

pub fn verdict(staged: &Option<String>, loaded: &Option<String>) -> (r: Verdict)
    ensures
        r == (match (text_of(*staged), text_of(*loaded)) {
            (Some(s), Some(l)) => if s == l {
                Verdict::Matches
            } else {
                Verdict::Differs
            },
            (Some(_), None) => Verdict::Unchecked,
            (None, _) => Verdict::Unknown,
        }),
{
    match (staged, loaded) {
        (Some(s), Some(l)) => if same_text(s.as_str(), l.as_str()) {
            Verdict::Matches
        } else {
            Verdict::Differs
        },
        (Some(_), None) => Verdict::Unchecked,
        (None, _) => Verdict::Unknown,
    }
}

/// Whether to refuse to stage.
///
/// A share built from the wrong driver is the one failure that does not look like one: it mounts,
/// every forwarded ioctl returns 0, and the caller gives up deep inside a library that is a
/// different build from the kernel module it is talking to.
pub fn refuses(v: Verdict, allow_mismatch: bool) -> (r: bool)
    ensures
        r == (v == Verdict::Differs && !allow_mismatch),
{
    v == Verdict::Differs && !allow_mismatch
}

/// The file names that a share will contain.
pub open spec fn names_in(found: Seq<ResolvedView>) -> Seq<Seq<char>>
    decreases found.len(),
{
    if found.len() == 0 {
        Seq::empty()
    } else {
        let rest = names_in(found.drop_last());
        match spec_file_name(found.last().guest_path) {
            Some(n) => rest.push(n),
            None => rest,
        }
    }
}

pub fn staged_names(found: &Vec<Resolved>) -> (r: Vec<String>)
    ensures
        texts(r@) == names_in(resolved_views(found@)),
{
    let ghost all = resolved_views(found@);
    let mut r: Vec<String> = Vec::new();
    let mut i: usize = 0;
    assert(texts(r@) =~= Seq::<Seq<char>>::empty());
    while i < found.len()
        invariant
            i <= found@.len() == all.len(),
            all == resolved_views(found@),
            texts(r@) == names_in(all.take(i as int)),
        decreases found.len() - i,
    {
        assert(all[i as int] == found@[i as int]@);
        assert(all.take(i + 1).drop_last() =~= all.take(i as int));
        let ghost before = texts(r@);
        if let Some(n) = file_name(found[i].guest_path.as_str()) {
            r.push(n);
            assert(texts(r@) =~= before.push(n@));
        }
        i = i + 1;
    }
    assert(all.take(i as int) =~= all);
    r
}

/// Whether a symlink to `target` would lead nowhere in the share.
///
/// A manifest symlink can point outside the driver. Staging it would yield something that looks
/// present and resolves to nothing.
pub fn dangles(target: &str, names: &Vec<String>) -> (r: bool)
    ensures
        r == (match spec_file_name(target@) {
            Some(n) => !texts(names@).contains(n),
            None => true,
        }),
{
    let wanted: String = match file_name(target) {
        Some(n) => n,
        None => {
            return true;
        },
    };
    let ghost all = texts(names@);
    let mut i: usize = 0;
    while i < names.len()
        invariant
            i <= names@.len() == all.len(),
            all == texts(names@),
            spec_file_name(target@) == Some(wanted@),
            forall|j: int| 0 <= j < i ==> all[j] != wanted@,
        decreases names.len() - i,
    {
        assert(all[i as int] == names@[i as int]@);
        if same_text(names[i].as_str(), wanted.as_str()) {
            assert(all.contains(wanted@));
            return false;
        }
        i = i + 1;
    }
    true
}

/// The name of the link that a staged library needs beside it, if it needs one.
///
/// A manifest names real files; the links that a caller opens are made by packaging and are not in
/// it. Without them a share holds every library and resolves none. A library whose file has the
/// name that it asks to be found under needs no link.
pub fn soname_link(soname: &str, guest_path: &str) -> (r: Option<String>)
    ensures
        match r {
            Some(link) => link@ == soname@ && (spec_file_name(guest_path@) matches Some(name)
                && name != soname@),
            None => spec_file_name(guest_path@) matches Some(name) ==> name == soname@,
        },
{
    match file_name(guest_path) {
        Some(name) => if same_text(name.as_str(), soname) {
            None
        } else {
            Some(soname.to_owned())
        },
        None => None,
    }
}

/// The version behind the first `.so.` of a library's name that one stands behind.
pub open spec fn version_in_name(name: Seq<char>) -> Option<Seq<char>>
    decreases name.len(),
{
    if name.len() < 4 {
        None
    } else if name.take(4) == ".so."@ && version_shaped(name.skip(4)) {
        Some(name.skip(4))
    } else {
        version_in_name(name.drop_first())
    }
}

/// The first version that the name of a found file gives.
pub open spec fn spec_staged_version(found: Seq<ResolvedView>) -> Option<Seq<char>>
    decreases found.len(),
{
    if found.len() == 0 {
        None
    } else if version_in_name(found[0].entry.name) is Some {
        version_in_name(found[0].entry.name)
    } else {
        spec_staged_version(found.drop_first())
    }
}

fn name_version(name: &str) -> (r: Option<String>)
    ensures
        text_of(r) == version_in_name(name@),
{
    let c: Vec<char> = chars_of(name);
    proof {
        reveal_strlit(".so.");
    }
    let mut i: usize = 0;
    assert(c@.skip(0) =~= c@);
    while i < c.len() && c.len() - i >= 4
        invariant
            c@ == name@,
            i <= c@.len(),
            ".so."@ =~= seq!['.', 's', 'o', '.'],
            version_in_name(name@) == version_in_name(c@.skip(i as int)),
        decreases c.len() - i,
    {
        let ghost rest = c@.skip(i as int);
        assert(rest.skip(4) =~= c@.subrange(i + 4, c@.len() as int));
        assert(rest.drop_first() =~= c@.skip(i + 1));
        assert((rest.take(4) == ".so."@) == (c@[i as int] == '.' && c@[i + 1] == 's' && c@[i + 2]
            == 'o' && c@[i + 3] == '.')) by {
            if c@[i as int] == '.' && c@[i + 1] == 's' && c@[i + 2] == 'o' && c@[i + 3] == '.' {
                assert(rest.take(4) =~= ".so."@);
            } else {
                assert(rest.take(4)[0] == c@[i as int] && rest.take(4)[1] == c@[i + 1]
                    && rest.take(4)[2] == c@[i + 2] && rest.take(4)[3] == c@[i + 3]);
            }
        }
        if c[i] == '.' && c[i + 1] == 's' && c[i + 2] == 'o' && c[i + 3] == '.' {
            if is_version(&c, i + 4, c.len()) {
                return Some(string_of(&c, i + 4, c.len()));
            }
        }
        i = i + 1;
    }
    None
}

/// The driver version of the files that were found, as their names give it: `615.71.09` for
/// `libcuda.so.615.71.09`.
pub fn staged_driver_version(found: &Vec<Resolved>) -> (r: Option<String>)
    ensures
        text_of(r) == spec_staged_version(resolved_views(found@)),
{
    let ghost all = resolved_views(found@);
    let mut i: usize = 0;
    assert(all.skip(0) =~= all);
    while i < found.len()
        invariant
            i <= found@.len() == all.len(),
            all == resolved_views(found@),
            spec_staged_version(all) == spec_staged_version(all.skip(i as int)),
        decreases found.len() - i,
    {
        assert(all[i as int] == found@[i as int]@);
        assert(all.skip(i as int).drop_first() =~= all.skip(i + 1));
        let v: Option<String> = name_version(found[i].entry.name.as_str());
        if v.is_some() {
            return v;
        }
        i = i + 1;
    }
    None
}

} // verus!
