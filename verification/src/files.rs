//! The host files that a guest republishes.
//!
//! A guest asks for a tree of small files and gets them as one stream. It republishes them under
//! its own `/proc/driver/nvidia`, which is where the userspace driver looks before it will talk to
//! a device at all.
use crate::bytes::{append, append_u32, u32_bytes};
use crate::messages::{FileEntry, FILE_ENTRY_SIZE};
use vstd::prelude::*;

verus! {

/// Which host tree a `GetProcFiles`/`GetSysFiles` request refers to.
#[derive(Clone, Copy, Debug, PartialEq, Eq, Structural)]
pub enum FileTree {
    /// `/proc/driver/nvidia`, which NVML reads before it will talk to a device.
    Proc,
    /// The sysfs attributes the userspace driver looks for on each card.
    Sys,
}

impl FileTree {
    pub open spec fn spec_name(self) -> Seq<char> {
        match self {
            FileTree::Proc => "GET_PROC_FILES"@,
            FileTree::Sys => "GET_SYS_FILES"@,
        }
    }

    pub open spec fn spec_root(self) -> Seq<char> {
        match self {
            FileTree::Proc => "/proc/driver/nvidia"@,
            FileTree::Sys => "/sys"@,
        }
    }

    pub fn name(self) -> (r: &'static str)
        ensures
            r@ == self.spec_name(),
    {
        match self {
            FileTree::Proc => "GET_PROC_FILES",
            FileTree::Sys => "GET_SYS_FILES",
        }
    }

    /// The directory that paths in the stream are relative to.
    pub fn root(self) -> (r: &'static str)
        ensures
            r@ == self.spec_root(),
    {
        match self {
            FileTree::Proc => "/proc/driver/nvidia",
            FileTree::Sys => "/sys",
        }
    }
}

/// A file by its path below the root of its tree.
pub struct HostFile {
    pub path: Vec<u8>,
    pub content: Vec<u8>,
}

/// What a `HostFile` holds.
#[verifier::ext_equal]
pub struct FileView {
    pub path: Seq<u8>,
    pub content: Seq<u8>,
}

impl View for HostFile {
    type V = FileView;

    open spec fn view(&self) -> FileView {
        FileView { path: self.path@, content: self.content@ }
    }
}

pub open spec fn views(files: Seq<HostFile>) -> Seq<FileView> {
    files.map_values(|f: HostFile| f@)
}

/// What kind of thing a directory entry is, without following links.
#[derive(Clone, Copy, Debug, PartialEq, Eq, Structural)]
pub enum EntryKind {
    Symlink,
    Directory,
    Regular,
    Other,
}

/// What to do with a directory entry.
#[derive(Clone, Copy, Debug, PartialEq, Eq, Structural)]
pub enum Visit {
    /// Walk the directory.
    Descend,
    /// Read the file.
    Take,
    Pass,
}

/// The largest file that is republished.
pub const MAX_FILE: u64 = 64 * 1024;

/// How deep below its root a tree is walked.
pub const MAX_DEPTH: usize = 4;

/// Decide on one entry of a directory that lies `depth` levels below the root.
///
/// A symlink leads out of the tree, so it is passed over. A length of zero says nothing: procfs
/// reports it for files with real content.
pub fn visit(kind: EntryKind, len: u64, depth: usize) -> (r: Visit)
    ensures
        r == Visit::Descend <==> kind == EntryKind::Directory && depth < MAX_DEPTH,
        r == Visit::Take <==> kind == EntryKind::Regular && len <= MAX_FILE,
{
    match kind {
        EntryKind::Symlink | EntryKind::Other => Visit::Pass,
        EntryKind::Directory => if depth < MAX_DEPTH {
            Visit::Descend
        } else {
            Visit::Pass
        },
        EntryKind::Regular => if len <= MAX_FILE {
            Visit::Take
        } else {
            Visit::Pass
        },
    }
}

/// Whether a file that was read is small enough after all.
pub fn keep(content: &Vec<u8>) -> (r: bool)
    ensures
        r == (content@.len() <= MAX_FILE),
{
    content.len() as u64 <= MAX_FILE
}

/// Byte by byte, the first difference decides; a prefix comes first.
pub open spec fn lex_le(a: Seq<u8>, b: Seq<u8>) -> bool
    decreases a.len(),
{
    if a.len() == 0 {
        true
    } else if b.len() == 0 {
        false
    } else if a[0] != b[0] {
        a[0] < b[0]
    } else {
        lex_le(a.drop_first(), b.drop_first())
    }
}

/// Whether `a` comes before `b`, or is `b`.
pub(crate) fn not_after(a: &[u8], b: &[u8]) -> (r: bool)
    ensures
        r == lex_le(a@, b@),
{
    let mut i: usize = 0;
    assert(a@.skip(0) =~= a@);
    assert(b@.skip(0) =~= b@);
    while i < a.len() && i < b.len() && a[i] == b[i]
        invariant
            i <= a@.len(),
            i <= b@.len(),
            lex_le(a@, b@) == lex_le(a@.skip(i as int), b@.skip(i as int)),
        decreases a.len() - i,
    {
        assert(a@.skip(i as int).drop_first() =~= a@.skip(i + 1));
        assert(b@.skip(i as int).drop_first() =~= b@.skip(i + 1));
        i = i + 1;
    }
    if i >= a.len() {
        true
    } else if i >= b.len() {
        false
    } else {
        a[i] < b[i]
    }
}

/// How many of `s` come before `f`.
pub open spec fn rank(s: Seq<FileView>, f: FileView) -> int
    decreases s.len(),
{
    if s.len() == 0 || lex_le(f.path, s[0].path) {
        0
    } else {
        1 + rank(s.drop_first(), f)
    }
}

/// `files` in the order of their paths; files of one path keep their order.
pub open spec fn by_path(files: Seq<FileView>) -> Seq<FileView>
    decreases files.len(),
{
    if files.len() == 0 {
        files
    } else {
        let rest = by_path(files.drop_first());
        rest.insert(rank(rest, files[0]), files[0])
    }
}

proof fn lemma_rank(s: Seq<FileView>, f: FileView)
    ensures
        0 <= rank(s, f) <= s.len(),
    decreases s.len(),
{
    if s.len() > 0 && !lex_le(f.path, s[0].path) {
        lemma_rank(s.drop_first(), f);
    }
}

/// Sort by path.
pub fn sort_by_path(files: Vec<HostFile>) -> (r: Vec<HostFile>)
    ensures
        views(r@) == by_path(views(files@)),
{
    let mut left: Vec<HostFile> = files;
    let mut out: Vec<HostFile> = Vec::new();
    let ghost all = views(left@);
    let n: usize = left.len();
    assert(all.skip(n as int) =~= Seq::<FileView>::empty());
    while left.len() > 0
        invariant
            left@.len() <= all.len(),
            views(left@) == all.take(left@.len() as int),
            views(out@) == by_path(all.skip(left@.len() as int)),
        decreases left.len(),
    {
        let ghost k = left@.len() - 1;
        let ghost before = left@;
        let last: usize = left.len() - 1;
        let f: HostFile = left.remove(last);
        let ghost sorted = views(out@);
        let mut i: usize = 0;
        assert(sorted.skip(0) =~= sorted);
        while i < out.len() && !not_after(f.path.as_slice(), out[i].path.as_slice())
            invariant
                i <= out@.len(),
                sorted == views(out@),
                rank(sorted, f@) == i + rank(sorted.skip(i as int), f@),
            decreases out.len() - i,
        {
            assert(sorted.skip(i as int)[0] == out@[i as int]@);
            assert(sorted.skip(i as int).drop_first() =~= sorted.skip(i + 1));
            i = i + 1;
        }
        assert(i < out@.len() ==> sorted.skip(i as int)[0] == out@[i as int]@);
        assert(rank(sorted, f@) == i);
        out.insert(i, f);
        proof {
            assert(views(out@) =~= sorted.insert(i as int, f@));
            assert(f@ == views(before)[k]);
            assert(all.skip(k)[0] == f@);
            assert(all.skip(k).drop_first() =~= all.skip(k + 1));
            assert(views(left@) =~= all.take(k));
        }
    }
    assert(all.skip(0) =~= all);
    out
}

/// One file of the stream.
pub open spec fn record(f: FileView) -> Seq<u8> {
    FileEntry { path_len: f.path.len() as u32, content_len: f.content.len() as u32 }.wire() + f.path
        + f.content
}

/// How many files go into a buffer of `room` bytes, leaving space for the entry that ends the
/// stream behind each.
pub open spec fn fitting(files: Seq<FileView>, room: int) -> int
    decreases files.len(),
{
    if files.len() == 0 {
        0
    } else {
        let need = FILE_ENTRY_SIZE + files[0].path.len() + files[0].content.len();
        if need + FILE_ENTRY_SIZE > room {
            0
        } else {
            1 + fitting(files.drop_first(), room - need)
        }
    }
}

/// The records of `files`, one behind another.
pub open spec fn records(files: Seq<FileView>) -> Seq<u8>
    decreases files.len(),
{
    if files.len() == 0 {
        Seq::empty()
    } else {
        records(files.drop_last()) + record(files.last())
    }
}

/// The response to a request for a tree: the files that fit, the entry that ends the stream, and
/// for `Sys` a count of render nodes, which is zero.
pub open spec fn files_resp(tree: FileTree, files: Seq<FileView>, cap: int) -> Seq<u8> {
    let sent = records(files.take(fitting(files, cap)));
    let ended = if sent.len() + FILE_ENTRY_SIZE <= cap {
        sent + FileEntry { path_len: 0, content_len: 0 }.wire()
    } else {
        sent
    };
    if tree == FileTree::Sys && ended.len() + 4 <= cap {
        ended + u32_bytes(0)
    } else {
        ended
    }
}

proof fn lemma_fitting_step(files: Seq<FileView>, room: int, i: int)
    requires
        0 <= i < files.len(),
        fitting(files, room) == i + fitting(files.skip(i), room - records(files.take(i)).len()),
    ensures
        ({
            let used = records(files.take(i)).len();
            let need = FILE_ENTRY_SIZE + files[i].path.len() + files[i].content.len();
            if used + need + FILE_ENTRY_SIZE > room {
                fitting(files, room) == i
            } else {
                &&& records(files.take(i + 1)) == records(files.take(i)) + record(files[i])
                &&& records(files.take(i + 1)).len() == used + need
                &&& fitting(files, room) == i + 1 + fitting(
                    files.skip(i + 1),
                    room - records(files.take(i + 1)).len(),
                )
            }
        }),
{
    assert(files.skip(i)[0] == files[i]);
    assert(files.skip(i).drop_first() =~= files.skip(i + 1));
    assert(files.take(i + 1).drop_last() =~= files.take(i));
    assert(record(files[i]).len() == FILE_ENTRY_SIZE + files[i].path.len() + files[i].content.len());
}

/// Stream the files of a tree into a buffer of `cap` bytes.
///
/// The response is a bare stream of entries with no message header: the driver reads from the
/// first byte of the buffer.
pub fn write_files(tree: FileTree, files: &Vec<HostFile>, cap: usize) -> (r: Vec<u8>)
    ensures
        r@ == files_resp(tree, views(files@), cap as int),
        r@.len() <= cap,
{
    let ghost all = views(files@);
    let mut out: Vec<u8> = Vec::new();
    let mut i: usize = 0;
    let mut full: bool = false;
    assert(all.skip(0) =~= all);
    assert(all.take(0) =~= Seq::<FileView>::empty());
    while i < files.len() && !full
        invariant
            all == views(files@),
            i <= files@.len(),
            out@ == records(all.take(i as int)),
            out@.len() <= cap,
            !full ==> fitting(all, cap as int) == i + fitting(
                all.skip(i as int),
                cap - records(all.take(i as int)).len(),
            ),
            full ==> fitting(all, cap as int) == i,
        decreases files.len() - i + (if full { 0int } else { 1int }),
    {
        let f: &HostFile = &files[i];
        assert(all[i as int] == f@);
        proof {
            lemma_fitting_step(all, cap as int, i as int);
        }
        let room: usize = cap - out.len();
        // Leave room for the terminator, or a guest reads past the last entry into whatever the
        // buffer held before.
        if room < 2 * FILE_ENTRY_SIZE || room - 2 * FILE_ENTRY_SIZE < f.path.len() || room - 2
            * FILE_ENTRY_SIZE - f.path.len() < f.content.len() {
            full = true;
        } else {
            let head: Vec<u8> = FileEntry {
                path_len: f.path.len() as u32,
                content_len: f.content.len() as u32,
            }.to_bytes();
            append(&mut out, head.as_slice());
            append(&mut out, f.path.as_slice());
            append(&mut out, f.content.as_slice());
            assert(out@ =~= records(all.take(i as int)) + record(f@));
            i = i + 1;
        }
    }
    proof {
        if !full {
            assert(all.skip(i as int) =~= Seq::<FileView>::empty());
        }
    }
    if out.len() <= cap && cap - out.len() >= FILE_ENTRY_SIZE {
        let end: Vec<u8> = FileEntry { path_len: 0, content_len: 0 }.to_bytes();
        append(&mut out, end.as_slice());
    }
    if tree == FileTree::Sys && out.len() <= cap && cap - out.len() >= 4 {
        append_u32(&mut out, 0);
    }
    out
}

/// The response fits its buffer.
pub(crate) proof fn lemma_files_fit(tree: FileTree, files: Seq<FileView>, cap: int)
    requires
        cap >= 0,
    ensures
        files_resp(tree, files, cap).len() <= cap,
{
    if cap >= FILE_ENTRY_SIZE {
        lemma_fitting(files, cap);
    } else {
        assert(fitting(files, cap) == 0);
        assert(files.take(0) =~= Seq::<FileView>::empty());
    }
}

/// The files of a stream, read the way a guest reads it: entry by entry up to the one without a
/// path. `None` where the bytes end first.
pub open spec fn decode(s: Seq<u8>) -> Option<Seq<FileView>>
    decreases s.len(),
{
    let e = FileEntry::at(s, 0);
    if s.len() < FILE_ENTRY_SIZE {
        None
    } else if e.path_len == 0 {
        Some(Seq::empty())
    } else if s.len() < FILE_ENTRY_SIZE + e.path_len + e.content_len {
        None
    } else {
        let body = FILE_ENTRY_SIZE + e.path_len;
        match decode(s.skip(body + e.content_len)) {
            None => None,
            Some(rest) => Some(
                seq![
                    FileView {
                        path: s.subrange(FILE_ENTRY_SIZE as int, body),
                        content: s.subrange(body, body + e.content_len),
                    },
                ] + rest,
            ),
        }
    }
}

/// A guest that reads the response gets the files that fit, in order and unchanged, and the end of
/// the stream behind them.
pub proof fn law_stream_decodes(tree: FileTree, files: Seq<FileView>, cap: int)
    requires
        cap >= FILE_ENTRY_SIZE,
        forall|i: int|
            0 <= i < files.len() ==> 0 < (#[trigger] files[i]).path.len() <= u32::MAX
                && files[i].content.len() <= u32::MAX,
    ensures
        files_resp(tree, files, cap).len() <= cap,
        decode(files_resp(tree, files, cap)) == Some(files.take(fitting(files, cap))),
{
    lemma_fitting(files, cap);
    let sent = files.take(fitting(files, cap));
    let end = FileEntry { path_len: 0, content_len: 0 };
    let s = files_resp(tree, files, cap);
    let tail = s.skip(records(sent).len() as int);
    assert(end.wire().len() == 8);
    assert(tail.subrange(0, 0 + FILE_ENTRY_SIZE) =~= end.wire());
    crate::messages::law_file_entry_round_trips(end, tail, 0);
    assert(decode(tail) == Some(Seq::<FileView>::empty()));
    assert(s =~= records(sent) + tail);
    assert(u32_bytes(0).len() == 4);
    lemma_decode_records(sent, tail);
    assert(sent + Seq::<FileView>::empty() =~= sent);
}

/// What fits takes no more than the buffer less the entry that ends the stream.
proof fn lemma_fitting(files: Seq<FileView>, room: int)
    requires
        room >= FILE_ENTRY_SIZE,
    ensures
        0 <= fitting(files, room) <= files.len(),
        records(files.take(fitting(files, room))).len() + FILE_ENTRY_SIZE <= room,
    decreases files.len(),
{
    if files.len() == 0 {
        assert(files.take(0) =~= Seq::<FileView>::empty());
    } else {
        let need = FILE_ENTRY_SIZE + files[0].path.len() + files[0].content.len();
        if need + FILE_ENTRY_SIZE <= room {
            let rest = files.drop_first();
            lemma_fitting(rest, room - need);
            let n = fitting(rest, room - need);
            assert(files.take(n + 1) =~= seq![files[0]] + rest.take(n));
            lemma_records_front(files[0], rest.take(n));
        } else {
            assert(files.take(0) =~= Seq::<FileView>::empty());
        }
    }
}

pub(crate) proof fn lemma_records_front(f: FileView, rest: Seq<FileView>)
    ensures
        records(seq![f] + rest) == record(f) + records(rest),
        record(f).len() == FILE_ENTRY_SIZE + f.path.len() + f.content.len(),
    decreases rest.len(),
{
    let all = seq![f] + rest;
    if rest.len() == 0 {
        assert(all.drop_last() =~= Seq::<FileView>::empty());
        assert(records(all.drop_last()) =~= Seq::<u8>::empty());
        assert(all.last() == f);
        assert(records(all) =~= record(f) + records(rest));
    } else {
        lemma_records_front(f, rest.drop_last());
        assert(all.drop_last() =~= seq![f] + rest.drop_last());
        assert(all.last() == rest.last());
        assert(records(all) =~= record(f) + records(rest));
    }
}

proof fn lemma_decode_records(files: Seq<FileView>, tail: Seq<u8>)
    requires
        forall|i: int|
            0 <= i < files.len() ==> 0 < (#[trigger] files[i]).path.len() <= u32::MAX
                && files[i].content.len() <= u32::MAX,
        decode(tail) is Some,
    ensures
        decode(records(files) + tail) == Some(files + decode(tail)->0),
    decreases files.len(),
{
    if files.len() == 0 {
        assert(records(files) + tail =~= tail);
        assert(files + decode(tail)->0 =~= decode(tail)->0);
    } else {
        let f = files[0];
        let rest = files.drop_first();
        assert(files =~= seq![f] + rest);
        lemma_records_front(f, rest);
        assert forall|i: int| 0 <= i < rest.len() implies 0 < (#[trigger] rest[i]).path.len() <= u32::MAX
            && rest[i].content.len() <= u32::MAX by {
            assert(rest[i] == files[i + 1]);
        }
        lemma_decode_records(rest, tail);
        lemma_decode_front(f, records(rest) + tail);
        assert(records(files) + tail =~= record(f) + (records(rest) + tail));
        assert(seq![f] + (rest + decode(tail)->0) =~= files + decode(tail)->0);
    }
}

proof fn lemma_decode_front(f: FileView, more: Seq<u8>)
    requires
        0 < f.path.len() <= u32::MAX,
        f.content.len() <= u32::MAX,
        decode(more) is Some,
    ensures
        decode(record(f) + more) == Some(seq![f] + decode(more)->0),
{
    let s = record(f) + more;
    let e = FileEntry { path_len: f.path.len() as u32, content_len: f.content.len() as u32 };
    assert(e.wire().len() == 8);
    assert(s.subrange(0, 0 + FILE_ENTRY_SIZE) =~= e.wire());
    crate::messages::law_file_entry_round_trips(e, s, 0);
    let body = FILE_ENTRY_SIZE + e.path_len;
    assert(s.skip(body + e.content_len) =~= more);
    assert(s.subrange(FILE_ENTRY_SIZE as int, body) =~= f.path);
    assert(s.subrange(body, body + e.content_len) =~= f.content);
}

/// Sorting keeps the files and puts their paths in order.
pub proof fn law_by_path_sorts(files: Seq<FileView>)
    ensures
        by_path(files).to_multiset() == files.to_multiset(),
        by_path(files).len() == files.len(),
        forall|i: int, j: int|
            #![trigger by_path(files)[i], by_path(files)[j]]
            0 <= i < j < files.len() ==> lex_le(by_path(files)[i].path, by_path(files)[j].path),
    decreases files.len(),
{
    if files.len() > 0 {
        let f = files[0];
        let rest = files.drop_first();
        let s = by_path(rest);
        law_by_path_sorts(rest);
        lemma_rank(s, f);
        let k = rank(s, f);
        lemma_rank_splits(s, f);
        let t = s.insert(k, f);
        assert(files =~= seq![f] + rest);
        vstd::seq_lib::lemma_multiset_commutative(seq![f], rest);
        vstd::seq_lib::to_multiset_insert(s, k, f);
        assert(seq![f].to_multiset() =~= vstd::multiset::Multiset::singleton(f)) by {
            lemma_single_multiset(f);
        }
        assert(by_path(files).to_multiset() =~= files.to_multiset());
        assert forall|i: int, j: int|
            #![trigger by_path(files)[i], by_path(files)[j]]
            0 <= i < j < files.len() implies lex_le(by_path(files)[i].path, by_path(files)[j].path) by {
            if i == k {
                assert(t[j] == s[j - 1]);
                if j - 1 > k {
                    lemma_lex_transitive(f.path, s[k].path, s[j - 1].path);
                }
            } else if j == k {
                assert(t[i] == s[i]);
                lemma_lex_total(f.path, s[i].path);
            } else {
                let i0 = if i < k { i } else { i - 1 };
                let j0 = if j < k { j } else { j - 1 };
                assert(t[i] == s[i0] && t[j] == s[j0]);
            }
        }
    }
}

proof fn lemma_single_multiset(f: FileView)
    ensures
        seq![f].to_multiset() == vstd::multiset::Multiset::singleton(f),
{
    broadcast use vstd::seq_lib::group_to_multiset_ensures;

    assert(seq![f] =~= Seq::<FileView>::empty().push(f));
    assert(Seq::<FileView>::empty().to_multiset() =~= vstd::multiset::Multiset::empty());
}

/// Before its rank stand files that `f` does not precede; at its rank, one that it does.
proof fn lemma_rank_splits(s: Seq<FileView>, f: FileView)
    ensures
        forall|i: int| 0 <= i < rank(s, f) ==> !lex_le(f.path, (#[trigger] s[i]).path),
        rank(s, f) < s.len() ==> lex_le(f.path, s[rank(s, f)].path),
    decreases s.len(),
{
    if s.len() > 0 && !lex_le(f.path, s[0].path) {
        let rest = s.drop_first();
        lemma_rank_splits(rest, f);
        lemma_rank(rest, f);
        assert forall|i: int| 0 <= i < rank(s, f) implies !lex_le(f.path, (#[trigger] s[i]).path) by {
            if i > 0 {
                assert(s[i] == rest[i - 1]);
            }
        }
        if rank(s, f) < s.len() {
            assert(s[rank(s, f)] == rest[rank(rest, f)]);
        }
    }
}

pub(crate) proof fn lemma_lex_total(a: Seq<u8>, b: Seq<u8>)
    ensures
        lex_le(a, b) || lex_le(b, a),
    decreases a.len(),
{
    if a.len() > 0 && b.len() > 0 && a[0] == b[0] {
        lemma_lex_total(a.drop_first(), b.drop_first());
    }
}

/// Neither of two sequences comes after the other only where they are the same.
pub(crate) proof fn lemma_lex_antisymmetric(a: Seq<u8>, b: Seq<u8>)
    ensures
        lex_le(a, a),
        lex_le(a, b) && lex_le(b, a) ==> a == b,
    decreases a.len(),
{
    if a.len() > 0 {
        if b.len() > 0 && a[0] == b[0] {
            lemma_lex_antisymmetric(a.drop_first(), b.drop_first());
            if lex_le(a, b) && lex_le(b, a) {
                assert(a =~= seq![a[0]] + a.drop_first());
                assert(b =~= seq![b[0]] + b.drop_first());
            }
        } else {
            lemma_lex_antisymmetric(a.drop_first(), a.drop_first());
        }
    } else if b.len() == 0 {
        assert(a =~= b);
    }
}

pub(crate) proof fn lemma_lex_transitive(a: Seq<u8>, b: Seq<u8>, c: Seq<u8>)
    requires
        lex_le(a, b),
        lex_le(b, c),
    ensures
        lex_le(a, c),
    decreases a.len(),
{
    if a.len() > 0 && b.len() > 0 && c.len() > 0 && a[0] == b[0] && b[0] == c[0] {
        lemma_lex_transitive(a.drop_first(), b.drop_first(), c.drop_first());
    }
}

} // verus!
