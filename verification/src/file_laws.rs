//! What a stream of files looks like, and in what order files stand in it.
use crate::answer_laws::unchanged;
use crate::bytes::{u32_at, u32_bytes, zeros};
use crate::files::{
    by_path, files_resp, fitting, lemma_records_front, lex_le, record, records, views, FileTree,
    FileView, HostFile,
};
use crate::messages::FileEntry;
use crate::nvidia::{NvidiaBackend, Pending};
use crate::serve::resumed;
use crate::step::{Event, Step};
use crate::wire_laws::lemma_reads;
use vstd::prelude::*;

verus! {

/// A file of a stream is the length of its path, the length of its contents, its path and its
/// contents.
pub proof fn law_file_records(f: FileView)
    requires
        f.path.len() <= u32::MAX,
        f.content.len() <= u32::MAX,
    ensures
        record(f).len() == 8 + f.path.len() + f.content.len(),
        u32_at(record(f), 0) == f.path.len(),
        u32_at(record(f), 4) == f.content.len(),
        record(f).subrange(8, 8 + f.path.len() as int) == f.path,
        record(f).skip(8 + f.path.len() as int) == f.content,
{
    let e = FileEntry { path_len: f.path.len() as u32, content_len: f.content.len() as u32 };
    let r = record(f);
    assert(e.wire().len() == 8);
    lemma_reads(r, 0, e.path_len);
    lemma_reads(r, 4, e.content_len);
    assert(r.subrange(8, 8 + f.path.len() as int) =~= f.path);
    assert(r.skip(8 + f.path.len() as int) =~= f.content);
}

/// The files of a stream stand one behind another.
pub proof fn law_records_follow_one_another(files: Seq<FileView>, f: FileView)
    ensures
        records(Seq::empty()).len() == 0,
        records(files.push(f)) == records(files) + record(f),
{
    assert(files.push(f).drop_last() =~= files);
}

/// As many files go into a buffer as leave room for the eight bytes that end the stream: those that
/// are taken do, and the next one would not.
pub proof fn law_files_that_fit(files: Seq<FileView>, room: int)
    requires
        room >= 8,
    ensures
        0 <= fitting(files, room) <= files.len(),
        records(files.take(fitting(files, room))).len() + 8 <= room,
        fitting(files, room) < files.len() ==> records(
            files.take(fitting(files, room) + 1),
        ).len() + 8 > room,
    decreases files.len(),
{
    assert(files.take(0) =~= Seq::<FileView>::empty());
    if files.len() > 0 {
        let f = files[0];
        let need = 8 + f.path.len() + f.content.len();
        let rest = files.drop_first();
        lemma_records_front(f, Seq::empty());
        assert(files.take(1) =~= seq![f] + Seq::<FileView>::empty());
        assert(records(Seq::<FileView>::empty()) =~= Seq::<u8>::empty());
        assert(record(f) + Seq::<u8>::empty() =~= record(f));
        if need + 8 <= room {
            law_files_that_fit(rest, room - need);
            let n = fitting(rest, room - need);
            assert(files.take(n + 1) =~= seq![f] + rest.take(n));
            lemma_records_front(f, rest.take(n));
            if n < rest.len() {
                assert(files.take(n + 2) =~= seq![f] + rest.take(n + 1));
                lemma_records_front(f, rest.take(n + 1));
            }
        }
    }
}

/// A stream is the files that fit and eight zeros; behind that of the sys tree stand four more where
/// they fit, for a number of render nodes.
pub proof fn law_streams_end_in_zeros(tree: FileTree, files: Seq<FileView>, cap: int)
    requires
        cap >= 8,
    ensures
        ({
            let sent = records(files.take(fitting(files, cap)));
            files_resp(tree, files, cap) == if tree == FileTree::Sys && sent.len() + 12 <= cap {
                sent + zeros(12)
            } else {
                sent + zeros(8)
            }
        }),
{
    law_files_that_fit(files, cap);
    let sent = records(files.take(fitting(files, cap)));
    let end = FileEntry { path_len: 0, content_len: 0 }.wire();
    assert(end =~= zeros(8));
    assert(u32_bytes(0) =~= zeros(4));
    assert(sent + end + zeros(4) =~= sent + zeros(12));
}

/// The proc tree stands below `/proc/driver/nvidia`, the sys tree below `/sys`.
pub proof fn law_trees_have_their_roots()
    ensures
        FileTree::Proc.spec_root() == "/proc/driver/nvidia"@,
        FileTree::Sys.spec_root() == "/sys"@,
        FileTree::Proc.spec_name() == "GET_PROC_FILES"@,
        FileTree::Sys.spec_name() == "GET_SYS_FILES"@,
{
}

/// A path comes before another where it is the beginning of it, or has the smaller byte where they
/// first differ.
pub proof fn law_paths_are_ordered_by_bytes(a: Seq<u8>, b: Seq<u8>, k: int)
    requires
        0 <= k,
        k <= a.len(),
        k <= b.len(),
        forall|i: int| 0 <= i < k ==> a[i] == b[i],
    ensures
        k == a.len() ==> lex_le(a, b),
        k == b.len() && k < a.len() ==> !lex_le(a, b),
        k < a.len() && k < b.len() && a[k] < b[k] ==> lex_le(a, b) && !lex_le(b, a),
        k < a.len() && k < b.len() && a[k] > b[k] ==> !lex_le(a, b) && lex_le(b, a),
    decreases k,
{
    if k > 0 {
        let x = a.drop_first();
        let y = b.drop_first();
        assert forall|i: int| 0 <= i < k - 1 implies x[i] == y[i] by {
            assert(x[i] == a[i + 1] && y[i] == b[i + 1]);
        }
        assert(a[0] == b[0]);
        law_paths_are_ordered_by_bytes(x, y, k - 1);
        if k < a.len() && k < b.len() {
            assert(x[k - 1] == a[k] && y[k - 1] == b[k]);
        }
    }
}

/// The files of the proc tree are sent in the order of their paths, those of the sys tree in the order
/// in which they were collected; neither changes the device.
pub proof fn law_collected_files_are_sent(
    pre: NvidiaBackend,
    tree: FileTree,
    files: Vec<HostFile>,
    post: NvidiaBackend,
    step: Step,
)
    requires
        pre.pending == Pending::Files(tree),
        resumed(pre, Event::Collected(files), post, step),
    ensures
        unchanged(pre, post),
        post.pending is Idle,
        step matches Step::Done { resp, close } && close@.len() == 0 && resp@ == files_resp(
            tree,
            if tree == FileTree::Proc {
                by_path(views(files@))
            } else {
                views(files@)
            },
            pre.resp_cap as int,
        ),
{
}

/// Files of one path stay in the order in which they were.
pub proof fn law_files_of_one_path_keep_their_order(files: Seq<FileView>, path: Seq<u8>)
    requires
        forall|i: int| 0 <= i < files.len() ==> (#[trigger] files[i]).path == path,
    ensures
        by_path(files) == files,
    decreases files.len(),
{
    if files.len() > 0 {
        let rest = files.drop_first();
        assert forall|i: int| 0 <= i < rest.len() implies (#[trigger] rest[i]).path == path by {
            assert(rest[i] == files[i + 1]);
        }
        law_files_of_one_path_keep_their_order(rest, path);
        law_paths_are_ordered_by_bytes(path, path, path.len() as int);
        assert(files[0].path == path);
        assert(rest.insert(0, files[0]) =~= files);
    }
}

} // verus!
