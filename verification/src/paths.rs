//! Unix paths as text.
use crate::text::{chars_of, same_text, string_of};
use crate::version::first_index;
use vstd::prelude::*;
use vstd::string::StringExecFns;

verus! {

/// `b` below the directory `a`; an absolute `b` stands for itself.
pub open spec fn spec_join(a: Seq<char>, b: Seq<char>) -> Seq<char> {
    if b.len() > 0 && b[0] == '/' {
        b
    } else if a.len() > 0 && a.last() != '/' {
        a + seq!['/'] + b
    } else {
        a + b
    }
}

/// The pieces of `s` between slashes.
pub open spec fn pieces(s: Seq<char>) -> Seq<Seq<char>>
    decreases s.len(),
{
    let i = first_index(s, '/');
    if i < 0 || i >= s.len() {
        seq![s]
    } else {
        seq![s.take(i)] + pieces(s.skip(i + 1))
    }
}

/// The pieces that count: not the empty ones, nor a dot anywhere but at the start of a relative
/// path.
pub open spec fn counted(p: Seq<Seq<char>>, relative_start: bool) -> Seq<Seq<char>>
    decreases p.len(),
{
    if p.len() == 0 {
        Seq::empty()
    } else {
        let rest = counted(p.drop_first(), false);
        if p[0].len() == 0 || (p[0] == seq!['.'] && !relative_start) {
            rest
        } else {
            seq![p[0]] + rest
        }
    }
}

/// The components of a path. The root is a component of its own, written as a slash; two paths are
/// the same path when their components are.
pub open spec fn spec_components(s: Seq<char>) -> Seq<Seq<char>> {
    if s.len() > 0 && s[0] == '/' {
        seq![seq!['/']] + counted(pieces(s), false)
    } else {
        counted(pieces(s), true)
    }
}

/// Whether a component names a file or directory: not the root, a dot or two dots.
pub open spec fn spec_is_name(c: Seq<char>) -> bool {
    c != seq!['/'] && c != seq!['.'] && c != seq!['.', '.']
}

/// The last component, where it is a name.
pub open spec fn spec_file_name(s: Seq<char>) -> Option<Seq<char>> {
    let c = spec_components(s);
    if c.len() > 0 && spec_is_name(c.last()) {
        Some(c.last())
    } else {
        None
    }
}

pub open spec fn texts(v: Seq<String>) -> Seq<Seq<char>> {
    v.map_values(|s: String| s@)
}

pub fn join(a: &str, b: &str) -> (r: String)
    ensures
        r@ == spec_join(a@, b@),
{
    let x: Vec<char> = chars_of(a);
    let y: Vec<char> = chars_of(b);
    if y.len() > 0 && y[0] == '/' {
        return b.to_owned();
    }
    let mut r: String = a.to_owned();
    if x.len() > 0 && x[x.len() - 1] != '/' {
        r.push('/');
        assert(r@ =~= a@ + seq!['/']);
    }
    r.append(b);
    r
}

fn is_name(c: &str) -> (r: bool)
    ensures
        r == spec_is_name(c@),
{
    proof {
        reveal_strlit("/");
        reveal_strlit(".");
        reveal_strlit("..");
        assert("/"@ =~= seq!['/']);
        assert("."@ =~= seq!['.']);
        assert(".."@ =~= seq!['.', '.']);
    }
    !same_text(c, "/") && !same_text(c, ".") && !same_text(c, "..")
}

/// The components of a path.
pub fn components(s: &str) -> (r: Vec<String>)
    ensures
        texts(r@) == spec_components(s@),
{
    let c: Vec<char> = chars_of(s);
    let mut r: Vec<String> = Vec::new();
    let absolute: bool = c.len() > 0 && c[0] == '/';
    if absolute {
        let mut root: String = String::new();
        root.push('/');
        assert(root@ =~= seq!['/']);
        r.push(root);
    }
    assert(texts(r@) =~= (if absolute { seq![seq!['/']] } else { Seq::empty() }));
    assert(c@.skip(0) =~= c@);
    let mut start: usize = 0;
    let mut first: bool = !absolute;
    let mut done: bool = false;
    while !done
        invariant
            c@ == s@,
            start <= c@.len(),
            !done ==> spec_components(s@) == texts(r@) + counted(
                pieces(c@.skip(start as int)),
                first,
            ),
            done ==> spec_components(s@) == texts(r@),
        decreases c@.len() - start + (if done { 0int } else { 1int }),
    {
        let ghost rest = c@.skip(start as int);
        let ghost before = texts(r@);
        let mut end: usize = start;
        while end < c.len() && c[end] != '/'
            invariant
                start <= end <= c@.len(),
                rest == c@.skip(start as int),
                first_index(rest, '/') == end - start + first_index(c@.skip(end as int), '/'),
            decreases c.len() - end,
        {
            assert(c@.skip(end as int).drop_first() =~= c@.skip(end + 1));
            end = end + 1;
        }
        let piece: String = string_of(&c, start, end);
        assert(first_index(c@.skip(end as int), '/') == 0);
        assert(piece@ =~= rest.take(end - start));
        let dot: bool = end - start == 1 && c[start] == '.';
        assert(dot == (piece@ == seq!['.'])) by {
            if dot {
                assert(piece@ =~= seq!['.']);
            }
        }
        let last: bool = end >= c.len();
        proof {
            if last {
                assert(rest.take(end - start) =~= rest);
                assert(pieces(rest) =~= seq![piece@]);
                assert(pieces(rest).drop_first() =~= Seq::<Seq<char>>::empty());
                assert(counted(Seq::<Seq<char>>::empty(), false) =~= Seq::empty());
            } else {
                assert(rest.skip(end - start + 1) =~= c@.skip(end + 1));
                assert(pieces(rest) =~= seq![piece@] + pieces(c@.skip(end + 1)));
                assert(pieces(rest).drop_first() =~= pieces(c@.skip(end + 1)));
            }
        }
        if end > start && !(dot && !first) {
            r.push(piece);
            assert(texts(r@) =~= before.push(piece@));
            proof {
                let tail = counted(pieces(rest).drop_first(), false);
                assert(before + (seq![piece@] + tail) =~= before.push(piece@) + tail);
                if last {
                    assert(before.push(piece@) + tail =~= before.push(piece@));
                }
            }
        } else {
            proof {
                if last {
                    assert(before + Seq::<Seq<char>>::empty() =~= before);
                }
            }
        }
        first = false;
        if last {
            done = true;
            start = c.len();
        } else {
            start = end + 1;
        }
    }
    r
}

/// The last component, where it is a name.
pub fn file_name(s: &str) -> (r: Option<String>)
    ensures
        match r {
            Some(n) => spec_file_name(s@) == Some(n@),
            None => spec_file_name(s@) is None,
        },
{
    let mut c: Vec<String> = components(s);
    assert(texts(c@).len() == c@.len());
    if c.len() == 0 {
        return None;
    }
    let n: usize = c.len() - 1;
    assert(texts(c@)[n as int] == c@[n as int]@);
    if is_name(c[n].as_str()) {
        Some(c.remove(n))
    } else {
        None
    }
}

/// Whether two paths are the same path.
pub fn same_path(a: &str, b: &str) -> (r: bool)
    ensures
        r == (spec_components(a@) == spec_components(b@)),
{
    let x: Vec<String> = components(a);
    let y: Vec<String> = components(b);
    assert(texts(x@).len() == x@.len() && texts(y@).len() == y@.len());
    if x.len() != y.len() {
        return false;
    }
    let mut i: usize = 0;
    while i < x.len()
        invariant
            i <= x@.len() == y@.len(),
            texts(x@) == spec_components(a@),
            texts(y@) == spec_components(b@),
            forall|j: int| 0 <= j < i ==> texts(x@)[j] == texts(y@)[j],
        decreases x.len() - i,
    {
        assert(texts(x@)[i as int] == x@[i as int]@ && texts(y@)[i as int] == y@[i as int]@);
        if !same_text(x[i].as_str(), y[i].as_str()) {
            return false;
        }
        i = i + 1;
    }
    assert(texts(x@) =~= texts(y@));
    true
}

} // verus!
