//! What holds of manifests as a whole.
use crate::manifest::{
    array_at, entries_at, is_blank, lemma_array_advances, lemma_blanks_advance,
    lemma_member_advances, lemma_object_advances, lemma_scalar_advances, lemma_string_advances,
    manifest_at, member_at, object_at, past_blanks, past_scalar, spec_manifest, string_at,
    unescaped, value_at, ErrorView, Fields,
};
use crate::userspace::EntryView;
use vstd::prelude::*;
use vstd::utf8::{encode_utf8, is_ascii_chars, is_ascii_chars_encode_utf8};

verus! {

/// Whether the first `n` bytes of the two are the same.
spec fn alike(a: Seq<u8>, b: Seq<u8>, n: int) -> bool {
    &&& 0 <= n <= a.len()
    &&& n <= b.len()
    &&& forall|i: int| 0 <= i < n ==> #[trigger] a[i] == b[i]
}

proof fn lemma_blanks_alike(a: Seq<u8>, b: Seq<u8>, n: int, i: int)
    requires
        alike(a, b, n),
        0 <= i,
        past_blanks(a, i) < n,
    ensures
        past_blanks(b, i) == past_blanks(a, i),
    decreases a.len() - i,
{
    if i < a.len() && is_blank(a[i]) {
        lemma_blanks_alike(a, b, n, i + 1);
        lemma_blanks_advance(a, i + 1);
        assert(a[i] == b[i]);
    } else {
        assert(a[i] == b[i]);
    }
}

proof fn lemma_scalar_alike(a: Seq<u8>, b: Seq<u8>, n: int, i: int)
    requires
        alike(a, b, n),
        0 <= i,
        past_scalar(a, i) < n,
    ensures
        past_scalar(b, i) == past_scalar(a, i),
    decreases a.len() - i,
{
    if i < a.len() && a[i] != 0x2c && a[i] != 0x7d && a[i] != 0x5d {
        lemma_scalar_advances(a, i + 1);
        lemma_scalar_alike(a, b, n, i + 1);
        assert(a[i] == b[i]);
    } else {
        assert(a[i] == b[i]);
    }
}

/// A string that ends within what two texts have in common reads the same in both.
proof fn lemma_string_alike(a: Seq<u8>, b: Seq<u8>, n: int, i: int, acc: Seq<char>)
    requires
        alike(a, b, n),
        string_at(a, i, acc) matches Ok((_, j)) && j <= n,
    ensures
        string_at(b, i, acc) == string_at(a, i, acc),
    decreases a.len() - i,
{
    lemma_string_advances(a, i, acc);
    assert(a[i] == b[i]);
    if a[i] == 0x22 {
    } else if a[i] == 0x5c {
        lemma_string_advances(a, i + 2, acc.push(unescaped(a[i + 1])));
        assert(a[i + 1] == b[i + 1]);
        lemma_string_alike(a, b, n, i + 2, acc.push(unescaped(a[i + 1])));
    } else {
        lemma_string_alike(a, b, n, i + 1, acc.push(a[i] as char));
    }
}

proof fn lemma_array_alike(a: Seq<u8>, b: Seq<u8>, n: int, i: int, acc: Set<Seq<char>>)
    requires
        alike(a, b, n),
        array_at(a, i, acc) matches Ok((_, j)) && j <= n,
    ensures
        array_at(b, i, acc) == array_at(a, i, acc),
    decreases a.len() - i,
{
    lemma_array_advances(a, i, acc);
    lemma_blanks_advance(a, i);
    let k = past_blanks(a, i);
    if a[k] == 0x2c {
        lemma_array_advances(a, k + 1, acc);
    } else if a[k] == 0x22 {
        lemma_string_advances(a, k + 1, Seq::empty());
        match string_at(a, k + 1, Seq::empty()) {
            Ok((s, j)) => {
                lemma_array_advances(a, j, acc.insert(s));
            },
            Err(_) => {},
        }
    }
    lemma_blanks_alike(a, b, n, i);
    assert(a[k] == b[k]);
    if a[k] == 0x2c {
        lemma_array_alike(a, b, n, k + 1, acc);
    } else if a[k] == 0x22 {
        lemma_string_alike(a, b, n, k + 1, Seq::empty());
        match string_at(a, k + 1, Seq::empty()) {
            Ok((s, j)) => {
                lemma_array_alike(a, b, n, j, acc.insert(s));
            },
            Err(_) => {},
        }
    }
}

/// A key and its value that end before what two texts have in common ends read the same in both.
proof fn lemma_member_alike(a: Seq<u8>, b: Seq<u8>, n: int, i: int, acc: Fields)
    requires
        alike(a, b, n),
        0 <= i < a.len(),
        member_at(a, i, acc) matches Ok((_, j)) && j < n,
    ensures
        member_at(b, i, acc) == member_at(a, i, acc),
{
    lemma_member_advances(a, i, acc);
    lemma_string_advances(a, i + 1, Seq::empty());
    match string_at(a, i + 1, Seq::empty()) {
        Ok((key, j)) => {
            lemma_blanks_advance(a, j);
            let colon = past_blanks(a, j);
            lemma_blanks_advance(a, colon + 1);
            let v = past_blanks(a, colon + 1);
            lemma_string_advances(a, v + 1, Seq::empty());
            lemma_array_advances(a, v + 1, Set::empty());
            lemma_scalar_advances(a, v);
            lemma_string_alike(a, b, n, i + 1, Seq::empty());
            lemma_blanks_alike(a, b, n, j);
            assert(a[colon] == b[colon]);
            lemma_blanks_alike(a, b, n, colon + 1);
            assert(a[v] == b[v]);
            if a[v] == 0x22 {
                lemma_string_alike(a, b, n, v + 1, Seq::empty());
            } else if a[v] == 0x5b {
                lemma_array_alike(a, b, n, v + 1, Set::empty());
            } else {
                lemma_scalar_alike(a, b, n, v);
            }
        },
        Err(_) => {},
    }
}

proof fn lemma_object_alike(a: Seq<u8>, b: Seq<u8>, n: int, i: int, acc: Fields)
    requires
        alike(a, b, n),
        object_at(a, i, acc) matches Ok((_, j)) && j <= n,
    ensures
        object_at(b, i, acc) == object_at(a, i, acc),
    decreases a.len() - i,
{
    lemma_object_advances(a, i, acc);
    lemma_blanks_advance(a, i);
    let k = past_blanks(a, i);
    if a[k] == 0x2c {
        lemma_object_advances(a, k + 1, acc);
        lemma_blanks_alike(a, b, n, i);
        assert(a[k] == b[k]);
        lemma_object_alike(a, b, n, k + 1, acc);
    } else if a[k] == 0x22 {
        lemma_member_advances(a, k, acc);
        match member_at(a, k, acc) {
            Ok((next, j)) => {
                lemma_object_advances(a, j, next);
                lemma_blanks_alike(a, b, n, i);
                assert(a[k] == b[k]);
                lemma_member_alike(a, b, n, k, acc);
                lemma_object_alike(a, b, n, j, next);
            },
            Err(_) => {},
        }
    } else {
        lemma_blanks_alike(a, b, n, i);
        assert(a[k] == b[k]);
    }
}

proof fn lemma_entries_advance(b: Seq<u8>, i: int, acc: Seq<EntryView>)
    ensures
        entries_at(b, i, acc) matches Ok((_, j)) ==> i < j <= b.len(),
    decreases b.len() - i,
{
    if 0 <= i <= b.len() {
        lemma_blanks_advance(b, i);
        let k = past_blanks(b, i);
        if k < b.len() {
            if b[k] == 0x2c {
                lemma_entries_advance(b, k + 1, acc);
            } else if b[k] == 0x7b {
                lemma_object_advances(b, k + 1, Fields::none());
                match object_at(b, k + 1, Fields::none()) {
                    Ok((fields, j)) => {
                        if let Some(entry) = fields.entry() {
                            lemma_entries_advance(b, j, acc.push(entry));
                        }
                    },
                    Err(_) => {},
                }
            }
        }
    }
}

proof fn lemma_entries_alike(a: Seq<u8>, b: Seq<u8>, n: int, i: int, acc: Seq<EntryView>)
    requires
        alike(a, b, n),
        entries_at(a, i, acc) matches Ok((_, j)) && j <= n,
    ensures
        entries_at(b, i, acc) == entries_at(a, i, acc),
    decreases a.len() - i,
{
    lemma_entries_advance(a, i, acc);
    lemma_blanks_advance(a, i);
    let k = past_blanks(a, i);
    if a[k] == 0x2c {
        lemma_entries_advance(a, k + 1, acc);
        lemma_blanks_alike(a, b, n, i);
        assert(a[k] == b[k]);
        lemma_entries_alike(a, b, n, k + 1, acc);
    } else if a[k] == 0x7b {
        lemma_object_advances(a, k + 1, Fields::none());
        match object_at(a, k + 1, Fields::none()) {
            Ok((fields, j)) => {
                if let Some(entry) = fields.entry() {
                    lemma_entries_advance(a, j, acc.push(entry));
                    lemma_blanks_alike(a, b, n, i);
                    assert(a[k] == b[k]);
                    lemma_object_alike(a, b, n, k + 1, Fields::none());
                    lemma_entries_alike(a, b, n, j, acc.push(entry));
                }
            },
            Err(_) => {},
        }
    } else {
        lemma_blanks_alike(a, b, n, i);
        assert(a[k] == b[k]);
    }
}

/// A manifest that is cut off anywhere before the end of its closing bracket is refused: inside a
/// string, an escape, a value, an array or an object, or between objects. It is never taken for a
/// shorter one.
pub proof fn law_cut_manifest_is_refused(b: Seq<u8>, k: int)
    requires
        manifest_at(b) matches Ok((_, end)) && 0 <= k < end,
    ensures
        spec_manifest(b.take(k)) is Err,
{
    lemma_entries_advance(b, past_blanks(b, 0) + 1, Seq::empty());
    let a = b.take(k);
    if spec_manifest(a) is Ok {
        let start = past_blanks(a, 0);
        lemma_blanks_advance(a, 0);
        lemma_entries_advance(a, start + 1, Seq::empty());
        assert(alike(a, b, k));
        lemma_blanks_alike(a, b, k, 0);
        assert(a[start] == b[start]);
        lemma_entries_alike(a, b, k, start + 1, Seq::empty());
    }
}

proof fn lemma_encode_concat(a: Seq<char>, b: Seq<char>)
    ensures
        encode_utf8(a + b) == encode_utf8(a) + encode_utf8(b),
    decreases a.len(),
{
    if a.len() == 0 {
        assert(a + b =~= b);
    } else {
        lemma_encode_concat(a.drop_first(), b);
        assert((a + b).drop_first() =~= a.drop_first() + b);
    }
    assert(encode_utf8(a + b) =~= encode_utf8(a) + encode_utf8(b));
}

/// A text that is a manifest up to its last character is none without its last characters.
pub proof fn law_cut_text_is_refused(src: Seq<char>, m: int)
    requires
        manifest_at(encode_utf8(src)) matches Ok((_, end)) && end == encode_utf8(src).len(),
        0 <= m < src.len(),
    ensures
        spec_manifest(encode_utf8(src.take(m))) is Err,
{
    let kept = src.take(m);
    let cut = src.skip(m);
    assert(src =~= kept + cut);
    lemma_encode_concat(kept, cut);
    assert(encode_utf8(cut).len() > 0);
    law_cut_manifest_is_refused(encode_utf8(src), encode_utf8(kept).len() as int);
    assert(encode_utf8(src).take(encode_utf8(kept).len() as int) =~= encode_utf8(kept));
}

/// Whether `b` holds from `lo + d` on what `a` holds from `lo` on.
spec fn shifted(a: Seq<u8>, b: Seq<u8>, lo: int, d: int) -> bool {
    &&& 0 <= lo <= a.len()
    &&& 0 <= d
    &&& b.len() == a.len() + d
    &&& forall|i: int| lo <= i < a.len() ==> #[trigger] a[i] == b[i + d]
}

/// A reading with its end moved by `d`.
spec fn moved<T>(r: Result<(T, int), ErrorView>, d: int) -> Result<
    (T, int),
    ErrorView,
> {
    match r {
        Ok((v, j)) => Ok((v, j + d)),
        Err(e) => Err(e),
    }
}

proof fn lemma_blanks_shift(a: Seq<u8>, b: Seq<u8>, lo: int, d: int, i: int)
    requires
        shifted(a, b, lo, d),
        lo <= i <= a.len(),
    ensures
        past_blanks(b, i + d) == past_blanks(a, i) + d,
    decreases a.len() - i,
{
    if i < a.len() {
        assert(a[i] == b[i + d]);
        if is_blank(a[i]) {
            lemma_blanks_shift(a, b, lo, d, i + 1);
        }
    }
}

proof fn lemma_scalar_shift(a: Seq<u8>, b: Seq<u8>, lo: int, d: int, i: int)
    requires
        shifted(a, b, lo, d),
        lo <= i <= a.len(),
    ensures
        past_scalar(b, i + d) == past_scalar(a, i) + d,
    decreases a.len() - i,
{
    if i < a.len() {
        assert(a[i] == b[i + d]);
        if a[i] != 0x2c && a[i] != 0x7d && a[i] != 0x5d {
            lemma_scalar_shift(a, b, lo, d, i + 1);
        }
    }
}

proof fn lemma_string_shift(a: Seq<u8>, b: Seq<u8>, lo: int, d: int, i: int, acc: Seq<char>)
    requires
        shifted(a, b, lo, d),
        lo <= i,
    ensures
        string_at(b, i + d, acc) == moved(string_at(a, i, acc), d),
    decreases a.len() - i,
{
    if i < a.len() {
        assert(a[i] == b[i + d]);
        if a[i] == 0x22 {
        } else if a[i] == 0x5c {
            if i + 1 < a.len() {
                assert(a[i + 1] == b[i + 1 + d]);
                lemma_string_shift(a, b, lo, d, i + 2, acc.push(unescaped(a[i + 1])));
            }
        } else {
            lemma_string_shift(a, b, lo, d, i + 1, acc.push(a[i] as char));
        }
    }
}

proof fn lemma_array_shift(a: Seq<u8>, b: Seq<u8>, lo: int, d: int, i: int, acc: Set<Seq<char>>)
    requires
        shifted(a, b, lo, d),
        lo <= i,
    ensures
        array_at(b, i + d, acc) == moved(array_at(a, i, acc), d),
    decreases a.len() - i,
{
    if i <= a.len() {
        lemma_blanks_advance(a, i);
        lemma_blanks_shift(a, b, lo, d, i);
        let k = past_blanks(a, i);
        if k < a.len() {
            assert(a[k] == b[k + d]);
            if a[k] == 0x2c {
                lemma_array_shift(a, b, lo, d, k + 1, acc);
            } else if a[k] == 0x22 {
                lemma_string_advances(a, k + 1, Seq::empty());
                lemma_string_shift(a, b, lo, d, k + 1, Seq::empty());
                match string_at(a, k + 1, Seq::empty()) {
                    Ok((s, j)) => {
                        lemma_array_shift(a, b, lo, d, j, acc.insert(s));
                    },
                    Err(_) => {},
                }
            }
        }
    }
}

proof fn lemma_value_shift(
    a: Seq<u8>,
    b: Seq<u8>,
    lo: int,
    d: int,
    i: int,
    key: Seq<char>,
    acc: Fields,
)
    requires
        shifted(a, b, lo, d),
        lo <= i <= a.len(),
    ensures
        value_at(b, i + d, key, acc) == moved(value_at(a, i, key, acc), d),
{
    if i < a.len() {
        assert(a[i] == b[i + d]);
    }
    lemma_string_shift(a, b, lo, d, i + 1, Seq::empty());
    lemma_array_shift(a, b, lo, d, i + 1, Set::empty());
    lemma_scalar_shift(a, b, lo, d, i);
}

proof fn lemma_member_shift(a: Seq<u8>, b: Seq<u8>, lo: int, d: int, i: int, acc: Fields)
    requires
        shifted(a, b, lo, d),
        lo <= i < a.len(),
    ensures
        member_at(b, i + d, acc) == moved(member_at(a, i, acc), d),
{
    lemma_string_advances(a, i + 1, Seq::empty());
    lemma_string_shift(a, b, lo, d, i + 1, Seq::empty());
    match string_at(a, i + 1, Seq::empty()) {
        Ok((key, j)) => {
            lemma_blanks_advance(a, j);
            lemma_blanks_shift(a, b, lo, d, j);
            let colon = past_blanks(a, j);
            if colon < a.len() {
                assert(a[colon] == b[colon + d]);
                lemma_blanks_advance(a, colon + 1);
                lemma_blanks_shift(a, b, lo, d, colon + 1);
                lemma_value_shift(a, b, lo, d, past_blanks(a, colon + 1), key, acc);
            }
        },
        Err(_) => {},
    }
}

proof fn lemma_object_shift(a: Seq<u8>, b: Seq<u8>, lo: int, d: int, i: int, acc: Fields)
    requires
        shifted(a, b, lo, d),
        lo <= i,
    ensures
        object_at(b, i + d, acc) == moved(object_at(a, i, acc), d),
    decreases a.len() - i,
{
    if i <= a.len() {
        lemma_blanks_advance(a, i);
        lemma_blanks_shift(a, b, lo, d, i);
        let k = past_blanks(a, i);
        if k < a.len() {
            assert(a[k] == b[k + d]);
            if a[k] == 0x2c {
                lemma_object_shift(a, b, lo, d, k + 1, acc);
            } else if a[k] == 0x22 {
                lemma_member_advances(a, k, acc);
                lemma_member_shift(a, b, lo, d, k, acc);
                match member_at(a, k, acc) {
                    Ok((next, j)) => {
                        lemma_object_shift(a, b, lo, d, j, next);
                    },
                    Err(_) => {},
                }
            }
        }
    }
}

/// Entries that follow others are read as they are read alone.
proof fn lemma_entries_shift(
    a: Seq<u8>,
    b: Seq<u8>,
    lo: int,
    d: int,
    i: int,
    first: Seq<EntryView>,
    acc: Seq<EntryView>,
)
    requires
        shifted(a, b, lo, d),
        lo <= i,
        entries_at(a, i, acc) is Ok,
    ensures
        entries_at(b, i + d, first + acc) matches Ok((v, _)) && v == first + entries_at(
            a,
            i,
            acc,
        )->Ok_0.0,
    decreases a.len() - i,
{
    lemma_blanks_advance(a, i);
    lemma_blanks_shift(a, b, lo, d, i);
    let k = past_blanks(a, i);
    assert(a[k] == b[k + d]);
    if a[k] == 0x2c {
        lemma_entries_shift(a, b, lo, d, k + 1, first, acc);
    } else if a[k] == 0x7b {
        lemma_object_advances(a, k + 1, Fields::none());
        lemma_object_shift(a, b, lo, d, k + 1, Fields::none());
        match object_at(a, k + 1, Fields::none()) {
            Ok((fields, j)) => {
                if let Some(entry) = fields.entry() {
                    lemma_entries_shift(a, b, lo, d, j, first, acc.push(entry));
                    assert((first + acc).push(entry) =~= first + acc.push(entry));
                }
            },
            Err(_) => {},
        }
    }
}

/// Where a comma stands in place of the closing bracket, reading goes on behind it.
proof fn lemma_entries_go_on(a: Seq<u8>, b: Seq<u8>, i: int, acc: Seq<EntryView>)
    requires
        a.len() > 0,
        alike(a, b, a.len() - 1),
        a.len() <= b.len(),
        a.last() == 0x5d,
        b[a.len() - 1] == 0x2c,
        entries_at(a, i, acc) matches Ok((_, j)) && j == a.len(),
    ensures
        entries_at(b, i, acc) == entries_at(b, a.len() as int, entries_at(a, i, acc)->Ok_0.0),
    decreases a.len() - i,
{
    let n = a.len() - 1;
    lemma_entries_advance(a, i, acc);
    lemma_blanks_advance(a, i);
    let k = past_blanks(a, i);
    if a[k] == 0x2c {
        lemma_blanks_alike(a, b, n, i);
        assert(a[k] == b[k]);
        lemma_entries_go_on(a, b, k + 1, acc);
    } else if a[k] == 0x7b {
        lemma_blanks_alike(a, b, n, i);
        assert(a[k] == b[k]);
        lemma_object_advances(a, k + 1, Fields::none());
        match object_at(a, k + 1, Fields::none()) {
            Ok((fields, j)) => {
                if let Some(entry) = fields.entry() {
                    lemma_entries_advance(a, j, acc.push(entry));
                    lemma_object_alike(a, b, n, k + 1, Fields::none());
                    lemma_entries_go_on(a, b, j, acc.push(entry));
                }
            },
            Err(_) => {},
        }
    } else {
        assert(k == n);
        lemma_blanks_up_to(a, b, n, i);
    }
}

/// Blanks up to where two texts part are passed in both, if no blank stands there.
proof fn lemma_blanks_up_to(a: Seq<u8>, b: Seq<u8>, n: int, i: int)
    requires
        alike(a, b, n),
        n < b.len(),
        !is_blank(b[n]),
        0 <= i <= n,
        past_blanks(a, i) == n,
    ensures
        past_blanks(b, i) == n,
    decreases n - i,
{
    if i < n {
        assert(a[i] == b[i]);
        if is_blank(a[i]) {
            lemma_blanks_up_to(a, b, n, i + 1);
        }
    }
}

/// The bytes of a manifest whose array holds `body`.
pub open spec fn array_of(body: Seq<u8>) -> Seq<u8> {
    seq![0x5bu8] + body + seq![0x5du8]
}

/// Two manifests joined by a comma give the entries of the first and then those of the second. No
/// name, kind or category of one carries over into another.
pub proof fn law_joined_manifests_join_their_entries(a: Seq<u8>, b: Seq<u8>)
    requires
        manifest_at(array_of(a)) matches Ok((_, end)) && end == array_of(a).len(),
        spec_manifest(array_of(b)) is Ok,
    ensures
        spec_manifest(array_of(a + seq![0x2cu8] + b)) == Ok::<_, ErrorView>(
            spec_manifest(array_of(a))->Ok_0 + spec_manifest(array_of(b))->Ok_0,
        ),
{
    let x = array_of(a);
    let y = array_of(b);
    let z = array_of(a + seq![0x2cu8] + b);
    assert(x[0] == 0x5b && y[0] == 0x5b && z[0] == 0x5b);
    assert(past_blanks(x, 0) == 0 && past_blanks(y, 0) == 0 && past_blanks(z, 0) == 0);
    assert(alike(x, z, x.len() - 1));
    lemma_entries_go_on(x, z, 1, Seq::empty());
    let d = a.len() as int + 1;
    assert(shifted(y, z, 1, d));
    let first = spec_manifest(x)->Ok_0;
    lemma_entries_shift(y, z, 1, d, 1, first, Seq::empty());
    assert(first + Seq::<EntryView>::empty() =~= first);
}

/// The text of a manifest whose array holds `body`.
pub open spec fn text_of_array(body: Seq<char>) -> Seq<char> {
    seq!['['] + body + seq![']']
}

proof fn lemma_encode_array(body: Seq<char>)
    ensures
        encode_utf8(text_of_array(body)) == array_of(encode_utf8(body)),
{
    let open = seq!['['];
    let close = seq![']'];
    assert(is_ascii_chars(open) && is_ascii_chars(close));
    is_ascii_chars_encode_utf8(open);
    is_ascii_chars_encode_utf8(close);
    lemma_encode_concat(open + body, close);
    lemma_encode_concat(open, body);
    assert(encode_utf8(open) =~= seq![0x5bu8]);
    assert(encode_utf8(close) =~= seq![0x5du8]);
}

/// The same of texts, as they are parsed.
pub proof fn law_joined_texts_join_their_entries(a: Seq<char>, b: Seq<char>)
    requires
        manifest_at(encode_utf8(text_of_array(a))) matches Ok((_, end)) && end == encode_utf8(
            text_of_array(a),
        ).len(),
        spec_manifest(encode_utf8(text_of_array(b))) is Ok,
    ensures
        spec_manifest(encode_utf8(text_of_array(a + seq![','] + b))) == Ok::<
            _,
            ErrorView,
        >(
            spec_manifest(encode_utf8(text_of_array(a)))->Ok_0 + spec_manifest(
                encode_utf8(text_of_array(b)),
            )->Ok_0,
        ),
{
    let comma = seq![','];
    assert(is_ascii_chars(comma));
    is_ascii_chars_encode_utf8(comma);
    assert(encode_utf8(comma) =~= seq![0x2cu8]);
    lemma_encode_array(a);
    lemma_encode_array(b);
    lemma_encode_array(a + comma + b);
    lemma_encode_concat(a + comma, b);
    lemma_encode_concat(a, comma);
    law_joined_manifests_join_their_entries(encode_utf8(a), encode_utf8(b));
}

} // verus!
