//! What a manifest looks like as text, and that it is read as what it says.
use crate::manifest::{
    array_at, entries_at, is_blank, manifest_at, member_at, object_at, past_blanks, spec_manifest,
    string_at, unescaped, ErrorView, Fields,
};
use crate::userspace::{kind_of, EntryView};
use vstd::prelude::*;
use vstd::utf8::char_u32_cast;

verus! {

/// A character as it is written inside quotes: quotes, backslashes, line ends and tabs behind a
/// backslash, any other as its own byte.
pub open spec fn written(c: char) -> Seq<u8> {
    if c == '"' {
        seq![0x5cu8, 0x22u8]
    } else if c == '\\' {
        seq![0x5cu8, 0x5cu8]
    } else if c == '\n' {
        seq![0x5cu8, 0x6eu8]
    } else if c == '\t' {
        seq![0x5cu8, 0x74u8]
    } else {
        seq![(c as u32) as u8]
    }
}

/// A text as it is written inside quotes.
pub open spec fn escaped(s: Seq<char>) -> Seq<u8>
    decreases s.len(),
{
    if s.len() == 0 {
        Seq::empty()
    } else {
        written(s[0]) + escaped(s.drop_first())
    }
}

/// A text in quotes.
pub open spec fn quoted(s: Seq<char>) -> Seq<u8> {
    seq![0x22u8] + escaped(s) + seq![0x22u8]
}

/// Texts in quotes, with a comma between each two.
pub open spec fn listed(names: Seq<Seq<char>>) -> Seq<u8>
    decreases names.len(),
{
    if names.len() == 0 {
        Seq::empty()
    } else if names.len() == 1 {
        quoted(names[0])
    } else {
        quoted(names[0]) + seq![0x2cu8] + listed(names.drop_first())
    }
}

/// A file as an object with its `name`, its `type` and its list of `category`.
pub open spec fn object_text(name: Seq<char>, word: Seq<char>, names: Seq<Seq<char>>) -> Seq<u8> {
    seq![0x7bu8] + (quoted("name"@) + seq![0x3au8] + quoted(name)) + seq![0x2cu8] + (quoted(
        "type"@,
    ) + seq![0x3au8] + quoted(word)) + seq![0x2cu8] + (quoted("category"@) + seq![0x3au8, 0x5bu8]
        + listed(names) + seq![0x5du8]) + seq![0x7du8]
}

/// Whether each character takes one byte.
pub open spec fn is_plain_text(s: Seq<char>) -> bool {
    forall|i: int| 0 <= i < s.len() ==> (#[trigger] s[i] as u32) < 0x100
}

/// A text is read as it was written.
proof fn lemma_string(b: Seq<u8>, i: int, s: Seq<char>, acc: Seq<char>)
    requires
        0 <= i,
        is_plain_text(s),
        i + escaped(s).len() < b.len(),
        b.subrange(i, i + escaped(s).len() as int) == escaped(s),
        b[i + escaped(s).len()] == 0x22,
    ensures
        string_at(b, i, acc) == Ok::<(Seq<char>, int), ErrorView>(
            (acc + s, i + escaped(s).len() + 1),
        ),
    decreases s.len(),
{
    if s.len() == 0 {
        assert(acc + s =~= acc);
    } else {
        let c = s[0];
        let w = written(c);
        let rest = s.drop_first();
        let e = escaped(s);
        let r = escaped(rest);
        assert(e == w + r);
        assert forall|k: int| 0 <= k < e.len() implies #[trigger] b[i + k] == e[k] by {
            assert(b.subrange(i, i + e.len() as int)[k] == b[i + k]);
        }
        let j = i + w.len();
        assert(b.subrange(j, j + r.len() as int) =~= r) by {
            assert forall|k: int| 0 <= k < r.len() implies b.subrange(j, j + r.len() as int)[k] == r[k] by {
                assert(b[i + (w.len() + k)] == e[w.len() + k]);
                assert(e[w.len() + k] == r[k]);
            }
        }
        assert forall|k: int| 0 <= k < rest.len() implies (#[trigger] rest[k] as u32) < 0x100 by {
            assert(rest[k] == s[k + 1]);
        }
        assert((s[0] as u32) < 0x100);
        lemma_string(b, j, rest, acc.push(c));
        assert(acc.push(c) + rest =~= acc + s);
        assert(b[i + 0] == e[0]);
        if c == '"' || c == '\\' || c == '\n' || c == '\t' {
            assert(b[i + 1] == e[1]);
            assert(unescaped(b[i + 1]) == c);
        } else {
            assert(w.len() == 1);
            assert(b[i] == c as u32);
            let n = b[i] as u32;
            assert(n == c as u32);
            char_u32_cast(c, n);
            assert(b[i] as char == n as char);
            assert(b[i] != 0x22 && b[i] != 0x5c);
        }
    }
}

/// Text in quotes that stands at `i`.
proof fn lemma_quoted(b: Seq<u8>, i: int, s: Seq<char>)
    requires
        0 <= i,
        is_plain_text(s),
        i + quoted(s).len() <= b.len(),
        b.subrange(i, i + quoted(s).len() as int) == quoted(s),
    ensures
        b[i] == 0x22,
        string_at(b, i + 1, Seq::empty()) == Ok::<(Seq<char>, int), ErrorView>(
            (s, i + quoted(s).len()),
        ),
{
    let q = quoted(s);
    let e = escaped(s);
    assert forall|k: int| 0 <= k < q.len() implies #[trigger] b[i + k] == q[k] by {
        assert(b.subrange(i, i + q.len() as int)[k] == b[i + k]);
    }
    assert(b[i + 0] == q[0]);
    assert(b[i + (1 + e.len())] == q[1 + e.len() as int]);
    assert(b.subrange(i + 1, i + 1 + e.len() as int) =~= e) by {
        assert forall|k: int| 0 <= k < e.len() implies b.subrange(i + 1, i + 1 + e.len() as int)[k]
            == e[k] by {
            assert(b[i + (1 + k)] == q[1 + k]);
        }
    }
    lemma_string(b, i + 1, s, Seq::empty());
    assert(Seq::<char>::empty() + s =~= s);
}

/// A list is read as the texts in it.
proof fn lemma_list(b: Seq<u8>, i: int, names: Seq<Seq<char>>, acc: Set<Seq<char>>)
    requires
        0 <= i,
        forall|k: int| 0 <= k < names.len() ==> is_plain_text(#[trigger] names[k]),
        i + listed(names).len() < b.len(),
        b.subrange(i, i + listed(names).len() as int) == listed(names),
        b[i + listed(names).len()] == 0x5d,
    ensures
        array_at(b, i, acc) == Ok::<(Set<Seq<char>>, int), ErrorView>(
            (acc.union(names.to_set()), i + listed(names).len() + 1),
        ),
    decreases names.len(),
{
    let l = listed(names);
    assert forall|k: int| 0 <= k < l.len() implies #[trigger] b[i + k] == l[k] by {
        assert(b.subrange(i, i + l.len() as int)[k] == b[i + k]);
    }
    if names.len() == 0 {
        assert(b[i] == 0x5d);
        assert(past_blanks(b, i) == i);
        assert(acc.union(names.to_set()) =~= acc);
    } else {
        let q = quoted(names[0]);
        let j = i + q.len();
        let rest = names.drop_first();
        assert(b.subrange(i, i + q.len() as int) =~= q) by {
            assert forall|k: int| 0 <= k < q.len() implies b.subrange(i, i + q.len() as int)[k] == q[k] by {
                assert(b[i + k] == l[k]);
            }
        }
        lemma_quoted(b, i, names[0]);
        assert(past_blanks(b, i) == i);
        assert forall|x: Seq<char>| #[trigger]
            acc.insert(names[0]).union(rest.to_set()).contains(x) <==> acc.union(
                names.to_set(),
            ).contains(x) by {
            assert(names.contains(names[0]));
            if rest.contains(x) {
                let k = choose|k: int| 0 <= k < rest.len() && rest[k] == x;
                assert(names[k + 1] == x);
            }
            if names.contains(x) {
                let k = choose|k: int| 0 <= k < names.len() && names[k] == x;
                if k > 0 {
                    assert(rest[k - 1] == x);
                }
            }
        }
        assert(acc.insert(names[0]).union(rest.to_set()) =~= acc.union(names.to_set()));
        assert forall|k: int| 0 <= k < rest.len() implies is_plain_text(#[trigger] rest[k]) by {
            assert(rest[k] == names[k + 1]);
        }
        if names.len() == 1 {
            assert(rest =~= Seq::<Seq<char>>::empty());
            assert(listed(rest) =~= Seq::<u8>::empty());
            assert(b.subrange(j, j) =~= Seq::<u8>::empty());
            lemma_list(b, j, rest, acc.insert(names[0]));
        } else {
            let r = listed(rest);
            assert(b[i + q.len()] == l[q.len() as int]);
            assert(b[j] == 0x2c);
            assert(past_blanks(b, j) == j);
            assert(b.subrange(j + 1, j + 1 + r.len() as int) =~= r) by {
                assert forall|k: int| 0 <= k < r.len() implies b.subrange(
                    j + 1,
                    j + 1 + r.len() as int,
                )[k] == r[k] by {
                    assert(b[i + (q.len() + 1 + k)] == l[q.len() + 1 + k]);
                }
            }
            lemma_list(b, j + 1, rest, acc.insert(names[0]));
            assert(array_at(b, j, acc.insert(names[0])) == array_at(
                b,
                j + 1,
                acc.insert(names[0]),
            ));
        }
        assert(array_at(b, i, acc) == array_at(b, j, acc.insert(names[0])));
    }
}

/// A key with a text is read as such.
proof fn lemma_text_member(b: Seq<u8>, i: int, key: Seq<char>, value: Seq<char>, acc: Fields)
    requires
        0 <= i,
        is_plain_text(key),
        is_plain_text(value),
        i + quoted(key).len() + 1 + quoted(value).len() <= b.len(),
        b.subrange(i, i + quoted(key).len() as int) == quoted(key),
        b[i + quoted(key).len()] == 0x3a,
        b.subrange(
            i + quoted(key).len() + 1,
            i + quoted(key).len() + 1 + quoted(value).len() as int,
        ) == quoted(value),
    ensures
        b[i] == 0x22,
        member_at(b, i, acc) == Ok::<(Fields, int), ErrorView>(
            (acc.with_string(key, value), i + quoted(key).len() + 1 + quoted(value).len()),
        ),
{
    lemma_quoted(b, i, key);
    let colon = i + quoted(key).len();
    assert(past_blanks(b, colon) == colon);
    lemma_quoted(b, colon + 1, value);
    assert(past_blanks(b, colon + 1) == colon + 1);
}

/// A key with a list is read as such.
proof fn lemma_list_member(
    b: Seq<u8>,
    i: int,
    key: Seq<char>,
    names: Seq<Seq<char>>,
    acc: Fields,
)
    requires
        0 <= i,
        is_plain_text(key),
        forall|k: int| 0 <= k < names.len() ==> is_plain_text(#[trigger] names[k]),
        i + quoted(key).len() + 2 + listed(names).len() < b.len(),
        b.subrange(i, i + quoted(key).len() as int) == quoted(key),
        b[i + quoted(key).len()] == 0x3a,
        b[i + quoted(key).len() + 1] == 0x5b,
        b.subrange(
            i + quoted(key).len() + 2,
            i + quoted(key).len() + 2 + listed(names).len() as int,
        ) == listed(names),
        b[i + quoted(key).len() + 2 + listed(names).len()] == 0x5d,
    ensures
        b[i] == 0x22,
        member_at(b, i, acc) == Ok::<(Fields, int), ErrorView>(
            (
                acc.with_array(key, names.to_set()),
                i + quoted(key).len() + 3 + listed(names).len(),
            ),
        ),
{
    lemma_quoted(b, i, key);
    let colon = i + quoted(key).len();
    assert(past_blanks(b, colon) == colon);
    assert(past_blanks(b, colon + 1) == colon + 1);
    lemma_list(b, colon + 2, names, Set::empty());
    assert(Set::<Seq<char>>::empty().union(names.to_set()) =~= names.to_set());
}

/// The words that a manifest uses take one byte a character.
proof fn lemma_keys()
    ensures
        is_plain_text("name"@),
        is_plain_text("type"@),
        is_plain_text("category"@),
        "name"@ != "type"@,
        "name"@ != "category"@,
        "type"@ != "category"@,
{
    reveal_strlit("name");
    reveal_strlit("type");
    reveal_strlit("category");
    assert("name"@[0] != "type"@[0]);
    assert("name"@.len() != "category"@.len());
    assert("type"@.len() != "category"@.len());
}

/// An object is read as the file that it was written for.
#[verifier::spinoff_prover]
#[verifier::rlimit(40)]
proof fn lemma_object(
    b: Seq<u8>,
    i: int,
    name: Seq<char>,
    word: Seq<char>,
    names: Seq<Seq<char>>,
)
    requires
        0 <= i,
        is_plain_text(name),
        is_plain_text(word),
        forall|k: int| 0 <= k < names.len() ==> is_plain_text(#[trigger] names[k]),
        i + object_text(name, word, names).len() <= b.len(),
        b.subrange(i, i + object_text(name, word, names).len() as int) == object_text(
            name,
            word,
            names,
        ),
    ensures
        b[i] == 0x7b,
        object_at(b, i + 1, Fields::none()) == Ok::<(Fields, int), ErrorView>(
            (
                Fields {
                    name: Some(name),
                    kind: Some(kind_of(word)),
                    categories: names.to_set(),
                },
                i + object_text(name, word, names).len(),
            ),
        ),
{
    lemma_keys();
    let t = object_text(name, word, names);
    let m1 = quoted("name"@) + seq![0x3au8] + quoted(name);
    let m2 = quoted("type"@) + seq![0x3au8] + quoted(word);
    let l = listed(names);
    let m3 = quoted("category"@) + seq![0x3au8, 0x5bu8] + l + seq![0x5du8];
    assert forall|k: int| 0 <= k < t.len() implies #[trigger] b[i + k] == t[k] by {
        assert(b.subrange(i, i + t.len() as int)[k] == b[i + k]);
    }
    let p1: int = 1;
    let c1 = p1 + m1.len();
    let p2 = c1 + 1;
    let c2 = p2 + m2.len();
    let p3 = c2 + 1;
    let end = p3 + m3.len();
    assert(t.len() == end + 1);
    assert(t.subrange(p1, c1) =~= m1);
    assert(t.subrange(p2, c2) =~= m2);
    assert(t.subrange(p3, end) =~= m3);
    assert(t[0] == 0x7b && t[c1] == 0x2c && t[c2] == 0x2c && t[end] == 0x7d);
    lemma_part(b, i, t, p1, m1);
    lemma_part(b, i, t, p2, m2);
    lemma_part(b, i, t, p3, m3);
    let n1 = quoted("name"@).len() as int;
    let n2 = quoted("type"@).len() as int;
    let n3 = quoted("category"@).len() as int;
    let n4 = n3 + 2 + l.len();
    lemma_piece(b, i + p1, m1, 0, quoted("name"@));
    lemma_piece(b, i + p1, m1, n1 + 1, quoted(name));
    assert(b[i + p1 + n1] == m1[n1]);
    lemma_piece(b, i + p2, m2, 0, quoted("type"@));
    lemma_piece(b, i + p2, m2, n2 + 1, quoted(word));
    assert(b[i + p2 + n2] == m2[n2]);
    lemma_piece(b, i + p3, m3, 0, quoted("category"@));
    lemma_piece(b, i + p3, m3, n3 + 2, l);
    assert(b[i + p3 + n3] == m3[n3]);
    assert(b[i + p3 + (n3 + 1)] == m3[n3 + 1]);
    assert(b[i + p3 + n4] == m3[n4]);
    let a0 = Fields::none();
    let a1 = a0.with_string("name"@, name);
    let a2 = a1.with_string("type"@, word);
    let a3 = a2.with_array("category"@, names.to_set());
    assert(a3.categories =~= names.to_set());
    lemma_text_member(b, i + p1, "name"@, name, a0);
    lemma_text_member(b, i + p2, "type"@, word, a1);
    lemma_list_member(b, i + p3, "category"@, names, a2);
    assert(b[i + 0] == t[0]);
    assert(b[i + c1] == t[c1] && b[i + c2] == t[c2] && b[i + end] == t[end]);
    assert(past_blanks(b, i + end) == i + end);
    assert(object_at(b, i + end, a3) == Ok::<(Fields, int), ErrorView>(
        (a3, i + end + 1),
    ));
    assert(past_blanks(b, i + p3) == i + p3);
    assert(object_at(b, i + p3, a2) == object_at(b, i + end, a3));
    assert(past_blanks(b, i + c2) == i + c2);
    assert(object_at(b, i + c2, a2) == object_at(b, i + p3, a2));
    assert(past_blanks(b, i + p2) == i + p2);
    assert(object_at(b, i + p2, a1) == object_at(b, i + c2, a2));
    assert(past_blanks(b, i + c1) == i + c1);
    assert(object_at(b, i + c1, a1) == object_at(b, i + p2, a1));
    assert(past_blanks(b, i + p1) == i + p1);
    assert(object_at(b, i + p1, a0) == object_at(b, i + c1, a1));
}

/// A part of a text stands where the text does.
proof fn lemma_part(b: Seq<u8>, i: int, t: Seq<u8>, p: int, m: Seq<u8>)
    requires
        0 <= i,
        0 <= p,
        p + m.len() <= t.len(),
        i + t.len() <= b.len(),
        b.subrange(i, i + t.len() as int) == t,
        t.subrange(p, p + m.len() as int) == m,
    ensures
        b.subrange(i + p, i + p + m.len() as int) == m,
        forall|k: int| 0 <= k < m.len() ==> #[trigger] b[i + p + k] == m[k],
{
    assert forall|k: int| 0 <= k < m.len() implies #[trigger] b[i + p + k] == m[k] by {
        assert(b.subrange(i, i + t.len() as int)[p + k] == b[i + (p + k)]);
        assert(t.subrange(p, p + m.len() as int)[k] == t[p + k]);
    }
    assert(b.subrange(i + p, i + p + m.len() as int) =~= m);
}

/// A piece of a part stands where the part does.
proof fn lemma_piece(b: Seq<u8>, i: int, m: Seq<u8>, p: int, q: Seq<u8>)
    requires
        0 <= i,
        0 <= p,
        p + q.len() <= m.len(),
        i + m.len() <= b.len(),
        b.subrange(i, i + m.len() as int) == m,
        forall|k: int| 0 <= k < q.len() ==> m[p + k] == #[trigger] q[k],
    ensures
        b.subrange(i + p, i + p + q.len() as int) == q,
{
    assert(m.subrange(p, p + q.len() as int) =~= q);
    lemma_part(b, i, m, p, q);
}

/// A manifest of one file is read as that file: the name, the kind that its type means and the
/// categories in its list, whatever characters they hold. With what is known of manifests that are
/// joined, so is one of several.
pub proof fn law_written_manifests_are_read(
    name: Seq<char>,
    word: Seq<char>,
    names: Seq<Seq<char>>,
    tail: Seq<u8>,
)
    requires
        is_plain_text(name),
        is_plain_text(word),
        forall|k: int| 0 <= k < names.len() ==> is_plain_text(#[trigger] names[k]),
    ensures
        spec_manifest(seq![0x5bu8] + object_text(name, word, names) + seq![0x5du8] + tail) == Ok::<
            Seq<EntryView>,
            ErrorView,
        >(seq![EntryView { name, kind: kind_of(word), categories: names.to_set() }]),
{
    let t = object_text(name, word, names);
    let b = seq![0x5bu8] + t + seq![0x5du8] + tail;
    let n = t.len() as int;
    assert(b[0] == 0x5b && b[1 + n] == 0x5d);
    assert(b.subrange(1, 1 + n) =~= t);
    lemma_object(b, 1, name, word, names);
    assert(past_blanks(b, 0) == 0);
    assert(past_blanks(b, 1) == 1);
    assert(past_blanks(b, 1 + n) == 1 + n);
    let e = EntryView { name, kind: kind_of(word), categories: names.to_set() };
    assert(Seq::<EntryView>::empty().push(e) =~= seq![e]);
    assert(entries_at(b, 1 + n, seq![e]) == Ok::<
        (Seq<EntryView>, int),
        ErrorView,
    >((seq![e], 1 + n + 1)));
    assert(manifest_at(b) == entries_at(b, 1, Seq::empty()));
}

/// Blanks, tabs, line ends, form feeds and carriage returns may stand between the parts of a manifest,
/// and nothing else.
pub proof fn law_blanks_between_parts(c: u8)
    ensures
        is_blank(c) <==> c == ' ' as u8 || c == '\t' as u8 || c == '\n' as u8 || c == '\r' as u8 || c
            == 12,
{
}

/// Blanks at the front of a manifest are passed over.
pub proof fn law_leading_blanks_are_passed_over(b: Seq<u8>, i: int)
    requires
        0 <= i < b.len(),
    ensures
        is_blank(b[i]) ==> past_blanks(b, i) == past_blanks(b, i + 1),
        !is_blank(b[i]) ==> past_blanks(b, i) == i,
{
}

} // verus!
