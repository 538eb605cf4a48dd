//! What numbers, versions and paths look like as text.
use crate::abi::{table_view, until_nul, version_in};
use crate::nvidia::{learned, NvidiaBackend};
use crate::paths::{counted, pieces, spec_components, spec_file_name, spec_join};
use crate::text::{
    all_digits, decimal, digits_value, hex, is_digit, lemma_decimal, number, spec_is_space,
    spec_read_u32,
};
use crate::version::{first_index, law_version_text_parses, trimmed, DriverVersion};
use crate::versions::spec_table_for;
use vstd::prelude::*;
use vstd::utf8::{encode_scalar, encode_utf8, encode_utf8_decode_utf8, encode_utf8_valid_utf8};

verus! {

/// A number in decimal is its digits, the most significant first, and none before it.
pub proof fn law_decimal_digits(n: nat)
    ensures
        n < 10 ==> decimal(n) == seq![('0' as int + n) as char],
        n >= 10 ==> decimal(n) == decimal(n / 10).push(('0' as int + n % 10) as char),
        all_digits(decimal(n)),
        digits_value(decimal(n)) == n,
{
    lemma_decimal(n);
}

/// A number in hexadecimal stands behind `0x`, its digits the most significant first, ten to fifteen
/// as the letters `a` to `f`.
pub proof fn law_hexadecimal_digits(n: nat)
    ensures
        hex(n).len() >= 3,
        hex(n)[0] == '0',
        hex(n)[1] == 'x',
        n < 10 ==> hex(n) == seq!['0', 'x', ('0' as int + n) as char],
        10 <= n < 16 ==> hex(n) == seq!['0', 'x', ('a' as int + n - 10) as char],
        n >= 16 ==> hex(n).len() == hex(n / 16).len() + 1 && hex(n).drop_last() == hex(n / 16)
            && hex(n).last() == (if n % 16 < 10 {
            ('0' as int + n % 16) as char
        } else {
            ('a' as int + n % 16 - 10) as char
        }),
{
    reveal_strlit("0x");
    assert(hex(n) =~= seq!['0', 'x'] + number(n, 16));
    assert(number(n, 16).len() > 0);
    if n >= 16 {
        assert(hex(n / 16) =~= seq!['0', 'x'] + number(n / 16, 16));
        assert(hex(n).drop_last() =~= hex(n / 16));
    }
}

/// Reading digits gives the number that they stand for, with or without a plus sign before them; what
/// is no digit, or too large, is no number.
pub proof fn law_numbers_are_read(d: Seq<char>, n: u32, i: int)
    requires
        d.len() > 0,
        d[0] != '+',
    ensures
        spec_read_u32(decimal(n as nat)) == Some(n),
        spec_read_u32(Seq::empty()) is None,
        all_digits(d) && digits_value(d) <= u32::MAX ==> spec_read_u32(d) == Some(
            digits_value(d) as u32,
        ),
        all_digits(d) && digits_value(d) > u32::MAX ==> spec_read_u32(d) is None,
        0 <= i < d.len() && !('0' <= d[i] <= '9') ==> spec_read_u32(d) is None,
        spec_read_u32(seq!['+'] + d) == spec_read_u32(d),
{
    lemma_decimal(n as nat);
    let t = decimal(n as nat);
    assert(is_digit(t[0]));
    assert((seq!['+'] + d).drop_first() =~= d);
    assert((seq!['+'] + d)[0] == '+');
}

/// The value of digits is that of all but the last, ten times, and the last.
pub proof fn law_digits_have_places(d: Seq<char>, c: char)
    requires
        '0' <= c <= '9',
    ensures
        digits_value(Seq::empty()) == 0,
        digits_value(d.push(c)) == 10 * digits_value(d) + (c as int - '0' as int),
{
    assert(d.push(c).drop_last() =~= d);
}

/// Blanks, tabs and line ends are white space; digits, letters and dots are not.
pub proof fn law_white_space(c: char)
    ensures
        c == ' ' || c == '\t' || c == '\n' || c == '\r' ==> spec_is_space(c),
        '!' <= c <= '~' ==> !spec_is_space(c),
{
}

/// Trimming takes white space from both ends, all of it and nothing else.
pub proof fn law_trimming_takes_white_space(s: Seq<char>) -> (r: (Seq<char>, Seq<char>))
    ensures
        s == r.0 + trimmed(s) + r.1,
        forall|i: int| 0 <= i < r.0.len() ==> spec_is_space(#[trigger] r.0[i]),
        forall|i: int| 0 <= i < r.1.len() ==> spec_is_space(#[trigger] r.1[i]),
        trimmed(s).len() > 0 ==> !spec_is_space(trimmed(s)[0]) && !spec_is_space(trimmed(s).last()),
    decreases s.len(),
{
    if s.len() > 0 && spec_is_space(s[0]) {
        let (a, b) = law_trimming_takes_white_space(s.drop_first());
        let front = seq![s[0]] + a;
        assert forall|i: int| 0 <= i < front.len() implies spec_is_space(#[trigger] front[i]) by {
            if i > 0 {
                assert(front[i] == a[i - 1]);
            }
        }
        assert(s =~= seq![s[0]] + s.drop_first());
        assert(s =~= front + trimmed(s) + b);
        (front, b)
    } else if s.len() > 0 && spec_is_space(s.last()) {
        let (a, b) = law_trimming_takes_white_space(s.drop_last());
        let back = b.push(s.last());
        assert(s =~= s.drop_last().push(s.last()));
        assert(s =~= a + trimmed(s) + back);
        (a, back)
    } else {
        assert(s =~= Seq::<char>::empty() + s + Seq::<char>::empty());
        (Seq::empty(), Seq::empty())
    }
}

/// The first dot behind a text without one is the one that follows it.
proof fn lemma_first_behind(a: Seq<char>, b: Seq<char>, c: char)
    requires
        !a.contains(c),
    ensures
        first_index(a + seq![c] + b, c) == a.len(),
    decreases a.len(),
{
    let t = a + seq![c] + b;
    if a.len() == 0 {
        assert(t[0] == c);
    } else {
        assert(t[0] == a[0]);
        assert(a.contains(a[0]));
        assert(t.drop_first() =~= a.drop_first() + seq![c] + b);
        assert forall|x: int| 0 <= x < a.drop_first().len() implies a.drop_first()[x] != c by {
            assert(a.drop_first()[x] == a[x + 1]);
            assert(a.contains(a[x + 1]));
        }
        lemma_first_behind(a.drop_first(), b, c);
    }
}

proof fn lemma_absent(a: Seq<char>, c: char)
    requires
        !a.contains(c),
    ensures
        first_index(a, c) == a.len(),
    decreases a.len(),
{
    if a.len() > 0 {
        assert(a.contains(a[0]));
        assert forall|x: int| 0 <= x < a.drop_first().len() implies a.drop_first()[x] != c by {
            assert(a.drop_first()[x] == a[x + 1]);
            assert(a.contains(a[x + 1]));
        }
        lemma_absent(a.drop_first(), c);
    }
}

/// A version is three numbers with a dot between each two: the major one, the minor one and the
/// patch. With fewer parts it is none.
pub proof fn law_versions_have_three_parts(a: Seq<char>, b: Seq<char>, c: Seq<char>)
    requires
        !a.contains('.'),
        !b.contains('.'),
        a.len() > 0,
        c.len() > 0,
        !spec_is_space(a[0]),
        !spec_is_space(c.last()),
    ensures
        DriverVersion::spec_parse(a + seq!['.'] + (b + seq!['.'] + c)) == (match (
            spec_read_u32(a),
            spec_read_u32(b),
            spec_read_u32(c),
        ) {
            (Some(major), Some(minor), Some(patch)) => Some(
                DriverVersion { major, minor, patch },
            ),
            _ => None,
        }),
        !c.contains('.') ==> DriverVersion::spec_parse(a + seq!['.'] + c) is None,
{
    let rest = b + seq!['.'] + c;
    let t = a + seq!['.'] + rest;
    assert(t[0] == a[0] && t.last() == c.last());
    assert(trimmed(t) == t);
    lemma_first_behind(a, rest, '.');
    assert(t.take(a.len() as int) =~= a);
    assert(t.skip(a.len() as int + 1) =~= rest);
    lemma_first_behind(b, c, '.');
    assert(rest.take(b.len() as int) =~= b);
    assert(rest.skip(b.len() as int + 1) =~= c);
    if !c.contains('.') {
        let u = a + seq!['.'] + c;
        assert(u[0] == a[0] && u.last() == c.last());
        assert(trimmed(u) == u);
        lemma_first_behind(a, c, '.');
        assert(u.skip(a.len() as int + 1) =~= c);
        lemma_absent(c, '.');
    }
}

/// The bytes before the first zero.
pub(crate) proof fn lemma_until_nul(t: Seq<u8>, tail: Seq<u8>)
    requires
        forall|i: int| 0 <= i < t.len() ==> #[trigger] t[i] != 0,
    ensures
        until_nul(t + seq![0u8] + tail) == t,
    decreases t.len(),
{
    let s = t + seq![0u8] + tail;
    if t.len() == 0 {
        assert(s[0] == 0);
    } else {
        assert(s[0] == t[0]);
        let rest = t.drop_first();
        assert(s.drop_first() =~= rest + seq![0u8] + tail);
        assert forall|i: int| 0 <= i < rest.len() implies #[trigger] rest[i] != 0 by {
            assert(rest[i] == t[i + 1]);
        }
        lemma_until_nul(rest, tail);
        assert(seq![s[0]] + rest =~= t);
    }
}

/// ASCII text takes one byte a character.
proof fn lemma_ascii(t: Seq<char>)
    requires
        forall|i: int| 0 <= i < t.len() ==> 0 < (#[trigger] t[i] as u32) < 0x80,
    ensures
        encode_utf8(t).len() == t.len(),
        forall|i: int| 0 <= i < t.len() ==> #[trigger] encode_utf8(t)[i] == t[i] as u32,
        forall|i: int| 0 <= i < t.len() ==> #[trigger] encode_utf8(t)[i] != 0,
    decreases t.len(),
{
    if t.len() > 0 {
        let c = t[0] as u32;
        assert((c & 0x7f) as u8 == c as u8 && (c as u8 != 0)) by (bit_vector)
            requires
                0 < c < 0x80,
        ;
        let rest = t.drop_first();
        assert forall|i: int| 0 <= i < rest.len() implies 0 < (#[trigger] rest[i] as u32) < 0x80 by {
            assert(rest[i] == t[i + 1]);
        }
        lemma_ascii(rest);
        assert(encode_scalar(c) =~= seq![c as u8]);
        assert(encode_utf8(t) == encode_scalar(c) + encode_utf8(rest));
        assert forall|i: int| 0 <= i < t.len() implies #[trigger] encode_utf8(t)[i] == t[i] as u32
            && encode_utf8(t)[i] != 0 by {
            if i > 0 {
                assert(encode_utf8(t)[i] == encode_utf8(rest)[i - 1]);
                assert(rest[i - 1] == t[i]);
            } else {
                assert(encode_scalar(c)[0] == c as u8);
                assert(encode_utf8(t)[0] == c as u8);
            }
        }
    }
}

/// A reply to the version check gives the version that stands as text behind its first eight bytes,
/// up to a zero; what stands behind that is of no account.
pub proof fn law_version_replies_are_understood(head: Seq<u8>, v: DriverVersion, tail: Seq<u8>)
    requires
        head.len() == 8,
        tail.len() >= 3,
    ensures
        version_in(head + encode_utf8(v.text()) + seq![0u8] + tail) == Some(v),
{
    let t = v.text();
    lemma_decimal(v.major as nat);
    lemma_decimal(v.minor as nat);
    lemma_decimal(v.patch as nat);
    let a = decimal(v.major as nat);
    let b = decimal(v.minor as nat);
    let p = decimal(v.patch as nat);
    assert forall|i: int| 0 <= i < t.len() implies 0 < (#[trigger] t[i] as u32) < 0x80 by {
        lemma_plain(a);
        lemma_plain(b);
        lemma_plain(p);
        let z = if v.patch < 10 {
            seq!['0']
        } else {
            Seq::<char>::empty()
        };
        assert(t =~= a + seq!['.'] + b + seq!['.'] + z + p);
        let n = a.len() as int;
        let m = n + 1 + b.len();
        if i < n {
            assert(t[i] == a[i]);
        } else if i == n {
            assert(t[i] == '.');
        } else if i < m {
            assert(t[i] == b[i - n - 1]);
        } else if i == m {
            assert(t[i] == '.');
        } else if i - m - 1 < z.len() {
            assert(t[i] == z[i - m - 1]);
        } else {
            assert(t[i] == p[i - m - 1 - z.len()]);
        }
    }
    lemma_ascii(t);
    let e = encode_utf8(t);
    lemma_until_nul(e, tail);
    let reply = head + e + seq![0u8] + tail;
    assert(reply.skip(8) =~= e + seq![0u8] + tail);
    encode_utf8_valid_utf8(t);
    encode_utf8_decode_utf8(t);
    law_version_text_parses(v);
}

proof fn lemma_plain(d: Seq<char>)
    requires
        all_digits(d),
    ensures
        forall|i: int| 0 <= i < d.len() ==> 0 < (#[trigger] d[i] as u32) < 0x80,
{
    assert forall|i: int| 0 <= i < d.len() implies 0 < (#[trigger] d[i] as u32) < 0x80 by {
        assert(is_digit(d[i]));
    }
}

/// The first version that a reply gives is the host's from then on, and so is the profile that serves
/// it; no later reply changes them, and a reply without a version changes nothing.
pub proof fn law_first_version_stays(pre: NvidiaBackend, reply: Seq<u8>, post: NvidiaBackend)
    requires
        learned(pre, reply, post),
    ensures
        pre.driver is Some ==> post.driver == pre.driver && post.abi == pre.abi,
        version_in(reply) is None ==> post.driver == pre.driver && post.abi == pre.abi,
        pre.driver is None && version_in(reply) is Some ==> post.driver == version_in(reply)
            && table_view(post.abi) == spec_table_for(version_in(reply)->0),
{
}

/// A path below a directory is the directory, a slash and the path; an absolute one is itself.
pub proof fn law_joined_paths(a: Seq<char>, b: Seq<char>)
    ensures
        b.len() > 0 && b[0] == '/' ==> spec_join(a, b) == b,
        (b.len() == 0 || b[0] != '/') && a.len() > 0 && a.last() != '/' ==> spec_join(a, b) == a.push(
            '/',
        ) + b,
        (b.len() == 0 || b[0] != '/') && a.len() > 0 && a.last() == '/' ==> spec_join(a, b) == a + b,
        (b.len() == 0 || b[0] != '/') && a.len() == 0 ==> spec_join(a, b) == b,
{
    assert(a.push('/') + b =~= a + seq!['/'] + b);
    assert(Seq::<char>::empty() + b =~= b);
    if a.len() == 0 {
        assert(a =~= Seq::<char>::empty());
    }
}

/// A name behind a slash is a piece of its own.
proof fn lemma_pieces_behind(a: Seq<char>, name: Seq<char>)
    requires
        !name.contains('/'),
    ensures
        pieces(a).len() >= 1,
        pieces(a + seq!['/'] + name) == pieces(a).push(name),
    decreases a.len(),
{
    let t = a + seq!['/'] + name;
    if a.contains('/') {
        let i = first_index(a, '/');
        lemma_index(a, '/');
        let rest = a.skip(i + 1);
        lemma_index_prefix(a, seq!['/'] + name, '/');
        assert(t =~= a + (seq!['/'] + name));
        assert(t.skip(i + 1) =~= rest + seq!['/'] + name);
        lemma_pieces_behind(rest, name);
        assert(t.take(i) =~= a.take(i));
        assert(pieces(t) == seq![t.take(i)] + pieces(t.skip(i + 1)));
        assert(pieces(t) =~= pieces(a).push(name));
    } else {
        lemma_first_behind(a, name, '/');
        assert(t.skip(a.len() as int + 1) =~= name);
        assert(t.take(a.len() as int) =~= a);
        lemma_absent(name, '/');
        lemma_absent(a, '/');
        assert(pieces(name) == seq![name]);
        assert(pieces(t) == seq![a] + seq![name]);
        assert(pieces(t) =~= pieces(a).push(name));
    }
}

proof fn lemma_index(a: Seq<char>, c: char)
    requires
        a.contains(c),
    ensures
        0 <= first_index(a, c) < a.len(),
        a[first_index(a, c)] == c,
    decreases a.len(),
{
    if a[0] != c {
        let k = choose|k: int| 0 <= k < a.len() && a[k] == c;
        assert(a.drop_first()[k - 1] == c);
        lemma_index(a.drop_first(), c);
    }
}

proof fn lemma_index_prefix(a: Seq<char>, b: Seq<char>, c: char)
    requires
        a.contains(c),
    ensures
        first_index(a + b, c) == first_index(a, c),
    decreases a.len(),
{
    if a[0] != c {
        let k = choose|k: int| 0 <= k < a.len() && a[k] == c;
        assert(a.drop_first()[k - 1] == c);
        lemma_index_prefix(a.drop_first(), b, c);
        assert((a + b).drop_first() =~= a.drop_first() + b);
    }
}

/// A piece that counts stands behind those before it.
proof fn lemma_counted_behind(p: Seq<Seq<char>>, x: Seq<char>, start: bool)
    requires
        p.len() >= 1 || !start,
        x.len() > 0,
        x != seq!['.'],
    ensures
        counted(p.push(x), start) == counted(p, start).push(x),
    decreases p.len(),
{
    let all = p.push(x);
    if p.len() == 0 {
        assert(all.drop_first() =~= Seq::<Seq<char>>::empty());
        assert(counted(all.drop_first(), false) =~= Seq::<Seq<char>>::empty());
        assert(counted(all, start) =~= seq![x]);
        assert(counted(p, start).push(x) =~= seq![x]);
    } else {
        assert(all.drop_first() =~= p.drop_first().push(x));
        lemma_counted_behind(p.drop_first(), x, false);
        assert(all[0] == p[0]);
        let rest = counted(p.drop_first(), false);
        assert(seq![p[0]] + rest.push(x) =~= (seq![p[0]] + rest).push(x));
    }
}

/// A file below a directory has the components of the directory, and its name.
pub proof fn law_components_below_a_directory(dir: Seq<char>, name: Seq<char>)
    requires
        dir.len() > 0,
        dir.last() != '/',
        name.len() > 0,
        !name.contains('/'),
        name != seq!['.'],
    ensures
        spec_components(spec_join(dir, name)) == spec_components(dir).push(name),
{
    assert(name.contains(name[0]));
    let t = dir + seq!['/'] + name;
    assert(spec_join(dir, name) == t);
    assert(t[0] == dir[0]);
    lemma_pieces_behind(dir, name);
    let absolute = dir[0] == '/';
    lemma_counted_behind(pieces(dir), name, !absolute);
    assert(spec_components(t) =~= spec_components(dir).push(name));
}

/// A file below a directory has the name that it was given there.
pub proof fn law_file_names_are_last(dir: Seq<char>, name: Seq<char>)
    requires
        dir.len() > 0,
        dir.last() != '/',
        name.len() > 0,
        !name.contains('/'),
        name != seq!['.'],
        name != seq!['.', '.'],
    ensures
        spec_file_name(spec_join(dir, name)) == Some(name),
{
    law_components_below_a_directory(dir, name);
    assert(name != seq!['/']) by {
        if name == seq!['/'] {
            assert(name[0] == '/');
            assert(name.contains(name[0]));
        }
    }
}

/// A version as text is its three numbers with a dot between each two, the patch with at least two
/// digits.
pub proof fn law_version_text(v: DriverVersion)
    ensures
        v.patch < 10 ==> v.text() == decimal(v.major as nat) + seq!['.'] + decimal(v.minor as nat)
            + seq!['.', '0', ('0' as int + v.patch) as char],
        v.patch >= 10 ==> v.text() == decimal(v.major as nat) + seq!['.'] + decimal(v.minor as nat)
            + seq!['.'] + decimal(v.patch as nat),
{
    let front = decimal(v.major as nat) + seq!['.'] + decimal(v.minor as nat);
    if v.patch < 10 {
        assert(v.text() =~= front + seq!['.', '0', ('0' as int + v.patch) as char]);
    } else {
        assert(v.text() =~= front + seq!['.'] + decimal(v.patch as nat));
    }
}

} // verus!
