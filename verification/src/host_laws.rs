//! What is read off the host: versions in texts and names, and the capabilities that a user asks for.
use crate::host::{first_version, spec_config_path, version_shaped, word_len};
use crate::staging::{plain_name, spec_capability, version_in_name};
use crate::text::{all_digits, is_digit, spec_is_space, spec_lossy};
use crate::text_laws::lemma_until_nul;
use crate::userspace::Capability;
use crate::version::{first_index, trimmed};
use vstd::prelude::*;

verus! {

/// The first dot behind digits is the one that follows them.
proof fn lemma_dot_behind(a: Seq<char>, b: Seq<char>)
    requires
        all_digits(a),
    ensures
        first_index(a + seq!['.'] + b, '.') == a.len(),
    decreases a.len(),
{
    let t = a + seq!['.'] + b;
    if a.len() == 0 {
        assert(t[0] == '.');
    } else {
        assert(t[0] == a[0]);
        assert(is_digit(a[0]));
        assert(t.drop_first() =~= a.drop_first() + seq!['.'] + b);
        lemma_dot_behind(a.drop_first(), b);
    }
}

proof fn lemma_first_index(s: Seq<char>, c: char)
    ensures
        0 <= first_index(s, c) <= s.len(),
        first_index(s, c) < s.len() ==> s[first_index(s, c)] == c,
    decreases s.len(),
{
    if s.len() > 0 && s[0] != c {
        lemma_first_index(s.drop_first(), c);
    }
}

/// A word is a version if it is three numbers with a dot between each two, none of them empty.
pub proof fn law_versions_are_three_numbers(a: Seq<char>, b: Seq<char>, c: Seq<char>)
    requires
        all_digits(a),
        all_digits(b),
        all_digits(c),
    ensures
        version_shaped(a + seq!['.'] + (b + seq!['.'] + c)) <==> a.len() > 0 && b.len() > 0
            && c.len() > 0,
{
    let rest = b + seq!['.'] + c;
    let w = a + seq!['.'] + rest;
    lemma_dot_behind(a, rest);
    lemma_dot_behind(b, c);
    assert(w.take(a.len() as int) =~= a);
    assert(w.skip(a.len() as int + 1) =~= rest);
    assert(rest.take(b.len() as int) =~= b);
    assert(rest.skip(b.len() as int + 1) =~= c);
}

/// A version holds nothing but digits and two dots.
pub proof fn law_versions_hold_digits_and_dots(w: Seq<char>) -> (r: (Seq<char>, Seq<char>, Seq<char>))
    requires
        version_shaped(w),
    ensures
        w == r.0 + seq!['.'] + (r.1 + seq!['.'] + r.2),
        all_digits(r.0) && all_digits(r.1) && all_digits(r.2),
        forall|i: int| 0 <= i < w.len() ==> is_digit(#[trigger] w[i]) || w[i] == '.',
{
    let i = first_index(w, '.');
    let rest = w.skip(i + 1);
    let j = first_index(rest, '.');
    let a = w.take(i);
    let b = rest.take(j);
    let c = rest.skip(j + 1);
    lemma_first_index(w, '.');
    lemma_first_index(rest, '.');
    assert(rest =~= b + seq!['.'] + c);
    assert(w =~= a + seq!['.'] + rest);
    assert forall|k: int| 0 <= k < w.len() implies is_digit(#[trigger] w[k]) || w[k] == '.' by {
        if k < i {
            assert(w[k] == a[k]);
        } else if i < k < i + 1 + j {
            assert(w[k] == b[k - i - 1]);
        } else if k > i + 1 + j {
            assert(w[k] == c[k - i - 1 - j - 1]);
        }
    }
    (a, b, c)
}

/// A word ends before the first white space.
proof fn lemma_word_len(word: Seq<char>, rest: Seq<char>)
    requires
        forall|i: int| 0 <= i < word.len() ==> !spec_is_space(#[trigger] word[i]),
        rest.len() == 0 || spec_is_space(rest[0]),
    ensures
        word_len(word + rest) == word.len(),
    decreases word.len(),
{
    let s = word + rest;
    if word.len() == 0 {
        assert(s =~= rest);
    } else {
        assert(s[0] == word[0]);
        let less = word.drop_first();
        assert(s.drop_first() =~= less + rest);
        assert forall|i: int| 0 <= i < less.len() implies !spec_is_space(#[trigger] less[i]) by {
            assert(less[i] == word[i + 1]);
        }
        lemma_word_len(less, rest);
    }
}

/// The driver version is the first word of the text that is one: white space is passed over, and so
/// is a word that is none.
pub proof fn law_first_version_of_a_text(word: Seq<char>, rest: Seq<char>, blank: char)
    requires
        word.len() > 0,
        forall|i: int| 0 <= i < word.len() ==> !spec_is_space(#[trigger] word[i]),
        rest.len() == 0 || spec_is_space(rest[0]),
        spec_is_space(blank),
    ensures
        first_version(Seq::empty()) is None,
        first_version(seq![blank] + rest) == first_version(rest),
        version_shaped(word) ==> first_version(word + rest) == Some(word),
        !version_shaped(word) ==> first_version(word + rest) == first_version(rest),
{
    let s = word + rest;
    lemma_word_len(word, rest);
    assert(s[0] == word[0]);
    assert(s.take(word.len() as int) =~= word);
    assert(s.skip(word.len() as int) =~= rest);
    assert((seq![blank] + rest).drop_first() =~= rest);
    assert((seq![blank] + rest)[0] == blank);
}

/// A GPU's config is found under its address on the bus.
pub proof fn law_config_stands_below_the_address(addr: Seq<u8>, tail: Seq<u8>)
    requires
        forall|i: int| 0 <= i < addr.len() ==> #[trigger] addr[i] != 0,
    ensures
        spec_config_path(addr + seq![0u8] + tail) == "bus/pci/devices/"@ + spec_lossy(addr)
            + "/config"@,
{
    lemma_until_nul(addr, tail);
}

/// Each capability is asked for by its own name, in whatever case and with white space around it; no
/// other name is one.
pub proof fn law_capabilities_have_names(name: Seq<char>)
    ensures
        spec_capability(name) == Some(Capability::Utility) <==> plain_name(name) == "utility"@,
        spec_capability(name) == Some(Capability::Compute) <==> plain_name(name) == "compute"@,
        spec_capability(name) == Some(Capability::Graphics) <==> plain_name(name) == "graphics"@,
        spec_capability(name) == Some(Capability::Video) <==> plain_name(name) == "video"@,
{
    reveal_strlit("utility");
    reveal_strlit("compute");
    reveal_strlit("graphics");
    reveal_strlit("video");
    let n = plain_name(name);
    assert("utility"@.len() == 7 && "compute"@.len() == 7 && "graphics"@.len() == 8
        && "video"@.len() == 5);
    assert("utility"@[0] != "compute"@[0]);
    assert(n =~= "compute"@ ==> n == "compute"@);
    assert(n =~= "graphics"@ ==> n == "graphics"@);
    assert(n =~= "video"@ ==> n == "video"@);
}

/// A plain name has no capital letter, and is otherwise as it was written.
pub proof fn law_plain_names_are_lower_case(name: Seq<char>, i: int)
    requires
        0 <= i < plain_name(name).len(),
    ensures
        plain_name(name).len() == trimmed(name).len(),
        ({
            let c = trimmed(name)[i];
            plain_name(name)[i] == if 'A' <= c <= 'Z' {
                (c as int + 32) as char
            } else {
                c
            }
        }),
{
}

/// The version of a library is what stands behind `.so.` in its name.
pub proof fn law_library_names_end_in_a_version(base: Seq<char>, v: Seq<char>)
    requires
        version_shaped(v),
    ensures
        version_in_name(base + ".so."@ + v) == Some(v),
    decreases base.len(),
{
    reveal_strlit(".so.");
    let name = base + ".so."@ + v;
    assert(".so."@ =~= seq!['.', 's', 'o', '.']);
    if base.len() == 0 {
        assert(name.take(4) =~= ".so."@);
        assert(name.skip(4) =~= v);
    } else {
        let less = base.drop_first();
        assert(name.drop_first() =~= less + ".so."@ + v);
        law_library_names_end_in_a_version(less, v);
        if name.take(4) == ".so."@ && version_shaped(name.skip(4)) {
            let rest = name.skip(4);
            let at = base.len() as int + 1 - 4;
            law_versions_hold_digits_and_dots(rest);
            if at >= 0 {
                assert(rest[at] == name[base.len() as int + 1]);
                assert(rest[at] == 's');
            } else {
                assert(name.take(4)[1] == name[1] && name.take(4)[2] == name[2] && name.take(4)[3]
                    == name[3]);
                assert(name[base.len() as int] == '.' && name[base.len() as int + 1] == 's');
            }
        }
    }
}

/// A name without `.so.` gives no version.
pub proof fn law_other_names_have_no_version(name: Seq<char>)
    requires
        forall|i: int| 0 <= i <= name.len() - 4 ==> #[trigger] name.subrange(i, i + 4) != ".so."@,
    ensures
        version_in_name(name) is None,
    decreases name.len(),
{
    if name.len() >= 4 {
        assert(name.subrange(0, 4) =~= name.take(4));
        let rest = name.drop_first();
        assert forall|i: int| 0 <= i <= rest.len() - 4 implies #[trigger] rest.subrange(i, i + 4)
            != ".so."@ by {
            assert(rest.subrange(i, i + 4) =~= name.subrange(i + 1, i + 1 + 4));
        }
        law_other_names_have_no_version(rest);
    }
}

} // verus!
