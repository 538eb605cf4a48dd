//! NVIDIA driver versions.
use crate::text::{
    all_digits, chars_of, decimal, digits_value, is_space, lemma_decimal, push_decimal, read_u32,
    spec_is_space, spec_read_u32,
};
use vstd::prelude::*;
use vstd::string::StringExecFns;

verus! {

/// A parsed NVIDIA driver version, e.g. `535.129.03`.
#[derive(Clone, Copy, Debug, PartialEq, Eq, Hash, PartialOrd, Ord, Structural)]
pub struct DriverVersion {
    pub major: u32,
    pub minor: u32,
    pub patch: u32,
}

/// `s` without the white space at either end.
pub open spec fn trimmed(s: Seq<char>) -> Seq<char>
    decreases s.len(),
{
    if s.len() > 0 && spec_is_space(s[0]) {
        trimmed(s.drop_first())
    } else if s.len() > 0 && spec_is_space(s.last()) {
        trimmed(s.drop_last())
    } else {
        s
    }
}

/// Where the first `c` stands, or the length.
pub open spec fn first_index(s: Seq<char>, c: char) -> int
    decreases s.len(),
{
    if s.len() == 0 || s[0] == c {
        0
    } else {
        1 + first_index(s.drop_first(), c)
    }
}

impl DriverVersion {
    /// What `text` says: three numbers with a dot between each two.
    pub open spec fn spec_parse(text: Seq<char>) -> Option<DriverVersion> {
        let t = trimmed(text);
        let i = first_index(t, '.');
        let rest = t.skip(i + 1);
        let j = first_index(rest, '.');
        if i >= t.len() || j >= rest.len() {
            None
        } else {
            match (spec_read_u32(t.take(i)), spec_read_u32(rest.take(j)), spec_read_u32(
                rest.skip(j + 1),
            )) {
                (Some(major), Some(minor), Some(patch)) => Some(
                    DriverVersion { major, minor, patch },
                ),
                _ => None,
            }
        }
    }

    /// The version as text, the patch with at least two digits.
    pub open spec fn text(self) -> Seq<char> {
        decimal(self.major as nat) + seq!['.'] + decimal(self.minor as nat) + seq!['.'] + (
        if self.patch < 10 {
            seq!['0']
        } else {
            Seq::empty()
        }) + decimal(self.patch as nat)
    }

    /// `self` is the same version as `other`, or a later one.
    pub open spec fn spec_at_least(self, other: DriverVersion) -> bool {
        ||| self.major > other.major
        ||| self.major == other.major && self.minor > other.minor
        ||| self.major == other.major && self.minor == other.minor && self.patch >= other.patch
    }

    pub fn new(major: u32, minor: u32, patch: u32) -> (r: Self)
        ensures
            r == (DriverVersion { major, minor, patch }),
    {
        DriverVersion { major, minor, patch }
    }

    pub fn at_least(self, other: DriverVersion) -> (r: bool)
        ensures
            r == self.spec_at_least(other),
    {
        self.major > other.major || (self.major == other.major && (self.minor > other.minor || (
        self.minor == other.minor && self.patch >= other.patch)))
    }

    /// Parse from the string returned by `NV_ESC_CHECK_VERSION_STR`, such as `535.129.03`.
    pub fn parse(s: &str) -> (r: Option<Self>)
        ensures
            r == Self::spec_parse(s@),
    {
        let all: Vec<char> = chars_of(s);
        let t: Vec<char> = trim(&all);
        let i: usize = find(&t, 0, '.');
        assert(t@.skip(0) =~= t@);
        if i >= t.len() {
            return None;
        }
        let j: usize = find(&t, i + 1, '.');
        let ghost rest = t@.skip(i + 1);
        if j >= t.len() {
            return None;
        }
        assert(t@.subrange(0, i as int) =~= t@.take(i as int));
        assert(t@.subrange(i + 1, j as int) =~= rest.take(j - i - 1));
        assert(t@.subrange(j + 1, t@.len() as int) =~= rest.skip(j - i - 1 + 1));
        let major: Option<u32> = read_u32(&t, 0, i);
        let minor: Option<u32> = read_u32(&t, i + 1, j);
        let patch: Option<u32> = read_u32(&t, j + 1, t.len());
        match (major, minor, patch) {
            (Some(major), Some(minor), Some(patch)) => Some(DriverVersion { major, minor, patch }),
            _ => None,
        }
    }

    pub fn to_string(&self) -> (r: String)
        ensures
            r@ == self.text(),
    {
        let mut out: String = String::new();
        push_decimal(&mut out, self.major as u64);
        out.push('.');
        push_decimal(&mut out, self.minor as u64);
        out.push('.');
        if self.patch < 10 {
            out.push('0');
        }
        push_decimal(&mut out, self.patch as u64);
        assert(out@ =~= self.text());
        out
    }
}

/// `s` without the white space at either end.
pub(crate) fn trim(s: &Vec<char>) -> (r: Vec<char>)
    ensures
        r@ == trimmed(s@),
{
    let mut lo: usize = 0;
    let mut hi: usize = s.len();
    assert(s@.subrange(0, hi as int) =~= s@);
    while lo < hi && is_space(s[lo])
        invariant
            lo <= hi == s@.len(),
            trimmed(s@.subrange(lo as int, hi as int)) == trimmed(s@),
        decreases hi - lo,
    {
        assert(s@.subrange(lo as int, hi as int).drop_first() =~= s@.subrange(lo + 1, hi as int));
        lo = lo + 1;
    }
    while lo < hi && is_space(s[hi - 1])
        invariant
            lo <= hi <= s@.len(),
            lo < hi ==> !spec_is_space(s@[lo as int]),
            trimmed(s@.subrange(lo as int, hi as int)) == trimmed(s@),
        decreases hi - lo,
    {
        let ghost cur = s@.subrange(lo as int, hi as int);
        assert(cur.drop_last() =~= s@.subrange(lo as int, hi - 1));
        assert(cur[0] == s@[lo as int]);
        assert(cur.last() == s@[hi - 1]);
        hi = hi - 1;
    }
    let mut r: Vec<char> = Vec::new();
    let mut k: usize = lo;
    while k < hi
        invariant
            lo <= k <= hi <= s@.len(),
            r@ == s@.subrange(lo as int, k as int),
        decreases hi - k,
    {
        r.push(s[k]);
        k = k + 1;
        assert(r@ =~= s@.subrange(lo as int, k as int));
    }
    assert(r@.len() > 0 ==> r@[0] == s@[lo as int] && r@.last() == s@[hi - 1]);
    r
}

fn find(s: &Vec<char>, from: usize, c: char) -> (r: usize)
    requires
        from <= s@.len(),
    ensures
        r == from + first_index(s@.skip(from as int), c),
        from <= r <= s@.len(),
        r < s@.len() ==> s@[r as int] == c,
{
    let mut i: usize = from;
    while i < s.len() && s[i] != c
        invariant
            from <= i <= s@.len(),
            from + first_index(s@.skip(from as int), c) == i + first_index(s@.skip(i as int), c),
        decreases s.len() - i,
    {
        assert(s@.skip(i as int).drop_first() =~= s@.skip(i + 1));
        i = i + 1;
    }
    i
}

/// The text of a version parses as that version.
pub proof fn law_version_text_parses(v: DriverVersion)
    ensures
        DriverVersion::spec_parse(v.text()) == Some(v),
{
    let a = decimal(v.major as nat);
    let b = decimal(v.minor as nat);
    let p = decimal(v.patch as nat);
    let c = if v.patch < 10 {
        seq!['0'] + p
    } else {
        p
    };
    lemma_decimal(v.major as nat);
    lemma_decimal(v.minor as nat);
    lemma_decimal(v.patch as nat);
    let t = v.text();
    let rest = b + seq!['.'] + c;
    assert(t =~= a + seq!['.'] + rest);
    assert(t[0] == a[0]);
    assert(t.last() == p.last());
    assert(trimmed(t) == t);
    lemma_first_dot(a, rest);
    assert(t.take(a.len() as int) =~= a);
    assert(t.skip(a.len() as int + 1) =~= rest);
    lemma_first_dot(b, c);
    assert(rest.take(b.len() as int) =~= b);
    assert(rest.skip(b.len() as int + 1) =~= c);
    assert(a[0] != '+' && b[0] != '+' && c[0] != '+');
    assert(digits_value(c) == v.patch) by {
        if v.patch < 10 {
            assert(p.len() == 1);
            assert(c.drop_last() =~= seq!['0']);
            assert(seq!['0'].drop_last() =~= Seq::<char>::empty());
            assert(digits_value(seq!['0']) == 0) by {
                reveal_with_fuel(digits_value, 2);
            }
            assert(c.last() == p.last());
            assert(p.drop_last() =~= Seq::<char>::empty());
        }
    }
}

/// The first dot behind digits is the one that follows them.
proof fn lemma_first_dot(a: Seq<char>, b: Seq<char>)
    requires
        all_digits(a),
    ensures
        first_index(a + seq!['.'] + b, '.') == a.len(),
    decreases a.len(),
{
    let t = a + seq!['.'] + b;
    if a.len() == 0 {
        assert(t[0] == '.');
    } else {
        assert(t[0] == a[0]);
        assert(t.drop_first() =~= a.drop_first() + seq!['.'] + b);
        lemma_first_dot(a.drop_first(), b);
    }
}

} // verus!
