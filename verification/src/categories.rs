//! A set of the driver's category names.
use crate::files::{
    lemma_lex_antisymmetric, lemma_lex_total, lemma_lex_transitive, lex_le, not_after,
};
use crate::text::same_text;
use vstd::prelude::*;
use vstd::utf8::{encode_utf8, encode_utf8_decode_utf8};

verus! {

/// Category names in order, none of them twice.
#[derive(Debug, Clone, PartialEq, Eq)]
pub struct Categories {
    names: Vec<String>,
}

impl Categories {
    pub closed spec fn list(&self) -> Seq<Seq<char>> {
        crate::paths::texts(self.names@)
    }

    pub closed spec fn view(&self) -> Set<Seq<char>> {
        Set::new(|t: Seq<char>| self.list().contains(t))
    }

    /// The names stand in the order of their bytes, and no two are the same.
    pub open spec fn wf(&self) -> bool {
        forall|i: int, j: int|
            #![trigger self.list()[i], self.list()[j]]
            0 <= i < j < self.list().len() ==> self.list()[i] != self.list()[j] && lex_le(
                encode_utf8(self.list()[i]),
                encode_utf8(self.list()[j]),
            )
    }

    pub fn new() -> (r: Self)
        ensures
            r.wf(),
            r.list() == Seq::<Seq<char>>::empty(),
            r@ == Set::<Seq<char>>::empty(),
    {
        let r = Categories { names: Vec::new() };
        assert(r.list() =~= Seq::<Seq<char>>::empty());
        assert(r@ =~= Set::<Seq<char>>::empty());
        r
    }

    pub fn len(&self) -> (r: usize)
        ensures
            r == self.list().len(),
    {
        self.names.len()
    }

    pub fn contains(&self, name: &str) -> (r: bool)
        ensures
            r == self@.contains(name@),
    {
        let mut i: usize = 0;
        while i < self.names.len()
            invariant
                i <= self.names@.len(),
                forall|j: int| 0 <= j < i ==> self.list()[j] != name@,
            decreases self.names.len() - i,
        {
            assert(self.list()[i as int] == self.names@[i as int]@);
            if same_text(self.names[i].as_str(), name) {
                assert(self.list().contains(name@));
                return true;
            }
            i = i + 1;
        }
        assert(self.list().len() == self.names@.len());
        false
    }

    /// Add a name. Returns false if it was there.
    pub fn insert(&mut self, name: String) -> (r: bool)
        requires
            old(self).wf(),
        ensures
            final(self).wf(),
            final(self)@ == old(self)@.insert(name@),
            r == !old(self)@.contains(name@),
    {
        let ghost list = self.list();
        let ghost t = name@;
        let mut p: usize = 0;
        while p < self.names.len() && !not_after(name.as_str().as_bytes(), self.names[p].as_str().as_bytes())
            invariant
                p <= self.names@.len(),
                list == self.list(),
                t == name@,
                *self == *old(self),
                forall|j: int| 0 <= j < p ==> !lex_le(encode_utf8(t), encode_utf8(#[trigger] list[j])),
            decreases self.names.len() - p,
        {
            assert(list[p as int] == self.names@[p as int]@);
            p = p + 1;
        }
        if p < self.names.len() {
            assert(list[p as int] == self.names@[p as int]@);
            if same_text(self.names[p].as_str(), name.as_str()) {
                assert(list.contains(t));
                assert(self@ =~= old(self)@.insert(t));
                return false;
            }
        }
        self.names.insert(p, name);
        proof {
            let after = self.list();
            assert(after =~= list.insert(p as int, t));
            assert forall|j: int| 0 <= j < list.len() implies #[trigger] list[j] != t by {
                lemma_lex_antisymmetric(encode_utf8(t), encode_utf8(t));
                if j > p && list[j] == t {
                    assert(lex_le(encode_utf8(list[p as int]), encode_utf8(list[j])));
                    lemma_lex_antisymmetric(encode_utf8(t), encode_utf8(list[p as int]));
                    encode_utf8_decode_utf8(t);
                    encode_utf8_decode_utf8(list[p as int]);
                }
            }
            assert forall|i: int, j: int|
                #![trigger after[i], after[j]]
                0 <= i < j < after.len() implies after[i] != after[j] && lex_le(
                encode_utf8(after[i]),
                encode_utf8(after[j]),
            ) by {
                let i0 = if i < p { i } else { i - 1 };
                let j0 = if j < p { j } else { j - 1 };
                if i == p {
                    assert(after[j] == list[j0]);
                    if j0 > p {
                        assert(lex_le(encode_utf8(list[p as int]), encode_utf8(list[j0])));
                        lemma_lex_transitive(
                            encode_utf8(t),
                            encode_utf8(list[p as int]),
                            encode_utf8(list[j0]),
                        );
                    }
                } else if j == p {
                    assert(after[i] == list[i]);
                    lemma_lex_total(encode_utf8(t), encode_utf8(list[i]));
                } else {
                    assert(after[i] == list[i0] && after[j] == list[j0]);
                }
            }
            assert forall|x: Seq<char>| after.contains(x) <==> list.contains(x) || x == t by {
                if list.contains(x) {
                    let j = choose|j: int| 0 <= j < list.len() && list[j] == x;
                    let j1 = if j < p { j } else { j + 1 };
                    assert(after[j1] == x);
                }
                if x == t {
                    assert(after[p as int] == t);
                }
                if after.contains(x) && x != t {
                    let j = choose|j: int| 0 <= j < after.len() && after[j] == x;
                    let j0 = if j < p { j } else { j - 1 };
                    assert(list[j0] == x);
                }
            }
            assert(self@ =~= old(self)@.insert(t));
            assert(!list.contains(t));
        }
        true
    }

    /// Add every name of `other`.
    pub fn extend(&mut self, other: &Categories)
        requires
            old(self).wf(),
        ensures
            final(self).wf(),
            final(self)@ == old(self)@.union(other@),
    {
        let mut i: usize = 0;
        let ghost names = other.list();
        assert(self@ =~= old(self)@.union(names.take(0).to_set()));
        while i < other.names.len()
            invariant
                i <= other.names@.len(),
                names == other.list(),
                self.wf(),
                self@ == old(self)@.union(names.take(i as int).to_set()),
            decreases other.names.len() - i,
        {
            assert(names[i as int] == other.names@[i as int]@);
            let name: String = other.names[i].clone();
            self.insert(name);
            proof {
                let a = names.take(i as int);
                let b = names.take(i + 1);
                assert(b =~= a.push(names[i as int]));
                assert forall|x: Seq<char>| #[trigger] b.to_set().contains(x) <==> a.to_set().contains(x) || x
                    == names[i as int] by {
                    if a.contains(x) {
                        let j = choose|j: int| 0 <= j < a.len() && a[j] == x;
                        assert(b[j] == x);
                    }
                    assert(b[i as int] == names[i as int]);
                }
                assert(self@ =~= old(self)@.union(b.to_set()));
            }
            i = i + 1;
        }
        assert(names.len() == other.names@.len());
        assert(names.take(i as int) =~= names);
        assert(self@ =~= old(self)@.union(other@));
    }

    /// The same set once more.
    pub fn copy(&self) -> (r: Self)
        requires
            self.wf(),
        ensures
            r.wf(),
            r@ == self@,
    {
        let mut r: Categories = Categories::new();
        r.extend(self);
        assert(r@ =~= self@);
        r
    }
}

} // verus!
