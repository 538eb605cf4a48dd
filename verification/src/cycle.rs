//! What a run of allocations and releases leaves behind.
use crate::zone::{
    covered, first_fit, first_fit_taken, largest_len, law_free_list_is_canonical,
    lemma_take_front, round_up, span, take_front, total_len, Zone, PAGE_SIZE,
};
use vstd::prelude::*;

verus! {

/// One step of a run.
pub enum Use {
    /// `length` bytes were asked for and given out at `offset`.
    Take { length: u64, offset: u64 },
    /// `length` bytes at `offset` were given back.
    Give { length: u64, offset: u64 },
}

impl Use {
    /// The offsets that the step moves.
    pub open spec fn bytes(self) -> Set<int> {
        match self {
            Use::Take { length, offset } => span(
                offset as int,
                round_up(length as int, PAGE_SIZE as int),
            ),
            Use::Give { length, offset } => span(
                offset as int,
                round_up(length as int, PAGE_SIZE as int),
            ),
        }
    }

    /// Whether the step, as the zone carries it out, leads from `before` to `after`.
    pub open spec fn leads(self, before: Zone, after: Zone) -> bool {
        &&& after.same_place(before)
        &&& match self {
            Use::Take { length, offset } => first_fit_taken(
                before.free_list(),
                after.free_list(),
                round_up(length as int, PAGE_SIZE as int),
                before.spec_base(),
                Some(offset),
            ),
            Use::Give { length, offset } => {
                &&& before.returnable(offset as int, round_up(length as int, PAGE_SIZE as int))
                &&& after.free_set() == before.free_set().union(self.bytes())
            },
        }
    }
}

/// `zones` are the states that a zone goes through with these steps.
pub open spec fn run(zones: Seq<Zone>, steps: Seq<Use>) -> bool {
    &&& zones.len() == steps.len() + 1
    &&& forall|i: int| 0 <= i < zones.len() ==> (#[trigger] zones[i]).wf()
    &&& forall|i: int| 0 <= i < steps.len() ==> (#[trigger] steps[i]).leads(zones[i], zones[i + 1])
}

/// The offsets that are held after these steps, if none was before them.
pub open spec fn held(steps: Seq<Use>) -> Set<int>
    decreases steps.len(),
{
    if steps.len() == 0 {
        Set::empty()
    } else {
        let before = held(steps.drop_last());
        match steps.last() {
            Use::Take { .. } => before.union(steps.last().bytes()),
            Use::Give { .. } => before.difference(steps.last().bytes()),
        }
    }
}

/// Zones at one place with the same free bytes have the same free list: in whatever order they
/// came free, nothing stays fragmented.
pub proof fn law_no_order_fragments(a: Zone, b: Zone)
    requires
        a.wf(),
        b.wf(),
        a.same_place(b),
        a.free_set() == b.free_set(),
    ensures
        a.free_list() == b.free_list(),
        total_len(a.free_list()) == total_len(b.free_list()),
        largest_len(a.free_list()) == largest_len(b.free_list()),
{
    assert forall|x: int| #[trigger] covered(a.free_list(), x) <==> covered(b.free_list(), x) by {
        assert(a.free_set().contains(x + a.spec_base()) <==> covered(a.free_list(), x));
        assert(b.free_set().contains(x + a.spec_base()) <==> covered(b.free_list(), x));
    }
    law_free_list_is_canonical(a.free_list(), b.free_list(), a.spec_size());
}

/// In a run that begins with the whole zone free, every offset is at every moment either free or
/// held, and never both.
pub proof fn law_every_byte_is_accounted_for(zones: Seq<Zone>, steps: Seq<Use>)
    requires
        run(zones, steps),
        zones[0].fresh(zones[0].spec_base(), zones[0].spec_size()),
    ensures
        zones.last().same_place(zones[0]),
        zones.last().free_set().disjoint(held(steps)),
        zones.last().free_set().union(held(steps)) == span(
            zones[0].spec_base(),
            zones[0].spec_size(),
        ),
    decreases steps.len(),
{
    let z = zones[0];
    let whole = span(z.spec_base(), z.spec_size());
    if steps.len() == 0 {
        assert forall|x: int| z.free_set().contains(x) <==> whole.contains(x) by {
            if whole.contains(x) {
                assert(z.free_list()[0].has(x - z.spec_base()));
            }
        }
        assert(z.free_set().union(held(steps)) =~= whole);
    } else {
        let n = steps.len() - 1;
        let zs = zones.drop_last();
        let rest = steps.drop_last();
        assert(run(zs, rest)) by {
            assert forall|i: int| 0 <= i < rest.len() implies (#[trigger] rest[i]).leads(
                zs[i],
                zs[i + 1],
            ) by {
                assert(steps[i].leads(zones[i], zones[i + 1]));
            }
        }
        law_every_byte_is_accounted_for(zs, rest);
        let before = zones[n as int];
        let after = zones.last();
        let step = steps.last();
        assert(steps[n as int].leads(zones[n as int], zones[n + 1]));
        match step {
            Use::Take { length, offset } => {
                lemma_taken(before, after, length, offset);
            },
            Use::Give { .. } => {},
        }
        assert(after.free_set().union(held(steps)) =~= whole);
    }
}

/// What an allocation gives out was free and is no longer, and the rest stays as it was.
pub(crate) proof fn lemma_taken(before: Zone, after: Zone, length: u64, offset: u64)
    requires
        before.wf(),
        (Use::Take { length, offset }).leads(before, after),
    ensures
        ({
            let bytes = (Use::Take { length, offset }).bytes();
            &&& bytes.subset_of(before.free_set())
            &&& after.free_set() == before.free_set().difference(bytes)
        }),
{
    let bytes = (Use::Take { length, offset }).bytes();
    let want = round_up(length as int, PAGE_SIZE as int);
    let pre = before.free_list();
    let base = before.spec_base();
    let i = choose|i: int| #[trigger]
        first_fit(pre, want, i) && offset == base + pre[i].start && after.free_list() == take_front(
            pre,
            i,
            want,
        );
    lemma_take_front(pre, before.spec_size(), i, want);
    assert forall|x: int| bytes.contains(x) implies before.free_set().contains(x) by {
        assert(pre[i].has(x - base));
    }
    assert forall|x: int| after.free_set().contains(x) <==> before.free_set().contains(x)
        && !bytes.contains(x) by {
        assert(covered(after.free_list(), x - base) <==> covered(pre, x - base) && !(pre[i].start
            <= x - base < pre[i].start + want));
    }
    assert(after.free_set() =~= before.free_set().difference(bytes));
}

/// A run that ends with nothing held leaves the zone as it found it: every byte is back, in one
/// extent, however often and in whatever order they were taken and given.
pub proof fn law_completed_run_leaves_no_trace(zones: Seq<Zone>, steps: Seq<Use>)
    requires
        run(zones, steps),
        zones[0].fresh(zones[0].spec_base(), zones[0].spec_size()),
        held(steps) == Set::<int>::empty(),
    ensures
        zones.last().fresh(zones[0].spec_base(), zones[0].spec_size()),
{
    law_every_byte_is_accounted_for(zones, steps);
    law_every_byte_is_accounted_for(seq![zones[0]], Seq::empty());
    let a = zones.last();
    let b = zones[0];
    assert(a.free_set() =~= a.free_set().union(held(steps)));
    assert(b.free_set() =~= b.free_set().union(held(Seq::empty())));
    law_no_order_fragments(a, b);
}

} // verus!
