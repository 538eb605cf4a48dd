//! What any run of allocations and releases does to the window.
use crate::cycle::{law_no_order_fragments, lemma_taken};
use crate::error::Result;
use crate::regions::{apart, in_use};
use crate::shm::{allocated, freed, PgprotKind, ShmAllocator, ShmRegion};
use crate::zone::{
    first_fit, largest_len, lemma_take_front, span, take_front, total_len, PAGE_SIZE,
};
use vstd::prelude::*;

verus! {

/// One call of a run.
pub enum Call {
    /// `allocate`, and what it returned.
    Allocate { length: u64, pgprot: PgprotKind, result: Result<ShmRegion> },
    /// `free` of the live region that stands at `at`, and what it returned.
    Free { at: int, result: Result<()> },
}

/// The regions that these calls took and did not give back, oldest first.
pub open spec fn live(calls: Seq<Call>) -> Seq<ShmRegion>
    decreases calls.len(),
{
    if calls.len() == 0 {
        Seq::empty()
    } else {
        let before = live(calls.drop_last());
        match calls.last() {
            Call::Allocate { result: Ok(region), .. } => before.push(region),
            Call::Allocate { result: Err(_), .. } => before,
            Call::Free { at, .. } => before.remove(at),
        }
    }
}

/// Whether the call leads from `pre` to `post`, where `held` are the live regions before it.
pub open spec fn leads(call: Call, pre: ShmAllocator, held: Seq<ShmRegion>, post: ShmAllocator) -> bool {
    match call {
        Call::Allocate { length, pgprot, result } => allocated(pre, length, pgprot, post, result),
        Call::Free { at, result } => 0 <= at < held.len() && freed(pre, held[at], post, result),
    }
}

/// `states` are those that an allocator goes through with these calls.
pub open spec fn history(states: Seq<ShmAllocator>, calls: Seq<Call>) -> bool {
    &&& states.len() == calls.len() + 1
    &&& states[0].page_aligned()
    &&& forall|i: int| 0 <= i < states.len() ==> (#[trigger] states[i]).wf()
    &&& forall|i: int|
        0 <= i < calls.len() ==> leads(
            #[trigger] calls[i],
            states[i],
            live(calls.take(i)),
            states[i + 1],
        )
}

/// The offsets of the zone of `k` that `regions` take.
pub open spec fn bytes_in(regions: Seq<ShmRegion>, k: PgprotKind) -> Set<int> {
    Set::new(
        |x: int|
            exists|i: int|
                0 <= i < regions.len() && #[trigger] regions[i].pgprot == k
                    && regions[i].bytes().contains(x),
    )
}

/// How many bytes of the zone of `k` `regions` take together.
pub open spec fn held_bytes(regions: Seq<ShmRegion>, k: PgprotKind) -> int
    decreases regions.len(),
{
    if regions.len() == 0 {
        0
    } else {
        held_bytes(regions.drop_last(), k) + if regions.last().pgprot == k {
            regions.last().pages()
        } else {
            0
        }
    }
}

/// What holds of an allocator after calls that left `held` live, if it was `first` before them.
pub open spec fn kept(first: ShmAllocator, now: ShmAllocator, held: Seq<ShmRegion>) -> bool {
    &&& now.page_aligned()
    &&& now.spec_total_size() == first.spec_total_size()
    &&& apart(held)
    &&& forall|i: int| 0 <= i < held.len() ==> in_use(now, #[trigger] held[i])
    &&& forall|k: PgprotKind|
        {
            &&& (#[trigger] now.zone(k)).same_place(first.zone(k))
            &&& bytes_in(held, k).subset_of(first.zone(k).free_set())
            &&& now.zone(k).free_set() == first.zone(k).free_set().difference(bytes_in(held, k))
            &&& total_len(now.zone(k).free_list()) + held_bytes(held, k) == total_len(
                first.zone(k).free_list(),
            )
        }
}

/// Removing a region leaves the bytes of the others, if they share none with it.
proof fn lemma_removed(held: Seq<ShmRegion>, at: int, k: PgprotKind)
    requires
        0 <= at < held.len(),
        apart(held),
    ensures
        apart(held.remove(at)),
        bytes_in(held.remove(at), k) == (if held[at].pgprot == k {
            bytes_in(held, k).difference(held[at].bytes())
        } else {
            bytes_in(held, k)
        }),
        held[at].pgprot == k ==> held[at].bytes().subset_of(bytes_in(held, k)),
        held_bytes(held.remove(at), k) == held_bytes(held, k) - if held[at].pgprot == k {
            held[at].pages()
        } else {
            0
        },
{
    let rest = held.remove(at);
    let a = bytes_in(held, k);
    let b = bytes_in(rest, k);
    assert forall|i: int, j: int|
        #![trigger rest[i], rest[j]]
        0 <= i < j < rest.len() implies rest[i].bytes().disjoint(rest[j].bytes()) by {
        let i0 = if i < at { i } else { i + 1 };
        let j0 = if j < at { j } else { j + 1 };
        assert(rest[i] == held[i0] && rest[j] == held[j0]);
    }
    assert forall|x: int| b.contains(x) implies a.contains(x) && !(held[at].pgprot == k
        && held[at].bytes().contains(x)) by {
        let i = choose|i: int|
            0 <= i < rest.len() && #[trigger] rest[i].pgprot == k && rest[i].bytes().contains(x);
        let i0 = if i < at { i } else { i + 1 };
        assert(held[i0].pgprot == k);
        assert(held[i0].bytes().disjoint(held[at].bytes())) by {
            if i0 < at {
                assert(held[i0].bytes().disjoint(held[at].bytes()));
            } else {
                assert(held[at].bytes().disjoint(held[i0].bytes()));
            }
        }
    }
    assert forall|x: int| a.contains(x) && !(held[at].pgprot == k && held[at].bytes().contains(x))
        implies b.contains(x) by {
        let i = choose|i: int|
            0 <= i < held.len() && #[trigger] held[i].pgprot == k && held[i].bytes().contains(x);
        let i1 = if i < at { i } else { i - 1 };
        assert(rest[i1].pgprot == k);
    }
    if held[at].pgprot == k {
        assert forall|x: int| held[at].bytes().contains(x) implies a.contains(x) by {
            assert(held[at].pgprot == k);
        }
        assert(b =~= a.difference(held[at].bytes()));
    } else {
        assert(b =~= a);
    }
    lemma_held_removed(held, at, k);
}

proof fn lemma_held_removed(held: Seq<ShmRegion>, at: int, k: PgprotKind)
    requires
        0 <= at < held.len(),
    ensures
        held_bytes(held.remove(at), k) == held_bytes(held, k) - if held[at].pgprot == k {
            held[at].pages()
        } else {
            0
        },
    decreases held.len(),
{
    if at == held.len() - 1 {
        assert(held.remove(at) =~= held.drop_last());
    } else {
        lemma_held_removed(held.drop_last(), at, k);
        assert(held.remove(at).drop_last() =~= held.drop_last().remove(at));
        assert(held.remove(at).last() == held.last());
    }
}

/// A region that is added brings its bytes.
proof fn lemma_added(held: Seq<ShmRegion>, r: ShmRegion, k: PgprotKind)
    ensures
        bytes_in(held.push(r), k) == (if r.pgprot == k {
            bytes_in(held, k).union(r.bytes())
        } else {
            bytes_in(held, k)
        }),
        held_bytes(held.push(r), k) == held_bytes(held, k) + if r.pgprot == k {
            r.pages()
        } else {
            0
        },
{
    let more = held.push(r);
    let a = bytes_in(held, k);
    let b = bytes_in(more, k);
    assert(more.drop_last() =~= held);
    assert forall|x: int| a.contains(x) implies b.contains(x) by {
        let i = choose|i: int|
            0 <= i < held.len() && #[trigger] held[i].pgprot == k && held[i].bytes().contains(x);
        assert(more[i].pgprot == k);
    }
    assert forall|x: int| b.contains(x) implies a.contains(x) || (r.pgprot == k
        && r.bytes().contains(x)) by {
        let i = choose|i: int|
            0 <= i < more.len() && #[trigger] more[i].pgprot == k && more[i].bytes().contains(x);
        if i < held.len() {
            assert(held[i].pgprot == k);
        }
    }
    if r.pgprot == k {
        assert forall|x: int| r.bytes().contains(x) implies b.contains(x) by {
            assert(more[held.len() as int].pgprot == k);
        }
        assert(b =~= a.union(r.bytes()));
    } else {
        assert(b =~= a);
    }
}

/// An allocation keeps what holds of a run.
proof fn lemma_allocate_keeps(
    first: ShmAllocator,
    pre: ShmAllocator,
    held: Seq<ShmRegion>,
    length: u64,
    pgprot: PgprotKind,
    post: ShmAllocator,
    r: ShmRegion,
)
    requires
        pre.wf(),
        post.wf(),
        kept(first, pre, held),
        allocated(pre, length, pgprot, post, Ok(r)),
    ensures
        kept(first, post, held.push(r)),
{
    let z0 = pre.zone(pgprot);
    let z1 = post.zone(pgprot);
    let more = held.push(r);
    lemma_taken(z0, z1, length, r.offset);
    let at = choose|i: int| #[trigger]
        first_fit(z0.free_list(), r.pages(), i) && r.offset == z0.spec_base()
            + z0.free_list()[i].start && z1.free_list() == take_front(z0.free_list(), i, r.pages());
    lemma_take_front(z0.free_list(), z0.spec_size(), at, r.pages());
    assert(z0.free_list()[at].end() <= z0.spec_size());
    assert(in_use(post, r));
    assert forall|i: int| 0 <= i < held.len() implies in_use(post, #[trigger] held[i])
        && held[i].bytes().disjoint(r.bytes()) by {
        let o = held[i];
        if o.pgprot != pgprot {
            assert(post.zone(o.pgprot) == pre.zone(o.pgprot));
        }
        assert forall|x: int| o.bytes().contains(x) implies !r.bytes().contains(x) by {
            assert(span(o.offset as int, o.pages()).contains(x));
            assert(!pre.zone(o.pgprot).free_set().contains(x));
            if r.bytes().contains(x) {
                assert(z0.free_set().contains(x));
            }
        }
        assert forall|x: int| #[trigger] span(o.offset as int, o.pages()).contains(x) implies !post.zone(
            o.pgprot,
        ).free_set().contains(x) by {
            assert(!pre.zone(o.pgprot).free_set().contains(x));
        }
    }
    assert forall|i: int| 0 <= i < more.len() implies in_use(post, #[trigger] more[i]) by {
        if i < held.len() {
            assert(more[i] == held[i]);
        }
    }
    assert(apart(more));
    assert forall|k: PgprotKind|
        {
            &&& (#[trigger] post.zone(k)).same_place(first.zone(k))
            &&& bytes_in(more, k).subset_of(first.zone(k).free_set())
            &&& post.zone(k).free_set() == first.zone(k).free_set().difference(bytes_in(more, k))
            &&& total_len(post.zone(k).free_list()) + held_bytes(more, k) == total_len(
                first.zone(k).free_list(),
            )
        } by {
        lemma_added(held, r, k);
        assert(pre.zone(k).same_place(first.zone(k)));
        if k == pgprot {
            assert(post.zone(k).free_set() =~= first.zone(k).free_set().difference(
                bytes_in(more, k),
            ));
        } else {
            assert(post.zone(k) == pre.zone(k));
        }
    }
}

/// A refused allocation keeps what holds of a run.
proof fn lemma_refusal_keeps(
    first: ShmAllocator,
    pre: ShmAllocator,
    held: Seq<ShmRegion>,
    length: u64,
    pgprot: PgprotKind,
    post: ShmAllocator,
    r: Result<ShmRegion>,
)
    requires
        kept(first, pre, held),
        allocated(pre, length, pgprot, post, r),
        r is Err,
    ensures
        kept(first, post, held),
{
    assert forall|k: PgprotKind| (#[trigger] post.zone(k)).same_place(pre.zone(k)) && post.zone(
        k,
    ).free_list() == pre.zone(k).free_list() && post.zone(k).free_set() == pre.zone(k).free_set() by {
        if k != pgprot {
            assert(post.zone(k) == pre.zone(k));
        }
        assert(post.zone(k).free_set() =~= pre.zone(k).free_set());
    }
    assert forall|i: int| 0 <= i < held.len() implies in_use(post, #[trigger] held[i]) by {
        assert(in_use(pre, held[i]));
        assert(post.zone(held[i].pgprot).same_place(pre.zone(held[i].pgprot)));
    }
    assert forall|k: PgprotKind|
        {
            &&& (#[trigger] post.zone(k)).same_place(first.zone(k))
            &&& bytes_in(held, k).subset_of(first.zone(k).free_set())
            &&& post.zone(k).free_set() == first.zone(k).free_set().difference(bytes_in(held, k))
            &&& total_len(post.zone(k).free_list()) + held_bytes(held, k) == total_len(
                first.zone(k).free_list(),
            )
        } by {
        assert(pre.zone(k).same_place(first.zone(k)));
        assert(post.zone(k).same_place(pre.zone(k)));
    }
}

/// A live region can be given back, and that keeps what holds of a run.
proof fn lemma_free_keeps(
    first: ShmAllocator,
    pre: ShmAllocator,
    held: Seq<ShmRegion>,
    at: int,
    post: ShmAllocator,
    r: Result<()>,
)
    requires
        0 <= at < held.len(),
        kept(first, pre, held),
        freed(pre, held[at], post, r),
    ensures
        r is Ok,
        kept(first, post, held.remove(at)),
{
    let gone = held[at];
    let rest = held.remove(at);
    assert(in_use(pre, gone));
    lemma_removed(held, at, gone.pgprot);
    assert forall|i: int| 0 <= i < rest.len() implies in_use(post, #[trigger] rest[i]) by {
        let i0 = if i < at { i } else { i + 1 };
        let o = held[i0];
        assert(rest[i] == o);
        assert(in_use(pre, o));
        assert(gone.bytes().disjoint(o.bytes())) by {
            if i0 < at {
                assert(held[i0].bytes().disjoint(held[at].bytes()));
            } else {
                assert(held[at].bytes().disjoint(held[i0].bytes()));
            }
        }
        if o.pgprot != gone.pgprot {
            assert(post.zone(o.pgprot) == pre.zone(o.pgprot));
        }
        assert forall|x: int| #[trigger] span(o.offset as int, o.pages()).contains(x) implies !post.zone(
            o.pgprot,
        ).free_set().contains(x) by {
            assert(!pre.zone(o.pgprot).free_set().contains(x));
            assert(o.bytes().contains(x));
            assert(!gone.bytes().contains(x));
        }
    }
    assert forall|k: PgprotKind|
        {
            &&& (#[trigger] post.zone(k)).same_place(first.zone(k))
            &&& bytes_in(rest, k).subset_of(first.zone(k).free_set())
            &&& post.zone(k).free_set() == first.zone(k).free_set().difference(bytes_in(rest, k))
            &&& total_len(post.zone(k).free_list()) + held_bytes(rest, k) == total_len(
                first.zone(k).free_list(),
            )
        } by {
        lemma_removed(held, at, k);
        assert(pre.zone(k).same_place(first.zone(k)));
        if k == gone.pgprot {
            assert(post.zone(k).free_set() =~= first.zone(k).free_set().difference(
                bytes_in(rest, k),
            ));
        } else {
            assert(post.zone(k) == pre.zone(k));
        }
    }
}

/// The first calls of a run are a run.
proof fn lemma_prefix(states: Seq<ShmAllocator>, calls: Seq<Call>, n: int)
    requires
        history(states, calls),
        0 <= n <= calls.len(),
    ensures
        history(states.take(n + 1), calls.take(n)),
{
    let s = states.take(n + 1);
    let c = calls.take(n);
    assert forall|i: int| 0 <= i < c.len() implies leads(
        #[trigger] c[i],
        s[i],
        live(c.take(i)),
        s[i + 1],
    ) by {
        assert(c[i] == calls[i]);
        assert(c.take(i) =~= calls.take(i));
    }
}

/// What holds of a run, by induction over its calls.
proof fn lemma_history(states: Seq<ShmAllocator>, calls: Seq<Call>)
    requires
        history(states, calls),
    ensures
        kept(states[0], states.last(), live(calls)),
        calls.len() > 0 && calls.last() is Free ==> calls.last()->Free_result is Ok,
    decreases calls.len(),
{
    let first = states[0];
    if calls.len() == 0 {
        assert forall|k: PgprotKind|
            {
                &&& (#[trigger] first.zone(k)).same_place(first.zone(k))
                &&& bytes_in(live(calls), k).subset_of(first.zone(k).free_set())
                &&& first.zone(k).free_set() == first.zone(k).free_set().difference(
                    bytes_in(live(calls), k),
                )
                &&& total_len(first.zone(k).free_list()) + held_bytes(live(calls), k) == total_len(
                    first.zone(k).free_list(),
                )
            } by {
            assert(bytes_in(live(calls), k) =~= Set::<int>::empty());
            assert(first.zone(k).free_set() =~= first.zone(k).free_set().difference(
                bytes_in(live(calls), k),
            ));
        }
    } else {
        let n = calls.len() - 1;
        lemma_prefix(states, calls, n);
        lemma_history(states.take(n + 1), calls.take(n));
        let pre = states[n];
        let post = states[n + 1];
        let held = live(calls.take(n));
        assert(calls.take(n) =~= calls.drop_last());
        assert(leads(calls[n], pre, held, post));
        assert(states[n].wf() && states[n + 1].wf());
        match calls[n] {
            Call::Allocate { length, pgprot, result } => {
                match result {
                    Ok(r) => {
                        lemma_allocate_keeps(first, pre, held, length, pgprot, post, r);
                    },
                    Err(_) => {
                        lemma_refusal_keeps(first, pre, held, length, pgprot, post, result);
                    },
                }
            },
            Call::Free { at, result } => {
                lemma_free_keeps(first, pre, held, at, post, result);
            },
        }
    }
}

/// After any run of allocations and of releases of live regions, from whatever state: the live
/// regions share no byte, each begins on a page and lies wholly in its zone with none of its bytes
/// free, and what is free in a zone and what is held of it make up what was free at first.
pub proof fn law_live_regions_are_apart(states: Seq<ShmAllocator>, calls: Seq<Call>)
    requires
        history(states, calls),
    ensures
        forall|i: int, j: int|
            #![trigger live(calls)[i], live(calls)[j]]
            0 <= i < j < live(calls).len() ==> live(calls)[i].bytes().disjoint(
                live(calls)[j].bytes(),
            ),
        forall|i: int|
            0 <= i < live(calls).len() ==> {
                let r = #[trigger] live(calls)[i];
                let z = states.last().zone(r.pgprot);
                &&& r.offset as int % PAGE_SIZE as int == 0
                &&& z.spec_base() <= r.offset
                &&& r.offset + r.pages() <= z.spec_base() + z.spec_size()
                &&& r.bytes().disjoint(z.free_set())
            },
        forall|k: PgprotKind|
            {
                &&& (#[trigger] states.last().zone(k)).same_place(states[0].zone(k))
                &&& total_len(states.last().zone(k).free_list()) + held_bytes(live(calls), k)
                    == total_len(states[0].zone(k).free_list())
            },
{
    lemma_history(states, calls);
    let now = states.last();
    assert forall|i: int| 0 <= i < live(calls).len() implies {
        let r = #[trigger] live(calls)[i];
        let z = now.zone(r.pgprot);
        &&& r.offset as int % PAGE_SIZE as int == 0
        &&& z.spec_base() <= r.offset
        &&& r.offset + r.pages() <= z.spec_base() + z.spec_size()
        &&& r.bytes().disjoint(z.free_set())
    } by {
        let r = live(calls)[i];
        assert(in_use(now, r));
        assert forall|x: int| r.bytes().contains(x) implies !now.zone(r.pgprot).free_set().contains(
            x,
        ) by {
            assert(span(r.offset as int, r.pages()).contains(x));
        }
    }
}

/// From a new window on, what is free in a zone and what is held of it make up the zone.
pub proof fn law_free_and_held_make_up_the_zone(
    states: Seq<ShmAllocator>,
    calls: Seq<Call>,
    k: PgprotKind,
)
    requires
        history(states, calls),
        states[0].zone(k).fresh(states[0].zone(k).spec_base(), states[0].zone(k).spec_size()),
    ensures
        total_len(states.last().zone(k).free_list()) + held_bytes(live(calls), k)
            == states[0].zone(k).spec_size(),
{
    lemma_history(states, calls);
    let z = states[0].zone(k);
    assert(states[0].wf());
    assert(z.wf());
    assert(states.last().zone(k).same_place(z));
    if z.spec_size() > 0 {
        assert(z.free_list().drop_last() =~= Seq::empty());
        assert(total_len(z.free_list().drop_last()) == 0);
    }
}

/// Every release of a live region is granted, at whatever point of a run.
pub proof fn law_live_regions_can_be_freed(states: Seq<ShmAllocator>, calls: Seq<Call>, i: int)
    requires
        history(states, calls),
        0 <= i < calls.len(),
        calls[i] is Free,
    ensures
        calls[i]->Free_result is Ok,
{
    lemma_prefix(states, calls, i + 1);
    lemma_history(states.take(i + 2), calls.take(i + 1));
}

/// A run that gives back all that it took leaves no trace, from whatever state it began: every zone
/// has the free list it had, so as much is free and as much in one piece.
pub proof fn law_completed_history_leaves_no_trace(states: Seq<ShmAllocator>, calls: Seq<Call>)
    requires
        history(states, calls),
        live(calls).len() == 0,
    ensures
        forall|k: PgprotKind|
            {
                let before = states[0].zone(k).free_list();
                let after = (#[trigger] states.last().zone(k)).free_list();
                &&& after == before
                &&& total_len(after) == total_len(before)
                &&& largest_len(after) == largest_len(before)
            },
{
    lemma_history(states, calls);
    assert forall|k: PgprotKind| (#[trigger] states.last().zone(k)).free_list()
        == states[0].zone(k).free_list() by {
        let a = states.last().zone(k);
        let b = states[0].zone(k);
        assert(states.last().wf() && states[0].wf());
        assert(a.same_place(b));
        assert(bytes_in(live(calls), k) =~= Set::<int>::empty());
        assert(a.free_set() =~= b.free_set());
        law_no_order_fragments(a, b);
    }
}

/// An allocation, granted or refused, leaves the other zones as they were.
pub proof fn law_zones_do_not_share(
    pre: ShmAllocator,
    length: u64,
    pgprot: PgprotKind,
    post: ShmAllocator,
    r: Result<ShmRegion>,
    k: PgprotKind,
)
    requires
        allocated(pre, length, pgprot, post, r),
        k != pgprot,
    ensures
        total_len(post.zone(k).free_list()) == total_len(pre.zone(k).free_list()),
        largest_len(post.zone(k).free_list()) == largest_len(pre.zone(k).free_list()),
{
    assert(post.zone(k) == pre.zone(k));
}

} // verus!
