//! Collections of bodies that share a sprite, and the ways to walk them.
//!
//! The walks take the work to do on each member as a function. Whatever that
//! function promises of its result, the contracts here say to which members,
//! in which order and with which context it was applied, and what became of
//! the collection.

use crate::pairs::{comparer, lemma_pair_order_bounds, next_pair, pair_order, upcoming};
use crate::tex::Sprite;
use vstd::prelude::*;

verus! {

/// `cs` holds the context before the walk and after each member of it.
pub open spec fn visit_trace<C, T>(
    step: spec_fn(C, T, (C, T)) -> bool,
    ctx: C,
    before: Seq<T>,
    out: C,
    after: Seq<T>,
    cs: Seq<C>,
) -> bool {
    &&& cs.len() == before.len() + 1
    &&& after.len() == before.len()
    &&& cs[0] == ctx
    &&& cs[before.len() as int] == out
    &&& forall|i: int|
        0 <= i < before.len() ==> #[trigger] step(cs[i], before[i], (cs[i + 1], after[i]))
}

/// A walk from the first member to the last: `step` takes the context and a
/// member, and gives the context for the next member and what the member
/// has become. `ctx` goes in, `out` comes out, `after` is the collection
/// that was `before`.
pub open spec fn visits<C, T>(
    step: spec_fn(C, T, (C, T)) -> bool,
    ctx: C,
    before: Seq<T>,
    out: C,
    after: Seq<T>,
) -> bool {
    exists|cs: Seq<C>| #[trigger] visit_trace(step, ctx, before, out, after, cs)
}

/// The positions from `lo` on that `gone` marks, the highest first: the
/// list of indices to remove, in the order in which they can be removed
/// one by one without moving a member that is still to go.
pub open spec fn marked_from(gone: Seq<bool>, lo: int) -> Seq<usize>
    decreases gone.len() - lo,
{
    if lo < 0 || lo >= gone.len() {
        Seq::empty()
    } else if gone[lo] {
        marked_from(gone, lo + 1).push(lo as usize)
    } else {
        marked_from(gone, lo + 1)
    }
}

/// Every position that `gone` marks, the highest first.
pub open spec fn marked(gone: Seq<bool>) -> Seq<usize> {
    marked_from(gone, 0)
}

/// The members from position `lo` on that `gone` does not mark, in their order.
pub open spec fn kept_from<T>(items: Seq<T>, gone: Seq<bool>, lo: int) -> Seq<T>
    decreases items.len() - lo,
{
    if lo < 0 || lo >= items.len() {
        Seq::empty()
    } else if gone[lo] {
        kept_from(items, gone, lo + 1)
    } else {
        seq![items[lo]] + kept_from(items, gone, lo + 1)
    }
}

/// The members that `gone` does not mark, in their order.
pub open spec fn kept<T>(items: Seq<T>, gone: Seq<bool>) -> Seq<T> {
    kept_from(items, gone, 0)
}

/// `cs` holds the context after each member and before the walk, `stepped`
/// what each member has become and `gone` whether it is to go.
pub open spec fn cull_trace<C, T>(
    step: spec_fn(C, T, (C, T, bool)) -> bool,
    ctx: C,
    before: Seq<T>,
    out: C,
    after: Seq<T>,
    removed: nat,
    cs: Seq<C>,
    stepped: Seq<T>,
    gone: Seq<bool>,
) -> bool {
    &&& cs.len() == before.len() + 1
    &&& stepped.len() == before.len()
    &&& gone.len() == before.len()
    &&& cs[before.len() as int] == ctx
    &&& cs[0] == out
    &&& forall|i: int|
        0 <= i < before.len() ==> #[trigger] step(
            cs[i + 1],
            before[i],
            (cs[i], stepped[i], gone[i]),
        )
    &&& after == kept(stepped, gone)
    &&& removed == marked(gone).len()
}

/// A walk from the last member to the first that removes members: `step`
/// takes the context and a member, and gives the context for the member
/// before it, what the member has become, and whether it is to go. Those
/// that are to go leave the collection after the walk; the others stay in
/// their order. `removed` counts those that left.
pub open spec fn culls<C, T>(
    step: spec_fn(C, T, (C, T, bool)) -> bool,
    ctx: C,
    before: Seq<T>,
    out: C,
    after: Seq<T>,
    removed: nat,
) -> bool {
    exists|cs: Seq<C>, stepped: Seq<T>, gone: Seq<bool>| #[trigger]
        cull_trace(step, ctx, before, out, after, removed, cs, stepped, gone)
}

/// The members at the two positions of `pair` meet: `step` takes both and
/// gives what both have become; the others stay as they are.
pub open spec fn meets<T>(
    step: spec_fn(T, T, (T, T)) -> bool,
    before: Seq<T>,
    pair: (usize, usize),
    after: Seq<T>,
) -> bool {
    exists|r: (T, T)|
        {
            &&& #[trigger] step(before[pair.0 as int], before[pair.1 as int], r)
            &&& after == before.update(pair.0 as int, r.0).update(pair.1 as int, r.1)
        }
}

/// `states` holds the collection before the sweep and after each meeting.
pub open spec fn sweep_trace<T>(
    step: spec_fn(T, T, (T, T)) -> bool,
    before: Seq<T>,
    after: Seq<T>,
    states: Seq<Seq<T>>,
) -> bool {
    let order = pair_order(before.len());
    &&& states.len() == order.len() + 1
    &&& states[0] == before
    &&& states[order.len() as int] == after
    &&& forall|t: int|
        0 <= t < order.len() ==> #[trigger] meets(step, states[t], order[t], states[t + 1])
}

/// A sweep of a collection against itself: every two members meet once,
/// in the order of [`pair_order`], each meeting starting from what the
/// meetings before it have left.
pub open spec fn sweeps<T>(step: spec_fn(T, T, (T, T)) -> bool, before: Seq<T>, after: Seq<T>) -> bool {
    exists|states: Seq<Seq<T>>| #[trigger] sweep_trace(step, before, after, states)
}

/// Drawing the members one after the other, up to the first that fails:
/// `call` relates a member to what drawing it returned. `Ok` means that every
/// member was drawn; an error is that of the first member whose drawing
/// failed, and no member after it was tried.
pub open spec fn shown<T, E>(
    call: spec_fn(T, Result<(), E>) -> bool,
    items: Seq<T>,
    result: Result<(), E>,
) -> bool {
    match result {
        Ok(_) => forall|i: int| 0 <= i < items.len() ==> #[trigger] call(items[i], Ok(())),
        Err(e) => exists|i: int|
            {
                &&& 0 <= i < items.len()
                &&& #[trigger] call(items[i], Err(e))
                &&& forall|j: int| 0 <= j < i ==> #[trigger] call(items[j], Ok(()))
            },
    }
}

/// A walk is a walk under every step that says no more, seen through any
/// reading `view` of its context.
pub proof fn lemma_visits_through<C, D, T>(
    step: spec_fn(C, T, (C, T)) -> bool,
    seen: spec_fn(D, T, (D, T)) -> bool,
    view: spec_fn(C) -> D,
    ctx: C,
    before: Seq<T>,
    out: C,
    after: Seq<T>,
)
    requires
        visits(step, ctx, before, out, after),
        forall|c: C, obj: T, r: (C, T)| #[trigger]
            step(c, obj, r) ==> seen(view(c), obj, (view(r.0), r.1)),
    ensures
        visits(seen, view(ctx), before, view(out), after),
{
    let cs = choose|cs: Seq<C>| #[trigger] visit_trace(step, ctx, before, out, after, cs);
    let ds = Seq::new(cs.len(), |i: int| view(cs[i]));
    assert forall|i: int| 0 <= i < before.len() implies #[trigger] seen(
        ds[i],
        before[i],
        (ds[i + 1], after[i]),
    ) by {
        assert(step(cs[i], before[i], (cs[i + 1], after[i])));
    }
    assert(visit_trace(seen, view(ctx), before, view(out), after, ds));
}

/// A walk that removes is one under every step that says no more, seen
/// through any reading `view` of its context.
pub proof fn lemma_culls_through<C, D, T>(
    step: spec_fn(C, T, (C, T, bool)) -> bool,
    seen: spec_fn(D, T, (D, T, bool)) -> bool,
    view: spec_fn(C) -> D,
    ctx: C,
    before: Seq<T>,
    out: C,
    after: Seq<T>,
    removed: nat,
)
    requires
        culls(step, ctx, before, out, after, removed),
        forall|c: C, obj: T, r: (C, T, bool)| #[trigger]
            step(c, obj, r) ==> seen(view(c), obj, (view(r.0), r.1, r.2)),
    ensures
        culls(seen, view(ctx), before, view(out), after, removed),
{
    let (cs, stepped, gone) = choose|cs: Seq<C>, stepped: Seq<T>, gone: Seq<bool>| #[trigger]
        cull_trace(step, ctx, before, out, after, removed, cs, stepped, gone);
    let ds = Seq::new(cs.len(), |i: int| view(cs[i]));
    assert forall|i: int| 0 <= i < before.len() implies #[trigger] seen(
        ds[i + 1],
        before[i],
        (ds[i], stepped[i], gone[i]),
    ) by {
        assert(step(cs[i + 1], before[i], (cs[i], stepped[i], gone[i])));
    }
    assert(cull_trace(seen, view(ctx), before, view(out), after, removed, ds, stepped, gone));
}

/// A sweep is a sweep under every step that says no more.
pub proof fn lemma_sweeps_under<T>(
    step: spec_fn(T, T, (T, T)) -> bool,
    seen: spec_fn(T, T, (T, T)) -> bool,
    before: Seq<T>,
    after: Seq<T>,
)
    requires
        sweeps(step, before, after),
        forall|a: T, b: T, r: (T, T)| #[trigger] step(a, b, r) ==> seen(a, b, r),
    ensures
        sweeps(seen, before, after),
{
    let states = choose|states: Seq<Seq<T>>| #[trigger] sweep_trace(step, before, after, states);
    let order = pair_order(before.len());
    assert forall|t: int| 0 <= t < order.len() implies #[trigger] meets(
        seen,
        states[t],
        order[t],
        states[t + 1],
    ) by {
        assert(meets(step, states[t], order[t], states[t + 1]));
    }
    assert(sweep_trace(seen, before, after, states));
}

/// What every step of a walk keeps true of the context is true of the
/// context that comes out, if it was true of the one that went in.
pub proof fn lemma_visits_keep<C, T>(
    step: spec_fn(C, T, (C, T)) -> bool,
    holds: spec_fn(C) -> bool,
    ctx: C,
    before: Seq<T>,
    out: C,
    after: Seq<T>,
)
    requires
        visits(step, ctx, before, out, after),
        holds(ctx),
        forall|c: C, obj: T, r: (C, T)| holds(c) && #[trigger] step(c, obj, r) ==> holds(r.0),
    ensures
        holds(out),
{
    let cs = choose|cs: Seq<C>| #[trigger] visit_trace(step, ctx, before, out, after, cs);
    lemma_trace_keeps(step, holds, before, after, cs, before.len() as int);
}

proof fn lemma_trace_keeps<C, T>(
    step: spec_fn(C, T, (C, T)) -> bool,
    holds: spec_fn(C) -> bool,
    before: Seq<T>,
    after: Seq<T>,
    cs: Seq<C>,
    upto: int,
)
    requires
        0 <= upto <= before.len(),
        cs.len() == before.len() + 1,
        holds(cs[0]),
        forall|i: int|
            0 <= i < before.len() ==> #[trigger] step(cs[i], before[i], (cs[i + 1], after[i])),
        forall|c: C, obj: T, r: (C, T)| holds(c) && #[trigger] step(c, obj, r) ==> holds(r.0),
    ensures
        holds(cs[upto]),
    decreases upto,
{
    if upto > 0 {
        lemma_trace_keeps(step, holds, before, after, cs, upto - 1);
        assert(step(cs[upto - 1], before[upto - 1], (cs[upto - 1 + 1], after[upto - 1])));
    }
}

/// What every step of a walk that removes keeps true of the context is true
/// of the context that comes out, if it was true of the one that went in.
pub proof fn lemma_culls_keep<C, T>(
    step: spec_fn(C, T, (C, T, bool)) -> bool,
    holds: spec_fn(C) -> bool,
    ctx: C,
    before: Seq<T>,
    out: C,
    after: Seq<T>,
    removed: nat,
)
    requires
        culls(step, ctx, before, out, after, removed),
        holds(ctx),
        forall|c: C, obj: T, r: (C, T, bool)| holds(c) && #[trigger] step(c, obj, r) ==> holds(r.0),
    ensures
        holds(out),
{
    let (cs, stepped, gone) = choose|cs: Seq<C>, stepped: Seq<T>, gone: Seq<bool>| #[trigger]
        cull_trace(step, ctx, before, out, after, removed, cs, stepped, gone);
    lemma_cull_trace_keeps(step, holds, before, cs, stepped, gone, 0);
}

proof fn lemma_cull_trace_keeps<C, T>(
    step: spec_fn(C, T, (C, T, bool)) -> bool,
    holds: spec_fn(C) -> bool,
    before: Seq<T>,
    cs: Seq<C>,
    stepped: Seq<T>,
    gone: Seq<bool>,
    from: int,
)
    requires
        0 <= from <= before.len(),
        cs.len() == before.len() + 1,
        holds(cs[before.len() as int]),
        forall|i: int|
            0 <= i < before.len() ==> #[trigger] step(
                cs[i + 1],
                before[i],
                (cs[i], stepped[i], gone[i]),
            ),
        forall|c: C, obj: T, r: (C, T, bool)| holds(c) && #[trigger] step(c, obj, r) ==> holds(r.0),
    ensures
        holds(cs[from]),
    decreases before.len() - from,
{
    if from < before.len() {
        lemma_cull_trace_keeps(step, holds, before, cs, stepped, gone, from + 1);
        assert(step(cs[from + 1], before[from], (cs[from], stepped[from], gone[from])));
    }
}

proof fn lemma_marked_agree(g: Seq<bool>, h: Seq<bool>, lo: int)
    requires
        g.len() == h.len(),
        forall|i: int| lo <= i < g.len() ==> g[i] == h[i],
    ensures
        marked_from(g, lo) == marked_from(h, lo),
    decreases g.len() - lo,
{
    if 0 <= lo < g.len() {
        lemma_marked_agree(g, h, lo + 1);
    }
}

proof fn lemma_marked_facts(gone: Seq<bool>, lo: int)
    requires
        0 <= lo,
        gone.len() <= usize::MAX,
    ensures
        forall|j: int|
            0 <= j < marked_from(gone, lo).len() ==> lo <= (#[trigger] marked_from(gone, lo)[j])
                < gone.len() && gone[marked_from(gone, lo)[j] as int],
        forall|j: int, k: int|
            0 <= j < k < marked_from(gone, lo).len() ==> marked_from(gone, lo)[j] > marked_from(
                gone,
                lo,
            )[k],
        forall|x: int|
            lo <= x < gone.len() && gone[x] ==> exists|j: int|
                0 <= j < marked_from(gone, lo).len() && #[trigger] marked_from(gone, lo)[j] == x,
    decreases gone.len() - lo,
{
    if lo < gone.len() {
        lemma_marked_facts(gone, lo + 1);
        let rest = marked_from(gone, lo + 1);
        let all = marked_from(gone, lo);
        assert forall|x: int| lo <= x < gone.len() && gone[x] implies exists|j: int|
            0 <= j < all.len() && #[trigger] all[j] == x by {
            if x == lo {
                assert(all[rest.len() as int] == x);
            } else {
                let j = choose|j: int| 0 <= j < rest.len() && #[trigger] rest[j] == x;
                assert(all[j] == x);
            }
        }
    }
}

proof fn lemma_kept_unmarked<T>(items: Seq<T>, gone: Seq<bool>, a: int, b: int)
    requires
        0 <= a <= b <= items.len(),
        gone.len() == items.len(),
        forall|x: int| a <= x < b ==> !gone[x],
    ensures
        kept_from(items, gone, a) == items.subrange(a, b) + kept_from(items, gone, b),
    decreases b - a,
{
    if a < b {
        lemma_kept_unmarked(items, gone, a + 1, b);
        assert(seq![items[a]] + (items.subrange(a + 1, b) + kept_from(items, gone, b))
            =~= items.subrange(a, b) + kept_from(items, gone, b));
    } else {
        assert(items.subrange(a, b) + kept_from(items, gone, b) =~= kept_from(items, gone, b));
    }
}

proof fn lemma_kept_from_len<T>(items: Seq<T>, gone: Seq<bool>, lo: int)
    requires
        gone.len() == items.len(),
        0 <= lo <= items.len(),
    ensures
        kept_from(items, gone, lo).len() + marked_from(gone, lo).len() == items.len() - lo,
    decreases items.len() - lo,
{
    if lo < items.len() {
        lemma_kept_from_len(items, gone, lo + 1);
    }
}

/// Those that stay and those that go are all there were.
pub proof fn lemma_kept_len<T>(items: Seq<T>, gone: Seq<bool>)
    requires
        gone.len() == items.len(),
    ensures
        kept(items, gone).len() + marked(gone).len() == items.len(),
{
    lemma_kept_from_len(items, gone, 0);
}

/// Where nothing is marked, everything stays.
pub proof fn lemma_kept_all<T>(items: Seq<T>, gone: Seq<bool>)
    requires
        gone.len() == items.len(),
        forall|i: int| 0 <= i < gone.len() ==> !gone[i],
    ensures
        kept(items, gone) == items,
{
    lemma_kept_unmarked(items, gone, 0, items.len() as int);
    assert(items.subrange(0, items.len() as int) + kept_from(items, gone, items.len() as int)
        =~= items);
}

/// A member that is not marked stays, and keeps its place among those that
/// stay: it comes after as many members as stay of those before it.
pub proof fn lemma_kept_place<T>(items: Seq<T>, gone: Seq<bool>, i: int)
    requires
        gone.len() == items.len(),
        0 <= i < items.len(),
        !gone[i],
    ensures
        kept(items.subrange(0, i), gone.subrange(0, i)).len() < kept(items, gone).len(),
        kept(items, gone)[kept(items.subrange(0, i), gone.subrange(0, i)).len() as int] == items[i],
{
    lemma_kept_split(items, gone, 0, i);
    assert(items.subrange(0, i).subrange(0, i) =~= items.subrange(0, i));
}

proof fn lemma_kept_split<T>(items: Seq<T>, gone: Seq<bool>, lo: int, i: int)
    requires
        gone.len() == items.len(),
        0 <= lo <= i <= items.len(),
    ensures
        kept_from(items, gone, lo) == kept_from(items.subrange(0, i), gone.subrange(0, i), lo)
            + kept_from(items, gone, i),
    decreases i - lo,
{
    let head = items.subrange(0, i);
    let flags = gone.subrange(0, i);
    if lo < i {
        lemma_kept_split(items, gone, lo + 1, i);
        if !gone[lo] {
            assert(seq![items[lo]] + (kept_from(head, flags, lo + 1) + kept_from(items, gone, i))
                =~= (seq![head[lo]] + kept_from(head, flags, lo + 1)) + kept_from(items, gone, i));
        }
    } else {
        assert(kept_from(head, flags, lo) + kept_from(items, gone, i) =~= kept_from(
            items,
            gone,
            i,
        ));
    }
}

/// A sweep neither adds nor removes a member.
pub proof fn lemma_sweeps_len<T>(step: spec_fn(T, T, (T, T)) -> bool, before: Seq<T>, after: Seq<T>)
    requires
        sweeps(step, before, after),
        before.len() <= usize::MAX,
    ensures
        after.len() == before.len(),
{
    let states = choose|states: Seq<Seq<T>>| #[trigger] sweep_trace(step, before, after, states);
    lemma_sweep_trace_len(step, before, states, pair_order(before.len()).len() as int);
}

proof fn lemma_sweep_trace_len<T>(
    step: spec_fn(T, T, (T, T)) -> bool,
    before: Seq<T>,
    states: Seq<Seq<T>>,
    upto: int,
)
    requires
        before.len() <= usize::MAX,
        0 <= upto <= pair_order(before.len()).len(),
        states.len() == pair_order(before.len()).len() + 1,
        states[0] == before,
        forall|t: int|
            0 <= t < pair_order(before.len()).len() ==> #[trigger] meets(
                step,
                states[t],
                pair_order(before.len())[t],
                states[t + 1],
            ),
    ensures
        states[upto].len() == before.len(),
    decreases upto,
{
    if upto > 0 {
        lemma_sweep_trace_len(step, before, states, upto - 1);
        lemma_pair_order_bounds(before.len(), upto - 1);
        assert(meets(
            step,
            states[upto - 1],
            pair_order(before.len())[upto - 1],
            states[upto - 1 + 1],
        ));
    }
}

/// A step of a walk that allows one result only for each context and member.
pub open spec fn one_result<C, T, R>(step: spec_fn(C, T, R) -> bool) -> bool {
    forall|c: C, obj: T, r: R, s: R| #[trigger] step(c, obj, r) && #[trigger] step(c, obj, s) ==> r == s
}

/// Under a step that allows one result only, a walk has one outcome.
pub proof fn lemma_visits_one<C, T>(
    step: spec_fn(C, T, (C, T)) -> bool,
    ctx: C,
    before: Seq<T>,
    out: C,
    after: Seq<T>,
    other_out: C,
    other_after: Seq<T>,
)
    requires
        one_result(step),
        visits(step, ctx, before, out, after),
        visits(step, ctx, before, other_out, other_after),
    ensures
        out == other_out,
        after == other_after,
{
    let cs = choose|cs: Seq<C>| #[trigger] visit_trace(step, ctx, before, out, after, cs);
    let ds = choose|ds: Seq<C>| #[trigger]
        visit_trace(step, ctx, before, other_out, other_after, ds);
    lemma_visit_traces_agree(step, before, after, other_after, cs, ds, before.len() as int);
    assert(after =~= other_after);
}

proof fn lemma_visit_traces_agree<C, T>(
    step: spec_fn(C, T, (C, T)) -> bool,
    before: Seq<T>,
    after: Seq<T>,
    other_after: Seq<T>,
    cs: Seq<C>,
    ds: Seq<C>,
    upto: int,
)
    requires
        one_result(step),
        0 <= upto <= before.len(),
        cs.len() == before.len() + 1,
        ds.len() == before.len() + 1,
        after.len() == before.len(),
        other_after.len() == before.len(),
        cs[0] == ds[0],
        forall|i: int|
            0 <= i < before.len() ==> #[trigger] step(cs[i], before[i], (cs[i + 1], after[i])),
        forall|i: int|
            0 <= i < before.len() ==> #[trigger] step(ds[i], before[i], (ds[i + 1], other_after[i])),
    ensures
        cs[upto] == ds[upto],
        forall|i: int| 0 <= i < upto ==> after[i] == other_after[i],
    decreases upto,
{
    if upto > 0 {
        let i = upto - 1;
        lemma_visit_traces_agree(step, before, after, other_after, cs, ds, i);
        assert(step(cs[i], before[i], (cs[i + 1], after[i])));
        assert(step(ds[i], before[i], (ds[i + 1], other_after[i])));
    }
}

/// Under a step that allows one result only, a walk that removes has one
/// outcome.
pub proof fn lemma_culls_one<C, T>(
    step: spec_fn(C, T, (C, T, bool)) -> bool,
    ctx: C,
    before: Seq<T>,
    out: C,
    after: Seq<T>,
    removed: nat,
    other_out: C,
    other_after: Seq<T>,
    other_removed: nat,
)
    requires
        one_result(step),
        culls(step, ctx, before, out, after, removed),
        culls(step, ctx, before, other_out, other_after, other_removed),
    ensures
        out == other_out,
        after == other_after,
        removed == other_removed,
{
    let (cs, stepped, gone) = choose|cs: Seq<C>, stepped: Seq<T>, gone: Seq<bool>| #[trigger]
        cull_trace(step, ctx, before, out, after, removed, cs, stepped, gone);
    let (ds, other_stepped, other_gone) = choose|ds: Seq<C>, stepped: Seq<T>, gone: Seq<bool>|
     #[trigger]
        cull_trace(step, ctx, before, other_out, other_after, other_removed, ds, stepped, gone);
    lemma_cull_traces_agree(step, before, cs, stepped, gone, ds, other_stepped, other_gone, 0);
    assert(stepped =~= other_stepped);
    assert(gone =~= other_gone);
}

proof fn lemma_cull_traces_agree<C, T>(
    step: spec_fn(C, T, (C, T, bool)) -> bool,
    before: Seq<T>,
    cs: Seq<C>,
    stepped: Seq<T>,
    gone: Seq<bool>,
    ds: Seq<C>,
    other_stepped: Seq<T>,
    other_gone: Seq<bool>,
    from: int,
)
    requires
        one_result(step),
        0 <= from <= before.len(),
        cs.len() == before.len() + 1,
        ds.len() == before.len() + 1,
        stepped.len() == before.len(),
        other_stepped.len() == before.len(),
        gone.len() == before.len(),
        other_gone.len() == before.len(),
        cs[before.len() as int] == ds[before.len() as int],
        forall|i: int|
            0 <= i < before.len() ==> #[trigger] step(
                cs[i + 1],
                before[i],
                (cs[i], stepped[i], gone[i]),
            ),
        forall|i: int|
            0 <= i < before.len() ==> #[trigger] step(
                ds[i + 1],
                before[i],
                (ds[i], other_stepped[i], other_gone[i]),
            ),
    ensures
        cs[from] == ds[from],
        forall|i: int| from <= i < before.len() ==> #[trigger] stepped[i] == other_stepped[i],
        forall|i: int| from <= i < before.len() ==> #[trigger] gone[i] == other_gone[i],
    decreases before.len() - from,
{
    if from < before.len() {
        lemma_cull_traces_agree(
            step,
            before,
            cs,
            stepped,
            gone,
            ds,
            other_stepped,
            other_gone,
            from + 1,
        );
        assert(step(cs[from + 1], before[from], (cs[from], stepped[from], gone[from])));
        assert(step(ds[from + 1], before[from], (ds[from], other_stepped[from], other_gone[from])));
    }
}

/// Under a step that allows one result only, a sweep has one outcome.
pub proof fn lemma_sweeps_one<T>(
    step: spec_fn(T, T, (T, T)) -> bool,
    before: Seq<T>,
    after: Seq<T>,
    other_after: Seq<T>,
)
    requires
        one_result(step),
        sweeps(step, before, after),
        sweeps(step, before, other_after),
    ensures
        after == other_after,
{
    let states = choose|states: Seq<Seq<T>>| #[trigger] sweep_trace(step, before, after, states);
    let others = choose|others: Seq<Seq<T>>| #[trigger]
        sweep_trace(step, before, other_after, others);
    lemma_sweep_traces_agree(step, before, states, others, pair_order(before.len()).len() as int);
}

proof fn lemma_sweep_traces_agree<T>(
    step: spec_fn(T, T, (T, T)) -> bool,
    before: Seq<T>,
    states: Seq<Seq<T>>,
    others: Seq<Seq<T>>,
    upto: int,
)
    requires
        one_result(step),
        0 <= upto <= pair_order(before.len()).len(),
        states.len() == pair_order(before.len()).len() + 1,
        others.len() == pair_order(before.len()).len() + 1,
        states[0] == others[0],
        forall|t: int|
            0 <= t < pair_order(before.len()).len() ==> #[trigger] meets(
                step,
                states[t],
                pair_order(before.len())[t],
                states[t + 1],
            ),
        forall|t: int|
            0 <= t < pair_order(before.len()).len() ==> #[trigger] meets(
                step,
                others[t],
                pair_order(before.len())[t],
                others[t + 1],
            ),
    ensures
        states[upto] == others[upto],
    decreases upto,
{
    if upto > 0 {
        let t = upto - 1;
        lemma_sweep_traces_agree(step, before, states, others, t);
        assert(meets(step, states[t], pair_order(before.len())[t], states[t + 1]));
        assert(meets(step, others[t], pair_order(before.len())[t], others[t + 1]));
    }
}

/// A collection of objects with the same sprite face.
pub struct Objects<T> {
    inner: Vec<T>,
    sprite: Sprite,
}

impl<T> View for Objects<T> {
    type V = Seq<T>;

    /// The members, in their order.
    closed spec fn view(&self) -> Seq<T> {
        self.inner@
    }
}

impl<T> Objects<T> {
    /// The sprite that all members are drawn with.
    pub closed spec fn face(&self) -> Sprite {
        self.sprite
    }

    /// Create new instance.
    pub fn new(v: Vec<T>, sprite: Sprite) -> (objects: Self)
        ensures
            objects@ == v@,
            objects.face() == sprite,
    {
        Objects { inner: v, sprite }
    }

    /// Draw all objects: hands each member and the collection's sprite to
    /// `f`, from the first member on, and stops at the first error.
    pub fn draw<E, F: Fn(&T, Sprite) -> Result<(), E>>(&self, f: F) -> (result: Result<(), E>)
        requires
            forall|obj: &T, sprite: Sprite| call_requires(f, (obj, sprite)),
        ensures
            shown(|obj: T, r: Result<(), E>| call_ensures(f, (&obj, self.face()), r), self@, result),
    {
        let ghost call = |obj: T, r: Result<(), E>| call_ensures(f, (&obj, self.face()), r);
        let n = self.inner.len();
        let mut i: usize = 0;
        while i < n
            invariant
                i <= n,
                n == self.inner@.len(),
                call == (|obj: T, r: Result<(), E>| call_ensures(f, (&obj, self.face()), r)),
                forall|obj: &T, sprite: Sprite| call_requires(f, (obj, sprite)),
                forall|j: int| 0 <= j < i ==> #[trigger] call(self.inner@[j], Ok(())),
            decreases n - i,
        {
            match f(&self.inner[i], self.sprite) {
                Ok(unit) => {
                    assert(call(self.inner@[i as int], Ok(unit)));
                },
                Err(e) => {
                    assert(call(self.inner@[i as int], Err(e)));
                    return Err(e);
                },
            }
            i += 1;
        }
        Ok(())
    }

    /// Draw lines of all objects: hands each member to `f`, from the first
    /// on, and stops at the first error.
    pub fn draw_lines<E, F: Fn(&T) -> Result<(), E>>(&self, f: F) -> (result: Result<(), E>)
        requires
            forall|obj: &T| call_requires(f, (obj,)),
        ensures
            shown(|obj: T, r: Result<(), E>| call_ensures(f, (&obj,), r), self@, result),
    {
        let ghost call = |obj: T, r: Result<(), E>| call_ensures(f, (&obj,), r);
        let n = self.inner.len();
        let mut i: usize = 0;
        while i < n
            invariant
                i <= n,
                n == self.inner@.len(),
                call == (|obj: T, r: Result<(), E>| call_ensures(f, (&obj,), r)),
                forall|obj: &T| call_requires(f, (obj,)),
                forall|j: int| 0 <= j < i ==> #[trigger] call(self.inner@[j], Ok(())),
            decreases n - i,
        {
            match f(&self.inner[i]) {
                Ok(unit) => {
                    assert(call(self.inner@[i as int], Ok(unit)));
                },
                Err(e) => {
                    assert(call(self.inner@[i as int], Err(e)));
                    return Err(e);
                },
            }
            i += 1;
        }
        Ok(())
    }

    /// The sprite that all members are drawn with.
    pub fn sprite(&self) -> (sprite: Sprite)
        ensures
            sprite == self.face(),
    {
        self.sprite
    }

    /// The number of members.
    pub fn len(&self) -> (len: usize)
        ensures
            len == self@.len(),
    {
        self.inner.len()
    }

    /// The member at position `i`.
    pub fn get(&self, i: usize) -> (obj: &T)
        requires
            i < self@.len(),
        ensures
            *obj == self@[i as int],
    {
        &self.inner[i]
    }

    /// Puts `obj` in the place of the member at position `i`.
    pub fn set(&mut self, i: usize, obj: T)
        requires
            i < old(self)@.len(),
        ensures
            final(self)@ == old(self)@.update(i as int, obj),
            final(self).face() == old(self).face(),
    {
        self.inner[i] = obj;
    }

    /// The members as a vector.
    pub fn as_vec(&self) -> (v: &Vec<T>)
        ensures
            v@ == self@,
    {
        &self.inner
    }

    /// Gives the members up.
    pub fn into_vec(self) -> (v: Vec<T>)
        ensures
            v@ == self@,
    {
        self.inner
    }

    /// Adds a member at the end.
    pub fn push(&mut self, obj: T)
        ensures
            final(self)@ == old(self)@.push(obj),
            final(self).face() == old(self).face(),
    {
        self.inner.push(obj);
    }

    /// Removes every member.
    pub fn clear(&mut self)
        ensures
            final(self)@ == Seq::<T>::empty(),
            final(self).face() == old(self).face(),
    {
        self.inner.clear();
    }
}

impl<T: Copy> Objects<T> {
    /// Update and compare: applies `f` to each member, from the first to the
    /// last, and puts what it returns in the member's place. The context that
    /// one call returns goes into the next.
    pub fn iterate<C, F: Fn(C, T) -> (C, T)>(&mut self, ctx: C, f: &F) -> (out: C)
        requires
            forall|c: C, obj: T| call_requires(f, (c, obj)),
        ensures
            visits(
                |c: C, obj: T, r: (C, T)| call_ensures(f, (c, obj), r),
                ctx,
                old(self)@,
                out,
                final(self)@,
            ),
            final(self).face() == old(self).face(),
    {
        let ghost step = |c: C, obj: T, r: (C, T)| call_ensures(f, (c, obj), r);
        let ghost mut cs: Seq<C> = seq![ctx];
        let n = self.inner.len();
        let mut i: usize = 0;
        let mut c = ctx;
        while i < n
            invariant
                i <= n,
                n == self.inner@.len(),
                n == old(self).inner@.len(),
                self.sprite == old(self).sprite,
                step == (|c: C, obj: T, r: (C, T)| call_ensures(f, (c, obj), r)),
                forall|c: C, obj: T| call_requires(f, (c, obj)),
                cs.len() == i + 1,
                cs[0] == ctx,
                cs[i as int] == c,
                forall|k: int|
                    0 <= k < i ==> #[trigger] step(
                        cs[k],
                        old(self).inner@[k],
                        (cs[k + 1], self.inner@[k]),
                    ),
                forall|k: int| i <= k < n ==> self.inner@[k] == old(self).inner@[k],
            decreases n - i,
        {
            let (c2, obj) = f(c, self.inner[i]);
            self.inner[i] = obj;
            c = c2;
            proof {
                cs = cs.push(c);
            }
            i += 1;
        }
        proof {
            assert(visit_trace(step, ctx, old(self)@, c, self@, cs));
        }
        c
    }

    /// Update, compare and remove spat out indices: applies `f` to each
    /// member, from the last to the first, and puts what it returns in the
    /// member's place; the members for which it said `true` are then removed.
    /// Returns the last context and how many members were removed.
    pub fn iterate_rmv_indices<C, F: Fn(C, T) -> (C, T, bool)>(&mut self, ctx: C, f: &F) -> (out: (
        C,
        usize,
    ))
        requires
            forall|c: C, obj: T| call_requires(f, (c, obj)),
        ensures
            culls(
                |c: C, obj: T, r: (C, T, bool)| call_ensures(f, (c, obj), r),
                ctx,
                old(self)@,
                out.0,
                final(self)@,
                out.1 as nat,
            ),
            final(self).face() == old(self).face(),
    {
        let ghost step = |c: C, obj: T, r: (C, T, bool)| call_ensures(f, (c, obj), r);
        let n = self.inner.len();
        let ghost mut cs: Seq<C> = Seq::new((n + 1) as nat, |k: int| ctx);
        let ghost mut gone: Seq<bool> = Seq::new(n as nat, |k: int| false);
        let mut to_remove: Vec<usize> = Vec::new();
        let mut i: usize = n;
        let mut c = ctx;
        while i > 0
            invariant
                i <= n,
                n == self.inner@.len(),
                n == old(self).inner@.len(),
                self.sprite == old(self).sprite,
                step == (|c: C, obj: T, r: (C, T, bool)| call_ensures(f, (c, obj), r)),
                forall|c: C, obj: T| call_requires(f, (c, obj)),
                cs.len() == n + 1,
                gone.len() == n,
                cs[n as int] == ctx,
                cs[i as int] == c,
                forall|k: int|
                    i <= k < n ==> #[trigger] step(
                        cs[k + 1],
                        old(self).inner@[k],
                        (cs[k], self.inner@[k], gone[k]),
                    ),
                forall|k: int| 0 <= k < i ==> self.inner@[k] == old(self).inner@[k],
                to_remove@ == marked_from(gone, i as int),
            decreases i,
        {
            i -= 1;
            let (c2, obj, rmv) = f(c, self.inner[i]);
            self.inner[i] = obj;
            c = c2;
            proof {
                let before = gone;
                cs = cs.update(i as int, c);
                gone = gone.update(i as int, rmv);
                lemma_marked_agree(before, gone, i + 1);
            }
            if rmv {
                to_remove.push(i);
            }
        }
        let len = to_remove.len();
        let ghost stepped = self.inner@;
        proof {
            lemma_marked_facts(gone, 0);
        }
        let mut j: usize = 0;
        while j < len
            invariant
                j <= len,
                len == to_remove@.len(),
                self.sprite == old(self).sprite,
                to_remove@ == marked(gone),
                stepped.len() == n,
                gone.len() == n,
                n <= usize::MAX,
                forall|x: int|
                    0 <= x < len ==> 0 <= (#[trigger] to_remove@[x]) < n && gone[to_remove@[x] as int],
                forall|x: int, y: int| 0 <= x < y < len ==> to_remove@[x] > to_remove@[y],
                forall|x: int|
                    0 <= x < n && gone[x] ==> exists|y: int|
                        0 <= y < len && #[trigger] to_remove@[y] == x,
                ({
                    let cut: int = if j == 0 { n as int } else { to_remove@[j - 1] as int };
                    self.inner@ == stepped.subrange(0, cut) + kept_from(stepped, gone, cut)
                }),
            decreases len - j,
        {
            let r = to_remove[j];
            proof {
                let cut: int = if j == 0 { n as int } else { to_remove@[j - 1] as int };
                assert forall|x: int| r < x < cut implies !gone[x] by {
                    if gone[x] {
                        let y = choose|y: int| 0 <= y < len && #[trigger] to_remove@[y] == x;
                        if y < j {
                            if y < j - 1 {
                                assert(to_remove@[y] > to_remove@[j - 1]);
                            }
                        } else if y > j {
                            assert(to_remove@[j as int] > to_remove@[y]);
                        }
                    }
                }
                lemma_kept_unmarked(stepped, gone, r + 1, cut);
                assert((stepped.subrange(0, cut) + kept_from(stepped, gone, cut)).remove(r as int)
                    =~= stepped.subrange(0, r as int) + kept_from(stepped, gone, r as int));
            }
            self.inner.remove(r);
            j += 1;
        }
        proof {
            let cut: int = if len == 0 { n as int } else { to_remove@[len - 1] as int };
            assert forall|x: int| 0 <= x < cut implies !gone[x] by {
                if gone[x] {
                    let y = choose|y: int| 0 <= y < len && #[trigger] to_remove@[y] == x;
                    if y < len - 1 {
                        assert(to_remove@[y] > to_remove@[len - 1]);
                    }
                }
            }
            lemma_kept_unmarked(stepped, gone, 0, cut);
            assert(cull_trace(step, ctx, old(self)@, c, self@, len as nat, cs, stepped, gone));
        }
        (c, len)
    }

    /// Handles collision of objects in the collection with each other:
    /// applies `f` to every two members, once, and puts what it returns in
    /// their places.
    pub fn self_collision<F: Fn(T, T) -> (T, T)>(&mut self, f: &F)
        requires
            forall|a: T, b: T| call_requires(f, (a, b)),
        ensures
            sweeps(|a: T, b: T, r: (T, T)| call_ensures(f, (a, b), r), old(self)@, final(self)@),
            final(self).face() == old(self).face(),
    {
        let ghost step = |a: T, b: T, r: (T, T)| call_ensures(f, (a, b), r);
        let n = self.inner.len();
        let slots: Vec<()> = vec![(); n];
        let mut pairs = comparer(&slots);
        let ghost order = pair_order(n as nat);
        let ghost mut states: Seq<Seq<T>> = seq![self.inner@];
        loop
            invariant
                n == self.inner@.len(),
                n == old(self).inner@.len(),
                self.sprite == old(self).sprite,
                step == (|a: T, b: T, r: (T, T)| call_ensures(f, (a, b), r)),
                forall|a: T, b: T| call_requires(f, (a, b)),
                order == pair_order(n as nat),
                1 <= states.len() <= order.len() + 1,
                upcoming(pairs) == order.skip(states.len() - 1),
                states[0] == old(self).inner@,
                states[states.len() - 1] == self.inner@,
                forall|t: int|
                    0 <= t < states.len() - 1 ==> #[trigger] meets(
                        step,
                        states[t],
                        order[t],
                        states[t + 1],
                    ),
            ensures
                n == self.inner@.len(),
                self.sprite == old(self).sprite,
                sweep_trace(step, old(self).inner@, self.inner@, states),
            decreases order.len() + 1 - states.len(),
        {
            let ghost t = states.len() - 1;
            match next_pair(&mut pairs) {
                None => {
                    break ;
                },
                Some((i, j)) => {
                    proof {
                        assert(order.skip(t)[0] == order[t]);
                        assert(order.skip(t).drop_first() =~= order.skip(t + 1));
                        lemma_pair_order_bounds(n as nat, t);
                    }
                    let (a, b) = f(self.inner[i], self.inner[j]);
                    self.inner[i] = a;
                    self.inner[j] = b;
                    proof {
                        assert(step(states[t][i as int], states[t][j as int], (a, b)));
                        assert(meets(step, states[t], order[t], self.inner@));
                        states = states.push(self.inner@);
                    }
                },
            }
        }
    }
}

} // verus!
