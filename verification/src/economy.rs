use crate::items::{lemma_nearest_is_dropoff, nearest_taker, ThingView, REACH};
use crate::player::{amount_of, R};
use crate::replay::{lemma_deliveries_frame, lemma_fetches_frame};
use crate::world::SimView;
use vstd::prelude::*;

verus! {

/// How much of a kind a thing holds: what lies on a pile, what a producer has
/// made and taken in, what was delivered, what a unit carries.
pub open spec fn held(t: ThingView, k: R) -> int {
    match t {
        ThingView::Despawned => 0,
        ThingView::Ore { resources, .. } => amount_of(resources, k) as int,
        ThingView::PlasticDepot { resources, .. } => amount_of(resources, k) as int,
        ThingView::Factory { dropoff, resources, .. } => amount_of(resources, k) + amount_of(
            dropoff.input,
            k,
        ),
        ThingView::OutgoingHats { dropoff, .. } => amount_of(dropoff.input, k) as int,
        ThingView::Unit { resources, .. } => amount_of(resources, k) as int,
    }
}

/// How much of a kind the first `n` things hold together.
pub open spec fn held_upto(things: Seq<ThingView>, k: R, n: int) -> int
    decreases n,
{
    if n <= 0 {
        0
    } else {
        held_upto(things, k, n - 1) + held(things[n - 1], k)
    }
}

/// How much of a kind all things of the world hold together.
pub open spec fn held_in(sim: SimView, k: R) -> int {
    held_upto(sim.things, k, sim.things.len() as int)
}

/// Replacing one thing changes the total by the difference between what the
/// new thing holds and what the old one held.
pub proof fn lemma_held_update(things: Seq<ThingView>, k: R, i: int, t: ThingView, n: int)
    requires
        0 <= i < things.len(),
        0 <= n <= things.len(),
    ensures
        held_upto(things.update(i, t), k, n) == held_upto(things, k, n) + (if i < n {
            held(t, k) - held(things[i], k)
        } else {
            0
        }),
    decreases n,
{
    if n > 0 {
        lemma_held_update(things, k, i, t, n - 1);
    }
}

/// Nothing holds less than nothing, and no two things hold more than all together.
pub proof fn lemma_held_bounds(things: Seq<ThingView>, k: R, i: int, j: int, n: int)
    requires
        0 <= n <= things.len(),
    ensures
        0 <= held_upto(things, k, n),
        0 <= i < n ==> 0 <= held(things[i], k) <= held_upto(things, k, n),
        0 <= i < n && 0 <= j < n && i != j ==> held(things[i], k) + held(things[j], k)
            <= held_upto(things, k, n),
    decreases n,
{
    if n > 0 {
        lemma_held_bounds(things, k, i, j, n - 1);
        lemma_held_bounds(things, k, j, i, n - 1);
    }
}

/// A unit's visit to its pile creates nothing: all things together hold no
/// more of any kind than before, and just as much unless the unit's ledger is
/// full.
pub proof fn lemma_fetch_held(sim: SimView, i: int, k: R)
    requires
        0 <= i < sim.things.len(),
    ensures
        sim.after_fetch(i).things.len() == sim.things.len(),
        held_in(sim.after_fetch(i), k) <= held_in(sim, k),
        held_in(sim, k) <= u64::MAX ==> held_in(sim.after_fetch(i), k) == held_in(sim, k),
{
    let n = sim.things.len() as int;
    let after = sim.after_fetch(i);
    if after != sim {
        match sim.things[i] {
            ThingView::Unit { blobby, path, resources, position } => {
                let e = blobby.resource_pile->0.index as int;
                lemma_held_bounds(sim.things, k, i, e, n);
                let mid = sim.things.update(e, after.things[e]);
                if after.things[e] != sim.things[e] {
                    lemma_held_update(sim.things, k, e, after.things[e], n);
                    lemma_held_update(mid, k, i, after.things[i], n);
                } else {
                    lemma_held_update(sim.things, k, i, after.things[i], n);
                }
            },
            _ => {},
        }
    }
}

/// A unit's visit to a drop-off creates nothing: all things together hold no
/// more of any kind than before, and just as much unless the drop-off is full.
pub proof fn lemma_deliver_held(sim: SimView, i: int, k: R)
    requires
        0 <= i < sim.things.len(),
    ensures
        sim.after_deliver(i).things.len() == sim.things.len(),
        held_in(sim.after_deliver(i), k) <= held_in(sim, k),
        held_in(sim, k) <= u64::MAX ==> held_in(sim.after_deliver(i), k) == held_in(sim, k),
{
    let n = sim.things.len() as int;
    let after = sim.after_deliver(i);
    match sim.things[i] {
        ThingView::Unit { blobby, path, resources, position } => {
            lemma_nearest_is_dropoff(sim.grid, sim.things, position, resources, n);
            let best = nearest_taker(sim.grid, sim.things, position, resources, n);
            if after != sim {
                let j = best.1->0;
                lemma_held_bounds(sim.things, k, i, j, n);
                if best.0 < REACH * REACH {
                    let mid = sim.things.update(j, after.things[j]);
                    lemma_held_update(sim.things, k, j, after.things[j], n);
                    lemma_held_update(mid, k, i, after.things[i], n);
                } else {
                    lemma_held_update(sim.things, k, i, after.things[i], n);
                }
            }
        },
        _ => {},
    }
}

/// The visits of the first `n` things to their piles create nothing.
pub proof fn lemma_fetches_held(sim: SimView, n: int, k: R)
    requires
        0 <= n <= sim.things.len(),
    ensures
        held_in(sim.after_fetches_upto(n), k) <= held_in(sim, k),
        held_in(sim, k) <= u64::MAX ==> held_in(sim.after_fetches_upto(n), k) == held_in(sim, k),
    decreases n,
{
    if n > 0 {
        lemma_fetches_held(sim, n - 1, k);
        lemma_fetches_frame(sim, n - 1);
        lemma_fetch_held(sim.after_fetches_upto(n - 1), n - 1, k);
    }
}

/// The visits of the first `n` things to drop-offs create nothing.
pub proof fn lemma_deliveries_held(sim: SimView, n: int, k: R)
    requires
        0 <= n <= sim.things.len(),
    ensures
        held_in(sim.after_deliveries_upto(n), k) <= held_in(sim, k),
        held_in(sim, k) <= u64::MAX ==> held_in(sim.after_deliveries_upto(n), k) == held_in(
            sim,
            k,
        ),
    decreases n,
{
    if n > 0 {
        lemma_deliveries_held(sim, n - 1, k);
        lemma_deliveries_frame(sim, n - 1);
        lemma_deliver_held(sim.after_deliveries_upto(n - 1), n - 1, k);
    }
}

/// Units create nothing and lose nothing.
///
/// After all units have fetched and delivered, the things of the world hold
/// together no more of any kind than before: nothing is handed over twice. And
/// they hold just as much, unless there is so much of the kind in the world
/// that a ledger could be full.
pub proof fn lemma_transport_conserves(sim: SimView, k: R)
    ensures
        held_in(sim.after_fetches().after_deliveries(), k) <= held_in(sim, k),
        held_in(sim, k) <= u64::MAX ==> held_in(sim.after_fetches().after_deliveries(), k)
            == held_in(sim, k),
{
    let n = sim.things.len() as int;
    lemma_fetches_held(sim, n, k);
    lemma_fetches_frame(sim, n);
    lemma_deliveries_held(sim.after_fetches(), n, k);
}

} // verus!
