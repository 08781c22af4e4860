use crate::action::{charge_upto, recorded_upto, step_stamp, Action};
use crate::items::{lemma_nearest_is_dropoff, Item, ThingView};
use crate::replay::{
    lemma_actions_sim, lemma_deliveries_frame, lemma_fetches_frame, lemma_fold_clock,
    lemma_phases_frame, lemma_recorded_lasting, sim_fold,
};
use crate::schedule::TIMESTEP_MILLI;
use crate::world::{SimView, WorldView};
use vstd::prelude::*;

verus! {

/// A recording that is played back is only read: a tick of a world that
/// plays a recording back, or whose recording is switched off, leaves the
/// recording as it is, whatever actions wait and whatever the recording holds.
pub proof fn lemma_replay_only_reads(w: WorldView)
    requires
        !w.records(),
    ensures
        w.after_tick().log == w.log,
        w.after_tick().play == w.play,
        w.after_tick().disable_rec == w.disable_rec,
{
    reveal(WorldView::after_tick);
    let active = !w.paused;
    let w1 = if active {
        w.with_sim(w.sim.after_set_level(TIMESTEP_MILLI))
    } else {
        w
    };
    let w2 = w1.after_inject();
    let w3 = if active {
        w2.with_sim(w2.sim.after_phases())
    } else {
        w2
    };
    crate::replay::lemma_actions_frame(w3, w3.queue, w3.queue.len() as int);
}

/// The entries of a recording are in the order of their ticks, and none is
/// stamped later than `stamp`.
pub open spec fn in_order(log: Seq<(u32, Seq<u8>)>, stamp: u32) -> bool {
    &&& forall|i: int, j: int| 0 <= i <= j < log.len() ==> log[i].0 <= log[j].0
    &&& forall|i: int| 0 <= i < log.len() ==> log[i].0 <= stamp
}

/// A tick keeps a recording in order: where the entries are in the order of
/// their ticks and none is stamped later than the clock says, the same holds
/// after the tick, whatever the world does in it.
pub proof fn lemma_recording_in_order(w: WorldView)
    requires
        in_order(w.log, step_stamp(w.sim.player.step)),
    ensures
        in_order(w.after_tick().log, step_stamp(w.after_tick().sim.player.step)),
        w.after_tick().sim.player.step >= w.sim.player.step,
{
    reveal(WorldView::after_tick);
    let active = !w.paused;
    let w1 = if active {
        w.with_sim(w.sim.after_set_level(TIMESTEP_MILLI))
    } else {
        w
    };
    let w2 = w1.after_inject();
    let w3 = if active {
        w2.with_sim(w2.sim.after_phases())
    } else {
        w2
    };
    lemma_phases_frame(w2.sim);
    let q = w3.queue;
    lemma_actions_sim(w3, q, q.len() as int);
    lemma_fold_clock(w3.sim, q, q.len() as int);
    let w4 = w3.after_actions();
    let w5 = if active {
        w4.with_sim(w4.sim.after_objective())
    } else {
        w4
    };
    let stamp = step_stamp(w5.sim.player.step);
    assert(w5.sim.player.step == w1.sim.player.step);
    assert(w5.log == w.log);
    lemma_recorded_lasting(w5.queue, stamp, w5.queue.len() as int);
    if w5.records() {
        let rec = recorded_upto(w5.queue, stamp, w5.queue.len() as int);
        let after = w.log + rec;
        assert forall|i: int, j: int| 0 <= i <= j < after.len() implies after[i].0
            <= after[j].0 by {
            if j >= w.log.len() {
                assert(after[j] == rec[j - w.log.len()]);
                if i >= w.log.len() {
                    assert(after[i] == rec[i - w.log.len()]);
                }
            }
        }
        assert forall|i: int| 0 <= i < after.len() implies after[i].0 <= stamp by {
            if i >= w.log.len() {
                assert(after[i] == rec[i - w.log.len()]);
            }
        }
    }
}

/// The id of a thing, if it is a unit.
pub open spec fn id_of(t: ThingView) -> Option<u8> {
    match t {
        ThingView::Unit { blobby, .. } => Some(blobby.id),
        _ => None,
    }
}

/// For each thing, its id if it is a unit.
pub open spec fn ids_of(things: Seq<ThingView>) -> Seq<Option<u8>> {
    Seq::new(things.len(), |i: int| id_of(things[i]))
}

/// No two units have the same id, and no unit has an id that the counter of
/// the player has yet to reach.
pub open spec fn ids_fresh(sim: SimView) -> bool {
    &&& forall|i: int|
        0 <= i < sim.things.len() && (#[trigger] id_of(sim.things[i])) is Some ==> id_of(
            sim.things[i],
        )->0 <= sim.player.blobby_count
    &&& forall|i: int, j: int|
        0 <= i < j < sim.things.len() && (#[trigger] id_of(sim.things[i])) is Some && (
        #[trigger] id_of(sim.things[j])) is Some ==> id_of(sim.things[i]) != id_of(sim.things[j])
}

/// Whether the ids are fresh depends on the ids and on the counter alone.
pub proof fn lemma_ids_carry(a: SimView, b: SimView)
    requires
        ids_fresh(a),
        ids_of(a.things) == ids_of(b.things),
        a.player.blobby_count == b.player.blobby_count,
    ensures
        ids_fresh(b),
{
    assert(a.things.len() == ids_of(a.things).len());
    assert forall|i: int| 0 <= i < b.things.len() implies id_of(b.things[i]) == id_of(
        a.things[i],
    ) by {
        assert(ids_of(a.things)[i] == ids_of(b.things)[i]);
    }
}

/// Fetching changes no id.
pub proof fn lemma_fetches_ids(sim: SimView, n: int)
    requires
        n <= sim.things.len(),
    ensures
        ids_of(sim.after_fetches_upto(n).things) == ids_of(sim.things),
    decreases n,
{
    if n > 0 {
        lemma_fetches_ids(sim, n - 1);
        lemma_fetches_frame(sim, n - 1);
        let before = sim.after_fetches_upto(n - 1);
        assert(ids_of(before.after_fetch(n - 1).things) =~= ids_of(before.things));
    }
}

/// Delivering changes no id.
pub proof fn lemma_deliveries_ids(sim: SimView, n: int)
    requires
        n <= sim.things.len(),
    ensures
        ids_of(sim.after_deliveries_upto(n).things) == ids_of(sim.things),
    decreases n,
{
    if n > 0 {
        lemma_deliveries_ids(sim, n - 1);
        lemma_deliveries_frame(sim, n - 1);
        let before = sim.after_deliveries_upto(n - 1);
        if before.things[n - 1] is Unit {
            lemma_nearest_is_dropoff(
                before.grid,
                before.things,
                before.things[n - 1]->Unit_position,
                before.things[n - 1]->Unit_resources,
                before.things.len() as int,
            );
        }
    }
}

/// Charging changes no id.
pub proof fn lemma_charge_ids(things: Seq<ThingView>, cost: Map<crate::player::R, u64>, n: int)
    requires
        n <= things.len(),
    ensures
        ids_of(charge_upto(things, cost, n).0) == ids_of(things),
        charge_upto(things, cost, n).0.len() == things.len(),
    decreases n,
{
    if n > 0 {
        lemma_charge_ids(things, cost, n - 1);
    }
}

/// The phases that move goods change no id.
pub proof fn lemma_phases_ids(sim: SimView)
    ensures
        ids_of(sim.after_phases().things) == ids_of(sim.things),
{
    let a = sim.after_plastic();
    assert(ids_of(a.things) =~= ids_of(sim.things));
    lemma_fetches_ids(a, a.things.len() as int);
    lemma_fetches_frame(a, a.things.len() as int);
    let b = a.after_fetches();
    lemma_deliveries_ids(b, b.things.len() as int);
    lemma_deliveries_frame(b, b.things.len() as int);
    let c = b.after_deliveries();
    let d = c.after_repaths();
    assert(ids_of(d.things) =~= ids_of(c.things));
    let e = d.after_moves();
    assert(ids_of(e.things) =~= ids_of(d.things));
    let f = e.after_factories();
    assert(ids_of(f.things) =~= ids_of(e.things));
}

/// An action keeps the ids fresh: only placing a unit adds an id, and that id
/// is one that no unit had before.
pub proof fn lemma_action_ids(sim: SimView, a: Action)
    requires
        ids_fresh(sim),
    ensures
        ids_fresh(sim.after_action(a)),
{
    let after = sim.after_action(a);
    match a {
        Action::Place(x, y, kind) => {
            match Item::spec_from_int(kind) {
                Some(item) => {
                    let paid = sim.after_buy(item.cost_of());
                    assert(ids_of(paid.things) =~= ids_of(sim.things)) by {
                        let owed = crate::player::after_give(
                            item.cost_of(),
                            crate::player::after_receive(
                                sim.stock,
                                crate::player::no_entries(),
                                item.cost_of(),
                            ),
                        );
                        lemma_charge_ids(sim.things, owed, sim.things.len() as int);
                    }
                    lemma_ids_carry(sim, paid);
                },
                None => {},
            }
        },
        Action::SellItem(x, y) => {
            if after != sim {
                assert(ids_of(after.things) =~= ids_of(sim.things));
                lemma_ids_carry(sim, after);
            }
        },
        Action::MoveBlobby(x, y, id) => {
            assert(ids_of(after.things) =~= ids_of(sim.things));
            lemma_ids_carry(sim, after);
        },
        _ => {
            lemma_ids_carry(sim, after);
        },
    }
}

/// Carrying out actions keeps the ids fresh.
pub proof fn lemma_fold_ids(sim: SimView, q: Seq<Action>, n: int)
    requires
        ids_fresh(sim),
        0 <= n <= q.len(),
    ensures
        ids_fresh(sim_fold(sim, q, n)),
    decreases n,
{
    if n > 0 {
        lemma_fold_ids(sim, q, n - 1);
        lemma_action_ids(sim_fold(sim, q, n - 1), q[n - 1]);
    }
}

/// Ids are never given out twice: in a world in which no two units have the
/// same id and none has an id beyond the counter of the player, the same holds
/// after a tick, whatever was asked for in it.
pub proof fn lemma_unit_ids_stay_fresh(w: WorldView)
    requires
        ids_fresh(w.sim),
    ensures
        ids_fresh(w.after_tick().sim),
{
    reveal(WorldView::after_tick);
    let active = !w.paused;
    let w1 = if active {
        w.with_sim(w.sim.after_set_level(TIMESTEP_MILLI))
    } else {
        w
    };
    lemma_ids_carry(w.sim, w1.sim);
    let w2 = w1.after_inject();
    let w3 = if active {
        w2.with_sim(w2.sim.after_phases())
    } else {
        w2
    };
    lemma_phases_ids(w2.sim);
    lemma_phases_frame(w2.sim);
    lemma_ids_carry(w2.sim, w3.sim);
    let q = w3.queue;
    lemma_actions_sim(w3, q, q.len() as int);
    lemma_fold_ids(w3.sim, q, q.len() as int);
    let w4 = w3.after_actions();
    let w5 = if active {
        w4.with_sim(w4.sim.after_objective())
    } else {
        w4
    };
    lemma_ids_carry(w4.sim, w5.sim);
}

} // verus!
