use crate::action::{
    charge_upto, lemma_round_trip, recorded_upto, run_end, step_stamp, Action,
};
use crate::items::{lemma_nearest_is_dropoff, Item, ThingView};
use crate::player::{amount_of, first_delivery, PlayerView, R};
use crate::schedule::TIMESTEP_MILLI;
use crate::world::{SimView, WorldView};
use vstd::prelude::*;

verus! {

/// Fetching changes neither the board nor the player nor the stock, nor how
/// many things there are.
pub proof fn lemma_fetches_frame(sim: SimView, n: int)
    requires
        n <= sim.things.len(),
    ensures
        sim.after_fetches_upto(n).grid == sim.grid,
        sim.after_fetches_upto(n).player == sim.player,
        sim.after_fetches_upto(n).stock == sim.stock,
        sim.after_fetches_upto(n).cheats == sim.cheats,
        sim.after_fetches_upto(n).things.len() == sim.things.len(),
    decreases n,
{
    if n > 0 {
        lemma_fetches_frame(sim, n - 1);
    }
}

/// Delivering changes neither the board nor the player nor the stock, nor how
/// many things there are.
pub proof fn lemma_deliveries_frame(sim: SimView, n: int)
    requires
        n <= sim.things.len(),
    ensures
        sim.after_deliveries_upto(n).grid == sim.grid,
        sim.after_deliveries_upto(n).player == sim.player,
        sim.after_deliveries_upto(n).stock == sim.stock,
        sim.after_deliveries_upto(n).cheats == sim.cheats,
        sim.after_deliveries_upto(n).things.len() == sim.things.len(),
    decreases n,
{
    if n > 0 {
        lemma_deliveries_frame(sim, n - 1);
        let before = sim.after_deliveries_upto(n - 1);
        if before.things[n - 1] is Unit {
            lemma_nearest_is_dropoff(
                before.grid,
                before.things,
                before.things[n - 1]->Unit_position,
                before.things[n - 1]->Unit_resources,
                before.things.len() as int,
            );
        }
    }
}

/// Actions change neither what waits, nor the recording, nor whether
/// resources and time may be granted.
pub proof fn lemma_actions_frame(w: WorldView, q: Seq<Action>, n: int)
    ensures
        w.after_actions_upto(q, n).queue == w.queue,
        w.after_actions_upto(q, n).log == w.log,
        w.after_actions_upto(q, n).play == w.play,
        w.after_actions_upto(q, n).play_head == w.play_head,
        w.after_actions_upto(q, n).disable_rec == w.disable_rec,
        w.after_actions_upto(q, n).sim.cheats == w.sim.cheats,
    decreases n,
{
    if n > 0 {
        lemma_actions_frame(w, q, n - 1);
    }
}

/// The state of play after the first `n` actions of `q` were carried out, in order.
pub open spec fn sim_fold(sim: SimView, q: Seq<Action>, n: int) -> SimView
    decreases n,
{
    if n <= 0 {
        sim
    } else {
        sim_fold(sim, q, n - 1).after_action(q[n - 1])
    }
}

/// The actions among the first `n` of `q` that are not transient, in order.
pub open spec fn lasting_upto(q: Seq<Action>, n: int) -> Seq<Action>
    decreases n,
{
    if n <= 0 {
        Seq::empty()
    } else if q[n - 1].is_transient() {
        lasting_upto(q, n - 1)
    } else {
        lasting_upto(q, n - 1).push(q[n - 1])
    }
}

/// The actions of `q` that are not transient, in order.
pub open spec fn lasting(q: Seq<Action>) -> Seq<Action> {
    lasting_upto(q, q.len() as int)
}

/// Carrying out actions changes the state of play as the actions that are not
/// transient say, each on its own; play halts or resumes only on a pause, and
/// a restart is asked for only by a restart.
pub proof fn lemma_actions_sim(w: WorldView, q: Seq<Action>, n: int)
    requires
        0 <= n <= q.len(),
    ensures
        w.after_actions_upto(q, n).sim == sim_fold(w.sim, q, n),
        (forall|i: int| 0 <= i < n ==> q[i] != Action::GamePause) ==> w.after_actions_upto(
            q,
            n,
        ).paused == w.paused,
        (forall|i: int| 0 <= i < n ==> q[i] != Action::RestartGame) ==> w.after_actions_upto(
            q,
            n,
        ).restart == w.restart,
        w.after_actions_upto(q, n).queue == w.queue,
        w.after_actions_upto(q, n).log == w.log,
        w.after_actions_upto(q, n).play == w.play,
        w.after_actions_upto(q, n).play_head == w.play_head,
        w.after_actions_upto(q, n).disable_rec == w.disable_rec,
    decreases n,
{
    if n > 0 {
        lemma_actions_sim(w, q, n - 1);
    }
}

/// What the first `n` actions do to the state of play does not depend on the
/// actions that follow them.
pub proof fn lemma_fold_prefix(sim: SimView, a: Seq<Action>, b: Seq<Action>, n: int)
    requires
        0 <= n <= a.len(),
        n <= b.len(),
        forall|i: int| 0 <= i < n ==> a[i] == b[i],
    ensures
        sim_fold(sim, a, n) == sim_fold(sim, b, n),
    decreases n,
{
    if n > 0 {
        lemma_fold_prefix(sim, a, b, n - 1);
    }
}

/// Transient actions leave the state of play alone: carrying out a queue
/// changes it as carrying out only the lasting actions of the queue does.
pub proof fn lemma_fold_lasting(sim: SimView, q: Seq<Action>, n: int)
    requires
        0 <= n <= q.len(),
    ensures
        sim_fold(sim, q, n) == sim_fold(sim, lasting_upto(q, n), lasting_upto(q, n).len() as int),
    decreases n,
{
    if n > 0 {
        lemma_fold_lasting(sim, q, n - 1);
        let a = q[n - 1];
        let kept = lasting_upto(q, n - 1);
        if !a.is_transient() {
            let grown = kept.push(a);
            lemma_fold_prefix(sim, kept, grown, kept.len() as int);
        }
    }
}

/// A recording gains one entry for each lasting action: its record, stamped
/// with the tick.
pub proof fn lemma_recorded_lasting(q: Seq<Action>, stamp: u32, n: int)
    requires
        0 <= n <= q.len(),
    ensures
        recorded_upto(q, stamp, n).len() == lasting_upto(q, n).len(),
        forall|i: int|
            0 <= i < lasting_upto(q, n).len() ==> #[trigger] recorded_upto(q, stamp, n)[i] == (
                stamp,
                lasting_upto(q, n)[i].encode(),
            ),
        forall|i: int| 0 <= i < lasting_upto(q, n).len() ==> !(#[trigger] lasting_upto(q, n)[i]).is_transient(),
    decreases n,
{
    if n > 0 {
        lemma_recorded_lasting(q, stamp, n - 1);
    }
}

/// Where the next `k` entries of a recording belong to a tick and the entry
/// after them does not, the run of that tick ends after those `k` entries.
pub proof fn lemma_run_end(log: Seq<(u32, Seq<u8>)>, head: int, step: u64, k: int)
    requires
        0 <= head,
        0 <= k,
        head + k <= log.len(),
        forall|i: int| head <= i < head + k ==> (#[trigger] log[i]).0 as u64 == step,
        head + k == log.len() || log[head + k].0 as u64 != step,
    ensures
        run_end(log, head, step) == head + k,
    decreases k,
{
    if k > 0 {
        lemma_run_end(log, head + 1, step, k - 1);
    }
}

/// The phases that move goods leave the board, the stock and the number of
/// things as they are, and change nothing of the player but what the player
/// is counted to own.
pub proof fn lemma_phases_frame(sim: SimView)
    ensures
        sim.after_phases().grid == sim.grid,
        sim.after_phases().stock == sim.stock,
        sim.after_phases().cheats == sim.cheats,
        sim.after_phases().things.len() == sim.things.len(),
        sim.after_phases().player == (PlayerView {
            combined_resources: sim.after_phases().player.combined_resources,
            ..sim.player
        }),
{
    let a = sim.after_plastic();
    lemma_fetches_frame(a, a.things.len() as int);
    let b = a.after_fetches();
    lemma_deliveries_frame(b, b.things.len() as int);
}

/// No action moves the clock of play on by a tick, and none ends the game.
pub proof fn lemma_fold_clock(sim: SimView, q: Seq<Action>, n: int)
    requires
        0 <= n <= q.len(),
    ensures
        sim_fold(sim, q, n).player.step == sim.player.step,
        sim_fold(sim, q, n).player.alive_set == sim.player.alive_set,
        sim_fold(sim, q, n).cheats == sim.cheats,
    decreases n,
{
    if n > 0 {
        lemma_fold_clock(sim, q, n - 1);
    }
}

/// The world after `n` ticks of a game in which the actions `inputs[i]` were
/// submitted before tick `i`.
pub open spec fn run_live(w: WorldView, inputs: Seq<Seq<Action>>, n: int) -> WorldView
    decreases n,
{
    if n <= 0 {
        w
    } else {
        (WorldView { queue: inputs[n - 1], ..run_live(w, inputs, n - 1) }).after_tick()
    }
}

/// The world after `n` ticks in which nothing was submitted.
pub open spec fn run_alone(w: WorldView, n: int) -> WorldView
    decreases n,
{
    if n <= 0 {
        w
    } else {
        run_alone(w, n - 1).after_tick()
    }
}

/// What a thing counts for the objective: the big hats that have arrived at
/// it, if it is a delivery point.
pub open spec fn delivery_of(t: ThingView) -> Option<u64> {
    match t {
        ThingView::OutgoingHats { dropoff, .. } => Some(amount_of(dropoff.input, R::BigHats)),
        _ => None,
    }
}

/// The hats delivered depend on the delivery points alone.
pub proof fn lemma_first_delivery_same(a: Seq<ThingView>, b: Seq<ThingView>, n: int)
    requires
        0 <= n <= a.len(),
        n <= b.len(),
        forall|i: int| 0 <= i < n ==> delivery_of(#[trigger] a[i]) == delivery_of(b[i]),
    ensures
        first_delivery(a, n) == first_delivery(b, n),
    decreases n,
{
    if n > 0 {
        lemma_first_delivery_same(a, b, n - 1);
    }
}

/// Charging changes no delivery point.
pub proof fn lemma_charge_deliveries(things: Seq<ThingView>, cost: Map<R, u64>, n: int)
    requires
        n <= things.len(),
    ensures
        charge_upto(things, cost, n).0.len() == things.len(),
        forall|i: int|
            0 <= i < things.len() ==> delivery_of(#[trigger] charge_upto(things, cost, n).0[i])
                == delivery_of(things[i]),
    decreases n,
{
    if n > 0 {
        lemma_charge_deliveries(things, cost, n - 1);
    }
}

/// No action changes how many hats count as delivered, nor the order, the
/// deadline, or whether the player is still in the game.
pub proof fn lemma_action_keeps_delivered(sim: SimView, a: Action)
    ensures
        sim.after_action(a).delivered() == sim.delivered(),
        sim.after_action(a).player.delivery_deadline == sim.player.delivery_deadline,
        sim.after_action(a).player.required_hats == sim.player.required_hats,
        sim.after_action(a).player.alive_set == sim.player.alive_set,
{
    let after = sim.after_action(a);
    let n = sim.things.len() as int;
    match a {
        Action::Place(x, y, kind) => {
            match Item::spec_from_int(kind) {
                Some(item) => {
                    let paid = sim.after_buy(item.cost_of());
                    let owed = crate::player::after_give(
                        item.cost_of(),
                        crate::player::after_receive(
                            sim.stock,
                            crate::player::no_entries(),
                            item.cost_of(),
                        ),
                    );
                    lemma_charge_deliveries(sim.things, owed, n);
                    lemma_first_delivery_same(paid.things, sim.things, n);
                    if after != sim {
                        lemma_first_delivery_same(after.things, paid.things, n);
                    }
                },
                None => {},
            }
        },
        Action::SellItem(x, y) => {
            if after != sim {
                lemma_first_delivery_same(after.things, sim.things, n);
            }
        },
        Action::MoveBlobby(x, y, id) => {
            lemma_first_delivery_same(after.things, sim.things, n);
        },
        _ => {},
    }
}

/// The state of play with the verdict of the objective of another player:
/// the deadline, the order, and whether the player is still in the game.
pub open spec fn with_verdict(sim: SimView, p: PlayerView) -> SimView {
    SimView {
        player: PlayerView {
            delivery_deadline: p.delivery_deadline,
            required_hats: p.required_hats,
            alive_set: p.alive_set,
            ..sim.player
        },
        ..sim
    }
}

/// No action reads the verdict of the objective.
pub proof fn lemma_action_ignores_verdict(sim: SimView, p: PlayerView, a: Action)
    ensures
        with_verdict(sim, p).after_action(a) == with_verdict(sim.after_action(a), p),
{
    let left = with_verdict(sim, p).after_action(a);
    let right = with_verdict(sim.after_action(a), p);
    assert(left.player =~= right.player);
    assert(left =~= right);
}

/// It makes no difference whether the objective is checked before an action
/// is carried out or after it.
pub proof fn lemma_objective_commutes(sim: SimView, a: Action)
    ensures
        sim.after_objective().after_action(a) == sim.after_action(a).after_objective(),
{
    let checked = sim.after_objective();
    assert(checked =~= with_verdict(sim, checked.player));
    lemma_action_ignores_verdict(sim, checked.player, a);
    lemma_action_keeps_delivered(sim, a);
    let acted = sim.after_action(a);
    assert(acted.after_objective() =~= with_verdict(acted, checked.player));
}

/// It makes no difference whether the objective is checked before actions
/// are carried out or after them.
pub proof fn lemma_objective_commutes_fold(sim: SimView, q: Seq<Action>, n: int)
    requires
        0 <= n <= q.len(),
    ensures
        sim_fold(sim.after_objective(), q, n) == sim_fold(sim, q, n).after_objective(),
    decreases n,
{
    if n > 0 {
        lemma_objective_commutes_fold(sim, q, n - 1);
        lemma_objective_commutes(sim_fold(sim, q, n - 1), q[n - 1]);
    }
}

/// Carrying out two queues one after the other is carrying out the one queue
/// that holds the actions of both.
pub proof fn lemma_fold_concat(sim: SimView, a: Seq<Action>, b: Seq<Action>, n: int)
    requires
        0 <= n <= b.len(),
    ensures
        sim_fold(sim, a + b, a.len() + n) == sim_fold(sim_fold(sim, a, a.len() as int), b, n),
    decreases n,
{
    if n > 0 {
        lemma_fold_concat(sim, a, b, n - 1);
    } else {
        lemma_fold_prefix(sim, a + b, a, a.len() as int);
    }
}

/// What a recording gains for the first `n` actions does not depend on the
/// actions that follow them.
pub proof fn lemma_recorded_prefix(a: Seq<Action>, b: Seq<Action>, stamp: u32, n: int)
    requires
        0 <= n <= a.len(),
        n <= b.len(),
        forall|i: int| 0 <= i < n ==> a[i] == b[i],
    ensures
        recorded_upto(a, stamp, n) == recorded_upto(b, stamp, n),
    decreases n,
{
    if n > 0 {
        lemma_recorded_prefix(a, b, stamp, n - 1);
    }
}

/// Recording two queues one after the other under one tick is recording the
/// one queue that holds the actions of both.
pub proof fn lemma_recorded_concat(a: Seq<Action>, b: Seq<Action>, stamp: u32, n: int)
    requires
        0 <= n <= b.len(),
    ensures
        recorded_upto(a + b, stamp, a.len() + n) == recorded_upto(a, stamp, a.len() as int)
            + recorded_upto(b, stamp, n),
    decreases n,
{
    if n > 0 {
        lemma_recorded_concat(a, b, stamp, n - 1);
    } else {
        lemma_recorded_prefix(a + b, a, stamp, a.len() as int);
    }
}

/// No action of `q` starts the game anew.
pub open spec fn unbroken(q: Seq<Action>) -> bool {
    forall|i: int| 0 <= i < q.len() ==> q[i] != Action::RestartGame
}

/// One tick of a world that records.
///
/// While play is halted, the waiting actions are carried out and recorded
/// under the tick that the clock shows, and the clock stands still. While
/// play goes on and the player is alive, the clock advances by one, goods
/// move, the actions are carried out and the objective is checked, and the
/// actions are recorded under the new tick.
pub proof fn lemma_tick_live(w: WorldView)
    requires
        !w.play,
        !w.disable_rec,
        w.paused || w.sim.player.alive_set,
        w.sim.player.step < u64::MAX,
    ensures
        w.paused ==> w.after_tick().sim == sim_fold(w.sim, w.queue, w.queue.len() as int)
            && w.after_tick().sim.player.step == w.sim.player.step,
        !w.paused ==> w.after_tick().sim == sim_fold(
            w.sim.after_set_level(TIMESTEP_MILLI).after_phases(),
            w.queue,
            w.queue.len() as int,
        ).after_objective() && w.after_tick().sim.player.step == w.sim.player.step + 1,
        w.after_tick().log == w.log + recorded_upto(
            w.queue,
            step_stamp(w.after_tick().sim.player.step),
            w.queue.len() as int,
        ),
        !w.after_tick().play,
        !w.after_tick().disable_rec,
        w.after_tick().queue.len() == 0,
        unbroken(w.queue) ==> w.after_tick().restart == w.restart,
{
    reveal(WorldView::after_tick);
    let q = w.queue;
    let w1 = if w.paused {
        w
    } else {
        w.with_sim(w.sim.after_set_level(TIMESTEP_MILLI))
    };
    let w3 = if w.paused {
        w1
    } else {
        w1.with_sim(w1.sim.after_phases())
    };
    lemma_phases_frame(w1.sim);
    lemma_actions_sim(w3, q, q.len() as int);
    lemma_fold_clock(w3.sim, q, q.len() as int);
}

/// One tick of a world that plays a recording back.
///
/// Let the recording continue with the entries that some actions `g` leave
/// under the next tick, and after that with nothing of that tick. Then the
/// tick advances the clock, moves the goods, carries out the lasting actions
/// among `g`, and checks the objective; and the replay has moved on by those
/// entries.
pub proof fn lemma_tick_replay(w: WorldView, g: Seq<Action>)
    requires
        !w.paused,
        w.play,
        w.queue.len() == 0,
        w.sim.player.alive_set,
        w.sim.player.step < u32::MAX,
        0 <= w.play_head,
        w.play_head + recorded_upto(
            g,
            step_stamp((w.sim.player.step + 1) as u64),
            g.len() as int,
        ).len() <= w.log.len(),
        w.log.subrange(
            w.play_head,
            w.play_head + recorded_upto(
                g,
                step_stamp((w.sim.player.step + 1) as u64),
                g.len() as int,
            ).len(),
        ) == recorded_upto(g, step_stamp((w.sim.player.step + 1) as u64), g.len() as int),
        w.play_head + recorded_upto(
            g,
            step_stamp((w.sim.player.step + 1) as u64),
            g.len() as int,
        ).len() == w.log.len() || w.log[w.play_head + recorded_upto(
            g,
            step_stamp((w.sim.player.step + 1) as u64),
            g.len() as int,
        ).len()].0 as u64 != w.sim.player.step + 1,
    ensures
        w.after_tick().sim == sim_fold(
            w.sim.after_set_level(TIMESTEP_MILLI).after_phases(),
            g,
            g.len() as int,
        ).after_objective(),
        w.after_tick().play_head == w.play_head + recorded_upto(
            g,
            step_stamp((w.sim.player.step + 1) as u64),
            g.len() as int,
        ).len(),
        w.after_tick().log == w.log,
        w.after_tick().queue.len() == 0,
        w.after_tick().play,
        w.after_tick().disable_rec == w.disable_rec,
        !w.after_tick().paused,
        w.after_tick().restart == w.restart,
{
    reveal(WorldView::after_tick);
    let step = (w.sim.player.step + 1) as u64;
    let stamp = step_stamp(step);
    let rec = recorded_upto(g, stamp, g.len() as int);
    let k = rec.len() as int;
    let head = w.play_head;
    let p1 = w.with_sim(w.sim.after_set_level(TIMESTEP_MILLI));
    lemma_recorded_lasting(g, stamp, g.len() as int);
    assert forall|i: int| head <= i < head + k implies (#[trigger] w.log[i]).0 as u64 == step by {
        assert(w.log.subrange(head, head + k)[i - head] == w.log[i]);
        assert(rec[i - head].0 == stamp);
    }
    lemma_run_end(w.log, head, step, k);
    let p2 = p1.after_inject();
    let injected = Seq::new(k as nat, |i: int| Action::decode(w.log[head + i].1));
    assert(injected =~= lasting(g)) by {
        assert forall|i: int| 0 <= i < k implies injected[i] == lasting(g)[i] by {
            assert(w.log.subrange(head, head + k)[i] == w.log[head + i]);
            assert(rec[i] == (stamp, lasting(g)[i].encode()));
            lemma_round_trip(lasting(g)[i]);
        }
    }
    let p3 = p2.with_sim(p2.sim.after_phases());
    lemma_actions_sim(p3, p3.queue, p3.queue.len() as int);
    lemma_fold_lasting(p3.sim, g, g.len() as int);
    lemma_actions_frame(p3, p3.queue, p3.queue.len() as int);
}

/// The actions submitted before the frames from `from` up to `to`, one after the other.
pub open spec fn gathered(inputs: Seq<Seq<Action>>, from: int, to: int) -> Seq<Action>
    decreases to - from,
{
    if to <= from {
        Seq::empty()
    } else {
        gathered(inputs, from, to - 1) + inputs[to - 1]
    }
}

/// The frame with which the tick began that was the last to begin before
/// frame `n`: the last frame before `n` at whose start play was going on.
pub open spec fn tick_start(w: WorldView, inputs: Seq<Seq<Action>>, n: int) -> int
    decreases n,
{
    if n <= 0 {
        0
    } else if !run_live(w, inputs, n - 1).paused {
        n - 1
    } else {
        tick_start(w, inputs, n - 1)
    }
}

/// The player is alive at the start of each of the first `n` frames at which
/// play is going on.
pub open spec fn alive_when_running(w: WorldView, inputs: Seq<Seq<Action>>, n: int) -> bool {
    forall|i: int|
        0 <= i < n ==> (#[trigger] run_live(w, inputs, i)).paused || run_live(
            w,
            inputs,
            i,
        ).sim.player.alive_set
}

/// None of the first `n` batches of actions starts the game anew.
pub open spec fn unbroken_through(inputs: Seq<Seq<Action>>, n: int) -> bool {
    forall|i: int| 0 <= i < n ==> unbroken(#[trigger] inputs[i])
}

/// What `m` frames of a recording game do to the clock and to the recording:
/// the clock never runs backwards and advances by at most one per frame; and
/// what was recorded up to frame `n` stays, followed by entries of the same
/// tick or of later ticks, and of later ticks only if play was going on
/// after frame `n`.
pub proof fn lemma_live_frames(w: WorldView, inputs: Seq<Seq<Action>>, n: int, m: int)
    requires
        0 <= n <= m <= inputs.len(),
        !w.play,
        !w.disable_rec,
        alive_when_running(w, inputs, m),
        unbroken_through(inputs, m),
        w.sim.player.step + m < u32::MAX,
    ensures
        w.sim.player.step <= run_live(w, inputs, n).sim.player.step <= run_live(
            w,
            inputs,
            m,
        ).sim.player.step <= w.sim.player.step + m,
        n < m ==> run_live(w, inputs, m).sim.player.step >= run_live(
            w,
            inputs,
            n,
        ).sim.player.step + (if run_live(w, inputs, n).paused {
            0int
        } else {
            1int
        }),
        !run_live(w, inputs, m).play,
        !run_live(w, inputs, m).disable_rec,
        run_live(w, inputs, m).restart == w.restart,
        run_live(w, inputs, n).log.len() <= run_live(w, inputs, m).log.len(),
        run_live(w, inputs, m).log.subrange(0, run_live(w, inputs, n).log.len() as int)
            == run_live(w, inputs, n).log,
        forall|i: int|
            run_live(w, inputs, n).log.len() <= i < run_live(w, inputs, m).log.len() ==> (
            #[trigger] run_live(w, inputs, m).log[i]).0 as u64 >= run_live(
                w,
                inputs,
                n,
            ).sim.player.step + (if run_live(w, inputs, n).paused {
                0int
            } else {
                1int
            }),
    decreases m,
{
    if m == 0 {
        assert(run_live(w, inputs, m).log.subrange(0, w.log.len() as int) =~= w.log);
    } else {
        let pick = if n < m {
            n
        } else {
            m - 1
        };
        lemma_live_frames(w, inputs, pick, m - 1);
        lemma_live_frames(w, inputs, 0, m - 1);
        let before = run_live(w, inputs, m - 1);
        let fed = WorldView { queue: inputs[m - 1], ..before };
        let after = fed.after_tick();
        assert(after == run_live(w, inputs, m));
        assert(before.paused || before.sim.player.alive_set);
        assert(unbroken(inputs[m - 1]));
        lemma_tick_live(fed);
        let stamp = step_stamp(after.sim.player.step);
        let rec = recorded_upto(fed.queue, stamp, fed.queue.len() as int);
        lemma_recorded_lasting(fed.queue, stamp, fed.queue.len() as int);
        if n < m {
            let kept = run_live(w, inputs, n).log;
            assert(after.log.subrange(0, kept.len() as int) =~= before.log.subrange(
                0,
                kept.len() as int,
            ));
            assert forall|i: int| kept.len() <= i < after.log.len() implies (
            #[trigger] after.log[i]).0 as u64 >= run_live(w, inputs, n).sim.player.step + (
            if run_live(w, inputs, n).paused {
                0int
            } else {
                1int
            }) by {
                if i < before.log.len() {
                    assert(after.log[i] == before.log[i]);
                } else {
                    assert(after.log[i] == rec[i - before.log.len()]);
                    if n == m - 1 {
                        assert(run_live(w, inputs, n) == before);
                    }
                }
            }
        } else {
            assert(after.log.subrange(0, after.log.len() as int) =~= after.log);
        }
    }
}

/// The state of play after the clock has advanced and the goods have moved.
pub open spec fn set_going(sim: SimView) -> SimView {
    sim.after_set_level(TIMESTEP_MILLI).after_phases()
}

/// How a game and its replay stand to each other after `n` frames of the game.
///
/// Let the last tick have begun with frame `m`, let `k` be the number of
/// ticks by which the clock of the game has advanced, and take the replay
/// after `k - 1` ticks. Then the replay shows the state of play with which
/// that frame began and has played back what was recorded before it; the
/// game shows what this tick and the actions submitted since make of that
/// state; and the recording has gained the entries of those actions.
pub open spec fn in_step(
    live: WorldView,
    replay: WorldView,
    inputs: Seq<Seq<Action>>,
    n: int,
) -> bool {
    let now = run_live(live, inputs, n);
    let m = tick_start(live, inputs, n);
    let began = run_live(live, inputs, m);
    let k = now.sim.player.step - live.sim.player.step;
    let behind = run_alone(replay, k - 1);
    let g = gathered(inputs, m, n);
    &&& 0 <= m < n
    &&& !began.paused
    &&& now.sim.player.step == began.sim.player.step + 1
    &&& k >= 1
    &&& behind.sim == began.sim
    &&& behind.play_head == began.log.len()
    &&& behind.log == replay.log
    &&& behind.queue.len() == 0
    &&& behind.play
    &&& behind.disable_rec == replay.disable_rec
    &&& !behind.paused
    &&& behind.restart == replay.restart
    &&& now.sim == sim_fold(set_going(began.sim), g, g.len() as int).after_objective()
    &&& now.log == began.log + recorded_upto(g, step_stamp(now.sim.player.step), g.len() as int)
}

/// A replay that has run for as many ticks as the clock of the game has
/// advanced shows the state of play of the game, and has played back what
/// the game has recorded.
pub open spec fn caught_up(
    live: WorldView,
    replay: WorldView,
    inputs: Seq<Seq<Action>>,
    n: int,
) -> bool {
    let now = run_live(live, inputs, n);
    let played = run_alone(replay, now.sim.player.step - live.sim.player.step);
    &&& played.sim == now.sim
    &&& played.play_head == now.log.len()
    &&& played.log == replay.log
    &&& played.queue.len() == 0
    &&& played.play
    &&& played.disable_rec == replay.disable_rec
    &&& !played.paused
    &&& played.restart == replay.restart
}

/// What a game and its replay need to start from.
pub open spec fn paired(
    live: WorldView,
    replay: WorldView,
    inputs: Seq<Seq<Action>>,
    total: int,
) -> bool {
    &&& 0 <= total <= inputs.len()
    &&& live.sim == replay.sim
    &&& !live.paused
    &&& !live.play
    &&& !live.disable_rec
    &&& !replay.paused
    &&& replay.play
    &&& replay.queue.len() == 0
    &&& replay.play_head == live.log.len()
    &&& replay.log == run_live(live, inputs, total).log
    &&& alive_when_running(live, inputs, total)
    &&& unbroken_through(inputs, total)
    &&& live.sim.player.step + total < u32::MAX
}

/// A frame keeps a game and its replay in step.
proof fn lemma_frame_in_step(
    live: WorldView,
    replay: WorldView,
    inputs: Seq<Seq<Action>>,
    total: int,
    n: int,
)
    requires
        paired(live, replay, inputs, total),
        1 <= n <= total,
        !run_live(live, inputs, n - 1).paused ==> caught_up(live, replay, inputs, n - 1),
        n >= 2 ==> in_step(live, replay, inputs, n - 1),
    ensures
        in_step(live, replay, inputs, n),
{
    lemma_live_frames(live, inputs, n - 1, n - 1);
    let before = run_live(live, inputs, n - 1);
    let q = inputs[n - 1];
    let fed = WorldView { queue: q, ..before };
    let now = run_live(live, inputs, n);
    assert(now == fed.after_tick());
    assert(before.paused || before.sim.player.alive_set);
    lemma_tick_live(fed);
    let m = tick_start(live, inputs, n);
    let began = run_live(live, inputs, m);
    let g = gathered(inputs, m, n);
    let stamp = step_stamp(now.sim.player.step);
    if !before.paused {
        assert(m == n - 1);
        assert(gathered(inputs, n - 1, n - 1) =~= Seq::<Action>::empty());
        assert(g =~= q);
    } else {
        assert(n >= 2);
        let old_g = gathered(inputs, m, n - 1);
        assert(m == tick_start(live, inputs, n - 1));
        assert(g == old_g + q);
        let going = set_going(began.sim);
        lemma_objective_commutes_fold(sim_fold(going, old_g, old_g.len() as int), q, q.len() as int);
        lemma_fold_concat(going, old_g, q, q.len() as int);
        lemma_recorded_concat(old_g, q, stamp, q.len() as int);
        assert(now.log =~= began.log + recorded_upto(g, stamp, g.len() as int));
    }
}

/// Where play goes on after a frame, the replay catches up with the game.
proof fn lemma_frame_caught_up(
    live: WorldView,
    replay: WorldView,
    inputs: Seq<Seq<Action>>,
    total: int,
    n: int,
)
    requires
        paired(live, replay, inputs, total),
        1 <= n <= total,
        in_step(live, replay, inputs, n),
        !run_live(live, inputs, n).paused,
    ensures
        caught_up(live, replay, inputs, n),
{
    lemma_live_frames(live, inputs, n, total);
    let now = run_live(live, inputs, n);
    let m = tick_start(live, inputs, n);
    let began = run_live(live, inputs, m);
    let g = gathered(inputs, m, n);
    let k = now.sim.player.step - live.sim.player.step;
    let stamp = step_stamp(now.sim.player.step);
    let behind = run_alone(replay, k - 1);
    let rec = recorded_upto(g, stamp, g.len() as int);
    let head = behind.play_head;
    lemma_live_frames(live, inputs, 0, n);
    assert(began.paused || began.sim.player.alive_set);
    assert(head + rec.len() == now.log.len());
    assert(replay.log.subrange(head, head + rec.len()) =~= rec) by {
        assert(replay.log.subrange(0, now.log.len() as int) == now.log);
        assert forall|i: int| 0 <= i < rec.len() implies replay.log.subrange(
            head,
            head + rec.len(),
        )[i] == rec[i] by {
            assert(replay.log.subrange(0, now.log.len() as int)[head + i] == now.log[head + i]);
        }
    }
    lemma_tick_replay(behind, g);
    assert(run_alone(replay, k) == behind.after_tick());
}

/// Replay determinism.
///
/// Play a game for `total` frames from a world that is running and recording,
/// with any actions submitted before each frame, none of which starts the
/// game anew, and with the player alive whenever play goes on. Play may be
/// halted and resumed as often as the actions ask for. Take a second world
/// with the same state of play, and let it play back what the first world has
/// recorded by the end, from where the first world's recording began. Then
/// whenever play is going on in the game after a frame, the replay that has
/// run for as many ticks as the clock of the game has advanced shows the same
/// state of play: every ledger, every unit's position, the board, and the
/// player.
pub proof fn lemma_replay_determinism(
    live: WorldView,
    replay: WorldView,
    inputs: Seq<Seq<Action>>,
    total: int,
    n: int,
)
    requires
        paired(live, replay, inputs, total),
        0 <= n <= total,
    ensures
        !run_live(live, inputs, n).paused ==> run_alone(
            replay,
            run_live(live, inputs, n).sim.player.step - live.sim.player.step,
        ).sim == run_live(live, inputs, n).sim,
        !run_live(live, inputs, n).paused ==> caught_up(live, replay, inputs, n),
        n >= 1 ==> in_step(live, replay, inputs, n),
    decreases n,
{
    if n > 0 {
        lemma_replay_determinism(live, replay, inputs, total, n - 1);
        lemma_frame_in_step(live, replay, inputs, total, n);
        if !run_live(live, inputs, n).paused {
            lemma_frame_caught_up(live, replay, inputs, total, n);
        }
    }
}

} // verus!
