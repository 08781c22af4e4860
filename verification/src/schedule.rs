use crate::action::{
    apply_actions, record_actions, replay_actions, Action, ActionRecording, FASTEST, SLOWEST,
};
use crate::board::{Entity, IVec2};
use crate::items::{
    blobby_get_resource, blobby_put_resource, move_blobby_along_path, receive_plastic,
    update_blobby_paths,
};
use crate::player::{
    delivered_hats, hats_objective, process_factories, set_level, update_player_resources,
    Resources,
};
use crate::world::{log_view, restart_game, PausedState, SimView, World, WorldView};
use vstd::prelude::*;

verus! {

/// Milliseconds of play in one tick.
pub const TIMESTEP_MILLI: u64 = 16;

impl SimView {
    /// The state of play after the phases that move goods: plastic arrives,
    /// units fetch, deliver, look for routes and move, producers work, and what
    /// the player owns is added up, in this order.
    pub open spec fn after_phases(self) -> SimView {
        self.after_plastic().after_fetches().after_deliveries().after_repaths().after_moves().after_factories().after_aggregate()
    }
}

impl WorldView {
    /// The world one tick later, before a restart that the tick may have asked for.
    ///
    /// In order: the clock advances; recorded actions of the new tick join the
    /// waiting ones; goods move; the waiting actions are carried out; the
    /// objective is checked; the actions are recorded, unless a recording is
    /// played back or recording is switched off, and dropped. While play
    /// is halted, the clock, the goods and the objective rest, and only the
    /// actions are seen to.
    #[verifier::opaque]
    pub open spec fn after_tick(self) -> WorldView {
        let active = !self.paused;
        let clocked = if active {
            self.with_sim(self.sim.after_set_level(TIMESTEP_MILLI))
        } else {
            self
        };
        let joined = clocked.after_inject();
        let moved = if active {
            joined.with_sim(joined.sim.after_phases())
        } else {
            joined
        };
        let acted = moved.after_actions();
        let checked = if active {
            acted.with_sim(acted.sim.after_objective())
        } else {
            acted
        };
        checked.after_record()
    }

    /// The number of delivered hats for which the tick starts a new order, if it starts one.
    #[verifier::opaque]
    pub open spec fn tick_renews(self) -> Option<u64> {
        let active = !self.paused;
        let clocked = if active {
            self.with_sim(self.sim.after_set_level(TIMESTEP_MILLI))
        } else {
            self
        };
        let joined = clocked.after_inject();
        let moved = if active {
            joined.with_sim(joined.sim.after_phases())
        } else {
            joined
        };
        let acted = moved.after_actions();
        if active && acted.sim.delivered() >= acted.sim.player.required_hats {
            Some(acted.sim.delivered())
        } else {
            None
        }
    }
}

/// Advances the world by one tick, and starts the game anew if an action of
/// the tick asked for that.
///
/// Where the tick starts a new order, the result is the number of hats
/// delivered so far: the deadline of the new order can then be extended.
pub fn tick(world: &mut World) -> (renewed: Option<u64>)
    requires
        old(world).wf(),
    ensures
        final(world).wf(),
        renewed == old(world)@.tick_renews(),
        !old(world)@.after_tick().restart ==> final(world)@ == old(world)@.after_tick(),
        !old(world)@.after_tick().restart && !old(world)@.records() ==> final(world)@.log
            == old(world)@.log,
        old(world)@.after_tick().restart ==> final(world)@.sim.is_new_game(old(world).cheats)
            && final(world)@.time_multiplier == old(world)@.after_tick().time_multiplier
            && final(world)@.queue.len() == 0 && final(world)@.log.len() == 0
            && !final(world)@.disable_rec && !final(world)@.play && final(world)@.play_head == 0
            && !final(world)@.restart && final(world)@.paused == old(world)@.after_tick().paused,
{
    proof {
        reveal(WorldView::after_tick);
        reveal(WorldView::tick_renews);
    }
    let active = match world.paused {
        PausedState::Unpaused => true,
        PausedState::Paused => false,
    };
    if active {
        set_level(world, TIMESTEP_MILLI);
    }
    replay_actions(world);
    if active {
        receive_plastic(world);
        blobby_get_resource(world);
        blobby_put_resource(world);
        update_blobby_paths(world);
        move_blobby_along_path(world);
        process_factories(world);
        update_player_resources(world);
    }
    apply_actions(world);
    let renewed = if active {
        hats_objective(world)
    } else {
        None
    };
    record_actions(world);
    proof {
        lemma_cheats_fixed(old(world)@);
        if !old(world)@.records() {
            crate::invariants::lemma_replay_only_reads(old(world)@);
        }
    }
    restart_game(world);
    renewed
}

/// A tick gives no one the right to have resources or time granted who did
/// not have it before.
pub proof fn lemma_cheats_fixed(w: WorldView)
    ensures
        w.after_tick().sim.cheats == w.sim.cheats,
{
    reveal(WorldView::after_tick);
    let active = !w.paused;
    let clocked = if active {
        w.with_sim(w.sim.after_set_level(TIMESTEP_MILLI))
    } else {
        w
    };
    let joined = clocked.after_inject();
    let moved = if active {
        joined.with_sim(joined.sim.after_phases())
    } else {
        joined
    };
    crate::replay::lemma_fetches_frame(joined.sim.after_plastic(), joined.sim.things.len() as int);
    crate::replay::lemma_deliveries_frame(
        joined.sim.after_plastic().after_fetches(),
        joined.sim.things.len() as int,
    );
    crate::replay::lemma_actions_frame(moved, moved.queue, moved.queue.len() as int);
}

impl World {
    /// Lets an action wait for the next tick.
    pub fn submit(&mut self, action: Action)
        ensures
            final(self)@ == (WorldView { queue: old(self)@.queue.push(action), ..old(self)@ }),
            old(self).wf() ==> final(self).wf(),
    {
        self.queue.0.push(action);
    }

    /// Everything the player owned when it was last added up.
    pub fn snapshot_player_resources(&self) -> (r: Resources)
        ensures
            r@ == self@.sim.player.combined_resources,
    {
        self.player.combined_resources.clone()
    }

    /// What stands on a tile; a coordinate off the board counts as the nearest tile.
    pub fn query_tile(&self, x: i32, y: i32) -> (e: Option<Entity>)
        requires
            self.wf(),
        ensures
            e == self@.sim.grid.tiles[self@.sim.grid.spec_ls_to_idx(IVec2 { x, y })],
    {
        let idx = self.board.ls_to_idx(IVec2 { x, y });
        self.board.board[idx]
    }

    /// Whether the player is still in the game, the hats delivered, the hats on
    /// order, and the ticks left to deliver them.
    pub fn objective_state(&self) -> (state: (bool, u64, u64, u64))
        ensures
            state.0 == self@.sim.player.alive_set,
            state.1 == self@.sim.delivered(),
            state.2 == self@.sim.player.required_hats,
            state.3 == self@.sim.player.delivery_deadline,
    {
        (
            self.player.alive_set,
            delivered_hats(self),
            self.player.required_hats,
            self.player.delivery_deadline,
        )
    }

    /// Sets the speed of play, in tenths, held between the slowest and the fastest.
    pub fn set_time_multiplier(&mut self, tenths: u64)
        ensures
            final(self)@ == (WorldView {
                time_multiplier: if tenths < SLOWEST {
                    SLOWEST
                } else if tenths > FASTEST {
                    FASTEST
                } else {
                    tenths
                },
                ..old(self)@
            }),
            old(self).wf() ==> final(self).wf(),
    {
        self.player.time_multiplier = if tenths < SLOWEST {
            SLOWEST
        } else if tenths > FASTEST {
            FASTEST
        } else {
            tenths
        };
    }

    /// The milliseconds that should pass between two ticks at the speed of play that is set.
    pub fn step_millis(&self) -> (millis: u64)
        ensures
            self@.time_multiplier > 0 ==> millis == (TIMESTEP_MILLI * 10) / (self@.time_multiplier as int),
            self@.time_multiplier == 0 ==> millis == TIMESTEP_MILLI,
    {
        if self.player.time_multiplier == 0 {
            TIMESTEP_MILLI
        } else {
            TIMESTEP_MILLI * 10 / self.player.time_multiplier
        }
    }

    /// Switches to playing back a recording, from its first entry.
    pub fn start_replay(&mut self, log: ActionRecording)
        ensures
            final(self)@ == (WorldView {
                log: log_view(log.0@),
                play: true,
                disable_rec: true,
                play_head: 0,
                ..old(self)@
            }),
            old(self).wf() ==> final(self).wf(),
    {
        self.recorder.actions = log;
        self.recorder.play = true;
        self.recorder.disable_rec = true;
        self.recorder.play_head = 0;
    }

    /// Switches back to recording.
    pub fn stop_replay(&mut self)
        ensures
            final(self)@ == (WorldView { play: false, disable_rec: false, ..old(self)@ }),
            old(self).wf() ==> final(self).wf(),
    {
        self.recorder.play = false;
        self.recorder.disable_rec = false;
    }
}

} // verus!
