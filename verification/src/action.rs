use crate::board::{Entity, IVec2};
use crate::items::{
    spawn_factory, spawn_outgoing_hats, Blobby, Item, Path, Thing, ThingView,
};
use crate::player::{
    add_saturating, after_give, after_receive, covers, no_entries, sat_add, PlayerView,
    Resources, BLOBBY_SPEED, KIND_COUNT, LEVEL_MILLIS, R,
};
use crate::world::{things_view, PausedState, SimView, World, WorldView};
use vstd::prelude::*;

verus! {

/// One thing a player can ask for.
#[derive(Clone, Copy, Eq, PartialEq, Debug, Structural)]
pub enum Action {
    Empty,
    /// Sell what stands on the tile (x, y).
    SellItem(u8, u8),
    GameSpeedDec,
    GameSpeedInc,
    GamePause,
    RestartGame,
    CheatCredits,
    CheatLevel,
    /// Send the unit with the given id to the tile (x, y).
    MoveBlobby(u8, u8, u8),
    /// Place an item of the given kind on the tile (x, y).
    Place(u8, u8, u8),
}

impl Action {
    /// The four-byte record of an action: a tag and three arguments.
    pub open spec fn encode(self) -> Seq<u8> {
        match self {
            Action::Empty => seq![0u8, 0u8, 0u8, 0u8],
            Action::SellItem(x, y) => seq![1u8, x, y, 0u8],
            Action::GameSpeedDec => seq![2u8, 0u8, 0u8, 0u8],
            Action::GameSpeedInc => seq![3u8, 0u8, 0u8, 0u8],
            Action::GamePause => seq![4u8, 0u8, 0u8, 0u8],
            Action::RestartGame => seq![5u8, 0u8, 0u8, 0u8],
            Action::CheatCredits => seq![6u8, 0u8, 0u8, 0u8],
            Action::CheatLevel => seq![7u8, 0u8, 0u8, 0u8],
            Action::MoveBlobby(x, y, id) => seq![8u8, x, y, id],
            Action::Place(x, y, id) => seq![9u8, x, y, id],
        }
    }

    /// The action that a four-byte record stands for. A record with an unknown
    /// tag stands for `Empty`.
    pub open spec fn decode(bytes: Seq<u8>) -> Action {
        let x = bytes[1];
        let y = bytes[2];
        let id = bytes[3];
        let tag = bytes[0];
        if tag == 1 {
            Action::SellItem(x, y)
        } else if tag == 2 {
            Action::GameSpeedDec
        } else if tag == 3 {
            Action::GameSpeedInc
        } else if tag == 4 {
            Action::GamePause
        } else if tag == 5 {
            Action::RestartGame
        } else if tag == 6 {
            Action::CheatCredits
        } else if tag == 7 {
            Action::CheatLevel
        } else if tag == 8 {
            Action::MoveBlobby(x, y, id)
        } else if tag == 9 {
            Action::Place(x, y, id)
        } else {
            Action::Empty
        }
    }

    /// Whether an action only steers the session and leaves no trace in a recording.
    pub open spec fn is_transient(self) -> bool {
        self is Empty || self is GameSpeedDec || self is GameSpeedInc || self is GamePause
            || self is RestartGame
    }

    /// The four-byte record of the action.
    pub fn to_bytes(&self) -> (bytes: [u8; 4])
        ensures
            bytes@ == self.encode(),
    {
        let bytes: [u8; 4] = match self {
            Action::Empty => [0, 0, 0, 0],
            Action::SellItem(x, y) => [1, *x, *y, 0],
            Action::GameSpeedDec => [2, 0, 0, 0],
            Action::GameSpeedInc => [3, 0, 0, 0],
            Action::GamePause => [4, 0, 0, 0],
            Action::RestartGame => [5, 0, 0, 0],
            Action::CheatCredits => [6, 0, 0, 0],
            Action::CheatLevel => [7, 0, 0, 0],
            Action::MoveBlobby(x, y, id) => [8, *x, *y, *id],
            Action::Place(x, y, id) => [9, *x, *y, *id],
        };
        bytes
    }

    /// The action that a four-byte record stands for; `Empty` for an unknown tag.
    pub fn from_bytes(bytes: [u8; 4]) -> (a: Action)
        ensures
            a == Action::decode(bytes@),
    {
        let x = bytes[1];
        let y = bytes[2];
        let id = bytes[3];
        match bytes[0] {
            0 => Action::Empty,
            1 => Action::SellItem(x, y),
            2 => Action::GameSpeedDec,
            3 => Action::GameSpeedInc,
            4 => Action::GamePause,
            5 => Action::RestartGame,
            6 => Action::CheatCredits,
            7 => Action::CheatLevel,
            8 => Action::MoveBlobby(x, y, id),
            9 => Action::Place(x, y, id),
            _ => Action::Empty,
        }
    }

    /// Whether an action only steers the session and leaves no trace in a recording.
    pub fn transient(&self) -> (t: bool)
        ensures
            t == self.is_transient(),
    {
        match self {
            Action::Empty => true,
            Action::GameSpeedDec => true,
            Action::GameSpeedInc => true,
            Action::GamePause => true,
            Action::RestartGame => true,
            _ => false,
        }
    }
}

/// Every action survives being written as a record and read back.
pub proof fn lemma_round_trip(a: Action)
    ensures
        Action::decode(a.encode()) == a,
        a.encode().len() == 4,
        a.encode()[0] <= 9,
{
}

/// A record whose tag is not one of the ten known tags reads as `Empty`.
pub proof fn lemma_unknown_tag(bytes: Seq<u8>)
    requires
        bytes.len() == 4,
        bytes[0] > 9,
    ensures
        Action::decode(bytes) == Action::Empty,
{
}

/// The recorded actions, each with the tick at which it was carried out.
#[derive(Eq, PartialEq, Default, Debug)]
pub struct ActionRecording(pub Vec<(u32, [u8; 4])>);

/// Records the actions of a game, or plays a recording back. Nothing is
/// recorded while a recording is played back, nor while recording is switched
/// off.
#[derive(Default, Debug)]
pub struct GameRecorder {
    pub actions: ActionRecording,
    /// Recording is switched off.
    pub disable_rec: bool,
    /// The recording is being played back.
    pub play: bool,
    /// The first entry of the recording that was not played back yet.
    pub play_head: usize,
}

/// The actions that wait to be carried out, oldest first.
#[derive(Default, Debug)]
pub struct ActionQueue(pub Vec<Action>);

/// What the action that grants resources adds to every kind the player has an entry for.
pub const CREDIT_GRANT: u64 = 1000;

/// The slowest speed of play, in tenths.
pub const SLOWEST: u64 = 1;

/// The fastest speed of play, in tenths.
pub const FASTEST: u64 = 100;

/// One thing after it was charged `owed`, what is still owed after that, and
/// whether everything was paid. Only warehouses and producers can be charged.
pub open spec fn charge_one(t: ThingView, owed: Map<R, u64>) -> (ThingView, Map<R, u64>, bool) {
    match t.owned() {
        Some(r) => (
            t.with_pile(after_give(r, owed)),
            if covers(r, owed) {
                owed
            } else {
                after_give(owed, after_receive(r, no_entries(), owed))
            },
            covers(r, owed),
        ),
        None => (t, owed, false),
    }
}

/// The first `n` things after they were charged `cost`, one after the other
/// until everything was paid; what is still owed; and whether everything was paid.
pub open spec fn charge_upto(things: Seq<ThingView>, cost: Map<R, u64>, n: int) -> (
    Seq<ThingView>,
    Map<R, u64>,
    bool,
)
    decreases n,
{
    if n <= 0 {
        (things, cost, false)
    } else {
        let before = charge_upto(things, cost, n - 1);
        if before.2 {
            before
        } else {
            let step = charge_one(before.0[n - 1], before.1);
            (before.0.update(n - 1, step.0), step.1, step.2)
        }
    }
}

impl ThingView {
    /// A unit with the given id after it was sent to `dest`: it forgets its
    /// pile and its drop-off. Nothing else is affected.
    pub open spec fn ordered_to(self, dest: IVec2, id: u8) -> ThingView {
        match self {
            ThingView::Unit { blobby, path, resources, position } => if blobby.id == id {
                ThingView::Unit {
                    blobby: Blobby { dest: Some(dest), resource_pile: None, drop_off: None, ..blobby },
                    path,
                    resources,
                    position,
                }
            } else {
                self
            },
            _ => self,
        }
    }
}

impl SimView {
    /// Whether the player owns what something costs.
    pub open spec fn can_buy(self, cost: Map<R, u64>) -> bool {
        covers(self.player.combined_resources, cost)
    }

    /// The state of play after the player has paid `cost`, if the player owns
    /// that much. The stock is charged first, then warehouses and producers in
    /// creation order, each for what is still owed, until everything is paid.
    pub open spec fn after_buy(self, cost: Map<R, u64>) -> SimView {
        if !self.can_buy(cost) {
            self
        } else {
            let owed = after_give(cost, after_receive(self.stock, no_entries(), cost));
            SimView {
                player: PlayerView {
                    combined_resources: after_give(self.player.combined_resources, cost),
                    ..self.player
                },
                stock: after_give(self.stock, cost),
                things: if covers(self.stock, cost) {
                    self.things
                } else {
                    charge_upto(self.things, owed, self.things.len() as int).0
                },
                ..self
            }
        }
    }

    /// The state of play after the producer on a tile was sold: what it had
    /// made goes to the stock, and the tile is free again. Anything else on the
    /// tile stays.
    pub open spec fn after_sell(self, x: u8, y: u8) -> SimView {
        let idx = self.grid.spec_ls_to_idx(IVec2 { x: x as i32, y: y as i32 });
        match self.grid.tiles[idx] {
            Some(e) => if e.index < self.things.len() {
                match self.things[e.index as int] {
                    ThingView::Factory { resources, .. } => SimView {
                        stock: crate::player::sum_of(self.stock, resources),
                        grid: crate::board::Grid {
                            tiles: self.grid.tiles.update(idx, None),
                            ..self.grid
                        },
                        things: self.things.update(e.index as int, ThingView::Despawned),
                        ..self
                    },
                    _ => self,
                }
            } else {
                self
            },
            None => self,
        }
    }

    /// The state of play after resources were granted, where that is allowed.
    pub open spec fn after_cheat_credits(self) -> SimView {
        if self.cheats {
            SimView {
                stock: Map::new(
                    |k: R| self.stock.contains_key(k),
                    |k: R| sat_add(self.stock[k], CREDIT_GRANT),
                ),
                ..self
            }
        } else {
            self
        }
    }

    /// The state of play after time was granted, where that is allowed.
    pub open spec fn after_cheat_level(self) -> SimView {
        if self.cheats {
            SimView {
                player: PlayerView {
                    level_time: sat_add(self.player.level_time, LEVEL_MILLIS),
                    ..self.player
                },
                ..self
            }
        } else {
            self
        }
    }

    /// The state of play after the units with the given id were sent to a tile.
    pub open spec fn after_move_order(self, x: u8, y: u8, id: u8) -> SimView {
        SimView {
            things: Seq::new(
                self.things.len(),
                |i: int| self.things[i].ordered_to(IVec2 { x: x as i32, y: y as i32 }, id),
            ),
            ..self
        }
    }

    /// The state of play after a new unit has appeared at the centre of the
    /// tile with the given index. It gets the next id.
    pub open spec fn after_unit(self, idx: int) -> SimView {
        let id = (self.player.blobby_count + 1) as u8;
        SimView {
            player: PlayerView { blobby_count: id, ..self.player },
            things: self.things.push(
                ThingView::Unit {
                    blobby: Blobby {
                        speed: BLOBBY_SPEED,
                        id,
                        dest: None,
                        resource_pile: None,
                        drop_off: None,
                        going_to_pickup: true,
                    },
                    path: None,
                    resources: no_entries(),
                    position: self.grid.spec_ls_to_ws_vec3(self.grid.spec_idx_to_ls(idx)),
                },
            ),
            ..self
        }
    }

    /// The state of play after an item was to be placed on a tile.
    ///
    /// Nothing happens where the number names no item, where the tile is
    /// occupied, where the player does not own what the item costs, or where a
    /// unit is asked for and all ids are given out. Otherwise the player pays,
    /// and the item appears: a unit at the centre of the tile, anything else on
    /// the tile.
    pub open spec fn after_place(self, x: u8, y: u8, kind: u8) -> SimView {
        let pos = IVec2 { x: x as i32, y: y as i32 };
        let idx = self.grid.spec_ls_to_idx(pos);
        match Item::spec_from_int(kind) {
            None => self,
            Some(item) => {
                if self.grid.tiles[idx] is Some {
                    self
                } else if item == Item::Blobby && self.player.blobby_count == u8::MAX {
                    self
                } else if !self.can_buy(item.cost_of()) {
                    self
                } else {
                    let paid = self.after_buy(item.cost_of());
                    match item.product() {
                        Some(kind) => paid.after_spawn(ThingView::new_factory(pos, kind), pos),
                        None => if item == Item::Blobby {
                            paid.after_unit(idx)
                        } else {
                            paid.after_spawn(ThingView::new_outgoing_hats(pos), pos)
                        },
                    }
                }
            },
        }
    }

    /// The state of play after an action that changes it was carried out.
    pub open spec fn after_action(self, a: Action) -> SimView {
        match a {
            Action::SellItem(x, y) => self.after_sell(x, y),
            Action::CheatCredits => self.after_cheat_credits(),
            Action::CheatLevel => self.after_cheat_level(),
            Action::MoveBlobby(x, y, id) => self.after_move_order(x, y, id),
            Action::Place(x, y, kind) => self.after_place(x, y, kind),
            _ => self,
        }
    }
}

/// The end of the run of entries from `head` on that belong to tick `step`.
pub open spec fn run_end(log: Seq<(u32, Seq<u8>)>, head: int, step: u64) -> int
    decreases log.len() - head,
{
    if 0 <= head < log.len() && log[head].0 as u64 == step {
        run_end(log, head + 1, step)
    } else {
        head
    }
}

/// The tick number as a recording holds it: held at `u32::MAX` where it is larger.
pub open spec fn step_stamp(step: u64) -> u32 {
    if step > u32::MAX {
        u32::MAX
    } else {
        step as u32
    }
}

/// The entries that a recording gains for the first `n` actions of a queue: one
/// for each action that is not transient, in order.
pub open spec fn recorded_upto(q: Seq<Action>, stamp: u32, n: int) -> Seq<(u32, Seq<u8>)>
    decreases n,
{
    if n <= 0 {
        Seq::empty()
    } else if q[n - 1].is_transient() {
        recorded_upto(q, stamp, n - 1)
    } else {
        recorded_upto(q, stamp, n - 1).push((stamp, q[n - 1].encode()))
    }
}

impl WorldView {
    /// The world after one action was carried out.
    pub open spec fn after_action(self, a: Action) -> WorldView {
        match a {
            Action::Empty => self,
            Action::GameSpeedDec => WorldView {
                time_multiplier: if self.time_multiplier > SLOWEST {
                    (self.time_multiplier - 1) as u64
                } else {
                    SLOWEST
                },
                ..self
            },
            Action::GameSpeedInc => WorldView {
                time_multiplier: if self.time_multiplier < FASTEST {
                    (self.time_multiplier + 1) as u64
                } else {
                    FASTEST
                },
                ..self
            },
            Action::GamePause => WorldView { paused: !self.paused, ..self },
            Action::RestartGame => WorldView { restart: true, ..self },
            _ => self.with_sim(self.sim.after_action(a)),
        }
    }

    /// The world after the first `n` actions of `q` were carried out, in order.
    pub open spec fn after_actions_upto(self, q: Seq<Action>, n: int) -> WorldView
        decreases n,
    {
        if n <= 0 {
            self
        } else {
            self.after_actions_upto(q, n - 1).after_action(q[n - 1])
        }
    }

    /// The world after the waiting actions were carried out, oldest first.
    pub open spec fn after_actions(self) -> WorldView {
        self.after_actions_upto(self.queue, self.queue.len() as int)
    }

    /// The world after the recorded actions of the current tick have joined the
    /// waiting ones. Only a world that plays a recording back is affected.
    pub open spec fn after_inject(self) -> WorldView {
        if self.play && 0 <= self.play_head {
            let end = run_end(self.log, self.play_head, self.sim.player.step);
            WorldView {
                queue: self.queue + Seq::new(
                    (end - self.play_head) as nat,
                    |i: int| Action::decode(self.log[self.play_head + i].1),
                ),
                play_head: end,
                ..self
            }
        } else {
            self
        }
    }

    /// Whether the world records what is carried out: it does unless it plays
    /// a recording back or recording is switched off.
    pub open spec fn records(self) -> bool {
        !self.play && !self.disable_rec
    }

    /// The world after the waiting actions were recorded and dropped. A world
    /// that does not record only drops them: a recording that is played back
    /// is never written to.
    pub open spec fn after_record(self) -> WorldView {
        WorldView {
            log: if !self.records() {
                self.log
            } else {
                self.log + recorded_upto(
                    self.queue,
                    step_stamp(self.sim.player.step),
                    self.queue.len() as int,
                )
            },
            queue: Seq::empty(),
            ..self
        }
    }
}

/// Charges one thing what is still owed.
fn charge(thing: &mut Thing, owed: &mut Resources) -> (done: bool)
    ensures
        final(thing)@ == charge_one(old(thing)@, old(owed)@).0,
        final(owed)@ == charge_one(old(thing)@, old(owed)@).1,
        done == charge_one(old(thing)@, old(owed)@).2,
        final(thing)@.wf() == old(thing)@.wf(),
{
    match thing {
        Thing::PlasticDepot { resources, .. } => pay_from(resources, owed),
        Thing::Factory { resources, .. } => pay_from(resources, owed),
        _ => false,
    }
}

/// Takes what is owed out of a ledger, as far as the ledger holds it, and
/// reduces what is owed by what was taken unless everything was paid.
fn pay_from(ledger: &mut Resources, owed: &mut Resources) -> (done: bool)
    ensures
        final(ledger)@ == after_give(old(ledger)@, old(owed)@),
        done == covers(old(ledger)@, old(owed)@),
        final(owed)@ == (if done {
            old(owed)@
        } else {
            after_give(old(owed)@, after_receive(old(ledger)@, no_entries(), old(owed)@))
        }),
{
    let mut got = Resources::zero();
    let done = ledger.take(owed, &mut got, false);
    if !done {
        let mut dropped = Resources::zero();
        owed.take(&got, &mut dropped, false);
    }
    done
}

/// Pays `cost` out of what the player owns, if the player owns that much.
pub fn buy(world: &mut World, cost: &Resources) -> (bought: bool)
    requires
        old(world).wf(),
    ensures
        final(world).wf(),
        bought == old(world)@.sim.can_buy(cost@),
        final(world)@ == old(world)@.with_sim(old(world)@.sim.after_buy(cost@)),
        final(world).things.len() == old(world).things.len(),
{
    let ghost before = world@;
    let mut spent = Resources::zero();
    if !world.player.combined_resources.take(cost, &mut spent, true) {
        return false;
    }
    let mut owed = cost.clone();
    let mut done = pay_from(&mut world.stock, &mut owed);
    if !done {
        let ghost owed0 = owed@;
        let n = world.things.len();
        let mut i: usize = 0;
        assert forall|j: int| 0 <= j < n implies (#[trigger] world.things[j]@).wf() by {
            assert(before.sim.things[j].wf());
        }
        while i < n
            invariant
                i <= n,
                n == world.things.len(),
                n == before.sim.things.len(),
                world.board.wf(),
                world@ == before.with_sim(
                    SimView {
                        player: world@.sim.player,
                        stock: world@.sim.stock,
                        things: things_view(world.things@),
                        ..before.sim
                    },
                ),
                world@.sim.player == (PlayerView {
                    combined_resources: after_give(before.sim.player.combined_resources, cost@),
                    ..before.sim.player
                }),
                world@.sim.stock == after_give(before.sim.stock, cost@),
                things_view(world.things@) == charge_upto(before.sim.things, owed0, i as int).0,
                owed@ == charge_upto(before.sim.things, owed0, i as int).1,
                done == charge_upto(before.sim.things, owed0, i as int).2,
                forall|j: int| 0 <= j < n ==> (#[trigger] world.things[j]@).wf(),
            decreases n - i,
        {
            if !done {
                done = charge(&mut world.things[i], &mut owed);
            }
            i += 1;
        }
    }
    true
}

/// Sells the producer on a tile, if one stands there.
fn sell(world: &mut World, x: u8, y: u8)
    requires
        old(world).wf(),
    ensures
        final(world).wf(),
        final(world)@ == old(world)@.with_sim(old(world)@.sim.after_sell(x, y)),
{
    let ghost before = world@;
    let idx = world.board.ls_to_idx(IVec2 { x: x as i32, y: y as i32 });
    if let Some(e) = world.board.board[idx] {
        if e.index < world.things.len() {
            let is_factory = match &world.things[e.index] {
                Thing::Factory { .. } => true,
                _ => false,
            };
            if is_factory {
                let mut gone = Thing::Despawned;
                core::mem::swap(&mut world.things[e.index], &mut gone);
                match gone {
                    Thing::Factory { resources, .. } => {
                        let total = world.stock.sum(&resources);
                        world.stock = total;
                    },
                    _ => {},
                }
                world.board.destroy(idx);
                proof {
                    let after = before.sim.after_sell(x, y);
                    assert(world@.sim.things =~= after.things);
                }
            }
        }
    }
}

/// Grants resources, where that is allowed.
fn cheat_credits(world: &mut World)
    requires
        old(world).wf(),
    ensures
        final(world).wf(),
        final(world)@ == old(world)@.with_sim(old(world)@.sim.after_cheat_credits()),
{
    if !world.cheats {
        return ;
    }
    let ghost before = world@;
    let mut i: usize = 0;
    while i < KIND_COUNT
        invariant
            i <= KIND_COUNT,
            world.board.wf(),
            world@ == before.with_sim(SimView { stock: world@.sim.stock, ..before.sim }),
            world@.sim.stock.dom() == before.sim.stock.dom(),
            forall|k: R|
                world@.sim.stock.contains_key(k) ==> world@.sim.stock[k] == (if k.spec_index() < i {
                    sat_add(before.sim.stock[k], CREDIT_GRANT)
                } else {
                    before.sim.stock[k]
                }),
        decreases KIND_COUNT - i,
    {
        let k = R::from_index(i);
        if let Some(v) = world.stock.get(k) {
            world.stock.insert(k, add_saturating(v, CREDIT_GRANT));
        }
        i += 1;
    }
}

/// Sends the units with the given id to a tile.
fn move_order(world: &mut World, x: u8, y: u8, id: u8)
    requires
        old(world).wf(),
    ensures
        final(world).wf(),
        final(world)@ == old(world)@.with_sim(old(world)@.sim.after_move_order(x, y, id)),
{
    let ghost before = world@;
    let dest = IVec2 { x: x as i32, y: y as i32 };
    let n = world.things.len();
    let mut i: usize = 0;
    while i < n
        invariant
            i <= n,
            n == world.things.len(),
            n == before.sim.things.len(),
            world.board.wf(),
            world@ == before.with_sim(
                SimView { things: things_view(world.things@), ..before.sim },
            ),
            forall|j: int|
                0 <= j < i ==> world.things[j]@ == before.sim.things[j].ordered_to(dest, id),
            forall|j: int| i <= j < n ==> world.things[j]@ == before.sim.things[j],
            forall|j: int| 0 <= j < n ==> (#[trigger] before.sim.things[j]).wf(),
        decreases n - i,
    {
        match &mut world.things[i] {
            Thing::Unit { blobby, .. } => {
                if blobby.id == id {
                    blobby.dest = Some(dest);
                    blobby.resource_pile = None;
                    blobby.drop_off = None;
                }
            },
            _ => {},
        }
        i += 1;
    }
    assert(world@.sim.things =~= before.sim.after_move_order(x, y, id).things);
}

/// Lets a new unit appear at the centre of the tile with the given index.
fn spawn_unit(world: &mut World, idx: usize)
    requires
        old(world).wf(),
        idx < old(world).board.board.len(),
        old(world).player.blobby_count < u8::MAX,
    ensures
        final(world).wf(),
        final(world)@ == old(world)@.with_sim(old(world)@.sim.after_unit(idx as int)),
{
    let ghost before = world@;
    world.player.blobby_count = world.player.blobby_count + 1;
    let position = world.board.ls_to_ws_vec3(world.board.idx_to_ls(idx));
    world.things.push(
        Thing::Unit {
            blobby: Blobby {
                speed: BLOBBY_SPEED,
                id: world.player.blobby_count,
                dest: None,
                resource_pile: None,
                drop_off: None,
                going_to_pickup: true,
            },
            path: Path::default(),
            resources: Resources::zero(),
            position,
        },
    );
    proof {
        let after = before.sim.after_unit(idx as int);
        assert(world@.sim.things =~= after.things);
    }
}

/// Places an item on a tile, if the tile is free and the player can pay.
fn place(world: &mut World, x: u8, y: u8, kind: u8)
    requires
        old(world).wf(),
    ensures
        final(world).wf(),
        final(world)@ == old(world)@.with_sim(old(world)@.sim.after_place(x, y, kind)),
{
    let item = match Item::from_int(kind) {
        Some(item) => item,
        None => {
            return ;
        },
    };
    let pos = IVec2 { x: x as i32, y: y as i32 };
    let idx = world.board.ls_to_idx(pos);
    if world.board.board[idx].is_some() {
        return ;
    }
    let is_unit = match item {
        Item::Blobby => true,
        _ => false,
    };
    if is_unit && world.player.blobby_count == u8::MAX {
        return ;
    }
    let cost = item.cost();
    if !buy(world, &cost) {
        return ;
    }
    match item.produces() {
        Some(kind) => spawn_factory(world, pos, kind),
        None => {
            if is_unit {
                spawn_unit(world, idx);
            } else {
                spawn_outgoing_hats(world, pos);
            }
        },
    }
}

/// Carries out one action.
pub fn apply_action(world: &mut World, action: Action)
    requires
        old(world).wf(),
    ensures
        final(world).wf(),
        final(world)@ == old(world)@.after_action(action),
        final(world)@.queue == old(world)@.queue,
{
    match action {
        Action::Empty => {},
        Action::SellItem(x, y) => sell(world, x, y),
        Action::GameSpeedDec => {
            world.player.time_multiplier = if world.player.time_multiplier > SLOWEST {
                world.player.time_multiplier - 1
            } else {
                SLOWEST
            };
        },
        Action::GameSpeedInc => {
            world.player.time_multiplier = if world.player.time_multiplier < FASTEST {
                world.player.time_multiplier + 1
            } else {
                FASTEST
            };
        },
        Action::GamePause => {
            world.paused = match world.paused {
                PausedState::Paused => PausedState::Unpaused,
                PausedState::Unpaused => PausedState::Paused,
            };
        },
        Action::RestartGame => {
            world.restart.0 = true;
        },
        Action::CheatCredits => cheat_credits(world),
        Action::CheatLevel => {
            if world.cheats {
                world.player.level_time = add_saturating(world.player.level_time, LEVEL_MILLIS);
            }
        },
        Action::MoveBlobby(x, y, id) => move_order(world, x, y, id),
        Action::Place(x, y, kind) => place(world, x, y, kind),
    }
}

/// Carries out the waiting actions, oldest first. They keep waiting to be recorded.
pub fn apply_actions(world: &mut World)
    requires
        old(world).wf(),
    ensures
        final(world).wf(),
        final(world)@ == old(world)@.after_actions(),
{
    let ghost before = world@;
    let n = world.queue.0.len();
    let mut i: usize = 0;
    while i < n
        invariant
            i <= n,
            n == world.queue.0.len(),
            world@.queue == before.queue,
            world.wf(),
            world@ == before.after_actions_upto(before.queue, i as int),
        decreases n - i,
    {
        let action = world.queue.0[i];
        apply_action(world, action);
        i += 1;
    }
}

/// Lets the recorded actions of the current tick join the waiting ones, if
/// the world plays a recording back.
pub fn replay_actions(world: &mut World)
    requires
        old(world).wf(),
    ensures
        final(world).wf(),
        final(world)@ == old(world)@.after_inject(),
{
    if !world.recorder.play {
        return ;
    }
    let ghost before = world@;
    let n = world.recorder.actions.0.len();
    let step = world.player.step;
    while world.recorder.play_head < n
        invariant_except_break
            world@ == (WorldView {
                queue: before.queue + Seq::new(
                    (world.recorder.play_head - before.play_head) as nat,
                    |i: int| Action::decode(before.log[before.play_head + i].1),
                ),
                play_head: world.recorder.play_head as int,
                ..before
            }),
            run_end(before.log, before.play_head, step) == run_end(
                before.log,
                world.recorder.play_head as int,
                step,
            ),
        invariant
            n == world.recorder.actions.0.len(),
            n == before.log.len(),
            step == before.sim.player.step,
            before.play,
            0 <= before.play_head <= world.recorder.play_head,
            world.wf(),
        ensures
            world@ == before.after_inject(),
        decreases n - world.recorder.play_head,
    {
        let entry = world.recorder.actions.0[world.recorder.play_head];
        if entry.0 as u64 == step {
            world.queue.0.push(Action::from_bytes(entry.1));
            world.recorder.play_head = world.recorder.play_head + 1;
        } else {
            break ;
        }
    }
}

/// The tick number as a recording holds it.
pub fn stamp_of(step: u64) -> (stamp: u32)
    ensures
        stamp == step_stamp(step),
{
    if step > u32::MAX as u64 {
        u32::MAX
    } else {
        step as u32
    }
}

/// Records the waiting actions that are not transient, if the world records,
/// and drops all of them. A world that plays a recording back, or whose
/// recording is switched off, keeps its recording as it is.
pub fn record_actions(world: &mut World)
    requires
        old(world).wf(),
    ensures
        final(world).wf(),
        final(world)@ == old(world)@.after_record(),
        !old(world)@.records() ==> final(world)@.log == old(world)@.log,
{
    let ghost before = world@;
    if !world.recorder.play && !world.recorder.disable_rec {
        let stamp = stamp_of(world.player.step);
        let n = world.queue.0.len();
        let mut i: usize = 0;
        while i < n
            invariant
                i <= n,
                n == world.queue.0.len(),
                stamp == step_stamp(before.sim.player.step),
                world.wf(),
                world@ == (WorldView {
                    log: before.log + recorded_upto(before.queue, stamp, i as int),
                    ..before
                }),
            decreases n - i,
        {
            let action = world.queue.0[i];
            let ghost so_far = recorded_upto(before.queue, stamp, i as int);
            if !action.transient() {
                let bytes = action.to_bytes();
                world.recorder.actions.0.push((stamp, bytes));
                proof {
                    assert(world@.log =~= (before.log + so_far).push((stamp, bytes@)));
                }
            }
            i += 1;
        }
    }
    world.queue.0 = Vec::new();
}

/// Lets recorded actions join the waiting ones, carries all of them out,
/// records them, and drops them. While a recording is played back it is only
/// read: the actions that came from it are not recorded again.
pub fn process_actions(world: &mut World)
    requires
        old(world).wf(),
    ensures
        final(world).wf(),
        final(world)@ == old(world)@.after_inject().after_actions().after_record(),
        !old(world)@.records() ==> final(world)@.log == old(world)@.log,
{
    replay_actions(world);
    proof {
        crate::replay::lemma_actions_frame(world@, world@.queue, world@.queue.len() as int);
    }
    apply_actions(world);
    record_actions(world);
}

} // verus!
