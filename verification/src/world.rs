use crate::action::{Action, ActionQueue, ActionRecording, GameRecorder};
use crate::board::{Entity, GameBoard, Grid, IVec2};
use crate::items::{spawn_ore, spawn_outgoing_hats, Thing, ThingView};
use crate::player::{uniform, PlayerState, PlayerView, Resources, R};
use rand::seq::SliceRandom;
use rand::Rng;
use vstd::prelude::*;

verus! {

/// Whether play is going on or halted.
#[derive(Clone, Copy, Eq, PartialEq, Debug, Hash, Structural)]
pub enum PausedState {
    Unpaused,
    Paused,
}

/// Set when the game is to start anew.
#[derive(Default, Debug)]
pub struct RestartGame(pub bool);

/// The source of the random layout of a new game.
#[derive(Debug)]
pub struct GameRng(pub rand_pcg::Pcg32);

/// `rand_pcg::Pcg32`, the generator behind `GameRng`. Nothing is known of its state.
#[verifier::external_type_specification]
#[verifier::external_body]
pub struct ExPcg32(rand_pcg::Lcg64Xsh32);

/// Everything the simulation works on.
#[derive(Debug)]
pub struct World {
    pub board: GameBoard,
    pub player: PlayerState,
    /// What the player owns outright.
    pub stock: Resources,
    /// Everything that was ever created, in creation order.
    pub things: Vec<Thing>,
    /// Whether the actions that grant resources and time have any effect.
    pub cheats: bool,
    pub queue: ActionQueue,
    pub recorder: GameRecorder,
    pub restart: RestartGame,
    pub paused: PausedState,
    pub rng: GameRng,
}

/// The part of the world that the rules of play read and change.
#[verifier::ext_equal]
pub struct SimView {
    pub grid: Grid,
    pub player: PlayerView,
    pub stock: Map<R, u64>,
    pub things: Seq<ThingView>,
    pub cheats: bool,
}

/// The world as a value: the state of play, and what steers the session.
#[verifier::ext_equal]
pub struct WorldView {
    pub sim: SimView,
    /// The speed of play, in tenths.
    pub time_multiplier: u64,
    pub queue: Seq<Action>,
    pub log: Seq<(u32, Seq<u8>)>,
    pub disable_rec: bool,
    pub play: bool,
    pub play_head: int,
    pub restart: bool,
    pub paused: bool,
}

/// The views of a list of things.
pub open spec fn things_view(things: Seq<Thing>) -> Seq<ThingView> {
    Seq::new(things.len(), |i: int| things[i]@)
}

/// The entries of a recording, each with the bytes of its record.
pub open spec fn log_view(log: Seq<(u32, [u8; 4])>) -> Seq<(u32, Seq<u8>)> {
    Seq::new(log.len(), |i: int| (log[i].0, log[i].1@))
}

impl View for World {
    type V = WorldView;

    open spec fn view(&self) -> WorldView {
        WorldView {
            sim: SimView {
                grid: self.board@,
                player: self.player@,
                stock: self.stock@,
                things: things_view(self.things@),
                cheats: self.cheats,
            },
            time_multiplier: self.player.time_multiplier,
            queue: self.queue.0@,
            log: log_view(self.recorder.actions.0@),
            disable_rec: self.recorder.disable_rec,
            play: self.recorder.play,
            play_head: self.recorder.play_head as int,
            restart: self.restart.0,
            paused: self.paused == PausedState::Paused,
        }
    }
}

impl SimView {
    /// The board is well formed and every unit stands where the simulation can have put it.
    pub open spec fn wf(self) -> bool {
        &&& self.grid.wf()
        &&& forall|i: int| 0 <= i < self.things.len() ==> (#[trigger] self.things[i]).wf()
    }
}

impl WorldView {
    /// The same world with another state of play.
    pub open spec fn with_sim(self, sim: SimView) -> WorldView {
        WorldView { sim, ..self }
    }
}

impl World {
    /// The board is well formed and every unit stands where the simulation can have put it.
    pub open spec fn wf(&self) -> bool {
        &&& self.board.wf()
        &&& self@.sim.wf()
    }

    /// Whether the world is well formed.
    pub fn is_sound(&self) -> (ok: bool)
        ensures
            ok == self.wf(),
    {
        if !self.board.is_sound() {
            return false;
        }
        let n = self.things.len();
        let mut i: usize = 0;
        while i < n
            invariant
                i <= n,
                n == self.things.len(),
                self.board.wf(),
                forall|j: int| 0 <= j < i ==> (#[trigger] self@.sim.things[j]).wf(),
            decreases n - i,
        {
            match &self.things[i] {
                Thing::Unit { position, .. } => {
                    if !position.is_bounded() {
                        assert(!self@.sim.things[i as int].wf());
                        return false;
                    }
                },
                _ => {},
            }
            i += 1;
        }
        true
    }
}

/// The number of piles of raw material in a new game.
pub const ORE_PILES: usize = 20;

/// `rand_pcg::Pcg32::new`: a generator that starts from the given state, on the given stream.
#[verifier::external_body]
fn pcg32_new(state: u64, stream: u64) -> (rng: rand_pcg::Pcg32) {
    rand_pcg::Pcg32::new(state, stream)
}

/// `rand::Rng::gen_range` on a range of `i32` that excludes its upper end:
/// some number of the range.
#[verifier::external_body]
fn gen_range_i32(rng: &mut rand_pcg::Pcg32, low: i32, high: i32) -> (v: i32)
    requires
        low < high,
    ensures
        low <= v < high,
{
    rng.gen_range(low..high)
}

/// `rand::seq::SliceRandom::choose`: one of the kinds listed, none where none is listed.
#[verifier::external_body]
fn choose_kind(rng: &mut rand_pcg::Pcg32, kinds: &Vec<R>) -> (k: Option<R>)
    ensures
        kinds.len() == 0 ==> k is None,
        kinds.len() > 0 ==> k is Some && kinds@.contains(k->0),
{
    kinds.choose(rng).copied()
}

impl Default for GameRng {
    /// The generator that every game starts with.
    fn default() -> GameRng {
        GameRng(pcg32_new(0xcafef00dd15ea5e5, 0xa02bdbf7bb3c0a7))
    }
}

/// Where a pile of raw material can be in a new game, and what it can hold.
pub open spec fn is_ore_spot(spot: (IVec2, R)) -> bool {
    &&& 3 <= spot.0.x < 20
    &&& 3 <= spot.0.y < 20
    &&& (spot.1 == R::CopperOre || spot.1 == R::LithiumOre || spot.1 == R::Sand)
}

impl SimView {
    /// The state of play after the first `n` of the given piles were put down.
    pub open spec fn after_ores(self, spots: Seq<(IVec2, R)>, n: int) -> SimView
        decreases n,
    {
        if n <= 0 {
            self
        } else {
            self.after_ores(spots, n - 1).after_spawn(
                ThingView::new_ore(spots[n - 1].0, spots[n - 1].1),
                spots[n - 1].0,
            )
        }
    }

    /// The state of play after a game was laid out with the given piles: the
    /// player's stock, the piles, the warehouse for plastic at (2, 2), and the
    /// delivery point at (22, 22).
    pub open spec fn laid_out(self, spots: Seq<(IVec2, R)>) -> SimView {
        (SimView { stock: uniform(0).insert(R::LittleHats, 3), ..self }).after_ores(
            spots,
            spots.len() as int,
        ).after_spawn(
            ThingView::new_ore(IVec2 { x: 2, y: 2 }, R::Plastic),
            IVec2 { x: 2, y: 2 },
        ).after_spawn(
            ThingView::new_outgoing_hats(IVec2 { x: 22, y: 22 }),
            IVec2 { x: 22, y: 22 },
        )
    }

    /// The state of play before anything was laid out: the board and the
    /// player of a new game, and nothing else.
    pub open spec fn blank(cheats: bool) -> SimView {
        SimView {
            grid: Grid::fresh(),
            player: PlayerView::fresh(),
            stock: crate::player::no_entries(),
            things: Seq::empty(),
            cheats,
        }
    }

    /// `self` is a new game: a blank state laid out with `ORE_PILES` piles.
    pub open spec fn is_new_game(self, cheats: bool) -> bool {
        exists|spots: Seq<(IVec2, R)>|
            spots.len() == ORE_PILES && (forall|i: int|
                0 <= i < spots.len() ==> is_ore_spot(#[trigger] spots[i])) && self
                == SimView::blank(cheats).laid_out(spots)
    }
}

/// Lays out a game: gives the player the stock of a new player, puts down
/// `ORE_PILES` piles of copper ore, lithium ore or sand at random places, the
/// warehouse for plastic at (2, 2), and the delivery point at (22, 22).
pub fn init_game(world: &mut World)
    requires
        old(world).wf(),
    ensures
        final(world).wf(),
        exists|spots: Seq<(IVec2, R)>|
            spots.len() == ORE_PILES && (forall|i: int|
                0 <= i < spots.len() ==> is_ore_spot(#[trigger] spots[i])) && final(world)@
                == old(world)@.with_sim(old(world)@.sim.laid_out(spots)),
{
    let ghost before = world@;
    world.stock = Resources::player_default();
    let ghost start = world@.sim;
    let mut kinds: Vec<R> = Vec::new();
    kinds.push(R::CopperOre);
    kinds.push(R::LithiumOre);
    kinds.push(R::Sand);
    let ghost mut spots: Seq<(IVec2, R)> = Seq::empty();
    let mut i: usize = 0;
    assert forall|j: int| 0 <= j < world@.sim.things.len() implies (
    #[trigger] world@.sim.things[j]).wf() by {
        assert(before.sim.things[j].wf());
    }
    while i < ORE_PILES
        invariant
            i <= ORE_PILES,
            spots.len() == i,
            forall|j: int| 0 <= j < spots.len() ==> is_ore_spot(#[trigger] spots[j]),
            kinds@ == seq![R::CopperOre, R::LithiumOre, R::Sand],
            world.wf(),
            world@ == before.with_sim(start.after_ores(spots, i as int)),
        decreases ORE_PILES - i,
    {
        let x = gen_range_i32(&mut world.rng.0, 3, 20);
        let y = gen_range_i32(&mut world.rng.0, 3, 20);
        let kind = match choose_kind(&mut world.rng.0, &kinds) {
            Some(kind) => kind,
            None => R::CopperOre,
        };
        let pos = IVec2::new(x, y);
        proof {
            let grown = spots.push((pos, kind));
            lemma_after_ores_prefix(start, spots, grown, i as int);
            spots = grown;
        }
        spawn_ore(world, pos, kind);
        i += 1;
    }
    spawn_ore(world, IVec2::new(2, 2), R::Plastic);
    spawn_outgoing_hats(world, IVec2::new(22, 22));
}

/// Putting down the first piles of a list does not depend on the piles that follow.
pub proof fn lemma_after_ores_prefix(
    sim: SimView,
    a: Seq<(IVec2, R)>,
    b: Seq<(IVec2, R)>,
    n: int,
)
    requires
        n <= a.len(),
        n <= b.len(),
        forall|i: int| 0 <= i < n ==> a[i] == b[i],
    ensures
        sim.after_ores(a, n) == sim.after_ores(b, n),
    decreases n,
{
    if n > 0 {
        lemma_after_ores_prefix(sim, a, b, n - 1);
    }
}

impl World {
    /// A world without anything in it: the board and the player of a new game,
    /// no stock, nothing waiting, recording, unpaused.
    pub fn blank(cheats: bool) -> (world: World)
        ensures
            world.wf(),
            world@.sim == SimView::blank(cheats),
            world@.time_multiplier == 10,
            world@.queue.len() == 0,
            world@.log.len() == 0,
            !world@.disable_rec,
            !world@.play,
            world@.play_head == 0,
            !world@.restart,
            !world@.paused,
    {
        let world = World {
            board: GameBoard::default(),
            player: PlayerState::default(),
            stock: Resources::zero(),
            things: Vec::new(),
            cheats,
            queue: ActionQueue(Vec::new()),
            recorder: GameRecorder {
                actions: ActionRecording(Vec::new()),
                disable_rec: false,
                play: false,
                play_head: 0,
            },
            restart: RestartGame(false),
            paused: PausedState::Unpaused,
            rng: GameRng::default(),
        };
        world
    }

    /// A new game.
    pub fn new(cheats: bool) -> (world: World)
        ensures
            world.wf(),
            world@.sim.is_new_game(cheats),
            world@.time_multiplier == 10,
            world@.queue.len() == 0,
            world@.log.len() == 0,
            !world@.disable_rec,
            !world@.play,
            world@.play_head == 0,
            !world@.restart,
            !world@.paused,
    {
        let mut world = World::blank(cheats);
        init_game(&mut world);
        world
    }
}

/// Starts the game anew if that was asked for: everything in the world is
/// removed, the board and the player are those of a new game at the speed of
/// play that was set, the recording starts empty, and a new game is laid out.
/// The actions that wait keep waiting.
pub fn restart_game(world: &mut World)
    requires
        old(world).wf(),
    ensures
        final(world).wf(),
        !old(world).restart.0 ==> final(world)@ == old(world)@,
        old(world).restart.0 ==> final(world)@.sim.is_new_game(old(world).cheats)
            && final(world)@.time_multiplier == old(world)@.time_multiplier && final(world)@.queue
            == old(world)@.queue && final(world)@.log.len() == 0 && !final(world)@.disable_rec
            && !final(world)@.play && final(world)@.play_head == 0 && !final(world)@.restart
            && final(world)@.paused == old(world)@.paused,
{
    if world.restart.0 {
        world.restart.0 = false;
        world.things = Vec::new();
        world.board = GameBoard::default();
        let speed = world.player.time_multiplier;
        world.player = PlayerState::default();
        world.player.time_multiplier = speed;
        world.stock = Resources::zero();
        world.recorder.actions.0 = Vec::new();
        world.recorder.disable_rec = false;
        world.recorder.play = false;
        world.recorder.play_head = 0;
        proof {
            assert(world@.sim.things =~= SimView::blank(world.cheats).things);
        }
        init_game(world);
    }
}

} // verus!
