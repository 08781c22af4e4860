use factory_sim::action::{process_actions, Action, ActionRecording};
use factory_sim::board::{ivec2, vec3, Entity, IVec2, Vec3};
use factory_sim::items::{
    advance, blobby_get_resource, blobby_put_resource, dist2, isqrt, move_blobby_along_path,
    receive_plastic, spawn_factory, spawn_ore, spawn_outgoing_hats, step_len,
    update_blobby_paths, Blobby, Dropoff, Item, Path, Thing,
};
use factory_sim::player::{
    extend_deadline, hats_objective, process_factories, set_level, update_player_resources,
    Resources, KIND_COUNT, R,
};
use factory_sim::schedule::tick;
use factory_sim::world::{init_game, restart_game, PausedState, World};

fn ledger(entries: &[(R, u64)]) -> Resources {
    let mut r = Resources::zero();
    for (k, v) in entries {
        r.insert(*k, *v);
    }
    r
}

fn entries(r: &Resources) -> Vec<Option<u64>> {
    (0..KIND_COUNT).map(|i| r.get(R::from_index(i))).collect()
}

fn unit(id: u8, position: Vec3) -> Thing {
    Thing::Unit {
        blobby: Blobby {
            speed: 4000,
            id,
            dest: None,
            resource_pile: None,
            drop_off: None,
            going_to_pickup: true,
        },
        path: Path::default(),
        resources: Resources::zero(),
        position,
    }
}

fn pile_of(world: &World, i: usize) -> &Resources {
    match &world.things[i] {
        Thing::Ore { resources, .. } => resources,
        Thing::PlasticDepot { resources, .. } => resources,
        Thing::Factory { resources, .. } => resources,
        Thing::Unit { resources, .. } => resources,
        _ => panic!("no ledger"),
    }
}

fn input_of(world: &World, i: usize) -> &Resources {
    match &world.things[i] {
        Thing::Factory { dropoff, .. } => &dropoff.input,
        Thing::OutgoingHats { dropoff, .. } => &dropoff.input,
        _ => panic!("no drop-off"),
    }
}

fn blobby_of(world: &World, i: usize) -> Blobby {
    match &world.things[i] {
        Thing::Unit { blobby, .. } => *blobby,
        _ => panic!("no unit"),
    }
}

fn position_of(world: &World, i: usize) -> Vec3 {
    match &world.things[i] {
        Thing::Unit { position, .. } => *position,
        _ => panic!("no unit"),
    }
}

fn snapshot(world: &World) -> Vec<String> {
    let mut out = vec![format!("{:?}", entries(&world.stock))];
    out.push(format!("{:?}", entries(&world.player.combined_resources)));
    for t in &world.things {
        out.push(match t {
            Thing::Despawned => "gone".to_string(),
            Thing::Ore { tile, resources } => format!("ore {:?} {:?}", tile, entries(resources)),
            Thing::PlasticDepot { tile, resources, receiver } => {
                format!("depot {:?} {:?} {:?}", tile, entries(resources), receiver)
            }
            Thing::Factory { tile, dropoff, timer, output, resources } => format!(
                "factory {:?} {:?} {:?} {:?} {:?}",
                tile,
                entries(&dropoff.input),
                timer,
                output,
                entries(resources)
            ),
            Thing::OutgoingHats { tile, dropoff } => {
                format!("hats {:?} {:?}", tile, entries(&dropoff.input))
            }
            Thing::Unit { blobby, path, resources, position } => {
                format!("unit {:?} {:?} {:?} {:?}", blobby, path.path, entries(resources), position)
            }
        });
    }
    out.push(format!("{:?}", world.board.board));
    out.push(format!("{} {}", world.player.step, world.player.level_time));
    out
}

#[test]
fn placing_a_refinery_needs_thirty_plastic() {
    let mut poor = World::blank(false);
    poor.stock = ledger(&[(R::Plastic, 29)]);
    poor.submit(Action::Place(5, 5, Item::CopperRefinery.int_value()));
    tick(&mut poor);
    assert_eq!(poor.query_tile(5, 5), None);
    assert_eq!(poor.stock.get(R::Plastic), Some(29));
    assert!(poor.things.is_empty());

    let mut rich = World::blank(false);
    rich.stock = ledger(&[(R::Plastic, 30)]);
    rich.submit(Action::Place(5, 5, Item::CopperRefinery.int_value()));
    tick(&mut rich);
    assert_eq!(rich.query_tile(5, 5), Some(Entity { index: 0 }));
    assert_eq!(rich.stock.get(R::Plastic), Some(0));
    assert_eq!(rich.things.len(), 1);
    assert!(matches!(rich.things[0], Thing::Factory { .. }));
}

#[test]
fn placing_on_an_occupied_tile_does_nothing() {
    let mut world = World::blank(false);
    world.stock = ledger(&[(R::Plastic, 100)]);
    world.submit(Action::Place(5, 5, 1));
    world.submit(Action::Place(5, 5, 2));
    tick(&mut world);
    assert_eq!(world.things.len(), 1);
    assert_eq!(world.stock.get(R::Plastic), Some(70));
}

#[test]
fn placing_an_unknown_item_does_nothing() {
    let mut world = World::blank(false);
    world.stock = ledger(&[(R::Plastic, 100), (R::Copper, 100), (R::LittleHats, 100)]);
    world.submit(Action::Place(5, 5, 9));
    world.submit(Action::Place(6, 6, 255));
    tick(&mut world);
    assert!(world.things.is_empty());
    assert_eq!(world.stock.get(R::Plastic), Some(100));
}

#[test]
fn a_unit_near_a_pile_takes_one_per_tick() {
    let mut world = World::blank(false);
    spawn_ore(&mut world, ivec2(5, 5), R::CopperOre);
    match &mut world.things[0] {
        Thing::Ore { resources, .. } => resources.insert(R::CopperOre, 5),
        _ => panic!("no pile"),
    }
    world.things.push(Thing::OutgoingHats {
        tile: ivec2(6, 6),
        dropoff: Dropoff {
            qty: ledger(&[(R::CopperOre, 10)]),
            input: ledger(&[(R::CopperOre, 0)]),
        },
    });
    let near_both = world.board.ls_to_ws_vec3(ivec2(5, 6));
    assert!(dist2(near_both, world.board.ls_to_ws_vec3(ivec2(5, 5))) < 1800 * 1800);
    let mut carrier = unit(1, near_both);
    if let Thing::Unit { blobby, .. } = &mut carrier {
        blobby.resource_pile = Some(Entity { index: 0 });
    }
    world.things.push(carrier);

    for round in 1..=5u64 {
        blobby_get_resource(&mut world);
        assert_eq!(pile_of(&world, 0).get(R::CopperOre), Some(5 - round));
        assert_eq!(pile_of(&world, 2).get(R::CopperOre), Some(1));
        assert!(!blobby_of(&world, 2).going_to_pickup);
        blobby_put_resource(&mut world);
        assert_eq!(pile_of(&world, 2).get(R::CopperOre), Some(0));
        assert_eq!(input_of(&world, 1).get(R::CopperOre), Some(round));
        assert_eq!(blobby_of(&world, 2).drop_off, Some(Entity { index: 1 }));
        assert_eq!(blobby_of(&world, 2).dest, None);
    }
    blobby_get_resource(&mut world);
    assert_eq!(pile_of(&world, 0).get(R::CopperOre), Some(0));
    assert_eq!(pile_of(&world, 2).get(R::CopperOre), Some(0));
    assert!(!blobby_of(&world, 2).going_to_pickup);
}

#[test]
fn a_unit_that_holds_what_the_pile_offers_takes_nothing() {
    let mut world = World::blank(false);
    spawn_ore(&mut world, ivec2(5, 5), R::Sand);
    let mut carrier = unit(1, world.board.ls_to_ws_vec3(ivec2(5, 6)));
    if let Thing::Unit { blobby, resources, .. } = &mut carrier {
        blobby.resource_pile = Some(Entity { index: 0 });
        resources.insert(R::Sand, 2);
    }
    world.things.push(carrier);
    blobby_get_resource(&mut world);
    assert_eq!(pile_of(&world, 0).get(R::Sand), Some(100_000_000));
    assert_eq!(pile_of(&world, 1).get(R::Sand), Some(2));
    assert!(!blobby_of(&world, 1).going_to_pickup);
    assert_eq!(blobby_of(&world, 1).dest, None);
}

#[test]
fn a_unit_far_from_its_pile_sets_out_for_it() {
    let mut world = World::blank(false);
    spawn_ore(&mut world, ivec2(5, 5), R::Sand);
    let mut carrier = unit(1, world.board.ls_to_ws_vec3(ivec2(15, 15)));
    if let Thing::Unit { blobby, .. } = &mut carrier {
        blobby.resource_pile = Some(Entity { index: 0 });
        blobby.going_to_pickup = false;
    }
    world.things.push(carrier);
    blobby_get_resource(&mut world);
    assert_eq!(pile_of(&world, 0).get(R::Sand), Some(100_000_000));
    assert!(blobby_of(&world, 1).going_to_pickup);
    assert_eq!(blobby_of(&world, 1).dest, Some(ivec2(5, 6)));
    blobby_put_resource(&mut world);
    assert_eq!(blobby_of(&world, 1).drop_off, None);
}

#[test]
fn a_unit_picks_the_nearest_taker_and_the_first_of_equals() {
    let mut world = World::blank(false);
    spawn_factory(&mut world, ivec2(10, 13), R::Copper);
    spawn_factory(&mut world, ivec2(13, 10), R::Copper);
    spawn_factory(&mut world, ivec2(20, 20), R::Copper);
    spawn_factory(&mut world, ivec2(10, 11), R::Glass);
    let mut carrier = unit(1, world.board.ls_to_ws_vec3(ivec2(10, 10)));
    if let Thing::Unit { blobby, resources, .. } = &mut carrier {
        blobby.resource_pile = Some(Entity { index: 0 });
        blobby.going_to_pickup = false;
        resources.insert(R::CopperOre, 1);
    }
    world.things.push(carrier);
    blobby_put_resource(&mut world);
    assert_eq!(blobby_of(&world, 4).drop_off, Some(Entity { index: 0 }));
    assert_eq!(blobby_of(&world, 4).dest, Some(ivec2(10, 14)));
    assert_eq!(pile_of(&world, 4).get(R::CopperOre), Some(1));
    assert_eq!(input_of(&world, 0).get(R::CopperOre), Some(0));
}

#[test]
fn a_producer_runs_for_its_full_length() {
    let mut world = World::blank(false);
    spawn_factory(&mut world, ivec2(3, 3), R::Copper);
    process_factories(&mut world);
    match &world.things[0] {
        Thing::Factory { timer, .. } => assert!(!timer.started),
        _ => panic!("no producer"),
    }
    match &mut world.things[0] {
        Thing::Factory { dropoff, timer, .. } => {
            assert_eq!(timer.length, 100);
            dropoff.input.insert(R::CopperOre, 2);
        }
        _ => panic!("no producer"),
    }
    process_factories(&mut world);
    match &world.things[0] {
        Thing::Factory { dropoff, timer, resources, .. } => {
            assert!(timer.started);
            assert_eq!(timer.time, 0);
            assert_eq!(dropoff.input.get(R::CopperOre), Some(0));
            assert_eq!(resources.get(R::Copper), Some(0));
        }
        _ => panic!("no producer"),
    }
    for _ in 0..99 {
        process_factories(&mut world);
        assert_eq!(pile_of(&world, 0).get(R::Copper), Some(0));
    }
    process_factories(&mut world);
    match &world.things[0] {
        Thing::Factory { timer, resources, .. } => {
            assert!(!timer.started);
            assert_eq!(timer.time, 0);
            assert_eq!(resources.get(R::Copper), Some(1));
            assert_eq!(resources.get(R::Sand), Some(0));
        }
        _ => panic!("no producer"),
    }
    process_factories(&mut world);
    assert_eq!(pile_of(&world, 0).get(R::Copper), Some(1));
}

#[test]
fn plastic_arrives_every_201_ticks_by_level() {
    let mut world = World::blank(false);
    spawn_ore(&mut world, ivec2(2, 2), R::Plastic);
    world.player.level = 3;
    for _ in 0..200 {
        receive_plastic(&mut world);
    }
    assert_eq!(pile_of(&world, 0).get(R::Plastic), Some(200));
    receive_plastic(&mut world);
    assert_eq!(pile_of(&world, 0).get(R::Plastic), Some(260));
    match &world.things[0] {
        Thing::PlasticDepot { receiver, .. } => assert_eq!(receiver.time, 0),
        _ => panic!("no warehouse"),
    }
}

#[test]
fn the_clock_advances_while_the_player_is_alive() {
    let mut world = World::blank(false);
    for _ in 0..625 {
        set_level(&mut world, 16);
    }
    assert_eq!(world.player.step, 625);
    assert_eq!(world.player.level_time, 10000);
    assert_eq!(world.player.level, 1);
    world.player.alive_set = false;
    set_level(&mut world, 16);
    assert_eq!(world.player.step, 625);
}

#[test]
fn owned_resources_add_up_stock_warehouse_and_producers() {
    let mut world = World::blank(false);
    world.stock = ledger(&[(R::Plastic, 5), (R::Copper, 1)]);
    spawn_ore(&mut world, ivec2(2, 2), R::Plastic);
    spawn_ore(&mut world, ivec2(4, 4), R::Sand);
    spawn_factory(&mut world, ivec2(6, 6), R::Copper);
    match &mut world.things[2] {
        Thing::Factory { resources, .. } => resources.insert(R::Copper, 4),
        _ => panic!("no producer"),
    }
    update_player_resources(&mut world);
    let total = world.snapshot_player_resources();
    assert_eq!(total.get(R::Plastic), Some(205));
    assert_eq!(total.get(R::Copper), Some(5));
    assert_eq!(total.get(R::Sand), Some(0));
}

#[test]
fn buying_charges_the_stock_first_then_the_rest() {
    let mut world = World::blank(false);
    world.stock = ledger(&[(R::Plastic, 20), (R::Copper, 0)]);
    spawn_ore(&mut world, ivec2(2, 2), R::Plastic);
    spawn_factory(&mut world, ivec2(6, 6), R::Copper);
    match &mut world.things[1] {
        Thing::Factory { resources, .. } => resources.insert(R::Copper, 7),
        _ => panic!("no producer"),
    }
    world.submit(Action::Place(9, 9, Item::GlassRefinery.int_value()));
    tick(&mut world);
    assert_eq!(world.stock.get(R::Plastic), Some(0));
    assert_eq!(pile_of(&world, 0).get(R::Plastic), Some(190));
    assert_eq!(pile_of(&world, 1).get(R::Copper), Some(2));
    assert_eq!(world.query_tile(9, 9), Some(Entity { index: 2 }));
    assert_eq!(world.player.combined_resources.get(R::Plastic), Some(190));
    assert_eq!(world.player.combined_resources.get(R::Copper), Some(2));
}

#[test]
fn selling_a_producer_frees_the_tile_and_returns_its_output() {
    let mut world = World::blank(false);
    world.stock = ledger(&[(R::Plastic, 30)]);
    world.submit(Action::Place(5, 5, 1));
    tick(&mut world);
    match &mut world.things[0] {
        Thing::Factory { resources, .. } => resources.insert(R::Copper, 3),
        _ => panic!("no producer"),
    }
    world.submit(Action::SellItem(5, 5));
    tick(&mut world);
    assert_eq!(world.query_tile(5, 5), None);
    assert!(matches!(world.things[0], Thing::Despawned));
    assert_eq!(world.stock.get(R::Copper), Some(3));
    assert_eq!(world.stock.get(R::Plastic), Some(0));
    world.submit(Action::SellItem(5, 5));
    tick(&mut world);
    assert_eq!(world.stock.get(R::Copper), Some(3));
}

#[test]
fn selling_a_pile_does_nothing() {
    let mut world = World::blank(false);
    spawn_ore(&mut world, ivec2(5, 5), R::Sand);
    spawn_outgoing_hats(&mut world, ivec2(7, 7));
    world.submit(Action::SellItem(5, 5));
    world.submit(Action::SellItem(7, 7));
    world.submit(Action::SellItem(1, 1));
    tick(&mut world);
    assert_eq!(world.query_tile(5, 5), Some(Entity { index: 0 }));
    assert_eq!(world.query_tile(7, 7), Some(Entity { index: 1 }));
    assert!(entries(&world.stock).iter().all(|e| e.is_none()));
}

#[test]
fn placed_units_get_rising_ids_and_follow_move_orders() {
    let mut world = World::blank(false);
    world.stock = ledger(&[(R::Plastic, 20), (R::LittleHats, 2)]);
    world.submit(Action::Place(3, 3, 0));
    world.submit(Action::Place(3, 3, 0));
    tick(&mut world);
    assert_eq!(world.things.len(), 2);
    assert_eq!(blobby_of(&world, 0).id, 1);
    assert_eq!(blobby_of(&world, 1).id, 2);
    assert_eq!(world.query_tile(3, 3), None);
    assert_eq!(position_of(&world, 0), world.board.ls_to_ws_vec3(ivec2(3, 3)));
    world.submit(Action::MoveBlobby(6, 3, 2));
    tick(&mut world);
    assert_eq!(blobby_of(&world, 0).dest, None);
    assert_eq!(blobby_of(&world, 1).dest, Some(ivec2(6, 3)));
    let start = position_of(&world, 1);
    tick(&mut world);
    let moved = position_of(&world, 1);
    assert_eq!(moved, Vec3 { x: start.x + 64, y: 0, z: start.z });
    assert_eq!(position_of(&world, 0), start);
}

#[test]
fn a_unit_with_an_unreachable_destination_stays() {
    let mut world = World::blank(false);
    spawn_ore(&mut world, ivec2(8, 8), R::Sand);
    let mut walker = unit(1, world.board.ls_to_ws_vec3(ivec2(3, 3)));
    if let Thing::Unit { blobby, .. } = &mut walker {
        blobby.dest = Some(ivec2(8, 8));
    }
    world.things.push(walker);
    let start = position_of(&world, 1);
    update_blobby_paths(&mut world);
    move_blobby_along_path(&mut world);
    assert_eq!(position_of(&world, 1), start);
    match &world.things[1] {
        Thing::Unit { path, .. } => assert!(path.path.is_none()),
        _ => panic!("no unit"),
    }
}

#[test]
fn movement_covers_the_step_along_the_straight_line() {
    assert_eq!(step_len(4000), 64);
    assert_eq!(isqrt(0), 0);
    assert_eq!(isqrt(24), 4);
    assert_eq!(isqrt(25), 5);
    assert_eq!(isqrt(u128::MAX), u64::MAX as u128);
    assert_eq!(dist2(vec3(0, 0, 0), vec3(3, 4, 12)), 169);
    assert_eq!(advance(vec3(0, 0, 0), vec3(3000, 0, 4000), 100), vec3(60, 0, 80));
    assert_eq!(advance(vec3(0, 0, 0), vec3(-3000, 0, -4000), 100), vec3(-60, 0, -80));
    assert_eq!(advance(vec3(7, 0, 7), vec3(7, 0, 7), 100), vec3(7, 0, 7));
    assert_eq!(advance(vec3(0, 0, 0), vec3(10, 0, 0), 64), vec3(64, 0, 0));
}

#[test]
fn cheats_only_work_where_they_are_allowed() {
    let mut honest = World::blank(false);
    honest.stock = ledger(&[(R::Plastic, 1)]);
    honest.submit(Action::CheatCredits);
    honest.submit(Action::CheatLevel);
    tick(&mut honest);
    assert_eq!(honest.stock.get(R::Plastic), Some(1));
    assert_eq!(honest.player.level_time, 16);

    let mut cheat = World::blank(true);
    cheat.stock = ledger(&[(R::Plastic, 1), (R::Sand, 0)]);
    cheat.submit(Action::CheatCredits);
    cheat.submit(Action::CheatLevel);
    tick(&mut cheat);
    assert_eq!(cheat.stock.get(R::Plastic), Some(1001));
    assert_eq!(cheat.stock.get(R::Sand), Some(1000));
    assert_eq!(cheat.stock.get(R::Glass), None);
    assert_eq!(cheat.player.level_time, 10016);
}

#[test]
fn speed_stays_between_its_limits() {
    let mut world = World::blank(false);
    assert_eq!(world.step_millis(), 16);
    for _ in 0..20 {
        world.submit(Action::GameSpeedDec);
    }
    tick(&mut world);
    assert_eq!(world.player.time_multiplier, 1);
    assert_eq!(world.step_millis(), 160);
    for _ in 0..200 {
        world.submit(Action::GameSpeedInc);
    }
    tick(&mut world);
    assert_eq!(world.player.time_multiplier, 100);
    assert_eq!(world.step_millis(), 1);
    world.set_time_multiplier(0);
    assert_eq!(world.player.time_multiplier, 1);
    world.set_time_multiplier(1000);
    assert_eq!(world.player.time_multiplier, 100);
    world.set_time_multiplier(25);
    assert_eq!(world.step_millis(), 6);
}

#[test]
fn a_paused_world_only_sees_to_its_actions() {
    let mut world = World::blank(false);
    world.stock = ledger(&[(R::Plastic, 30)]);
    world.submit(Action::GamePause);
    tick(&mut world);
    assert_eq!(world.player.step, 1);
    assert_eq!(world.paused, PausedState::Paused);
    world.submit(Action::Place(5, 5, 1));
    tick(&mut world);
    assert_eq!(world.player.step, 1);
    assert_eq!(world.player.delivery_deadline, 49999);
    assert_eq!(world.things.len(), 1);
    assert_eq!(world.stock.get(R::Plastic), Some(0));
    world.submit(Action::GamePause);
    tick(&mut world);
    assert_eq!(world.paused, PausedState::Unpaused);
    assert_eq!(world.player.step, 1);
    tick(&mut world);
    assert_eq!(world.player.step, 2);
}

#[test]
fn the_deadline_counts_down_and_ends_the_game() {
    let mut world = World::blank(false);
    world.player.delivery_deadline = 2;
    assert_eq!(hats_objective(&mut world), None);
    assert_eq!(hats_objective(&mut world), None);
    assert!(world.player.alive());
    assert_eq!(hats_objective(&mut world), None);
    assert!(!world.player.alive());
    assert_eq!(world.objective_state(), (false, 0, 1, 0));
}

#[test]
fn delivered_hats_renew_the_order() {
    let mut world = World::blank(false);
    spawn_outgoing_hats(&mut world, ivec2(22, 22));
    match &mut world.things[0] {
        Thing::OutgoingHats { dropoff, .. } => dropoff.input.insert(R::BigHats, 2),
        _ => panic!("no delivery point"),
    }
    assert_eq!(hats_objective(&mut world), Some(2));
    assert_eq!(world.objective_state(), (true, 2, 3, 41999));
    assert_eq!(hats_objective(&mut world), None);
    assert_eq!(world.player.delivery_deadline, 41998);
    match &mut world.things[0] {
        Thing::OutgoingHats { dropoff, .. } => dropoff.input.insert(R::BigHats, 13),
        _ => panic!("no delivery point"),
    }
    assert_eq!(hats_objective(&mut world), Some(13));
    assert_eq!(world.objective_state(), (true, 13, 14, 0));
    extend_deadline(&mut world, 524);
    assert_eq!(world.player.delivery_deadline, 524);
    extend_deadline(&mut world, 10);
    assert_eq!(world.player.delivery_deadline, 524);
}

#[test]
fn a_new_game_has_the_documented_layout() {
    let world = World::new(false);
    assert_eq!(world.things.len(), 22);
    assert_eq!(world.stock.get(R::LittleHats), Some(3));
    assert_eq!(world.stock.get(R::Plastic), Some(0));
    for t in &world.things[..20] {
        match t {
            Thing::Ore { tile, resources } => {
                assert!((3..20).contains(&tile.x) && (3..20).contains(&tile.y));
                let kinds: Vec<usize> =
                    (0..KIND_COUNT).filter(|i| resources.get(R::from_index(*i)).is_some()).collect();
                assert_eq!(kinds.len(), 1);
                let k = R::from_index(kinds[0]);
                assert!(k == R::CopperOre || k == R::LithiumOre || k == R::Sand);
                assert_eq!(resources.get(k), Some(100_000_000));
            }
            _ => panic!("no pile"),
        }
    }
    assert!(matches!(world.things[20], Thing::PlasticDepot { tile: IVec2 { x: 2, y: 2 }, .. }));
    assert!(matches!(world.things[21], Thing::OutgoingHats { tile: IVec2 { x: 22, y: 22 }, .. }));
    assert_eq!(pile_of(&world, 20).get(R::Plastic), Some(200));
    assert_eq!(input_of(&world, 21).get(R::BigHats), Some(0));
    assert_eq!(world.query_tile(2, 2), Some(Entity { index: 20 }));
    assert_eq!(world.query_tile(22, 22), Some(Entity { index: 21 }));
    assert_eq!(world.objective_state(), (true, 0, 1, 50000));
}

#[test]
fn two_new_games_start_alike() {
    assert_eq!(snapshot(&World::new(false)), snapshot(&World::new(false)));
}

#[test]
fn laying_out_twice_draws_new_places() {
    let mut world = World::blank(false);
    init_game(&mut world);
    let first = snapshot(&world);
    let mut again = World::blank(false);
    again.rng = world.rng;
    init_game(&mut again);
    assert_ne!(first, snapshot(&again));
}

#[test]
fn restart_starts_a_new_game_and_keeps_the_speed() {
    let mut world = World::new(false);
    world.stock.insert(R::Plastic, 500);
    world.submit(Action::GameSpeedInc);
    world.submit(Action::Place(10, 10, 1));
    tick(&mut world);
    assert_eq!(world.things.len(), 23);
    assert_eq!(world.recorder.actions.0.len(), 1);
    world.submit(Action::RestartGame);
    tick(&mut world);
    assert_eq!(world.things.len(), 22);
    assert_eq!(world.player.step, 0);
    assert_eq!(world.player.time_multiplier, 11);
    assert_eq!(world.stock.get(R::Plastic), Some(0));
    assert!(world.recorder.actions.0.is_empty());
    assert!(!world.restart.0);
    assert_eq!(world.query_tile(10, 10).map(|e| e.index < 20), world.query_tile(10, 10).map(|_| true));
    restart_game(&mut world);
    assert_eq!(world.things.len(), 22);
}

#[test]
fn only_lasting_actions_are_recorded_with_their_tick() {
    let mut world = World::blank(false);
    world.stock = ledger(&[(R::Plastic, 100)]);
    world.submit(Action::Empty);
    world.submit(Action::Place(5, 5, 1));
    world.submit(Action::GameSpeedInc);
    world.submit(Action::GamePause);
    world.submit(Action::GamePause);
    world.submit(Action::SellItem(5, 5));
    tick(&mut world);
    tick(&mut world);
    world.submit(Action::MoveBlobby(1, 2, 3));
    world.submit(Action::CheatCredits);
    world.submit(Action::CheatLevel);
    tick(&mut world);
    assert_eq!(
        world.recorder.actions.0,
        vec![
            (1, [9, 5, 5, 1]),
            (1, [1, 5, 5, 0]),
            (3, [8, 1, 2, 3]),
            (3, [6, 0, 0, 0]),
            (3, [7, 0, 0, 0]),
        ]
    );
    assert!(world.queue.0.is_empty());
}

#[test]
fn process_actions_replays_records_and_clears() {
    let mut world = World::blank(false);
    world.stock = ledger(&[(R::Plastic, 100)]);
    update_player_resources(&mut world);
    world.player.step = 7;
    world.start_replay(ActionRecording(vec![(7, [9, 5, 5, 1]), (7, [99, 0, 0, 0]), (8, [9, 6, 6, 1])]));
    process_actions(&mut world);
    assert_eq!(world.things.len(), 1);
    assert_eq!(world.recorder.play_head, 2);
    assert_eq!(world.recorder.actions.0.len(), 3);
    assert!(world.queue.0.is_empty());
    process_actions(&mut world);
    assert_eq!(world.recorder.play_head, 2);
    world.stop_replay();
    world.submit(Action::Place(7, 7, 1));
    process_actions(&mut world);
    assert_eq!(world.recorder.actions.0.len(), 4);
    assert_eq!(world.recorder.actions.0[3], (7, [9, 7, 7, 1]));
}

#[test]
fn a_replay_reproduces_the_recorded_game() {
    let script: Vec<(u64, Action)> = vec![
        (1, Action::Place(1, 1, Item::Blobby.int_value())),
        (1, Action::GameSpeedInc),
        (2, Action::MoveBlobby(12, 9, 1)),
        (40, Action::Place(6, 9, Item::CopperRefinery.int_value())),
        (40, Action::Place(6, 9, Item::LithiumRefinery.int_value())),
        (41, Action::Empty),
        (90, Action::MoveBlobby(2, 20, 1)),
        (150, Action::SellItem(6, 9)),
        (151, Action::Place(21, 1, Item::Blobby.int_value())),
        (152, Action::MoveBlobby(20, 20, 2)),
        (260, Action::Place(15, 3, Item::GlassRefinery.int_value())),
    ];
    let ticks = 400;
    let mut live = World::new(false);
    live.stock.insert(R::Plastic, 200);
    live.stock.insert(R::Copper, 50);
    let mut history = Vec::new();
    for t in 1..=ticks {
        for (at, a) in &script {
            if *at == t {
                live.submit(*a);
            }
        }
        tick(&mut live);
        history.push(snapshot(&live));
    }
    assert!(live.things.len() > 22);
    assert_ne!(position_of(&live, 22), live.board.ls_to_ws_vec3(ivec2(1, 1)));
    let log = ActionRecording(live.recorder.actions.0.clone());
    assert_eq!(log.0.len(), 9);

    let mut replay = World::new(false);
    replay.stock.insert(R::Plastic, 200);
    replay.stock.insert(R::Copper, 50);
    replay.start_replay(log);
    for t in 0..ticks as usize {
        tick(&mut replay);
        assert_eq!(snapshot(&replay), history[t], "tick {}", t + 1);
    }
    assert_eq!(replay.recorder.play_head, 9);
    assert_eq!(replay.recorder.actions.0.len(), 9);
}

#[test]
fn item_numbers_names_costs_and_recipes() {
    for n in 0..=8u8 {
        assert_eq!(Item::from_int(n).unwrap().int_value(), n);
    }
    assert_eq!(Item::from_int(9), None);
    assert_eq!(Item::Blobby.name(), "BLOBBY");
    assert_eq!(Item::OutgoingHatsFactory.name(), "OUTGOING HATS");
    assert_eq!(
        entries(&Item::Blobby.cost()),
        entries(&ledger(&[(R::Plastic, 10), (R::LittleHats, 1)]))
    );
    assert_eq!(entries(&Item::CopperRefinery.cost()), entries(&ledger(&[(R::Plastic, 30)])));
    assert_eq!(
        entries(&Item::GlassRefinery.cost()),
        entries(&ledger(&[(R::Plastic, 30), (R::Copper, 5)]))
    );
    assert_eq!(
        entries(&Item::BigHatFactory.cost()),
        entries(&ledger(&[(R::Plastic, 50), (R::Copper, 5)]))
    );
    assert!(Item::Blobby.recipe().is_none());
    assert!(Item::OutgoingHatsFactory.recipe().is_none());
    let (input, output) = Item::BatteryFactory.recipe().unwrap();
    assert_eq!(entries(&input), entries(&ledger(&[(R::Copper, 2), (R::Lithium, 2)])));
    assert_eq!(entries(&output), entries(&ledger(&[(R::Batteries, 1)])));
    assert_eq!(Item::LittleHatFactory.produces(), Some(R::LittleHats));
}

#[test]
fn soundness_check_sees_a_unit_out_of_the_world() {
    let mut world = World::new(false);
    assert!(world.is_sound());
    world.things.push(unit(1, vec3(0, 0, 0)));
    assert!(world.is_sound());
    world.things.push(unit(2, vec3(i64::MAX, 0, 0)));
    assert!(!world.is_sound());
}

#[test]
fn the_recording_stays_in_the_order_of_its_ticks() {
    let mut world = World::new(true);
    for t in 0..50u8 {
        world.submit(Action::MoveBlobby(t, t, 1));
        if t % 7 == 0 {
            world.submit(Action::GamePause);
        }
        world.submit(Action::CheatCredits);
        tick(&mut world);
    }
    let steps: Vec<u32> = world.recorder.actions.0.iter().map(|e| e.0).collect();
    assert_eq!(steps.len(), 100);
    assert!(steps.windows(2).all(|w| w[0] <= w[1]));
    assert!(steps.iter().all(|s| *s as u64 <= world.player.step));
}

fn held(world: &World, k: R) -> u128 {
    world
        .things
        .iter()
        .map(|t| match t {
            Thing::Despawned => 0,
            Thing::Ore { resources, .. } => resources.amount(k) as u128,
            Thing::PlasticDepot { resources, .. } => resources.amount(k) as u128,
            Thing::Factory { dropoff, resources, .. } => {
                resources.amount(k) as u128 + dropoff.input.amount(k) as u128
            }
            Thing::OutgoingHats { dropoff, .. } => dropoff.input.amount(k) as u128,
            Thing::Unit { resources, .. } => resources.amount(k) as u128,
        })
        .sum()
}

#[test]
fn transport_neither_creates_nor_loses_goods() {
    let mut world = World::blank(false);
    spawn_ore(&mut world, ivec2(5, 5), R::CopperOre);
    spawn_ore(&mut world, ivec2(6, 5), R::Sand);
    spawn_factory(&mut world, ivec2(5, 7), R::Copper);
    spawn_factory(&mut world, ivec2(6, 7), R::Glass);
    for (id, tile, pile) in [(1u8, ivec2(5, 6), 0usize), (2, ivec2(6, 6), 1), (3, ivec2(15, 15), 0)] {
        let mut carrier = unit(id, world.board.ls_to_ws_vec3(tile));
        if let Thing::Unit { blobby, .. } = &mut carrier {
            blobby.resource_pile = Some(Entity { index: pile });
        }
        world.things.push(carrier);
    }
    let kinds: Vec<R> = (0..KIND_COUNT).map(R::from_index).collect();
    let before: Vec<u128> = kinds.iter().map(|k| held(&world, *k)).collect();
    for _ in 0..10 {
        blobby_get_resource(&mut world);
        blobby_put_resource(&mut world);
        let now: Vec<u128> = kinds.iter().map(|k| held(&world, *k)).collect();
        assert_eq!(now, before);
    }
    assert_eq!(input_of(&world, 2).get(R::CopperOre), Some(2));
    assert_eq!(input_of(&world, 3).get(R::Sand), Some(3));
    assert_eq!(pile_of(&world, 0).get(R::CopperOre), Some(100_000_000 - 3));
    assert_eq!(pile_of(&world, 1).get(R::Sand), Some(100_000_000 - 4));
    assert_eq!(pile_of(&world, 4).get(R::CopperOre), Some(1));
    assert_eq!(pile_of(&world, 5).get(R::Sand), Some(1));
    assert_eq!(pile_of(&world, 6).get(R::CopperOre), None);
}

#[test]
fn a_replay_follows_a_game_with_halts() {
    let script: Vec<(u64, Action)> = vec![
        (1, Action::Place(1, 1, Item::Blobby.int_value())),
        (2, Action::MoveBlobby(12, 9, 1)),
        (30, Action::GamePause),
        (31, Action::Place(6, 9, Item::CopperRefinery.int_value())),
        (33, Action::MoveBlobby(2, 20, 1)),
        (35, Action::GameSpeedDec),
        (36, Action::Place(21, 1, Item::Blobby.int_value())),
        (40, Action::GamePause),
        (41, Action::MoveBlobby(20, 20, 2)),
        (90, Action::GamePause),
        (90, Action::SellItem(6, 9)),
        (91, Action::GamePause),
        (120, Action::Place(15, 3, Item::GlassRefinery.int_value())),
    ];
    let frames = 200;
    let mut live = World::new(false);
    live.stock.insert(R::Plastic, 200);
    live.stock.insert(R::Copper, 50);
    let mut history: Vec<(u64, Vec<String>)> = Vec::new();
    for f in 1..=frames {
        for (at, a) in &script {
            if *at == f {
                live.submit(*a);
            }
        }
        tick(&mut live);
        if live.paused == PausedState::Unpaused {
            history.push((live.player.step, snapshot(&live)));
        }
    }
    assert!(live.player.step < frames);
    assert_eq!(live.player.step, frames - 11);
    let log = ActionRecording(live.recorder.actions.0.clone());
    assert_eq!(log.0.len(), 8);

    let mut replay = World::new(false);
    replay.stock.insert(R::Plastic, 200);
    replay.stock.insert(R::Copper, 50);
    replay.start_replay(log);
    let mut compared = 0;
    for _ in 0..live.player.step {
        tick(&mut replay);
        for (step, seen) in &history {
            if *step == replay.player.step {
                assert_eq!(&snapshot(&replay), seen, "tick {}", step);
                compared += 1;
            }
        }
    }
    assert_eq!(compared, history.len());
    assert_eq!(replay.recorder.play_head, 8);
}

#[test]
fn a_replay_never_writes_to_its_recording() {
    let mut world = World::blank(false);
    world.recorder.actions = ActionRecording(vec![(1, [8, 1, 2, 3]), (2, [9, 5, 5, 1])]);
    world.recorder.play = true;
    world.recorder.disable_rec = false;
    world.submit(Action::MoveBlobby(4, 4, 1));
    process_actions(&mut world);
    assert_eq!(world.recorder.actions.0, vec![(1, [8, 1, 2, 3]), (2, [9, 5, 5, 1])]);
    assert!(world.queue.0.is_empty());
    world.submit(Action::Place(3, 3, 1));
    tick(&mut world);
    tick(&mut world);
    assert_eq!(world.recorder.actions.0, vec![(1, [8, 1, 2, 3]), (2, [9, 5, 5, 1])]);
    assert_eq!(world.recorder.play_head, 2);
    assert!(world.recorder.play);

    let mut muted = World::blank(false);
    muted.recorder.disable_rec = true;
    muted.submit(Action::MoveBlobby(4, 4, 1));
    tick(&mut muted);
    assert!(muted.recorder.actions.0.is_empty());

    let mut recording = World::blank(false);
    recording.submit(Action::MoveBlobby(4, 4, 1));
    tick(&mut recording);
    assert_eq!(recording.recorder.actions.0, vec![(1, [8, 4, 4, 1])]);
}

#[test]
fn a_unit_that_took_one_of_each_kind_takes_no_more() {
    let mut world = World::blank(false);
    spawn_ore(&mut world, ivec2(5, 5), R::CopperOre);
    match &mut world.things[0] {
        Thing::Ore { resources, .. } => resources.insert(R::CopperOre, 5),
        _ => panic!("no pile"),
    }
    let mut carrier = unit(1, world.board.ls_to_ws_vec3(ivec2(5, 6)));
    if let Thing::Unit { blobby, .. } = &mut carrier {
        blobby.resource_pile = Some(Entity { index: 0 });
    }
    world.things.push(carrier);
    blobby_get_resource(&mut world);
    assert_eq!(pile_of(&world, 0).get(R::CopperOre), Some(4));
    assert_eq!(pile_of(&world, 1).get(R::CopperOre), Some(1));
    assert!(!blobby_of(&world, 1).going_to_pickup);
    for _ in 0..4 {
        blobby_get_resource(&mut world);
        assert_eq!(pile_of(&world, 0).get(R::CopperOre), Some(4));
        assert_eq!(pile_of(&world, 1).get(R::CopperOre), Some(1));
        assert!(!blobby_of(&world, 1).going_to_pickup);
    }
}

#[test]
fn a_drop_off_is_chosen_however_far_away_it_is() {
    let mut world = World::blank(false);
    spawn_factory(&mut world, ivec2(120_000, 12), R::Copper);
    let mut carrier = unit(1, vec3(500, 0, 500));
    if let Thing::Unit { blobby, resources, .. } = &mut carrier {
        blobby.resource_pile = Some(Entity { index: 0 });
        blobby.going_to_pickup = false;
        resources.insert(R::CopperOre, 1);
    }
    world.things.push(carrier);
    assert!(dist2(vec3(500, 0, 500), world.board.ls_to_ws_vec3(ivec2(120_000, 12)))
        > 99_999_000u128 * 99_999_000u128);
    blobby_put_resource(&mut world);
    assert_eq!(blobby_of(&world, 1).drop_off, Some(Entity { index: 0 }));
    assert_eq!(blobby_of(&world, 1).dest, Some(ivec2(120_000, 13)));
    assert_eq!(pile_of(&world, 1).get(R::CopperOre), Some(1));
    assert_eq!(input_of(&world, 0).get(R::CopperOre), Some(0));
}

#[test]
fn of_far_drop_offs_the_nearer_is_chosen() {
    let mut world = World::blank(false);
    spawn_factory(&mut world, ivec2(2_000_000, 0), R::Copper);
    spawn_factory(&mut world, ivec2(-1_500_000, 0), R::Glass);
    spawn_factory(&mut world, ivec2(0, 1_500_000), R::Copper);
    spawn_factory(&mut world, ivec2(0, -1_500_000 - 24), R::Copper);
    let mut carrier = unit(1, world.board.ls_to_ws_vec3(ivec2(0, 0)));
    if let Thing::Unit { blobby, resources, .. } = &mut carrier {
        blobby.resource_pile = Some(Entity { index: 0 });
        blobby.going_to_pickup = false;
        resources.insert(R::CopperOre, 1);
    }
    world.things.push(carrier);
    blobby_put_resource(&mut world);
    assert_eq!(blobby_of(&world, 4).drop_off, Some(Entity { index: 2 }));
    assert_eq!(blobby_of(&world, 4).dest, Some(ivec2(0, 1_500_001)));
}

#[test]
fn a_unit_with_nothing_to_deliver_chooses_no_drop_off() {
    let mut world = World::blank(false);
    spawn_factory(&mut world, ivec2(3, 3), R::Copper);
    let mut carrier = unit(1, world.board.ls_to_ws_vec3(ivec2(3, 4)));
    if let Thing::Unit { blobby, resources, .. } = &mut carrier {
        blobby.resource_pile = Some(Entity { index: 0 });
        blobby.going_to_pickup = false;
        resources.insert(R::Sand, 4);
    }
    world.things.push(carrier);
    blobby_put_resource(&mut world);
    assert_eq!(blobby_of(&world, 1).drop_off, None);
    assert_eq!(blobby_of(&world, 1).dest, None);
    assert_eq!(pile_of(&world, 1).get(R::Sand), Some(4));
}
