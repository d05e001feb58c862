//! The weighted spawn table, decimal rendering, and the turn scheduler.

use dungeon_core::components::{Point, WantsToMelee};
use dungeon_core::gamelog::GameLog;
use dungeon_core::map::{GameMap, TileType};
use dungeon_core::random_table::RandomTable;
use dungeon_core::scheduler::{RunState, State};
use dungeon_core::world::World;

fn open_map(width: i32, height: i32) -> GameMap {
    let mut m = GameMap::new(width, height, 1);
    for i in 0..m.tiles.len() {
        m.tiles[i] = TileType::Floor;
    }
    m
}

#[test]
fn select_walks_the_table_in_order() {
    // Weights 3, 2, 5: draws 0..3 give the first entry, 3..5 the second,
    // 5..10 the third.
    let table = RandomTable::new()
        .add("First", 3)
        .add("Second", 2)
        .add("Third", 5);
    assert_eq!(table.select(0), "First");
    assert_eq!(table.select(2), "First");
    assert_eq!(table.select(3), "Second");
    assert_eq!(table.select(4), "Second");
    assert_eq!(table.select(5), "Third");
    assert_eq!(table.select(9), "Third");
}

#[test]
fn non_positive_weights_are_ignored_and_empty_tables_yield_the_sentinel() {
    let table = RandomTable::new().add("Ghost", 0).add("Shade", -4);
    assert_eq!(table.total_weight, 0);
    let mut rng = rltk::RandomNumberGenerator::seeded(3);
    assert_eq!(table.roll(&mut rng), "None");
}

#[test]
fn rolls_land_in_the_table() {
    let table = RandomTable::new().add("Goblin", 10).add("Orc", 2);
    let mut rng = rltk::RandomNumberGenerator::seeded(99);
    for _ in 0..200 {
        let name = table.roll(&mut rng);
        assert!(name == "Goblin" || name == "Orc");
    }
}

#[test]
fn draw_frequencies_follow_the_weights() {
    // Over many draws the empirical share of each entry approaches its
    // weight's share of the total.
    let table = RandomTable::new()
        .add("Common", 6)
        .add("Uncommon", 3)
        .add("Rare", 1);
    let mut rng = rltk::RandomNumberGenerator::seeded(12345);
    let n = 20000;
    let mut counts = [0i64; 3];
    for _ in 0..n {
        match table.roll(&mut rng).as_str() {
            "Common" => counts[0] += 1,
            "Uncommon" => counts[1] += 1,
            "Rare" => counts[2] += 1,
            _ => panic!("unexpected entry"),
        }
    }
    let share = |c: i64| c as f64 / n as f64;
    assert!((share(counts[0]) - 0.6).abs() < 0.03);
    assert!((share(counts[1]) - 0.3).abs() < 0.03);
    assert!((share(counts[2]) - 0.1).abs() < 0.03);
}

#[test]
fn decimal_rendering_matches_the_standard_form() {
    assert_eq!(dungeon_core::strfmt::u64_to_string(0), "0");
    assert_eq!(dungeon_core::strfmt::u64_to_string(7), "7");
    assert_eq!(dungeon_core::strfmt::u64_to_string(40), "40");
    assert_eq!(dungeon_core::strfmt::u64_to_string(1234567), "1234567");
    assert_eq!(dungeon_core::strfmt::i32_to_string(-25), "-25");
    assert_eq!(dungeon_core::strfmt::i32_to_string(i32::MIN), "-2147483648");
}

fn small_game() -> State {
    let mut w = World::new();
    let map = open_map(12, 12);
    let player = dungeon_core::spawner::player(&mut w, 3, 3);
    State {
        ecs: w,
        map,
        log: GameLog::new(),
        run_state: RunState::PreRun,
        player,
        player_pos: Point { x: 3, y: 3 },
    }
}

#[test]
fn turn_phases_cycle_and_clear_every_intent() {
    let mut gs = small_game();
    let monster = dungeon_core::spawner::monster(&mut gs.ecs, 4, 3, 111, "Orc");

    gs.tick();
    assert_eq!(gs.run_state, RunState::AwaitInput);

    // The input shell queues a player attack, then the player turn runs.
    gs.ecs.wants_melee[gs.player] = Some(WantsToMelee { target: monster });
    gs.run_state = RunState::PlayerTurn;
    gs.tick();
    assert_eq!(gs.run_state, RunState::MonsterTurn);
    assert!(gs.ecs.wants_melee.iter().all(|i| i.is_none()));
    assert!(gs.ecs.wants_use.iter().all(|i| i.is_none()));
    assert!(gs.ecs.wants_pickup.iter().all(|i| i.is_none()));
    assert!(gs.ecs.wants_drop.iter().all(|i| i.is_none()));
    assert!(gs.ecs.wants_remove.iter().all(|i| i.is_none()));
    // Power 5 against defense 1: the orc took 4.
    assert_eq!(gs.ecs.combat_stats[monster].unwrap().hp, 12);

    // The monster turn strikes back and returns to input.
    gs.tick();
    assert_eq!(gs.run_state, RunState::AwaitInput);
    assert!(gs.ecs.wants_melee.iter().all(|i| i.is_none()));
    // Monster power 4 against player defense 2.
    assert_eq!(gs.ecs.combat_stats[gs.player].unwrap().hp, 28);
}

#[test]
fn the_mortality_sweep_runs_every_frame() {
    let mut gs = small_game();
    let monster = dungeon_core::spawner::monster(&mut gs.ecs, 9, 9, 111, "Orc");
    if let Some(stats) = gs.ecs.combat_stats[monster].as_mut() {
        stats.hp = 0;
    }
    gs.run_state = RunState::AwaitInput;
    gs.tick();
    assert!(!gs.ecs.alive[monster], "a dead monster is gone after the frame");
    assert!(gs.ecs.alive[gs.player]);
    assert_eq!(gs.run_state, RunState::AwaitInput);
}

#[test]
fn a_defeated_player_moves_the_game_to_its_end_phase() {
    let mut gs = small_game();
    if let Some(stats) = gs.ecs.combat_stats[gs.player].as_mut() {
        stats.hp = 0;
    }
    gs.run_state = RunState::AwaitInput;
    gs.tick();
    assert!(gs.ecs.alive[gs.player], "the player is never deleted");
    assert_eq!(gs.run_state, RunState::GameOver);
}

#[test]
fn player_commands_move_attack_and_report() {
    let mut gs = small_game();
    // A wall to the east stops movement.
    let widx = gs.map.xy_idx(4, 3);
    gs.map.tiles[widx] = TileType::Wall;
    gs.map.blocked[widx] = true;
    dungeon_core::player::try_move_player(
        1,
        0,
        &mut gs.ecs,
        &gs.map,
        gs.player,
        &mut gs.player_pos,
    );
    let p = gs.ecs.positions[gs.player].unwrap();
    assert_eq!((p.x, p.y), (3, 3), "a blocked destination is ignored");

    // An open cell to the south is entered and dirties the viewshed.
    dungeon_core::player::try_move_player(
        0,
        1,
        &mut gs.ecs,
        &gs.map,
        gs.player,
        &mut gs.player_pos,
    );
    let p = gs.ecs.positions[gs.player].unwrap();
    assert_eq!((p.x, p.y), (3, 4));
    assert_eq!((gs.player_pos.x, gs.player_pos.y), (3, 4));
    assert!(gs.ecs.viewsheds[gs.player].as_ref().unwrap().dirty);

    // Nothing underfoot: the pickup command only reports.
    dungeon_core::player::get_item(&mut gs.ecs, &mut gs.log, gs.player);
    assert_eq!(
        gs.log.entries.last().unwrap(),
        "There is nothing here to pick up"
    );

    // No stairs here either.
    let descended = dungeon_core::player::try_next_level(&gs.map, &mut gs.log, 3, 4);
    assert!(!descended);
    assert_eq!(
        gs.log.entries.last().unwrap(),
        "There is no way down to the next level from here."
    );

    // Waiting with no monster in sight heals one point.
    if let Some(stats) = gs.ecs.combat_stats[gs.player].as_mut() {
        stats.hp = 10;
    }
    dungeon_core::player::skip_turn(&mut gs.ecs, &gs.map, gs.player);
    assert_eq!(gs.ecs.combat_stats[gs.player].unwrap().hp, 11);
}

#[test]
fn bumping_into_a_monster_queues_an_attack() {
    let mut gs = small_game();
    let monster = dungeon_core::spawner::monster(&mut gs.ecs, 4, 3, 111, "Orc");
    dungeon_core::map_indexing_system::MapIndexingSystem::run(&mut gs.map, &gs.ecs);
    dungeon_core::player::try_move_player(
        1,
        0,
        &mut gs.ecs,
        &gs.map,
        gs.player,
        &mut gs.player_pos,
    );
    assert_eq!(gs.ecs.wants_melee[gs.player].unwrap().target, monster);
    let p = gs.ecs.positions[gs.player].unwrap();
    assert_eq!((p.x, p.y), (3, 3), "attacking replaces the move");
}

#[test]
fn a_monster_that_sees_the_player_closes_in() {
    let mut gs = small_game();
    let monster = dungeon_core::spawner::monster(&mut gs.ecs, 9, 3, 111, "Orc");
    gs.tick();
    assert_eq!(gs.run_state, RunState::AwaitInput);
    gs.run_state = RunState::PlayerTurn;
    gs.tick();
    gs.tick();
    let p = gs.ecs.positions[monster].unwrap();
    let cheb = (p.x - 3).abs().max((p.y - 3).abs());
    assert!(cheb < 6, "one step was taken toward the player");
    assert!(gs.ecs.viewsheds[monster].as_ref().unwrap().dirty, "moving dirties the viewshed");
}

#[test]
fn spawned_rooms_fill_with_known_entries() {
    let mut w = World::new();
    let mut rng = rltk::RandomNumberGenerator::seeded(5);
    let room = dungeon_core::map::Rect::new(5, 5, 8, 8);
    let before = w.alive.len();
    dungeon_core::spawner::spawn_room(&mut w, &mut rng, &room, 3);
    for e in before..w.alive.len() {
        let name = w.names[e].as_ref().unwrap().name.clone();
        assert!(
            [
                "Goblin",
                "Orc",
                "Health Potion",
                "Fireball Scroll",
                "Confusion Scroll",
                "Magic Missile Scroll",
                "Dagger",
                "Shield",
                "Longsword",
                "Tower Shield"
            ]
            .contains(&name.as_str())
        );
        let p = w.positions[e].unwrap();
        assert!(p.x >= 5 && p.x <= 13 && p.y >= 5 && p.y <= 13);
    }
}
