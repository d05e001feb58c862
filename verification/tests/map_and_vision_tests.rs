//! The map, field of view, pathfinding and the AI's movement gates.

use dungeon_core::components::{Name, Point, Position, Viewshed};
use dungeon_core::map::{
    apply_horizontal_tunnel, apply_room_to_map, apply_vertical_tunnel, xy_idx, GameMap, Rect,
    TileType,
};
use dungeon_core::monster_ai_system::MonsterAI;
use dungeon_core::pathing::find_path_step;
use dungeon_core::visibility_system::{field_of_view, VisibilitySystem};
use dungeon_core::world::World;

fn open_map(width: i32, height: i32) -> GameMap {
    let mut m = GameMap::new(width, height, 1);
    for i in 0..m.tiles.len() {
        m.tiles[i] = TileType::Floor;
    }
    m
}

#[test]
fn xy_idx_is_row_major_for_the_standard_width() {
    assert_eq!(xy_idx(0, 0), 0);
    assert_eq!(xy_idx(79, 0), 79);
    assert_eq!(xy_idx(0, 1), 80);
    assert_eq!(xy_idx(3, 2), 163);
}

#[test]
fn carving_a_room_floors_its_interior_only() {
    let mut tiles = vec![TileType::Wall; 80 * 50];
    let room = Rect::new(10, 10, 5, 5);
    apply_room_to_map(&room, &mut tiles);
    assert_eq!(tiles[xy_idx(11, 11)], TileType::Floor);
    assert_eq!(tiles[xy_idx(15, 15)], TileType::Floor);
    assert_eq!(tiles[xy_idx(10, 11)], TileType::Wall);
    assert_eq!(tiles[xy_idx(16, 11)], TileType::Wall);
}

#[test]
fn tunnels_floor_their_spans() {
    let mut tiles = vec![TileType::Wall; 80 * 50];
    apply_horizontal_tunnel(&mut tiles, 5, 9, 7);
    for x in 5..=9 {
        assert_eq!(tiles[xy_idx(x, 7)], TileType::Floor);
    }
    apply_vertical_tunnel(&mut tiles, 3, 6, 20);
    for y in 3..=6 {
        assert_eq!(tiles[xy_idx(20, y)], TileType::Floor);
    }
    assert_eq!(tiles[xy_idx(4, 7)], TileType::Wall);
}

#[test]
fn field_of_view_is_clipped_and_blocked_by_walls() {
    let mut m = open_map(20, 20);
    // A wall due east of the viewer hides what lies behind it.
    let widx = m.xy_idx(12, 10);
    m.tiles[widx] = TileType::Wall;
    let seen = field_of_view(&m, 10, 10, 5);
    let has = |x: i32, y: i32| seen.iter().any(|p| p.x == x && p.y == y);
    assert!(has(10, 10));
    assert!(has(11, 10));
    assert!(has(12, 10), "the wall itself is visible");
    assert!(!has(13, 10), "what lies behind the wall is not");
    assert!(!has(16, 10), "outside the sight radius");
    for p in &seen {
        assert!(p.x >= 0 && p.x < 20 && p.y >= 0 && p.y < 20);
        let dx = (p.x - 10) as i64;
        let dy = (p.y - 10) as i64;
        assert!(dx * dx + dy * dy <= 25);
    }
}

#[test]
fn larger_sight_range_never_shrinks_the_visible_set() {
    let mut m = open_map(30, 30);
    let w1 = m.xy_idx(14, 15);
    m.tiles[w1] = TileType::Wall;
    let w2 = m.xy_idx(17, 13);
    m.tiles[w2] = TileType::Wall;
    let small = field_of_view(&m, 15, 15, 3);
    let large = field_of_view(&m, 15, 15, 7);
    for p in &small {
        assert!(
            large.iter().any(|q| q.x == p.x && q.y == p.y),
            "every tile seen at range three is still seen at range seven"
        );
    }
    assert!(large.len() > small.len());
}

#[test]
fn path_step_closes_on_the_goal_and_respects_walls() {
    let mut m = open_map(10, 10);
    // The blocked bitmap is what pathing reads.
    for i in 0..m.blocked.len() {
        m.blocked[i] = false;
    }
    let start = m.xy_idx(1, 1);
    let goal = m.xy_idx(5, 1);
    let step = find_path_step(&m, start, goal).expect("open corridor has a route");
    let (sx, sy) = ((step % 10) as i32, (step / 10) as i32);
    assert_eq!(sx, 2, "the step closes the distance to the goal");
    assert!((0..=2).contains(&sy));
    assert!(!m.blocked[step]);

    // Wall the goal off completely.
    for y in 0..10 {
        let bidx = m.xy_idx(3, y);
        m.blocked[bidx] = true;
    }
    assert!(find_path_step(&m, start, goal).is_none());
}

#[test]
fn visibility_system_reveals_only_what_the_player_sees() {
    let mut w = World::new();
    let mut m = open_map(15, 15);
    let player = dungeon_core::spawner::player(&mut w, 7, 7);
    VisibilitySystem::run(&mut w, &mut m, player);

    let vs = w.viewsheds[player].as_ref().unwrap();
    assert!(!vs.dirty, "the dirty flag is cleared");
    assert!(!vs.visible_tiles.is_empty());
    for p in &vs.visible_tiles {
        let idx = (p.y as usize) * 15 + (p.x as usize);
        assert!(m.visible_tiles[idx]);
        assert!(m.revealed_tiles[idx], "seen tiles stay revealed");
    }
    let seen = vs.visible_tiles.len();
    let lit = m.visible_tiles.iter().filter(|b| **b).count();
    assert_eq!(seen, lit, "exactly the player's visible set is lit");
}

#[test]
fn monster_out_of_sight_holds_position_even_when_close_by() {
    // The visibility gate: a monster that does not see the player's cell
    // neither moves nor attacks from afar, but the adjacency branch fires
    // regardless of sight.
    let mut w = World::new();
    let mut m = open_map(20, 20);
    let player = dungeon_core::spawner::player(&mut w, 5, 5);
    let blind = w.spawn();
    w.monsters[blind] = Some(dungeon_core::components::Monster {});
    w.names[blind] = Some(Name {
        name: "Blind".to_string(),
    });
    w.positions[blind] = Some(Position { x: 9, y: 5 });
    w.viewsheds[blind] = Some(Viewshed {
        visible_tiles: Vec::new(),
        range: 8,
        dirty: false,
    });

    MonsterAI::run(&mut w, &mut m, player, Point { x: 5, y: 5 });
    let p = w.positions[blind].unwrap();
    assert_eq!((p.x, p.y), (9, 5), "no route is taken while the player is unseen");
    assert!(w.wants_melee[blind].is_none());

    // Adjacent, still blind: the attack happens anyway.
    w.positions[blind] = Some(Position { x: 6, y: 6 });
    MonsterAI::run(&mut w, &mut m, player, Point { x: 5, y: 5 });
    assert_eq!(w.wants_melee[blind].unwrap().target, player);
    let p = w.positions[blind].unwrap();
    assert_eq!((p.x, p.y), (6, 6));
}

#[test]
fn confused_monster_sits_out_its_turn_and_recovers() {
    let mut w = World::new();
    let mut m = open_map(20, 20);
    let player = dungeon_core::spawner::player(&mut w, 5, 5);
    let dizzy = w.spawn();
    w.monsters[dizzy] = Some(dungeon_core::components::Monster {});
    w.positions[dizzy] = Some(Position { x: 6, y: 5 });
    w.viewsheds[dizzy] = Some(Viewshed {
        visible_tiles: Vec::new(),
        range: 8,
        dirty: false,
    });
    w.confusion[dizzy] = Some(dungeon_core::components::Confusion { turns: 2 });

    MonsterAI::run(&mut w, &mut m, player, Point { x: 5, y: 5 });
    assert_eq!(w.confusion[dizzy].unwrap().turns, 1);
    assert!(w.wants_melee[dizzy].is_none(), "the status consumes the turn");

    MonsterAI::run(&mut w, &mut m, player, Point { x: 5, y: 5 });
    assert!(w.confusion[dizzy].is_none(), "the status wears off at zero");

    MonsterAI::run(&mut w, &mut m, player, Point { x: 5, y: 5 });
    assert_eq!(w.wants_melee[dizzy].unwrap().target, player);
}

#[test]
fn generated_map_has_rooms_floors_and_stairs() {
    let mut rng = rltk::RandomNumberGenerator::seeded(7);
    let m = dungeon_core::map::new_map_rooms_and_corridors(&mut rng, 1);
    assert_eq!(m.width, 80);
    assert_eq!(m.height, 50);
    assert!(!m.rooms.is_empty());
    for r in &m.rooms {
        assert!(r.x1 >= 0 && r.x2 < 80 && r.y1 >= 0 && r.y2 < 50);
        let (cx, cy) = ((r.x1 + r.x2) / 2, (r.y1 + r.y2) / 2);
        let t = m.tiles[xy_idx(cx, cy)];
        assert!(t == TileType::Floor || t == TileType::DownStairs);
    }
    let stairs = m.tiles.iter().filter(|t| **t == TileType::DownStairs).count();
    assert_eq!(stairs, 1);
}
