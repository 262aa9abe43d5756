use miner_pitfall::layout::{parse_layout, starting_room};
use miner_pitfall::spawn::{spawn_plan, sprite_frame, Spawn};
use miner_pitfall::map::{LevelMap, read_map, build_map, generate_map, generate_map_sized, ExitDraw, RoomDraws, MAP_HEIGHT, MAP_WIDTH};
use miner_pitfall::room::{
    build_room, gen_feature_rolls, gen_seed_wall_locations, generate_room, FeatureRolls, Room, Smoothing,
    BOTTOM, LEFT, RIGHT, ROOM_CELLS, ROOM_HEIGHT, ROOM_WIDTH, SEED_WALLS, TOP,
};
use miner_pitfall::tile::Tile;

const MISS: FeatureRolls = FeatureRolls { enemy: 0, bomb: 0, door: 0, health: 0 };

fn no_hits() -> Vec<FeatureRolls> {
    vec![MISS; ROOM_CELLS]
}

fn on_ring(r: usize, c: usize) -> bool {
    r == 0 || c == 0 || r == ROOM_HEIGHT - 1 || c == ROOM_WIDTH - 1
}

fn text(s: &str) -> Vec<char> {
    s.chars().collect()
}

fn fixed_draws(h: usize, w: usize) -> (Vec<Vec<ExitDraw>>, Vec<Vec<RoomDraws>>) {
    let mut exits = Vec::new();
    let mut rooms = Vec::new();
    for i in 0..h {
        let mut er = Vec::new();
        let mut rr = Vec::new();
        for j in 0..w {
            er.push(ExitDraw { bottom: (i + j) % 2 == 0, right: (i * 3 + j) % 3 == 1 });
            let seeds: Vec<usize> = (0..SEED_WALLS).map(|k| (k * 7 + i * 13 + j * 5) % ROOM_CELLS).collect();
            let mut rolls = no_hits();
            rolls[(i * 11 + j * 17 + 20) % ROOM_CELLS].enemy = 5;
            rr.push(RoomDraws { seeds, rolls });
        }
        exits.push(er);
        rooms.push(rr);
    }
    (exits, rooms)
}

#[test]
fn closed_room_ring_is_all_unbreakable() {
    for _ in 0..20 {
        let room = generate_room([false, false, false, false]);
        for r in 0..ROOM_HEIGHT {
            for c in 0..ROOM_WIDTH {
                if on_ring(r, c) {
                    assert_eq!(room.tile(r, c), Tile::UnbreakableWall);
                }
            }
        }
    }
}

#[test]
fn open_room_has_gap_on_every_side() {
    for _ in 0..20 {
        let room = generate_room([true, true, true, true]);
        assert_eq!(room.tile(0, ROOM_WIDTH / 2), Tile::Open);
        assert_eq!(room.tile(ROOM_HEIGHT - 1, ROOM_WIDTH / 2), Tile::Open);
        assert_eq!(room.tile(ROOM_HEIGHT / 2, 0), Tile::Open);
        assert_eq!(room.tile(ROOM_HEIGHT / 2, ROOM_WIDTH - 1), Tile::Open);
        for r in 0..ROOM_HEIGHT {
            for c in 0..ROOM_WIDTH {
                if on_ring(r, c) {
                    assert_eq!(room.tile(r, c), Tile::Open);
                }
            }
        }
    }
}

#[test]
fn ring_holds_only_walls_and_exit_gaps() {
    let exits = [false, true, true, false];
    for _ in 0..20 {
        let room = generate_room(exits);
        assert_eq!(room.exits(), exits);
        for r in 0..ROOM_HEIGHT {
            for c in 0..ROOM_WIDTH {
                let walled = (r == 0 && !exits[TOP])
                    || (c == 0 && !exits[LEFT])
                    || (r == ROOM_HEIGHT - 1 && !exits[BOTTOM])
                    || (c == ROOM_WIDTH - 1 && !exits[RIGHT]);
                if walled {
                    assert_eq!(room.tile(r, c), Tile::UnbreakableWall);
                } else if on_ring(r, c) {
                    assert_eq!(room.tile(r, c), Tile::Open);
                }
            }
        }
    }
}

#[test]
fn closed_room_without_seeds_walls_interior_corners() {
    for mode in [Smoothing::InPlace, Smoothing::Buffered] {
        let room = build_room(Room::with_seeds([false; 4], vec![]), &no_hits(), mode);
        for r in 0..ROOM_HEIGHT {
            for c in 0..ROOM_WIDTH {
                let expected = if on_ring(r, c) {
                    Tile::UnbreakableWall
                } else if (r == 1 || r == ROOM_HEIGHT - 2) && (c == 1 || c == ROOM_WIDTH - 2) {
                    Tile::BreakableWall
                } else {
                    Tile::Open
                };
                assert_eq!(room.tile(r, c), expected, "cell ({}, {})", r, c);
            }
        }
    }
}

#[test]
fn open_room_without_seeds_is_all_floor() {
    let room = build_room(Room::with_seeds([true; 4], vec![]), &no_hits(), Smoothing::InPlace);
    assert!(room.cells().iter().all(|t| *t == Tile::Open));
}

#[test]
fn seed_indices_count_from_zero() {
    let room = build_room(Room::with_seeds([true; 4], vec![72, 72]), &no_hits(), Smoothing::InPlace);
    for k in 0..ROOM_CELLS {
        let expected = if k == 72 { Tile::BreakableWall } else { Tile::Open };
        assert_eq!(room.cells()[k], expected);
    }
    assert_eq!(room.tile(4, 8), Tile::BreakableWall);
}

#[test]
fn first_hitting_feature_takes_the_cell() {
    let mut rolls = no_hits();
    rolls[20] = FeatureRolls { enemy: 5, bomb: 10, door: 3, health: 5 };
    rolls[40] = FeatureRolls { enemy: 4, bomb: 10, door: 3, health: 5 };
    rolls[60] = FeatureRolls { enemy: 4, bomb: 9, door: 3, health: 5 };
    rolls[84] = FeatureRolls { enemy: 4, bomb: 9, door: 2, health: 5 };
    rolls[100] = FeatureRolls { enemy: 5, bomb: 10, door: 3, health: 5 };
    let room = build_room(Room::with_seeds([true; 4], vec![100]), &rolls, Smoothing::InPlace);
    assert_eq!(room.cells()[20], Tile::Enemy);
    assert_eq!(room.cells()[40], Tile::BombPickup);
    assert_eq!(room.cells()[60], Tile::Door);
    assert_eq!(room.cells()[84], Tile::HealthPickup);
    assert_eq!(room.cells()[100], Tile::BreakableWall);
    assert_eq!(room.cells().iter().filter(|t| **t != Tile::Open).count(), 5);
}

#[test]
fn feature_on_closed_side_gives_way_to_wall() {
    let mut rolls = no_hits();
    rolls[3] = FeatureRolls { enemy: 5, bomb: 0, door: 0, health: 0 };
    let room = build_room(Room::with_seeds([true, true, false, true], vec![]), &rolls, Smoothing::InPlace);
    assert_eq!(room.tile(0, 3), Tile::UnbreakableWall);
}

#[test]
fn in_place_and_buffered_passes_differ() {
    // Row 1 walled, a wall at (2, 1), and walls at every third column of row 3:
    // each cell of row 2 sees four seed walls, and a fifth once its left
    // neighbour has turned.
    let mut seeds: Vec<usize> = (1..15).map(|c| ROOM_WIDTH + c).collect();
    seeds.push(2 * ROOM_WIDTH + 1);
    for c in [3, 6, 9, 12] {
        seeds.push(3 * ROOM_WIDTH + c);
    }
    let in_place = build_room(Room::with_seeds([true; 4], seeds.clone()), &no_hits(), Smoothing::InPlace);
    let buffered = build_room(Room::with_seeds([true; 4], seeds), &no_hits(), Smoothing::Buffered);
    for c in 2..14 {
        assert_eq!(in_place.tile(2, c), Tile::BreakableWall, "in place, column {}", c);
    }
    for c in 2..5 {
        assert_eq!(buffered.tile(2, c), Tile::BreakableWall, "buffered, column {}", c);
    }
    assert_eq!(buffered.tile(2, 5), Tile::Open);
}

#[test]
fn smoothing_keeps_every_wall() {
    let mut seeds = Vec::new();
    for k in 0..SEED_WALLS {
        seeds.push((k * 37) % ROOM_CELLS);
    }
    for mode in [Smoothing::InPlace, Smoothing::Buffered] {
        let room = build_room(Room::with_seeds([true, false, true, false], seeds.clone()), &no_hits(), mode);
        for s in &seeds {
            let (r, c) = (s / ROOM_WIDTH, s % ROOM_WIDTH);
            if !on_ring(r, c) {
                assert!(room.cells()[*s].is_wall_like(), "seed {} lost", s);
            }
        }
    }
}

#[test]
fn random_draws_stay_in_range() {
    for _ in 0..20 {
        let seeds = gen_seed_wall_locations();
        assert_eq!(seeds.len(), SEED_WALLS);
        assert!(seeds.iter().all(|s| *s < ROOM_CELLS));
        let rolls = gen_feature_rolls();
        assert_eq!(rolls.len(), ROOM_CELLS);
        assert!(rolls.iter().all(|f| f.enemy < 35 && f.bomb < 30 && f.door < 100 && f.health < 50));
    }
    let room = Room::new([true; 4]);
    assert_eq!(room.seed_wall_locations().len(), SEED_WALLS);
    assert!(room.seed_wall_locations().iter().all(|s| *s < ROOM_CELLS));
}

#[test]
fn random_draws_vary() {
    let a = gen_seed_wall_locations();
    let b = gen_seed_wall_locations();
    let c = gen_seed_wall_locations();
    assert!(a != b || b != c);
}

fn check_map_laws(m: &miner_pitfall::map::LevelMap) {
    let h = m.num_rows();
    let w = m.num_cols();
    for i in 0..h {
        for j in 0..w {
            let e = m.room(i, j).exits();
            if j + 1 < w {
                assert_eq!(e[RIGHT], m.room(i, j + 1).exits()[LEFT]);
            }
            if i + 1 < h {
                assert_eq!(e[BOTTOM], m.room(i + 1, j).exits()[TOP]);
            }
            if i == 0 {
                assert!(!e[TOP]);
            }
            if i == h - 1 {
                assert!(!e[BOTTOM]);
            }
            if j == 0 {
                assert!(!e[LEFT]);
            }
            if j == w - 1 {
                assert!(!e[RIGHT]);
            }
        }
    }
    let (ci, cj) = ((h - 1) / 2, (w - 1) / 2);
    assert!(m.room(ci, cj - 1).exits()[RIGHT]);
    assert!(m.room(ci - 1, cj).exits()[BOTTOM]);
}

#[test]
fn five_by_five_map_scenario() {
    for _ in 0..10 {
        let m = generate_map_sized(5, 5, &text("UUUU\nU--U\n"), Smoothing::InPlace);
        assert_eq!(m.num_rows(), 5);
        assert_eq!(m.num_cols(), 5);
        assert!(m.room(2, 1).exits()[RIGHT]);
        assert!(m.room(1, 2).exits()[BOTTOM]);
        for j in 0..5 {
            assert!(!m.room(0, j).exits()[TOP]);
            assert!(!m.room(4, j).exits()[BOTTOM]);
        }
        assert_eq!((m.x_coords, m.y_coords), (2, 2));
        assert_eq!(m.current_room().exits(), [true; 4]);
        assert_eq!(m.current_room().tile(0, 0), Tile::UnbreakableWall);
        assert_eq!(m.current_room().tile(1, 1), Tile::Open);
        check_map_laws(&m);
    }
}

#[test]
fn full_size_map_keeps_its_laws() {
    let m = generate_map(&text(""));
    assert_eq!(m.num_rows(), MAP_HEIGHT);
    assert_eq!(m.num_cols(), MAP_WIDTH);
    assert_eq!((m.x_coords, m.y_coords), (14, 14));
    check_map_laws(&m);
}

#[test]
fn even_sized_maps_keep_their_laws() {
    for (h, w) in [(3, 3), (4, 6), (6, 4), (3, 8)] {
        let m = generate_map_sized(h, w, &text(""), Smoothing::Buffered);
        check_map_laws(&m);
    }
}

#[test]
fn map_from_fixed_draws_is_determined() {
    let (exits, rooms) = fixed_draws(5, 7);
    let start = parse_layout(&text("#"));
    let a = build_map(5, 7, &exits, &rooms, &start, Smoothing::InPlace);
    let b = build_map(5, 7, &exits, &rooms, &start, Smoothing::InPlace);
    for i in 0..5 {
        for j in 0..7 {
            assert_eq!(a.room(i, j).exits(), b.room(i, j).exits());
            assert_eq!(a.room(i, j).cells(), b.room(i, j).cells());
        }
    }
    check_map_laws(&a);
    assert_eq!(a.room(2, 3).cells()[0], Tile::BreakableWall);
}

#[test]
fn exits_follow_exit_draws_alone() {
    let (exits, rooms) = fixed_draws(5, 5);
    let (_, other_rooms) = fixed_draws(5, 5);
    let mut other_rooms = other_rooms;
    for row in other_rooms.iter_mut() {
        for d in row.iter_mut() {
            d.seeds = vec![0, 1, 2];
            d.rolls = no_hits();
        }
    }
    let start = parse_layout(&text(""));
    let a = build_map(5, 5, &exits, &rooms, &start, Smoothing::InPlace);
    let b = build_map(5, 5, &exits, &other_rooms, &start, Smoothing::Buffered);
    for i in 0..5 {
        for j in 0..5 {
            assert_eq!(a.room(i, j).exits(), b.room(i, j).exits());
        }
    }
}

#[test]
fn exit_draws_decide_free_edges() {
    let (mut exits, rooms) = fixed_draws(3, 3);
    for row in exits.iter_mut() {
        for d in row.iter_mut() {
            *d = ExitDraw { bottom: false, right: false };
        }
    }
    let start = parse_layout(&text(""));
    let m = build_map(3, 3, &exits, &rooms, &start, Smoothing::InPlace);
    assert_eq!(m.room(0, 0).exits(), [false, false, false, false]);
    assert_eq!(m.room(0, 1).exits(), [false, false, false, true]);
    assert_eq!(m.room(1, 0).exits(), [false, true, false, false]);
    assert_eq!(m.room(1, 1).exits(), [true, true, true, true]);
    assert_eq!(m.room(1, 2).exits(), [true, false, false, false]);
    assert_eq!(m.room(2, 1).exits(), [false, false, true, false]);
    exits[0][0] = ExitDraw { bottom: true, right: true };
    let m = build_map(3, 3, &exits, &rooms, &start, Smoothing::InPlace);
    assert_eq!(m.room(0, 0).exits(), [false, true, false, true]);
    assert_eq!(m.room(0, 1).exits(), [true, false, false, true]);
    assert_eq!(m.room(1, 0).exits(), [false, true, true, false]);
}

#[test]
fn layout_text_places_rows_and_columns() {
    let cells = parse_layout(&text("U#D\r\nEBH\nT-x"));
    assert_eq!(cells.len(), ROOM_CELLS);
    assert_eq!(cells[0], Tile::UnbreakableWall);
    assert_eq!(cells[1], Tile::BreakableWall);
    assert_eq!(cells[2], Tile::Door);
    assert_eq!(cells[3], Tile::Open);
    assert_eq!(cells[16], Tile::Enemy);
    assert_eq!(cells[17], Tile::BombPickup);
    assert_eq!(cells[18], Tile::HealthPickup);
    assert_eq!(cells[32], Tile::Boss);
    assert_eq!(cells[33], Tile::Open);
    assert_eq!(cells[34], Tile::Open);
    assert_eq!(cells.iter().filter(|t| **t != Tile::Open).count(), 7);
}

#[test]
fn layout_text_wraps_long_lines_and_extra_rows() {
    let mut s = String::new();
    s.push_str(&"-".repeat(16));
    s.push('#');
    s.push('\n');
    for _ in 0..8 {
        s.push('\n');
    }
    s.push_str("-D");
    let wrapped = parse_layout(&text(&s[..17]));
    assert_eq!(wrapped[0], Tile::BreakableWall);
    assert_eq!(wrapped.iter().filter(|t| **t != Tile::Open).count(), 1);
    // Line nine wraps onto row zero, and its '-' overwrites the '#'.
    let cells = parse_layout(&text(&s));
    assert_eq!(cells[0], Tile::Open);
    assert_eq!(cells[1], Tile::Door);
    assert_eq!(cells.iter().filter(|t| **t != Tile::Open).count(), 1);
    let lone_cr = parse_layout(&text("\rU"));
    assert_eq!(lone_cr[0], Tile::Open);
    assert_eq!(lone_cr[1], Tile::UnbreakableWall);
}

#[test]
fn starting_room_has_every_exit_open() {
    let room = starting_room(&text("UU\nU-"));
    assert_eq!(room.exits(), [true; 4]);
    assert_eq!(room.tile(1, 0), Tile::UnbreakableWall);
    assert_eq!(room.tile(1, 1), Tile::Open);
}

#[test]
fn tile_symbols_round_trip() {
    let all = [
        Tile::Open,
        Tile::BreakableWall,
        Tile::UnbreakableWall,
        Tile::Door,
        Tile::Enemy,
        Tile::Boss,
        Tile::BombPickup,
        Tile::HealthPickup,
    ];
    let symbols: String = all.iter().map(|t| t.symbol()).collect();
    assert_eq!(symbols, "-#UDETBH");
    for t in all {
        assert_eq!(Tile::from_symbol(t.symbol()), t);
    }
    assert_eq!(Tile::from_symbol('?'), Tile::Open);
    assert!(Tile::BreakableWall.is_wall_like());
    assert!(Tile::UnbreakableWall.is_wall_like());
    assert!(!Tile::Door.is_wall_like());
}

#[test]
fn spawn_plan_lists_non_floor_cells_in_walk_order() {
    let mut rolls = no_hits();
    rolls[20].enemy = 5;
    rolls[100].door = 3;
    let room = build_room(Room::with_seeds([true; 4], vec![72]), &rolls, Smoothing::InPlace);
    let plan = spawn_plan(&room);
    assert_eq!(
        plan,
        vec![
            Spawn { row: 1, col: 4, tile: Tile::Enemy, ordinal: 0 },
            Spawn { row: 4, col: 8, tile: Tile::BreakableWall, ordinal: 1 },
            Spawn { row: 6, col: 4, tile: Tile::Door, ordinal: 2 },
        ]
    );
    let closed = build_room(Room::with_seeds([false; 4], vec![]), &no_hits(), Smoothing::InPlace);
    let plan = spawn_plan(&closed);
    assert_eq!(plan.len(), 2 * ROOM_WIDTH + 2 * (ROOM_HEIGHT - 2) + 4);
    assert_eq!(plan[17], Spawn { row: 1, col: 1, tile: Tile::BreakableWall, ordinal: 17 });
    assert_eq!(sprite_frame(7, 4), 3);
    assert_eq!(sprite_frame(3, 4), 3);
    assert_eq!(sprite_frame(0, 1), 0);
}

#[test]
fn new_map_is_open_everywhere() {
    let m = LevelMap::new();
    assert_eq!((m.num_rows(), m.num_cols()), (MAP_HEIGHT, MAP_WIDTH));
    assert_eq!((m.x_coords, m.y_coords), (0, 0));
    assert_eq!(m.current_room().exits(), [true; 4]);
    assert!(m.room(29, 29).cells().iter().all(|t| *t == Tile::Open));
}

#[test]
fn map_text_fills_rooms_in_row_major_order() {
    let m = read_map(&text("#-\n-D!E\n\nU!H"));
    assert_eq!((m.num_rows(), m.num_cols()), (MAP_HEIGHT, MAP_WIDTH));
    assert_eq!((m.x_coords, m.y_coords), (0, 0));
    let first = m.room(0, 0);
    assert_eq!(first.exits(), [true; 4]);
    assert_eq!(first.tile(0, 0), Tile::BreakableWall);
    assert_eq!(first.tile(1, 1), Tile::Door);
    assert_eq!(first.cells().iter().filter(|t| **t != Tile::Open).count(), 2);
    // Lines count across the whole text, and the separator takes a column.
    let second = m.room(0, 1);
    assert_eq!(second.tile(1, 3), Tile::Enemy);
    assert_eq!(second.tile(3, 0), Tile::UnbreakableWall);
    assert_eq!(second.cells().iter().filter(|t| **t != Tile::Open).count(), 2);
    let third = m.room(0, 2);
    assert_eq!(third.tile(3, 2), Tile::HealthPickup);
    assert_eq!(third.cells().iter().filter(|t| **t != Tile::Open).count(), 1);
    assert!(m.room(1, 0).cells().iter().all(|t| *t == Tile::Open));
}

#[test]
fn map_text_past_the_last_room_stays_in_it() {
    let mut s = "!".repeat(MAP_WIDTH * MAP_HEIGHT - 1);
    s.push('E');
    s.push('!');
    s.push('!');
    s.push('B');
    let m = read_map(&text(&s));
    let last = m.room(MAP_HEIGHT - 1, MAP_WIDTH - 1);
    let n = MAP_WIDTH * MAP_HEIGHT - 1;
    assert_eq!(last.tile(0, n % ROOM_WIDTH), Tile::Enemy);
    assert_eq!(last.tile(0, (n + 3) % ROOM_WIDTH), Tile::BombPickup);
    assert!(m.room(0, 0).cells().iter().all(|t| *t == Tile::Open));
}

#[test]
fn smoothing_leaves_features_in_place() {
    // (1, 1) of a closed room has five wall neighbours and would turn to wall.
    let mut rolls = no_hits();
    rolls[ROOM_WIDTH + 1].enemy = 5;
    rolls[ROOM_WIDTH + ROOM_WIDTH - 2].door = 3;
    for mode in [Smoothing::InPlace, Smoothing::Buffered] {
        let room = build_room(Room::with_seeds([false; 4], vec![]), &rolls, mode);
        assert_eq!(room.tile(1, 1), Tile::Enemy);
        assert_eq!(room.tile(1, ROOM_WIDTH - 2), Tile::Door);
        assert_eq!(room.tile(ROOM_HEIGHT - 2, 1), Tile::BreakableWall);
    }
    assert!(Tile::Enemy.is_feature());
    assert!(!Tile::Open.is_feature());
    assert!(!Tile::BreakableWall.is_feature());
}

#[test]
fn new_map_rooms_share_one_seed_draw() {
    let m = LevelMap::new();
    let seeds = m.room(0, 0).seed_wall_locations().clone();
    assert_eq!(seeds.len(), SEED_WALLS);
    assert!(seeds.iter().all(|s| *s < ROOM_CELLS));
    assert_eq!(m.room(17, 23).seed_wall_locations(), &seeds);
    assert_eq!(m.room(29, 0).seed_wall_locations(), &seeds);
}

#[test]
fn player_moves_between_rooms() {
    let mut m = generate_map_sized(5, 5, &text(""), Smoothing::InPlace);
    m.move_to(2, 1);
    assert_eq!((m.x_coords, m.y_coords), (1, 2));
    assert!(m.current_room().exits()[RIGHT]);
    m.move_to(4, 4);
    assert_eq!((m.x_coords, m.y_coords), (4, 4));
}
