use turnsim::board::components::Tile;
use turnsim::board::Board;
use turnsim::mapgen::bsp::BspMapBuilder;
use turnsim::mapgen::bsp_interior::BspInteriorBuilder;
use turnsim::mapgen::cellular_automata::CellularAutomataBuilder;
use turnsim::mapgen::common::{draw_corridor, random_rect, set_rect};
use turnsim::mapgen::room_corridors::RoomCorridors;
use turnsim::mapgen::room_start_pos::RoomBasedStartingPosition;
use turnsim::mapgen::simple_rooms::SimpleRoomBuilder;
use turnsim::mapgen::{random_builder, BuildData, InitBuilder, MapBuilder, MapGenSet, MetaBuilder};
use turnsim::point::Point;
use turnsim::random::{PRng, PRngBuilder};
use turnsim::rect::Rect;

fn rng(seed: u64) -> PRng {
    PRngBuilder::new_seeded(seed).write_u32(1).write_i32(-2).write_u64(3).build()
}

fn data(width: u32, height: u32) -> BuildData {
    BuildData {
        board: Board::new(0, width, height),
        starting_position: None,
        rects: None,
        corridors: None,
        history: Vec::new(),
    }
}

fn floor_cells(board: &Board) -> Vec<(u32, u32)> {
    let mut cells = Vec::new();
    for y in 0..board.height {
        for x in 0..board.width {
            if board.get_tile_xy(x, y) == Tile::Floor {
                cells.push((x, y));
            }
        }
    }
    cells
}

#[test]
fn generator_stays_in_range() {
    let mut r = rng(7);
    for _ in 0..200 {
        let n = r.gen_range(3, 9);
        assert!((3..9).contains(&n));
        let i = r.gen_range_usize(0, 2);
        assert!(i < 2);
        assert_eq!(r.gen_range(5, 6), 5);
        assert!(r.gen_ratio(4, 4));
        assert!(!r.gen_ratio(0, 4));
        let _ = r.gen_ratio(1, 2);
        let _ = r.gen_bool();
    }
}

#[test]
fn generator_varies() {
    let mut r = rng(5);
    let indices: Vec<usize> = (0..200).map(|_| r.gen_range_usize(0, 2)).collect();
    assert!(indices.contains(&0) && indices.contains(&1));
    let numbers: Vec<u32> = (0..200).map(|_| r.gen_range(10, 12)).collect();
    assert!(numbers.contains(&10) && numbers.contains(&11));
    let coins: Vec<bool> = (0..200).map(|_| r.gen_bool()).collect();
    assert!(coins.contains(&true) && coins.contains(&false));
    let odds: Vec<bool> = (0..200).map(|_| r.gen_ratio(1, 2)).collect();
    assert!(odds.contains(&true) && odds.contains(&false));
}

#[test]
fn generator_repeats_for_the_same_seed() {
    let mut a = rng(11);
    let mut b = rng(11);
    let first: Vec<u32> = (0..20).map(|_| a.gen_range(0, 1000)).collect();
    let second: Vec<u32> = (0..20).map(|_| b.gen_range(0, 1000)).collect();
    assert_eq!(first, second);
    assert!(first.iter().any(|n| *n != first[0]));
    let _ = PRngBuilder::new().build().gen_range(0, 10);
}

#[test]
fn default_build_data() {
    let d = BuildData::default();
    assert_eq!((d.board.width, d.board.height), (2, 2));
    assert_eq!(d.board.get_tiles().len(), 4);
    assert!(d.starting_position.is_none() && d.rects.is_none() && d.corridors.is_none());
    assert!(d.history.is_empty());
    assert_eq!(MapGenSet::Generation, MapGenSet::Generation);
    assert_ne!(MapGenSet::Generation, MapGenSet::Spawning);
}

#[test]
fn snapshot_records_the_tiles() {
    let mut d = data(3, 2);
    d.board.set_tile_xy(1, 1, Tile::Floor);
    d.take_snapshot();
    d.board.set_tile_xy(0, 0, Tile::Floor);
    d.take_snapshot();
    assert_eq!(d.history.len(), 2);
    assert_eq!(d.history[0].iter().filter(|t| **t == Tile::Floor).count(), 1);
    assert_eq!(d.history[1], d.board.get_tiles_cloned());
}

#[test]
fn rectangle_is_filled() {
    let mut board = Board::new(0, 6, 5);
    set_rect(&mut board, &Rect::new(2, 1, 3, 2), Tile::Floor);
    assert_eq!(floor_cells(&board), vec![(2, 1), (3, 1), (4, 1), (2, 2), (3, 2), (4, 2)]);
}

#[test]
fn random_rectangle_keeps_its_limits() {
    let mut r = rng(3);
    for _ in 0..200 {
        let rect = random_rect(5, 11, 5, 11, 1, 79, 1, 49, &mut r);
        assert!((5..11).contains(&rect.width()));
        assert!((5..11).contains(&rect.height()));
        assert!(rect.x1 >= 1 && rect.x2 + 1 < 79);
        assert!(rect.y1 >= 1 && rect.y2 + 1 < 49);
    }
}

#[test]
fn corridor_along_y_first() {
    let mut board = Board::new(0, 6, 6);
    board.set_tile_xy(1, 3, Tile::Floor);
    let corridor = draw_corridor(&mut board, Point::new(1, 1), Point::new(4, 4), true);
    assert_eq!(
        floor_cells(&board),
        vec![(1, 2), (1, 3), (1, 4), (2, 4), (3, 4), (4, 4)]
    );
    // The cell that was floor already is not listed.
    assert_eq!(corridor, vec![13, 25, 26, 27, 28]);
}

#[test]
fn corridor_along_x_first() {
    let mut board = Board::new(0, 6, 6);
    let corridor = draw_corridor(&mut board, Point::new(4, 4), Point::new(1, 2), false);
    assert_eq!(floor_cells(&board), vec![(1, 2), (1, 3), (1, 4), (2, 4), (3, 4)]);
    assert_eq!(corridor, vec![27, 26, 25, 19, 13]);
    let nothing = draw_corridor(&mut board, Point::new(3, 3), Point::new(3, 3), false);
    assert!(nothing.is_empty());
    assert_eq!(board.get_tile_xy(3, 3), Tile::Wall);
}

#[test]
fn simple_rooms_are_apart_and_made_floor() {
    for seed in 0..5 {
        let mut d = data(40, 30);
        SimpleRoomBuilder::new().build(&mut rng(seed), &mut d);
        let rooms = d.rects.clone().unwrap();
        assert!(!rooms.is_empty());
        for (i, a) in rooms.iter().enumerate() {
            assert!(a.x1 >= 1 && a.y1 >= 1 && a.x2 + 2 < 40 && a.y2 + 2 < 30);
            for b in &rooms[i + 1..] {
                assert!(!a.intersects(b, 1));
                assert!(!b.intersects(a, 1));
            }
        }
        for y in 0..30 {
            for x in 0..40 {
                let inside = rooms
                    .iter()
                    .any(|r| r.x1 <= x && x <= r.x2 && r.y1 <= y && y <= r.y2);
                assert_eq!(d.board.get_tile_xy(x, y) == Tile::Floor, inside);
            }
        }
        assert_eq!(d.history.len(), rooms.len());
    }
}

#[test]
fn corridors_join_every_room() {
    let mut d = data(40, 30);
    let rooms = vec![Rect::new(2, 2, 5, 5), Rect::new(30, 20, 5, 5), Rect::new(12, 3, 5, 5)];
    for r in &rooms {
        d.board.set_rect(r, Tile::Floor);
    }
    d.rects = Some(rooms.clone());
    RoomCorridors::new().build(&mut rng(5), &mut d);
    let corridors = d.corridors.clone().unwrap();
    assert_eq!(corridors.len(), 2);
    assert_eq!(d.rects, Some(rooms.clone()));
    // The room nearest to the first is joined first: the corridor reaches its
    // middle, from the middle of the first room.
    assert_eq!(d.board.get_tile_xy(14, 5), Tile::Floor);
    assert_eq!(d.board.get_tile_xy(32, 22), Tile::Floor);
    assert!(!corridors[0].is_empty());
    for index in corridors.iter().flatten() {
        let (x, y) = d.board.index_to_xy(*index);
        assert_eq!(d.board.get_tile_xy(x, y), Tile::Floor);
        assert!(!rooms.iter().any(|r| r.x1 <= x && x <= r.x2 && r.y1 <= y && y <= r.y2));
    }
    // Flood fill from the first room reaches the others.
    let mut seen = vec![false; 40 * 30];
    let mut stack = vec![(4u32, 4u32)];
    while let Some((x, y)) = stack.pop() {
        let i = d.board.xy_to_index(x, y);
        if seen[i] || d.board.get_tile_xy(x, y) != Tile::Floor {
            continue;
        }
        seen[i] = true;
        for (nx, ny) in [(x + 1, y), (x - 1, y), (x, y + 1), (x, y - 1)] {
            if d.board.in_bounds_xy(nx as i32, ny as i32) {
                stack.push((nx, ny));
            }
        }
    }
    assert!(seen[d.board.xy_to_index(32, 22)]);
    assert!(seen[d.board.xy_to_index(14, 5)]);
}

#[test]
fn corridors_run_from_the_nearest_joined_room() {
    let mut d = data(40, 30);
    let rooms = vec![Rect::new(1, 1, 5, 5), Rect::new(10, 18, 5, 5), Rect::new(10, 1, 5, 5)];
    for r in &rooms {
        d.board.set_rect(r, Tile::Floor);
    }
    d.rects = Some(rooms);
    // The middles are (3, 3), (12, 20) and (12, 3): the third room is joined
    // to the first along the row 3, then the second to the third along the
    // column 12, whatever shape is drawn.
    let along_row: Vec<usize> = (6..=9).map(|x| 3 * 40 + x).collect();
    let along_column: Vec<usize> = (6..=17).map(|y| y * 40 + 12).collect();
    for seed in 0..8 {
        let mut e = d.clone();
        RoomCorridors::new().build(&mut rng(seed), &mut e);
        assert_eq!(e.corridors, Some(vec![along_row.clone(), along_column.clone()]));
        assert_eq!(e.history.len(), 2);
        assert_eq!(e.history[0][3 * 40 + 7], Tile::Floor);
        assert_eq!(e.history[0][10 * 40 + 12], Tile::Wall);
        assert_eq!(e.history[1][10 * 40 + 12], Tile::Floor);
        assert_eq!(e.history[1], e.board.get_tiles_cloned());
        assert_eq!(e.board.get_tile_xy(3, 10), Tile::Wall);
    }
}

#[test]
fn corridors_of_a_single_room_or_none() {
    let mut d = data(20, 20);
    d.rects = Some(vec![Rect::new(2, 2, 5, 5)]);
    RoomCorridors::new().build(&mut rng(1), &mut d);
    assert_eq!(d.corridors, Some(Vec::new()));
    let mut e = data(20, 20);
    e.rects = Some(Vec::new());
    RoomCorridors::new().build(&mut rng(1), &mut e);
    assert_eq!(e.corridors, Some(Vec::new()));
    assert!(floor_cells(&e.board).is_empty());
}

#[test]
fn start_is_the_middle_of_the_first_room() {
    let mut d = data(20, 20);
    d.rects = Some(vec![Rect::new(2, 4, 5, 6), Rect::new(10, 10, 3, 3)]);
    RoomBasedStartingPosition::new().build(&mut rng(1), &mut d);
    assert_eq!(d.starting_position, Some(Point::new(4, 6)));
}

#[test]
fn quarters_of_a_part() {
    let mut builder = BspMapBuilder::new();
    builder.add_subrects(Rect::new(2, 2, 10, 6));
    assert_eq!(
        builder.rects,
        vec![
            Rect::new(2, 2, 5, 3),
            Rect::new(2, 5, 5, 3),
            Rect::new(7, 2, 5, 3),
            Rect::new(7, 5, 5, 3),
        ]
    );
    builder.add_subrects(Rect::new(4, 4, 1, 1));
    assert_eq!(builder.rects.len(), 8);
    assert_eq!(builder.rects[7], Rect::new(5, 5, 1, 1));
}

#[test]
fn partition_builder_digs_rooms_off_the_border() {
    for seed in 0..3 {
        let mut d = data(60, 40);
        BspMapBuilder::new().build(&mut rng(seed), &mut d);
        let rooms = d.rects.clone().unwrap();
        for r in &rooms {
            assert!(r.x1 >= 3 && r.y1 >= 3 && r.x2 + 3 < 60 && r.y2 + 3 < 40);
            assert!(r.x2 - r.x1 >= 3 && r.y2 - r.y1 >= 5);
            for (x, y) in r.iter_xy() {
                assert_eq!(d.board.get_tile_xy(x, y), Tile::Floor);
            }
        }
        assert!(!rooms.is_empty());
        for (i, a) in rooms.iter().enumerate() {
            for b in rooms.iter().skip(i + 1) {
                assert!(!a.intersects(b, 2));
                assert!(!b.intersects(a, 2));
            }
        }
    }
}

#[test]
fn interior_builder_fills_the_board_with_rooms() {
    for seed in 0..3 {
        let mut d = data(60, 40);
        BspInteriorBuilder::new().build(&mut rng(seed), &mut d);
        let rooms = d.rects.clone().unwrap();
        assert!(rooms.len() >= 2);
        for r in &rooms {
            assert!(r.x1 >= 1 && r.y1 >= 1 && r.x2 <= 58 && r.y2 <= 38);
            for (x, y) in r.iter_xy() {
                assert_eq!(d.board.get_tile_xy(x, y), Tile::Floor);
            }
        }
        for x in 0..60 {
            assert_eq!(d.board.get_tile_xy(x, 0), Tile::Wall);
            assert_eq!(d.board.get_tile_xy(x, 39), Tile::Wall);
        }
    }
}

#[test]
fn automaton_follows_its_rule() {
    let mut d = data(5, 5);
    // A lone floor cell in the middle: all eight neighbours are walls.
    d.board.set_tile_xy(2, 2, Tile::Floor);
    CellularAutomataBuilder::iterate(&mut d);
    assert_eq!(d.board.get_tile_xy(2, 2), Tile::Wall);
    assert!(floor_cells(&d.board).is_empty());
    // A floor everywhere off the border: the middle has no wall next to it and
    // becomes a wall; the cells around it have five walls and become walls; the
    // four beside the middle have three.
    let mut e = data(5, 5);
    e.board.set_rect(&Rect::new(1, 1, 3, 3), Tile::Floor);
    CellularAutomataBuilder::iterate(&mut e);
    assert_eq!(floor_cells(&e.board), vec![(2, 1), (1, 2), (3, 2), (2, 3)]);
    assert_eq!(e.history.len(), 1);
    let mut f = data(5, 5);
    f.board.set_rect(&Rect::new(1, 1, 3, 3), Tile::Floor);
    CellularAutomataBuilder::new().build_meta(&mut rng(1), &mut f);
    assert_eq!(f.board.get_tiles(), e.board.get_tiles());
}

#[test]
fn cave_builder_keeps_the_border() {
    let mut d = data(30, 20);
    CellularAutomataBuilder::new().build(&mut rng(9), &mut d);
    for x in 0..30 {
        assert_eq!(d.board.get_tile_xy(x, 0), Tile::Wall);
        assert_eq!(d.board.get_tile_xy(x, 19), Tile::Wall);
    }
    for y in 0..20 {
        assert_eq!(d.board.get_tile_xy(0, y), Tile::Wall);
        assert_eq!(d.board.get_tile_xy(29, y), Tile::Wall);
    }
    assert_eq!(d.history.len(), 16);
}

#[test]
fn cave_builder_records_every_generation() {
    let mut d = data(12, 9);
    d.board.set_tile_xy(0, 3, Tile::Floor);
    d.board.set_tile_xy(4, 4, Tile::Floor);
    CellularAutomataBuilder::new().build(&mut rng(4), &mut d);
    assert_eq!(d.history.len(), 16);
    // The first record is the board filled at random: the border is as it
    // was, a floor stays a floor, and some cells have become floor.
    let noise = d.history[0].clone();
    assert_eq!(noise[3 * 12], Tile::Floor);
    assert_eq!(noise[4 * 12 + 4], Tile::Floor);
    assert_eq!(noise[0], Tile::Wall);
    assert!(noise.iter().filter(|t| **t == Tile::Floor).count() > 2);
    // Each record after it is the generation that follows the one before.
    for j in 0..15 {
        let mut step = data(12, 9);
        step.board.set_all_tiles(d.history[j].clone());
        CellularAutomataBuilder::iterate(&mut step);
        assert_eq!(step.board.get_tiles_cloned(), d.history[j + 1]);
    }
    assert_eq!(d.history[15], d.board.get_tiles_cloned());
    assert_eq!(d.board.get_tile_xy(0, 3), Tile::Floor);
}

#[test]
fn partition_builders_start_without_parts() {
    assert!(BspMapBuilder::new().rects.is_empty());
    assert!(BspInteriorBuilder::new().rects.is_empty());
}

#[test]
fn chain_of_builders() {
    let mut builder = MapBuilder::new(2, 99, 40, 30)
        .with_starter(InitBuilder::BspInterior(BspInteriorBuilder::new()))
        .with(MetaBuilder::RoomCorridors(RoomCorridors::new()))
        .with(MetaBuilder::CellularAutomata(CellularAutomataBuilder::new()))
        .with(MetaBuilder::RoomBasedStartingPosition(RoomBasedStartingPosition::new()));
    let built = builder.build();
    let rooms = built.rects.clone().unwrap();
    assert_eq!(built.corridors.as_ref().unwrap().len(), rooms.len() - 1);
    assert_eq!(built.starting_position, Some(rooms[0].center()));
    assert_eq!(built.board.get_tiles(), builder.build_data.board.get_tiles());
    assert_eq!(built.history.len(), builder.build_data.history.len());
    let caves = MapBuilder::new(0, 1, 20, 20)
        .with_starter(InitBuilder::CellularAutomata(CellularAutomataBuilder::new()))
        .build();
    assert!(caves.rects.is_none() && caves.starting_position.is_none());
    let parts = MapBuilder::new(0, 1, 40, 30)
        .with_starter(InitBuilder::Bsp(BspMapBuilder::new()))
        .build();
    assert!(parts.rects.is_some());
}

#[test]
fn random_map_is_complete_and_repeats() {
    let built = random_builder(42, 0);
    assert_eq!((built.board.width, built.board.height), (80, 50));
    assert_eq!(built.board.get_tiles().len(), 4000);
    let rooms = built.rects.clone().unwrap();
    assert!(!rooms.is_empty());
    assert_eq!(built.corridors.as_ref().unwrap().len(), rooms.len() - 1);
    let start = built.starting_position.unwrap();
    assert_eq!(start, rooms[0].center());
    assert_eq!(built.board.get_tile_xy(start.x as u32, start.y as u32), Tile::Floor);
    let again = random_builder(42, 0);
    assert_eq!(again.rects, built.rects);
    assert_eq!(again.board.get_tiles(), built.board.get_tiles());
    let other = random_builder(43, 0);
    assert!(other.rects != built.rects || other.board.get_tiles() != built.board.get_tiles());
}
