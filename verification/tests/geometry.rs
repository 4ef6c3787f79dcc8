use turnsim::bitgrid::BitGrid;
use turnsim::board::components::Tile;
use turnsim::board::Board;
use turnsim::point::Point;
use turnsim::rect::Rect;

#[test]
fn point_distances() {
    let a = Point::new(1, 2);
    let b = Point::new(4, -2);
    assert_eq!(a.dist_manhattan(b), 7);
    assert_eq!(b.dist_manhattan(a), 7);
    assert_eq!(a.dist_chebyshev(b), 4);
    assert_eq!(b.dist_chebyshev(a), 4);
    assert_eq!(a.dist_chebyshev(a), 0);
    assert_eq!(Point::new(0, 0).dist_chebyshev(Point::new(-3, 1)), 3);
    assert_eq!(Point::new(i32::MIN, 0).dist_chebyshev(Point::new(-1, 0)), i32::MAX);
    assert!(a.within_chebyshev(Point::new(2, 3), 1));
    assert!(!a.within_chebyshev(Point::new(3, 2), 1));
    assert!(!Point::new(i32::MIN, 0).within_chebyshev(Point::new(i32::MAX, 0), 1));
}

#[test]
fn point_directions() {
    assert_eq!(Point::north(), Point::new(0, 1));
    assert_eq!(Point::south(), Point::new(0, -1));
    assert_eq!(Point::east(), Point::new(1, 0));
    assert_eq!(Point::west(), Point::new(-1, 0));
    assert_eq!(
        Point::octant(),
        [
            Point::new(0, 1),
            Point::new(1, 0),
            Point::new(0, -1),
            Point::new(-1, 0),
            Point::new(1, 1),
            Point::new(1, -1),
            Point::new(-1, -1),
            Point::new(-1, 1),
        ]
    );
    assert_eq!(Point::cardinals().to_vec(), Point::octant()[..4].to_vec());
    assert_eq!(Point::diagonals().to_vec(), Point::octant()[4..].to_vec());
}

#[test]
fn point_arithmetic() {
    let a = Point::new(3, -4);
    let b = Point::new(-1, 6);
    assert_eq!(a + b, Point::new(2, 2));
    assert_eq!(a - b, Point::new(4, -10));
    assert_eq!(a * 3, Point::new(9, -12));
    assert_eq!(3 * a, Point::new(9, -12));
    assert_eq!(a / 2, Point::new(1, -2));
    assert_eq!(Point::new(-7, 7) / -2, Point::new(3, -3));
    let mut c = a;
    c.add_assign(b);
    assert_eq!(c, Point::new(2, 2));
    c.sub_assign(b);
    assert_eq!(c, a);
    assert_eq!(Point::from((5i32, -6i32)), Point::new(5, -6));
    assert_eq!(Point::from((5u32, 6u32)), Point::new(5, 6));
    assert_eq!(Point::from((u32::MAX, 0u32)), Point::new(-1, 0));
    assert_eq!(a.checked_offset(b), Some(Point::new(2, 2)));
    assert_eq!(Point::new(i32::MAX, 0).checked_offset(Point::east()), None);
    assert_eq!(Point::new(0, i32::MIN).checked_offset(Point::south()), None);
    assert!(Point::new(1, 5) < Point::new(2, 0));
    assert!(Point::new(1, 5) > Point::new(1, 4));
}

#[test]
fn rect_measures() {
    let r = Rect::new(2, 3, 4, 5);
    assert_eq!(r, Rect { x1: 2, y1: 3, x2: 5, y2: 7 });
    assert_eq!(r.width(), 4);
    assert_eq!(r.height(), 5);
    assert_eq!(r.center(), Point::new(3, 5));
    assert_eq!(Rect::new(0, 0, 1, 1).center(), Point::new(0, 0));
    let flipped = Rect { x1: 5, y1: 7, x2: 2, y2: 3 };
    assert_eq!(flipped.width(), 4);
    assert_eq!(flipped.height(), 5);
}

#[test]
fn rect_intersection_with_margin() {
    let a = Rect::new(5, 5, 3, 3);
    assert!(a.intersects(&Rect::new(7, 7, 2, 2), 0));
    assert!(!a.intersects(&Rect::new(8, 5, 2, 2), 0));
    assert!(a.intersects(&Rect::new(8, 5, 2, 2), 1));
    assert!(!a.intersects(&Rect::new(9, 5, 2, 2), 1));
    assert!(a.intersects(&Rect::new(1, 1, 3, 3), 2));
    assert!(!a.intersects(&Rect::new(1, 1, 3, 3), 1));
    // A margin larger than the other rectangle's corner does not wrap around.
    assert!(a.intersects(&Rect::new(0, 0, 1, 1), 10));
    assert!(!Rect::new(20, 20, 1, 1).intersects(&Rect::new(0, 0, 1, 1), 10));
}

#[test]
fn rect_cells_row_by_row() {
    let r = Rect::new(2, 3, 3, 2);
    assert_eq!(r.iter_xy(), vec![(2, 3), (3, 3), (4, 3), (2, 4), (3, 4), (4, 4)]);
    assert_eq!(Rect::new(7, 9, 1, 1).iter_xy(), vec![(7, 9)]);
    assert!(Rect { x1: 3, y1: 0, x2: 2, y2: 5 }.iter_xy().is_empty());
}

#[test]
fn bit_grid_reads_what_was_written() {
    let mut grid = BitGrid::new(4, 3);
    assert_eq!(grid.width(), 4);
    assert_eq!(grid.height(), 3);
    for y in 0..3 {
        for x in 0..4 {
            assert!(!grid.get_bit(x, y));
        }
    }
    grid.set_bit(1, 2, true);
    grid.set_bit(3, 0, true);
    assert!(grid.get_bit(1, 2));
    assert!(grid.get_bit(3, 0));
    assert!(!grid.get_bit(2, 1));
    assert!(!grid.get_bit(4, 0));
    assert!(!grid.get_bit(0, 3));
    grid.set_bit(1, 2, false);
    assert!(!grid.get_bit(1, 2));
    // A column beyond the width runs on into the next row.
    grid.set_bit(5, 0, true);
    assert!(grid.get_bit(1, 1));
    let copy = grid.clone();
    grid.zero_out_bits();
    for y in 0..3 {
        for x in 0..4 {
            assert!(!grid.get_bit(x, y));
        }
    }
    assert!(copy.get_bit(3, 0));
    assert!(copy.get_bit(1, 1));
    grid.set_all_ones();
    for y in 0..3 {
        for x in 0..4 {
            assert!(grid.get_bit(x, y));
        }
    }
}

#[test]
fn bit_grid_is_applied_with_an_offset() {
    let mut stamp = BitGrid::new(2, 2);
    stamp.set_bit(0, 0, true);
    stamp.set_bit(1, 1, true);
    let mut target = BitGrid::new(5, 4);
    target.set_bit(4, 3, true);
    stamp.apply_bits_onto(&mut target, 2, 1);
    for y in 0..4 {
        for x in 0..5 {
            let expected = (x, y) == (2, 1) || (x, y) == (3, 2) || (x, y) == (4, 3);
            assert_eq!(target.get_bit(x, y), expected);
        }
    }
    let empty = BitGrid::new(0, 0);
    empty.apply_bits_onto(&mut target, 100, 100);
    assert!(target.get_bit(2, 1));
}

#[test]
fn board_starts_as_walls() {
    let board = Board::new(0, 4, 3);
    assert_eq!(board.width, 4);
    assert_eq!(board.height, 3);
    assert_eq!(board.get_tiles().len(), 12);
    assert!(board.get_tiles().iter().all(|t| *t == Tile::Wall));
    assert_eq!(board.bounds(), (0, 0, 3, 2));
    assert_eq!(board.seen.width(), 4);
    assert!(!board.seen.get_bit(0, 0));
    let fresh = Board::default();
    assert_eq!((fresh.width, fresh.height), (2, 2));
    assert!(fresh.get_tiles().is_empty());
}

#[test]
fn board_bounds() {
    let board = Board::new(0, 4, 3);
    assert!(board.in_bounds_xy(0, 0));
    assert!(board.in_bounds_xy(3, 2));
    assert!(!board.in_bounds_xy(4, 2));
    assert!(!board.in_bounds_xy(3, 3));
    assert!(!board.in_bounds_xy(-1, 0));
    assert!(!board.in_bounds_xy(0, -1));
    assert!(board.in_bounds(0));
    assert!(board.in_bounds(11));
    assert!(!board.in_bounds(12));
    assert_eq!(board.xy_to_index(3, 2), 11);
    assert_eq!(board.xy_to_index(1, 1), 5);
    assert_eq!(board.index_to_xy(5), (1, 1));
    assert_eq!(board.index_to_xy(11), (3, 2));
}

#[test]
fn board_tiles_are_set() {
    let mut board = Board::new(0, 4, 3);
    board.set_tile_xy(1, 2, Tile::Floor);
    assert_eq!(board.get_tile_xy(1, 2), Tile::Floor);
    assert_eq!(board.get_tile(9), Tile::Floor);
    assert_eq!(board.get_tile_xy(2, 1), Tile::Wall);
    board.set_tile(0, Tile::Floor);
    assert_eq!(board.get_tile_xy(0, 0), Tile::Floor);
    board.get_tiles_mut()[3] = Tile::Floor;
    assert_eq!(board.get_tile_xy(3, 0), Tile::Floor);
    let copy = board.get_tiles_cloned();
    assert_eq!(&copy, board.get_tiles());
    board.set_all_tiles(vec![Tile::Wall; 12]);
    assert!(board.get_tiles().iter().all(|t| *t == Tile::Wall));
    board.set_rect(&Rect::new(1, 1, 2, 2), Tile::Floor);
    for y in 0..3 {
        for x in 0..4 {
            let inside = (1..=2).contains(&x) && (1..=2).contains(&y);
            assert_eq!(board.get_tile_xy(x, y) == Tile::Floor, inside);
        }
    }
    let clone = board.clone();
    assert_eq!(clone.get_tiles(), board.get_tiles());
}

#[test]
fn board_points_column_by_column() {
    let board = Board::new(0, 3, 2);
    assert_eq!(
        board.iter_points(),
        vec![
            Point::new(0, 0),
            Point::new(0, 1),
            Point::new(1, 0),
            Point::new(1, 1),
            Point::new(2, 0),
            Point::new(2, 1),
        ]
    );
}
