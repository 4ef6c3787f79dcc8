use std::collections::VecDeque;

use turnsim::pathfind::path_astar;
use turnsim::point::Point;

fn grid(width: i32, height: i32) -> Vec<Point> {
    let mut tiles = Vec::new();
    for x in 0..width {
        for y in 0..height {
            tiles.push(Point::new(x, y));
        }
    }
    tiles
}

fn points(list: &[(i32, i32)]) -> VecDeque<Point> {
    list.iter().map(|(x, y)| Point::new(*x, *y)).collect()
}

#[test]
fn no_path_from_a_cell_to_itself() {
    let tiles = grid(3, 3);
    assert_eq!(path_astar(Point::new(1, 1), Point::new(1, 1), &tiles, &Vec::new()), None);
}

#[test]
fn path_to_a_neighbour_is_one_step() {
    let tiles = grid(3, 3);
    for d in Point::octant() {
        let end = Point::new(1 + d.x, 1 + d.y);
        assert_eq!(
            path_astar(Point::new(1, 1), end, &tiles, &Vec::new()),
            Some(VecDeque::from([end]))
        );
    }
}

#[test]
fn straight_path_along_a_corridor() {
    let tiles: Vec<Point> = (0..5).map(|x| Point::new(x, 0)).collect();
    assert_eq!(
        path_astar(Point::new(0, 0), Point::new(4, 0), &tiles, &Vec::new()),
        Some(points(&[(1, 0), (2, 0), (3, 0), (4, 0)]))
    );
    assert_eq!(
        path_astar(Point::new(4, 0), Point::new(1, 0), &tiles, &Vec::new()),
        Some(points(&[(3, 0), (2, 0), (1, 0)]))
    );
}

#[test]
fn diagonal_steps_count_as_one() {
    let tiles = grid(4, 4);
    assert_eq!(
        path_astar(Point::new(0, 0), Point::new(3, 3), &tiles, &Vec::new()),
        Some(points(&[(1, 1), (2, 2), (3, 3)]))
    );
}

#[test]
fn among_shortest_paths_the_greatest_predecessors_are_taken() {
    let tiles = grid(8, 8);
    // From (5, 3) to (2, 3): three steps. The end is preceded by its greatest
    // neighbour two steps from the start, (3, 4), and that by (4, 4).
    assert_eq!(
        path_astar(Point::new(5, 3), Point::new(2, 3), &tiles, &Vec::new()),
        Some(points(&[(4, 4), (3, 4), (2, 3)]))
    );
    assert_eq!(
        path_astar(Point::new(0, 0), Point::new(2, 0), &tiles, &Vec::new()),
        Some(points(&[(1, 1), (2, 0)]))
    );
}

#[test]
fn path_goes_around_blockers() {
    let tiles = grid(3, 3);
    let blockers = vec![Point::new(1, 0), Point::new(1, 1)];
    assert_eq!(
        path_astar(Point::new(0, 0), Point::new(2, 0), &tiles, &blockers),
        Some(points(&[(0, 1), (1, 2), (2, 1), (2, 0)]))
    );
}

#[test]
fn blocked_end_can_be_entered() {
    let tiles = grid(3, 1);
    let blockers = vec![Point::new(2, 0)];
    assert_eq!(
        path_astar(Point::new(0, 0), Point::new(2, 0), &tiles, &blockers),
        Some(points(&[(1, 0), (2, 0)]))
    );
    let walled = vec![Point::new(1, 0), Point::new(2, 0)];
    assert_eq!(path_astar(Point::new(0, 0), Point::new(2, 0), &tiles, &walled), None);
}

#[test]
fn no_path_where_the_end_is_cut_off() {
    let mut tiles = grid(2, 2);
    tiles.push(Point::new(5, 5));
    assert_eq!(path_astar(Point::new(0, 0), Point::new(5, 5), &tiles, &Vec::new()), None);
    assert_eq!(path_astar(Point::new(0, 0), Point::new(9, 9), &tiles, &Vec::new()), None);
    assert_eq!(path_astar(Point::new(0, 0), Point::new(1, 1), &Vec::new(), &Vec::new()), None);
}

#[test]
fn start_need_not_be_a_tile() {
    let tiles = vec![Point::new(1, 0), Point::new(2, 0)];
    assert_eq!(
        path_astar(Point::new(0, 0), Point::new(2, 0), &tiles, &vec![Point::new(0, 0)]),
        Some(points(&[(1, 0), (2, 0)]))
    );
}

#[test]
fn path_never_returns_to_the_start() {
    // The only way on leads through the start, which is no tile of its own.
    let tiles = vec![Point::new(0, 0), Point::new(1, 0), Point::new(3, 0)];
    assert_eq!(path_astar(Point::new(1, 0), Point::new(3, 0), &tiles, &Vec::new()), None);
}

#[test]
fn search_at_the_edge_of_the_coordinates() {
    let tiles = vec![Point::new(i32::MAX, i32::MAX), Point::new(i32::MAX - 1, i32::MAX)];
    assert_eq!(
        path_astar(Point::new(i32::MAX, i32::MAX), Point::new(i32::MAX - 1, i32::MAX), &tiles, &Vec::new()),
        Some(points(&[(i32::MAX - 1, i32::MAX)]))
    );
    let low = vec![Point::new(i32::MIN, i32::MIN), Point::new(i32::MIN, i32::MIN + 1)];
    assert_eq!(
        path_astar(Point::new(i32::MIN, i32::MIN), Point::new(i32::MIN, i32::MIN + 1), &low, &Vec::new()),
        Some(points(&[(i32::MIN, i32::MIN + 1)]))
    );
}

#[test]
fn duplicate_tiles_change_nothing() {
    let mut tiles = grid(3, 1);
    tiles.extend(grid(3, 1));
    assert_eq!(
        path_astar(Point::new(0, 0), Point::new(2, 0), &tiles, &Vec::new()),
        Some(points(&[(1, 0), (2, 0)]))
    );
}
