use std::collections::HashSet;
use turtle_board::board::TurtleBoard;
use turtle_board::bounds::Bounds;
use turtle_board::edge::Edge;

#[test]
fn adding_lines() {
    let mut board = TurtleBoard::new_lazy();
    board.add_horizontal_line(-3..5, 2);
    board.add_horizontal_line(-2..0, -1);
    board.add_vertical_line(3, -12..19);

    let mut edges: HashSet<Edge> = HashSet::new();
    for x in -3..5 {
        edges.insert(Edge::Horizontal(x, 2));
    }
    for x in -2..0 {
        edges.insert(Edge::Horizontal(x, -1));
    }
    for y in -12..19 {
        edges.insert(Edge::Vertical(3, y));
    }

    let board_edges: HashSet<Edge> = board.edges.iter().cloned().collect();
    assert_eq!(edges, board_edges);
}

#[test]
fn contains_lines() {
    let mut board = TurtleBoard::new_lazy();
    board.add_horizontal_line(-3..5, 2);
    board.add_horizontal_line(-2..0, -1);
    board.add_vertical_line(3, -12..19);
    board.add_vertical_line(4, -1..2);

    assert!(board.contains_horizontal_line(-1..2, 2));
    assert!(board.contains_horizontal_line(-2..0, -1));
    assert!(board.contains_vertical_line(3, -7..19));
    assert!(board.contains_vertical_line(92, -56..-56));

    assert!(!board.contains_horizontal_line(-4..5, 2));
    assert!(!board.contains_horizontal_line(-3..6, 2));
    assert!(!board.contains_horizontal_line(3..4, 0));
    assert!(!board.contains_vertical_line(2, -12..19));
}

fn test_bounds(is_lazy: bool) {
    let mut board = TurtleBoard::new(is_lazy);

    board.add_horizontal_line(-1..2, 3);
    let expected_bounds = Bounds { min_x: -1, max_x: 2, min_y: 3, max_y: 3 };
    assert_eq!(expected_bounds, board.bounds().unwrap());

    board.add_horizontal_line(3..5, -2);
    board.add_horizontal_line(1..2, 0);
    let expected_bounds = Bounds { min_x: -1, max_x: 5, min_y: -2, max_y: 3 };
    assert_eq!(expected_bounds, board.bounds().unwrap());

    let mut board = TurtleBoard::new(is_lazy);
    board.add_vertical_line(-3, 4..7);
    let expected_bounds = Bounds { min_x: -3, max_x: -3, min_y: 4, max_y: 7 };
    assert_eq!(expected_bounds, board.bounds().unwrap());

    board.add_horizontal_line(-12..-6, -20);
    board.add_vertical_line(72, -3..6);
    let expected_bounds = Bounds { min_x: -12, max_x: 72, min_y: -20, max_y: 7 };
    assert_eq!(expected_bounds, board.bounds().unwrap());

    let mut board = TurtleBoard::new(is_lazy);
    board.add_horizontal_line(5..15, 2);
    board.add_vertical_line(8, 17..19);
    let expected_bounds = Bounds { min_x: 5, max_x: 15, min_y: 2, max_y: 19 };
    assert_eq!(expected_bounds, board.bounds().unwrap());
}

#[test]
fn lazy_bounds() {
    test_bounds(true);
}

#[test]
fn strict_bounds() {
    test_bounds(false);
}

fn test_switch_bounds(initial_lazy: bool) {
    let mut board = TurtleBoard::new(initial_lazy);
    board.add_horizontal_line(-3..5, 2);
    board.add_horizontal_line(-2..0, -1);
    board.add_vertical_line(3, -12..19);
    board.add_vertical_line(4, -1..2);
    board.lazy_bounds = !initial_lazy;
    let expected_bounds = Bounds { min_x: -3, max_x: 5, min_y: -12, max_y: 19 };
    assert_eq!(expected_bounds, board.bounds().unwrap());
    board.add_horizontal_line(-17..12, 2);
    let expected_bounds = Bounds { min_x: -17, max_x: 12, min_y: -12, max_y: 19 };
    assert_eq!(expected_bounds, board.bounds().unwrap());
}

#[test]
fn lazy_to_strict_bounds() {
    test_switch_bounds(true);
}

#[test]
fn strict_to_lazy_bounds() {
    test_switch_bounds(false);
}

#[test]
fn idempotent_insertion() {
    let mut once = TurtleBoard::new_strict();
    once.add_horizontal_line(-3..5, 2);
    once.add_vertical_line(4, -1..2);

    let mut twice = TurtleBoard::new_strict();
    twice.add_horizontal_line(-3..5, 2);
    twice.add_horizontal_line(-3..5, 2);
    twice.add_vertical_line(4, -1..2);
    twice.add_vertical_line(4, -1..2);

    assert_eq!(once, twice);
    assert_eq!(once.bounds().unwrap(), twice.bounds().unwrap());
}

#[test]
fn empty_range_is_no_op() {
    let mut board = TurtleBoard::new_strict();
    board.add_horizontal_line(7..7, 1);
    board.add_vertical_line(2, 9..3);
    assert_eq!(board, TurtleBoard::new_lazy());
    assert!(board.contains_horizontal_line(7..7, 1));
    assert!(board.contains_vertical_line(2, 9..3));
    assert_eq!(Err(turtle_board::board::EmptyGridBoundsError), board.bounds());

    board.add_horizontal_line(0..1, 0);
    board.add_vertical_line(5, 5..5);
    let expected_bounds = Bounds { min_x: 0, max_x: 1, min_y: 0, max_y: 0 };
    assert_eq!(expected_bounds, board.bounds().unwrap());
}

#[test]
fn bounds_equal_across_modes() {
    let mut strict = TurtleBoard::new_strict();
    let mut lazy = TurtleBoard::new_lazy();
    for board in [&mut strict, &mut lazy] {
        board.add_horizontal_line(-7..3, 4);
        board.add_vertical_line(0, -2..9);
        board.add_horizontal_line(1..2, -11);
    }
    assert_eq!(strict.bounds().unwrap(), lazy.bounds().unwrap());
    assert_eq!(strict.bounds_uncached().unwrap(), lazy.bounds_uncached().unwrap());
}

#[test]
fn mode_switch_round_trip_stable() {
    let mut switched = TurtleBoard::new_strict();
    switched.add_horizontal_line(-3..5, 2);
    switched.add_vertical_line(3, -12..19);
    switched.lazy_bounds = true;
    switched.lazy_bounds = false;

    let mut steady = TurtleBoard::new_strict();
    steady.add_horizontal_line(-3..5, 2);
    steady.add_vertical_line(3, -12..19);

    assert_eq!(steady.bounds().unwrap(), switched.bounds().unwrap());
}

#[test]
fn folding_two_runs() {
    let mut board = TurtleBoard::new_strict();
    board.add_horizontal_line(-3..5, 2);
    board.add_vertical_line(3, -12..19);
    let expected_bounds = Bounds { min_x: -3, max_x: 5, min_y: -12, max_y: 19 };
    assert_eq!(expected_bounds, board.bounds().unwrap());
}

#[test]
fn empty_grid_bounds_fail() {
    let mut board = TurtleBoard::new_strict();
    assert_eq!(Err(turtle_board::board::EmptyGridBoundsError), board.bounds_uncached());
    assert_eq!(Err(turtle_board::board::EmptyGridBoundsError), board.bounds());
    let mut lazy = TurtleBoard::new_lazy();
    assert_eq!(Err(turtle_board::board::EmptyGridBoundsError), lazy.bounds_uncached());
    assert_eq!(Err(turtle_board::board::EmptyGridBoundsError), lazy.bounds());
}

#[test]
fn edge_bounds_values() {
    let h = Edge::Horizontal(3, 2).bounds();
    assert_eq!(Bounds { min_x: 3, min_y: 2, max_x: 4, max_y: 2 }, h);
    let v = Edge::Vertical(-1, -5).bounds();
    assert_eq!(Bounds { min_x: -1, min_y: -5, max_x: -1, max_y: -4 }, v);
}

#[test]
fn min_bound_folds() {
    let a = Bounds { min_x: 0, min_y: 5, max_x: 2, max_y: 6 };
    let b = Bounds { min_x: -4, min_y: 7, max_x: 1, max_y: 9 };
    let m = Bounds::min_bound_2_bounds(&a, &b);
    assert_eq!(Bounds { min_x: -4, min_y: 5, max_x: 2, max_y: 9 }, m);
    let folded = Bounds::min_bound(&[a.clone(), b.clone(), m.clone()]);
    assert_eq!(m, folded);
}

#[test]
fn extreme_coordinates() {
    let mut board = TurtleBoard::new_strict();
    board.add_horizontal_line(i32::MAX - 1..i32::MAX, 5);
    board.add_vertical_line(0, i32::MAX - 1..i32::MAX);
    let b = board.bounds().unwrap();
    assert_eq!(Bounds { min_x: 0, max_x: i32::MAX, min_y: 5, max_y: i32::MAX }, b);

    let mut board = TurtleBoard::new_lazy();
    board.add_vertical_line(i32::MIN, i32::MIN..i32::MIN + 1);
    let b = board.bounds_uncached().unwrap();
    assert_eq!(
        Bounds { min_x: i32::MIN, max_x: i32::MIN, min_y: i32::MIN, max_y: i32::MIN + 1 },
        b
    );
}
