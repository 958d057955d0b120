use turtle_board::board::{EmptyGridBoundsError, TurtleBoard};

const DOT: &str = "+";
const DASH_VER: &str = "|";
const BLANK_VER: &str = " ";

const GAP: &str = "    ";
const DASH_HOR: &str = "----";
const BLANK_HOR: &str = "    ";

fn expand(template: &str) -> String {
    template
        .replace(" ", GAP)
        .replace("-", DASH_HOR)
        .replace("|", DASH_VER)
        .replace("'", BLANK_HOR)
        .replace(".", BLANK_VER)
        .replace("*", DOT)
}

#[test]
fn display() {
    let mut board = TurtleBoard::new_strict();
    board.add_horizontal_line(-2..6, 2);
    board.add_vertical_line(3, 4..6);
    let display = board.render().unwrap();
    let expected_display = expand(
        "\
*'*'*'*'*'*'*'*'*
. . . . . | . . .
*'*'*'*'*'*'*'*'*
. . . . . | . . .
*'*'*'*'*'*'*'*'*
. . . . . . . . .
*'*'*'*'*'*'*'*'*
. . . . . . . . .
*-*-*-*-*-*-*-*-*",
    );
    println!("Expected:\n{}\n\nBoard:\n{}", expected_display, display);
    assert_eq!(expected_display, display);

    let mut board = TurtleBoard::new_strict();
    board.add_vertical_line(-2, -3..2);
    board.add_horizontal_line(-2..7, 1);
    board.add_vertical_line(3, -2..4);
    let display = board.render().unwrap();
    let expected_display = expand(
        "\
*'*'*'*'*'*'*'*'*'*
. . . . . | . . . .
*'*'*'*'*'*'*'*'*'*
. . . . . | . . . .
*'*'*'*'*'*'*'*'*'*
| . . . . | . . . .
*-*-*-*-*-*-*-*-*-*
| . . . . | . . . .
*'*'*'*'*'*'*'*'*'*
| . . . . | . . . .
*'*'*'*'*'*'*'*'*'*
| . . . . | . . . .
*'*'*'*'*'*'*'*'*'*
| . . . . . . . . .
*'*'*'*'*'*'*'*'*'*",
    );
    println!("Expected:\n{}\n\nBoard:\n{}", expected_display, display);
    assert_eq!(expected_display, display);

    let mut board = TurtleBoard::new_strict();
    board.add_vertical_line(-3, 1..2);
    board.add_vertical_line(-2, 1..2);
    let display = board.render().unwrap();
    let expected_display = expand(
        "\
*'*
| |
*'*",
    );
    println!("Expected:\n{}\n\nBoard:\n{}", expected_display, display);
    assert_eq!(expected_display, display);

    let mut board = TurtleBoard::new_strict();
    board.add_horizontal_line(1..2, 7);
    let display = board.render().unwrap();
    let expected_display = expand(
        "\
*-*",
    );
    println!("Expected:\n{}\n\nBoard:\n{}", expected_display, display);
    assert_eq!(expected_display, display);
}

#[test]
fn single_run_minimal_render() {
    let mut board = TurtleBoard::new_strict();
    board.add_horizontal_line(1..2, 7);
    let display = board.render().unwrap();
    assert_eq!("+----+", display);
    assert!(!display.contains('\n'));
}

#[test]
fn render_is_deterministic() {
    let mut board = TurtleBoard::new_lazy();
    board.add_horizontal_line(-2..6, 2);
    board.add_vertical_line(3, -1..6);
    let first = board.render().unwrap();
    let second = board.render().unwrap();
    assert_eq!(first, second);
}

#[test]
fn render_marker_grid() {
    let mut board = TurtleBoard::new_strict();
    board.add_horizontal_line(0..3, 0);
    board.add_vertical_line(1, 0..2);
    let display = board.render().unwrap();
    let chars: Vec<char> = display.chars().collect();
    // width of each line: 1 + 5 * 3 columns of cells; rows 0..=2 from the top
    let w = 1 + 5 * 3;
    let lines: Vec<&str> = display.split('\n').collect();
    assert_eq!(5, lines.len());
    for line in &lines {
        assert_eq!(w as usize, line.chars().count());
    }
    for i in 0..3 {
        for k in 0..4 {
            let idx = i * (2 * w + 2) + 5 * k;
            assert_eq!('+', chars[idx as usize]);
        }
    }
}

#[test]
fn empty_grid_render_fails() {
    let board = TurtleBoard::new_strict();
    assert_eq!(Err(EmptyGridBoundsError), board.render());
    let lazy = TurtleBoard::new_lazy();
    assert_eq!(Err(EmptyGridBoundsError), lazy.render());
}
