use maze_engine::board::Board;
use maze_engine::board::BoardError;
use maze_engine::board::CellType;
use maze_engine::board::WallType;
use maze_engine::movement::Position;
use maze_engine::CELL;

fn cell(board: &Board, cx: i64, cy: i64) -> CellType {
    board.get_cell(cx * CELL, cy * CELL)
}

#[test]
fn parses_closed_box_with_center_dot() {
    let board = Board::from_layout("+-+\n|.|\n+-+").unwrap();
    let (rows, columns) = board.get_dimensions();
    assert_eq!((rows, columns), (3, 3));
    assert_eq!(cell(&board, 0, 0), CellType::Wall(WallType::TopLeft));
    assert_eq!(cell(&board, 1, 0), CellType::Wall(WallType::Horizontal));
    assert_eq!(cell(&board, 2, 0), CellType::Wall(WallType::TopRight));
    assert_eq!(cell(&board, 0, 1), CellType::Wall(WallType::Vertical));
    assert_eq!(cell(&board, 1, 1), CellType::Dot);
    assert_eq!(cell(&board, 2, 1), CellType::Wall(WallType::Vertical));
    assert_eq!(cell(&board, 0, 2), CellType::Wall(WallType::BottomLeft));
    assert_eq!(cell(&board, 1, 2), CellType::Wall(WallType::Horizontal));
    assert_eq!(cell(&board, 2, 2), CellType::Wall(WallType::BottomRight));
}

#[test]
fn skips_comments_and_glyphless_lines() {
    let board = Board::from_layout("// a comment line\n\n+-+\n|.|\n+-+\n   \n").unwrap();
    let (rows, columns) = board.get_dimensions();
    assert_eq!((rows, columns), (3, 3));
    assert_eq!(cell(&board, 1, 1), CellType::Dot);
}

#[test]
fn parses_power_pill_and_empty() {
    let board = Board::from_layout("+--+\n|O |\n+--+").unwrap();
    assert_eq!(cell(&board, 1, 1), CellType::PowerPill);
    assert_eq!(cell(&board, 2, 1), CellType::Empty);
}

#[test]
fn rejects_mismatched_row_length() {
    let err = Board::from_layout("+-+\n|.|x\n+-+").unwrap_err();
    assert_eq!(err, BoardError::InvalidLayout);
}

#[test]
fn rejects_unknown_glyph() {
    let err = Board::from_layout("+-+\n|z|\n+-+").unwrap_err();
    assert_eq!(err, BoardError::InvalidCellGlyph);
}

#[test]
fn rejects_unresolvable_junction() {
    let err = Board::from_layout("+-").unwrap_err();
    assert_eq!(err, BoardError::InvalidJunction);
}

#[test]
fn records_enemy_spawn_and_leaves_cell_empty() {
    let board = Board::from_layout("+--+\n|.1|\n+--+").unwrap();
    assert_eq!(cell(&board, 2, 1), CellType::Empty);
    let enemies = board.get_enemies();
    assert_eq!(enemies.len(), 1);
    assert_eq!(enemies[0].start_position, Position::new(2 * CELL, CELL));
}

#[test]
fn classify_is_outside_exactly_off_the_grid() {
    let board = Board::from_layout("+-+\n|.|\n+-+").unwrap();
    assert_eq!(board.get_cell(-1, 0), CellType::Outside);
    assert_eq!(board.get_cell(0, -1), CellType::Outside);
    assert_eq!(board.get_cell(3 * CELL, CELL), CellType::Outside);
    assert_eq!(board.get_cell(CELL, 3 * CELL), CellType::Outside);
    for cx in 0..3 {
        for cy in 0..3 {
            assert_ne!(cell(&board, cx, cy), CellType::Outside);
        }
    }
    // Truncation: any coordinate inside a boundary cell still classifies to it.
    assert_eq!(board.get_cell(2 * CELL + 999, CELL), CellType::Wall(WallType::Vertical));
}

#[test]
fn parses_maze_with_inner_box_and_tunnel_row() {
    let layout = "\
+--------+\n\
|...O....|\n\
|.+----+.|\n\
|.|    |.|\n\
..|    |..\n\
|.|    |.|\n\
|.+----+.|\n\
|...1....|\n\
+--------+";
    let board = Board::from_layout(layout).unwrap();
    let (rows, columns) = board.get_dimensions();
    assert_eq!((rows, columns), (9, 10));
    assert_eq!(cell(&board, 2, 2), CellType::Wall(WallType::TopLeft));
    assert_eq!(cell(&board, 7, 2), CellType::Wall(WallType::TopRight));
    assert_eq!(cell(&board, 2, 6), CellType::Wall(WallType::BottomLeft));
    assert_eq!(cell(&board, 7, 6), CellType::Wall(WallType::BottomRight));
    assert_eq!(cell(&board, 0, 4), CellType::Dot);
    assert_eq!(cell(&board, 9, 4), CellType::Dot);
    assert_eq!(cell(&board, 4, 1), CellType::PowerPill);
    assert_eq!(board.get_enemies().len(), 1);
    assert_eq!(board.get_enemies()[0].start_position, Position::new(4 * CELL, 7 * CELL));
}

#[test]
fn junction_continues_through_neighboring_junctions() {
    // Each top '+' sees the other '+' beside it and a wall below: the
    // neighboring junction counts as continuing the wall sideways.
    let board = Board::from_layout("++\n||").unwrap();
    assert_eq!(cell(&board, 0, 0), CellType::Wall(WallType::TopLeft));
    assert_eq!(cell(&board, 1, 0), CellType::Wall(WallType::TopRight));
    assert_eq!(cell(&board, 0, 1), CellType::Wall(WallType::Vertical));
}
