use kagris::board::MinoData;
use kagris::board::MinoInfo;
use kagris::control::spawn_mino;
use kagris::control::MinoCtrl;
use kagris::control::Movement;
use kagris::bag::rand_mino;
use kagris::mino::CellState;
use kagris::mino::IsMino;
use kagris::mino::MinoType;
use kagris::mino::MoveDirection;

/// A board holding one O piece at the spawn origin (columns 4..6, rows 17..19).
fn o_piece_board() -> (MinoData, Vec<MinoInfo>) {
    let mut board = MinoData::empty();
    let mut cells = Vec::new();
    for (px, py) in [(1, 0), (2, 0), (1, 1), (2, 1)] {
        let col = 3 + px;
        let row = 17 + py;
        board.spawn_mino(CellState::Controlled, col, row);
        cells.push(MinoInfo { kind: MinoType::O, col, row, part_col: px, part_row: py });
    }
    (board, cells)
}

fn controlled_count(board: &MinoData) -> usize {
    let mut n = 0;
    for row in 0..40 {
        for col in 0..10 {
            if board.cell(col, row) == CellState::Controlled {
                n += 1;
            }
        }
    }
    n
}

#[test]
fn empty_board_has_no_filled_cell() {
    let board = MinoData::empty();
    for row in 0..40 {
        for col in 0..10 {
            assert!(board.cell(col, row).is_empty());
        }
    }
}

#[test]
fn spawn_stamps_the_shape_at_the_spawn_origin() {
    // Spawn scenario: seed 123456789, sequence index 0.
    let mut ctrl = MinoCtrl { nth: 0, seed: 123456789, is_waiting: true, movement: Movement::No };
    let mut board = MinoData::empty();
    let mut cells: Vec<MinoInfo> = Vec::new();
    spawn_mino(&mut ctrl, &mut board, &mut cells);

    let kind = rand_mino(0, 123456789);
    let shape = kind.shape();
    for x in 0..4 {
        for y in 0..2 {
            let expected = shape[y][x] == IsMino::M;
            let got = board.cell(3 + x, 17 + y) == CellState::Controlled;
            assert_eq!(got, expected);
        }
    }
    // Exactly the shape cells became controlled; the rest of the board is empty.
    for row in 0..40 {
        for col in 0..10 {
            if !(17..19).contains(&row) || !(3..7).contains(&col) {
                assert!(board.cell(col, row).is_empty());
            }
        }
    }
    assert_eq!(cells.len(), 4);
    for info in &cells {
        assert_eq!(info.kind, kind);
        assert_eq!(info.col, 3 + info.part_col);
        assert_eq!(info.row, 17 + info.part_row);
    }
    assert_eq!(ctrl.nth, 1);
    assert!(!ctrl.is_waiting);
}

#[test]
fn move_left_relocates_every_cell_one_column() {
    let (mut board, mut cells) = o_piece_board();
    let deltas = board.move_mino(MoveDirection::Left, &mut cells);
    assert_eq!(deltas.len(), 4);
    for d in &deltas {
        assert_eq!(d.to_col, d.from_col - 1);
    }
    for info in &cells {
        assert_eq!(info.col, 3 + info.part_col - 1);
    }
    assert_eq!(board.cell(3, 17), CellState::Controlled);
    assert_eq!(board.cell(4, 17), CellState::Controlled);
    assert_eq!(board.cell(5, 17), CellState::Empty);
}

#[test]
fn movement_conserves_the_number_of_controlled_cells() {
    let (mut board, mut cells) = o_piece_board();
    assert_eq!(controlled_count(&board), 4);
    for _ in 0..6 {
        board.move_mino(MoveDirection::Left, &mut cells);
        assert_eq!(controlled_count(&board), 4);
        assert_eq!(cells.len(), 4);
    }
    for _ in 0..12 {
        board.move_mino(MoveDirection::Right, &mut cells);
        assert_eq!(controlled_count(&board), 4);
    }
}

#[test]
fn movement_stops_at_the_left_wall() {
    let (mut board, mut cells) = o_piece_board();
    // The O shape has a one-column margin on each side, so its true cells
    // reach columns 0 and 1 after four unit moves.
    for _ in 0..4 {
        let deltas = board.move_mino(MoveDirection::Left, &mut cells);
        assert_eq!(deltas.len(), 4);
    }
    let deltas = board.move_mino(MoveDirection::Left, &mut cells);
    assert_eq!(deltas.len(), 0);
    assert_eq!(board.cell(0, 17), CellState::Controlled);
    assert_eq!(board.cell(1, 17), CellState::Controlled);
    for info in &cells {
        // The effective edge never leaves the board: margin-corrected
        // column offsets stay at or above zero.
        assert!(info.col as i64 - info.part_col as i64 + 1 >= 0);
    }
}

#[test]
fn movement_stops_at_the_right_wall() {
    let (mut board, mut cells) = o_piece_board();
    for _ in 0..4 {
        let deltas = board.move_mino(MoveDirection::Right, &mut cells);
        assert_eq!(deltas.len(), 4);
    }
    let deltas = board.move_mino(MoveDirection::Right, &mut cells);
    assert_eq!(deltas.len(), 0);
    assert_eq!(board.cell(8, 18), CellState::Controlled);
    assert_eq!(board.cell(9, 18), CellState::Controlled);
    for info in &cells {
        assert!(info.col as i64 + (3 - info.part_col as i64) - 1 <= 9);
    }
}

#[test]
fn dump_renders_the_empty_board() {
    let board = MinoData::empty();
    let mut expected = String::new();
    for r in 0..40 {
        let frame = if r > 19 { '!' } else { ' ' };
        expected.push(frame);
        for _ in 0..10 {
            expected.push_str(" .");
        }
        expected.push(frame);
        expected.push('\n');
        if r == 19 {
            expected.push_str("!--------------------!\n");
        } else if r == 39 {
            expected.push_str("======================\n");
        }
    }
    assert_eq!(board.dump(), expected);
}

#[test]
fn dump_shows_controlled_and_placed_cells() {
    let mut board = MinoData::empty();
    board.spawn_mino(CellState::Controlled, 0, 0);
    board.spawn_mino(CellState::Placed, 1, 0);
    let dump = board.dump();
    let first_line = dump.lines().next().unwrap();
    assert_eq!(first_line, " {}[] . . . . . . . . ");
}

#[test]
fn well_formedness_check_accepts_and_refuses() {
    let (mut board, cells) = o_piece_board();
    assert!(board.is_well_formed(&cells));
    let empty_board = MinoData::empty();
    let no_cells: Vec<MinoInfo> = Vec::new();
    assert!(empty_board.is_well_formed(&no_cells));
    // A stray controlled cell that no record describes is refused.
    board.spawn_mino(CellState::Controlled, 0, 0);
    assert!(!board.is_well_formed(&cells));
}
