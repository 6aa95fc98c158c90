use kagris::board::MinoData;
use kagris::board::MinoInfo;
use kagris::control::is_waiting_mino;
use kagris::control::move_mino;
use kagris::control::place_mino;
use kagris::control::set_mino_ctrl;
use kagris::control::MinoCtrl;
use kagris::control::Movement;
use kagris::mino::CellState;
use kagris::mino::MinoType;
use kagris::mino::MoveDirection;

/// A session with one O piece at the spawn origin and a quiet controller.
fn session() -> (MinoCtrl, MinoData, Vec<MinoInfo>) {
    let mut board = MinoData::empty();
    let mut cells = Vec::new();
    for (px, py) in [(1, 0), (2, 0), (1, 1), (2, 1)] {
        let col = 3 + px;
        let row = 17 + py;
        board.spawn_mino(CellState::Controlled, col, row);
        cells.push(MinoInfo { kind: MinoType::O, col, row, part_col: px, part_row: py });
    }
    let ctrl = MinoCtrl { nth: 1, seed: 42, is_waiting: false, movement: Movement::No };
    (ctrl, board, cells)
}

#[test]
fn controller_starts_waiting_with_a_bounded_seed() {
    let ctrl = set_mino_ctrl();
    assert_eq!(ctrl.nth, 0);
    assert!(ctrl.seed < 1_000_000_000);
    assert!(ctrl.is_waiting);
    assert_eq!(ctrl.movement, Movement::No);
    assert!(is_waiting_mino(&ctrl));
}

#[test]
fn hard_drop_requests_the_next_mino() {
    let mut ctrl = set_mino_ctrl();
    ctrl.is_waiting = false;
    place_mino(&mut ctrl, false);
    assert!(!ctrl.is_waiting);
    place_mino(&mut ctrl, true);
    assert!(ctrl.is_waiting);
}

#[test]
fn handling_timing_with_das_ten_arr_two() {
    // Holding "left" continuously from tick 0 with das = 10, arr = 2:
    // one move on the press, the next when DAS elapses at tick 10, then
    // one every 2 ticks (12, 14, ...) until the piece reaches the wall.
    let (mut ctrl, mut board, mut cells) = session();
    for tick in 0..=16 {
        let deltas = move_mino(&mut ctrl, Some(MoveDirection::Left), 10, 2, &mut board, &mut cells);
        let moved = deltas.len();
        match tick {
            0 | 10 | 12 | 14 => assert_eq!(moved, 4, "tick {}", tick),
            // At tick 16 the O piece already stands at the left wall.
            _ => assert_eq!(moved, 0, "tick {}", tick),
        }
    }
    // Four unit moves happened: the piece went from columns 4..6 to 0..2.
    assert_eq!(board.cell(0, 17), CellState::Controlled);
    assert_eq!(board.cell(1, 17), CellState::Controlled);
}

#[test]
fn handling_states_progress_from_charging_to_repeating() {
    let (mut ctrl, mut board, mut cells) = session();
    move_mino(&mut ctrl, Some(MoveDirection::Left), 10, 2, &mut board, &mut cells);
    assert_eq!(ctrl.movement, Movement::InDas(0, MoveDirection::Left));
    for t in 1..10 {
        move_mino(&mut ctrl, Some(MoveDirection::Left), 10, 2, &mut board, &mut cells);
        assert_eq!(ctrl.movement, Movement::InDas(t, MoveDirection::Left));
    }
    move_mino(&mut ctrl, Some(MoveDirection::Left), 10, 2, &mut board, &mut cells);
    assert_eq!(ctrl.movement, Movement::InArr(0, MoveDirection::Left));
    move_mino(&mut ctrl, Some(MoveDirection::Left), 10, 2, &mut board, &mut cells);
    assert_eq!(ctrl.movement, Movement::InArr(1, MoveDirection::Left));
    move_mino(&mut ctrl, Some(MoveDirection::Left), 10, 2, &mut board, &mut cells);
    assert_eq!(ctrl.movement, Movement::InArr(0, MoveDirection::Left));
}

#[test]
fn releasing_every_key_returns_to_idle() {
    let (mut ctrl, mut board, mut cells) = session();
    move_mino(&mut ctrl, Some(MoveDirection::Left), 10, 2, &mut board, &mut cells);
    assert_eq!(ctrl.movement, Movement::InDas(0, MoveDirection::Left));
    let deltas = move_mino(&mut ctrl, None, 10, 2, &mut board, &mut cells);
    assert_eq!(ctrl.movement, Movement::No);
    assert_eq!(deltas.len(), 0);
}

#[test]
fn instant_arr_slides_to_the_wall_in_one_tick() {
    // With arr = 0, one tick in the repeating state performs up to ten
    // unit moves; the O piece reaches the wall after two of them here.
    let (mut ctrl, mut board, mut cells) = session();
    let d0 = move_mino(&mut ctrl, Some(MoveDirection::Left), 1, 0, &mut board, &mut cells);
    assert_eq!(d0.len(), 4);
    let d1 = move_mino(&mut ctrl, Some(MoveDirection::Left), 1, 0, &mut board, &mut cells);
    assert_eq!(d1.len(), 4);
    assert_eq!(ctrl.movement, Movement::InArr(0, MoveDirection::Left));
    let d2 = move_mino(&mut ctrl, Some(MoveDirection::Left), 1, 0, &mut board, &mut cells);
    assert_eq!(d2.len(), 8);
    assert_eq!(ctrl.movement, Movement::InArr(0, MoveDirection::Left));
    assert_eq!(board.cell(0, 17), CellState::Controlled);
    assert_eq!(board.cell(1, 17), CellState::Controlled);
    // A further tick finds the piece at the wall and moves nothing.
    let d3 = move_mino(&mut ctrl, Some(MoveDirection::Left), 1, 0, &mut board, &mut cells);
    assert_eq!(d3.len(), 0);
}

#[test]
fn direction_reversal_moves_once_and_recharges() {
    // Holding left until the repeating state, then switching to right,
    // moves the piece right once and starts a fresh DAS charge.
    let (mut ctrl, mut board, mut cells) = session();
    for _ in 0..=10 {
        move_mino(&mut ctrl, Some(MoveDirection::Left), 10, 2, &mut board, &mut cells);
    }
    assert_eq!(ctrl.movement, Movement::InArr(0, MoveDirection::Left));
    let deltas = move_mino(&mut ctrl, Some(MoveDirection::Right), 10, 2, &mut board, &mut cells);
    assert_eq!(deltas.len(), 4);
    for d in &deltas {
        assert_eq!(d.to_col, d.from_col + 1);
    }
    assert_eq!(ctrl.movement, Movement::InDas(0, MoveDirection::Right));
}

#[test]
fn spawning_twice_walks_the_sequence() {
    let mut ctrl = MinoCtrl { nth: 0, seed: 987654321, is_waiting: true, movement: Movement::No };
    let mut board = MinoData::empty();
    let mut cells: Vec<MinoInfo> = Vec::new();
    kagris::control::spawn_mino(&mut ctrl, &mut board, &mut cells);
    assert_eq!(ctrl.nth, 1);
    assert_eq!(cells.len(), 4);
    assert_eq!(cells[0].kind, kagris::bag::rand_mino(0, 987654321));
    assert!(!ctrl.is_waiting);
}
