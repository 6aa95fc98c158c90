use kagris::bag::bag_of;
use kagris::control::Movement;
use kagris::mino::CellState;
use kagris::mino::IsMino;
use kagris::mino::MinoType;
use kagris::mino::MoveDirection;

const KINDS: [MinoType; 7] = [
    MinoType::I,
    MinoType::O,
    MinoType::L,
    MinoType::J,
    MinoType::Z,
    MinoType::S,
    MinoType::T,
];

#[test]
fn shapes_are_four_wide_and_two_tall_with_four_cells() {
    for kind in KINDS {
        let shape = kind.shape();
        assert_eq!(shape.len(), 2);
        let mut cells = 0;
        for row in &shape {
            assert_eq!(row.len(), 4);
            cells += row.iter().filter(|c| **c == IsMino::M).count();
        }
        assert_eq!(cells, 4, "{kind:?}");
    }
}

#[test]
fn side_margins_match_the_empty_shape_columns() {
    for kind in KINDS {
        let shape = kind.shape();
        let column_empty =
            |x: usize| shape[0][x] == IsMino::E && shape[1][x] == IsMino::E;
        let (left, right) = kind.side_margin();
        let expected_left = (0..4).take_while(|x| column_empty(*x)).count();
        let expected_right = (0..4).rev().take_while(|x| column_empty(*x)).count();
        assert_eq!(left, expected_left, "{kind:?}");
        assert_eq!(right, expected_right, "{kind:?}");
    }
}

#[test]
fn i_and_o_have_their_documented_margins() {
    assert_eq!(MinoType::I.side_margin(), (0, 0));
    assert_eq!(MinoType::O.side_margin(), (1, 1));
    assert_eq!(MinoType::T.side_margin(), (0, 1));
}

#[test]
fn occupied_at_matches_the_shape_table() {
    for kind in KINDS {
        let shape = kind.shape();
        for y in 0..2 {
            for x in 0..4 {
                assert_eq!(kind.occupied_at(y as i64, x as i64), shape[y][x] == IsMino::M);
            }
        }
        assert!(!kind.occupied_at(-1, 0));
        assert!(!kind.occupied_at(0, 4));
    }
}

#[test]
fn cell_state_predicates() {
    assert!(CellState::Empty.is_empty());
    assert!(!CellState::Empty.is_filled());
    assert!(CellState::Controlled.is_controlled());
    assert!(CellState::Controlled.is_filled());
    assert!(CellState::Placed.is_placed());
    assert!(CellState::Placed.is_filled());
    assert!(!CellState::Placed.is_controlled());
}

#[test]
fn move_direction_predicates() {
    assert!(MoveDirection::Left.is_left());
    assert!(!MoveDirection::Left.is_right());
    assert!(MoveDirection::Right.is_right());
}

#[test]
fn movement_increase_ticks_the_timer() {
    let mut m = Movement::InDas(3, MoveDirection::Left);
    m.increase();
    assert_eq!(m, Movement::InDas(4, MoveDirection::Left));
    let mut m = Movement::InArr(0, MoveDirection::Right);
    m.increase();
    assert_eq!(m, Movement::InArr(1, MoveDirection::Right));
    let mut m = Movement::No;
    m.increase();
    assert_eq!(m, Movement::No);
}

#[test]
fn bags_are_really_shuffled() {
    // Across a couple of dozen seeds, at least one bag must differ from
    // the unshuffled kind order; a generator that left the bag as it was
    // would fail this.
    let any_shuffled = (0u64..24).any(|seed| {
        let bag = bag_of(0, seed);
        (0..7).any(|i| bag[i] != KINDS[i])
    });
    assert!(any_shuffled);
}
