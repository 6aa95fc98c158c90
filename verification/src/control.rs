//! The per-session piece controller: sequence counter, session seed,
//! spawn handshake, and the horizontal-handling state machine that drives
//! the movement engine under delayed-auto-shift (DAS) and auto-repeat
//! (ARR) timing.

use vstd::prelude::*;

use rand::Rng;

use crate::bag::rand_mino;
use crate::bag::rand_mino_spec;
use crate::board::blocked;
use crate::board::board_piece_wf;
use crate::board::board_wf;
use crate::board::covers;
use crate::board::delta_for;
use crate::board::delta_is_move;
use crate::board::dims_ok;
use crate::board::dir_offset;
use crate::board::origin_col;
use crate::board::origin_row;
use crate::board::piece_kind;
use crate::board::shift_cells;
use crate::board::shift_grid;
use crate::board::MinoData;
use crate::board::MinoInfo;
use crate::board::MoveDelta;
use crate::mino::lemma_side_margin_occupied;
use crate::mino::occupied;
use crate::mino::CellState;
use crate::mino::IsMino;
use crate::mino::MoveDirection;

verus! {

/// Relies on rand's `thread_rng` and `Rng::gen_range`: the result of
/// `gen_range(0..1_000_000_000)` lies in that half-open range. Nothing more
/// can be promised of a draw from the thread-local generator.
#[verifier::external_body]
fn random_seed() -> (r: u64)
    ensures
        r < 1000000000,
{
    rand::thread_rng().gen_range(0..1000000000u64)
}

/// The horizontal movement of the controlled mino.
#[derive(Clone, Copy, Debug, PartialEq, Eq, Structural)]
pub enum Movement {
    /// No movement.
    No,
    /// In DAS movement: the timer of DAS and the direction of movement.
    InDas(u8, MoveDirection),
    /// In ARR movement: the timer of each ARR and the direction of movement.
    InArr(u8, MoveDirection),
}

impl Movement {
    /// Increases the timer rate of the movement.
    pub fn increase(&mut self)
        requires
            match *old(self) {
                Movement::No => true,
                Movement::InDas(f, _) => f < 255,
                Movement::InArr(f, _) => f < 255,
            },
        ensures
            *final(self) == match *old(self) {
                Movement::No => *old(self),
                Movement::InDas(f, d) => Movement::InDas((f + 1) as u8, d),
                Movement::InArr(f, d) => Movement::InArr((f + 1) as u8, d),
            },
    {
        match *self {
            Movement::InDas(f, d) => {
                *self = Movement::InDas(f + 1, d);
            },
            Movement::InArr(f, d) => {
                *self = Movement::InArr(f + 1, d);
            },
            Movement::No => {},
        }
    }
}

/// The per-session piece controller.
pub struct MinoCtrl {
    /// nth of the mino (0-indexed)
    pub nth: usize,
    /// Seed for RNG.
    pub seed: u64,
    /// Whether waiting for the next mino.
    pub is_waiting: bool,
    /// Horizontal movement of the controlled mino.
    pub movement: Movement,
}

impl MinoCtrl {
    /// Creates the controller for a fresh session, with a random seed drawn
    /// once from the documented range.
    pub fn init() -> (ctrl: MinoCtrl)
        ensures
            ctrl.nth == 0,
            ctrl.seed < 1000000000,
            ctrl.is_waiting,
            ctrl.movement == Movement::No,
    {
        MinoCtrl { nth: 0, seed: random_seed(), is_waiting: true, movement: Movement::No }
    }
}

/// Initializes a `MinoCtrl` for a session.
pub fn set_mino_ctrl() -> (ctrl: MinoCtrl)
    ensures
        ctrl.nth == 0,
        ctrl.seed < 1000000000,
        ctrl.is_waiting,
        ctrl.movement == Movement::No,
{
    MinoCtrl::init()
}

/// Returns whether the controller waits for the next mino to spawn.
pub fn is_waiting_mino(ctrl: &MinoCtrl) -> (r: bool)
    ensures
        r == ctrl.is_waiting,
{
    ctrl.is_waiting
}

/// Requests a hard drop: when the drop key was just pressed, the controller
/// starts waiting for the next mino, which the spawn pass services.
pub fn place_mino(ctrl: &mut MinoCtrl, drop_pressed: bool)
    ensures
        final(ctrl).is_waiting == (old(ctrl).is_waiting || drop_pressed),
        final(ctrl).nth == old(ctrl).nth,
        final(ctrl).seed == old(ctrl).seed,
        final(ctrl).movement == old(ctrl).movement,
{
    if drop_pressed {
        ctrl.is_waiting = true;
    }
}

/// The handling state after one tick with direction `dir` held, under the
/// configuration `das` and `arr`.
pub open spec fn step_movement(m: Movement, dir: MoveDirection, das: u8, arr: u8) -> Movement {
    match m {
        Movement::No => Movement::InDas(0, dir),
        Movement::InDas(t, d) => if d != dir {
            Movement::InDas(0, dir)
        } else if t + 1 < das {
            Movement::InDas((t + 1) as u8, d)
        } else {
            Movement::InArr(0, d)
        },
        Movement::InArr(t, d) => if d != dir {
            Movement::InDas(0, dir)
        } else if arr == 0 {
            Movement::InArr(0, d)
        } else if t + 1 < arr {
            Movement::InArr((t + 1) as u8, d)
        } else {
            Movement::InArr(0, d)
        },
    }
}

/// How many unit moves the tick performs: one on a fresh press or a
/// direction change, one when the DAS delay or the ARR interval elapses,
/// a burst of up to ten when `arr` is zero, and none while a timer runs.
pub open spec fn step_shifts(m: Movement, dir: MoveDirection, das: u8, arr: u8) -> nat {
    match m {
        Movement::No => 1,
        Movement::InDas(t, d) => if d != dir {
            1
        } else if t + 1 < das {
            0
        } else {
            1
        },
        Movement::InArr(t, d) => if d != dir {
            1
        } else if arr == 0 {
            10
        } else if t + 1 < arr {
            0
        } else {
            1
        },
    }
}

/// The board grid and cell records after `n` unit moves in `dir`.
pub open spec fn shiftn(
    g: Seq<Seq<CellState>>,
    cells: Seq<MinoInfo>,
    dir: MoveDirection,
    n: nat,
) -> (Seq<Seq<CellState>>, Seq<MinoInfo>)
    decreases n,
{
    if n == 0 {
        (g, cells)
    } else {
        let prev = shiftn(g, cells, dir, (n - 1) as nat);
        (shift_grid(prev.0, prev.1, dir), shift_cells(prev.1, dir))
    }
}

/// Any number of unit moves keeps the board well formed.
pub proof fn lemma_shiftn_wf(
    g: Seq<Seq<CellState>>,
    cells: Seq<MinoInfo>,
    dir: MoveDirection,
    n: nat,
)
    requires
        board_wf(g, cells),
    ensures
        board_wf(shiftn(g, cells, dir, n).0, shiftn(g, cells, dir, n).1),
    decreases n,
{
    if n > 0 {
        lemma_shiftn_wf(g, cells, dir, (n - 1) as nat);
        crate::board::lemma_shift_preserves_wf(
            shiftn(g, cells, dir, (n - 1) as nat).0,
            shiftn(g, cells, dir, (n - 1) as nat).1,
            dir,
        );
    }
}

/// Every delta that a unit move in `dir` reports is a move of one column in
/// that direction, inside the board.
pub open spec fn delta_unit(dir: MoveDirection, dd: MoveDelta) -> bool {
    &&& dd.row < 40
    &&& dd.from_col <= 9
    &&& dd.to_col <= 9
    &&& dd.to_col == dd.from_col + dir_offset(dir)
}

/// The deltas of one unit move of a well-formed, unblocked piece all move
/// one column in the direction of travel, inside the board.
proof fn lemma_move_deltas_unit(
    g: Seq<Seq<CellState>>,
    cells: Seq<MinoInfo>,
    dir: MoveDirection,
    ds: Seq<MoveDelta>,
)
    requires
        board_wf(g, cells),
        cells.len() > 0,
        !blocked(cells, dir),
        forall|d: int| 0 <= d < ds.len() ==> #[trigger] delta_is_move(cells, dir, ds, d),
    ensures
        forall|d: int| 0 <= d < ds.len() ==> #[trigger] delta_unit(dir, ds[d]),
{
    let k = piece_kind(cells);
    let ox = origin_col(cells);
    let oy = origin_row(cells);
    assert(board_piece_wf(g, cells));
    assert forall|d: int| 0 <= d < ds.len() implies #[trigger] delta_unit(dir, ds[d]) by {
        assert(delta_is_move(cells, dir, ds, d));
        let j = choose|j: int|
            0 <= j < cells.len() && ds[d] == #[trigger] delta_for(cells, dir, j);
        assert(cells[j].col == ox + cells[j].part_col);
        crate::board::lemma_covers_bounds(k, ox, oy, cells[j].row as int, cells[j].col as int);
        lemma_side_margin_occupied(k);
        assert(occupied(k, cells[j].part_row as int, cells[j].part_col as int));
        if dir == MoveDirection::Left {
            assert(ox + crate::mino::left_margin_spec(k) >= 1);
            assert(cells[j].col >= 1);
        } else {
            assert(ox + 3 - crate::mino::right_margin_spec(k) <= 8);
            assert(cells[j].col <= 8);
        }
    }
}

/// One tick of the horizontal-handling state machine, with `held` the
/// horizontal direction currently held (or `None`), and `das` and `arr` the
/// handling configuration in ticks.
///
/// With no direction held the state returns to `Movement::No`. A fresh
/// press or a direction change moves the piece once and enters
/// `InDas(0, dir)`. While charging, the DAS timer counts the following
/// ticks; when it reaches `das` the piece moves once and auto-repeat
/// begins. While repeating with `arr > 0` the piece moves once every `arr`
/// ticks; with `arr == 0` each tick performs up to ten unit moves (fewer
/// reach the wall). Moves at the wall are absorbed by the movement engine.
pub fn move_mino(
    ctrl: &mut MinoCtrl,
    held: Option<MoveDirection>,
    das: u8,
    arr: u8,
    board: &mut MinoData,
    cells: &mut Vec<MinoInfo>,
) -> (deltas: Vec<MoveDelta>)
    requires
        board_wf(old(board)@, old(cells)@),
    ensures
        final(ctrl).nth == old(ctrl).nth,
        final(ctrl).seed == old(ctrl).seed,
        final(ctrl).is_waiting == old(ctrl).is_waiting,
        board_wf(final(board)@, final(cells)@),
        match held {
            None => {
                &&& final(ctrl).movement == Movement::No
                &&& final(board)@ == old(board)@
                &&& final(cells)@ == old(cells)@
                &&& deltas@.len() == 0
            },
            Some(dir) => {
                &&& final(ctrl).movement == step_movement(old(ctrl).movement, dir, das, arr)
                &&& final(board)@ == shiftn(
                    old(board)@,
                    old(cells)@,
                    dir,
                    step_shifts(old(ctrl).movement, dir, das, arr),
                ).0
                &&& final(cells)@ == shiftn(
                    old(board)@,
                    old(cells)@,
                    dir,
                    step_shifts(old(ctrl).movement, dir, das, arr),
                ).1
                &&& forall|d: int|
                    0 <= d < deltas@.len() ==> #[trigger] delta_unit(dir, deltas@[d])
            },
        },
{
    if held.is_none() {
        ctrl.movement = Movement::No;
        return Vec::new();
    }
    let dir = match held {
        Some(dir) => dir,
        None => MoveDirection::Left,
    };
    proof {
        assert(held == Some(dir));
    }
    let ghost g0 = board@;
    let ghost cs0 = cells@;
    let is_dir_changed = match ctrl.movement {
        Movement::No => false,
        Movement::InDas(_, d) => d != dir,
        Movement::InArr(_, d) => d != dir,
    };
    if matches!(ctrl.movement, Movement::No) || is_dir_changed {
        let deltas = board.move_mino(dir, cells);
        ctrl.movement = Movement::InDas(0, dir);
        proof {
            assert(shiftn(g0, cs0, dir, 0) == (g0, cs0));
            assert(shiftn(g0, cs0, dir, 1).0 == shift_grid(g0, cs0, dir));
            if cs0.len() > 0 && !blocked(cs0, dir) {
                lemma_move_deltas_unit(g0, cs0, dir, deltas@);
            }
        }
        deltas
    } else {
        match ctrl.movement {
            Movement::InDas(t, d) => {
                if (t as u16) + 1 < (das as u16) {
                    ctrl.movement.increase();
                    Vec::new()
                } else {
                    let deltas = board.move_mino(dir, cells);
                    ctrl.movement = Movement::InArr(0, d);
                    proof {
                        assert(shiftn(g0, cs0, dir, 0) == (g0, cs0));
                        assert(shiftn(g0, cs0, dir, 1).0 == shift_grid(g0, cs0, dir));
                        if cs0.len() > 0 && !blocked(cs0, dir) {
                            lemma_move_deltas_unit(g0, cs0, dir, deltas@);
                        }
                    }
                    deltas
                }
            },
            Movement::InArr(t, d) => {
                if arr == 0 {
                    let mut deltas: Vec<MoveDelta> = Vec::new();
                    let mut it: usize = 0;
                    #[verifier::loop_isolation(false)]
                    while it < 10
                        invariant
                            it <= 10,
                            board@ == shiftn(g0, cs0, dir, it as nat).0,
                            cells@ == shiftn(g0, cs0, dir, it as nat).1,
                            board_wf(board@, cells@),
                            forall|dd: int|
                                0 <= dd < deltas@.len() ==> #[trigger] delta_unit(
                                    dir,
                                    deltas@[dd],
                                ),
                        decreases 10 - it,
                    {
                        let ghost gi = board@;
                        let ghost csi = cells@;
                        let mut more = board.move_mino(dir, cells);
                        proof {
                            if csi.len() > 0 && !blocked(csi, dir) {
                                lemma_move_deltas_unit(gi, csi, dir, more@);
                            }
                        }
                        deltas.append(&mut more);
                        it += 1;
                    }
                    ctrl.movement = Movement::InArr(0, d);
                    deltas
                } else if (t as u16) + 1 < (arr as u16) {
                    ctrl.movement.increase();
                    Vec::new()
                } else {
                    let deltas = board.move_mino(dir, cells);
                    ctrl.movement = Movement::InArr(0, d);
                    proof {
                        assert(shiftn(g0, cs0, dir, 0) == (g0, cs0));
                        assert(shiftn(g0, cs0, dir, 1).0 == shift_grid(g0, cs0, dir));
                        if cs0.len() > 0 && !blocked(cs0, dir) {
                            lemma_move_deltas_unit(g0, cs0, dir, deltas@);
                        }
                    }
                    deltas
                }
            },
            Movement::No => {
                proof {
                    assert(false);
                }
                Vec::new()
            },
        }
    }
}

/// Which shape cells the spawn pass has already stamped, sweeping the
/// shape's columns first (`px` before `x`), then its rows.
spec fn spawned(x: int, y: int, px: int, py: int) -> bool {
    px < x || (px == x && py < y)
}

/// Spawns a new controlled mino: picks the next kind with the bag
/// randomizer, stamps its 4x2 shape onto the board at the spawn origin
/// (column 3, row 17), marks those cells `Controlled` with one record per
/// cell, increments the sequence counter and clears the waiting flag.
///
/// The spawn pass runs when the controller is waiting, on a board whose
/// previous piece has been resolved: no cell is still `Controlled` and the
/// record list is empty.
#[verifier::loop_isolation(false)]
pub fn spawn_mino(ctrl: &mut MinoCtrl, board: &mut MinoData, cells: &mut Vec<MinoInfo>)
    requires
        old(ctrl).is_waiting,
        old(ctrl).nth < usize::MAX,
        dims_ok(old(board)@),
        forall|r: int, c: int|
            0 <= r < 40 && 0 <= c < 10 ==> (#[trigger] old(board)@[r][c]) != CellState::Controlled,
        old(cells)@.len() == 0,
    ensures
        final(ctrl).nth == old(ctrl).nth + 1,
        !final(ctrl).is_waiting,
        final(ctrl).seed == old(ctrl).seed,
        final(ctrl).movement == old(ctrl).movement,
        board_piece_wf(final(board)@, final(cells)@),
        board_wf(final(board)@, final(cells)@),
        piece_kind(final(cells)@) == rand_mino_spec(old(ctrl).nth, old(ctrl).seed),
        origin_col(final(cells)@) == 3,
        origin_row(final(cells)@) == 17,
        forall|r: int, c: int|
            0 <= r < 40 && 0 <= c < 10 ==> (#[trigger] final(board)@[r][c]) == (if covers(
                rand_mino_spec(old(ctrl).nth, old(ctrl).seed),
                3,
                17,
                r,
                c,
            ) {
                CellState::Controlled
            } else {
                old(board)@[r][c]
            }),
{
    let ghost g0 = board@;
    let mino_kind = rand_mino(ctrl.nth, ctrl.seed);
    let ghost k = mino_kind;
    let shape = mino_kind.shape();
    let mut x: usize = 0;
    while x < 4
        invariant
            x <= 4,
            dims_ok(board@),
            forall|r: int, c: int|
                0 <= r < 40 && 0 <= c < 10 ==> (#[trigger] board@[r][c]) == (if occupied(
                    k,
                    r - 17,
                    c - 3,
                ) && spawned(x as int, 0, c - 3, r - 17) {
                    CellState::Controlled
                } else {
                    g0[r][c]
                }),
            forall|i: int|
                0 <= i < cells@.len() ==> {
                    let ci = #[trigger] cells@[i];
                    &&& ci.kind == k
                    &&& occupied(k, ci.part_row as int, ci.part_col as int)
                    &&& spawned(x as int, 0, ci.part_col as int, ci.part_row as int)
                    &&& ci.col == 3 + ci.part_col
                    &&& ci.row == 17 + ci.part_row
                },
            forall|py: int, px: int|
                #[trigger] occupied(k, py, px) && spawned(x as int, 0, px, py) ==> exists|i: int|
                    0 <= i < cells@.len() && (#[trigger] cells@[i]).part_col == px && cells@[
                        i].part_row == py,
            forall|i: int, j: int|
                0 <= i < j < cells@.len() ==> ((#[trigger] cells@[i]).part_col != (
                #[trigger] cells@[j]).part_col || cells@[i].part_row != cells@[j].part_row),
        decreases 4 - x,
    {
        let mut y: usize = 0;
        while y < 2
            invariant
                x < 4,
                y <= 2,
                dims_ok(board@),
                forall|r: int, c: int|
                    0 <= r < 40 && 0 <= c < 10 ==> (#[trigger] board@[r][c]) == (if occupied(
                        k,
                        r - 17,
                        c - 3,
                    ) && spawned(x as int, y as int, c - 3, r - 17) {
                        CellState::Controlled
                    } else {
                        g0[r][c]
                    }),
                forall|i: int|
                    0 <= i < cells@.len() ==> {
                        let ci = #[trigger] cells@[i];
                        &&& ci.kind == k
                        &&& occupied(k, ci.part_row as int, ci.part_col as int)
                        &&& spawned(x as int, y as int, ci.part_col as int, ci.part_row as int)
                        &&& ci.col == 3 + ci.part_col
                        &&& ci.row == 17 + ci.part_row
                    },
                forall|py: int, px: int|
                    #[trigger] occupied(k, py, px) && spawned(x as int, y as int, px, py)
                        ==> exists|i: int|
                        0 <= i < cells@.len() && (#[trigger] cells@[i]).part_col == px && cells@[
                            i].part_row == py,
                forall|i: int, j: int|
                    0 <= i < j < cells@.len() ==> ((#[trigger] cells@[i]).part_col != (
                    #[trigger] cells@[j]).part_col || cells@[i].part_row != cells@[j].part_row),
            decreases 2 - y,
        {
            if shape[y][x] == IsMino::M {
                let ghost cells_before = cells@;
                board.spawn_mino(CellState::Controlled, 3 + x, 17 + y);
                cells.push(
                    MinoInfo { kind: mino_kind, col: 3 + x, row: 17 + y, part_col: x, part_row: y },
                );
                proof {
                    assert(occupied(k, y as int, x as int));
                    assert forall|py: int, px: int|
                        #[trigger] occupied(k, py, px) && spawned(x as int, y as int + 1, px, py)
                        implies exists|i: int|
                        0 <= i < cells@.len() && (#[trigger] cells@[i]).part_col == px && cells@[
                            i].part_row == py by {
                        if spawned(x as int, y as int, px, py) {
                            let i = choose|i: int|
                                0 <= i < cells_before.len() && (#[trigger] cells_before[i]).part_col
                                    == px && cells_before[i].part_row == py;
                            assert(cells@[i] == cells_before[i]);
                        } else {
                            assert(px == x && py == y);
                            assert(cells@[cells@.len() - 1].part_col == px && cells@[cells@.len()
                                - 1].part_row == py);
                        }
                    }
                    assert forall|i: int, j: int| 0 <= i < j < cells@.len() implies ((
                    #[trigger] cells@[i]).part_col != (#[trigger] cells@[j]).part_col || cells@[
                        i].part_row != cells@[j].part_row) by {
                        if j == cells@.len() - 1 {
                            assert(cells@[i] == cells_before[i]);
                            assert(spawned(x as int, y as int, cells@[i].part_col as int, cells@[
                                i].part_row as int));
                        } else {
                            assert(cells@[i] == cells_before[i] && cells@[j] == cells_before[j]);
                        }
                    }
                }
            } else {
                proof {
                    assert(!occupied(k, y as int, x as int));
                }
            }
            y += 1;
        }
        x += 1;
    }
    ctrl.nth = ctrl.nth + 1;
    ctrl.is_waiting = false;
    proof {
        lemma_side_margin_occupied(k);
        let lpy = choose|py: int| #[trigger] occupied(k, py, crate::mino::left_margin_spec(k));
        assert(spawned(4, 0, crate::mino::left_margin_spec(k), lpy));
        assert(cells@.len() > 0);
        assert(cells@[0].col - cells@[0].part_col == 3);
        assert(piece_kind(cells@) == k && origin_col(cells@) == 3 && origin_row(cells@) == 17);
        assert forall|r: int, c: int| 0 <= r < 40 && 0 <= c < 10 implies ((#[trigger] board@[r][c])
            == CellState::Controlled <==> covers(k, 3, 17, r, c)) by {}
        assert(board_piece_wf(board@, cells@));
    }
}

} // verus!
