//! The board grid: cell states, the per-cell records of the controlled
//! piece, and the movement engine that shifts the piece one column.

use vstd::prelude::*;

use crate::mino::occupied;
use crate::mino::left_margin_spec;
use crate::mino::right_margin_spec;
use crate::mino::CellState;
use crate::mino::MinoType;
use crate::mino::MoveDirection;

verus! {

/// Number of grid rows; rows 0..20 sit above the visible playfield.
pub const BOARD_ROWS: usize = 40;

/// Number of grid columns.
pub const BOARD_COLS: usize = 10;

/// One cell of the controlled piece, tagged with its kind, its position in
/// the board grid and its relative position (`part`) inside the 4x2 shape.
/// The renderer keeps one visual element per record.
#[derive(Clone, Copy, Debug, PartialEq, Eq, Structural)]
pub struct MinoInfo {
    /// Kind of the piece this cell belongs to.
    pub kind: MinoType,
    /// Column of the cell in the board grid.
    pub col: usize,
    /// Row of the cell in the board grid.
    pub row: usize,
    /// Column of the cell inside the 4-wide shape.
    pub part_col: usize,
    /// Row of the cell inside the 2-tall shape.
    pub part_row: usize,
}

/// One relocation of a controlled cell, reported to the renderer.
#[derive(Clone, Copy, Debug, PartialEq, Eq, Structural)]
pub struct MoveDelta {
    /// Row of the relocated cell.
    pub row: usize,
    /// Column the cell moved from.
    pub from_col: usize,
    /// Column the cell moved to.
    pub to_col: usize,
}

/// Mino data for the board: a 40-row by 10-column grid of cell states.
pub struct MinoData {
    grid: Vec<Vec<CellState>>,
}

impl View for MinoData {
    type V = Seq<Seq<CellState>>;

    closed spec fn view(&self) -> Seq<Seq<CellState>> {
        self.grid@.map_values(|row: Vec<CellState>| row@)
    }
}

/// The grid has exactly 40 rows of exactly 10 cells.
pub open spec fn dims_ok(g: Seq<Seq<CellState>>) -> bool {
    &&& g.len() == 40
    &&& forall|r: int| 0 <= r < 40 ==> (#[trigger] g[r]).len() == 10
}

/// Kind of the piece that the cell records describe.
pub open spec fn piece_kind(cells: Seq<MinoInfo>) -> MinoType {
    cells[0].kind
}

/// Column of the shape origin of the piece that the cell records describe.
pub open spec fn origin_col(cells: Seq<MinoInfo>) -> int {
    cells[0].col - cells[0].part_col
}

/// Row of the shape origin of the piece that the cell records describe.
pub open spec fn origin_row(cells: Seq<MinoInfo>) -> int {
    cells[0].row - cells[0].part_row
}

/// Whether the piece of kind `kind` with its shape origin at column `ox`,
/// row `oy` covers the grid cell at row `r`, column `c`.
pub open spec fn covers(kind: MinoType, ox: int, oy: int, r: int, c: int) -> bool {
    occupied(kind, r - oy, c - ox)
}

/// The cell records all belong to one piece: they agree on the kind, carry
/// distinct occupied positions of its shape, one record per occupied shape
/// cell, and their grid positions are the shape positions translated by one
/// common origin.
pub open spec fn cells_wf(cells: Seq<MinoInfo>) -> bool {
    let k = piece_kind(cells);
    let ox = origin_col(cells);
    let oy = origin_row(cells);
    &&& forall|i: int|
        0 <= i < cells.len() ==> {
            let ci = #[trigger] cells[i];
            &&& ci.kind == k
            &&& occupied(k, ci.part_row as int, ci.part_col as int)
            &&& ci.col == ox + ci.part_col
            &&& ci.row == oy + ci.part_row
        }
    &&& forall|i: int, j: int|
        0 <= i < j < cells.len() ==> ((#[trigger] cells[i]).part_col != (
        #[trigger] cells[j]).part_col || cells[i].part_row != cells[j].part_row)
    &&& forall|py: int, px: int|
        #[trigger] occupied(k, py, px) ==> exists|i: int|
            0 <= i < cells.len() && (#[trigger] cells[i]).part_col == px && cells[i].part_row == py
}

/// The grid holds exactly one controlled piece, described by the cell
/// records: the `Controlled` cells are exactly the piece's cells, the piece
/// lies fully inside the grid rows, and its true (non-margin) columns lie
/// inside the grid columns.
pub open spec fn board_piece_wf(g: Seq<Seq<CellState>>, cells: Seq<MinoInfo>) -> bool {
    let k = piece_kind(cells);
    let ox = origin_col(cells);
    let oy = origin_row(cells);
    &&& dims_ok(g)
    &&& cells.len() > 0
    &&& k != MinoType::Garbage
    &&& cells_wf(cells)
    &&& 0 <= oy && oy + 1 < 40
    &&& 0 <= ox + left_margin_spec(k)
    &&& ox + 3 - right_margin_spec(k) <= 9
    &&& forall|r: int, c: int|
        0 <= r < 40 && 0 <= c < 10 ==> ((#[trigger] g[r][c]) == CellState::Controlled <==> covers(
            k,
            ox,
            oy,
            r,
            c,
        ))
}

/// Either no piece is on the board (no records, no `Controlled` cell), or
/// the board holds exactly the one controlled piece the records describe.
pub open spec fn board_wf(g: Seq<Seq<CellState>>, cells: Seq<MinoInfo>) -> bool {
    ||| {
        &&& cells.len() == 0
        &&& dims_ok(g)
        &&& forall|r: int, c: int|
            0 <= r < 40 && 0 <= c < 10 ==> (#[trigger] g[r][c]) != CellState::Controlled
    }
    ||| board_piece_wf(g, cells)
}

/// Column offset of one unit move in `dir`.
pub open spec fn dir_offset(dir: MoveDirection) -> int {
    match dir {
        MoveDirection::Left => -1,
        MoveDirection::Right => 1,
    }
}

/// Whether the piece described by `cells` stands at the board edge in
/// direction `dir`, with its margin discounted, so that it cannot move.
pub open spec fn blocked(cells: Seq<MinoInfo>, dir: MoveDirection) -> bool {
    match dir {
        MoveDirection::Left => origin_col(cells) + left_margin_spec(piece_kind(cells)) == 0,
        MoveDirection::Right => origin_col(cells) + 3 - right_margin_spec(piece_kind(cells)) == 9,
    }
}

/// The cell records after one unit move in `dir`: every record's column
/// shifts by one, unless there is no piece or it stands at the edge.
pub open spec fn shift_cells(cells: Seq<MinoInfo>, dir: MoveDirection) -> Seq<MinoInfo> {
    if cells.len() == 0 || blocked(cells, dir) {
        cells
    } else {
        cells.map_values(
            |ci: MinoInfo|
                MinoInfo {
                    kind: ci.kind,
                    col: (ci.col + dir_offset(dir)) as usize,
                    row: ci.row,
                    part_col: ci.part_col,
                    part_row: ci.part_row,
                },
        )
    }
}

/// The grid after one unit move in `dir`: the piece's cells are redrawn one
/// column over, the cells it vacates become `Empty`, every other cell keeps
/// its state. With no piece, or with the piece at the edge, the grid is
/// unchanged.
pub open spec fn shift_grid(
    g: Seq<Seq<CellState>>,
    cells: Seq<MinoInfo>,
    dir: MoveDirection,
) -> Seq<Seq<CellState>> {
    if cells.len() == 0 || blocked(cells, dir) {
        g
    } else {
        let k = piece_kind(cells);
        let ox = origin_col(cells);
        let oy = origin_row(cells);
        let nox = ox + dir_offset(dir);
        Seq::new(
            g.len(),
            |r: int|
                Seq::new(
                    g[r].len(),
                    |c: int|
                        if covers(k, nox, oy, r, c) {
                            CellState::Controlled
                        } else if covers(k, ox, oy, r, c) {
                            CellState::Empty
                        } else {
                            g[r][c]
                        },
                ),
        )
    }
}

/// The report of the unit move of the record `cells[j]` in direction `dir`.
pub open spec fn delta_for(cells: Seq<MinoInfo>, dir: MoveDirection, j: int) -> MoveDelta {
    MoveDelta {
        row: cells[j].row,
        from_col: cells[j].col,
        to_col: (cells[j].col + dir_offset(dir)) as usize,
    }
}

/// The positions (row, column) of the `Controlled` cells of the grid.
pub open spec fn controlled_positions(g: Seq<Seq<CellState>>) -> Set<(int, int)> {
    Set::new(
        |p: (int, int)|
            0 <= p.0 < 40 && 0 <= p.1 < 10 && g[p.0][p.1] == CellState::Controlled,
    )
}

/// Law of edge containment: on a well-formed board, no controlled cell's
/// effective edge — its column corrected by its `part` offset and its
/// kind's side margin — lies left of column 0 or right of column 9. Since
/// moves preserve well-formedness, this holds after any sequence of moves.
pub proof fn lemma_edge_containment(g: Seq<Seq<CellState>>, cells: Seq<MinoInfo>)
    requires
        board_wf(g, cells),
    ensures
        forall|i: int|
            0 <= i < cells.len() ==> {
                let ci = #[trigger] cells[i];
                &&& 0 <= ci.col - ci.part_col + left_margin_spec(ci.kind)
                &&& ci.col + (3 - ci.part_col) - right_margin_spec(ci.kind) <= 9
            },
{
    if cells.len() > 0 {
        assert(board_piece_wf(g, cells));
        assert forall|i: int| 0 <= i < cells.len() implies {
            let ci = #[trigger] cells[i];
            &&& 0 <= ci.col - ci.part_col + left_margin_spec(ci.kind)
            &&& ci.col + (3 - ci.part_col) - right_margin_spec(ci.kind) <= 9
        } by {
            assert(cells[i].col == origin_col(cells) + cells[i].part_col);
        }
    }
}

/// Law of mass conservation, part one: on a well-formed board the
/// `Controlled` cells and the piece records correspond one to one.
pub proof fn lemma_controlled_count(g: Seq<Seq<CellState>>, cells: Seq<MinoInfo>)
    requires
        board_wf(g, cells),
    ensures
        controlled_positions(g).finite(),
        controlled_positions(g).len() == cells.len(),
{
    broadcast use vstd::seq_lib::seq_to_set_is_finite;

    let pos = cells.map_values(|ci: MinoInfo| (ci.row as int, ci.col as int));
    if cells.len() == 0 {
        assert(controlled_positions(g) =~= Set::<(int, int)>::empty());
    } else {
        assert(board_piece_wf(g, cells));
        let k = piece_kind(cells);
        let ox = origin_col(cells);
        let oy = origin_row(cells);
        assert forall|i: int, j: int| 0 <= i < j < cells.len() implies pos[i] != pos[j] by {
            if cells[i].row == cells[j].row && cells[i].col == cells[j].col {
                assert(cells[i].part_col == cells[j].part_col && cells[i].part_row == cells[
                    j].part_row);
                assert(false);
            }
        }
        assert(pos.no_duplicates());
        assert forall|p: (int, int)| controlled_positions(g).contains(p) implies pos.to_set(
        ).contains(p) by {
            assert(g[p.0][p.1] == CellState::Controlled);
            assert(covers(k, ox, oy, p.0, p.1));
            assert(occupied(k, p.0 - oy, p.1 - ox));
            let i = choose|i: int|
                0 <= i < cells.len() && (#[trigger] cells[i]).part_col == p.1 - ox && cells[
                    i].part_row == p.0 - oy;
            assert(pos[i] == p);
            assert(pos.contains(p));
        }
        assert forall|p: (int, int)| pos.to_set().contains(p) implies controlled_positions(
            g,
        ).contains(p) by {
            assert(pos.contains(p));
            let i = choose|i: int| 0 <= i < pos.len() && pos[i] == p;
            assert(cells[i].col == ox + cells[i].part_col && cells[i].row == oy + cells[
                i].part_row);
            assert(covers(k, ox, oy, p.0, p.1));
            lemma_covers_bounds(k, ox, oy, p.0, p.1);
            assert(g[p.0][p.1] == CellState::Controlled);
        }
        assert(controlled_positions(g) =~= pos.to_set());
        pos.unique_seq_to_set();
    }
}

/// Law of mass conservation: a unit move neither creates nor destroys
/// `Controlled` cells; it only relocates them.
pub proof fn lemma_mass_conservation(
    g: Seq<Seq<CellState>>,
    cells: Seq<MinoInfo>,
    dir: MoveDirection,
)
    requires
        board_wf(g, cells),
    ensures
        controlled_positions(shift_grid(g, cells, dir)).len() == controlled_positions(g).len(),
{
    lemma_shift_preserves_wf(g, cells, dir);
    lemma_controlled_count(g, cells);
    lemma_controlled_count(shift_grid(g, cells, dir), shift_cells(cells, dir));
}

/// The delta `ds[d]` is the unit move of some record of `cells`.
pub open spec fn delta_is_move(
    cells: Seq<MinoInfo>,
    dir: MoveDirection,
    ds: Seq<MoveDelta>,
    d: int,
) -> bool {
    exists|j: int| 0 <= j < cells.len() && ds[d] == #[trigger] delta_for(cells, dir, j)
}

/// Some delta of `ds` reports the unit move of the record `cells[j]`.
pub open spec fn record_reported(
    cells: Seq<MinoInfo>,
    dir: MoveDirection,
    ds: Seq<MoveDelta>,
    j: int,
) -> bool {
    exists|d: int| 0 <= d < ds.len() && (#[trigger] ds[d]) == delta_for(cells, dir, j)
}

/// The deltas `ds` report exactly one unit move in `dir` for each record of
/// `cells`, with no record repeated.
pub open spec fn deltas_report(cells: Seq<MinoInfo>, dir: MoveDirection, ds: Seq<MoveDelta>) -> bool {
    &&& forall|d: int| 0 <= d < ds.len() ==> #[trigger] delta_is_move(cells, dir, ds, d)
    &&& forall|j: int| 0 <= j < cells.len() ==> #[trigger] record_reported(cells, dir, ds, j)
    &&& forall|d1: int, d2: int| 0 <= d1 < d2 < ds.len() ==> ds[d1] != ds[d2]
}

/// An occupied cell of a piece whose true columns lie inside the board also
/// lies inside the board, and inside the margin-trimmed column range.
pub proof fn lemma_covers_bounds(k: MinoType, ox: int, oy: int, r: int, c: int)
    requires
        k != MinoType::Garbage,
        0 <= ox + left_margin_spec(k),
        ox + 3 - right_margin_spec(k) <= 9,
        covers(k, ox, oy, r, c),
    ensures
        ox + left_margin_spec(k) <= c <= ox + 3 - right_margin_spec(k),
        0 <= c <= 9,
        oy <= r <= oy + 1,
{
    crate::mino::lemma_side_margin_occupied(k);
    assert(occupied(k, r - oy, c - ox));
}

/// One unit move keeps the board well formed: the shifted grid and the
/// shifted records again describe one controlled piece (or the board stays
/// unchanged when there is no piece or it stands at the edge).
pub proof fn lemma_shift_preserves_wf(
    g: Seq<Seq<CellState>>,
    cells: Seq<MinoInfo>,
    dir: MoveDirection,
)
    requires
        board_wf(g, cells),
    ensures
        board_wf(shift_grid(g, cells, dir), shift_cells(cells, dir)),
        shift_cells(cells, dir).len() == cells.len(),
        cells.len() > 0 && !blocked(cells, dir) ==> {
            &&& piece_kind(shift_cells(cells, dir)) == piece_kind(cells)
            &&& origin_col(shift_cells(cells, dir)) == origin_col(cells) + dir_offset(dir)
            &&& origin_row(shift_cells(cells, dir)) == origin_row(cells)
        },
{
    if cells.len() == 0 || blocked(cells, dir) {
    } else {
        let k = piece_kind(cells);
        let ox = origin_col(cells);
        let oy = origin_row(cells);
        let off = dir_offset(dir);
        let nox = ox + off;
        let cs = shift_cells(cells, dir);
        let gn = shift_grid(g, cells, dir);
        assert(board_piece_wf(g, cells));
        lemma_covers_bounds(k, ox, oy, cells[0].row as int, cells[0].col as int);
        assert(cs[0].col == cells[0].col + off);
        assert(piece_kind(cs) == k && origin_col(cs) == nox && origin_row(cs) == oy);
        assert forall|i: int| 0 <= i < cs.len() implies {
            let ci = #[trigger] cs[i];
            &&& ci.kind == k
            &&& occupied(k, ci.part_row as int, ci.part_col as int)
            &&& ci.col == nox + ci.part_col
            &&& ci.row == oy + ci.part_row
        } by {
            assert(cells[i].col == ox + cells[i].part_col);
            lemma_covers_bounds(k, ox, oy, cells[i].row as int, cells[i].col as int);
            assert(cs[i].col == cells[i].col + off);
        }
        assert forall|py: int, px: int| #[trigger] occupied(k, py, px) implies exists|i: int|
            0 <= i < cs.len() && (#[trigger] cs[i]).part_col == px && cs[i].part_row == py by {
            let i = choose|i: int|
                0 <= i < cells.len() && (#[trigger] cells[i]).part_col == px && cells[i].part_row
                    == py;
            assert(cs[i].part_col == px && cs[i].part_row == py);
        }
        assert(cells_wf(cs));
        assert forall|r: int, c: int| 0 <= r < 40 && 0 <= c < 10 implies ((#[trigger] gn[r][c])
            == CellState::Controlled <==> covers(k, nox, oy, r, c)) by {
            if covers(k, nox, oy, r, c) {
            } else if covers(k, ox, oy, r, c) {
            } else {
                assert(gn[r][c] == g[r][c]);
            }
        }
        assert(board_piece_wf(gn, cs));
    }
}

/// Which original columns of the sweep row have been visited after `s`
/// steps of the column sweep in direction `dir`.
spec fn processed(dir: MoveDirection, s: int, c0: int) -> bool {
    match dir {
        MoveDirection::Left => c0 < s,
        MoveDirection::Right => c0 > 9 - s,
    }
}

/// Whether the record `cells0[j]` has already been visited when the sweep
/// stands at row `r`, column step `s`.
spec fn done_record(cells0: Seq<MinoInfo>, dir: MoveDirection, r: int, s: int, j: int) -> bool {
    ||| cells0[j].row < r
    ||| (cells0[j].row == r && processed(dir, s, cells0[j].col as int))
}

/// The state of the cell at row `r`, column `q` while the sweep of row `r`
/// has visited `s` columns: visited piece cells have moved one column in
/// `dir`, unvisited ones still stand at their original column.
spec fn mid_cell(
    g0: Seq<Seq<CellState>>,
    k: MinoType,
    ox: int,
    oy: int,
    dir: MoveDirection,
    s: int,
    r: int,
    q: int,
) -> CellState {
    let off = dir_offset(dir);
    if covers(k, ox, oy, r, q) && !processed(dir, s, q) {
        CellState::Controlled
    } else if covers(k, ox, oy, r, q - off) && processed(dir, s, q - off) {
        CellState::Controlled
    } else if covers(k, ox, oy, r, q) && processed(dir, s, q) {
        CellState::Empty
    } else {
        g0[r][q]
    }
}

/// The delta `ds[d]` is the unit move of some already-visited record.
spec fn delta_is_done_move(
    cells0: Seq<MinoInfo>,
    dir: MoveDirection,
    r: int,
    s: int,
    ds: Seq<MoveDelta>,
    d: int,
) -> bool {
    exists|j: int|
        0 <= j < cells0.len() && done_record(cells0, dir, r, s, j) && ds[d]
            == #[trigger] delta_for(cells0, dir, j)
}

/// The partial delta report while the sweep stands at row `r`, step `s`:
/// exactly the visited records are reported, none twice.
spec fn deltas_partial(
    cells0: Seq<MinoInfo>,
    dir: MoveDirection,
    ds: Seq<MoveDelta>,
    r: int,
    s: int,
) -> bool {
    &&& forall|d: int|
        0 <= d < ds.len() ==> #[trigger] delta_is_done_move(cells0, dir, r, s, ds, d)
    &&& forall|j: int|
        0 <= j < cells0.len() && #[trigger] done_record(cells0, dir, r, s, j) ==> record_reported(
            cells0,
            dir,
            ds,
            j,
        )
    &&& forall|d1: int, d2: int| 0 <= d1 < d2 < ds.len() ==> ds[d1] != ds[d2]
}

/// The column that the sweep of direction `dir` visits at step `s`.
spec fn sweep_col(dir: MoveDirection, s: int) -> int {
    match dir {
        MoveDirection::Left => s,
        MoveDirection::Right => 9 - s,
    }
}

/// After one more sweep step the visited columns grow by exactly the
/// current sweep column.
proof fn lemma_processed_step(dir: MoveDirection, s: int)
    requires
        0 <= s < 10,
    ensures
        forall|c0: int| #[trigger]
            processed(dir, s + 1, c0) <==> (processed(dir, s, c0) || c0 == sweep_col(dir, s)),
{
}

/// Moving the piece cell at the current sweep column keeps the
/// intermediate description of the row: the cell empties, its neighbour in
/// the direction of travel becomes controlled.
proof fn lemma_row_mid_step_move(
    g0: Seq<Seq<CellState>>,
    k: MinoType,
    ox: int,
    oy: int,
    dir: MoveDirection,
    s: int,
    r: int,
    row: Seq<CellState>,
    c: int,
)
    requires
        k != MinoType::Garbage,
        0 <= ox + left_margin_spec(k),
        ox + 3 - right_margin_spec(k) <= 9,
        0 <= s < 10,
        c == sweep_col(dir, s),
        row.len() == 10,
        covers(k, ox, oy, r, c),
        !processed(dir, s, c),
        dir == MoveDirection::Left ==> ox + left_margin_spec(k) != 0,
        dir == MoveDirection::Right ==> ox + 3 - right_margin_spec(k) != 9,
        forall|q: int| 0 <= q < 10 ==> #[trigger] row[q] == mid_cell(g0, k, ox, oy, dir, s, r, q),
    ensures
        0 <= c + dir_offset(dir) <= 9,
        forall|q: int|
            0 <= q < 10 ==> #[trigger] row.update(c, CellState::Empty).update(
                c + dir_offset(dir),
                CellState::Controlled,
            )[q] == mid_cell(g0, k, ox, oy, dir, s + 1, r, q),
{
    let off = dir_offset(dir);
    lemma_covers_bounds(k, ox, oy, r, c);
    lemma_processed_step(dir, s);
    let row2 = row.update(c, CellState::Empty).update(c + off, CellState::Controlled);
    assert forall|q: int| 0 <= q < 10 implies #[trigger] row2[q] == mid_cell(
        g0,
        k,
        ox,
        oy,
        dir,
        s + 1,
        r,
        q,
    ) by {
        if q == c + off {
            assert(covers(k, ox, oy, r, (c + off) - off) && processed(dir, s + 1, (c + off) - off));
        } else if q == c {
            assert(!(covers(k, ox, oy, r, c - off) && processed(dir, s + 1, c - off)));
        } else {
            assert(row2[q] == row[q]);
            assert(q - off != c);
        }
    }
}

/// When the current sweep column holds no unmoved piece cell, one more
/// sweep step leaves the intermediate description of the row unchanged.
proof fn lemma_row_mid_step_skip(
    g0: Seq<Seq<CellState>>,
    k: MinoType,
    ox: int,
    oy: int,
    dir: MoveDirection,
    s: int,
    r: int,
    row: Seq<CellState>,
)
    requires
        0 <= s < 10,
        row.len() == 10,
        !(covers(k, ox, oy, r, sweep_col(dir, s)) && !processed(dir, s, sweep_col(dir, s))),
        forall|q: int| 0 <= q < 10 ==> #[trigger] row[q] == mid_cell(g0, k, ox, oy, dir, s, r, q),
    ensures
        forall|q: int|
            0 <= q < 10 ==> #[trigger] row[q] == mid_cell(g0, k, ox, oy, dir, s + 1, r, q),
{
    let off = dir_offset(dir);
    let c = sweep_col(dir, s);
    lemma_processed_step(dir, s);
    assert forall|q: int| 0 <= q < 10 implies #[trigger] row[q] == mid_cell(
        g0,
        k,
        ox,
        oy,
        dir,
        s + 1,
        r,
        q,
    ) by {
        if q == c {
            assert(!(covers(k, ox, oy, r, c - off) && processed(dir, s + 1, c - off)));
        } else if q == c + off {
            assert(processed(dir, s, c) || !covers(k, ox, oy, r, c));
        } else {
            assert(q - off != c && q != c);
        }
    }
}

/// Recording the newly visited record `i` extends a partial delta report
/// by one step, provided `i` is the only record the step visits.
proof fn lemma_deltas_partial_push(
    cells0: Seq<MinoInfo>,
    dir: MoveDirection,
    ds: Seq<MoveDelta>,
    r: int,
    s: int,
    i: int,
)
    requires
        cells_wf(cells0),
        deltas_partial(cells0, dir, ds, r, s),
        0 <= i < cells0.len(),
        !done_record(cells0, dir, r, s, i),
        done_record(cells0, dir, r, s + 1, i),
        forall|j: int|
            0 <= j < cells0.len() && #[trigger] done_record(cells0, dir, r, s + 1, j)
                && !done_record(cells0, dir, r, s, j) ==> j == i,
    ensures
        deltas_partial(cells0, dir, ds.push(delta_for(cells0, dir, i)), r, s + 1),
{
    let ds2 = ds.push(delta_for(cells0, dir, i));
    assert forall|d: int| 0 <= d < ds2.len() implies #[trigger] delta_is_done_move(
        cells0,
        dir,
        r,
        s + 1,
        ds2,
        d,
    ) by {
        if d < ds.len() {
            assert(delta_is_done_move(cells0, dir, r, s, ds, d));
            let j = choose|j: int|
                0 <= j < cells0.len() && done_record(cells0, dir, r, s, j) && ds[d]
                    == #[trigger] delta_for(cells0, dir, j);
            assert(done_record(cells0, dir, r, s + 1, j));
            assert(ds2[d] == delta_for(cells0, dir, j));
        } else {
            assert(ds2[d] == delta_for(cells0, dir, i));
        }
    }
    assert forall|j: int|
        0 <= j < cells0.len() && #[trigger] done_record(cells0, dir, r, s + 1, j)
        implies record_reported(cells0, dir, ds2, j) by {
        if done_record(cells0, dir, r, s, j) {
            assert(record_reported(cells0, dir, ds, j));
            let d = choose|d: int|
                0 <= d < ds.len() && (#[trigger] ds[d]) == delta_for(cells0, dir, j);
            assert(ds2[d] == delta_for(cells0, dir, j));
        } else {
            assert(j == i);
            assert(ds2[ds.len() as int] == delta_for(cells0, dir, i));
        }
    }
    assert forall|d1: int, d2: int| 0 <= d1 < d2 < ds2.len() implies ds2[d1] != ds2[d2] by {
        if d2 < ds.len() {
            assert(ds2[d1] == ds[d1] && ds2[d2] == ds[d2]);
        } else {
            assert(ds2[d2] == delta_for(cells0, dir, i));
            assert(ds2[d1] == ds[d1]);
            assert(delta_is_done_move(cells0, dir, r, s, ds, d1));
            let j = choose|j: int|
                0 <= j < cells0.len() && done_record(cells0, dir, r, s, j) && ds[d1]
                    == #[trigger] delta_for(cells0, dir, j);
            assert(j != i);
            if cells0[j].row == cells0[i].row && cells0[j].col == cells0[i].col {
                assert(cells0[j].part_col == cells0[i].part_col && cells0[j].part_row
                    == cells0[i].part_row);
                assert(false);
            }
            assert(delta_for(cells0, dir, j) != delta_for(cells0, dir, i));
        }
    }
}

/// A partial delta report carries over to any sweep position that has
/// visited the same set of records.
proof fn lemma_deltas_partial_carry(
    cells0: Seq<MinoInfo>,
    dir: MoveDirection,
    ds: Seq<MoveDelta>,
    r1: int,
    s1: int,
    r2: int,
    s2: int,
)
    requires
        deltas_partial(cells0, dir, ds, r1, s1),
        forall|j: int|
            0 <= j < cells0.len() ==> (#[trigger] done_record(cells0, dir, r1, s1, j)
                <==> done_record(cells0, dir, r2, s2, j)),
    ensures
        deltas_partial(cells0, dir, ds, r2, s2),
{
    assert forall|d: int| 0 <= d < ds.len() implies #[trigger] delta_is_done_move(
        cells0,
        dir,
        r2,
        s2,
        ds,
        d,
    ) by {
        assert(delta_is_done_move(cells0, dir, r1, s1, ds, d));
        let j = choose|j: int|
            0 <= j < cells0.len() && done_record(cells0, dir, r1, s1, j) && ds[d]
                == #[trigger] delta_for(cells0, dir, j);
        assert(done_record(cells0, dir, r2, s2, j));
        assert(ds[d] == delta_for(cells0, dir, j));
    }
    assert forall|j: int|
        0 <= j < cells0.len() && #[trigger] done_record(cells0, dir, r2, s2, j)
        implies record_reported(cells0, dir, ds, j) by {
        assert(done_record(cells0, dir, r1, s1, j));
    }
}

/// Once the sweep has visited every record, a partial delta report is a
/// complete one.
proof fn lemma_deltas_partial_to_report(
    cells0: Seq<MinoInfo>,
    dir: MoveDirection,
    ds: Seq<MoveDelta>,
    r: int,
    s: int,
)
    requires
        deltas_partial(cells0, dir, ds, r, s),
        forall|j: int| 0 <= j < cells0.len() ==> #[trigger] done_record(cells0, dir, r, s, j),
    ensures
        deltas_report(cells0, dir, ds),
{
    assert forall|d: int| 0 <= d < ds.len() implies #[trigger] delta_is_move(
        cells0,
        dir,
        ds,
        d,
    ) by {
        assert(delta_is_done_move(cells0, dir, r, s, ds, d));
        let j = choose|j: int|
            0 <= j < cells0.len() && done_record(cells0, dir, r, s, j) && ds[d]
                == #[trigger] delta_for(cells0, dir, j);
        assert(ds[d] == delta_for(cells0, dir, j));
    }
    assert forall|j: int| 0 <= j < cells0.len() implies #[trigger] record_reported(
        cells0,
        dir,
        ds,
        j,
    ) by {
        assert(done_record(cells0, dir, r, s, j));
    }
}


/// The two characters that render one cell in the textual board dump.
pub open spec fn cell_chars(cell: CellState) -> Seq<char> {
    match cell {
        CellState::Empty => seq![' ', '.'],
        CellState::Controlled => seq!['{', '}'],
        CellState::Placed => seq!['[', ']'],
    }
}

/// The frame character at the sides of row `r`: rows of the visible stack
/// area (rows 20 and below it) are framed with `!`.
pub open spec fn frame_char(r: int) -> char {
    if 19 < r {
        '!'
    } else {
        ' '
    }
}

/// The characters of the cells of `row` from column `c` on.
pub open spec fn row_cells_text(row: Seq<CellState>, c: int) -> Seq<char>
    decreases 10 - c,
{
    if c < 0 || c >= 10 {
        Seq::empty()
    } else {
        cell_chars(row[c]) + row_cells_text(row, c + 1)
    }
}

/// The separator line printed after row `r`: the visible-area boundary
/// after row 19, the bottom line after row 39, nothing elsewhere.
pub open spec fn row_sep(r: int) -> Seq<char> {
    if r == 19 {
        seq!['!'] + Seq::new(20, |i: int| '-') + seq!['!', '\n']
    } else if r == 39 {
        Seq::new(22, |i: int| '=') + seq!['\n']
    } else {
        Seq::empty()
    }
}

/// The characters of one rendered row, with its frame and separator.
pub open spec fn row_text(row: Seq<CellState>, r: int) -> Seq<char> {
    seq![frame_char(r)] + row_cells_text(row, 0) + seq![frame_char(r), '\n'] + row_sep(r)
}

/// The characters of the rendered rows of `g` from row `r` down.
pub open spec fn board_text_from(g: Seq<Seq<CellState>>, r: int) -> Seq<char>
    decreases 40 - r,
{
    if r < 0 || r >= 40 {
        Seq::empty()
    } else {
        row_text(g[r], r) + board_text_from(g, r + 1)
    }
}

/// The full textual dump of the board grid.
pub open spec fn board_text(g: Seq<Seq<CellState>>) -> Seq<char> {
    board_text_from(g, 0)
}

/// Relies on std's `String::from_iter` for `char` items: the string holds
/// exactly the collected characters, in order.
#[verifier::external_body]
fn chars_to_string(v: Vec<char>) -> (r: String)
    ensures
        r@ == v@,
{
    String::from_iter(v)
}

/// Appends `n` copies of `ch`.
fn push_repeat(v: &mut Vec<char>, ch: char, n: usize)
    ensures
        final(v)@ == old(v)@ + Seq::new(n as nat, |i: int| ch),
{
    let mut i: usize = 0;
    while i < n
        invariant
            i <= n,
            v@ == old(v)@ + Seq::new(i as nat, |q: int| ch),
        decreases n - i,
    {
        v.push(ch);
        proof {
            assert(v@ =~= old(v)@ + Seq::new(i as nat + 1, |q: int| ch));
        }
        i += 1;
    }
}

/// Finds a record whose shape-relative position is (`px`, `py`).
fn find_part(cells: &Vec<MinoInfo>, px: usize, py: usize) -> (r: Option<usize>)
    ensures
        match r {
            Some(i) => i < cells@.len() && cells@[i as int].part_col == px && cells@[
                i as int].part_row == py,
            None => forall|j: int|
                0 <= j < cells@.len() ==> !((#[trigger] cells@[j]).part_col == px && cells@[
                    j].part_row == py),
        },
{
    let mut i: usize = 0;
    while i < cells.len()
        invariant
            i <= cells@.len(),
            forall|j: int|
                0 <= j < i ==> !((#[trigger] cells@[j]).part_col == px && cells@[j].part_row == py),
        decreases cells@.len() - i,
    {
        if cells[i].part_col == px && cells[i].part_row == py {
            return Some(i);
        }
        i += 1;
    }
    None
}

/// Finds a record whose current grid position is (`col`, `row`).
fn find_cell(cells: &Vec<MinoInfo>, row: usize, col: usize) -> (r: Option<usize>)
    ensures
        match r {
            Some(i) => i < cells@.len() && cells@[i as int].row == row && cells@[i as int].col
                == col,
            None => forall|j: int|
                0 <= j < cells@.len() ==> !((#[trigger] cells@[j]).row == row && cells@[j].col
                    == col),
        },
{
    let mut i: usize = 0;
    while i < cells.len()
        invariant
            i <= cells@.len(),
            forall|j: int|
                0 <= j < i ==> !((#[trigger] cells@[j]).row == row && cells@[j].col == col),
        decreases cells@.len() - i,
    {
        if cells[i].row == row && cells[i].col == col {
            return Some(i);
        }
        i += 1;
    }
    None
}

impl MinoData {
    /// Creates an empty mino data grid.
    pub fn empty() -> (r: MinoData)
        ensures
            dims_ok(r@),
            forall|row: int, c: int|
                0 <= row < 40 && 0 <= c < 10 ==> (#[trigger] r@[row][c]) == CellState::Empty,
    {
        let mut grid: Vec<Vec<CellState>> = Vec::new();
        let mut r: usize = 0;
        while r < BOARD_ROWS
            invariant
                r <= 40,
                grid@.len() == r,
                forall|i: int| 0 <= i < r ==> (#[trigger] grid@[i])@.len() == 10,
                forall|i: int, c: int|
                    0 <= i < r && 0 <= c < 10 ==> (#[trigger] grid@[i]@[c]) == CellState::Empty,
            decreases 40 - r,
        {
            let mut row: Vec<CellState> = Vec::new();
            let mut c: usize = 0;
            while c < BOARD_COLS
                invariant
                    c <= 10,
                    row@.len() == c,
                    forall|j: int| 0 <= j < c ==> (#[trigger] row@[j]) == CellState::Empty,
                decreases 10 - c,
            {
                row.push(CellState::Empty);
                c += 1;
            }
            grid.push(row);
            r += 1;
        }
        MinoData { grid }
    }

    /// Sets the cell at column `col`, row `row` to `state`, leaving every
    /// other cell as it was. Used to stamp a freshly spawned piece.
    pub fn spawn_mino(&mut self, state: CellState, col: usize, row: usize)
        requires
            dims_ok(old(self)@),
            col < 10,
            row < 40,
        ensures
            dims_ok(final(self)@),
            final(self)@ == old(self)@.update(
                row as int,
                old(self)@[row as int].update(col as int, state),
            ),
    {
        proof {
            assert(self@[row as int] == self.grid@[row as int]@);
            assert(self@[row as int].len() == 10);
        }
        self.grid[row][col] = state;
        assert(self@ =~~= old(self)@.update(
            row as int,
            old(self)@[row as int].update(col as int, state),
        ));
    }

    /// Sweeps one grid row for a unit move of the piece in `direction`,
    /// visiting the column nearest the direction of travel first. Ghost
    /// arguments carry the state of the whole move: `g0`/`cs0` the board and
    /// records as the move began, with rows below `r` already swept.
    #[verifier::loop_isolation(false)]
    #[verifier::rlimit(100)]
    fn sweep_row(
        &mut self,
        r: usize,
        direction: MoveDirection,
        cells: &mut Vec<MinoInfo>,
        deltas: &mut Vec<MoveDelta>,
        Ghost(g0): Ghost<Seq<Seq<CellState>>>,
        Ghost(cs0): Ghost<Seq<MinoInfo>>,
    )
        requires
            board_wf(g0, cs0),
            r < 40,
            old(cells)@.len() == cs0.len(),
            dims_ok(old(self)@),
            cs0.len() == 0 || blocked(cs0, direction) ==> old(self)@ == g0 && old(cells)@ == cs0
                && old(deltas)@.len() == 0,
            cs0.len() > 0 && !blocked(cs0, direction) ==> {
                &&& forall|i: int|
                    0 <= i < 40 ==> #[trigger] old(self)@[i] == (if i < r {
                        shift_grid(g0, cs0, direction)[i]
                    } else {
                        g0[i]
                    })
                &&& forall|j: int|
                    0 <= j < cs0.len() ==> #[trigger] old(cells)@[j] == (if cs0[j].row < r {
                        shift_cells(cs0, direction)[j]
                    } else {
                        cs0[j]
                    })
                &&& deltas_partial(cs0, direction, old(deltas)@, r as int, 0)
            },
        ensures
            final(cells)@.len() == cs0.len(),
            dims_ok(final(self)@),
            cs0.len() == 0 || blocked(cs0, direction) ==> final(self)@ == g0 && final(cells)@
                == cs0 && final(deltas)@.len() == 0,
            cs0.len() > 0 && !blocked(cs0, direction) ==> {
                &&& forall|i: int|
                    0 <= i < 40 ==> #[trigger] final(self)@[i] == (if i < r + 1 {
                        shift_grid(g0, cs0, direction)[i]
                    } else {
                        g0[i]
                    })
                &&& forall|j: int|
                    0 <= j < cs0.len() ==> #[trigger] final(cells)@[j] == (if cs0[j].row < r + 1 {
                        shift_cells(cs0, direction)[j]
                    } else {
                        cs0[j]
                    })
                &&& deltas_partial(cs0, direction, final(deltas)@, r as int + 1, 0)
            },
    {
        let ghost k = piece_kind(cs0);
        let ghost ox = origin_col(cs0);
        let ghost oy = origin_row(cs0);
        let ghost off = dir_offset(direction);
        let ghost blk = cs0.len() == 0 || blocked(cs0, direction);
        let ghost gfin = shift_grid(g0, cs0, direction);
        let ghost csfin = shift_cells(cs0, direction);
        proof {
            lemma_shift_preserves_wf(g0, cs0, direction);
            if !blk {
                assert forall|q: int| 0 <= q < 10 implies self@[r as int][q] == mid_cell(
                    g0,
                    k,
                    ox,
                    oy,
                    direction,
                    0,
                    r as int,
                    q,
                ) by {
                    assert(self@[r as int] == g0[r as int]);
                    if covers(k, ox, oy, r as int, q) {
                        assert(g0[r as int][q] == CellState::Controlled);
                    }
                }
            }
        }
        let mut s: usize = 0;
        while s < BOARD_COLS
            invariant
                s <= 10,
                cells@.len() == cs0.len(),
                dims_ok(self@),
                blk ==> self@ == g0 && cells@ == cs0 && deltas@.len() == 0,
                !blk ==> forall|i: int|
                    0 <= i < 40 && i != r ==> #[trigger] self@[i] == (if i < r {
                        gfin[i]
                    } else {
                        g0[i]
                    }),
                !blk ==> forall|q: int|
                    0 <= q < 10 ==> #[trigger] self@[r as int][q] == mid_cell(
                        g0,
                        k,
                        ox,
                        oy,
                        direction,
                        s as int,
                        r as int,
                        q,
                    ),
                !blk ==> forall|j: int|
                    0 <= j < cs0.len() ==> #[trigger] cells@[j] == (if done_record(
                        cs0,
                        direction,
                        r as int,
                        s as int,
                        j,
                    ) {
                        csfin[j]
                    } else {
                        cs0[j]
                    }),
                !blk ==> deltas_partial(cs0, direction, deltas@, r as int, s as int),
            decreases 10 - s,
        {
            let c: usize = if direction.is_left() {
                s
            } else {
                9 - s
            };
            proof {
                assert(c == sweep_col(direction, s as int));
            }
            let ghost mid_row = self@[r as int];
            if self.grid[r][c].is_controlled() {
                proof {
                    if blk && cs0.len() == 0 {
                        assert(g0[r as int][c as int] != CellState::Controlled);
                        assert(false);
                    }
                    if !blk {
                        assert(self@[r as int][c as int] == mid_cell(
                            g0,
                            k,
                            ox,
                            oy,
                            direction,
                            s as int,
                            r as int,
                            c as int,
                        ));
                        assert(!processed(direction, s as int, c - off));
                        assert(covers(k, ox, oy, r as int, c as int) && !processed(
                            direction,
                            s as int,
                            c as int,
                        ));
                    }
                }
                match find_cell(cells, r, c) {
                    Some(i) => {
                        let info = cells[i];
                        proof {
                            if !blk {
                                if done_record(cs0, direction, r as int, s as int, i as int) {
                                    assert(cells@[i as int] == csfin[i as int]);
                                    assert(csfin[i as int].col == cs0[i as int].col + off);
                                    assert(processed(
                                        direction,
                                        s as int,
                                        cs0[i as int].col as int,
                                    ) && cs0[i as int].col + off == c);
                                    assert(false);
                                }
                                assert(cells@[i as int] == cs0[i as int]);
                            }
                            assert(cells@[i as int].kind == piece_kind(cells@));
                            assert(info.kind != MinoType::Garbage);
                            assert(info.col - info.part_col == ox);
                        }
                        let (lm, rm) = info.kind.side_margin();
                        let on_edge = if direction.is_left() {
                            (c as i64) - (info.part_col as i64) + (lm as i64) == 0
                        } else {
                            (c as i64) + (3 - (info.part_col as i64)) - (rm as i64) == 9
                        };
                        proof {
                            assert(on_edge == blocked(cs0, direction));
                        }
                        if !on_edge {
                            let ghost grid_before = self.grid@;
                            proof {
                                assert(!blk);
                                lemma_row_mid_step_move(
                                    g0,
                                    k,
                                    ox,
                                    oy,
                                    direction,
                                    s as int,
                                    r as int,
                                    mid_row,
                                    c as int,
                                );
                            }
                            self.grid[r][c] = CellState::Empty;
                            let nc: usize = if direction.is_left() {
                                c - 1
                            } else {
                                c + 1
                            };
                            self.grid[r][nc] = CellState::Controlled;
                            cells[i] = MinoInfo {
                                kind: info.kind,
                                col: nc,
                                row: info.row,
                                part_col: info.part_col,
                                part_row: info.part_row,
                            };
                            let ghost ds_before = deltas@;
                            deltas.push(MoveDelta { row: r, from_col: c, to_col: nc });
                            proof {
                                assert(deltas@ == ds_before.push(
                                    delta_for(cs0, direction, i as int),
                                ));
                                assert(self.grid@ == grid_before.update(
                                    r as int,
                                    self.grid@[r as int],
                                ));
                                assert(self@.len() == 40);
                                assert forall|i2: int| 0 <= i2 < 40 && i2 != r implies self@[i2]
                                    == grid_before.map_values(|rw: Vec<CellState>| rw@)[i2] by {
                                    assert(self.grid@[i2] == grid_before[i2]);
                                }
                                assert(self@[r as int] =~= mid_row.update(
                                    c as int,
                                    CellState::Empty,
                                ).update(c as int + off, CellState::Controlled));
                                assert(csfin[i as int].col == cs0[i as int].col + off);
                                assert(cells@[i as int] == csfin[i as int]);
                                lemma_processed_step(direction, s as int);
                                assert forall|j: int|
                                    0 <= j < cs0.len() && #[trigger] done_record(
                                        cs0,
                                        direction,
                                        r as int,
                                        s as int + 1,
                                        j,
                                    ) && !done_record(cs0, direction, r as int, s as int, j)
                                    implies j == i by {
                                    assert(cs0[j].row == r && cs0[j].col == c);
                                    if j != i {
                                        assert(cs0[j].part_col == cs0[i as int].part_col && cs0[
                                            j].part_row == cs0[i as int].part_row);
                                        assert(false);
                                    }
                                }
                                lemma_deltas_partial_push(
                                    cs0,
                                    direction,
                                    ds_before,
                                    r as int,
                                    s as int,
                                    i as int,
                                );
                            }
                        }
                    },
                    None => {
                        proof {
                            if !blk {
                                let px = c - ox;
                                let py = r - oy;
                                assert(occupied(k, py, px));
                                let j = choose|j: int|
                                    0 <= j < cs0.len() && (#[trigger] cs0[j]).part_col == px
                                        && cs0[j].part_row == py;
                                assert(cs0[j].col == c && cs0[j].row == r);
                                assert(!done_record(cs0, direction, r as int, s as int, j));
                                assert(cells@[j] == cs0[j]);
                                assert(false);
                            } else {
                                assert(cells@ == cs0);
                                assert(board_piece_wf(g0, cs0));
                                assert(covers(
                                    piece_kind(cs0),
                                    origin_col(cs0),
                                    origin_row(cs0),
                                    r as int,
                                    c as int,
                                ));
                                let j = choose|j: int|
                                    0 <= j < cs0.len() && (#[trigger] cs0[j]).part_col == c
                                        - origin_col(cs0) && cs0[j].part_row == r - origin_row(
                                        cs0,
                                    );
                                assert(cs0[j].col == c && cs0[j].row == r);
                                assert(false);
                            }
                        }
                    },
                }
            } else {
                proof {
                    if !blk {
                        assert(self@[r as int][c as int] == mid_cell(
                            g0,
                            k,
                            ox,
                            oy,
                            direction,
                            s as int,
                            r as int,
                            c as int,
                        ));
                        assert(!(covers(k, ox, oy, r as int, c as int) && !processed(
                            direction,
                            s as int,
                            c as int,
                        )));
                    }
                }
            }
            proof {
                if !blk && !(covers(k, ox, oy, r as int, c as int) && !processed(
                    direction,
                    s as int,
                    c as int,
                )) {
                    // nothing moved at this step
                    lemma_row_mid_step_skip(
                        g0,
                        k,
                        ox,
                        oy,
                        direction,
                        s as int,
                        r as int,
                        self@[r as int],
                    );
                    lemma_processed_step(direction, s as int);
                    assert forall|j: int| 0 <= j < cs0.len() implies (#[trigger] done_record(
                        cs0,
                        direction,
                        r as int,
                        s as int,
                        j,
                    ) <==> done_record(cs0, direction, r as int, s as int + 1, j)) by {
                        if done_record(cs0, direction, r as int, s as int + 1, j)
                            && !done_record(cs0, direction, r as int, s as int, j) {
                            assert(cs0[j].row == r && cs0[j].col == c);
                            assert(covers(k, ox, oy, r as int, c as int));
                            assert(false);
                        }
                    }
                    lemma_deltas_partial_carry(
                        cs0,
                        direction,
                        deltas@,
                        r as int,
                        s as int,
                        r as int,
                        s as int + 1,
                    );
                }
            }
            s += 1;
        }
        proof {
            if !blk {
                assert forall|q: int| 0 <= q < 10 implies self@[r as int][q] == gfin[r as int][q]
                    by {
                    if covers(k, ox, oy, r as int, q) {
                        lemma_covers_bounds(k, ox, oy, r as int, q);
                    }
                    if covers(k, ox + off, oy, r as int, q) {
                        assert(covers(k, ox, oy, r as int, q - off));
                        lemma_covers_bounds(k, ox, oy, r as int, q - off);
                    }
                }
                assert(self@[r as int] =~= gfin[r as int]);
                assert forall|j: int| 0 <= j < cs0.len() implies (#[trigger] done_record(
                    cs0,
                    direction,
                    r as int,
                    10,
                    j,
                ) <==> done_record(cs0, direction, r as int + 1, 0, j)) by {
                    lemma_covers_bounds(k, ox, oy, cs0[j].row as int, cs0[j].col as int);
                }
                lemma_deltas_partial_carry(
                    cs0,
                    direction,
                    deltas@,
                    r as int,
                    10,
                    r as int + 1,
                    0,
                );
            }
        }
    }

    /// Moves the controlled piece one column in `direction`, mutating the
    /// grid in place, updating the cell records, and reporting each
    /// relocated cell's old and new column for the renderer.
    ///
    /// Rows are swept independently; within a row, the cell nearest the
    /// direction of travel is visited first, so that no cell is revisited
    /// after moving and no unmoved cell is clobbered. Each visited
    /// `Controlled` cell moves one column unless its true edge — its
    /// position corrected by its `part` offset and the kind's side margin —
    /// already touches the board wall.
    #[verifier::loop_isolation(false)]
    #[verifier::rlimit(100)]
    pub fn move_mino(&mut self, direction: MoveDirection, cells: &mut Vec<MinoInfo>) -> (deltas:
        Vec<MoveDelta>)
        requires
            board_wf(old(self)@, old(cells)@),
        ensures
            final(self)@ == shift_grid(old(self)@, old(cells)@, direction),
            final(cells)@ == shift_cells(old(cells)@, direction),
            board_wf(final(self)@, final(cells)@),
            final(cells)@.len() == old(cells)@.len(),
            controlled_positions(final(self)@).len() == controlled_positions(old(self)@).len(),
            old(cells)@.len() == 0 || blocked(old(cells)@, direction) ==> deltas@.len() == 0,
            old(cells)@.len() > 0 && !blocked(old(cells)@, direction) ==> deltas_report(
                old(cells)@,
                direction,
                deltas@,
            ),
    {
        let ghost g0 = self@;
        let ghost cs0 = cells@;
        let ghost k = piece_kind(cs0);
        let ghost ox = origin_col(cs0);
        let ghost oy = origin_row(cs0);
        let ghost blk = cs0.len() == 0 || blocked(cs0, direction);
        let ghost gfin = shift_grid(g0, cs0, direction);
        let ghost csfin = shift_cells(cs0, direction);
        proof {
            lemma_shift_preserves_wf(g0, cs0, direction);
        }
        let mut deltas: Vec<MoveDelta> = Vec::new();
        let mut r: usize = 0;
        while r < BOARD_ROWS
            invariant
                r <= 40,
                cells@.len() == cs0.len(),
                dims_ok(self@),
                blk ==> self@ == g0 && cells@ == cs0 && deltas@.len() == 0,
                !blk ==> forall|i: int|
                    0 <= i < 40 ==> #[trigger] self@[i] == (if i < r {
                        gfin[i]
                    } else {
                        g0[i]
                    }),
                !blk ==> forall|j: int|
                    0 <= j < cs0.len() ==> #[trigger] cells@[j] == (if cs0[j].row < r {
                        csfin[j]
                    } else {
                        cs0[j]
                    }),
                !blk ==> deltas_partial(cs0, direction, deltas@, r as int, 0),
            decreases 40 - r,
        {
            self.sweep_row(r, direction, cells, &mut deltas, Ghost(g0), Ghost(cs0));
            r += 1;
        }
        proof {
            if blk {
                assert(self@ == gfin && cells@ == csfin);
            } else {
                assert forall|i: int| 0 <= i < 40 implies self@[i] == gfin[i] by {}
                assert(self@ =~= gfin);
                assert forall|j: int| 0 <= j < cs0.len() implies cells@[j] == csfin[j] by {
                    lemma_covers_bounds(k, ox, oy, cs0[j].row as int, cs0[j].col as int);
                }
                assert(cells@ =~= csfin);
                assert forall|j: int| 0 <= j < cs0.len() implies #[trigger] done_record(
                    cs0,
                    direction,
                    40,
                    0,
                    j,
                ) by {
                    lemma_covers_bounds(k, ox, oy, cs0[j].row as int, cs0[j].col as int);
                }
                lemma_deltas_partial_to_report(cs0, direction, deltas@, 40, 0);
            }
            lemma_mass_conservation(g0, cs0, direction);
        }
        deltas
    }

    /// Returns the state of the cell at column `col`, row `row`.
    pub fn cell(&self, col: usize, row: usize) -> (r: CellState)
        requires
            dims_ok(self@),
            col < 10,
            row < 40,
        ensures
            r == self@[row as int][col as int],
    {
        self.grid[row][col]
    }

    /// Checks at run time that the grid and the cell records describe a
    /// well-formed board, so that an unverified caller can guard a call
    /// into the movement engine. A `true` answer establishes
    /// `board_wf`; the check errs on the side of refusal.
    #[verifier::loop_isolation(false)]
    #[verifier::rlimit(100)]
    pub fn is_well_formed(&self, cells: &Vec<MinoInfo>) -> (r: bool)
        ensures
            r ==> board_wf(self@, cells@),
    {
        if self.grid.len() != 40 {
            return false;
        }
        let mut r: usize = 0;
        while r < 40
            invariant
                r <= 40,
                forall|i: int| 0 <= i < r ==> (#[trigger] self@[i]).len() == 10,
            decreases 40 - r,
        {
            if self.grid[r].len() != 10 {
                return false;
            }
            r += 1;
        }
        if cells.len() == 0 {
            let mut r: usize = 0;
            while r < 40
                invariant
                    r <= 40,
                    forall|i: int, c: int|
                        0 <= i < r && 0 <= c < 10 ==> (#[trigger] self@[i][c])
                            != CellState::Controlled,
                decreases 40 - r,
            {
                let mut c: usize = 0;
                while c < 10
                    invariant
                        c <= 10,
                        r < 40,
                        forall|q: int|
                            0 <= q < c ==> (#[trigger] self@[r as int][q]) != CellState::Controlled,
                    decreases 10 - c,
                {
                    if self.grid[r][c].is_controlled() {
                        return false;
                    }
                    c += 1;
                }
                r += 1;
            }
            return true;
        }
        let c0 = cells[0];
        if matches!(c0.kind, MinoType::Garbage) {
            return false;
        }
        let kind = c0.kind;
        if c0.part_col > 3 || c0.part_row > 1 || c0.col > 9 || c0.row > 39 {
            return false;
        }
        let ox: i64 = (c0.col as i64) - (c0.part_col as i64);
        let oy: i64 = (c0.row as i64) - (c0.part_row as i64);
        let (lm, rm) = kind.side_margin();
        if oy < 0 || oy + 1 >= 40 || ox + (lm as i64) < 0 || ox + 3 - (rm as i64) > 9 {
            return false;
        }
        let mut i: usize = 0;
        while i < cells.len()
            invariant
                i <= cells@.len(),
                forall|q: int|
                    0 <= q < i ==> {
                        let ci = #[trigger] cells@[q];
                        &&& ci.kind == kind
                        &&& occupied(kind, ci.part_row as int, ci.part_col as int)
                        &&& ci.col == ox + ci.part_col
                        &&& ci.row == oy + ci.part_row
                    },
            decreases cells@.len() - i,
        {
            let ci = cells[i];
            if ci.kind != kind {
                return false;
            }
            if ci.part_col > 3 || ci.part_row > 1 || ci.col > 9 || ci.row > 39 {
                return false;
            }
            if !kind.occupied_at(ci.part_row as i64, ci.part_col as i64) {
                return false;
            }
            if (ci.col as i64) != ox + (ci.part_col as i64) || (ci.row as i64) != oy + (
            ci.part_row as i64) {
                return false;
            }
            i += 1;
        }
        let mut i: usize = 0;
        while i < cells.len()
            invariant
                i <= cells@.len(),
                forall|a: int, b: int|
                    0 <= a < b < cells@.len() && a < i ==> ((#[trigger] cells@[a]).part_col != (
                    #[trigger] cells@[b]).part_col || cells@[a].part_row != cells@[b].part_row),
            decreases cells@.len() - i,
        {
            let mut j: usize = i + 1;
            while j < cells.len()
                invariant
                    i < j <= cells@.len(),
                    forall|b: int|
                        i < b < j ==> ((#[trigger] cells@[b]).part_col != cells@[i as int].part_col
                            || cells@[b].part_row != cells@[i as int].part_row),
                decreases cells@.len() - j,
            {
                if cells[j].part_col == cells[i].part_col && cells[j].part_row == cells[i].part_row {
                    return false;
                }
                j += 1;
            }
            i += 1;
        }
        let mut px: usize = 0;
        while px < 4
            invariant
                px <= 4,
                forall|a: int, b: int|
                    #[trigger] occupied(kind, b, a) && a < px ==> exists|q: int|
                        0 <= q < cells@.len() && (#[trigger] cells@[q]).part_col == a && cells@[
                            q].part_row == b,
            decreases 4 - px,
        {
            let mut py: usize = 0;
            while py < 2
                invariant
                    px < 4,
                    py <= 2,
                    forall|a: int, b: int|
                        #[trigger] occupied(kind, b, a) && (a < px || (a == px && b < py))
                            ==> exists|q: int|
                            0 <= q < cells@.len() && (#[trigger] cells@[q]).part_col == a && cells@[
                                q].part_row == b,
                decreases 2 - py,
            {
                if kind.occupied_at(py as i64, px as i64) {
                    match find_part(cells, px, py) {
                        Some(_) => {},
                        None => {
                            return false;
                        },
                    }
                }
                py += 1;
            }
            px += 1;
        }
        let mut r: usize = 0;
        while r < 40
            invariant
                r <= 40,
                forall|a: int, b: int|
                    0 <= a < r && 0 <= b < 10 ==> ((#[trigger] self@[a][b]) == CellState::Controlled
                        <==> covers(kind, ox as int, oy as int, a, b)),
            decreases 40 - r,
        {
            let mut c: usize = 0;
            while c < 10
                invariant
                    r < 40,
                    c <= 10,
                    forall|b: int|
                        0 <= b < c ==> ((#[trigger] self@[r as int][b]) == CellState::Controlled
                            <==> covers(kind, ox as int, oy as int, r as int, b)),
                decreases 10 - c,
            {
                let cov = kind.occupied_at((r as i64) - oy, (c as i64) - ox);
                if self.grid[r][c].is_controlled() != cov {
                    return false;
                }
                c += 1;
            }
            r += 1;
        }
        proof {
            assert(piece_kind(cells@) == kind);
            assert(origin_col(cells@) == ox as int);
            assert(origin_row(cells@) == oy as int);
            assert(board_piece_wf(self@, cells@));
        }
        true
    }

    /// Renders the full board grid as text, one line per row: each cell as
    /// ` .` (empty), `{}` (controlled) or `[]` (placed), the visible stack
    /// area framed with `!`, a boundary line after row 19 and a bottom line
    /// after row 39. A diagnostic affordance, not a stable format.
    #[verifier::loop_isolation(false)]
    #[verifier::rlimit(100)]
    pub fn dump(&self) -> (s: String)
        requires
            dims_ok(self@),
        ensures
            s@ == board_text(self@),
    {
        let ghost g = self@;
        let mut v: Vec<char> = Vec::new();
        let mut r: usize = 0;
        while r < BOARD_ROWS
            invariant
                r <= 40,
                v@ + board_text_from(g, r as int) == board_text(g),
            decreases 40 - r,
        {
            let ghost row = g[r as int];
            let ghost tail = board_text_from(g, r as int + 1);
            proof {
                assert(board_text_from(g, r as int) == row_text(row, r as int) + tail);
            }
            let fc: char = if 19 < r {
                '!'
            } else {
                ' '
            };
            v.push(fc);
            let mut c: usize = 0;
            while c < BOARD_COLS
                invariant
                    c <= 10,
                    v@ + row_cells_text(row, c as int) + seq![fc, '\n'] + row_sep(r as int) + tail
                        == board_text(g),
                decreases 10 - c,
            {
                proof {
                    assert(row_cells_text(row, c as int) == cell_chars(row[c as int])
                        + row_cells_text(row, c as int + 1));
                    assert(self@[r as int][c as int] == row[c as int]);
                }
                let ghost before = v@;
                match self.grid[r][c] {
                    CellState::Empty => {
                        v.push(' ');
                        v.push('.');
                    },
                    CellState::Controlled => {
                        v.push('{');
                        v.push('}');
                    },
                    CellState::Placed => {
                        v.push('[');
                        v.push(']');
                    },
                }
                proof {
                    assert(v@ =~= before + cell_chars(row[c as int]));
                    assert(v@ + row_cells_text(row, c as int + 1) + seq![fc, '\n'] + row_sep(
                        r as int,
                    ) + tail =~= board_text(g));
                }
                c += 1;
            }
            v.push(fc);
            v.push('\n');
            if r == 19 {
                v.push('!');
                push_repeat(&mut v, '-', 20);
                v.push('!');
                v.push('\n');
            } else if r == 39 {
                push_repeat(&mut v, '=', 22);
                v.push('\n');
            }
            proof {
                assert(v@ + tail =~= board_text(g));
            }
            r += 1;
        }
        proof {
            assert(v@ =~= board_text(g));
        }
        chars_to_string(v)
    }
}

} // verus!
