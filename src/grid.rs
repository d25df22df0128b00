use vstd::prelude::*;
use crate::piece::{Piece, Rgba, Shape};

verus! {

/// Number of rows of the playing grid; row 0 is the top.
pub const ROWS: usize = 24;

/// Number of columns of the playing grid.
pub const COLS: usize = 10;

/// One grid cell: empty, or holding a locked block of some color.
#[derive(Clone, Copy, Debug, PartialEq, Eq, Structural)]
pub enum Cell {
    Empty,
    Locked(Rgba),
}

/// One row of the grid.
pub type Row = [Cell; 10];

/// The playing grid, indexed `[row][column]`.
#[derive(Clone, Copy, Debug)]
pub struct Grid {
    pub cells: [Row; 24],
}

/// Whether absolute position `(ar, ac)` is closed to a piece cell: outside the
/// side walls, below the floor, or (for rows at or below the top) locked.
/// Rows above the top are open.
pub open spec fn blocked(g: Grid, ar: int, ac: int) -> bool {
    ac < 0 || ac >= COLS || ar >= ROWS || (ar >= 0 && g.cells[ar][ac] is Locked)
}

/// Whether the pattern `s` with its top-left corner at `(row, col)` has an
/// occupied cell on a blocked position.
pub open spec fn collides_at(g: Grid, s: Shape, row: int, col: int) -> bool {
    exists|r: int, c: int|
        0 <= r < 4 && 0 <= c < 4 && #[trigger] s[r][c] && blocked(g, row + r, col + c)
}

/// Whether the pattern `s` placed at `(row, col)` has an occupied cell on grid
/// position `(gr, gc)`.
pub open spec fn covers(s: Shape, row: int, col: int, gr: int, gc: int) -> bool {
    0 <= gr - row < 4 && 0 <= gc - col < 4 && s[gr - row][gc - col]
}

/// `g1` is `g0` with the occupied cells of `p` at `(row, col)` written into it
/// its color; cells off the grid are skipped.
pub open spec fn is_locked_into(g0: Grid, p: Piece, row: int, col: int, g1: Grid) -> bool {
    forall|gr: int, gc: int|
        0 <= gr < ROWS && 0 <= gc < COLS ==> #[trigger] g1.cells[gr][gc] == if covers(
            p.shape,
            row,
            col,
            gr,
            gc,
        ) {
            Cell::Locked(p.color)
        } else {
            g0.cells[gr][gc]
        }
}

/// The occupied cells `(r, c)` of a pattern.
pub open spec fn shape_cells(s: Shape) -> Set<(int, int)> {
    Set::new(|rc: (int, int)| 0 <= rc.0 < 4 && 0 <= rc.1 < 4 && s[rc.0][rc.1])
}

/// The grid positions that are empty in `g0` and locked in `g1`.
pub open spec fn newly_locked(g0: Grid, g1: Grid) -> Set<(int, int)> {
    Set::new(
        |rc: (int, int)|
            0 <= rc.0 < ROWS && 0 <= rc.1 < COLS && g0.cells[rc.0][rc.1] == Cell::Empty
                && g1.cells[rc.0][rc.1] is Locked,
    )
}

/// Every cell of the row is locked.
pub open spec fn row_full(row: Row) -> bool {
    forall|c: int| 0 <= c < COLS ==> #[trigger] row[c] is Locked
}

/// Every cell of the row is empty.
pub open spec fn row_empty(row: Row) -> bool {
    forall|c: int| 0 <= c < COLS ==> #[trigger] row[c] == Cell::Empty
}

/// A row of empty cells.
pub open spec fn empty_row() -> Row {
    vstd::array::spec_array_fill_for_copy_type::<Cell, 10>(Cell::Empty)
}

/// The rows with row `i` taken out: the rows above it move one down and an
/// empty row comes in at the top.
pub open spec fn remove_row(rows: Seq<Row>, i: int) -> Seq<Row> {
    Seq::new(
        rows.len(),
        |k: int|
            if k == 0 {
                empty_row()
            } else if k <= i {
                rows[k - 1]
            } else {
                rows[k]
            },
    )
}

/// The compaction pass over rows `n - 1` down to `0`: a full row at the scan
/// position is removed (see `remove_row`) and the scan moves on to the next
/// index up. Gives the resulting rows and how many were removed.
pub open spec fn compact_scan(rows: Seq<Row>, n: int) -> (Seq<Row>, nat)
    decreases n,
{
    if n <= 0 {
        (rows, 0)
    } else if row_full(rows[n - 1]) {
        let (g, k) = compact_scan(remove_row(rows, n - 1), n - 1);
        (g, k + 1)
    } else {
        compact_scan(rows, n - 1)
    }
}

/// Whether some cell of the top row is locked.
pub open spec fn top_row_taken(g: Grid) -> bool {
    exists|c: int| 0 <= c < COLS && #[trigger] g.cells[0][c] is Locked
}

impl Grid {
    /// The grid with every cell empty.
    pub fn new() -> (g: Grid)
        ensures
            forall|r: int, c: int| 0 <= r < ROWS && 0 <= c < COLS ==> #[trigger] g.cells[r][c] == Cell::Empty,
    {
        Grid { cells: [[Cell::Empty; 10]; 24] }
    }
}

/// Whether `piece` with its top-left corner at `(row, col)` hits a side wall,
/// the floor or a locked cell.
pub fn collides(grid: &Grid, piece: &Piece, row: i32, col: i32) -> (r: bool)
    ensures
        r == collides_at(*grid, piece.shape, row as int, col as int),
{
    let s = piece.shape;
    for r in 0..4
        invariant
            s == piece.shape,
            forall|i: int, j: int|
                0 <= i < r && 0 <= j < 4 && #[trigger] s[i][j] ==> !blocked(*grid, row + i, col + j),
    {
        for c in 0..4
            invariant
                0 <= r < 4,
                s == piece.shape,
                forall|i: int, j: int|
                    0 <= i < r && 0 <= j < 4 && #[trigger] s[i][j] ==> !blocked(*grid, row + i, col + j),
                forall|j: int|
                    0 <= j < c && #[trigger] s[r as int][j] ==> !blocked(*grid, row + r, col + j),
        {
            if s[r][c] {
                let ar: i64 = row as i64 + r as i64;
                let ac: i64 = col as i64 + c as i64;
                if ac < 0 || ac >= COLS as i64 || ar >= ROWS as i64 {
                    assert(s[r as int][c as int] && blocked(*grid, row + r, col + c));
                    return true;
                }
                if ar >= 0 {
                    if let Cell::Locked(_) = grid.cells[ar as usize][ac as usize] {
                        assert(s[r as int][c as int] && blocked(*grid, row + r, col + c));
                        return true;
                    }
                }
            }
        }
    }
    false
}

/// Writes the color of `piece` into every grid cell that one of its occupied
/// cells covers at `(row, col)`; occupied cells off the grid are skipped.
pub fn lock_piece(grid: &mut Grid, piece: &Piece, row: i32, col: i32)
    ensures
        is_locked_into(*old(grid), *piece, row as int, col as int, *final(grid)),
{
    let ghost g0 = *grid;
    let s = piece.shape;
    for r in 0..4
        invariant
            s == piece.shape,
            forall|gr: int, gc: int|
                0 <= gr < ROWS && 0 <= gc < COLS ==> #[trigger] grid.cells[gr][gc] == if covers(
                    s,
                    row as int,
                    col as int,
                    gr,
                    gc,
                ) && gr - row < r {
                    Cell::Locked(piece.color)
                } else {
                    g0.cells[gr][gc]
                },
    {
        for c in 0..4
            invariant
                0 <= r < 4,
                s == piece.shape,
                forall|gr: int, gc: int|
                    0 <= gr < ROWS && 0 <= gc < COLS ==> #[trigger] grid.cells[gr][gc] == if covers(
                        s,
                        row as int,
                        col as int,
                        gr,
                        gc,
                    ) && (gr - row < r || (gr - row == r && gc - col < c)) {
                        Cell::Locked(piece.color)
                    } else {
                        g0.cells[gr][gc]
                    },
        {
            if s[r][c] {
                let ar: i64 = row as i64 + r as i64;
                let ac: i64 = col as i64 + c as i64;
                if ar >= 0 && ar < ROWS as i64 && ac >= 0 && ac < COLS as i64 {
                    grid.cells[ar as usize][ac as usize] = Cell::Locked(piece.color);
                }
            }
        }
    }
}

/// A placed occupied cell is blocked by any side wall or the floor, whatever
/// the grid holds.
pub proof fn lemma_out_of_bounds_collides(g: Grid, s: Shape, row: int, col: int, r: int, c: int)
    requires
        0 <= r < 4,
        0 <= c < 4,
        s[r][c],
        col + c < 0 || col + c >= COLS || row + r >= ROWS,
    ensures
        collides_at(g, s, row, col),
{
    assert(s[r][c] && blocked(g, row + r, col + c));
}

/// The occupied cells of a pattern are finite: they lie among its sixteen
/// positions.
proof fn lemma_shape_cells_finite(s: Shape)
    ensures
        shape_cells(s).finite(),
{
    let all = Seq::new(16, |k: int| (k / 4, k % 4));
    assert forall|rc: (int, int)| shape_cells(s).contains(rc) implies all.to_set().contains(rc) by {
        let k = rc.0 * 4 + rc.1;
        assert(all[k] == rc);
    }
    vstd::seq_lib::seq_to_set_is_finite(all);
    vstd::set_lib::lemma_len_subset(shape_cells(s), all.to_set());
}

/// Locking a piece at a free position with its top row on the grid makes
/// exactly its occupied cells, moved to that position, newly locked: as many
/// cells as the piece occupies, each in the piece's color.
pub proof fn lemma_lock_writes_piece_cells(g0: Grid, p: Piece, row: int, col: int, g1: Grid)
    requires
        is_locked_into(g0, p, row, col, g1),
        !collides_at(g0, p.shape, row, col),
        row >= 0,
    ensures
        newly_locked(g0, g1) == shape_cells(p.shape).map(|rc: (int, int)| (rc.0 + row, rc.1 + col)),
        newly_locked(g0, g1).finite(),
        newly_locked(g0, g1).len() == shape_cells(p.shape).len(),
        forall|rc: (int, int)|
            #[trigger] newly_locked(g0, g1).contains(rc) ==> g1.cells[rc.0][rc.1] == Cell::Locked(
                p.color,
            ),
{
    let f = |rc: (int, int)| (rc.0 + row, rc.1 + col);
    let placed = shape_cells(p.shape).map(f);
    assert forall|rc: (int, int)| newly_locked(g0, g1).contains(rc) implies placed.contains(rc) by {
        assert(covers(p.shape, row, col, rc.0, rc.1));
        assert(shape_cells(p.shape).contains((rc.0 - row, rc.1 - col)));
        assert(f((rc.0 - row, rc.1 - col)) == rc);
    }
    assert forall|rc: (int, int)| placed.contains(rc) implies newly_locked(g0, g1).contains(rc) by {
        let q = choose|q: (int, int)| shape_cells(p.shape).contains(q) && f(q) == rc;
        assert(p.shape[q.0][q.1]);
        assert(!blocked(g0, row + q.0, col + q.1));
        assert(covers(p.shape, row, col, rc.0, rc.1));
    }
    assert(newly_locked(g0, g1) =~= placed);
    lemma_shape_cells_finite(p.shape);
    vstd::set_lib::lemma_map_size(shape_cells(p.shape), placed, f);
}

/// Whether `(gr, gc)` is a position at or below the top and right of the
/// left edge that the pattern `s` at `(row, col)` occupies: a cell to draw.
pub open spec fn visible(s: Shape, row: int, col: int, gr: int, gc: int) -> bool {
    gr >= 0 && gc >= 0 && covers(s, row, col, gr, gc)
}

/// The positions, each once, that `piece` at `(row, col)` occupies at or below
/// the top row and right of the left edge, in row-major order of the pattern.
pub fn visible_cells(piece: &Piece, row: i32, col: i32) -> (v: Vec<(i64, i64)>)
    ensures
        v@.no_duplicates(),
        forall|k: int|
            0 <= k < v.len() ==> visible(piece.shape, row as int, col as int, #[trigger] v@[k].0 as int, v@[k].1 as int),
        forall|gr: int, gc: int|
            visible(piece.shape, row as int, col as int, gr, gc) ==> exists|k: int|
                0 <= k < v.len() && #[trigger] v@[k] == (gr as i64, gc as i64),
{
    let s = piece.shape;
    let mut v: Vec<(i64, i64)> = Vec::new();
    for r in 0..4
        invariant
            s == piece.shape,
            v@.no_duplicates(),
            forall|k: int|
                0 <= k < v.len() ==> visible(s, row as int, col as int, #[trigger] v@[k].0 as int, v@[k].1 as int)
                    && v@[k].0 - row < r,
            forall|gr: int, gc: int|
                visible(s, row as int, col as int, gr, gc) && gr - row < r ==> exists|k: int|
                    0 <= k < v.len() && #[trigger] v@[k] == (gr as i64, gc as i64),
    {
        for c in 0..4
            invariant
                0 <= r < 4,
                s == piece.shape,
                v@.no_duplicates(),
                forall|k: int|
                    0 <= k < v.len() ==> visible(s, row as int, col as int, #[trigger] v@[k].0 as int, v@[k].1 as int)
                        && (v@[k].0 - row < r || (v@[k].0 - row == r && v@[k].1 - col < c)),
                forall|gr: int, gc: int|
                    visible(s, row as int, col as int, gr, gc) && (gr - row < r || (gr - row == r && gc - col < c))
                        ==> exists|k: int| 0 <= k < v.len() && #[trigger] v@[k] == (gr as i64, gc as i64),
        {
            let ar: i64 = row as i64 + r as i64;
            let ac: i64 = col as i64 + c as i64;
            if s[r][c] && ar >= 0 && ac >= 0 {
                let ghost before = v@;
                assert forall|k: int| 0 <= k < before.len() implies #[trigger] before[k] != (ar, ac) by {
                    assert(visible(s, row as int, col as int, v@[k].0 as int, v@[k].1 as int));
                }
                v.push((ar, ac));
                proof {
                    assert forall|i: int, j: int| 0 <= i < v.len() && 0 <= j < v.len() && i != j implies v@[i]
                        != v@[j] by {
                        if i < before.len() && j < before.len() {
                            assert(v@[i] == before[i] && v@[j] == before[j]);
                        } else if i < before.len() {
                            assert(v@[i] == before[i]);
                        } else {
                            assert(v@[j] == before[j]);
                        }
                    }
                    assert forall|gr: int, gc: int|
                        visible(s, row as int, col as int, gr, gc) && (gr - row < r || (gr - row == r && gc - col < c + 1))
                            implies exists|k: int| 0 <= k < v.len() && #[trigger] v@[k] == (gr as i64, gc as i64) by {
                        if gr - row == r && gc - col == c {
                            assert(v@[before.len() as int] == (gr as i64, gc as i64));
                        } else {
                            let k = choose|k: int| 0 <= k < before.len() && #[trigger] before[k] == (gr as i64, gc as i64);
                            assert(v@[k] == before[k]);
                        }
                    }
                }
            }
        }
    }
    v
}

/// A pass over rows none of which is full removes nothing.
proof fn lemma_scan_without_full_rows(rows: Seq<Row>, n: int)
    requires
        n <= rows.len(),
        forall|i: int| 0 <= i < n ==> !row_full(#[trigger] rows[i]),
    ensures
        compact_scan(rows, n) == (rows, 0nat),
    decreases n,
{
    if n > 0 {
        lemma_scan_without_full_rows(rows, n - 1);
    }
}

/// A grid whose bottom row is full and whose other rows are empty compacts to
/// an empty grid, with one row removed.
pub proof fn lemma_clear_single_bottom_row(rows: Seq<Row>)
    requires
        rows.len() == ROWS,
        row_full(rows[ROWS - 1]),
        forall|i: int| 0 <= i < ROWS - 1 ==> row_empty(#[trigger] rows[i]),
    ensures
        compact_scan(rows, ROWS as int).1 == 1,
        forall|i: int| 0 <= i < ROWS ==> row_empty(#[trigger] compact_scan(rows, ROWS as int).0[i]),
{
    let after = remove_row(rows, ROWS - 1);
    assert forall|i: int| 0 <= i < ROWS implies row_empty(#[trigger] after[i]) by {
        if i == 0 {
            assert forall|c: int| 0 <= c < COLS implies #[trigger] after[0][c] == Cell::Empty by {
                assert(empty_row()[c] == Cell::Empty);
            }
        } else {
            assert(after[i] == rows[i - 1]);
        }
    }
    assert forall|i: int| 0 <= i < ROWS - 1 implies !row_full(#[trigger] after[i]) by {
        assert(row_empty(after[i]));
        assert(after[i][0] == Cell::Empty);
    }
    lemma_scan_without_full_rows(after, ROWS - 1);
}

/// Whether the game is over: some cell of the top row is locked.
pub fn is_game_over(grid: &Grid) -> (r: bool)
    ensures
        r == top_row_taken(*grid),
{
    for c in 0..COLS
        invariant
            forall|j: int| 0 <= j < c ==> !(#[trigger] grid.cells[0][j] is Locked),
    {
        if let Cell::Locked(_) = grid.cells[0][c] {
            return true;
        }
    }
    false
}

/// Whether every cell of `row` is locked.
fn row_is_full(row: &Row) -> (r: bool)
    ensures
        r == row_full(*row),
{
    for c in 0..COLS
        invariant
            forall|j: int| 0 <= j < c ==> #[trigger] row[j] is Locked,
    {
        if let Cell::Empty = row[c] {
            return false;
        }
    }
    true
}

/// Removes full rows in one pass from the bottom row up, moving the rows above
/// each removed row down by one and emptying the top row. A row that becomes
/// full only by such a move, below the scan position, is not looked at again.
/// Returns how many rows were removed.
pub fn clear_and_compact(grid: &mut Grid) -> (n: u32)
    ensures
        final(grid).cells@ == compact_scan(old(grid).cells@, ROWS as int).0,
        n == compact_scan(old(grid).cells@, ROWS as int).1,
{
    let ghost g0 = grid.cells@;
    let mut cleared: u32 = 0;
    let mut i: usize = ROWS;
    while i > 0
        invariant
            0 <= i <= ROWS,
            grid.cells@.len() == ROWS,
            cleared <= ROWS - i,
            compact_scan(grid.cells@, i as int).0 == compact_scan(g0, ROWS as int).0,
            compact_scan(grid.cells@, i as int).1 + cleared == compact_scan(g0, ROWS as int).1,
        decreases i,
    {
        let r = i - 1;
        if row_is_full(&grid.cells[r]) {
            let ghost before = grid.cells@;
            let mut k: usize = r;
            while k > 0
                invariant
                    0 <= k <= r < ROWS,
                    grid.cells@.len() == ROWS,
                    forall|m: int|
                        0 <= m < ROWS ==> #[trigger] grid.cells@[m] == if m > r || m <= k {
                            before[m]
                        } else {
                            before[m - 1]
                        },
                decreases k,
            {
                grid.cells[k] = grid.cells[k - 1];
                k = k - 1;
            }
            grid.cells[0] = [Cell::Empty; 10];
            assert(grid.cells[0] =~= empty_row());
            assert(grid.cells@ =~= remove_row(before, r as int));
            cleared = cleared + 1;
        }
        i = r;
    }
    cleared
}

} // verus!
