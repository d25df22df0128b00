use vstd::prelude::*;
use crate::grid::{
    blocked, clear_and_compact, collides, collides_at, compact_scan, is_game_over, is_locked_into,
    lock_piece, top_row_taken, Cell, Grid, COLS, ROWS,
};
use crate::piece::{PieceKind, has_cell, is_rotation, kind_cell, kind_at, lemma_rotation_unique, random_piece, Piece, Shape};

verus! {

/// Row at which a new active piece's pattern starts.
pub const SPAWN_ROW: i32 = 0;

/// Column at which a new active piece's pattern starts.
pub const SPAWN_COL: i32 = 3;

/// A player command for one frame.
#[derive(Clone, Copy, Debug, PartialEq, Eq, Structural)]
pub enum Command {
    Left,
    Right,
    Down,
    Up,
}

/// The whole state of a game in play.
#[derive(Clone, Copy, Debug)]
pub struct GameState {
    pub game_over: bool,
    pub grid: Grid,
    pub points: u32,
    pub active_piece: Piece,
    pub next_piece: Piece,
    pub active_row: i32,
    pub active_col: i32,
}

/// The horizontal offsets tried, in order, when a rotated piece collides.
pub open spec fn kick_offsets() -> Seq<int> {
    seq![0, 1, -1, 2, -2]
}

/// The first offset from position `i` of `kick_offsets` on that the pattern
/// `s` at `(row, col + offset)` does not collide, if any.
pub open spec fn first_free_kick(g: Grid, s: Shape, row: int, col: int, i: int) -> Option<int>
    decreases 5 - i,
{
    if i < 0 || i >= 5 {
        None
    } else if !collides_at(g, s, row, col + kick_offsets()[i]) {
        Some(kick_offsets()[i])
    } else {
        first_free_kick(g, s, row, col, i + 1)
    }
}

/// The score after a lock that removed `cleared` rows: ten per row plus one,
/// held at the largest value a `u32` takes.
pub open spec fn score_after(points: int, cleared: int) -> int {
    let p = points + cleared * 10 + 1;
    if p > u32::MAX {
        u32::MAX as int
    } else {
        p
    }
}

/// `s1` follows `s0` by one lock cycle: the active piece is written into the
/// grid at its position, full rows are removed, the score and the game-over
/// flag are updated, the next piece becomes active at the spawn position and
/// `fresh` becomes the next piece.
pub open spec fn lock_cycle(s0: GameState, s1: GameState, fresh: Piece) -> bool {
    &&& exists|g1: Grid|
        {
            &&& is_locked_into(s0.grid, s0.active_piece, s0.active_row as int, s0.active_col as int, g1)
            &&& s1.grid.cells@ == compact_scan(g1.cells@, ROWS as int).0
            &&& s1.points == score_after(s0.points as int, compact_scan(g1.cells@, ROWS as int).1 as int)
        }
    &&& s1.game_over == top_row_taken(s1.grid)
    &&& s1.active_piece == s0.next_piece
    &&& s1.next_piece == fresh
    &&& s1.active_row == SPAWN_ROW
    &&& s1.active_col == SPAWN_COL
}

/// `s1` follows `s0` by a rotation attempt: the active pattern is turned a
/// quarter and moved by the first offset of `kick_offsets` at which it is
/// free; where none is, pattern and column stay. Nothing else changes.
pub open spec fn rotation_outcome(s0: GameState, s1: GameState) -> bool {
    &&& s1.active_piece.kind == s0.active_piece.kind
    &&& s1.active_piece.color == s0.active_piece.color
    &&& forall|t: Shape|
        is_rotation(s0.active_piece.shape, t) ==> match #[trigger] first_free_kick(
            s0.grid,
            t,
            s0.active_row as int,
            s0.active_col as int,
            0,
        ) {
            Some(k) => s1.active_piece.shape == t && s1.active_col == s0.active_col + k,
            None => s1.active_piece.shape == s0.active_piece.shape && s1.active_col
                == s0.active_col,
        }
    &&& s1.game_over == s0.game_over
    &&& s1.grid == s0.grid
    &&& s1.points == s0.points
    &&& s1.next_piece == s0.next_piece
    &&& s1.active_row == s0.active_row
}

/// `s1` follows `s0` by the command `cmd`: a move left, right or down is
/// made when the moved piece does not collide, and is dropped otherwise; `Up`
/// is a rotation attempt (see `rotation_outcome`).
pub open spec fn command_outcome(s0: GameState, s1: GameState, cmd: Command) -> bool {
    let g = s0.grid;
    let s = s0.active_piece.shape;
    let row = s0.active_row as int;
    let col = s0.active_col as int;
    match cmd {
        Command::Left => s1 == if !collides_at(g, s, row, col - 1) {
            GameState { active_col: (col - 1) as i32, ..s0 }
        } else {
            s0
        },
        Command::Right => s1 == if !collides_at(g, s, row, col + 1) {
            GameState { active_col: (col + 1) as i32, ..s0 }
        } else {
            s0
        },
        Command::Down => s1 == if !collides_at(g, s, row + 1, col) {
            GameState { active_row: (row + 1) as i32, ..s0 }
        } else {
            s0
        },
        Command::Up => rotation_outcome(s0, s1),
    }
}

/// An offset that `first_free_kick` picks is one of the table's and leaves the
/// pattern free.
proof fn lemma_first_free_kick(g: Grid, s: Shape, row: int, col: int, i: int)
    requires
        first_free_kick(g, s, row, col, i) is Some,
    ensures
        -2 <= first_free_kick(g, s, row, col, i)->0 <= 2,
        !collides_at(g, s, row, col + first_free_kick(g, s, row, col, i)->0),
    decreases 5 - i,
{
    if 0 <= i < 5 && collides_at(g, s, row, col + kick_offsets()[i]) {
        lemma_first_free_kick(g, s, row, col, i + 1);
    }
}

/// A pattern with an occupied cell that sits free at `(row, col)` lies within
/// the side walls and above the floor.
proof fn lemma_free_position(g: Grid, s: Shape, row: int, col: int)
    requires
        has_cell(s),
        !collides_at(g, s, row, col),
    ensures
        -3 <= col <= COLS - 1,
        row <= ROWS - 1,
{
    let (r, c) = choose|r: int, c: int| 0 <= r < 4 && 0 <= c < 4 && #[trigger] s[r][c];
    assert(!blocked(g, row + r, col + c));
}

/// The column at which `piece` first sits free at `row`, trying `col` moved
/// by each offset of `kick_offsets` in order; `None` where all collide.
fn free_kick_column(grid: &Grid, piece: &Piece, row: i32, col: i32) -> (r: Option<i32>)
    requires
        -3 <= col <= COLS - 1,
    ensures
        r == match first_free_kick(*grid, piece.shape, row as int, col as int, 0) {
            Some(k) => Some((col + k) as i32),
            None => None,
        },
{
    let kicks: [i32; 5] = [0, 1, -1, 2, -2];
    assert(kicks@ =~= kick_offsets().map_values(|k: int| k as i32));
    let mut i: usize = 0;
    while i < 5
        invariant
            0 <= i <= 5,
            -3 <= col <= COLS - 1,
            kicks@ == kick_offsets().map_values(|k: int| k as i32),
            first_free_kick(*grid, piece.shape, row as int, col as int, 0)
                == first_free_kick(*grid, piece.shape, row as int, col as int, i as int),
        decreases 5 - i,
    {
        let new_col = col + kicks[i];
        assert(kick_offsets()[i as int] == kicks[i as int] as int);
        if !collides(grid, piece, row, new_col) {
            return Some(new_col);
        }
        i = i + 1;
    }
    None
}

/// On an empty grid a piece of any kind, as first created, sits free at the
/// spawn position.
pub proof fn lemma_spawn_free(g: Grid, p: Piece, kind: PieceKind)
    requires
        forall|r: int, c: int| 0 <= r < ROWS && 0 <= c < COLS ==> #[trigger] g.cells[r][c] == Cell::Empty,
        p.is_fresh(kind),
    ensures
        !collides_at(g, p.shape, SPAWN_ROW as int, SPAWN_COL as int),
{
    assert forall|r: int, c: int| 0 <= r < 4 && 0 <= c < 4 && #[trigger] p.shape[r][c] implies !blocked(
        g,
        SPAWN_ROW + r,
        SPAWN_COL + c,
    ) by {
        assert(kind_cell(kind, r, c));
    }
}

/// Two grids that both result from writing the same piece into `g0` at the
/// same position hold the same rows.
proof fn lemma_locked_into_unique(g0: Grid, p: Piece, row: int, col: int, g1: Grid, g2: Grid)
    requires
        is_locked_into(g0, p, row, col, g1),
        is_locked_into(g0, p, row, col, g2),
    ensures
        g1.cells@ == g2.cells@,
{
    assert forall|r: int| 0 <= r < ROWS implies g1.cells[r] == g2.cells[r] by {
        assert forall|c: int| 0 <= c < COLS implies g1.cells[r][c] == g2.cells[r][c] by {}
        assert(g1.cells[r] =~= g2.cells[r]);
    }
    assert(g1.cells =~= g2.cells);
}

/// A lock cycle in which writing the active piece into the grid and compacting
/// removes `n` rows adds exactly `n * 10 + 1` points, as long as the sum fits
/// the score.
pub proof fn lemma_lock_score(s0: GameState, s1: GameState, fresh: Piece, g1: Grid)
    requires
        lock_cycle(s0, s1, fresh),
        is_locked_into(s0.grid, s0.active_piece, s0.active_row as int, s0.active_col as int, g1),
        s0.points + compact_scan(g1.cells@, ROWS as int).1 * 10 + 1 <= u32::MAX,
    ensures
        s1.points == s0.points + compact_scan(g1.cells@, ROWS as int).1 * 10 + 1,
        compact_scan(g1.cells@, ROWS as int).1 == 0 ==> s1.points == s0.points + 1,
        compact_scan(g1.cells@, ROWS as int).1 == 2 ==> s1.points == s0.points + 21,
{
    let w = choose|w: Grid|
        {
            &&& is_locked_into(s0.grid, s0.active_piece, s0.active_row as int, s0.active_col as int, w)
            &&& s1.grid.cells@ == compact_scan(w.cells@, ROWS as int).0
            &&& s1.points == score_after(s0.points as int, compact_scan(w.cells@, ROWS as int).1 as int)
        };
    lemma_locked_into_unique(s0.grid, s0.active_piece, s0.active_row as int, s0.active_col as int, w, g1);
}

/// The wall kick: where the turned pattern `t` collides in place but not one
/// column to the right, the rotation is kept and the column grows by one;
/// where it collides at every offset, pattern and column stay as they were.
pub proof fn lemma_wall_kick(s0: GameState, s1: GameState, t: Shape)
    requires
        rotation_outcome(s0, s1),
        is_rotation(s0.active_piece.shape, t),
    ensures
        collides_at(s0.grid, t, s0.active_row as int, s0.active_col as int)
            && !collides_at(s0.grid, t, s0.active_row as int, s0.active_col + 1) ==> {
            &&& s1.active_piece.shape == t
            &&& s1.active_col == s0.active_col + 1
        },
        (forall|i: int|
            0 <= i < 5 ==> collides_at(
                s0.grid,
                t,
                s0.active_row as int,
                s0.active_col + #[trigger] kick_offsets()[i],
            )) ==> {
            &&& s1.active_piece.shape == s0.active_piece.shape
            &&& s1.active_col == s0.active_col
        },
{
    let g = s0.grid;
    let row = s0.active_row as int;
    let col = s0.active_col as int;
    if forall|i: int| 0 <= i < 5 ==> collides_at(g, t, row, col + #[trigger] kick_offsets()[i]) {
        assert(collides_at(g, t, row, col + kick_offsets()[0]));
        assert(collides_at(g, t, row, col + kick_offsets()[1]));
        assert(collides_at(g, t, row, col + kick_offsets()[2]));
        assert(collides_at(g, t, row, col + kick_offsets()[3]));
        assert(collides_at(g, t, row, col + kick_offsets()[4]));
        assert(first_free_kick(g, t, row, col, 5) is None);
        assert(first_free_kick(g, t, row, col, 4) is None);
        assert(first_free_kick(g, t, row, col, 3) is None);
        assert(first_free_kick(g, t, row, col, 2) is None);
        assert(first_free_kick(g, t, row, col, 1) is None);
        assert(first_free_kick(g, t, row, col, 0) is None);
    }
}

impl GameState {
    /// Both pieces have an occupied cell and the active piece's position lies
    /// within the range that a free placement allows.
    pub open spec fn wf(&self) -> bool {
        &&& self.active_piece.wf()
        &&& self.next_piece.wf()
        &&& 0 <= self.active_row <= ROWS - 1
        &&& -3 <= self.active_col <= COLS - 1
    }

    /// A new game on an empty grid with the given active and next pieces.
    pub fn new(active: Piece, next: Piece) -> (st: GameState)
        requires
            active.wf(),
            next.wf(),
        ensures
            st.wf(),
            !st.game_over,
            st.points == 0,
            st.active_piece == active,
            st.next_piece == next,
            st.active_row == SPAWN_ROW,
            st.active_col == SPAWN_COL,
            forall|r: int, c: int|
                0 <= r < ROWS && 0 <= c < COLS ==> #[trigger] st.grid.cells[r][c] == Cell::Empty,
    {
        GameState {
            game_over: false,
            grid: Grid::new(),
            points: 0,
            active_piece: active,
            next_piece: next,
            active_row: SPAWN_ROW,
            active_col: SPAWN_COL,
        }
    }

    /// A new game with two pieces drawn at random.
    pub fn start() -> (st: GameState)
        ensures
            st.wf(),
            !st.game_over,
            st.points == 0,
            exists|i: int| 0 <= i < 7 && st.active_piece.is_fresh(#[trigger] kind_at(i)),
            exists|i: int| 0 <= i < 7 && st.next_piece.is_fresh(#[trigger] kind_at(i)),
            st.active_row == SPAWN_ROW,
            st.active_col == SPAWN_COL,
            forall|r: int, c: int|
                0 <= r < ROWS && 0 <= c < COLS ==> #[trigger] st.grid.cells[r][c] == Cell::Empty,
    {
        let active = random_piece();
        let next = random_piece();
        GameState::new(active, next)
    }

    /// Turns the active piece a quarter, trying the column offsets of
    /// `kick_offsets` in order; where all collide the piece is left as it was.
    pub fn try_rotate(&mut self)
        requires
            old(self).wf(),
        ensures
            final(self).wf(),
            rotation_outcome(*old(self), *final(self)),
    {
        let ghost s0 = *self;
        let original_col = self.active_col;
        let original_shape = self.active_piece.shape;
        self.active_piece.rotate_in_place();
        let ghost t0 = self.active_piece.shape;
        proof {
            assert forall|t: Shape| is_rotation(s0.active_piece.shape, t) implies t == t0 by {
                lemma_rotation_unique(s0.active_piece.shape, t, t0);
            }
        }
        match free_kick_column(&self.grid, &self.active_piece, self.active_row, original_col) {
            Some(new_col) => {
                proof {
                    lemma_first_free_kick(s0.grid, t0, s0.active_row as int, s0.active_col as int, 0);
                    lemma_free_position(self.grid, t0, self.active_row as int, new_col as int);
                }
                self.active_col = new_col;
            },
            None => {
                self.active_piece.shape = original_shape;
            },
        }
    }

    /// Applies one player command (see `command_outcome`).
    pub fn apply_command(&mut self, cmd: Command)
        requires
            old(self).wf(),
        ensures
            final(self).wf(),
            command_outcome(*old(self), *final(self), cmd),
    {
        match cmd {
            Command::Left => {
                let new_col = self.active_col - 1;
                if !collides(&self.grid, &self.active_piece, self.active_row, new_col) {
                    proof {
                        lemma_free_position(self.grid, self.active_piece.shape, self.active_row as int, new_col as int);
                    }
                    self.active_col = new_col;
                }
            },
            Command::Right => {
                let new_col = self.active_col + 1;
                if !collides(&self.grid, &self.active_piece, self.active_row, new_col) {
                    proof {
                        lemma_free_position(self.grid, self.active_piece.shape, self.active_row as int, new_col as int);
                    }
                    self.active_col = new_col;
                }
            },
            Command::Down => {
                let new_row = self.active_row + 1;
                if !collides(&self.grid, &self.active_piece, new_row, self.active_col) {
                    proof {
                        lemma_free_position(self.grid, self.active_piece.shape, new_row as int, self.active_col as int);
                    }
                    self.active_row = new_row;
                }
            },
            Command::Up => {
                self.try_rotate();
            },
        }
    }

    /// Locks the active piece into the grid, removes full rows, scores the
    /// lock, sets the game-over flag from the top row, promotes the next piece
    /// to the spawn position and takes `fresh` as the next piece.
    pub fn lock_and_spawn(&mut self, fresh: Piece)
        requires
            old(self).wf(),
            fresh.wf(),
        ensures
            final(self).wf(),
            lock_cycle(*old(self), *final(self), fresh),
    {
        let ghost s0 = *self;
        lock_piece(&mut self.grid, &self.active_piece, self.active_row, self.active_col);
        let ghost g1 = self.grid;
        let n = clear_and_compact(&mut self.grid);
        self.game_over = is_game_over(&self.grid);
        let total: u64 = self.points as u64 + n as u64 * 10 + 1;
        self.points = if total > u32::MAX as u64 {
            u32::MAX
        } else {
            total as u32
        };
        self.active_piece = self.next_piece;
        self.next_piece = fresh;
        self.active_row = SPAWN_ROW;
        self.active_col = SPAWN_COL;
        assert(is_locked_into(s0.grid, s0.active_piece, s0.active_row as int, s0.active_col as int, g1));
    }

    /// One gravity step: the active piece moves down a row where it can;
    /// otherwise it is locked (see `lock_and_spawn`) and a piece drawn at
    /// random becomes the next piece.
    pub fn gravity_tick(&mut self)
        requires
            old(self).wf(),
        ensures
            final(self).wf(),
            if collides_at(
                old(self).grid,
                old(self).active_piece.shape,
                old(self).active_row + 1,
                old(self).active_col as int,
            ) {
                &&& lock_cycle(*old(self), *final(self), final(self).next_piece)
                &&& exists|i: int| 0 <= i < 7 && final(self).next_piece.is_fresh(#[trigger] kind_at(i))
            } else {
                *final(self) == (GameState { active_row: (old(self).active_row + 1) as i32, ..*old(self) })
            },
    {
        let next_row = self.active_row + 1;
        if collides(&self.grid, &self.active_piece, next_row, self.active_col) {
            let fresh = random_piece();
            self.lock_and_spawn(fresh);
        } else {
            proof {
                lemma_free_position(self.grid, self.active_piece.shape, next_row as int, self.active_col as int);
            }
            self.active_row = next_row;
        }
    }
}

} // verus!
