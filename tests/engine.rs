use tetris::game::{Command, GameState, SPAWN_COL, SPAWN_ROW};
use tetris::grid::{clear_and_compact, collides, is_game_over, lock_piece, Cell, Grid, COLS, ROWS};
use tetris::piece::{random_piece, Piece, PieceKind, Rgba, Shape};

const ALL_KINDS: [PieceKind; 7] = [
    PieceKind::I,
    PieceKind::J,
    PieceKind::L,
    PieceKind::O,
    PieceKind::S,
    PieceKind::T,
    PieceKind::Z,
];

const GREY: Rgba = Rgba { r: 9, g: 9, b: 9, a: 255 };

fn shape_of(rows: [&str; 4]) -> Shape {
    let mut s = [[false; 4]; 4];
    for r in 0..4 {
        for (c, ch) in rows[r].chars().enumerate() {
            s[r][c] = ch == '#';
        }
    }
    s
}

fn locked_count(g: &Grid) -> usize {
    let mut n = 0;
    for r in 0..ROWS {
        for c in 0..COLS {
            if let Cell::Locked(_) = g.cells[r][c] {
                n += 1;
            }
        }
    }
    n
}

fn fill_row(g: &mut Grid, r: usize, skip: Option<usize>) {
    for c in 0..COLS {
        if Some(c) != skip {
            g.cells[r][c] = Cell::Locked(GREY);
        }
    }
}

fn row_is_empty(g: &Grid, r: usize) -> bool {
    g.cells[r].iter().all(|c| *c == Cell::Empty)
}

fn row_is_locked(g: &Grid, r: usize) -> bool {
    g.cells[r].iter().all(|c| matches!(c, Cell::Locked(_)))
}

#[test]
fn catalog_patterns() {
    let expected = [
        (PieceKind::I, ["..#.", "..#.", "..#.", "..#."]),
        (PieceKind::J, ["#...", "###.", "....", "...."]),
        (PieceKind::L, ["..#.", "###.", "....", "...."]),
        (PieceKind::O, ["##..", "##..", "....", "...."]),
        (PieceKind::S, [".##.", "##..", "....", "...."]),
        (PieceKind::T, [".#..", "###.", "....", "...."]),
        (PieceKind::Z, ["##..", ".##.", "....", "...."]),
    ];
    for (kind, rows) in expected {
        let p = Piece::create(kind);
        assert_eq!(p.kind, kind);
        assert_eq!(p.shape, shape_of(rows));
    }
}

#[test]
fn catalog_colors_are_distinct() {
    for (i, a) in ALL_KINDS.iter().enumerate() {
        for b in ALL_KINDS.iter().skip(i + 1) {
            assert_ne!(Piece::create(*a).color, Piece::create(*b).color);
        }
    }
    assert_eq!(Piece::create(PieceKind::I).color, Rgba { r: 100, g: 20, b: 40, a: 255 });
}

#[test]
fn from_index_order() {
    for (i, kind) in ALL_KINDS.iter().enumerate() {
        assert_eq!(Piece::from_index(i as u32).kind, *kind);
    }
}

#[test]
fn random_piece_is_a_fresh_catalog_piece() {
    let mut seen = [false; 7];
    for _ in 0..300 {
        let p = random_piece();
        let fresh = Piece::create(p.kind);
        assert_eq!(p.shape, fresh.shape);
        assert_eq!(p.color, fresh.color);
        let i = ALL_KINDS.iter().position(|k| *k == p.kind).unwrap();
        seen[i] = true;
    }
    assert!(seen.iter().filter(|s| **s).count() > 1);
}

#[test]
fn rotate_four_times_is_identity() {
    for kind in ALL_KINDS {
        let mut p = Piece::create(kind);
        let start = p.shape;
        for _ in 0..4 {
            p.rotate_in_place();
        }
        assert_eq!(p.shape, start);
        assert_eq!(p.kind, kind);
    }
}

#[test]
fn rotate_once_shapes() {
    let mut i = Piece::create(PieceKind::I);
    i.rotate_in_place();
    assert_eq!(i.shape, shape_of(["....", "....", "####", "...."]));
    let mut t = Piece::create(PieceKind::T);
    t.rotate_in_place();
    assert_eq!(t.shape, shape_of(["..#.", "..##", "..#.", "...."]));
    let mut j = Piece::create(PieceKind::J);
    j.rotate_in_place();
    assert_eq!(j.shape, shape_of(["..##", "..#.", "..#.", "...."]));
    assert_eq!(j.color, Piece::create(PieceKind::J).color);
}

#[test]
fn collides_with_walls_and_floor_whatever_the_grid() {
    let o = Piece::create(PieceKind::O);
    let mut full = Grid::new();
    for r in 0..ROWS {
        fill_row(&mut full, r, None);
    }
    for g in [Grid::new(), full] {
        assert!(collides(&g, &o, 5, -1));
        assert!(collides(&g, &o, 5, 9));
        assert!(collides(&g, &o, 23, 4));
        assert!(collides(&g, &o, -1, -1));
        assert!(collides(&g, &o, -1, 9));
    }
}

#[test]
fn collides_at_edges_of_empty_grid() {
    let g = Grid::new();
    let o = Piece::create(PieceKind::O);
    assert!(!collides(&g, &o, 22, 0));
    assert!(!collides(&g, &o, 22, 8));
    let i = Piece::create(PieceKind::I);
    assert!(!collides(&g, &i, 20, -2));
    assert!(collides(&g, &i, 21, -2));
    assert!(!collides(&g, &i, 20, 7));
    assert!(collides(&g, &i, 20, 8));
}

#[test]
fn rows_above_top_are_open_but_walls_still_count() {
    let mut g = Grid::new();
    fill_row(&mut g, 0, None);
    let i = Piece::create(PieceKind::I);
    assert!(!collides(&g, &i, -4, 3));
    assert!(collides(&g, &i, -3, 3));
    assert!(collides(&g, &i, -4, -3));
}

#[test]
fn collides_with_locked_cell() {
    let mut g = Grid::new();
    g.cells[10][5] = Cell::Locked(GREY);
    let t = Piece::create(PieceKind::T);
    assert!(collides(&g, &t, 9, 4));
    assert!(collides(&g, &t, 9, 5));
    assert!(collides(&g, &t, 10, 4));
    assert!(!collides(&g, &t, 9, 6));
    assert!(!collides(&g, &t, 10, 5));
}

#[test]
fn spawn_is_free_on_empty_grid() {
    let g = Grid::new();
    for kind in ALL_KINDS {
        assert!(!collides(&g, &Piece::create(kind), SPAWN_ROW, SPAWN_COL));
    }
    assert_eq!((SPAWN_ROW, SPAWN_COL), (0, 3));
}

#[test]
fn lock_writes_each_occupied_cell_in_color() {
    for kind in ALL_KINDS {
        let mut g = Grid::new();
        let p = Piece::create(kind);
        lock_piece(&mut g, &p, 10, 2);
        assert_eq!(locked_count(&g), 4);
        for r in 0..4 {
            for c in 0..4 {
                let want = if p.shape[r][c] { Cell::Locked(p.color) } else { Cell::Empty };
                assert_eq!(g.cells[10 + r][2 + c], want);
            }
        }
    }
}

#[test]
fn lock_skips_cells_off_the_grid() {
    let mut g = Grid::new();
    let i = Piece::create(PieceKind::I);
    lock_piece(&mut g, &i, -2, 0);
    assert_eq!(locked_count(&g), 2);
    assert_eq!(g.cells[0][2], Cell::Locked(i.color));
    assert_eq!(g.cells[1][2], Cell::Locked(i.color));
}

#[test]
fn compact_bottom_row() {
    let mut g = Grid::new();
    for c in 0..COLS {
        g.cells[23][c] = Cell::Locked(Rgba { r: c as u8, g: 0, b: 0, a: 255 });
    }
    assert_eq!(clear_and_compact(&mut g), 1);
    assert!(row_is_empty(&g, 23));
    assert!(row_is_empty(&g, 0));
    assert_eq!(locked_count(&g), 0);
}

#[test]
fn compact_shifts_rows_above_down() {
    let mut g = Grid::new();
    fill_row(&mut g, 23, None);
    fill_row(&mut g, 21, None);
    g.cells[22][4] = Cell::Locked(GREY);
    g.cells[20][7] = Cell::Locked(GREY);
    assert_eq!(clear_and_compact(&mut g), 2);
    assert_eq!(g.cells[23][4], Cell::Locked(GREY));
    assert_eq!(g.cells[22][7], Cell::Locked(GREY));
    assert_eq!(locked_count(&g), 2);
}

#[test]
fn compact_skips_row_moved_into_scanned_position() {
    let mut g = Grid::new();
    fill_row(&mut g, 23, None);
    fill_row(&mut g, 22, None);
    assert_eq!(clear_and_compact(&mut g), 1);
    assert!(row_is_locked(&g, 23));
    assert!(row_is_empty(&g, 22));
}

#[test]
fn compact_without_full_rows_changes_nothing() {
    let mut g = Grid::new();
    fill_row(&mut g, 23, Some(3));
    let before = g.cells;
    assert_eq!(clear_and_compact(&mut g), 0);
    assert_eq!(g.cells, before);
}

#[test]
fn game_over_reads_top_row() {
    let mut g = Grid::new();
    assert!(!is_game_over(&g));
    g.cells[1][0] = Cell::Locked(GREY);
    assert!(!is_game_over(&g));
    g.cells[0][9] = Cell::Locked(GREY);
    assert!(is_game_over(&g));
}

fn state(active: PieceKind, next: PieceKind) -> GameState {
    GameState::new(Piece::create(active), Piece::create(next))
}

#[test]
fn new_state_starts_at_spawn() {
    let st = state(PieceKind::T, PieceKind::S);
    assert!(!st.game_over);
    assert_eq!(st.points, 0);
    assert_eq!((st.active_row, st.active_col), (0, 3));
    assert_eq!(locked_count(&st.grid), 0);
    let st = GameState::start();
    assert_eq!((st.active_row, st.active_col), (0, 3));
}

#[test]
fn lock_clearing_two_rows_scores_twenty_one() {
    let mut st = state(PieceKind::I, PieceKind::O);
    fill_row(&mut st.grid, 23, Some(0));
    fill_row(&mut st.grid, 21, Some(0));
    st.active_row = 20;
    st.active_col = -2;
    st.points = 5;
    st.lock_and_spawn(Piece::create(PieceKind::Z));
    assert_eq!(st.points, 26);
    assert_eq!(st.active_piece.kind, PieceKind::O);
    assert_eq!(st.next_piece.kind, PieceKind::Z);
    assert_eq!((st.active_row, st.active_col), (0, 3));
    assert!(!st.game_over);
    assert_eq!(locked_count(&st.grid), 2);
}

#[test]
fn lock_without_clear_scores_one() {
    let mut st = state(PieceKind::O, PieceKind::T);
    st.active_row = 22;
    st.active_col = 0;
    st.lock_and_spawn(Piece::create(PieceKind::L));
    assert_eq!(st.points, 1);
    assert_eq!(locked_count(&st.grid), 4);
    assert_eq!(st.grid.cells[22][0], Cell::Locked(Piece::create(PieceKind::O).color));
}

#[test]
fn score_saturates_at_its_largest_value() {
    let mut st = state(PieceKind::O, PieceKind::T);
    st.active_row = 22;
    st.points = u32::MAX - 5;
    st.lock_and_spawn(Piece::create(PieceKind::L));
    assert_eq!(st.points, u32::MAX - 4);
    let mut st = state(PieceKind::I, PieceKind::O);
    fill_row(&mut st.grid, 23, Some(0));
    fill_row(&mut st.grid, 21, Some(0));
    st.active_row = 20;
    st.active_col = -2;
    st.points = u32::MAX - 5;
    st.lock_and_spawn(Piece::create(PieceKind::Z));
    assert_eq!(st.points, u32::MAX);
}

#[test]
fn wall_kick_moves_one_column_right() {
    let mut st = state(PieceKind::I, PieceKind::O);
    st.active_row = 5;
    st.active_col = -1;
    st.try_rotate();
    assert_eq!(st.active_col, 0);
    assert_eq!(st.active_piece.shape, shape_of(["....", "....", "####", "...."]));
}

#[test]
fn wall_kick_tries_two_columns() {
    let mut st = state(PieceKind::I, PieceKind::O);
    st.active_row = 5;
    st.active_col = -2;
    st.try_rotate();
    assert_eq!(st.active_col, 0);
    let mut st = state(PieceKind::I, PieceKind::O);
    st.active_row = 5;
    st.active_col = 7;
    st.try_rotate();
    assert_eq!(st.active_col, 6);
}

#[test]
fn rotation_without_kick_keeps_column() {
    let mut st = state(PieceKind::T, PieceKind::O);
    st.active_row = 5;
    st.apply_command(Command::Up);
    assert_eq!(st.active_col, 3);
    assert_eq!(st.active_piece.shape, shape_of(["..#.", "..##", "..#.", "...."]));
}

#[test]
fn rotation_reverts_when_every_offset_collides() {
    let mut st = state(PieceKind::I, PieceKind::O);
    fill_row(&mut st.grid, 12, Some(5));
    st.active_row = 10;
    st.active_col = 3;
    let before = st.active_piece.shape;
    st.try_rotate();
    assert_eq!(st.active_piece.shape, before);
    assert_eq!(st.active_col, 3);
}

#[test]
fn moves_stop_at_walls() {
    let mut st = state(PieceKind::O, PieceKind::T);
    st.active_col = 0;
    st.apply_command(Command::Left);
    assert_eq!(st.active_col, 0);
    st.apply_command(Command::Right);
    assert_eq!(st.active_col, 1);
    st.active_col = 8;
    st.apply_command(Command::Right);
    assert_eq!(st.active_col, 8);
    st.apply_command(Command::Left);
    assert_eq!(st.active_col, 7);
}

#[test]
fn soft_drop_stops_at_floor_without_locking() {
    let mut st = state(PieceKind::O, PieceKind::T);
    st.active_row = 21;
    st.apply_command(Command::Down);
    assert_eq!(st.active_row, 22);
    st.apply_command(Command::Down);
    assert_eq!(st.active_row, 22);
    assert_eq!(locked_count(&st.grid), 0);
    assert_eq!(st.points, 0);
}

#[test]
fn gravity_moves_down_then_locks() {
    let mut st = state(PieceKind::O, PieceKind::T);
    st.active_row = 21;
    st.gravity_tick();
    assert_eq!(st.active_row, 22);
    assert_eq!(locked_count(&st.grid), 0);
    st.gravity_tick();
    assert_eq!(locked_count(&st.grid), 4);
    assert_eq!(st.points, 1);
    assert_eq!(st.active_piece.kind, PieceKind::T);
    assert_eq!((st.active_row, st.active_col), (0, 3));
    let fresh = Piece::create(st.next_piece.kind);
    assert_eq!(st.next_piece.shape, fresh.shape);
}

#[test]
fn lock_in_top_row_ends_game() {
    let mut st = state(PieceKind::O, PieceKind::T);
    st.grid.cells[2][3] = Cell::Locked(GREY);
    st.gravity_tick();
    assert!(st.game_over);

    let mut st = state(PieceKind::O, PieceKind::T);
    st.grid.cells[3][3] = Cell::Locked(GREY);
    st.active_row = 1;
    st.gravity_tick();
    assert!(!st.game_over);
    assert!(row_is_empty(&st.grid, 0));
}

#[test]
fn visible_cells_of_placed_piece() {
    let t = Piece::create(PieceKind::T);
    assert_eq!(tetris::grid::visible_cells(&t, 5, 2), vec![(5, 3), (6, 2), (6, 3), (6, 4)]);
    let i = Piece::create(PieceKind::I);
    assert_eq!(tetris::grid::visible_cells(&i, -2, 0), vec![(0, 2), (1, 2)]);
    assert_eq!(tetris::grid::visible_cells(&i, 0, -3), Vec::<(i64, i64)>::new());
}
