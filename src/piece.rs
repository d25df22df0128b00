use vstd::prelude::*;

verus! {

/// A display color, one byte per channel.
#[derive(Clone, Copy, Debug, PartialEq, Eq, Structural)]
pub struct Rgba {
    pub r: u8,
    pub g: u8,
    pub b: u8,
    pub a: u8,
}

/// The seven piece kinds.
#[derive(Clone, Copy, Debug, PartialEq, Eq, Structural)]
pub enum PieceKind {
    I,
    J,
    L,
    O,
    S,
    T,
    Z,
}

/// A 4x4 occupancy pattern, indexed `[row][column]`, rows top to bottom.
pub type Shape = [[bool; 4]; 4];

/// A piece: its kind, its color and its current occupancy pattern.
#[derive(Clone, Copy, Debug)]
pub struct Piece {
    pub kind: PieceKind,
    pub color: Rgba,
    pub shape: Shape,
}

/// Whether cell `(r, c)` of the pattern of `kind`, as first created, is occupied.
pub open spec fn kind_cell(kind: PieceKind, r: int, c: int) -> bool {
    match kind {
        PieceKind::I => c == 2,
        PieceKind::J => (r == 0 && c == 0) || (r == 1 && c <= 2),
        PieceKind::L => (r == 0 && c == 2) || (r == 1 && c <= 2),
        PieceKind::O => r <= 1 && c <= 1,
        PieceKind::S => (r == 0 && (c == 1 || c == 2)) || (r == 1 && c <= 1),
        PieceKind::T => (r == 0 && c == 1) || (r == 1 && c <= 2),
        PieceKind::Z => (r == 0 && c <= 1) || (r == 1 && (c == 1 || c == 2)),
    }
}

/// The display color of `kind`.
pub open spec fn kind_color(kind: PieceKind) -> Rgba {
    match kind {
        PieceKind::I => Rgba { r: 100, g: 20, b: 40, a: 255 },
        PieceKind::J => Rgba { r: 10, g: 200, b: 40, a: 255 },
        PieceKind::L => Rgba { r: 10, g: 20, b: 240, a: 255 },
        PieceKind::O => Rgba { r: 200, g: 200, b: 40, a: 255 },
        PieceKind::S => Rgba { r: 200, g: 20, b: 200, a: 255 },
        PieceKind::T => Rgba { r: 20, g: 200, b: 200, a: 255 },
        PieceKind::Z => Rgba { r: 200, g: 100, b: 20, a: 255 },
    }
}

/// The kind that index `i` (in `0..7`) stands for, in the order I J L O S T Z.
pub open spec fn kind_at(i: int) -> PieceKind {
    if i == 0 {
        PieceKind::I
    } else if i == 1 {
        PieceKind::J
    } else if i == 2 {
        PieceKind::L
    } else if i == 3 {
        PieceKind::O
    } else if i == 4 {
        PieceKind::S
    } else if i == 5 {
        PieceKind::T
    } else {
        PieceKind::Z
    }
}

/// `t` is `s` turned a quarter: cell `(r, c)` of `s` lands on `(c, 3 - r)` of `t`,
/// so cell `(i, j)` of `t` comes from `(3 - j, i)` of `s`.
pub open spec fn is_rotation(s: Shape, t: Shape) -> bool {
    forall|i: int, j: int| 0 <= i < 4 && 0 <= j < 4 ==> #[trigger] t[i][j] == s[3 - j][i]
}

/// At least one cell of the pattern is occupied.
pub open spec fn has_cell(s: Shape) -> bool {
    exists|r: int, c: int| 0 <= r < 4 && 0 <= c < 4 && #[trigger] s[r][c]
}

impl Piece {
    /// Every piece in play has at least one occupied cell.
    pub open spec fn wf(&self) -> bool {
        has_cell(self.shape)
    }

    /// Whether `self` is `kind` exactly as first created.
    pub open spec fn is_fresh(&self, kind: PieceKind) -> bool {
        &&& self.kind == kind
        &&& self.color == kind_color(kind)
        &&& forall|r: int, c: int|
            0 <= r < 4 && 0 <= c < 4 ==> #[trigger] self.shape[r][c] == kind_cell(kind, r, c)
    }

    /// The piece of the given kind, in its starting orientation.
    pub fn create(kind: PieceKind) -> (p: Piece)
        ensures
            p.is_fresh(kind),
            p.wf(),
    {
        let p = match kind {
            PieceKind::I => Piece {
                kind: PieceKind::I,
                color: Rgba { r: 100, g: 20, b: 40, a: 255 },
                shape: [
                    [false, false, true, false],
                    [false, false, true, false],
                    [false, false, true, false],
                    [false, false, true, false],
                ],
            },
            PieceKind::J => Piece {
                kind: PieceKind::J,
                color: Rgba { r: 10, g: 200, b: 40, a: 255 },
                shape: [
                    [true, false, false, false],
                    [true, true, true, false],
                    [false, false, false, false],
                    [false, false, false, false],
                ],
            },
            PieceKind::L => Piece {
                kind: PieceKind::L,
                color: Rgba { r: 10, g: 20, b: 240, a: 255 },
                shape: [
                    [false, false, true, false],
                    [true, true, true, false],
                    [false, false, false, false],
                    [false, false, false, false],
                ],
            },
            PieceKind::O => Piece {
                kind: PieceKind::O,
                color: Rgba { r: 200, g: 200, b: 40, a: 255 },
                shape: [
                    [true, true, false, false],
                    [true, true, false, false],
                    [false, false, false, false],
                    [false, false, false, false],
                ],
            },
            PieceKind::S => Piece {
                kind: PieceKind::S,
                color: Rgba { r: 200, g: 20, b: 200, a: 255 },
                shape: [
                    [false, true, true, false],
                    [true, true, false, false],
                    [false, false, false, false],
                    [false, false, false, false],
                ],
            },
            PieceKind::T => Piece {
                kind: PieceKind::T,
                color: Rgba { r: 20, g: 200, b: 200, a: 255 },
                shape: [
                    [false, true, false, false],
                    [true, true, true, false],
                    [false, false, false, false],
                    [false, false, false, false],
                ],
            },
            PieceKind::Z => Piece {
                kind: PieceKind::Z,
                color: Rgba { r: 200, g: 100, b: 20, a: 255 },
                shape: [
                    [true, true, false, false],
                    [false, true, true, false],
                    [false, false, false, false],
                    [false, false, false, false],
                ],
            },
        };
        assert(p.shape[1][1] || p.shape[0][2]);
        p
    }

    /// The piece of the kind that `i` stands for (see `kind_at`).
    pub fn from_index(i: u32) -> (p: Piece)
        requires
            i < 7,
        ensures
            p.is_fresh(kind_at(i as int)),
            p.wf(),
    {
        let kind = if i == 0 {
            PieceKind::I
        } else if i == 1 {
            PieceKind::J
        } else if i == 2 {
            PieceKind::L
        } else if i == 3 {
            PieceKind::O
        } else if i == 4 {
            PieceKind::S
        } else if i == 5 {
            PieceKind::T
        } else {
            PieceKind::Z
        };
        Piece::create(kind)
    }

    /// Turns the occupancy pattern a quarter; kind and color stay.
    pub fn rotate_in_place(&mut self)
        ensures
            is_rotation(old(self).shape, final(self).shape),
            final(self).kind == old(self).kind,
            final(self).color == old(self).color,
            old(self).wf() ==> final(self).wf(),
    {
        let s = self.shape;
        let mut t: Shape = [[false; 4]; 4];
        for r in 0..4
            invariant
                forall|i: int, j: int| 0 <= i < r && 0 <= j < 4 ==> #[trigger] t[j][3 - i] == s[i][j],
        {
            for c in 0..4
                invariant
                    0 <= r < 4,
                    forall|i: int, j: int| 0 <= i < r && 0 <= j < 4 ==> #[trigger] t[j][3 - i] == s[i][j],
                    forall|j: int| 0 <= j < c ==> #[trigger] t[j][3 - r] == s[r as int][j],
            {
                t[c][3 - r] = s[r][c];
            }
        }
        self.shape = t;
        assert forall|i: int, j: int| 0 <= i < 4 && 0 <= j < 4 implies #[trigger] t[i][j] == s[3
            - j][i] by {
            assert(t[i][3 - (3 - j)] == s[3 - j][i]);
        }
        proof {
            if has_cell(s) {
                let (r, c) = choose|r: int, c: int| 0 <= r < 4 && 0 <= c < 4 && #[trigger] s[r][c];
                assert(t[c][3 - r]);
            }
        }
    }
}

/// A quarter turn done four times gives back the pattern it started from.
pub proof fn lemma_rotate_four_times(s0: Shape, s1: Shape, s2: Shape, s3: Shape, s4: Shape)
    requires
        is_rotation(s0, s1),
        is_rotation(s1, s2),
        is_rotation(s2, s3),
        is_rotation(s3, s4),
    ensures
        s4 == s0,
{
    assert forall|r: int, c: int| 0 <= r < 4 && 0 <= c < 4 implies s4[r][c] == s0[r][c] by {
        assert(s4[r][c] == s3[3 - c][r]);
        assert(s3[3 - c][r] == s2[3 - r][3 - c]);
        assert(s2[3 - r][3 - c] == s1[c][3 - r]);
        assert(s1[c][3 - r] == s0[r][c]);
    }
    assert forall|r: int| 0 <= r < 4 implies s4[r] == s0[r] by {
        assert(s4[r] =~= s0[r]);
    }
    assert(s4 =~= s0);
}

/// A pattern has one quarter turn only.
pub proof fn lemma_rotation_unique(s: Shape, t1: Shape, t2: Shape)
    requires
        is_rotation(s, t1),
        is_rotation(s, t2),
    ensures
        t1 == t2,
{
    assert forall|i: int| 0 <= i < 4 implies t1[i] == t2[i] by {
        assert forall|j: int| 0 <= j < 4 implies t1[i][j] == t2[i][j] by {
            assert(t1[i][j] == s[3 - j][i]);
            assert(t2[i][j] == s[3 - j][i]);
        }
        assert(t1[i] =~= t2[i]);
    }
    assert(t1 =~= t2);
}

/// Relies on macroquad's `rand::gen_range` (quad-rand): for integers it returns
/// a value in `low..high`.
#[verifier::external_body]
fn draw_below(high: u32) -> (r: u32)
    requires
        0 < high,
    ensures
        r < high,
{
    macroquad::rand::gen_range(0u32, high)
}

/// A piece of a kind drawn uniformly at random, in its starting orientation.
pub fn random_piece() -> (p: Piece)
    ensures
        exists|i: int| 0 <= i < 7 && p.is_fresh(#[trigger] kind_at(i)),
        p.wf(),
{
    let i = draw_below(7);
    let p = Piece::from_index(i);
    assert(p.is_fresh(kind_at(i as int)));
    p
}

} // verus!
