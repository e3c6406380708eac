use crate::color::Color;
use crate::square::{group_square, sq_x, sq_y, Coord, Square};
use vstd::prelude::*;

verus! {

broadcast use group_square;

/// A symmetry of the board: flip columns, flip rows and swap rows with columns, in that order.
#[derive(Debug, Clone, Copy, PartialEq, Eq, Hash, Structural)]
pub enum Symmetry {
    Identity,
    FlipX,
    FlipY,
    Rotate180,
    SwapXY,
    RotateLeft,
    RotateRight,
    OtherDiagonal,
}

/// Number of symmetries.
pub const NUM_SYMMETRIES: usize = 8;

/// The square index that `sym` maps index `i` to.
pub open spec fn spec_apply_index(sym: Symmetry, i: int) -> int {
    let (fx, fy, sw) = sym.spec_bits();
    let x = if fx {
        7 - sq_x(i)
    } else {
        sq_x(i)
    };
    let y = if fy {
        7 - sq_y(i)
    } else {
        sq_y(i)
    };
    if sw {
        x * 8 + y
    } else {
        y * 8 + x
    }
}

/// The square `sym` maps `s` to.
pub open spec fn spec_apply(sym: Symmetry, s: Square) -> Square {
    Square::spec_from_index(spec_apply_index(sym, s.spec_index() as int))
}

/// The symmetry that undoes `sym`.
pub open spec fn spec_inverse(sym: Symmetry) -> Symmetry {
    let (fx, fy, sw) = sym.spec_bits();
    if sw {
        Symmetry::spec_from_bits(fy, fx, sw)
    } else {
        sym
    }
}

/// The index of the first symmetry, from index `j` on, that maps square index `i` to a
/// normalized square (8 if none does).
pub open spec fn first_normalizing(i: int, j: int) -> int
    decreases 8 - j,
{
    if j >= 8 {
        8
    } else if spec_is_normalized(spec_apply_index(Symmetry::spec_from_index(j), i)) {
        j
    } else {
        first_normalizing(i, j + 1)
    }
}

/// The symmetry that `normalize` picks for a square: the first that maps it to a
/// normalized square.
pub open spec fn spec_normalize_sym(s: Square) -> Symmetry {
    Symmetry::spec_from_index(first_normalizing(s.spec_index() as int, 0))
}

/// The index among the normalized squares of a normalized square index.
pub open spec fn normalized_index_of(i: int) -> nat {
    if i == 0 {
        0
    } else if i == 1 {
        1
    } else if i == 2 {
        2
    } else if i == 3 {
        3
    } else if i == 9 {
        4
    } else if i == 10 {
        5
    } else if i == 11 {
        6
    } else if i == 18 {
        7
    } else if i == 19 {
        8
    } else {
        9
    }
}

/// The index among the normalized squares of the square `s` is normalized to.
pub open spec fn spec_normalized_index(s: Square) -> nat {
    normalized_index_of(spec_apply_index(spec_normalize_sym(s), s.spec_index() as int))
}

proof fn lemma_first_normalizing(i: int, j: int, k: int)
    requires
        0 <= j <= k < 8,
        spec_is_normalized(spec_apply_index(Symmetry::spec_from_index(k), i)),
        forall|t: int| j <= t < k ==> !spec_is_normalized(spec_apply_index(Symmetry::spec_from_index(t), i)),
    ensures
        first_normalizing(i, j) == k,
    decreases k - j,
{
    if j < k {
        lemma_first_normalizing(i, j + 1, k);
    }
}

/// Index `i` is one of the ten normalized squares: column at most 3, row at most the column.
pub open spec fn spec_is_normalized(i: int) -> bool {
    sq_x(i) <= 3 && sq_y(i) <= sq_x(i)
}

impl Symmetry {
    pub open spec fn spec_index(self) -> nat {
        match self {
            Symmetry::Identity => 0,
            Symmetry::FlipX => 1,
            Symmetry::FlipY => 2,
            Symmetry::Rotate180 => 3,
            Symmetry::SwapXY => 4,
            Symmetry::RotateLeft => 5,
            Symmetry::RotateRight => 6,
            Symmetry::OtherDiagonal => 7,
        }
    }

    pub open spec fn spec_from_index(i: int) -> Symmetry {
        if i == 0 {
            Symmetry::Identity
        } else if i == 1 {
            Symmetry::FlipX
        } else if i == 2 {
            Symmetry::FlipY
        } else if i == 3 {
            Symmetry::Rotate180
        } else if i == 4 {
            Symmetry::SwapXY
        } else if i == 5 {
            Symmetry::RotateLeft
        } else if i == 6 {
            Symmetry::RotateRight
        } else {
            Symmetry::OtherDiagonal
        }
    }

    /// (flip columns, flip rows, swap rows and columns)
    pub open spec fn spec_bits(self) -> (bool, bool, bool) {
        let i = self.spec_index();
        (i % 2 == 1, (i / 2) % 2 == 1, i / 4 == 1)
    }

    pub open spec fn spec_from_bits(flip_x: bool, flip_y: bool, swap_xy: bool) -> Symmetry {
        Symmetry::spec_from_index(
            (if flip_x {
                1int
            } else {
                0
            }) + (if flip_y {
                2int
            } else {
                0
            }) + (if swap_xy {
                4int
            } else {
                0
            }),
        )
    }

    pub fn index(self) -> (r: usize)
        ensures
            r == self.spec_index(),
            r < NUM_SYMMETRIES,
    {
        match self {
            Symmetry::Identity => 0,
            Symmetry::FlipX => 1,
            Symmetry::FlipY => 2,
            Symmetry::Rotate180 => 3,
            Symmetry::SwapXY => 4,
            Symmetry::RotateLeft => 5,
            Symmetry::RotateRight => 6,
            Symmetry::OtherDiagonal => 7,
        }
    }

    pub fn from_index(i: usize) -> (r: Symmetry)
        requires
            i < NUM_SYMMETRIES,
        ensures
            r.spec_index() == i,
            r == Symmetry::spec_from_index(i as int),
    {
        if i == 0 {
            Symmetry::Identity
        } else if i == 1 {
            Symmetry::FlipX
        } else if i == 2 {
            Symmetry::FlipY
        } else if i == 3 {
            Symmetry::Rotate180
        } else if i == 4 {
            Symmetry::SwapXY
        } else if i == 5 {
            Symmetry::RotateLeft
        } else if i == 6 {
            Symmetry::RotateRight
        } else {
            Symmetry::OtherDiagonal
        }
    }

    pub fn from_bits(flip_x: bool, flip_y: bool, swap_xy: bool) -> (r: Symmetry)
        ensures
            r == Symmetry::spec_from_bits(flip_x, flip_y, swap_xy),
            r.spec_bits() == (flip_x, flip_y, swap_xy),
    {
        let mut i: usize = 0;
        if flip_x {
            i += 1;
        }
        if flip_y {
            i += 2;
        }
        if swap_xy {
            i += 4;
        }
        Symmetry::from_index(i)
    }

    /// Returns (flip_x, flip_y, swap_xy).
    pub fn to_bits(self) -> (r: (bool, bool, bool))
        ensures
            r == self.spec_bits(),
    {
        let bits = self.index();
        (bits % 2 == 1, (bits / 2) % 2 == 1, bits / 4 == 1)
    }

    /// The symmetry that undoes this one.
    pub fn inverse(self) -> (r: Symmetry)
        ensures
            r == spec_inverse(self),
    {
        let (flip_x, flip_y, swap_xy) = self.to_bits();
        if swap_xy {
            Symmetry::from_bits(flip_y, flip_x, swap_xy)
        } else {
            self
        }
    }

    /// The symmetry that shows the board from `color`'s side.
    pub fn pov(color: Color) -> (r: Symmetry)
        ensures
            r == match color {
                Color::Red => Symmetry::Identity,
                Color::Blue => Symmetry::Rotate180,
            },
    {
        match color {
            Color::Red => Symmetry::Identity,
            Color::Blue => Symmetry::Rotate180,
        }
    }

    pub fn apply(self, square: Square) -> (r: Square)
        ensures
            r.spec_index() == spec_apply_index(self, square.spec_index() as int),
            r == spec_apply(self, square),
    {
        let (flip_x, flip_y, swap_xy) = self.to_bits();
        let coord = Coord::from_square(square);
        let mut x = coord.x();
        let mut y = coord.y();
        if flip_x {
            x = 7 - x;
        }
        if flip_y {
            y = 7 - y;
        }
        if swap_xy {
            let t = x;
            x = y;
            y = t;
        }
        Square::from_index(y * 8 + x)
    }

    /// The first symmetry (by index) that maps `square` to a normalized square, and that square.
    pub fn normalize(square: Square) -> (r: (Symmetry, NormalizedSquare))
        ensures
            r.0 == spec_normalize_sym(square),
            r.1.spec_index() == spec_normalized_index(square),
            r.1.spec_square() == spec_apply(r.0, square),
            forall|j: int|
                0 <= j < r.0.spec_index() ==> !spec_is_normalized(
                    spec_apply_index(Symmetry::spec_from_index(j), square.spec_index() as int),
                ),
    {
        let ghost i = square.spec_index() as int;
        let ghost fx = sq_x(i) > 3;
        let ghost fy = sq_y(i) > 3;
        let ghost x1 = if fx {
            7 - sq_x(i)
        } else {
            sq_x(i)
        };
        let ghost y1 = if fy {
            7 - sq_y(i)
        } else {
            sq_y(i)
        };
        let ghost w = Symmetry::spec_from_bits(fx, fy, y1 > x1);
        assert(spec_is_normalized(spec_apply_index(w, i)));
        let mut idx: usize = 0;
        while idx < NUM_SYMMETRIES
            invariant
                idx <= NUM_SYMMETRIES,
                i == square.spec_index(),
                w.spec_index() < 8,
                spec_is_normalized(spec_apply_index(w, i)),
                forall|j: int|
                    0 <= j < idx ==> !spec_is_normalized(
                        spec_apply_index(Symmetry::spec_from_index(j), i),
                    ),
            decreases NUM_SYMMETRIES - idx,
        {
            let symmetry = Symmetry::from_index(idx);
            let sq2 = symmetry.apply(square);
            match NormalizedSquare::try_from_square(sq2) {
                Some(ns) => {
                    proof {
                        lemma_first_normalizing(i, 0, idx as int);
                        assert(Symmetry::spec_from_index(idx as int) == symmetry);
                        assert(ns.spec_square_index() == sq2.spec_index());
                    }
                    return (symmetry, ns);
                },
                None => {},
            }
            idx += 1;
        }
        proof {
            assert(Symmetry::spec_from_index(w.spec_index() as int) == w);
        }
        (Symmetry::Identity, NormalizedSquare::A1)
    }
}

proof fn lemma_coords(x: int, y: int)
    requires
        0 <= x < 8,
        0 <= y < 8,
    ensures
        sq_x(y * 8 + x) == x,
        sq_y(y * 8 + x) == y,
        0 <= y * 8 + x < 64,
{
}

/// `inverse` undoes `apply`.
pub proof fn lemma_inverse_apply(sym: Symmetry, s: Square)
    ensures
        spec_apply(spec_inverse(sym), spec_apply(sym, s)) == s,
{
    let i = s.spec_index() as int;
    let x = sq_x(i);
    let y = sq_y(i);
    assert(i == y * 8 + x);
    let (fx, fy, sw) = sym.spec_bits();
    let x1 = if fx {
        7 - x
    } else {
        x
    };
    let y1 = if fy {
        7 - y
    } else {
        y
    };
    let j = spec_apply_index(sym, i);
    if sw {
        assert(j == x1 * 8 + y1);
        lemma_coords(y1, x1);
    } else {
        assert(j == y1 * 8 + x1);
        lemma_coords(x1, y1);
    }
    assert(spec_apply(sym, s).spec_index() == j);
    let k = spec_apply_index(spec_inverse(sym), j);
    assert(k == i);
}

/// The inverse of the inverse is the symmetry itself.
pub proof fn lemma_inverse_inverse(sym: Symmetry)
    ensures
        spec_inverse(spec_inverse(sym)) == sym,
{
}

/// The ten squares a square can be normalized to.
#[derive(Debug, Clone, Copy, PartialEq, Eq, Hash, Structural)]
pub enum NormalizedSquare {
    A1,
    A2,
    A3,
    A4,
    B2,
    B3,
    B4,
    C3,
    C4,
    D4,
}

/// Number of normalized squares.
pub const NUM_NORMALIZED_SQUARES: usize = 10;

impl NormalizedSquare {
    pub open spec fn spec_index(self) -> nat {
        match self {
            NormalizedSquare::A1 => 0,
            NormalizedSquare::A2 => 1,
            NormalizedSquare::A3 => 2,
            NormalizedSquare::A4 => 3,
            NormalizedSquare::B2 => 4,
            NormalizedSquare::B3 => 5,
            NormalizedSquare::B4 => 6,
            NormalizedSquare::C3 => 7,
            NormalizedSquare::C4 => 8,
            NormalizedSquare::D4 => 9,
        }
    }

    /// Index of the board square.
    pub open spec fn spec_square_index(self) -> nat {
        match self {
            NormalizedSquare::A1 => 0,
            NormalizedSquare::A2 => 1,
            NormalizedSquare::A3 => 2,
            NormalizedSquare::A4 => 3,
            NormalizedSquare::B2 => 9,
            NormalizedSquare::B3 => 10,
            NormalizedSquare::B4 => 11,
            NormalizedSquare::C3 => 18,
            NormalizedSquare::C4 => 19,
            NormalizedSquare::D4 => 27,
        }
    }

    pub open spec fn spec_square(self) -> Square {
        Square::spec_from_index(self.spec_square_index() as int)
    }

    pub fn index(self) -> (r: usize)
        ensures
            r == self.spec_index(),
            r < NUM_NORMALIZED_SQUARES,
    {
        match self {
            NormalizedSquare::A1 => 0,
            NormalizedSquare::A2 => 1,
            NormalizedSquare::A3 => 2,
            NormalizedSquare::A4 => 3,
            NormalizedSquare::B2 => 4,
            NormalizedSquare::B3 => 5,
            NormalizedSquare::B4 => 6,
            NormalizedSquare::C3 => 7,
            NormalizedSquare::C4 => 8,
            NormalizedSquare::D4 => 9,
        }
    }

    /// The normalized square that is this board square, if it is one of the ten.
    pub fn try_from_square(square: Square) -> (r: Option<NormalizedSquare>)
        ensures
            r is Some <==> spec_is_normalized(square.spec_index() as int),
            r matches Some(ns) ==> ns.spec_square() == square,
    {
        match square {
            Square::A1 => Some(NormalizedSquare::A1),
            Square::A2 => Some(NormalizedSquare::A2),
            Square::A3 => Some(NormalizedSquare::A3),
            Square::A4 => Some(NormalizedSquare::A4),
            Square::B2 => Some(NormalizedSquare::B2),
            Square::B3 => Some(NormalizedSquare::B3),
            Square::B4 => Some(NormalizedSquare::B4),
            Square::C3 => Some(NormalizedSquare::C3),
            Square::C4 => Some(NormalizedSquare::C4),
            Square::D4 => Some(NormalizedSquare::D4),
            _ => None,
        }
    }

    /// The board square.
    pub fn to_square(self) -> (r: Square)
        ensures
            r == self.spec_square(),
    {
        match self {
            NormalizedSquare::A1 => Square::A1,
            NormalizedSquare::A2 => Square::A2,
            NormalizedSquare::A3 => Square::A3,
            NormalizedSquare::A4 => Square::A4,
            NormalizedSquare::B2 => Square::B2,
            NormalizedSquare::B3 => Square::B3,
            NormalizedSquare::B4 => Square::B4,
            NormalizedSquare::C3 => Square::C3,
            NormalizedSquare::C4 => Square::C4,
            NormalizedSquare::D4 => Square::D4,
        }
    }
}

} // verus!
