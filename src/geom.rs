use vstd::prelude::*;

verus! {

/// A cell position: `x` grows eastward, `y` grows southward.
#[derive(Clone, Copy, Debug, PartialEq, Eq, Structural)]
pub struct Coord {
    pub x: i32,
    pub y: i32,
}

/// The extent of a grid in cells.
#[derive(Clone, Copy, Debug, PartialEq, Eq, Structural)]
pub struct Size {
    pub width: u32,
    pub height: u32,
}

/// The four directions a character may step in.
#[derive(Clone, Copy, Debug, PartialEq, Eq, Structural)]
pub enum CardinalDirection {
    North,
    East,
    South,
    West,
}

impl Coord {
    pub fn new(x: i32, y: i32) -> (r: Coord)
        ensures
            r.x == x,
            r.y == y,
    {
        Coord { x, y }
    }

    /// The coordinate lies inside a grid of the given size.
    pub open spec fn valid_in(self, size: Size) -> bool {
        0 <= self.x < size.width && 0 <= self.y < size.height
    }

    /// Row-major position of a valid coordinate.
    pub open spec fn index_in(self, size: Size) -> int {
        self.y * size.width + self.x
    }

    pub fn is_valid(self, size: Size) -> (r: bool)
        ensures
            r == self.valid_in(size),
    {
        self.x >= 0 && self.y >= 0 && (self.x as i64) < (size.width as i64) && (self.y as i64)
            < (size.height as i64)
    }
}

impl Size {
    pub fn new(width: u32, height: u32) -> (r: Size)
        ensures
            r.width == width,
            r.height == height,
    {
        Size { width, height }
    }

    /// Number of cells.
    pub open spec fn count(self) -> int {
        self.width * self.height
    }

    /// The size can back a grid addressed by `i32` coordinates and `usize` indices.
    pub open spec fn fits(self) -> bool {
        1 <= self.width <= i32::MAX && 1 <= self.height <= i32::MAX && self.width * self.height
            <= usize::MAX
    }
}

/// The coordinate whose row-major index in a grid of `size` is `i`.
pub open spec fn coord_at(size: Size, i: int) -> Coord {
    Coord { x: (i % (size.width as int)) as i32, y: (i / (size.width as int)) as i32 }
}

impl CardinalDirection {
    pub open spec fn dx(self) -> int {
        match self {
            CardinalDirection::East => 1,
            CardinalDirection::West => -1,
            _ => 0,
        }
    }

    pub open spec fn dy(self) -> int {
        match self {
            CardinalDirection::South => 1,
            CardinalDirection::North => -1,
            _ => 0,
        }
    }
}

/// Index bounds of a valid coordinate.
pub proof fn lemma_index_in_range(c: Coord, size: Size)
    requires
        c.valid_in(size),
    ensures
        0 <= c.index_in(size) < size.count(),
{
    assert(c.y * size.width + c.x < (c.y + 1) * size.width) by (nonlinear_arith)
        requires
            c.x < size.width,
    ;
    assert((c.y + 1) * size.width <= size.height * size.width) by (nonlinear_arith)
        requires
            c.y + 1 <= size.height,
    ;
    assert(0 <= c.y * size.width) by (nonlinear_arith)
        requires
            c.y >= 0,
    ;
}

/// Distinct valid coordinates have distinct indices.
pub proof fn lemma_index_injective(a: Coord, b: Coord, size: Size)
    requires
        a.valid_in(size),
        b.valid_in(size),
        a.index_in(size) == b.index_in(size),
    ensures
        a == b,
{
    let w = size.width as int;
    vstd::arithmetic::div_mod::lemma_fundamental_div_mod_converse(
        a.index_in(size),
        w,
        a.y as int,
        a.x as int,
    );
    vstd::arithmetic::div_mod::lemma_fundamental_div_mod_converse(
        b.index_in(size),
        w,
        b.y as int,
        b.x as int,
    );
}

/// `coord_at` inverts `index_in`.
pub proof fn lemma_coord_at(size: Size, i: int)
    requires
        size.fits(),
        0 <= i < size.count(),
    ensures
        coord_at(size, i).valid_in(size),
        coord_at(size, i).index_in(size) == i,
{
    let w = size.width as int;
    vstd::arithmetic::div_mod::lemma_fundamental_div_mod(i, w);
    vstd::arithmetic::div_mod::lemma_div_pos_is_pos(i, w);
    vstd::arithmetic::div_mod::lemma_mod_pos_bound(i, w);
    let q = i / w;
    let h = size.height as int;
    assert(q < h) by (nonlinear_arith)
        requires
            i == w * q + i % w,
            i % w >= 0,
            i < w * h,
            w > 0,
    ;
    assert(q * w == w * q) by (nonlinear_arith);
    assert(coord_at(size, i).x as int == i % w);
    assert(coord_at(size, i).y as int == q);
}

} // verus!
