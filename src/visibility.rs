use vstd::prelude::*;
use crate::geom::{coord_at, Coord, Size};
use crate::world::{Layer, World};

verus! {

/// What the player knows of a cell.
#[derive(Clone, Copy, Debug, PartialEq, Eq, Structural)]
pub enum CellVisibility {
    Never,
    Previously,
    Currently,
}

/// A cell's state after one recomputation in which it is, or is not, in sight.
pub open spec fn next_visibility(s: CellVisibility, in_sight: bool) -> CellVisibility {
    if in_sight {
        CellVisibility::Currently
    } else if s == CellVisibility::Currently {
        CellVisibility::Previously
    } else {
        s
    }
}

/// A cell's state after a run of recomputations, `sights[k]` telling whether it
/// was in sight at the `k`-th.
pub open spec fn after_recomputations(s: CellVisibility, sights: Seq<bool>) -> CellVisibility
    decreases sights.len(),
{
    if sights.len() == 0 {
        s
    } else {
        after_recomputations(next_visibility(s, sights[0]), sights.drop_first())
    }
}

/// A cell once seen is never again unseen, whatever recomputations follow.
pub proof fn lemma_seen_stays_seen(s: CellVisibility, sights: Seq<bool>)
    requires
        s != CellVisibility::Never,
    ensures
        after_recomputations(s, sights) != CellVisibility::Never,
    decreases sights.len(),
{
    if sights.len() > 0 {
        lemma_seen_stays_seen(next_visibility(s, sights[0]), sights.drop_first());
    }
}

/// A cell in sight that drops out of sight is remembered as previously seen.
pub proof fn lemma_lost_sight_is_remembered(sights: Seq<bool>)
    requires
        sights.len() >= 2,
        sights[sights.len() - 2],
        !sights[sights.len() - 1],
    ensures
        forall|s: CellVisibility|
            #[trigger] after_recomputations(s, sights) == CellVisibility::Previously,
    decreases sights.len(),
{
    assert forall|s: CellVisibility|
        #[trigger] after_recomputations(s, sights) == CellVisibility::Previously by {
        lemma_last_two(s, sights);
    }
}

proof fn lemma_last_two(s: CellVisibility, sights: Seq<bool>)
    requires
        sights.len() >= 2,
        sights[sights.len() - 2],
        !sights[sights.len() - 1],
    ensures
        after_recomputations(s, sights) == CellVisibility::Previously,
    decreases sights.len(),
{
    if sights.len() > 2 {
        let rest = sights.drop_first();
        assert(rest[rest.len() - 2] == sights[sights.len() - 2]);
        assert(rest[rest.len() - 1] == sights[sights.len() - 1]);
        lemma_last_two(next_visibility(s, sights[0]), rest);
    } else {
        let rest = sights.drop_first();
        let s1 = next_visibility(s, sights[0]);
        assert(s1 == CellVisibility::Currently);
        assert(after_recomputations(s1, rest) == after_recomputations(
            next_visibility(s1, rest[0]),
            rest.drop_first(),
        ));
        assert(rest.drop_first().len() == 0);
    }
}

/// One visibility state per cell of a grid, row-major.
pub struct VisibilityGrid {
    size: Size,
    cells: Vec<CellVisibility>,
}

impl VisibilityGrid {
    pub closed spec fn spec_size(self) -> Size {
        self.size
    }

    /// The states, row-major.
    pub closed spec fn states(self) -> Seq<CellVisibility> {
        self.cells@
    }

    pub open spec fn wf(self) -> bool {
        self.spec_size().fits() && self.states().len() == self.spec_size().count()
    }

    /// A grid where no cell has been seen yet.
    pub fn new(size: Size) -> (r: VisibilityGrid)
        requires
            size.fits(),
        ensures
            r.wf(),
            r.spec_size() == size,
            forall|i: int| 0 <= i < size.count() ==> #[trigger] r.states()[i] == CellVisibility::Never,
    {
        let n = size.width as usize * size.height as usize;
        let mut cells: Vec<CellVisibility> = Vec::new();
        let mut i: usize = 0;
        while i < n
            invariant
                i <= n,
                cells@.len() == i,
                forall|j: int| 0 <= j < i ==> #[trigger] cells@[j] == CellVisibility::Never,
            decreases n - i,
        {
            cells.push(CellVisibility::Never);
            i = i + 1;
        }
        VisibilityGrid { size, cells }
    }

    /// The state of a cell.
    pub fn get(&self, coord: Coord) -> (r: CellVisibility)
        requires
            self.wf(),
            coord.valid_in(self.spec_size()),
        ensures
            r == self.states()[coord.index_in(self.spec_size())],
    {
        proof {
            crate::geom::lemma_index_in_range(coord, self.size);
        }
        let w = self.size.width as usize;
        let i = coord.y as usize * w + coord.x as usize;
        self.cells[i]
    }

    /// One recomputation: `in_sight[i]` tells whether cell `i` is now in sight.
    pub fn update(&mut self, in_sight: &Vec<bool>)
        requires
            old(self).wf(),
            in_sight@.len() == old(self).spec_size().count(),
        ensures
            final(self).wf(),
            final(self).spec_size() == old(self).spec_size(),
            forall|i: int|
                0 <= i < in_sight@.len() ==> #[trigger] final(self).states()[i] == next_visibility(
                    old(self).states()[i],
                    in_sight@[i],
                ),
    {
        let n = self.cells.len();
        let mut i: usize = 0;
        while i < n
            invariant
                n == self.cells@.len(),
                n == old(self).cells@.len(),
                n == in_sight@.len(),
                self.size == old(self).size,
                i <= n,
                forall|j: int|
                    0 <= j < i ==> #[trigger] self.cells@[j] == next_visibility(
                        old(self).cells@[j],
                        in_sight@[j],
                    ),
                forall|j: int| i <= j < n ==> #[trigger] self.cells@[j] == old(self).cells@[j],
            decreases n - i,
        {
            if in_sight[i] {
                self.cells.set(i, CellVisibility::Currently);
            } else if self.cells[i] == CellVisibility::Currently {
                self.cells.set(i, CellVisibility::Previously);
            }
            i = i + 1;
        }
    }
}


pub open spec fn abs(v: int) -> int {
    if v < 0 {
        -v
    } else {
        v
    }
}

/// Number of king steps between two cells.
pub open spec fn chebyshev(a: Coord, b: Coord) -> int {
    let dx = abs(b.x - a.x);
    let dy = abs(b.y - a.y);
    if dx >= dy {
        dx
    } else {
        dy
    }
}

/// Offset along one axis, rounded to the nearest cell, of the `k`-th of `d` steps
/// covering `delta`.
pub open spec fn line_offset(delta: int, k: int, d: int) -> int {
    let m = (2 * k * abs(delta) + d) / (2 * d);
    if delta < 0 {
        -m
    } else {
        m
    }
}

/// The `k`-th cell of the straight line from `a` to `b`.
pub open spec fn line_point(a: Coord, b: Coord, k: int) -> Coord {
    let d = chebyshev(a, b);
    Coord {
        x: (a.x + line_offset(b.x - a.x, k, d)) as i32,
        y: (a.y + line_offset(b.y - a.y, k, d)) as i32,
    }
}

/// No feature stands on the line from `a` to `b` strictly between them.
pub open spec fn sight_clear(w: World, a: Coord, b: Coord) -> bool {
    forall|k: int|
        1 <= k < chebyshev(a, b) ==> #[trigger] w.occupant(line_point(a, b, k), Layer::Feature) is None
}

/// `b` can be seen from `a`: it is `a` itself, or the line one way or the other
/// is clear. Walls themselves can be seen; they hide what lies behind them.
pub open spec fn in_view(w: World, a: Coord, b: Coord) -> bool {
    a == b || sight_clear(w, a, b) || sight_clear(w, b, a)
}

/// Sight goes both ways.
pub proof fn lemma_view_symmetric(w: World, a: Coord, b: Coord)
    ensures
        in_view(w, a, b) == in_view(w, b, a),
{
}

proof fn lemma_offset_bounds(delta: int, k: int, d: int)
    requires
        0 < d,
        0 <= k <= d,
        abs(delta) <= d,
    ensures
        abs(line_offset(delta, k, d)) <= abs(delta),
        delta >= 0 ==> line_offset(delta, k, d) >= 0,
        delta < 0 ==> line_offset(delta, k, d) <= 0,
{
    let ad = abs(delta);
    let x = 2 * k * ad + d;
    assert(x >= 0) by (nonlinear_arith)
        requires
            k >= 0,
            ad >= 0,
            d > 0,
            x == 2 * k * ad + d,
    ;
    assert(x < (2 * d) * (ad + 1)) by (nonlinear_arith)
        requires
            k <= d,
            ad >= 0,
            d > 0,
            x == 2 * k * ad + d,
    ;
    vstd::arithmetic::div_mod::lemma_multiply_divide_lt(x, 2 * d, ad + 1);
    vstd::arithmetic::div_mod::lemma_div_pos_is_pos(x, 2 * d);
}

fn line_offset_exec(delta: i64, k: u64, d: u64) -> (r: i64)
    requires
        0 < d <= i32::MAX,
        k <= d,
        abs(delta as int) <= d,
    ensures
        r == line_offset(delta as int, k as int, d as int),
{
    let ad: u64 = if delta < 0 {
        (-delta) as u64
    } else {
        delta as u64
    };
    proof {
        assert(k * ad <= d * d) by (nonlinear_arith)
            requires
                k <= d,
                ad <= d,
        ;
        assert(d * d <= (i32::MAX as int) * (i32::MAX as int)) by (nonlinear_arith)
            requires
                0 < d <= i32::MAX,
        ;
        assert((i32::MAX as int) * (i32::MAX as int) == 4611686014132420609);
        assert(2 * k * ad + d <= u64::MAX) by (nonlinear_arith)
            requires
                k * ad <= d * d,
                d * d <= 4611686014132420609,
                d <= i32::MAX,
        ;
        lemma_offset_bounds(delta as int, k as int, d as int);
    }
    let m = (2 * k * ad + d) / (2 * d);
    if delta < 0 {
        -(m as i64)
    } else {
        m as i64
    }
}

/// Whether `sight_clear` holds, asking the world's opacity along the line.
fn sight_clear_exec(world: &World, a: Coord, b: Coord) -> (r: bool)
    requires
        world.wf(),
        a.valid_in(world.spec_size()),
        b.valid_in(world.spec_size()),
    ensures
        r == sight_clear(*world, a, b),
{
    let dx = b.x as i64 - a.x as i64;
    let dy = b.y as i64 - a.y as i64;
    let adx: u64 = if dx < 0 {
        (-dx) as u64
    } else {
        dx as u64
    };
    let ady: u64 = if dy < 0 {
        (-dy) as u64
    } else {
        dy as u64
    };
    let d: u64 = if adx >= ady {
        adx
    } else {
        ady
    };
    assert(d == chebyshev(a, b));
    let mut k: u64 = 1;
    while k < d
        invariant
            world.wf(),
            a.valid_in(world.spec_size()),
            b.valid_in(world.spec_size()),
            d == chebyshev(a, b),
            dx == b.x - a.x,
            dy == b.y - a.y,
            d <= i32::MAX,
            1 <= k,
            forall|j: int|
                1 <= j < k ==> #[trigger] world.occupant(line_point(a, b, j), Layer::Feature) is None,
        decreases d - k,
    {
        let ox = line_offset_exec(dx, k, d);
        let oy = line_offset_exec(dy, k, d);
        proof {
            lemma_offset_bounds(dx as int, k as int, d as int);
            lemma_offset_bounds(dy as int, k as int, d as int);
        }
        let p = Coord { x: (a.x as i64 + ox) as i32, y: (a.y as i64 + oy) as i32 };
        assert(p == line_point(a, b, k as int));
        if world.opacity_at(p) != 0 {
            return false;
        }
        k = k + 1;
    }
    true
}

/// The cells in view from `eye`, row-major.
pub fn field_of_view(world: &World, eye: Coord) -> (r: Vec<bool>)
    requires
        world.wf(),
        eye.valid_in(world.spec_size()),
    ensures
        r@.len() == world.spec_size().count(),
        forall|i: int|
            0 <= i < r@.len() ==> #[trigger] r@[i] == in_view(
                *world,
                eye,
                coord_at(world.spec_size(), i),
            ),
{
    let size = world.size();
    assert(size.fits());
    let w = size.width as usize;
    let n = size.width as usize * size.height as usize;
    let mut r: Vec<bool> = Vec::new();
    let mut i: usize = 0;
    while i < n
        invariant
            world.wf(),
            size.fits(),
            eye.valid_in(size),
            size == world.spec_size(),
            w == size.width,
            n == size.count(),
            i <= n,
            r@.len() == i,
            forall|j: int|
                0 <= j < i ==> #[trigger] r@[j] == in_view(*world, eye, coord_at(size, j)),
        decreases n - i,
    {
        proof {
            crate::geom::lemma_coord_at(size, i as int);
        }
        let c = Coord { x: (i % w) as i32, y: (i / w) as i32 };
        assert(c == coord_at(size, i as int));
        let v = (c.x == eye.x && c.y == eye.y) || sight_clear_exec(world, eye, c)
            || sight_clear_exec(world, c, eye);
        r.push(v);
        i = i + 1;
    }
    r
}

impl VisibilityGrid {
    /// Recomputes what the player at `eye` sees in `world`: cells in view become
    /// currently visible, cells that were and no longer are become previously
    /// seen, and the rest keep their state.
    pub fn recompute(&mut self, world: &World, eye: Coord)
        requires
            old(self).wf(),
            world.wf(),
            old(self).spec_size() == world.spec_size(),
            eye.valid_in(world.spec_size()),
        ensures
            final(self).wf(),
            final(self).spec_size() == old(self).spec_size(),
            forall|i: int|
                0 <= i < old(self).spec_size().count() ==> #[trigger] final(self).states()[i]
                    == next_visibility(
                    old(self).states()[i],
                    in_view(*world, eye, coord_at(world.spec_size(), i)),
                ),
    {
        let v = field_of_view(world, eye);
        self.update(&v);
    }
}

} // verus!
