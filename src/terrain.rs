use vstd::prelude::*;
use vstd::set_lib::{lemma_len_subset};
use crate::geom::{Coord, Size};
use crate::random::{choose_from, choose_multiple_indices, gen_range};
use grid_2d::Grid;
use crate::world::NpcType;

verus! {

/// What the generator puts in one cell.
#[derive(Clone, Copy, Debug, PartialEq, Eq, Structural)]
pub enum TerrainTile {
    Player,
    Floor,
    Wall,
    Npc(NpcType),
}

/// An axis-aligned rectangle of cells: columns `x .. x + width`, rows `y .. y + height`.
#[derive(Clone, Copy, Debug, PartialEq, Eq, Structural)]
pub struct Room {
    pub x: usize,
    pub y: usize,
    pub width: usize,
    pub height: usize,
}

/// The finished terrain: one tile per cell, row-major.
pub struct TerrainGrid {
    pub size: Size,
    pub tiles: Vec<TerrainTile>,
}

impl Room {
    pub open spec fn has(self, x: int, y: int) -> bool {
        self.x <= x < self.x + self.width && self.y <= y < self.y + self.height
    }

    /// The room contains the cell at row-major index `i` of a grid `w` wide.
    pub open spec fn has_index(self, w: int, i: int) -> bool {
        self.has(i % w, i / w)
    }

    /// Top row and left column, which are carved as wall.
    pub open spec fn on_border(self, x: int, y: int) -> bool {
        x == self.x || y == self.y
    }

    pub open spec fn inside(self, w: int, h: int) -> bool {
        self.x + self.width <= w && self.y + self.height <= h
    }

    /// Shape of a room drawn by the generator, for a grid `w` by `h`.
    pub open spec fn drawn_for(self, w: int, h: int) -> bool {
        5 <= self.width < 11 && 5 <= self.height < 9 && self.x + self.width < w && self.y
            + self.height < h
    }

    pub open spec fn disjoint(self, other: Room) -> bool {
        self.x + self.width <= other.x || other.x + other.width <= self.x || self.y + self.height
            <= other.y || other.y + other.height <= self.y
    }

    pub open spec fn center_x(self) -> int {
        self.x + self.width / 2
    }

    pub open spec fn center_y(self) -> int {
        self.y + self.height / 2
    }

    pub open spec fn center_index(self, w: int) -> int {
        self.center_y() * w + self.center_x()
    }

    pub open spec fn center_coord(self) -> Coord {
        Coord { x: self.center_x() as i32, y: self.center_y() as i32 }
    }

    /// The cell at the middle of the room.
    pub fn center(&self) -> (r: Coord)
        requires
            self.x + self.width <= i32::MAX,
            self.y + self.height <= i32::MAX,
        ensures
            r.x == self.center_x(),
            r.y == self.center_y(),
            r == self.center_coord(),
    {
        Coord { x: (self.x + self.width / 2) as i32, y: (self.y + self.height / 2) as i32 }
    }
}

/// Row-major index arithmetic for a cell of a grid `w` by `h`.
pub proof fn lemma_cell_index(w: int, h: int, x: int, y: int)
    requires
        0 <= x < w,
        0 <= y < h,
    ensures
        0 <= y * w + x < w * h,
        (y * w + x) % w == x,
        (y * w + x) / w == y,
{
    assert(y * w + x < (y + 1) * w) by (nonlinear_arith)
        requires
            x < w,
    ;
    assert((y + 1) * w <= w * h) by (nonlinear_arith)
        requires
            y + 1 <= h,
            w > 0,
    ;
    assert(0 <= y * w) by (nonlinear_arith)
        requires
            y >= 0,
            w > 0,
    ;
    vstd::arithmetic::div_mod::lemma_fundamental_div_mod_converse(y * w + x, w, y, x);
}

/// Decoding a row-major index of a grid `w` by `h`.
pub proof fn lemma_index_cell(w: int, h: int, i: int)
    requires
        0 < w,
        0 <= i < w * h,
    ensures
        0 <= i % w < w,
        0 <= i / w < h,
        (i / w) * w + i % w == i,
{
    vstd::arithmetic::div_mod::lemma_fundamental_div_mod(i, w);
    vstd::arithmetic::div_mod::lemma_div_pos_is_pos(i, w);
    vstd::arithmetic::div_mod::lemma_mod_pos_bound(i, w);
    let q = i / w;
    assert(q < h) by (nonlinear_arith)
        requires
            i == w * q + i % w,
            i % w >= 0,
            i < w * h,
            w > 0,
    ;
    assert(q * w == w * q) by (nonlinear_arith);
}

/// Two rooms whose cells are respectively all empty and all filled do not overlap.
proof fn lemma_disjoint_by_cells(a: Room, b: Room, w: int, h: int, g: Seq<Option<TerrainTile>>)
    requires
        0 < w,
        a.inside(w, h),
        b.inside(w, h),
        a.width > 0 && a.height > 0,
        b.width > 0 && b.height > 0,
        g.len() == w * h,
        forall|i: int| 0 <= i < w * h && #[trigger] a.has_index(w, i) ==> g[i] is None,
        forall|i: int| 0 <= i < w * h && #[trigger] b.has_index(w, i) ==> g[i] is Some,
    ensures
        a.disjoint(b),
{
    if !a.disjoint(b) {
        let x: int = if a.x >= b.x { a.x as int } else { b.x as int };
        let y: int = if a.y >= b.y { a.y as int } else { b.y as int };
        lemma_cell_index(w, h, x, y);
        let i = y * w + x;
        assert(a.has_index(w, i));
        assert(b.has_index(w, i));
    }
}

/// Draws a room of random size at a random position strictly inside `bounds`.
fn choose_room(bounds: Size, rng: &mut rand::rngs::StdRng) -> (r: Room)
    requires
        bounds.width >= 11,
        bounds.height >= 9,
    ensures
        r.drawn_for(bounds.width as int, bounds.height as int),
{
    let width = gen_range(rng, 5, 11);
    let height = gen_range(rng, 5, 9);
    let left = gen_range(rng, 0, bounds.width - width);
    let top = gen_range(rng, 0, bounds.height - height);
    Room { x: left as usize, y: top as usize, width: width as usize, height: height as usize }
}

/// `grid_2d::Grid`, the row-major grid that holds the terrain while it is
/// generated; its contents are known through `draft_cells`.
#[verifier::external_type_specification]
#[verifier::external_body]
#[verifier::reject_recursive_types(T)]
pub struct ExGrid<T>(grid_2d::Grid<T>);

/// The cells of a terrain grid under construction, row-major; unset cells hold `None`.
pub uninterp spec fn draft_cells(g: Grid<Option<TerrainTile>>) -> Seq<Option<TerrainTile>>;

/// Relies on `grid_2d::Grid::new_copy`: `width * height` copies of the value, in
/// row-major order. `UCoord::new` panics on a dimension above `i32::MAX`, and
/// `UCoord::count` multiplies the sides as `u32`.
#[verifier::external_body]
fn new_draft(width: u32, height: u32) -> (g: Grid<Option<TerrainTile>>)
    requires
        width <= i32::MAX,
        height <= i32::MAX,
        width * height <= u32::MAX,
    ensures
        draft_cells(g).len() == width * height,
        forall|i: int| 0 <= i < width * height ==> #[trigger] draft_cells(g)[i] is None,
{
    Grid::new_copy(grid_2d::UCoord::new(width, height), None)
}

/// Relies on `grid_2d::Grid::len`: the number of cells.
#[verifier::external_body]
fn draft_len(g: &Grid<Option<TerrainTile>>) -> (r: usize)
    ensures
        r == draft_cells(*g).len(),
{
    g.len()
}

/// Relies on `grid_2d::Grid::get_index_checked`: the cell at a row-major index,
/// which panics past the last cell.
#[verifier::external_body]
fn draft_get(g: &Grid<Option<TerrainTile>>, i: usize) -> (r: Option<TerrainTile>)
    requires
        i < draft_cells(*g).len(),
    ensures
        r == draft_cells(*g)[i as int],
{
    *g.get_index_checked(i)
}

/// Relies on `grid_2d::Grid::get_index_checked_mut`: overwrites the cell at a
/// row-major index, which panics past the last cell.
#[verifier::external_body]
fn draft_set(g: &mut Grid<Option<TerrainTile>>, i: usize, v: Option<TerrainTile>)
    requires
        i < draft_cells(*old(g)).len(),
    ensures
        draft_cells(*final(g)) == draft_cells(*old(g)).update(i as int, v),
{
    *g.get_index_checked_mut(i) = v;
}

/// Every cell of the room is still unset.
fn only_intersects_empty(room: &Room, grid: &Grid<Option<TerrainTile>>, w: usize) -> (r: bool)
    requires
        w > 0,
    ensures
        r == forall|i: int| 0 <= i < draft_cells(*grid).len() && #[trigger] room.has_index(w as int, i) ==> draft_cells(*grid)[i] is None,
{
    let n = draft_len(grid);
    let mut i: usize = 0;
    while i < n
        invariant
            w > 0,
            n == draft_cells(*grid).len(),
            i <= n,
            forall|j: int| 0 <= j < i && #[trigger] room.has_index(w as int, j) ==> draft_cells(*grid)[j] is None,
        decreases n - i,
    {
        let x = i % w;
        let y = i / w;
        if room.x <= x && x - room.x < room.width && room.y <= y && y - room.y < room.height {
            if draft_get(grid, i).is_some() {
                assert(room.has_index(w as int, i as int));
                return false;
            }
        }
        i = i + 1;
    }
    true
}

/// Tile that carving gives a cell of the room.
pub open spec fn carved(room: Room, x: int, y: int) -> TerrainTile {
    if room.on_border(x, y) {
        TerrainTile::Wall
    } else {
        TerrainTile::Floor
    }
}

/// Carves the room: its top row and left column become wall, the rest floor.
fn carve_out(room: &Room, grid: &mut Grid<Option<TerrainTile>>, w: usize)
    requires
        w > 0,
    ensures
        draft_cells(*final(grid)).len() == draft_cells(*old(grid)).len(),
        forall|i: int|
            0 <= i < draft_cells(*old(grid)).len() ==> #[trigger] draft_cells(*final(grid))[i] == if room.has_index(w as int, i) {
                Some(carved(*room, i % (w as int), i / (w as int)))
            } else {
                draft_cells(*old(grid))[i]
            },
{
    let n = draft_len(grid);
    let mut i: usize = 0;
    while i < n
        invariant
            w > 0,
            n == draft_cells(*grid).len(),
            n == draft_cells(*old(grid)).len(),
            i <= n,
            forall|j: int|
                0 <= j < i ==> #[trigger] draft_cells(*grid)[j] == if room.has_index(w as int, j) {
                    Some(carved(*room, j % (w as int), j / (w as int)))
                } else {
                    draft_cells(*old(grid))[j]
                },
            forall|j: int| i <= j < n ==> #[trigger] draft_cells(*grid)[j] == draft_cells(*old(grid))[j],
        decreases n - i,
    {
        let x = i % w;
        let y = i / w;
        if room.x <= x && x - room.x < room.width && room.y <= y && y - room.y < room.height {
            if x == room.x || y == room.y {
                draft_set(grid, i, Some(TerrainTile::Wall));
            } else {
                draft_set(grid, i, Some(TerrainTile::Floor));
            }
        }
        i = i + 1;
    }
}


/// The kind of NPC for a percentile roll: below 80 an orc, otherwise a troll.
pub fn npc_for_roll(roll: u32) -> (t: NpcType)
    ensures
        t == (if roll < 80 {
            NpcType::Orc
        } else {
            NpcType::Troll
        }),
{
    if roll < 80 {
        NpcType::Orc
    } else {
        NpcType::Troll
    }
}

/// The draw table for the number of NPCs in a room: six 0s, four 1s, three
/// 2s, two 3s and one 4.
pub fn npcs_per_room_table() -> (t: Vec<usize>)
    ensures
        t@ == seq![0usize, 0, 0, 0, 0, 0, 1, 1, 1, 1, 2, 2, 2, 3, 3, 4],
{
    let mut t: Vec<usize> = Vec::new();
    t.push(0);
    t.push(0);
    t.push(0);
    t.push(0);
    t.push(0);
    t.push(0);
    t.push(1);
    t.push(1);
    t.push(1);
    t.push(1);
    t.push(2);
    t.push(2);
    t.push(2);
    t.push(3);
    t.push(3);
    t.push(4);
    assert(t@ =~= seq![0usize, 0, 0, 0, 0, 0, 1, 1, 1, 1, 2, 2, 2, 3, 3, 4]);
    t
}

pub open spec fn is_npc_cell(t: Option<TerrainTile>) -> bool {
    t matches Some(TerrainTile::Npc(_))
}

/// Indices below `n` of the room's cells that hold an NPC in the draft `g`.
pub open spec fn draft_npcs(room: Room, w: int, n: int, g: Seq<Option<TerrainTile>>) -> Set<int> {
    Set::new(|i: int| 0 <= i < n && room.has_index(w, i) && is_npc_cell(g[i]))
}

/// Indices below `n` of the room's cells that hold an NPC in `tiles`.
pub open spec fn room_npcs(room: Room, w: int, n: int, tiles: Seq<TerrainTile>) -> Set<int> {
    Set::new(|i: int| 0 <= i < n && room.has_index(w, i) && tiles[i] is Npc)
}

proof fn lemma_draft_npcs_same(
    room: Room,
    w: int,
    n: int,
    g1: Seq<Option<TerrainTile>>,
    g2: Seq<Option<TerrainTile>>,
)
    requires
        forall|i: int| 0 <= i < n && room.has_index(w, i) ==> is_npc_cell(g1[i]) == is_npc_cell(g2[i]),
    ensures
        draft_npcs(room, w, n, g1) == draft_npcs(room, w, n, g2),
{
    assert(draft_npcs(room, w, n, g1) =~= draft_npcs(room, w, n, g2));
}

/// Row-major indices below `n` of the room's floor cells in `g`.
pub open spec fn floor_cells(room: Room, w: int, g: Seq<Option<TerrainTile>>, n: int) -> Seq<int>
    decreases n,
{
    if n <= 0 {
        seq![]
    } else {
        let prev = floor_cells(room, w, g, n - 1);
        if room.has_index(w, n - 1) && g[n - 1] == Some(TerrainTile::Floor) {
            prev.push(n - 1)
        } else {
            prev
        }
    }
}

/// Places `count` NPCs, or as many as there are floor cells in the room, on
/// distinct floor cells of the room; roughly four in five are orcs, the rest
/// trolls. Returns the cells used; no other cell changes.
fn place_npcs(
    room: &Room,
    count: usize,
    grid: &mut Grid<Option<TerrainTile>>,
    w: usize,
    rng: &mut rand::rngs::StdRng,
) -> (placed: Vec<usize>)
    requires
        w > 0,
    ensures
        draft_cells(*final(grid)).len() == draft_cells(*old(grid)).len(),
        placed@.len() == if count < floor_cells(*room, w as int, draft_cells(*old(grid)), draft_cells(*old(grid)).len() as int).len() {
            count as int
        } else {
            floor_cells(*room, w as int, draft_cells(*old(grid)), draft_cells(*old(grid)).len() as int).len() as int
        },
        forall|a: int, b: int| 0 <= a < b < placed@.len() ==> placed@[a] != placed@[b],
        forall|k: int|
            0 <= k < placed@.len() ==> floor_cells(
                *room,
                w as int,
                draft_cells(*old(grid)),
                draft_cells(*old(grid)).len() as int,
            ).contains(#[trigger] placed@[k] as int) && draft_cells(*final(grid))[placed@[k] as int] matches Some(
                TerrainTile::Npc(_),
            ),
        forall|i: int|
            0 <= i < draft_cells(*old(grid)).len() && #[trigger] draft_cells(*final(grid))[i] != draft_cells(*old(grid))[i] ==> room.has_index(
                w as int,
                i,
            ) && draft_cells(*old(grid))[i] == Some(TerrainTile::Floor) && placed@.contains(i as usize) && draft_cells(*final(grid))[i] matches Some(TerrainTile::Npc(_)),
{
    let n = draft_len(grid);
    let ghost g0 = draft_cells(*grid);
    let mut floor: Vec<usize> = Vec::new();
    let mut i: usize = 0;
    while i < n
        invariant
            w > 0,
            n == draft_cells(*grid).len(),
            draft_cells(*grid) == g0,
            i <= n,
            floor@.len() == floor_cells(*room, w as int, g0, i as int).len(),
            forall|k: int|
                0 <= k < floor@.len() ==> #[trigger] floor@[k] as int == floor_cells(
                    *room,
                    w as int,
                    g0,
                    i as int,
                )[k],
            forall|k: int|
                0 <= k < floor@.len() ==> #[trigger] floor@[k] < i && room.has_index(
                    w as int,
                    floor@[k] as int,
                ) && g0[floor@[k] as int] == Some(TerrainTile::Floor),
            forall|a: int, b: int| 0 <= a < b < floor@.len() ==> floor@[a] < floor@[b],
        decreases n - i,
    {
        let x = i % w;
        let y = i / w;
        if room.x <= x && x - room.x < room.width && room.y <= y && y - room.y < room.height
            && matches!(draft_get(grid, i), Some(TerrainTile::Floor)) {
            floor.push(i);
        }
        i = i + 1;
    }
    let ghost cells = floor_cells(*room, w as int, g0, n as int);
    let chosen = choose_multiple_indices(rng, floor.len(), count);
    let mut placed: Vec<usize> = Vec::new();
    let mut k: usize = 0;
    while k < chosen.len()
        invariant
            w > 0,
            n == draft_cells(*grid).len(),
            n == g0.len(),
            g0 == draft_cells(*old(grid)),
            k <= chosen@.len(),
            placed@.len() == k,
            floor@.len() == cells.len(),
            forall|m: int| 0 <= m < floor@.len() ==> #[trigger] floor@[m] as int == cells[m],
            forall|a: int, b: int| 0 <= a < b < floor@.len() ==> floor@[a] < floor@[b],
            forall|j: int| 0 <= j < chosen@.len() ==> #[trigger] chosen@[j] < floor@.len(),
            forall|a: int, b: int| 0 <= a < b < chosen@.len() ==> chosen@[a] != chosen@[b],
            forall|m: int|
                0 <= m < floor@.len() ==> #[trigger] floor@[m] < n && room.has_index(
                    w as int,
                    floor@[m] as int,
                ) && g0[floor@[m] as int] == Some(TerrainTile::Floor),
            forall|m: int| 0 <= m < k ==> #[trigger] placed@[m] == floor@[chosen@[m] as int],
            forall|m: int|
                0 <= m < k ==> draft_cells(*grid)[#[trigger] placed@[m] as int] matches Some(TerrainTile::Npc(_)),
            forall|j: int|
                0 <= j < n && #[trigger] draft_cells(*grid)[j] != g0[j] ==> room.has_index(w as int, j)
                    && g0[j] == Some(TerrainTile::Floor) && placed@.contains(j as usize) && draft_cells(*grid)[j] matches Some(TerrainTile::Npc(_)),
        decreases chosen@.len() - k,
    {
        let roll = gen_range(rng, 0, 100);
        let npc_type = npc_for_roll(roll);
        let cell = floor[chosen[k]];
        let ghost before = draft_cells(*grid);
        let ghost placed_before = placed@;
        draft_set(grid, cell, Some(TerrainTile::Npc(npc_type)));
        placed.push(cell);
        proof {
            assert forall|j: int|
                0 <= j < n && #[trigger] draft_cells(*grid)[j] != g0[j] implies room.has_index(w as int, j)
                    && g0[j] == Some(TerrainTile::Floor) && placed@.contains(j as usize) && draft_cells(*grid)[j] matches Some(TerrainTile::Npc(_)) by {
                if j == cell as int {
                    assert(placed@[k as int] == cell);
                } else {
                    assert(before[j] != g0[j]);
                    let m = choose|m: int| 0 <= m < placed_before.len() && placed_before[m] == j as usize;
                    assert(placed@[m] == j as usize);
                }
            }
            assert forall|m: int| 0 <= m < k + 1 implies draft_cells(*grid)[#[trigger] placed@[m] as int] matches Some(
                TerrainTile::Npc(_),
            ) by {
                if m < k {
                    assert(placed@[m] == placed_before[m]);
                }
            }
        }
        k = k + 1;
    }
    proof {
        assert forall|a: int, b: int| 0 <= a < b < placed@.len() implies placed@[a] != placed@[b] by {
            let ca = chosen@[a] as int;
            let cb = chosen@[b] as int;
            if ca < cb {
                assert(floor@[ca] < floor@[cb]);
            } else {
                assert(floor@[cb] < floor@[ca]);
            }
        }
        assert forall|m: int| 0 <= m < placed@.len() implies cells.contains(
            #[trigger] placed@[m] as int,
        ) by {
            let c = chosen@[m] as int;
            assert(cells[c] == placed@[m] as int);
        }
    }
    placed
}

/// The L-shaped path between two cells: along the start's row, then along the
/// end's column.
pub open spec fn on_corridor(start: Coord, end: Coord, x: int, y: int) -> bool {
    (y == start.y && ((start.x <= x <= end.x) || (end.x <= x <= start.x))) || (x == end.x && ((
    start.y <= y <= end.y) || (end.y <= y <= start.y)))
}

/// Tile a corridor leaves in a cell of its path: unset cells and walls become floor.
pub open spec fn corridor_tile(t: Option<TerrainTile>) -> Option<TerrainTile> {
    match t {
        None => Some(TerrainTile::Floor),
        Some(TerrainTile::Wall) => Some(TerrainTile::Floor),
        _ => t,
    }
}

/// Carves the corridor from `start` to `end`.
fn carve_corridor(start: Coord, end: Coord, grid: &mut Grid<Option<TerrainTile>>, w: usize)
    requires
        w > 0,
        draft_cells(*old(grid)).len() <= i32::MAX as int * w as int,
        w <= i32::MAX,
    ensures
        draft_cells(*final(grid)).len() == draft_cells(*old(grid)).len(),
        forall|i: int|
            0 <= i < draft_cells(*old(grid)).len() ==> #[trigger] draft_cells(*final(grid))[i] == if on_corridor(
                start,
                end,
                i % (w as int),
                i / (w as int),
            ) {
                corridor_tile(draft_cells(*old(grid))[i])
            } else {
                draft_cells(*old(grid))[i]
            },
{
    let n = draft_len(grid);
    let mut i: usize = 0;
    while i < n
        invariant
            w > 0,
            w <= i32::MAX,
            n <= i32::MAX as int * w as int,
            n == draft_cells(*grid).len(),
            n == draft_cells(*old(grid)).len(),
            i <= n,
            forall|j: int|
                0 <= j < i ==> #[trigger] draft_cells(*grid)[j] == if on_corridor(
                    start,
                    end,
                    j % (w as int),
                    j / (w as int),
                ) {
                    corridor_tile(draft_cells(*old(grid))[j])
                } else {
                    draft_cells(*old(grid))[j]
                },
            forall|j: int| i <= j < n ==> #[trigger] draft_cells(*grid)[j] == draft_cells(*old(grid))[j],
        decreases n - i,
    {
        proof {
            lemma_index_cell(w as int, i32::MAX as int, i as int);
        }
        let x = (i % w) as i32;
        let y = (i / w) as i32;
        let on_row = y == start.y && ((start.x <= x && x <= end.x) || (end.x <= x && x
            <= start.x));
        let on_column = x == end.x && ((start.y <= y && y <= end.y) || (end.y <= y && y
            <= start.y));
        if on_row || on_column {
            match draft_get(grid, i) {
                None => draft_set(grid, i, Some(TerrainTile::Floor)),
                Some(TerrainTile::Wall) => draft_set(grid, i, Some(TerrainTile::Floor)),
                _ => {},
            }
        }
        i = i + 1;
    }
}


/// Turns every unset cell into wall.
pub fn fill_unset(grid: &Grid<Option<TerrainTile>>) -> (r: Vec<TerrainTile>)
    ensures
        r@.len() == draft_cells(*grid).len(),
        forall|i: int|
            0 <= i < draft_cells(*grid).len() ==> #[trigger] r@[i] == match draft_cells(*grid)[i] {
                Some(t) => t,
                None => TerrainTile::Wall,
            },
{
    let mut r: Vec<TerrainTile> = Vec::new();
    let mut i: usize = 0;
    while i < draft_len(grid)
        invariant
            i <= draft_cells(*grid).len(),
            r@.len() == i,
            forall|j: int|
                0 <= j < i ==> #[trigger] r@[j] == match draft_cells(*grid)[j] {
                    Some(t) => t,
                    None => TerrainTile::Wall,
                },
        decreases draft_cells(*grid).len() - i,
    {
        let t = match draft_get(grid, i) {
            Some(t) => t,
            None => TerrainTile::Wall,
        };
        r.push(t);
        i = i + 1;
    }
    r
}

/// Cell `i` lies in one of the rooms.
pub open spec fn in_some_room(rooms: Seq<Room>, w: int, i: int) -> bool {
    exists|k: int| 0 <= k < rooms.len() && #[trigger] rooms[k].has_index(w, i)
}

/// Cell `i` lies in one of the rooms, off its top row and left column.
pub open spec fn in_some_room_interior(rooms: Seq<Room>, w: int, i: int) -> bool {
    exists|k: int|
        0 <= k < rooms.len() && #[trigger] rooms[k].has_index(w, i) && !rooms[k].on_border(
            i % w,
            i / w,
        )
}

/// Cell `i` lies on one of the corridors joining room `m - 1` to room `m`, for
/// `1 <= m < upto`.
pub open spec fn on_some_corridor(rooms: Seq<Room>, w: int, i: int, upto: int) -> bool {
    exists|m: int|
        1 <= m < upto && m < rooms.len() && #[trigger] on_corridor(
            rooms[m - 1].center_coord(),
            rooms[m].center_coord(),
            i % w,
            i / w,
        )
}

/// What holds of the generator's output, its tiles and the rooms it accepted,
/// in acceptance order: at least one room was accepted; the rooms lie inside
/// the grid and are pairwise disjoint; the one player tile sits at the first
/// room's center; a room's top row and left column are wall, or floor where a
/// corridor crosses them, and the rest of it is never wall; the corridors
/// joining consecutive room centers are never wall; NPCs stand only inside
/// rooms, off their top row and left column, at most four to a room; and
/// every other cell is wall.
pub open spec fn layout_ok(size: Size, tiles: Seq<TerrainTile>, rooms: Seq<Room>) -> bool {
    let w = size.width as int;
    let h = size.height as int;
    &&& tiles.len() == w * h
    &&& forall|k: int| 0 <= k < rooms.len() ==> #[trigger] rooms[k].drawn_for(w, h)
    &&& forall|a: int, b: int| 0 <= a < b < rooms.len() ==> #[trigger] rooms[a].disjoint(rooms[b])
    &&& 0 < rooms.len() <= 100
    &&& forall|i: int|
        0 <= i < w * h ==> (#[trigger] tiles[i] == TerrainTile::Player) == (i
            == rooms[0].center_index(w))
    &&& forall|k: int, i: int|
        0 <= k < rooms.len() && 0 <= i < w * h && #[trigger] rooms[k].has_index(w, i) ==> if rooms[k].on_border(
            i % w,
            i / w,
        ) {
            (tiles[i] == TerrainTile::Wall || tiles[i] == TerrainTile::Floor) && (!on_some_corridor(
                rooms,
                w,
                i,
                rooms.len() as int,
            ) ==> tiles[i] == TerrainTile::Wall)
        } else {
            tiles[i] != TerrainTile::Wall
        }
    &&& forall|i: int|
        0 <= i < w * h && !in_some_room(rooms, w, i) && !on_some_corridor(
            rooms,
            w,
            i,
            rooms.len() as int,
        ) ==> #[trigger] tiles[i] == TerrainTile::Wall
    &&& forall|k: int|
        0 <= k < rooms.len() ==> (#[trigger] room_npcs(rooms[k], w, w * h, tiles)).finite()
            && room_npcs(rooms[k], w, w * h, tiles).len() <= 4
    &&& forall|i: int|
        0 <= i < w * h && (#[trigger] tiles[i] is Npc) ==> in_some_room_interior(
            rooms,
            w,
            i,
        )
    &&& forall|k: int, i: int|
        1 <= k < rooms.len() && 0 <= i < w * h && #[trigger] on_corridor(
            rooms[k - 1].center_coord(),
            rooms[k].center_coord(),
            i % w,
            i / w,
        ) ==> tiles[i] != TerrainTile::Wall
}

/// The outer rows and columns of generated terrain are wall.
pub proof fn lemma_edge_is_wall(size: Size, tiles: Seq<TerrainTile>, rooms: Seq<Room>)
    requires
        size.fits(),
        layout_ok(size, tiles, rooms),
    ensures
        forall|i: int|
            0 <= i < size.count() && (i % (size.width as int) == 0 || i / (size.width as int) == 0
                || i % (size.width as int) == size.width - 1 || i / (size.width as int)
                == size.height - 1) ==> #[trigger] tiles[i] == TerrainTile::Wall,
{
    let w = size.width as int;
    let h = size.height as int;
    assert forall|i: int|
        0 <= i < size.count() && (i % w == 0 || i / w == 0 || i % w == w - 1 || i / w == h - 1)
            implies #[trigger] tiles[i] == TerrainTile::Wall by {
        lemma_index_cell(w, h, i);
        assert(!on_some_corridor(rooms, w, i, rooms.len() as int)) by {
            if on_some_corridor(rooms, w, i, rooms.len() as int) {
                let m = choose|m: int|
                    1 <= m < rooms.len() && m < rooms.len() && #[trigger] on_corridor(
                        rooms[m - 1].center_coord(),
                        rooms[m].center_coord(),
                        i % w,
                        i / w,
                    );
                assert(rooms[m - 1].drawn_for(w, h));
                assert(rooms[m].drawn_for(w, h));
            }
        }
        if in_some_room(rooms, w, i) {
            let k = choose|k: int| 0 <= k < rooms.len() && #[trigger] rooms[k].has_index(w, i);
            assert(rooms[k].drawn_for(w, h));
            assert(rooms[k].on_border(i % w, i / w));
        }
    }
}

/// The grid size the generator needs: rooms of up to ten columns and eight rows
/// must fit strictly inside it, and the cell count must fit in a `u32`.
pub open spec fn generator_size(size: Size) -> bool {
    size.fits() && size.width >= 11 && size.height >= 9 && size.width * size.height <= u32::MAX
}

/// Generates the terrain and reports the accepted rooms in acceptance order.
pub fn generate_layout(size: Size, rng: &mut rand::rngs::StdRng) -> (r: (TerrainGrid, Vec<Room>))
    requires
        generator_size(size),
    ensures
        r.0.size == size,
        layout_ok(size, r.0.tiles@, r.1@),
{
    let w = size.width as usize;
    let h = size.height as usize;
    let ghost wi = w as int;
    let ghost hi = h as int;
    let n = w * h;
    let mut grid = new_draft(size.width, size.height);
    let npcs_per_room = npcs_per_room_table();
    let mut rooms: Vec<Room> = Vec::new();
    let mut attempt: usize = 0;
    while attempt < 100
        invariant
            generator_size(size),
            w == size.width,
            h == size.height,
            wi == w,
            hi == h,
            n == wi * hi,
            draft_cells(grid).len() == n,
            attempt > 0 ==> rooms@.len() > 0,
            rooms@.len() <= attempt,
            attempt <= 100,
            npcs_per_room@ == seq![0usize, 0, 0, 0, 0, 0, 1, 1, 1, 1, 2, 2, 2, 3, 3, 4],
            forall|k: int|
                0 <= k < rooms@.len() ==> (#[trigger] draft_npcs(rooms@[k], wi, n as int, draft_cells(grid))).finite()
                    && draft_npcs(rooms@[k], wi, n as int, draft_cells(grid)).len() <= 4,
            forall|j: int|
                0 <= j < n && !in_some_room(rooms@, wi, j) ==> #[trigger] draft_cells(grid)[j] is None,
            rooms@.len() == 0 ==> forall|j: int| 0 <= j < n ==> #[trigger] draft_cells(grid)[j] is None,
            forall|k: int| 0 <= k < rooms@.len() ==> #[trigger] rooms@[k].drawn_for(wi, hi),
            forall|a: int, b: int|
                0 <= a < b < rooms@.len() ==> #[trigger] rooms@[a].disjoint(rooms@[b]),
            forall|k: int, j: int|
                0 <= k < rooms@.len() && 0 <= j < n && #[trigger] rooms@[k].has_index(wi, j)
                    ==> if rooms@[k].on_border(j % wi, j / wi) {
                    draft_cells(grid)[j] == Some(TerrainTile::Wall)
                } else {
                    draft_cells(grid)[j] is Some && draft_cells(grid)[j] != Some(TerrainTile::Wall)
                },
            forall|j: int|
                0 <= j < n ==> (#[trigger] draft_cells(grid)[j] == Some(TerrainTile::Player)) == (
                rooms@.len() > 0 && j == rooms@[0].center_index(wi)),
        decreases 100 - attempt,
    {
        let room = choose_room(size, rng);
        if only_intersects_empty(&room, &grid, w) {
            let ghost before = draft_cells(grid);
            let ghost old_rooms = rooms@;
            proof {
                assert forall|k: int, j: int|
                    0 <= k < rooms@.len() && 0 <= j < n && #[trigger] rooms@[k].has_index(wi, j)
                        implies before[j] is Some by {
                    if rooms@[k].on_border(j % wi, j / wi) {
                    }
                }
                assert forall|k: int| 0 <= k < rooms@.len() implies #[trigger] rooms@[k].disjoint(
                    room,
                ) by {
                    assert(rooms@[k].drawn_for(wi, hi));
                    lemma_disjoint_by_cells(room, rooms@[k], wi, hi, draft_cells(grid));
                    assert(room.disjoint(rooms@[k]));
                }
            }
            carve_out(&room, &mut grid, w);
            let ghost c1 = draft_cells(grid);
            let ghost cx = room.center_x();
            let ghost cy = room.center_y();
            proof {
                lemma_cell_index(wi, hi, cx, cy);
                assert(room.has_index(wi, room.center_index(wi)));
            }
            if rooms.len() == 0 {
                let c = (room.y + room.height / 2) * w + (room.x + room.width / 2);
                draft_set(&mut grid, c, Some(TerrainTile::Player));
            }
            let ghost c2 = draft_cells(grid);
            rooms.push(room);
            let placed: Vec<usize> = match choose_from(rng, npcs_per_room.as_slice()) {
                Some(count) => {
                    proof {
                        let t = npcs_per_room@;
                        let idx = choose|idx: int| 0 <= idx < t.len() && t[idx] == count;
                        assert(count <= 4);
                    }
                    place_npcs(&room, count, &mut grid, w, rng)
                },
                None => Vec::new(),
            };
            proof {
                let ci = room.center_index(wi);
                assert forall|j: int| 0 <= j < n && #[trigger] draft_cells(grid)[j] != c2[j] implies room.has_index(
                    wi,
                    j,
                ) && !room.on_border(j % wi, j / wi) && draft_cells(grid)[j] matches Some(TerrainTile::Npc(_)) by {
                    if room.on_border(j % wi, j / wi) {
                        assert(j != ci);
                        assert(c1[j] == Some(TerrainTile::Wall));
                    }
                }
                assert forall|k: int, j: int|
                    0 <= k < rooms@.len() && 0 <= j < n && #[trigger] rooms@[k].has_index(wi, j)
                        implies if rooms@[k].on_border(j % wi, j / wi) {
                        draft_cells(grid)[j] == Some(TerrainTile::Wall)
                    } else {
                        draft_cells(grid)[j] is Some && draft_cells(grid)[j] != Some(TerrainTile::Wall)
                    } by {
                    if k < rooms@.len() - 1 {
                        assert(old_rooms[k] == rooms@[k]);
                        assert(before[j] is Some);
                        assert(!room.has_index(wi, j));
                        assert(c1[j] == before[j]);
                        assert(j != ci);
                        assert(draft_cells(grid)[j] == c2[j]);
                    } else {
                        assert(rooms@[k] == room);
                        if draft_cells(grid)[j] == c2[j] {
                            if j != ci {
                                assert(c2[j] == c1[j]);
                            }
                        }
                    }
                }
                assert forall|a: int, b: int| 0 <= a < b < rooms@.len() implies #[trigger] rooms@[
                    a].disjoint(rooms@[b]) by {
                    if b == rooms@.len() - 1 {
                        assert(old_rooms[a].disjoint(room));
                    } else {
                        assert(old_rooms[a].disjoint(old_rooms[b]));
                    }
                }
                assert forall|k: int| 0 <= k < rooms@.len() implies #[trigger] rooms@[k].drawn_for(
                    wi,
                    hi,
                ) by {
                    if k < rooms@.len() - 1 {
                        assert(old_rooms[k].drawn_for(wi, hi));
                    }
                }
                assert forall|j: int| 0 <= j < n implies (#[trigger] draft_cells(grid)[j] == Some(
                    TerrainTile::Player,
                )) == (rooms@.len() > 0 && j == rooms@[0].center_index(wi)) by {
                    if draft_cells(grid)[j] != c2[j] {
                        assert(draft_cells(grid)[j] matches Some(TerrainTile::Npc(_)));
                        assert(c2[j] == Some(TerrainTile::Floor));
                    }
                    if j != ci {
                        assert(c2[j] == c1[j]);
                        if room.has_index(wi, j) {
                            assert(before[j] is None);
                        }
                    }
                }
            }
            proof {
                let ci = room.center_index(wi);
                let last = rooms@.len() - 1;
                assert(rooms@[last] == room);
                assert forall|j: int|
                    0 <= j < n && !in_some_room(rooms@, wi, j) implies #[trigger] draft_cells(
                    grid,
                )[j] is None by {
                    assert(!rooms@[last].has_index(wi, j));
                    assert forall|k: int| 0 <= k < old_rooms.len() implies !(
                    #[trigger] old_rooms[k].has_index(wi, j)) by {
                        assert(rooms@[k] == old_rooms[k]);
                        assert(!rooms@[k].has_index(wi, j));
                    }
                    assert(!in_some_room(old_rooms, wi, j));
                    assert(before[j] is None);
                    assert(j != ci);
                    assert(c1[j] == before[j]);
                    assert(c2[j] == c1[j]);
                    if draft_cells(grid)[j] != c2[j] {
                        assert(room.has_index(wi, j));
                    }
                }
            }
            proof {
                let last = rooms@.len() - 1;
                let ci = room.center_index(wi);
                assert(placed@.len() <= 4);
                let pset = placed@.map_values(|v: usize| v as int).to_set();
                placed@.map_values(|v: usize| v as int).lemma_cardinality_of_set();
                vstd::seq_lib::seq_to_set_is_finite(placed@.map_values(|v: usize| v as int));
                let snew = draft_npcs(room, wi, n as int, draft_cells(grid));
                assert forall|i: int| snew.contains(i) implies pset.contains(i) by {
                    assert(!is_npc_cell(c2[i]));
                    assert(draft_cells(grid)[i] != c2[i]);
                    assert(placed@.contains(i as usize));
                    let idx = choose|idx: int| 0 <= idx < placed@.len() && placed@[idx] == i as usize;
                    assert(placed@.map_values(|v: usize| v as int)[idx] == i);
                }
                lemma_len_subset(snew, pset);
                assert forall|k: int| 0 <= k < rooms@.len() implies (#[trigger] draft_npcs(
                    rooms@[k],
                    wi,
                    n as int,
                    draft_cells(grid),
                )).finite() && draft_npcs(rooms@[k], wi, n as int, draft_cells(grid)).len() <= 4 by {
                    if k < last {
                        assert(rooms@[k] == old_rooms[k]);
                        assert forall|i: int| 0 <= i < n && rooms@[k].has_index(wi, i) implies is_npc_cell(
                            before[i],
                        ) == is_npc_cell(draft_cells(grid)[i]) by {
                            assert(before[i] is Some);
                            assert(!room.has_index(wi, i));
                            assert(i != ci);
                            assert(c1[i] == before[i]);
                            assert(c2[i] == c1[i]);
                            if draft_cells(grid)[i] != c2[i] {
                                assert(room.has_index(wi, i));
                            }
                        }
                        lemma_draft_npcs_same(rooms@[k], wi, n as int, before, draft_cells(grid));
                    } else {
                        assert(rooms@[k] == room);
                    }
                }
            }
        } else {
            proof {
                if rooms@.len() == 0 {
                    assert forall|j: int| 0 <= j < draft_cells(grid).len() && #[trigger] room.has_index(wi, j)
                        implies draft_cells(grid)[j] is None by {}
                }
            }
        }
        attempt = attempt + 1;
    }
    let mut k: usize = 1;
    while k < rooms.len()
        invariant
            generator_size(size),
            w == size.width,
            h == size.height,
            wi == w,
            hi == h,
            n == wi * hi,
            draft_cells(grid).len() == n,
            1 <= k,
            0 < rooms@.len() <= 100,
            forall|k: int|
                0 <= k < rooms@.len() ==> (#[trigger] draft_npcs(rooms@[k], wi, n as int, draft_cells(grid))).finite()
                    && draft_npcs(rooms@[k], wi, n as int, draft_cells(grid)).len() <= 4,
            forall|m: int| 0 <= m < rooms@.len() ==> #[trigger] rooms@[m].drawn_for(wi, hi),
            forall|a: int, b: int|
                0 <= a < b < rooms@.len() ==> #[trigger] rooms@[a].disjoint(rooms@[b]),
            forall|m: int, j: int|
                0 <= m < rooms@.len() && 0 <= j < n && #[trigger] rooms@[m].has_index(wi, j)
                    ==> if rooms@[m].on_border(j % wi, j / wi) {
                    (draft_cells(grid)[j] == Some(TerrainTile::Wall) || draft_cells(grid)[j] == Some(
                        TerrainTile::Floor,
                    )) && (!on_some_corridor(rooms@, wi, j, k as int) ==> draft_cells(grid)[j] == Some(
                        TerrainTile::Wall,
                    ))
                } else {
                    draft_cells(grid)[j] is Some && draft_cells(grid)[j] != Some(TerrainTile::Wall)
                },
            forall|j: int|
                0 <= j < n && !in_some_room(rooms@, wi, j) ==> #[trigger] draft_cells(grid)[j] is None
                    || draft_cells(grid)[j] == Some(TerrainTile::Floor),
            forall|j: int|
                0 <= j < n && !in_some_room(rooms@, wi, j) && !on_some_corridor(rooms@, wi, j, k as int)
                    ==> #[trigger] draft_cells(grid)[j] is None,
            forall|m: int, j: int|
                1 <= m < k && m < rooms@.len() && 0 <= j < n && #[trigger] on_corridor(
                    rooms@[m - 1].center_coord(),
                    rooms@[m].center_coord(),
                    j % wi,
                    j / wi,
                ) ==> draft_cells(grid)[j] is Some && draft_cells(grid)[j] != Some(TerrainTile::Wall),
            forall|j: int|
                0 <= j < n ==> (#[trigger] draft_cells(grid)[j] == Some(TerrainTile::Player)) == (j
                    == rooms@[0].center_index(wi)),
        decreases rooms@.len() - k,
    {
        assert(rooms@[k - 1].drawn_for(wi, hi));
        assert(rooms@[k as int].drawn_for(wi, hi));
        let start = rooms[k - 1].center();
        let end = rooms[k].center();
        let ghost before = draft_cells(grid);
        proof {
            assert(n <= i32::MAX as int * wi) by (nonlinear_arith)
                requires
                    n == wi * hi,
                    hi <= i32::MAX,
                    wi >= 0,
            ;
        }
        carve_corridor(start, end, &mut grid, w);
        proof {
            assert forall|j: int| 0 <= j < n implies (#[trigger] draft_cells(grid)[j] == Some(
                TerrainTile::Player,
            )) == (j == rooms@[0].center_index(wi)) by {
                assert(before[j] == Some(TerrainTile::Player) <==> draft_cells(grid)[j] == Some(
                    TerrainTile::Player,
                ));
            }
            let ghost s0 = rooms@[k - 1].center_coord();
            let ghost s1 = rooms@[k as int].center_coord();
            assert forall|m: int, j: int|
                0 <= m < rooms@.len() && 0 <= j < n && #[trigger] rooms@[m].has_index(wi, j)
                    implies if rooms@[m].on_border(j % wi, j / wi) {
                    (draft_cells(grid)[j] == Some(TerrainTile::Wall) || draft_cells(grid)[j] == Some(
                        TerrainTile::Floor,
                    )) && (!on_some_corridor(rooms@, wi, j, k + 1) ==> draft_cells(grid)[j] == Some(
                        TerrainTile::Wall,
                    ))
                } else {
                    draft_cells(grid)[j] is Some && draft_cells(grid)[j] != Some(TerrainTile::Wall)
                } by {
                assert(before[j] is Some);
                if !on_some_corridor(rooms@, wi, j, k + 1) {
                    assert(!on_corridor(s0, s1, j % wi, j / wi));
                    assert(!on_some_corridor(rooms@, wi, j, k as int));
                }
            }
            assert forall|j: int|
                0 <= j < n && !in_some_room(rooms@, wi, j) && !on_some_corridor(rooms@, wi, j, k + 1)
                    implies #[trigger] draft_cells(grid)[j] is None by {
                assert(!on_corridor(s0, s1, j % wi, j / wi));
                assert(!on_some_corridor(rooms@, wi, j, k as int));
            }
            assert forall|m: int| 0 <= m < rooms@.len() implies (#[trigger] draft_npcs(
                rooms@[m],
                wi,
                n as int,
                draft_cells(grid),
            )).finite() && draft_npcs(rooms@[m], wi, n as int, draft_cells(grid)).len() <= 4 by {
                assert forall|i: int| 0 <= i < n && rooms@[m].has_index(wi, i) implies is_npc_cell(
                    before[i],
                ) == is_npc_cell(draft_cells(grid)[i]) by {}
                lemma_draft_npcs_same(rooms@[m], wi, n as int, before, draft_cells(grid));
                assert(draft_npcs(rooms@[m], wi, n as int, before).finite());
            }
            assert forall|j: int|
                0 <= j < n && !in_some_room(rooms@, wi, j) implies #[trigger] draft_cells(grid)[j] is None
                    || draft_cells(grid)[j] == Some(TerrainTile::Floor) by {
                assert(before[j] is None || before[j] == Some(TerrainTile::Floor));
            }
            assert forall|m: int, j: int|
                1 <= m < k + 1 && m < rooms@.len() && 0 <= j < n && #[trigger] on_corridor(
                    rooms@[m - 1].center_coord(),
                    rooms@[m].center_coord(),
                    j % wi,
                    j / wi,
                ) implies draft_cells(grid)[j] is Some && draft_cells(grid)[j] != Some(TerrainTile::Wall) by {
                if m < k {
                    assert(before[j] is Some && before[j] != Some(TerrainTile::Wall));
                }
            }
        }
        k = k + 1;
    }
    let tiles = fill_unset(&grid);
    proof {
        assert forall|m: int, i: int|
            1 <= m < rooms@.len() && 0 <= i < wi * hi && #[trigger] on_corridor(
                rooms@[m - 1].center_coord(),
                rooms@[m].center_coord(),
                i % wi,
                i / wi,
            ) implies tiles@[i] != TerrainTile::Wall by {
            assert(draft_cells(grid)[i] is Some && draft_cells(grid)[i] != Some(TerrainTile::Wall));
        }
        assert forall|m: int, i: int|
            0 <= m < rooms@.len() && 0 <= i < wi * hi && #[trigger] rooms@[m].has_index(wi, i)
                implies if rooms@[m].on_border(i % wi, i / wi) {
                tiles@[i] == TerrainTile::Wall || tiles@[i] == TerrainTile::Floor
            } else {
                tiles@[i] != TerrainTile::Wall
            } by {
            assert(draft_cells(grid)[i] is Some);
        }
        assert forall|k: int| 0 <= k < rooms@.len() implies (#[trigger] room_npcs(
            rooms@[k],
            wi,
            wi * hi,
            tiles@,
        )).finite() && room_npcs(rooms@[k], wi, wi * hi, tiles@).len() <= 4 by {
            assert(draft_npcs(rooms@[k], wi, n as int, draft_cells(grid)).finite());
            assert forall|i: int| #[trigger] room_npcs(rooms@[k], wi, wi * hi, tiles@).contains(i)
                == draft_npcs(rooms@[k], wi, n as int, draft_cells(grid)).contains(i) by {
                if 0 <= i < n {
                    assert(tiles@[i] is Npc == is_npc_cell(draft_cells(grid)[i]));
                }
            }
            assert(room_npcs(rooms@[k], wi, wi * hi, tiles@) =~= draft_npcs(
                rooms@[k],
                wi,
                n as int,
                draft_cells(grid),
            ));
        }
        assert forall|i: int| 0 <= i < wi * hi implies (#[trigger] tiles@[i]
            == TerrainTile::Player) == (i == rooms@[0].center_index(wi)) by {
            assert(draft_cells(grid)[i] == Some(TerrainTile::Player) <==> tiles@[i] == TerrainTile::Player);
        }
    }
    (TerrainGrid { size, tiles }, rooms)
}

/// Generates the terrain of a grid of `size`.
pub fn generate_dungeon(size: Size, rng: &mut rand::rngs::StdRng) -> (r: TerrainGrid)
    requires
        generator_size(size),
    ensures
        r.size == size,
        exists|rooms: Seq<Room>| #[trigger] layout_ok(size, r.tiles@, rooms),
{
    let (grid, rooms) = generate_layout(size, rng);
    assert(layout_ok(size, grid.tiles@, rooms@));
    grid
}

} // verus!
