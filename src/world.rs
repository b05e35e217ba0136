use vstd::prelude::*;
use crate::geom::{coord_at, CardinalDirection, Coord, Size};
use crate::terrain::{generate_layout, generator_size, layout_ok, Room, TerrainGrid, TerrainTile};

verus! {

/// The kinds of non-player character.
#[derive(Clone, Copy, Debug, PartialEq, Eq, Structural)]
pub enum NpcType {
    Orc,
    Troll,
}

impl NpcType {
    pub open spec fn spec_name(self) -> Seq<char> {
        match self {
            NpcType::Orc => seq!['o', 'r', 'c'],
            NpcType::Troll => seq!['t', 'r', 'o', 'l', 'l'],
        }
    }

    /// Display name of the kind.
    pub fn name(self) -> (r: &'static str)
        ensures
            r@ == self.spec_name(),
    {
        match self {
            NpcType::Orc => {
                let s = "orc";
                proof {
                    reveal_strlit("orc");
                }
                s
            },
            NpcType::Troll => {
                let s = "troll";
                proof {
                    reveal_strlit("troll");
                }
                s
            },
        }
    }
}


/// What is drawn for an entity.
#[derive(Clone, Copy, Debug, PartialEq, Eq, Structural)]
pub enum Tile {
    Player,
    Floor,
    Wall,
    Npc(NpcType),
}

/// Occupancy strata of a cell, from bottom to top as drawn.
#[derive(Clone, Copy, Debug, PartialEq, Eq, Structural)]
pub enum Layer {
    Floor,
    Character,
    Feature,
}

/// An opaque identity; identities are handed out in increasing order and never reused.
#[derive(Clone, Copy, Debug, PartialEq, Eq, Hash, Structural)]
pub struct Entity {
    id: usize,
}

impl Entity {
    pub closed spec fn spec_id(self) -> nat {
        self.id as nat
    }

    pub fn id(&self) -> (r: usize)
        ensures
            r == self.spec_id(),
    {
        self.id
    }
}

/// Where an entity is; with no layer it is not placed on the grid.
#[derive(Clone, Copy, Debug, PartialEq, Eq)]
pub struct Location {
    pub coord: Coord,
    pub layer: Option<Layer>,
}

/// The game world: entities with their components, and the occupancy index that
/// records which entity holds each layer of each cell.
pub struct World {
    size: Size,
    tiles: Vec<Tile>,
    npc_types: Vec<Option<NpcType>>,
    locations: Vec<Location>,
    floor: Vec<Option<Entity>>,
    character: Vec<Option<Entity>>,
    feature: Vec<Option<Entity>>,
}

/// The outcome of populating a world.
pub struct Populate {
    pub player_entity: Entity,
}

impl World {
    pub closed spec fn spec_size(self) -> Size {
        self.size
    }

    pub closed spec fn entity_count(self) -> nat {
        self.tiles@.len()
    }

    pub open spec fn has_entity(self, e: Entity) -> bool {
        e.spec_id() < self.entity_count()
    }

    pub closed spec fn location_of(self, e: Entity) -> Location {
        self.locations@[e.id as int]
    }

    pub closed spec fn tile_of(self, e: Entity) -> Tile {
        self.tiles@[e.id as int]
    }

    pub closed spec fn npc_type_of(self, e: Entity) -> Option<NpcType> {
        self.npc_types@[e.id as int]
    }

    /// The entity on layer `l` of the cell at row-major index `i`.
    pub closed spec fn occupant_at(self, i: int, l: Layer) -> Option<Entity> {
        match l {
            Layer::Floor => self.floor@[i],
            Layer::Character => self.character@[i],
            Layer::Feature => self.feature@[i],
        }
    }

    pub open spec fn occupant(self, c: Coord, l: Layer) -> Option<Entity> {
        self.occupant_at(c.index_in(self.spec_size()), l)
    }

    /// The tables agree: each placed entity holds the slot of its cell and layer,
    /// and each held slot names an entity placed there.
    pub closed spec fn wf(self) -> bool {
        &&& self.size.fits()
        &&& self.tiles@.len() <= usize::MAX
        &&& self.npc_types@.len() == self.tiles@.len()
        &&& self.locations@.len() == self.tiles@.len()
        &&& self.floor@.len() == self.size.count()
        &&& self.character@.len() == self.size.count()
        &&& self.feature@.len() == self.size.count()
        &&& forall|id: int|
            0 <= id < self.tiles@.len() ==> (#[trigger] self.locations@[id]).coord.valid_in(
                self.size,
            ) && (self.locations@[id].layer matches Some(l) ==> self.occupant_at(
                self.locations@[id].coord.index_in(self.size),
                l,
            ) == Some(Entity { id: id as usize }))
        &&& forall|i: int, l: Layer|
            0 <= i < self.size.count() ==> (#[trigger] self.occupant_at(i, l) matches Some(e)
                ==> e.id < self.tiles@.len() && self.locations@[e.id as int].layer == Some(l)
                && self.locations@[e.id as int].coord.index_in(self.size) == i)
    }

    /// An empty world of the given size.
    pub fn new(size: Size) -> (r: World)
        requires
            size.fits(),
        ensures
            r.wf(),
            r.spec_size() == size,
            r.entity_count() == 0,
    {
        let n = size.width as usize * size.height as usize;
        let mut floor: Vec<Option<Entity>> = Vec::new();
        let mut character: Vec<Option<Entity>> = Vec::new();
        let mut feature: Vec<Option<Entity>> = Vec::new();
        let mut i: usize = 0;
        while i < n
            invariant
                i <= n,
                floor@.len() == i,
                character@.len() == i,
                feature@.len() == i,
                forall|j: int| 0 <= j < i ==> #[trigger] floor@[j] is None,
                forall|j: int| 0 <= j < i ==> #[trigger] character@[j] is None,
                forall|j: int| 0 <= j < i ==> #[trigger] feature@[j] is None,
            decreases n - i,
        {
            floor.push(None);
            character.push(None);
            feature.push(None);
            i = i + 1;
        }
        World {
            size,
            tiles: Vec::new(),
            npc_types: Vec::new(),
            locations: Vec::new(),
            floor,
            character,
            feature,
        }
    }

    pub fn size(&self) -> (r: Size)
        ensures
            r == self.spec_size(),
            self.wf() ==> r.fits(),
    {
        self.size
    }

    /// Number of entities allocated so far.
    pub fn num_entities(&self) -> (r: usize)
        requires
            self.wf(),
        ensures
            r == self.entity_count(),
    {
        self.tiles.len()
    }

    /// Every entity, in order of allocation.
    pub fn entities(&self) -> (r: Vec<Entity>)
        requires
            self.wf(),
        ensures
            r@.len() == self.entity_count(),
            forall|i: int| 0 <= i < r@.len() ==> (#[trigger] r@[i]).spec_id() == i,
    {
        let mut r: Vec<Entity> = Vec::new();
        let mut i: usize = 0;
        while i < self.tiles.len()
            invariant
                i <= self.tiles@.len(),
                r@.len() == i,
                forall|j: int| 0 <= j < i ==> (#[trigger] r@[j]).spec_id() == j,
            decreases self.tiles@.len() - i,
        {
            r.push(Entity { id: i });
            i = i + 1;
        }
        r
    }

    /// Where the entity is; `None` for an entity this world never allocated.
    pub fn location(&self, e: Entity) -> (r: Option<Location>)
        requires
            self.wf(),
        ensures
            r == if self.has_entity(e) {
                Some(self.location_of(e))
            } else {
                None
            },
    {
        if e.id < self.locations.len() {
            Some(self.locations[e.id])
        } else {
            None
        }
    }

    /// The entity's tile; `None` for an entity this world never allocated.
    pub fn tile(&self, e: Entity) -> (r: Option<Tile>)
        requires
            self.wf(),
        ensures
            r == if self.has_entity(e) {
                Some(self.tile_of(e))
            } else {
                None
            },
    {
        if e.id < self.tiles.len() {
            Some(self.tiles[e.id])
        } else {
            None
        }
    }

    /// The entity's kind of NPC, if it is one.
    pub fn npc_type(&self, e: Entity) -> (r: Option<NpcType>)
        requires
            self.wf(),
        ensures
            r == if self.has_entity(e) {
                self.npc_type_of(e)
            } else {
                None
            },
    {
        if e.id < self.npc_types.len() {
            self.npc_types[e.id]
        } else {
            None
        }
    }

    /// The entity on `layer` of `coord`; `None` outside the grid.
    pub fn entity_at(&self, coord: Coord, layer: Layer) -> (r: Option<Entity>)
        requires
            self.wf(),
        ensures
            r == if coord.valid_in(self.spec_size()) {
                self.occupant(coord, layer)
            } else {
                None
            },
    {
        if coord.is_valid(self.size) {
            let i = self.cell_index(coord);
            self.slot(i, layer)
        } else {
            None
        }
    }

    fn cell_index(&self, c: Coord) -> (r: usize)
        requires
            self.wf(),
            c.valid_in(self.spec_size()),
        ensures
            r == c.index_in(self.spec_size()),
            r < self.spec_size().count(),
    {
        proof {
            crate::geom::lemma_index_in_range(c, self.size);
        }
        let w = self.size.width as usize;
        let y = c.y as usize;
        let x = c.x as usize;
        proof {
            assert(y * w + x < self.size.count());
        }
        y * w + x
    }

    fn slot(&self, i: usize, l: Layer) -> (r: Option<Entity>)
        requires
            self.wf(),
            i < self.spec_size().count(),
        ensures
            r == self.occupant_at(i as int, l),
    {
        match l {
            Layer::Floor => self.floor[i],
            Layer::Character => self.character[i],
            Layer::Feature => self.feature[i],
        }
    }

    fn set_slot(&mut self, i: usize, l: Layer, v: Option<Entity>)
        requires
            i < old(self).floor@.len(),
            old(self).character@.len() == old(self).floor@.len(),
            old(self).feature@.len() == old(self).floor@.len(),
        ensures
            final(self).size == old(self).size,
            final(self).tiles == old(self).tiles,
            final(self).npc_types == old(self).npc_types,
            final(self).locations == old(self).locations,
            final(self).floor@.len() == old(self).floor@.len(),
            final(self).character@.len() == old(self).character@.len(),
            final(self).feature@.len() == old(self).feature@.len(),
            forall|j: int, m: Layer|
                0 <= j < old(self).floor@.len() ==> #[trigger] final(self).occupant_at(j, m) == if j
                    == i && m == l {
                    v
                } else {
                    old(self).occupant_at(j, m)
                },
    {
        match l {
            Layer::Floor => self.floor.set(i, v),
            Layer::Character => self.character.set(i, v),
            Layer::Feature => self.feature.set(i, v),
        }
        proof {
            assert forall|j: int, m: Layer| 0 <= j < old(self).floor@.len() implies #[trigger] self.occupant_at(j, m) == if j == i && m == l {
                v
            } else {
                old(self).occupant_at(j, m)
            } by {
                match m {
                    Layer::Floor => {},
                    Layer::Character => {},
                    Layer::Feature => {},
                }
            }
        }
    }

    /// Allocates a new entity with its components and places it on `layer` of
    /// `coord`, whose slot must be free.
    fn spawn(&mut self, coord: Coord, layer: Layer, tile: Tile, npc_type: Option<NpcType>) -> (e:
        Entity)
        requires
            old(self).wf(),
            coord.valid_in(old(self).spec_size()),
            old(self).occupant(coord, layer) is None,
            old(self).entity_count() < usize::MAX,
        ensures
            final(self).wf(),
            final(self).spec_size() == old(self).spec_size(),
            e.spec_id() == old(self).entity_count(),
            final(self).entity_count() == old(self).entity_count() + 1,
            final(self).location_of(e) == (Location { coord, layer: Some(layer) }),
            final(self).tile_of(e) == tile,
            final(self).npc_type_of(e) == npc_type,
            forall|f: Entity|
                old(self).has_entity(f) ==> final(self).location_of(f) == old(self).location_of(f)
                    && final(self).tile_of(f) == old(self).tile_of(f) && final(self).npc_type_of(f)
                    == old(self).npc_type_of(f),
            forall|i: int, m: Layer|
                0 <= i < old(self).spec_size().count() ==> #[trigger] final(self).occupant_at(i, m)
                    == if i == coord.index_in(old(self).spec_size()) && m == layer {
                    Some(e)
                } else {
                    old(self).occupant_at(i, m)
                },
    {
        let i = self.cell_index(coord);
        let e = Entity { id: self.tiles.len() };
        self.tiles.push(tile);
        self.npc_types.push(npc_type);
        self.locations.push(Location { coord, layer: Some(layer) });
        self.set_slot(i, layer, Some(e));
        proof {
            let o = *old(self);
            assert forall|id: int| 0 <= id < self.tiles@.len() implies (
            #[trigger] self.locations@[id]).coord.valid_in(self.size) && (
            self.locations@[id].layer matches Some(l) ==> self.occupant_at(
                self.locations@[id].coord.index_in(self.size),
                l,
            ) == Some(Entity { id: id as usize })) by {
                if id < o.tiles@.len() {
                    assert(o.locations@[id] == self.locations@[id]);
                    crate::geom::lemma_index_in_range(o.locations@[id].coord, o.size);
                    if let Some(l) = self.locations@[id].layer {
                        assert(o.occupant_at(o.locations@[id].coord.index_in(o.size), l) == Some(
                            Entity { id: id as usize },
                        ));
                        if self.locations@[id].coord.index_in(self.size) == i && l == layer {
                            crate::geom::lemma_index_injective(o.locations@[id].coord, coord, o.size);
                        }
                    }
                }
            }
            assert forall|j: int, l: Layer| 0 <= j < self.size.count() implies (
            #[trigger] self.occupant_at(j, l) matches Some(f) ==> f.id < self.tiles@.len()
                && self.locations@[f.id as int].layer == Some(l)
                && self.locations@[f.id as int].coord.index_in(self.size) == j) by {
                if let Some(f) = self.occupant_at(j, l) {
                    if j != i || l != layer {
                        assert(o.occupant_at(j, l) == Some(f));
                        assert(o.locations@[f.id as int] == self.locations@[f.id as int]);
                    }
                }
            }
        }
        e
    }

    fn spawn_player(&mut self, coord: Coord) -> (e: Entity)
        requires
            old(self).wf(),
            coord.valid_in(old(self).spec_size()),
            old(self).occupant(coord, Layer::Character) is None,
            old(self).entity_count() < usize::MAX,
        ensures
            spawned(*old(self), *final(self), e, coord, Layer::Character, Tile::Player, None),
    {
        self.spawn(coord, Layer::Character, Tile::Player, None)
    }

    fn spawn_npc(&mut self, coord: Coord, npc_type: NpcType) -> (e: Entity)
        requires
            old(self).wf(),
            coord.valid_in(old(self).spec_size()),
            old(self).occupant(coord, Layer::Character) is None,
            old(self).entity_count() < usize::MAX,
        ensures
            spawned(
                *old(self),
                *final(self),
                e,
                coord,
                Layer::Character,
                Tile::Npc(npc_type),
                Some(npc_type),
            ),
    {
        self.spawn(coord, Layer::Character, Tile::Npc(npc_type), Some(npc_type))
    }

    fn spawn_wall(&mut self, coord: Coord) -> (e: Entity)
        requires
            old(self).wf(),
            coord.valid_in(old(self).spec_size()),
            old(self).occupant(coord, Layer::Feature) is None,
            old(self).entity_count() < usize::MAX,
        ensures
            spawned(*old(self), *final(self), e, coord, Layer::Feature, Tile::Wall, None),
    {
        self.spawn(coord, Layer::Feature, Tile::Wall, None)
    }

    fn spawn_floor(&mut self, coord: Coord) -> (e: Entity)
        requires
            old(self).wf(),
            coord.valid_in(old(self).spec_size()),
            old(self).occupant(coord, Layer::Floor) is None,
            old(self).entity_count() < usize::MAX,
        ensures
            spawned(*old(self), *final(self), e, coord, Layer::Floor, Tile::Floor, None),
    {
        self.spawn(coord, Layer::Floor, Tile::Floor, None)
    }

    /// Where a step in `dir` from `c` leads.
    pub open spec fn step(c: Coord, dir: CardinalDirection) -> Coord {
        Coord { x: (c.x + dir.dx()) as i32, y: (c.y + dir.dy()) as i32 }
    }

    /// The step is inside the grid and neither a character nor a feature holds
    /// the cell it leads to.
    pub open spec fn can_step(self, e: Entity, dir: CardinalDirection) -> bool {
        let t = World::step(self.location_of(e).coord, dir);
        t.valid_in(self.spec_size()) && self.occupant(t, Layer::Character) is None && self.occupant(
            t,
            Layer::Feature,
        ) is None
    }

    /// Moves a character one cell in `dir`, unless the cell lies outside the grid
    /// or is held by another character or a feature; then nothing changes.
    pub fn maybe_move_character(&mut self, character_entity: Entity, direction: CardinalDirection)
        requires
            old(self).wf(),
            old(self).has_entity(character_entity),
            old(self).location_of(character_entity).layer == Some(Layer::Character),
        ensures
            moved(*old(self), *final(self), character_entity, direction),
            final(self).wf(),
            final(self).spec_size() == old(self).spec_size(),
            final(self).entity_count() == old(self).entity_count(),
            final(self).location_of(character_entity) == if old(self).can_step(
                character_entity,
                direction,
            ) {
                Location {
                    coord: World::step(old(self).location_of(character_entity).coord, direction),
                    layer: Some(Layer::Character),
                }
            } else {
                old(self).location_of(character_entity)
            },
            forall|f: Entity|
                old(self).has_entity(f) && f != character_entity ==> final(self).location_of(f)
                    == old(self).location_of(f),
            forall|f: Entity|
                old(self).has_entity(f) ==> final(self).tile_of(f) == old(self).tile_of(f)
                    && final(self).npc_type_of(f) == old(self).npc_type_of(f),
    {
        let id = character_entity.id;
        let coord = self.locations[id].coord;
        let x = coord.x as i64 + match direction {
            CardinalDirection::East => 1i64,
            CardinalDirection::West => -1i64,
            _ => 0i64,
        };
        let y = coord.y as i64 + match direction {
            CardinalDirection::South => 1i64,
            CardinalDirection::North => -1i64,
            _ => 0i64,
        };
        let target = Coord { x: x as i32, y: y as i32 };
        if target.is_valid(self.size) {
            let ti = self.cell_index(target);
            if self.slot(ti, Layer::Character).is_none() && self.slot(ti, Layer::Feature).is_none() {
                let from = self.cell_index(coord);
                let ghost o = *self;
                self.locations.set(id, Location { coord: target, layer: Some(Layer::Character) });
                let ghost o2 = *self;
                assert(o2.floor == o.floor && o2.character == o.character && o2.feature == o.feature);
                self.set_slot(from, Layer::Character, None);
                let ghost mid = *self;
                self.set_slot(ti, Layer::Character, Some(character_entity));
                proof {
                    assert(o.occupant_at(from as int, Layer::Character) == Some(character_entity));
                    assert forall|j: int| 0 <= j < self.tiles@.len() implies (
                    #[trigger] self.locations@[j]).coord.valid_in(self.size) && (
                    self.locations@[j].layer matches Some(l) ==> self.occupant_at(
                        self.locations@[j].coord.index_in(self.size),
                        l,
                    ) == Some(Entity { id: j as usize })) by {
                        if j == id {
                            assert(character_entity == Entity { id: j as usize });
                            assert(self.occupant_at(ti as int, Layer::Character) == Some(
                                character_entity,
                            ));
                        } else {
                            assert(o.locations@[j] == self.locations@[j]);
                            crate::geom::lemma_index_in_range(o.locations@[j].coord, o.size);
                            if let Some(l) = self.locations@[j].layer {
                                let cj = o.locations@[j].coord;
                                if cj.index_in(o.size) == from as int && l == Layer::Character {
                                    assert(o.occupant_at(from as int, Layer::Character) == Some(
                                        Entity { id: j as usize },
                                    ));
                                }
                                if cj.index_in(o.size) == ti as int && l == Layer::Character {
                                    assert(o.occupant_at(ti as int, Layer::Character) == Some(
                                        Entity { id: j as usize },
                                    ));
                                }
                                let k = cj.index_in(o.size);
                                assert(o2.occupant_at(k, l) == o.occupant_at(k, l));
                                assert(!(k == from as int && l == Layer::Character));
                                assert(0 <= k < o2.floor@.len());
                                assert(mid.occupant_at(k, l) == o2.occupant_at(k, l));
                                assert(self.occupant_at(k, l) == mid.occupant_at(k, l));
                            }
                        }
                    }
                    assert forall|j: int, l: Layer| 0 <= j < self.size.count() implies (
                    #[trigger] self.occupant_at(j, l) matches Some(f) ==> f.id < self.tiles@.len()
                        && self.locations@[f.id as int].layer == Some(l)
                        && self.locations@[f.id as int].coord.index_in(self.size) == j) by {
                        if let Some(f) = self.occupant_at(j, l) {
                            assert(from != ti);
                            if j != ti || l != Layer::Character {
                                assert(j != from || l != Layer::Character);
                                assert(mid.occupant_at(j, l) == Some(f));
                                assert(o2.occupant_at(j, l) == o.occupant_at(j, l));
                                assert(o.occupant_at(j, l) == Some(f));
                                if f.id == id {
                                    crate::geom::lemma_index_injective(
                                        o.locations@[id as int].coord,
                                        coord_at(o.size, j),
                                        o.size,
                                    );
                                }
                            }
                        }
                    }
                    assert forall|f: Entity|
                        o.has_entity(f) && f != character_entity implies self.location_of(f)
                        == o.location_of(f) by {
                        assert(f.id != id);
                    }
                }
            }
        }
    }

    /// 255 where a feature (a wall) holds the cell, which blocks sight; 0 elsewhere.
    pub fn opacity_at(&self, coord: Coord) -> (r: u8)
        requires
            self.wf(),
            coord.valid_in(self.spec_size()),
        ensures
            r == if self.occupant(coord, Layer::Feature) is Some {
                255u8
            } else {
                0u8
            },
    {
        let i = self.cell_index(coord);
        if self.slot(i, Layer::Feature).is_some() {
            255
        } else {
            0
        }
    }
}


/// `after` is `before` once `e` has tried to step in `dir`: it moved one cell if
/// the step was allowed, stayed otherwise, and nothing else changed.
pub open spec fn moved(before: World, after: World, e: Entity, dir: CardinalDirection) -> bool {
    &&& after.wf()
    &&& after.spec_size() == before.spec_size()
    &&& after.entity_count() == before.entity_count()
    &&& after.location_of(e) == if before.can_step(e, dir) {
        Location { coord: World::step(before.location_of(e).coord, dir), layer: Some(Layer::Character) }
    } else {
        before.location_of(e)
    }
    &&& forall|f: Entity|
        before.has_entity(f) && f != e ==> after.location_of(f) == before.location_of(f)
    &&& forall|f: Entity|
        before.has_entity(f) ==> after.tile_of(f) == before.tile_of(f) && after.npc_type_of(f)
            == before.npc_type_of(f)
}

/// `after` is `before` with one new entity `e`, carrying `tile` and `npc_type`,
/// placed on `layer` of `coord`.
pub open spec fn spawned(
    before: World,
    after: World,
    e: Entity,
    coord: Coord,
    layer: Layer,
    tile: Tile,
    npc_type: Option<NpcType>,
) -> bool {
    &&& after.wf()
    &&& after.spec_size() == before.spec_size()
    &&& e.spec_id() == before.entity_count()
    &&& after.entity_count() == before.entity_count() + 1
    &&& after.location_of(e) == (Location { coord, layer: Some(layer) })
    &&& after.tile_of(e) == tile
    &&& after.npc_type_of(e) == npc_type
    &&& forall|f: Entity|
        before.has_entity(f) ==> after.location_of(f) == before.location_of(f) && after.tile_of(f)
            == before.tile_of(f) && after.npc_type_of(f) == before.npc_type_of(f)
    &&& forall|i: int, m: Layer|
        0 <= i < before.spec_size().count() ==> #[trigger] after.occupant_at(i, m) == if i
            == coord.index_in(before.spec_size()) && m == layer {
            Some(e)
        } else {
            before.occupant_at(i, m)
        }
}


/// How population leaves the cell at index `i` whose terrain is `t`: a floor
/// entity on the floor layer everywhere, a wall on the feature layer of wall
/// cells, and the player or an NPC on the character layer of their cells.
pub open spec fn cell_populated(w: World, i: int, t: TerrainTile) -> bool {
    &&& w.occupant_at(i, Layer::Floor) is Some
    &&& w.tile_of(w.occupant_at(i, Layer::Floor)->0) == Tile::Floor
    &&& (w.occupant_at(i, Layer::Feature) is Some) == (t == TerrainTile::Wall)
    &&& t == TerrainTile::Wall ==> w.tile_of(w.occupant_at(i, Layer::Feature)->0) == Tile::Wall
    &&& match t {
        TerrainTile::Player => w.occupant_at(i, Layer::Character) is Some && w.tile_of(
            w.occupant_at(i, Layer::Character)->0,
        ) == Tile::Player,
        TerrainTile::Npc(n) => w.occupant_at(i, Layer::Character) is Some && w.tile_of(
            w.occupant_at(i, Layer::Character)->0,
        ) == Tile::Npc(n) && w.npc_type_of(w.occupant_at(i, Layer::Character)->0) == Some(n),
        _ => w.occupant_at(i, Layer::Character) is None,
    }
}

/// The player entity `p` of a populated world stands on a player cell of `tiles`.
pub open spec fn player_placed(w: World, p: Entity, tiles: Seq<TerrainTile>) -> bool {
    &&& w.has_entity(p)
    &&& w.tile_of(p) == Tile::Player
    &&& w.location_of(p).layer == Some(Layer::Character)
    &&& w.location_of(p).coord.valid_in(w.spec_size())
    &&& tiles[w.location_of(p).coord.index_in(w.spec_size())] == TerrainTile::Player
}

/// The NPC kind that goes with a tile.
pub open spec fn npc_of_tile(t: Tile) -> Option<NpcType> {
    match t {
        Tile::Npc(n) => Some(n),
        _ => None,
    }
}

/// Every entity is placed on a layer of a cell, and has an NPC kind exactly
/// when its tile is an NPC tile, that kind.
pub open spec fn entities_consistent(w: World) -> bool {
    &&& forall|e: Entity| w.has_entity(e) ==> (#[trigger] w.location_of(e)).layer is Some
    &&& forall|e: Entity| w.has_entity(e) ==> #[trigger] w.npc_type_of(e) == npc_of_tile(w.tile_of(e))
}

proof fn lemma_spawn_keeps_entities(
    before: World,
    after: World,
    e: Entity,
    coord: Coord,
    layer: Layer,
    tile: Tile,
    npc_type: Option<NpcType>,
)
    requires
        spawned(before, after, e, coord, layer, tile, npc_type),
        npc_type == npc_of_tile(tile),
        entities_consistent(before),
    ensures
        entities_consistent(after),
{
    assert forall|f: Entity| after.has_entity(f) implies (#[trigger] after.location_of(f)).layer is Some by {
        if before.has_entity(f) {
            assert(before.location_of(f).layer is Some);
        } else {
            assert(f.id == e.id);
        }
    }
    assert forall|f: Entity| after.has_entity(f) implies #[trigger] after.npc_type_of(f) == npc_of_tile(after.tile_of(f)) by {
        if before.has_entity(f) {
            assert(before.npc_type_of(f) == npc_of_tile(before.tile_of(f)));
        } else {
            assert(f.id == e.id);
        }
    }
}

proof fn lemma_spawn_keeps_cells(
    before: World,
    after: World,
    e: Entity,
    coord: Coord,
    layer: Layer,
    tile: Tile,
    npc_type: Option<NpcType>,
    tiles: Seq<TerrainTile>,
    i: int,
)
    requires
        before.wf(),
        spawned(before, after, e, coord, layer, tile, npc_type),
        coord.index_in(before.spec_size()) >= i,
        i <= before.spec_size().count(),
        tiles.len() == before.spec_size().count(),
        forall|j: int| 0 <= j < i ==> #[trigger] cell_populated(before, j, tiles[j]),
    ensures
        forall|j: int| 0 <= j < i ==> #[trigger] cell_populated(after, j, tiles[j]),
{
    assert forall|j: int| 0 <= j < i implies #[trigger] cell_populated(after, j, tiles[j]) by {
        assert(cell_populated(before, j, tiles[j]));
        assert(after.occupant_at(j, Layer::Floor) == before.occupant_at(j, Layer::Floor));
        assert(after.occupant_at(j, Layer::Feature) == before.occupant_at(j, Layer::Feature));
        assert(after.occupant_at(j, Layer::Character) == before.occupant_at(j, Layer::Character));
        let f = before.occupant_at(j, Layer::Floor)->0;
        assert(before.has_entity(f));
        if let Some(g) = before.occupant_at(j, Layer::Feature) {
            assert(before.has_entity(g));
        }
        if let Some(g) = before.occupant_at(j, Layer::Character) {
            assert(before.has_entity(g));
        }
    }
}

impl World {
    /// Spawns the entities of each terrain cell, in row-major order, into an empty
    /// world; returns the entity spawned for the last player cell, if any.
    pub fn populate_from_terrain(&mut self, terrain: &TerrainGrid) -> (r: Option<Entity>)
        requires
            old(self).wf(),
            old(self).entity_count() == 0,
            terrain.size == old(self).spec_size(),
            terrain.tiles@.len() == old(self).spec_size().count(),
            2 * old(self).spec_size().count() <= usize::MAX,
        ensures
            final(self).wf(),
            final(self).spec_size() == old(self).spec_size(),
            forall|i: int|
                0 <= i < terrain.tiles@.len() ==> #[trigger] cell_populated(
                    *final(self),
                    i,
                    terrain.tiles@[i],
                ),
            entities_consistent(*final(self)),
            r is Some <==> exists|i: int|
                0 <= i < terrain.tiles@.len() && #[trigger] terrain.tiles@[i] == TerrainTile::Player,
            r matches Some(p) ==> player_placed(*final(self), p, terrain.tiles@),
    {
        let w = self.size.width as usize;
        let n = self.size.width as usize * self.size.height as usize;
        let ghost size = self.size;
        let mut player_entity: Option<Entity> = None;
        let mut i: usize = 0;
        while i < n
            invariant
                self.wf(),
                self.spec_size() == size,
                w == size.width,
                n == size.count(),
                terrain.tiles@.len() == n,
                2 * n <= usize::MAX,
                i <= n,
                self.entity_count() <= 2 * i,
                entities_consistent(*self),
                forall|j: int| 0 <= j < i ==> #[trigger] cell_populated(*self, j, terrain.tiles@[j]),
                forall|j: int, l: Layer| i <= j < n ==> #[trigger] self.occupant_at(j, l) is None,
                player_entity matches Some(p) ==> player_placed(*self, p, terrain.tiles@)
                    && self.location_of(p).coord.index_in(size) < i,
                player_entity is None ==> forall|j: int|
                    0 <= j < i ==> #[trigger] terrain.tiles@[j] != TerrainTile::Player,
            decreases n - i,
        {
            proof {
                crate::geom::lemma_coord_at(size, i as int);
            }
            let coord = Coord { x: (i % w) as i32, y: (i / w) as i32 };
            assert(coord == coord_at(size, i as int));
            let ghost s0 = *self;
            match terrain.tiles[i] {
                TerrainTile::Player => {
                    let f = self.spawn_floor(coord);
                    let ghost s1 = *self;
                    proof {
                        lemma_spawn_keeps_cells(s0, s1, f, coord, Layer::Floor, Tile::Floor, None, terrain.tiles@, i as int);
                        lemma_spawn_keeps_entities(s0, s1, f, coord, Layer::Floor, Tile::Floor, None);
                    }
                    let p = self.spawn_player(coord);
                    proof {
                        lemma_spawn_keeps_cells(s1, *self, p, coord, Layer::Character, Tile::Player, None, terrain.tiles@, i as int);
                        lemma_spawn_keeps_entities(s1, *self, p, coord, Layer::Character, Tile::Player, None);
                        assert(self.tile_of(f) == Tile::Floor);
                    }
                    player_entity = Some(p);
                },
                TerrainTile::Floor => {
                    let f = self.spawn_floor(coord);
                    proof {
                        lemma_spawn_keeps_cells(s0, *self, f, coord, Layer::Floor, Tile::Floor, None, terrain.tiles@, i as int);
                        lemma_spawn_keeps_entities(s0, *self, f, coord, Layer::Floor, Tile::Floor, None);
                    }
                },
                TerrainTile::Wall => {
                    let g = self.spawn_wall(coord);
                    let ghost s1 = *self;
                    proof {
                        lemma_spawn_keeps_cells(s0, s1, g, coord, Layer::Feature, Tile::Wall, None, terrain.tiles@, i as int);
                        lemma_spawn_keeps_entities(s0, s1, g, coord, Layer::Feature, Tile::Wall, None);
                    }
                    let f = self.spawn_floor(coord);
                    proof {
                        lemma_spawn_keeps_cells(s1, *self, f, coord, Layer::Floor, Tile::Floor, None, terrain.tiles@, i as int);
                        lemma_spawn_keeps_entities(s1, *self, f, coord, Layer::Floor, Tile::Floor, None);
                        assert(self.tile_of(g) == Tile::Wall);
                    }
                },
                TerrainTile::Npc(npc_type) => {
                    let c = self.spawn_npc(coord, npc_type);
                    let ghost s1 = *self;
                    proof {
                        lemma_spawn_keeps_cells(s0, s1, c, coord, Layer::Character, Tile::Npc(npc_type), Some(npc_type), terrain.tiles@, i as int);
                        lemma_spawn_keeps_entities(s0, s1, c, coord, Layer::Character, Tile::Npc(npc_type), Some(npc_type));
                    }
                    let f = self.spawn_floor(coord);
                    proof {
                        lemma_spawn_keeps_cells(s1, *self, f, coord, Layer::Floor, Tile::Floor, None, terrain.tiles@, i as int);
                        lemma_spawn_keeps_entities(s1, *self, f, coord, Layer::Floor, Tile::Floor, None);
                        assert(self.tile_of(c) == Tile::Npc(npc_type));
                        assert(self.npc_type_of(c) == Some(npc_type));
                    }
                },
            }
            proof {
                assert(cell_populated(*self, i as int, terrain.tiles@[i as int]));
                if let Some(p) = player_entity {
                    if terrain.tiles@[i as int] != TerrainTile::Player {
                        assert(s0.has_entity(p));
                    }
                }
            }
            i = i + 1;
        }
        player_entity
    }
}


/// A world populated from generated terrain: `tiles` and `rooms` are what the
/// generator produced, every cell holds the entities of its tile, and the
/// player entity stands on the first room's center.
pub open spec fn populated_from(w: World, tiles: Seq<TerrainTile>, rooms: Seq<Room>, player: Entity) -> bool {
    let size = w.spec_size();
    &&& layout_ok(size, tiles, rooms)
    &&& forall|i: int| 0 <= i < size.count() ==> #[trigger] cell_populated(w, i, tiles[i])
    &&& entities_consistent(w)
    &&& player_placed(w, player, tiles)
    &&& w.location_of(player).coord.index_in(size) == rooms[0].center_index(size.width as int)
}

impl World {
    /// Generates terrain for this world's size and spawns its entities. The
    /// generator always accepts its first room, so a player always exists.
    pub fn populate(&mut self, rng: &mut rand::rngs::StdRng) -> (r: Populate)
        requires
            old(self).wf(),
            old(self).entity_count() == 0,
            generator_size(old(self).spec_size()),
            2 * old(self).spec_size().count() <= usize::MAX,
        ensures
            final(self).wf(),
            final(self).spec_size() == old(self).spec_size(),
            exists|tiles: Seq<TerrainTile>, rooms: Seq<Room>|
                #[trigger] populated_from(*final(self), tiles, rooms, r.player_entity),
    {
        let (terrain, rooms) = generate_layout(self.size, rng);
        let player = self.populate_from_terrain(&terrain);
        let ghost size = self.size;
        let ghost wi = size.width as int;
        proof {
            let r0 = rooms@[0];
            assert(r0.drawn_for(wi, size.height as int));
            crate::terrain::lemma_cell_index(wi, size.height as int, r0.center_x(), r0.center_y());
            assert(terrain.tiles@[r0.center_index(wi)] == TerrainTile::Player);
        }
        match player {
            Some(player_entity) => {
                proof {
                    let k = self.location_of(player_entity).coord.index_in(size);
                    crate::geom::lemma_index_in_range(self.location_of(player_entity).coord, size);
                    assert(terrain.tiles@[k] == TerrainTile::Player);
                    assert(populated_from(*self, terrain.tiles@, rooms@, player_entity));
                }
                let r = Populate { player_entity };
                assert(populated_from(*self, terrain.tiles@, rooms@, r.player_entity));
                r
            },
            None => {
                // The first room's center is a player tile, so this arm is unreachable.
                proof {
                    assert(false);
                }
                Populate { player_entity: Entity { id: 0 } }
            },
        }
    }
}

/// In a world populated from generated terrain, the player entity is the only
/// entity with the player tile.
pub proof fn lemma_single_player(
    w: World,
    tiles: Seq<TerrainTile>,
    rooms: Seq<Room>,
    player: Entity,
    e: Entity,
)
    requires
        w.wf(),
        populated_from(w, tiles, rooms, player),
        w.has_entity(e),
        w.tile_of(e) == Tile::Player,
    ensures
        e == player,
{
    let size = w.spec_size();
    let loc = w.location_of(e);
    assert(loc.layer is Some);
    let l = loc.layer->0;
    lemma_location_valid(w, e);
    lemma_occupant_iff_location(w, loc.coord, l, e);
    crate::geom::lemma_index_in_range(loc.coord, size);
    let i = loc.coord.index_in(size);
    assert(cell_populated(w, i, tiles[i]));
    assert(l == Layer::Character);
    assert(tiles[i] == TerrainTile::Player);
    let ploc = w.location_of(player);
    crate::geom::lemma_index_in_range(ploc.coord, size);
    crate::geom::lemma_index_injective(ploc.coord, loc.coord, size);
    lemma_occupant_iff_location(w, loc.coord, Layer::Character, player);
}

/// Every entity of a well-formed world stands on a cell of the grid.
pub proof fn lemma_location_valid(w: World, e: Entity)
    requires
        w.wf(),
        w.has_entity(e),
    ensures
        w.location_of(e).coord.valid_in(w.spec_size()),
{
    assert(w.locations@[e.id as int] == w.location_of(e));
}

/// Each layer of each cell holds at most one entity: two entities placed on the
/// same cell and layer are one and the same.
pub proof fn lemma_single_occupant(w: World, a: Entity, b: Entity)
    requires
        w.wf(),
        w.has_entity(a),
        w.has_entity(b),
        w.location_of(a).layer is Some,
        w.location_of(a) == w.location_of(b),
    ensures
        a == b,
{
    assert(w.locations@[a.id as int] == w.locations@[b.id as int]);
}

/// A character on the west edge cannot step further west: the move leaves it
/// where it is.
pub proof fn lemma_west_edge_blocks(w: World, e: Entity)
    requires
        w.wf(),
        w.has_entity(e),
        w.location_of(e).coord.x == 0,
    ensures
        !w.can_step(e, CardinalDirection::West),
{
}

/// A character cannot step onto a cell that another character holds.
pub proof fn lemma_occupied_cell_blocks(w: World, e: Entity, other: Entity, dir: CardinalDirection)
    requires
        w.wf(),
        w.has_entity(e),
        w.has_entity(other),
        w.location_of(other) == (Location {
            coord: World::step(w.location_of(e).coord, dir),
            layer: Some(Layer::Character),
        }),
    ensures
        !w.can_step(e, dir),
{
    let t = World::step(w.location_of(e).coord, dir);
    lemma_location_valid(w, other);
    lemma_occupant_iff_location(w, t, Layer::Character, other);
}

/// The occupancy index and the entities' locations agree: a cell's layer is held
/// by `e` exactly when `e` is placed on that layer of that cell.
pub proof fn lemma_occupant_iff_location(w: World, c: Coord, l: Layer, e: Entity)
    requires
        w.wf(),
        c.valid_in(w.spec_size()),
    ensures
        (w.occupant(c, l) == Some(e)) == (w.has_entity(e) && w.location_of(e) == (Location {
            coord: c,
            layer: Some(l),
        })),
{
    crate::geom::lemma_index_in_range(c, w.size);
    if w.has_entity(e) && w.location_of(e) == (Location { coord: c, layer: Some(l) }) {
        assert(w.locations@[e.id as int] == w.location_of(e));
        assert(Entity { id: e.id } == e);
    }
    if w.occupant(c, l) == Some(e) {
        let d = w.locations@[e.id as int].coord;
        crate::geom::lemma_index_injective(d, c, w.size);
    }
}

} // verus!
