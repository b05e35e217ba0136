use vstd::prelude::*;
use crate::geom::{coord_at, CardinalDirection, Coord, Size};
use crate::terrain::{generator_size, Room, TerrainTile};
use crate::visibility::{in_view, next_visibility, CellVisibility, VisibilityGrid};
use crate::world::{moved, populated_from, Entity, Layer, Location, Tile, World};

verus! {

/// `after` is `before` recomputed for a player at `eye` in `w`: cells in view
/// become currently visible, cells that were and no longer are become
/// previously seen, and the rest keep their state.
pub open spec fn recomputed(before: VisibilityGrid, after: VisibilityGrid, w: World, eye: Coord) -> bool {
    &&& after.wf()
    &&& after.spec_size() == before.spec_size()
    &&& forall|i: int|
        0 <= i < before.spec_size().count() ==> #[trigger] after.states()[i] == next_visibility(
            before.states()[i],
            in_view(w, eye, coord_at(w.spec_size(), i)),
        )
}

/// A game just started: its world was populated from generated terrain, and
/// sight was computed once from the player's cell over a grid never seen.
pub open spec fn started(g: GameState, size: Size) -> bool {
    &&& g.wf()
    &&& g.spec_world().spec_size() == size
    &&& exists|tiles: Seq<TerrainTile>, rooms: Seq<Room>|
        #[trigger] populated_from(g.spec_world(), tiles, rooms, g.spec_player())
    &&& forall|i: int|
        0 <= i < size.count() ==> #[trigger] g.spec_visibility().states()[i] == next_visibility(
            CellVisibility::Never,
            in_view(g.spec_world(), g.player_location(), coord_at(size, i)),
        )
}

/// What the renderer needs of one entity.
#[derive(Clone, Copy, Debug, PartialEq, Eq)]
pub struct EntityToRender {
    pub tile: Tile,
    pub location: Location,
    pub visibility: CellVisibility,
}

/// A running game: the world, its player and what the player has seen.
pub struct GameState {
    world: World,
    player_entity: Entity,
    visibility: VisibilityGrid,
}

impl GameState {
    pub closed spec fn spec_world(self) -> World {
        self.world
    }

    pub closed spec fn spec_player(self) -> Entity {
        self.player_entity
    }

    pub closed spec fn spec_visibility(self) -> VisibilityGrid {
        self.visibility
    }

    pub open spec fn wf(self) -> bool {
        &&& self.spec_world().wf()
        &&& self.spec_visibility().wf()
        &&& self.spec_visibility().spec_size() == self.spec_world().spec_size()
        &&& self.spec_world().has_entity(self.spec_player())
        &&& self.spec_world().location_of(self.spec_player()).layer == Some(Layer::Character)
    }

    pub open spec fn player_location(self) -> Coord {
        self.spec_world().location_of(self.spec_player()).coord
    }

    /// Starts a game on a fresh dungeon, with what the player sees at the start
    /// already computed.
    pub fn new(size: Size, rng: &mut rand::rngs::StdRng) -> (r: GameState)
        requires
            generator_size(size),
            2 * size.count() <= usize::MAX,
        ensures
            started(r, size),
            r.spec_visibility().states()[r.player_location().index_in(size)]
                == CellVisibility::Currently,
    {
        let mut world = World::new(size);
        let p = world.populate(rng);
        let visibility = VisibilityGrid::new(size);
        let mut g = GameState { world, player_entity: p.player_entity, visibility };
        let ghost before = g;
        g.update_visibility();
        proof {
            let eye = before.player_location();
            crate::world::lemma_location_valid(before.world, before.player_entity);
            crate::geom::lemma_index_in_range(eye, size);
            let i = eye.index_in(size);
            crate::geom::lemma_coord_at(size, i);
            crate::geom::lemma_index_injective(coord_at(size, i), eye, size);
            assert(in_view(before.world, eye, coord_at(size, i)));
        }
        g
    }

    pub fn world(&self) -> (r: &World)
        ensures
            r == self.spec_world(),
    {
        &self.world
    }

    pub fn player_entity(&self) -> (r: Entity)
        ensures
            r == self.spec_player(),
    {
        self.player_entity
    }

    pub fn visibility(&self) -> (r: &VisibilityGrid)
        ensures
            r == self.spec_visibility(),
    {
        &self.visibility
    }

    /// The player's cell.
    pub fn player_coord(&self) -> (r: Coord)
        requires
            self.wf(),
        ensures
            r == self.player_location(),
    {
        match self.world.location(self.player_entity) {
            Some(l) => l.coord,
            None => Coord { x: 0, y: 0 },
        }
    }

    /// Steps the player, with the rules of `World::maybe_move_character`.
    pub fn maybe_move_player(&mut self, direction: CardinalDirection)
        requires
            old(self).wf(),
        ensures
            final(self).wf(),
            moved(old(self).spec_world(), final(self).spec_world(), old(self).spec_player(), direction),
            final(self).spec_player() == old(self).spec_player(),
            final(self).spec_visibility() == old(self).spec_visibility(),
            final(self).player_location() == if old(self).spec_world().can_step(
                old(self).spec_player(),
                direction,
            ) {
                World::step(old(self).player_location(), direction)
            } else {
                old(self).player_location()
            },
    {
        self.world.maybe_move_character(self.player_entity, direction);
    }

    /// Recomputes what the player sees from where they stand.
    pub fn update_visibility(&mut self)
        requires
            old(self).wf(),
        ensures
            final(self).wf(),
            final(self).spec_world() == old(self).spec_world(),
            final(self).spec_player() == old(self).spec_player(),
            recomputed(
                old(self).spec_visibility(),
                final(self).spec_visibility(),
                old(self).spec_world(),
                old(self).player_location(),
            ),
    {
        let eye = self.player_coord();
        proof {
            assert(self.world.location_of(self.player_entity).coord.valid_in(
                self.world.spec_size(),
            )) by {
                crate::world::lemma_location_valid(self.world, self.player_entity);
            }
        }
        self.visibility.recompute(&self.world, eye);
    }

    /// Handles one move request: the step, if allowed, then a recomputation of
    /// sight, which happens even when the step was refused.
    pub fn handle_move(&mut self, direction: CardinalDirection)
        requires
            old(self).wf(),
        ensures
            final(self).wf(),
            final(self).spec_player() == old(self).spec_player(),
            moved(old(self).spec_world(), final(self).spec_world(), old(self).spec_player(), direction),
            recomputed(
                old(self).spec_visibility(),
                final(self).spec_visibility(),
                final(self).spec_world(),
                final(self).player_location(),
            ),
            final(self).player_location() == if old(self).spec_world().can_step(
                old(self).spec_player(),
                direction,
            ) {
                World::step(old(self).player_location(), direction)
            } else {
                old(self).player_location()
            },
    {
        self.maybe_move_player(direction);
        self.update_visibility();
    }

    /// Each entity with its location, tile and the visibility of its cell, in
    /// order of allocation.
    pub fn entities_to_render(&self) -> (r: Vec<EntityToRender>)
        requires
            self.wf(),
        ensures
            r@.len() == self.spec_world().entity_count(),
            forall|i: int|
                0 <= i < r@.len() ==> {
                    let e = (#[trigger] r@[i]);
                    exists|f: Entity|
                        f.spec_id() == i && e.tile == self.spec_world().tile_of(f) && e.location
                            == self.spec_world().location_of(f) && e.visibility
                            == self.spec_visibility().states()[e.location.coord.index_in(
                            self.spec_world().spec_size(),
                        )]
                },
    {
        let entities = self.world.entities();
        let mut r: Vec<EntityToRender> = Vec::new();
        let mut i: usize = 0;
        while i < entities.len()
            invariant
                self.wf(),
                entities@.len() == self.spec_world().entity_count(),
                forall|j: int| 0 <= j < entities@.len() ==> (#[trigger] entities@[j]).spec_id() == j,
                i <= entities@.len(),
                r@.len() == i,
                forall|j: int|
                    0 <= j < i ==> {
                        let e = (#[trigger] r@[j]);
                        exists|f: Entity|
                            f.spec_id() == j && e.tile == self.spec_world().tile_of(f)
                                && e.location == self.spec_world().location_of(f) && e.visibility
                                == self.spec_visibility().states()[e.location.coord.index_in(
                                self.spec_world().spec_size(),
                            )]
                    },
            decreases entities@.len() - i,
        {
            let f = entities[i];
            let (tile, location) = match (self.world.tile(f), self.world.location(f)) {
                (Some(t), Some(l)) => (t, l),
                _ => (Tile::Floor, Location { coord: Coord { x: 0, y: 0 }, layer: None }),
            };
            proof {
                crate::world::lemma_location_valid(self.world, f);
            }
            let visibility = self.visibility.get(location.coord);
            r.push(EntityToRender { tile, location, visibility });
            proof {
                assert(r@[i as int].tile == self.spec_world().tile_of(f));
            }
            i = i + 1;
        }
        r
    }
}

} // verus!
