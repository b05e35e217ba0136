use roguelike::terrain::TerrainTile::{Floor, Npc, Player, Wall};
use rand::rngs::StdRng;
use rand::SeedableRng;
use roguelike::geom::{CardinalDirection, Coord, Size};
use roguelike::terrain::{generate_layout, TerrainGrid, TerrainTile};
use roguelike::world::{Layer, NpcType, Tile, World};

fn small_world(tiles: Vec<TerrainTile>, width: u32, height: u32) -> (World, Option<roguelike::world::Entity>) {
    let size = Size::new(width, height);
    let mut w = World::new(size);
    let terrain = TerrainGrid { size, tiles };
    let p = w.populate_from_terrain(&terrain);
    (w, p)
}

fn assert_single_occupancy(w: &World) {
    let mut seen = Vec::new();
    for e in w.entities() {
        let l = w.location(e).unwrap();
        let key = (l.coord, l.layer);
        assert!(!seen.contains(&key));
        seen.push(key);
    }
}

#[test]
fn new_world_is_empty() {
    let w = World::new(Size::new(4, 3));
    assert_eq!(w.size(), Size::new(4, 3));
    assert_eq!(w.num_entities(), 0);
    assert_eq!(w.entity_at(Coord::new(1, 1), Layer::Floor), None);
}

#[test]
fn population_spawns_per_tile() {
    let (w, p) = small_world(vec![Player, Floor, Wall, Npc(NpcType::Orc)], 4, 1);
    let p = p.unwrap();
    assert_eq!(w.num_entities(), 7);
    assert_eq!(w.tile(p), Some(Tile::Player));
    assert_eq!(w.location(p).unwrap().coord, Coord::new(0, 0));
    assert_eq!(w.location(p).unwrap().layer, Some(Layer::Character));
    for x in 0..4 {
        let f = w.entity_at(Coord::new(x, 0), Layer::Floor).unwrap();
        assert_eq!(w.tile(f), Some(Tile::Floor));
    }
    let wall = w.entity_at(Coord::new(2, 0), Layer::Feature).unwrap();
    assert_eq!(w.tile(wall), Some(Tile::Wall));
    assert_eq!(w.entity_at(Coord::new(1, 0), Layer::Feature), None);
    let orc = w.entity_at(Coord::new(3, 0), Layer::Character).unwrap();
    assert_eq!(w.tile(orc), Some(Tile::Npc(NpcType::Orc)));
    assert_eq!(w.npc_type(orc), Some(NpcType::Orc));
    assert_eq!(w.npc_type(p), None);
    assert_single_occupancy(&w);
}

#[test]
fn terrain_without_player_gives_none() {
    let (_, p) = small_world(vec![TerrainTile::Floor, TerrainTile::Wall], 2, 1);
    assert!(p.is_none());
}

#[test]
fn entity_ids_increase() {
    let (w, _) = small_world(vec![TerrainTile::Player, TerrainTile::Floor], 2, 1);
    let es = w.entities();
    for i in 0..es.len() {
        assert_eq!(es[i].id(), i);
    }
}

#[test]
fn move_west_at_edge_is_noop() {
    let (mut w, p) = small_world(vec![Player, Floor, Floor], 3, 1);
    let p = p.unwrap();
    w.maybe_move_character(p, CardinalDirection::West);
    assert_eq!(w.location(p).unwrap().coord, Coord::new(0, 0));
    w.maybe_move_character(p, CardinalDirection::North);
    assert_eq!(w.location(p).unwrap().coord, Coord::new(0, 0));
}

#[test]
fn move_onto_character_is_blocked() {
    let (mut w, p) = small_world(vec![Player, Npc(NpcType::Troll), Floor], 3, 1);
    let p = p.unwrap();
    w.maybe_move_character(p, CardinalDirection::East);
    assert_eq!(w.location(p).unwrap().coord, Coord::new(0, 0));
    assert_single_occupancy(&w);
}

#[test]
fn move_onto_wall_is_blocked() {
    let (mut w, p) = small_world(vec![Floor, Player, Wall], 3, 1);
    let p = p.unwrap();
    w.maybe_move_character(p, CardinalDirection::East);
    assert_eq!(w.location(p).unwrap().coord, Coord::new(1, 0));
}

#[test]
fn move_onto_free_floor_steps() {
    let (mut w, p) = small_world(vec![Player, Floor, Floor, Floor], 2, 2);
    let p = p.unwrap();
    w.maybe_move_character(p, CardinalDirection::South);
    assert_eq!(w.location(p).unwrap().coord, Coord::new(0, 1));
    assert_eq!(w.entity_at(Coord::new(0, 1), Layer::Character), Some(p));
    assert_eq!(w.entity_at(Coord::new(0, 0), Layer::Character), None);
    w.maybe_move_character(p, CardinalDirection::East);
    assert_eq!(w.location(p).unwrap().coord, Coord::new(1, 1));
    assert_single_occupancy(&w);
}

#[test]
fn opacity_is_wall_presence() {
    let (w, _) = small_world(vec![Player, Wall], 2, 1);
    assert_eq!(w.opacity_at(Coord::new(1, 0)), 255);
    assert_eq!(w.opacity_at(Coord::new(0, 0)), 0);
}

#[test]
fn populate_is_deterministic() {
    let mut a = World::new(Size::new(40, 30));
    let mut b = World::new(Size::new(40, 30));
    let pa = a.populate(&mut StdRng::seed_from_u64(9));
    let pb = b.populate(&mut StdRng::seed_from_u64(9));
    assert_eq!(pa.player_entity, pb.player_entity);
    assert_eq!(a.num_entities(), b.num_entities());
    for e in a.entities() {
        assert_eq!(a.location(e), b.location(e));
        assert_eq!(a.tile(e), b.tile(e));
    }
}

#[test]
fn occupancy_stays_single_after_moves() {
    let mut w = World::new(Size::new(40, 30));
    let p = w.populate(&mut StdRng::seed_from_u64(21)).player_entity;
    assert_single_occupancy(&w);
    let dirs = [
        CardinalDirection::East,
        CardinalDirection::South,
        CardinalDirection::West,
        CardinalDirection::North,
    ];
    for k in 0..60 {
        w.maybe_move_character(p, dirs[(k * 7 + k / 3) % 4]);
        assert_single_occupancy(&w);
    }
}

#[test]
fn end_to_end_player_moves_east_until_blocked() {
    let size = Size::new(40, 30);
    let seed = 2024u64;
    let (_, rooms) = generate_layout(size, &mut StdRng::seed_from_u64(seed));
    let mut w = World::new(size);
    let p = w.populate(&mut StdRng::seed_from_u64(seed)).player_entity;
    let start = w.location(p).unwrap().coord;
    assert_eq!(start, rooms[0].center());
    let mut moved = 0;
    let mut blocked = false;
    for _ in 0..40 {
        let c = w.location(p).unwrap().coord;
        let east = Coord::new(c.x + 1, c.y);
        let free = east.x < 40
            && w.entity_at(east, Layer::Character).is_none()
            && w.entity_at(east, Layer::Feature).is_none();
        w.maybe_move_character(p, CardinalDirection::East);
        let after = w.location(p).unwrap().coord;
        if free {
            assert_eq!(after, east);
            moved += 1;
        } else {
            assert_eq!(after, c);
            assert!(w.entity_at(east, Layer::Feature).is_some());
            blocked = true;
            break;
        }
    }
    assert!(blocked);
    assert!(moved >= 1);
}

#[test]
fn step_east_then_bump_into_wall() {
    let (mut w, p) = small_world(vec![Player, Floor, Wall], 3, 1);
    let p = p.unwrap();
    w.maybe_move_character(p, CardinalDirection::East);
    assert_eq!(w.location(p).unwrap().coord, Coord::new(1, 0));
    w.maybe_move_character(p, CardinalDirection::East);
    assert_eq!(w.location(p).unwrap().coord, Coord::new(1, 0));
    assert_eq!(w.location(p).unwrap().layer, Some(Layer::Character));
}
