use rand::rngs::StdRng;
use rand::SeedableRng;
use roguelike::geom::Size;
use roguelike::terrain::{
    fill_unset, generate_dungeon, generate_layout, npc_for_roll, npcs_per_room_table, Room, TerrainTile,
};
use roguelike::world::NpcType;

fn cells_of(room: &Room) -> Vec<(usize, usize)> {
    let mut v = Vec::new();
    for y in room.y..room.y + room.height {
        for x in room.x..room.x + room.width {
            v.push((x, y));
        }
    }
    v
}

#[test]
fn same_seed_gives_same_terrain() {
    let size = Size::new(40, 30);
    let a = generate_dungeon(size, &mut StdRng::seed_from_u64(7));
    let b = generate_dungeon(size, &mut StdRng::seed_from_u64(7));
    assert_eq!(a.size, b.size);
    assert_eq!(a.tiles, b.tiles);
}

#[test]
fn every_cell_has_a_tile() {
    let size = Size::new(40, 30);
    let t = generate_dungeon(size, &mut StdRng::seed_from_u64(1));
    assert_eq!(t.size, size);
    assert_eq!(t.tiles.len(), 40 * 30);
}

#[test]
fn accepted_rooms_do_not_overlap() {
    for seed in 0..20u64 {
        let (_, rooms) = generate_layout(Size::new(40, 30), &mut StdRng::seed_from_u64(seed));
        assert!(!rooms.is_empty());
        for a in 0..rooms.len() {
            for b in a + 1..rooms.len() {
                let ca = cells_of(&rooms[a]);
                for c in cells_of(&rooms[b]) {
                    assert!(!ca.contains(&c));
                }
            }
        }
    }
}

#[test]
fn rooms_have_the_drawn_shape() {
    let (_, rooms) = generate_layout(Size::new(40, 30), &mut StdRng::seed_from_u64(3));
    for r in &rooms {
        assert!(5 <= r.width && r.width < 11);
        assert!(5 <= r.height && r.height < 9);
        assert!(r.x + r.width < 40);
        assert!(r.y + r.height < 30);
    }
}

#[test]
fn single_player_at_first_room_center() {
    for seed in 0..20u64 {
        let (grid, rooms) = generate_layout(Size::new(40, 30), &mut StdRng::seed_from_u64(seed));
        let players: Vec<usize> = (0..grid.tiles.len())
            .filter(|&i| grid.tiles[i] == TerrainTile::Player)
            .collect();
        assert_eq!(players.len(), 1);
        let c = rooms[0].center();
        assert_eq!(players[0], c.y as usize * 40 + c.x as usize);
    }
}

#[test]
fn room_top_and_left_sides_are_wall_unless_corridor() {
    let (grid, rooms) = generate_layout(Size::new(40, 30), &mut StdRng::seed_from_u64(11));
    let r = rooms[0];
    let corner = grid.tiles[r.y * 40 + r.x];
    assert!(corner == TerrainTile::Wall || corner == TerrainTile::Floor);
}

#[test]
fn npcs_stand_inside_rooms() {
    let (grid, rooms) = generate_layout(Size::new(40, 30), &mut StdRng::seed_from_u64(5));
    for i in 0..grid.tiles.len() {
        if let TerrainTile::Npc(_) = grid.tiles[i] {
            let (x, y) = (i % 40, i / 40);
            let inside = rooms.iter().any(|r| {
                r.x < x && x < r.x + r.width && r.y < y && y < r.y + r.height
            });
            assert!(inside);
        }
    }
}

#[test]
fn room_center_uses_integer_halves() {
    let r = Room { x: 3, y: 4, width: 7, height: 5 };
    let c = r.center();
    assert_eq!((c.x, c.y), (6, 6));
}

#[test]
fn unset_cells_become_wall() {
    let mut g = grid_2d::Grid::new_copy(grid_2d::UCoord::new(2, 2), None);
    *g.get_index_checked_mut(1) = Some(TerrainTile::Floor);
    *g.get_index_checked_mut(2) = Some(TerrainTile::Npc(NpcType::Troll));
    assert_eq!(
        fill_unset(&g),
        vec![
            TerrainTile::Wall,
            TerrainTile::Floor,
            TerrainTile::Npc(NpcType::Troll),
            TerrainTile::Wall
        ]
    );
}

#[test]
fn npc_names() {
    assert_eq!(NpcType::Orc.name(), "orc");
    assert_eq!(NpcType::Troll.name(), "troll");
}

#[test]
fn at_most_four_npcs_per_room() {
    let mut total = 0;
    for seed in 0..30u64 {
        let (grid, rooms) = generate_layout(Size::new(40, 30), &mut StdRng::seed_from_u64(seed));
        for r in &rooms {
            let npcs = cells_of(r)
                .into_iter()
                .filter(|&(x, y)| matches!(grid.tiles[y * 40 + x], TerrainTile::Npc(_)))
                .count();
            assert!(npcs <= 4);
            total += npcs;
        }
    }
    assert!(total > 0);
}

#[test]
fn corridors_join_consecutive_centers() {
    let (grid, rooms) = generate_layout(Size::new(40, 30), &mut StdRng::seed_from_u64(13));
    for k in 1..rooms.len() {
        let s = rooms[k - 1].center();
        let e = rooms[k].center();
        for x in s.x.min(e.x)..=s.x.max(e.x) {
            assert_ne!(grid.tiles[s.y as usize * 40 + x as usize], TerrainTile::Wall);
        }
        for y in s.y.min(e.y)..=s.y.max(e.y) {
            assert_ne!(grid.tiles[y as usize * 40 + e.x as usize], TerrainTile::Wall);
        }
    }
}

#[test]
fn smallest_grid_still_places_a_player() {
    let t = generate_dungeon(Size::new(11, 9), &mut StdRng::seed_from_u64(0));
    assert_eq!(t.tiles.len(), 99);
    assert_eq!(t.tiles.iter().filter(|&&x| x == TerrainTile::Player).count(), 1);
}

#[test]
fn rolls_below_eighty_give_orcs() {
    assert_eq!(npc_for_roll(0), NpcType::Orc);
    assert_eq!(npc_for_roll(79), NpcType::Orc);
    assert_eq!(npc_for_roll(80), NpcType::Troll);
    assert_eq!(npc_for_roll(99), NpcType::Troll);
}

#[test]
fn npc_count_table() {
    assert_eq!(npcs_per_room_table(), vec![0, 0, 0, 0, 0, 0, 1, 1, 1, 1, 2, 2, 2, 3, 3, 4]);
}

#[test]
fn outer_edge_is_wall_and_rooms_are_bounded() {
    for seed in 0..10u64 {
        let (grid, rooms) = generate_layout(Size::new(40, 30), &mut StdRng::seed_from_u64(seed));
        assert!(!rooms.is_empty() && rooms.len() <= 100);
        for x in 0..40 {
            assert_eq!(grid.tiles[x], TerrainTile::Wall);
            assert_eq!(grid.tiles[29 * 40 + x], TerrainTile::Wall);
        }
        for y in 0..30 {
            assert_eq!(grid.tiles[y * 40], TerrainTile::Wall);
            assert_eq!(grid.tiles[y * 40 + 39], TerrainTile::Wall);
        }
    }
}
