use roguelike::terrain::TerrainTile::{Floor, Player, Wall};
use roguelike::session::{App, ControlFlow, Input};
use rand::rngs::StdRng;
use rand::SeedableRng;
use roguelike::game::GameState;
use roguelike::geom::{CardinalDirection, Coord, Size};
use roguelike::terrain::{TerrainGrid, TerrainTile};
use roguelike::visibility::{field_of_view, CellVisibility, VisibilityGrid};
use roguelike::world::World;

#[test]
fn grid_starts_unseen() {
    let g = VisibilityGrid::new(Size::new(3, 2));
    for y in 0..2 {
        for x in 0..3 {
            assert_eq!(g.get(Coord::new(x, y)), CellVisibility::Never);
        }
    }
}

#[test]
fn update_transitions() {
    let mut g = VisibilityGrid::new(Size::new(3, 1));
    g.update(&vec![true, true, false]);
    assert_eq!(g.get(Coord::new(0, 0)), CellVisibility::Currently);
    assert_eq!(g.get(Coord::new(1, 0)), CellVisibility::Currently);
    assert_eq!(g.get(Coord::new(2, 0)), CellVisibility::Never);
    g.update(&vec![false, true, false]);
    assert_eq!(g.get(Coord::new(0, 0)), CellVisibility::Previously);
    assert_eq!(g.get(Coord::new(1, 0)), CellVisibility::Currently);
    assert_eq!(g.get(Coord::new(2, 0)), CellVisibility::Never);
    g.update(&vec![false, false, false]);
    assert_eq!(g.get(Coord::new(0, 0)), CellVisibility::Previously);
    assert_eq!(g.get(Coord::new(1, 0)), CellVisibility::Previously);
    g.update(&vec![true, false, false]);
    assert_eq!(g.get(Coord::new(0, 0)), CellVisibility::Currently);
}

#[test]
fn walls_block_sight_but_are_seen() {
    let size = Size::new(5, 1);
    let mut w = World::new(size);
    w.populate_from_terrain(&TerrainGrid { size, tiles: vec![Player, Floor, Wall, Floor, Floor] });
    let v = field_of_view(&w, Coord::new(0, 0));
    assert_eq!(v, vec![true, true, true, false, false]);
}

#[test]
fn sight_is_symmetric() {
    let size = Size::new(4, 3);
    let tiles = vec![
        Player, Floor, Floor, Floor, //
        Floor, Wall, Floor, Floor, //
        Floor, Floor, Floor, Wall,
    ];
    let mut w = World::new(size);
    w.populate_from_terrain(&TerrainGrid { size, tiles });
    for i in 0..12 {
        let a = Coord::new(i % 4, i / 4);
        let va = field_of_view(&w, a);
        for j in 0..12 {
            let b = Coord::new(j % 4, j / 4);
            let vb = field_of_view(&w, b);
            assert_eq!(va[j as usize], vb[i as usize]);
        }
        assert!(va[i as usize]);
    }
}

#[test]
fn game_recomputes_after_each_move() {
    let mut g = GameState::new(Size::new(40, 30), &mut StdRng::seed_from_u64(4));
    let eye = g.player_coord();
    assert_eq!(g.visibility().get(eye), CellVisibility::Currently);
    let dirs = [
        CardinalDirection::West,
        CardinalDirection::North,
        CardinalDirection::East,
        CardinalDirection::South,
    ];
    let mut before: Vec<CellVisibility> = Vec::new();
    for y in 0..30 {
        for x in 0..40 {
            before.push(g.visibility().get(Coord::new(x, y)));
        }
    }
    for k in 0..12 {
        g.handle_move(dirs[k % 4]);
        let eye = g.player_coord();
        assert_eq!(g.visibility().get(eye), CellVisibility::Currently);
        let mut now = Vec::new();
        for y in 0..30 {
            for x in 0..40 {
                now.push(g.visibility().get(Coord::new(x, y)));
            }
        }
        for i in 0..now.len() {
            if before[i] != CellVisibility::Never {
                assert_ne!(now[i], CellVisibility::Never);
            }
        }
        before = now;
    }
}

#[test]
fn render_list_covers_every_entity() {
    let g = GameState::new(Size::new(40, 30), &mut StdRng::seed_from_u64(8));
    let list = g.entities_to_render();
    assert_eq!(list.len(), g.world().num_entities());
    let p = g.player_entity();
    let item = list[p.id()];
    assert_eq!(item.tile, roguelike::world::Tile::Player);
    assert_eq!(item.visibility, CellVisibility::Currently);
}

#[test]
fn session_quits_and_moves() {
    let mut app = App::new(Size::new(40, 30), &mut StdRng::seed_from_u64(17));
    let start = app.game().player_coord();
    assert_eq!(app.on_input(Input::Other), None);
    assert_eq!(app.game().player_coord(), start);
    let w = app.game().world();
    let west = Coord::new(start.x - 1, start.y);
    let free = west.x >= 0
        && w.entity_at(west, roguelike::world::Layer::Character).is_none()
        && w.entity_at(west, roguelike::world::Layer::Feature).is_none();
    assert_eq!(app.on_input(Input::Move(CardinalDirection::West)), None);
    if free {
        assert_eq!(app.game().player_coord(), west);
    } else {
        assert_eq!(app.game().player_coord(), start);
    }
    let here = app.game().player_coord();
    assert_eq!(app.on_input(Input::Quit), Some(ControlFlow::Exit));
    assert_eq!(app.game().player_coord(), here);
}

#[test]
fn other_input_recomputes_without_moving() {
    let mut app = App::new(Size::new(40, 30), &mut StdRng::seed_from_u64(23));
    let n = app.game().world().num_entities();
    let start = app.game().player_coord();
    assert_eq!(app.on_input(Input::Other), None);
    assert_eq!(app.game().world().num_entities(), n);
    assert_eq!(app.game().player_coord(), start);
    assert_eq!(app.game().visibility().get(start), CellVisibility::Currently);
}
