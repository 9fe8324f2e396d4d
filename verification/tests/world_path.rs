use strategy::path::astar;
use strategy::types::{Pos, TileKind};
use strategy::world::World;

fn grass_world(w: i32, h: i32) -> World {
    let mut world = World::new();
    for y in 0..h {
        for x in 0..w {
            world.set_tile(Pos { x, y }, TileKind::Grass);
        }
    }
    world
}

#[test]
fn unknown_tiles_are_water() {
    let world = World::new();
    assert_eq!(world.get_tile(3, 4), TileKind::Water);
}

#[test]
fn latest_tile_entry_wins() {
    let mut world = World::new();
    world.set_tile(Pos { x: 1, y: 1 }, TileKind::Grass);
    world.set_tile(Pos { x: 1, y: 1 }, TileKind::Forest);
    assert_eq!(world.get_tile(1, 1), TileKind::Forest);
}

#[test]
fn planting_never_replaces_a_tree() {
    let mut world = World::new();
    let p = Pos { x: 2, y: 2 };
    world.set_tree(p, 2);
    world.plant_tree(p);
    assert_eq!(world.tree_stage(p), Some(2));
    world.remove_tree(p);
    assert!(!world.has_tree(p));
    world.plant_tree(p);
    assert_eq!(world.tree_stage(p), Some(0));
}

#[test]
fn roads_and_occupation_are_remembered() {
    let mut world = World::new();
    let p = Pos { x: -3, y: 7 };
    assert!(!world.is_road(p));
    world.build_road(p);
    world.build_road(p);
    assert!(world.is_road(p));
    assert_eq!(world.roads.len(), 1);
    world.occupy(p);
    assert!(world.is_occupied(p));
    assert!(!world.is_occupied(Pos { x: 0, y: 0 }));
}

#[test]
fn path_to_the_same_tile_is_that_tile() {
    let world = World::new();
    let p = Pos { x: 4, y: 4 };
    assert_eq!(astar(&world, p, p, 10), Some(vec![p]));
}

#[test]
fn path_walks_side_steps_around_water() {
    let mut world = grass_world(5, 5);
    world.set_tile(Pos { x: 2, y: 0 }, TileKind::Water);
    world.set_tile(Pos { x: 2, y: 1 }, TileKind::Water);
    world.set_tile(Pos { x: 2, y: 2 }, TileKind::Water);
    let start = Pos { x: 0, y: 0 };
    let goal = Pos { x: 4, y: 0 };
    let path = astar(&world, start, goal, 10_000).expect("a way round the water");
    assert_eq!(path[0], start);
    assert_eq!(*path.last().unwrap(), goal);
    for w in path.windows(2) {
        assert_eq!((w[0].x - w[1].x).abs() + (w[0].y - w[1].y).abs(), 1);
    }
    for p in &path {
        assert_ne!(world.get_tile(p.x, p.y), TileKind::Water);
    }
}

#[test]
fn no_path_into_a_lake() {
    let world = grass_world(3, 3);
    assert_eq!(astar(&world, Pos { x: 0, y: 0 }, Pos { x: 10, y: 10 }, 10_000), None);
}

fn cost_of(world: &World, path: &[Pos]) -> i32 {
    path[1..]
        .iter()
        .map(|p| match world.get_tile(p.x, p.y) {
            TileKind::Water => panic!("water on the path"),
            _ if world.is_road(*p) => 1,
            TileKind::Grass => 4,
            TileKind::Forest => 7,
        })
        .sum()
}

#[test]
fn path_takes_the_cheaper_road_round_a_forest() {
    let mut world = grass_world(3, 2);
    world.set_tile(Pos { x: 1, y: 0 }, TileKind::Forest);
    for x in 0..3 {
        world.build_road(Pos { x, y: 1 });
    }
    let path = astar(&world, Pos { x: 0, y: 0 }, Pos { x: 2, y: 0 }, 100).expect("a path");
    // straight across the forest costs 7 + 4, along the road 1 + 1 + 1 + 4
    assert_eq!(cost_of(&world, &path), 7);
    assert_eq!(
        path,
        vec![Pos { x: 0, y: 0 }, Pos { x: 0, y: 1 }, Pos { x: 1, y: 1 }, Pos { x: 2, y: 1 }, Pos { x: 2, y: 0 }]
    );
}

#[test]
fn enough_budget_finds_the_cheapest_path_on_open_grass() {
    let world = grass_world(6, 6);
    let path = astar(&world, Pos { x: 0, y: 0 }, Pos { x: 5, y: 3 }, 100).expect("a path");
    assert_eq!(path.len(), 9);
    assert_eq!(cost_of(&world, &path), 32);
}

#[test]
fn a_walled_off_goal_has_no_path() {
    let mut world = grass_world(5, 5);
    for y in 0..5 {
        world.set_tile(Pos { x: 2, y }, TileKind::Water);
    }
    assert_eq!(astar(&world, Pos { x: 0, y: 0 }, Pos { x: 4, y: 4 }, 1_000), None);
}

#[test]
fn a_budget_above_the_land_tiles_is_enough() {
    // three land tiles in a row, and many water and repeated entries
    let mut world = World::new();
    for x in 0..3 {
        world.set_tile(Pos { x, y: 0 }, TileKind::Grass);
        world.set_tile(Pos { x, y: 0 }, TileKind::Grass);
    }
    for x in 0..10 {
        world.set_tile(Pos { x, y: 5 }, TileKind::Water);
    }
    let path = astar(&world, Pos { x: 0, y: 0 }, Pos { x: 2, y: 0 }, 4).expect("a path");
    assert_eq!(path, vec![Pos { x: 0, y: 0 }, Pos { x: 1, y: 0 }, Pos { x: 2, y: 0 }]);
    assert_eq!(astar(&world, Pos { x: 0, y: 0 }, Pos { x: 2, y: 1 }, 4), None);
}
