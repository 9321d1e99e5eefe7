use std::collections::HashSet;
use witch_hunt::ai::PATROL_HALF_EXTENT;
use witch_hunt::components::{ColliderKey, Witch, WitchState};
use witch_hunt::grid::{Grid, GridCoord};
use witch_hunt::spawn::{
    choose_tiles, free_tiles, generate_balls, generate_entities, generate_player, generate_trees,
    generate_witches, populate, SpawnError,
};

fn grid(width: usize, height: usize) -> Grid {
    Grid::new(width, height, vec![])
}

fn coord(x: usize, y: usize, z: usize) -> GridCoord {
    GridCoord { x, y, z }
}

fn columns(v: &[GridCoord]) -> HashSet<(usize, usize)> {
    v.iter().map(|c| (c.x, c.z)).collect()
}

const NONE: Vec<GridCoord> = Vec::new();

#[test]
fn five_trees_on_ten_by_ten() {
    let g = grid(10, 10);
    let trees = generate_trees(&g, &NONE, &NONE, &vec![1, 3, 2, 4, 1]).unwrap();
    assert_eq!(trees.len(), 5);
    for t in &trees {
        assert!(2 <= t.x && t.x <= 7 && 2 <= t.z && t.z <= 7);
    }
    assert_eq!(columns(&trees).len(), 5);
    let layers: Vec<usize> = trees.iter().map(|t| t.y).collect();
    assert_eq!(layers, vec![1, 3, 2, 4, 1]);
}

#[test]
fn free_tiles_of_ten_by_ten() {
    let free = free_tiles(&grid(10, 10), &NONE, &NONE, &vec![0]);
    assert_eq!(free.len(), 36);
    assert_eq!(columns(&free).len(), 36);
    assert!(free.iter().all(|c| c.y == 0));
}

#[test]
fn occupied_columns_are_not_free() {
    let occupied = vec![coord(2, 5, 2), coord(0, 0, 0)];
    let free = free_tiles(&grid(10, 10), &occupied, &NONE, &vec![2]);
    assert_eq!(free.len(), 35);
    assert!(!free.iter().any(|c| c.x == 2 && c.z == 2));
}

#[test]
fn terrain_blocks_only_its_own_layer() {
    let terrain = vec![coord(3, 2, 3), coord(4, 0, 4)];
    let free = free_tiles(&grid(10, 10), &NONE, &terrain, &vec![2]);
    assert_eq!(free.len(), 35);
    assert!(!free.iter().any(|c| c.x == 3 && c.z == 3));
    let free = free_tiles(&grid(10, 10), &NONE, &terrain, &vec![0, 2]);
    assert_eq!(free.len(), 34);
}

#[test]
fn every_free_tile_can_be_filled() {
    let all = generate_entities(&grid(10, 10), &NONE, &NONE, 0, 36).unwrap();
    assert_eq!(columns(&all).len(), 36);
}

#[test]
fn too_many_entities_is_a_capacity_error() {
    assert_eq!(generate_entities(&grid(10, 10), &NONE, &NONE, 0, 37), Err(SpawnError::Capacity));
}

#[test]
fn small_map_has_no_room_for_player() {
    assert_eq!(generate_player(&grid(4, 4), &NONE, &NONE), Err(SpawnError::Capacity));
    assert_eq!(generate_player(&grid(5, 5), &NONE, &NONE), Ok(coord(2, 0, 2)));
}

#[test]
fn player_avoids_terrain_at_its_layer() {
    let g = grid(5, 5);
    assert_eq!(generate_player(&g, &NONE, &vec![coord(2, 2, 2)]), Err(SpawnError::Capacity));
    assert_eq!(generate_player(&g, &NONE, &vec![coord(2, 0, 2)]), Ok(coord(2, 0, 2)));
}

#[test]
fn later_spawns_avoid_earlier_ones() {
    let g = grid(7, 7);
    let player = generate_player(&g, &NONE, &NONE).unwrap();
    assert_eq!(player.y, 0);
    let mut occupied = vec![player];
    let balls = generate_balls(&g, &occupied, &NONE, 4).unwrap();
    assert!(balls.iter().all(|b| b.y == 10));
    occupied.extend(balls.iter().copied());
    let witches = generate_witches(&g, &occupied, &NONE, 4).unwrap();
    assert!(witches.iter().all(|w| w.tile.y == 2));
    occupied.extend(witches.iter().map(|w| w.tile));
    assert_eq!(columns(&occupied).len(), 9);
    assert_eq!(generate_witches(&g, &occupied, &NONE, 1), Err(SpawnError::Capacity));
}

#[test]
fn spawned_witches_patrol() {
    let spawns = generate_witches(&grid(10, 10), &NONE, &NONE, 3).unwrap();
    for s in &spawns {
        let t = s.target;
        assert!(t.y == 0 && t.x.abs() <= PATROL_HALF_EXTENT && t.z.abs() <= PATROL_HALF_EXTENT);
        let key = ColliderKey { index: 4, generation: 1 };
        assert_eq!(s.witch(key), Witch { collider_handle: key, state: WitchState::Patrolling, target: t });
    }
}

#[test]
fn draws_take_from_what_is_left() {
    let pool: Vec<GridCoord> = (0..4).map(|x| coord(x, 0, 0)).collect();
    let picked = choose_tiles(pool, &vec![1, 1, 0]);
    let xs: Vec<usize> = picked.iter().map(|c| c.x).collect();
    assert_eq!(xs, vec![1, 2, 0]);
}

#[test]
fn default_population_fits_ten_by_ten() {
    let tree_layers = vec![1usize; 25];
    let p = populate(&grid(10, 10), &NONE, &tree_layers, 4, 1).unwrap();
    assert_eq!(p.player.y, 0);
    assert_eq!((p.trees.len(), p.balls.len(), p.witches.len()), (25, 4, 1));
    let mut all = vec![p.player];
    all.extend(p.trees.iter().copied());
    all.extend(p.balls.iter().copied());
    all.extend(p.witches.iter().map(|w| w.tile));
    assert_eq!(columns(&all).len(), 31);
    assert!(all.iter().all(|c| 2 <= c.x && c.x <= 7 && 2 <= c.z && c.z <= 7));
}

#[test]
fn population_needs_a_tile_each() {
    let g = grid(8, 8);
    assert!(populate(&g, &NONE, &vec![1; 10], 4, 1).is_ok());
    assert_eq!(populate(&g, &NONE, &vec![1; 11], 4, 1).err(), Some(SpawnError::Capacity));
    assert_eq!(populate(&grid(4, 9), &NONE, &vec![], 0, 0).err(), Some(SpawnError::Capacity));
}

#[test]
fn population_keeps_off_terrain() {
    // Ground blocks at layer 0 leave every column usable.
    let ground: Vec<GridCoord> = (0..5).flat_map(|x| (0..5).map(move |z| coord(x, 0, z))).collect();
    let p = populate(&grid(5, 5), &ground, &vec![], 0, 0).unwrap();
    assert_eq!(p.player, coord(2, 0, 2));
    // A block at the player's layer takes the only column away.
    assert_eq!(populate(&grid(5, 5), &vec![coord(2, 2, 2)], &vec![], 0, 0).err(), Some(SpawnError::Capacity));
}
