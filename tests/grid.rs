use witch_hunt::grid::{Grid, GridCoord, Tile, TileType};

fn coord(x: usize, y: usize, z: usize) -> GridCoord {
    GridCoord { x, y, z }
}

#[test]
fn tile_to_world_scales_by_tile_size() {
    let w = coord(3, 0, 4).to_rapier3d_vec(1000);
    assert_eq!((w.x, w.y, w.z), (3000, 0, 4000));
    let w = coord(3, 2, 4).to_raylib_vec3(500);
    assert_eq!((w.x, w.y, w.z), (1500, 1000, 2000));
}

#[test]
fn world_to_tile_truncates() {
    let v = witch_hunt::geometry::Vec3 { x: 2999, y: -400, z: 3000 };
    assert_eq!(GridCoord::from_rapier3d_vec(v, 1000), coord(2, 0, 3));
}

#[test]
fn tile_world_round_trip() {
    for x in 0..10 {
        for y in 0..3 {
            for z in 0..10 {
                for size in [1u32, 250, 1000, 1500] {
                    let c = coord(x, y, z);
                    assert_eq!(GridCoord::from_rapier3d_vec(c.to_rapier3d_vec(size), size), c);
                }
            }
        }
    }
}

#[test]
fn moved_coordinate() {
    let mut c = GridCoord::zero();
    assert_eq!(c, coord(0, 0, 0));
    let w = c.to_rapier3d_vec_new(4, 1, 6, 1000);
    assert_eq!(c, coord(4, 1, 6));
    assert_eq!((w.x, w.y, w.z), (4000, 1000, 6000));
}

#[test]
fn tile_kinds_from_names() {
    assert_eq!(TileType::from_name("Grass"), TileType::Grass);
    assert_eq!(TileType::from_name("Stone"), TileType::Stone);
    assert_eq!(TileType::from_name("Water"), TileType::Air);
    assert_eq!(TileType::from_name("grass"), TileType::Air);
    assert_eq!(TileType::from_name(""), TileType::Air);
    assert!(TileType::Grass.is_solid());
    assert!(!TileType::Air.is_solid());
}

#[test]
fn layer_cells_flip_rows() {
    let t = Tile::from_layer_cell(3, 0, 1, 10, TileType::Grass);
    assert_eq!(t, Tile { kind: TileType::Grass, coord: coord(3, 0, 9) });
    let t = Tile::from_layer_cell(0, 9, 2, 10, TileType::Air);
    assert_eq!(t.coord, coord(0, 1, 0));
}

#[test]
fn new_grid_has_unit_tiles() {
    let g = Grid::new(4, 5, vec![]);
    assert_eq!((g.width, g.height, g.tile_size), (4, 5, 1000));
}

#[test]
fn block_tiles_skip_air() {
    let t = |kind, x, z| Tile { kind, coord: coord(x, 0, z) };
    let tiles = vec![
        vec![t(TileType::Grass, 0, 0), t(TileType::Air, 0, 1)],
        vec![t(TileType::Air, 1, 0), t(TileType::Stone, 1, 1)],
    ];
    let g = Grid::new(2, 2, tiles);
    let blocks = g.block_tiles();
    assert_eq!(blocks, vec![t(TileType::Grass, 0, 0), t(TileType::Stone, 1, 1)]);
}
