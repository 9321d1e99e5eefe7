//! The tile grid: tile coordinates, tile kinds, and conversion between tile
//! space and world space.
use crate::geometry::{UNIT, Vec3};
use vstd::prelude::*;
use vstd::string::StringSliceAdditionalSpecFns;

verus! {

/// A tile coordinate: column `x`, layer `y`, row `z`.
#[derive(Clone, Copy, Debug, PartialEq, Eq, Structural)]
pub struct GridCoord {
    pub x: usize,
    pub y: usize,
    pub z: usize,
}

/// The kinds of tile a map can hold.
#[derive(Clone, Copy, Debug, PartialEq, Eq, Structural)]
pub enum TileType {
    Air,
    Grass,
    Stone,
}

/// One cell of the map.
#[derive(Clone, Copy, Debug, PartialEq, Eq, Structural)]
pub struct Tile {
    pub kind: TileType,
    pub coord: GridCoord,
}

/// A loaded map: `tiles[x]` holds the cells of column `x`; `tile_size` is
/// the side of one tile in milli-units.
pub struct Grid {
    pub width: usize,
    pub height: usize,
    pub tiles: Vec<Vec<Tile>>,
    pub tile_size: u32,
}

/// World coordinate of tile index `c` at tile size `tile_size`.
pub open spec fn to_world(c: int, tile_size: int) -> int {
    c * tile_size
}

/// Tile index holding world coordinate `w`: truncated toward zero, with
/// everything below zero on tile zero.
pub open spec fn to_tile(w: int, tile_size: int) -> int {
    if w <= 0 {
        0
    } else {
        w / tile_size
    }
}

/// Whether every world coordinate of `c` fits a world vector.
pub open spec fn fits_world(c: GridCoord, tile_size: int) -> bool {
    &&& c.x * tile_size <= i32::MAX
    &&& c.y * tile_size <= i32::MAX
    &&& c.z * tile_size <= i32::MAX
}

/// The world position of tile `c`.
pub open spec fn world_of(c: GridCoord, tile_size: int) -> Vec3 {
    Vec3 {
        x: to_world(c.x as int, tile_size) as i32,
        y: to_world(c.y as int, tile_size) as i32,
        z: to_world(c.z as int, tile_size) as i32,
    }
}

/// The tile holding world position `v`.
pub open spec fn tile_of(v: Vec3, tile_size: int) -> GridCoord {
    GridCoord {
        x: to_tile(v.x as int, tile_size) as usize,
        y: to_tile(v.y as int, tile_size) as usize,
        z: to_tile(v.z as int, tile_size) as usize,
    }
}

/// The kind named by a tile's `TileType` property, as UTF-8 bytes.
pub open spec fn kind_named(name: Seq<u8>) -> TileType {
    if name == seq![71u8, 114, 97, 115, 115] {
        TileType::Grass
    } else if name == seq![83u8, 116, 111, 110, 101] {
        TileType::Stone
    } else {
        TileType::Air
    }
}

/// The cells of `row` that are not air, in order.
pub open spec fn solid_in(row: Seq<Tile>) -> Seq<Tile>
    decreases row.len(),
{
    if row.len() == 0 {
        Seq::empty()
    } else if row.last().kind != TileType::Air {
        solid_in(row.drop_last()).push(row.last())
    } else {
        solid_in(row.drop_last())
    }
}

/// The cells of all `columns` that are not air, column by column.
pub open spec fn solid_tiles(columns: Seq<Seq<Tile>>) -> Seq<Tile>
    decreases columns.len(),
{
    if columns.len() == 0 {
        Seq::empty()
    } else {
        solid_tiles(columns.drop_last()) + solid_in(columns.last())
    }
}

fn world_axis(c: usize, tile_size: u32) -> (r: i32)
    requires
        c * tile_size <= i32::MAX,
    ensures
        r == to_world(c as int, tile_size as int),
{
    assert(c as int * tile_size as int >= 0) by (nonlinear_arith);
    if tile_size == 0 {
        0
    } else {
        assert(c * tile_size >= c) by (nonlinear_arith)
            requires
                tile_size >= 1,
                c >= 0,
        ;
        (c as i64 * tile_size as i64) as i32
    }
}

fn tile_axis(w: i32, tile_size: u32) -> (r: usize)
    requires
        tile_size > 0,
    ensures
        r == to_tile(w as int, tile_size as int),
{
    if w <= 0 {
        0
    } else {
        (w as u32 / tile_size) as usize
    }
}

impl GridCoord {
    /// The coordinate of the corner tile.
    pub fn zero() -> (r: GridCoord)
        ensures
            r == (GridCoord { x: 0, y: 0, z: 0 }),
    {
        GridCoord { x: 0, y: 0, z: 0 }
    }

    /// World position of this tile, as used for bodies.
    pub fn to_rapier3d_vec(&self, tile_size: u32) -> (r: Vec3)
        requires
            fits_world(*self, tile_size as int),
        ensures
            r == world_of(*self, tile_size as int),
    {
        Vec3 {
            x: world_axis(self.x, tile_size),
            y: world_axis(self.y, tile_size),
            z: world_axis(self.z, tile_size),
        }
    }

    /// World position of this tile, as used for the camera.
    pub fn to_raylib_vec3(&self, tile_size: u32) -> (r: Vec3)
        requires
            fits_world(*self, tile_size as int),
        ensures
            r == world_of(*self, tile_size as int),
    {
        self.to_rapier3d_vec(tile_size)
    }

    /// Moves this coordinate to `(x, y, z)` and returns its world position.
    pub fn to_rapier3d_vec_new(&mut self, x: usize, y: usize, z: usize, tile_size: u32) -> (r: Vec3)
        requires
            fits_world(GridCoord { x, y, z }, tile_size as int),
        ensures
            *final(self) == (GridCoord { x, y, z }),
            r == world_of(GridCoord { x, y, z }, tile_size as int),
    {
        self.x = x;
        self.y = y;
        self.z = z;
        self.to_rapier3d_vec(tile_size)
    }

    /// The tile holding world position `vector`.
    pub fn from_rapier3d_vec(vector: Vec3, tile_size: u32) -> (r: GridCoord)
        requires
            tile_size > 0,
        ensures
            r == tile_of(vector, tile_size as int),
    {
        GridCoord {
            x: tile_axis(vector.x, tile_size),
            y: tile_axis(vector.y, tile_size),
            z: tile_axis(vector.z, tile_size),
        }
    }
}

impl TileType {
    /// The kind named by a tile's `TileType` property: `Grass`, `Stone`, and
    /// air for any other name.
    pub fn from_name(name: &str) -> (r: TileType)
        ensures
            r == kind_named(name.spec_bytes()),
    {
        let b = name.as_bytes();
        let ghost grass = seq![71u8, 114, 97, 115, 115];
        let ghost stone = seq![83u8, 116, 111, 110, 101];
        if b.len() != 5 {
            assert(b@ != grass && b@ != stone);
            return TileType::Air;
        }
        if b[0] == 71 && b[1] == 114 && b[2] == 97 && b[3] == 115 && b[4] == 115 {
            assert(b@ =~= grass);
            TileType::Grass
        } else if b[0] == 83 && b[1] == 116 && b[2] == 111 && b[3] == 110 && b[4] == 101 {
            assert(b@ =~= stone);
            TileType::Stone
        } else {
            assert(b@ != grass && b@ != stone) by {
                if b@ == grass {
                    assert(b@[0] == 71 && b@[1] == 114 && b@[2] == 97 && b@[3] == 115 && b@[4] == 115);
                }
                if b@ == stone {
                    assert(b@[0] == 83 && b@[1] == 116 && b@[2] == 111 && b@[3] == 110 && b@[4] == 101);
                }
            }
            TileType::Air
        }
    }

    /// Whether a tile of this kind is a solid block.
    pub fn is_solid(&self) -> (r: bool)
        ensures
            r == (*self != TileType::Air),
    {
        match self {
            TileType::Air => false,
            _ => true,
        }
    }
}

impl Tile {
    /// The cell at column `x` and map row `row` of layer `layer_id` of a map
    /// with `map_height` rows: rows are counted from the top in the map and
    /// from the bottom in the grid, and layer ids start at one.
    pub fn from_layer_cell(x: u32, row: u32, layer_id: u32, map_height: u32, kind: TileType) -> (r: Tile)
        requires
            row < map_height,
            layer_id >= 1,
        ensures
            r == (Tile {
                kind,
                coord: GridCoord { x: x as usize, y: (layer_id - 1) as usize, z: (map_height - 1 - row) as usize },
            }),
    {
        Tile {
            kind,
            coord: GridCoord { x: x as usize, y: (layer_id - 1) as usize, z: (map_height - 1 - row) as usize },
        }
    }
}

impl Grid {
    /// A grid of `width` columns and `height` rows, at the default tile size
    /// of one world unit.
    pub fn new(width: usize, height: usize, tiles: Vec<Vec<Tile>>) -> (r: Grid)
        ensures
            r.width == width,
            r.height == height,
            r.tiles@ == tiles@,
            r.tile_size == UNIT,
    {
        Grid { width, height, tiles, tile_size: UNIT as u32 }
    }

    /// The cells that hold a solid block, column by column.
    pub fn block_tiles(&self) -> (r: Vec<Tile>)
        ensures
            r@ == solid_tiles(self.tiles@.map_values(|c: Vec<Tile>| c@)),
    {
        let ghost columns = self.tiles@.map_values(|c: Vec<Tile>| c@);
        let mut out: Vec<Tile> = Vec::new();
        let mut i: usize = 0;
        while i < self.tiles.len()
            invariant
                i <= self.tiles@.len(),
                columns == self.tiles@.map_values(|c: Vec<Tile>| c@),
                out@ == solid_tiles(columns.take(i as int)),
            decreases self.tiles@.len() - i,
        {
            let column = &self.tiles[i];
            let ghost start = out@;
            let mut j: usize = 0;
            while j < column.len()
                invariant
                    j <= column@.len(),
                    out@ == start + solid_in(column@.take(j as int)),
                decreases column@.len() - j,
            {
                let t = column[j];
                assert(column@.take(j + 1).drop_last() =~= column@.take(j as int));
                if t.kind.is_solid() {
                    out.push(t);
                    assert(out@ =~= start + solid_in(column@.take(j + 1)));
                }
                j += 1;
            }
            assert(column@.take(column@.len() as int) =~= column@);
            assert(columns.take(i + 1).drop_last() =~= columns.take(i as int));
            assert(columns[i as int] == column@);
            i += 1;
        }
        assert(columns.take(self.tiles@.len() as int) =~= columns);
        out
    }
}

/// A tile coordinate taken to world space and back is the same coordinate,
/// for every coordinate whose world position is representable.
pub proof fn lemma_tile_world_round_trip(c: GridCoord, tile_size: u32)
    requires
        tile_size > 0,
        fits_world(c, tile_size as int),
    ensures
        tile_of(world_of(c, tile_size as int), tile_size as int) == c,
{
    lemma_axis_round_trip(c.x as int, tile_size as int);
    lemma_axis_round_trip(c.y as int, tile_size as int);
    lemma_axis_round_trip(c.z as int, tile_size as int);
}

proof fn lemma_axis_round_trip(c: int, t: int)
    requires
        c >= 0,
        t > 0,
        c * t <= i32::MAX,
    ensures
        to_tile((c * t) as i32 as int, t) == c,
{
    assert(c * t >= 0) by (nonlinear_arith)
        requires
            c >= 0,
            t > 0,
    ;
    if c == 0 {
        assert(c * t == 0);
    } else {
        assert(c * t > 0) by (nonlinear_arith)
            requires
                c > 0,
                t > 0,
        ;
        vstd::arithmetic::div_mod::lemma_div_by_multiple(c, t);
    }
}

} // verus!
