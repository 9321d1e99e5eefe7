//! Placement of spawned entities on free tiles of the grid.
//!
//! A column `(x, z)` is free when it lies at least `EDGE_MARGIN` tiles in
//! from every edge and no entity placed earlier stands in it; an entity is
//! also kept off any tile that terrain already fills at the layer it spawns
//! at. Each entity is given a column drawn uniformly from the free columns
//! that are left, so a request succeeds whenever there is room and fails at
//! once otherwise.
use crate::ai::{generate_patrol_point, in_patrol_region};
use crate::chance::random_below;
use crate::components::{ColliderKey, Witch, WitchState};
use crate::geometry::Vec3;
use crate::grid::{Grid, GridCoord};
use vstd::prelude::*;
use vstd::set_lib::lemma_len_subset;

verus! {

/// Tiles kept clear along every edge of the map.
pub const EDGE_MARGIN: usize = 2;

/// Layer the player is spawned at.
pub const PLAYER_SPAWN_LAYER: usize = 2;

/// Layer balls are dropped from.
pub const BALL_SPAWN_LAYER: usize = 10;

/// Layer witches are spawned at.
pub const WITCH_SPAWN_LAYER: usize = 2;

/// Why a placement request failed.
#[derive(Clone, Copy, Debug, PartialEq, Eq, Structural)]
pub enum SpawnError {
    /// More entities were asked for than there are free tiles.
    Capacity,
}

/// Whether `(x, z)` lies inside the area kept clear of the edges.
pub open spec fn in_spawn_area(width: int, height: int, x: int, z: int) -> bool {
    &&& EDGE_MARGIN <= x
    &&& x + EDGE_MARGIN < width
    &&& EDGE_MARGIN <= z
    &&& z + EDGE_MARGIN < height
}

/// Whether some entity of `occupied` stands in column `(x, z)`.
pub open spec fn column_taken(occupied: Seq<GridCoord>, x: int, z: int) -> bool {
    exists|i: int| 0 <= i < occupied.len() && occupied[i].x == x && occupied[i].z == z
}

/// Whether column `(x, z)` is inside the spawn area and clear of `occupied`.
pub open spec fn is_free_column(width: int, height: int, occupied: Seq<GridCoord>, x: int, z: int) -> bool {
    in_spawn_area(width, height, x, z) && !column_taken(occupied, x, z)
}

/// Whether no tile of `terrain` fills column `(x, z)` at any of `layers`.
pub open spec fn terrain_clear(terrain: Seq<GridCoord>, layers: Seq<usize>, x: usize, z: usize) -> bool {
    forall|i: int| 0 <= i < layers.len() ==> !terrain.contains(GridCoord { x, y: #[trigger] layers[i], z })
}

/// Whether `c` is the ground tile of a free column whose tiles at `layers`
/// hold no terrain.
pub open spec fn is_free_tile(
    width: int,
    height: int,
    occupied: Seq<GridCoord>,
    terrain: Seq<GridCoord>,
    layers: Seq<usize>,
    c: GridCoord,
) -> bool {
    &&& c.y == 0
    &&& is_free_column(width, height, occupied, c.x as int, c.z as int)
    &&& terrain_clear(terrain, layers, c.x, c.z)
}

/// All such tiles.
pub open spec fn free_tile_set(
    width: int,
    height: int,
    occupied: Seq<GridCoord>,
    terrain: Seq<GridCoord>,
    layers: Seq<usize>,
) -> Set<GridCoord> {
    Set::new(|c: GridCoord| is_free_tile(width, height, occupied, terrain, layers, c))
}

/// `n` times `layer`.
pub open spec fn same_layer(layer: usize, n: nat) -> Seq<usize> {
    Seq::new(n, |i: int| layer)
}

/// Ground tile of the column that `c` stands in.
pub open spec fn ground(c: GridCoord) -> GridCoord {
    GridCoord { y: 0, ..c }
}

/// Whether `draws` can pick from a pool of `pool_len` items: the `i`-th draw
/// indexes the `pool_len - i` items still left.
pub open spec fn draws_fit(pool_len: int, draws: Seq<usize>) -> bool {
    forall|i: int| 0 <= i < draws.len() ==> #[trigger] draws[i] < pool_len - i
}

/// The items taken from `pool` by `draws`: each draw takes out the item at
/// that index of what is left.
pub open spec fn picked(pool: Seq<GridCoord>, draws: Seq<usize>) -> Seq<GridCoord>
    decreases draws.len(),
{
    if draws.len() == 0 || draws[0] >= pool.len() {
        Seq::empty()
    } else {
        seq![pool[draws[0] as int]] + picked(pool.remove(draws[0] as int), draws.drop_first())
    }
}

/// Whether `placed` is a good answer to a request for one entity at each of
/// `layers`: the `i`-th stands at `layers[i]`, in a free column, on a tile
/// that terrain does not fill, and no two stand in one column.
pub open spec fn is_placement(
    placed: Seq<GridCoord>,
    width: int,
    height: int,
    occupied: Seq<GridCoord>,
    terrain: Seq<GridCoord>,
    layers: Seq<usize>,
) -> bool {
    &&& placed.len() == layers.len()
    &&& forall|i: int|
        0 <= i < placed.len() ==> (#[trigger] placed[i]).y == layers[i] && is_free_column(
            width,
            height,
            occupied,
            placed[i].x as int,
            placed[i].z as int,
        ) && !terrain.contains(placed[i])
    &&& forall|i: int, j: int|
        0 <= i < j < placed.len() ==> !(#[trigger] placed[i].x == #[trigger] placed[j].x && placed[i].z
            == placed[j].z)
}

/// Taking `draws` from a pool without repeats gives as many distinct items
/// of the pool.
pub proof fn lemma_picked(pool: Seq<GridCoord>, draws: Seq<usize>)
    requires
        pool.no_duplicates(),
        draws_fit(pool.len() as int, draws),
    ensures
        picked(pool, draws).len() == draws.len(),
        picked(pool, draws).no_duplicates(),
        forall|k: int| 0 <= k < draws.len() ==> pool.contains(#[trigger] picked(pool, draws)[k]),
    decreases draws.len(),
{
    if draws.len() > 0 {
        assert(draws[0] < pool.len() - 0);
        let d = draws[0] as int;
        let rest = pool.remove(d);
        let tail = draws.drop_first();
        assert(rest.no_duplicates()) by {
            assert forall|i: int, j: int| 0 <= i < j < rest.len() implies rest[i] != rest[j] by {
                let pi = if i < d { i } else { i + 1 };
                let pj = if j < d { j } else { j + 1 };
                assert(rest[i] == pool[pi] && rest[j] == pool[pj]);
            }
        }
        assert(draws_fit(rest.len() as int, tail)) by {
            assert forall|i: int| 0 <= i < tail.len() implies #[trigger] tail[i] < rest.len() - i by {
                assert(tail[i] == draws[i + 1]);
            }
        }
        lemma_picked(rest, tail);
        let p = picked(pool, draws);
        let q = picked(rest, tail);
        assert(p == seq![pool[d]] + q);
        assert forall|k: int| 0 <= k < q.len() implies pool.contains(#[trigger] q[k]) && q[k] != pool[d] by {
            assert(rest.contains(q[k]));
            let m = choose|m: int| 0 <= m < rest.len() && rest[m] == q[k];
            let pm = if m < d { m } else { m + 1 };
            assert(pool[pm] == q[k]);
        }
        assert forall|k: int| 0 <= k < draws.len() implies pool.contains(#[trigger] p[k]) by {
            if k > 0 {
                assert(p[k] == q[k - 1]);
            }
        }
        assert(p.no_duplicates()) by {
            assert forall|i: int, j: int| 0 <= i < j < p.len() implies p[i] != p[j] by {
                assert(p[j] == q[j - 1]);
                if i > 0 {
                    assert(p[i] == q[i - 1]);
                }
            }
        }
    }
}

fn column_is_taken(occupied: &Vec<GridCoord>, x: usize, z: usize) -> (r: bool)
    ensures
        r == column_taken(occupied@, x as int, z as int),
{
    let mut k: usize = 0;
    while k < occupied.len()
        invariant
            k <= occupied@.len(),
            forall|i: int| 0 <= i < k ==> !(occupied@[i].x == x && occupied@[i].z == z),
        decreases occupied@.len() - k,
    {
        if occupied[k].x == x && occupied[k].z == z {
            return true;
        }
        k += 1;
    }
    false
}

fn terrain_is_clear(terrain: &Vec<GridCoord>, layers: &Vec<usize>, x: usize, z: usize) -> (r: bool)
    ensures
        r == terrain_clear(terrain@, layers@, x, z),
{
    let mut i: usize = 0;
    while i < layers.len()
        invariant
            i <= layers@.len(),
            forall|k: int| 0 <= k < i ==> !terrain@.contains(GridCoord { x, y: #[trigger] layers@[k], z }),
        decreases layers@.len() - i,
    {
        let c = GridCoord { x, y: layers[i], z };
        let mut j: usize = 0;
        while j < terrain.len()
            invariant
                j <= terrain@.len(),
                i < layers@.len(),
                c == (GridCoord { x, y: layers@[i as int], z }),
                forall|k: int| 0 <= k < i ==> !terrain@.contains(GridCoord { x, y: #[trigger] layers@[k], z }),
                forall|m: int| 0 <= m < j ==> terrain@[m] != c,
            decreases terrain@.len() - j,
        {
            if terrain[j] == c {
                assert(terrain@.contains(c));
                assert(GridCoord { x, y: layers@[i as int], z } == c);
                assert(!terrain_clear(terrain@, layers@, x, z));
                return false;
            }
            j += 1;
        }
        assert(!terrain@.contains(c));
        i += 1;
    }
    true
}

/// The ground tiles of the free columns of `grid` whose tiles at `layers`
/// hold no terrain, each once.
pub fn free_tiles(grid: &Grid, occupied: &Vec<GridCoord>, terrain: &Vec<GridCoord>, layers: &Vec<usize>) -> (r: Vec<
    GridCoord,
>)
    ensures
        r@.no_duplicates(),
        forall|c: GridCoord|
            r@.contains(c) <==> is_free_tile(grid.width as int, grid.height as int, occupied@, terrain@, layers@, c),
        free_tile_set(grid.width as int, grid.height as int, occupied@, terrain@, layers@).finite(),
        free_tile_set(grid.width as int, grid.height as int, occupied@, terrain@, layers@).len() == r@.len(),
{
    let ghost w = grid.width as int;
    let ghost h = grid.height as int;
    let mut out: Vec<GridCoord> = Vec::new();
    let z_end: usize = if grid.height > EDGE_MARGIN { grid.height - EDGE_MARGIN } else { 0 };
    let x_end: usize = if grid.width > EDGE_MARGIN { grid.width - EDGE_MARGIN } else { 0 };
    let mut z: usize = EDGE_MARGIN;
    while z < z_end
        invariant
            EDGE_MARGIN <= z,
            z_end == (if h > EDGE_MARGIN { h - EDGE_MARGIN } else { 0 }),
            x_end == (if w > EDGE_MARGIN { w - EDGE_MARGIN } else { 0 }),
            forall|k: int| 0 <= k < out@.len() ==> #[trigger] out@[k].z < z,
            forall|i: int, j: int| 0 <= i < j < out@.len() ==> out@[i] != out@[j],
            forall|c: GridCoord|
                out@.contains(c) <==> (is_free_tile(w, h, occupied@, terrain@, layers@, c) && c.z < z),
        decreases z_end - z,
    {
        let ghost row_start = out@.len();
        let mut x: usize = EDGE_MARGIN;
        while x < x_end
            invariant
                EDGE_MARGIN <= z < z_end,
                z_end == (if h > EDGE_MARGIN { h - EDGE_MARGIN } else { 0 }),
                x_end == (if w > EDGE_MARGIN { w - EDGE_MARGIN } else { 0 }),
                EDGE_MARGIN <= x,
                row_start <= out@.len(),
                forall|k: int| 0 <= k < row_start ==> #[trigger] out@[k].z < z,
                forall|k: int| row_start <= k < out@.len() ==> (#[trigger] out@[k]).z == z && out@[k].x < x,
                forall|i: int, j: int| 0 <= i < j < out@.len() ==> out@[i] != out@[j],
                forall|c: GridCoord|
                    out@.contains(c) <==> (is_free_tile(w, h, occupied@, terrain@, layers@, c) && (c.z < z || (c.z == z
                        && c.x < x))),
            decreases x_end - x,
        {
            let ghost old_out = out@;
            let ghost old_len = out@.len();
            let taken = column_is_taken(occupied, x, z) || !terrain_is_clear(terrain, layers, x, z);
            if !taken {
                let c = GridCoord { x, y: 0, z };
                let ghost before = out@;
                assert(forall|k: int| 0 <= k < before.len() ==> before[k] != c) by {
                    assert forall|k: int| 0 <= k < before.len() implies before[k] != c by {
                        if k < row_start {
                            assert(out@[k].z < z);
                        } else {
                            assert(out@[k].x < x);
                        }
                    }
                }
                out.push(c);
                assert(out@ == before.push(c));
                assert forall|d: GridCoord|
                    out@.contains(d) <==> (is_free_tile(w, h, occupied@, terrain@, layers@, d) && (d.z < z || (d.z == z
                        && d.x < x + 1))) by {
                    if out@.contains(d) {
                        let m = choose|m: int| 0 <= m < out@.len() && out@[m] == d;
                        if m < before.len() {
                            assert(before[m] == d);
                            assert(before.contains(d));
                        }
                    }
                    if is_free_tile(w, h, occupied@, terrain@, layers@, d) && (d.z < z || (d.z == z && d.x < x + 1)) {
                        if d != c {
                            assert(before.contains(d));
                            let m = choose|m: int| 0 <= m < before.len() && before[m] == d;
                            assert(out@[m] == d);
                        } else {
                            assert(out@[before.len() as int] == c);
                        }
                    }
                }
            } else {
                assert forall|d: GridCoord|
                    out@.contains(d) <==> (is_free_tile(w, h, occupied@, terrain@, layers@, d) && (d.z < z || (d.z == z
                        && d.x < x + 1))) by {
                    if d.z == z && d.x == x {
                        assert(column_taken(occupied@, d.x as int, d.z as int) || !terrain_clear(
                            terrain@,
                            layers@,
                            d.x,
                            d.z,
                        ));
                    }
                }
            }
            assert forall|k: int| row_start <= k < out@.len() implies (#[trigger] out@[k]).z == z && out@[k].x
                < x + 1 by {
                if k < old_len {
                    assert(out@[k] == old_out[k]);
                }
            }
            x += 1;
        }
        assert forall|c: GridCoord|
            out@.contains(c) <==> (is_free_tile(w, h, occupied@, terrain@, layers@, c) && c.z < z + 1) by {
            if is_free_tile(w, h, occupied@, terrain@, layers@, c) && c.z == z {
                assert(c.x < x_end);
            }
        }
        z += 1;
    }
    assert forall|c: GridCoord| out@.contains(c) <==> is_free_tile(w, h, occupied@, terrain@, layers@, c) by {
        if is_free_tile(w, h, occupied@, terrain@, layers@, c) {
            assert(c.z < z_end);
        }
    }
    proof {
        assert(out@.no_duplicates());
        out@.unique_seq_to_set();
        assert(free_tile_set(w, h, occupied@, terrain@, layers@) =~= out@.to_set());
    }
    out
}

/// Takes `draws` from `pool` in turn: each draw removes the item at that
/// index of what is left and appends it to the result.
pub fn choose_tiles(pool: Vec<GridCoord>, draws: &Vec<usize>) -> (r: Vec<GridCoord>)
    requires
        draws_fit(pool@.len() as int, draws@),
    ensures
        r@ == picked(pool@, draws@),
{
    let ghost whole = pool@;
    let mut pool = pool;
    let mut out: Vec<GridCoord> = Vec::new();
    let mut i: usize = 0;
    assert(draws@.skip(0) =~= draws@);
    while i < draws.len()
        invariant
            i <= draws@.len(),
            pool@.len() == whole.len() - i,
            forall|k: int| i <= k < draws@.len() ==> #[trigger] draws@[k] < pool@.len() - (k - i),
            out@ + picked(pool@, draws@.skip(i as int)) == picked(whole, draws@),
        decreases draws@.len() - i,
    {
        let d = draws[i];
        assert(draws@[i as int] < pool@.len() - 0);
        let ghost rest = draws@.skip(i as int);
        assert(rest[0] == d);
        assert(rest.drop_first() =~= draws@.skip(i + 1));
        let t = pool.remove(d);
        out.push(t);
        assert(out@ + picked(pool@, draws@.skip(i + 1)) =~= picked(whole, draws@));
        i += 1;
    }
    assert(draws@.skip(draws@.len() as int) =~= Seq::<usize>::empty());
    assert(out@ + Seq::<GridCoord>::empty() =~= out@);
    out
}

/// The same columns, moved to `layer`.
fn at_layer(placed: Vec<GridCoord>, layer: usize) -> (r: Vec<GridCoord>)
    ensures
        r@.len() == placed@.len(),
        forall|i: int|
            0 <= i < placed@.len() ==> #[trigger] r@[i] == (GridCoord { y: layer, ..placed@[i] }),
{
    let mut out: Vec<GridCoord> = Vec::new();
    let mut i: usize = 0;
    while i < placed.len()
        invariant
            i <= placed@.len(),
            out@.len() == i,
            forall|k: int| 0 <= k < i ==> #[trigger] out@[k] == (GridCoord { y: layer, ..placed@[k] }),
        decreases placed@.len() - i,
    {
        let c = placed[i];
        out.push(GridCoord { x: c.x, y: layer, z: c.z });
        i += 1;
    }
    out
}

/// Finds `count` free columns of `grid`, each drawn uniformly from the
/// free columns still left, and returns their tiles at `layer`; fails when
/// there are fewer free columns than that.
pub fn generate_entities(
    grid: &Grid,
    occupied: &Vec<GridCoord>,
    terrain: &Vec<GridCoord>,
    layer: usize,
    count: u32,
) -> (r: Result<Vec<GridCoord>, SpawnError>)
    ensures
        free_tile_set(grid.width as int, grid.height as int, occupied@, terrain@, seq![layer]).finite(),
        match r {
            Ok(v) => count <= free_tile_set(grid.width as int, grid.height as int, occupied@, terrain@, seq![layer]).len()
                && is_placement(v@, grid.width as int, grid.height as int, occupied@, terrain@, same_layer(layer, count as nat)),
            Err(e) => e == SpawnError::Capacity && count > free_tile_set(
                grid.width as int,
                grid.height as int,
                occupied@,
                terrain@,
                seq![layer],
            ).len(),
        },
{
    let layers = vec![layer];
    assert(layers@ =~= seq![layer]);
    let free = free_tiles(grid, occupied, terrain, &layers);
    if count as usize > free.len() {
        return Err(SpawnError::Capacity);
    }
    let mut draws: Vec<usize> = Vec::new();
    let mut i: usize = 0;
    while i < count as usize
        invariant
            i <= count,
            count <= free@.len(),
            draws@.len() == i,
            draws_fit(free@.len() as int, draws@),
        decreases count - i,
    {
        let d = random_below((free.len() - i) as u64) as usize;
        draws.push(d);
        assert(draws_fit(free@.len() as int, draws@)) by {
            assert forall|k: int| 0 <= k < draws@.len() implies #[trigger] draws@[k] < free@.len() - k by {
                if k < i {
                    assert(draws@[k] == draws@.drop_last()[k]);
                }
            }
        }
        i += 1;
    }
    let ghost pool = free@;
    let chosen = choose_tiles(free, &draws);
    let placed = at_layer(chosen, layer);
    proof {
        lemma_picked(pool, draws@);
        let w = grid.width as int;
        let h = grid.height as int;
        let ls = same_layer(layer, count as nat);
        assert forall|k: int| 0 <= k < placed@.len() implies (#[trigger] placed@[k]).y == ls[k] && is_free_column(
            w,
            h,
            occupied@,
            placed@[k].x as int,
            placed@[k].z as int,
        ) && !terrain@.contains(placed@[k]) by {
            assert(pool.contains(chosen@[k]));
            assert(is_free_tile(w, h, occupied@, terrain@, seq![layer], chosen@[k]));
            assert(seq![layer][0] == layer);
            assert(placed@[k] == GridCoord { x: chosen@[k].x, y: seq![layer][0], z: chosen@[k].z });
        }
        assert forall|a: int, b: int| 0 <= a < b < placed@.len() implies !(#[trigger] placed@[a].x
            == #[trigger] placed@[b].x && placed@[a].z == placed@[b].z) by {
            assert(pool.contains(chosen@[a]) && pool.contains(chosen@[b]));
            assert(chosen@[a] != chosen@[b]);
        }
    }
    Ok(placed)
}

/// Chooses the player's starting column and returns its ground tile; the
/// player's body stands at `PLAYER_SPAWN_LAYER` in that column.
pub fn generate_player(grid: &Grid, occupied: &Vec<GridCoord>, terrain: &Vec<GridCoord>) -> (r: Result<
    GridCoord,
    SpawnError,
>)
    ensures
        free_tile_set(grid.width as int, grid.height as int, occupied@, terrain@, seq![PLAYER_SPAWN_LAYER]).finite(),
        match r {
            Ok(c) => 1 <= free_tile_set(
                grid.width as int,
                grid.height as int,
                occupied@,
                terrain@,
                seq![PLAYER_SPAWN_LAYER],
            ).len() && c.y == 0 && is_free_column(grid.width as int, grid.height as int, occupied@, c.x as int, c.z as int)
                && !terrain@.contains(GridCoord { y: PLAYER_SPAWN_LAYER, ..c }),
            Err(e) => e == SpawnError::Capacity && free_tile_set(
                grid.width as int,
                grid.height as int,
                occupied@,
                terrain@,
                seq![PLAYER_SPAWN_LAYER],
            ).len() == 0,
        },
{
    match generate_entities(grid, occupied, terrain, PLAYER_SPAWN_LAYER, 1) {
        Ok(v) => {
            let c = v[0];
            assert(same_layer(PLAYER_SPAWN_LAYER, 1)[0] == PLAYER_SPAWN_LAYER);
            assert(GridCoord { y: PLAYER_SPAWN_LAYER, ..GridCoord { x: c.x, y: 0, z: c.z } } == c);
            Ok(GridCoord { x: c.x, y: 0, z: c.z })
        },
        Err(e) => Err(e),
    }
}

/// Chooses the tiles of `num_of_balls` balls, at the height they drop from.
pub fn generate_balls(grid: &Grid, occupied: &Vec<GridCoord>, terrain: &Vec<GridCoord>, num_of_balls: u32) -> (r: Result<
    Vec<GridCoord>,
    SpawnError,
>)
    ensures
        free_tile_set(grid.width as int, grid.height as int, occupied@, terrain@, seq![BALL_SPAWN_LAYER]).finite(),
        match r {
            Ok(v) => num_of_balls <= free_tile_set(
                grid.width as int,
                grid.height as int,
                occupied@,
                terrain@,
                seq![BALL_SPAWN_LAYER],
            ).len() && is_placement(
                v@,
                grid.width as int,
                grid.height as int,
                occupied@,
                terrain@,
                same_layer(BALL_SPAWN_LAYER, num_of_balls as nat),
            ),
            Err(e) => e == SpawnError::Capacity && num_of_balls > free_tile_set(
                grid.width as int,
                grid.height as int,
                occupied@,
                terrain@,
                seq![BALL_SPAWN_LAYER],
            ).len(),
        },
{
    generate_entities(grid, occupied, terrain, BALL_SPAWN_LAYER, num_of_balls)
}

/// Where a witch is to spawn, and the patrol point it starts out toward.
#[derive(Clone, Copy, Debug, PartialEq, Eq, Structural)]
pub struct WitchSpawn {
    pub tile: GridCoord,
    pub target: Vec3,
}

impl WitchSpawn {
    /// The new witch, once its collider exists: patrolling toward its target.
    pub fn witch(&self, collider_handle: ColliderKey) -> (r: Witch)
        ensures
            r == (Witch { collider_handle, state: WitchState::Patrolling, target: self.target }),
    {
        Witch { collider_handle, state: WitchState::Patrolling, target: self.target }
    }
}

/// The tiles of `spawns`.
pub open spec fn spawn_tiles(spawns: Seq<WitchSpawn>) -> Seq<GridCoord> {
    spawns.map_values(|s: WitchSpawn| s.tile)
}

/// Chooses the tiles of `num_of_witches` witches, at the witches' spawn
/// layer, each with a patrol point drawn from the patrol square.
pub fn generate_witches(grid: &Grid, occupied: &Vec<GridCoord>, terrain: &Vec<GridCoord>, num_of_witches: u32) -> (r: Result<
    Vec<WitchSpawn>,
    SpawnError,
>)
    ensures
        free_tile_set(grid.width as int, grid.height as int, occupied@, terrain@, seq![WITCH_SPAWN_LAYER]).finite(),
        match r {
            Ok(v) => num_of_witches <= free_tile_set(
                grid.width as int,
                grid.height as int,
                occupied@,
                terrain@,
                seq![WITCH_SPAWN_LAYER],
            ).len() && is_placement(
                spawn_tiles(v@),
                grid.width as int,
                grid.height as int,
                occupied@,
                terrain@,
                same_layer(WITCH_SPAWN_LAYER, num_of_witches as nat),
            ) && forall|i: int| 0 <= i < v@.len() ==> in_patrol_region(#[trigger] v@[i].target),
            Err(e) => e == SpawnError::Capacity && num_of_witches > free_tile_set(
                grid.width as int,
                grid.height as int,
                occupied@,
                terrain@,
                seq![WITCH_SPAWN_LAYER],
            ).len(),
        },
{
    let tiles = match generate_entities(grid, occupied, terrain, WITCH_SPAWN_LAYER, num_of_witches) {
        Ok(v) => v,
        Err(e) => return Err(e),
    };
    let mut out: Vec<WitchSpawn> = Vec::new();
    let mut i: usize = 0;
    while i < tiles.len()
        invariant
            i <= tiles@.len(),
            out@.len() == i,
            forall|k: int| 0 <= k < i ==> (#[trigger] out@[k]).tile == tiles@[k] && in_patrol_region(out@[k].target),
        decreases tiles@.len() - i,
    {
        out.push(WitchSpawn { tile: tiles[i], target: generate_patrol_point() });
        i += 1;
    }
    assert(spawn_tiles(out@) =~= tiles@);
    Ok(out)
}

/// `a` followed by `b`.
fn joined(a: &Vec<GridCoord>, b: &Vec<GridCoord>) -> (r: Vec<GridCoord>)
    ensures
        r@ == a@ + b@,
{
    let mut out: Vec<GridCoord> = Vec::new();
    let mut i: usize = 0;
    while i < a.len()
        invariant
            i <= a@.len(),
            out@ == a@.take(i as int),
        decreases a@.len() - i,
    {
        out.push(a[i]);
        assert(a@.take(i + 1) =~= a@.take(i as int).push(a@[i as int]));
        i += 1;
    }
    assert(a@.take(a@.len() as int) =~= a@);
    let mut j: usize = 0;
    while j < b.len()
        invariant
            j <= b@.len(),
            out@ == a@ + b@.take(j as int),
        decreases b@.len() - j,
    {
        out.push(b[j]);
        assert(b@.take(j + 1) =~= b@.take(j as int).push(b@[j as int]));
        assert(out@ =~= a@ + b@.take(j + 1));
        j += 1;
    }
    assert(b@.take(b@.len() as int) =~= b@);
    out
}

/// Every entity placed in a column takes at most one free tile away.
pub proof fn lemma_free_shrinks(
    width: int,
    height: int,
    occupied: Seq<GridCoord>,
    terrain: Seq<GridCoord>,
    layers: Seq<usize>,
    placed: Seq<GridCoord>,
)
    requires
        free_tile_set(width, height, occupied, terrain, layers).finite(),
    ensures
        free_tile_set(width, height, occupied + placed, terrain, layers).finite(),
        free_tile_set(width, height, occupied + placed, terrain, layers).len() >= free_tile_set(
            width,
            height,
            occupied,
            terrain,
            layers,
        ).len() - placed.len(),
    decreases placed.len(),
{
    if placed.len() == 0 {
        assert(occupied + placed =~= occupied);
    } else {
        let front = placed.drop_last();
        let q = placed.last();
        lemma_free_shrinks(width, height, occupied, terrain, layers, front);
        let before = free_tile_set(width, height, occupied + front, terrain, layers);
        let after = free_tile_set(width, height, occupied + placed, terrain, layers);
        let all = occupied + placed;
        let part = occupied + front;
        assert(all =~= part.push(q));
        assert(after =~= before.remove(ground(q))) by {
            assert forall|c: GridCoord| after.contains(c) <==> before.remove(ground(q)).contains(c) by {
                if column_taken(part, c.x as int, c.z as int) {
                    let i = choose|i: int| 0 <= i < part.len() && part[i].x == c.x && part[i].z == c.z;
                    assert(all[i] == part[i]);
                }
                if column_taken(all, c.x as int, c.z as int) {
                    let i = choose|i: int| 0 <= i < all.len() && all[i].x == c.x && all[i].z == c.z;
                    if i < part.len() {
                        assert(all[i] == part[i]);
                    }
                }
                assert(all[part.len() as int] == q);
            }
        }
    }
}

/// Asking for terrain to be clear at more layers leaves fewer free tiles.
pub proof fn lemma_more_layers_fewer_tiles(
    width: int,
    height: int,
    occupied: Seq<GridCoord>,
    terrain: Seq<GridCoord>,
    many: Seq<usize>,
    few: Seq<usize>,
)
    requires
        forall|i: int| 0 <= i < few.len() ==> many.contains(#[trigger] few[i]),
    ensures
        free_tile_set(width, height, occupied, terrain, many).subset_of(
            free_tile_set(width, height, occupied, terrain, few),
        ),
{
    assert forall|c: GridCoord| #[trigger] free_tile_set(width, height, occupied, terrain, many).contains(c)
        implies free_tile_set(width, height, occupied, terrain, few).contains(c) by {
        assert forall|i: int| 0 <= i < few.len() implies !terrain.contains(GridCoord { x: c.x, y: #[trigger] few[i], z: c.z }) by {
            assert(many.contains(few[i]));
            let k = choose|k: int| 0 <= k < many.len() && many[k] == few[i];
            assert(!terrain.contains(GridCoord { x: c.x, y: many[k], z: c.z }));
        }
    }
}

/// Chooses the tiles of the trees, one tree for each entry of `tree_layers`,
/// the `i`-th at layer `tree_layers[i]` (half the tree's height), each in a
/// column that no earlier one stands in. Succeeds exactly when there are as
/// many free columns clear of terrain at every one of those layers.
pub fn generate_trees(grid: &Grid, occupied: &Vec<GridCoord>, terrain: &Vec<GridCoord>, tree_layers: &Vec<usize>) -> (r:
    Result<Vec<GridCoord>, SpawnError>)
    ensures
        free_tile_set(grid.width as int, grid.height as int, occupied@, terrain@, tree_layers@).finite(),
        match r {
            Ok(v) => tree_layers@.len() <= free_tile_set(
                grid.width as int,
                grid.height as int,
                occupied@,
                terrain@,
                tree_layers@,
            ).len() && is_placement(v@, grid.width as int, grid.height as int, occupied@, terrain@, tree_layers@),
            Err(e) => e == SpawnError::Capacity && tree_layers@.len() > free_tile_set(
                grid.width as int,
                grid.height as int,
                occupied@,
                terrain@,
                tree_layers@,
            ).len(),
        },
{
    let ghost w = grid.width as int;
    let ghost h = grid.height as int;
    let common = free_tiles(grid, occupied, terrain, tree_layers);
    if tree_layers.len() > common.len() {
        return Err(SpawnError::Capacity);
    }
    let ghost n = tree_layers@.len();
    let ghost base = free_tile_set(w, h, occupied@, terrain@, tree_layers@);
    let mut placed: Vec<GridCoord> = Vec::new();
    let mut taken = joined(occupied, &placed);
    let mut i: usize = 0;
    assert(occupied@ + placed@ =~= occupied@);
    while i < tree_layers.len()
        invariant
            i <= n,
            n == tree_layers@.len(),
            base == free_tile_set(w, h, occupied@, terrain@, tree_layers@),
            base.finite(),
            n <= base.len(),
            w == grid.width,
            h == grid.height,
            taken@ == occupied@ + placed@,
            is_placement(placed@, w, h, occupied@, terrain@, tree_layers@.take(i as int)),
        decreases n - i,
    {
        let layer = tree_layers[i];
        proof {
            lemma_free_shrinks(w, h, occupied@, terrain@, tree_layers@, placed@);
            lemma_more_layers_fewer_tiles(w, h, taken@, terrain@, tree_layers@, seq![layer]);
        }
        let found = generate_entities(grid, &taken, terrain, layer, 1);
        let t = match found {
            Ok(v) => v[0],
            Err(e) => {
                proof {
                    lemma_len_subset(
                        free_tile_set(w, h, taken@, terrain@, tree_layers@),
                        free_tile_set(w, h, taken@, terrain@, seq![layer]),
                    );
                }
                return Err(e);
            },
        };
        proof {
            let ls = same_layer(layer, 1);
            assert(ls[0] == layer);
            assert(is_free_column(w, h, taken@, t.x as int, t.z as int));
            if column_taken(occupied@, t.x as int, t.z as int) {
                let k = choose|k: int| 0 <= k < occupied@.len() && occupied@[k].x == t.x && occupied@[k].z == t.z;
                assert(taken@[k] == occupied@[k]);
            }
            assert forall|k: int| 0 <= k < placed@.len() implies !(placed@[k].x == t.x && placed@[k].z == t.z) by {
                assert(taken@[occupied@.len() + k] == placed@[k]);
            }
        }
        let ghost old_placed = placed@;
        placed.push(t);
        taken.push(t);
        proof {
            assert(taken@ =~= occupied@ + placed@);
            let ls = tree_layers@.take(i + 1);
            assert forall|k: int| 0 <= k < placed@.len() implies (#[trigger] placed@[k]).y == ls[k] && is_free_column(
                w,
                h,
                occupied@,
                placed@[k].x as int,
                placed@[k].z as int,
            ) && !terrain@.contains(placed@[k]) by {
                if k < i {
                    assert(placed@[k] == old_placed[k]);
                    assert(tree_layers@.take(i as int)[k] == ls[k]);
                }
            }
            assert forall|a: int, b: int| 0 <= a < b < placed@.len() implies !(#[trigger] placed@[a].x
                == #[trigger] placed@[b].x && placed@[a].z == placed@[b].z) by {
                assert(placed@[a] == old_placed[a]);
                if b < i {
                    assert(placed@[b] == old_placed[b]);
                }
            }
        }
        i += 1;
    }
    assert(tree_layers@.take(n as int) =~= tree_layers@);
    Ok(placed)
}

/// Where the entities of a new game stand.
pub struct Population {
    /// Ground tile of the player's column.
    pub player: GridCoord,
    pub trees: Vec<GridCoord>,
    pub balls: Vec<GridCoord>,
    pub witches: Vec<WitchSpawn>,
}

/// The layers a new game spawns entities at.
pub open spec fn spawn_layers(tree_layers: Seq<usize>) -> Seq<usize> {
    seq![PLAYER_SPAWN_LAYER, BALL_SPAWN_LAYER, WITCH_SPAWN_LAYER] + tree_layers
}

/// Places the player, then the trees (one for each entry of `tree_layers`),
/// the balls and the witches, each in a free column that no earlier one
/// stands in and off every tile that `terrain` fills. Succeeds exactly when
/// the map has, for every one of them, a free column whose tiles at all the
/// spawn layers are clear of terrain.
pub fn populate(
    grid: &Grid,
    terrain: &Vec<GridCoord>,
    tree_layers: &Vec<usize>,
    num_of_balls: u32,
    num_of_witches: u32,
) -> (r: Result<Population, SpawnError>)
    ensures
        ({
            let w = grid.width as int;
            let h = grid.height as int;
            let free = free_tile_set(w, h, Seq::empty(), terrain@, spawn_layers(tree_layers@));
            let total = 1 + tree_layers@.len() + num_of_balls + num_of_witches;
            &&& free.finite()
            &&& match r {
                Ok(p) => {
                    &&& total <= free.len()
                    &&& p.player.y == 0
                    &&& is_free_column(w, h, Seq::empty(), p.player.x as int, p.player.z as int)
                    &&& !terrain@.contains(GridCoord { y: PLAYER_SPAWN_LAYER, ..p.player })
                    &&& is_placement(p.trees@, w, h, seq![p.player], terrain@, tree_layers@)
                    &&& is_placement(
                        p.balls@,
                        w,
                        h,
                        seq![p.player] + p.trees@,
                        terrain@,
                        same_layer(BALL_SPAWN_LAYER, num_of_balls as nat),
                    )
                    &&& is_placement(
                        spawn_tiles(p.witches@),
                        w,
                        h,
                        seq![p.player] + p.trees@ + p.balls@,
                        terrain@,
                        same_layer(WITCH_SPAWN_LAYER, num_of_witches as nat),
                    )
                    &&& forall|i: int| 0 <= i < p.witches@.len() ==> in_patrol_region(#[trigger] p.witches@[i].target)
                },
                Err(e) => e == SpawnError::Capacity && total > free.len(),
            }
        }),
{
    let ghost w = grid.width as int;
    let ghost h = grid.height as int;
    let mut layers: Vec<usize> = vec![PLAYER_SPAWN_LAYER, BALL_SPAWN_LAYER, WITCH_SPAWN_LAYER];
    let empty: Vec<GridCoord> = Vec::new();
    let mut k: usize = 0;
    while k < tree_layers.len()
        invariant
            k <= tree_layers@.len(),
            layers@ == spawn_layers(tree_layers@.take(k as int)),
        decreases tree_layers@.len() - k,
    {
        layers.push(tree_layers[k]);
        assert(tree_layers@.take(k + 1) =~= tree_layers@.take(k as int).push(tree_layers@[k as int]));
        assert(layers@ =~= spawn_layers(tree_layers@.take(k + 1)));
        k += 1;
    }
    assert(tree_layers@.take(tree_layers@.len() as int) =~= tree_layers@);
    let ghost all = spawn_layers(tree_layers@);
    let ghost base = free_tile_set(w, h, Seq::empty(), terrain@, all);
    assert(empty@ =~= Seq::<GridCoord>::empty());
    let common = free_tiles(grid, &empty, terrain, &layers);
    let total: u128 = 1 + tree_layers.len() as u128 + num_of_balls as u128 + num_of_witches as u128;
    if total > common.len() as u128 {
        return Err(SpawnError::Capacity);
    }
    proof {
        assert(all[0] == PLAYER_SPAWN_LAYER && all[1] == BALL_SPAWN_LAYER && all[2] == WITCH_SPAWN_LAYER);
        assert forall|i: int| 0 <= i < tree_layers@.len() implies all.contains(#[trigger] tree_layers@[i]) by {
            assert(all[3 + i] == tree_layers@[i]);
        }
        lemma_more_layers_fewer_tiles(w, h, empty@, terrain@, all, seq![PLAYER_SPAWN_LAYER]);
    }
    let player = match generate_player(grid, &empty, terrain) {
        Ok(c) => c,
        Err(e) => {
            proof {
        lemma_len_subset(base, free_tile_set(w, h, empty@, terrain@, seq![PLAYER_SPAWN_LAYER]));
            }
            return Err(e);
        },
    };
    let occupied1 = vec![player];
    proof {
        assert(occupied1@ =~= seq![player]);
        assert(Seq::<GridCoord>::empty() + occupied1@ =~= occupied1@);
        lemma_free_shrinks(w, h, Seq::empty(), terrain@, all, occupied1@);
        lemma_more_layers_fewer_tiles(w, h, occupied1@, terrain@, all, tree_layers@);
    }
    let trees = match generate_trees(grid, &occupied1, terrain, tree_layers) {
        Ok(v) => v,
        Err(e) => {
            proof {
        lemma_len_subset(
                    free_tile_set(w, h, occupied1@, terrain@, all),
                    free_tile_set(w, h, occupied1@, terrain@, tree_layers@),
                );
            }
            return Err(e);
        },
    };
    let occupied2 = joined(&occupied1, &trees);
    proof {
        assert(Seq::<GridCoord>::empty() + occupied2@ =~= occupied2@);
        lemma_free_shrinks(w, h, Seq::empty(), terrain@, all, occupied2@);
        lemma_more_layers_fewer_tiles(w, h, occupied2@, terrain@, all, seq![BALL_SPAWN_LAYER]);
    }
    let balls = match generate_balls(grid, &occupied2, terrain, num_of_balls) {
        Ok(v) => v,
        Err(e) => {
            proof {
        lemma_len_subset(
                    free_tile_set(w, h, occupied2@, terrain@, all),
                    free_tile_set(w, h, occupied2@, terrain@, seq![BALL_SPAWN_LAYER]),
                );
            }
            return Err(e);
        },
    };
    let occupied3 = joined(&occupied2, &balls);
    proof {
        assert(Seq::<GridCoord>::empty() + occupied3@ =~= occupied3@);
        lemma_free_shrinks(w, h, Seq::empty(), terrain@, all, occupied3@);
        lemma_more_layers_fewer_tiles(w, h, occupied3@, terrain@, all, seq![WITCH_SPAWN_LAYER]);
    }
    let witches = match generate_witches(grid, &occupied3, terrain, num_of_witches) {
        Ok(v) => v,
        Err(e) => {
            proof {
        lemma_len_subset(
                    free_tile_set(w, h, occupied3@, terrain@, all),
                    free_tile_set(w, h, occupied3@, terrain@, seq![WITCH_SPAWN_LAYER]),
                );
            }
            return Err(e);
        },
    };
    Ok(Population { player, trees, balls, witches })
}

} // verus!
