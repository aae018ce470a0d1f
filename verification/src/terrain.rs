//! Procedural Eden terrain: a heightmap with stone, dirt and grass, caves, ponds and rivers,
//! beaches, trees and flowers, and snow caps, in a grid of 64-high block columns.
//!
//! The noise fields that shape the terrain are computed in floating point by the caller and
//! handed in as plain values (`TerrainFields`); everything decided from them is here.

use vstd::prelude::*;
use vstd::string::*;

verus! {

pub const TYPE_NONE: u8 = 0;
pub const TYPE_STONE: u8 = 2;
pub const TYPE_DIRT: u8 = 3;
pub const TYPE_SAND: u8 = 4;
pub const TYPE_LEAVES: u8 = 5;
pub const TYPE_TREE: u8 = 6;
pub const TYPE_GRASS: u8 = 8;
pub const TYPE_WATER: u8 = 20;
pub const TYPE_FLOWER: u8 = 73;

/// What the caller asks for: a `width` x `depth` block world (multiples of 16, at most 1024),
/// a seed, the base terrain height and a water amount (1 = most water .. 5 = none).
#[derive(Clone)]
pub struct TerrainParams {
    pub width: u32,
    pub depth: u32,
    pub seed: u32,
    pub base_height: i32,
    pub water_amnt: u32,
}

/// The base height used when a request leaves it out.
pub fn default_base_height() -> (h: i32)
    ensures
        h == 30,
{
    30
}

/// The water amount used when a request leaves it out.
pub fn default_water_amnt() -> (w: u32)
    ensures
        w == 3,
{
    3
}

/// Statistics and spawn point of a generated world.
pub struct TerrainMeta {
    pub spawn_x: i32,
    pub spawn_y: i32,
    pub spawn_z: i32,
    pub trees_placed: u32,
    pub flowers_placed: u32,
    pub caves_carved: u32,
    pub min_height: i32,
    pub max_height: i32,
    pub cols_x: usize,
    pub cols_z: usize,
}

/// One block: its Eden type and its paint colour index.
#[derive(Clone, Copy)]
pub struct TerrainBlock {
    pub block_type: u8,
    pub color: u8,
}

impl Default for TerrainBlock {
    fn default() -> (b: Self)
        ensures
            b.block_type == 0 && b.color == 0,
    {
        TerrainBlock { block_type: 0, color: 0 }
    }
}

/// A generated world: `blocks[world_idx(wx, wy, wz, depth)]` for `wx < width`, `wz < depth`,
/// `wy < 64`.
pub struct TerrainWorld {
    pub width: usize,
    pub depth: usize,
    pub blocks: Vec<TerrainBlock>,
    pub meta: TerrainMeta,
}

/// Flat index of block (wx, wy, wz) in a world `depth` blocks deep and 64 high.
pub open spec fn world_index(wx: int, wy: int, wz: int, depth: int) -> int {
    wx * depth * 64 + wz * 64 + wy
}

/// Flat index of block (wx, wy, wz): `wx * depth * 64 + wz * 64 + wy`.
pub fn world_idx(wx: usize, wy: usize, wz: usize, depth: usize) -> (i: usize)
    requires
        wx * depth * 64 + wz * 64 + wy <= usize::MAX,
    ensures
        i == world_index(wx as int, wy as int, wz as int, depth as int),
{
    assert(wx * depth * 64 <= wx * depth * 64 + wz * 64 + wy);
    assert(wx * depth <= wx * depth * 64) by (nonlinear_arith)
        requires wx * depth >= 0;
    wx * depth * 64 + wz * 64 + wy
}

/// `v` limited to `lo..=hi` (`lo` wins when `lo > hi`).
pub open spec fn clamp_spec(v: int, lo: int, hi: int) -> int {
    if v < lo {
        lo
    } else if v > hi {
        hi
    } else {
        v
    }
}

pub fn clamp(v: i32, lo: i32, hi: i32) -> (r: i32)
    ensures
        r == clamp_spec(v as int, lo as int, hi as int),
{
    if v < lo {
        lo
    } else if v > hi {
        hi
    } else {
        v
    }
}

/// `a * b` modulo 2^32.
pub open spec fn wmul(a: u32, b: u32) -> u32 {
    ((a as int * b as int) % 0x1_0000_0000) as u32
}

/// The integer hash of a seed and a block position that decides trees, flowers and leaves.
pub open spec fn hash3_spec(seed: u32, x: i32, y: i32, z: i32) -> u32 {
    let h0 = seed ^ 0x9e3779b9u32;
    let h1 = h0 ^ wmul(x as u32, 374761393);
    let h2 = h1 ^ wmul(y as u32, 668265263);
    let h3 = h2 ^ wmul(z as u32, 2246822519);
    let h4 = wmul(h3 ^ (h3 >> 13u32), 1274126177);
    h4 ^ (h4 >> 16u32)
}

pub fn hash3(seed: u32, x: i32, y: i32, z: i32) -> (h: u32)
    ensures
        h == hash3_spec(seed, x, y, z),
{
    let mut h = seed ^ 0x9e3779b9u32;
    h ^= (x as u32).wrapping_mul(374761393);
    h ^= (y as u32).wrapping_mul(668265263);
    h ^= (z as u32).wrapping_mul(2246822519);
    h = (h ^ (h >> 13u32)).wrapping_mul(1274126177);
    h ^= h >> 16u32;
    h
}

/// A block that counts as ground: not air, water, a flower or leaves.
pub open spec fn is_solid(t: u8) -> bool {
    t != TYPE_NONE && t != TYPE_WATER && t != TYPE_FLOWER && t != TYPE_LEAVES
}

/// The highest `y < top` whose block in column (wx, wz) is solid, or 0 when there is none.
pub open spec fn top_solid_below(b: Seq<TerrainBlock>, wx: int, wz: int, depth: int, top: int) -> int
    decreases top,
{
    if top <= 0 {
        0
    } else if is_solid(b[world_index(wx, top - 1, wz, depth)].block_type) {
        top - 1
    } else {
        top_solid_below(b, wx, wz, depth, top - 1)
    }
}

/// The height of the highest solid block of column (wx, wz), or 0 for a column outside the
/// world or without a solid block.
pub open spec fn top_solid(b: Seq<TerrainBlock>, wx: int, wz: int, width: int, depth: int) -> int {
    if wx < 0 || wz < 0 || wx >= width || wz >= depth {
        0
    } else {
        top_solid_below(b, wx, wz, depth, 64)
    }
}

/// The blocks hold every column of a `width` x `depth` world.
pub open spec fn covers(len: int, width: int, depth: int) -> bool {
    width * depth * 64 <= len && len <= usize::MAX && 0 <= width && 0 <= depth
}

proof fn lemma_world_index_bounds(wx: int, wy: int, wz: int, width: int, depth: int)
    requires
        0 <= wx < width,
        0 <= wz < depth,
        0 <= wy < 64,
    ensures
        0 <= world_index(wx, wy, wz, depth) < width * depth * 64,
        wx * depth * 64 + wz * 64 + wy == world_index(wx, wy, wz, depth),
{
    assert(0 <= world_index(wx, wy, wz, depth) < width * depth * 64) by (nonlinear_arith)
        requires
            0 <= wx < width,
            0 <= wz < depth,
            0 <= wy < 64;
}

fn get_top_solid_y(blocks: &[TerrainBlock], wx: i32, wz: i32, width: usize, depth: usize) -> (y: i32)
    requires
        width <= i32::MAX,
        depth <= i32::MAX,
        covers(blocks@.len() as int, width as int, depth as int),
    ensures
        y == top_solid(blocks@, wx as int, wz as int, width as int, depth as int),
        0 <= y < 64,
{
    if wx < 0 || wz < 0 || wx >= width as i32 || wz >= depth as i32 {
        return 0;
    }
    let mut top: i32 = 64;
    while top > 0
        invariant
            0 <= top <= 64,
            0 <= wx < width,
            0 <= wz < depth,
            covers(blocks@.len() as int, width as int, depth as int),
            top_solid(blocks@, wx as int, wz as int, width as int, depth as int) == top_solid_below(
                blocks@,
                wx as int,
                wz as int,
                depth as int,
                top as int,
            ),
        decreases top,
    {
        let y = top - 1;
        proof {
            lemma_world_index_bounds(wx as int, y as int, wz as int, width as int, depth as int);
        }
        let t = blocks[world_idx(wx as usize, y as usize, wz as usize, depth)].block_type;
        if t != TYPE_NONE && t != TYPE_WATER && t != TYPE_FLOWER && t != TYPE_LEAVES {
            return y;
        }
        top = y;
    }
    0
}

/// The noise-derived inputs of generation, computed by the caller in floating point, as
/// plain values. Column (wx, wz) is at `wx * depth + wz`, block (wx, wy, wz) at
/// `world_index(wx, wy, wz, depth)`.
pub struct TerrainFields {
    /// Per column: `(base_height + fractal(wx, wz, 4, 0.02, 0.5) * 18) as i32`, the terrain
    /// height before it is limited to 1..=62.
    pub raw_heights: Vec<i32>,
    /// Per block: the 3-d cave noise `fractal3d(wx, wy, wz, 3, 0.08, 0.5)` exceeds 0.62.
    pub cave: Vec<bool>,
    /// Per column: the pond noise `fractal(wx + 1000, wz + 1000, 3, 0.03, 0.5)` exceeds 0.62.
    pub pond: Vec<bool>,
    /// Per column: the river noise `fractal(wx + 4000, wz - 4000, 2, 0.01, 0.6)` lies
    /// strictly between -0.03 and 0.03.
    pub river: Vec<bool>,
    /// Per leaf slot `leaf_slot(pattern, dx, dy, dz)`: a leaf is kept when the low ten bits of
    /// its position hash are below this limit (0 outside the canopy shape, 1024 at its core).
    pub leaf_limit: Vec<u16>,
}

/// Index of canopy slot (dx, dy, dz) of canopy `pattern` (0..3), for -4 <= dx, dz <= 4 and
/// 1 <= dy <= 5.
pub open spec fn leaf_slot(pattern: int, dx: int, dy: int, dz: int) -> int {
    ((pattern * 5 + (dy - 1)) * 9 + (dx + 4)) * 9 + (dz + 4)
}

/// The request describes a world that can be generated.
pub open spec fn valid_size(p: TerrainParams) -> bool {
    &&& p.width > 0 && p.depth > 0
    &&& p.width % 16 == 0 && p.depth % 16 == 0
    &&& p.width <= 1024 && p.depth <= 1024
}

/// The fields hold one entry per column, block and canopy slot of the requested world.
pub open spec fn fields_fit(p: TerrainParams, f: TerrainFields) -> bool {
    &&& f.raw_heights@.len() == p.width * p.depth
    &&& f.cave@.len() == p.width * p.depth * 64
    &&& f.pond@.len() == p.width * p.depth
    &&& f.river@.len() == p.width * p.depth
    &&& f.leaf_limit@.len() == 1215
}

/// The water level for the water amount: 40, 35, 32, 27, or -1 (no water) for amounts 1 to 5
/// (amounts outside 1..=5 count as the nearest end).
pub open spec fn water_level(p: TerrainParams) -> int {
    let a = clamp_spec((p.water_amnt as i32) as int, 1, 5);
    if a == 1 {
        40
    } else if a == 2 {
        35
    } else if a == 3 {
        32
    } else if a == 4 {
        27
    } else {
        -1
    }
}

/// The terrain height of column (wx, wz), limited to 1..=62.
pub open spec fn col_height(p: TerrainParams, f: TerrainFields, wx: int, wz: int) -> int {
    clamp_spec(f.raw_heights@[wx * (p.depth as int) + wz] as int, 1, 62)
}

/// The block type at height `y` of the base terrain of a column of height `h`: stone up to
/// three below the top, dirt above it, grass on top, air above.
pub open spec fn base_type(h: int, y: int) -> u8 {
    if y <= (if h - 3 > 0 { h - 3 } else { 0 }) {
        TYPE_STONE
    } else if y <= h - 1 {
        TYPE_DIRT
    } else if y == h {
        TYPE_GRASS
    } else {
        TYPE_NONE
    }
}

/// The highest height at which a cave may be carved in a column of height `h`.
pub open spec fn cave_top(h: int) -> int {
    if h - 4 > 1 {
        h - 4
    } else {
        1
    }
}

/// Block (wx, y, wz) is carved out by a cave.
pub open spec fn carved(p: TerrainParams, f: TerrainFields, wx: int, y: int, wz: int) -> bool {
    1 <= y <= cave_top(col_height(p, f, wx, wz)) && f.cave@[world_index(wx, y, wz, p.depth as int)]
}

/// Column (wx, wz) holds a pond: high pond noise and a surface less than 3 above the water.
pub open spec fn pond_at(p: TerrainParams, f: TerrainFields, wx: int, wz: int) -> bool {
    f.pond@[wx * (p.depth as int) + wz] && col_height(p, f, wx, wz) < water_level(p) + 3
}

/// Column (wx, wz) is part of a river: river noise near zero and a surface below 45.
pub open spec fn river_at(p: TerrainParams, f: TerrainFields, wx: int, wz: int) -> bool {
    f.river@[wx * (p.depth as int) + wz] && col_height(p, f, wx, wz) < 45
}

/// Column (wx, wz) is under water: the world has water and the surface is below the water
/// level or is a pond or river.
pub open spec fn wet(p: TerrainParams, f: TerrainFields, wx: int, wz: int) -> bool {
    water_level(p) >= 0 && (col_height(p, f, wx, wz) < water_level(p) || pond_at(p, f, wx, wz)
        || river_at(p, f, wx, wz))
}

/// The water surface of column (wx, wz): one above the water level in a pond.
pub open spec fn local_water(p: TerrainParams, f: TerrainFields, wx: int, wz: int) -> int {
    water_level(p) + if pond_at(p, f, wx, wz) {
        1int
    } else {
        0int
    }
}

/// The block type at (wx, y, wz) once the terrain is shaped: base terrain, caves carved out,
/// and in a wet column sand at the surface with water above it up to the water surface
/// (at most 62).
pub open spec fn shaped_type(p: TerrainParams, f: TerrainFields, wx: int, y: int, wz: int) -> u8 {
    let h = col_height(p, f, wx, wz);
    let lw = local_water(p, f, wx, wz);
    if wet(p, f, wx, wz) && y == h {
        TYPE_SAND
    } else if wet(p, f, wx, wz) && h < y && y <= (if lw < 62 { lw } else { 62 }) {
        TYPE_WATER
    } else if carved(p, f, wx, y, wz) {
        TYPE_NONE
    } else {
        base_type(h, y)
    }
}

/// A world as a function of block position (wx, y, wz).
pub type Grid = spec_fn(int, int, int) -> TerrainBlock;

/// The shaped terrain.
pub open spec fn shaped(p: TerrainParams, f: TerrainFields) -> Grid {
    |x: int, y: int, z: int| TerrainBlock { block_type: shaped_type(p, f, x, y, z), color: 0 }
}

/// The highest `y < top` whose block in column (wx, wz) of `g` is solid, or 0.
pub open spec fn grid_top_below(g: Grid, wx: int, wz: int, top: int) -> int
    decreases top,
{
    if top <= 0 {
        0
    } else if is_solid(g(wx, top - 1, wz).block_type) {
        top - 1
    } else {
        grid_top_below(g, wx, wz, top - 1)
    }
}

/// The height of the highest solid block of column (wx, wz) of `g`, or 0.
pub open spec fn grid_top(g: Grid, wx: int, wz: int) -> int {
    grid_top_below(g, wx, wz, 64)
}

/// 1 when column (wx, wz) is wet, else 0.
pub open spec fn wet_count(p: TerrainParams, f: TerrainFields, wx: int, wz: int) -> int {
    if wet(p, f, wx, wz) {
        1
    } else {
        0
    }
}

/// How many of the eight columns around (wx, wz) are wet.
pub open spec fn wet_neighbours(p: TerrainParams, f: TerrainFields, wx: int, wz: int) -> int {
    wet_count(p, f, wx - 1, wz - 1) + wet_count(p, f, wx, wz - 1) + wet_count(p, f, wx + 1, wz - 1)
        + wet_count(p, f, wx - 1, wz) + wet_count(p, f, wx + 1, wz) + wet_count(p, f, wx - 1, wz + 1)
        + wet_count(p, f, wx, wz + 1) + wet_count(p, f, wx + 1, wz + 1)
}

/// Column (wx, wz), not on the world's edge, becomes a beach: its top is grass at most two
/// above the water level and at least three of its neighbours are wet.
pub open spec fn beach(p: TerrainParams, f: TerrainFields, wx: int, wz: int) -> bool {
    let g = shaped(p, f);
    let t = grid_top(g, wx, wz);
    &&& 1 <= wx < p.width - 1
    &&& 1 <= wz < p.depth - 1
    &&& g(wx, t, wz).block_type == TYPE_GRASS
    &&& wet_neighbours(p, f, wx, wz) >= 3
    &&& water_level(p) >= 0
    &&& t <= water_level(p) + 2
}

/// The terrain with beaches: the grass top of each beach column turned to sand.
pub open spec fn with_beaches(p: TerrainParams, f: TerrainFields) -> Grid {
    |x: int, y: int, z: int|
        if beach(p, f, x, z) && y == grid_top(shaped(p, f), x, z) {
            TerrainBlock { block_type: TYPE_SAND, color: 0 }
        } else {
            shaped(p, f)(x, y, z)
        }
}

/// The seed of the leaf hash: the world seed plus 97, wrapping.
pub open spec fn leaf_seed(seed: u32) -> u32 {
    ((seed as int + 97) % 0x1_0000_0000) as u32
}

/// Block (x, y, z) is a kept leaf of the canopy that sits on `leaf_top` over column (wx, wz):
/// inside the canopy box and the world, and kept by its slot's limit.
pub open spec fn leaf_kept(
    p: TerrainParams,
    f: TerrainFields,
    wx: int,
    wz: int,
    leaf_top: int,
    pattern: int,
    x: int,
    y: int,
    z: int,
) -> bool {
    let dx = x - wx;
    let dz = z - wz;
    let dy = y - leaf_top;
    &&& -4 <= dx <= 4 && -4 <= dz <= 4 && 1 <= dy <= 5
    &&& 0 <= x < p.width && 0 <= z < p.depth && 1 <= y < 63
    &&& (hash3_spec(leaf_seed(p.seed), x as i32, y as i32, z as i32) & 1023u32) < f.leaf_limit@[leaf_slot(
        pattern,
        dx,
        dy,
        dz,
    )] as u32
}

/// Column (wx, wz) of `g` can take a plant: grass on top, above the water level, with air
/// above it below height 63.
pub open spec fn plantable(p: TerrainParams, g: Grid, wx: int, wz: int) -> bool {
    let t = grid_top(g, wx, wz);
    &&& g(wx, t, wz).block_type == TYPE_GRASS
    &&& !(water_level(p) >= 0 && t <= water_level(p))
    &&& t + 1 < 63
    &&& g(wx, t + 1, wz).block_type == TYPE_NONE
}

/// The hash that decides what grows on column (wx, wz) of `g`.
pub open spec fn plant_hash(p: TerrainParams, g: Grid, wx: int, wz: int) -> u32 {
    hash3_spec(p.seed, wx as i32, grid_top(g, wx, wz) as i32, wz as i32)
}

/// `g` with a tree on column (wx, wz): a trunk of 4 + hash % 4 blocks (below height 63) and
/// the kept leaves of canopy pattern hash % 3 placed on air above the trunk.
pub open spec fn with_tree(p: TerrainParams, f: TerrainFields, g: Grid, wx: int, wz: int) -> Grid {
    let t = grid_top(g, wx, wz);
    let h = plant_hash(p, g, wx, wz);
    let trunk = 4 + (h % 4) as int;
    let lt = if t + trunk < 62 {
        t + trunk
    } else {
        62
    };
    let pattern = (h % 3) as int;
    |x: int, y: int, z: int|
        if x == wx && z == wz && t < y && y <= t + trunk && y < 63 {
            TerrainBlock { block_type: TYPE_TREE, color: g(x, y, z).color }
        } else if leaf_kept(p, f, wx, wz, lt, pattern, x, y, z) && g(x, y, z).block_type == TYPE_NONE {
            TerrainBlock { block_type: TYPE_LEAVES, color: g(x, y, z).color }
        } else {
            g(x, y, z)
        }
}

/// `g` with a flower above the top of column (wx, wz).
pub open spec fn with_flower(g: Grid, wx: int, wz: int) -> Grid {
    let t = grid_top(g, wx, wz);
    |x: int, y: int, z: int|
        if x == wx && z == wz && y == t + 1 {
            TerrainBlock { block_type: TYPE_FLOWER, color: g(x, y, z).color }
        } else {
            g(x, y, z)
        }
}

/// One vegetation step on column (wx, wz) of the state (grid, trees, flowers): a tree when
/// the plant hash modulo 1000 is below 6, a flower when it is below 12.
pub open spec fn veg_step(p: TerrainParams, f: TerrainFields, s: (Grid, int, int), wx: int, wz: int) -> (Grid, int, int) {
    let g = s.0;
    let h = plant_hash(p, g, wx, wz);
    if !plantable(p, g, wx, wz) {
        s
    } else if h % 1000 < 6 {
        (with_tree(p, f, g, wx, wz), s.1 + 1, s.2)
    } else if h % 1000 < 12 {
        (with_flower(g, wx, wz), s.1, s.2 + 1)
    } else {
        s
    }
}

/// Number of columns per row of the vegetation area (columns at least 4 from the edge).
pub open spec fn veg_span(p: TerrainParams) -> int {
    p.depth - 8
}

/// The state after the first `k` vegetation steps, which visit the columns at least 4 from
/// the edge x-major.
pub open spec fn veg_upto(p: TerrainParams, f: TerrainFields, k: nat) -> (Grid, int, int)
    decreases k,
{
    if k == 0 {
        (with_beaches(p, f), 0, 0)
    } else {
        let j = k - 1;
        veg_step(p, f, veg_upto(p, f, j as nat), 4 + j / veg_span(p), 4 + j % veg_span(p))
    }
}

/// The state after vegetation: the grid and the numbers of trees and flowers placed.
pub open spec fn vegetated(p: TerrainParams, f: TerrainFields) -> (Grid, int, int) {
    veg_upto(p, f, ((p.width - 8) * veg_span(p)) as nat)
}

/// Column (wx, wz) of `g` is capped with snow: its top is at height 48 or more and is grass,
/// dirt, stone or sand.
pub open spec fn snowy(g: Grid, wx: int, wz: int) -> bool {
    let t = grid_top(g, wx, wz);
    let ty = g(wx, t, wz).block_type;
    t >= 48 && (ty == TYPE_GRASS || ty == TYPE_DIRT || ty == TYPE_STONE || ty == TYPE_SAND)
}

/// `g` with snow caps: the top block of each snowy column becomes white sand (colour 1).
pub open spec fn with_snow(g: Grid) -> Grid {
    |x: int, y: int, z: int|
        if snowy(g, x, z) && y == grid_top(g, x, z) {
            TerrainBlock { block_type: TYPE_SAND, color: 1 }
        } else {
            g(x, y, z)
        }
}

/// The generated world as a grid.
pub open spec fn final_grid(p: TerrainParams, f: TerrainFields) -> Grid {
    with_snow(vegetated(p, f).0)
}

/// Number of cave blocks of column (wx, wz) below height `top`.
pub open spec fn caves_below(p: TerrainParams, f: TerrainFields, wx: int, wz: int, top: int) -> int
    decreases top,
{
    if top <= 0 {
        0
    } else {
        caves_below(p, f, wx, wz, top - 1) + if carved(p, f, wx, top - 1, wz) {
            1int
        } else {
            0int
        }
    }
}

/// Number of cave blocks in the first `k` columns, x-major.
pub open spec fn caves_upto(p: TerrainParams, f: TerrainFields, k: nat) -> int
    decreases k,
{
    if k == 0 {
        0
    } else {
        let j = k - 1;
        caves_upto(p, f, j as nat) + caves_below(p, f, j / (p.depth as int), j % (p.depth as int), 64)
    }
}

/// `r` is the world generated for `p` from `f`.
pub open spec fn generated(p: TerrainParams, f: TerrainFields, r: TerrainWorld) -> bool {
    let w = p.width as int;
    let d = p.depth as int;
    let g = final_grid(p, f);
    let v = vegetated(p, f);
    &&& r.width == w && r.depth == d
    &&& r.blocks@.len() == w * d * 64
    &&& forall|x: int, y: int, z: int|
        0 <= x < w && 0 <= y < 64 && 0 <= z < d ==> #[trigger] r.blocks@[world_index(x, y, z, d)] == g(x, y, z)
    &&& r.meta.cols_x == w / 16 && r.meta.cols_z == d / 16
    &&& r.meta.spawn_x == w / 2 && r.meta.spawn_z == d / 2
    &&& r.meta.spawn_y == clamp_spec(grid_top(g, w / 2, d / 2) + 1, 1, 62)
    &&& r.meta.trees_placed == v.1
    &&& r.meta.flowers_placed == v.2
    &&& r.meta.caves_carved == caves_upto(p, f, (w * d) as nat)
    &&& forall|x: int, z: int| 0 <= x < w && 0 <= z < d ==> r.meta.min_height <= #[trigger] col_height(p, f, x, z) <= r.meta.max_height
    &&& exists|x: int, z: int| 0 <= x < w && 0 <= z < d && #[trigger] col_height(p, f, x, z) == r.meta.min_height
    &&& exists|x: int, z: int| 0 <= x < w && 0 <= z < d && #[trigger] col_height(p, f, x, z) == r.meta.max_height
}

/// `b` holds grid `g` for a `w` x `d` world.
pub open spec fn holds(b: Seq<TerrainBlock>, w: int, d: int, g: Grid) -> bool {
    &&& b.len() == w * d * 64
    &&& forall|x: int, y: int, z: int|
        0 <= x < w && 0 <= y < 64 && 0 <= z < d ==> #[trigger] b[world_index(x, y, z, d)] == g(x, y, z)
}

proof fn lemma_world_index_decode(x: int, y: int, z: int, d: int)
    requires
        0 <= x,
        0 <= y < 64,
        0 <= z < d,
    ensures
        world_index(x, y, z, d) == (x * d + z) * 64 + y,
        world_index(x, y, z, d) / 64 == x * d + z,
        world_index(x, y, z, d) % 64 == y,
        (x * d + z) / d == x,
        (x * d + z) % d == z,
{
    let i = world_index(x, y, z, d);
    assert(i == (x * d + z) * 64 + y) by (nonlinear_arith)
        requires i == x * d * 64 + z * 64 + y;
    assert(i / 64 == x * d + z && i % 64 == y) by (nonlinear_arith)
        requires i == (x * d + z) * 64 + y, 0 <= y < 64, x >= 0, 0 <= z, x * d + z >= 0;
    assert((x * d + z) / d == x && (x * d + z) % d == z) by (nonlinear_arith)
        requires 0 <= z < d, x >= 0;
}

proof fn lemma_column_index(c: int, d: int, w: int)
    requires
        0 <= c < w * d,
        d > 0,
    ensures
        0 <= c / d < w,
        0 <= c % d < d,
        (c / d) * d + c % d == c,
{
    assert(0 <= c / d < w && 0 <= c % d < d && (c / d) * d + c % d == c) by (nonlinear_arith)
        requires 0 <= c < w * d, d > 0;
}

/// The shaped block type computed from a column's values.
fn shaped_type_of(h: i32, y: i32, is_wet: bool, lwl: i32, carve: bool) -> (t: u8)
    requires
        1 <= h <= 62,
    ensures
        t == if is_wet && y == h {
            TYPE_SAND
        } else if is_wet && h < y && y <= (if lwl < 62 { lwl } else { 62 }) {
            TYPE_WATER
        } else if carve {
            TYPE_NONE
        } else {
            base_type(h as int, y as int)
        },
{
    let water_top = if lwl < 62 { lwl } else { 62 };
    if is_wet && y == h {
        TYPE_SAND
    } else if is_wet && h < y && y <= water_top {
        TYPE_WATER
    } else if carve {
        TYPE_NONE
    } else {
        let stone_top = if h - 3 > 0 { h - 3 } else { 0 };
        if y <= stone_top {
            TYPE_STONE
        } else if y <= h - 1 {
            TYPE_DIRT
        } else if y == h {
            TYPE_GRASS
        } else {
            TYPE_NONE
        }
    }
}

/// Appends the 64 shaped blocks of column (wx, wz), bottom first, and returns how many of
/// them a cave carved.
fn shape_column(p: &TerrainParams, f: &TerrainFields, wl: i32, wx: usize, wz: usize, blocks: &mut Vec<TerrainBlock>) -> (r: (u32, i32, bool))
    requires
        valid_size(*p),
        fields_fit(*p, *f),
        wl == water_level(*p),
        wx < p.width,
        wz < p.depth,
    ensures
        final(blocks)@ == old(blocks)@ + Seq::new(
            64,
            |y: int| TerrainBlock { block_type: shaped_type(*p, *f, wx as int, y, wz as int), color: 0 },
        ),
        r.0 == caves_below(*p, *f, wx as int, wz as int, 64),
        r.0 <= 64,
        r.1 == col_height(*p, *f, wx as int, wz as int),
        r.2 == wet(*p, *f, wx as int, wz as int),
{
    let depth = p.depth as usize;
    assert(wx * depth + wz < p.width * p.depth && p.width * p.depth * 64 <= 1024 * 1024 * 64) by (nonlinear_arith)
        requires wx < p.width, wz < depth, depth == p.depth, p.width <= 1024, p.depth <= 1024;
    let c = wx * depth + wz;
    let h = clamp(f.raw_heights[c], 1, 62);
    let pond = f.pond[c] && h < wl + 3;
    let river = f.river[c] && h < 45;
    let is_wet = wl >= 0 && (h < wl || pond || river);
    let lwl = wl + if pond { 1 } else { 0 };
    let ct = if h - 4 > 1 { h - 4 } else { 1 };
    let ghost start = blocks@;
    let mut caves: u32 = 0;
    let mut y: i32 = 0;
    while y < 64
        invariant
            0 <= y <= 64,
            valid_size(*p),
            fields_fit(*p, *f),
            wl == water_level(*p),
            wx < p.width,
            wz < p.depth,
            depth == p.depth,
            p.width * p.depth * 64 <= 1024 * 1024 * 64,
            h == col_height(*p, *f, wx as int, wz as int),
            is_wet == wet(*p, *f, wx as int, wz as int),
            lwl == local_water(*p, *f, wx as int, wz as int),
            ct == cave_top(h as int),
            caves == caves_below(*p, *f, wx as int, wz as int, y as int),
            caves <= y,
            blocks@ == start + Seq::new(
                y as nat,
                |yy: int| TerrainBlock { block_type: shaped_type(*p, *f, wx as int, yy, wz as int), color: 0 },
            ),
        decreases 64 - y,
    {
        proof {
            lemma_world_index_bounds(wx as int, y as int, wz as int, p.width as int, p.depth as int);
        }
        let carve = 1 <= y && y <= ct && f.cave[world_idx(wx, y as usize, wz, depth)];
        assert(carve == carved(*p, *f, wx as int, y as int, wz as int));
        let t = shaped_type_of(h, y, is_wet, lwl, carve);
        blocks.push(TerrainBlock { block_type: t, color: 0 });
        if carve {
            caves = caves + 1;
        }
        y = y + 1;
        assert(blocks@ =~= start + Seq::new(
            y as nat,
            |yy: int| TerrainBlock { block_type: shaped_type(*p, *f, wx as int, yy, wz as int), color: 0 },
        ));
    }
    (caves, h, is_wet)
}

/// Shapes every column, x-major: the blocks, the wet-column mask, the number of carved cave
/// blocks and the lowest and highest column heights.
fn shape_pass(p: &TerrainParams, f: &TerrainFields, wl: i32) -> (r: (Vec<TerrainBlock>, Vec<bool>, u32, i32, i32))
    requires
        valid_size(*p),
        fields_fit(*p, *f),
        wl == water_level(*p),
    ensures
        holds(r.0@, p.width as int, p.depth as int, shaped(*p, *f)),
        r.1@.len() == p.width * p.depth,
        forall|x: int, z: int| 0 <= x < p.width && 0 <= z < p.depth ==> #[trigger] r.1@[x * (p.depth as int) + z] == wet(*p, *f, x, z),
        r.2 == caves_upto(*p, *f, (p.width * p.depth) as nat),
        forall|x: int, z: int| 0 <= x < p.width && 0 <= z < p.depth ==> r.3 <= #[trigger] col_height(*p, *f, x, z) <= r.4,
        exists|x: int, z: int| 0 <= x < p.width && 0 <= z < p.depth && #[trigger] col_height(*p, *f, x, z) == r.3,
        exists|x: int, z: int| 0 <= x < p.width && 0 <= z < p.depth && #[trigger] col_height(*p, *f, x, z) == r.4,
{
    let width = p.width as usize;
    let depth = p.depth as usize;
    let ghost w = p.width as int;
    let ghost d = p.depth as int;
    let ghost sg = shaped(*p, *f);
    assert(width * depth <= 1024 * 1024) by (nonlinear_arith)
        requires width <= 1024, depth <= 1024;
    let n = width * depth;
    let mut blocks: Vec<TerrainBlock> = Vec::new();
    let mut mask: Vec<bool> = Vec::new();
    let mut caves: u32 = 0;
    let mut min_h: i32 = i32::MAX;
    let mut max_h: i32 = i32::MIN;
    let ghost mut min_i: int = 0;
    let ghost mut max_i: int = 0;
    let mut c: usize = 0;
    while c < n
        invariant
            c <= n,
            n == w * d,
            n <= 1024 * 1024,
            w == p.width as int,
            d == p.depth as int,
            width == w,
            depth == d,
            valid_size(*p),
            fields_fit(*p, *f),
            wl == water_level(*p),
            sg == shaped(*p, *f),
            blocks@.len() == c * 64,
            forall|i: int| 0 <= i < c * 64 ==> #[trigger] blocks@[i] == sg((i / 64) / d, i % 64, (i / 64) % d),
            mask@.len() == c,
            forall|i: int| 0 <= i < c ==> #[trigger] mask@[i] == wet(*p, *f, i / d, i % d),
            caves == caves_upto(*p, *f, c as nat),
            caves <= c * 64,
            forall|i: int| 0 <= i < c ==> min_h <= #[trigger] col_height(*p, *f, i / d, i % d) <= max_h,
            c == 0 ==> min_h == i32::MAX && max_h == i32::MIN,
            c > 0 ==> 0 <= min_i < c && col_height(*p, *f, min_i / d, min_i % d) == min_h,
            c > 0 ==> 0 <= max_i < c && col_height(*p, *f, max_i / d, max_i % d) == max_h,
        decreases n - c,
    {
        let wx = c / depth;
        let wz = c % depth;
        proof {
            lemma_column_index(c as int, d, w);
            assert(wx as int == c as int / d && wz as int == c as int % d);
            assert(wx < p.width && wz < p.depth);
        }
        let ghost b0 = blocks@;
        let (cc, h, is_wet) = shape_column(p, f, wl, wx, wz, &mut blocks);
        proof {
            assert forall|i: int| 0 <= i < (c + 1) * 64 implies #[trigger] blocks@[i] == sg((i / 64) / d, i % 64, (i / 64) % d) by {
                if i >= c * 64 {
                    assert(i / 64 == c && i % 64 == i - c * 64) by (nonlinear_arith)
                        requires c * 64 <= i < c * 64 + 64;
                } else {
                    assert(blocks@[i] == b0[i]);
                }
            }
        }
        mask.push(is_wet);
        caves = caves + cc;
        if h < min_h {
            min_h = h;
            proof {
                min_i = c as int;
            }
        }
        if h > max_h {
            max_h = h;
            proof {
                max_i = c as int;
            }
        }
        proof {
            assert(col_height(*p, *f, (c as int) / d, (c as int) % d) == h);
        }
        c = c + 1;
    }
    proof {
        assert forall|x: int, y: int, z: int| 0 <= x < w && 0 <= y < 64 && 0 <= z < d implies #[trigger] blocks@[world_index(x, y, z, d)] == sg(x, y, z) by {
            lemma_world_index_decode(x, y, z, d);
            lemma_world_index_bounds(x, y, z, w, d);
        }
        assert forall|x: int, z: int| 0 <= x < w && 0 <= z < d implies #[trigger] mask@[x * d + z] == wet(*p, *f, x, z) by {
            lemma_world_index_decode(x, 0, z, d);
            lemma_world_index_bounds(x, 0, z, w, d);
        }
        assert forall|x: int, z: int| 0 <= x < w && 0 <= z < d implies min_h <= #[trigger] col_height(*p, *f, x, z) <= max_h by {
            lemma_world_index_decode(x, 0, z, d);
            lemma_world_index_bounds(x, 0, z, w, d);
            assert(col_height(*p, *f, (x * d + z) / d, (x * d + z) % d) == col_height(*p, *f, x, z));
        }
        assert(w * d > 0) by (nonlinear_arith)
            requires w > 0, d > 0;
        lemma_column_index(min_i, d, w);
        assert(col_height(*p, *f, min_i / d, min_i % d) == min_h);
        lemma_column_index(max_i, d, w);
        assert(col_height(*p, *f, max_i / d, max_i % d) == max_h);
    }
    (blocks, mask, caves, min_h, max_h)
}

proof fn lemma_grid_top_bounds(g: Grid, wx: int, wz: int, top: int)
    requires
        0 <= top <= 64,
    ensures
        0 <= grid_top_below(g, wx, wz, top) < 64,
        grid_top_below(g, wx, wz, top) < top || top == 0,
    decreases top,
{
    if top > 0 {
        lemma_grid_top_bounds(g, wx, wz, top - 1);
    }
}

/// A column of `b` that agrees with `g` has the same top solid block.
proof fn lemma_top_agrees(b: Seq<TerrainBlock>, g: Grid, wx: int, wz: int, d: int, top: int)
    requires
        0 <= top <= 64,
        forall|y: int| 0 <= y < 64 ==> #[trigger] b[world_index(wx, y, wz, d)] == g(wx, y, wz),
    ensures
        top_solid_below(b, wx, wz, d, top) == grid_top_below(g, wx, wz, top),
    decreases top,
{
    if top > 0 {
        lemma_top_agrees(b, g, wx, wz, d, top - 1);
        assert(b[world_index(wx, top - 1, wz, d)] == g(wx, top - 1, wz));
    }
}

proof fn lemma_world_index_injective(x1: int, y1: int, z1: int, x2: int, y2: int, z2: int, d: int)
    requires
        0 <= x1,
        0 <= x2,
        0 <= y1 < 64,
        0 <= y2 < 64,
        0 <= z1 < d,
        0 <= z2 < d,
        world_index(x1, y1, z1, d) == world_index(x2, y2, z2, d),
    ensures
        x1 == x2 && y1 == y2 && z1 == z2,
{
    lemma_world_index_decode(x1, y1, z1, d);
    lemma_world_index_decode(x2, y2, z2, d);
}

/// The terrain while beaches are being made: columns before `c` (x-major) are done.
pub open spec fn beach_partial(p: TerrainParams, f: TerrainFields, c: int) -> Grid {
    |x: int, y: int, z: int|
        if x * (p.depth as int) + z < c {
            with_beaches(p, f)(x, y, z)
        } else {
            shaped(p, f)(x, y, z)
        }
}

fn wet_at(mask: &Vec<bool>, x: usize, z: usize, depth: usize) -> (n: i32)
    requires
        x * depth + z < mask@.len(),
    ensures
        n == if mask@[x * depth + z] { 1int } else { 0int },
{
    let len = mask.len();
    if mask[x * depth + z] {
        1
    } else {
        0
    }
}

/// Turns the grass top of every beach column into sand.
fn beach_pass(p: &TerrainParams, f: &TerrainFields, wl: i32, blocks: &mut Vec<TerrainBlock>, mask: &Vec<bool>)
    requires
        valid_size(*p),
        fields_fit(*p, *f),
        wl == water_level(*p),
        holds(old(blocks)@, p.width as int, p.depth as int, shaped(*p, *f)),
        mask@.len() == p.width * p.depth,
        forall|x: int, z: int| 0 <= x < p.width && 0 <= z < p.depth ==> #[trigger] mask@[x * (p.depth as int) + z] == wet(*p, *f, x, z),
    ensures
        holds(final(blocks)@, p.width as int, p.depth as int, with_beaches(*p, *f)),
{
    let width = p.width as usize;
    let depth = p.depth as usize;
    let ghost w = p.width as int;
    let ghost d = p.depth as int;
    assert(width * depth <= 1024 * 1024 && width * depth * 64 <= 1024 * 1024 * 64) by (nonlinear_arith)
        requires width <= 1024, depth <= 1024;
    let n = width * depth;
    let mut c: usize = 0;
    while c < n
        invariant
            c <= n,
            n == w * d,
            n <= 1024 * 1024,
            w * d * 64 <= 1024 * 1024 * 64,
            w == p.width as int,
            d == p.depth as int,
            width == w,
            depth == d,
            valid_size(*p),
            fields_fit(*p, *f),
            wl == water_level(*p),
            mask@.len() == w * d,
            forall|x: int, z: int| 0 <= x < w && 0 <= z < d ==> #[trigger] mask@[x * d + z] == wet(*p, *f, x, z),
            holds(blocks@, w, d, beach_partial(*p, *f, c as int)),
        decreases n - c,
    {
        let wx = c / depth;
        let wz = c % depth;
        proof {
            lemma_column_index(c as int, d, w);
            assert(wx as int == c as int / d && wz as int == c as int % d);
        }
        let ghost g0 = beach_partial(*p, *f, c as int);
        let ghost g1 = beach_partial(*p, *f, c + 1);
        let ghost b0 = blocks@;
        if 1 <= wx && wx < width - 1 && 1 <= wz && wz < depth - 1 {
            proof {
                assert forall|y: int| 0 <= y < 64 implies #[trigger] blocks@[world_index(wx as int, y, wz as int, d)] == shaped(*p, *f)(wx as int, y, wz as int) by {
                    assert(blocks@[world_index(wx as int, y, wz as int, d)] == g0(wx as int, y, wz as int));
                }
                lemma_top_agrees(blocks@, shaped(*p, *f), wx as int, wz as int, d, 64);
            }
            let top_y = get_top_solid_y(blocks.as_slice(), wx as i32, wz as i32, width, depth);
            proof {
                lemma_world_index_bounds(wx as int, top_y as int, wz as int, w, d);
            }
            let idx = world_idx(wx, top_y as usize, wz, depth);
            let ghost t = top_y as int;
            assert(blocks@[idx as int] == shaped(*p, *f)(wx as int, t, wz as int));
            if blocks[idx].block_type == TYPE_GRASS {
                proof {
                    lemma_world_index_decode(wx - 1, 0, wz - 1, d);
                    lemma_world_index_decode(wx as int, 0, wz - 1, d);
                    lemma_world_index_decode(wx + 1, 0, wz - 1, d);
                    lemma_world_index_decode(wx - 1, 0, wz as int, d);
                    lemma_world_index_decode(wx + 1, 0, wz as int, d);
                    lemma_world_index_decode(wx - 1, 0, wz + 1, d);
                    lemma_world_index_decode(wx as int, 0, wz + 1, d);
                    lemma_world_index_decode(wx + 1, 0, wz + 1, d);
                    lemma_world_index_bounds(wx + 1, 0, wz + 1, w, d);
                    lemma_world_index_bounds(wx - 1, 0, wz + 1, w, d);
                    lemma_world_index_bounds(wx + 1, 0, wz - 1, w, d);
                    lemma_world_index_bounds(wx - 1, 0, wz - 1, w, d);
                    lemma_world_index_bounds(wx as int, 0, wz + 1, w, d);
                    lemma_world_index_bounds(wx as int, 0, wz - 1, w, d);
                    lemma_world_index_bounds(wx + 1, 0, wz as int, w, d);
                    lemma_world_index_bounds(wx - 1, 0, wz as int, w, d);
                }
                let water_neighbors = wet_at(mask, wx - 1, wz - 1, depth) + wet_at(mask, wx, wz - 1, depth)
                    + wet_at(mask, wx + 1, wz - 1, depth) + wet_at(mask, wx - 1, wz, depth) + wet_at(
                    mask,
                    wx + 1,
                    wz,
                    depth,
                ) + wet_at(mask, wx - 1, wz + 1, depth) + wet_at(mask, wx, wz + 1, depth) + wet_at(
                    mask,
                    wx + 1,
                    wz + 1,
                    depth,
                );
                assert(water_neighbors == wet_neighbours(*p, *f, wx as int, wz as int));
                if water_neighbors >= 3 && wl >= 0 && top_y <= wl + 2 {
                    let color = blocks[idx].color;
                    blocks.set(idx, TerrainBlock { block_type: TYPE_SAND, color });
                }
            }
        }
        proof {
            assert(beach(*p, *f, wx as int, wz as int) ==> 1 <= wx < width - 1 && 1 <= wz < depth - 1);
            assert forall|x: int, y: int, z: int| 0 <= x < w && 0 <= y < 64 && 0 <= z < d implies #[trigger] blocks@[world_index(x, y, z, d)] == g1(x, y, z) by {
                lemma_world_index_decode(x, y, z, d);
                lemma_world_index_bounds(x, y, z, w, d);
                if x * d + z != c {
                    assert(x != wx || z != wz);
                    if blocks@ != b0 {
                        lemma_world_index_bounds(wx as int, grid_top(shaped(*p, *f), wx as int, wz as int), wz as int, w, d);
                        if world_index(x, y, z, d) == world_index(wx as int, grid_top(shaped(*p, *f), wx as int, wz as int), wz as int, d) {
                            lemma_world_index_injective(x, y, z, wx as int, grid_top(shaped(*p, *f), wx as int, wz as int), wz as int, d);
                        }
                    }
                    assert(blocks@[world_index(x, y, z, d)] == b0[world_index(x, y, z, d)]);
                } else {
                    assert(x == wx && z == wz);
                }
            }
        }
        c = c + 1;
    }
    proof {
        assert forall|x: int, y: int, z: int| 0 <= x < w && 0 <= y < 64 && 0 <= z < d implies #[trigger] blocks@[world_index(x, y, z, d)] == with_beaches(*p, *f)(x, y, z) by {
            lemma_world_index_decode(x, y, z, d);
            lemma_world_index_bounds(x, y, z, w, d);
            assert(blocks@[world_index(x, y, z, d)] == beach_partial(*p, *f, n as int)(x, y, z));
        }
    }
}

/// Position of canopy slot (dx, dy, dz) in the order the canopy is visited: dy, then dx,
/// then dz.
pub open spec fn visit_index(dx: int, dy: int, dz: int) -> int {
    (dy - 1) * 81 + (dx + 4) * 9 + (dz + 4)
}

proof fn lemma_visit_decode(s: int)
    requires
        0 <= s < 405,
    ensures
        ({
            let dy = s / 81 + 1;
            let dx = (s / 9) % 9 - 4;
            let dz = s % 9 - 4;
            &&& 1 <= dy <= 5 && -4 <= dx <= 4 && -4 <= dz <= 4
            &&& visit_index(dx, dy, dz) == s
        }),
{
    assert(1 <= s / 81 + 1 <= 5 && 0 <= (s / 9) % 9 < 9 && 0 <= s % 9 < 9 && (s / 81) * 81 + ((s / 9) % 9) * 9 + s % 9 == s) by (nonlinear_arith)
        requires 0 <= s < 405;
}

proof fn lemma_visit_unique(dx: int, dy: int, dz: int, ex: int, ey: int, ez: int)
    requires
        1 <= dy <= 5 && -4 <= dx <= 4 && -4 <= dz <= 4,
        1 <= ey <= 5 && -4 <= ex <= 4 && -4 <= ez <= 4,
        visit_index(dx, dy, dz) == visit_index(ex, ey, ez),
    ensures
        dx == ex && dy == ey && dz == ez,
{
}

/// The tree on column (wx, wz) with its trunk (top `t`, height `trunk`) in place and the
/// canopy slots visited before `s` done.
pub open spec fn tree_partial(
    p: TerrainParams,
    f: TerrainFields,
    g: Grid,
    wx: int,
    wz: int,
    t: int,
    trunk: int,
    trunk_done: int,
    lt: int,
    pattern: int,
    s: int,
) -> Grid {
    |x: int, y: int, z: int|
        if x == wx && z == wz && t < y && y <= t + trunk && y < 63 && y <= t + trunk_done {
            TerrainBlock { block_type: TYPE_TREE, color: g(x, y, z).color }
        } else if leaf_kept(p, f, wx, wz, lt, pattern, x, y, z) && visit_index(x - wx, y - lt, z - wz) < s
            && g(x, y, z).block_type == TYPE_NONE {
            TerrainBlock { block_type: TYPE_LEAVES, color: g(x, y, z).color }
        } else {
            g(x, y, z)
        }
}

/// Places the tree that grows on column (wx, wz) of the world held in `blocks`.
#[verifier::rlimit(60)]
fn place_tree(
    p: &TerrainParams,
    f: &TerrainFields,
    blocks: &mut Vec<TerrainBlock>,
    wx: usize,
    wz: usize,
    top_y: i32,
    h: u32,
    Ghost(g): Ghost<Grid>,
)
    requires
        valid_size(*p),
        fields_fit(*p, *f),
        holds(old(blocks)@, p.width as int, p.depth as int, g),
        4 <= wx < p.width - 4,
        4 <= wz < p.depth - 4,
        top_y == grid_top(g, wx as int, wz as int),
        0 <= top_y < 62,
        h == plant_hash(*p, g, wx as int, wz as int),
    ensures
        holds(final(blocks)@, p.width as int, p.depth as int, with_tree(*p, *f, g, wx as int, wz as int)),
{
    let width = p.width as usize;
    let depth = p.depth as usize;
    let ghost w = p.width as int;
    let ghost d = p.depth as int;
    assert(w * d * 64 <= 1024 * 1024 * 64) by (nonlinear_arith)
        requires 0 <= w <= 1024, 0 <= d <= 1024;
    let trunk: i32 = 4 + (h % 4) as i32;
    let leaf_top: i32 = if top_y + trunk < 62 { top_y + trunk } else { 62 };
    let pattern: usize = (h % 3) as usize;
    let ghost gt = |trunk_done: int| tree_partial(*p, *f, g, wx as int, wz as int, top_y as int, trunk as int, trunk_done, leaf_top as int, pattern as int, 0);
    let mut i: i32 = 1;
    proof {
        assert forall|x: int, y: int, z: int| 0 <= x < w && 0 <= y < 64 && 0 <= z < d implies #[trigger] blocks@[world_index(x, y, z, d)] == gt(0)(x, y, z) by {
            assert(blocks@[world_index(x, y, z, d)] == g(x, y, z));
        }
    }
    while i <= trunk && top_y + i < 63
        invariant
            1 <= i <= trunk + 1,
            trunk == 4 + (h % 4) as int,
            0 <= top_y < 62,
            w == p.width as int,
            d == p.depth as int,
            width == w,
            depth == d,
            w * d * 64 <= 1024 * 1024 * 64,
            4 <= wx < w - 4,
            4 <= wz < d - 4,
            holds(blocks@, w, d, gt(i - 1)),
            gt == (|trunk_done: int| tree_partial(*p, *f, g, wx as int, wz as int, top_y as int, trunk as int, trunk_done, leaf_top as int, pattern as int, 0)),
        decreases trunk + 1 - i,
    {
        let ty = top_y + i;
        proof {
            lemma_world_index_bounds(wx as int, ty as int, wz as int, w, d);
        }
        let tidx = world_idx(wx, ty as usize, wz, depth);
        let ghost b0 = blocks@;
        let color = blocks[tidx].color;
        blocks.set(tidx, TerrainBlock { block_type: TYPE_TREE, color });
        proof {
            assert(b0[tidx as int] == gt(i - 1)(wx as int, ty as int, wz as int));
            assert forall|x: int, y: int, z: int| 0 <= x < w && 0 <= y < 64 && 0 <= z < d implies #[trigger] blocks@[world_index(x, y, z, d)] == gt(i as int)(x, y, z) by {
                lemma_world_index_bounds(x, y, z, w, d);
                if world_index(x, y, z, d) == tidx {
                    lemma_world_index_injective(x, y, z, wx as int, ty as int, wz as int, d);
                } else {
                    assert(b0[world_index(x, y, z, d)] == gt(i - 1)(x, y, z));
                    assert(!(x == wx && z == wz && y == ty));
                }
            }
        }
        i = i + 1;
    }
    let ghost trunk_grid = gt(i - 1);
    assert forall|x: int, y: int, z: int| #[trigger] trunk_grid(x, y, z) == gt(trunk as int)(x, y, z) by {}
    let ghost gl = |s: int| tree_partial(*p, *f, g, wx as int, wz as int, top_y as int, trunk as int, trunk as int, leaf_top as int, pattern as int, s);
    assert forall|x: int, y: int, z: int| 0 <= x < w && 0 <= y < 64 && 0 <= z < d implies #[trigger] blocks@[world_index(x, y, z, d)] == gl(0)(x, y, z) by {
        assert(blocks@[world_index(x, y, z, d)] == trunk_grid(x, y, z));
    }
    let seed2 = p.seed.wrapping_add(97);
    assert(seed2 == leaf_seed(p.seed));
    let mut s: usize = 0;
    while s < 405
        invariant
            s <= 405,
            trunk == 4 + (h % 4) as int,
            0 <= top_y < 62,
            leaf_top == (if top_y + trunk < 62 { top_y + trunk } else { 62 }),
            pattern < 3,
            seed2 == leaf_seed(p.seed),
            valid_size(*p),
            fields_fit(*p, *f),
            w == p.width as int,
            d == p.depth as int,
            width == w,
            depth == d,
            w * d * 64 <= 1024 * 1024 * 64,
            4 <= wx < w - 4,
            4 <= wz < d - 4,
            holds(blocks@, w, d, gl(s as int)),
            gl == (|s: int| tree_partial(*p, *f, g, wx as int, wz as int, top_y as int, trunk as int, trunk as int, leaf_top as int, pattern as int, s)),
        decreases 405 - s,
    {
        proof {
            lemma_visit_decode(s as int);
        }
        let dy = (s / 81) as i32 + 1;
        let dx = ((s / 9) % 9) as i32 - 4;
        let dz = (s % 9) as i32 - 4;
        let ax = wx as i32 + dx;
        let az = wz as i32 + dz;
        let ay = leaf_top + dy;
        let ghost b0 = blocks@;
        if 0 <= ax && 0 <= az && ax < width as i32 && az < depth as i32 && 1 <= ay && ay < 63 {
            let slot = pattern * 405 + s;
            assert(slot == leaf_slot(pattern as int, dx as int, dy as int, dz as int));
            let limit = f.leaf_limit[slot];
            let lh = hash3(seed2, ax, ay, az);
            proof {
                lemma_world_index_bounds(ax as int, ay as int, az as int, w, d);
            }
            let lidx = world_idx(ax as usize, ay as usize, az as usize, depth);
            let ghost pos_kept = leaf_kept(*p, *f, wx as int, wz as int, leaf_top as int, pattern as int, ax as int, ay as int, az as int);
            assert(pos_kept == ((lh & 1023u32) < limit as u32));
            if (lh & 1023u32) < limit as u32 && blocks[lidx].block_type == TYPE_NONE {
                let color = blocks[lidx].color;
                blocks.set(lidx, TerrainBlock { block_type: TYPE_LEAVES, color });
            }
            proof {
                assert(b0[lidx as int] == gl(s as int)(ax as int, ay as int, az as int));
                assert forall|x: int, y: int, z: int| 0 <= x < w && 0 <= y < 64 && 0 <= z < d implies #[trigger] blocks@[world_index(x, y, z, d)] == gl(s + 1)(x, y, z) by {
                    lemma_world_index_bounds(x, y, z, w, d);
                    if world_index(x, y, z, d) == lidx {
                        lemma_world_index_injective(x, y, z, ax as int, ay as int, az as int, d);
                    } else {
                        assert(b0[world_index(x, y, z, d)] == gl(s as int)(x, y, z));
                        if leaf_kept(*p, *f, wx as int, wz as int, leaf_top as int, pattern as int, x, y, z) && visit_index(x - wx, y - leaf_top, z - wz) == s {
                            lemma_visit_unique(x - wx, y - leaf_top, z - wz, dx as int, dy as int, dz as int);
                        }
                    }
                }
            }
        } else {
            proof {
                assert forall|x: int, y: int, z: int| 0 <= x < w && 0 <= y < 64 && 0 <= z < d implies #[trigger] blocks@[world_index(x, y, z, d)] == gl(s + 1)(x, y, z) by {
                    assert(b0[world_index(x, y, z, d)] == gl(s as int)(x, y, z));
                    if leaf_kept(*p, *f, wx as int, wz as int, leaf_top as int, pattern as int, x, y, z) && visit_index(x - wx, y - leaf_top, z - wz) == s {
                        lemma_visit_unique(x - wx, y - leaf_top, z - wz, dx as int, dy as int, dz as int);
                    }
                }
            }
        }
        s = s + 1;
    }
    proof {
        let wt = with_tree(*p, *f, g, wx as int, wz as int);
        assert forall|x: int, y: int, z: int| 0 <= x < w && 0 <= y < 64 && 0 <= z < d implies #[trigger] blocks@[world_index(x, y, z, d)] == wt(x, y, z) by {
            assert(blocks@[world_index(x, y, z, d)] == gl(405)(x, y, z));
            if leaf_kept(*p, *f, wx as int, wz as int, leaf_top as int, pattern as int, x, y, z) {
                assert(visit_index(x - wx, y - leaf_top, z - wz) < 405);
            }
        }
    }
}

/// Runs the vegetation step on column (wx, wz): a tree, a flower, or nothing.
fn veg_column(p: &TerrainParams, f: &TerrainFields, wl: i32, blocks: &mut Vec<TerrainBlock>, wx: usize, wz: usize, Ghost(st): Ghost<(Grid, int, int)>) -> (r: (bool, bool))
    requires
        valid_size(*p),
        fields_fit(*p, *f),
        wl == water_level(*p),
        holds(old(blocks)@, p.width as int, p.depth as int, st.0),
        4 <= wx < p.width - 4,
        4 <= wz < p.depth - 4,
    ensures
        holds(final(blocks)@, p.width as int, p.depth as int, veg_step(*p, *f, st, wx as int, wz as int).0),
        veg_step(*p, *f, st, wx as int, wz as int).1 == st.1 + if r.0 { 1int } else { 0int },
        veg_step(*p, *f, st, wx as int, wz as int).2 == st.2 + if r.1 { 1int } else { 0int },
{
    let width = p.width as usize;
    let depth = p.depth as usize;
    let ghost w = p.width as int;
    let ghost d = p.depth as int;
    let ghost g = st.0;
    let blen = blocks.len();
    assert(w * d * 64 <= 1024 * 1024 * 64) by (nonlinear_arith)
        requires 0 <= w <= 1024, 0 <= d <= 1024;
    proof {
        assert forall|y: int| 0 <= y < 64 implies #[trigger] blocks@[world_index(wx as int, y, wz as int, d)] == g(wx as int, y, wz as int) by {}
        lemma_top_agrees(blocks@, g, wx as int, wz as int, d, 64);
        lemma_grid_top_bounds(g, wx as int, wz as int, 64);
    }
    let top_y = get_top_solid_y(blocks.as_slice(), wx as i32, wz as i32, width, depth);
    assert(top_y == grid_top(g, wx as int, wz as int));
    proof {
        lemma_world_index_bounds(wx as int, top_y as int, wz as int, w, d);
    }
    let idx = world_idx(wx, top_y as usize, wz, depth);
    assert(blocks@[idx as int] == g(wx as int, top_y as int, wz as int));
    if blocks[idx].block_type != TYPE_GRASS {
        return (false, false);
    }
    if wl >= 0 && top_y <= wl {
        return (false, false);
    }
    if top_y + 1 >= 63 {
        return (false, false);
    }
    proof {
        lemma_world_index_bounds(wx as int, top_y + 1, wz as int, w, d);
    }
    let above = world_idx(wx, (top_y + 1) as usize, wz, depth);
    assert(blocks@[above as int] == g(wx as int, top_y + 1, wz as int));
    if blocks[above].block_type != TYPE_NONE {
        return (false, false);
    }
    assert(plantable(*p, g, wx as int, wz as int));
    let h = hash3(p.seed, wx as i32, top_y, wz as i32);
    assert(h == plant_hash(*p, g, wx as int, wz as int));
    if h % 1000 < 6 {
        place_tree(p, f, blocks, wx, wz, top_y, h, Ghost(g));
        (true, false)
    } else if h % 1000 < 12 {
        let ghost b0 = blocks@;
        let color = blocks[above].color;
        blocks.set(above, TerrainBlock { block_type: TYPE_FLOWER, color });
        proof {
            let gf = with_flower(g, wx as int, wz as int);
            assert forall|x: int, y: int, z: int| 0 <= x < w && 0 <= y < 64 && 0 <= z < d implies #[trigger] blocks@[world_index(x, y, z, d)] == gf(x, y, z) by {
                lemma_world_index_bounds(x, y, z, w, d);
                if world_index(x, y, z, d) == above {
                    lemma_world_index_injective(x, y, z, wx as int, top_y + 1, wz as int, d);
                } else {
                    assert(b0[world_index(x, y, z, d)] == g(x, y, z));
                }
            }
        }
        (false, true)
    } else {
        (false, false)
    }
}

/// Grows trees and flowers on the columns at least 4 from the edge, x-major; returns the
/// numbers of trees and flowers placed.
fn veg_pass(p: &TerrainParams, f: &TerrainFields, wl: i32, blocks: &mut Vec<TerrainBlock>) -> (r: (u32, u32))
    requires
        valid_size(*p),
        fields_fit(*p, *f),
        wl == water_level(*p),
        holds(old(blocks)@, p.width as int, p.depth as int, with_beaches(*p, *f)),
    ensures
        holds(final(blocks)@, p.width as int, p.depth as int, vegetated(*p, *f).0),
        r.0 == vegetated(*p, *f).1,
        r.1 == vegetated(*p, *f).2,
{
    let width = p.width as usize;
    let depth = p.depth as usize;
    let ghost w = p.width as int;
    let ghost d = p.depth as int;
    let span = depth - 8;
    assert((width - 8) * span <= 1024 * 1024) by (nonlinear_arith)
        requires 16 <= width <= 1024, 16 <= depth <= 1024, span == depth - 8;
    let n = (width - 8) * span;
    let mut trees: u32 = 0;
    let mut flowers: u32 = 0;
    let mut k: usize = 0;
    while k < n
        invariant
            k <= n,
            n == (w - 8) * veg_span(*p),
            n <= 1024 * 1024,
            span == veg_span(*p),
            span >= 8,
            w == p.width as int,
            d == p.depth as int,
            width == w,
            depth == d,
            valid_size(*p),
            fields_fit(*p, *f),
            wl == water_level(*p),
            holds(blocks@, w, d, veg_upto(*p, *f, k as nat).0),
            trees == veg_upto(*p, *f, k as nat).1,
            flowers == veg_upto(*p, *f, k as nat).2,
            trees <= k,
            flowers <= k,
        decreases n - k,
    {
        let wx = 4 + k / span;
        let wz = 4 + k % span;
        proof {
            lemma_column_index(k as int, span as int, w - 8);
        }
        let (tree, flower) = veg_column(p, f, wl, blocks, wx, wz, Ghost(veg_upto(*p, *f, k as nat)));
        if tree {
            trees = trees + 1;
        }
        if flower {
            flowers = flowers + 1;
        }
        k = k + 1;
    }
    assert(n == (p.width - 8) * veg_span(*p));
    (trees, flowers)
}

/// The world while snow is being laid: columns before `c` (x-major) are done.
pub open spec fn snow_partial(g: Grid, d: int, c: int) -> Grid {
    |x: int, y: int, z: int|
        if x * d + z < c {
            with_snow(g)(x, y, z)
        } else {
            g(x, y, z)
        }
}

/// Caps every snowy column with white sand.
fn snow_pass(p: &TerrainParams, blocks: &mut Vec<TerrainBlock>, Ghost(g): Ghost<Grid>)
    requires
        valid_size(*p),
        holds(old(blocks)@, p.width as int, p.depth as int, g),
    ensures
        holds(final(blocks)@, p.width as int, p.depth as int, with_snow(g)),
{
    let width = p.width as usize;
    let depth = p.depth as usize;
    let ghost w = p.width as int;
    let ghost d = p.depth as int;
    assert(width * depth <= 1024 * 1024 && width * depth * 64 <= 1024 * 1024 * 64) by (nonlinear_arith)
        requires width <= 1024, depth <= 1024;
    let n = width * depth;
    let mut c: usize = 0;
    while c < n
        invariant
            c <= n,
            n == w * d,
            n <= 1024 * 1024,
            w * d * 64 <= 1024 * 1024 * 64,
            w == p.width as int,
            d == p.depth as int,
            width == w,
            depth == d,
            valid_size(*p),
            holds(blocks@, w, d, snow_partial(g, d, c as int)),
        decreases n - c,
    {
        let wx = c / depth;
        let wz = c % depth;
        proof {
            lemma_column_index(c as int, d, w);
            assert(wx as int == c as int / d && wz as int == c as int % d);
        }
        let ghost g0 = snow_partial(g, d, c as int);
        let ghost g1 = snow_partial(g, d, c + 1);
        let ghost b0 = blocks@;
        let blen = blocks.len();
        proof {
            assert forall|y: int| 0 <= y < 64 implies #[trigger] blocks@[world_index(wx as int, y, wz as int, d)] == g(wx as int, y, wz as int) by {
                assert(blocks@[world_index(wx as int, y, wz as int, d)] == g0(wx as int, y, wz as int));
                lemma_world_index_decode(wx as int, y, wz as int, d);
            }
            lemma_top_agrees(blocks@, g, wx as int, wz as int, d, 64);
            lemma_grid_top_bounds(g, wx as int, wz as int, 64);
        }
        let top_y = get_top_solid_y(blocks.as_slice(), wx as i32, wz as i32, width, depth);
        let ghost t = top_y as int;
        if top_y >= 48 {
            proof {
                lemma_world_index_bounds(wx as int, top_y as int, wz as int, w, d);
            }
            let idx = world_idx(wx, top_y as usize, wz, depth);
            assert(blocks@[idx as int] == g(wx as int, t, wz as int));
            let ty = blocks[idx].block_type;
            if ty == TYPE_GRASS || ty == TYPE_DIRT || ty == TYPE_STONE || ty == TYPE_SAND {
                blocks.set(idx, TerrainBlock { block_type: TYPE_SAND, color: 1 });
            }
        }
        proof {
            assert forall|x: int, y: int, z: int| 0 <= x < w && 0 <= y < 64 && 0 <= z < d implies #[trigger] blocks@[world_index(x, y, z, d)] == g1(x, y, z) by {
                lemma_world_index_decode(x, y, z, d);
                lemma_world_index_bounds(x, y, z, w, d);
                if x * d + z != c {
                    assert(x != wx || z != wz);
                    if blocks@ != b0 {
                        lemma_world_index_bounds(wx as int, t, wz as int, w, d);
                        if world_index(x, y, z, d) == world_index(wx as int, t, wz as int, d) {
                            lemma_world_index_injective(x, y, z, wx as int, t, wz as int, d);
                        }
                    }
                    assert(blocks@[world_index(x, y, z, d)] == b0[world_index(x, y, z, d)]);
                } else {
                    assert(x == wx && z == wz);
                }
            }
        }
        c = c + 1;
    }
    proof {
        assert forall|x: int, y: int, z: int| 0 <= x < w && 0 <= y < 64 && 0 <= z < d implies #[trigger] blocks@[world_index(x, y, z, d)] == with_snow(g)(x, y, z) by {
            lemma_world_index_decode(x, y, z, d);
            lemma_world_index_bounds(x, y, z, w, d);
            assert(blocks@[world_index(x, y, z, d)] == snow_partial(g, d, n as int)(x, y, z));
        }
    }
}

/// The error `generate` gives for a request of an unusable size.
pub open spec fn size_error(p: TerrainParams) -> Seq<char> {
    if p.width == 0 || p.depth == 0 || p.width % 16 != 0 || p.depth % 16 != 0 {
        "width and depth must be positive multiples of 16"@
    } else {
        "maximum world size is 1024x1024 blocks"@
    }
}

/// Checks that a request asks for a world that can be generated: width and depth positive
/// multiples of 16 of at most 1024.
pub fn check_size(params: &TerrainParams) -> (r: Result<(), String>)
    ensures
        r is Ok <==> valid_size(*params),
        r matches Err(e) ==> e@ == size_error(*params),
{
    let width = params.width;
    let depth = params.depth;
    if width == 0 || depth == 0 || width % 16 != 0 || depth % 16 != 0 {
        return Err(String::from_str("width and depth must be positive multiples of 16"));
    }
    if width > 1024 || depth > 1024 {
        return Err(String::from_str("maximum world size is 1024x1024 blocks"));
    }
    Ok(())
}

/// Generates a terrain world.
///
/// Fails, with `size_error`, unless width and depth are positive multiples of 16 of at most
/// 1024. Otherwise the world is `final_grid`: the heightmap terrain with caves, water,
/// beaches, trees, flowers and snow, and its statistics (see `generated`).
pub fn generate(params: &TerrainParams, fields: &TerrainFields) -> (r: Result<TerrainWorld, String>)
    requires
        valid_size(*params) ==> fields_fit(*params, *fields),
    ensures
        r is Ok <==> valid_size(*params),
        r matches Ok(w) ==> generated(*params, *fields, w),
        r matches Err(e) ==> e@ == size_error(*params),
{
    if let Err(e) = check_size(params) {
        return Err(e);
    }
    let width = params.width as usize;
    let depth = params.depth as usize;
    let water_amnt = clamp(params.water_amnt as i32, 1, 5);
    let water_level: i32 = match water_amnt {
        1 => 40,
        2 => 35,
        3 => 32,
        4 => 27,
        _ => -1,
    };
    let cols_x = width / 16;
    let cols_z = depth / 16;
    let (mut blocks, mask, caves_carved, min_h, max_h) = shape_pass(params, fields, water_level);
    beach_pass(params, fields, water_level, &mut blocks, &mask);
    let (trees_placed, flowers_placed) = veg_pass(params, fields, water_level, &mut blocks);
    snow_pass(params, &mut blocks, Ghost(vegetated(*params, *fields).0));
    let ghost g = final_grid(*params, *fields);
    let spawn_x = (width / 2) as i32;
    let spawn_z = (depth / 2) as i32;
    let ghost d = depth as int;
    proof {
        assert(width * depth * 64 <= 1024 * 1024 * 64) by (nonlinear_arith)
            requires width <= 1024, depth <= 1024;
        assert forall|y: int| 0 <= y < 64 implies #[trigger] blocks@[world_index(spawn_x as int, y, spawn_z as int, d)] == g(spawn_x as int, y, spawn_z as int) by {}
        lemma_top_agrees(blocks@, g, spawn_x as int, spawn_z as int, d, 64);
    }
    let top = get_top_solid_y(blocks.as_slice(), spawn_x, spawn_z, width, depth);
    let spawn_y = clamp(top + 1, 1, 62);
    let meta = TerrainMeta {
        spawn_x,
        spawn_y,
        spawn_z,
        trees_placed,
        flowers_placed,
        caves_carved,
        min_height: min_h,
        max_height: max_h,
        cols_x,
        cols_z,
    };
    Ok(TerrainWorld { width, depth, blocks, meta })
}

proof fn lemma_veg_floor(p: TerrainParams, f: TerrainFields, k: nat)
    ensures
        forall|x: int, z: int| #[trigger] veg_upto(p, f, k).0(x, 0, z) == (TerrainBlock { block_type: TYPE_STONE, color: 0 }),
    decreases k,
{
    if k == 0 {
        assert forall|x: int, z: int| #[trigger] veg_upto(p, f, k).0(x, 0, z) == (TerrainBlock { block_type: TYPE_STONE, color: 0 }) by {
            let g = shaped(p, f);
            assert(g(x, 0, z).block_type == TYPE_STONE);
            lemma_grid_top_bounds(g, x, z, 64);
        }
    } else {
        let j = (k - 1) as nat;
        lemma_veg_floor(p, f, j);
        let st = veg_upto(p, f, j);
        let wx = 4 + (j as int) / veg_span(p);
        let wz = 4 + (j as int) % veg_span(p);
        lemma_grid_top_bounds(st.0, wx, wz, 64);
    }
}

/// The bottom layer of a generated world is uncoloured stone everywhere: caves, water,
/// beaches, plants and snow never reach height 0.
pub proof fn lemma_generated_floor_is_stone(p: TerrainParams, f: TerrainFields, x: int, z: int)
    ensures
        final_grid(p, f)(x, 0, z) == (TerrainBlock { block_type: TYPE_STONE, color: 0 }),
{
    let k = ((p.width - 8) * veg_span(p)) as nat;
    lemma_veg_floor(p, f, k);
    let g = vegetated(p, f).0;
    assert(g(x, 0, z) == (TerrainBlock { block_type: TYPE_STONE, color: 0 }));
    lemma_grid_top_bounds(g, x, z, 64);
}

/// One of the Eden block types the generator places.
pub open spec fn generator_type(t: u8) -> bool {
    t == TYPE_NONE || t == TYPE_STONE || t == TYPE_DIRT || t == TYPE_SAND || t == TYPE_LEAVES
        || t == TYPE_TREE || t == TYPE_GRASS || t == TYPE_WATER || t == TYPE_FLOWER
}

proof fn lemma_veg_blocks(p: TerrainParams, f: TerrainFields, k: nat)
    ensures
        forall|x: int, y: int, z: int| #[trigger] veg_upto(p, f, k).0(x, y, z).color == 0 && generator_type(
            veg_upto(p, f, k).0(x, y, z).block_type,
        ),
    decreases k,
{
    if k == 0 {
        assert forall|x: int, y: int, z: int| #[trigger] veg_upto(p, f, k).0(x, y, z).color == 0 && generator_type(
            veg_upto(p, f, k).0(x, y, z).block_type,
        ) by {
            let h = col_height(p, f, x, z);
            assert(generator_type(base_type(h, y)));
            assert(generator_type(shaped_type(p, f, x, y, z)));
        }
    } else {
        let j = (k - 1) as nat;
        lemma_veg_blocks(p, f, j);
        let st = veg_upto(p, f, j);
        let g = st.0;
        let wx = 4 + (j as int) / veg_span(p);
        let wz = 4 + (j as int) % veg_span(p);
        assert forall|x: int, y: int, z: int| #[trigger] veg_upto(p, f, k).0(x, y, z).color == 0 && generator_type(
            veg_upto(p, f, k).0(x, y, z).block_type,
        ) by {
            assert(veg_upto(p, f, j).0(x, y, z).color == 0);
            assert(g(x, y, z).color == 0 && generator_type(g(x, y, z).block_type));
            assert(veg_upto(p, f, k) == veg_step(p, f, st, wx, wz));
        }
    }
}

/// Every block of a generated world is one of the generator's block types, and only sand
/// carries a colour (1, the white of snow caps); everything else is uncoloured.
pub proof fn lemma_generated_blocks_known(p: TerrainParams, f: TerrainFields, x: int, y: int, z: int)
    ensures
        generator_type(final_grid(p, f)(x, y, z).block_type),
        final_grid(p, f)(x, y, z).color == 0 || (final_grid(p, f)(x, y, z).color == 1
            && final_grid(p, f)(x, y, z).block_type == TYPE_SAND),
{
    lemma_veg_blocks(p, f, ((p.width - 8) * veg_span(p)) as nat);
    let g = vegetated(p, f).0;
    assert(g(x, y, z).color == 0 && generator_type(g(x, y, z).block_type));
}

/// Block indices number a `width` x 64 x `depth` world one to one: every block in the box
/// has an index below `width * depth * 64`, and different blocks have different indices.
pub proof fn lemma_world_index_one_to_one(x1: int, y1: int, z1: int, x2: int, y2: int, z2: int, width: int, depth: int)
    requires
        0 <= x1 < width,
        0 <= x2 < width,
        0 <= y1 < 64,
        0 <= y2 < 64,
        0 <= z1 < depth,
        0 <= z2 < depth,
    ensures
        0 <= world_index(x1, y1, z1, depth) < width * depth * 64,
        world_index(x1, y1, z1, depth) == world_index(x2, y2, z2, depth) <==> (x1 == x2 && y1 == y2 && z1 == z2),
{
    lemma_world_index_bounds(x1, y1, z1, width, depth);
    if world_index(x1, y1, z1, depth) == world_index(x2, y2, z2, depth) {
        lemma_world_index_injective(x1, y1, z1, x2, y2, z2, depth);
    }
}

/// Column (wx, wz) of `g` is flooded from `h` to `m`: sand at `h`, water above it up to `m`,
/// and only air or leaves above that.
pub open spec fn flooded(g: Grid, wx: int, wz: int, h: int, m: int) -> bool {
    &&& g(wx, h, wz).block_type == TYPE_SAND
    &&& forall|y: int| h < y <= m ==> #[trigger] g(wx, y, wz).block_type == TYPE_WATER
    &&& forall|y: int| m < y < 64 ==> (#[trigger] g(wx, y, wz).block_type == TYPE_NONE || g(
        wx,
        y,
        wz,
    ).block_type == TYPE_LEAVES)
}

/// A solid block with nothing solid above it below `top` is the column's top.
proof fn lemma_grid_top_at(g: Grid, wx: int, wz: int, h: int, top: int)
    requires
        0 <= h < top,
        is_solid(g(wx, h, wz).block_type),
        forall|y: int| h < y < top ==> !is_solid(#[trigger] g(wx, y, wz).block_type),
    ensures
        grid_top_below(g, wx, wz, top) == h,
    decreases top,
{
    if top - 1 > h {
        assert(!is_solid(g(wx, top - 1, wz).block_type));
        lemma_grid_top_at(g, wx, wz, h, top - 1);
    }
}

/// The top of a flooded column is its sand.
proof fn lemma_flooded_top(g: Grid, wx: int, wz: int, h: int, m: int)
    requires
        flooded(g, wx, wz, h, m),
        0 <= h <= m < 64,
    ensures
        grid_top(g, wx, wz) == h,
{
    assert forall|y: int| h < y < 64 implies !is_solid(#[trigger] g(wx, y, wz).block_type) by {
        if y <= m {
            assert(g(wx, y, wz).block_type == TYPE_WATER);
        } else {
            assert(g(wx, y, wz).block_type == TYPE_NONE || g(wx, y, wz).block_type == TYPE_LEAVES);
        }
    }
    lemma_grid_top_at(g, wx, wz, h, 64);
}

/// Vegetation keeps a flooded column flooded: nothing grows on sand, trees elsewhere only
/// put leaves on air, and flowers stay on their own column.
proof fn lemma_veg_keeps_flood(p: TerrainParams, f: TerrainFields, k: nat, wx: int, wz: int, h: int, m: int)
    requires
        flooded(veg_upto(p, f, 0).0, wx, wz, h, m),
        0 <= h <= m < 64,
    ensures
        flooded(veg_upto(p, f, k).0, wx, wz, h, m),
    decreases k,
{
    if k > 0 {
        let j = (k - 1) as nat;
        lemma_veg_keeps_flood(p, f, j, wx, wz, h, m);
        let st = veg_upto(p, f, j);
        let g = st.0;
        let cx = 4 + (j as int) / veg_span(p);
        let cz = 4 + (j as int) % veg_span(p);
        assert(veg_upto(p, f, k) == veg_step(p, f, st, cx, cz));
        lemma_flooded_top(g, wx, wz, h, m);
        if plantable(p, g, cx, cz) {
            assert(cx != wx || cz != wz);
            let h2 = plant_hash(p, g, cx, cz);
            if h2 % 1000 < 6 {
                let g2 = with_tree(p, f, g, cx, cz);
                assert(g2(wx, h, wz) == g(wx, h, wz));
                assert forall|y: int| h < y <= m implies #[trigger] g2(wx, y, wz).block_type == TYPE_WATER by {
                    assert(g(wx, y, wz).block_type == TYPE_WATER);
                }
                assert forall|y: int| m < y < 64 implies (#[trigger] g2(wx, y, wz).block_type == TYPE_NONE
                    || g2(wx, y, wz).block_type == TYPE_LEAVES) by {
                    assert(g(wx, y, wz).block_type == TYPE_NONE || g(wx, y, wz).block_type == TYPE_LEAVES);
                }
            } else if h2 % 1000 < 12 {
                let g2 = with_flower(g, cx, cz);
                assert(g2(wx, h, wz) == g(wx, h, wz));
                assert forall|y: int| h < y <= m implies #[trigger] g2(wx, y, wz).block_type == TYPE_WATER by {
                    assert(g(wx, y, wz).block_type == TYPE_WATER);
                }
                assert forall|y: int| m < y < 64 implies (#[trigger] g2(wx, y, wz).block_type == TYPE_NONE
                    || g2(wx, y, wz).block_type == TYPE_LEAVES) by {
                    assert(g(wx, y, wz).block_type == TYPE_NONE || g(wx, y, wz).block_type == TYPE_LEAVES);
                }
            }
        }
    }
}

/// In a world with water (water amount 1 to 4, water level 40, 35, 32 or 27), every column
/// whose height (its raw height limited to 1..=62) lies below the water level is flooded in
/// the generated world: sand at that height and water in every block above it up to the
/// water level, one block more in a pond, and only air or leaves above the water.
pub proof fn lemma_low_columns_flooded(p: TerrainParams, f: TerrainFields, r: TerrainWorld, wx: int, wz: int)
    requires
        valid_size(p),
        fields_fit(p, f),
        generated(p, f, r),
        1 <= p.water_amnt <= 4,
        0 <= wx < p.width,
        0 <= wz < p.depth,
        ({
            let raw = f.raw_heights@[wx * (p.depth as int) + wz] as int;
            let h = if raw < 1 { 1 } else if raw > 62 { 62 } else { raw };
            let lv = if p.water_amnt == 1 { 40int } else if p.water_amnt == 2 { 35int } else if p.water_amnt == 3 { 32int } else { 27int };
            h < lv
        }),
    ensures
        ({
            let raw = f.raw_heights@[wx * (p.depth as int) + wz] as int;
            let h = if raw < 1 { 1 } else if raw > 62 { 62 } else { raw };
            let lv = if p.water_amnt == 1 { 40int } else if p.water_amnt == 2 { 35int } else if p.water_amnt == 3 { 32int } else { 27int };
            &&& r.blocks@[world_index(wx, h, wz, p.depth as int)].block_type == TYPE_SAND
            &&& forall|y: int| h < y <= lv ==> #[trigger] r.blocks@[world_index(wx, y, wz, p.depth as int)].block_type == TYPE_WATER
            &&& f.pond@[wx * (p.depth as int) + wz] ==> r.blocks@[world_index(wx, lv + 1, wz, p.depth as int)].block_type == TYPE_WATER
            &&& forall|y: int| lv + (if f.pond@[wx * (p.depth as int) + wz] { 1int } else { 0int }) < y < 64
                ==> (#[trigger] r.blocks@[world_index(wx, y, wz, p.depth as int)].block_type == TYPE_NONE
                || r.blocks@[world_index(wx, y, wz, p.depth as int)].block_type == TYPE_LEAVES)
        }),
{
    let raw = f.raw_heights@[wx * (p.depth as int) + wz] as int;
    let h = if raw < 1 { 1 } else if raw > 62 { 62 } else { raw };
    let lv = if p.water_amnt == 1 { 40int } else if p.water_amnt == 2 { 35int } else if p.water_amnt == 3 { 32int } else { 27int };
    let a = p.water_amnt;
    assert((a as i32) as int == a as int) by (bit_vector)
        requires a <= 4u32;
    assert(water_level(p) == lv);
    assert(col_height(p, f, wx, wz) == h);
    assert(wet(p, f, wx, wz));
    let lw = local_water(p, f, wx, wz);
    let m = if lw < 62 { lw } else { 62 };
    let sg = shaped(p, f);
    assert forall|y: int| h < y <= m implies #[trigger] sg(wx, y, wz).block_type == TYPE_WATER by {}
    assert forall|y: int| m < y < 64 implies (#[trigger] sg(wx, y, wz).block_type == TYPE_NONE
        || sg(wx, y, wz).block_type == TYPE_LEAVES) by {
        assert(!carved(p, f, wx, y, wz));
    }
    assert(flooded(sg, wx, wz, h, m));
    lemma_flooded_top(sg, wx, wz, h, m);
    assert(!beach(p, f, wx, wz));
    let bg = with_beaches(p, f);
    assert forall|y: int| h < y <= m implies #[trigger] bg(wx, y, wz).block_type == TYPE_WATER by {
        assert(sg(wx, y, wz).block_type == TYPE_WATER);
    }
    assert forall|y: int| m < y < 64 implies (#[trigger] bg(wx, y, wz).block_type == TYPE_NONE
        || bg(wx, y, wz).block_type == TYPE_LEAVES) by {
        assert(sg(wx, y, wz).block_type == TYPE_NONE || sg(wx, y, wz).block_type == TYPE_LEAVES);
    }
    assert(bg(wx, h, wz) == sg(wx, h, wz));
    assert(flooded(veg_upto(p, f, 0).0, wx, wz, h, m));
    let k = ((p.width - 8) * veg_span(p)) as nat;
    lemma_veg_keeps_flood(p, f, k, wx, wz, h, m);
    let v = vegetated(p, f).0;
    lemma_flooded_top(v, wx, wz, h, m);
    let g = final_grid(p, f);
    assert(!snowy(v, wx, wz));
    assert(r.blocks@[world_index(wx, h, wz, p.depth as int)] == g(wx, h, wz));
    assert(g(wx, h, wz) == v(wx, h, wz));
    assert forall|y: int| h < y <= lv implies #[trigger] r.blocks@[world_index(wx, y, wz, p.depth as int)].block_type == TYPE_WATER by {
        assert(r.blocks@[world_index(wx, y, wz, p.depth as int)] == g(wx, y, wz));
        assert(g(wx, y, wz) == v(wx, y, wz));
        assert(v(wx, y, wz).block_type == TYPE_WATER);
    }
    if f.pond@[wx * (p.depth as int) + wz] {
        assert(r.blocks@[world_index(wx, lv + 1, wz, p.depth as int)] == g(wx, lv + 1, wz));
        assert(g(wx, lv + 1, wz) == v(wx, lv + 1, wz));
        assert(v(wx, lv + 1, wz).block_type == TYPE_WATER);
    }
    assert forall|y: int| lv + (if f.pond@[wx * (p.depth as int) + wz] { 1int } else { 0int }) < y < 64
        implies (#[trigger] r.blocks@[world_index(wx, y, wz, p.depth as int)].block_type == TYPE_NONE
        || r.blocks@[world_index(wx, y, wz, p.depth as int)].block_type == TYPE_LEAVES) by {
        assert(r.blocks@[world_index(wx, y, wz, p.depth as int)] == g(wx, y, wz));
        assert(g(wx, y, wz) == v(wx, y, wz));
        assert(v(wx, y, wz).block_type == TYPE_NONE || v(wx, y, wz).block_type == TYPE_LEAVES);
    }
}

/// Beaches, plants and snow never put water where the shaped terrain had none.
proof fn lemma_veg_adds_no_water(p: TerrainParams, f: TerrainFields, k: nat)
    ensures
        forall|x: int, y: int, z: int| #[trigger] veg_upto(p, f, k).0(x, y, z).block_type == TYPE_WATER
            ==> shaped(p, f)(x, y, z).block_type == TYPE_WATER,
    decreases k,
{
    if k > 0 {
        let j = (k - 1) as nat;
        lemma_veg_adds_no_water(p, f, j);
        let st = veg_upto(p, f, j);
        let g = st.0;
        let cx = 4 + (j as int) / veg_span(p);
        let cz = 4 + (j as int) % veg_span(p);
        assert(veg_upto(p, f, k) == veg_step(p, f, st, cx, cz));
        assert forall|x: int, y: int, z: int| #[trigger] veg_upto(p, f, k).0(x, y, z).block_type == TYPE_WATER
            implies shaped(p, f)(x, y, z).block_type == TYPE_WATER by {
            assert(g(x, y, z).block_type == TYPE_WATER ==> shaped(p, f)(x, y, z).block_type == TYPE_WATER);
        }
    }
}

/// Water in a generated world comes only from flooding: a world with water amount 5 (up to
/// `i32::MAX`) holds no water block, and every water block stands in a column that is below
/// the water level, a pond or a river (by the pond and river fields of that column).
pub proof fn lemma_water_only_where_flooded(p: TerrainParams, f: TerrainFields, r: TerrainWorld, wx: int, y: int, wz: int)
    requires
        generated(p, f, r),
        0 <= wx < p.width,
        0 <= y < 64,
        0 <= wz < p.depth,
        r.blocks@[world_index(wx, y, wz, p.depth as int)].block_type == TYPE_WATER,
    ensures
        !(5 <= p.water_amnt <= 0x7fff_ffff),
        water_level(p) >= 0,
        f.pond@[wx * (p.depth as int) + wz] || f.river@[wx * (p.depth as int) + wz] || col_height(p, f, wx, wz)
            < water_level(p),
{
    let k = ((p.width - 8) * veg_span(p)) as nat;
    lemma_veg_adds_no_water(p, f, k);
    let v = vegetated(p, f).0;
    let g = final_grid(p, f);
    assert(r.blocks@[world_index(wx, y, wz, p.depth as int)] == g(wx, y, wz));
    assert(v(wx, y, wz).block_type == TYPE_WATER);
    assert(shaped(p, f)(wx, y, wz).block_type == TYPE_WATER);
    assert(wet(p, f, wx, wz));
    let a = p.water_amnt;
    assert(5 <= a <= 0x7fff_ffff ==> (a as i32) as int == a as int) by (bit_vector);
}

/// Nothing solid stands above a column's top.
proof fn lemma_above_top_not_solid(g: Grid, x: int, z: int, top: int, y: int)
    requires
        grid_top_below(g, x, z, top) < y < top,
    ensures
        !is_solid(g(x, y, z).block_type),
    decreases top,
{
    if top > 0 && !is_solid(g(x, top - 1, z).block_type) && y < top - 1 {
        lemma_above_top_not_solid(g, x, z, top - 1, y);
    }
}

/// Every block that is solid once the beaches are made is unchanged in `g`.
pub open spec fn keeps_solid(p: TerrainParams, f: TerrainFields, g: Grid) -> bool {
    forall|x: int, y: int, z: int|
        0 <= y < 64 && is_solid(with_beaches(p, f)(x, y, z).block_type) ==> #[trigger] g(x, y, z)
            == with_beaches(p, f)(x, y, z)
}

/// Plants only grow on blocks that are not solid: trunks and flowers above a column's top,
/// leaves on air.
proof fn lemma_veg_keeps_solid(p: TerrainParams, f: TerrainFields, k: nat)
    ensures
        keeps_solid(p, f, veg_upto(p, f, k).0),
    decreases k,
{
    if k > 0 {
        let j = (k - 1) as nat;
        lemma_veg_keeps_solid(p, f, j);
        let st = veg_upto(p, f, j);
        let g = st.0;
        let cx = 4 + (j as int) / veg_span(p);
        let cz = 4 + (j as int) % veg_span(p);
        assert(veg_upto(p, f, k) == veg_step(p, f, st, cx, cz));
        let g2 = veg_upto(p, f, k).0;
        let bg = with_beaches(p, f);
        let t = grid_top(g, cx, cz);
        assert forall|x: int, y: int, z: int|
            0 <= y < 64 && is_solid(bg(x, y, z).block_type) implies #[trigger] g2(x, y, z) == bg(x, y, z) by {
            assert(g(x, y, z) == bg(x, y, z));
            if x == cx && z == cz && t < y {
                lemma_above_top_not_solid(g, cx, cz, 64, y);
            }
        }
    }
}

/// Below its surface a generated column is stone up to three blocks below its height and
/// dirt above that (uncoloured), wherever no cave is carved: the height is the raw height
/// limited to 1..=62, and a cave is carved at heights 1 up to four below the height (at least
/// 1) where the cave field is set.
pub proof fn lemma_generated_layers(p: TerrainParams, f: TerrainFields, r: TerrainWorld, wx: int, y: int, wz: int)
    requires
        generated(p, f, r),
        0 <= wx < p.width,
        0 <= wz < p.depth,
        ({
            let raw = f.raw_heights@[wx * (p.depth as int) + wz] as int;
            let h = if raw < 1 { 1 } else if raw > 62 { 62 } else { raw };
            &&& 0 <= y < h
            &&& !(f.cave@[world_index(wx, y, wz, p.depth as int)] && 1 <= y <= (if h - 4 > 1 { h - 4 } else { 1 }))
        }),
    ensures
        ({
            let raw = f.raw_heights@[wx * (p.depth as int) + wz] as int;
            let h = if raw < 1 { 1 } else if raw > 62 { 62 } else { raw };
            r.blocks@[world_index(wx, y, wz, p.depth as int)] == (TerrainBlock {
                block_type: if y <= (if h - 3 > 0 { h - 3 } else { 0 }) { TYPE_STONE } else { TYPE_DIRT },
                color: 0,
            })
        }),
{
    let raw = f.raw_heights@[wx * (p.depth as int) + wz] as int;
    let h = if raw < 1 { 1 } else if raw > 62 { 62 } else { raw };
    assert(col_height(p, f, wx, wz) == h);
    let sg = shaped(p, f);
    assert(!carved(p, f, wx, y, wz));
    assert(sg(wx, y, wz).block_type == base_type(h, y));
    let k = ((p.width - 8) * veg_span(p)) as nat;
    lemma_veg_keeps_solid(p, f, k);
    let v = vegetated(p, f).0;
    let bg = with_beaches(p, f);
    assert(bg(wx, y, wz) == sg(wx, y, wz));
    assert(0 <= y < 64 && is_solid(bg(wx, y, wz).block_type));
    assert(v(wx, y, wz) == sg(wx, y, wz));
    let g = final_grid(p, f);
    assert(r.blocks@[world_index(wx, y, wz, p.depth as int)] == g(wx, y, wz));
    let t = grid_top(v, wx, wz);
    if snowy(v, wx, wz) && y == t {
        assert(h >= 2);
        assert(!carved(p, f, wx, h, wz));
        assert(is_solid(sg(wx, h, wz).block_type));
        assert(is_solid(bg(wx, h, wz).block_type));
        assert(is_solid(v(wx, h, wz).block_type));
        lemma_above_top_not_solid(v, wx, wz, 64, h);
    }
    assert(g(wx, y, wz) == v(wx, y, wz));
}

/// A column of a generated world that is not flooded (no water in the world, or a height at
/// or above the water level, and neither pond nor river) keeps its surface: the block at its
/// height is grass, or sand where a beach or a snow cap turned it, unless a cave is carved
/// there (possible only at height 1).
pub proof fn lemma_dry_columns_keep_surface(p: TerrainParams, f: TerrainFields, r: TerrainWorld, wx: int, wz: int)
    requires
        generated(p, f, r),
        0 <= wx < p.width,
        0 <= wz < p.depth,
        !f.pond@[wx * (p.depth as int) + wz],
        !f.river@[wx * (p.depth as int) + wz],
        ({
            let raw = f.raw_heights@[wx * (p.depth as int) + wz] as int;
            let h = if raw < 1 { 1 } else if raw > 62 { 62 } else { raw };
            let lv = if p.water_amnt == 1 { 40int } else if p.water_amnt == 2 { 35int } else if p.water_amnt == 3 { 32int } else { 27int };
            &&& 5 <= p.water_amnt <= 0x7fff_ffff || (1 <= p.water_amnt <= 4 && h >= lv)
            &&& !(h == 1 && f.cave@[world_index(wx, 1, wz, p.depth as int)])
        }),
    ensures
        ({
            let raw = f.raw_heights@[wx * (p.depth as int) + wz] as int;
            let h = if raw < 1 { 1 } else if raw > 62 { 62 } else { raw };
            let b = r.blocks@[world_index(wx, h, wz, p.depth as int)].block_type;
            b == TYPE_GRASS || b == TYPE_SAND
        }),
{
    let raw = f.raw_heights@[wx * (p.depth as int) + wz] as int;
    let h = if raw < 1 { 1 } else if raw > 62 { 62 } else { raw };
    let a = p.water_amnt;
    assert(a <= 0x7fff_ffff ==> (a as i32) as int == a as int) by (bit_vector);
    assert(col_height(p, f, wx, wz) == h);
    assert(!wet(p, f, wx, wz));
    assert(!carved(p, f, wx, h, wz));
    let sg = shaped(p, f);
    assert(sg(wx, h, wz).block_type == TYPE_GRASS);
    let bg = with_beaches(p, f);
    assert(bg(wx, h, wz).block_type == TYPE_GRASS || bg(wx, h, wz).block_type == TYPE_SAND);
    let k = ((p.width - 8) * veg_span(p)) as nat;
    lemma_veg_keeps_solid(p, f, k);
    let v = vegetated(p, f).0;
    assert(v(wx, h, wz) == bg(wx, h, wz));
    let g = final_grid(p, f);
    assert(r.blocks@[world_index(wx, h, wz, p.depth as int)] == g(wx, h, wz));
}

} // verus!
