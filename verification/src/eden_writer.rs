//! Writer for Eden `.eden` files from a generated terrain world: a 192-byte header, one
//! 32768-byte column per 16x16 block column (four sub-chunks of 4096 block types then 4096
//! colours, voxels in Eden order), then a directory of 16-byte entries.

use vstd::prelude::*;
use vstd::set_lib::{set_int_range, lemma_int_range};
use crate::terrain::{TerrainWorld, TerrainParams, TerrainBlock, world_index, world_idx};
use crate::eden::{ChunkColumn, EdenHeader, header_matches, columns_match, column_matches, eden_index, lemma_voxel_layouts_are_bijections, le32, le64, header_dir_offset, dir_start, dir_map, dir_map_upto, dir_count, dir_entry, entry_used, column_fits, column_blocks, column_paints, parse_error, header_name, header_name_bytes, utf8_lossy, cstr_len};

verus! {

/// 2 to the power `k`.
pub open spec fn two_pow(k: nat) -> nat
    decreases k,
{
    if k == 0 {
        1
    } else {
        2 * two_pow((k - 1) as nat)
    }
}

/// The exponent of the highest set bit of `a` (0 for `a < 2`).
pub open spec fn log2_floor(a: nat) -> nat
    decreases a,
{
    if a < 2 {
        0
    } else {
        1 + log2_floor(a / 2)
    }
}

/// The 24-bit significand (with its leading one) of the `f32` nearest to the positive
/// integer `a`, ties to even; `two_pow(24)` when rounding carries into the next exponent.
pub open spec fn f32_significand(a: nat) -> nat {
    let e = log2_floor(a);
    if e <= 23 {
        a * two_pow((23 - e) as nat)
    } else {
        let s = (e - 23) as nat;
        let q = a / two_pow(s);
        let r = a % two_pow(s);
        let h = two_pow((s - 1) as nat);
        if r > h || (r == h && q % 2 == 1) {
            q + 1
        } else {
            q
        }
    }
}

/// The IEEE-754 single-precision bit pattern of the `f32` nearest to `v` (ties to even), as
/// Rust's `v as f32` gives it; zero is `+0.0`.
pub open spec fn f32_bits_spec(v: int) -> u32 {
    let a: nat = if v < 0 {
        (-v) as nat
    } else {
        v as nat
    };
    if a == 0 {
        0
    } else {
        let sign: int = if v < 0 {
            0x8000_0000
        } else {
            0
        };
        (sign + (log2_floor(a) + 127) * 0x80_0000 + f32_significand(a) - 0x80_0000) as u32
    }
}

proof fn lemma_two_pow_pos(k: nat)
    ensures
        two_pow(k) >= 1,
    decreases k,
{
    if k > 0 {
        lemma_two_pow_pos((k - 1) as nat);
    }
}

proof fn lemma_two_pow_values()
    ensures
        two_pow(23) == 0x80_0000,
        two_pow(24) == 0x100_0000,
        two_pow(32) == 0x1_0000_0000,
        two_pow(40) == 1099511627776,
{
    reveal_with_fuel(two_pow, 41);
}

proof fn lemma_two_pow_add(a: nat, b: nat)
    ensures
        two_pow(a + b) == two_pow(a) * two_pow(b),
    decreases b,
{
    if b == 0 {
        assert(two_pow(0) == 1);
        assert(a + b == a);
    } else {
        lemma_two_pow_add(a, (b - 1) as nat);
        assert(a + (b - 1) as nat == (a + b - 1) as nat);
        assert(two_pow(a + b) == 2 * two_pow((a + b - 1) as nat));
        assert(two_pow(a) * two_pow(b) == two_pow(a) * (2 * two_pow((b - 1) as nat)));
        assert(two_pow(a) * (2 * two_pow((b - 1) as nat)) == 2 * (two_pow(a) * two_pow((b - 1) as nat))) by (nonlinear_arith);
    }
}

proof fn lemma_log2_floor_bounds(a: nat)
    requires
        a >= 1,
    ensures
        two_pow(log2_floor(a)) <= a < two_pow(log2_floor(a) + 1),
    decreases a,
{
    if a >= 2 {
        let l = log2_floor(a / 2);
        lemma_log2_floor_bounds(a / 2);
        assert(log2_floor(a) == l + 1);
        assert(two_pow(l + 1) == 2 * two_pow(l));
        assert(two_pow(l + 2) == 2 * two_pow(l + 1));
    } else {
        assert(log2_floor(a) == 0);
        assert(two_pow(0) == 1);
        assert(two_pow(1) == 2 * two_pow(0));
    }
}

fn pow2_u64(k: u64) -> (p: u64)
    requires
        k <= 40,
    ensures
        p == two_pow(k as nat),
{
    let mut p: u64 = 1;
    let mut i: u64 = 0;
    while i < k
        invariant
            i <= k <= 40,
            p == two_pow(i as nat),
        decreases k - i,
    {
        proof {
            lemma_two_pow_add(i as nat, (40 - i) as nat);
            lemma_two_pow_pos((40 - i) as nat);
            lemma_two_pow_values();
            assert(two_pow(i as nat) <= two_pow(40)) by (nonlinear_arith)
                requires
                    two_pow(40) == two_pow(i as nat) * two_pow((40 - i) as nat),
                    two_pow((40 - i) as nat) >= 1;
        }
        p = p * 2;
        i = i + 1;
    }
    p
}

/// The bit pattern of `v as f32`.
pub fn f32_bits_of_i32(v: i32) -> (b: u32)
    ensures
        b == f32_bits_spec(v as int),
{
    if v == 0 {
        return 0;
    }
    let neg = v < 0;
    let a: u64 = if neg {
        (-(v as i64)) as u64
    } else {
        v as u64
    };
    let ghost an: nat = a as nat;
    assert(two_pow(0) == 1);
    let mut e: u64 = 0;
    let mut t: u64 = a;
    while t >= 2
        invariant
            1 <= t <= a,
            a <= 0x8000_0000,
            e <= 32,
            log2_floor(an) == e + log2_floor(t as nat),
            t * two_pow(e as nat) <= a,
        decreases t,
    {
        proof {
            lemma_two_pow_pos(e as nat);
            assert((t / 2) * two_pow((e + 1) as nat) <= t * two_pow(e as nat)) by (nonlinear_arith)
                requires
                    two_pow((e + 1) as nat) == 2 * two_pow(e as nat),
                    t >= 2;
            assert(e < 32) by {
                if e >= 32 {
                    lemma_two_pow_add(32, (e - 32) as nat);
                    lemma_two_pow_pos((e - 32) as nat);
                    lemma_two_pow_values();
                    assert(t * two_pow(e as nat) >= two_pow(32)) by (nonlinear_arith)
                        requires
                            two_pow(e as nat) == two_pow(32) * two_pow((e - 32) as nat),
                            two_pow((e - 32) as nat) >= 1,
                            t >= 1;
                }
            }
        }
        t = t / 2;
        e = e + 1;
    }
    proof {
        lemma_log2_floor_bounds(an);
        if e >= 32 {
            lemma_two_pow_add(32, (e - 32) as nat);
            lemma_two_pow_pos((e - 32) as nat);
            lemma_two_pow_values();
            assert(two_pow(e as nat) >= two_pow(32)) by (nonlinear_arith)
                requires
                    two_pow(e as nat) == two_pow(32) * two_pow((e - 32) as nat),
                    two_pow((e - 32) as nat) >= 1;
        }
    }
    assert(e == log2_floor(an));
    assert(e <= 31);
    let m: u64 = if e <= 23 {
        let p = pow2_u64(23 - e);
        proof {
            lemma_two_pow_add(e as nat, (23 - e) as nat);
            lemma_two_pow_values();
            lemma_two_pow_values();
            assert(a * p < 0x100_0000 && a * p >= 0x80_0000) by (nonlinear_arith)
                requires
                    two_pow(e as nat) <= a < 2 * two_pow(e as nat),
                    two_pow(23) == two_pow(e as nat) * p,
                    two_pow(23) == 0x80_0000;
        }
        a * p
    } else {
        let s = e - 23;
        let p = pow2_u64(s);
        proof {
            lemma_two_pow_pos(s as nat);
        }
        let q = a / p;
        let r = a % p;
        let h = pow2_u64(s - 1);
        proof {
            lemma_two_pow_add(23, s as nat);
            lemma_two_pow_values();
            lemma_two_pow_values();
            assert(q < 0x100_0000 && q >= 0x80_0000) by (nonlinear_arith)
                requires
                    two_pow(e as nat) <= a < 2 * two_pow(e as nat),
                    two_pow(e as nat) == two_pow(23) * p,
                    two_pow(23) == 0x80_0000,
                    q == a / p,
                    p >= 1;
        }
        if r > h || (r == h && q % 2 == 1) {
            q + 1
        } else {
            q
        }
    };
    assert(m == f32_significand(an));
    let sign: u64 = if neg {
        0x8000_0000
    } else {
        0
    };
    (sign + (e + 127) * 0x80_0000 + m - 0x80_0000) as u32
}

/// The little-endian bytes of `v`.
pub open spec fn le32_bytes(v: u32) -> Seq<u8> {
    seq![v as u8, (v >> 8u32) as u8, (v >> 16u32) as u8, (v >> 24u32) as u8]
}

/// The little-endian bytes of `v`.
pub open spec fn le64_bytes(v: u64) -> Seq<u8> {
    le32_bytes(v as u32) + le32_bytes((v >> 32u64) as u32)
}

/// `n` zero bytes.
pub open spec fn zero_bytes(n: nat) -> Seq<u8> {
    Seq::new(n, |i: int| 0u8)
}

/// The world name written into every generated file.
pub open spec fn terrain_gen_name() -> Seq<u8> {
    seq![84u8, 101, 114, 114, 97, 105, 110, 71, 101, 110]
}

/// The 192-byte header: seed, spawn position (also the home position) as `f32` bits, zero
/// yaw, directory offset, the name "TerrainGen", file version 4, and sky colour 6 in all 16
/// sky colour slots; every other byte zero.
#[verifier::opaque]
pub open spec fn header_bytes(seed: i32, sx: u32, sy: u32, sz: u32, dir: u64) -> Seq<u8> {
    le32_bytes(seed as u32) + le32_bytes(sx) + le32_bytes(sy) + le32_bytes(sz) + le32_bytes(sx)
        + le32_bytes(sy) + le32_bytes(sz) + zero_bytes(4) + le64_bytes(dir) + terrain_gen_name()
        + zero_bytes(40) + le32_bytes(4) + zero_bytes(36) + Seq::new(16, |i: int| 6u8)
        + zero_bytes(46)
}

/// Number of columns the writer emits.
pub open spec fn num_columns(w: TerrainWorld) -> int {
    w.meta.cols_x * w.meta.cols_z
}

/// The block of sub-chunk `cy` of column `k` at Eden voxel index `p`. Columns are numbered
/// z-outer, x-inner: column `k` is (k % cols_x, k / cols_x).
pub open spec fn column_voxel(w: TerrainWorld, k: int, cy: int, p: int) -> TerrainBlock {
    let cx = k % (w.meta.cols_x as int);
    let cz = k / (w.meta.cols_x as int);
    w.blocks@[world_index(cx * 16 + p / 256, cy * 16 + p % 16, cz * 16 + (p / 16) % 16, w.depth as int)]
}

/// Byte `i` of the column data (all columns one after the other).
pub open spec fn column_byte(w: TerrainWorld, i: int) -> u8 {
    let k = i / 32768;
    let o = i % 32768;
    let cy = o / 8192;
    let p = o % 8192;
    if p < 4096 {
        column_voxel(w, k, cy, p).block_type
    } else {
        column_voxel(w, k, cy, p - 4096).color
    }
}

/// The directory entry of column `j`: (cx, cz) as `i32` and the column's file offset.
pub open spec fn dir_entry_bytes(w: TerrainWorld, j: int) -> Seq<u8> {
    let cx = j % (w.meta.cols_x as int);
    let cz = j / (w.meta.cols_x as int);
    le32_bytes((cx as i32) as u32) + le32_bytes((cz as i32) as u32) + le64_bytes(
        (192 + j * 32768) as u64,
    )
}

/// The whole file the writer produces for `w` and `seed`.
#[verifier::opaque]
pub open spec fn eden_file(w: TerrainWorld, seed: u32) -> Seq<u8> {
    let n = num_columns(w);
    let dir = 192 + n * 32768;
    header_bytes(
        seed as i32,
        f32_bits_spec(w.meta.spawn_x as int),
        f32_bits_spec(w.meta.spawn_y as int),
        f32_bits_spec(w.meta.spawn_z as int),
        dir as u64,
    ) + Seq::new((n * 32768) as nat, |i: int| column_byte(w, i)) + Seq::new(
        (n * 16) as nat,
        |i: int| dir_entry_bytes(w, i / 16)[i % 16],
    )
}

/// The writer can serialise `w`: the file size fits in memory and every block of every
/// column it writes lies inside `w.blocks`.
pub open spec fn writable(w: TerrainWorld) -> bool {
    let n = num_columns(w);
    &&& 192 + n * 32784 <= usize::MAX
    &&& n > 0 ==> world_index(
        w.meta.cols_x * 16 - 1,
        63,
        w.meta.cols_z * 16 - 1,
        w.depth as int,
    ) < w.blocks@.len()
}

fn push_le32(buf: &mut Vec<u8>, v: u32)
    ensures
        final(buf)@ == old(buf)@ + le32_bytes(v),
{
    buf.push(v as u8);
    buf.push((v >> 8u32) as u8);
    buf.push((v >> 16u32) as u8);
    buf.push((v >> 24u32) as u8);
    assert(final(buf)@ =~= old(buf)@ + le32_bytes(v));
}

fn push_le64(buf: &mut Vec<u8>, v: u64)
    ensures
        final(buf)@ == old(buf)@ + le64_bytes(v),
{
    push_le32(buf, v as u32);
    push_le32(buf, (v >> 32u64) as u32);
    assert(final(buf)@ =~= old(buf)@ + le64_bytes(v));
}

fn push_fill(buf: &mut Vec<u8>, n: usize, b: u8)
    ensures
        final(buf)@ == old(buf)@ + Seq::new(n as nat, |i: int| b),
{
    let mut i: usize = 0;
    while i < n
        invariant
            i <= n,
            buf@ == old(buf)@ + Seq::new(i as nat, |j: int| b),
        decreases n - i,
    {
        buf.push(b);
        i = i + 1;
        assert(buf@ =~= old(buf)@ + Seq::new(i as nat, |j: int| b));
    }
}

fn push_header(buf: &mut Vec<u8>, seed: i32, sx: u32, sy: u32, sz: u32, dir: u64)
    ensures
        final(buf)@ == old(buf)@ + header_bytes(seed, sx, sy, sz, dir),
{
    push_le32(buf, seed as u32);
    push_le32(buf, sx);
    push_le32(buf, sy);
    push_le32(buf, sz);
    push_le32(buf, sx);
    push_le32(buf, sy);
    push_le32(buf, sz);
    push_fill(buf, 4, 0);
    push_le64(buf, dir);
    let ghost before_name = buf@;
    buf.push(84u8);
    buf.push(101u8);
    buf.push(114u8);
    buf.push(114u8);
    buf.push(97u8);
    buf.push(105u8);
    buf.push(110u8);
    buf.push(71u8);
    buf.push(101u8);
    buf.push(110u8);
    assert(buf@ =~= before_name + terrain_gen_name());
    push_fill(buf, 40, 0);
    push_le32(buf, 4);
    push_fill(buf, 36, 0);
    push_fill(buf, 16, 6);
    push_fill(buf, 46, 0);
    reveal(header_bytes);
    assert(final(buf)@ =~= old(buf)@ + header_bytes(seed, sx, sy, sz, dir));
}

proof fn lemma_index_monotone(wx: int, wy: int, wz: int, mx: int, mz: int, depth: int)
    requires
        0 <= wx <= mx,
        0 <= wy <= 63,
        0 <= wz <= mz,
        0 <= depth,
    ensures
        0 <= world_index(wx, wy, wz, depth) <= world_index(mx, 63, mz, depth),
        wx * depth * 64 + wz * 64 + wy == world_index(wx, wy, wz, depth),
{
    assert(0 <= wx * depth * 64 <= mx * depth * 64) by (nonlinear_arith)
        requires
            0 <= wx <= mx,
            0 <= depth;
}

/// Where voxel `p` of sub-chunk `cy` of column `k` lies in the world.
proof fn lemma_column_cell(w: TerrainWorld, k: int, cy: int, p: int)
    requires
        writable(w),
        0 <= k < num_columns(w),
        0 <= cy < 4,
        0 <= p < 4096,
    ensures
        ({
            let cx = k % (w.meta.cols_x as int);
            let cz = k / (w.meta.cols_x as int);
            &&& 0 <= cx < w.meta.cols_x
            &&& 0 <= cz < w.meta.cols_z
            &&& cx * 16 + 15 <= usize::MAX
            &&& cz * 16 + 15 <= usize::MAX
            &&& 0 <= world_index(cx * 16 + p / 256, cy * 16 + p % 16, cz * 16 + (p / 16) % 16, w.depth as int)
                < w.blocks@.len()
        }),
{
    let cols_x = w.meta.cols_x as int;
    let cols_z = w.meta.cols_z as int;
    assert(cols_x > 0) by {
        if cols_x == 0 {
            assert(num_columns(w) == 0);
        }
    }
    let cx = k % cols_x;
    let cz = k / cols_x;
    assert(cols_x <= cols_x * cols_z && cols_z <= cols_x * cols_z) by (nonlinear_arith)
        requires
            0 <= k < cols_x * cols_z,
            cols_x >= 0,
            cols_z >= 0;
    assert(0 <= cz < cols_z) by (nonlinear_arith)
        requires
            0 <= k < cols_x * cols_z,
            cols_x > 0,
            cz == k / cols_x;
    assert(0 <= p / 256 < 16 && 0 <= p % 16 < 16 && 0 <= (p / 16) % 16 < 16) by (nonlinear_arith)
        requires
            0 <= p < 4096;
    lemma_index_monotone(
        cx * 16 + p / 256,
        cy * 16 + p % 16,
        cz * 16 + (p / 16) % 16,
        cols_x * 16 - 1,
        cols_z * 16 - 1,
        w.depth as int,
    );
}

/// The column data byte at `k * 32768 + cy * 8192 + h * 4096 + p`.
proof fn lemma_column_byte_at(w: TerrainWorld, k: int, cy: int, h: int, p: int)
    requires
        0 <= k,
        0 <= cy < 4,
        0 <= h < 2,
        0 <= p < 4096,
    ensures
        column_byte(w, k * 32768 + cy * 8192 + h * 4096 + p) == if h == 0 {
            column_voxel(w, k, cy, p).block_type
        } else {
            column_voxel(w, k, cy, p).color
        },
{
    let i = k * 32768 + cy * 8192 + h * 4096 + p;
    assert(i / 32768 == k && i % 32768 == cy * 8192 + h * 4096 + p) by (nonlinear_arith)
        requires
            i == k * 32768 + cy * 8192 + h * 4096 + p,
            0 <= k,
            0 <= cy < 4,
            0 <= h < 2,
            0 <= p < 4096;
    let o = cy * 8192 + h * 4096 + p;
    assert(o / 8192 == cy && o % 8192 == h * 4096 + p) by (nonlinear_arith)
        requires
            o == cy * 8192 + h * 4096 + p,
            0 <= cy < 4,
            0 <= h < 2,
            0 <= p < 4096;
}

/// Byte `p` of the block types (`h == 0`) or colours (`h == 1`) of sub-chunk `cy` of
/// column `k`.
pub open spec fn sub_chunk_byte(w: TerrainWorld, k: int, cy: int, h: int, p: int) -> u8 {
    if h == 0 {
        column_voxel(w, k, cy, p).block_type
    } else {
        column_voxel(w, k, cy, p).color
    }
}

/// Appends the 4096 block types (`h == 0`) or colours (`h == 1`) of sub-chunk `cy` of
/// column `k`, in Eden voxel order.
fn push_sub_chunk(buf: &mut Vec<u8>, w: &TerrainWorld, k: usize, cy: usize, h: usize)
    requires
        writable(*w),
        k < num_columns(*w),
        cy < 4,
        h < 2,
    ensures
        final(buf)@ == old(buf)@ + Seq::new(
            4096,
            |p: int| sub_chunk_byte(*w, k as int, cy as int, h as int, p),
        ),
{
    let cols_x = w.meta.cols_x;
    let blen = w.blocks.len();
    let mut p: usize = 0;
    while p < 4096
        invariant
            p <= 4096,
            blen == w.blocks@.len(),
            writable(*w),
            k < num_columns(*w),
            cy < 4,
            h < 2,
            cols_x == w.meta.cols_x,
            buf@ == old(buf)@ + Seq::new(
                p as nat,
                |q: int| sub_chunk_byte(*w, k as int, cy as int, h as int, q),
            ),
        decreases 4096 - p,
    {
        proof {
            lemma_column_cell(*w, k as int, cy as int, p as int);
        }
        let cx = k % cols_x;
        let cz = k / cols_x;
        let wx = cx * 16 + p / 256;
        let wy = cy * 16 + p % 16;
        let wz = cz * 16 + (p / 16) % 16;
        proof {
            lemma_index_monotone(
                wx as int,
                wy as int,
                wz as int,
                wx as int,
                wz as int,
                w.depth as int,
            );
        }
        let idx = world_idx(wx, wy, wz, w.depth);
        let b = w.blocks[idx];
        assert(b == column_voxel(*w, k as int, cy as int, p as int));
        if h == 0 {
            buf.push(b.block_type);
        } else {
            buf.push(b.color);
        }
        p = p + 1;
        assert(buf@ =~= old(buf)@ + Seq::new(
            p as nat,
            |q: int| sub_chunk_byte(*w, k as int, cy as int, h as int, q),
        ));
    }
}

/// Appending both halves of sub-chunk `cy` of column `k` extends the column data written so
/// far by 8192 bytes.
proof fn lemma_cols_step(w: TerrainWorld, n: int, k: int, cy: int, cols: Seq<u8>)
    requires
        cols == Seq::new((n * 32768) as nat, |i: int| column_byte(w, i)),
        0 <= k < n,
        0 <= cy < 4,
    ensures
        k * 32768 + cy * 8192 + 8192 <= n * 32768,
        cols.take(k * 32768 + cy * 8192) + Seq::new(4096, |p: int| sub_chunk_byte(w, k, cy, 0, p))
            + Seq::new(4096, |p: int| sub_chunk_byte(w, k, cy, 1, p)) == cols.take(
            k * 32768 + cy * 8192 + 8192,
        ),
{
    let base = k * 32768 + cy * 8192;
    assert(base + 8192 <= n * 32768) by (nonlinear_arith)
        requires
            base == k * 32768 + cy * 8192,
            0 <= k < n,
            0 <= cy < 4;
    let lhs = cols.take(base) + Seq::new(4096, |p: int| sub_chunk_byte(w, k, cy, 0, p)) + Seq::new(
        4096,
        |p: int| sub_chunk_byte(w, k, cy, 1, p),
    );
    assert forall|i: int| 0 <= i < base + 8192 implies #[trigger] lhs[i] == cols[i] by {
        if base <= i < base + 4096 {
            lemma_column_byte_at(w, k, cy, 0, i - base);
        } else if i >= base + 4096 {
            lemma_column_byte_at(w, k, cy, 1, i - base - 4096);
        }
    }
    assert(lhs =~= cols.take(base + 8192));
}

/// Serialises a generated world to the bytes of an Eden file.
///
/// The file is the header (seed `params.seed`, the spawn point as position and home, the
/// directory offset, the name "TerrainGen", version 4, sky colour 6), then one column per
/// 16x16 block column of the world, z-outer and x-inner, then the directory: see `eden_file`.
pub fn write_eden_file(world: &TerrainWorld, params: &TerrainParams) -> (buf: Vec<u8>)
    requires
        writable(*world),
    ensures
        buf@ == eden_file(*world, params.seed),
{
    let n = world.meta.cols_x * world.meta.cols_z;
    let dir_offset = 192 + n * 32768;
    let ghost cols = Seq::new((n * 32768) as nat, |i: int| column_byte(*world, i));
    let ghost dirs = Seq::new((n * 16) as nat, |i: int| dir_entry_bytes(*world, i / 16)[i % 16]);
    let mut buf: Vec<u8> = Vec::new();
    push_header(
        &mut buf,
        params.seed as i32,
        f32_bits_of_i32(world.meta.spawn_x),
        f32_bits_of_i32(world.meta.spawn_y),
        f32_bits_of_i32(world.meta.spawn_z),
        dir_offset as u64,
    );
    let ghost head = buf@;
    let mut k: usize = 0;
    while k < n
        invariant
            k <= n,
            n == num_columns(*world),
            192 + n * 32784 <= usize::MAX,
            writable(*world),
            buf@ == head + cols.take(k * 32768),
            cols == Seq::new((n * 32768) as nat, |i: int| column_byte(*world, i)),
        decreases n - k,
    {
        let mut cy: usize = 0;
        while cy < 4
            invariant
                k < n,
                cy <= 4,
                n == num_columns(*world),
                192 + n * 32784 <= usize::MAX,
                writable(*world),
                buf@ == head + cols.take(k * 32768 + cy * 8192),
                cols == Seq::new((n * 32768) as nat, |i: int| column_byte(*world, i)),
            decreases 4 - cy,
        {
            let ghost b0 = buf@;
            push_sub_chunk(&mut buf, world, k, cy, 0);
            push_sub_chunk(&mut buf, world, k, cy, 1);
            proof {
                lemma_cols_step(*world, n as int, k as int, cy as int, cols);
                let a = Seq::new(4096, |p: int| sub_chunk_byte(*world, k as int, cy as int, 0, p));
                let b = Seq::new(4096, |p: int| sub_chunk_byte(*world, k as int, cy as int, 1, p));
                assert(buf@ == b0 + a + b);
                assert(b0 + a + b =~= head + (cols.take(k * 32768 + cy * 8192) + a + b));
            }
            cy = cy + 1;
        }
        k = k + 1;
    }
    assert(cols.take(n * 32768) =~= cols);
    let ghost body = buf@;
    let cols_x = world.meta.cols_x;
    let mut j: usize = 0;
    while j < n
        invariant
            j <= n,
            n == num_columns(*world),
            cols_x == world.meta.cols_x,
            192 + n * 32784 <= usize::MAX,
            buf@ == body + dirs.take(j * 16),
            dirs == Seq::new((n * 16) as nat, |i: int| dir_entry_bytes(*world, i / 16)[i % 16]),
        decreases n - j,
    {
        assert(j * 32768 < n * 32768) by (nonlinear_arith)
            requires j < n;
        let cx = j % cols_x;
        let cz = j / cols_x;
        let ghost b0 = buf@;
        push_le32(&mut buf, (cx as i32) as u32);
        push_le32(&mut buf, (cz as i32) as u32);
        push_le64(&mut buf, (192 + j * 32768) as u64);
        proof {
            assert(buf@ == b0 + dir_entry_bytes(*world, j as int));
            assert(j * 16 + 16 <= n * 16) by (nonlinear_arith)
                requires j < n;
            assert forall|i: int| 0 <= i < j * 16 + 16 implies #[trigger] buf@[body.len() + i] == dirs[i] by {
                if i >= j * 16 {
                    assert(i / 16 == j && i % 16 == i - j * 16) by (nonlinear_arith)
                        requires j * 16 <= i < j * 16 + 16;
                } else {
                    assert(buf@[body.len() + i] == b0[body.len() + i]);
                }
            }
            assert(buf@ =~= body + dirs.take((j + 1) * 16));
        }
        j = j + 1;
    }
    assert(dirs.take(n * 16) =~= dirs);
    reveal(eden_file);
    buf
}


/// Where the header fields sit in the header.
#[verifier::rlimit(60)]
#[verifier::spinoff_prover]
proof fn lemma_header_fields(seed: i32, sx: u32, sy: u32, sz: u32, dir: u64)
    ensures
        ({
            let h = header_bytes(seed, sx, sy, sz, dir);
            &&& h.len() == 192
            &&& h.subrange(0, 4) == le32_bytes(seed as u32)
            &&& h.subrange(4, 8) == le32_bytes(sx)
            &&& h.subrange(8, 12) == le32_bytes(sy)
            &&& h.subrange(12, 16) == le32_bytes(sz)
            &&& h.subrange(32, 40) == le64_bytes(dir)
            &&& h.subrange(40, 50) == terrain_gen_name()
            &&& h[50] == 0
            &&& h.subrange(90, 94) == le32_bytes(4)
        }),
{
    reveal(header_bytes);
    let h = header_bytes(seed, sx, sy, sz, dir);
    assert(h.subrange(0, 4) =~= le32_bytes(seed as u32));
    assert(h.subrange(4, 8) =~= le32_bytes(sx));
    assert(h.subrange(8, 12) =~= le32_bytes(sy));
    assert(h.subrange(12, 16) =~= le32_bytes(sz));
    assert(h.subrange(32, 40) =~= le64_bytes(dir));
    assert(h.subrange(40, 50) =~= terrain_gen_name());
    assert(h.subrange(90, 94) =~= le32_bytes(4));
}

/// The three regions of a written file: header, column data, directory.
proof fn lemma_file_regions(w: TerrainWorld, seed: u32)
    requires
        num_columns(w) >= 0,
    ensures
        ({
            let d = eden_file(w, seed);
            let n = num_columns(w);
            let dir = 192 + n * 32768;
            let head = header_bytes(
                seed as i32,
                f32_bits_spec(w.meta.spawn_x as int),
                f32_bits_spec(w.meta.spawn_y as int),
                f32_bits_spec(w.meta.spawn_z as int),
                dir as u64,
            );
            &&& d.len() == 192 + n * 32768 + n * 16
            &&& forall|i: int| 0 <= i < 192 ==> #[trigger] d[i] == head[i]
            &&& forall|i: int| 0 <= i < n * 32768 ==> #[trigger] d[192 + i] == column_byte(w, i)
            &&& forall|i: int| 0 <= i < n * 16 ==> #[trigger] d[dir + i] == dir_entry_bytes(w, i / 16)[i % 16]
        }),
{
    reveal(eden_file);
    let n = num_columns(w);
    assert(n * 32768 >= 0 && n * 16 >= 0) by (nonlinear_arith)
        requires n >= 0;
    lemma_header_fields(
        seed as i32,
        f32_bits_spec(w.meta.spawn_x as int),
        f32_bits_spec(w.meta.spawn_y as int),
        f32_bits_spec(w.meta.spawn_z as int),
        (192 + n * 32768) as u64,
    );
}

proof fn lemma_le32_of_bytes(d: Seq<u8>, off: int, v: u32)
    requires
        0 <= off,
        off + 4 <= d.len(),
        d.subrange(off, off + 4) == le32_bytes(v),
    ensures
        le32(d, off) == v,
{
    assert(d[off] == le32_bytes(v)[0] && d[off + 1] == le32_bytes(v)[1] && d[off + 2]
        == le32_bytes(v)[2] && d[off + 3] == le32_bytes(v)[3]) by {
        assert(d.subrange(off, off + 4)[0] == d[off]);
        assert(d.subrange(off, off + 4)[1] == d[off + 1]);
        assert(d.subrange(off, off + 4)[2] == d[off + 2]);
        assert(d.subrange(off, off + 4)[3] == d[off + 3]);
    }
    lemma_le32_at(d, off, v);
}

proof fn lemma_le32_at(d: Seq<u8>, off: int, v: u32)
    requires
        0 <= off,
        off + 4 <= d.len(),
        d[off] == le32_bytes(v)[0],
        d[off + 1] == le32_bytes(v)[1],
        d[off + 2] == le32_bytes(v)[2],
        d[off + 3] == le32_bytes(v)[3],
    ensures
        le32(d, off) == v,
{
    let b0 = d[off];
    let b1 = d[off + 1];
    let b2 = d[off + 2];
    let b3 = d[off + 3];
    assert((b0 as u32) | ((b1 as u32) << 8u32) | ((b2 as u32) << 16u32) | ((b3 as u32) << 24u32) == v)
        by (bit_vector)
        requires
            b0 == v as u8,
            b1 == (v >> 8u32) as u8,
            b2 == (v >> 16u32) as u8,
            b3 == (v >> 24u32) as u8;
}

proof fn lemma_le64_of_bytes(d: Seq<u8>, off: int, v: u64)
    requires
        0 <= off,
        off + 8 <= d.len(),
        d.subrange(off, off + 8) == le64_bytes(v),
    ensures
        le64(d, off) == v,
{
    assert(d.subrange(off, off + 4) =~= le32_bytes(v as u32)) by {
        assert forall|i: int| 0 <= i < 4 implies #[trigger] d.subrange(off, off + 4)[i] == le32_bytes(v as u32)[i] by {
            assert(d.subrange(off, off + 8)[i] == le64_bytes(v)[i]);
        }
    }
    assert(d.subrange(off + 4, off + 8) =~= le32_bytes((v >> 32u64) as u32)) by {
        assert forall|i: int| 0 <= i < 4 implies #[trigger] d.subrange(off + 4, off + 8)[i] == le32_bytes((v >> 32u64) as u32)[i] by {
            assert(d.subrange(off, off + 8)[i + 4] == le64_bytes(v)[i + 4]);
        }
    }
    lemma_le32_of_bytes(d, off, v as u32);
    lemma_le32_of_bytes(d, off + 4, (v >> 32u64) as u32);
    let lo = v as u32;
    let hi = (v >> 32u64) as u32;
    assert(((lo as u64) | ((hi as u64) << 32u64)) == v) by (bit_vector)
        requires
            lo == v as u32,
            hi == (v >> 32u64) as u32;
}

/// The (cx, cz) key of column `k` as it is written to the directory.
pub open spec fn written_key(w: TerrainWorld, k: int) -> (i32, i32) {
    ((k % (w.meta.cols_x as int)) as i32, (k / (w.meta.cols_x as int)) as i32)
}

/// The directory map of the first `j` written columns.
pub open spec fn written_map(w: TerrainWorld, j: nat) -> Map<(i32, i32), u64>
    decreases j,
{
    if j == 0 {
        Map::empty()
    } else {
        written_map(w, (j - 1) as nat).insert(written_key(w, j - 1), (192 + (j - 1) * 32768) as u64)
    }
}

/// Column positions are told apart by their written keys when the grid fits in `i32`.
proof fn lemma_written_keys_distinct(w: TerrainWorld, a: int, b: int)
    requires
        w.meta.cols_x <= i32::MAX,
        w.meta.cols_z <= i32::MAX,
        0 <= a < num_columns(w),
        0 <= b < num_columns(w),
        a != b,
    ensures
        written_key(w, a) != written_key(w, b),
{
    let cx = w.meta.cols_x as int;
    let cz = w.meta.cols_z as int;
    assert(cx > 0) by {
        if cx == 0 {
            assert(num_columns(w) == 0);
        }
    }
    assert(0 <= a / cx < cz && 0 <= b / cx < cz) by (nonlinear_arith)
        requires
            0 <= a < cx * cz,
            0 <= b < cx * cz,
            cx > 0;
    assert(a == (a / cx) * cx + a % cx && b == (b / cx) * cx + b % cx) by (nonlinear_arith)
        requires
            cx > 0;
}

proof fn lemma_written_map(w: TerrainWorld, j: nat)
    requires
        w.meta.cols_x <= i32::MAX,
        w.meta.cols_z <= i32::MAX,
        j <= num_columns(w),
    ensures
        forall|k: int| 0 <= k < j ==> #[trigger] written_map(w, j).contains_key(written_key(w, k))
            && written_map(w, j)[written_key(w, k)] == (192 + k * 32768) as u64,
        forall|key: (i32, i32)| #[trigger] written_map(w, j).contains_key(key) ==> exists|k: int|
            0 <= k < j && written_key(w, k) == key,
    decreases j,
{
    if j > 0 {
        lemma_written_map(w, (j - 1) as nat);
        let m0 = written_map(w, (j - 1) as nat);
        assert forall|k: int| 0 <= k < j implies #[trigger] written_map(w, j).contains_key(written_key(w, k))
            && written_map(w, j)[written_key(w, k)] == (192 + k * 32768) as u64 by {
            if k < j - 1 {
                lemma_written_keys_distinct(w, k, j - 1);
                assert(m0.contains_key(written_key(w, k)));
            }
        }
        assert forall|key: (i32, i32)| #[trigger] written_map(w, j).contains_key(key) implies exists|k: int|
            0 <= k < j && written_key(w, k) == key by {
            if key != written_key(w, j - 1) {
                assert(m0.contains_key(key));
            }
        }
    }
}

/// Reading back a written file: the file parses, its header holds the seed, the spawn
/// point and the directory offset that were written, its directory names exactly the
/// written columns, each at the offset where it was written, and each column reads back
/// the block types and colours of its world column.
#[verifier::rlimit(80)]
#[verifier::spinoff_prover]
pub proof fn lemma_written_file_reads_back(w: TerrainWorld, seed: u32)
    requires
        writable(w),
        num_columns(w) > 0,
        w.meta.cols_x <= i32::MAX,
        w.meta.cols_z <= i32::MAX,
    ensures
        ({
            let d = eden_file(w, seed);
            let n = num_columns(w);
            let m = dir_map(d, dir_start(d));
            &&& parse_error(d) is None
            &&& le32(d, 0) as i32 == seed as i32
            &&& le32(d, 4) == f32_bits_spec(w.meta.spawn_x as int)
            &&& le32(d, 8) == f32_bits_spec(w.meta.spawn_y as int)
            &&& le32(d, 12) == f32_bits_spec(w.meta.spawn_z as int)
            &&& header_dir_offset(d) == 192 + n * 32768
            &&& le32(d, 90) as i32 == 4
            &&& header_name(d) == utf8_lossy(terrain_gen_name())
            &&& header_name_bytes(d) == terrain_gen_name()
            &&& vstd::utf8::valid_utf8(header_name_bytes(d))
            &&& vstd::utf8::decode_utf8(header_name_bytes(d)) == "TerrainGen"@
            &&& m == written_map(w, n as nat)
            &&& forall|k: int| 0 <= k < n ==> #[trigger] m.contains_key(written_key(w, k)) && m[written_key(w, k)]
                == (192 + k * 32768) as u64 && column_fits(d, m[written_key(w, k)])
            &&& forall|key: (i32, i32)| #[trigger] m.contains_key(key) ==> exists|k: int|
                0 <= k < n && written_key(w, k) == key
            &&& forall|k: int, cy: int, p: int|
                0 <= k < n && 0 <= cy < 4 && 0 <= p < 4096 ==> #[trigger] column_blocks(d, 192 + k * 32768)[cy
                    * 4096 + p] == column_voxel(w, k, cy, p).block_type && column_paints(d, 192 + k * 32768)[cy
                    * 4096 + p] == column_voxel(w, k, cy, p).color
        }),
{
    let d = eden_file(w, seed);
    let n = num_columns(w);
    let dir = 192 + n * 32768;
    let sx = f32_bits_spec(w.meta.spawn_x as int);
    let sy = f32_bits_spec(w.meta.spawn_y as int);
    let sz = f32_bits_spec(w.meta.spawn_z as int);
    let head = header_bytes(seed as i32, sx, sy, sz, dir as u64);
    assert(n * 32768 >= 32768 && n * 16 >= 16) by (nonlinear_arith)
        requires n > 0;
    lemma_file_regions(w, seed);
    lemma_header_fields(seed as i32, sx, sy, sz, dir as u64);
    assert(d.subrange(0, 4) =~= head.subrange(0, 4));
    lemma_le32_of_bytes(d, 0, seed as i32 as u32);
    let si = seed as i32;
    assert((si as u32) as i32 == si) by (bit_vector);
    assert(d.subrange(4, 8) =~= head.subrange(4, 8));
    lemma_le32_of_bytes(d, 4, sx);
    assert(d.subrange(8, 12) =~= head.subrange(8, 12));
    lemma_le32_of_bytes(d, 8, sy);
    assert(d.subrange(12, 16) =~= head.subrange(12, 16));
    lemma_le32_of_bytes(d, 12, sz);
    assert(d.subrange(90, 94) =~= head.subrange(90, 94));
    lemma_le32_of_bytes(d, 90, 4);
    assert(d.subrange(32, 40) =~= head.subrange(32, 40));
    lemma_le64_of_bytes(d, 32, dir as u64);
    assert(header_dir_offset(d) == dir);
    assert(dir_start(d) == dir);
    // name
    let nm = d.subrange(40, 90);
    assert(nm.take(10) =~= head.subrange(40, 50));
    assert(nm[10] == head[50]);
    assert forall|i: int| 0 <= i < 10 implies #[trigger] nm[i] != 0 by {
        assert(nm[i] == terrain_gen_name()[i]);
    }
    lemma_cstr_len_stops(nm, 10);
    lemma_terrain_gen_name_text();
    // directory
    assert(dir_count(d, dir) == n) by {
        assert((d.len() - dir) / 16 == n) by (nonlinear_arith)
            requires d.len() - dir == n * 16;
    }
    assert forall|j: nat| j <= n implies #[trigger] dir_map_upto(d, dir, j) == written_map(w, j) by {
        lemma_dir_prefix(w, seed, j);
    }
    assert(dir_map(d, dir) == written_map(w, n as nat));
    lemma_written_map(w, n as nat);
    let m = written_map(w, n as nat);
    assert forall|k: int| 0 <= k < n implies #[trigger] m.contains_key(written_key(w, k)) && m[written_key(w, k)]
        == (192 + k * 32768) as u64 && column_fits(d, m[written_key(w, k)]) by {
        assert(192 + k * 32768 + 32768 <= dir) by (nonlinear_arith)
            requires 0 <= k < n, dir == 192 + n * 32768;
        assert(written_map(w, n as nat).contains_key(written_key(w, k)));
        assert(m.contains_key(written_key(w, k)) && m[written_key(w, k)] == (192 + k * 32768) as u64);
        assert(dir <= usize::MAX);
    }
    assert(m.contains_key(written_key(w, 0)));
    assert(m.dom() != Set::<(i32, i32)>::empty());
    // column contents
    assert forall|k: int, cy: int, p: int|
        0 <= k < n && 0 <= cy < 4 && 0 <= p < 4096 implies #[trigger] column_blocks(d, 192 + k * 32768)[cy
            * 4096 + p] == column_voxel(w, k, cy, p).block_type && column_paints(d, 192 + k * 32768)[cy
            * 4096 + p] == column_voxel(w, k, cy, p).color by {
        let i = cy * 4096 + p;
        assert(i / 4096 == cy && i % 4096 == p) by (nonlinear_arith)
            requires i == cy * 4096 + p, 0 <= cy < 4, 0 <= p < 4096;
        assert(k * 32768 + cy * 8192 + 8192 <= n * 32768) by (nonlinear_arith)
            requires 0 <= k < n, 0 <= cy < 4;
        lemma_column_byte_at(w, k, cy, 0, p);
        lemma_column_byte_at(w, k, cy, 1, p);
        assert(d[192 + (k * 32768 + cy * 8192 + p)] == column_byte(w, k * 32768 + cy * 8192 + p));
        assert(d[192 + (k * 32768 + cy * 8192 + 4096 + p)] == column_byte(w, k * 32768 + cy * 8192 + 4096 + p));
    }
}

/// The name bytes are the UTF-8 text "TerrainGen".
proof fn lemma_terrain_gen_name_text()
    ensures
        terrain_gen_name() == vstd::utf8::encode_utf8("TerrainGen"@),
        vstd::utf8::valid_utf8(terrain_gen_name()),
        vstd::utf8::decode_utf8(terrain_gen_name()) == "TerrainGen"@,
{
    reveal_strlit("TerrainGen");
    let c = "TerrainGen"@;
    assert(vstd::utf8::is_ascii_chars(c));
    vstd::utf8::is_ascii_chars_encode_utf8(c);
    assert(terrain_gen_name() =~= vstd::utf8::encode_utf8(c));
    vstd::utf8::encode_utf8_valid_utf8(c);
    vstd::utf8::encode_utf8_decode_utf8(c);
}

proof fn lemma_cstr_len_stops(s: Seq<u8>, k: int)
    requires
        0 <= k < s.len(),
        s[k] == 0,
        forall|i: int| 0 <= i < k ==> #[trigger] s[i] != 0,
    ensures
        cstr_len(s) == k,
    decreases k,
{
    if k > 0 {
        let t = s.drop_first();
        assert forall|i: int| 0 <= i < k - 1 implies #[trigger] t[i] != 0 by {
            assert(t[i] == s[i + 1]);
        }
        assert(s[0] != 0);
        lemma_cstr_len_stops(t, k - 1);
    }
}

/// The first `j` directory entries of a written file read back as the first `j` written
/// columns.
#[verifier::rlimit(50)]
#[verifier::spinoff_prover]
proof fn lemma_dir_prefix(w: TerrainWorld, seed: u32, j: nat)
    requires
        writable(w),
        num_columns(w) > 0,
        j <= num_columns(w),
    ensures
        dir_map_upto(eden_file(w, seed), 192 + num_columns(w) * 32768, j) == written_map(w, j),
    decreases j,
{
    let d = eden_file(w, seed);
    let n = num_columns(w);
    let dir = 192 + n * 32768;
    if j > 0 {
        lemma_dir_prefix(w, seed, (j - 1) as nat);
        let q = j - 1;
        assert(q * 16 + 16 <= n * 16) by (nonlinear_arith)
            requires 0 <= q < n;
        lemma_file_regions(w, seed);
        let pos = dir + 16 * q;
        let e = dir_entry_bytes(w, q);
        assert forall|t: int| 0 <= t < 16 implies #[trigger] d[pos + t] == e[t] by {
            assert((q * 16 + t) / 16 == q && (q * 16 + t) % 16 == t) by (nonlinear_arith)
                requires 0 <= t < 16, q >= 0;
            assert(d[dir + (q * 16 + t)] == dir_entry_bytes(w, (q * 16 + t) / 16)[(q * 16 + t) % 16]);
        }
        let cx = q % (w.meta.cols_x as int);
        let cz = q / (w.meta.cols_x as int);
        assert(e.subrange(0, 4) =~= le32_bytes((cx as i32) as u32));
        assert(e.subrange(4, 8) =~= le32_bytes((cz as i32) as u32));
        assert(e.subrange(8, 16) =~= le64_bytes((192 + q * 32768) as u64));
        assert(d[pos] == e[0] && d[pos + 1] == e[1] && d[pos + 2] == e[2] && d[pos + 3] == e[3]);
        assert(d[pos + 4] == e[4] && d[pos + 5] == e[5] && d[pos + 6] == e[6] && d[pos + 7] == e[7]);
        assert forall|t: int| 0 <= t < 8 implies #[trigger] d.subrange(pos + 8, pos + 16)[t] == e.subrange(8, 16)[t] by {
            assert(d[pos + (8 + t)] == e[8 + t]);
        }
        assert(d.subrange(pos + 8, pos + 16) =~= e.subrange(8, 16));
        lemma_le32_at(d, pos, (cx as i32) as u32);
        lemma_le32_at(d, pos + 4, (cz as i32) as u32);
        lemma_le64_of_bytes(d, pos + 8, (192 + q * 32768) as u64);
        let a = cx as i32;
        let b = cz as i32;
        assert((a as u32) as i32 == a && (b as u32) as i32 == b) by (bit_vector);
        assert(192 + q * 32768 < d.len()) by (nonlinear_arith)
            requires 0 <= q < n, d.len() == 192 + n * 32768 + n * 16;
        assert(dir_entry(d, pos) == (written_key(w, q), (192 + q * 32768) as u64));
        assert(entry_used(d, dir_entry(d, pos)));
    }
}

/// The (block type, paint) of voxel (lx, lz, ly) of sub-chunk `cy` of a column.
pub open spec fn read_voxel(c: ChunkColumn, cy: int, lx: int, lz: int, ly: int) -> (u8, u8) {
    (c.blocks@[cy * 4096 + eden_index(lx, lz, ly)], c.paints@[cy * 4096 + eden_index(lx, lz, ly)])
}

/// The (block type, colour) of block (x, y, z) of a world.
pub open spec fn world_voxel(w: TerrainWorld, x: int, y: int, z: int) -> (u8, u8) {
    let b = w.blocks@[world_index(x, y, z, w.depth as int)];
    (b.block_type, b.color)
}

/// Some column of `cols` is at chunk (x, z).
pub open spec fn has_column(cols: Seq<ChunkColumn>, x: int, z: int) -> bool {
    exists|j: int| 0 <= j < cols.len() && cols[j].cx == x && cols[j].cz == z
}

/// The position (z-outer, x-inner) of the written column at chunk (c.cx, c.cz).
pub open spec fn column_number(w: TerrainWorld, c: ChunkColumn) -> int {
    c.cz as int * (w.meta.cols_x as int) + c.cx as int
}

proof fn lemma_written_key_number(w: TerrainWorld, k: int)
    requires
        0 <= k < num_columns(w),
        w.meta.cols_x <= i32::MAX,
        w.meta.cols_z <= i32::MAX,
    ensures
        written_key(w, k).0 as int == k % (w.meta.cols_x as int),
        written_key(w, k).1 as int == k / (w.meta.cols_x as int),
        0 <= k % (w.meta.cols_x as int) < w.meta.cols_x,
        0 <= k / (w.meta.cols_x as int) < w.meta.cols_z,
        (k / (w.meta.cols_x as int)) * (w.meta.cols_x as int) + k % (w.meta.cols_x as int) == k,
{
    let cx = w.meta.cols_x as int;
    let cz = w.meta.cols_z as int;
    assert(cx > 0) by (nonlinear_arith)
        requires 0 <= k < cx * cz, cx >= 0, cz >= 0;
    assert(0 <= k / cx < cz && 0 <= k % cx < cx && (k / cx) * cx + k % cx == k) by (nonlinear_arith)
        requires 0 <= k < cx * cz, cx > 0;
}

/// Reading back the header of a written file gives the world's spawn point as the player
/// position, coordinate by coordinate (x from byte 4, y from byte 8, z from byte 12), together
/// with the seed, format version 4 and the directory that follows the columns.
pub proof fn lemma_written_spawn_reads_back(w: TerrainWorld, seed: u32, h: EdenHeader)
    requires
        writable(w),
        num_columns(w) > 0,
        w.meta.cols_x <= i32::MAX,
        w.meta.cols_z <= i32::MAX,
        header_matches(h, eden_file(w, seed)),
    ensures
        h.player_x_bits == f32_bits_spec(w.meta.spawn_x as int),
        h.player_y_bits == f32_bits_spec(w.meta.spawn_y as int),
        h.player_z_bits == f32_bits_spec(w.meta.spawn_z as int),
        h.seed == seed as i32,
        h.version == 4,
        h.directory_offset == 192 + num_columns(w) * 32768,
{
    lemma_written_file_reads_back(w, seed);
}

/// Reading back a written file gives exactly one column per written column: as many
/// columns as were written, every grid position (cx, cz) among them, and each column holding
/// the block types and colours of its world column, voxel by voxel in Eden order.
pub proof fn lemma_written_columns_read_back(w: TerrainWorld, seed: u32, cols: Seq<ChunkColumn>)
    requires
        writable(w),
        num_columns(w) > 0,
        w.meta.cols_x <= i32::MAX,
        w.meta.cols_z <= i32::MAX,
        columns_match(cols, eden_file(w, seed), dir_map(eden_file(w, seed), dir_start(eden_file(w, seed)))),
    ensures
        cols.len() == num_columns(w),
        forall|x: int, z: int| 0 <= x < w.meta.cols_x && 0 <= z < w.meta.cols_z ==> #[trigger] has_column(cols, x, z),
        forall|j: int| 0 <= j < cols.len() ==> 0 <= #[trigger] cols[j].cx < w.meta.cols_x && 0 <= cols[j].cz < w.meta.cols_z,
        forall|j: int, cy: int, lx: int, lz: int, ly: int|
            0 <= j < cols.len() && 0 <= cy < 4 && 0 <= lx < 16 && 0 <= lz < 16 && 0 <= ly < 16 ==> #[trigger] read_voxel(cols[j], cy, lx, lz, ly)
                == world_voxel(w, 16 * cols[j].cx + lx, 16 * cy + ly, 16 * cols[j].cz + lz),
{
    let d = eden_file(w, seed);
    let m = dir_map(d, dir_start(d));
    let n = num_columns(w);
    let ncx = w.meta.cols_x as int;
    lemma_written_file_reads_back(w, seed);
    // each column is a written column
    assert forall|j: int| 0 <= j < cols.len() implies 0 <= #[trigger] column_number(w, cols[j]) < n
        && written_key(w, column_number(w, cols[j])) == (cols[j].cx, cols[j].cz)
        && m[(cols[j].cx, cols[j].cz)] == (192 + column_number(w, cols[j]) * 32768) as u64 by {
        let c = cols[j];
        assert(column_matches(c, d, m));
        let k = choose|k: int| 0 <= k < n && written_key(w, k) == (c.cx, c.cz);
        lemma_written_key_number(w, k);
        assert(m.contains_key(written_key(w, k)));
        assert(column_number(w, c) == k);
    }
    // the column numbers, one per column, cover 0..n without repeats
    let ks = Seq::new(cols.len(), |j: int| column_number(w, cols[j]));
    assert(ks.no_duplicates()) by {
        assert forall|a: int, b: int| 0 <= a < ks.len() && 0 <= b < ks.len() && a != b implies ks[a] != ks[b] by {
            assert(0 <= column_number(w, cols[a]) < n);
            assert(0 <= column_number(w, cols[b]) < n);
            if a < b {
                assert((cols[a].cx, cols[a].cz) != (cols[b].cx, cols[b].cz));
            } else {
                assert((cols[b].cx, cols[b].cz) != (cols[a].cx, cols[a].cz));
            }
        }
    }
    assert(ks.to_set() =~= set_int_range(0, n)) by {
        assert forall|k: int| #[trigger] set_int_range(0, n).contains(k) implies ks.to_set().contains(k) by {
            lemma_written_key_number(w, k);
            assert(m.contains_key(written_key(w, k)));
            let j = choose|j: int| 0 <= j < cols.len() && (cols[j].cx, cols[j].cz) == written_key(w, k);
            assert(0 <= column_number(w, cols[j]) < n);
            lemma_written_key_number(w, column_number(w, cols[j]));
            assert(ks[j] == k);
        }
        assert forall|k: int| #[trigger] ks.to_set().contains(k) implies set_int_range(0, n).contains(k) by {
            let j = choose|j: int| 0 <= j < ks.len() && ks[j] == k;
            assert(0 <= column_number(w, cols[j]) < n);
        }
    }
    ks.unique_seq_to_set();
    lemma_int_range(0, n);
    // every grid position is read back
    assert forall|x: int, z: int| 0 <= x < w.meta.cols_x && 0 <= z < w.meta.cols_z implies #[trigger] has_column(cols, x, z) by {
        let k = z * ncx + x;
        assert(0 <= k < n) by (nonlinear_arith)
            requires 0 <= x < ncx, 0 <= z < w.meta.cols_z, n == ncx * w.meta.cols_z, k == z * ncx + x;
        lemma_written_key_number(w, k);
        assert(k / ncx == z && k % ncx == x) by (nonlinear_arith)
            requires 0 <= x < ncx, 0 <= z, k == z * ncx + x;
        assert(m.contains_key(written_key(w, k)));
        let j = choose|j: int| 0 <= j < cols.len() && (cols[j].cx, cols[j].cz) == written_key(w, k);
        assert(cols[j].cx == x && cols[j].cz == z);
    }
    // each column holds its world column
    assert forall|j: int| 0 <= j < cols.len() implies 0 <= #[trigger] cols[j].cx < w.meta.cols_x && 0 <= cols[j].cz < w.meta.cols_z by {
        lemma_written_key_number(w, column_number(w, cols[j]));
    }
    assert forall|j: int, cy: int, lx: int, lz: int, ly: int|
        0 <= j < cols.len() && 0 <= cy < 4 && 0 <= lx < 16 && 0 <= lz < 16 && 0 <= ly < 16 implies #[trigger] read_voxel(cols[j], cy, lx, lz, ly)
            == world_voxel(w, 16 * cols[j].cx + lx, 16 * cy + ly, 16 * cols[j].cz + lz) by {
        let c = cols[j];
        let k = column_number(w, c);
        assert(0 <= k < n);
        lemma_written_key_number(w, k);
        assert(column_matches(c, d, m));
        let p = eden_index(lx, lz, ly);
        lemma_voxel_layouts_are_bijections(lx, lz, ly, p);
        assert(0 <= p < 4096);
        assert(p / 256 == lx && (p / 16) % 16 == lz && p % 16 == ly);
        assert(column_blocks(d, 192 + k * 32768)[cy * 4096 + p] == column_voxel(w, k, cy, p).block_type);
        assert(column_paints(d, 192 + k * 32768)[cy * 4096 + p] == column_voxel(w, k, cy, p).color);
    }
}

} // verus!
