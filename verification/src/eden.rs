//! Reader for Eden World Builder `.eden` world files: a fixed header, chunk columns of four
//! 16x16x16 sub-chunks (4096 block bytes then 4096 paint bytes each) and a directory of
//! 16-byte entries `(i32 cx, i32 cz, u64 file offset)`, all little-endian.

use vstd::prelude::*;
use vstd::slice::{slice_subrange, slice_to_vec};
use vstd::string::*;
use crate::text::{decimal_digits, push_decimal};

verus! {

/// The little-endian `u32` at `off`.
pub open spec fn le32(d: Seq<u8>, off: int) -> u32 {
    (d[off] as u32) | ((d[off + 1] as u32) << 8u32) | ((d[off + 2] as u32) << 16u32) | ((
    d[off + 3] as u32) << 24u32)
}

/// The little-endian `u64` at `off`.
pub open spec fn le64(d: Seq<u8>, off: int) -> u64 {
    (le32(d, off) as u64) | ((le32(d, off + 4) as u64) << 32u64)
}

/// The directory offset the reader uses: the 64-bit field at byte 32 when it points inside
/// the file and past the header, otherwise its low 32 bits.
pub open spec fn header_dir_offset(d: Seq<u8>) -> u64 {
    let wide = le64(d, 32);
    if wide < d.len() && wide > 228 {
        wide
    } else {
        le32(d, 32) as u64
    }
}

/// The directory entry at `pos`: ((cx, cz), column offset).
pub open spec fn dir_entry(d: Seq<u8>, pos: int) -> ((i32, i32), u64) {
    ((le32(d, pos) as i32, le32(d, pos + 4) as i32), le64(d, pos + 8))
}

/// A directory entry is used when its offset is non-zero and inside the file.
pub open spec fn entry_used(d: Seq<u8>, e: ((i32, i32), u64)) -> bool {
    e.1 > 0 && e.1 < d.len()
}

/// The column offsets named by the first `n` directory entries from `start`, later entries
/// for the same (cx, cz) replacing earlier ones.
pub open spec fn dir_map_upto(d: Seq<u8>, start: int, n: nat) -> Map<(i32, i32), u64>
    decreases n,
{
    if n == 0 {
        Map::empty()
    } else {
        let m = dir_map_upto(d, start, (n - 1) as nat);
        let e = dir_entry(d, start + 16 * (n - 1));
        if entry_used(d, e) {
            m.insert(e.0, e.1)
        } else {
            m
        }
    }
}

/// Number of whole 16-byte directory entries from `start` to the end of the file.
pub open spec fn dir_count(d: Seq<u8>, start: int) -> nat {
    if start + 16 <= d.len() {
        ((d.len() - start) / 16) as nat
    } else {
        0
    }
}

/// The column offsets named by the whole directory that starts at `start`.
pub open spec fn dir_map(d: Seq<u8>, start: int) -> Map<(i32, i32), u64> {
    dir_map_upto(d, start, dir_count(d, start))
}

/// The directory start the reader uses.
pub open spec fn dir_start(d: Seq<u8>) -> int {
    (header_dir_offset(d) as usize) as int
}

/// A column at `off` lies wholly inside the file.
pub open spec fn column_fits(d: Seq<u8>, off: u64) -> bool {
    off + 32768 <= d.len()
}

/// The 4 x 4096 block bytes of the column at `off` (sub-chunk by sub-chunk, bottom first).
pub open spec fn column_blocks(d: Seq<u8>, off: int) -> Seq<u8> {
    Seq::new(16384, |i: int| d[off + (i / 4096) * 8192 + i % 4096])
}

/// The 4 x 4096 paint bytes of the column at `off`.
pub open spec fn column_paints(d: Seq<u8>, off: int) -> Seq<u8> {
    Seq::new(16384, |i: int| d[off + (i / 4096) * 8192 + 4096 + i % 4096])
}

/// Length of the zero-terminated text at the start of `s` (all of `s` when it holds no zero).
pub open spec fn cstr_len(s: Seq<u8>) -> nat
    decreases s.len(),
{
    if s.len() == 0 || s[0] == 0 {
        0
    } else {
        1 + cstr_len(s.drop_first())
    }
}

/// What `String::from_utf8_lossy` makes of `bytes`.
pub uninterp spec fn utf8_lossy(bytes: Seq<u8>) -> Seq<char>;

/// Calls `String::from_utf8_lossy`. Trusted: the result is `utf8_lossy` of the bytes, and on
/// valid UTF-8 it is the text the bytes encode (std documents that valid input is returned
/// unchanged; invalid sequences become U+FFFD, which is not stated here).
#[verifier::external_body]
fn decode_lossy(bytes: &[u8]) -> (s: String)
    ensures
        s@ == utf8_lossy(bytes@),
        vstd::utf8::valid_utf8(bytes@) ==> s@ == vstd::utf8::decode_utf8(bytes@),
{
    String::from_utf8_lossy(bytes).into_owned()
}

/// The world name stored at bytes 40..90.
pub open spec fn header_name(d: Seq<u8>) -> Seq<char> {
    utf8_lossy(header_name_bytes(d))
}

/// The bytes of the world name: bytes 40..90 up to the first zero.
pub open spec fn header_name_bytes(d: Seq<u8>) -> Seq<u8> {
    let s = d.subrange(40, 90);
    s.take(cstr_len(s) as int)
}

/// The header fields of an Eden world. The player position is kept as the raw bits of its
/// three `f32` coordinates.
pub struct EdenHeader {
    pub seed: i32,
    pub player_x_bits: u32,
    pub player_y_bits: u32,
    pub player_z_bits: u32,
    pub name: String,
    /// The file format version, the little-endian `i32` at byte 90.
    pub version: i32,
    pub sky_colors: Vec<u8>,
    pub directory_offset: u64,
}

/// One chunk column: four vertical 16x16x16 sub-chunks of block types and of paint bytes.
pub struct ChunkColumn {
    pub cx: i32,
    pub cz: i32,
    /// 4 * 4096 block types, sub-chunk `cy` at `cy * 4096`, voxel at `eden_voxel_idx`.
    pub blocks: Vec<u8>,
    /// 4 * 4096 paint bytes, laid out as `blocks`.
    pub paints: Vec<u8>,
}

/// A parsed Eden world.
pub struct EdenWorld {
    pub header: EdenHeader,
    pub columns: Vec<ChunkColumn>,
}

/// The header fields `parse_world` reads from `d`.
pub open spec fn header_matches(h: EdenHeader, d: Seq<u8>) -> bool {
    &&& h.seed == le32(d, 0) as i32
    &&& h.player_x_bits == le32(d, 4)
    &&& h.player_y_bits == le32(d, 8)
    &&& h.player_z_bits == le32(d, 12)
    &&& h.name@ == header_name(d)
    &&& h.version == le32(d, 90) as i32
    &&& h.sky_colors@ == d.subrange(130, 146)
    &&& h.directory_offset == header_dir_offset(d)
}

/// Column `c` is the column that the directory of `d` names for its (cx, cz).
pub open spec fn column_matches(c: ChunkColumn, d: Seq<u8>, m: Map<(i32, i32), u64>) -> bool {
    &&& m.contains_key((c.cx, c.cz))
    &&& column_fits(d, m[(c.cx, c.cz)])
    &&& c.blocks@ == column_blocks(d, m[(c.cx, c.cz)] as int)
    &&& c.paints@ == column_paints(d, m[(c.cx, c.cz)] as int)
}

/// The columns are exactly the directory's columns that lie inside the file, one per (cx, cz).
pub open spec fn columns_match(cols: Seq<ChunkColumn>, d: Seq<u8>, m: Map<(i32, i32), u64>) -> bool {
    &&& forall|i: int, j: int|
        0 <= i < j < cols.len() ==> (#[trigger] cols[i].cx, cols[i].cz) != (#[trigger] cols[j].cx, cols[j].cz)
    &&& forall|i: int| 0 <= i < cols.len() ==> column_matches(#[trigger] cols[i], d, m)
    &&& forall|k: (i32, i32)|
        #[trigger] m.contains_key(k) && column_fits(d, m[k]) ==> exists|i: int|
            0 <= i < cols.len() && (#[trigger] cols[i].cx, cols[i].cz) == k
}

/// Why `d` is not an Eden world, if it is not one: too short for the header, a directory
/// offset past the end, or a directory that names no column.
pub open spec fn parse_error(d: Seq<u8>) -> Option<Seq<char>> {
    if d.len() < 228 {
        Some("File too small to be a valid Eden world"@)
    } else if dir_start(d) >= d.len() {
        Some(
            "Directory offset "@ + decimal_digits(dir_start(d) as nat) + " beyond file size "@
                + decimal_digits(d.len()),
        )
    } else if dir_map(d, dir_start(d)).dom() == Set::<(i32, i32)>::empty() {
        Some("No valid chunk columns found in directory"@)
    } else {
        None
    }
}

fn read_u32_le(data: &[u8], off: usize) -> (v: u32)
    requires
        off + 4 <= data@.len(),
    ensures
        v == le32(data@, off as int),
{
    (data[off] as u32) | ((data[off + 1] as u32) << 8u32) | ((data[off + 2] as u32) << 16u32) | ((
    data[off + 3] as u32) << 24u32)
}

fn read_u64_le(data: &[u8], off: usize) -> (v: u64)
    requires
        off + 8 <= data@.len(),
    ensures
        v == le64(data@, off as int),
{
    let _n: usize = data.len();
    (read_u32_le(data, off) as u64) | ((read_u32_le(data, off + 4) as u64) << 32u64)
}

fn read_i32_le(data: &[u8], off: usize) -> (v: i32)
    requires
        off + 4 <= data@.len(),
    ensures
        v == le32(data@, off as int) as i32,
{
    read_u32_le(data, off) as i32
}

fn read_cstr(data: &[u8], off: usize, max_len: usize) -> (s: String)
    requires
        off + max_len <= data@.len(),
    ensures
        ({
            let t = data@.subrange(off as int, off + max_len);
            &&& s@ == utf8_lossy(t.take(cstr_len(t) as int))
            &&& vstd::utf8::valid_utf8(t.take(cstr_len(t) as int)) ==> s@ == vstd::utf8::decode_utf8(
                t.take(cstr_len(t) as int),
            )
        }),
{
    let _n: usize = data.len();
    let slice = slice_subrange(data, off, off + max_len);
    assert(slice@.skip(0) =~= slice@);
    let mut end: usize = 0;
    while end < max_len && slice[end] != 0
        invariant
            end <= max_len,
            slice@.len() == max_len,
            cstr_len(slice@) == end + cstr_len(slice@.skip(end as int)),
        decreases max_len - end,
    {
        assert(slice@.skip(end as int).drop_first() =~= slice@.skip(end + 1));
        end = end + 1;
    }
    assert(cstr_len(slice@.skip(end as int)) == 0);
    decode_lossy(slice_subrange(slice, 0, end))
}

fn read_column(data: &[u8], off: usize) -> (c: (Vec<u8>, Vec<u8>))
    requires
        off + 32768 <= data@.len(),
    ensures
        c.0@ == column_blocks(data@, off as int),
        c.1@ == column_paints(data@, off as int),
{
    let n: usize = data.len();
    let mut blocks: Vec<u8> = Vec::new();
    let mut paints: Vec<u8> = Vec::new();
    let mut cy: usize = 0;
    while cy < 4
        invariant
            cy <= 4,
            off + 32768 <= data@.len(),
            n == data@.len(),
            blocks@ =~= Seq::new((cy * 4096) as nat, |i: int| data@[off + (i / 4096) * 8192 + i % 4096]),
            paints@ =~= Seq::new((cy * 4096) as nat, |i: int| data@[off + (i / 4096) * 8192 + 4096 + i % 4096]),
        decreases 4 - cy,
    {
        let base = off + cy * 8192;
        blocks.extend_from_slice(slice_subrange(data, base, base + 4096));
        paints.extend_from_slice(slice_subrange(data, base + 4096, base + 8192));
        assert forall|i: int| 0 <= i < (cy + 1) * 4096 implies #[trigger] blocks@[i] == data@[off + (i / 4096) * 8192 + i % 4096] by {
            if i >= cy * 4096 {
                assert(i / 4096 == cy) by (nonlinear_arith)
                    requires cy * 4096 <= i < (cy + 1) * 4096;
                assert(i % 4096 == i - cy * 4096) by (nonlinear_arith)
                    requires cy * 4096 <= i < (cy + 1) * 4096, i / 4096 == cy;
            }
        }
        assert forall|i: int| 0 <= i < (cy + 1) * 4096 implies #[trigger] paints@[i] == data@[off + (i / 4096) * 8192 + 4096 + i % 4096] by {
            if i >= cy * 4096 {
                assert(i / 4096 == cy) by (nonlinear_arith)
                    requires cy * 4096 <= i < (cy + 1) * 4096;
                assert(i % 4096 == i - cy * 4096) by (nonlinear_arith)
                    requires cy * 4096 <= i < (cy + 1) * 4096, i / 4096 == cy;
            }
        }
        cy = cy + 1;
    }
    (blocks, paints)
}

/// The directory entries read so far, held as parallel key and offset vectors with distinct
/// keys, stand for exactly the map `m`.
pub open spec fn pairs_match(keys: Seq<(i32, i32)>, offs: Seq<u64>, m: Map<(i32, i32), u64>) -> bool {
    &&& keys.len() == offs.len()
    &&& forall|i: int, j: int| 0 <= i < j < keys.len() ==> #[trigger] keys[i] != #[trigger] keys[j]
    &&& forall|i: int| 0 <= i < keys.len() ==> #[trigger] m.contains_key(keys[i]) && m[keys[i]] == offs[i]
    &&& forall|k: (i32, i32)| #[trigger] m.contains_key(k) ==> exists|i: int| 0 <= i < keys.len() && keys[i] == k
}

fn find_key(keys: &Vec<(i32, i32)>, k: (i32, i32)) -> (r: Option<usize>)
    ensures
        match r {
            Some(i) => i < keys@.len() && keys@[i as int] == k,
            None => forall|i: int| 0 <= i < keys@.len() ==> keys@[i] != k,
        },
{
    let mut i: usize = 0;
    while i < keys.len()
        invariant
            i <= keys@.len(),
            forall|j: int| 0 <= j < i ==> keys@[j] != k,
        decreases keys@.len() - i,
    {
        if keys[i].0 == k.0 && keys[i].1 == k.1 {
            return Some(i);
        }
        i = i + 1;
    }
    None
}

/// Every offset in the directory map lies inside the file.
proof fn lemma_dir_map_inside(d: Seq<u8>, start: int, n: nat)
    ensures
        forall|k: (i32, i32)| #[trigger] dir_map_upto(d, start, n).contains_key(k) ==> dir_map_upto(
            d,
            start,
            n,
        )[k] < d.len(),
    decreases n,
{
    if n > 0 {
        lemma_dir_map_inside(d, start, (n - 1) as nat);
        let m0 = dir_map_upto(d, start, (n - 1) as nat);
        let e = dir_entry(d, start + 16 * (n - 1));
        assert forall|k: (i32, i32)| #[trigger] dir_map_upto(d, start, n).contains_key(k) implies dir_map_upto(
            d,
            start,
            n,
        )[k] < d.len() by {
            if entry_used(d, e) && k == e.0 {
            } else {
                assert(m0.contains_key(k));
            }
        }
    }
}

/// Records that `k` is at `off`, replacing an earlier offset for `k`.
fn record_entry(keys: &mut Vec<(i32, i32)>, offs: &mut Vec<u64>, k: (i32, i32), off: u64, Ghost(m): Ghost<Map<(i32, i32), u64>>)
    requires
        pairs_match(old(keys)@, old(offs)@, m),
    ensures
        pairs_match(final(keys)@, final(offs)@, m.insert(k, off)),
{
    let ghost m1 = m.insert(k, off);
    let ghost k0 = keys@;
    let ghost o0 = offs@;
    match find_key(keys, k) {
        Some(i) => {
            offs.set(i, off);
            assert forall|t: int| 0 <= t < keys@.len() implies #[trigger] m1.contains_key(keys@[t])
                && m1[keys@[t]] == offs@[t] by {
                if t != i {
                    assert(keys@[t] != keys@[i as int]);
                    assert(0 <= t < o0.len());
                    assert(m.contains_key(keys@[t]));
                    assert(m[keys@[t]] == o0[t]);
                }
            }
            assert forall|q: (i32, i32)| #[trigger] m1.contains_key(q) implies exists|t: int|
                0 <= t < keys@.len() && keys@[t] == q by {
                if q != k {
                    assert(m.contains_key(q));
                } else {
                    assert(keys@[i as int] == q);
                }
            }
        },
        None => {
            keys.push(k);
            offs.push(off);
            assert forall|t: int| 0 <= t < keys@.len() implies #[trigger] m1.contains_key(keys@[t])
                && m1[keys@[t]] == offs@[t] by {
                if t < k0.len() {
                    assert(k0[t] != k);
                    assert(keys@[t] == k0[t]);
                    assert(m.contains_key(k0[t]));
                }
            }
            assert forall|a: int, b: int| 0 <= a < b < keys@.len() implies #[trigger] keys@[a]
                != #[trigger] keys@[b] by {
                if b == k0.len() {
                    assert(k0[a] != k);
                } else {
                    assert(k0[a] != k0[b]);
                }
            }
            assert forall|q: (i32, i32)| #[trigger] m1.contains_key(q) implies exists|t: int|
                0 <= t < keys@.len() && keys@[t] == q by {
                if q != k {
                    assert(m.contains_key(q));
                    let t0 = choose|t: int| 0 <= t < k0.len() && k0[t] == q;
                    assert(keys@[t0] == q);
                } else {
                    assert(keys@[keys@.len() - 1] == q);
                }
            }
        },
    }
}

/// Reads the directory that starts at `start`: the column offset of each (cx, cz), later
/// entries replacing earlier ones, entries whose offset is zero or past the end skipped.
fn read_directory(data: &[u8], start: usize) -> (r: (Vec<(i32, i32)>, Vec<u64>))
    requires
        start < data@.len(),
    ensures
        pairs_match(r.0@, r.1@, dir_map(data@, start as int)),
{
    let len: usize = data.len();
    let mut keys: Vec<(i32, i32)> = Vec::new();
    let mut offs: Vec<u64> = Vec::new();
    let mut pos: usize = start;
    let ghost mut n: nat = 0;
    while len - pos >= 16
        invariant
            len == data@.len(),
            start < len,
            pos == start + 16 * n,
            pos <= len,
            pairs_match(keys@, offs@, dir_map_upto(data@, start as int, n)),
        decreases len - pos,
    {
        let cx = read_i32_le(data, pos);
        let cz = read_i32_le(data, pos + 4);
        let offset = read_u64_le(data, pos + 8);
        assert(dir_entry(data@, start + 16 * n) == ((cx, cz), offset));
        if offset > 0 && offset < len as u64 {
            record_entry(&mut keys, &mut offs, (cx, cz), offset, Ghost(dir_map_upto(data@, start as int, n)));
        }
        pos = pos + 16;
        proof {
            n = n + 1;
        }
    }
    assert(n == dir_count(data@, start as int)) by {
        if n > 0 {
            assert((len - start) / 16 == n) by (nonlinear_arith)
                requires
                    16 * n <= len - start < 16 * n + 16;
        }
    }
    (keys, offs)
}

/// Cuts the column of each directory entry out of `data`, skipping columns that run past
/// the end of the file.
fn read_columns(data: &[u8], keys: &Vec<(i32, i32)>, offs: &Vec<u64>, Ghost(m): Ghost<Map<(i32, i32), u64>>) -> (cols: Vec<ChunkColumn>)
    requires
        pairs_match(keys@, offs@, m),
        forall|k: (i32, i32)| #[trigger] m.contains_key(k) ==> m[k] < data@.len(),
    ensures
        columns_match(cols@, data@, m),
{
    let len: usize = data.len();
    let mut cols: Vec<ChunkColumn> = Vec::new();
    let mut i: usize = 0;
    while i < keys.len()
        invariant
            len == data@.len(),
            i <= keys@.len(),
            pairs_match(keys@, offs@, m),
            forall|k: (i32, i32)| #[trigger] m.contains_key(k) ==> m[k] < data@.len(),
            forall|j: int| 0 <= j < cols@.len() ==> column_matches(#[trigger] cols@[j], data@, m),
            forall|j: int| 0 <= j < cols@.len() ==> exists|t: int|
                0 <= t < i && keys@[t] == (#[trigger] cols@[j].cx, cols@[j].cz),
            forall|a: int, b: int| 0 <= a < b < cols@.len() ==> (#[trigger] cols@[a].cx, cols@[a].cz)
                != (#[trigger] cols@[b].cx, cols@[b].cz),
            forall|t: int| 0 <= t < i && column_fits(data@, #[trigger] offs@[t]) ==> exists|j: int|
                0 <= j < cols@.len() && (#[trigger] cols@[j].cx, cols@[j].cz) == keys@[t],
        decreases keys@.len() - i,
    {
        let key = keys[i];
        let off64 = offs[i];
        assert(key == keys@[i as int]);
        assert(m.contains_key(keys@[i as int]));
        assert(m[keys@[i as int]] == offs@[i as int]);
        let off = off64 as usize;
        if len >= 32768 && off <= len - 32768 {
            let (blocks, paints) = read_column(data, off);
            let ghost c0 = cols@;
            let col = ChunkColumn { cx: key.0, cz: key.1, blocks, paints };
            assert forall|j: int| 0 <= j < c0.len() implies (#[trigger] c0[j].cx, c0[j].cz) != key by {
                let t = choose|t: int| 0 <= t < i && keys@[t] == (c0[j].cx, c0[j].cz);
                assert(keys@[t] != keys@[i as int]);
            }
            cols.push(col);
            assert forall|j: int| 0 <= j < cols@.len() implies exists|t: int|
                0 <= t < i + 1 && keys@[t] == (#[trigger] cols@[j].cx, cols@[j].cz) by {
                if j < c0.len() {
                    assert(cols@[j] == c0[j]);
                } else {
                    assert(keys@[i as int] == (cols@[j].cx, cols@[j].cz));
                }
            }
            assert forall|a: int, b: int| 0 <= a < b < cols@.len() implies (#[trigger] cols@[a].cx, cols@[a].cz)
                != (#[trigger] cols@[b].cx, cols@[b].cz) by {
                assert(cols@[a] == c0[a]);
                if b < c0.len() {
                    assert(cols@[b] == c0[b]);
                }
            }
            assert forall|t: int| 0 <= t < i + 1 && column_fits(data@, #[trigger] offs@[t]) implies exists|j: int|
                0 <= j < cols@.len() && (#[trigger] cols@[j].cx, cols@[j].cz) == keys@[t] by {
                if t < i {
                    let j0 = choose|j: int| 0 <= j < c0.len() && (c0[j].cx, c0[j].cz) == keys@[t];
                    assert(cols@[j0] == c0[j0]);
                } else {
                    assert(cols@[c0.len() as int] == col);
                    assert((cols@[c0.len() as int].cx, cols@[c0.len() as int].cz) == keys@[t]);
                }
            }
        }
        i = i + 1;
    }
    assert forall|k: (i32, i32)| #[trigger] m.contains_key(k) && column_fits(data@, m[k]) implies exists|j: int|
        0 <= j < cols@.len() && (#[trigger] cols@[j].cx, cols@[j].cz) == k by {
        let t = choose|t: int| 0 <= t < keys@.len() && keys@[t] == k;
        assert(m.contains_key(keys@[t]));
        assert(column_fits(data@, offs@[t]));
    }
    cols
}

/// Parses an Eden world file.
///
/// Fails, with the message of `parse_error`, when the file is shorter than the header, when
/// the directory starts past the end, or when the directory names no column. Otherwise the
/// header fields are read from their fixed offsets and the columns are the columns that the
/// directory names and that lie wholly inside the file, one per (cx, cz) (for a repeated
/// (cx, cz), the last entry wins), in no particular order.
pub fn parse_world(data: &[u8]) -> (r: Result<EdenWorld, String>)
    ensures
        r is Ok <==> parse_error(data@) is None,
        r matches Err(e) ==> parse_error(data@) == Some(e@),
        r matches Ok(w) ==> header_matches(w.header, data@) && columns_match(
            w.columns@,
            data@,
            dir_map(data@, dir_start(data@)),
        ),
        r matches Ok(w) ==> (vstd::utf8::valid_utf8(header_name_bytes(data@)) ==> w.header.name@
            == vstd::utf8::decode_utf8(header_name_bytes(data@))),
{
    let len: usize = data.len();
    if len < 228 {
        return Err(String::from_str("File too small to be a valid Eden world"));
    }
    let seed = read_i32_le(data, 0);
    let px = read_u32_le(data, 4);
    let py = read_u32_le(data, 8);
    let pz = read_u32_le(data, 12);
    let dir_off_u32 = read_u32_le(data, 32) as u64;
    let dir_off_u64 = read_u64_le(data, 32);
    let directory_offset = if dir_off_u64 < len as u64 && dir_off_u64 > 228 {
        dir_off_u64
    } else {
        dir_off_u32
    };
    let name = read_cstr(data, 40, 50);
    let version = read_i32_le(data, 90);
    let sky_colors = slice_to_vec(slice_subrange(data, 130, 146));
    let header = EdenHeader {
        seed,
        player_x_bits: px,
        player_y_bits: py,
        player_z_bits: pz,
        name,
        version,
        sky_colors,
        directory_offset,
    };
    let dir_off = directory_offset as usize;
    if dir_off >= len {
        let mut msg = String::from_str("Directory offset ");
        push_decimal(&mut msg, dir_off as u64);
        msg.append(" beyond file size ");
        push_decimal(&mut msg, len as u64);
        return Err(msg);
    }
    let (keys, offs) = read_directory(data, dir_off);
    let ghost m = dir_map(data@, dir_off as int);
    proof {
        lemma_dir_map_inside(data@, dir_off as int, dir_count(data@, dir_off as int));
    }
    if keys.len() == 0 {
        assert(m.dom() =~= Set::<(i32, i32)>::empty());
        return Err(String::from_str("No valid chunk columns found in directory"));
    }
    assert(m.contains_key(keys@[0]));
    assert(m.dom() != Set::<(i32, i32)>::empty());
    let columns = read_columns(data, &keys, &offs, Ghost(m));
    Ok(EdenWorld { header, columns })
}

/// Index of voxel (x, z, y) in an Eden sub-chunk: x-major, then z, then y.
pub open spec fn eden_index(x: int, z: int, y: int) -> int {
    x * 256 + z * 16 + y
}

/// Index of voxel (x, z, y) in an Anvil section: y-major, then z, then x.
pub open spec fn anvil_index(x: int, z: int, y: int) -> int {
    (y * 16 + z) * 16 + x
}

/// Voxel index within an Eden sub-chunk's flat array: `x * 256 + z * 16 + y`.
pub fn eden_voxel_idx(x: usize, z: usize, y: usize) -> (i: usize)
    requires
        eden_index(x as int, z as int, y as int) <= usize::MAX,
    ensures
        i == eden_index(x as int, z as int, y as int),
{
    x * 256 + z * 16 + y
}

/// Voxel index within an Anvil section's flat array: `(y * 16 + z) * 16 + x`.
pub fn anvil_voxel_idx(x: usize, z: usize, y: usize) -> (i: usize)
    requires
        anvil_index(x as int, z as int, y as int) <= usize::MAX,
    ensures
        i == anvil_index(x as int, z as int, y as int),
{
    (y * 16 + z) * 16 + x
}

/// Both voxel layouts number the 4096 voxels of a 16x16x16 cube: every in-range voxel gets an
/// index below 4096, and each index below 4096 belongs to exactly one voxel in each layout.
pub proof fn lemma_voxel_layouts_are_bijections(x: int, z: int, y: int, i: int)
    requires
        0 <= x < 16,
        0 <= z < 16,
        0 <= y < 16,
        0 <= i < 4096,
    ensures
        0 <= eden_index(x, z, y) < 4096,
        0 <= anvil_index(x, z, y) < 4096,
        eden_index(i / 256, (i / 16) % 16, i % 16) == i,
        anvil_index(i % 16, (i / 16) % 16, i / 256) == i,
        eden_index(x, z, y) == i <==> (x == i / 256 && z == (i / 16) % 16 && y == i % 16),
        anvil_index(x, z, y) == i <==> (x == i % 16 && z == (i / 16) % 16 && y == i / 256),
{
    assert(eden_index(i / 256, (i / 16) % 16, i % 16) == i) by (nonlinear_arith)
        requires 0 <= i < 4096;
    assert(anvil_index(i % 16, (i / 16) % 16, i / 256) == i) by (nonlinear_arith)
        requires 0 <= i < 4096;
    assert(eden_index(x, z, y) == i ==> (x == i / 256 && z == (i / 16) % 16 && y == i % 16)) by (nonlinear_arith)
        requires 0 <= x < 16, 0 <= z < 16, 0 <= y < 16, 0 <= i < 4096;
    assert(anvil_index(x, z, y) == i ==> (x == i % 16 && z == (i / 16) % 16 && y == i / 256)) by (nonlinear_arith)
        requires 0 <= x < 16, 0 <= z < 16, 0 <= y < 16, 0 <= i < 4096;
}

} // verus!
