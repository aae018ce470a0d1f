//! Conversion of a parsed Eden world into the files of a Minecraft 1.12 world: `level.dat`
//! and one Anvil region file per 32x32 chunks.

use vstd::prelude::*;
use vstd::string::*;
use vstd::utf8::encode_utf8;
use vstd::slice::slice_to_vec;
use crate::anvil::{AnvilArchive, ArchiveView, SectionView, archive_write, archive_wf, region_name, region_file, sections_view, sections_complete};
use crate::block_map::{BlockMapping, McBlock, resolve, resolve_spec, EntryView};
use crate::eden::{EdenWorld, ChunkColumn, eden_index, eden_voxel_idx, anvil_voxel_idx, lemma_voxel_layouts_are_bijections};
use crate::level_dat::{build_level_dat, gzip_best, level_dat_nbt};

verus! {

/// The Minecraft block of the voxel at Anvil index `a` of sub-chunk `cy` of a column whose
/// block types are `blocks` and paint bytes `paints`.
pub open spec fn voxel_block(m: Map<u8, EntryView>, blocks: Seq<u8>, paints: Seq<u8>, cy: int, a: int) -> McBlock {
    let e = cy * 4096 + eden_index(a % 16, (a / 16) % 16, a / 256);
    resolve_spec(m, blocks[e], paints[e])
}

/// The 4-bit metadata stored for the voxel at Anvil index `a`: its block's metadata, or 0
/// for air.
pub open spec fn voxel_nibble(m: Map<u8, EntryView>, blocks: Seq<u8>, paints: Seq<u8>, cy: int, a: int) -> u8 {
    let b = voxel_block(m, blocks, paints, cy, a);
    if b.id == 0 {
        0
    } else {
        b.meta & 0x0Fu8
    }
}

/// The `Blocks` array of sub-chunk `cy`: the block id of each voxel in Anvil order.
pub open spec fn section_blocks(m: Map<u8, EntryView>, blocks: Seq<u8>, paints: Seq<u8>, cy: int) -> Seq<u8> {
    Seq::new(4096, |a: int| voxel_block(m, blocks, paints, cy, a).id)
}

/// The `Data` array of sub-chunk `cy`: two voxels per byte, the even Anvil index in the low
/// four bits.
pub open spec fn section_data(m: Map<u8, EntryView>, blocks: Seq<u8>, paints: Seq<u8>, cy: int) -> Seq<u8> {
    Seq::new(
        2048,
        |j: int|
            voxel_nibble(m, blocks, paints, cy, 2 * j) | (voxel_nibble(m, blocks, paints, cy, 2 * j + 1)
                << 4u8),
    )
}

/// Sub-chunk `cy` holds at least one non-air block.
pub open spec fn section_has_blocks(m: Map<u8, EntryView>, blocks: Seq<u8>, paints: Seq<u8>, cy: int) -> bool {
    exists|a: int| 0 <= a < 4096 && #[trigger] voxel_block(m, blocks, paints, cy, a).id != 0
}

/// The sections of the first `k` sub-chunks of a column: one per sub-chunk that holds a
/// non-air block, bottom first.
pub open spec fn column_sections_upto(m: Map<u8, EntryView>, blocks: Seq<u8>, paints: Seq<u8>, k: nat) -> Seq<SectionView>
    decreases k,
{
    if k == 0 {
        Seq::empty()
    } else {
        let prev = column_sections_upto(m, blocks, paints, (k - 1) as nat);
        let cy = k - 1;
        if section_has_blocks(m, blocks, paints, cy) {
            prev.push(
                (
                    cy as u8,
                    section_blocks(m, blocks, paints, cy),
                    section_data(m, blocks, paints, cy),
                ),
            )
        } else {
            prev
        }
    }
}

/// The sections of a whole column (four sub-chunks).
pub open spec fn column_sections_spec(m: Map<u8, EntryView>, blocks: Seq<u8>, paints: Seq<u8>) -> Seq<SectionView> {
    column_sections_upto(m, blocks, paints, 4)
}

/// A column holds its four sub-chunks of block types and paint bytes.
pub open spec fn column_complete(c: ChunkColumn) -> bool {
    c.blocks@.len() >= 16384 && c.paints@.len() >= 16384
}

proof fn lemma_anvil_to_eden(a: int)
    requires
        0 <= a < 4096,
    ensures
        0 <= eden_index(a % 16, (a / 16) % 16, a / 256) < 4096,
        0 <= a % 16 < 16,
        0 <= (a / 16) % 16 < 16,
        0 <= a / 256 < 16,
{
    assert(0 <= a % 16 < 16 && 0 <= (a / 16) % 16 < 16 && 0 <= a / 256 < 16) by (nonlinear_arith)
        requires 0 <= a < 4096;
    lemma_voxel_layouts_are_bijections(a % 16, (a / 16) % 16, a / 256, a);
}

proof fn lemma_nibble_set_low(d: u8, lo: u8, hi: u8, v: u8)
    requires
        d == lo | (hi << 4u8),
        lo == 0,
        hi < 16,
    ensures
        ((d & 0xF0u8) | (v & 0x0Fu8)) == (v & 0x0Fu8) | (hi << 4u8),
{
    assert(((d & 0xF0u8) | (v & 0x0Fu8)) == (v & 0x0Fu8) | (hi << 4u8)) by (bit_vector)
        requires
            d == lo | (hi << 4u8),
            lo == 0,
            hi < 16;
}

proof fn lemma_nibble_set_high(d: u8, lo: u8, hi: u8, v: u8)
    requires
        d == lo | (hi << 4u8),
        lo < 16,
        hi == 0,
    ensures
        ((d & 0x0Fu8) | ((v & 0x0Fu8) << 4u8)) == lo | ((v & 0x0Fu8) << 4u8),
{
    assert(((d & 0x0Fu8) | ((v & 0x0Fu8) << 4u8)) == lo | ((v & 0x0Fu8) << 4u8)) by (bit_vector)
        requires
            d == lo | (hi << 4u8),
            lo < 16,
            hi == 0;
}

proof fn lemma_nibble_bounds(v: u8)
    ensures
        (v & 0x0Fu8) < 16,
        (0u8 | (0u8 << 4u8)) == 0u8,
{
    assert((v & 0x0Fu8) < 16) by (bit_vector);
    assert((0u8 | (0u8 << 4u8)) == 0u8) by (bit_vector);
}

/// Which voxels (by Anvil index) of a sub-chunk have been converted once the first `e`
/// voxels in Eden order are done.
pub open spec fn converted(a: int, e: int) -> bool {
    eden_index(a % 16, (a / 16) % 16, a / 256) < e
}

/// The metadata nibble of voxel `a` after the first `e` voxels in Eden order are done.
pub open spec fn nibble_so_far(m: Map<u8, EntryView>, blocks: Seq<u8>, paints: Seq<u8>, cy: int, a: int, e: int) -> u8 {
    if converted(a, e) {
        voxel_nibble(m, blocks, paints, cy, a)
    } else {
        0
    }
}

/// The Anvil index of the `e`-th voxel in Eden order.
pub open spec fn anvil_of_eden(e: int) -> int {
    ((e % 16) * 16 + (e / 16) % 16) * 16 + e / 256
}

/// Converting the `e`-th voxel in Eden order converts exactly the voxel at
/// `anvil_of_eden(e)`, which was not converted before.
proof fn lemma_converted_step(e: int)
    requires
        0 <= e < 4096,
    ensures
        0 <= anvil_of_eden(e) < 4096,
        !converted(anvil_of_eden(e), e),
        forall|a: int| 0 <= a < 4096 ==> (#[trigger] converted(a, e + 1) <==> (converted(a, e) || a == anvil_of_eden(e))),
{
    let ai = anvil_of_eden(e);
    lemma_voxel_layouts_are_bijections(e / 256, (e / 16) % 16, e % 16, e);
    assert(0 <= e / 256 < 16 && 0 <= (e / 16) % 16 < 16 && 0 <= e % 16 < 16) by (nonlinear_arith)
        requires 0 <= e < 4096;
    lemma_voxel_layouts_are_bijections(e / 256, (e / 16) % 16, e % 16, ai);
    lemma_anvil_to_eden(ai);
    lemma_voxel_layouts_are_bijections(ai % 16, (ai / 16) % 16, ai / 256, ai);
    lemma_voxel_layouts_are_bijections(ai % 16, (ai / 16) % 16, ai / 256, e);
    assert forall|a: int| 0 <= a < 4096 implies (#[trigger] converted(a, e + 1) <==> (converted(a, e) || a == ai)) by {
        lemma_anvil_to_eden(a);
        lemma_voxel_layouts_are_bijections(a % 16, (a / 16) % 16, a / 256, e);
        lemma_voxel_layouts_are_bijections(a % 16, (a / 16) % 16, a / 256, a);
    }
}

proof fn lemma_voxel_nibble_small(m: Map<u8, EntryView>, bs: Seq<u8>, ps: Seq<u8>, c: int, a: int)
    ensures
        voxel_nibble(m, bs, ps, c, a) < 16,
{
    lemma_nibble_bounds(voxel_block(m, bs, ps, c, a).meta);
}

/// The `Data` byte that holds voxel `ai` after it is converted.
proof fn lemma_data_step(
    m: Map<u8, EntryView>,
    bs: Seq<u8>,
    ps: Seq<u8>,
    c: int,
    e: int,
    d0: Seq<u8>,
    d1: Seq<u8>,
    mc: McBlock,
)
    requires
        0 <= e < 4096,
        d0.len() == 2048,
        mc == voxel_block(m, bs, ps, c, anvil_of_eden(e)),
        forall|j: int| 0 <= j < 2048 ==> #[trigger] d0[j] == nibble_so_far(m, bs, ps, c, 2 * j, e)
            | (nibble_so_far(m, bs, ps, c, 2 * j + 1, e) << 4u8),
        mc.id == 0 ==> d1 == d0,
        mc.id != 0 && anvil_of_eden(e) % 2 == 0 ==> d1 == d0.update(
            anvil_of_eden(e) / 2,
            (d0[anvil_of_eden(e) / 2] & 0xF0u8) | (mc.meta & 0x0Fu8),
        ),
        mc.id != 0 && anvil_of_eden(e) % 2 == 1 ==> d1 == d0.update(
            anvil_of_eden(e) / 2,
            (d0[anvil_of_eden(e) / 2] & 0x0Fu8) | ((mc.meta & 0x0Fu8) << 4u8),
        ),
    ensures
        forall|j: int| 0 <= j < 2048 ==> #[trigger] d1[j] == nibble_so_far(m, bs, ps, c, 2 * j, e + 1)
            | (nibble_so_far(m, bs, ps, c, 2 * j + 1, e + 1) << 4u8),
{
    let ai = anvil_of_eden(e);
    lemma_converted_step(e);
    assert forall|j: int| 0 <= j < 2048 implies #[trigger] d1[j] == nibble_so_far(m, bs, ps, c, 2 * j, e + 1)
        | (nibble_so_far(m, bs, ps, c, 2 * j + 1, e + 1) << 4u8) by {
        assert(converted(2 * j, e + 1) <==> (converted(2 * j, e) || 2 * j == ai));
        assert(converted(2 * j + 1, e + 1) <==> (converted(2 * j + 1, e) || 2 * j + 1 == ai));
        let lo = nibble_so_far(m, bs, ps, c, 2 * j, e);
        let hi = nibble_so_far(m, bs, ps, c, 2 * j + 1, e);
        lemma_voxel_nibble_small(m, bs, ps, c, 2 * j);
        lemma_voxel_nibble_small(m, bs, ps, c, 2 * j + 1);
        if j == ai / 2 {
            assert(d0[j] == lo | (hi << 4u8));
            if mc.id == 0 {
                assert(voxel_nibble(m, bs, ps, c, ai) == 0);
            } else if ai % 2 == 0 {
                assert(2 * j == ai);
                lemma_nibble_set_low(d0[j], lo, hi, mc.meta);
            } else {
                assert(2 * j + 1 == ai);
                lemma_nibble_set_high(d0[j], lo, hi, mc.meta);
            }
        } else {
            assert(d1[j] == d0[j]);
        }
    }
}

/// Converts sub-chunk `cy` of a column: the `Blocks` and `Data` arrays and whether it holds
/// any non-air block.
#[verifier::rlimit(40)]
pub fn build_section(mapping: &BlockMapping, col: &ChunkColumn, cy: usize) -> (r: (Vec<u8>, Vec<u8>, bool))
    requires
        column_complete(*col),
        cy < 4,
    ensures
        r.0@ == section_blocks(mapping@, col.blocks@, col.paints@, cy as int),
        r.1@ == section_data(mapping@, col.blocks@, col.paints@, cy as int),
        r.2 == section_has_blocks(mapping@, col.blocks@, col.paints@, cy as int),
{
    let ghost m = mapping@;
    let ghost bs = col.blocks@;
    let ghost ps = col.paints@;
    let ghost c = cy as int;
    let mut blks: Vec<u8> = vec![0u8; 4096];
    let mut data: Vec<u8> = vec![0u8; 2048];
    let mut has_blocks = false;
    let mut e: usize = 0;
    proof {
        lemma_nibble_bounds(0);
    }
    while e < 4096
        invariant
            e <= 4096,
            cy < 4,
            column_complete(*col),
            m == mapping@,
            bs == col.blocks@,
            ps == col.paints@,
            c == cy as int,
            blks@.len() == 4096,
            data@.len() == 2048,
            forall|a: int| 0 <= a < 4096 ==> #[trigger] blks@[a] == if converted(a, e as int) {
                voxel_block(m, bs, ps, c, a).id
            } else {
                0
            },
            forall|j: int| 0 <= j < 2048 ==> #[trigger] data@[j] == nibble_so_far(m, bs, ps, c, 2 * j, e as int)
                | (nibble_so_far(m, bs, ps, c, 2 * j + 1, e as int) << 4u8),
            has_blocks <==> exists|a: int| 0 <= a < 4096 && converted(a, e as int) && #[trigger] voxel_block(m, bs, ps, c, a).id != 0,
        decreases 4096 - e,
    {
        let ex = e / 256;
        let ez = (e / 16) % 16;
        let ey = e % 16;
        proof {
            lemma_voxel_layouts_are_bijections(ex as int, ez as int, ey as int, e as int);
            lemma_converted_step(e as int);
        }
        let local_idx = eden_voxel_idx(ex, ez, ey);
        let block_type = col.blocks[cy * 4096 + local_idx];
        let paint_byte = col.paints[cy * 4096 + local_idx];
        let mc = resolve(mapping, block_type, paint_byte);
        let anvil_idx = anvil_voxel_idx(ex, ez, ey);
        let ghost ai = anvil_idx as int;
        proof {
            assert(ai == anvil_of_eden(e as int));
            lemma_anvil_to_eden(ai);
            lemma_voxel_layouts_are_bijections(ai % 16, (ai / 16) % 16, ai / 256, ai);
            lemma_voxel_layouts_are_bijections(ai % 16, (ai / 16) % 16, ai / 256, e as int);
            assert(mc == voxel_block(m, bs, ps, c, ai));
        }
        let ghost d0 = data@;
        let ghost b0 = blks@;
        if mc.id != 0 {
            has_blocks = true;
            blks.set(anvil_idx, mc.id);
            let nibble_idx = anvil_idx / 2;
            let old_byte = data[nibble_idx];
            if anvil_idx % 2 == 0 {
                data.set(nibble_idx, (old_byte & 0xF0u8) | (mc.meta & 0x0Fu8));
            } else {
                data.set(nibble_idx, (old_byte & 0x0Fu8) | ((mc.meta & 0x0Fu8) << 4u8));
            }
        }
        proof {
            lemma_data_step(m, bs, ps, c, e as int, d0, data@, mc);
            assert forall|a: int| 0 <= a < 4096 implies #[trigger] blks@[a] == if converted(a, e + 1) {
                voxel_block(m, bs, ps, c, a).id
            } else {
                0
            } by {
                if a != ai {
                    assert(blks@[a] == b0[a]);
                }
            }
            if exists|a: int| 0 <= a < 4096 && converted(a, e + 1) && #[trigger] voxel_block(m, bs, ps, c, a).id != 0 {
                let a = choose|a: int| 0 <= a < 4096 && converted(a, e + 1) && #[trigger] voxel_block(m, bs, ps, c, a).id != 0;
                if a != ai {
                    assert(converted(a, e as int));
                }
            }
            if has_blocks && mc.id == 0 {
                let a = choose|a: int| 0 <= a < 4096 && converted(a, e as int) && #[trigger] voxel_block(m, bs, ps, c, a).id != 0;
                assert(converted(a, e + 1));
            }
        }
        e = e + 1;
    }
    proof {
        assert forall|a: int| 0 <= a < 4096 implies converted(a, 4096) by {
            lemma_anvil_to_eden(a);
        }
        assert(blks@ =~= section_blocks(m, bs, ps, c));
        assert forall|j: int| 0 <= j < 2048 implies #[trigger] data@[j] == section_data(m, bs, ps, c)[j] by {
            assert(converted(2 * j, 4096) && converted(2 * j + 1, 4096));
        }
        assert(data@ =~= section_data(m, bs, ps, c));
    }
    (blks, data, has_blocks)
}

/// Converts all four sub-chunks of a column and keeps those that hold a non-air block,
/// bottom first.
pub fn column_sections(mapping: &BlockMapping, col: &ChunkColumn) -> (secs: Vec<(u8, Vec<u8>, Vec<u8>)>)
    requires
        column_complete(*col),
    ensures
        sections_view(secs@) == column_sections_spec(mapping@, col.blocks@, col.paints@),
        sections_complete(sections_view(secs@)),
{
    let mut secs: Vec<(u8, Vec<u8>, Vec<u8>)> = Vec::new();
    let mut cy: usize = 0;
    while cy < 4
        invariant
            cy <= 4,
            column_complete(*col),
            sections_view(secs@) == column_sections_upto(mapping@, col.blocks@, col.paints@, cy as nat),
            sections_complete(sections_view(secs@)),
        decreases 4 - cy,
    {
        let (blks, data, has_blocks) = build_section(mapping, col, cy);
        if has_blocks {
            let ghost s0 = secs@;
            secs.push((cy as u8, blks, data));
            assert(sections_view(secs@) =~= sections_view(s0).push((cy as u8, blks@, data@)));
        }
        cy = cy + 1;
    }
    secs
}

/// The region files after writing every column of `cols`, in order, each moved by
/// (-`ox`, -`oz`) chunks.
pub open spec fn archive_after(m: Map<u8, EntryView>, cols: Seq<ChunkColumn>, ox: i32, oz: i32) -> ArchiveView
    decreases cols.len(),
{
    if cols.len() == 0 {
        Seq::empty()
    } else {
        let c = cols.last();
        archive_write(
            archive_after(m, cols.drop_last(), ox, oz),
            (c.cx - ox) as i32,
            (c.cz - oz) as i32,
            column_sections_spec(m, c.blocks@, c.paints@),
        )
    }
}

/// Every column can be converted: it holds four sub-chunks, its chunk position moved by
/// (-`ox`, -`oz`) is an `i32`, and when it holds blocks that chunk's region can be computed.
pub open spec fn convertible(m: Map<u8, EntryView>, cols: Seq<ChunkColumn>, ox: i32, oz: i32) -> bool {
    forall|i: int| 0 <= i < cols.len() ==> {
        &&& column_complete(#[trigger] cols[i])
        &&& i32::MIN <= cols[i].cx - ox <= i32::MAX
        &&& i32::MIN <= cols[i].cz - oz <= i32::MAX
        &&& column_sections_spec(m, cols[i].blocks@, cols[i].paints@).len() > 0 ==> i32::MIN + 31
            <= cols[i].cx - ox && i32::MIN + 31 <= cols[i].cz - oz
    }
}

/// Converts a parsed Eden world into the files of a Minecraft world: first `level.dat`
/// (named after the world, with its seed, spawning at (0, `spawn_y`, 0)), then one region
/// file per region that received a chunk. Column (cx, cz) becomes chunk
/// (cx - `origin_cx`, cz - `origin_cz`); sub-chunks without blocks are left out, and
/// columns without any block write no chunk.
pub fn convert_world(mapping: &BlockMapping, world: &EdenWorld, origin_cx: i32, origin_cz: i32, spawn_y: i32) -> (files: Vec<(String, Vec<u8>)>)
    requires
        convertible(mapping@, world.columns@, origin_cx, origin_cz),
    ensures
        ({
            let v = archive_after(mapping@, world.columns@, origin_cx, origin_cz);
            &&& files@.len() == 1 + v.len()
            &&& files@[0].0@ == "level.dat"@
            &&& files@[0].1@ == gzip_best(
                level_dat_nbt(encode_utf8(world.header.name@), world.header.seed, 0, spawn_y, 0),
            )
            &&& forall|i: int|
                0 <= i < v.len() ==> {
                    &&& (#[trigger] files@[i + 1]).0@ == region_name(v[i].0.0, v[i].0.1)
                    &&& files@[i + 1].1@ == region_file(v[i].1)
                }
        }),
{
    let mut archive = AnvilArchive::new();
    let mut i: usize = 0;
    while i < world.columns.len()
        invariant
            i <= world.columns@.len(),
            convertible(mapping@, world.columns@, origin_cx, origin_cz),
            archive.wf(),
            archive@ == archive_after(mapping@, world.columns@.take(i as int), origin_cx, origin_cz),
        decreases world.columns@.len() - i,
    {
        let col = &world.columns[i];
        assert(column_complete(world.columns@[i as int]));
        let out_cx = col.cx - origin_cx;
        let out_cz = col.cz - origin_cz;
        let sections = column_sections(mapping, col);
        archive.write_chunk(out_cx, out_cz, sections);
        assert(world.columns@.take(i + 1).drop_last() =~= world.columns@.take(i as int));
        i = i + 1;
    }
    assert(world.columns@.take(i as int) =~= world.columns@);
    let level_dat = build_level_dat(world.header.name.as_str(), world.header.seed, 0, spawn_y, 0);
    let mut files = archive.into_files();
    let ghost all = files@;
    files.insert(0, (String::from_str("level.dat"), level_dat));
    assert forall|k: int| 0 <= k < all.len() implies #[trigger] files@[k + 1] == all[k] by {}
    files
}

/// Conversion keeps every voxel in place: the Anvil section of sub-chunk `cy` holds, at the
/// Anvil index of (x, z, y), the id of the Minecraft block that the Eden voxel at the Eden
/// index of (x, z, y) resolves to, and its metadata in the matching half of the `Data` byte
/// (low half for even indices).
pub proof fn lemma_conversion_keeps_positions(
    m: Map<u8, EntryView>,
    blocks: Seq<u8>,
    paints: Seq<u8>,
    cy: int,
    x: int,
    z: int,
    y: int,
)
    requires
        0 <= x < 16,
        0 <= z < 16,
        0 <= y < 16,
    ensures
        ({
            let a = crate::eden::anvil_index(x, z, y);
            let e = cy * 4096 + eden_index(x, z, y);
            let b = resolve_spec(m, blocks[e], paints[e]);
            let nib: u8 = if b.id == 0 { 0 } else { b.meta & 0x0Fu8 };
            let byte = section_data(m, blocks, paints, cy)[a / 2];
            &&& section_blocks(m, blocks, paints, cy)[a] == b.id
            &&& a % 2 == 0 ==> byte & 0x0Fu8 == nib
            &&& a % 2 == 1 ==> byte >> 4u8 == nib
        }),
{
    let a = crate::eden::anvil_index(x, z, y);
    lemma_voxel_layouts_are_bijections(x, z, y, a);
    lemma_anvil_to_eden(a);
    assert(a % 16 == x && (a / 16) % 16 == z && a / 256 == y);
    let j = a / 2;
    assert(0 <= j < 2048 && (a % 2 == 0 ==> a == 2 * j) && (a % 2 == 1 ==> a == 2 * j + 1)) by (nonlinear_arith)
        requires 0 <= a < 4096, j == a / 2;
    let lo = voxel_nibble(m, blocks, paints, cy, 2 * j);
    let hi = voxel_nibble(m, blocks, paints, cy, 2 * j + 1);
    lemma_voxel_nibble_small(m, blocks, paints, cy, 2 * j);
    lemma_voxel_nibble_small(m, blocks, paints, cy, 2 * j + 1);
    assert((lo | (hi << 4u8)) & 0x0Fu8 == lo && (lo | (hi << 4u8)) >> 4u8 == hi) by (bit_vector)
        requires lo < 16, hi < 16;
}

/// The four bytes that open a ZIP archive: "PK\x03\x04".
pub open spec fn zip_magic() -> Seq<u8> {
    seq![0x50u8, 0x4B, 0x03, 0x04]
}

/// Whether `bytes` starts like a ZIP archive (an Eden world that was zipped for transport).
pub fn is_zip_archive(bytes: &[u8]) -> (r: bool)
    ensures
        r == (bytes@.len() >= 4 && bytes@.take(4) == zip_magic()),
{
    if bytes.len() < 4 {
        return false;
    }
    let r = bytes[0] == 0x50u8 && bytes[1] == 0x4Bu8 && bytes[2] == 0x03u8 && bytes[3] == 0x04u8;
    assert(r == (bytes@.take(4) =~= zip_magic()));
    r
}

/// Conversion recentres the world: the `i`-th column is written as chunk
/// (cx - `ox`, cz - `oz`), so the column at the origin (the player's column) becomes chunk
/// (0, 0).
pub proof fn lemma_recentring(m: Map<u8, EntryView>, cols: Seq<ChunkColumn>, ox: i32, oz: i32, i: int)
    requires
        0 <= i < cols.len(),
        convertible(m, cols, ox, oz),
    ensures
        archive_after(m, cols.take(i + 1), ox, oz) == archive_write(
            archive_after(m, cols.take(i), ox, oz),
            (cols[i].cx - ox) as i32,
            (cols[i].cz - oz) as i32,
            column_sections_spec(m, cols[i].blocks@, cols[i].paints@),
        ),
        cols[i].cx == ox && cols[i].cz == oz ==> (cols[i].cx - ox) as i32 == 0 && (cols[i].cz - oz) as i32 == 0,
{
    assert(cols.take(i + 1).drop_last() =~= cols.take(i));
    assert(cols.take(i + 1).last() == cols[i]);
}

/// What `zip::ZipArchive::new` makes of `bytes`: the number of entries in the archive, or
/// the text of the error.
pub uninterp spec fn zip_entry_count(bytes: Seq<u8>) -> Result<nat, Seq<char>>;

/// Opens `bytes` as a ZIP archive with `zip::ZipArchive::new` over an in-memory cursor.
/// Trusted: the result is `zip_entry_count` of the bytes, the entry count from
/// `ZipArchive::len` or the `Display` text of the `ZipError`.
#[verifier::external_body]
fn zip_count_entries(bytes: &[u8]) -> (r: Result<usize, String>)
    ensures
        match r {
            Ok(n) => zip_entry_count(bytes@) == Ok::<nat, Seq<char>>(n as nat),
            Err(e) => zip_entry_count(bytes@) == Err::<nat, Seq<char>>(e@),
        },
{
    match zip::ZipArchive::new(std::io::Cursor::new(bytes)) {
        Ok(archive) => Ok(archive.len()),
        Err(e) => Err(e.to_string()),
    }
}

/// Why the first entry of a ZIP archive could not be read: the entry could not be opened,
/// or its data could not be decompressed.
pub enum ZipEntryFailure {
    Entry(String),
    Read(String),
}

/// What reading the first entry of the ZIP archive `bytes` gives: its decompressed bytes,
/// or (whether the failure was in decompressing, the error's text).
pub uninterp spec fn zip_first_entry(bytes: Seq<u8>) -> Result<Seq<u8>, (bool, Seq<char>)>;

/// Reads entry 0 of the ZIP archive `bytes` with `ZipArchive::by_index` and
/// `Read::read_to_end`. Trusted: the result is `zip_first_entry` of the bytes; a failure to
/// open the archive or the entry is an `Entry` failure and a failure while decompressing
/// is a `Read` failure, each with the error's `Display` text.
#[verifier::external_body]
fn zip_read_first_entry(bytes: &[u8]) -> (r: Result<Vec<u8>, ZipEntryFailure>)
    ensures
        match r {
            Ok(v) => zip_first_entry(bytes@) == Ok::<Seq<u8>, (bool, Seq<char>)>(v@),
            Err(ZipEntryFailure::Entry(e)) => zip_first_entry(bytes@) == Err::<Seq<u8>, (bool, Seq<char>)>((false, e@)),
            Err(ZipEntryFailure::Read(e)) => zip_first_entry(bytes@) == Err::<Seq<u8>, (bool, Seq<char>)>((true, e@)),
        },
{
    let mut archive = match zip::ZipArchive::new(std::io::Cursor::new(bytes)) {
        Ok(a) => a,
        Err(e) => return Err(ZipEntryFailure::Entry(e.to_string())),
    };
    let mut entry = match archive.by_index(0) {
        Ok(f) => f,
        Err(e) => return Err(ZipEntryFailure::Entry(e.to_string())),
    };
    let mut buf = Vec::new();
    match std::io::Read::read_to_end(&mut entry, &mut buf) {
        Ok(_) => Ok(buf),
        Err(e) => Err(ZipEntryFailure::Read(e.to_string())),
    }
}

/// The Eden world inside an upload: the bytes themselves unless they start like a ZIP
/// archive; then the first entry of the archive, or an error when the archive cannot be
/// opened, holds no entry, or its first entry cannot be read.
pub open spec fn unzip_upload(b: Seq<u8>) -> Result<Seq<u8>, Seq<char>> {
    if !(b.len() >= 4 && b.take(4) == zip_magic()) {
        Ok(b)
    } else {
        match zip_entry_count(b) {
            Err(e) => Err("Invalid ZIP archive: "@ + e),
            Ok(n) => if n == 0 {
                Err("ZIP archive contains no files"@)
            } else {
                match zip_first_entry(b) {
                    Ok(v) => Ok(v),
                    Err(f) => if f.0 {
                        Err("ZIP decompression failed: "@ + f.1)
                    } else {
                        Err("Cannot read ZIP entry: "@ + f.1)
                    },
                }
            },
        }
    }
}

/// Unwraps an upload that may be a ZIP archive holding the Eden world (see `unzip_upload`).
pub fn decompress_if_zip(bytes: &[u8]) -> (r: Result<Vec<u8>, String>)
    ensures
        match r {
            Ok(v) => unzip_upload(bytes@) == Ok::<Seq<u8>, Seq<char>>(v@),
            Err(e) => unzip_upload(bytes@) == Err::<Seq<u8>, Seq<char>>(e@),
        },
{
    if !is_zip_archive(bytes) {
        return Ok(slice_to_vec(bytes));
    }
    match zip_count_entries(bytes) {
        Err(e) => {
            let mut msg = String::from_str("Invalid ZIP archive: ");
            msg.append(e.as_str());
            Err(msg)
        },
        Ok(n) => {
            if n == 0 {
                return Err(String::from_str("ZIP archive contains no files"));
            }
            match zip_read_first_entry(bytes) {
                Ok(v) => Ok(v),
                Err(ZipEntryFailure::Entry(e)) => {
                    let mut msg = String::from_str("Cannot read ZIP entry: ");
                    msg.append(e.as_str());
                    Err(msg)
                },
                Err(ZipEntryFailure::Read(e)) => {
                    let mut msg = String::from_str("ZIP decompression failed: ");
                    msg.append(e.as_str());
                    Err(msg)
                },
            }
        },
    }
}

/// A `zip::ZipWriter` over an in-memory cursor, held in a private field because Verus
/// refuses a declaration of the writer type (its parameter carries `Write + Seek` bounds).
#[verifier::external_body]
pub struct ZipPack {
    writer: zip::ZipWriter<std::io::Cursor<Vec<u8>>>,
}

/// The calls made so far on a ZIP writer, in order: (0, name, []) for a directory entry,
/// (1, name, []) for the start of a file, (2, "", data) for data written to the current
/// file.
pub uninterp spec fn zip_log(w: ZipPack) -> Seq<(u8, Seq<char>, Seq<u8>)>;

/// Whether the `ZipWriter::start_file` call that ends `log` failed, and with what error
/// text, after the calls before it.
pub uninterp spec fn zip_start_error(log: Seq<(u8, Seq<char>, Seq<u8>)>) -> Option<Seq<char>>;

/// Whether the `Write::write_all` call that ends `log` failed, and with what error text,
/// after the calls before it.
pub uninterp spec fn zip_write_error(log: Seq<(u8, Seq<char>, Seq<u8>)>) -> Option<Seq<char>>;

/// What `ZipWriter::finish` gives after the calls `log`: the archive's bytes, or the text
/// of the error.
pub uninterp spec fn zip_finished(log: Seq<(u8, Seq<char>, Seq<u8>)>) -> Result<Seq<u8>, Seq<char>>;

/// `zip::ZipWriter::new` over an empty in-memory cursor. Trusted: no call is logged yet.
#[verifier::external_body]
fn zip_writer_new() -> (w: ZipPack)
    ensures
        zip_log(w) == Seq::<(u8, Seq<char>, Seq<u8>)>::empty(),
{
    ZipPack { writer: zip::ZipWriter::new(std::io::Cursor::new(Vec::new())) }
}

/// `ZipWriter::add_directory` with deflate file options. Trusted: the call is logged,
/// whatever it returns (the writer's state is a function of the calls made on it: with
/// the crate's `time` feature off, entries carry a fixed time stamp).
#[verifier::external_body]
fn zip_add_directory(w: &mut ZipPack, name: &str) -> (r: Result<(), String>)
    ensures
        zip_log(*final(w)) == zip_log(*old(w)).push((0u8, name@, Seq::<u8>::empty())),
{
    let options = zip::write::FileOptions::default().compression_method(zip::CompressionMethod::Deflated);
    match w.writer.add_directory(name, options) {
        Ok(()) => Ok(()),
        Err(e) => Err(e.to_string()),
    }
}

/// `ZipWriter::start_file` with deflate file options. Trusted: the call is logged,
/// whatever it returns, and its outcome is `zip_start_error` of the calls made.
#[verifier::external_body]
fn zip_start_file(w: &mut ZipPack, name: &str) -> (r: Result<(), String>)
    ensures
        zip_log(*final(w)) == zip_log(*old(w)).push((1u8, name@, Seq::<u8>::empty())),
        match r {
            Ok(()) => zip_start_error(zip_log(*final(w))) == None::<Seq<char>>,
            Err(e) => zip_start_error(zip_log(*final(w))) == Some(e@),
        },
{
    let options = zip::write::FileOptions::default().compression_method(zip::CompressionMethod::Deflated);
    match w.writer.start_file(name, options) {
        Ok(()) => Ok(()),
        Err(e) => Err(e.to_string()),
    }
}

/// `Write::write_all` on a ZIP writer. Trusted: the call is logged, whatever it returns,
/// and its outcome is `zip_write_error` of the calls made.
#[verifier::external_body]
fn zip_write_all(w: &mut ZipPack, data: &[u8]) -> (r: Result<(), String>)
    ensures
        zip_log(*final(w)) == zip_log(*old(w)).push((2u8, Seq::<char>::empty(), data@)),
        match r {
            Ok(()) => zip_write_error(zip_log(*final(w))) == None::<Seq<char>>,
            Err(e) => zip_write_error(zip_log(*final(w))) == Some(e@),
        },
{
    match std::io::Write::write_all(&mut w.writer, data) {
        Ok(()) => Ok(()),
        Err(e) => Err(e.to_string()),
    }
}

/// `ZipWriter::finish`, then the cursor's bytes. Trusted: the result is `zip_finished` of
/// the calls made on the writer.
#[verifier::external_body]
fn zip_finish(w: &mut ZipPack) -> (r: Result<Vec<u8>, String>)
    ensures
        match r {
            Ok(v) => zip_finished(zip_log(*old(w))) == Ok::<Seq<u8>, Seq<char>>(v@),
            Err(e) => zip_finished(zip_log(*old(w))) == Err::<Seq<u8>, Seq<char>>(e@),
        },
{
    match w.writer.finish() {
        Ok(cursor) => Ok(cursor.into_inner()),
        Err(e) => Err(e.to_string()),
    }
}

/// The bytes of "region/".
pub open spec fn region_dir_bytes() -> Seq<u8> {
    seq![114u8, 101, 103, 105, 111, 110, 47]
}

/// A file of the `region/` directory.
pub open spec fn in_region_dir(name: Seq<char>) -> bool {
    encode_utf8(name).len() >= 7 && encode_utf8(name).take(7) == region_dir_bytes()
}

/// The calls that pack the first `k` files: for each, the `region/` directory entry when the
/// file lies in it, then the file and its bytes.
pub open spec fn pack_log(files: Seq<(String, Vec<u8>)>, k: nat) -> Seq<(u8, Seq<char>, Seq<u8>)>
    decreases k,
{
    if k == 0 || k > files.len() {
        Seq::empty()
    } else {
        let f = files[k - 1];
        let dir = if in_region_dir(f.0@) {
            seq![(0u8, "region/"@, Seq::<u8>::empty())]
        } else {
            Seq::empty()
        };
        pack_log(files, (k - 1) as nat) + dir + seq![(1u8, f.0@, Seq::<u8>::empty()), (2u8, Seq::<char>::empty(), f.1@)]
    }
}

fn starts_in_region_dir(name: &str) -> (r: bool)
    ensures
        r == in_region_dir(name@),
{
    let b = name.as_bytes();
    if b.len() < 7 {
        return false;
    }
    let r = b[0] == 114u8 && b[1] == 101u8 && b[2] == 103u8 && b[3] == 105u8 && b[4] == 111u8 && b[5] == 110u8 && b[6] == 47u8;
    assert(r == (b@.take(7) =~= region_dir_bytes()));
    r
}

/// A failure while packing the first `k` files is the failure of packing all of them.
proof fn lemma_pack_failure_sticks(files: Seq<(String, Vec<u8>)>, k: nat, n: nat)
    requires
        k <= n <= files.len(),
        pack_failure(files, k) is Some,
    ensures
        pack_failure(files, n) == pack_failure(files, k),
    decreases n - k,
{
    if n > k {
        lemma_pack_failure_sticks(files, k, (n - 1) as nat);
    }
}

/// The log of packing the first `k` files, up to and including the start of file `k`.
pub open spec fn pack_start_log(files: Seq<(String, Vec<u8>)>, k: nat) -> Seq<(u8, Seq<char>, Seq<u8>)> {
    let f = files[k as int];
    let dir = if in_region_dir(f.0@) {
        seq![(0u8, "region/"@, Seq::<u8>::empty())]
    } else {
        Seq::empty()
    };
    pack_log(files, k) + dir + seq![(1u8, f.0@, Seq::<u8>::empty())]
}

/// The first error of starting or writing a file while packing the first `k` files, if any.
pub open spec fn pack_failure(files: Seq<(String, Vec<u8>)>, k: nat) -> Option<Seq<char>>
    decreases k,
{
    if k == 0 || k > files.len() {
        None
    } else {
        let j = (k - 1) as nat;
        match pack_failure(files, j) {
            Some(e) => Some(e),
            None => match zip_start_error(pack_start_log(files, j)) {
                Some(e) => Some(e),
                None => zip_write_error(pack_log(files, k)),
            },
        }
    }
}

/// What packing `files` gives: the first failure to start or write a file, or else the
/// archive (or the error) that finishing the writer gives.
pub open spec fn pack_outcome(files: Seq<(String, Vec<u8>)>) -> Result<Seq<u8>, Seq<char>> {
    match pack_failure(files, files.len()) {
        Some(e) => Err(e),
        None => zip_finished(pack_log(files, files.len())),
    }
}

/// Packs files into one ZIP archive, deflated, in order; each file of the `region/`
/// directory is preceded by a `region/` directory entry (whose outcome is not checked).
/// The result is `pack_outcome`: it stops at the first file that cannot be started or
/// written, and otherwise gives what the ZIP writer makes of exactly those calls.
pub fn zip_files(files: &Vec<(String, Vec<u8>)>) -> (r: Result<Vec<u8>, String>)
    ensures
        match r {
            Ok(v) => pack_outcome(files@) == Ok::<Seq<u8>, Seq<char>>(v@),
            Err(e) => pack_outcome(files@) == Err::<Seq<u8>, Seq<char>>(e@),
        },
{
    let mut z = zip_writer_new();
    let mut i: usize = 0;
    while i < files.len()
        invariant
            i <= files@.len(),
            zip_log(z) == pack_log(files@, i as nat),
            pack_failure(files@, i as nat) == None::<Seq<char>>,
        decreases files@.len() - i,
    {
        let name = files[i].0.as_str();
        if starts_in_region_dir(name) {
            let _ = zip_add_directory(&mut z, "region/");
        }
        match zip_start_file(&mut z, name) {
            Ok(()) => {},
            Err(e) => {
                proof {
                    assert(zip_log(z) =~= pack_start_log(files@, i as nat));
                    lemma_pack_failure_sticks(files@, (i + 1) as nat, files@.len());
                }
                return Err(e);
            },
        }
        assert(zip_log(z) =~= pack_start_log(files@, i as nat));
        match zip_write_all(&mut z, files[i].1.as_slice()) {
            Ok(()) => {},
            Err(e) => {
                proof {
                    assert(zip_log(z) =~= pack_log(files@, (i + 1) as nat));
                    lemma_pack_failure_sticks(files@, (i + 1) as nat, files@.len());
                }
                return Err(e);
            },
        }
        i = i + 1;
        assert(zip_log(z) =~= pack_log(files@, i as nat));
    }
    zip_finish(&mut z)
}

} // verus!
