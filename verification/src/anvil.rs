//! Anvil region files (`.mca`): an 8 KiB header of chunk locations and time stamps
//! followed by zlib-compressed chunk NBT payloads padded to 4 KiB sectors.

use vstd::prelude::*;
use vstd::string::StringSliceAdditionalSpecFns;
use vstd::string::*;
use crate::nbt::{
    be32_bytes, byte_array_tag, byte_tag, compound_close, compound_open, int_array_tag, int_tag,
    list_open, long_tag, zlib_best, zlib_compress, NbtBuf,
};
use crate::text::{int_text, push_i64, lemma_int_text_injective};

verus! {

/// Size of one region-file sector.
pub const SECTOR: usize = 4096;

/// `n` zero bytes.
pub open spec fn zeros(n: nat) -> Seq<u8> {
    Seq::new(n, |i: int| 0u8)
}

/// `n` bytes that each hold `b`.
pub open spec fn filled(n: nat, b: u8) -> Seq<u8> {
    Seq::new(n, |i: int| b)
}

/// Number of whole sectors needed to hold `len` bytes.
pub open spec fn sectors_for(len: nat) -> nat {
    (len + 4095) / 4096
}

/// A chunk as stored in a region file: a big-endian `u32` length (one more than the
/// compressed size, as a wrapping 32-bit sum), the compression type `2` (zlib) and the
/// compressed bytes.
pub open spec fn chunk_record(compressed: Seq<u8>) -> Seq<u8> {
    be32_bytes((compressed.len() as u32).wrapping_add(1)) + seq![2u8] + compressed
}

/// A location-table entry: the first sector in the upper three bytes (as a 32-bit shift)
/// and the low eight bits of the sector count in the lowest byte.
pub open spec fn location_entry(offset_sector: nat, sectors: nat) -> u32 {
    ((offset_sector as u32) << 8u32) | ((sectors as u32) & 0xFFu32)
}

/// `h` with the four bytes at `at` replaced by `b`.
pub open spec fn put4(h: Seq<u8>, at: int, b: Seq<u8>) -> Seq<u8> {
    h.subrange(0, at) + b + h.subrange(at + 4, h.len() as int)
}

/// The abstract state of one region: (header tables, sector payloads, next free sector).
pub type RegionState = (Seq<u8>, Seq<u8>, nat);

/// A region that holds no chunk yet.
pub open spec fn empty_region() -> RegionState {
    (zeros(8192), Seq::empty(), 2)
}

/// The region after storing chunk (`lx`, `lz`) whose compressed NBT is `compressed`:
/// the record is appended at the next free sector and padded to a whole number of
/// sectors, the location entry points at it, and the time stamp entry becomes 1.
pub open spec fn region_add(r: RegionState, lx: nat, lz: nat, compressed: Seq<u8>) -> RegionState {
    let rec = chunk_record(compressed);
    let s = sectors_for(rec.len());
    let idx = lx + lz * 32;
    (
        put4(put4(r.0, (idx * 4) as int, be32_bytes(location_entry(r.2, s))), (4096 + idx * 4) as int, be32_bytes(1)),
        r.1 + rec + zeros((s * 4096 - rec.len()) as nat),
        r.2 + s,
    )
}

/// The bytes of a region file: header tables, then the sectors.
pub open spec fn region_file(r: RegionState) -> Seq<u8> {
    r.0 + r.1
}

/// The invariant of a region state: an 8 KiB header and a body of whole sectors that
/// ends right before the next free sector.
pub open spec fn region_wf(r: RegionState) -> bool {
    &&& r.0.len() == 8192
    &&& r.2 >= 2
    &&& r.1.len() == (r.2 - 2) * 4096
}

struct RegionBuf {
    header: Vec<u8>,
    body: Vec<u8>,
    next_sector: usize,
}

impl RegionBuf {
    spec fn state(&self) -> RegionState {
        (self.header@, self.body@, self.next_sector as nat)
    }

    fn new() -> (r: Self)
        ensures
            r.state() == empty_region(),
    {
        let r = RegionBuf { header: vec![0u8; 8192], body: Vec::new(), next_sector: 2 };
        assert(r.header@ =~= zeros(8192));
        r
    }

    fn set4(&mut self, at: usize, v: u32)
        requires
            old(self).header@.len() == 8192,
            at + 4 <= 8192,
        ensures
            final(self).header@ == put4(old(self).header@, at as int, be32_bytes(v)),
            final(self).body@ == old(self).body@,
            final(self).next_sector == old(self).next_sector,
    {
        self.header.set(at, (v >> 24u32) as u8);
        self.header.set(at + 1, (v >> 16u32) as u8);
        self.header.set(at + 2, (v >> 8u32) as u8);
        self.header.set(at + 3, v as u8);
        assert(self.header@ =~= put4(old(self).header@, at as int, be32_bytes(v)));
    }

    fn add_chunk(&mut self, local_x: usize, local_z: usize, nbt_payload: &[u8])
        requires
            region_wf(old(self).state()),
            local_x < 32,
            local_z < 32,
        ensures
            region_wf(final(self).state()),
            final(self).state() == region_add(
                old(self).state(),
                local_x as nat,
                local_z as nat,
                zlib_best(nbt_payload@),
            ),
    {
        let compressed = zlib_compress(nbt_payload);
        let length = (compressed.len() as u32).wrapping_add(1);
        let mut payload: Vec<u8> = Vec::new();
        payload.push((length >> 24u32) as u8);
        payload.push((length >> 16u32) as u8);
        payload.push((length >> 8u32) as u8);
        payload.push(length as u8);
        payload.push(2u8);
        payload.extend_from_slice(compressed.as_slice());
        let ghost rec = chunk_record(compressed@);
        assert(payload@ =~= rec);

        let plen = payload.len();
        let rem = plen % SECTOR;
        let sectors_needed = plen / SECTOR + if rem == 0 { 0 } else { 1 };
        let pad = if rem == 0 { 0 } else { SECTOR - rem };
        assert(sectors_needed == sectors_for(plen as nat));
        assert(sectors_needed * 4096 == plen + pad);
        let offset_sector = self.next_sector;

        let ghost old_body = self.body@;
        self.body.extend_from_slice(payload.as_slice());
        let mut k: usize = 0;
        while k < pad
            invariant
                k <= pad,
                pad < 4096,
                self.body@ == old_body + rec + zeros(k as nat),
                self.header@ == old(self).header@,
                self.next_sector == offset_sector,
            decreases pad - k,
        {
            self.body.push(0u8);
            assert(zeros(k as nat).push(0u8) =~= zeros((k + 1) as nat));
            k = k + 1;
        }
        let blen = self.body.len();
        assert(blen == (offset_sector - 2) * 4096 + sectors_needed * 4096);
        assert(blen == (offset_sector - 2 + sectors_needed) * 4096) by (nonlinear_arith)
            requires
                blen == (offset_sector - 2) * 4096 + sectors_needed * 4096,
        ;
        assert(offset_sector + sectors_needed <= usize::MAX) by (nonlinear_arith)
            requires
                blen == (offset_sector - 2 + sectors_needed) * 4096,
                blen <= usize::MAX,
                offset_sector >= 2,
        ;
        self.next_sector = offset_sector + sectors_needed;

        let loc_idx = local_x + local_z * 32;
        let loc_val = ((offset_sector as u32) << 8u32) | ((sectors_needed as u32) & 0xFFu32);
        self.set4(loc_idx * 4, loc_val);
        self.set4(SECTOR + loc_idx * 4, 1u32);
    }

    fn finalise(&self) -> (out: Vec<u8>)
        ensures
            out@ == region_file(self.state()),
    {
        let mut out = self.header.clone();
        out.extend_from_slice(self.body.as_slice());
        out
    }
}

/// A chunk section as the chunk writer reads it: (section y, 4096 block ids in
/// `(y * 16 + z) * 16 + x` order, 2048 bytes of packed 4-bit metadata).
pub type SectionView = (u8, Seq<u8>, Seq<u8>);

/// The abstract view of a list of sections.
pub open spec fn sections_view(s: Seq<(u8, Vec<u8>, Vec<u8>)>) -> Seq<SectionView> {
    s.map_values(|t: (u8, Vec<u8>, Vec<u8>)| (t.0, t.1@, t.2@))
}

/// One more than the highest `y' < y` whose block at column (`x`, `z`) of the section is
/// not air, or 0 when there is none.
pub open spec fn section_top(blks: Seq<u8>, x: int, z: int, y: int) -> int
    decreases y,
{
    if y <= 0 {
        0
    } else if blks[((y - 1) * 16 + z) * 16 + x] != 0 {
        y
    } else {
        section_top(blks, x, z, y - 1)
    }
}

/// The height-map value of column (`x`, `z`): one more than the world y of its highest
/// non-air block over all sections, or 0 when the column is empty.
pub open spec fn column_height(secs: Seq<SectionView>, x: int, z: int) -> int
    decreases secs.len(),
{
    if secs.len() == 0 {
        0
    } else {
        let prev = column_height(secs.drop_last(), x, z);
        let s = secs.last();
        let t = section_top(s.1, x, z, 16);
        if t > 0 && s.0 * 16 + t > prev {
            s.0 * 16 + t
        } else {
            prev
        }
    }
}

/// The chunk's `HeightMap`: 256 entries, entry `z * 16 + x` for column (`x`, `z`).
pub open spec fn height_map(secs: Seq<SectionView>) -> Seq<i32> {
    Seq::new(256, |i: int| column_height(secs, i % 16, i / 16) as i32)
}

/// The NBT of one entry of the `Sections` list.
pub open spec fn section_bytes(s: SectionView) -> Seq<u8> {
    byte_tag("Y".spec_bytes(), s.0 as i8) + byte_array_tag("Blocks".spec_bytes(), s.1)
        + byte_array_tag("Data".spec_bytes(), s.2) + byte_array_tag(
        "SkyLight".spec_bytes(),
        filled(2048, 0xFFu8),
    ) + byte_array_tag("BlockLight".spec_bytes(), zeros(2048)) + compound_close()
}

/// The NBT of all entries of the `Sections` list, in order.
pub open spec fn sections_bytes(secs: Seq<SectionView>) -> Seq<u8>
    decreases secs.len(),
{
    if secs.len() == 0 {
        Seq::empty()
    } else {
        sections_bytes(secs.drop_last()) + section_bytes(secs.last())
    }
}

/// The uncompressed NBT of a chunk at (`cx`, `cz`) holding `secs`: an unnamed root compound
/// with a `Level` compound of position, flags, plains biomes, the height map, empty entity
/// lists and the sections.
pub open spec fn chunk_nbt(cx: i32, cz: i32, secs: Seq<SectionView>) -> Seq<u8> {
    compound_open("".spec_bytes()) + compound_open("Level".spec_bytes()) + int_tag(
        "xPos".spec_bytes(),
        cx,
    ) + int_tag("zPos".spec_bytes(), cz) + long_tag("LastUpdate".spec_bytes(), 0) + long_tag(
        "InhabitedTime".spec_bytes(),
        0,
    ) + byte_tag("TerrainPopulated".spec_bytes(), 1) + byte_tag("LightPopulated".spec_bytes(), 1)
        + byte_array_tag("Biomes".spec_bytes(), filled(256, 1u8)) + int_array_tag(
        "HeightMap".spec_bytes(),
        height_map(secs),
    ) + list_open("Entities".spec_bytes(), 10, 0) + list_open("TileEntities".spec_bytes(), 10, 0)
        + list_open("Sections".spec_bytes(), 10, secs.len() as i32) + sections_bytes(secs)
        + compound_close() + compound_close()
}

/// Every section holds at least a full 16x16x16 block array.
pub open spec fn sections_complete(secs: Seq<SectionView>) -> bool {
    forall|i: int| 0 <= i < secs.len() ==> #[trigger] secs[i].1.len() >= 4096
}

proof fn lemma_column_height_bounds(secs: Seq<SectionView>, x: int, z: int)
    ensures
        0 <= column_height(secs, x, z) <= 4096,
    decreases secs.len(),
{
    if secs.len() > 0 {
        lemma_column_height_bounds(secs.drop_last(), x, z);
        lemma_section_top_bounds(secs.last().1, x, z, 16);
    }
}

proof fn lemma_section_top_bounds(blks: Seq<u8>, x: int, z: int, y: int)
    ensures
        0 <= section_top(blks, x, z, y),
        y >= 0 ==> section_top(blks, x, z, y) <= y,
    decreases y,
{
    if y > 0 {
        lemma_section_top_bounds(blks, x, z, y - 1);
    }
}

/// `section_top` below `y` is at least one more than every non-air y' < y of the column, and
/// is 0 or one more than such a y'.
proof fn lemma_section_top_is_top(blks: Seq<u8>, x: int, z: int, y: int)
    requires
        0 <= y,
    ensures
        forall|y2: int| 0 <= y2 < y && #[trigger] blks[(y2 * 16 + z) * 16 + x] != 0 ==> section_top(blks, x, z, y) >= y2 + 1,
        section_top(blks, x, z, y) == 0 || (1 <= section_top(blks, x, z, y) <= y && blks[((
        section_top(blks, x, z, y) - 1) * 16 + z) * 16 + x] != 0),
    decreases y,
{
    if y > 0 {
        lemma_section_top_is_top(blks, x, z, y - 1);
        lemma_section_top_bounds(blks, x, z, y - 1);
    }
}

/// The height of a column is at least one more than the world y of each of its non-air
/// blocks, and is 0 or one more than the world y of one of them.
proof fn lemma_column_height_is_top(secs: Seq<SectionView>, x: int, z: int)
    ensures
        forall|i: int, y: int|
            0 <= i < secs.len() && 0 <= y < 16 && #[trigger] secs[i].1[(y * 16 + z) * 16 + x] != 0
                ==> column_height(secs, x, z) >= secs[i].0 * 16 + y + 1,
        column_height(secs, x, z) == 0 || exists|i: int, y: int|
            0 <= i < secs.len() && 0 <= y < 16 && #[trigger] secs[i].1[(y * 16 + z) * 16 + x] != 0
                && column_height(secs, x, z) == secs[i].0 * 16 + y + 1,
    decreases secs.len(),
{
    if secs.len() > 0 {
        let pre = secs.drop_last();
        let s = secs.last();
        let n = secs.len() - 1;
        lemma_column_height_is_top(pre, x, z);
        lemma_column_height_bounds(pre, x, z);
        lemma_section_top_is_top(s.1, x, z, 16);
        let t = section_top(s.1, x, z, 16);
        assert forall|i: int, y: int|
            0 <= i < secs.len() && 0 <= y < 16 && #[trigger] secs[i].1[(y * 16 + z) * 16 + x] != 0
                implies column_height(secs, x, z) >= secs[i].0 * 16 + y + 1 by {
            if i < n {
                assert(pre[i] == secs[i]);
            } else {
                assert(s == secs[i]);
                assert(t >= y + 1);
            }
        }
        if column_height(secs, x, z) != 0 {
            if t > 0 && s.0 * 16 + t > column_height(pre, x, z) {
                assert(s == secs[n]);
                let y = t - 1;
                assert(secs[n].1[(y * 16 + z) * 16 + x] != 0);
            } else {
                let (i, y) = choose|i: int, y: int|
                    0 <= i < pre.len() && 0 <= y < 16 && #[trigger] pre[i].1[(y * 16 + z) * 16 + x] != 0
                        && column_height(pre, x, z) == pre[i].0 * 16 + y + 1;
                assert(pre[i] == secs[i]);
                assert(secs[i].1[(y * 16 + z) * 16 + x] != 0);
            }
        }
    }
}

/// The `HeightMap` entry `z * 16 + x` of a chunk is the top of column (`x`, `z`): at least
/// `16 * Y + y + 1` for every section `Y` and every `y` whose block at (`x`, `y`, `z`) in that
/// section is not air, and equal to one such value, or 0 when the column holds no block.
pub proof fn lemma_height_map_is_top(secs: Seq<SectionView>, x: int, z: int)
    requires
        0 <= x < 16,
        0 <= z < 16,
    ensures
        forall|i: int, y: int|
            0 <= i < secs.len() && 0 <= y < 16 && #[trigger] secs[i].1[(y * 16 + z) * 16 + x] != 0
                ==> height_map(secs)[z * 16 + x] >= secs[i].0 * 16 + y + 1,
        height_map(secs)[z * 16 + x] == 0 || exists|i: int, y: int|
            0 <= i < secs.len() && 0 <= y < 16 && #[trigger] secs[i].1[(y * 16 + z) * 16 + x] != 0
                && height_map(secs)[z * 16 + x] == secs[i].0 * 16 + y + 1,
{
    let k = z * 16 + x;
    assert(k % 16 == x && k / 16 == z);
    lemma_column_height_is_top(secs, x, z);
    lemma_column_height_bounds(secs, x, z);
    assert(height_map(secs)[k] == column_height(secs, x, z));
}

fn section_top_exec(blks: &Vec<u8>, x: usize, z: usize) -> (t: usize)
    requires
        blks@.len() >= 4096,
        x < 16,
        z < 16,
    ensures
        t == section_top(blks@, x as int, z as int, 16),
        t <= 16,
{
    let mut y: usize = 16;
    while y > 0
        invariant
            y <= 16,
            x < 16,
            z < 16,
            blks@.len() >= 4096,
            section_top(blks@, x as int, z as int, 16) == section_top(blks@, x as int, z as int, y as int),
        decreases y,
    {
        if blks[((y - 1) * 16 + z) * 16 + x] != 0 {
            return y;
        }
        y = y - 1;
    }
    0
}

fn height_map_exec(sections: &[(u8, Vec<u8>, Vec<u8>)]) -> (hm: Vec<i32>)
    requires
        sections_complete(sections_view(sections@)),
    ensures
        hm@ == height_map(sections_view(sections@)),
{
    let ghost secs = sections_view(sections@);
    let mut hm: Vec<i32> = vec![0i32; 256];
    let mut si: usize = 0;
    assert(secs.take(0) =~= Seq::<SectionView>::empty());
    while si < sections.len()
        invariant
            si <= sections@.len(),
            secs == sections_view(sections@),
            sections_complete(secs),
            hm@.len() == 256,
            forall|j: int|
                0 <= j < 256 ==> #[trigger] hm@[j] == column_height(secs.take(si as int), j % 16, j / 16),
            forall|j: int|
                0 <= j < 256 ==> 0 <= #[trigger] hm@[j] <= 4096,
        decreases sections@.len() - si,
    {
        let sec_y = sections[si].0;
        let blks = &sections[si].1;
        assert(secs[si as int].1 == blks@);
        assert(secs.take(si + 1).drop_last() =~= secs.take(si as int));
        assert(secs.take(si + 1).last() == secs[si as int]);
        let mut idx: usize = 0;
        while idx < 256
            invariant
                idx <= 256,
                si < sections@.len(),
                secs == sections_view(sections@),
                sec_y == secs[si as int].0,
                blks@ == secs[si as int].1,
                blks@.len() >= 4096,
                secs.take(si + 1).drop_last() == secs.take(si as int),
                secs.take(si + 1).last() == secs[si as int],
                hm@.len() == 256,
                forall|j: int|
                    0 <= j < idx ==> #[trigger] hm@[j] == column_height(secs.take(si + 1), j % 16, j / 16),
                forall|j: int|
                    idx <= j < 256 ==> #[trigger] hm@[j] == column_height(secs.take(si as int), j % 16, j / 16),
                forall|j: int| 0 <= j < 256 ==> 0 <= #[trigger] hm@[j] <= 4096,
            decreases 256 - idx,
        {
            let x = idx % 16;
            let z = idx / 16;
            let t = section_top_exec(blks, x, z);
            let world_y = (sec_y as i32) * 16 + (t as i32);
            proof {
                lemma_column_height_bounds(secs.take(si + 1), x as int, z as int);
            }
            if t > 0 && world_y > hm[idx] {
                hm.set(idx, world_y);
            }
            idx = idx + 1;
        }
        si = si + 1;
    }
    assert(secs.take(sections@.len() as int) =~= secs);
    assert(hm@ =~= height_map(secs));
    hm
}

fn write_section(buf: &mut NbtBuf, sec: &(u8, Vec<u8>, Vec<u8>), sky: &Vec<u8>, dark: &Vec<u8>)
    requires
        sky@ == filled(2048, 0xFFu8),
        dark@ == zeros(2048),
    ensures
        final(buf)@ == old(buf)@ + section_bytes((sec.0, sec.1@, sec.2@)),
{
    buf.begin_list_compound_element();
    buf.byte("Y", sec.0 as i8);
    buf.byte_array("Blocks", sec.1.as_slice());
    buf.byte_array("Data", sec.2.as_slice());
    buf.byte_array("SkyLight", sky.as_slice());
    buf.byte_array("BlockLight", dark.as_slice());
    buf.end_list_compound_element();
    assert(buf@ =~= old(buf)@ + section_bytes((sec.0, sec.1@, sec.2@)));
}

/// Builds a chunk's uncompressed NBT payload.
fn build_chunk_nbt(chunk_x: i32, chunk_z: i32, sections: &[(u8, Vec<u8>, Vec<u8>)]) -> (out: Vec<u8>)
    requires
        sections_complete(sections_view(sections@)),
    ensures
        out@ == chunk_nbt(chunk_x, chunk_z, sections_view(sections@)),
{
    let ghost secs = sections_view(sections@);
    let mut buf = NbtBuf::new();
    buf.begin_compound("");
    buf.begin_compound("Level");
    buf.int32("xPos", chunk_x);
    buf.int32("zPos", chunk_z);
    buf.long("LastUpdate", 0);
    buf.long("InhabitedTime", 0);
    buf.byte("TerrainPopulated", 1);
    buf.byte("LightPopulated", 1);
    let biomes = vec![1u8; 256];
    assert(biomes@ =~= filled(256, 1u8));
    buf.byte_array("Biomes", biomes.as_slice());
    let hm = height_map_exec(sections);
    buf.int_array("HeightMap", hm.as_slice());
    buf.begin_list("Entities", 10, 0);
    buf.begin_list("TileEntities", 10, 0);
    buf.begin_list("Sections", 10, sections.len() as i32);
    let ghost prefix = buf@;
    let sky = vec![0xFFu8; 2048];
    let dark = vec![0u8; 2048];
    assert(sky@ =~= filled(2048, 0xFFu8));
    assert(dark@ =~= zeros(2048));
    let mut si: usize = 0;
    assert(secs.take(0) =~= Seq::<SectionView>::empty());
    while si < sections.len()
        invariant
            si <= sections@.len(),
            secs == sections_view(sections@),
            sky@ == filled(2048, 0xFFu8),
            dark@ == zeros(2048),
            buf@ == prefix + sections_bytes(secs.take(si as int)),
        decreases sections@.len() - si,
    {
        write_section(&mut buf, &sections[si], &sky, &dark);
        assert(secs.take(si + 1).drop_last() =~= secs.take(si as int));
        assert(secs[si as int] == (sections@[si as int].0, sections@[si as int].1@, sections@[si as int].2@));
        assert(buf@ =~= prefix + sections_bytes(secs.take(si + 1)));
        si = si + 1;
    }
    assert(secs.take(sections@.len() as int) =~= secs);
    buf.end_compound();
    buf.end_compound();
    assert(buf@ =~= chunk_nbt(chunk_x, chunk_z, secs));
    buf.0
}

/// Region coordinate of chunk coordinate `c` (floor division by 32).
fn chunk_to_region(c: i32) -> (r: i32)
    requires
        c >= i32::MIN + 31,
    ensures
        r == c / 32,
{
    if c >= 0 {
        c / 32
    } else {
        (c - 31) / 32
    }
}

/// Position of chunk coordinate `c` inside its region (the Euclidean remainder by 32).
fn chunk_local(c: i32) -> (l: usize)
    ensures
        l == c % 32,
        l < 32,
{
    match c.checked_rem_euclid(32) {
        Some(r) => r as usize,
        None => 0,
    }
}

/// Each chunk coordinate that a region file can be addressed for splits into its region
/// coordinate and its place inside the region: `c == 32 * region + local` with
/// `0 <= local < 32`.
pub proof fn lemma_chunk_split(c: i32)
    ensures
        c == 32 * (c / 32) + c % 32,
        0 <= c % 32 < 32,
{
}

/// The abstract archive: one entry per region, keyed by region coordinates, in the order
/// in which the regions were first written.
pub type ArchiveView = Seq<((i32, i32), RegionState)>;

/// The index of the entry for region `key`, or -1 when the archive has none.
pub open spec fn region_index(v: ArchiveView, key: (i32, i32)) -> int
    decreases v.len(),
{
    if v.len() == 0 {
        -1
    } else if v.last().0 == key {
        v.len() - 1
    } else {
        region_index(v.drop_last(), key)
    }
}

/// No two entries of the archive are for the same region, and every region is well formed.
pub open spec fn archive_wf(v: ArchiveView) -> bool {
    &&& forall|i: int, j: int| 0 <= i < j < v.len() ==> #[trigger] v[i].0 != #[trigger] v[j].0
    &&& forall|i: int| 0 <= i < v.len() ==> region_wf(#[trigger] v[i].1)
}

/// The archive after writing chunk (`cx`, `cz`) with sections `secs`: nothing changes when
/// there are no sections; otherwise the chunk's compressed NBT is stored in the region that
/// contains it, which is created (empty, at the end) when absent.
pub open spec fn archive_write(v: ArchiveView, cx: i32, cz: i32, secs: Seq<SectionView>) -> ArchiveView {
    if secs.len() == 0 {
        v
    } else {
        let key = ((cx / 32) as i32, (cz / 32) as i32);
        let nbt = zlib_best(chunk_nbt(cx, cz, secs));
        let i = region_index(v, key);
        if i >= 0 {
            v.update(i, (key, region_add(v[i].1, (cx % 32) as nat, (cz % 32) as nat, nbt)))
        } else {
            v.push((key, region_add(empty_region(), (cx % 32) as nat, (cz % 32) as nat, nbt)))
        }
    }
}

/// The name under which region (`rx`, `rz`) is stored: `region/r.<rx>.<rz>.mca`.
pub open spec fn region_name(rx: i32, rz: i32) -> Seq<char> {
    "region/r."@ + int_text(rx as int) + "."@ + int_text(rz as int) + ".mca"@
}

proof fn lemma_region_index_bounds(v: ArchiveView, key: (i32, i32))
    ensures
        -1 <= region_index(v, key) < v.len(),
        region_index(v, key) >= 0 ==> v[region_index(v, key)].0 == key,
        region_index(v, key) < 0 ==> forall|i: int| 0 <= i < v.len() ==> #[trigger] v[i].0 != key,
    decreases v.len(),
{
    if v.len() > 0 {
        lemma_region_index_bounds(v.drop_last(), key);
        if region_index(v, key) < 0 {
            assert forall|i: int| 0 <= i < v.len() implies #[trigger] v[i].0 != key by {
                if i < v.len() - 1 {
                    assert(v.drop_last()[i] == v[i]);
                }
            }
        }
    }
}

/// Anvil region files under construction, one per region that a chunk was written to.
pub struct AnvilArchive {
    keys: Vec<(i32, i32)>,
    regions: Vec<RegionBuf>,
}

impl View for AnvilArchive {
    type V = ArchiveView;

    closed spec fn view(&self) -> ArchiveView {
        Seq::new(self.keys@.len(), |i: int| (self.keys@[i], self.regions@[i].state()))
    }
}

impl AnvilArchive {
    /// The archive's internal invariant.
    pub closed spec fn wf(&self) -> bool {
        &&& self.keys@.len() == self.regions@.len()
        &&& archive_wf(self@)
    }

    pub fn new() -> (a: Self)
        ensures
            a.wf(),
            a@ == Seq::<((i32, i32), RegionState)>::empty(),
    {
        let a = AnvilArchive { keys: Vec::new(), regions: Vec::new() };
        assert(a@ =~= Seq::<((i32, i32), RegionState)>::empty());
        a
    }

    fn find(&self, key: (i32, i32)) -> (i: Option<usize>)
        requires
            self.wf(),
        ensures
            match i {
                Some(i) => i == region_index(self@, key) && i < self@.len(),
                None => region_index(self@, key) < 0,
            },
    {
        let ghost v = self@;
        let mut i: usize = self.keys.len();
        assert(v.take(i as int) =~= v);
        while i > 0
            invariant
                i <= self.keys@.len(),
                self.keys@.len() == self.regions@.len(),
                v == self@,
                region_index(v, key) == region_index(v.take(i as int), key),
            decreases i,
        {
            let k = self.keys[i - 1];
            assert(v.take(i as int).last() == v[i - 1]);
            assert(v.take(i as int).drop_last() =~= v.take(i - 1));
            if k.0 == key.0 && k.1 == key.1 {
                return Some(i - 1);
            }
            i = i - 1;
        }
        None
    }

    /// Stores chunk (`chunk_x`, `chunk_z`) with the given sections (section y, 4096 block ids,
    /// 2048 metadata bytes) in the region file that holds it. A chunk without sections is
    /// not written.
    pub fn write_chunk(&mut self, chunk_x: i32, chunk_z: i32, sections: Vec<(u8, Vec<u8>, Vec<u8>)>)
        requires
            old(self).wf(),
            sections@.len() > 0 ==> chunk_x >= i32::MIN + 31 && chunk_z >= i32::MIN + 31,
            sections_complete(sections_view(sections@)),
        ensures
            final(self).wf(),
            final(self)@ == archive_write(old(self)@, chunk_x, chunk_z, sections_view(sections@)),
    {
        if sections.len() == 0 {
            return;
        }
        let rx = chunk_to_region(chunk_x);
        let rz = chunk_to_region(chunk_z);
        let lx = chunk_local(chunk_x);
        let lz = chunk_local(chunk_z);
        let nbt = build_chunk_nbt(chunk_x, chunk_z, sections.as_slice());
        let ghost v = self@;
        proof {
            lemma_region_index_bounds(v, (rx, rz));
        }
        match self.find((rx, rz)) {
            Some(i) => self.add_to_region(i, lx, lz, nbt.as_slice()),
            None => self.add_new_region((rx, rz), lx, lz, nbt.as_slice()),
        }
    }

    fn add_to_region(&mut self, i: usize, lx: usize, lz: usize, nbt: &[u8])
        requires
            old(self).wf(),
            i < old(self)@.len(),
            lx < 32,
            lz < 32,
        ensures
            final(self).wf(),
            final(self)@ == old(self)@.update(
                i as int,
                (old(self)@[i as int].0, region_add(old(self)@[i as int].1, lx as nat, lz as nat, zlib_best(nbt@))),
            ),
    {
        let ghost v = self@;
        let mut rb = self.regions.remove(i);
        assert(region_wf(rb.state())) by {
            assert(v[i as int].1 == rb.state());
        }
        rb.add_chunk(lx, lz, nbt);
        self.regions.insert(i, rb);
        let ghost nv = v.update(i as int, (v[i as int].0, region_add(v[i as int].1, lx as nat, lz as nat, zlib_best(nbt@))));
        assert(self@ =~= nv);
        assert(archive_wf(nv)) by {
            assert forall|a: int, b: int| 0 <= a < b < nv.len() implies #[trigger] nv[a].0 != #[trigger] nv[b].0 by {
                assert(nv[a].0 == v[a].0 && nv[b].0 == v[b].0);
            }
        }
    }

    fn add_new_region(&mut self, key: (i32, i32), lx: usize, lz: usize, nbt: &[u8])
        requires
            old(self).wf(),
            forall|i: int| 0 <= i < old(self)@.len() ==> #[trigger] old(self)@[i].0 != key,
            lx < 32,
            lz < 32,
        ensures
            final(self).wf(),
            final(self)@ == old(self)@.push((key, region_add(empty_region(), lx as nat, lz as nat, zlib_best(nbt@)))),
    {
        let ghost v = self@;
        let mut rb = RegionBuf::new();
        rb.add_chunk(lx, lz, nbt);
        self.keys.push(key);
        self.regions.push(rb);
        let ghost nv = v.push((key, region_add(empty_region(), lx as nat, lz as nat, zlib_best(nbt@))));
        assert(self@ =~= nv);
        assert(archive_wf(nv)) by {
            assert forall|a: int, b: int| 0 <= a < b < nv.len() implies #[trigger] nv[a].0 != #[trigger] nv[b].0 by {
                if b < v.len() {
                    assert(nv[a].0 == v[a].0 && nv[b].0 == v[b].0);
                }
            }
        }
    }

    /// Returns every region file as (name, bytes), in the order the regions were first written.
    pub fn into_files(self) -> (files: Vec<(String, Vec<u8>)>)
        requires
            self.wf(),
        ensures
            files@.len() == self@.len(),
            forall|i: int|
                0 <= i < files@.len() ==> {
                    &&& (#[trigger] files@[i]).0@ == region_name(self@[i].0.0, self@[i].0.1)
                    &&& files@[i].1@ == region_file(self@[i].1)
                },
    {
        let mut files: Vec<(String, Vec<u8>)> = Vec::new();
        let mut i: usize = 0;
        while i < self.keys.len()
            invariant
                i <= self.keys@.len(),
                self.keys@.len() == self.regions@.len(),
                files@.len() == i,
                forall|j: int|
                    0 <= j < i ==> {
                        &&& (#[trigger] files@[j]).0@ == region_name(self@[j].0.0, self@[j].0.1)
                        &&& files@[j].1@ == region_file(self@[j].1)
                    },
            decreases self.keys@.len() - i,
        {
            let (rx, rz) = self.keys[i];
            let mut name = String::from_str("region/r.");
            push_i64(&mut name, rx as i64);
            name.append(".");
            push_i64(&mut name, rz as i64);
            name.append(".mca");
            let bytes = self.regions[i].finalise();
            files.push((name, bytes));
            i = i + 1;
        }
        files
    }
}

/// A region file is a whole number of 4 KiB sectors: the two header sectors and every
/// chunk record padded to its sectors.
pub proof fn lemma_region_file_whole_sectors(r: RegionState)
    requires
        region_wf(r),
    ensures
        region_file(r).len() == r.2 * 4096,
        region_file(r).len() % 4096 == 0,
{
    assert((r.2 - 2) * 4096 + 8192 == r.2 * 4096) by (nonlinear_arith)
        requires r.2 >= 2;
    assert((r.2 * 4096) % 4096 == 0) by (nonlinear_arith)
        requires r.2 >= 2;
}

/// After a chunk is stored, the region file leads back to it: its location entry holds
/// the sector where its record starts (in the upper three bytes), that sector holds the
/// record, and its time stamp entry is 1.
pub proof fn lemma_region_add_locates_chunk(r: RegionState, lx: nat, lz: nat, c: Seq<u8>)
    requires
        region_wf(r),
        lx < 32,
        lz < 32,
        r.2 < 0x100_0000,
    ensures
        ({
            let r2 = region_add(r, lx, lz, c);
            let f = region_file(r2);
            let i = ((lx + lz * 32) * 4) as int;
            let rec = chunk_record(c);
            let loc = location_entry(r.2, sectors_for(rec.len()));
            &&& f.subrange(i, i + 4) == be32_bytes(loc)
            &&& loc >> 8u32 == r.2
            &&& f.subrange((r.2 * 4096) as int, (r.2 * 4096 + rec.len()) as int) == rec
            &&& f.subrange(4096 + i, 4096 + i + 4) == be32_bytes(1)
        }),
{
    let rec = chunk_record(c);
    let s = sectors_for(rec.len());
    let i = ((lx + lz * 32) * 4) as int;
    let a = be32_bytes(location_entry(r.2, s));
    let h1 = put4(r.0, i, a);
    let h2 = put4(h1, 4096 + i, be32_bytes(1));
    let r2 = region_add(r, lx, lz, c);
    assert(0 <= i && i + 4 <= 4096);
    assert(h1.len() == 8192);
    assert(h2.len() == 8192);
    assert(r2.0 == h2);
    let f = region_file(r2);
    assert(f.subrange(i, i + 4) =~= a) by {
        assert forall|t: int| 0 <= t < 4 implies #[trigger] f.subrange(i, i + 4)[t] == a[t] by {
            assert(f[i + t] == h2[i + t]);
            assert(h2[i + t] == h1[i + t]);
        }
    }
    assert(f.subrange(4096 + i, 4096 + i + 4) =~= be32_bytes(1)) by {
        assert forall|t: int| 0 <= t < 4 implies #[trigger] f.subrange(4096 + i, 4096 + i + 4)[t] == be32_bytes(1)[t] by {
            assert(f[4096 + i + t] == h2[4096 + i + t]);
        }
    }
    assert(r.1.len() + 8192 == r.2 * 4096) by (nonlinear_arith)
        requires r.1.len() == (r.2 - 2) * 4096, r.2 >= 2;
    assert(f.subrange((r.2 * 4096) as int, (r.2 * 4096 + rec.len()) as int) =~= rec) by {
        assert forall|t: int| 0 <= t < rec.len() implies #[trigger] f.subrange((r.2 * 4096) as int, (r.2 * 4096 + rec.len()) as int)[t] == rec[t] by {
            assert(f[r.2 * 4096 + t] == r2.1[r.1.len() + t]);
        }
    }
    let sec = r.2 as u32;
    let cnt = s as u32;
    assert(((sec << 8u32) | (cnt & 0xFFu32)) >> 8u32 == sec) by (bit_vector)
        requires sec < 0x100_0000u32;
}

/// Storing a chunk only appends: the region stays well formed, its next free sector moves
/// forward, and the sectors of earlier chunks neither move nor change.
pub proof fn lemma_region_add_appends(r: RegionState, lx: nat, lz: nat, c: Seq<u8>)
    requires
        region_wf(r),
        lx < 32,
        lz < 32,
    ensures
        region_wf(region_add(r, lx, lz, c)),
        region_add(r, lx, lz, c).2 > r.2,
        region_add(r, lx, lz, c).1.take(r.1.len() as int) == r.1,
{
    let rec = chunk_record(c);
    let s = sectors_for(rec.len());
    assert(rec.len() >= 5);
    assert(s >= 1);
    assert(s * 4096 >= rec.len()) by (nonlinear_arith)
        requires s == (rec.len() + 4095) / 4096;
    let r2 = region_add(r, lx, lz, c);
    let i = ((lx + lz * 32) * 4) as int;
    assert(put4(r.0, i, be32_bytes(location_entry(r.2, s))).len() == 8192);
    assert(r2.1.len() == (r2.2 - 2) * 4096) by (nonlinear_arith)
        requires r2.1.len() == r.1.len() + rec.len() + (s * 4096 - rec.len()), r.1.len() == (r.2 - 2) * 4096, r2.2 == r.2 + s;
    assert(r2.1.take(r.1.len() as int) =~= r.1);
}

/// Different regions are stored under different names.
pub proof fn lemma_region_name_injective(a: (i32, i32), b: (i32, i32))
    ensures
        region_name(a.0, a.1) == region_name(b.0, b.1) ==> a == b,
{
    if region_name(a.0, a.1) == region_name(b.0, b.1) {
        let pre = "region/r."@;
        let x = int_text(a.0 as int);
        let lx = x.len() as int;
        let y = int_text(b.0 as int);
        let ly = y.len() as int;
        let na = region_name(a.0, a.1);
        let nb = region_name(b.0, b.1);
        lemma_int_text_injective(a.0 as int, b.0 as int);
        lemma_int_text_injective(b.0 as int, a.0 as int);
        reveal_strlit("region/r.");
        reveal_strlit(".");
        reveal_strlit(".mca");
        assert(pre.len() == 9);
        assert(na == pre + x + "."@ + int_text(a.1 as int) + ".mca"@);
        assert(na[9 + lx] == '.');
        assert(nb[9 + ly] == '.');
        if lx < ly {
            assert(nb[9 + lx] == y[lx]);
        } else if ly < lx {
            assert(na[9 + ly] == x[ly]);
        }
        assert(x.len() == y.len());
        assert(x =~= na.subrange(9, 9 + lx));
        assert(y =~= nb.subrange(9, 9 + ly));
        assert(a.0 == b.0);
        let za = int_text(a.1 as int);
        let zb = int_text(b.1 as int);
        assert(na.len() == 9 + lx + 1 + za.len() + 4);
        assert(za =~= na.subrange(10 + lx, 10 + lx + za.len() as int));
        assert(zb =~= nb.subrange(10 + lx, 10 + lx + zb.len() as int));
        lemma_int_text_injective(a.1 as int, b.1 as int);
    }
}

/// The region files of an archive have pairwise different names.
pub proof fn lemma_region_names_distinct(v: ArchiveView)
    requires
        archive_wf(v),
    ensures
        forall|i: int, j: int|
            0 <= i < j < v.len() ==> #[trigger] region_name(v[i].0.0, v[i].0.1) != #[trigger] region_name(v[j].0.0, v[j].0.1),
{
    assert forall|i: int, j: int| 0 <= i < j < v.len() implies #[trigger] region_name(v[i].0.0, v[i].0.1) != #[trigger] region_name(v[j].0.0, v[j].0.1) by {
        lemma_region_name_injective(v[i].0, v[j].0);
        assert(v[i].0 != v[j].0);
    }
}

/// Every region file of a well-formed archive (any archive built by `write_chunk`s) is at
/// least its two header sectors long and a whole number of sectors.
pub proof fn lemma_archive_files_whole_sectors(v: ArchiveView)
    requires
        archive_wf(v),
    ensures
        forall|i: int| 0 <= i < v.len() ==> #[trigger] region_file(v[i].1).len() >= 8192
            && region_file(v[i].1).len() % 4096 == 0,
{
    assert forall|i: int| 0 <= i < v.len() implies #[trigger] region_file(v[i].1).len() >= 8192
        && region_file(v[i].1).len() % 4096 == 0 by {
        lemma_region_file_whole_sectors(v[i].1);
    }
}

} // verus!
