//! Mapping of Eden block types and paint bytes to Minecraft 1.12 blocks.

use vstd::prelude::*;
use vstd::string::*;
use std::collections::HashMap;

verus! {

broadcast use vstd::std_specs::hash::group_hash_axioms;

/// A Minecraft 1.12 block (numeric id and metadata).
#[derive(Clone, Copy, Debug)]
pub struct McBlock {
    pub id: u8,
    pub meta: u8,
}

impl McBlock {
    pub fn new(id: u8, meta: u8) -> (b: Self)
        ensures
            b == (McBlock { id, meta }),
    {
        McBlock { id, meta }
    }
}

/// Air, what an empty Eden voxel becomes.
pub open spec fn air() -> McBlock {
    McBlock { id: 0, meta: 0 }
}

/// How one Eden block type is mapped.
#[derive(Clone, Debug)]
pub struct BlockEntry {
    /// The block used when the Eden block carries no paint.
    pub unpainted: McBlock,
    /// The coloured family used when it is painted: "concrete", "wool", "stained_glass",
    /// "terracotta", or "none" (any other text behaves like "none").
    pub painted_family: String,
    /// Per-paint-byte overrides, which take priority over `painted_family`.
    pub paint_colors: HashMap<u8, McBlock>,
}

/// The abstract view of a mapping entry: (unpainted block, family name, overrides).
pub type EntryView = (McBlock, Seq<char>, Map<u8, McBlock>);

impl View for BlockEntry {
    type V = EntryView;

    open spec fn view(&self) -> EntryView {
        (self.unpainted, self.painted_family@, self.paint_colors@)
    }
}

/// The family an entry gets when a mapping leaves `painted_family` out: "none".
pub fn default_painted_family() -> (s: String)
    ensures
        s@ == "none"@,
{
    String::from_str("none")
}

/// The mapping from Eden block types to their entries.
#[derive(Clone, Debug)]
pub struct BlockMapping {
    pub blocks: HashMap<u8, BlockEntry>,
}

impl View for BlockMapping {
    type V = Map<u8, EntryView>;

    open spec fn view(&self) -> Map<u8, EntryView> {
        self.blocks@.map_values(|e: BlockEntry| e@)
    }
}

/// Minecraft dye colour (0-15) for each Eden paint index 0-54.
pub const MC_COLORS: [u8; 55] = [
    0, 14, 1, 4, 5, 9, 3, 10, 6, 0, 14, 1, 4, 13, 9, 11, 10, 6, 8, 14, 1, 4, 13, 9, 11, 10, 6, 7,
    14, 1, 4, 13, 9, 11, 10, 6, 7, 14, 12, 4, 13, 9, 11, 10, 6, 7, 14, 12, 4, 13, 9, 11, 10, 6, 15,
];

/// The dye colour of paint byte `p`: 0 for unpainted or out-of-range bytes, the table entry otherwise.
pub open spec fn dye_color(p: u8) -> u8 {
    if p == 0 || p >= 55 {
        0
    } else {
        MC_COLORS@[p as int]
    }
}

/// The coloured block of family `family` in dye colour `color` (its low four bits as metadata),
/// or none when the family is not one of the four coloured families.
pub open spec fn family_block(family: Seq<char>, color: u8) -> Option<McBlock> {
    let meta = color & 0x0Fu8;
    if family == "concrete"@ {
        Some(McBlock { id: 251, meta })
    } else if family == "wool"@ {
        Some(McBlock { id: 35, meta })
    } else if family == "stained_glass"@ {
        Some(McBlock { id: 95, meta })
    } else if family == "terracotta"@ {
        Some(McBlock { id: 159, meta })
    } else {
        None
    }
}

/// The Minecraft block for Eden block `t` painted with `p` under mapping `m`: air for type 0,
/// stone for an unmapped type, then (when painted) the per-paint override, then the coloured
/// family block (unless the family is "none"), and otherwise the unpainted block.
pub open spec fn resolve_spec(m: Map<u8, EntryView>, t: u8, p: u8) -> McBlock {
    if t == 0 {
        air()
    } else if !m.contains_key(t) {
        McBlock { id: 1, meta: 0 }
    } else {
        let e = m[t];
        if p > 0 && e.2.contains_key(p) {
            e.2[p]
        } else if p > 0 && e.1 != "none"@ && family_block(e.1, dye_color(p)) is Some {
            family_block(e.1, dye_color(p))->0
        } else {
            e.0
        }
    }
}

/// Texts compared by their bytes.
pub fn str_eq(a: &str, b: &str) -> (r: bool)
    ensures
        r == (a@ == b@),
{
    let x = a.as_bytes();
    let y = b.as_bytes();
    proof {
        vstd::utf8::encode_utf8_decode_utf8(a@);
        vstd::utf8::encode_utf8_decode_utf8(b@);
    }
    if x.len() != y.len() {
        assert(a@ != b@) by {
            if a@ == b@ {
                assert(x@ == y@);
            }
        }
        return false;
    }
    let mut i: usize = 0;
    while i < x.len()
        invariant
            i <= x@.len(),
            x@.len() == y@.len(),
            forall|j: int| 0 <= j < i ==> x@[j] == y@[j],
            x@ == a.spec_bytes(),
            y@ == b.spec_bytes(),
        decreases x@.len() - i,
    {
        if x[i] != y[i] {
            assert(a@ != b@) by {
                if a@ == b@ {
                    assert(x@ == y@);
                }
            }
            return false;
        }
        i = i + 1;
    }
    assert(x@ =~= y@);
    true
}

fn paint_to_mc_color(paint_byte: u8) -> (c: u8)
    ensures
        c == dye_color(paint_byte),
{
    if paint_byte == 0 || paint_byte as usize >= MC_COLORS.len() {
        0
    } else {
        MC_COLORS[paint_byte as usize]
    }
}

fn colored_block(family: &str, mc_color: u8) -> (b: Option<McBlock>)
    ensures
        b == family_block(family@, mc_color),
{
    let meta = mc_color & 0x0F;
    if str_eq(family, "concrete") {
        Some(McBlock::new(251, meta))
    } else if str_eq(family, "wool") {
        Some(McBlock::new(35, meta))
    } else if str_eq(family, "stained_glass") {
        Some(McBlock::new(95, meta))
    } else if str_eq(family, "terracotta") {
        Some(McBlock::new(159, meta))
    } else {
        None
    }
}

/// Resolves Eden block `block_type` with paint `paint_byte` to a Minecraft block.
pub fn resolve(mapping: &BlockMapping, block_type: u8, paint_byte: u8) -> (b: McBlock)
    ensures
        b == resolve_spec(mapping@, block_type, paint_byte),
{
    if block_type == 0 {
        return McBlock::new(0, 0);
    }
    let entry = match mapping.blocks.get(&block_type) {
        Some(e) => e,
        None => {
            return McBlock::new(1, 0);
        },
    };
    assert(mapping@[block_type] == entry@);
    if paint_byte > 0 {
        if let Some(mc) = entry.paint_colors.get(&paint_byte) {
            return *mc;
        }
        if !str_eq(entry.painted_family.as_str(), "none") {
            let mc_color = paint_to_mc_color(paint_byte);
            if let Some(b) = colored_block(entry.painted_family.as_str(), mc_color) {
                return b;
            }
        }
    }
    entry.unpainted
}

/// The default entry of Eden block type `id`: (Minecraft id, metadata, family), or none for
/// types outside 1..=111.
pub open spec fn default_entry(id: u8) -> Option<(u8, u8, Seq<char>)> {
    match id {
        1 => Some((7, 0, "none"@)),
        2 => Some((1, 0, "concrete"@)),
        3 => Some((3, 0, "terracotta"@)),
        4 => Some((12, 0, "none"@)),
        5 => Some((18, 0, "none"@)),
        6 => Some((17, 0, "none"@)),
        7 => Some((5, 0, "wool"@)),
        8 => Some((2, 0, "none"@)),
        9 => Some((46, 0, "none"@)),
        10 => Some((4, 0, "concrete"@)),
        11 => Some((2, 0, "none"@)),
        12 => Some((2, 0, "none"@)),
        13 => Some((45, 0, "concrete"@)),
        14 => Some((98, 0, "concrete"@)),
        15 => Some((79, 0, "none"@)),
        16 => Some((155, 1, "stained_glass"@)),
        17 => Some((171, 0, "wool"@)),
        18 => Some((5, 3, "none"@)),
        19 => Some((35, 0, "wool"@)),
        20 => Some((9, 0, "none"@)),
        21 => Some((85, 0, "none"@)),
        22 => Some((48, 0, "none"@)),
        23 => Some((11, 0, "none"@)),
        24 => Some((67, 2, "none"@)),
        25 => Some((67, 1, "none"@)),
        26 => Some((67, 3, "none"@)),
        27 => Some((67, 0, "none"@)),
        28 => Some((53, 2, "none"@)),
        29 => Some((53, 1, "none"@)),
        30 => Some((53, 3, "none"@)),
        31 => Some((53, 0, "none"@)),
        32 => Some((114, 2, "none"@)),
        33 => Some((114, 1, "none"@)),
        34 => Some((114, 3, "none"@)),
        35 => Some((114, 0, "none"@)),
        36 => Some((156, 2, "none"@)),
        37 => Some((156, 1, "none"@)),
        38 => Some((156, 3, "none"@)),
        39 => Some((156, 0, "none"@)),
        40 | 41 | 42 | 43 => Some((139, 0, "none"@)),
        44 | 45 | 46 | 47 => Some((85, 0, "none"@)),
        48 | 49 | 50 | 51 => Some((139, 0, "none"@)),
        52 | 53 | 54 | 55 => Some((139, 0, "none"@)),
        56 => Some((112, 0, "none"@)),
        57 => Some((251, 0, "concrete"@)),
        58 => Some((20, 0, "stained_glass"@)),
        59 => Some((9, 0, "none"@)),
        60 => Some((9, 0, "none"@)),
        61 => Some((9, 0, "none"@)),
        62 => Some((89, 0, "none"@)),
        63 => Some((89, 0, "none"@)),
        64 => Some((11, 0, "none"@)),
        65 => Some((38, 0, "none"@)),
        66 | 67 | 68 | 69 | 70 => Some((64, 0, "none"@)),
        71 => Some((41, 0, "none"@)),
        72 => Some((89, 0, "none"@)),
        73 => Some((38, 0, "none"@)),
        74 => Some((42, 0, "none"@)),
        75 | 76 | 77 | 78 | 79 => Some((120, 0, "none"@)),
        80 => Some((1, 0, "concrete"@)),
        81 => Some((46, 0, "none"@)),
        82 => Some((2, 0, "none"@)),
        83 => Some((4, 0, "concrete"@)),
        84 => Some((1, 0, "concrete"@)),
        85 => Some((3, 0, "terracotta"@)),
        86 => Some((12, 0, "none"@)),
        87 => Some((46, 0, "none"@)),
        88 => Some((5, 0, "wool"@)),
        89 => Some((112, 0, "none"@)),
        90 => Some((20, 0, "stained_glass"@)),
        91 => Some((251, 0, "concrete"@)),
        92 => Some((17, 0, "none"@)),
        93 => Some((18, 0, "none"@)),
        94 => Some((45, 0, "concrete"@)),
        95 => Some((98, 0, "concrete"@)),
        96 => Some((106, 0, "none"@)),
        97 => Some((5, 3, "none"@)),
        98 => Some((79, 0, "none"@)),
        99 => Some((155, 1, "stained_glass"@)),
        100 => Some((171, 0, "wool"@)),
        101 => Some((35, 0, "wool"@)),
        102 => Some((139, 0, "none"@)),
        103 => Some((85, 0, "none"@)),
        104 => Some((139, 0, "none"@)),
        105 => Some((139, 0, "none"@)),
        106 => Some((85, 0, "none"@)),
        107 => Some((9, 0, "none"@)),
        108 => Some((11, 0, "none"@)),
        109 => Some((38, 0, "none"@)),
        110 => Some((89, 0, "none"@)),
        111 => Some((42, 0, "none"@)),
        _ => None,
    }
}

fn default_entry_exec(id: u8) -> (e: Option<(u8, u8, &'static str)>)
    ensures
        match e {
            Some(t) => default_entry(id) == Some((t.0, t.1, t.2@)),
            None => default_entry(id) is None,
        },
{
    match id {
        1 => Some((7, 0, "none")),
        2 => Some((1, 0, "concrete")),
        3 => Some((3, 0, "terracotta")),
        4 => Some((12, 0, "none")),
        5 => Some((18, 0, "none")),
        6 => Some((17, 0, "none")),
        7 => Some((5, 0, "wool")),
        8 => Some((2, 0, "none")),
        9 => Some((46, 0, "none")),
        10 => Some((4, 0, "concrete")),
        11 => Some((2, 0, "none")),
        12 => Some((2, 0, "none")),
        13 => Some((45, 0, "concrete")),
        14 => Some((98, 0, "concrete")),
        15 => Some((79, 0, "none")),
        16 => Some((155, 1, "stained_glass")),
        17 => Some((171, 0, "wool")),
        18 => Some((5, 3, "none")),
        19 => Some((35, 0, "wool")),
        20 => Some((9, 0, "none")),
        21 => Some((85, 0, "none")),
        22 => Some((48, 0, "none")),
        23 => Some((11, 0, "none")),
        24 => Some((67, 2, "none")),
        25 => Some((67, 1, "none")),
        26 => Some((67, 3, "none")),
        27 => Some((67, 0, "none")),
        28 => Some((53, 2, "none")),
        29 => Some((53, 1, "none")),
        30 => Some((53, 3, "none")),
        31 => Some((53, 0, "none")),
        32 => Some((114, 2, "none")),
        33 => Some((114, 1, "none")),
        34 => Some((114, 3, "none")),
        35 => Some((114, 0, "none")),
        36 => Some((156, 2, "none")),
        37 => Some((156, 1, "none")),
        38 => Some((156, 3, "none")),
        39 => Some((156, 0, "none")),
        40 | 41 | 42 | 43 => Some((139, 0, "none")),
        44 | 45 | 46 | 47 => Some((85, 0, "none")),
        48 | 49 | 50 | 51 => Some((139, 0, "none")),
        52 | 53 | 54 | 55 => Some((139, 0, "none")),
        56 => Some((112, 0, "none")),
        57 => Some((251, 0, "concrete")),
        58 => Some((20, 0, "stained_glass")),
        59 => Some((9, 0, "none")),
        60 => Some((9, 0, "none")),
        61 => Some((9, 0, "none")),
        62 => Some((89, 0, "none")),
        63 => Some((89, 0, "none")),
        64 => Some((11, 0, "none")),
        65 => Some((38, 0, "none")),
        66 | 67 | 68 | 69 | 70 => Some((64, 0, "none")),
        71 => Some((41, 0, "none")),
        72 => Some((89, 0, "none")),
        73 => Some((38, 0, "none")),
        74 => Some((42, 0, "none")),
        75 | 76 | 77 | 78 | 79 => Some((120, 0, "none")),
        80 => Some((1, 0, "concrete")),
        81 => Some((46, 0, "none")),
        82 => Some((2, 0, "none")),
        83 => Some((4, 0, "concrete")),
        84 => Some((1, 0, "concrete")),
        85 => Some((3, 0, "terracotta")),
        86 => Some((12, 0, "none")),
        87 => Some((46, 0, "none")),
        88 => Some((5, 0, "wool")),
        89 => Some((112, 0, "none")),
        90 => Some((20, 0, "stained_glass")),
        91 => Some((251, 0, "concrete")),
        92 => Some((17, 0, "none")),
        93 => Some((18, 0, "none")),
        94 => Some((45, 0, "concrete")),
        95 => Some((98, 0, "concrete")),
        96 => Some((106, 0, "none")),
        97 => Some((5, 3, "none")),
        98 => Some((79, 0, "none")),
        99 => Some((155, 1, "stained_glass")),
        100 => Some((171, 0, "wool")),
        101 => Some((35, 0, "wool")),
        102 => Some((139, 0, "none")),
        103 => Some((85, 0, "none")),
        104 => Some((139, 0, "none")),
        105 => Some((139, 0, "none")),
        106 => Some((85, 0, "none")),
        107 => Some((9, 0, "none")),
        108 => Some((11, 0, "none")),
        109 => Some((38, 0, "none")),
        110 => Some((89, 0, "none")),
        111 => Some((42, 0, "none")),
        _ => None,
    }
}

/// The entry view of default entry `k`: its unpainted block, its family and no per-paint
/// overrides.
pub open spec fn default_entry_view(k: u8) -> EntryView {
    match default_entry(k) {
        Some(t) => (McBlock { id: t.0, meta: t.1 }, t.2, Map::<u8, McBlock>::empty()),
        None => (air(), Seq::empty(), Map::<u8, McBlock>::empty()),
    }
}

/// The view of the default mapping: for each default entry, its unpainted block, its family
/// and no per-paint overrides.
pub open spec fn default_view() -> Map<u8, EntryView> {
    Map::new(
        |k: u8| default_entry(k) is Some,
        |k: u8|
            default_entry_view(k),
    )
}

/// The mapping that ships with the converter.
pub fn default_mapping() -> (m: BlockMapping)
    ensures
        m@ == default_view(),
{
    let mut blocks: HashMap<u8, BlockEntry> = HashMap::new();
    let mut id: u8 = 1;
    while id < 112
        invariant
            1 <= id <= 112,
            blocks@.map_values(|e: BlockEntry| e@) == Map::new(
                |k: u8| 1 <= k < id && default_entry(k) is Some,
                |k: u8|
                    default_entry_view(k),
            ),
        decreases 112 - id,
    {
        let ghost before = blocks@;
        let ghost target = Map::new(
            |k: u8| 1 <= k < id + 1 && default_entry(k) is Some,
            |k: u8| default_entry_view(k),
        );
        match default_entry_exec(id) {
            Some((mc_id, mc_meta, family)) => {
                let entry = BlockEntry {
                    unpainted: McBlock::new(mc_id, mc_meta),
                    painted_family: String::from_str(family),
                    paint_colors: HashMap::new(),
                };
                assert(entry@ == default_entry_view(id));
                blocks.insert(id, entry);
                assert(blocks@ == before.insert(id, entry));
            },
            None => {
                assert(blocks@ == before);
            },
        }
        assert forall|k: u8| #[trigger] target.contains_key(k) == blocks@.contains_key(k) by {
            if k != id {
                assert(before.map_values(|e: BlockEntry| e@).contains_key(k) == before.contains_key(k));
            }
        }
        assert forall|k: u8| #[trigger] blocks@.contains_key(k) implies blocks@[k]@ == target[k] by {
            if k != id {
                assert(before.contains_key(k));
                assert(blocks@[k] == before[k]);
                assert(before.map_values(|e: BlockEntry| e@)[k] == before[k]@);
                assert(before.map_values(|e: BlockEntry| e@)[k] == default_entry_view(k));
                assert(target.contains_key(k));
            } else {
                assert(default_entry(id) is Some);
                assert(blocks@[k]@ == default_entry_view(k));
                assert(target.contains_key(k));
            }
        }
        assert(blocks@.map_values(|e: BlockEntry| e@) =~= target);
        id = id + 1;
    }
    assert(Map::new(
        |k: u8| 1 <= k < 112 && default_entry(k) is Some,
        |k: u8|
            default_entry_view(k),
    ) =~= default_view());
    BlockMapping { blocks }
}

/// Every Eden block type 1..=111 has an entry in the default mapping, and no other type has one.
pub proof fn lemma_default_mapping_covers_eden_types(t: u8)
    ensures
        default_view().contains_key(t) <==> 1 <= t <= 111,
{
}

/// Paint bytes always resolve to one of Minecraft's 16 dye colours.
pub proof fn lemma_dye_color_in_range(p: u8)
    ensures
        dye_color(p) < 16,
{
    if p != 0 && p < 55 {
        assert(MC_COLORS@[p as int] < 16);
    }
}

/// Under the default mapping an Eden voxel becomes air exactly when it is empty: every
/// non-empty block type, painted or not, maps to a solid Minecraft block.
pub proof fn lemma_default_mapping_keeps_blocks(t: u8, p: u8)
    ensures
        (resolve_spec(default_view(), t, p).id == 0) <==> t == 0,
{
}

/// The four family names differ from each other and from "none".
proof fn lemma_family_names_distinct()
    ensures
        "terracotta"@ != "none"@,
        "stained_glass"@ != "none"@,
        "concrete"@ != "none"@,
        "wool"@ != "none"@,
        "terracotta"@ != "concrete"@,
        "terracotta"@ != "wool"@,
        "terracotta"@ != "stained_glass"@,
        "stained_glass"@ != "concrete"@,
        "stained_glass"@ != "wool"@,
        "wool"@ != "concrete"@,
{
    reveal_strlit("terracotta");
    reveal_strlit("stained_glass");
    reveal_strlit("concrete");
    reveal_strlit("wool");
    reveal_strlit("none");
    assert("terracotta"@.len() != "none"@.len());
    assert("stained_glass"@.len() != "none"@.len());
    assert("concrete"@.len() != "none"@.len());
    assert("wool"@[0] != "none"@[0]);
    assert("terracotta"@.len() != "concrete"@.len());
    assert("terracotta"@.len() != "wool"@.len());
    assert("terracotta"@.len() != "stained_glass"@.len());
    assert("stained_glass"@.len() != "concrete"@.len());
    assert("stained_glass"@.len() != "wool"@.len());
    assert("wool"@.len() != "concrete"@.len());
}

/// A painted block (paint 1..=54) that its entry gives no per-paint block takes its entry's
/// colour family: terracotta is block 159, stained glass 95, concrete 251 and wool 35, each
/// with the paint's dye colour from `MC_COLORS` as metadata; any other family ("none" among
/// them) leaves the block unpainted.
pub proof fn lemma_painted_family_blocks(m: Map<u8, EntryView>, t: u8, p: u8)
    requires
        t != 0,
        m.contains_key(t),
        1 <= p <= 54,
        !m[t].2.contains_key(p),
    ensures
        m[t].1 == "terracotta"@ ==> resolve_spec(m, t, p) == (McBlock { id: 159, meta: MC_COLORS@[p as int] }),
        m[t].1 == "stained_glass"@ ==> resolve_spec(m, t, p) == (McBlock { id: 95, meta: MC_COLORS@[p as int] }),
        m[t].1 == "concrete"@ ==> resolve_spec(m, t, p) == (McBlock { id: 251, meta: MC_COLORS@[p as int] }),
        m[t].1 == "wool"@ ==> resolve_spec(m, t, p) == (McBlock { id: 35, meta: MC_COLORS@[p as int] }),
        m[t].1 != "terracotta"@ && m[t].1 != "stained_glass"@ && m[t].1 != "concrete"@ && m[t].1
            != "wool"@ ==> resolve_spec(m, t, p) == m[t].0,
{
    lemma_family_names_distinct();
    lemma_dye_color_in_range(p);
    let c = MC_COLORS@[p as int];
    assert(c < 16 ==> c & 0x0Fu8 == c) by (bit_vector);
}

/// Under the default mapping every painted dirt block (type 3) is terracotta (block 159)
/// and every painted glass block (type 58) stained glass (block 95), in the paint's dye colour.
pub proof fn lemma_default_painted_dirt_and_glass(p: u8)
    requires
        1 <= p <= 54,
    ensures
        resolve_spec(default_view(), 3, p) == (McBlock { id: 159, meta: MC_COLORS@[p as int] }),
        resolve_spec(default_view(), 58, p) == (McBlock { id: 95, meta: MC_COLORS@[p as int] }),
{
    assert(default_view().contains_key(3) && default_view()[3].1 == "terracotta"@);
    assert(default_view().contains_key(58) && default_view()[58].1 == "stained_glass"@);
    lemma_painted_family_blocks(default_view(), 3, p);
    lemma_painted_family_blocks(default_view(), 58, p);
}

} // verus!
