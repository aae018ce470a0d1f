//! The gzip-compressed `level.dat` of a Minecraft 1.12.2 (data version 1343) world.

use vstd::prelude::*;
use vstd::string::StringSliceAdditionalSpecFns;
use crate::nbt::{
    NbtBuf, byte_tag, int_tag, long_tag, string_tag, compound_open, compound_close, be16_bytes,
    be32_bytes, be64_bytes, tag_header_bytes,
};

verus! {

/// The uncompressed NBT of `level.dat`: a creative-mode world named `name` with seed `seed`
/// and spawn point (`sx`, `sy`, `sz`), at midday, with its game rules and version.
pub open spec fn level_dat_nbt(name: Seq<u8>, seed: i32, sx: i32, sy: i32, sz: i32) -> Seq<u8> {
    compound_open("".spec_bytes()) + compound_open("Data".spec_bytes())
        + int_tag("DataVersion".spec_bytes(), 1343) + int_tag("version".spec_bytes(), 19133)
        + byte_tag("initialized".spec_bytes(), 1) + string_tag("LevelName".spec_bytes(), name)
        + string_tag("generatorName".spec_bytes(), "default".spec_bytes()) + string_tag(
        "generatorOptions".spec_bytes(),
        "".spec_bytes(),
    ) + int_tag("generatorVersion".spec_bytes(), 1) + long_tag(
        "RandomSeed".spec_bytes(),
        seed as i64,
    ) + byte_tag("MapFeatures".spec_bytes(), 0) + long_tag("LastPlayed".spec_bytes(), 0)
        + long_tag("SizeOnDisk".spec_bytes(), 0) + byte_tag("allowCommands".spec_bytes(), 1)
        + byte_tag("hardcore".spec_bytes(), 0) + int_tag("GameType".spec_bytes(), 1) + byte_tag(
        "Difficulty".spec_bytes(),
        1,
    ) + byte_tag("DifficultyLocked".spec_bytes(), 0) + long_tag("Time".spec_bytes(), 6000)
        + long_tag("DayTime".spec_bytes(), 6000) + int_tag("SpawnX".spec_bytes(), sx) + int_tag(
        "SpawnY".spec_bytes(),
        sy,
    ) + int_tag("SpawnZ".spec_bytes(), sz) + byte_tag("raining".spec_bytes(), 0) + int_tag(
        "rainTime".spec_bytes(),
        100000,
    ) + byte_tag("thundering".spec_bytes(), 0) + int_tag("thunderTime".spec_bytes(), 100000)
        + compound_open("GameRules".spec_bytes()) + string_tag(
        "doMobSpawning".spec_bytes(),
        "false".spec_bytes(),
    ) + string_tag("keepInventory".spec_bytes(), "true".spec_bytes()) + compound_close()
        + compound_open("Version".spec_bytes()) + int_tag("Id".spec_bytes(), 1343) + string_tag(
        "Name".spec_bytes(),
        "1.12.2".spec_bytes(),
    ) + byte_tag("Snapshot".spec_bytes(), 0) + compound_close() + compound_close()
        + compound_close()
}

/// An ASCII literal's bytes are its characters, one byte each.
proof fn lemma_ascii_bytes(s: &str)
    requires
        vstd::utf8::is_ascii_chars(s@),
    ensures
        s.spec_bytes().len() == s@.len(),
        forall|i: int| 0 <= i < s@.len() ==> #[trigger] s.spec_bytes()[i] == s@[i] as u8,
{
    vstd::utf8::is_ascii_chars_encode_utf8(s@);
}

/// The tags that lead the `Data` compound up to "GameType": 247 bytes besides the level name.
proof fn lemma_leading_tags_len(name: Seq<u8>, seed: i32)
    ensures
        (compound_open("".spec_bytes()) + compound_open("Data".spec_bytes())
            + int_tag("DataVersion".spec_bytes(), 1343) + int_tag("version".spec_bytes(), 19133)
            + byte_tag("initialized".spec_bytes(), 1) + string_tag("LevelName".spec_bytes(), name)
            + string_tag("generatorName".spec_bytes(), "default".spec_bytes()) + string_tag(
            "generatorOptions".spec_bytes(),
            "".spec_bytes(),
        ) + int_tag("generatorVersion".spec_bytes(), 1) + long_tag(
            "RandomSeed".spec_bytes(),
            seed as i64,
        ) + byte_tag("MapFeatures".spec_bytes(), 0) + long_tag("LastPlayed".spec_bytes(), 0)
            + long_tag("SizeOnDisk".spec_bytes(), 0) + byte_tag("allowCommands".spec_bytes(), 1)
            + byte_tag("hardcore".spec_bytes(), 0)).len() == 247 + name.len(),
{
    reveal_strlit("");
    lemma_ascii_bytes("");
    reveal_strlit("Data");
    lemma_ascii_bytes("Data");
    reveal_strlit("DataVersion");
    lemma_ascii_bytes("DataVersion");
    reveal_strlit("version");
    lemma_ascii_bytes("version");
    reveal_strlit("initialized");
    lemma_ascii_bytes("initialized");
    reveal_strlit("LevelName");
    lemma_ascii_bytes("LevelName");
    reveal_strlit("generatorName");
    lemma_ascii_bytes("generatorName");
    reveal_strlit("default");
    lemma_ascii_bytes("default");
    reveal_strlit("generatorOptions");
    lemma_ascii_bytes("generatorOptions");
    reveal_strlit("generatorVersion");
    lemma_ascii_bytes("generatorVersion");
    reveal_strlit("RandomSeed");
    lemma_ascii_bytes("RandomSeed");
    reveal_strlit("MapFeatures");
    lemma_ascii_bytes("MapFeatures");
    reveal_strlit("LastPlayed");
    lemma_ascii_bytes("LastPlayed");
    reveal_strlit("SizeOnDisk");
    lemma_ascii_bytes("SizeOnDisk");
    reveal_strlit("allowCommands");
    lemma_ascii_bytes("allowCommands");
    reveal_strlit("hardcore");
    lemma_ascii_bytes("hardcore");
}

/// Appending leaves the bytes already there in place.
proof fn lemma_front_kept(a: Seq<u8>, b: Seq<u8>, i: int, j: int)
    requires
        0 <= i <= j <= a.len(),
    ensures
        (a + b).subrange(i, j) == a.subrange(i, j),
{
    assert((a + b).subrange(i, j) =~= a.subrange(i, j));
}

/// The bytes of the `TAG_Int` "GameType" holding 1.
proof fn lemma_game_type_tag()
    ensures
        int_tag("GameType".spec_bytes(), 1) == seq![3u8, 0, 8, 71, 97, 109, 101, 84, 121, 112, 101, 0, 0, 0, 1],
{
    reveal_strlit("GameType");
    lemma_ascii_bytes("GameType");
    assert((1u32 >> 24u32) as u8 == 0 && (1u32 >> 16u32) as u8 == 0 && (1u32 >> 8u32) as u8 == 0
        && 1u32 as u8 == 1) by (bit_vector);
    assert((8u16 >> 8u16) as u8 == 0 && 8u16 as u8 == 8) by (bit_vector);
    assert(int_tag("GameType".spec_bytes(), 1) =~= seq![3u8, 0, 8, 71, 97, 109, 101, 84, 121, 112, 101, 0, 0, 0, 1]);
}

/// The world opens in creative mode: right after the fixed tags that lead the `Data`
/// compound (247 bytes besides the level name) stands the `TAG_Int` (3) named "GameType"
/// (name length 8, then its eight ASCII bytes) holding 1, big-endian.
#[verifier::rlimit(60)]
#[verifier::spinoff_prover]
pub proof fn lemma_level_dat_is_creative(name: Seq<u8>, seed: i32, sx: i32, sy: i32, sz: i32)
    ensures
        level_dat_nbt(name, seed, sx, sy, sz).subrange(247 + name.len() as int, 262 + name.len() as int)
            == seq![3u8, 0, 8, 71, 97, 109, 101, 84, 121, 112, 101, 0, 0, 0, 1],
{
    let d = level_dat_nbt(name, seed, sx, sy, sz);
    let lead = compound_open("".spec_bytes()) + compound_open("Data".spec_bytes())
        + int_tag("DataVersion".spec_bytes(), 1343) + int_tag("version".spec_bytes(), 19133)
        + byte_tag("initialized".spec_bytes(), 1) + string_tag("LevelName".spec_bytes(), name)
        + string_tag("generatorName".spec_bytes(), "default".spec_bytes()) + string_tag(
        "generatorOptions".spec_bytes(),
        "".spec_bytes(),
    ) + int_tag("generatorVersion".spec_bytes(), 1) + long_tag(
        "RandomSeed".spec_bytes(),
        seed as i64,
    ) + byte_tag("MapFeatures".spec_bytes(), 0) + long_tag("LastPlayed".spec_bytes(), 0)
        + long_tag("SizeOnDisk".spec_bytes(), 0) + byte_tag("allowCommands".spec_bytes(), 1)
        + byte_tag("hardcore".spec_bytes(), 0);
    lemma_leading_tags_len(name, seed);
    let gt = int_tag("GameType".spec_bytes(), 1);
    lemma_game_type_tag();
    let k = lead.len() as int;
    let x0 = lead + gt;
    assert(x0.subrange(k, k + 15) =~= gt);
    let x1 = x0 + byte_tag("Difficulty".spec_bytes(), 1);
    lemma_front_kept(x0, byte_tag("Difficulty".spec_bytes(), 1), k, k + 15);
    let x2 = x1 + byte_tag("DifficultyLocked".spec_bytes(), 0);
    lemma_front_kept(x1, byte_tag("DifficultyLocked".spec_bytes(), 0), k, k + 15);
    let x3 = x2 + long_tag("Time".spec_bytes(), 6000);
    lemma_front_kept(x2, long_tag("Time".spec_bytes(), 6000), k, k + 15);
    let x4 = x3 + long_tag("DayTime".spec_bytes(), 6000);
    lemma_front_kept(x3, long_tag("DayTime".spec_bytes(), 6000), k, k + 15);
    let x5 = x4 + int_tag("SpawnX".spec_bytes(), sx);
    lemma_front_kept(x4, int_tag("SpawnX".spec_bytes(), sx), k, k + 15);
    let x6 = x5 + int_tag("SpawnY".spec_bytes(), sy);
    lemma_front_kept(x5, int_tag("SpawnY".spec_bytes(), sy), k, k + 15);
    let x7 = x6 + int_tag("SpawnZ".spec_bytes(), sz);
    lemma_front_kept(x6, int_tag("SpawnZ".spec_bytes(), sz), k, k + 15);
    let x8 = x7 + byte_tag("raining".spec_bytes(), 0);
    lemma_front_kept(x7, byte_tag("raining".spec_bytes(), 0), k, k + 15);
    let x9 = x8 + int_tag("rainTime".spec_bytes(), 100000);
    lemma_front_kept(x8, int_tag("rainTime".spec_bytes(), 100000), k, k + 15);
    let x10 = x9 + byte_tag("thundering".spec_bytes(), 0);
    lemma_front_kept(x9, byte_tag("thundering".spec_bytes(), 0), k, k + 15);
    let x11 = x10 + int_tag("thunderTime".spec_bytes(), 100000);
    lemma_front_kept(x10, int_tag("thunderTime".spec_bytes(), 100000), k, k + 15);
    let x12 = x11 + compound_open("GameRules".spec_bytes());
    lemma_front_kept(x11, compound_open("GameRules".spec_bytes()), k, k + 15);
    let x13 = x12 + string_tag("doMobSpawning".spec_bytes(), "false".spec_bytes());
    lemma_front_kept(x12, string_tag("doMobSpawning".spec_bytes(), "false".spec_bytes()), k, k + 15);
    let x14 = x13 + string_tag("keepInventory".spec_bytes(), "true".spec_bytes());
    lemma_front_kept(x13, string_tag("keepInventory".spec_bytes(), "true".spec_bytes()), k, k + 15);
    let x15 = x14 + compound_close();
    lemma_front_kept(x14, compound_close(), k, k + 15);
    let x16 = x15 + compound_open("Version".spec_bytes());
    lemma_front_kept(x15, compound_open("Version".spec_bytes()), k, k + 15);
    let x17 = x16 + int_tag("Id".spec_bytes(), 1343);
    lemma_front_kept(x16, int_tag("Id".spec_bytes(), 1343), k, k + 15);
    let x18 = x17 + string_tag("Name".spec_bytes(), "1.12.2".spec_bytes());
    lemma_front_kept(x17, string_tag("Name".spec_bytes(), "1.12.2".spec_bytes()), k, k + 15);
    let x19 = x18 + byte_tag("Snapshot".spec_bytes(), 0);
    lemma_front_kept(x18, byte_tag("Snapshot".spec_bytes(), 0), k, k + 15);
    let x20 = x19 + compound_close();
    lemma_front_kept(x19, compound_close(), k, k + 15);
    let x21 = x20 + compound_close();
    lemma_front_kept(x20, compound_close(), k, k + 15);
    let x22 = x21 + compound_close();
    lemma_front_kept(x21, compound_close(), k, k + 15);
    assert(d == x22);
}

/// Appending keeps what a sequence starts with: in a chain of appended parts, each prefix
/// chain is the start of the whole.
proof fn lemma_appends_keep_prefix(
    e0: Seq<u8>,
    e1: Seq<u8>,
    e2: Seq<u8>,
    e3: Seq<u8>,
    e4: Seq<u8>,
    e5: Seq<u8>,
    e6: Seq<u8>,
    e7: Seq<u8>,
    e8: Seq<u8>,
    e9: Seq<u8>,
    e10: Seq<u8>,
    e11: Seq<u8>,
    e12: Seq<u8>,
    e13: Seq<u8>,
    e14: Seq<u8>,
    e15: Seq<u8>,
    e16: Seq<u8>,
    e17: Seq<u8>,
    e18: Seq<u8>,
    e19: Seq<u8>,
    e20: Seq<u8>,
    e21: Seq<u8>,
    e22: Seq<u8>,
    e23: Seq<u8>,
    e24: Seq<u8>,
    e25: Seq<u8>,
    e26: Seq<u8>,
    e27: Seq<u8>,
    e28: Seq<u8>,
    e29: Seq<u8>,
    e30: Seq<u8>,
    e31: Seq<u8>,
    e32: Seq<u8>,
    e33: Seq<u8>,
    e34: Seq<u8>,
    e35: Seq<u8>,
    e36: Seq<u8>,
    e37: Seq<u8>,
)
    ensures
        (e0 + e1 + e2 + e3 + e4 + e5 + e6 + e7 + e8 + e9 + e10 + e11 + e12 + e13 + e14 + e15 + e16 + e17 + e18 + e19 + e20 + e21 + e22 + e23 + e24 + e25 + e26 + e27 + e28 + e29 + e30 + e31 + e32 + e33 + e34 + e35 + e36 + e37).take((e0 + e1 + e2 + e3 + e4 + e5).len() as int) == e0 + e1 + e2 + e3 + e4 + e5,
        (e0 + e1 + e2 + e3 + e4 + e5).len() <= (e0 + e1 + e2 + e3 + e4 + e5 + e6 + e7 + e8 + e9 + e10 + e11 + e12 + e13 + e14 + e15 + e16 + e17 + e18 + e19 + e20 + e21 + e22 + e23 + e24 + e25 + e26 + e27 + e28 + e29 + e30 + e31 + e32 + e33 + e34 + e35 + e36 + e37).len(),
        (e0 + e1 + e2 + e3 + e4 + e5 + e6 + e7 + e8 + e9 + e10 + e11 + e12 + e13 + e14 + e15 + e16 + e17 + e18 + e19 + e20 + e21 + e22 + e23 + e24 + e25 + e26 + e27 + e28 + e29 + e30 + e31 + e32 + e33 + e34 + e35 + e36 + e37).take((e0 + e1 + e2 + e3 + e4 + e5 + e6 + e7 + e8 + e9).len() as int) == e0 + e1 + e2 + e3 + e4 + e5 + e6 + e7 + e8 + e9,
        (e0 + e1 + e2 + e3 + e4 + e5 + e6 + e7 + e8 + e9).len() <= (e0 + e1 + e2 + e3 + e4 + e5 + e6 + e7 + e8 + e9 + e10 + e11 + e12 + e13 + e14 + e15 + e16 + e17 + e18 + e19 + e20 + e21 + e22 + e23 + e24 + e25 + e26 + e27 + e28 + e29 + e30 + e31 + e32 + e33 + e34 + e35 + e36 + e37).len(),
        (e0 + e1 + e2 + e3 + e4 + e5 + e6 + e7 + e8 + e9 + e10 + e11 + e12 + e13 + e14 + e15 + e16 + e17 + e18 + e19 + e20 + e21 + e22 + e23 + e24 + e25 + e26 + e27 + e28 + e29 + e30 + e31 + e32 + e33 + e34 + e35 + e36 + e37).take((e0 + e1 + e2 + e3 + e4 + e5 + e6 + e7 + e8 + e9 + e10 + e11 + e12 + e13 + e14 + e15 + e16 + e17 + e18 + e19 + e20).len() as int) == e0 + e1 + e2 + e3 + e4 + e5 + e6 + e7 + e8 + e9 + e10 + e11 + e12 + e13 + e14 + e15 + e16 + e17 + e18 + e19 + e20,
        (e0 + e1 + e2 + e3 + e4 + e5 + e6 + e7 + e8 + e9 + e10 + e11 + e12 + e13 + e14 + e15 + e16 + e17 + e18 + e19 + e20).len() <= (e0 + e1 + e2 + e3 + e4 + e5 + e6 + e7 + e8 + e9 + e10 + e11 + e12 + e13 + e14 + e15 + e16 + e17 + e18 + e19 + e20 + e21 + e22 + e23 + e24 + e25 + e26 + e27 + e28 + e29 + e30 + e31 + e32 + e33 + e34 + e35 + e36 + e37).len(),
        (e0 + e1 + e2 + e3 + e4 + e5 + e6 + e7 + e8 + e9 + e10 + e11 + e12 + e13 + e14 + e15 + e16 + e17 + e18 + e19 + e20 + e21 + e22 + e23 + e24 + e25 + e26 + e27 + e28 + e29 + e30 + e31 + e32 + e33 + e34 + e35 + e36 + e37).take((e0 + e1 + e2 + e3 + e4 + e5 + e6 + e7 + e8 + e9 + e10 + e11 + e12 + e13 + e14 + e15 + e16 + e17 + e18 + e19 + e20 + e21).len() as int) == e0 + e1 + e2 + e3 + e4 + e5 + e6 + e7 + e8 + e9 + e10 + e11 + e12 + e13 + e14 + e15 + e16 + e17 + e18 + e19 + e20 + e21,
        (e0 + e1 + e2 + e3 + e4 + e5 + e6 + e7 + e8 + e9 + e10 + e11 + e12 + e13 + e14 + e15 + e16 + e17 + e18 + e19 + e20 + e21).len() <= (e0 + e1 + e2 + e3 + e4 + e5 + e6 + e7 + e8 + e9 + e10 + e11 + e12 + e13 + e14 + e15 + e16 + e17 + e18 + e19 + e20 + e21 + e22 + e23 + e24 + e25 + e26 + e27 + e28 + e29 + e30 + e31 + e32 + e33 + e34 + e35 + e36 + e37).len(),
        (e0 + e1 + e2 + e3 + e4 + e5 + e6 + e7 + e8 + e9 + e10 + e11 + e12 + e13 + e14 + e15 + e16 + e17 + e18 + e19 + e20 + e21 + e22 + e23 + e24 + e25 + e26 + e27 + e28 + e29 + e30 + e31 + e32 + e33 + e34 + e35 + e36 + e37).take((e0 + e1 + e2 + e3 + e4 + e5 + e6 + e7 + e8 + e9 + e10 + e11 + e12 + e13 + e14 + e15 + e16 + e17 + e18 + e19 + e20 + e21 + e22).len() as int) == e0 + e1 + e2 + e3 + e4 + e5 + e6 + e7 + e8 + e9 + e10 + e11 + e12 + e13 + e14 + e15 + e16 + e17 + e18 + e19 + e20 + e21 + e22,
        (e0 + e1 + e2 + e3 + e4 + e5 + e6 + e7 + e8 + e9 + e10 + e11 + e12 + e13 + e14 + e15 + e16 + e17 + e18 + e19 + e20 + e21 + e22).len() <= (e0 + e1 + e2 + e3 + e4 + e5 + e6 + e7 + e8 + e9 + e10 + e11 + e12 + e13 + e14 + e15 + e16 + e17 + e18 + e19 + e20 + e21 + e22 + e23 + e24 + e25 + e26 + e27 + e28 + e29 + e30 + e31 + e32 + e33 + e34 + e35 + e36 + e37).len(),
{
    let d = e0 + e1 + e2 + e3 + e4 + e5 + e6 + e7 + e8 + e9 + e10 + e11 + e12 + e13 + e14 + e15 + e16 + e17 + e18 + e19 + e20 + e21 + e22 + e23 + e24 + e25 + e26 + e27 + e28 + e29 + e30 + e31 + e32 + e33 + e34 + e35 + e36 + e37;
    let x5 = e0 + e1 + e2 + e3 + e4 + e5;
    assert forall|i: int| 0 <= i < x5.len() implies #[trigger] d[i] == x5[i] by {}
    assert(d.take(x5.len() as int) =~= x5);
    let x9 = e0 + e1 + e2 + e3 + e4 + e5 + e6 + e7 + e8 + e9;
    assert forall|i: int| 0 <= i < x9.len() implies #[trigger] d[i] == x9[i] by {}
    assert(d.take(x9.len() as int) =~= x9);
    let x20 = e0 + e1 + e2 + e3 + e4 + e5 + e6 + e7 + e8 + e9 + e10 + e11 + e12 + e13 + e14 + e15 + e16 + e17 + e18 + e19 + e20;
    assert forall|i: int| 0 <= i < x20.len() implies #[trigger] d[i] == x20[i] by {}
    assert(d.take(x20.len() as int) =~= x20);
    let x21 = e0 + e1 + e2 + e3 + e4 + e5 + e6 + e7 + e8 + e9 + e10 + e11 + e12 + e13 + e14 + e15 + e16 + e17 + e18 + e19 + e20 + e21;
    assert forall|i: int| 0 <= i < x21.len() implies #[trigger] d[i] == x21[i] by {}
    assert(d.take(x21.len() as int) =~= x21);
    let x22 = e0 + e1 + e2 + e3 + e4 + e5 + e6 + e7 + e8 + e9 + e10 + e11 + e12 + e13 + e14 + e15 + e16 + e17 + e18 + e19 + e20 + e21 + e22;
    assert forall|i: int| 0 <= i < x22.len() implies #[trigger] d[i] == x22[i] by {}
    assert(d.take(x22.len() as int) =~= x22);
}

/// The byte lengths of the tags that lead `level.dat` up to the spawn point.
proof fn lemma_leading_part_lens(name: Seq<u8>, seed: i32, sx: i32, sy: i32)
    ensures
        compound_open("".spec_bytes()).len() == 3,
        compound_open("Data".spec_bytes()).len() == 7,
        int_tag("DataVersion".spec_bytes(), 1343).len() == 18,
        int_tag("version".spec_bytes(), 19133).len() == 14,
        byte_tag("initialized".spec_bytes(), 1).len() == 15,
        string_tag("LevelName".spec_bytes(), name).len() == 14 + name.len(),
        string_tag("generatorName".spec_bytes(), "default".spec_bytes()).len() == 25,
        string_tag("generatorOptions".spec_bytes(), "".spec_bytes()).len() == 21,
        int_tag("generatorVersion".spec_bytes(), 1).len() == 23,
        long_tag("RandomSeed".spec_bytes(), seed as i64).len() == 21,
        byte_tag("MapFeatures".spec_bytes(), 0).len() == 15,
        long_tag("LastPlayed".spec_bytes(), 0).len() == 21,
        long_tag("SizeOnDisk".spec_bytes(), 0).len() == 21,
        byte_tag("allowCommands".spec_bytes(), 1).len() == 17,
        byte_tag("hardcore".spec_bytes(), 0).len() == 12,
        int_tag("GameType".spec_bytes(), 1).len() == 15,
        byte_tag("Difficulty".spec_bytes(), 1).len() == 14,
        byte_tag("DifficultyLocked".spec_bytes(), 0).len() == 20,
        long_tag("Time".spec_bytes(), 6000).len() == 15,
        long_tag("DayTime".spec_bytes(), 6000).len() == 18,
        int_tag("SpawnX".spec_bytes(), sx).len() == 13,
        int_tag("SpawnY".spec_bytes(), sy).len() == 13,
{
    reveal_strlit("");
    lemma_ascii_bytes("");
    reveal_strlit("Data");
    lemma_ascii_bytes("Data");
    reveal_strlit("DataVersion");
    lemma_ascii_bytes("DataVersion");
    reveal_strlit("version");
    lemma_ascii_bytes("version");
    reveal_strlit("initialized");
    lemma_ascii_bytes("initialized");
    reveal_strlit("LevelName");
    lemma_ascii_bytes("LevelName");
    reveal_strlit("generatorName");
    lemma_ascii_bytes("generatorName");
    reveal_strlit("default");
    lemma_ascii_bytes("default");
    reveal_strlit("generatorOptions");
    lemma_ascii_bytes("generatorOptions");
    reveal_strlit("generatorVersion");
    lemma_ascii_bytes("generatorVersion");
    reveal_strlit("RandomSeed");
    lemma_ascii_bytes("RandomSeed");
    reveal_strlit("MapFeatures");
    lemma_ascii_bytes("MapFeatures");
    reveal_strlit("LastPlayed");
    lemma_ascii_bytes("LastPlayed");
    reveal_strlit("SizeOnDisk");
    lemma_ascii_bytes("SizeOnDisk");
    reveal_strlit("allowCommands");
    lemma_ascii_bytes("allowCommands");
    reveal_strlit("hardcore");
    lemma_ascii_bytes("hardcore");
    reveal_strlit("GameType");
    lemma_ascii_bytes("GameType");
    reveal_strlit("Difficulty");
    lemma_ascii_bytes("Difficulty");
    reveal_strlit("DifficultyLocked");
    lemma_ascii_bytes("DifficultyLocked");
    reveal_strlit("Time");
    lemma_ascii_bytes("Time");
    reveal_strlit("DayTime");
    lemma_ascii_bytes("DayTime");
    reveal_strlit("SpawnX");
    lemma_ascii_bytes("SpawnX");
    reveal_strlit("SpawnY");
    lemma_ascii_bytes("SpawnY");
}

/// A value that closes the last of a chain of parts that starts `d` stands in `d` right
/// after the chain before it and its own header.
proof fn lemma_value_in_prefix(d: Seq<u8>, pre: Seq<u8>, head: Seq<u8>, v: Seq<u8>)
    requires
        (pre + (head + v)).len() <= d.len(),
        d.take((pre + (head + v)).len() as int) == pre + (head + v),
    ensures
        d.subrange(pre.len() + head.len() as int, pre.len() + head.len() + v.len() as int) == v,
{
    let x = pre + (head + v);
    assert forall|i: int| 0 <= i < v.len() implies d[pre.len() + head.len() + i] == v[i] by {
        assert(d.take(x.len() as int)[pre.len() + head.len() + i] == x[pre.len() + head.len() + i]);
        assert(x[pre.len() + head.len() + i] == (head + v)[head.len() + i]);
    }
    assert(d.subrange(pre.len() + head.len() as int, pre.len() + head.len() + v.len() as int) =~= v);
}

/// Where the values of a chain of parts stand in the whole, from the parts' lengths alone:
/// the part lengths of `level.dat` put the level name at 71, the seed at 153 and the spawn
/// coordinates at 338, 351 and 364, each plus the name's length.
proof fn lemma_chain_values(
    e0: Seq<u8>,
    e1: Seq<u8>,
    e2: Seq<u8>,
    e3: Seq<u8>,
    e4: Seq<u8>,
    e5: Seq<u8>,
    e6: Seq<u8>,
    e7: Seq<u8>,
    e8: Seq<u8>,
    e9: Seq<u8>,
    e10: Seq<u8>,
    e11: Seq<u8>,
    e12: Seq<u8>,
    e13: Seq<u8>,
    e14: Seq<u8>,
    e15: Seq<u8>,
    e16: Seq<u8>,
    e17: Seq<u8>,
    e18: Seq<u8>,
    e19: Seq<u8>,
    e20: Seq<u8>,
    e21: Seq<u8>,
    e22: Seq<u8>,
    e23: Seq<u8>,
    e24: Seq<u8>,
    e25: Seq<u8>,
    e26: Seq<u8>,
    e27: Seq<u8>,
    e28: Seq<u8>,
    e29: Seq<u8>,
    e30: Seq<u8>,
    e31: Seq<u8>,
    e32: Seq<u8>,
    e33: Seq<u8>,
    e34: Seq<u8>,
    e35: Seq<u8>,
    e36: Seq<u8>,
    e37: Seq<u8>,
    n: int,
    hn: Seq<u8>,
    vn: Seq<u8>,
    hs: Seq<u8>,
    vs: Seq<u8>,
    hx: Seq<u8>,
    vx: Seq<u8>,
    hy: Seq<u8>,
    vy: Seq<u8>,
    hz: Seq<u8>,
    vz: Seq<u8>,
)
    requires
        e0.len() == 3,
        e1.len() == 7,
        e2.len() == 18,
        e3.len() == 14,
        e4.len() == 15,
        e5.len() == 14 + n,
        e6.len() == 25,
        e7.len() == 21,
        e8.len() == 23,
        e9.len() == 21,
        e10.len() == 15,
        e11.len() == 21,
        e12.len() == 21,
        e13.len() == 17,
        e14.len() == 12,
        e15.len() == 15,
        e16.len() == 14,
        e17.len() == 20,
        e18.len() == 15,
        e19.len() == 18,
        e20.len() == 13,
        e21.len() == 13,
        e5 == hn + vn,
        hn.len() == 14,
        vn.len() == n,
        e9 == hs + vs,
        hs.len() == 13,
        e20 == hx + vx,
        e21 == hy + vy,
        e22 == hz + vz,
        hx.len() == 9,
        hy.len() == 9,
        hz.len() == 9,
    ensures
        (e0 + e1 + e2 + e3 + e4 + e5 + e6 + e7 + e8 + e9 + e10 + e11 + e12 + e13 + e14 + e15 + e16 + e17 + e18 + e19 + e20 + e21 + e22 + e23 + e24 + e25 + e26 + e27 + e28 + e29 + e30 + e31 + e32 + e33 + e34 + e35 + e36 + e37).subrange(71, 71 + n) == vn,
        (e0 + e1 + e2 + e3 + e4 + e5 + e6 + e7 + e8 + e9 + e10 + e11 + e12 + e13 + e14 + e15 + e16 + e17 + e18 + e19 + e20 + e21 + e22 + e23 + e24 + e25 + e26 + e27 + e28 + e29 + e30 + e31 + e32 + e33 + e34 + e35 + e36 + e37).subrange(153 + n, 153 + n + vs.len()) == vs,
        (e0 + e1 + e2 + e3 + e4 + e5 + e6 + e7 + e8 + e9 + e10 + e11 + e12 + e13 + e14 + e15 + e16 + e17 + e18 + e19 + e20 + e21 + e22 + e23 + e24 + e25 + e26 + e27 + e28 + e29 + e30 + e31 + e32 + e33 + e34 + e35 + e36 + e37).subrange(338 + n, 338 + n + vx.len()) == vx,
        (e0 + e1 + e2 + e3 + e4 + e5 + e6 + e7 + e8 + e9 + e10 + e11 + e12 + e13 + e14 + e15 + e16 + e17 + e18 + e19 + e20 + e21 + e22 + e23 + e24 + e25 + e26 + e27 + e28 + e29 + e30 + e31 + e32 + e33 + e34 + e35 + e36 + e37).subrange(351 + n, 351 + n + vy.len()) == vy,
        (e0 + e1 + e2 + e3 + e4 + e5 + e6 + e7 + e8 + e9 + e10 + e11 + e12 + e13 + e14 + e15 + e16 + e17 + e18 + e19 + e20 + e21 + e22 + e23 + e24 + e25 + e26 + e27 + e28 + e29 + e30 + e31 + e32 + e33 + e34 + e35 + e36 + e37).subrange(364 + n, 364 + n + vz.len()) == vz,
{
    lemma_appends_keep_prefix(e0, e1, e2, e3, e4, e5, e6, e7, e8, e9, e10, e11, e12, e13, e14, e15, e16, e17, e18, e19, e20, e21, e22, e23, e24, e25, e26, e27, e28, e29, e30, e31, e32, e33, e34, e35, e36, e37);
    let d = e0 + e1 + e2 + e3 + e4 + e5 + e6 + e7 + e8 + e9 + e10 + e11 + e12 + e13 + e14 + e15 + e16 + e17 + e18 + e19 + e20 + e21 + e22 + e23 + e24 + e25 + e26 + e27 + e28 + e29 + e30 + e31 + e32 + e33 + e34 + e35 + e36 + e37;
    let x4 = e0 + e1 + e2 + e3 + e4;
    let x8 = e0 + e1 + e2 + e3 + e4 + e5 + e6 + e7 + e8;
    let x19 = e0 + e1 + e2 + e3 + e4 + e5 + e6 + e7 + e8 + e9 + e10 + e11 + e12 + e13 + e14 + e15 + e16 + e17 + e18 + e19;
    let x20 = e0 + e1 + e2 + e3 + e4 + e5 + e6 + e7 + e8 + e9 + e10 + e11 + e12 + e13 + e14 + e15 + e16 + e17 + e18 + e19 + e20;
    let x21 = e0 + e1 + e2 + e3 + e4 + e5 + e6 + e7 + e8 + e9 + e10 + e11 + e12 + e13 + e14 + e15 + e16 + e17 + e18 + e19 + e20 + e21;
    lemma_value_in_prefix(d, x4, hn, vn);
    lemma_value_in_prefix(d, x8, hs, vs);
    lemma_value_in_prefix(d, x19, hx, vx);
    lemma_value_in_prefix(d, x20, hy, vy);
    lemma_value_in_prefix(d, x21, hz, vz);
}

/// The level name, seed and spawn point of `level.dat` stand where Minecraft reads them:
/// the name's bytes in the `TAG_String` "LevelName" (from byte 71), the seed as the
/// big-endian `TAG_Long` "RandomSeed" (from byte 153 plus the name's length) and the spawn
/// x, y and z as the big-endian `TAG_Int`s "SpawnX", "SpawnY" and "SpawnZ" (from bytes 338,
/// 351 and 364 plus the name's length), in that order.
#[verifier::rlimit(100)]
#[verifier::spinoff_prover]
pub proof fn lemma_level_dat_fields(name: Seq<u8>, seed: i32, sx: i32, sy: i32, sz: i32)
    ensures
        ({
            let d = level_dat_nbt(name, seed, sx, sy, sz);
            let n = name.len() as int;
            &&& d.subrange(71, 71 + n) == name
            &&& d.subrange(153 + n, 161 + n) == be64_bytes(seed as i64 as u64)
            &&& d.subrange(338 + n, 342 + n) == be32_bytes(sx as u32)
            &&& d.subrange(351 + n, 355 + n) == be32_bytes(sy as u32)
            &&& d.subrange(364 + n, 368 + n) == be32_bytes(sz as u32)
        }),
{
    lemma_leading_part_lens(name, seed, sx, sy);
    reveal_strlit("SpawnZ");
    lemma_ascii_bytes("SpawnZ");
    lemma_chain_values(
        compound_open("".spec_bytes()),
        compound_open("Data".spec_bytes()),
        int_tag("DataVersion".spec_bytes(), 1343),
        int_tag("version".spec_bytes(), 19133),
        byte_tag("initialized".spec_bytes(), 1),
        string_tag("LevelName".spec_bytes(), name),
        string_tag("generatorName".spec_bytes(), "default".spec_bytes()),
        string_tag("generatorOptions".spec_bytes(), "".spec_bytes()),
        int_tag("generatorVersion".spec_bytes(), 1),
        long_tag("RandomSeed".spec_bytes(), seed as i64),
        byte_tag("MapFeatures".spec_bytes(), 0),
        long_tag("LastPlayed".spec_bytes(), 0),
        long_tag("SizeOnDisk".spec_bytes(), 0),
        byte_tag("allowCommands".spec_bytes(), 1),
        byte_tag("hardcore".spec_bytes(), 0),
        int_tag("GameType".spec_bytes(), 1),
        byte_tag("Difficulty".spec_bytes(), 1),
        byte_tag("DifficultyLocked".spec_bytes(), 0),
        long_tag("Time".spec_bytes(), 6000),
        long_tag("DayTime".spec_bytes(), 6000),
        int_tag("SpawnX".spec_bytes(), sx),
        int_tag("SpawnY".spec_bytes(), sy),
        int_tag("SpawnZ".spec_bytes(), sz),
        byte_tag("raining".spec_bytes(), 0),
        int_tag("rainTime".spec_bytes(), 100000),
        byte_tag("thundering".spec_bytes(), 0),
        int_tag("thunderTime".spec_bytes(), 100000),
        compound_open("GameRules".spec_bytes()),
        string_tag("doMobSpawning".spec_bytes(), "false".spec_bytes()),
        string_tag("keepInventory".spec_bytes(), "true".spec_bytes()),
        compound_close(),
        compound_open("Version".spec_bytes()),
        int_tag("Id".spec_bytes(), 1343),
        string_tag("Name".spec_bytes(), "1.12.2".spec_bytes()),
        byte_tag("Snapshot".spec_bytes(), 0),
        compound_close(),
        compound_close(),
        compound_close(),
        name.len() as int,
        tag_header_bytes(8, "LevelName".spec_bytes()) + be16_bytes(name.len() as u16),
        name,
        tag_header_bytes(4, "RandomSeed".spec_bytes()),
        be64_bytes(seed as i64 as u64),
        tag_header_bytes(3, "SpawnX".spec_bytes()),
        be32_bytes(sx as u32),
        tag_header_bytes(3, "SpawnY".spec_bytes()),
        be32_bytes(sy as u32),
        tag_header_bytes(3, "SpawnZ".spec_bytes()),
        be32_bytes(sz as u32),
    );
}

/// Builds the uncompressed NBT of `level.dat` (see `level_dat_nbt`).
pub fn build_level_dat_nbt(world_name: &str, seed: i32, spawn_x: i32, spawn_y: i32, spawn_z: i32) -> (nbt: Vec<u8>)
    ensures
        nbt@ == level_dat_nbt(world_name.spec_bytes(), seed, spawn_x, spawn_y, spawn_z),
        nbt@.subrange(247 + world_name.spec_bytes().len() as int, 262 + world_name.spec_bytes().len() as int)
            == seq![3u8, 0, 8, 71, 97, 109, 101, 84, 121, 112, 101, 0, 0, 0, 1],
        ({
            let n = world_name.spec_bytes().len() as int;
            &&& nbt@.subrange(71, 71 + n) == world_name.spec_bytes()
            &&& nbt@.subrange(153 + n, 161 + n) == be64_bytes(seed as i64 as u64)
            &&& nbt@.subrange(338 + n, 342 + n) == be32_bytes(spawn_x as u32)
            &&& nbt@.subrange(351 + n, 355 + n) == be32_bytes(spawn_y as u32)
            &&& nbt@.subrange(364 + n, 368 + n) == be32_bytes(spawn_z as u32)
        }),
{
    proof {
        lemma_level_dat_is_creative(world_name.spec_bytes(), seed, spawn_x, spawn_y, spawn_z);
        lemma_level_dat_fields(world_name.spec_bytes(), seed, spawn_x, spawn_y, spawn_z);
    }
    let mut buf = NbtBuf::new();
    buf.begin_compound("");
    buf.begin_compound("Data");
    buf.int32("DataVersion", 1343);
    buf.int32("version", 19133);
    buf.byte("initialized", 1);
    buf.string("LevelName", world_name);
    buf.string("generatorName", "default");
    buf.string("generatorOptions", "");
    buf.int32("generatorVersion", 1);
    buf.long("RandomSeed", seed as i64);
    buf.byte("MapFeatures", 0);
    buf.long("LastPlayed", 0);
    buf.long("SizeOnDisk", 0);
    buf.byte("allowCommands", 1);
    buf.byte("hardcore", 0);
    buf.int32("GameType", 1);
    buf.byte("Difficulty", 1);
    buf.byte("DifficultyLocked", 0);
    buf.long("Time", 6000);
    buf.long("DayTime", 6000);
    buf.int32("SpawnX", spawn_x);
    buf.int32("SpawnY", spawn_y);
    buf.int32("SpawnZ", spawn_z);
    buf.byte("raining", 0);
    buf.int32("rainTime", 100000);
    buf.byte("thundering", 0);
    buf.int32("thunderTime", 100000);
    buf.begin_compound("GameRules");
    buf.string("doMobSpawning", "false");
    buf.string("keepInventory", "true");
    buf.end_compound();
    buf.begin_compound("Version");
    buf.int32("Id", 1343);
    buf.string("Name", "1.12.2");
    buf.byte("Snapshot", 0);
    buf.end_compound();
    buf.end_compound();
    buf.end_compound();
    buf.0
}

/// What `flate2`'s gzip encoder, set to `Compression::best()`, emits for `data`.
pub uninterp spec fn gzip_best(data: Seq<u8>) -> Seq<u8>;

/// The 10-byte gzip header that `flate2::write::GzEncoder::new` writes at the best level:
/// magic, deflate, no flags, no time stamp, "maximum compression", unknown system.
pub open spec fn gzip_best_header() -> Seq<u8> {
    seq![0x1fu8, 0x8b, 8, 0, 0, 0, 0, 0, 2, 255]
}

/// Runs `flate2::write::GzEncoder` at `Compression::best()` over an in-memory `Vec`.
/// Trusted: the output is `gzip_best` of the input; it starts with the fixed header that
/// `GzBuilder::into_header` builds for a default builder and ends with the input length
/// modulo 2^32, little-endian (the gzip `ISIZE` field that `try_finish` writes last). The
/// deflate body and the CRC-32 before `ISIZE` are left unstated. Writing into a `Vec`
/// cannot fail.
#[verifier::external_body]
fn gzip_compress(data: &[u8]) -> (out: Vec<u8>)
    ensures
        out@ == gzip_best(data@),
        out@.len() >= 18,
        out@.take(10) == gzip_best_header(),
        out@[out@.len() - 4] == (data@.len() % 0x100) as u8,
        out@[out@.len() - 3] == ((data@.len() / 0x100) % 0x100) as u8,
        out@[out@.len() - 2] == ((data@.len() / 0x1_0000) % 0x100) as u8,
        out@[out@.len() - 1] == ((data@.len() / 0x100_0000) % 0x100) as u8,
{
    let mut gz = flate2::write::GzEncoder::new(Vec::new(), flate2::Compression::best());
    std::io::Write::write_all(&mut gz, data).unwrap();
    gz.finish().unwrap()
}

/// Builds `level.dat`: the NBT of `level_dat_nbt`, gzip-compressed at the best level.
pub fn build_level_dat(world_name: &str, seed: i32, spawn_x: i32, spawn_y: i32, spawn_z: i32) -> (out: Vec<u8>)
    ensures
        out@ == gzip_best(level_dat_nbt(world_name.spec_bytes(), seed, spawn_x, spawn_y, spawn_z)),
        out@.take(10) == gzip_best_header(),
{
    let nbt = build_level_dat_nbt(world_name, seed, spawn_x, spawn_y, spawn_z);
    gzip_compress(nbt.as_slice())
}

} // verus!
