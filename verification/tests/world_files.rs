use eden_converter::anvil::AnvilArchive;
use eden_converter::block_map::{default_mapping, default_painted_family, resolve, BlockEntry, BlockMapping, McBlock};
use eden_converter::convert::{build_section, column_sections, convert_world, is_zip_archive};
use eden_converter::eden::{anvil_voxel_idx, eden_voxel_idx, parse_world, ChunkColumn, EdenHeader, EdenWorld};
use std::collections::HashMap;
use std::io::Read;

fn column(cx: i32, cz: i32) -> ChunkColumn {
    ChunkColumn { cx, cz, blocks: vec![0u8; 16384], paints: vec![0u8; 16384] }
}

fn header() -> EdenHeader {
    EdenHeader {
        seed: 5,
        player_x_bits: 0,
        player_y_bits: 0,
        player_z_bits: 0,
        name: String::from("Map"),
        version: 4,
        sky_colors: vec![0u8; 16],
        directory_offset: 0,
    }
}

#[test]
fn voxel_indices() {
    assert_eq!(eden_voxel_idx(1, 2, 3), 256 + 32 + 3);
    assert_eq!(anvil_voxel_idx(1, 2, 3), (3 * 16 + 2) * 16 + 1);
    assert_eq!(eden_voxel_idx(15, 15, 15), 4095);
    assert_eq!(anvil_voxel_idx(15, 15, 15), 4095);
}

#[test]
fn resolve_rules() {
    let m = default_mapping();
    assert_eq!(m.blocks.len(), 111);
    let air = resolve(&m, 0, 5);
    assert_eq!((air.id, air.meta), (0, 0));
    let unmapped = resolve(&m, 200, 0);
    assert_eq!((unmapped.id, unmapped.meta), (1, 0));
    let mut entries = HashMap::new();
    let mut overrides = HashMap::new();
    overrides.insert(3u8, McBlock::new(41, 0));
    entries.insert(
        9u8,
        BlockEntry { unpainted: McBlock::new(1, 0), painted_family: String::from("wool"), paint_colors: overrides },
    );
    entries.insert(
        10u8,
        BlockEntry { unpainted: McBlock::new(5, 2), painted_family: default_painted_family(), paint_colors: HashMap::new() },
    );
    let custom = BlockMapping { blocks: entries };
    let plain = resolve(&custom, 9, 0);
    assert_eq!((plain.id, plain.meta), (1, 0));
    let over = resolve(&custom, 9, 3);
    assert_eq!((over.id, over.meta), (41, 0));
    // paint 1 is light red: dye colour 14
    let wool = resolve(&custom, 9, 1);
    assert_eq!((wool.id, wool.meta), (35, 14));
    // paint bytes past the colour table fall back to dye colour 0
    let far = resolve(&custom, 9, 60);
    assert_eq!((far.id, far.meta), (35, 0));
    let none = resolve(&custom, 10, 1);
    assert_eq!((none.id, none.meta), (5, 2));
    assert_eq!(default_painted_family(), "none");
}

#[test]
fn section_packs_blocks_and_metadata() {
    let mut entries = HashMap::new();
    entries.insert(
        7u8,
        BlockEntry { unpainted: McBlock::new(35, 0xA5), painted_family: String::from("none"), paint_colors: HashMap::new() },
    );
    let m = BlockMapping { blocks: entries };
    let mut col = column(0, 0);
    // sub-chunk 1, voxel x=1, z=0, y=2 and voxel x=0, z=0, y=2
    col.blocks[4096 + eden_voxel_idx(1, 0, 2)] = 7;
    col.blocks[4096 + eden_voxel_idx(0, 0, 2)] = 7;
    let (blks, data, has) = build_section(&m, &col, 1);
    assert!(has);
    assert_eq!(blks.len(), 4096);
    assert_eq!(data.len(), 2048);
    let a1 = anvil_voxel_idx(1, 0, 2);
    let a0 = anvil_voxel_idx(0, 0, 2);
    assert_eq!(blks[a1], 35);
    assert_eq!(blks[a0], 35);
    assert_eq!(blks.iter().filter(|b| **b != 0).count(), 2);
    assert_eq!(data[a0 / 2], 0x55);
    assert_eq!(data.iter().filter(|b| **b != 0).count(), 1);
    let (_, _, empty) = build_section(&m, &col, 0);
    assert!(!empty);
    let secs = column_sections(&m, &col);
    assert_eq!(secs.len(), 1);
    assert_eq!(secs[0].0, 1);
}

#[test]
fn archive_names_regions_by_floor_division() {
    let mut a = AnvilArchive::new();
    let sec = || vec![(0u8, vec![1u8; 4096], vec![0u8; 2048])];
    a.write_chunk(0, 0, sec());
    a.write_chunk(31, 31, sec());
    a.write_chunk(-1, 0, sec());
    a.write_chunk(-33, 64, sec());
    a.write_chunk(5, 5, Vec::new());
    let files = a.into_files();
    let names: Vec<&str> = files.iter().map(|f| f.0.as_str()).collect();
    assert_eq!(names, vec!["region/r.0.0.mca", "region/r.-1.0.mca", "region/r.-2.2.mca"]);
    let r0 = &files[0].1;
    assert_eq!(r0.len() % 4096, 0);
    // chunk (0, 0) in sector 2, chunk (31, 31) right after it
    assert_eq!(&r0[0..4], &[0, 0, 2, 1]);
    let loc = 4 * (31 + 31 * 32);
    assert_eq!(&r0[loc..loc + 4], &[0, 0, 3, 1]);
    assert_eq!(&r0[4096..4100], &[0, 0, 0, 1]);
    let len = u32::from_be_bytes([r0[8192], r0[8193], r0[8194], r0[8195]]) as usize;
    assert_eq!(r0[8196], 2);
    let mut nbt = Vec::new();
    flate2::read::ZlibDecoder::new(&r0[8197..8196 + len]).read_to_end(&mut nbt).unwrap();
    assert_eq!(&nbt[..3], &[10, 0, 0]);
    assert!(nbt.windows(4).any(|w| w == b"xPos"));
}

fn eden_file(entries: &[(i32, i32, u64)], columns: usize) -> Vec<u8> {
    let header = 228usize;
    let dir = header + columns * 32768;
    let mut buf = vec![0u8; dir + entries.len() * 16];
    buf[0..4].copy_from_slice(&77i32.to_le_bytes());
    buf[4..8].copy_from_slice(&1.5f32.to_bits().to_le_bytes());
    buf[32..40].copy_from_slice(&(dir as u64).to_le_bytes());
    buf[40..44].copy_from_slice(b"Isle");
    buf[90..94].copy_from_slice(&3i32.to_le_bytes());
    for i in 130..146 {
        buf[i] = i as u8;
    }
    for (k, (cx, cz, off)) in entries.iter().enumerate() {
        let p = dir + 16 * k;
        buf[p..p + 4].copy_from_slice(&cx.to_le_bytes());
        buf[p + 4..p + 8].copy_from_slice(&cz.to_le_bytes());
        buf[p + 8..p + 16].copy_from_slice(&off.to_le_bytes());
    }
    buf
}

#[test]
fn parse_world_reads_header_and_columns() {
    let mut bytes = eden_file(&[(3, -4, 228), (9, 9, 0), (3, -4, 228 + 32768)], 2);
    bytes[228 + 32768 + 5] = 17;
    bytes[228 + 32768 + 4096 + 5] = 2;
    bytes[228 + 32768 + 8192 + 1] = 33;
    let w = parse_world(&bytes).expect("valid world");
    assert_eq!(w.header.seed, 77);
    assert_eq!(f32::from_bits(w.header.player_x_bits), 1.5);
    assert_eq!(w.header.name, "Isle");
    assert_eq!(w.header.version, 3);
    assert_eq!(w.header.sky_colors, (130u8..146).collect::<Vec<u8>>());
    assert_eq!(w.header.directory_offset, 228 + 2 * 32768);
    assert_eq!(w.columns.len(), 1);
    let c = &w.columns[0];
    assert_eq!((c.cx, c.cz), (3, -4));
    assert_eq!(c.blocks.len(), 16384);
    assert_eq!(c.blocks[5], 17);
    assert_eq!(c.paints[5], 2);
    assert_eq!(c.blocks[4096 + 1], 33);
}

#[test]
fn parse_world_errors() {
    assert_eq!(parse_world(&[0u8; 100]).err().unwrap(), "File too small to be a valid Eden world");
    let mut far = vec![0u8; 300];
    far[32..36].copy_from_slice(&5000u32.to_le_bytes());
    assert_eq!(parse_world(&far).err().unwrap(), "Directory offset 5000 beyond file size 300");
    let empty = eden_file(&[(1, 1, 0)], 0);
    assert_eq!(parse_world(&empty).err().unwrap(), "No valid chunk columns found in directory");
}

#[test]
fn parse_world_skips_truncated_columns() {
    let bytes = eden_file(&[(0, 0, 300)], 1);
    let w = parse_world(&bytes).expect("directory names a column");
    assert_eq!(w.columns.len(), 0);
}

#[test]
fn convert_world_files() {
    let m = default_mapping();
    let mut c = column(2, 3);
    c.blocks[eden_voxel_idx(0, 0, 0)] = 2;
    let world = EdenWorld { header: header(), columns: vec![c, column(40, 3)] };
    let files = convert_world(&m, &world, 2, 3, 70);
    let names: Vec<&str> = files.iter().map(|f| f.0.as_str()).collect();
    assert_eq!(names, vec!["level.dat", "region/r.0.0.mca"]);
    let mut nbt = Vec::new();
    flate2::read::GzDecoder::new(&files[0].1[..]).read_to_end(&mut nbt).unwrap();
    assert!(nbt.windows(3).any(|w| w == b"Map"));
    let region = &files[1].1;
    assert_eq!(&region[0..4], &[0, 0, 2, 1]);
    assert!(is_zip_archive(b"PK\x03\x04rest"));
    assert!(!is_zip_archive(b"PK\x03"));
    assert!(!is_zip_archive(b"EDEN"));
}

#[test]
fn voxel_layouts_are_permutations() {
    let mut seen_eden = vec![false; 4096];
    let mut seen_anvil = vec![false; 4096];
    for x in 0..16 {
        for z in 0..16 {
            for y in 0..16 {
                let e = eden_voxel_idx(x, z, y);
                let a = anvil_voxel_idx(x, z, y);
                assert!(!seen_eden[e] && !seen_anvil[a]);
                seen_eden[e] = true;
                seen_anvil[a] = true;
            }
        }
    }
    assert!(seen_eden.iter().all(|b| *b) && seen_anvil.iter().all(|b| *b));
}

#[test]
fn default_mapping_laws() {
    let m = default_mapping();
    for t in 0..=255u8 {
        assert_eq!(m.blocks.contains_key(&t), (1..=111).contains(&t));
        for p in [0u8, 1, 20, 54, 55, 255] {
            assert_eq!(resolve(&m, t, p).id == 0, t == 0, "type {} paint {}", t, p);
        }
    }
    assert!(eden_converter::block_map::MC_COLORS.iter().all(|c| *c < 16));
}

#[test]
fn parse_world_decodes_names_lossily() {
    let mut bytes = eden_file(&[(0, 0, 228)], 1);
    bytes[40..44].copy_from_slice(&[0xFF, b'A', 0xC3, 0xA9]);
    let w = parse_world(&bytes).unwrap();
    assert_eq!(w.header.name, "\u{FFFD}Aé");
}

#[test]
fn zip_round_trip_through_library() {
    let files = vec![
        (String::from("level.dat"), vec![1u8, 2, 3]),
        (String::from("region/r.0.0.mca"), vec![7u8; 9000]),
        (String::from("region/r.-1.0.mca"), vec![9u8; 10]),
    ];
    let packed = eden_converter::convert::zip_files(&files).unwrap();
    assert!(is_zip_archive(&packed));
    let mut archive = zip::ZipArchive::new(std::io::Cursor::new(&packed[..])).unwrap();
    let names: Vec<String> = (0..archive.len()).map(|i| archive.by_index(i).unwrap().name().to_string()).collect();
    assert_eq!(names, vec!["level.dat", "region/", "region/r.0.0.mca", "region/", "region/r.-1.0.mca"]);
    let mut data = Vec::new();
    archive.by_name("region/r.0.0.mca").unwrap().read_to_end(&mut data).unwrap();
    assert_eq!(data, vec![7u8; 9000]);
    // the first entry comes back out of an uploaded archive
    assert_eq!(eden_converter::convert::decompress_if_zip(&packed).unwrap(), vec![1u8, 2, 3]);
    // the same files give the same archive
    assert_eq!(eden_converter::convert::zip_files(&files).unwrap(), packed);
}

#[test]
fn decompress_if_zip_passes_plain_bytes_and_reports_errors() {
    assert_eq!(eden_converter::convert::decompress_if_zip(b"EDEN data").unwrap(), b"EDEN data".to_vec());
    let err = eden_converter::convert::decompress_if_zip(b"PK\x03\x04 not really").err().unwrap();
    assert!(err.starts_with("Invalid ZIP archive: "), "{}", err);
}
