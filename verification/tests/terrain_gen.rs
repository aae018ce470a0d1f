use eden_converter::eden::{eden_voxel_idx, parse_world};
use eden_converter::eden_writer::write_eden_file;
use eden_converter::noise::Noise2D;
use eden_converter::terrain::{
    clamp, default_base_height, default_water_amnt, generate, hash3, world_idx, TerrainFields,
    TerrainParams, TYPE_GRASS, TYPE_STONE,
};

fn smoothstep(t: f64) -> f64 {
    t * t * (3.0 - 2.0 * t)
}

fn lerp(a: f64, b: f64, t: f64) -> f64 {
    a + (b - a) * t
}

fn unit(h: u32) -> f64 {
    (h as f64 / 0x7FFFFF as f64) - 1.0
}

fn value_noise(n: &Noise2D, x: f64, z: f64) -> f64 {
    let x0 = x.floor() as i32;
    let z0 = z.floor() as i32;
    let tx = smoothstep(x - x0 as f64);
    let tz = smoothstep(z - z0 as f64);
    let vx0 = lerp(unit(n.lattice_hash(x0, z0)), unit(n.lattice_hash(x0 + 1, z0)), tx);
    let vx1 = lerp(unit(n.lattice_hash(x0, z0 + 1)), unit(n.lattice_hash(x0 + 1, z0 + 1)), tx);
    lerp(vx0, vx1, tz)
}

fn value_noise3d(n: &Noise2D, x: f64, y: f64, z: f64) -> f64 {
    let x0 = x.floor() as i32;
    let y0 = y.floor() as i32;
    let z0 = z.floor() as i32;
    let tx = smoothstep(x - x0 as f64);
    let ty = smoothstep(y - y0 as f64);
    let tz = smoothstep(z - z0 as f64);
    let c = |dx: i32, dy: i32, dz: i32| unit(n.lattice3d_hash(x0 + dx, y0 + dy, z0 + dz));
    let x00 = lerp(c(0, 0, 0), c(1, 0, 0), tx);
    let x10 = lerp(c(0, 1, 0), c(1, 1, 0), tx);
    let x01 = lerp(c(0, 0, 1), c(1, 0, 1), tx);
    let x11 = lerp(c(0, 1, 1), c(1, 1, 1), tx);
    lerp(lerp(x00, x10, ty), lerp(x01, x11, ty), tz)
}

fn fractal(n: &Noise2D, x: f64, z: f64, octaves: u32, base_freq: f64, persistence: f64) -> f64 {
    let (mut amp, mut freq, mut total, mut norm) = (1.0f64, base_freq, 0.0f64, 0.0f64);
    for _ in 0..octaves {
        total += value_noise(n, x * freq, z * freq) * amp;
        norm += amp;
        amp *= persistence;
        freq *= 2.0;
    }
    if norm <= 0.0 { 0.0 } else { total / norm }
}

fn fractal3d(n: &Noise2D, x: f64, y: f64, z: f64, octaves: u32, base_freq: f64, persistence: f64) -> f64 {
    let (mut amp, mut freq, mut total, mut norm) = (1.0f64, base_freq, 0.0f64, 0.0f64);
    for _ in 0..octaves {
        total += value_noise3d(n, x * freq, y * freq, z * freq) * amp;
        norm += amp;
        amp *= persistence;
        freq *= 2.0;
    }
    if norm <= 0.0 { 0.0 } else { total / norm }
}

fn canopy(pattern: u32, dx: i32, dy: i32, dz: i32) -> (bool, f64) {
    match pattern {
        0 => {
            let ex = dx as f64 / 3.2;
            let ey = (dy - 2) as f64 / 2.2;
            let ez = dz as f64 / 3.2;
            let d = ex * ex + ey * ey + ez * ez;
            (d <= 1.0, d.min(1.0).sqrt())
        }
        1 => {
            let radial = dx * dx + dz * dz;
            let inside = radial <= 12 && dy >= 1 && dy <= 3;
            let plane = (radial as f64).sqrt() / 3.6;
            let vert = (dy - 2).unsigned_abs() as f64 / 1.8;
            (inside, ((plane + vert) * 0.65).min(1.0))
        }
        _ => {
            let radial = dx * dx + dz * dz;
            let max_r: i32 = match dy {
                5 => 0,
                4 => 1,
                3 => 2,
                2 => 3,
                _ => 4,
            };
            let norm = if max_r <= 0 { 0.0 } else { ((radial as f64).sqrt() / max_r as f64).min(1.0) };
            (radial <= max_r * max_r, norm)
        }
    }
}

fn leaf_limit(pattern: u32, dx: i32, dy: i32, dz: i32) -> u16 {
    let (inside, norm) = canopy(pattern, dx, dy, dz);
    if !inside {
        return 0;
    }
    if norm <= 0.0 {
        return 1024;
    }
    if norm >= 1.0 {
        return 0;
    }
    let keep = 1.0 - norm * norm;
    let mut k: u16 = 0;
    while k < 1024 && (k as f64 / 1023.0) < keep {
        k += 1;
    }
    k
}

fn fields_for(p: &TerrainParams) -> TerrainFields {
    let (w, d) = (p.width as usize, p.depth as usize);
    let n = Noise2D::new(p.seed);
    let mut raw_heights = Vec::new();
    let mut pond = Vec::new();
    let mut river = Vec::new();
    let mut cave = vec![false; w * d * 64];
    for wx in 0..w {
        for wz in 0..d {
            let h = (p.base_height as f64 + fractal(&n, wx as f64, wz as f64, 4, 0.02, 0.5) * 18.0) as i32;
            raw_heights.push(h);
            let hc = clamp(h, 1, 62);
            for y in 1..=(hc - 4).max(1) {
                cave[world_idx(wx, y as usize, wz, d)] =
                    fractal3d(&n, wx as f64, y as f64, wz as f64, 3, 0.08, 0.5) > 0.62;
            }
            pond.push(fractal(&n, wx as f64 + 1000.0, wz as f64 + 1000.0, 3, 0.03, 0.5) > 0.62);
            let r = fractal(&n, wx as f64 + 4000.0, wz as f64 - 4000.0, 2, 0.01, 0.6);
            river.push(r > -0.03 && r < 0.03);
        }
    }
    let mut leaf_limit_table = Vec::new();
    for pattern in 0..3u32 {
        for dy in 1..=5 {
            for dx in -4..=4 {
                for dz in -4..=4 {
                    leaf_limit_table.push(leaf_limit(pattern, dx, dy, dz));
                }
            }
        }
    }
    TerrainFields { raw_heights, cave, pond, river, leaf_limit: leaf_limit_table }
}

#[test]
fn test_generate_and_write() {
    let params = TerrainParams { width: 32, depth: 32, seed: 42, base_height: 20, water_amnt: 5 };
    let fields = fields_for(&params);
    let world = generate(&params, &fields).expect("generate failed");
    println!("Spawn: ({}, {}, {})", world.meta.spawn_x, world.meta.spawn_y, world.meta.spawn_z);
    println!("Height range: {}..{}", world.meta.min_height, world.meta.max_height);

    let bytes = write_eden_file(&world, &params);
    println!("File size: {} bytes", bytes.len());

    let parsed = parse_world(&bytes).expect("parse failed");
    println!(
        "Player pos: ({}, {}, {})",
        f32::from_bits(parsed.header.player_x_bits),
        f32::from_bits(parsed.header.player_y_bits),
        f32::from_bits(parsed.header.player_z_bits)
    );
    println!("Version: {}", parsed.header.version);
    println!("Columns: {}", parsed.columns.len());
    println!("Dir offset: {}", parsed.header.directory_offset);

    let cx_center = world.meta.spawn_x / 16;
    let cz_center = world.meta.spawn_z / 16;
    println!("Center column: ({}, {})", cx_center, cz_center);
    let col = parsed.columns.iter().find(|c| c.cx == cx_center && c.cz == cz_center);
    let col = col.expect("Center column NOT FOUND!");
    println!("Found center column!");
    for y in 0..32usize {
        let cy = y / 16;
        let ly = y % 16;
        let bt = col.blocks[cy * 4096 + eden_voxel_idx(8, 8, ly)];
        if bt != 0 {
            println!("  y={}: block_type={}", y, bt);
        }
    }

    let v90 = i32::from_le_bytes(bytes[90..94].try_into().unwrap());
    let v92 = i32::from_le_bytes(bytes[92..96].try_into().unwrap());
    println!("Version at offset 90: {} (should be 4)", v90);
    println!("Version at offset 92: {} (should be 0)", v92);
    assert_eq!(v90, 4);
    assert_eq!(v92, 0);
    assert_eq!(parsed.columns.len(), 4);
    assert_eq!(parsed.header.seed, 42);
    assert_eq!(f32::from_bits(parsed.header.player_x_bits), world.meta.spawn_x as f32);
    assert_eq!(parsed.header.name, "TerrainGen");
    assert_eq!(parsed.header.version, 4);
}

#[test]
fn written_file_layout() {
    let params = TerrainParams { width: 32, depth: 16, seed: 7, base_height: 30, water_amnt: 3 };
    let fields = fields_for(&params);
    let world = generate(&params, &fields).unwrap();
    let bytes = write_eden_file(&world, &params);
    assert_eq!(bytes.len(), 192 + 2 * 32768 + 2 * 16);
    assert_eq!(&bytes[0..4], &7i32.to_le_bytes());
    assert_eq!(&bytes[4..8], &(world.meta.spawn_x as f32).to_bits().to_le_bytes());
    assert_eq!(&bytes[16..20], &bytes[4..8]);
    assert_eq!(&bytes[32..40], &(192u64 + 2 * 32768).to_le_bytes());
    assert_eq!(&bytes[40..50], b"TerrainGen");
    assert!(bytes[130..146].iter().all(|b| *b == 6));
    let dir = 192 + 2 * 32768;
    assert_eq!(&bytes[dir..dir + 16], &[0, 0, 0, 0, 0, 0, 0, 0, 192, 0, 0, 0, 0, 0, 0, 0]);
    assert_eq!(&bytes[dir + 16..dir + 20], &1i32.to_le_bytes());
    // column 1 covers world x 16..32; block (x=16+3, y=5, z=2)
    let w = &world.blocks[world_idx(19, 5, 2, 16)];
    let off = 192 + 32768;
    assert_eq!(bytes[off + eden_voxel_idx(3, 2, 5)], w.block_type);
    assert_eq!(bytes[off + 4096 + eden_voxel_idx(3, 2, 5)], w.color);
}

#[test]
fn generated_world_invariants() {
    let params = TerrainParams { width: 48, depth: 32, seed: 1234, base_height: 36, water_amnt: 1 };
    let fields = fields_for(&params);
    let world = generate(&params, &fields).unwrap();
    assert_eq!(world.blocks.len(), 48 * 32 * 64);
    assert_eq!((world.meta.cols_x, world.meta.cols_z), (3, 2));
    assert_eq!((world.meta.spawn_x, world.meta.spawn_z), (24, 16));
    assert!(world.meta.spawn_y >= 1 && world.meta.spawn_y <= 62);
    assert!(1 <= world.meta.min_height && world.meta.min_height <= world.meta.max_height && world.meta.max_height <= 62);
    for x in 0..48 {
        for z in 0..32 {
            let b = &world.blocks[world_idx(x, 0, z, 32)];
            assert_eq!((b.block_type, b.color), (TYPE_STONE, 0));
            for y in 0..64 {
                let b = &world.blocks[world_idx(x, y, z, 32)];
                assert!([0u8, 2, 3, 4, 5, 6, 8, 20, 73].contains(&b.block_type));
                assert!(b.color == 0 || (b.color == 1 && b.block_type == 4));
            }
        }
    }
}

#[test]
fn generate_flat_world_from_fixed_fields() {
    let params = TerrainParams { width: 16, depth: 16, seed: 1, base_height: 0, water_amnt: 5 };
    let fields = TerrainFields {
        raw_heights: vec![10; 256],
        cave: vec![false; 16 * 16 * 64],
        pond: vec![false; 256],
        river: vec![false; 256],
        leaf_limit: vec![0; 1215],
    };
    let world = generate(&params, &fields).unwrap();
    let at = |x: usize, y: usize, z: usize| world.blocks[world_idx(x, y, z, 16)].block_type;
    assert_eq!(at(0, 7, 0), TYPE_STONE);
    assert_eq!(at(0, 8, 0), 3);
    assert_eq!(at(0, 9, 0), 3);
    assert_eq!(at(0, 11, 0), 0);
    assert_eq!(at(0, 10, 0), TYPE_GRASS);
    let hh = hash3(1, 8, 10, 8);
    let expected_spawn = if hh % 1000 < 6 { clamp(10 + 4 + (hh % 4) as i32 + 1, 1, 62) } else { 11 };
    assert_eq!(world.meta.spawn_y, expected_spawn);
    assert_eq!((world.meta.min_height, world.meta.max_height), (10, 10));
    assert_eq!(world.meta.caves_carved, 0);
    let mut caves = fields.cave.clone();
    caves[world_idx(3, 2, 3, 16)] = true;
    caves[world_idx(3, 9, 3, 16)] = true;
    let fields2 = TerrainFields { cave: caves, ..fields };
    let world2 = generate(&params, &fields2).unwrap();
    assert_eq!(world2.meta.caves_carved, 1);
    assert_eq!(world2.blocks[world_idx(3, 2, 3, 16)].block_type, 0);
    assert_eq!(world2.blocks[world_idx(3, 9, 3, 16)].block_type, 3);
}

#[test]
fn generate_rejects_bad_sizes() {
    let fields = TerrainFields { raw_heights: vec![], cave: vec![], pond: vec![], river: vec![], leaf_limit: vec![] };
    let bad = |w: u32, d: u32| generate(&TerrainParams { width: w, depth: d, seed: 0, base_height: 36, water_amnt: 3 }, &fields).err().unwrap();
    assert_eq!(bad(0, 16), "width and depth must be positive multiples of 16");
    assert_eq!(bad(17, 16), "width and depth must be positive multiples of 16");
    assert_eq!(bad(2048, 16), "maximum world size is 1024x1024 blocks");
}

#[test]
fn terrain_helpers() {
    assert_eq!(default_base_height(), 30);
    assert_eq!(default_water_amnt(), 3);
    assert_eq!(clamp(-5, 1, 62), 1);
    assert_eq!(clamp(70, 1, 62), 62);
    assert_eq!(clamp(30, 1, 62), 30);
    assert_eq!(world_idx(2, 3, 4, 16), 2 * 16 * 64 + 4 * 64 + 3);
    let mut h = 42u32 ^ 0x9e3779b9u32;
    h ^= 5u32.wrapping_mul(374761393);
    h ^= 6u32.wrapping_mul(668265263);
    h ^= (-7i32 as u32).wrapping_mul(2246822519);
    h = (h ^ (h >> 13)).wrapping_mul(1274126177);
    h ^= h >> 16;
    assert_eq!(hash3(42, 5, 6, -7), h);
    let n = Noise2D::new(99);
    assert_eq!(n.seed(), 99);
    let mut l = 3u32.wrapping_mul(374761393);
    l ^= (-2i32 as u32).wrapping_mul(668265263);
    l ^= 99u32.wrapping_mul(2246822519);
    l = (l ^ (l >> 13)).wrapping_mul(1274126177);
    l ^= l >> 16;
    assert_eq!(n.lattice_hash(3, -2), l & 0xFFFFFF);
}

#[test]
fn world_indices_are_one_to_one() {
    assert_eq!(world_idx(1, 2, 3, 16), 1218);
    let mut seen = vec![false; 32 * 16 * 64];
    for x in 0..32 {
        for z in 0..16 {
            for y in 0..64 {
                let i = world_idx(x, y, z, 16);
                assert!(!seen[i]);
                seen[i] = true;
            }
        }
    }
    assert!(seen.iter().all(|b| *b));
}
