use eden_converter::base64::base64_encode;
use eden_converter::eden_writer::f32_bits_of_i32;
use eden_converter::level_dat::{build_level_dat, build_level_dat_nbt};
use eden_converter::nbt::{zlib_compress, NbtBuf};
use eden_converter::text::{push_decimal, push_i64};
use std::io::Read;

fn name_header(tag: u8, name: &str) -> Vec<u8> {
    let mut v = vec![tag, 0, name.len() as u8];
    v.extend_from_slice(name.as_bytes());
    v
}

#[test]
fn nbt_scalar_tags_are_big_endian() {
    let mut b = NbtBuf::new();
    b.byte("b", -2);
    b.short("s", 0x1234);
    b.int32("i", -1);
    b.long("l", 0x0102030405060708);
    let mut expected = name_header(1, "b");
    expected.push(0xFE);
    expected.extend(name_header(2, "s"));
    expected.extend([0x12, 0x34]);
    expected.extend(name_header(3, "i"));
    expected.extend([0xFF, 0xFF, 0xFF, 0xFF]);
    expected.extend(name_header(4, "l"));
    expected.extend([1, 2, 3, 4, 5, 6, 7, 8]);
    assert_eq!(b.0, expected);
}

#[test]
fn nbt_string_and_arrays() {
    let mut b = NbtBuf::new();
    b.string("n", "hé");
    b.byte_array("a", &[9, 8, 7]);
    b.int_array("ia", &[1, -2]);
    let mut expected = name_header(8, "n");
    expected.extend([0, 3, b'h', 0xC3, 0xA9]);
    expected.extend(name_header(7, "a"));
    expected.extend([0, 0, 0, 3, 9, 8, 7]);
    expected.extend(name_header(11, "ia"));
    expected.extend([0, 0, 0, 2, 0, 0, 0, 1, 0xFF, 0xFF, 0xFF, 0xFE]);
    assert_eq!(b.0, expected);
}

#[test]
fn nbt_compounds_and_lists() {
    let mut b = NbtBuf::new();
    b.begin_compound("");
    b.begin_list("L", 10, 1);
    b.begin_list_compound_element();
    b.end_list_compound_element();
    b.end_compound();
    assert_eq!(b.0, vec![10, 0, 0, 9, 0, 1, b'L', 10, 0, 0, 0, 1, 0, 0]);
}

#[test]
fn zlib_compress_round_trips() {
    let data: Vec<u8> = (0..5000u32).map(|i| (i % 251) as u8).collect();
    let z = zlib_compress(&data);
    assert_eq!(z[0], 0x78);
    assert_eq!(z[1], 0xDA);
    let mut out = Vec::new();
    flate2::read::ZlibDecoder::new(&z[..]).read_to_end(&mut out).unwrap();
    assert_eq!(out, data);
}

#[test]
fn decimal_text() {
    let mut s = String::from("n=");
    push_decimal(&mut s, 0);
    push_decimal(&mut s, 1234567890);
    assert_eq!(s, "n=01234567890");
    let mut t = String::new();
    push_i64(&mut t, -42);
    push_i64(&mut t, i64::MIN);
    assert_eq!(t, "-42-9223372036854775808");
}

#[test]
fn base64_rfc4648_vectors() {
    assert_eq!(base64_encode(b""), "");
    assert_eq!(base64_encode(b"f"), "Zg==");
    assert_eq!(base64_encode(b"fo"), "Zm8=");
    assert_eq!(base64_encode(b"foo"), "Zm9v");
    assert_eq!(base64_encode(b"foob"), "Zm9vYg==");
    assert_eq!(base64_encode(b"fooba"), "Zm9vYmE=");
    assert_eq!(base64_encode(b"foobar"), "Zm9vYmFy");
    assert_eq!(base64_encode(&[0xFB, 0xFF, 0xBF]), "+/+/");
}

#[test]
fn f32_bits_match_rust_conversion() {
    let mut values = vec![
        0, 1, -1, 2, 3, 16, 31, 62, 512, 16777215, 16777216, 16777217, 16777219, -16777217,
        33554435, 2147483647, -2147483648, -2147483647, 123456789, -987654321,
    ];
    let mut x: u32 = 0x9E3779B9;
    for _ in 0..2000 {
        x ^= x << 13;
        x ^= x >> 17;
        x ^= x << 5;
        values.push(x as i32);
    }
    for v in values {
        assert_eq!(f32_bits_of_i32(v), (v as f32).to_bits(), "value {}", v);
    }
}

#[test]
fn level_dat_nbt_layout() {
    let nbt = build_level_dat_nbt("World", 7, 0, 65, 0);
    let mut head = vec![10, 0, 0, 10, 0, 4];
    head.extend_from_slice(b"Data");
    head.extend(name_header(3, "DataVersion"));
    head.extend([0, 0, 0x05, 0x3F]);
    assert_eq!(&nbt[..head.len()], &head[..]);
    let mut name = name_header(8, "LevelName");
    name.extend([0, 5]);
    name.extend_from_slice(b"World");
    assert!(nbt.windows(name.len()).any(|w| w == &name[..]));
    let mut seed = name_header(4, "RandomSeed");
    seed.extend([0, 0, 0, 0, 0, 0, 0, 7]);
    assert!(nbt.windows(seed.len()).any(|w| w == &seed[..]));
    let mut spawn_y = name_header(3, "SpawnY");
    spawn_y.extend([0, 0, 0, 65]);
    assert!(nbt.windows(spawn_y.len()).any(|w| w == &spawn_y[..]));
    assert_eq!(&nbt[nbt.len() - 3..], &[0, 0, 0]);
}

#[test]
fn level_dat_is_gzip_of_its_nbt() {
    let gz = build_level_dat("World", -3, 1, 2, 3);
    assert_eq!(&gz[..10], &[0x1f, 0x8b, 8, 0, 0, 0, 0, 0, 2, 255]);
    let nbt = build_level_dat_nbt("World", -3, 1, 2, 3);
    let n = gz.len();
    assert_eq!(&gz[n - 4..], &(nbt.len() as u32).to_le_bytes());
    let mut out = Vec::new();
    flate2::read::GzDecoder::new(&gz[..]).read_to_end(&mut out).unwrap();
    assert_eq!(out, nbt);
}

fn b64_value(c: u8) -> u32 {
    match c {
        b'A'..=b'Z' => (c - b'A') as u32,
        b'a'..=b'z' => (c - b'a') as u32 + 26,
        b'0'..=b'9' => (c - b'0') as u32 + 52,
        b'+' => 62,
        _ => 63,
    }
}

#[test]
fn base64_decodes_back() {
    let mut x: u32 = 12345;
    for len in 0..40usize {
        let data: Vec<u8> = (0..len)
            .map(|_| {
                x = x.wrapping_mul(1103515245).wrapping_add(12345);
                (x >> 16) as u8
            })
            .collect();
        let text = base64_encode(&data);
        assert_eq!(text.len(), 4 * ((len + 2) / 3));
        let t = text.as_bytes();
        let mut out = Vec::new();
        for g in t.chunks(4) {
            let v: Vec<u32> = g.iter().map(|c| b64_value(*c)).collect();
            let c = (v[0] << 18) | (v[1] << 12) | (v[2] << 6) | v[3];
            out.push((c >> 16) as u8);
            if g[2] != b'=' {
                out.push((c >> 8) as u8);
            }
            if g[3] != b'=' {
                out.push(c as u8);
            }
        }
        assert_eq!(out, data);
    }
}
