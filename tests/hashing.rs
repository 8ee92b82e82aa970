use anidb::ed2k::{Ed2kHasher, BLOCKSIZE};
use anidb::md4::Md4;
use anidb::text::{parse_hex, to_hex};
use anidb::Ed2kHash;

fn md4_hex(data: &[u8]) -> String {
    let mut m = Md4::new();
    m.input(data);
    to_hex(&m.result())
}

fn md4_bytes(data: &[u8]) -> [u8; 16] {
    let mut m = Md4::new();
    m.input(data);
    m.result()
}

#[test]
fn md4_reference_vectors() {
    assert_eq!(md4_hex(b""), "31d6cfe0d16ae931b73c59d7e0c089c0");
    assert_eq!(md4_hex(b"a"), "bde52cb31de33e46245e05fbdbd6fb24");
    assert_eq!(md4_hex(b"abc"), "a448017aaf21d8525fc10ae87aa6729d");
    assert_eq!(md4_hex(b"message digest"), "d9130a8164549fe818874806e1c7014b");
    assert_eq!(
        md4_hex(b"abcdefghijklmnopqrstuvwxyz"),
        "d79e1c308aa5bbcdeea8ed63df412da9"
    );
    assert_eq!(
        md4_hex(b"12345678901234567890123456789012345678901234567890123456789012345678901234567890"),
        "e33b4ddc9c38f2199c3e7b164fcc0536"
    );
}

#[test]
fn md4_pieces_match_whole() {
    let data: Vec<u8> = (0..1000u32).map(|i| (i * 7 % 251) as u8).collect();
    let mut m = Md4::new();
    m.input(&data[..1]);
    m.input(&data[1..64]);
    m.input(&data[64..65]);
    m.input(&data[65..]);
    assert_eq!(m.result(), md4_bytes(&data));
}

#[test]
fn md4_result_twice_and_reset() {
    let mut m = Md4::new();
    m.input(b"abc");
    let a = m.result();
    assert_eq!(m.result(), a);
    m.reset();
    m.input(b"a");
    assert_eq!(to_hex(&m.result()), "bde52cb31de33e46245e05fbdbd6fb24");
    assert_eq!(m.output_bits(), 128);
    assert_eq!(m.block_size(), 64);
}

#[test]
fn ed2k_empty_is_md4_of_nothing() {
    let h = Ed2kHash::from_bytes(b"");
    assert_eq!(h.hex, "31d6cfe0d16ae931b73c59d7e0c089c0");
    assert_eq!(h.size, 0);
}

#[test]
fn ed2k_small_file() {
    let h = Ed2kHash::from_bytes(b"abc");
    assert_eq!(h.hex, "a448017aaf21d8525fc10ae87aa6729d");
    assert_eq!(h.bin, md4_bytes(b"abc"));
    assert_eq!(h.size, 3);
}

#[test]
fn ed2k_same_contents_same_digest() {
    let a = Ed2kHash::from_bytes(b"some file contents");
    let b = Ed2kHash::from_bytes(b"some file contents");
    assert_eq!(a.bin, b.bin);
    assert_eq!(a.hex, b.hex);
    let c = Ed2kHash::from_bytes(b"some file contentz");
    assert_ne!(a.bin, c.bin);
}

#[test]
fn ed2k_exactly_one_block() {
    let data = vec![7u8; BLOCKSIZE];
    let h = Ed2kHash::from_bytes(&data);
    assert_eq!(h.bin, md4_bytes(&data));
    assert_eq!(h.size, BLOCKSIZE as u64);
}

#[test]
fn ed2k_one_block_and_one_byte() {
    let mut data = vec![7u8; BLOCKSIZE];
    data.push(9);
    let h = Ed2kHash::from_bytes(&data);
    let mut outer = Vec::new();
    outer.extend_from_slice(&md4_bytes(&data[..BLOCKSIZE]));
    outer.extend_from_slice(&md4_bytes(&data[BLOCKSIZE..]));
    assert_eq!(h.bin, md4_bytes(&outer));
    assert_ne!(h.bin, md4_bytes(&data));
    assert_eq!(h.size, BLOCKSIZE as u64 + 1);
}

#[test]
fn ed2k_pieces_match_whole() {
    let data: Vec<u8> = (0..5000u32).map(|i| (i % 253) as u8).collect();
    let mut h = Ed2kHasher::new();
    h.update(&data[..100]);
    h.update(&data[100..]);
    let a = h.finish();
    let b = Ed2kHash::from_bytes(&data);
    assert_eq!(a.bin, b.bin);
    assert_eq!(a.size, 5000);
}

#[test]
fn hex_is_lowercase_32() {
    let bin = [0xABu8, 0x01, 0xff, 0x10, 0, 0, 0, 0, 0, 0, 0, 0, 0, 0, 0x9c, 0xde];
    let hex = Ed2kHash::hex(bin);
    assert_eq!(hex, "ab01ff10" .to_string() + &"0".repeat(20) + "9cde");
    assert_eq!(hex.len(), 32);
    assert!(hex.chars().all(|c| c.is_ascii_digit() || ('a'..='f').contains(&c)));
}

#[test]
fn hex_round_trip() {
    let h = Ed2kHash::from_bytes(b"round trip");
    let back = parse_hex(&h.hex).unwrap();
    assert_eq!(back, h.bin.to_vec());
    assert_eq!(parse_hex("AbC0").unwrap(), vec![0xab, 0xc0]);
    assert_eq!(parse_hex("abc"), None);
    assert_eq!(parse_hex("zz"), None);
}
