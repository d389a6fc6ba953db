use rusteriser::color::Color;
use rusteriser::common;
use rusteriser::utils;

#[test]
fn pack_unpack_roundtrip() {
    let cases = [
        (0u8, 0u8, 0u8, 0u8),
        (255, 255, 255, 255),
        (1, 2, 3, 4),
        (0xab, 0xcd, 0xef, 0x01),
        (255, 0, 128, 7),
    ];
    for &(a, r, g, b) in cases.iter() {
        let v = utils::tup8_to_32((a, r, g, b));
        assert_eq!(((v >> 24) & 0xff) as u8, a);
        assert_eq!(((v >> 16) & 0xff) as u8, r);
        assert_eq!(((v >> 8) & 0xff) as u8, g);
        assert_eq!((v & 0xff) as u8, b);
    }
}

#[test]
fn bgra_packs_argb_bits() {
    let c = Color::new(255, 0, 0, 255);
    assert_eq!(c.bgra(), 0xffff0000);
    assert_eq!(c.rgba(), 0xff0000ff);
    let c = Color::new(0x12, 0x34, 0x56, 0x78);
    assert_eq!(c.bgra(), 0x78123456);
    assert_eq!(c.rgba(), 0x78563412);
}

#[test]
fn color_constants() {
    let w = Color::white();
    assert_eq!((w.r, w.g, w.b, w.a), (255, 255, 255, 255));
    let k = Color::black();
    assert_eq!((k.r, k.g, k.b, k.a), (0, 0, 0, 255));
    let r = Color::red();
    assert_eq!((r.r, r.g, r.b, r.a), (255, 0, 0, 255));
    let g = Color::green();
    assert_eq!((g.r, g.g, g.b, g.a), (0, 255, 0, 255));
    let b = Color::blue();
    assert_eq!((b.r, b.g, b.b, b.a), (0, 0, 255, 255));
    let t = Color::transparent();
    assert_eq!((t.r, t.g, t.b, t.a), (0, 0, 0, 0));
    let c = Color::new(9, 8, 7, 6);
    assert_eq!((c.r, c.g, c.b, c.a), (9, 8, 7, 6));
}

#[test]
fn xy_row_major() {
    assert_eq!(common::xy(2, 3, 10), 32);
    assert_eq!(common::xy(0, 0, 10), 0);
    assert_eq!(utils::xy(9, 9, 10), 99);
}

#[test]
fn vec32_to_8_little_endian() {
    let input: Vec<u32> = vec![0x11223344, 0xaabbccdd];
    let out = common::vec32_to_8(&input);
    assert_eq!(out, vec![0x44, 0x33, 0x22, 0x11, 0xdd, 0xcc, 0xbb, 0xaa]);
    let out = utils::arr32_to_8(&input);
    assert_eq!(out, vec![0x44, 0x33, 0x22, 0x11, 0xdd, 0xcc, 0xbb, 0xaa]);
}

#[test]
fn bf_to_image_reorders_to_rgba() {
    // A word packed as {A,R,G,B} comes out as R, G, B, A bytes.
    let c = Color::new(0x10, 0x20, 0x30, 0x40);
    let input: Vec<u32> = vec![c.bgra()];
    let out = utils::bf_to_image(&input);
    assert_eq!(out, vec![0x10, 0x20, 0x30, 0x40]);
}
