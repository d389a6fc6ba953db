use rusteriser::backbuffer::Backbuffer;
use rusteriser::color::Color;
use rusteriser::framebuffer::Framebuffer;

#[test]
fn framebuffer_dimensions() {
    let fb = Framebuffer::new(5, 3);
    assert_eq!(fb.data_as_ref().len(), 5 * 3 * 4);
    assert!(fb.data_as_ref().iter().all(|&b| b == 0));
}

#[test]
fn framebuffer_setxy_writes_bgra() {
    let mut fb = Framebuffer::new(4, 4);
    let c = Color::new(0x10, 0x20, 0x30, 0x40);
    fb.setxy(2, 1, c);
    let data = fb.data_copy();
    let pos = (2 + 1 * 4) * 4;
    assert_eq!(&data[pos..pos + 4], &[0x30, 0x20, 0x10, 0x40]);
    // Other pixels untouched.
    assert!(data[..pos].iter().all(|&b| b == 0));
    assert!(data[pos + 4..].iter().all(|&b| b == 0));
}

#[test]
fn framebuffer_set_single_byte() {
    let mut fb = Framebuffer::new(2, 2);
    fb.set(5, 0xaa);
    assert_eq!(fb.data_as_ref()[5], 0xaa);
    assert_eq!(fb.data_as_ref()[4], 0);
}

#[test]
fn framebuffer_fill_pattern() {
    let mut fb = Framebuffer::new(3, 2);
    let c = Color::new(1, 2, 3, 4);
    fb.fill(c);
    let data = fb.data_copy();
    assert_eq!(data.len(), 24);
    for px in 0..6 {
        assert_eq!(&data[px * 4..px * 4 + 4], &[3, 2, 1, 4]);
    }
}

#[test]
fn backbuffer_new_and_fill() {
    let mut bb = Backbuffer::new(3, 2);
    assert_eq!(bb.data_as_ref().len(), 24);
    assert!(bb.data_as_ref().iter().all(|&b| b == 0));
    bb.fill((10, 20, 30, 40));
    let data = bb.data_copy();
    for px in 0..6 {
        assert_eq!(&data[px * 4..px * 4 + 4], &[30, 20, 10, 40]);
    }
}

#[test]
fn backbuffer_set_loc() {
    let mut bb = Backbuffer::new(4, 4);
    bb.set_loc((1, 2), (0xa1, 0xb2, 0xc3, 0xd4));
    let pos = (1 + 2 * 4) * 4;
    let data = bb.data_copy();
    assert_eq!(&data[pos..pos + 4], &[0xc3, 0xb2, 0xa1, 0xd4]);
}

#[test]
fn backbuffer_set() {
    let mut bb = Backbuffer::new(2, 2);
    bb.set(0, 0x7f);
    assert_eq!(bb.data_as_ref()[0], 0x7f);
}
