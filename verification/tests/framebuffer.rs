use frame::graphics::{BinaryColor, EpdFramebuffer, Pixel};

fn on(x: i32, y: i32) -> Pixel {
    Pixel { x, y, color: BinaryColor::On }
}

fn off(x: i32, y: i32) -> Pixel {
    Pixel { x, y, color: BinaryColor::Off }
}

fn pixel(fb: &EpdFramebuffer, x: usize, y: usize) -> bool {
    let i = y * 200 + x;
    fb.buffer()[i / 8] & (0x80 >> (i % 8)) != 0
}

#[test]
fn new_frame_is_blank() {
    let fb = EpdFramebuffer::new();
    assert_eq!(fb.buffer().len(), 5000);
    assert!(fb.buffer().iter().all(|&b| b == 0));
    let fb2 = EpdFramebuffer::default();
    assert!(fb2.buffer().iter().all(|&b| b == 0));
}

#[test]
fn size_is_200_by_200() {
    assert_eq!(EpdFramebuffer::new().size(), (200, 200));
}

#[test]
fn leftmost_pixel_is_most_significant_bit() {
    let mut fb = EpdFramebuffer::new();
    fb.draw_pixel(on(0, 0));
    assert_eq!(fb.buffer()[0], 0x80);
    fb.draw_pixel(on(7, 0));
    assert_eq!(fb.buffer()[0], 0x81);
    fb.draw_pixel(on(8, 0));
    assert_eq!(fb.buffer()[1], 0x80);
}

#[test]
fn rows_are_25_bytes_apart() {
    let mut fb = EpdFramebuffer::new();
    fb.draw_pixel(on(0, 1));
    assert_eq!(fb.buffer()[25], 0x80);
    fb.draw_pixel(on(199, 199));
    assert_eq!(fb.buffer()[4999], 0x01);
    let set: usize = fb.buffer().iter().map(|b| b.count_ones() as usize).sum();
    assert_eq!(set, 2);
}

#[test]
fn off_clears_only_that_pixel() {
    let mut fb = EpdFramebuffer::new();
    fb.clear(BinaryColor::On);
    fb.draw_pixel(off(10, 3));
    assert!(!pixel(&fb, 10, 3));
    assert!(pixel(&fb, 9, 3));
    assert!(pixel(&fb, 11, 3));
    assert!(pixel(&fb, 10, 2));
    assert_eq!(fb.buffer()[3 * 25 + 1], 0xDF);
}

#[test]
fn pixels_off_the_panel_are_ignored() {
    let mut fb = EpdFramebuffer::new();
    fb.draw_iter(&[on(-1, 0), on(0, -1), on(200, 0), on(0, 200), on(i32::MIN, i32::MAX)]);
    assert!(fb.buffer().iter().all(|&b| b == 0));
}

#[test]
fn last_pixel_drawn_wins() {
    let mut fb = EpdFramebuffer::new();
    fb.draw_iter(&[on(5, 5), off(5, 5), on(6, 5), off(7, 5), on(7, 5)]);
    assert!(!pixel(&fb, 5, 5));
    assert!(pixel(&fb, 6, 5));
    assert!(pixel(&fb, 7, 5));
}

#[test]
fn clear_fills_every_byte() {
    let mut fb = EpdFramebuffer::new();
    fb.clear(BinaryColor::On);
    assert!(fb.buffer().iter().all(|&b| b == 0xFF));
    fb.clear(BinaryColor::Off);
    assert!(fb.buffer().iter().all(|&b| b == 0x00));
}

#[test]
fn overlay_turns_on_mask_pixels_only() {
    let mut fb = EpdFramebuffer::new();
    fb.draw_pixel(on(0, 0));
    let mut mask = [0u8; 5000];
    mask[0] = 0x01;
    mask[4999] = 0x80;
    fb.overlay(&mask);
    assert_eq!(fb.buffer()[0], 0x81);
    assert_eq!(fb.buffer()[4999], 0x80);
    let set: usize = fb.buffer().iter().map(|b| b.count_ones() as usize).sum();
    assert_eq!(set, 3);
}

#[test]
fn longest_admitted_lines_draw() {
    let mut fb = EpdFramebuffer::new();
    frame::graphics::drawing::draw_elements(
        &mut fb,
        &[
            frame::graphics::ScreenElement::Line { x0: -4095, y0: -4095, x1: 4095, y1: 4095 },
            frame::graphics::ScreenElement::Line { x0: -4095, y0: 4095, x1: 4095, y1: -4095 },
            frame::graphics::ScreenElement::Line { x0: -4095, y0: 100, x1: 4095, y1: 100 },
        ],
    );
    assert!(pixel(&fb, 0, 0));
    assert!(pixel(&fb, 199, 199));
    assert!(pixel(&fb, 0, 100));
    assert!(pixel(&fb, 199, 100));
}
