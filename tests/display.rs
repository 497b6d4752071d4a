use chip8::display::Display;

#[test]
fn new_display_is_blank() {
    let d = Display::new();
    assert!(!d.need_redraw);
    assert!(d.fb.iter().all(|p| !p));
}

#[test]
fn set_and_get_pixel() {
    let mut d = Display::new();
    d.set_pixel(63, 31, true);
    assert!(d.get_pixel(63, 31));
    assert!(d.fb[63 + 31 * 64]);
    d.set_pixel(63, 31, false);
    assert!(!d.get_pixel(63, 31));
}

#[test]
fn clear_blanks_and_requests_redraw() {
    let mut d = Display::new();
    d.set_pixel(1, 2, true);
    d.clear();
    assert!(!d.get_pixel(1, 2));
    assert!(d.need_redraw);
}

#[test]
fn sprite_wraps_horizontally() {
    let mut d = Display::new();
    let collision = d.draw_sprite(60, 0, &[0xFF]);
    assert!(!collision);
    let lit: Vec<usize> = (0..64).filter(|&x| d.get_pixel(x, 0)).collect();
    assert_eq!(lit, vec![0, 1, 2, 3, 60, 61, 62, 63]);
}

#[test]
fn sprite_wraps_vertically() {
    let mut d = Display::new();
    d.draw_sprite(0, 30, &[0x80, 0x80, 0x80]);
    assert!(d.get_pixel(0, 30));
    assert!(d.get_pixel(0, 31));
    assert!(d.get_pixel(0, 0));
    assert!(!d.get_pixel(0, 1));
}

#[test]
fn zero_bits_leave_pixels_alone() {
    let mut d = Display::new();
    d.set_pixel(1, 0, true);
    let collision = d.draw_sprite(0, 0, &[0x80]);
    assert!(!collision);
    assert!(d.get_pixel(0, 0));
    assert!(d.get_pixel(1, 0));
}

#[test]
fn drawing_twice_restores_pixels() {
    let mut d = Display::new();
    d.set_pixel(3, 1, true);
    d.set_pixel(40, 5, true);
    let before = d.fb;
    let sprite = [0xA5, 0x3C, 0xFF];
    let first = d.draw_sprite(1, 1, &sprite);
    assert!(first);
    let second = d.draw_sprite(1, 1, &sprite);
    assert!(second);
    assert_eq!(d.fb, before);
}

#[test]
fn second_draw_collides_only_on_pixels_turned_on() {
    let mut d = Display::new();
    d.set_pixel(0, 0, true);
    let first = d.draw_sprite(0, 0, &[0x80]);
    assert!(first);
    let second = d.draw_sprite(0, 0, &[0x80]);
    assert!(!second);
    assert!(d.get_pixel(0, 0));
}

#[test]
fn empty_sprite_only_requests_redraw() {
    let mut d = Display::new();
    assert!(!d.draw_sprite(5, 5, &[]));
    assert!(d.need_redraw);
    assert!(d.fb.iter().all(|p| !p));
}

#[test]
fn large_coordinates_wrap() {
    let mut d = Display::new();
    d.draw_sprite(64 * 3 + 2, 32 * 5 + 1, &[0x80]);
    assert!(d.get_pixel(2, 1));
}
