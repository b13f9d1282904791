use chip8::display::{DisplayBuffer, HEIGHT, SIZE, WIDTH};

fn lit(display: &DisplayBuffer) -> Vec<usize> {
    (0..SIZE).filter(|&i| display.is_set(i)).collect()
}

#[test]
fn grid_is_64_by_32() {
    assert_eq!(WIDTH, 64);
    assert_eq!(HEIGHT, 32);
    assert_eq!(SIZE, 2048);
}

#[test]
fn new_display_is_blank() {
    let display = DisplayBuffer::new();
    assert_eq!(lit(&display), Vec::<usize>::new());
}

#[test]
fn sprite_row_is_drawn_most_significant_bit_first() {
    let mut display = DisplayBuffer::new();
    let collision = display.draw_sprite(0, 0, &[0b1010_0001]);
    assert!(!collision);
    assert_eq!(lit(&display), vec![0, 2, 7]);
}

#[test]
fn sprite_rows_go_downward() {
    let mut display = DisplayBuffer::new();
    let collision = display.draw_sprite(10, 5, &[0x80, 0x40, 0x20]);
    assert!(!collision);
    assert_eq!(lit(&display), vec![10 + 5 * 64, 11 + 6 * 64, 12 + 7 * 64]);
}

#[test]
fn sprite_wraps_at_the_right_edge() {
    let mut display = DisplayBuffer::new();
    let collision = display.draw_sprite(63, 0, &[0xFF]);
    assert!(!collision);
    assert_eq!(lit(&display), vec![0, 1, 2, 3, 4, 5, 6, 63]);
}

#[test]
fn sprite_wraps_at_the_bottom_edge() {
    let mut display = DisplayBuffer::new();
    let collision = display.draw_sprite(3, 31, &[0x80, 0x80]);
    assert!(!collision);
    assert_eq!(lit(&display), vec![3, 3 + 31 * 64]);
}

#[test]
fn sprite_wraps_at_the_corner() {
    let mut display = DisplayBuffer::new();
    display.draw_sprite(62, 31, &[0xE0, 0xA0]);
    assert_eq!(lit(&display), vec![0, 62, 31 * 64, 62 + 31 * 64, 63 + 31 * 64]);
}

#[test]
fn drawing_twice_clears_and_collides() {
    let mut display = DisplayBuffer::new();
    let sprite = [0xF0, 0x90, 0x90, 0x90, 0xF0];
    assert!(!display.draw_sprite(12, 7, &sprite));
    assert_eq!(lit(&display).len(), 14);
    assert!(display.draw_sprite(12, 7, &sprite));
    assert_eq!(lit(&display), Vec::<usize>::new());
}

#[test]
fn drawing_twice_across_the_edge_clears_and_collides() {
    let mut display = DisplayBuffer::new();
    assert!(!display.draw_sprite(60, 30, &[0xFF, 0xFF, 0xFF]));
    assert_eq!(lit(&display).len(), 24);
    assert!(display.draw_sprite(60, 30, &[0xFF, 0xFF, 0xFF]));
    assert_eq!(lit(&display), Vec::<usize>::new());
}

#[test]
fn overlap_switches_off_and_collides() {
    let mut display = DisplayBuffer::new();
    assert!(!display.draw_sprite(0, 0, &[0b1100_0000]));
    assert!(display.draw_sprite(1, 0, &[0b1100_0000]));
    assert_eq!(lit(&display), vec![0, 2]);
}

#[test]
fn neighbours_do_not_collide() {
    let mut display = DisplayBuffer::new();
    assert!(!display.draw_sprite(0, 0, &[0b1100_0000]));
    assert!(!display.draw_sprite(2, 0, &[0b1100_0000]));
    assert_eq!(lit(&display), vec![0, 1, 2, 3]);
}

#[test]
fn empty_sprite_draws_nothing() {
    let mut display = DisplayBuffer::new();
    display.draw_sprite(0, 0, &[0xFF]);
    assert!(!display.draw_sprite(0, 0, &[]));
    assert!(!display.draw_sprite(0, 0, &[0x00, 0x00]));
    assert_eq!(lit(&display).len(), 8);
}

#[test]
fn anchor_outside_the_grid_draws_nothing() {
    let mut display = DisplayBuffer::new();
    display.draw_sprite(0, 0, &[0xFF]);
    assert!(!display.draw_sprite(64, 0, &[0xFF]));
    assert!(!display.draw_sprite(0, 32, &[0xFF]));
    assert!(!display.draw_sprite(255, 255, &[0xFF]));
    assert_eq!(lit(&display), vec![0, 1, 2, 3, 4, 5, 6, 7]);
}

#[test]
fn sprite_taller_than_the_grid_meets_itself() {
    let mut display = DisplayBuffer::new();
    let mut sprite = vec![0x00u8; 33];
    sprite[0] = 0x80;
    sprite[32] = 0xC0;
    assert!(display.draw_sprite(0, 0, &sprite));
    assert_eq!(lit(&display), vec![1]);
}

#[test]
fn xor_pixel_toggles_and_reports_switching_off() {
    let mut display = DisplayBuffer::new();
    assert!(!display.xor_pixel(5, 3));
    assert!(display.is_set(5 + 3 * 64));
    assert!(display.xor_pixel(5, 3));
    assert!(!display.is_set(5 + 3 * 64));
}

#[test]
fn xor_pixel_outside_the_grid_does_nothing() {
    let mut display = DisplayBuffer::new();
    assert!(!display.xor_pixel(64, 0));
    assert!(!display.xor_pixel(0, 32));
    assert_eq!(lit(&display), Vec::<usize>::new());
}

#[test]
fn clear_unsets_every_pixel() {
    let mut display = DisplayBuffer::new();
    display.draw_sprite(20, 20, &[0xFF, 0xFF]);
    display.clear();
    assert_eq!(lit(&display), Vec::<usize>::new());
    assert!(!display.draw_sprite(20, 20, &[0xFF, 0xFF]));
}
