use chip8::{byte_as_bool_array, Display, DISPLAY_SIZE};

fn lit(display: &Display) -> Vec<usize> {
    (0..DISPLAY_SIZE).filter(|k| display.pixels[*k]).collect()
}

#[test]
fn byte_as_bool_array_test() {
    assert_eq!(
        byte_as_bool_array(0b10110110),
        [true, false, true, true, false, true, true, false]
    );
}

#[test]
fn new_display_is_blank() {
    let display = Display::new();
    assert_eq!(display.pixels.len(), 2048);
    assert!(lit(&display).is_empty());
    assert_eq!(display.get_ptr().len(), 2048);
}

#[test]
fn draw_on_blank_reports_no_collision() {
    let mut display = Display::new();
    let collision = display.draw(2, 3, &[0b1100_0000, 0b0000_0001]);
    assert_eq!(collision, 0);
    assert_eq!(lit(&display), vec![3 * 64 + 2, 3 * 64 + 3, 4 * 64 + 9]);
}

#[test]
fn draw_twice_erases_and_collides() {
    let mut display = Display::new();
    let sprite = [0xF0, 0x90, 0x90, 0x90, 0xF0];
    assert_eq!(display.draw(10, 5, &sprite), 0);
    assert!(!lit(&display).is_empty());
    assert_eq!(display.draw(10, 5, &sprite), 1);
    assert!(lit(&display).is_empty());
}

#[test]
fn draw_blank_sprite_twice_reports_nothing() {
    let mut display = Display::new();
    assert_eq!(display.draw(10, 5, &[0, 0]), 0);
    assert_eq!(display.draw(10, 5, &[0, 0]), 0);
    assert!(lit(&display).is_empty());
}

#[test]
fn draw_wraps_around_both_edges() {
    let mut display = Display::new();
    let collision = display.draw(63, 31, &[0xFF]);
    assert_eq!(collision, 0);
    let row = 31 * 64;
    assert_eq!(lit(&display), vec![row, row + 1, row + 2, row + 3, row + 4, row + 5, row + 6, row + 63]);
}

#[test]
fn draw_wraps_rows_to_the_top() {
    let mut display = Display::new();
    display.draw(0, 31, &[0x80, 0x80]);
    assert_eq!(lit(&display), vec![0, 31 * 64]);
}

#[test]
fn draw_at_large_coordinates_takes_them_modulo() {
    let mut display = Display::new();
    display.draw(200, 100, &[0x80]);
    assert_eq!(lit(&display), vec![(100 % 32) * 64 + 200 % 64]);
}

#[test]
fn draw_collision_on_partial_overlap() {
    let mut display = Display::new();
    display.draw(0, 0, &[0x80]);
    assert_eq!(display.draw(0, 0, &[0xC0]), 1);
    assert_eq!(lit(&display), vec![1]);
}

#[test]
fn clear_turns_every_pixel_off() {
    let mut display = Display::new();
    display.draw(0, 0, &[0xFF, 0xFF]);
    display.clear();
    assert!(lit(&display).is_empty());
    assert_eq!(display.pixels.len(), 2048);
}

#[test]
fn get_index_wraps() {
    let display = Display::new();
    assert_eq!(display.get_index(0, 0), 0);
    assert_eq!(display.get_index(64, 32), 0);
    assert_eq!(display.get_index(63, 31), 2047);
    assert_eq!(display.get_index(65, 1), 65);
}
