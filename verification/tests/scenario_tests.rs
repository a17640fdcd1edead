use chip8::machine::Chip8;

fn boot(rom: Vec<u8>) -> Chip8 {
    let mut c = Chip8::new();
    c.load_rom(&rom).unwrap();
    c
}

// The "0" glyph of the font table: five rows of eight sprite bits.
const GLYPH_ZERO: [u8; 5] = [0xF0, 0x90, 0x90, 0x90, 0xF0];

fn glyph_bit(glyph: &[u8], row: usize, col: usize) -> u8 {
    if glyph[row] & (0x80 >> col) != 0 {
        0xFF
    } else {
        0x00
    }
}

#[test]
fn draw_twice_restores_framebuffer() {
    // draw the "0" glyph at (0, 0), then draw it again
    let mut c = boot(vec![0x60, 0x00, 0x61, 0x00, 0xA0, 0x50, 0xD0, 0x15, 0xD0, 0x15]);
    for _ in 0..4 {
        c.cycle().unwrap();
    }
    // first draw on a blank screen: glyph present, no collision
    assert_eq!(c.get_pixel_at(0, 0), 0xFF);
    assert_eq!(c.get_register(0xF), 0);
    c.cycle().unwrap();
    // second draw: every pixel restored, and every touched pixel collided
    for x in 0..64 {
        for y in 0..32 {
            assert_eq!(c.get_pixel_at(x, y), 0);
        }
    }
    assert_eq!(c.get_register(0xF), 1);
}

#[test]
fn sprite_coordinates_wrap_at_the_edges() {
    // one row of the "0" glyph (0xF0) drawn at (63, 31)
    let mut c = boot(vec![0x60, 0x3F, 0x61, 0x1F, 0xA0, 0x50, 0xD0, 0x11]);
    for _ in 0..4 {
        c.cycle().unwrap();
    }
    // bits 0..=3 of 0xF0 are set: columns 63, 0, 1, 2 of row 31
    assert_eq!(c.get_pixel_at(63, 31), 0xFF);
    assert_eq!(c.get_pixel_at(0, 31), 0xFF);
    assert_eq!(c.get_pixel_at(1, 31), 0xFF);
    assert_eq!(c.get_pixel_at(2, 31), 0xFF);
    // bits 4..=7 are clear: columns 3..=6 stay off
    assert_eq!(c.get_pixel_at(3, 31), 0x00);
    assert_eq!(c.get_pixel_at(6, 31), 0x00);
    // nothing lands on any other row
    assert_eq!(c.get_pixel_at(63, 30), 0x00);
    assert_eq!(c.get_pixel_at(0, 0), 0x00);
    assert_eq!(c.get_register(0xF), 0);
    // the accessor itself wraps its flat index around the framebuffer
    assert_eq!(c.get_pixel_at(2048 + 63, 31), c.get_pixel_at(63, 31));
}

#[test]
fn clear_screen_zeroes_every_pixel() {
    // draw the glyph, then clear
    let mut c = boot(vec![0xA0, 0x50, 0xD0, 0x05, 0x00, 0xE0]);
    c.cycle().unwrap();
    c.cycle().unwrap();
    assert_eq!(c.get_pixel_at(0, 0), 0xFF);
    c.cycle().unwrap();
    for x in 0..64 {
        for y in 0..32 {
            assert_eq!(c.get_pixel_at(x, y), 0);
        }
    }
}

#[test]
fn call_and_return_round_trip() {
    let mut c = boot(vec![0x22, 0x06, 0x00, 0x00, 0x00, 0x00, 0x00, 0xEE]);
    c.cycle().unwrap();
    assert_eq!(c.get_pc(), 0x206);
    assert_eq!(c.get_sp(), 1);
    c.cycle().unwrap();
    // back at the instruction immediately after the call
    assert_eq!(c.get_pc(), 0x202);
    assert_eq!(c.get_sp(), 0);
}

#[test]
fn delay_timer_decays_to_zero_and_stays() {
    // V0 = 5; delay = 5 (ticked to 4 within the same cycle); then spin
    let mut c = boot(vec![0x60, 0x05, 0xF0, 0x15, 0x12, 0x04]);
    c.cycle().unwrap();
    c.cycle().unwrap();
    assert_eq!(c.get_delay_timer(), 4);
    for expected in [3, 2, 1, 0] {
        c.cycle().unwrap();
        assert_eq!(c.get_delay_timer(), expected);
    }
    // a further cycle keeps it at zero
    c.cycle().unwrap();
    assert_eq!(c.get_delay_timer(), 0);
}

#[test]
fn font_sprite_drawn_from_rom() {
    // V0 = 5; index = font base; draw the five-row "0" glyph at (V0, V0);
    // spin. The glyph lands with its top-left corner at (5, 5).
    let mut c = boot(vec![0x60, 0x05, 0xA0, 0x50, 0xD0, 0x05, 0x12, 0x00]);
    c.cycle().unwrap();
    c.cycle().unwrap();
    assert_eq!(c.get_index(), 0x50);
    c.cycle().unwrap();
    for row in 0..5 {
        for col in 0..8 {
            assert_eq!(
                c.get_pixel_at(5 + col, 5 + row),
                glyph_bit(&GLYPH_ZERO, row, col),
            );
        }
    }
    // no collision on a blank screen
    assert_eq!(c.get_register(0xF), 0);
    // outside the glyph the screen stays dark
    assert_eq!(c.get_pixel_at(0, 0), 0);
    assert_eq!(c.get_pixel_at(4, 5), 0);
    assert_eq!(c.get_pixel_at(13, 5), 0);
    // the jump restarts the program
    c.cycle().unwrap();
    assert_eq!(c.get_pc(), 0x200);
}

#[test]
fn drawing_over_lit_pixels_reports_collision_per_draw() {
    // draw the glyph's first row, then draw the "1" glyph's first row (0x20)
    // over it: bit 2 overlaps a lit pixel
    let mut c = boot(vec![
        0xA0, 0x50, 0xD0, 0x11, // row 0xF0 at (0,0)
        0xA0, 0x55, 0xD0, 0x11, // row 0x20 at (0,0)
    ]);
    c.cycle().unwrap();
    c.cycle().unwrap();
    assert_eq!(c.get_register(0xF), 0);
    c.cycle().unwrap();
    c.cycle().unwrap();
    assert_eq!(c.get_register(0xF), 1);
    // the overlapped pixel toggled off, the rest of the first row survives
    assert_eq!(c.get_pixel_at(2, 0), 0x00);
    assert_eq!(c.get_pixel_at(0, 0), 0xFF);
    assert_eq!(c.get_pixel_at(1, 0), 0xFF);
    assert_eq!(c.get_pixel_at(3, 0), 0xFF);
}
