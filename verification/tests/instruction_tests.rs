use chip8::machine::Chip8;
use chip8::Chip8Error;

fn boot(rom: Vec<u8>) -> Chip8 {
    let mut c = Chip8::new();
    c.load_rom(&rom).unwrap();
    c
}

#[test]
fn fresh_machine_has_font_and_start_pc() {
    let c = Chip8::new();
    assert_eq!(c.get_pc(), 0x200);
    assert_eq!(c.get_sp(), 0);
    assert_eq!(c.get_index(), 0);
    // first bytes of the "0" and "1" glyphs
    assert_eq!(c.get_memory_at(0x50), 0xF0);
    assert_eq!(c.get_memory_at(0x55), 0x20);
    // last byte of the "F" glyph
    assert_eq!(c.get_memory_at(0x9F), 0x80);
    // outside the font table everything is zero
    assert_eq!(c.get_memory_at(0x4F), 0x00);
    assert_eq!(c.get_memory_at(0xA0), 0x00);
    for r in 0..16 {
        assert_eq!(c.get_register(r), 0);
    }
}

#[test]
fn load_register_immediate() {
    let mut c = boot(vec![0x6A, 0x42]);
    c.cycle().unwrap();
    assert_eq!(c.get_register(0xA), 0x42);
    for r in 0..16 {
        if r != 0xA {
            assert_eq!(c.get_register(r), 0);
        }
    }
}

#[test]
fn add_immediate_wraps_mod_256() {
    let mut c = boot(vec![0x70, 0xFF, 0x70, 0xFF]);
    c.cycle().unwrap();
    assert_eq!(c.get_register(0), 0xFF);
    c.cycle().unwrap();
    assert_eq!(c.get_register(0), 0xFE);
}

#[test]
fn add_registers_with_carry() {
    // 200 + 100 = 300 -> 44 with carry
    let mut c = boot(vec![0x60, 0xC8, 0x61, 0x64, 0x80, 0x14]);
    c.cycle().unwrap();
    c.cycle().unwrap();
    c.cycle().unwrap();
    assert_eq!(c.get_register(0), 44);
    assert_eq!(c.get_register(0xF), 1);
}

#[test]
fn add_registers_without_carry() {
    let mut c = boot(vec![0x60, 0x12, 0x61, 0x34, 0x80, 0x14]);
    c.cycle().unwrap();
    c.cycle().unwrap();
    c.cycle().unwrap();
    assert_eq!(c.get_register(0), 0x46);
    assert_eq!(c.get_register(0xF), 0);
}

#[test]
fn sub_registers_with_not_borrow() {
    // 0x34 - 0x12: V[x] > V[y], flag 1
    let mut c = boot(vec![0x60, 0x34, 0x61, 0x12, 0x80, 0x15]);
    c.cycle().unwrap();
    c.cycle().unwrap();
    c.cycle().unwrap();
    assert_eq!(c.get_register(0), 0x22);
    assert_eq!(c.get_register(0xF), 1);
}

#[test]
fn sub_registers_with_borrow() {
    // 0x12 - 0x34 wraps to 0xDE, flag 0
    let mut c = boot(vec![0x60, 0x12, 0x61, 0x34, 0x80, 0x15]);
    c.cycle().unwrap();
    c.cycle().unwrap();
    c.cycle().unwrap();
    assert_eq!(c.get_register(0), 0xDE);
    assert_eq!(c.get_register(0xF), 0);
}

#[test]
fn sub_equal_registers_clears_flag() {
    let mut c = boot(vec![0x60, 0x20, 0x61, 0x20, 0x80, 0x15]);
    c.cycle().unwrap();
    c.cycle().unwrap();
    c.cycle().unwrap();
    assert_eq!(c.get_register(0), 0);
    assert_eq!(c.get_register(0xF), 0);
}

#[test]
fn alu_copy_or_and_xor() {
    let mut c = boot(vec![
        0x60, 0x0C, 0x61, 0x0A, // V0=0x0C V1=0x0A
        0x82, 0x10, // V2 = V1
        0x83, 0x00, 0x83, 0x11, // V3 = V0; V3 |= V1 -> 0x0E
        0x84, 0x00, 0x84, 0x12, // V4 = V0; V4 &= V1 -> 0x08
        0x85, 0x00, 0x85, 0x13, // V5 = V0; V5 ^= V1 -> 0x06
    ]);
    for _ in 0..9 {
        c.cycle().unwrap();
    }
    assert_eq!(c.get_register(2), 0x0A);
    assert_eq!(c.get_register(3), 0x0E);
    assert_eq!(c.get_register(4), 0x08);
    assert_eq!(c.get_register(5), 0x06);
}

#[test]
fn shift_right_keeps_low_bit() {
    let mut c = boot(vec![0x61, 0x05, 0x81, 0x06]);
    c.cycle().unwrap();
    c.cycle().unwrap();
    assert_eq!(c.get_register(1), 2);
    assert_eq!(c.get_register(0xF), 1);
}

#[test]
fn shift_left_keeps_high_bit() {
    let mut c = boot(vec![0x61, 0x81, 0x81, 0x0E]);
    c.cycle().unwrap();
    c.cycle().unwrap();
    assert_eq!(c.get_register(1), 0x02);
    assert_eq!(c.get_register(0xF), 1);
}

#[test]
fn skip_if_equal_immediate() {
    let mut c = boot(vec![0x60, 0x07, 0x30, 0x07]);
    c.cycle().unwrap();
    c.cycle().unwrap();
    assert_eq!(c.get_pc(), 0x206);
    let mut d = boot(vec![0x60, 0x07, 0x30, 0x08]);
    d.cycle().unwrap();
    d.cycle().unwrap();
    assert_eq!(d.get_pc(), 0x204);
}

#[test]
fn skip_if_not_equal_immediate() {
    let mut c = boot(vec![0x60, 0x07, 0x40, 0x08]);
    c.cycle().unwrap();
    c.cycle().unwrap();
    assert_eq!(c.get_pc(), 0x206);
    let mut d = boot(vec![0x60, 0x07, 0x40, 0x07]);
    d.cycle().unwrap();
    d.cycle().unwrap();
    assert_eq!(d.get_pc(), 0x204);
}

#[test]
fn skip_on_register_compare() {
    let mut c = boot(vec![0x60, 0x05, 0x61, 0x05, 0x50, 0x10]);
    c.cycle().unwrap();
    c.cycle().unwrap();
    c.cycle().unwrap();
    assert_eq!(c.get_pc(), 0x208);
    let mut d = boot(vec![0x60, 0x05, 0x61, 0x06, 0x90, 0x10]);
    d.cycle().unwrap();
    d.cycle().unwrap();
    d.cycle().unwrap();
    assert_eq!(d.get_pc(), 0x208);
}

#[test]
fn jump_and_load_index() {
    let mut c = boot(vec![0xA1, 0x23, 0x13, 0x00]);
    c.cycle().unwrap();
    assert_eq!(c.get_index(), 0x123);
    c.cycle().unwrap();
    assert_eq!(c.get_pc(), 0x300);
}

#[test]
fn random_immediate_masks_the_drawn_byte() {
    let mut c = boot(vec![0xC0, 0x0F, 0xC1, 0xF0]);
    c.cycle_with_random(0xAA).unwrap();
    assert_eq!(c.get_register(0), 0x0A);
    c.cycle_with_random(0xAA).unwrap();
    assert_eq!(c.get_register(1), 0xA0);
}

#[test]
fn timers_load_read_and_tick() {
    // delay = 7, ticked to 6 in the same cycle; then read back into V1
    let mut c = boot(vec![0x60, 0x07, 0xF0, 0x15, 0xF1, 0x07]);
    c.cycle().unwrap();
    c.cycle().unwrap();
    assert_eq!(c.get_delay_timer(), 6);
    c.cycle().unwrap();
    assert_eq!(c.get_register(1), 6);
    assert_eq!(c.get_delay_timer(), 5);
}

#[test]
fn sound_timer_loads_and_ticks() {
    let mut c = boot(vec![0x60, 0x03, 0xF0, 0x18]);
    c.cycle().unwrap();
    c.cycle().unwrap();
    assert_eq!(c.get_sound_timer(), 2);
}

#[test]
fn index_add_and_font_lookup() {
    let mut c = boot(vec![0x60, 0x10, 0xA2, 0x00, 0xF0, 0x1E, 0x61, 0x03, 0xF1, 0x29]);
    c.cycle().unwrap();
    c.cycle().unwrap();
    c.cycle().unwrap();
    assert_eq!(c.get_index(), 0x210);
    c.cycle().unwrap();
    c.cycle().unwrap();
    assert_eq!(c.get_index(), 0x50 + 15);
}

#[test]
fn binary_coded_decimal() {
    let mut c = boot(vec![0x60, 0xFE, 0xA3, 0x00, 0xF0, 0x33]);
    c.cycle().unwrap();
    c.cycle().unwrap();
    c.cycle().unwrap();
    assert_eq!(c.get_memory_at(0x300), 2);
    assert_eq!(c.get_memory_at(0x301), 5);
    assert_eq!(c.get_memory_at(0x302), 4);
}

#[test]
fn store_and_load_register_block() {
    let mut c = boot(vec![
        0x60, 0x11, 0x61, 0x22, 0xA3, 0x00, 0xF1, 0x55, // store V0..=V1 at 0x300
        0x60, 0x00, 0x61, 0x00, // wipe them
        0xF1, 0x65, // load them back
    ]);
    for _ in 0..4 {
        c.cycle().unwrap();
    }
    assert_eq!(c.get_memory_at(0x300), 0x11);
    assert_eq!(c.get_memory_at(0x301), 0x22);
    for _ in 0..3 {
        c.cycle().unwrap();
    }
    assert_eq!(c.get_register(0), 0x11);
    assert_eq!(c.get_register(1), 0x22);
}

#[test]
fn skip_when_key_not_pressed() {
    let mut c = boot(vec![0x60, 0x05, 0xE0, 0xA1]);
    c.cycle().unwrap();
    c.cycle().unwrap();
    assert_eq!(c.get_pc(), 0x206);
    let mut d = boot(vec![0x60, 0x05, 0xE0, 0xA1]);
    d.set_key_state(5, 0xFF);
    d.cycle().unwrap();
    d.cycle().unwrap();
    assert_eq!(d.get_pc(), 0x204);
    // release takes effect again
    let mut e = boot(vec![0x60, 0x05, 0xE0, 0xA1]);
    e.set_key_state(5, 0xFF);
    e.set_key_state(5, 0);
    e.cycle().unwrap();
    e.cycle().unwrap();
    assert_eq!(e.get_pc(), 0x206);
}

#[test]
fn unknown_opcodes_are_fatal() {
    for rom in [
        vec![0x00, 0x00],
        vec![0x00, 0xE1],
        vec![0x51, 0x21],
        vec![0x80, 0x17],
        vec![0x91, 0x21],
        vec![0xB1, 0x23],
        vec![0xE0, 0x9E],
        vec![0xF0, 0x0A],
        vec![0xFF, 0xFF],
    ] {
        let mut c = boot(rom);
        assert_eq!(c.cycle(), Err(Chip8Error::UnknownOpcode));
        // the machine was left untouched
        assert_eq!(c.get_pc(), 0x200);
    }
}

#[test]
fn return_with_empty_stack_is_fatal() {
    let mut c = boot(vec![0x00, 0xEE]);
    assert_eq!(c.cycle(), Err(Chip8Error::StackUnderflow));
    assert_eq!(c.get_pc(), 0x200);
    assert_eq!(c.get_sp(), 0);
}

#[test]
fn seventeenth_nested_call_is_fatal() {
    let mut c = boot(vec![0x22, 0x00]);
    for k in 0..16 {
        c.cycle().unwrap();
        assert_eq!(c.get_sp(), k + 1);
    }
    assert_eq!(c.cycle(), Err(Chip8Error::StackOverflow));
    assert_eq!(c.get_sp(), 16);
}

#[test]
fn fetch_past_end_of_memory_is_fatal() {
    let mut c = boot(vec![0x1F, 0xFF]);
    c.cycle().unwrap();
    assert_eq!(c.get_pc(), 0xFFF);
    assert_eq!(c.cycle(), Err(Chip8Error::FetchOutOfBounds));
}

#[test]
fn memory_indexed_instructions_check_bounds() {
    let mut c = boot(vec![0xAF, 0xFF, 0xD0, 0x12]);
    c.cycle().unwrap();
    assert_eq!(c.cycle(), Err(Chip8Error::MemoryOutOfBounds));

    let mut d = boot(vec![0xAF, 0xFE, 0xF0, 0x33]);
    d.cycle().unwrap();
    assert_eq!(d.cycle(), Err(Chip8Error::MemoryOutOfBounds));

    let mut e = boot(vec![0xAF, 0xFF, 0xF1, 0x55]);
    e.cycle().unwrap();
    assert_eq!(e.cycle(), Err(Chip8Error::MemoryOutOfBounds));

    // the very last byte is still addressable
    let mut f = boot(vec![0xAF, 0xFF, 0xD0, 0x11]);
    f.cycle().unwrap();
    f.cycle().unwrap();
}

#[test]
fn index_grows_past_16_bits_is_fatal() {
    let mut c = boot(vec![0x60, 0xFF, 0xAF, 0xFF, 0xF0, 0x1E, 0x12, 0x04]);
    c.cycle().unwrap();
    c.cycle().unwrap();
    let mut fault = None;
    for _ in 0..1000 {
        match c.cycle() {
            Ok(()) => {}
            Err(e) => {
                fault = Some(e);
                break;
            }
        }
    }
    assert_eq!(fault, Some(Chip8Error::IndexOverflow));
}

#[test]
fn key_index_past_keypad_is_fatal() {
    let mut c = boot(vec![0x60, 0xFF, 0xE0, 0xA1]);
    c.cycle().unwrap();
    assert_eq!(c.cycle(), Err(Chip8Error::KeyOutOfRange));
}

#[test]
fn rom_larger_than_memory_is_refused() {
    let mut c = Chip8::new();
    let big = vec![0u8; 4096 - 0x200 + 1];
    assert_eq!(c.load_rom(&big), Err(Chip8Error::RomTooLarge));
    let exact = vec![0x77u8; 4096 - 0x200];
    c.load_rom(&exact).unwrap();
    assert_eq!(c.get_memory_at(0x200), 0x77);
    assert_eq!(c.get_memory_at(0xFFF), 0x77);
    assert_eq!(c.get_memory_at(0x1FF), 0x00);
}
