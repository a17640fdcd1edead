//! The mathematical model of the machine state.

use vstd::prelude::*;

verus! {

/// Lowest address at which a program image is placed.
pub const START_ADDRESS: u16 = 0x200;
/// First address of the built-in font table.
pub const FONT_START_ADDRESS: u16 = 0x50;
/// Width of the framebuffer in pixels.
pub const VIDEO_WIDTH: usize = 64;
/// Height of the framebuffer in pixels.
pub const VIDEO_HEIGHT: usize = 32;
/// Number of bytes of addressable memory.
pub const MEMORY_SIZE: usize = 4096;
/// Number of entries of the return-address stack.
pub const STACK_SIZE: usize = 16;
/// Number of general-purpose registers, and of keypad slots.
pub const NUM_REGISTERS: usize = 16;
/// Number of bytes of the font table: sixteen glyphs of five rows each.
pub const FONT_SIZE: usize = 80;

/// Ghost image of the whole machine state: what every contract speaks of.
#[verifier::ext_equal]
pub ghost struct Chip8View {
    /// 4096 bytes of addressable memory.
    pub memory: Seq<u8>,
    /// The sixteen general registers V0..=VF.
    pub registers: Seq<u8>,
    /// The 16-bit index register.
    pub index: u16,
    /// The program counter.
    pub pc: u16,
    /// The sixteen return-address slots.
    pub stack: Seq<u16>,
    /// The stack pointer: number of slots in use.
    pub sp: u8,
    /// The delay timer.
    pub delay_timer: u8,
    /// The sound timer.
    pub sound_timer: u8,
    /// The sixteen key slots; nonzero means pressed.
    pub keypad: Seq<u8>,
    /// The 64x32 framebuffer, row-major; each pixel 0x00 or 0xFF.
    pub video: Seq<u8>,
}

impl Chip8View {
    /// Well-formedness: the fixed capacities of every part, and the stack
    /// pointer within its sixteen slots.
    pub open spec fn wf(self) -> bool {
        &&& self.memory.len() == MEMORY_SIZE
        &&& self.registers.len() == NUM_REGISTERS
        &&& self.stack.len() == STACK_SIZE
        &&& self.keypad.len() == NUM_REGISTERS
        &&& self.video.len() == VIDEO_WIDTH * VIDEO_HEIGHT
        &&& self.sp <= STACK_SIZE
    }
}

/// The font table: sixteen hexadecimal-digit glyphs of five bytes each,
/// burned into memory at `FONT_START_ADDRESS` when a machine is created.
pub open spec fn font_data() -> Seq<u8> {
    seq![
        0xF0u8, 0x90, 0x90, 0x90, 0xF0, // 0
        0x20, 0x60, 0x20, 0x20, 0x70, // 1
        0xF0, 0x10, 0xF0, 0x80, 0xF0, // 2
        0xF0, 0x10, 0xF0, 0x10, 0xF0, // 3
        0x90, 0x90, 0xF0, 0x10, 0x10, // 4
        0xF0, 0x80, 0xF0, 0x10, 0xF0, // 5
        0xF0, 0x80, 0xF0, 0x90, 0xF0, // 6
        0xF0, 0x10, 0x20, 0x40, 0x40, // 7
        0xF0, 0x90, 0xF0, 0x90, 0xF0, // 8
        0xF0, 0x90, 0xF0, 0x10, 0xF0, // 9
        0xF0, 0x90, 0xF0, 0x90, 0x90, // A
        0xE0, 0x90, 0xE0, 0x90, 0xE0, // B
        0xF0, 0x80, 0x80, 0x80, 0xF0, // C
        0xE0, 0x90, 0x90, 0x90, 0xE0, // D
        0xF0, 0x80, 0xF0, 0x80, 0xF0, // E
        0xF0, 0x80, 0xF0, 0x80, 0x80, // F
    ]
}

/// The state a freshly created machine is in: memory zeroed but for the font
/// table, the program counter at `START_ADDRESS`, everything else zero.
pub open spec fn initial_state() -> Chip8View {
    Chip8View {
        memory: Seq::new(MEMORY_SIZE as nat, |i: int| {
            if FONT_START_ADDRESS <= i < FONT_START_ADDRESS + FONT_SIZE {
                font_data()[i - FONT_START_ADDRESS]
            } else {
                0u8
            }
        }),
        registers: Seq::new(NUM_REGISTERS as nat, |i: int| 0u8),
        index: 0,
        pc: START_ADDRESS,
        stack: Seq::new(STACK_SIZE as nat, |i: int| 0u16),
        sp: 0,
        delay_timer: 0,
        sound_timer: 0,
        keypad: Seq::new(NUM_REGISTERS as nat, |i: int| 0u8),
        video: Seq::new((VIDEO_WIDTH * VIDEO_HEIGHT) as nat, |i: int| 0u8),
    }
}

/// The high nibble of an opcode, selecting the instruction group.
pub open spec fn op_hi(op: u16) -> int {
    op as int / 0x1000
}

/// The `x` register selector: second nibble of an opcode.
pub open spec fn op_x(op: u16) -> int {
    (op as int / 0x100) % 16
}

/// The `y` register selector: third nibble of an opcode.
pub open spec fn op_y(op: u16) -> int {
    (op as int / 0x10) % 16
}

/// The low nibble `n` of an opcode.
pub open spec fn op_n(op: u16) -> int {
    op as int % 16
}

/// The low byte `kk` of an opcode.
pub open spec fn op_kk(op: u16) -> u8 {
    (op % 0x100) as u8
}

/// The low twelve bits `nnn` of an opcode: an address.
pub open spec fn op_nnn(op: u16) -> u16 {
    (op % 0x1000) as u16
}

/// The big-endian instruction word formed from two consecutive memory bytes.
pub open spec fn op_of(b0: u8, b1: u8) -> u16 {
    ((b0 as u16) * 0x100 + b1 as u16) as u16
}

/// How the opcode fields read off the two fetched bytes: the high and low
/// nibbles of each byte, the low byte itself, and the 12-bit address.
pub proof fn lemma_op_fields(b0: u8, b1: u8)
    ensures
        op_hi(op_of(b0, b1)) == b0 / 16,
        op_x(op_of(b0, b1)) == b0 % 16,
        op_y(op_of(b0, b1)) == b1 / 16,
        op_n(op_of(b0, b1)) == b1 % 16,
        op_kk(op_of(b0, b1)) == b1,
        op_nnn(op_of(b0, b1)) == (b0 % 16) * 0x100 + b1,
{
    let op = op_of(b0, b1);
    assert(op == b0 * 0x100 + b1);
    assert(op / 0x1000 == b0 / 16 && (op / 0x100) % 16 == b0 % 16
        && (op / 0x10) % 16 == b1 / 16 && op % 16 == b1 % 16
        && op % 0x100 == b1 && op % 0x1000 == (b0 % 16) * 0x100 + b1) by (nonlinear_arith)
        requires op == b0 * 0x100 + b1, b0 < 0x100, b1 < 0x100;
}

/// The end-of-cycle timer tick: each timer steps down by one if nonzero.
pub open spec fn tick(s: Chip8View) -> Chip8View {
    Chip8View {
        delay_timer: if s.delay_timer > 0 { (s.delay_timer - 1) as u8 } else { 0 },
        sound_timer: if s.sound_timer > 0 { (s.sound_timer - 1) as u8 } else { 0 },
        ..s
    }
}

} // verus!
