//! The executable machine, proved to implement the step function exactly.

use vstd::prelude::*;
use rand::Rng;
use crate::Chip8Error;
use crate::draw::{draw_cell, draw_row, draw_sprite, target_px, DrawState};
use crate::state::{
    font_data, initial_state, op_hi, op_kk, op_n, op_nnn, op_of, op_x, op_y, tick, Chip8View,
    FONT_SIZE, FONT_START_ADDRESS, MEMORY_SIZE, NUM_REGISTERS, STACK_SIZE, START_ADDRESS,
    VIDEO_HEIGHT, VIDEO_WIDTH,
};
use crate::step::{exec_op, step};

verus! {

/// The CHIP-8 machine: memory, register bank, call stack, timers, keypad and
/// framebuffer, driven one instruction at a time by `cycle`.
pub struct Chip8 {
    memory: Vec<u8>,
    registers: Vec<u8>,
    index: u16,
    pc: u16,
    stack: Vec<u16>,
    sp: u8,
    delay_timer: u8,
    sound_timer: u8,
    keypad: Vec<u8>,
    video: Vec<u8>,
}

impl View for Chip8 {
    type V = Chip8View;

    closed spec fn view(&self) -> Chip8View {
        Chip8View {
            memory: self.memory@,
            registers: self.registers@,
            index: self.index,
            pc: self.pc,
            stack: self.stack@,
            sp: self.sp,
            delay_timer: self.delay_timer,
            sound_timer: self.sound_timer,
            keypad: self.keypad@,
            video: self.video@,
        }
    }
}

/// Memory with a program image copied in at the load address.
pub open spec fn loaded_memory(mem: Seq<u8>, rom: Seq<u8>) -> Seq<u8> {
    Seq::new(MEMORY_SIZE as nat, |i: int| {
        if START_ADDRESS <= i < START_ADDRESS + rom.len() {
            rom[i - START_ADDRESS]
        } else {
            mem[i]
        }
    })
}

/// What one call of `cycle` did, given the byte `rnd` its random source
/// produced: either the machine took the step to the next state, or it
/// faulted and was left untouched.
pub open spec fn cycle_outcome(pre: Chip8View, rnd: u8, post: Chip8View, r: Result<(), Chip8Error>) -> bool {
    match r {
        Ok(()) => step(pre, rnd) == Ok::<Chip8View, Chip8Error>(post),
        Err(e) => step(pre, rnd) == Err::<Chip8View, Chip8Error>(e) && post == pre,
    }
}

/// Relies on rand::thread_rng and rand::Rng::gen_range: one byte drawn from
/// 0..=255 for the random-immediate instruction. Nothing is assumed of the
/// value.
#[verifier::external_body]
fn random_byte() -> u8 {
    let mut rng = rand::thread_rng();
    rng.gen_range(0..=u8::MAX)
}

/// A vector of `n` zero bytes.
fn zeroed_bytes(n: usize) -> (v: Vec<u8>)
    ensures
        v@ == Seq::new(n as nat, |i: int| 0u8),
{
    let mut v: Vec<u8> = Vec::new();
    let mut i: usize = 0;
    while i < n
        invariant
            i <= n,
            v@.len() == i,
            forall|j: int| 0 <= j < i ==> v@[j] == 0u8,
        decreases n - i,
    {
        v.push(0);
        i = i + 1;
    }
    proof {
        assert(v@ =~= Seq::new(n as nat, |i: int| 0u8));
    }
    v
}

/// A vector of `n` zero words.
fn zeroed_words(n: usize) -> (v: Vec<u16>)
    ensures
        v@ == Seq::new(n as nat, |i: int| 0u16),
{
    let mut v: Vec<u16> = Vec::new();
    let mut i: usize = 0;
    while i < n
        invariant
            i <= n,
            v@.len() == i,
            forall|j: int| 0 <= j < i ==> v@[j] == 0u16,
        decreases n - i,
    {
        v.push(0);
        i = i + 1;
    }
    proof {
        assert(v@ =~= Seq::new(n as nat, |i: int| 0u16));
    }
    v
}

/// The font table as bytes, matching `font_data`.
fn font_table() -> (v: Vec<u8>)
    ensures
        v@ == font_data(),
{
    let v: Vec<u8> = vec![
        0xF0, 0x90, 0x90, 0x90, 0xF0, // 0
        0x20, 0x60, 0x20, 0x20, 0x70, // 1
        0xF0, 0x10, 0xF0, 0x80, 0xF0, // 2
        0xF0, 0x10, 0xF0, 0x10, 0xF0, // 3
        0x90, 0x90, 0xF0, 0x10, 0x10, // 4
        0xF0, 0x80, 0xF0, 0x10, 0xF0, // 5
        0xF0, 0x80, 0xF0, 0x90, 0xF0, // 6
        0xF0, 0x10, 0x20, 0x40, 0x40, // 7
        0xF0, 0x90, 0xF0, 0x90, 0xF0, // 8
        0xF0, 0x90, 0xF0, 0x10, 0xF0, // 9
        0xF0, 0x90, 0xF0, 0x90, 0x90, // A
        0xE0, 0x90, 0xE0, 0x90, 0xE0, // B
        0xF0, 0x80, 0x80, 0x80, 0xF0, // C
        0xE0, 0x90, 0x90, 0x90, 0xE0, // D
        0xF0, 0x80, 0xF0, 0x80, 0xF0, // E
        0xF0, 0x80, 0xF0, 0x80, 0x80, // F
    ];
    proof {
        assert(v@ =~= font_data());
    }
    v
}

impl Chip8 {
    /// A fresh machine: memory zeroed but for the font table, the program
    /// counter at the load address, and every register, timer, key and pixel
    /// at zero.
    pub fn new() -> (c: Chip8)
        ensures
            c@ == initial_state(),
            c@.wf(),
    {
        let mut memory: Vec<u8> = zeroed_bytes(MEMORY_SIZE);
        let font: Vec<u8> = font_table();
        let mut k: usize = 0;
        while k < FONT_SIZE
            invariant
                k <= FONT_SIZE,
                memory@.len() == MEMORY_SIZE,
                font@ == font_data(),
                forall|j: int| FONT_START_ADDRESS <= j < FONT_START_ADDRESS + k
                    ==> memory@[j] == font_data()[j - FONT_START_ADDRESS],
                forall|j: int| 0 <= j < MEMORY_SIZE
                    && !(FONT_START_ADDRESS <= j < FONT_START_ADDRESS + k) ==> memory@[j] == 0u8,
            decreases FONT_SIZE - k,
        {
            memory[FONT_START_ADDRESS as usize + k] = font[k];
            k = k + 1;
        }
        let c = Chip8 {
            memory,
            registers: zeroed_bytes(NUM_REGISTERS),
            index: 0,
            pc: START_ADDRESS,
            stack: zeroed_words(STACK_SIZE),
            sp: 0,
            delay_timer: 0,
            sound_timer: 0,
            keypad: zeroed_bytes(NUM_REGISTERS),
            video: zeroed_bytes(VIDEO_WIDTH * VIDEO_HEIGHT),
        };
        proof {
            assert(c@.memory =~= initial_state().memory);
            assert(c@ =~~= initial_state());
        }
        c
    }

    /// The stored byte of the framebuffer cell `(row + col * width)`, the
    /// whole index wrapped to the framebuffer size. Row-major internally;
    /// this accessor's row/col convention is the one external renderers use.
    pub fn get_pixel_at(&self, row: usize, col: usize) -> (p: u8)
        requires
            self@.wf(),
        ensures
            p == self@.video[(row + col * VIDEO_WIDTH) % (VIDEO_WIDTH * VIDEO_HEIGHT)],
    {
        let idx: usize = ((row as u128 + col as u128 * VIDEO_WIDTH as u128)
            % (VIDEO_WIDTH as u128 * VIDEO_HEIGHT as u128)) as usize;
        self.video[idx]
    }

    /// Copy a program image into memory at the load address. An image larger
    /// than the memory above that address is refused and nothing changes.
    pub fn load_rom(&mut self, rom: &Vec<u8>) -> (r: Result<(), Chip8Error>)
        requires
            old(self)@.wf(),
        ensures
            final(self)@.wf(),
            (match r {
                Ok(()) => rom@.len() <= MEMORY_SIZE - START_ADDRESS && final(self)@
                    == (Chip8View { memory: loaded_memory(old(self)@.memory, rom@), ..old(self)@ }),
                Err(e) => e == Chip8Error::RomTooLarge && rom@.len() > MEMORY_SIZE - START_ADDRESS
                    && final(self)@ == old(self)@,
            }),
    {
        let ghost s0: Chip8View = self@;
        if rom.len() > MEMORY_SIZE - START_ADDRESS as usize {
            return Err(Chip8Error::RomTooLarge);
        }
        let mut i: usize = 0;
        while i < rom.len()
            invariant
                s0.wf(),
                i <= rom@.len(),
                rom@.len() <= MEMORY_SIZE - START_ADDRESS,
                self@.memory.len() == MEMORY_SIZE,
                forall|j: int| START_ADDRESS <= j < START_ADDRESS + i
                    ==> self@.memory[j] == rom@[j - START_ADDRESS],
                forall|j: int| 0 <= j < MEMORY_SIZE && !(START_ADDRESS <= j < START_ADDRESS + i)
                    ==> self@.memory[j] == s0.memory[j],
                self@.registers == s0.registers,
                self@.index == s0.index,
                self@.pc == s0.pc,
                self@.stack == s0.stack,
                self@.sp == s0.sp,
                self@.delay_timer == s0.delay_timer,
                self@.sound_timer == s0.sound_timer,
                self@.keypad == s0.keypad,
                self@.video == s0.video,
            decreases rom@.len() - i,
        {
            self.memory[START_ADDRESS as usize + i] = rom[i];
            i = i + 1;
        }
        proof {
            assert(self@.memory =~= loaded_memory(s0.memory, rom@));
            assert(self@ =~~= (Chip8View { memory: loaded_memory(s0.memory, rom@), ..s0 }));
        }
        Ok(())
    }

    /// Record a key press (nonzero) or release (zero) for one of the sixteen
    /// logical keys.
    pub fn set_key_state(&mut self, key_index: usize, value: u8)
        requires
            old(self)@.wf(),
            key_index < NUM_REGISTERS,
        ensures
            final(self)@ == (Chip8View {
                keypad: old(self)@.keypad.update(key_index as int, value),
                ..old(self)@
            }),
            final(self)@.wf(),
    {
        self.keypad[key_index] = value;
    }

    /// One general register's value.
    pub fn get_register(&self, r: usize) -> (v: u8)
        requires
            self@.wf(),
            r < NUM_REGISTERS,
        ensures
            v == self@.registers[r as int],
    {
        self.registers[r]
    }

    /// The index register's value.
    pub fn get_index(&self) -> (v: u16)
        ensures
            v == self@.index,
    {
        self.index
    }

    /// The program counter's value.
    pub fn get_pc(&self) -> (v: u16)
        ensures
            v == self@.pc,
    {
        self.pc
    }

    /// The stack pointer: how many call frames are in use.
    pub fn get_sp(&self) -> (v: u8)
        ensures
            v == self@.sp,
    {
        self.sp
    }

    /// The delay timer's value.
    pub fn get_delay_timer(&self) -> (v: u8)
        ensures
            v == self@.delay_timer,
    {
        self.delay_timer
    }

    /// The sound timer's value, exposed so a host can drive audio from it.
    pub fn get_sound_timer(&self) -> (v: u8)
        ensures
            v == self@.sound_timer,
    {
        self.sound_timer
    }

    /// One byte of memory.
    pub fn get_memory_at(&self, addr: usize) -> (v: u8)
        requires
            self@.wf(),
            addr < MEMORY_SIZE,
        ensures
            v == self@.memory[addr as int],
    {
        self.memory[addr]
    }

    /// Zero every pixel of the framebuffer.
    fn clear_video(&mut self)
        requires
            old(self)@.wf(),
        ensures
            final(self)@ == (Chip8View {
                video: Seq::new((VIDEO_WIDTH * VIDEO_HEIGHT) as nat, |i: int| 0u8),
                ..old(self)@
            }),
    {
        let ghost s0: Chip8View = self@;
        let mut i: usize = 0;
        while i < VIDEO_WIDTH * VIDEO_HEIGHT
            invariant
                i <= VIDEO_WIDTH * VIDEO_HEIGHT,
                self@.video.len() == VIDEO_WIDTH * VIDEO_HEIGHT,
                forall|j: int| 0 <= j < i ==> self@.video[j] == 0u8,
                self@.memory == s0.memory,
                self@.registers == s0.registers,
                self@.index == s0.index,
                self@.pc == s0.pc,
                self@.stack == s0.stack,
                self@.sp == s0.sp,
                self@.delay_timer == s0.delay_timer,
                self@.sound_timer == s0.sound_timer,
                self@.keypad == s0.keypad,
            decreases VIDEO_WIDTH * VIDEO_HEIGHT - i,
        {
            self.video[i] = 0;
            i = i + 1;
        }
        proof {
            assert(self@.video =~= Seq::new((VIDEO_WIDTH * VIDEO_HEIGHT) as nat, |i: int| 0u8));
            assert(self@ =~~= (Chip8View {
                video: Seq::new((VIDEO_WIDTH * VIDEO_HEIGHT) as nat, |i: int| 0u8),
                ..s0
            }));
        }
    }

    /// The XOR blit of an `n`-row sprite read from memory at the index
    /// register, its top-left corner at `(x0, y0)`, the collision flag left
    /// in the last register.
    fn blit_sprite(&mut self, x0: usize, y0: usize, n: usize)
        requires
            old(self)@.wf(),
            x0 < VIDEO_WIDTH,
            y0 < VIDEO_HEIGHT,
            n < 16,
            n > 0 ==> old(self)@.index as int + n <= MEMORY_SIZE,
        ensures
            final(self)@ == ({
                let d = draw_sprite(
                    DrawState { video: old(self)@.video, flag: 0u8 },
                    old(self)@.memory,
                    old(self)@.index as int,
                    x0 as int,
                    y0 as int,
                    n as int,
                );
                Chip8View { video: d.video, registers: old(self)@.registers.update(15, d.flag), ..old(self)@ }
            }),
    {
        let ghost s0: Chip8View = self@;
        let ghost ds0: DrawState = DrawState { video: s0.video, flag: 0u8 };
        let mut flag: u8 = 0;
        let mut row: usize = 0;
        while row < n
            invariant
                self@.wf(),
                s0.wf(),
                x0 < VIDEO_WIDTH,
                y0 < VIDEO_HEIGHT,
                n < 16,
                n > 0 ==> s0.index as int + n <= MEMORY_SIZE,
                row <= n,
                ds0 == (DrawState { video: s0.video, flag: 0u8 }),
                self@.memory == s0.memory,
                self@.registers == s0.registers,
                self@.index == s0.index,
                self@.pc == s0.pc,
                self@.stack == s0.stack,
                self@.sp == s0.sp,
                self@.delay_timer == s0.delay_timer,
                self@.sound_timer == s0.sound_timer,
                self@.keypad == s0.keypad,
                (DrawState { video: self@.video, flag: flag } == draw_sprite(
                    ds0,
                    s0.memory,
                    s0.index as int,
                    x0 as int,
                    y0 as int,
                    row as int,
                )),
            decreases n - row,
        {
            let sprite: u8 = self.memory[self.index as usize + row];
            let ghost d_rows: DrawState = draw_sprite(
                ds0,
                s0.memory,
                s0.index as int,
                x0 as int,
                y0 as int,
                row as int,
            );
            let mut col: usize = 0;
            while col < 8
                invariant
                    self@.wf(),
                    s0.wf(),
                    x0 < VIDEO_WIDTH,
                    y0 < VIDEO_HEIGHT,
                    row < n,
                    n < 16,
                    col <= 8,
                    sprite == s0.memory[s0.index as int + row],
                    self@.memory == s0.memory,
                    self@.registers == s0.registers,
                    self@.index == s0.index,
                    self@.pc == s0.pc,
                    self@.stack == s0.stack,
                    self@.sp == s0.sp,
                    self@.delay_timer == s0.delay_timer,
                    self@.sound_timer == s0.sound_timer,
                    self@.keypad == s0.keypad,
                    (DrawState { video: self@.video, flag: flag } == draw_row(
                        d_rows,
                        sprite,
                        x0 as int,
                        y0 as int,
                        row as int,
                        col as int,
                    )),
                decreases 8 - col,
            {
                if sprite & (0x80u8 >> (col as u8)) != 0 {
                    let px: usize = ((y0 + row) % VIDEO_HEIGHT) * VIDEO_WIDTH
                        + ((x0 + col) % VIDEO_WIDTH);
                    proof {
                        assert(px as int == target_px(x0 as int, y0 as int, row as int, col as int));
                    }
                    let cur: u8 = self.video[px];
                    if cur == 0xFF {
                        flag = 1;
                    }
                    self.video[px] = cur ^ 0xFF;
                }
                proof {
                    assert(draw_row(d_rows, sprite, x0 as int, y0 as int, row as int, col as int + 1)
                        == draw_cell(
                            draw_row(d_rows, sprite, x0 as int, y0 as int, row as int, col as int),
                            sprite,
                            x0 as int,
                            y0 as int,
                            col as int,
                            row as int,
                        ));
                }
                col = col + 1;
            }
            proof {
                assert(draw_sprite(ds0, s0.memory, s0.index as int, x0 as int, y0 as int, row as int + 1)
                    == draw_row(
                        draw_sprite(ds0, s0.memory, s0.index as int, x0 as int, y0 as int, row as int),
                        s0.memory[s0.index as int + row],
                        x0 as int,
                        y0 as int,
                        row as int,
                        8,
                    ));
            }
            row = row + 1;
        }
        self.registers[15] = flag;
    }

    /// Store registers 0 through `x` into memory at the index register.
    fn store_registers(&mut self, x: usize)
        requires
            old(self)@.wf(),
            x < NUM_REGISTERS,
            old(self)@.index as int + x + 1 <= MEMORY_SIZE,
        ensures
            final(self)@ == (Chip8View {
                memory: Seq::new(MEMORY_SIZE as nat, |j: int| {
                    if old(self)@.index <= j < old(self)@.index + x + 1 {
                        old(self)@.registers[j - old(self)@.index]
                    } else {
                        old(self)@.memory[j]
                    }
                }),
                ..old(self)@
            }),
    {
        let ghost s0: Chip8View = self@;
        let idx: usize = self.index as usize;
        let mut j: usize = 0;
        while j <= x
            invariant
                s0.wf(),
                x < NUM_REGISTERS,
                idx == s0.index,
                idx + x + 1 <= MEMORY_SIZE,
                j <= x + 1,
                self@.memory.len() == MEMORY_SIZE,
                forall|i: int| idx <= i < idx + j ==> self@.memory[i] == s0.registers[i - idx],
                forall|i: int| 0 <= i < MEMORY_SIZE && !(idx <= i < idx + j)
                    ==> self@.memory[i] == s0.memory[i],
                self@.registers == s0.registers,
                self@.index == s0.index,
                self@.pc == s0.pc,
                self@.stack == s0.stack,
                self@.sp == s0.sp,
                self@.delay_timer == s0.delay_timer,
                self@.sound_timer == s0.sound_timer,
                self@.keypad == s0.keypad,
                self@.video == s0.video,
            decreases x + 1 - j,
        {
            self.memory[idx + j] = self.registers[j];
            j = j + 1;
        }
        proof {
            assert(self@.memory =~= Seq::new(MEMORY_SIZE as nat, |i: int| {
                if s0.index <= i < s0.index + x + 1 {
                    s0.registers[i - s0.index]
                } else {
                    s0.memory[i]
                }
            }));
        }
    }

    /// Load registers 0 through `x` from memory at the index register.
    fn load_registers(&mut self, x: usize)
        requires
            old(self)@.wf(),
            x < NUM_REGISTERS,
            old(self)@.index as int + x + 1 <= MEMORY_SIZE,
        ensures
            final(self)@ == (Chip8View {
                registers: Seq::new(NUM_REGISTERS as nat, |j: int| {
                    if 0 <= j <= x {
                        old(self)@.memory[old(self)@.index + j]
                    } else {
                        old(self)@.registers[j]
                    }
                }),
                ..old(self)@
            }),
    {
        let ghost s0: Chip8View = self@;
        let idx: usize = self.index as usize;
        let mut j: usize = 0;
        while j <= x
            invariant
                s0.wf(),
                x < NUM_REGISTERS,
                idx == s0.index,
                idx + x + 1 <= MEMORY_SIZE,
                j <= x + 1,
                self@.registers.len() == NUM_REGISTERS,
                forall|i: int| 0 <= i < j ==> self@.registers[i] == s0.memory[idx + i],
                forall|i: int| j <= i < NUM_REGISTERS ==> self@.registers[i] == s0.registers[i],
                self@.memory == s0.memory,
                self@.index == s0.index,
                self@.pc == s0.pc,
                self@.stack == s0.stack,
                self@.sp == s0.sp,
                self@.delay_timer == s0.delay_timer,
                self@.sound_timer == s0.sound_timer,
                self@.keypad == s0.keypad,
                self@.video == s0.video,
            decreases x + 1 - j,
        {
            self.registers[j] = self.memory[idx + j];
            j = j + 1;
        }
        proof {
            assert(self@.registers =~= Seq::new(NUM_REGISTERS as nat, |i: int| {
                if 0 <= i <= x {
                    s0.memory[s0.index + i]
                } else {
                    s0.registers[i]
                }
            }));
        }
    }

    /// One fetch-decode-execute cycle driven by a caller-supplied random
    /// byte: the deterministic core of `cycle`, and the hook a test uses to
    /// pin the random instruction down.
    #[verifier::rlimit(100)]
    #[verifier::spinoff_prover]
    pub fn cycle_with_random(&mut self, rnd: u8) -> (r: Result<(), Chip8Error>)
        requires
            old(self)@.wf(),
        ensures
            final(self)@.wf(),
            cycle_outcome(old(self)@, rnd, final(self)@, r),
    {
        let ghost s0: Chip8View = self@;
        if self.pc >= (MEMORY_SIZE - 1) as u16 {
            return Err(Chip8Error::FetchOutOfBounds);
        }
        let pc: usize = self.pc as usize;
        let op: u16 = (self.memory[pc] as u16) * 0x100 + (self.memory[pc + 1] as u16);
        let pc2: u16 = self.pc + 2;
        let hi: u16 = op / 0x1000;
        let x: usize = ((op / 0x100) % 16) as usize;
        let y: usize = ((op / 0x10) % 16) as usize;
        let n: usize = (op % 16) as usize;
        let kk: u8 = (op % 0x100) as u8;
        let nnn: u16 = op % 0x1000;
        proof {
            assert(op == op_of(s0.memory[s0.pc as int], s0.memory[s0.pc as int + 1]));
            assert(op_hi(op) == hi as int);
            assert(op_x(op) == x as int);
            assert(op_y(op) == y as int);
            assert(op_n(op) == n as int);
            assert(op_kk(op) == kk);
            assert(op_nnn(op) == nnn);
        }
        let ghost s1: Chip8View = Chip8View { pc: (s0.pc + 2) as u16, ..s0 };
        match hi {
            0x0 => {
                if op == 0x00E0 {
                    self.clear_video();
                    self.pc = pc2;
                } else if op == 0x00EE {
                    if self.sp == 0 {
                        return Err(Chip8Error::StackUnderflow);
                    }
                    self.sp = self.sp - 1;
                    self.pc = self.stack[self.sp as usize];
                } else {
                    return Err(Chip8Error::UnknownOpcode);
                }
            },
            0x1 => {
                self.pc = nnn;
            },
            0x2 => {
                if self.sp as usize >= STACK_SIZE {
                    return Err(Chip8Error::StackOverflow);
                }
                self.stack[self.sp as usize] = pc2;
                self.sp = self.sp + 1;
                self.pc = nnn;
            },
            0x3 => {
                if self.registers[x] == kk {
                    self.pc = pc2 + 2;
                } else {
                    self.pc = pc2;
                }
            },
            0x4 => {
                if self.registers[x] != kk {
                    self.pc = pc2 + 2;
                } else {
                    self.pc = pc2;
                }
            },
            0x5 => {
                if n != 0 {
                    return Err(Chip8Error::UnknownOpcode);
                }
                if self.registers[x] == self.registers[y] {
                    self.pc = pc2 + 2;
                } else {
                    self.pc = pc2;
                }
            },
            0x6 => {
                self.registers[x] = kk;
                self.pc = pc2;
            },
            0x7 => {
                let sum: u16 = self.registers[x] as u16 + kk as u16;
                self.registers[x] = (sum % 256) as u8;
                self.pc = pc2;
            },
            0x8 => {
                let a: u8 = self.registers[x];
                let b: u8 = self.registers[y];
                match (op % 16) as u8 {
                    0x0 => {
                        self.registers[x] = b;
                    },
                    0x1 => {
                        self.registers[x] = a | b;
                    },
                    0x2 => {
                        self.registers[x] = a & b;
                    },
                    0x3 => {
                        self.registers[x] = a ^ b;
                    },
                    0x4 => {
                        let sum: u16 = a as u16 + b as u16;
                        self.registers[x] = (sum % 256) as u8;
                        self.registers[15] = if sum > 255 { 1 } else { 0 };
                    },
                    0x5 => {
                        let diff: u16 = (a as u16 + 256 - b as u16) % 256;
                        self.registers[x] = diff as u8;
                        self.registers[15] = if a > b { 1 } else { 0 };
                        proof {
                            assert((a as int + 256 - b as int) % 256 == (a as int - b as int) % 256)
                                by (nonlinear_arith)
                                requires (a as int) < 256, (b as int) < 256, (a as int) >= 0, (b as int) >= 0;
                        }
                    },
                    0x6 => {
                        self.registers[15] = a % 2;
                        self.registers[x] = a / 2;
                    },
                    0xE => {
                        self.registers[15] = a / 128;
                        self.registers[x] = ((a as u16 * 2) % 256) as u8;
                    },
                    _ => {
                        return Err(Chip8Error::UnknownOpcode);
                    },
                }
                self.pc = pc2;
            },
            0x9 => {
                if n != 0 {
                    return Err(Chip8Error::UnknownOpcode);
                }
                if self.registers[x] != self.registers[y] {
                    self.pc = pc2 + 2;
                } else {
                    self.pc = pc2;
                }
            },
            0xA => {
                self.index = nnn;
                self.pc = pc2;
            },
            0xC => {
                self.registers[x] = kk & rnd;
                self.pc = pc2;
            },
            0xD => {
                if n > 0 && self.index as usize + n > MEMORY_SIZE {
                    return Err(Chip8Error::MemoryOutOfBounds);
                }
                let x0: usize = (self.registers[x] % (VIDEO_WIDTH as u8)) as usize;
                let y0: usize = (self.registers[y] % (VIDEO_HEIGHT as u8)) as usize;
                self.blit_sprite(x0, y0, n);
                self.pc = pc2;
            },
            0xE => {
                if kk != 0xA1 {
                    return Err(Chip8Error::UnknownOpcode);
                }
                let key: u8 = self.registers[x];
                if key as usize >= NUM_REGISTERS {
                    return Err(Chip8Error::KeyOutOfRange);
                }
                if self.keypad[key as usize] == 0 {
                    self.pc = pc2 + 2;
                } else {
                    self.pc = pc2;
                }
            },
            0xF => {
                match kk {
                    0x07 => {
                        self.registers[x] = self.delay_timer;
                        self.pc = pc2;
                    },
                    0x15 => {
                        self.delay_timer = self.registers[x];
                        self.pc = pc2;
                    },
                    0x18 => {
                        self.sound_timer = self.registers[x];
                        self.pc = pc2;
                    },
                    0x1E => {
                        let v: u8 = self.registers[x];
                        if self.index as u32 + v as u32 > 0xFFFF {
                            return Err(Chip8Error::IndexOverflow);
                        }
                        self.index = ((self.index as u32 + v as u32) as u16);
                        self.pc = pc2;
                    },
                    0x29 => {
                        let digit: u8 = self.registers[x];
                        self.index = FONT_START_ADDRESS + 5 * digit as u16;
                        self.pc = pc2;
                    },
                    0x33 => {
                        if self.index as usize + 3 > MEMORY_SIZE {
                            return Err(Chip8Error::MemoryOutOfBounds);
                        }
                        let idx: usize = self.index as usize;
                        let v: u8 = self.registers[x];
                        self.memory[idx] = v / 100;
                        self.memory[idx + 1] = (v / 10) % 10;
                        self.memory[idx + 2] = v % 10;
                        self.pc = pc2;
                    },
                    0x55 => {
                        if self.index as usize + x + 1 > MEMORY_SIZE {
                            return Err(Chip8Error::MemoryOutOfBounds);
                        }
                        self.store_registers(x);
                        self.pc = pc2;
                    },
                    0x65 => {
                        if self.index as usize + x + 1 > MEMORY_SIZE {
                            return Err(Chip8Error::MemoryOutOfBounds);
                        }
                        self.load_registers(x);
                        self.pc = pc2;
                    },
                    _ => {
                        return Err(Chip8Error::UnknownOpcode);
                    },
                }
            },
            _ => {
                return Err(Chip8Error::UnknownOpcode);
            },
        }
        if self.delay_timer > 0 {
            self.delay_timer = self.delay_timer - 1;
        }
        if self.sound_timer > 0 {
            self.sound_timer = self.sound_timer - 1;
        }
        proof {
            assert(exec_op(s1, op, rnd) is Ok);
            assert(self@ =~~= tick(exec_op(s1, op, rnd)->Ok_0));
            assert(step(s0, rnd) == Ok::<Chip8View, Chip8Error>(self@));
            crate::step::lemma_step_wf(s0, rnd);
        }
        Ok(())
    }

    /// One fetch-decode-execute cycle plus one timer tick, the random
    /// instruction fed from the machine's own random source: some byte was
    /// drawn, and the machine took exactly the step that byte induces.
    pub fn cycle(&mut self) -> (r: Result<(), Chip8Error>)
        requires
            old(self)@.wf(),
        ensures
            final(self)@.wf(),
            exists|rnd: u8| cycle_outcome(old(self)@, rnd, final(self)@, r),
    {
        let rnd: u8 = random_byte();
        let r = self.cycle_with_random(rnd);
        proof {
            assert(cycle_outcome(old(self)@, rnd, self@, r));
        }
        r
    }
}

} // verus!
