//! The fetch-decode-execute cycle as a mathematical step function.
//!
//! `step` maps one machine state (plus the byte drawn for the random
//! instruction) either to the next state or to the fault that stops the
//! machine. The executable engine is proved to implement it exactly.

use vstd::prelude::*;
use crate::Chip8Error;
use crate::draw::{draw_sprite, DrawState};
use crate::state::{
    op_hi, op_kk, op_n, op_nnn, op_of, op_x, op_y, tick, Chip8View, FONT_START_ADDRESS,
    MEMORY_SIZE, STACK_SIZE,
};

verus! {

/// The state after the two-byte skip taken by the conditional-skip
/// instructions.
pub open spec fn skip_next(s: Chip8View) -> Chip8View {
    Chip8View { pc: (s.pc + 2) as u16, ..s }
}

/// The arithmetic-logic group `8xyk`. Operands are read before any write, and
/// the writes land in the order the instruction set lists them, so an
/// instruction whose `x` selector is the flag register keeps the later of the
/// two writes.
pub open spec fn exec_alu(s: Chip8View, op: u16) -> Result<Chip8View, Chip8Error> {
    let x = op_x(op);
    let y = op_y(op);
    let n = op_n(op);
    let a = s.registers[x];
    let b = s.registers[y];
    if n == 0 {
        Ok(Chip8View { registers: s.registers.update(x, b), ..s })
    } else if n == 1 {
        Ok(Chip8View { registers: s.registers.update(x, a | b), ..s })
    } else if n == 2 {
        Ok(Chip8View { registers: s.registers.update(x, a & b), ..s })
    } else if n == 3 {
        Ok(Chip8View { registers: s.registers.update(x, a ^ b), ..s })
    } else if n == 4 {
        let sum = a + b;
        Ok(Chip8View {
            registers: s.registers.update(x, (sum % 256) as u8).update(
                15,
                if sum > 255 { 1u8 } else { 0u8 },
            ),
            ..s
        })
    } else if n == 5 {
        Ok(Chip8View {
            registers: s.registers.update(x, ((a - b) % 256) as u8).update(
                15,
                if a > b { 1u8 } else { 0u8 },
            ),
            ..s
        })
    } else if n == 6 {
        Ok(Chip8View {
            registers: s.registers.update(15, (a % 2) as u8).update(x, (a / 2) as u8),
            ..s
        })
    } else if n == 0xE {
        Ok(Chip8View {
            registers: s.registers.update(15, (a / 128) as u8).update(x, ((a * 2) % 256) as u8),
            ..s
        })
    } else {
        Err(Chip8Error::UnknownOpcode)
    }
}

/// The miscellaneous group `Fxkk`: timers, index arithmetic, font lookup,
/// decimal conversion, and the bulk register transfers.
pub open spec fn exec_misc(s: Chip8View, op: u16) -> Result<Chip8View, Chip8Error> {
    let x = op_x(op);
    let kk = op_kk(op);
    let v = s.registers[x];
    let i = s.index as int;
    if kk == 0x07 {
        Ok(Chip8View { registers: s.registers.update(x, s.delay_timer), ..s })
    } else if kk == 0x15 {
        Ok(Chip8View { delay_timer: v, ..s })
    } else if kk == 0x18 {
        Ok(Chip8View { sound_timer: v, ..s })
    } else if kk == 0x1E {
        if i + v > 0xFFFF {
            Err(Chip8Error::IndexOverflow)
        } else {
            Ok(Chip8View { index: (i + v) as u16, ..s })
        }
    } else if kk == 0x29 {
        Ok(Chip8View { index: (FONT_START_ADDRESS + 5 * v) as u16, ..s })
    } else if kk == 0x33 {
        if i + 3 > MEMORY_SIZE {
            Err(Chip8Error::MemoryOutOfBounds)
        } else {
            Ok(Chip8View {
                memory: s.memory.update(i, (v / 100) as u8).update(
                    i + 1,
                    ((v / 10) % 10) as u8,
                ).update(i + 2, (v % 10) as u8),
                ..s
            })
        }
    } else if kk == 0x55 {
        if i + x + 1 > MEMORY_SIZE {
            Err(Chip8Error::MemoryOutOfBounds)
        } else {
            Ok(Chip8View {
                memory: Seq::new(MEMORY_SIZE as nat, |j: int| {
                    if i <= j < i + x + 1 {
                        s.registers[j - i]
                    } else {
                        s.memory[j]
                    }
                }),
                ..s
            })
        }
    } else if kk == 0x65 {
        if i + x + 1 > MEMORY_SIZE {
            Err(Chip8Error::MemoryOutOfBounds)
        } else {
            Ok(Chip8View {
                registers: Seq::new(16, |j: int| {
                    if 0 <= j <= x {
                        s.memory[i + j]
                    } else {
                        s.registers[j]
                    }
                }),
                ..s
            })
        }
    } else {
        Err(Chip8Error::UnknownOpcode)
    }
}

/// One decoded instruction applied to a state whose program counter has
/// already been advanced past the instruction word.
pub open spec fn exec_op(s: Chip8View, op: u16, rnd: u8) -> Result<Chip8View, Chip8Error> {
    let hi = op_hi(op);
    let x = op_x(op);
    let y = op_y(op);
    let n = op_n(op);
    let kk = op_kk(op);
    let nnn = op_nnn(op);
    if hi == 0 {
        if op == 0x00E0 {
            Ok(Chip8View { video: Seq::new(2048, |i: int| 0u8), ..s })
        } else if op == 0x00EE {
            if s.sp == 0 {
                Err(Chip8Error::StackUnderflow)
            } else {
                Ok(Chip8View { sp: (s.sp - 1) as u8, pc: s.stack[s.sp - 1], ..s })
            }
        } else {
            Err(Chip8Error::UnknownOpcode)
        }
    } else if hi == 1 {
        Ok(Chip8View { pc: nnn, ..s })
    } else if hi == 2 {
        if s.sp >= STACK_SIZE {
            Err(Chip8Error::StackOverflow)
        } else {
            Ok(Chip8View {
                stack: s.stack.update(s.sp as int, s.pc),
                sp: (s.sp + 1) as u8,
                pc: nnn,
                ..s
            })
        }
    } else if hi == 3 {
        Ok(if s.registers[x] == kk { skip_next(s) } else { s })
    } else if hi == 4 {
        Ok(if s.registers[x] != kk { skip_next(s) } else { s })
    } else if hi == 5 {
        if n == 0 {
            Ok(if s.registers[x] == s.registers[y] { skip_next(s) } else { s })
        } else {
            Err(Chip8Error::UnknownOpcode)
        }
    } else if hi == 6 {
        Ok(Chip8View { registers: s.registers.update(x, kk), ..s })
    } else if hi == 7 {
        Ok(Chip8View {
            registers: s.registers.update(x, ((s.registers[x] + kk) % 256) as u8),
            ..s
        })
    } else if hi == 8 {
        exec_alu(s, op)
    } else if hi == 9 {
        if n == 0 {
            Ok(if s.registers[x] != s.registers[y] { skip_next(s) } else { s })
        } else {
            Err(Chip8Error::UnknownOpcode)
        }
    } else if hi == 0xA {
        Ok(Chip8View { index: nnn, ..s })
    } else if hi == 0xC {
        Ok(Chip8View { registers: s.registers.update(x, kk & rnd), ..s })
    } else if hi == 0xD {
        if n > 0 && s.index as int + n > MEMORY_SIZE {
            Err(Chip8Error::MemoryOutOfBounds)
        } else {
            let d = draw_sprite(
                DrawState { video: s.video, flag: 0 },
                s.memory,
                s.index as int,
                s.registers[x] as int % 64,
                s.registers[y] as int % 32,
                n,
            );
            Ok(Chip8View { video: d.video, registers: s.registers.update(15, d.flag), ..s })
        }
    } else if hi == 0xE {
        if kk == 0xA1 {
            if s.registers[x] >= 16 {
                Err(Chip8Error::KeyOutOfRange)
            } else {
                Ok(if s.keypad[s.registers[x] as int] == 0 { skip_next(s) } else { s })
            }
        } else {
            Err(Chip8Error::UnknownOpcode)
        }
    } else if hi == 0xF {
        exec_misc(s, op)
    } else {
        Err(Chip8Error::UnknownOpcode)
    }
}

/// One whole machine cycle: fetch the big-endian instruction word at the
/// program counter, advance the counter past it, execute the instruction,
/// and tick both timers down. A fault leaves no next state.
pub open spec fn step(s: Chip8View, rnd: u8) -> Result<Chip8View, Chip8Error> {
    if s.pc as int + 1 >= MEMORY_SIZE {
        Err(Chip8Error::FetchOutOfBounds)
    } else {
        let op = op_of(s.memory[s.pc as int], s.memory[s.pc as int + 1]);
        let s1 = Chip8View { pc: (s.pc + 2) as u16, ..s };
        match exec_op(s1, op, rnd) {
            Ok(s2) => Ok(tick(s2)),
            Err(e) => Err(e),
        }
    }
}

/// A successful step leaves every part of the state at its fixed capacity.
pub proof fn lemma_step_wf(s: Chip8View, rnd: u8)
    requires
        s.wf(),
        step(s, rnd) is Ok,
    ensures
        step(s, rnd)->Ok_0.wf(),
{
    let op = op_of(s.memory[s.pc as int], s.memory[s.pc as int + 1]);
    let s1 = Chip8View { pc: (s.pc + 2) as u16, ..s };
    let hi = op_hi(op);
    if hi == 0xD {
        let d = draw_sprite(
            DrawState { video: s1.video, flag: 0 },
            s1.memory,
            s1.index as int,
            s1.registers[op_x(op)] as int % 64,
            s1.registers[op_y(op)] as int % 32,
            op_n(op),
        );
        crate::draw::lemma_draw_sprite_pointwise(
            DrawState { video: s1.video, flag: 0 },
            s1.memory,
            s1.index as int,
            s1.registers[op_x(op)] as int % 64,
            s1.registers[op_y(op)] as int % 32,
            op_n(op),
        );
    }
}

} // verus!
