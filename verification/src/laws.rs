//! Laws of the instruction set, proved once and for all over the step
//! function that `cycle` is proved to implement.

use vstd::prelude::*;
use crate::draw::{draw_sprite, lemma_draw_twice_restores, DrawState};
use crate::state::{lemma_op_fields, op_of, Chip8View, MEMORY_SIZE, STACK_SIZE};
use crate::step::step;

verus! {

/// After `6xkk`, register `x` holds exactly `kk` and no other register
/// changed, whatever the register and whatever the immediate.
pub proof fn lemma_load_immediate(s: Chip8View, rnd: u8)
    requires
        s.wf(),
        s.pc as int + 1 < MEMORY_SIZE,
        s.memory[s.pc as int] / 16 == 6,
    ensures
        step(s, rnd) is Ok,
        ({
            let t = step(s, rnd)->Ok_0;
            let x = s.memory[s.pc as int] % 16;
            let kk = s.memory[s.pc as int + 1];
            &&& t.registers[x as int] == kk
            &&& forall|r: int| 0 <= r < 16 && r != x ==> t.registers[r] == s.registers[r]
        }),
{
    lemma_op_fields(s.memory[s.pc as int], s.memory[s.pc as int + 1]);
}

/// `7xkk` adds modulo 256: register `x` ends at `(V[x] + kk) mod 256`, no
/// carry flag is produced, and no other register changed.
pub proof fn lemma_add_immediate(s: Chip8View, rnd: u8)
    requires
        s.wf(),
        s.pc as int + 1 < MEMORY_SIZE,
        s.memory[s.pc as int] / 16 == 7,
    ensures
        step(s, rnd) is Ok,
        ({
            let t = step(s, rnd)->Ok_0;
            let x = s.memory[s.pc as int] % 16;
            let kk = s.memory[s.pc as int + 1];
            &&& t.registers[x as int] == (s.registers[x as int] + kk) % 256
            &&& forall|r: int| 0 <= r < 16 && r != x ==> t.registers[r] == s.registers[r]
        }),
{
    lemma_op_fields(s.memory[s.pc as int], s.memory[s.pc as int + 1]);
}

/// `8xy4` leaves the carry flag at 1 exactly when the unsigned sum exceeds
/// 255, and register `x` at the sum modulo 256 regardless. The flag write
/// lands after the sum, so the law speaks of destinations other than the
/// flag register itself.
pub proof fn lemma_add_with_carry(s: Chip8View, rnd: u8)
    requires
        s.wf(),
        s.pc as int + 1 < MEMORY_SIZE,
        s.memory[s.pc as int] / 16 == 8,
        s.memory[s.pc as int + 1] % 16 == 4,
        s.memory[s.pc as int] % 16 != 15,
    ensures
        step(s, rnd) is Ok,
        ({
            let t = step(s, rnd)->Ok_0;
            let x = s.memory[s.pc as int] % 16;
            let y = s.memory[s.pc as int + 1] / 16;
            let sum = s.registers[x as int] + s.registers[y as int];
            &&& t.registers[15] == (if sum > 255 { 1u8 } else { 0u8 })
            &&& t.registers[x as int] == sum % 256
        }),
{
    lemma_op_fields(s.memory[s.pc as int], s.memory[s.pc as int + 1]);
}

/// `8xy5` leaves the borrow flag at 1 exactly when `V[x] > V[y]` held before
/// the subtraction, and register `x` at the difference modulo 256 regardless.
/// As with the carry, the law speaks of destinations other than the flag
/// register itself.
pub proof fn lemma_sub_with_borrow(s: Chip8View, rnd: u8)
    requires
        s.wf(),
        s.pc as int + 1 < MEMORY_SIZE,
        s.memory[s.pc as int] / 16 == 8,
        s.memory[s.pc as int + 1] % 16 == 5,
        s.memory[s.pc as int] % 16 != 15,
    ensures
        step(s, rnd) is Ok,
        ({
            let t = step(s, rnd)->Ok_0;
            let x = s.memory[s.pc as int] % 16;
            let y = s.memory[s.pc as int + 1] / 16;
            &&& t.registers[15] == (if s.registers[x as int] > s.registers[y as int] { 1u8 } else { 0u8 })
            &&& t.registers[x as int] == (s.registers[x as int] - s.registers[y as int]) % 256
        }),
{
    lemma_op_fields(s.memory[s.pc as int], s.memory[s.pc as int + 1]);
}

/// `00E0` zeroes every pixel of the framebuffer.
pub proof fn lemma_clear_screen(s: Chip8View, rnd: u8)
    requires
        s.wf(),
        s.pc as int + 1 < MEMORY_SIZE,
        s.memory[s.pc as int] == 0x00,
        s.memory[s.pc as int + 1] == 0xE0,
    ensures
        step(s, rnd) is Ok,
        step(s, rnd)->Ok_0.video.len() == 2048,
        forall|p: int| 0 <= p < 2048 ==> step(s, rnd)->Ok_0.video[p] == 0u8,
{
    lemma_op_fields(s.memory[s.pc as int], s.memory[s.pc as int + 1]);
    assert(op_of(0x00, 0xE0) == 0x00E0);
}

/// Call and return round-trip: `2nnn` pushes the address of the instruction
/// after itself, and a later `00EE` that finds that frame still on top of
/// the stack sets the program counter right back to it.
pub proof fn lemma_call_return(s: Chip8View, t: Chip8View, rnd1: u8, rnd2: u8)
    requires
        s.wf(),
        s.pc as int + 1 < MEMORY_SIZE,
        s.memory[s.pc as int] / 16 == 2,
        (s.sp as int) < STACK_SIZE,
        t.wf(),
        t.pc as int + 1 < MEMORY_SIZE,
        t.memory[t.pc as int] == 0x00,
        t.memory[t.pc as int + 1] == 0xEE,
        t.sp == s.sp + 1,
        t.stack[s.sp as int] == s.pc + 2,
    ensures
        step(s, rnd1) is Ok,
        step(s, rnd1)->Ok_0.sp == s.sp + 1,
        step(s, rnd1)->Ok_0.stack[s.sp as int] == s.pc + 2,
        step(t, rnd2) is Ok,
        step(t, rnd2)->Ok_0.sp == s.sp,
        step(t, rnd2)->Ok_0.pc == s.pc + 2,
{
    lemma_op_fields(s.memory[s.pc as int], s.memory[s.pc as int + 1]);
    lemma_op_fields(t.memory[t.pc as int], t.memory[t.pc as int + 1]);
    assert(op_of(0x00, 0xEE) == 0x00EE);
}

/// Drawing the same sprite at the same position twice in succession restores
/// the framebuffer exactly: the blit is an XOR, and every touched pixel is
/// touched once per draw. The two draw instructions stand back to back, with
/// register selectors other than the flag register, so the second reads the
/// same coordinates and sprite bytes as the first.
pub proof fn lemma_draw_twice_on_machine(s: Chip8View, rnd1: u8, rnd2: u8)
    requires
        s.wf(),
        s.pc as int + 3 < MEMORY_SIZE,
        s.memory[s.pc as int] / 16 == 0xD,
        s.memory[s.pc as int] % 16 != 15,
        s.memory[s.pc as int + 1] / 16 != 15,
        s.memory[s.pc as int + 2] == s.memory[s.pc as int],
        s.memory[s.pc as int + 3] == s.memory[s.pc as int + 1],
        s.memory[s.pc as int + 1] % 16 > 0 ==> s.index as int + (s.memory[s.pc as int + 1] % 16)
            <= MEMORY_SIZE,
    ensures
        step(s, rnd1) is Ok,
        ({
            let t1 = step(s, rnd1)->Ok_0;
            &&& step(t1, rnd2) is Ok
            &&& step(t1, rnd2)->Ok_0.video == s.video
        }),
{
    let b0 = s.memory[s.pc as int];
    let b1 = s.memory[s.pc as int + 1];
    lemma_op_fields(b0, b1);
    let x = (b0 % 16) as int;
    let y = (b1 / 16) as int;
    let n = (b1 % 16) as int;
    let x0 = s.registers[x] as int % 64;
    let y0 = s.registers[y] as int % 32;
    let ds1 = DrawState { video: s.video, flag: 0u8 };
    let d1 = draw_sprite(ds1, s.memory, s.index as int, x0, y0, n);
    crate::draw::lemma_draw_sprite_pointwise(ds1, s.memory, s.index as int, x0, y0, n);
    let t1 = step(s, rnd1)->Ok_0;
    assert(t1.video == d1.video);
    assert(t1.memory == s.memory);
    assert(t1.registers[x] == s.registers[x]);
    assert(t1.registers[y] == s.registers[y]);
    assert(t1.pc == s.pc + 2);
    lemma_op_fields(t1.memory[t1.pc as int], t1.memory[t1.pc as int + 1]);
    let ds2 = DrawState { video: d1.video, flag: 0u8 };
    let d2 = draw_sprite(ds2, t1.memory, t1.index as int, x0, y0, n);
    assert(step(t1, rnd2) is Ok);
    let t2 = step(t1, rnd2)->Ok_0;
    assert(t2.video == d2.video);
    lemma_draw_twice_restores(s.video, s.memory, s.index as int, x0, y0, n);
}

} // verus!
