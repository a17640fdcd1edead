//! A verified CHIP-8 virtual machine core.
//!
//! The machine state (memory, registers, stack, timers, keypad, framebuffer)
//! is modelled by a ghost view, and every instruction of the fetch-decode-
//! execute cycle is specified as a mathematical step function that the
//! executable engine is proved to implement exactly.

pub mod draw;
pub mod laws;
pub mod machine;
pub mod state;
pub mod step;

use vstd::prelude::*;

verus! {

/// The machine faults instead of panicking: every way a cycle or a load can
/// go wrong is a variant here.
#[derive(Debug, Clone, Copy, PartialEq, Eq, Structural)]
pub enum Chip8Error {
    /// The program counter points past the end of memory, so no two-byte
    /// instruction word can be fetched.
    FetchOutOfBounds,
    /// The fetched opcode matches no instruction pattern.
    UnknownOpcode,
    /// A call was made with all sixteen stack slots in use.
    StackOverflow,
    /// A return was executed with an empty call stack.
    StackUnderflow,
    /// A memory-indexed instruction would touch an address past 0xFFF.
    MemoryOutOfBounds,
    /// Adding to the index register would exceed the 16-bit range.
    IndexOverflow,
    /// A keypad instruction named a key outside 0x0..=0xF.
    KeyOutOfRange,
    /// A program image larger than the memory above 0x200.
    RomTooLarge,
}

} // verus!
