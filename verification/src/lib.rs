//! A verified CHIP-8 virtual machine: a byte-addressable memory, sixteen
//! general-purpose registers, a call stack, two countdown timers, a
//! monochrome framebuffer and a sixteen-key input surface, driven one
//! instruction per step by a host.

use vstd::prelude::*;

pub mod cpu;
pub mod draw;
pub mod laws;
pub mod machine;

pub use crate::machine::Emulator;
pub use crate::machine::MachineView;

verus! {

/// Width of the monochrome framebuffer in pixels.
pub const SCREEN_WIDTH: usize = 64;

/// Height of the monochrome framebuffer in pixels.
pub const SCREEN_HEIGHT: usize = 32;

/// A fault raised while loading a program or executing an instruction.
#[derive(Clone, Copy, Debug, PartialEq, Eq)]
pub enum Fault {
    /// A program longer than the memory region reserved for programs.
    ProgramTooLarge,
    /// A fetch or memory access past the end of the 4096-byte memory.
    OutOfBounds,
    /// A call when the stack already holds sixteen return addresses.
    StackOverflow,
    /// A return while the stack is empty.
    StackUnderflow,
    /// An instruction word that decodes to no known instruction,
    /// carrying the raw opcode for diagnostics.
    UnimplementedOpcode(u16),
}

} // verus!
