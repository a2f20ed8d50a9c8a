use vstd::prelude::*;

verus! {

/// The fatal conditions of the interpreter. None of them is recoverable at
/// the instruction level: the host may halt, reset or load another ROM.
#[derive(Debug, Clone, Copy, PartialEq, Eq, Structural)]
pub enum Chip8Error {
    /// The ROM does not fit in the user region of memory.
    RomTooLarge,
    /// A subroutine call with every stack slot in use.
    StackOverflow,
    /// A return with an empty call stack.
    StackUnderflow,
    /// An instruction fetch, sprite read or memory store outside the
    /// addressable (or, for stores, the writable) range.
    AddressOutOfRange,
    /// A key instruction naming a key outside `0x0..=0xF`.
    InvalidKey,
    /// The legacy native-routine call `0NNN`.
    NativeCall(u16),
    /// An opcode that no instruction decodes to.
    UnknownInstruction(u16),
}

} // verus!
