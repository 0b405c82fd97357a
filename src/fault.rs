use vstd::prelude::*;

verus! {

/// Why a step (or a memory access) could not complete.
#[derive(Debug, Clone, Copy, PartialEq, Eq, Structural)]
pub enum Fault {
    /// The opcode / funct3 / funct7 combination has no defined semantics.
    IllegalInstruction,
    /// The accessed bytes do not all lie inside the memory window.
    OutOfBounds,
    /// An instruction fetch from an address that is not a multiple of 4.
    Misaligned,
    /// An access width other than 8, 16, 32 or 64 bits.
    UnsupportedWidth,
}

} // verus!
