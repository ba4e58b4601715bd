//! The x86-64 opcode bytes the encoder selects from.

use vstd::prelude::*;

verus! {

/// Namespace for the opcode bytes of the supported instruction forms.
pub struct Opcode;

impl Opcode {
    /// Register-to-register move.
    pub const MOV_REG_REG: u32 = 0x89;

    /// Move of a one-byte constant into a register; the register id is
    /// or-ed into the low bits.
    pub const MOV_REG_CONST_B1: u32 = 0xb0;

    /// Move of a two-, four- or eight-byte constant into a register; the
    /// register id is or-ed into the low bits.
    pub const MOV_REG_CONST_B248: u32 = 0xb8;

    /// Move of a four-byte sign-extended constant into an eight-byte
    /// register, with a ModRM byte.
    pub const MOV_REG_CONST_B8: u32 = 0xc7;

    /// Push of a register; the register id is or-ed into the low bits.
    pub const PUSH_REG: u32 = 0x50;

    /// Push of a one-byte sign-extended immediate.
    pub const PUSH_CONST_B1: u32 = 0x6a;

    /// Push of a four-byte sign-extended immediate.
    pub const PUSH_CONST_B4: u32 = 0x68;

    /// Pop into a register; the register id is or-ed into the low bits.
    pub const POP_REG: u32 = 0x58;

    /// Eight-byte register-to-register add.
    pub const ADD_REG_REG_B8: u32 = 0x01;

    /// Return; a single opcode byte with no operands.
    pub const RET: u32 = 0xc3;
}

} // verus!
