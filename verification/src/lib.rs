use vstd::prelude::*;

pub mod builtin;
pub mod cfg;
pub mod compiler;
pub mod context;
pub mod decimal;
pub mod instruction;
pub mod jit;
pub mod lexer;
pub mod lower;
pub mod machine;
pub mod memory;
pub mod opcode;
pub mod sources;
pub mod symbol;
pub mod text;

verus! {

/// The error taxonomy of the compilation pipeline.
///
/// Compilation-stage errors abort the compilation of the unit that raised
/// them; no partial machine code is ever handed to the executable-memory
/// manager.
#[derive(Debug, Clone, Copy, PartialEq, Eq, Structural)]
pub enum VmError {
    /// A word resolves to nothing and is not a valid literal or operator.
    UnknownSymbol,
    /// A node id handed to `CFG::insert` does not name a `Scope` node.
    InvalidScope,
    /// A node id was never allocated in the tree arena.
    UnknownNode,
    /// Source and destination operand widths disagree and no implicit
    /// widening rule applies.
    OperandSizeMismatch,
    /// The operand uses an addressing mode the encoder does not support.
    UnsupportedAddressingMode,
    /// A constant was used as the destination of an instruction.
    ConstantDestination,
    /// A register carries a `sub_id` outside the two register files.
    InvalidRegisterVariant,
    /// The operating system refused the executable mapping.
    AllocationFailure,
    /// A write ran past the capacity of an executable region.
    RegionExhausted,
}

} // verus!
