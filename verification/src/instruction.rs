//! The x86-64 instruction model: registers, operands, and the pure encoders
//! that turn one abstract instruction into its canonical byte-producing
//! record.
//!
//! All register/operand-size encoding rules live here. Each instruction form
//! exposes a pure `build` returning the `AssemblyInstruction` record, or the
//! exact error the operand combination deserves; nothing is encoded when an
//! operand combination is refused.

use vstd::prelude::*;

use crate::decimal::spec_digits;
use crate::decimal::u64_to_string;
use crate::opcode::Opcode;
use crate::VmError;

verus! {

/// An operand width, in bytes.
#[derive(Debug, Copy, Clone, PartialEq, Eq, Structural)]
pub enum Size {
    Byte1,
    Byte2,
    Byte3,
    Byte4,
    Byte8,
}

impl Size {
    /// How many bytes this width covers.
    pub open spec fn byte_len(self) -> int {
        match self {
            Size::Byte1 => 1,
            Size::Byte2 => 2,
            Size::Byte3 => 3,
            Size::Byte4 => 4,
            Size::Byte8 => 8,
        }
    }

    /// The assembly-listing name of the width.
    pub open spec fn spec_name(self) -> Seq<char> {
        match self {
            Size::Byte1 => "byte"@,
            Size::Byte2 => "word"@,
            Size::Byte3 => "Byte3"@,
            Size::Byte4 => "dword"@,
            Size::Byte8 => "qword"@,
        }
    }

    pub fn to_string(&self) -> (r: String)
        ensures
            r@ == self.spec_name(),
    {
        let s: &str = match self {
            Size::Byte1 => "byte",
            Size::Byte2 => "word",
            Size::Byte3 => "Byte3",
            Size::Byte4 => "dword",
            Size::Byte8 => "qword",
        };
        s.to_owned()
    }
}

/// A general-purpose register: `id` selects one of eight registers within a
/// file, `sub_id` selects the legacy (`0`) or the REX.B-extended (`1`) file,
/// and `size` is the operand width the register is used at.
#[derive(Debug, Copy, Clone, PartialEq, Eq, Structural)]
pub struct Register {
    pub id: u8,
    pub sub_id: u8,
    pub size: Size,
}

/// The ModRM byte for addressing mode `m`, register field `reg` and
/// register/memory field `rm`.
pub open spec fn spec_modrm(m: u8, reg: u8, rm: u8) -> u8 {
    (m << 6) | (reg << 3) | rm
}

/// Whether the register names a spot in one of the two eight-register files
/// at a width the encoder knows; only then does it have a printable name.
pub open spec fn register_ok(r: Register) -> bool {
    r.id < 8 && r.sub_id < 2 && r.size != Size::Byte3
}

impl Register {
    pub fn new(id: u8, sub_id: u8, size: Size) -> (r: Register)
        ensures
            r == (Register { id, sub_id, size }),
    {
        Register { id, sub_id, size }
    }

    /// The four prefix variants of this register's file, indexed by
    /// operation width class: one-byte, two-byte, four-byte, eight-byte.
    pub open spec fn spec_prefixes(self) -> Seq<Option<(u32, Size)>> {
        if self.sub_id == 0 {
            seq![
                None,
                Some((0x66u32, Size::Byte1)),
                None,
                Some((0x48u32, Size::Byte1)),
            ]
        } else {
            seq![
                Some((0x41u32, Size::Byte1)),
                Some((0x4166u32, Size::Byte2)),
                Some((0x41u32, Size::Byte1)),
                Some((0x49u32, Size::Byte1)),
            ]
        }
    }

    /// The operand-size and REX prefix table of this register's file.
    pub fn prefixes(&self) -> (r: [Option<(u32, Size)>; 4])
        requires
            self.sub_id < 2,
        ensures
            r@ == self.spec_prefixes(),
    {
        if self.sub_id == 0 {
            [None, Some((0x66u32, Size::Byte1)), None, Some((0x48u32, Size::Byte1))]
        } else {
            [
                Some((0x41u32, Size::Byte1)),
                Some((0x4166u32, Size::Byte2)),
                Some((0x41u32, Size::Byte1)),
                Some((0x49u32, Size::Byte1)),
            ]
        }
    }

    /// `mode << 6 | reg << 3 | rm`, truncated to one byte.
    pub fn encode_modrm(m: u8, reg: u8, rm: u8) -> (r: u8)
        ensures
            r == spec_modrm(m, reg, rm),
    {
        m << 6 | reg << 3 | rm
    }

    /// The assembly name of the register, decided by width, file and id.
    pub open spec fn spec_reg_name(self) -> Seq<char> {
        match self.size {
            Size::Byte8 => if self.sub_id == 0 {
                if self.id == 0 {
                    "RAX"@
                } else if self.id == 1 {
                    "RCX"@
                } else if self.id == 2 {
                    "RDX"@
                } else if self.id == 3 {
                    "RBX"@
                } else if self.id == 4 {
                    "RSP"@
                } else if self.id == 5 {
                    "RBP"@
                } else if self.id == 6 {
                    "RSI"@
                } else {
                    "RDI"@
                }
            } else {
                if self.id == 0 {
                    "R8"@
                } else if self.id == 1 {
                    "R9"@
                } else if self.id == 2 {
                    "R10"@
                } else if self.id == 3 {
                    "R11"@
                } else if self.id == 4 {
                    "R12"@
                } else if self.id == 5 {
                    "R13"@
                } else if self.id == 6 {
                    "R14"@
                } else {
                    "R15"@
                }
            },
            Size::Byte4 => if self.sub_id == 0 {
                if self.id == 0 {
                    "EAX"@
                } else if self.id == 1 {
                    "ECX"@
                } else if self.id == 2 {
                    "EDX"@
                } else if self.id == 3 {
                    "EBX"@
                } else if self.id == 4 {
                    "ESP"@
                } else if self.id == 5 {
                    "EBP"@
                } else if self.id == 6 {
                    "ESI"@
                } else {
                    "EDI"@
                }
            } else {
                if self.id == 0 {
                    "R8D"@
                } else if self.id == 1 {
                    "R9D"@
                } else if self.id == 2 {
                    "R10D"@
                } else if self.id == 3 {
                    "R11D"@
                } else if self.id == 4 {
                    "R12D"@
                } else if self.id == 5 {
                    "R13D"@
                } else if self.id == 6 {
                    "R14D"@
                } else {
                    "R15D"@
                }
            },
            Size::Byte2 => if self.sub_id == 0 {
                if self.id == 0 {
                    "AX"@
                } else if self.id == 1 {
                    "CX"@
                } else if self.id == 2 {
                    "DX"@
                } else if self.id == 3 {
                    "BX"@
                } else if self.id == 4 {
                    "SP"@
                } else if self.id == 5 {
                    "BP"@
                } else if self.id == 6 {
                    "SI"@
                } else {
                    "DI"@
                }
            } else {
                if self.id == 0 {
                    "R8W"@
                } else if self.id == 1 {
                    "R9W"@
                } else if self.id == 2 {
                    "R10W"@
                } else if self.id == 3 {
                    "R11W"@
                } else if self.id == 4 {
                    "R12W"@
                } else if self.id == 5 {
                    "R13W"@
                } else if self.id == 6 {
                    "R14W"@
                } else {
                    "R15W"@
                }
            },
            Size::Byte1 => if self.sub_id == 0 {
                if self.id == 0 {
                    "AL"@
                } else if self.id == 1 {
                    "CL"@
                } else if self.id == 2 {
                    "DL"@
                } else if self.id == 3 {
                    "BL"@
                } else if self.id == 4 {
                    "SPL"@
                } else if self.id == 5 {
                    "BPL"@
                } else if self.id == 6 {
                    "SIL"@
                } else {
                    "DIL"@
                }
            } else {
                if self.id == 0 {
                    "R8B"@
                } else if self.id == 1 {
                    "R9B"@
                } else if self.id == 2 {
                    "R10B"@
                } else if self.id == 3 {
                    "R11B"@
                } else if self.id == 4 {
                    "R12B"@
                } else if self.id == 5 {
                    "R13B"@
                } else if self.id == 6 {
                    "R14B"@
                } else {
                    "R15B"@
                }
            },
            Size::Byte3 => Seq::<char>::empty(),
        }
    }

    pub fn to_string(&self) -> (r: String)
        requires
            register_ok(*self),
        ensures
            r@ == self.spec_reg_name(),
    {
        let s: &str = match self.size {
            Size::Byte8 => if self.sub_id == 0 {
                if self.id == 0 {
                    "RAX"
                } else if self.id == 1 {
                    "RCX"
                } else if self.id == 2 {
                    "RDX"
                } else if self.id == 3 {
                    "RBX"
                } else if self.id == 4 {
                    "RSP"
                } else if self.id == 5 {
                    "RBP"
                } else if self.id == 6 {
                    "RSI"
                } else {
                    "RDI"
                }
            } else {
                if self.id == 0 {
                    "R8"
                } else if self.id == 1 {
                    "R9"
                } else if self.id == 2 {
                    "R10"
                } else if self.id == 3 {
                    "R11"
                } else if self.id == 4 {
                    "R12"
                } else if self.id == 5 {
                    "R13"
                } else if self.id == 6 {
                    "R14"
                } else {
                    "R15"
                }
            },
            Size::Byte4 => if self.sub_id == 0 {
                if self.id == 0 {
                    "EAX"
                } else if self.id == 1 {
                    "ECX"
                } else if self.id == 2 {
                    "EDX"
                } else if self.id == 3 {
                    "EBX"
                } else if self.id == 4 {
                    "ESP"
                } else if self.id == 5 {
                    "EBP"
                } else if self.id == 6 {
                    "ESI"
                } else {
                    "EDI"
                }
            } else {
                if self.id == 0 {
                    "R8D"
                } else if self.id == 1 {
                    "R9D"
                } else if self.id == 2 {
                    "R10D"
                } else if self.id == 3 {
                    "R11D"
                } else if self.id == 4 {
                    "R12D"
                } else if self.id == 5 {
                    "R13D"
                } else if self.id == 6 {
                    "R14D"
                } else {
                    "R15D"
                }
            },
            Size::Byte2 => if self.sub_id == 0 {
                if self.id == 0 {
                    "AX"
                } else if self.id == 1 {
                    "CX"
                } else if self.id == 2 {
                    "DX"
                } else if self.id == 3 {
                    "BX"
                } else if self.id == 4 {
                    "SP"
                } else if self.id == 5 {
                    "BP"
                } else if self.id == 6 {
                    "SI"
                } else {
                    "DI"
                }
            } else {
                if self.id == 0 {
                    "R8W"
                } else if self.id == 1 {
                    "R9W"
                } else if self.id == 2 {
                    "R10W"
                } else if self.id == 3 {
                    "R11W"
                } else if self.id == 4 {
                    "R12W"
                } else if self.id == 5 {
                    "R13W"
                } else if self.id == 6 {
                    "R14W"
                } else {
                    "R15W"
                }
            },
            Size::Byte1 => if self.sub_id == 0 {
                if self.id == 0 {
                    "AL"
                } else if self.id == 1 {
                    "CL"
                } else if self.id == 2 {
                    "DL"
                } else if self.id == 3 {
                    "BL"
                } else if self.id == 4 {
                    "SPL"
                } else if self.id == 5 {
                    "BPL"
                } else if self.id == 6 {
                    "SIL"
                } else {
                    "DIL"
                }
            } else {
                if self.id == 0 {
                    "R8B"
                } else if self.id == 1 {
                    "R9B"
                } else if self.id == 2 {
                    "R10B"
                } else if self.id == 3 {
                    "R11B"
                } else if self.id == 4 {
                    "R12B"
                } else if self.id == 5 {
                    "R13B"
                } else if self.id == 6 {
                    "R14B"
                } else {
                    "R15B"
                }
            },
            Size::Byte3 => "",
        };
        s.to_owned()
    }
}

/// An instruction operand. Only the register-direct and constant forms are
/// exercised end-to-end; the indirect and absolute forms are declared
/// extension points, refused by every encoder that meets one.
#[derive(Debug, Copy, Clone)]
pub enum Operand {
    Register(Register),
    RegisterAddress((Register, i32, Size)),
    Address((u64, i32, Size)),
    Constant((u64, Size)),
}

/// The encoded form of one machine instruction: exactly the fields relevant
/// to the instruction are populated, each a `(value, width)` pair except the
/// single-byte ModRM and SIB fields.
#[derive(Debug, Copy, Clone, PartialEq)]
pub struct AssemblyInstruction {
    pub legacy_prefix: Option<(u32, Size)>,
    pub prefix: Option<(u32, Size)>,
    pub opcode: (u32, Size),
    pub modrm: Option<u8>,
    pub sib: Option<u8>,
    pub displacement: Option<(u64, Size)>,
    pub immediate: Option<(u64, Size)>,
}

impl AssemblyInstruction {
    /// An empty record: no prefixes, a zero one-byte opcode, and no
    /// operand fields.
    pub open spec fn spec_default() -> AssemblyInstruction {
        AssemblyInstruction {
            legacy_prefix: None,
            prefix: None,
            opcode: (0u32, Size::Byte1),
            modrm: None,
            sib: None,
            displacement: None,
            immediate: None,
        }
    }
}

impl Default for AssemblyInstruction {
    fn default() -> (d: Self)
        ensures
            d == AssemblyInstruction::spec_default(),
    {
        AssemblyInstruction {
            legacy_prefix: None,
            prefix: None,
            opcode: (0u32, Size::Byte1),
            modrm: None,
            sib: None,
            displacement: None,
            immediate: None,
        }
    }
}

/// One abstract machine instruction: it can state the record it encodes to,
/// and print itself for the assembly listing.
pub trait Instruction {
    /// The record this instruction encodes to, or the error its operand
    /// combination deserves.
    spec fn spec_build(&self) -> Result<AssemblyInstruction, VmError>;

    /// Whether the instruction has a printable listing line.
    spec fn displayable(&self) -> bool;

    /// The listing line of the instruction.
    spec fn spec_display(&self) -> Seq<char>;

    fn build(&self) -> (r: Result<AssemblyInstruction, VmError>)
        ensures
            r == self.spec_build(),
    ;

    fn to_string(&self) -> (r: String)
        requires
            self.displayable(),
        ensures
            r@ == self.spec_display(),
    ;
}

/// The listing name of an operand standing in a register position: the
/// register's name, or silence for the unimplemented addressing forms.
pub open spec fn spec_reg_operand_name(op: Operand) -> Seq<char> {
    match op {
        Operand::Register(r) => r.spec_reg_name(),
        _ => Seq::<char>::empty(),
    }
}

/// An operand in a register position prints only if any register it holds is
/// well formed and it is not a constant.
pub open spec fn reg_operand_displayable(op: Operand) -> bool {
    match op {
        Operand::Register(r) => register_ok(r),
        Operand::Constant(_) => false,
        _ => true,
    }
}

/// Appends the listing name of a register-position operand to `out`.
fn append_reg_operand(out: &mut String, op: &Operand)
    requires
        reg_operand_displayable(*op),
    ensures
        final(out)@ == old(out)@ + spec_reg_operand_name(*op),
{
    match op {
        Operand::Register(r) => {
            let name = r.to_string();
            out.append(name.as_str());
        },
        _ => {
            proof {
                assert(out@ =~= out@ + Seq::<char>::empty());
            }
        },
    }
}

#[derive(Debug, Copy, Clone)]
pub struct MovInstruction {
    pub src: Operand,
    pub dst: Operand,
}

#[derive(Debug, Copy, Clone)]
pub struct AddInstruction {
    pub src: Operand,
    pub dst: Operand,
}

#[derive(Debug, Copy, Clone)]
pub struct SubInstruction {
    pub src: Operand,
    pub dst: Operand,
}

#[derive(Debug, Copy, Clone)]
pub struct PushInstruction {
    pub op: Operand,
}

#[derive(Debug, Copy, Clone)]
pub struct PopInstruction {
    pub op: Operand,
}

#[derive(Debug, Copy, Clone)]
pub struct RetInstruction;

impl Instruction for MovInstruction {
    /// A register-to-register move encodes as opcode `0x89` with a
    /// register-direct ModRM. A constant source selects the opcode family by
    /// destination width, with the four-byte-immediate-into-eight-byte
    /// destination special case encoding as `0xc7` plus ModRM.
    open spec fn spec_build(&self) -> Result<AssemblyInstruction, VmError> {
        match self.dst {
            Operand::Register(d) => if d.sub_id >= 2 {
                Err(VmError::InvalidRegisterVariant)
            } else {
                match self.src {
                    Operand::Register(s) => Ok(
                        AssemblyInstruction {
                            legacy_prefix: None,
                            prefix: None,
                            opcode: (Opcode::MOV_REG_REG, Size::Byte1),
                            modrm: Some(spec_modrm(3, s.id, d.id)),
                            sib: None,
                            displacement: None,
                            immediate: None,
                        },
                    ),
                    Operand::Constant((value, size)) => if !(size == Size::Byte4 && d.size
                        == Size::Byte8) && size != d.size {
                        Err(VmError::OperandSizeMismatch)
                    } else {
                        match d.size {
                            Size::Byte1 => Ok(
                                AssemblyInstruction {
                                    legacy_prefix: None,
                                    prefix: d.spec_prefixes()[0],
                                    opcode: (Opcode::MOV_REG_CONST_B1 | d.id as u32, Size::Byte1),
                                    modrm: None,
                                    sib: None,
                                    displacement: None,
                                    immediate: Some((value, size)),
                                },
                            ),
                            Size::Byte2 => Ok(
                                AssemblyInstruction {
                                    legacy_prefix: None,
                                    prefix: d.spec_prefixes()[1],
                                    opcode: (Opcode::MOV_REG_CONST_B248 | d.id as u32, Size::Byte1),
                                    modrm: None,
                                    sib: None,
                                    displacement: None,
                                    immediate: Some((value, size)),
                                },
                            ),
                            Size::Byte4 => Ok(
                                AssemblyInstruction {
                                    legacy_prefix: None,
                                    prefix: d.spec_prefixes()[2],
                                    opcode: (Opcode::MOV_REG_CONST_B248 | d.id as u32, Size::Byte1),
                                    modrm: None,
                                    sib: None,
                                    displacement: None,
                                    immediate: Some((value, size)),
                                },
                            ),
                            Size::Byte8 => if size == Size::Byte8 {
                                Ok(
                                    AssemblyInstruction {
                                        legacy_prefix: None,
                                        prefix: d.spec_prefixes()[3],
                                        opcode: (
                                            Opcode::MOV_REG_CONST_B248 | d.id as u32,
                                            Size::Byte1,
                                        ),
                                        modrm: None,
                                        sib: None,
                                        displacement: None,
                                        immediate: Some((value, size)),
                                    },
                                )
                            } else {
                                Ok(
                                    AssemblyInstruction {
                                        legacy_prefix: None,
                                        prefix: d.spec_prefixes()[3],
                                        opcode: (Opcode::MOV_REG_CONST_B8, Size::Byte1),
                                        modrm: Some(spec_modrm(3, 0, d.id)),
                                        sib: None,
                                        displacement: None,
                                        immediate: Some((value, size)),
                                    },
                                )
                            },
                            Size::Byte3 => Err(VmError::OperandSizeMismatch),
                        }
                    },
                    _ => Err(VmError::UnsupportedAddressingMode),
                }
            },
            Operand::Constant(_) => Err(VmError::ConstantDestination),
            _ => Err(VmError::UnsupportedAddressingMode),
        }
    }

    open spec fn displayable(&self) -> bool {
        reg_operand_displayable(self.dst) && reg_operand_displayable(self.src)
    }

    open spec fn spec_display(&self) -> Seq<char> {
        "mov "@ + spec_reg_operand_name(self.dst) + ", "@ + spec_reg_operand_name(self.src)
    }

    fn build(&self) -> (r: Result<AssemblyInstruction, VmError>) {
        match &self.dst {
            Operand::Register(d) => {
                if d.sub_id >= 2 {
                    return Err(VmError::InvalidRegisterVariant);
                }
                let prefixes = d.prefixes();
                match &self.src {
                    Operand::Register(s) => Ok(
                        AssemblyInstruction {
                            legacy_prefix: None,
                            prefix: None,
                            opcode: (Opcode::MOV_REG_REG, Size::Byte1),
                            modrm: Some(Register::encode_modrm(3, s.id, d.id)),
                            sib: None,
                            displacement: None,
                            immediate: None,
                        },
                    ),
                    Operand::Constant((value, size)) => {
                        if !(*size == Size::Byte4 && d.size == Size::Byte8) && *size != d.size {
                            return Err(VmError::OperandSizeMismatch);
                        }
                        match d.size {
                            Size::Byte1 => Ok(
                                AssemblyInstruction {
                                    legacy_prefix: None,
                                    prefix: prefixes[0],
                                    opcode: (Opcode::MOV_REG_CONST_B1 | d.id as u32, Size::Byte1),
                                    modrm: None,
                                    sib: None,
                                    displacement: None,
                                    immediate: Some((*value, *size)),
                                },
                            ),
                            Size::Byte2 => Ok(
                                AssemblyInstruction {
                                    legacy_prefix: None,
                                    prefix: prefixes[1],
                                    opcode: (Opcode::MOV_REG_CONST_B248 | d.id as u32, Size::Byte1),
                                    modrm: None,
                                    sib: None,
                                    displacement: None,
                                    immediate: Some((*value, *size)),
                                },
                            ),
                            Size::Byte4 => Ok(
                                AssemblyInstruction {
                                    legacy_prefix: None,
                                    prefix: prefixes[2],
                                    opcode: (Opcode::MOV_REG_CONST_B248 | d.id as u32, Size::Byte1),
                                    modrm: None,
                                    sib: None,
                                    displacement: None,
                                    immediate: Some((*value, *size)),
                                },
                            ),
                            Size::Byte8 => {
                                if *size == Size::Byte8 {
                                    Ok(
                                        AssemblyInstruction {
                                            legacy_prefix: None,
                                            prefix: prefixes[3],
                                            opcode: (
                                                Opcode::MOV_REG_CONST_B248 | d.id as u32,
                                                Size::Byte1,
                                            ),
                                            modrm: None,
                                            sib: None,
                                            displacement: None,
                                            immediate: Some((*value, *size)),
                                        },
                                    )
                                } else {
                                    Ok(
                                        AssemblyInstruction {
                                            legacy_prefix: None,
                                            prefix: prefixes[3],
                                            opcode: (Opcode::MOV_REG_CONST_B8, Size::Byte1),
                                            modrm: Some(Register::encode_modrm(3, 0, d.id)),
                                            sib: None,
                                            displacement: None,
                                            immediate: Some((*value, *size)),
                                        },
                                    )
                                }
                            },
                            Size::Byte3 => Err(VmError::OperandSizeMismatch),
                        }
                    },
                    _ => Err(VmError::UnsupportedAddressingMode),
                }
            },
            Operand::Constant(_) => Err(VmError::ConstantDestination),
            _ => Err(VmError::UnsupportedAddressingMode),
        }
    }

    fn to_string(&self) -> (r: String) {
        let mut result = "mov ".to_owned();
        append_reg_operand(&mut result, &self.dst);
        result.append(", ");
        append_reg_operand(&mut result, &self.src);
        result
    }
}

impl Instruction for RetInstruction {
    /// Encodes as the single opcode byte `0xc3` with no operands.
    open spec fn spec_build(&self) -> Result<AssemblyInstruction, VmError> {
        Ok(
            AssemblyInstruction {
                legacy_prefix: None,
                prefix: None,
                opcode: (Opcode::RET, Size::Byte1),
                modrm: None,
                sib: None,
                displacement: None,
                immediate: None,
            },
        )
    }

    open spec fn displayable(&self) -> bool {
        true
    }

    open spec fn spec_display(&self) -> Seq<char> {
        "ret"@
    }

    fn build(&self) -> (r: Result<AssemblyInstruction, VmError>) {
        Ok(
            AssemblyInstruction {
                legacy_prefix: None,
                prefix: None,
                opcode: (Opcode::RET, Size::Byte1),
                modrm: None,
                sib: None,
                displacement: None,
                immediate: None,
            },
        )
    }

    fn to_string(&self) -> (r: String) {
        "ret".to_owned()
    }
}

impl Instruction for PushInstruction {
    /// A register push encodes as `0x50 + id`, with the REX.B prefix exactly
    /// when the register lives in the extended file. A constant push selects
    /// the one-byte-immediate opcode for a one-byte width and the four-byte
    /// form for widths up to four bytes; there is no eight-byte
    /// push-immediate form, so that width is refused.
    open spec fn spec_build(&self) -> Result<AssemblyInstruction, VmError> {
        match self.op {
            Operand::Register(r) => if r.sub_id == 0 {
                Ok(
                    AssemblyInstruction {
                        legacy_prefix: None,
                        prefix: None,
                        opcode: (Opcode::PUSH_REG | r.id as u32, Size::Byte1),
                        modrm: None,
                        sib: None,
                        displacement: None,
                        immediate: None,
                    },
                )
            } else if r.sub_id == 1 {
                Ok(
                    AssemblyInstruction {
                        legacy_prefix: None,
                        prefix: r.spec_prefixes()[3],
                        opcode: (Opcode::PUSH_REG | r.id as u32, Size::Byte1),
                        modrm: None,
                        sib: None,
                        displacement: None,
                        immediate: None,
                    },
                )
            } else {
                Err(VmError::InvalidRegisterVariant)
            },
            Operand::Constant((val, size)) => match size {
                Size::Byte1 => Ok(
                    AssemblyInstruction {
                        legacy_prefix: None,
                        prefix: None,
                        opcode: (Opcode::PUSH_CONST_B1, Size::Byte1),
                        modrm: None,
                        sib: None,
                        displacement: None,
                        immediate: Some((val, Size::Byte1)),
                    },
                ),
                Size::Byte8 => Err(VmError::OperandSizeMismatch),
                _ => Ok(
                    AssemblyInstruction {
                        legacy_prefix: None,
                        prefix: None,
                        opcode: (Opcode::PUSH_CONST_B4, Size::Byte1),
                        modrm: None,
                        sib: None,
                        displacement: None,
                        immediate: Some((val, Size::Byte4)),
                    },
                ),
            },
            _ => Err(VmError::UnsupportedAddressingMode),
        }
    }

    open spec fn displayable(&self) -> bool {
        match self.op {
            Operand::Register(r) => register_ok(r),
            _ => true,
        }
    }

    open spec fn spec_display(&self) -> Seq<char> {
        match self.op {
            Operand::Register(r) => "push "@ + r.spec_reg_name(),
            Operand::Constant((val, size)) => "push "@ + spec_digits(val as nat) + " ; "@
                + size.spec_name(),
            _ => "push "@,
        }
    }

    fn build(&self) -> (r: Result<AssemblyInstruction, VmError>) {
        match &self.op {
            Operand::Register(r) => {
                if r.sub_id == 0 {
                    Ok(
                        AssemblyInstruction {
                            legacy_prefix: None,
                            prefix: None,
                            opcode: (Opcode::PUSH_REG | r.id as u32, Size::Byte1),
                            modrm: None,
                            sib: None,
                            displacement: None,
                            immediate: None,
                        },
                    )
                } else if r.sub_id == 1 {
                    let prefixes = r.prefixes();
                    Ok(
                        AssemblyInstruction {
                            legacy_prefix: None,
                            prefix: prefixes[3],
                            opcode: (Opcode::PUSH_REG | r.id as u32, Size::Byte1),
                            modrm: None,
                            sib: None,
                            displacement: None,
                            immediate: None,
                        },
                    )
                } else {
                    Err(VmError::InvalidRegisterVariant)
                }
            },
            Operand::Constant((val, size)) => match size {
                Size::Byte1 => Ok(
                    AssemblyInstruction {
                        legacy_prefix: None,
                        prefix: None,
                        opcode: (Opcode::PUSH_CONST_B1, Size::Byte1),
                        modrm: None,
                        sib: None,
                        displacement: None,
                        immediate: Some((*val, Size::Byte1)),
                    },
                ),
                Size::Byte8 => Err(VmError::OperandSizeMismatch),
                _ => Ok(
                    AssemblyInstruction {
                        legacy_prefix: None,
                        prefix: None,
                        opcode: (Opcode::PUSH_CONST_B4, Size::Byte1),
                        modrm: None,
                        sib: None,
                        displacement: None,
                        immediate: Some((*val, Size::Byte4)),
                    },
                ),
            },
            _ => Err(VmError::UnsupportedAddressingMode),
        }
    }

    fn to_string(&self) -> (r: String) {
        let mut result = "push ".to_owned();
        match &self.op {
            Operand::Register(r) => {
                let name = r.to_string();
                result.append(name.as_str());
            },
            Operand::Constant((val, size)) => {
                let digits = u64_to_string(*val);
                result.append(digits.as_str());
                result.append(" ; ");
                let size_name = size.to_string();
                result.append(size_name.as_str());
            },
            _ => {
                proof {
                    assert(result@ =~= result@ + Seq::<char>::empty());
                }
            },
        }
        result
    }
}

impl Instruction for PopInstruction {
    /// A register pop encodes as `0x58 + id`, with the REX.B prefix exactly
    /// when the register lives in the extended file; nothing else can be
    /// popped into.
    open spec fn spec_build(&self) -> Result<AssemblyInstruction, VmError> {
        match self.op {
            Operand::Register(r) => if r.sub_id == 0 {
                Ok(
                    AssemblyInstruction {
                        legacy_prefix: None,
                        prefix: None,
                        opcode: (Opcode::POP_REG | r.id as u32, Size::Byte1),
                        modrm: None,
                        sib: None,
                        displacement: None,
                        immediate: None,
                    },
                )
            } else if r.sub_id == 1 {
                Ok(
                    AssemblyInstruction {
                        legacy_prefix: None,
                        prefix: r.spec_prefixes()[3],
                        opcode: (Opcode::POP_REG | r.id as u32, Size::Byte1),
                        modrm: None,
                        sib: None,
                        displacement: None,
                        immediate: None,
                    },
                )
            } else {
                Err(VmError::InvalidRegisterVariant)
            },
            Operand::Constant(_) => Err(VmError::ConstantDestination),
            _ => Err(VmError::UnsupportedAddressingMode),
        }
    }

    open spec fn displayable(&self) -> bool {
        reg_operand_displayable(self.op)
    }

    open spec fn spec_display(&self) -> Seq<char> {
        "pop "@ + spec_reg_operand_name(self.op)
    }

    fn build(&self) -> (r: Result<AssemblyInstruction, VmError>) {
        match &self.op {
            Operand::Register(r) => {
                if r.sub_id == 0 {
                    Ok(
                        AssemblyInstruction {
                            legacy_prefix: None,
                            prefix: None,
                            opcode: (Opcode::POP_REG | r.id as u32, Size::Byte1),
                            modrm: None,
                            sib: None,
                            displacement: None,
                            immediate: None,
                        },
                    )
                } else if r.sub_id == 1 {
                    let prefixes = r.prefixes();
                    Ok(
                        AssemblyInstruction {
                            legacy_prefix: None,
                            prefix: prefixes[3],
                            opcode: (Opcode::POP_REG | r.id as u32, Size::Byte1),
                            modrm: None,
                            sib: None,
                            displacement: None,
                            immediate: None,
                        },
                    )
                } else {
                    Err(VmError::InvalidRegisterVariant)
                }
            },
            Operand::Constant(_) => Err(VmError::ConstantDestination),
            _ => Err(VmError::UnsupportedAddressingMode),
        }
    }

    fn to_string(&self) -> (r: String) {
        let mut result = "pop ".to_owned();
        append_reg_operand(&mut result, &self.op);
        result
    }
}

impl Instruction for AddInstruction {
    /// An eight-byte register-to-register add encodes as opcode `0x01` with
    /// a REX.W prefix whose low bits carry both operands' files and a
    /// register-direct ModRM. Other widths and operand forms are refused.
    open spec fn spec_build(&self) -> Result<AssemblyInstruction, VmError> {
        match self.dst {
            Operand::Register(d) => if d.sub_id >= 2 {
                Err(VmError::InvalidRegisterVariant)
            } else {
                match self.src {
                    Operand::Register(s) => if d.size != s.size {
                        Err(VmError::OperandSizeMismatch)
                    } else {
                        match d.size {
                            Size::Byte8 => if s.sub_id >= 2 {
                                Err(VmError::InvalidRegisterVariant)
                            } else {
                                Ok(
                                    AssemblyInstruction {
                                        legacy_prefix: None,
                                        prefix: Some(
                                            (
                                                if d.sub_id == 0 {
                                                    if s.sub_id == 0 {
                                                        0x48u32
                                                    } else {
                                                        0x4cu32
                                                    }
                                                } else {
                                                    if s.sub_id == 0 {
                                                        0x49u32
                                                    } else {
                                                        0x4du32
                                                    }
                                                },
                                                Size::Byte1,
                                            ),
                                        ),
                                        opcode: (Opcode::ADD_REG_REG_B8, Size::Byte1),
                                        modrm: Some(spec_modrm(3, s.id, d.id)),
                                        sib: None,
                                        displacement: None,
                                        immediate: None,
                                    },
                                )
                            },
                            _ => Err(VmError::OperandSizeMismatch),
                        }
                    },
                    Operand::Constant(_) => Err(VmError::UnsupportedAddressingMode),
                    _ => Err(VmError::UnsupportedAddressingMode),
                }
            },
            Operand::Constant(_) => Err(VmError::ConstantDestination),
            _ => Err(VmError::UnsupportedAddressingMode),
        }
    }

    open spec fn displayable(&self) -> bool {
        reg_operand_displayable(self.dst) && reg_operand_displayable(self.src)
    }

    open spec fn spec_display(&self) -> Seq<char> {
        "add "@ + spec_reg_operand_name(self.dst) + ", "@ + spec_reg_operand_name(self.src)
    }

    fn build(&self) -> (r: Result<AssemblyInstruction, VmError>) {
        match &self.dst {
            Operand::Register(d) => {
                if d.sub_id >= 2 {
                    return Err(VmError::InvalidRegisterVariant);
                }
                match &self.src {
                    Operand::Register(s) => {
                        if d.size != s.size {
                            return Err(VmError::OperandSizeMismatch);
                        }
                        match d.size {
                            Size::Byte8 => {
                                let prefix_byte: u32 = if d.sub_id == 0 {
                                    if s.sub_id == 0 {
                                        0x48u32
                                    } else if s.sub_id == 1 {
                                        0x4cu32
                                    } else {
                                        return Err(VmError::InvalidRegisterVariant);
                                    }
                                } else {
                                    if s.sub_id == 0 {
                                        0x49u32
                                    } else if s.sub_id == 1 {
                                        0x4du32
                                    } else {
                                        return Err(VmError::InvalidRegisterVariant);
                                    }
                                };
                                Ok(
                                    AssemblyInstruction {
                                        legacy_prefix: None,
                                        prefix: Some((prefix_byte, Size::Byte1)),
                                        opcode: (Opcode::ADD_REG_REG_B8, Size::Byte1),
                                        modrm: Some(Register::encode_modrm(3, s.id, d.id)),
                                        sib: None,
                                        displacement: None,
                                        immediate: None,
                                    },
                                )
                            },
                            _ => Err(VmError::OperandSizeMismatch),
                        }
                    },
                    Operand::Constant(_) => Err(VmError::UnsupportedAddressingMode),
                    _ => Err(VmError::UnsupportedAddressingMode),
                }
            },
            Operand::Constant(_) => Err(VmError::ConstantDestination),
            _ => Err(VmError::UnsupportedAddressingMode),
        }
    }

    fn to_string(&self) -> (r: String) {
        let mut result = "add ".to_owned();
        append_reg_operand(&mut result, &self.dst);
        result.append(", ");
        append_reg_operand(&mut result, &self.src);
        result
    }
}

/// The closed instruction set the code generator emits, as a tagged union:
/// the set is small and enumerable, and a match over it is exhaustive.
#[derive(Debug, Copy, Clone)]
pub enum AbstractInstruction {
    Mov(MovInstruction),
    Add(AddInstruction),
    Push(PushInstruction),
    Pop(PopInstruction),
    Ret(RetInstruction),
}

impl Instruction for AbstractInstruction {
    open spec fn spec_build(&self) -> Result<AssemblyInstruction, VmError> {
        match self {
            AbstractInstruction::Mov(i) => i.spec_build(),
            AbstractInstruction::Add(i) => i.spec_build(),
            AbstractInstruction::Push(i) => i.spec_build(),
            AbstractInstruction::Pop(i) => i.spec_build(),
            AbstractInstruction::Ret(i) => i.spec_build(),
        }
    }

    open spec fn displayable(&self) -> bool {
        match self {
            AbstractInstruction::Mov(i) => i.displayable(),
            AbstractInstruction::Add(i) => i.displayable(),
            AbstractInstruction::Push(i) => i.displayable(),
            AbstractInstruction::Pop(i) => i.displayable(),
            AbstractInstruction::Ret(i) => i.displayable(),
        }
    }

    open spec fn spec_display(&self) -> Seq<char> {
        match self {
            AbstractInstruction::Mov(i) => i.spec_display(),
            AbstractInstruction::Add(i) => i.spec_display(),
            AbstractInstruction::Push(i) => i.spec_display(),
            AbstractInstruction::Pop(i) => i.spec_display(),
            AbstractInstruction::Ret(i) => i.spec_display(),
        }
    }

    fn build(&self) -> (r: Result<AssemblyInstruction, VmError>) {
        match self {
            AbstractInstruction::Mov(i) => i.build(),
            AbstractInstruction::Add(i) => i.build(),
            AbstractInstruction::Push(i) => i.build(),
            AbstractInstruction::Pop(i) => i.build(),
            AbstractInstruction::Ret(i) => i.build(),
        }
    }

    fn to_string(&self) -> (r: String) {
        match self {
            AbstractInstruction::Mov(i) => i.to_string(),
            AbstractInstruction::Add(i) => i.to_string(),
            AbstractInstruction::Push(i) => i.to_string(),
            AbstractInstruction::Pop(i) => i.to_string(),
            AbstractInstruction::Ret(i) => i.to_string(),
        }
    }
}

} // verus!
