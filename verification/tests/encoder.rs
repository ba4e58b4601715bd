use vm::instruction::AddInstruction;
use vm::instruction::Instruction;
use vm::instruction::MovInstruction;
use vm::instruction::Operand;
use vm::instruction::PopInstruction;
use vm::instruction::PushInstruction;
use vm::instruction::Register;
use vm::instruction::RetInstruction;
use vm::instruction::Size;
use vm::jit::Jitter;
use vm::VmError;

fn bytes_of<I: Instruction>(instr: I) -> Vec<u8> {
    let mut jitter = Jitter::new();
    jitter.write(instr).expect("instruction should encode");
    jitter.next
}

#[test]
fn size_names() {
    assert_eq!(Size::Byte1.to_string(), "byte");
    assert_eq!(Size::Byte2.to_string(), "word");
    assert_eq!(Size::Byte3.to_string(), "Byte3");
    assert_eq!(Size::Byte4.to_string(), "dword");
    assert_eq!(Size::Byte8.to_string(), "qword");
}

#[test]
fn register_names() {
    assert_eq!(Register::new(0, 0, Size::Byte8).to_string(), "RAX");
    assert_eq!(Register::new(1, 0, Size::Byte8).to_string(), "RCX");
    assert_eq!(Register::new(7, 1, Size::Byte8).to_string(), "R15");
    assert_eq!(Register::new(0, 0, Size::Byte4).to_string(), "EAX");
    assert_eq!(Register::new(6, 1, Size::Byte2).to_string(), "R14W");
    assert_eq!(Register::new(4, 0, Size::Byte1).to_string(), "SPL");
}

#[test]
fn modrm_packs_three_fields() {
    assert_eq!(Register::encode_modrm(3, 1, 0), 0xC8);
    assert_eq!(Register::encode_modrm(3, 0, 0), 0xC0);
    assert_eq!(Register::encode_modrm(3, 7, 7), 0xFF);
}

#[test]
fn prefix_tables() {
    let legacy = Register::new(0, 0, Size::Byte8).prefixes();
    assert_eq!(legacy[0], None);
    assert_eq!(legacy[1], Some((0x66, Size::Byte1)));
    assert_eq!(legacy[2], None);
    assert_eq!(legacy[3], Some((0x48, Size::Byte1)));
    let extended = Register::new(0, 1, Size::Byte8).prefixes();
    assert_eq!(extended[0], Some((0x41, Size::Byte1)));
    assert_eq!(extended[1], Some((0x4166, Size::Byte2)));
    assert_eq!(extended[3], Some((0x49, Size::Byte1)));
}

#[test]
fn ret_is_single_byte() {
    assert_eq!(bytes_of(RetInstruction), vec![0xC3]);
}

#[test]
fn mov_register_to_register() {
    let mov = MovInstruction {
        src: Operand::Register(Register::new(1, 0, Size::Byte8)),
        dst: Operand::Register(Register::new(0, 0, Size::Byte8)),
    };
    assert_eq!(bytes_of(mov), vec![0x89, 0xC8]);
}

#[test]
fn mov_byte_constant_into_byte_register() {
    let mov = MovInstruction {
        src: Operand::Constant((7, Size::Byte1)),
        dst: Operand::Register(Register::new(0, 0, Size::Byte1)),
    };
    assert_eq!(bytes_of(mov), vec![0xB0, 0x07]);
}

#[test]
fn mov_word_constant_carries_operand_size_prefix() {
    let mov = MovInstruction {
        src: Operand::Constant((5, Size::Byte2)),
        dst: Operand::Register(Register::new(0, 0, Size::Byte2)),
    };
    assert_eq!(bytes_of(mov), vec![0x66, 0xB8, 0x05, 0x00]);
}

#[test]
fn mov_word_constant_into_extended_register() {
    // operand-size prefix first, then the REX.B prefix for the extended file
    let mov = MovInstruction {
        src: Operand::Constant((5, Size::Byte2)),
        dst: Operand::Register(Register::new(0, 1, Size::Byte2)),
    };
    assert_eq!(bytes_of(mov), vec![0x66, 0x41, 0xB8, 0x05, 0x00]);
}

#[test]
fn mov_dword_constant_into_qword_register_uses_modrm_form() {
    // the four-byte-immediate-into-64-bit-register special case: opcode
    // 0xC7 with a ModRM byte and a sign-extended dword immediate
    let mov = MovInstruction {
        src: Operand::Constant((5, Size::Byte4)),
        dst: Operand::Register(Register::new(0, 0, Size::Byte8)),
    };
    assert_eq!(bytes_of(mov), vec![0x48, 0xC7, 0xC0, 0x05, 0x00, 0x00, 0x00]);
}

#[test]
fn mov_full_qword_constant_keeps_wide_immediate() {
    let mov = MovInstruction {
        src: Operand::Constant((0x1122334455667788, Size::Byte8)),
        dst: Operand::Register(Register::new(0, 0, Size::Byte8)),
    };
    assert_eq!(
        bytes_of(mov),
        vec![0x48, 0xB8, 0x88, 0x77, 0x66, 0x55, 0x44, 0x33, 0x22, 0x11]
    );
}

#[test]
fn mov_constant_destination_is_refused_without_encoding() {
    let mov = MovInstruction {
        src: Operand::Register(Register::new(0, 0, Size::Byte8)),
        dst: Operand::Constant((1, Size::Byte8)),
    };
    assert_eq!(mov.build(), Err(VmError::ConstantDestination));
    let mut jitter = Jitter::new();
    assert_eq!(jitter.write(mov), Err(VmError::ConstantDestination));
    assert!(jitter.next.is_empty());
}

#[test]
fn mov_size_mismatch_is_refused() {
    let mov = MovInstruction {
        src: Operand::Constant((1, Size::Byte2)),
        dst: Operand::Register(Register::new(0, 0, Size::Byte8)),
    };
    assert_eq!(mov.build(), Err(VmError::OperandSizeMismatch));
}

#[test]
fn push_small_constant_takes_byte_immediate() {
    let push = PushInstruction { op: Operand::Constant((5, Size::Byte1)) };
    assert_eq!(bytes_of(push), vec![0x6A, 0x05]);
}

#[test]
fn push_wide_constant_takes_dword_immediate() {
    // 1000 exceeds a signed byte, so the four-byte-immediate opcode is
    // selected
    let push = PushInstruction { op: Operand::Constant((1000, Size::Byte4)) };
    assert_eq!(bytes_of(push), vec![0x68, 0xE8, 0x03, 0x00, 0x00]);
}

#[test]
fn push_qword_constant_is_refused() {
    // the instruction set has no 64-bit push-immediate form
    let push = PushInstruction { op: Operand::Constant((1_000_000_000_000, Size::Byte8)) };
    assert_eq!(push.build(), Err(VmError::OperandSizeMismatch));
}

#[test]
fn push_and_pop_registers() {
    let push = PushInstruction { op: Operand::Register(Register::new(0, 0, Size::Byte8)) };
    assert_eq!(bytes_of(push), vec![0x50]);
    let pop = PopInstruction { op: Operand::Register(Register::new(1, 0, Size::Byte8)) };
    assert_eq!(bytes_of(pop), vec![0x59]);
}

#[test]
fn extended_registers_carry_rex_prefix() {
    let push = PushInstruction { op: Operand::Register(Register::new(0, 1, Size::Byte8)) };
    assert_eq!(bytes_of(push), vec![0x49, 0x50]);
    let pop = PopInstruction { op: Operand::Register(Register::new(1, 1, Size::Byte8)) };
    assert_eq!(bytes_of(pop), vec![0x49, 0x59]);
}

#[test]
fn pop_constant_is_refused() {
    let pop = PopInstruction { op: Operand::Constant((1, Size::Byte1)) };
    assert_eq!(pop.build(), Err(VmError::ConstantDestination));
}

#[test]
fn add_qword_registers() {
    let add = AddInstruction {
        src: Operand::Register(Register::new(1, 0, Size::Byte8)),
        dst: Operand::Register(Register::new(0, 0, Size::Byte8)),
    };
    assert_eq!(bytes_of(add), vec![0x48, 0x01, 0xC8]);
}

#[test]
fn add_rex_prefix_tracks_both_register_files() {
    let add = AddInstruction {
        src: Operand::Register(Register::new(2, 1, Size::Byte8)),
        dst: Operand::Register(Register::new(0, 0, Size::Byte8)),
    };
    assert_eq!(bytes_of(add), vec![0x4C, 0x01, 0xD0]);
    let add = AddInstruction {
        src: Operand::Register(Register::new(1, 0, Size::Byte8)),
        dst: Operand::Register(Register::new(3, 1, Size::Byte8)),
    };
    assert_eq!(bytes_of(add), vec![0x49, 0x01, 0xCB]);
}

#[test]
fn add_size_mismatch_is_refused() {
    let add = AddInstruction {
        src: Operand::Register(Register::new(1, 0, Size::Byte4)),
        dst: Operand::Register(Register::new(0, 0, Size::Byte8)),
    };
    assert_eq!(add.build(), Err(VmError::OperandSizeMismatch));
}

#[test]
fn add_invalid_register_variant_is_refused() {
    let add = AddInstruction {
        src: Operand::Register(Register::new(1, 0, Size::Byte8)),
        dst: Operand::Register(Register::new(0, 5, Size::Byte8)),
    };
    assert_eq!(add.build(), Err(VmError::InvalidRegisterVariant));
}

#[test]
fn unsupported_addressing_modes_are_refused() {
    let mov = MovInstruction {
        src: Operand::Address((0x1000, 0, Size::Byte8)),
        dst: Operand::Register(Register::new(0, 0, Size::Byte8)),
    };
    assert_eq!(mov.build(), Err(VmError::UnsupportedAddressingMode));
    let push = PushInstruction {
        op: Operand::RegisterAddress((Register::new(0, 0, Size::Byte8), 8, Size::Byte8)),
    };
    assert_eq!(push.build(), Err(VmError::UnsupportedAddressingMode));
}

#[test]
fn instruction_listing_text() {
    let mov = MovInstruction {
        src: Operand::Register(Register::new(1, 0, Size::Byte8)),
        dst: Operand::Register(Register::new(0, 0, Size::Byte8)),
    };
    assert_eq!(mov.to_string(), "mov RAX, RCX");
    let push = PushInstruction { op: Operand::Constant((1000, Size::Byte4)) };
    assert_eq!(push.to_string(), "push 1000 ; dword");
    let pop = PopInstruction { op: Operand::Register(Register::new(1, 0, Size::Byte8)) };
    assert_eq!(pop.to_string(), "pop RCX");
    assert_eq!(RetInstruction.to_string(), "ret");
}
