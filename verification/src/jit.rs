//! Emission of encoded instruction records into a flat byte buffer.
//!
//! Byte order on emission is fixed: legacy prefix, REX-class prefix, opcode,
//! ModRM, SIB, displacement, immediate; multi-byte fields are written
//! little-endian, and a field is written only if it is present.

use vstd::prelude::*;

use crate::cfg::CFG;
use crate::cfg::CFGNodeId;
use crate::compiler::generate_into;
use crate::compiler::gen_ready;
use crate::compiler::spec_gen;
use crate::instruction::AbstractInstruction;
use crate::instruction::AssemblyInstruction;
use crate::instruction::Instruction;
use crate::instruction::RetInstruction;
use crate::instruction::Size;
use crate::VmError;

verus! {

/// The `n` low-order bytes of `value`, least significant first.
pub open spec fn le_bytes(value: u64, n: int) -> Seq<u8> {
    Seq::new(n as nat, |i: int| (value >> ((8 * i) as u64)) as u8)
}

/// The bytes of an optional `(value, width)` field.
pub open spec fn opt_field_bytes(f: Option<(u32, Size)>) -> Seq<u8> {
    match f {
        Some((value, size)) => le_bytes(value as u64, size.byte_len()),
        None => Seq::<u8>::empty(),
    }
}

/// The bytes of an optional wide `(value, width)` field.
pub open spec fn opt_wide_bytes(f: Option<(u64, Size)>) -> Seq<u8> {
    match f {
        Some((value, size)) => le_bytes(value, size.byte_len()),
        None => Seq::<u8>::empty(),
    }
}

/// The bytes of an optional single-byte field.
pub open spec fn opt_byte(b: Option<u8>) -> Seq<u8> {
    match b {
        Some(value) => seq![value],
        None => Seq::<u8>::empty(),
    }
}

/// The full byte image of one encoded instruction record.
pub open spec fn instr_bytes(a: AssemblyInstruction) -> Seq<u8> {
    opt_field_bytes(a.legacy_prefix) + opt_field_bytes(a.prefix) + le_bytes(
        a.opcode.0 as u64,
        a.opcode.1.byte_len(),
    ) + opt_byte(a.modrm) + opt_byte(a.sib) + opt_wide_bytes(a.displacement) + opt_wide_bytes(
        a.immediate,
    )
}

/// Concatenation of sequences is associative.
pub(crate) proof fn lemma_seq_add_assoc<A>(a: Seq<A>, b: Seq<A>, c: Seq<A>)
    ensures
        a + b + c == a + (b + c),
{
    assert(a + b + c =~= a + (b + c));
}

/// Accumulates the encoded bytes of a compilation unit.
pub struct Jitter {
    pub next: Vec<u8>,
}

impl Jitter {
    pub fn new() -> (j: Jitter)
        ensures
            j.next@ == Seq::<u8>::empty(),
    {
        Jitter { next: Vec::new() }
    }

    /// Appends the low `size` bytes of `value`, least significant first.
    pub fn write_sized(&mut self, value: u64, size: Size)
        ensures
            final(self).next@ == old(self).next@ + le_bytes(value, size.byte_len()),
    {
        match size {
            Size::Byte1 => {
                self.next.push((value >> 0u64) as u8);
            },
            Size::Byte2 => {
                self.next.push((value >> 0u64) as u8);
                self.next.push((value >> 8u64) as u8);
            },
            Size::Byte3 => {
                self.next.push((value >> 0u64) as u8);
                self.next.push((value >> 8u64) as u8);
                self.next.push((value >> 16u64) as u8);
            },
            Size::Byte4 => {
                self.next.push((value >> 0u64) as u8);
                self.next.push((value >> 8u64) as u8);
                self.next.push((value >> 16u64) as u8);
                self.next.push((value >> 24u64) as u8);
            },
            Size::Byte8 => {
                self.next.push((value >> 0u64) as u8);
                self.next.push((value >> 8u64) as u8);
                self.next.push((value >> 16u64) as u8);
                self.next.push((value >> 24u64) as u8);
                self.next.push((value >> 32u64) as u8);
                self.next.push((value >> 40u64) as u8);
                self.next.push((value >> 48u64) as u8);
                self.next.push((value >> 56u64) as u8);
            },
        }
        proof {
            assert(self.next@ =~= old(self).next@ + le_bytes(value, size.byte_len()));
        }
    }

    /// Appends every present field of one encoded record, in the fixed
    /// emission order.
    #[verifier::rlimit(50)]
    pub fn write_instruction(&mut self, instruction: AssemblyInstruction)
        ensures
            final(self).next@ == old(self).next@ + instr_bytes(instruction),
    {
        let AssemblyInstruction {
            legacy_prefix,
            prefix,
            opcode,
            modrm,
            sib,
            displacement,
            immediate,
        } = instruction;
        let ghost base = self.next@;
        if let Some((value, size)) = legacy_prefix {
            self.write_sized(value as u64, size);
        } else {
            proof {
                Seq::add_empty_right(base, opt_field_bytes(legacy_prefix));
            }
        }
        proof {
            assert(self.next@ == base + opt_field_bytes(legacy_prefix));
        }
        let ghost s1 = self.next@;
        if let Some((value, size)) = prefix {
            self.write_sized(value as u64, size);
        } else {
            proof {
                Seq::add_empty_right(s1, opt_field_bytes(prefix));
            }
        }
        proof {
            assert(self.next@ == s1 + opt_field_bytes(prefix));
        }
        self.write_sized(opcode.0 as u64, opcode.1);
        let ghost s3 = self.next@;
        if let Some(value) = modrm {
            self.next.push(value);
            proof {
                assert(self.next@ =~= s3 + opt_byte(modrm));
            }
        } else {
            proof {
                Seq::add_empty_right(s3, opt_byte(modrm));
            }
        }
        proof {
            assert(self.next@ == s3 + opt_byte(modrm));
        }
        let ghost s4 = self.next@;
        if let Some(value) = sib {
            self.next.push(value);
            proof {
                assert(self.next@ =~= s4 + opt_byte(sib));
            }
        } else {
            proof {
                Seq::add_empty_right(s4, opt_byte(sib));
            }
        }
        proof {
            assert(self.next@ == s4 + opt_byte(sib));
        }
        let ghost s5 = self.next@;
        if let Some((value, size)) = displacement {
            self.write_sized(value, size);
        } else {
            proof {
                Seq::add_empty_right(s5, opt_wide_bytes(displacement));
            }
        }
        proof {
            assert(self.next@ == s5 + opt_wide_bytes(displacement));
        }
        let ghost s6 = self.next@;
        if let Some((value, size)) = immediate {
            self.write_sized(value as u64, size);
        } else {
            proof {
                Seq::add_empty_right(s6, opt_wide_bytes(immediate));
            }
        }
        proof {
            assert(self.next@ == s6 + opt_wide_bytes(immediate));
            let a = opt_field_bytes(legacy_prefix);
            let b = opt_field_bytes(prefix);
            let o = le_bytes(opcode.0 as u64, opcode.1.byte_len());
            let m = opt_byte(modrm);
            let sb = opt_byte(sib);
            let d = opt_wide_bytes(displacement);
            let im = opt_wide_bytes(immediate);
            assert(self.next@ == base + a + b + o + m + sb + d + im);
            lemma_seq_add_assoc(base, a, b);
            lemma_seq_add_assoc(base, a + b, o);
            lemma_seq_add_assoc(base, a + b + o, m);
            lemma_seq_add_assoc(base, a + b + o + m, sb);
            lemma_seq_add_assoc(base, a + b + o + m + sb, d);
            lemma_seq_add_assoc(base, a + b + o + m + sb + d, im);
            assert(self.next@ == base + instr_bytes(instruction));
        }
    }

    /// Builds one abstract instruction and appends its bytes; on an encoding
    /// error nothing is appended.
    pub fn write<I: Instruction>(&mut self, instr: I) -> (r: Result<(), VmError>)
        ensures
            match instr.spec_build() {
                Ok(a) => r == Ok::<(), VmError>(()) && final(self).next@ == old(self).next@
                    + instr_bytes(a),
                Err(e) => r == Err::<(), VmError>(e) && final(self).next@ == old(self).next@,
            },
    {
        match instr.build() {
            Ok(a) => {
                self.write_instruction(a);
                Ok(())
            },
            Err(e) => Err(e),
        }
    }

    /// Builds and appends each instruction in order, stopping at the first
    /// encoding error; everything before the failing instruction has been
    /// appended.
    pub fn write_all(&mut self, ops: &Vec<AbstractInstruction>) -> (r: Result<(), VmError>)
        ensures
            final(self).next@ == old(self).next@ + ops_emit(ops@, 0),
            match r {
                Ok(_) => ops_error(ops@, 0) is None,
                Err(e) => ops_error(ops@, 0) == Some(e),
            },
    {
        let n = ops.len();
        let mut k: usize = 0;
        while k < n
            invariant
                0 <= k <= n,
                n == ops@.len(),
                ops_error(ops@, 0) == ops_error(ops@, k as int),
                old(self).next@ + ops_emit(ops@, 0) == self.next@ + ops_emit(ops@, k as int),
            decreases n - k,
        {
            let op = ops[k];
            let ghost before = self.next@;
            match self.write(op) {
                Ok(()) => {
                    proof {
                        let built = ops@[k as int].spec_build();
                        match built {
                            Ok(a) => {
                                lemma_seq_add_assoc(before, instr_bytes(a), ops_emit(ops@, k + 1));
                            },
                            Err(_) => {
                                assert(false);
                            },
                        }
                    }
                },
                Err(e) => {
                    proof {
                        assert(ops_emit(ops@, k as int) == Seq::<u8>::empty());
                        Seq::add_empty_right(self.next@, ops_emit(ops@, k as int));
                        assert(ops_error(ops@, k as int) == Some(e));
                    }
                    return Err(e);
                },
            }
            k = k + 1;
        }
        proof {
            assert(ops_emit(ops@, n as int) == Seq::<u8>::empty());
            Seq::add_empty_right(self.next@, ops_emit(ops@, n as int));
            assert(ops_error(ops@, n as int) is None);
        }
        Ok(())
    }

    /// Walks the lowered subtree at `node` and appends the encoded bytes of
    /// every instruction it generates, in visitation order.
    pub fn traverse_cfg(&mut self, cfg: &CFG, node: &CFGNodeId) -> (r: Result<(), VmError>)
        requires
            cfg.wf(),
            *node < cfg.spec_nodes().len(),
            gen_ready(cfg.spec_nodes(), *node as int),
        ensures
            final(self).next@ == old(self).next@ + ops_emit(
                spec_gen(cfg.spec_nodes(), *node as int),
                0,
            ),
            match r {
                Ok(_) => ops_error(spec_gen(cfg.spec_nodes(), *node as int), 0) is None,
                Err(e) => ops_error(spec_gen(cfg.spec_nodes(), *node as int), 0) == Some(e),
            },
    {
        let mut ops: Vec<AbstractInstruction> = Vec::new();
        generate_into(&mut ops, cfg, node);
        proof {
            Seq::add_empty_left(
                Seq::<AbstractInstruction>::empty(),
                spec_gen(cfg.spec_nodes(), *node as int),
            );
        }
        self.write_all(&ops)
    }

    /// Compiles the subtree at `start` from scratch: the buffer is reset,
    /// the subtree's instructions are encoded, and a return instruction
    /// terminates the generated function.
    pub fn compile_cfg(&mut self, cfg: &CFG, start: &CFGNodeId) -> (r: Result<(), VmError>)
        requires
            cfg.wf(),
            *start < cfg.spec_nodes().len(),
            gen_ready(cfg.spec_nodes(), *start as int),
        ensures
            ({
                let ops_full = spec_gen(cfg.spec_nodes(), *start as int).push(
                    AbstractInstruction::Ret(RetInstruction),
                );
                final(self).next@ == ops_emit(ops_full, 0) && (match r {
                    Ok(_) => ops_error(ops_full, 0) is None,
                    Err(e) => ops_error(ops_full, 0) == Some(e),
                })
            }),
    {
        self.next = Vec::new();
        let ghost ops = spec_gen(cfg.spec_nodes(), *start as int);
        let walked = self.traverse_cfg(cfg, start);
        if let Err(e) = walked {
            proof {
                lemma_ops_push(ops, AbstractInstruction::Ret(RetInstruction), 0);
                Seq::add_empty_left(Seq::<u8>::empty(), ops_emit(ops, 0));
            }
            return Err(e);
        }
        proof {
            assert(ops_error(ops, 0) is None);
            Seq::add_empty_left(Seq::<u8>::empty(), ops_emit(ops, 0));
        }
        match self.write(RetInstruction) {
            Ok(()) => {},
            Err(_) => {
                proof {
                    assert(false);
                }
                return Err(VmError::UnknownNode);
            },
        }
        proof {
            let tail = AbstractInstruction::Ret(RetInstruction);
            lemma_ops_push(ops, tail, 0);
            match tail.spec_build() {
                Ok(a) => {
                    assert(ops_error(ops.push(tail), 0) is None);
                    assert(ops_emit(ops.push(tail), 0) == ops_emit(ops, 0) + instr_bytes(a));
                    assert(self.next@ == ops_emit(ops, 0) + instr_bytes(a));
                },
                Err(_) => {
                    assert(false);
                },
            }
        }
        Ok(())
    }
}

/// Outcome of building every instruction of `ops` from position `k` on:
/// the first encoding error, if any.
pub open spec fn ops_error(ops: Seq<AbstractInstruction>, k: int) -> Option<VmError>
    decreases ops.len() - k,
{
    if k < 0 || k >= ops.len() {
        None
    } else {
        match ops[k].spec_build() {
            Err(e) => Some(e),
            Ok(_) => ops_error(ops, k + 1),
        }
    }
}

/// The bytes emitted for `ops` from position `k` on, up to the first
/// encoding error.
pub open spec fn ops_emit(ops: Seq<AbstractInstruction>, k: int) -> Seq<u8>
    decreases ops.len() - k,
{
    if k < 0 || k >= ops.len() {
        Seq::<u8>::empty()
    } else {
        match ops[k].spec_build() {
            Err(_) => Seq::<u8>::empty(),
            Ok(a) => instr_bytes(a) + ops_emit(ops, k + 1),
        }
    }
}

/// How appending one instruction extends the emitted bytes and the
/// emission outcome.
pub proof fn lemma_ops_push(ops: Seq<AbstractInstruction>, tail: AbstractInstruction, k: int)
    requires
        0 <= k <= ops.len(),
    ensures
        ops_error(ops, k) is None ==> ops_error(ops.push(tail), k) == (
        match tail.spec_build() {
            Ok(_) => None::<VmError>,
            Err(e) => Some(e),
        }),
        ops_error(ops, k) is None ==> ops_emit(ops.push(tail), k) == ops_emit(ops, k) + (
        match tail.spec_build() {
            Ok(a) => instr_bytes(a),
            Err(_) => Seq::<u8>::empty(),
        }),
        (ops_error(ops, k) matches Some(_)) ==> ops_error(ops.push(tail), k) == ops_error(
            ops,
            k,
        ) && ops_emit(ops.push(tail), k) == ops_emit(ops, k),
    decreases ops.len() - k,
{
    let opst = ops.push(tail);
    assert(opst.len() == ops.len() + 1);
    if k == ops.len() {
        assert(opst[k] == tail);
        assert(ops_emit(ops, k) == Seq::<u8>::empty());
        assert(ops_error(ops, k) is None);
        match tail.spec_build() {
            Ok(a) => {
                assert(ops_emit(opst, k + 1) == Seq::<u8>::empty());
                Seq::add_empty_right(instr_bytes(a), ops_emit(opst, k + 1));
                Seq::add_empty_left(ops_emit(ops, k), instr_bytes(a));
            },
            Err(_) => {
                Seq::add_empty_right(ops_emit(ops, k), Seq::<u8>::empty());
            },
        }
    } else {
        assert(opst[k] == ops[k]);
        lemma_ops_push(ops, tail, k + 1);
        match ops[k].spec_build() {
            Ok(a) => {
                if ops_error(ops, k + 1) is None {
                    match tail.spec_build() {
                        Ok(at) => {
                            lemma_seq_add_assoc(
                                instr_bytes(a),
                                ops_emit(ops, k + 1),
                                instr_bytes(at),
                            );
                        },
                        Err(_) => {
                            Seq::add_empty_right(ops_emit(ops, k + 1), Seq::<u8>::empty());
                            Seq::add_empty_right(ops_emit(ops, k), Seq::<u8>::empty());
                        },
                    }
                }
            },
            Err(_) => {
            },
        }
    }
}

} // verus!
