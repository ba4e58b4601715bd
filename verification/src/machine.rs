//! A specification-level model of what the generated code does to the
//! native stack.
//!
//! The model covers exactly the instruction forms the generator emits —
//! constant pushes, pushes and pops of the two scratch registers, and the
//! eight-byte register add — with the sign-extension behaviour their
//! immediate encodings carry. The laws about compiled programs (a literal
//! lands on the stack, addition wraps, drop rebalances) are proved against
//! this model.

use vstd::prelude::*;

use crate::builtin::Builtin;
use crate::builtin::Number;
use crate::compiler::scratch_a;
use crate::compiler::scratch_c;
use crate::compiler::spec_builtin_ops;
use crate::compiler::spec_number_ops;
use crate::compiler::uint_push_size;
use crate::compiler::int_push_size;
use crate::instruction::AbstractInstruction;
use crate::instruction::Operand;
use crate::instruction::Size;

verus! {

/// The machine as the generated code observes it: the evaluation stack,
/// top last, and the two scratch registers of the calling convention.
pub struct MachineState {
    pub stack: Seq<u64>,
    pub rax: u64,
    pub rcx: u64,
}

/// Sign extension of the single immediate byte a one-byte push carries.
pub open spec fn sext8(b: u8) -> u64 {
    ((b as i8) as i64) as u64
}

/// Sign extension of the four immediate bytes a four-byte push carries.
pub open spec fn sext32(w: u32) -> u64 {
    ((w as i32) as i64) as u64
}

/// The 64-bit word a constant push of a given width leaves on the stack:
/// the kept low bytes of the value, sign-extended.
pub open spec fn push_image(v: u64, size: Size) -> u64 {
    match size {
        Size::Byte1 => sext8(v as u8),
        Size::Byte8 => v,
        _ => sext32(v as u32),
    }
}

/// One instruction's effect, where the model has something to say: an
/// operand outside the calling convention, a width the encoder refuses, or
/// a pop from an empty stack have none.
pub open spec fn step(st: MachineState, op: AbstractInstruction) -> Option<MachineState> {
    match op {
        AbstractInstruction::Push(p) => match p.op {
            Operand::Constant((v, size)) => if size == Size::Byte8 {
                None
            } else {
                Some(
                    MachineState {
                        stack: st.stack.push(push_image(v, size)),
                        rax: st.rax,
                        rcx: st.rcx,
                    },
                )
            },
            Operand::Register(r) => if r == scratch_a() {
                Some(MachineState { stack: st.stack.push(st.rax), rax: st.rax, rcx: st.rcx })
            } else if r == scratch_c() {
                Some(MachineState { stack: st.stack.push(st.rcx), rax: st.rax, rcx: st.rcx })
            } else {
                None
            },
            _ => None,
        },
        AbstractInstruction::Pop(p) => match p.op {
            Operand::Register(r) => if st.stack.len() == 0 {
                None
            } else if r == scratch_a() {
                Some(MachineState { stack: st.stack.drop_last(), rax: st.stack.last(), rcx: st.rcx })
            } else if r == scratch_c() {
                Some(MachineState { stack: st.stack.drop_last(), rax: st.rax, rcx: st.stack.last() })
            } else {
                None
            },
            _ => None,
        },
        AbstractInstruction::Add(a) => match (a.dst, a.src) {
            (Operand::Register(d), Operand::Register(s)) => if d == scratch_a() && s
                == scratch_c() {
                Some(
                    MachineState {
                        stack: st.stack,
                        rax: (st.rax + st.rcx) as u64,
                        rcx: st.rcx,
                    },
                )
            } else {
                None
            },
            _ => None,
        },
        _ => None,
    }
}

/// Running a sequence of instructions to completion: a return ends the
/// program with the current state.
pub open spec fn run(ops: Seq<AbstractInstruction>, st: MachineState) -> Option<MachineState>
    decreases ops.len(),
{
    if ops.len() == 0 {
        Some(st)
    } else if ops[0] matches AbstractInstruction::Ret(_) {
        Some(st)
    } else {
        match step(st, ops[0]) {
            None => None,
            Some(next) => run(ops.subrange(1, ops.len() as int), next),
        }
    }
}

/// Running a concatenation runs the pieces in order, provided the first
/// piece holds no return.
pub proof fn lemma_run_append(
    a: Seq<AbstractInstruction>,
    b: Seq<AbstractInstruction>,
    st: MachineState,
)
    requires
        forall|i: int|
            0 <= i < a.len() ==> !((#[trigger] a[i]) matches AbstractInstruction::Ret(_)),
    ensures
        run(a + b, st) == (match run(a, st) {
            None => None,
            Some(mid) => run(b, mid),
        }),
    decreases a.len(),
{
    if a.len() == 0 {
        assert(a + b =~= b);
    } else {
        assert((a + b)[0] == a[0]);
        match step(st, a[0]) {
            None => {},
            Some(next) => {
                let a1 = a.subrange(1, a.len() as int);
                assert((a + b).subrange(1, (a + b).len() as int) =~= a1 + b);
                assert forall|i: int| 0 <= i < a1.len() implies !((#[trigger] a1[i]) matches
                AbstractInstruction::Ret(_)) by {
                    assert(a1[i] == a[i + 1]);
                }
                lemma_run_append(a1, b, next);
            },
        }
    }
}

/// The machine word a compiled literal leaves on the stack.
pub open spec fn literal_value(num: Number) -> u64 {
    match num {
        Number::Uint(v) => v,
        Number::Int(v) => v as u64,
        Number::Ratio(_, _) => 0,
    }
}

/// The literals whose chosen push width reproduces them exactly: sign
/// extension of the kept immediate bytes gives the value back. An unsigned
/// literal whose top bit of the chosen width is set — 200, say — comes
/// back sign-extended instead.
pub open spec fn literal_exact(num: Number) -> bool {
    match num {
        Number::Uint(v) => v <= 127 || (256 <= v && v <= 0x7fff_ffff),
        Number::Int(v) => i32::MIN as i64 <= v && v <= i32::MAX as i64,
        Number::Ratio(_, _) => false,
    }
}

/// The push emitted for an exactly-representable literal leaves exactly
/// that literal's machine word on the stack.
pub proof fn lemma_push_image_exact(num: Number)
    requires
        literal_exact(num),
    ensures
        match num {
            Number::Uint(v) => push_image(v, uint_push_size(v)) == literal_value(num),
            Number::Int(v) => push_image(v as u64, int_push_size(v)) == literal_value(num),
            Number::Ratio(_, _) => true,
        },
{
    match num {
        Number::Uint(v) => {
            if v <= 127 {
                assert((((v as u8) as i8) as i64) as u64 == v) by (bit_vector)
                    requires
                        v <= 127,
                ;
            } else {
                assert((((v as u32) as i32) as i64) as u64 == v) by (bit_vector)
                    requires
                        256 <= v <= 0x7fff_ffff,
                ;
            }
        },
        Number::Int(v) => {
            if -128 <= v && v <= 127 {
                assert(((((v as u64) as u8) as i8) as i64) as u64 == v as u64) by (bit_vector)
                    requires
                        -128 <= v <= 127,
                ;
            } else {
                assert(((((v as u64) as u32) as i32) as i64) as u64 == v as u64) by (bit_vector)
                    requires
                        -0x8000_0000 <= v <= 0x7fff_ffff,
                ;
            }
        },
        Number::Ratio(_, _) => {},
    }
}

/// Stack-balance law: compiling a single exactly-representable literal
/// yields code that leaves the literal on top of an otherwise-unchanged
/// stack, with no other effect on the model state.
pub proof fn lemma_literal_stack_balance(num: Number, st: MachineState)
    requires
        literal_exact(num),
    ensures
        run(spec_number_ops(num), st) == Some(
            MachineState { stack: st.stack.push(literal_value(num)), rax: st.rax, rcx: st.rcx },
        ),
{
    let ops = spec_number_ops(num);
    lemma_push_image_exact(num);
    assert(ops.len() == 1);
    assert(ops.subrange(1, 1) =~= Seq::<AbstractInstruction>::empty());
    let target = MachineState {
        stack: st.stack.push(literal_value(num)),
        rax: st.rax,
        rcx: st.rcx,
    };
    match num {
        Number::Uint(v) => {
            let sz = uint_push_size(v);
            assert(sz != Size::Byte8);
            assert(step(st, ops[0]) == Some(target));
            assert(run(ops.subrange(1, 1), target) == Some(target));
        },
        Number::Int(v) => {
            let sz = int_push_size(v);
            assert(sz != Size::Byte8);
            assert(step(st, ops[0]) == Some(target));
            assert(run(ops.subrange(1, 1), target) == Some(target));
        },
        Number::Ratio(_, _) => {
            assert(false);
        },
    }
}

/// No return instruction hides in the code for a literal or an operator.
pub proof fn lemma_ops_ret_free(num: Number, b: Builtin)
    ensures
        forall|i: int|
            0 <= i < spec_number_ops(num).len() ==> !((#[trigger] spec_number_ops(num)[i]) matches
            AbstractInstruction::Ret(_)),
        forall|i: int|
            0 <= i < spec_builtin_ops(b).len() ==> !((#[trigger] spec_builtin_ops(b)[i]) matches
            AbstractInstruction::Ret(_)),
{
}

/// Addition correctness: compiling two exactly-representable literals and
/// the add word yields code that pushes their sum under two's-complement
/// wraparound — native addition overflow, not a trapping add.
pub proof fn lemma_addition_correct(na: Number, nb: Number, st: MachineState)
    requires
        literal_exact(na),
        literal_exact(nb),
    ensures
        ({
            let a = literal_value(na);
            let b = literal_value(nb);
            run(spec_number_ops(na) + spec_number_ops(nb) + spec_builtin_ops(Builtin::Add), st)
                == Some(
                MachineState {
                    stack: st.stack.push((a + b) as u64),
                    rax: (a + b) as u64,
                    rcx: b,
                },
            )
        }),
{
    let a = literal_value(na);
    let b = literal_value(nb);
    let pa = spec_number_ops(na);
    let pb = spec_number_ops(nb);
    let add_ops = spec_builtin_ops(Builtin::Add);
    lemma_ops_ret_free(na, Builtin::Add);
    lemma_ops_ret_free(nb, Builtin::Add);
    let st1 = MachineState { stack: st.stack.push(a), rax: st.rax, rcx: st.rcx };
    let st2 = MachineState { stack: st1.stack.push(b), rax: st.rax, rcx: st.rcx };
    lemma_literal_stack_balance(na, st);
    lemma_literal_stack_balance(nb, st1);
    lemma_run_append(pa, pb + add_ops, st);
    lemma_run_append(pb, add_ops, st1);
    assert(pa + pb + add_ops =~= pa + (pb + add_ops));
    // the four instructions of the add sequence, one step at a time
    let m1 = MachineState { stack: st2.stack.drop_last(), rax: st2.rax, rcx: st2.stack.last() };
    let m2 = MachineState { stack: m1.stack.drop_last(), rax: m1.stack.last(), rcx: m1.rcx };
    let m3 = MachineState { stack: m2.stack, rax: (m2.rax + m2.rcx) as u64, rcx: m2.rcx };
    let m4 = MachineState { stack: m3.stack.push(m3.rax), rax: m3.rax, rcx: m3.rcx };
    assert(st2.stack.last() == b);
    assert(st2.stack.drop_last() =~= st.stack.push(a));
    assert(m1.stack.last() == a);
    assert(m1.stack.drop_last() =~= st.stack);
    assert(step(st2, add_ops[0]) == Some(m1));
    assert(step(m1, add_ops[1]) == Some(m2));
    assert(step(m2, add_ops[2]) == Some(m3));
    assert(step(m3, add_ops[3]) == Some(m4));
    let t1 = add_ops.subrange(1, 4);
    let t2 = add_ops.subrange(2, 4);
    let t3 = add_ops.subrange(3, 4);
    assert(t1 == add_ops.subrange(1, add_ops.len() as int));
    assert(t1.subrange(1, t1.len() as int) =~= t2);
    assert(t1.subrange(1, t1.len() as int) == t2);
    assert(t2.subrange(1, t2.len() as int) =~= t3);
    assert(t2.subrange(1, t2.len() as int) == t3);
    assert(t3.subrange(1, t3.len() as int) =~= Seq::<AbstractInstruction>::empty());
    assert(t1[0] == add_ops[1]);
    assert(t2[0] == add_ops[2]);
    assert(t3[0] == add_ops[3]);
    assert(add_ops.len() == 4);
    assert(run(t3, m3) == Some(m4)) by {
        assert(step(m3, t3[0]) == Some(m4));
        assert(t3.subrange(1, t3.len() as int).len() == 0);
        assert(run(t3.subrange(1, t3.len() as int), m4) == Some(m4));
    }
    assert(run(t2, m2) == Some(m4)) by {
        assert(step(m2, t2[0]) == Some(m3));
        assert(t2.subrange(1, t2.len() as int) == t3);
        assert(run(t2.subrange(1, t2.len() as int), m3) == Some(m4));
    }
    assert(run(t1, m1) == Some(m4)) by {
        assert(step(m1, t1[0]) == Some(m2));
        assert(t1.subrange(1, t1.len() as int) == t2);
        assert(run(t1.subrange(1, t1.len() as int), m2) == Some(m4));
    }
    assert(run(add_ops, st2) == Some(m4)) by {
        assert(step(st2, add_ops[0]) == Some(m1));
        assert(add_ops.subrange(1, add_ops.len() as int) == t1);
        assert(run(add_ops.subrange(1, add_ops.len() as int), m1) == Some(m4));
    }
    assert(m4.stack =~= st.stack.push((a + b) as u64));
}

/// Drop effect: compiling a literal and the drop word leaves the
/// evaluation stack exactly as it was — one slot shallower than after the
/// push — with the dropped word only in the scratch register.
pub proof fn lemma_drop_effect(num: Number, st: MachineState)
    requires
        literal_exact(num),
    ensures
        run(spec_number_ops(num) + spec_builtin_ops(Builtin::Drop), st) == Some(
            MachineState { stack: st.stack, rax: literal_value(num), rcx: st.rcx },
        ),
{
    let v = literal_value(num);
    let ops_num = spec_number_ops(num);
    let ops_drop = spec_builtin_ops(Builtin::Drop);
    lemma_ops_ret_free(num, Builtin::Drop);
    let st1 = MachineState { stack: st.stack.push(v), rax: st.rax, rcx: st.rcx };
    lemma_literal_stack_balance(num, st);
    lemma_run_append(ops_num, ops_drop, st);
    let m1 = MachineState { stack: st1.stack.drop_last(), rax: st1.stack.last(), rcx: st.rcx };
    assert(step(st1, ops_drop[0]) == Some(m1));
    assert(ops_drop.subrange(1, 1) =~= Seq::<AbstractInstruction>::empty());
    assert(m1.stack =~= st.stack);
    assert(run(ops_drop.subrange(1, 1), m1) == Some(m1));
    assert(run(ops_drop, st1) == Some(m1));
    assert(m1 == MachineState { stack: st.stack, rax: v, rcx: st.rcx });
}

} // verus!
