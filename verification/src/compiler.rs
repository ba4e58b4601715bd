//! The code generator: a depth-first, left-to-right walk over the lowered
//! tree that emits abstract machine instructions implementing a native-stack
//! calling convention, and the registry of compiled units.
//!
//! The generator works purely from the tree plus a fixed scratch-register
//! assignment: two scratch registers for binary operators, no further
//! register allocation.

use vstd::prelude::*;

use crate::builtin::Builtin;
use crate::builtin::Number;
use crate::cfg::node_children;
use crate::cfg::node_wf;
use crate::cfg::nodes_wf;
use crate::cfg::CFG;
use crate::cfg::CFGNode;
use crate::cfg::CFGNodeId;
use crate::instruction::AbstractInstruction;
use crate::instruction::AddInstruction;
use crate::instruction::Instruction;
use crate::instruction::Operand;
use crate::instruction::PopInstruction;
use crate::instruction::PushInstruction;
use crate::instruction::Register;
use crate::instruction::RetInstruction;
use crate::instruction::Size;
use crate::jit::lemma_seq_add_assoc;
use crate::jit::ops_emit;
use crate::jit::ops_error;
use crate::jit::Jitter;
use crate::symbol::SymbolId;
use crate::VmError;

verus! {

/// Scratch register A of the calling convention: the eight-byte accumulator
/// register of the legacy file.
pub open spec fn scratch_a() -> Register {
    Register { id: 0, sub_id: 0, size: Size::Byte8 }
}

/// Scratch register C of the calling convention.
pub open spec fn scratch_c() -> Register {
    Register { id: 1, sub_id: 0, size: Size::Byte8 }
}

/// The narrowest push width able to represent an unsigned literal.
pub open spec fn uint_push_size(v: u64) -> Size {
    if v <= 255 {
        Size::Byte1
    } else if v <= u32::MAX as u64 {
        Size::Byte4
    } else {
        Size::Byte8
    }
}

/// The narrowest push width able to represent a signed literal.
pub open spec fn int_push_size(v: i64) -> Size {
    if i8::MIN as i64 <= v && v <= i8::MAX as i64 {
        Size::Byte1
    } else if i32::MIN as i64 <= v && v <= i32::MAX as i64 {
        Size::Byte4
    } else {
        Size::Byte8
    }
}

/// The instructions a literal node contributes: one push of the literal at
/// its narrowest representable width.
pub open spec fn spec_number_ops(num: Number) -> Seq<AbstractInstruction> {
    match num {
        Number::Uint(v) => seq![
            AbstractInstruction::Push(
                PushInstruction { op: Operand::Constant((v, uint_push_size(v))) },
            ),
        ],
        Number::Int(v) => seq![
            AbstractInstruction::Push(
                PushInstruction { op: Operand::Constant((v as u64, int_push_size(v))) },
            ),
        ],
        Number::Ratio(_, _) => Seq::<AbstractInstruction>::empty(),
    }
}

/// The instructions an operator node contributes, under the native-stack
/// calling convention.
pub open spec fn spec_builtin_ops(b: Builtin) -> Seq<AbstractInstruction> {
    match b {
        Builtin::Add => seq![
            AbstractInstruction::Pop(PopInstruction { op: Operand::Register(scratch_c()) }),
            AbstractInstruction::Pop(PopInstruction { op: Operand::Register(scratch_a()) }),
            AbstractInstruction::Add(
                AddInstruction {
                    src: Operand::Register(scratch_c()),
                    dst: Operand::Register(scratch_a()),
                },
            ),
            AbstractInstruction::Push(PushInstruction { op: Operand::Register(scratch_a()) }),
        ],
        Builtin::Drop => seq![
            AbstractInstruction::Pop(PopInstruction { op: Operand::Register(scratch_a()) }),
        ],
        _ => Seq::<AbstractInstruction>::empty(),
    }
}

/// Whether the subtree at `id` holds only constructs the generator
/// implements: scopes over ready children, integer literals, and the add
/// and drop operators.
pub open spec fn gen_ready(nodes: Seq<CFGNode>, id: int) -> bool
    decreases nodes.len() - id, 1int, 0int
        when 0 <= id < nodes.len() && nodes_wf(nodes)
{
    match nodes[id] {
        CFGNode::Root(_) => gen_list_ready(nodes, node_children(nodes[id]), id, 0),
        CFGNode::Scope { .. } => gen_list_ready(nodes, node_children(nodes[id]), id, 0),
        CFGNode::Number(num) => num matches Number::Uint(_) || num matches Number::Int(_),
        CFGNode::Builtin(b) => b matches Builtin::Add || b matches Builtin::Drop,
        _ => false,
    }
}

pub open spec fn gen_list_ready(
    nodes: Seq<CFGNode>,
    ids: Seq<CFGNodeId>,
    parent: int,
    k: int,
) -> bool
    decreases nodes.len() - parent, 0int, ids.len() - k
        when nodes_wf(nodes) && 0 <= parent < nodes.len() && ids == node_children(nodes[parent])
{
    if k < 0 || k >= ids.len() {
        true
    } else {
        gen_ready(nodes, ids[k] as int) && gen_list_ready(nodes, ids, parent, k + 1)
    }
}

/// The abstract instructions the subtree at `id` generates, in visitation
/// order.
pub open spec fn spec_gen(nodes: Seq<CFGNode>, id: int) -> Seq<AbstractInstruction>
    decreases nodes.len() - id, 1int, 0int
        when 0 <= id < nodes.len() && nodes_wf(nodes)
{
    match nodes[id] {
        CFGNode::Root(_) => spec_gen_list(nodes, node_children(nodes[id]), id, 0),
        CFGNode::Scope { .. } => spec_gen_list(nodes, node_children(nodes[id]), id, 0),
        CFGNode::Number(num) => spec_number_ops(num),
        CFGNode::Builtin(b) => spec_builtin_ops(b),
        _ => Seq::<AbstractInstruction>::empty(),
    }
}

pub open spec fn spec_gen_list(
    nodes: Seq<CFGNode>,
    ids: Seq<CFGNodeId>,
    parent: int,
    k: int,
) -> Seq<AbstractInstruction>
    decreases nodes.len() - parent, 0int, ids.len() - k
        when nodes_wf(nodes) && 0 <= parent < nodes.len() && ids == node_children(nodes[parent])
{
    if k < 0 || k >= ids.len() {
        Seq::<AbstractInstruction>::empty()
    } else {
        spec_gen(nodes, ids[k] as int) + spec_gen_list(nodes, ids, parent, k + 1)
    }
}

/// Every instruction the generator emits has a printable listing line:
/// pushes of constants, and pushes, pops and adds of the two well-formed
/// scratch registers.
pub proof fn lemma_gen_displayable(nodes: Seq<CFGNode>, id: int)
    requires
        nodes_wf(nodes),
        0 <= id < nodes.len(),
    ensures
        forall|i: int|
            0 <= i < spec_gen(nodes, id).len() ==> (#[trigger] spec_gen(nodes, id)[i]).displayable(),
    decreases nodes.len() - id, 1int, 0int,
{
    match nodes[id] {
        CFGNode::Root(_) => {
            lemma_gen_list_displayable(nodes, node_children(nodes[id]), id, 0);
            assert forall|i: int| 0 <= i < spec_gen(nodes, id).len() implies (
            #[trigger] spec_gen(nodes, id)[i]).displayable() by {
                assert(spec_gen(nodes, id)[i] == spec_gen_list(
                    nodes,
                    node_children(nodes[id]),
                    id,
                    0,
                )[i]);
            }
        },
        CFGNode::Scope { .. } => {
            lemma_gen_list_displayable(nodes, node_children(nodes[id]), id, 0);
            assert forall|i: int| 0 <= i < spec_gen(nodes, id).len() implies (
            #[trigger] spec_gen(nodes, id)[i]).displayable() by {
                assert(spec_gen(nodes, id)[i] == spec_gen_list(
                    nodes,
                    node_children(nodes[id]),
                    id,
                    0,
                )[i]);
            }
        },
        CFGNode::Number(num) => {
            let ops = spec_gen(nodes, id);
            assert forall|i: int| 0 <= i < ops.len() implies (#[trigger] ops[i]).displayable() by {
                assert(ops == spec_number_ops(num));
                assert(i == 0);
            }
        },
        CFGNode::Builtin(b) => {
            let ops = spec_gen(nodes, id);
            assert forall|i: int| 0 <= i < ops.len() implies (#[trigger] ops[i]).displayable() by {
                assert(ops == spec_builtin_ops(b));
                assert(crate::instruction::register_ok(scratch_a()));
                assert(crate::instruction::register_ok(scratch_c()));
            }
        },
        _ => {},
    }
}

pub proof fn lemma_gen_list_displayable(
    nodes: Seq<CFGNode>,
    ids: Seq<CFGNodeId>,
    parent: int,
    k: int,
)
    requires
        nodes_wf(nodes),
        0 <= parent < nodes.len(),
        ids == node_children(nodes[parent]),
        0 <= k,
    ensures
        forall|i: int|
            0 <= i < spec_gen_list(nodes, ids, parent, k).len() ==> (#[trigger] spec_gen_list(
                nodes,
                ids,
                parent,
                k,
            )[i]).displayable(),
    decreases nodes.len() - parent, 0int, ids.len() - k,
{
    if k < ids.len() {
        assert(node_wf(nodes[parent], parent, nodes.len() as int));
        assert(parent < ids[k] < nodes.len());
        lemma_gen_displayable(nodes, ids[k] as int);
        lemma_gen_list_displayable(nodes, ids, parent, k + 1);
        let head = spec_gen(nodes, ids[k] as int);
        let tail = spec_gen_list(nodes, ids, parent, k + 1);
        let whole = spec_gen_list(nodes, ids, parent, k);
        assert(whole == head + tail);
        assert forall|i: int| 0 <= i < whole.len() implies (#[trigger] whole[i]).displayable() by {
            if i < head.len() {
                assert(whole[i] == head[i]);
            } else {
                assert(whole[i] == tail[i - head.len()]);
            }
        }
    }
}

/// Appends the instructions for the subtree at `id` to `buffer`.
#[verifier::loop_isolation(false)]
pub(crate) fn generate_into(buffer: &mut Vec<AbstractInstruction>, tree: &CFG, id: &CFGNodeId)
    requires
        tree.wf(),
        *id < tree.spec_nodes().len(),
        gen_ready(tree.spec_nodes(), *id as int),
    ensures
        final(buffer)@ == old(buffer)@ + spec_gen(tree.spec_nodes(), *id as int),
    decreases tree.spec_nodes().len() - *id,
{
    let idx = *id;
    let ghost nodes = tree.spec_nodes();
    let mut branch: bool = false;
    let mut number: Option<Number> = None;
    let mut operator: Option<Builtin> = None;
    match tree.get(&idx) {
        Ok(node_ref) => match node_ref {
            CFGNode::Root(_) => {
                branch = true;
            },
            CFGNode::Scope { .. } => {
                branch = true;
            },
            CFGNode::Number(num) => {
                number = Some(*num);
            },
            CFGNode::Builtin(b) => {
                operator = Some(*b);
            },
            _ => {
                proof {
                    assert(false);
                }
            },
        },
        Err(_) => {
            proof {
                assert(false);
            }
        },
    }
    if branch {
        let list = tree.child_list(idx);
        let ghost children = node_children(nodes[idx as int]);
        let n = list.len();
        let mut k: usize = 0;
        proof {
            assert(node_wf(nodes[idx as int], idx as int, nodes.len() as int));
        }
        while k < n
            invariant
                0 <= k <= n,
                gen_list_ready(nodes, children, idx as int, k as int),
                old(buffer)@ + spec_gen_list(nodes, children, idx as int, 0) == buffer@
                    + spec_gen_list(nodes, children, idx as int, k as int),
            decreases n - k,
        {
            let child = list[k];
            let ghost before = buffer@;
            proof {
                assert(children[k as int] == child);
                assert(idx < child < nodes.len());
            }
            generate_into(buffer, tree, &child);
            proof {
                assert(spec_gen_list(nodes, children, idx as int, k as int) == spec_gen(
                    nodes,
                    child as int,
                ) + spec_gen_list(nodes, children, idx as int, k + 1));
                lemma_seq_add_assoc(
                    before,
                    spec_gen(nodes, child as int),
                    spec_gen_list(nodes, children, idx as int, k + 1),
                );
                lemma_seq_add_assoc(
                    before,
                    spec_gen(nodes, child as int) + spec_gen_list(
                        nodes,
                        children,
                        idx as int,
                        k + 1,
                    ),
                    Seq::<AbstractInstruction>::empty(),
                );
            }
            k = k + 1;
        }
        proof {
            assert(spec_gen_list(nodes, children, idx as int, n as int)
                == Seq::<AbstractInstruction>::empty());
            Seq::add_empty_right(buffer@, spec_gen_list(nodes, children, idx as int, n as int));
            assert(buffer@ == old(buffer)@ + spec_gen_list(nodes, children, idx as int, 0));
        }
    } else if let Some(num) = number {
        match num {
            Number::Uint(value) => {
                let size = if value <= 255u64 {
                    Size::Byte1
                } else if value <= 0xffff_ffffu64 {
                    Size::Byte4
                } else {
                    Size::Byte8
                };
                buffer.push(
                    AbstractInstruction::Push(
                        PushInstruction { op: Operand::Constant((value, size)) },
                    ),
                );
                proof {
                    assert(buffer@ =~= old(buffer)@ + spec_number_ops(num));
                }
            },
            Number::Int(value) => {
                let size = if -128i64 <= value && value <= 127i64 {
                    Size::Byte1
                } else if -2147483648i64 <= value && value <= 2147483647i64 {
                    Size::Byte4
                } else {
                    Size::Byte8
                };
                buffer.push(
                    AbstractInstruction::Push(
                        PushInstruction { op: Operand::Constant((value as u64, size)) },
                    ),
                );
                proof {
                    assert(buffer@ =~= old(buffer)@ + spec_number_ops(num));
                }
            },
            Number::Ratio(_, _) => {
                proof {
                    assert(false);
                }
            },
        }
    } else if let Some(b) = operator {
        match b {
            Builtin::Add => {
                buffer.push(
                    AbstractInstruction::Pop(
                        PopInstruction {
                            op: Operand::Register(Register::new(1, 0, Size::Byte8)),
                        },
                    ),
                );
                buffer.push(
                    AbstractInstruction::Pop(
                        PopInstruction {
                            op: Operand::Register(Register::new(0, 0, Size::Byte8)),
                        },
                    ),
                );
                buffer.push(
                    AbstractInstruction::Add(
                        AddInstruction {
                            src: Operand::Register(Register::new(1, 0, Size::Byte8)),
                            dst: Operand::Register(Register::new(0, 0, Size::Byte8)),
                        },
                    ),
                );
                buffer.push(
                    AbstractInstruction::Push(
                        PushInstruction {
                            op: Operand::Register(Register::new(0, 0, Size::Byte8)),
                        },
                    ),
                );
                proof {
                    assert(buffer@ =~= old(buffer)@ + spec_builtin_ops(b));
                }
            },
            Builtin::Drop => {
                buffer.push(
                    AbstractInstruction::Pop(
                        PopInstruction {
                            op: Operand::Register(Register::new(0, 0, Size::Byte8)),
                        },
                    ),
                );
                proof {
                    assert(buffer@ =~= old(buffer)@ + spec_builtin_ops(b));
                }
            },
            _ => {
                proof {
                    assert(false);
                }
            },
        }
    } else {
        proof {
            assert(false);
        }
    }
}

pub type CompilationUnitId = usize;

/// Where a compiled symbol lives: which unit, and at what byte offset.
#[derive(Debug, Copy, Clone)]
pub struct CompiledSymbol {
    pub compilation_unit: CompilationUnitId,
    pub offset: usize,
}

/// One compiled unit: its encoded bytes and the abstract instruction
/// listing they were encoded from. The executable region the bytes are
/// copied into is owned by the caller that performs the copy.
pub struct Compilation {
    pub opcodes: Vec<u8>,
    pub instructions: Vec<AbstractInstruction>,
}

/// The listing text of an instruction sequence, one line per instruction.
pub open spec fn spec_listing(ops: Seq<AbstractInstruction>, k: int) -> Seq<char>
    decreases ops.len() - k,
{
    if k < 0 || k >= ops.len() {
        Seq::<char>::empty()
    } else {
        ops[k].spec_display() + "\n"@ + spec_listing(ops, k + 1)
    }
}

impl Compilation {
    pub fn to_string(&self) -> (r: String)
        requires
            forall|i: int| 0 <= i < self.instructions@.len() ==> (
            #[trigger] self.instructions@[i]).displayable(),
        ensures
            r@ == spec_listing(self.instructions@, 0),
    {
        let mut buffer = String::new();
        let n = self.instructions.len();
        let mut k: usize = 0;
        while k < n
            invariant
                0 <= k <= n,
                n == self.instructions@.len(),
                forall|i: int| 0 <= i < n ==> (#[trigger] self.instructions@[i]).displayable(),
                spec_listing(self.instructions@, 0) == buffer@ + spec_listing(
                    self.instructions@,
                    k as int,
                ),
            decreases n - k,
        {
            let ghost before = buffer@;
            let line = self.instructions[k].to_string();
            buffer.append(line.as_str());
            buffer.append("\n");
            proof {
                let ops = self.instructions@;
                lemma_seq_add_assoc(before, ops[k as int].spec_display(), "\n"@);
                lemma_seq_add_assoc(
                    before,
                    ops[k as int].spec_display() + "\n"@,
                    spec_listing(ops, k + 1),
                );
                lemma_seq_add_assoc(
                    before + (ops[k as int].spec_display() + "\n"@),
                    spec_listing(ops, k + 1),
                    Seq::<char>::empty(),
                );
                assert(buffer@ == before + (ops[k as int].spec_display() + "\n"@));
            }
            k = k + 1;
        }
        proof {
            Seq::add_empty_right(buffer@, spec_listing(self.instructions@, n as int));
        }
        buffer
    }
}

/// The registry of compiled units, keyed by dense unit ids.
pub struct Compiler {
    #[allow(dead_code)]
    mappings: Vec<(SymbolId, CompiledSymbol)>,
    units: Vec<Compilation>,
}

impl Compiler {
    /// The units compiled so far, in id order.
    pub closed spec fn spec_units(self) -> Seq<Compilation> {
        self.units@
    }

    pub fn new() -> (c: Compiler)
        ensures
            c.spec_units().len() == 0,
    {
        Compiler { mappings: Vec::new(), units: Vec::new() }
    }

    /// The unit an id names; ids that were never allocated are a
    /// recoverable error.
    pub fn get(&self, id: &CompilationUnitId) -> (r: Result<&Compilation, VmError>)
        ensures
            match r {
                Ok(unit) => *id < self.spec_units().len() && *unit == self.spec_units()[*id as int],
                Err(e) => e == VmError::UnknownNode && *id >= self.spec_units().len(),
            },
    {
        if *id < self.units.len() {
            Ok(&self.units[*id])
        } else {
            Err(VmError::UnknownNode)
        }
    }

    /// Compiles the lowered subtree at `start` into a fresh unit: the
    /// generated instructions are encoded in order, a return is appended,
    /// and the unit is registered under the next dense id. An encoding
    /// error aborts the unit; nothing is registered and no bytes survive.
    pub fn compile(&mut self, tree: &CFG, start: CFGNodeId) -> (r: Result<CompilationUnitId,
        VmError,
    >)
        requires
            old(self).wf(),
            tree.wf(),
            start < tree.spec_nodes().len(),
            gen_ready(tree.spec_nodes(), start as int),
        ensures
            final(self).wf(),
            ({
                let ops = spec_gen(tree.spec_nodes(), start as int);
                let ops_full = ops.push(AbstractInstruction::Ret(RetInstruction));
                match r {
                    Ok(id) => {
                        &&& ops_error(ops_full, 0) is None
                        &&& id == old(self).spec_units().len()
                        &&& final(self).spec_units().len() == old(self).spec_units().len() + 1
                        &&& forall|i: int|
                            0 <= i < old(self).spec_units().len() ==> final(self).spec_units()[i]
                                == old(self).spec_units()[i]
                        &&& final(self).spec_units()[id as int].instructions@ == ops
                        &&& final(self).spec_units()[id as int].opcodes@ == ops_emit(ops_full, 0)
                    },
                    Err(e) => {
                        &&& ops_error(ops_full, 0) == Some(e)
                        &&& *final(self) == *old(self)
                    },
                }
            }),
    {
        let mut instructions: Vec<AbstractInstruction> = Vec::new();
        generate_into(&mut instructions, tree, &start);
        proof {
            Seq::add_empty_left(
                Seq::<AbstractInstruction>::empty(),
                spec_gen(tree.spec_nodes(), start as int),
            );
        }
        let mut jitter = Jitter::new();
        match jitter.write_all(&instructions) {
            Ok(()) => {},
            Err(e) => {
                proof {
                    crate::jit::lemma_ops_push(
                        instructions@,
                        AbstractInstruction::Ret(RetInstruction),
                        0,
                    );
                }
                return Err(e);
            },
        }
        match jitter.write(RetInstruction) {
            Ok(()) => {},
            Err(_) => {
                proof {
                    assert(false);
                }
                return Err(VmError::UnknownNode);
            },
        }
        proof {
            crate::jit::lemma_ops_push(instructions@, AbstractInstruction::Ret(RetInstruction), 0);
            assert(AbstractInstruction::Ret(RetInstruction).spec_build()
                == RetInstruction.spec_build());
        }
        let id = self.units.len();
        let compilation = Compilation { opcodes: jitter.next, instructions };
        self.units.push(compilation);
        proof {
            lemma_gen_displayable(tree.spec_nodes(), start as int);
            assert forall|u: int, i: int|
                0 <= u < self.spec_units().len() && 0 <= i
                    < self.spec_units()[u].instructions@.len() implies (
            #[trigger] self.spec_units()[u].instructions@[i]).displayable() by {
                if u < old(self).spec_units().len() {
                    assert(self.spec_units()[u] == old(self).spec_units()[u]);
                    assert((old(self).spec_units()[u].instructions@[i]).displayable());
                }
            }
        }
        Ok(id)
    }

    /// All registered units carry only displayable instructions.
    pub open spec fn wf(self) -> bool {
        forall|u: int, i: int|
            0 <= u < self.spec_units().len() && 0 <= i
                < self.spec_units()[u].instructions@.len() ==> (
            #[trigger] self.spec_units()[u].instructions@[i]).displayable()
    }
}

} // verus!
