//! The compilation context: one symbol table, one scope tree, one compiled-
//! unit registry, driven through the whole pipeline — tokens in, an encoded
//! compilation unit out.
//!
//! Everything is owned by the context and used by exclusive reference
//! during a compilation; execution is single-threaded and synchronous end
//! to end.

use vstd::prelude::*;

use crate::builtin::lemma_operator_round_trip;
use crate::builtin::Builtin;
use crate::builtin::Number;
use crate::cfg::node_children;
use crate::cfg::spec_dump;
use crate::cfg::node_wf;
use crate::cfg::nodes_wf;
use crate::cfg::CFG;
use crate::cfg::CFGNode;
use crate::cfg::CFGNodeId;
use crate::cfg::InsertCFGNode;
use crate::compiler::gen_list_ready;
use crate::compiler::gen_ready;
use crate::compiler::spec_builtin_ops;
use crate::compiler::spec_gen;
use crate::compiler::spec_gen_list;
use crate::compiler::spec_number_ops;
use crate::compiler::Compilation;
use crate::compiler::CompilationUnitId;
use crate::compiler::Compiler;
use crate::instruction::AbstractInstruction;
use crate::instruction::RetInstruction;
use crate::jit::lemma_seq_add_assoc;
use crate::jit::ops_emit;
use crate::jit::ops_error;
use crate::lexer::drop_spaces;
use crate::lexer::first_word_end;
use crate::lexer::lemma_split_words_count;
use crate::lexer::split_words;
use crate::lexer::Lexer;
use crate::lexer::Word;
use crate::lower::in_subtree;
use crate::machine::lemma_addition_correct;
use crate::machine::lemma_drop_effect;
use crate::machine::lemma_literal_stack_balance;
use crate::machine::lemma_ops_ret_free;
use crate::machine::lemma_run_append;
use crate::machine::literal_exact;
use crate::machine::literal_value;
use crate::machine::run;
use crate::machine::MachineState;
use crate::lower::lower_node;
use crate::lower::spec_lowered;
use crate::lower::symbols_valid;
use crate::sources::SourceSource;
use crate::sources::Sources;
use crate::symbol::Symbol;
use crate::symbol::SymbolId;
use crate::symbol::SymbolKind;
use crate::symbol::SymbolStorage;
use crate::VmError;

verus! {

/// What a source word means, if anything.
pub open spec fn word_builtin(w: Seq<char>) -> Option<Builtin> {
    Builtin::spec_from_str(w)
}

/// The instructions a builtin contributes when compiled.
pub open spec fn builtin_ops(b: Builtin) -> Seq<AbstractInstruction> {
    match b {
        Builtin::Number(n) => spec_number_ops(n),
        _ => spec_builtin_ops(b),
    }
}

/// Whether the generator implements a builtin: integer literals, add and
/// drop.
pub open spec fn builtin_ready(b: Builtin) -> bool {
    match b {
        Builtin::Number(n) => n matches Number::Uint(_) || n matches Number::Int(_),
        Builtin::Add => true,
        Builtin::Drop => true,
        _ => false,
    }
}

/// The instructions one source word contributes.
pub open spec fn word_ops(w: Seq<char>) -> Seq<AbstractInstruction> {
    match word_builtin(w) {
        Some(b) => builtin_ops(b),
        None => Seq::<AbstractInstruction>::empty(),
    }
}

/// The instructions of the words from position `k` on, in order.
pub open spec fn words_ops(ws: Seq<Seq<char>>, k: int) -> Seq<AbstractInstruction>
    decreases ws.len() - k,
{
    if k < 0 || k >= ws.len() {
        Seq::<AbstractInstruction>::empty()
    } else {
        word_ops(ws[k]) + words_ops(ws, k + 1)
    }
}

/// Every word of the program resolves to something.
pub open spec fn words_known(ws: Seq<Seq<char>>) -> bool {
    forall|k: int| 0 <= k < ws.len() ==> (#[trigger] word_builtin(ws[k])) is Some
}

/// A word the code generator can take: unresolved words are caught
/// earlier, resolved ones must be implemented.
pub open spec fn word_gen_ok(w: Seq<char>) -> bool {
    match word_builtin(w) {
        Some(b) => builtin_ready(b),
        None => true,
    }
}

/// The abstract program a source text compiles to: its words'
/// instructions, in order, terminated by a return.
pub open spec fn spec_program_ops(code: Seq<char>) -> Seq<AbstractInstruction> {
    words_ops(split_words(code), 0).push(AbstractInstruction::Ret(RetInstruction))
}

/// Determinism: the compiled program is a pure function of the source
/// text, so identical source text yields byte-identical encoded output.
pub proof fn lemma_compilation_deterministic(c1: Seq<char>, c2: Seq<char>)
    requires
        c1 == c2,
    ensures
        spec_program_ops(c1) == spec_program_ops(c2),
        ops_emit(spec_program_ops(c1), 0) == ops_emit(spec_program_ops(c2), 0),
{
}

/// A program and its terminating return, ready to run: the return is the
/// last instruction and nothing returns before it.
proof fn lemma_program_run(ops: Seq<AbstractInstruction>, st: MachineState, end: MachineState)
    requires
        run(ops, st) == Some(end),
        forall|i: int|
            0 <= i < ops.len() ==> !((#[trigger] ops[i]) matches AbstractInstruction::Ret(_)),
    ensures
        run(ops.push(AbstractInstruction::Ret(RetInstruction)), st) == Some(end),
{
    let ret = seq![AbstractInstruction::Ret(RetInstruction)];
    assert(ops.push(AbstractInstruction::Ret(RetInstruction)) =~= ops + ret);
    lemma_run_append(ops, ret, st);
    assert(run(ret, end) == Some(end));
}

/// Stack-balance law over source text: compiling a single
/// exactly-representable literal word and running the program leaves the
/// literal on top of an otherwise-unchanged stack.
pub proof fn lemma_literal_program(code: Seq<char>, num: Number, st: MachineState)
    requires
        split_words(code).len() == 1,
        word_builtin(split_words(code)[0]) == Some(Builtin::Number(num)),
        literal_exact(num),
    ensures
        run(spec_program_ops(code), st) == Some(
            MachineState { stack: st.stack.push(literal_value(num)), rax: st.rax, rcx: st.rcx },
        ),
{
    let ws = split_words(code);
    let ops = words_ops(ws, 0);
    assert(words_ops(ws, 1) == Seq::<AbstractInstruction>::empty());
    Seq::add_empty_right(word_ops(ws[0]), words_ops(ws, 1));
    assert(ops == spec_number_ops(num));
    lemma_literal_stack_balance(num, st);
    lemma_ops_ret_free(num, Builtin::Add);
    lemma_program_run(
        ops,
        st,
        MachineState { stack: st.stack.push(literal_value(num)), rax: st.rax, rcx: st.rcx },
    );
}

/// Addition correctness over source text: compiling two
/// exactly-representable literal words and the add word, then running the
/// program, pushes their sum under two's-complement wraparound.
pub proof fn lemma_addition_program(code: Seq<char>, na: Number, nb: Number, st: MachineState)
    requires
        split_words(code).len() == 3,
        word_builtin(split_words(code)[0]) == Some(Builtin::Number(na)),
        word_builtin(split_words(code)[1]) == Some(Builtin::Number(nb)),
        word_builtin(split_words(code)[2]) == Some(Builtin::Add),
        literal_exact(na),
        literal_exact(nb),
    ensures
        ({
            let a = literal_value(na);
            let b = literal_value(nb);
            run(spec_program_ops(code), st) == Some(
                MachineState {
                    stack: st.stack.push((a + b) as u64),
                    rax: (a + b) as u64,
                    rcx: b,
                },
            )
        }),
{
    let ws = split_words(code);
    let pa = spec_number_ops(na);
    let pb = spec_number_ops(nb);
    let pc = spec_builtin_ops(Builtin::Add);
    let ops = words_ops(ws, 0);
    assert(words_ops(ws, 3) == Seq::<AbstractInstruction>::empty());
    Seq::add_empty_right(pc, words_ops(ws, 3));
    assert(words_ops(ws, 2) == pc);
    assert(words_ops(ws, 1) == pb + pc);
    assert(ops == pa + (pb + pc));
    lemma_seq_add_assoc(pa, pb, pc);
    assert(ops == pa + pb + pc);
    let a = literal_value(na);
    let b = literal_value(nb);
    lemma_addition_correct(na, nb, st);
    let end = MachineState { stack: st.stack.push((a + b) as u64), rax: (a + b) as u64, rcx: b };
    assert(run(ops, st) == Some(end));
    lemma_ops_ret_free(na, Builtin::Add);
    lemma_ops_ret_free(nb, Builtin::Add);
    assert forall|i: int| 0 <= i < ops.len() implies !((#[trigger] ops[i]) matches
    AbstractInstruction::Ret(_)) by {
        if i < pa.len() {
            assert(ops[i] == pa[i]);
        } else if i < pa.len() + pb.len() {
            assert(ops[i] == pb[i - pa.len()]);
        } else {
            assert(ops[i] == pc[i - pa.len() - pb.len()]);
        }
    }
    lemma_program_run(ops, st, end);
}

/// Drop effect over source text: compiling a literal word and the drop
/// word, then running the program, leaves the evaluation stack exactly as
/// it started — one slot shallower than after the push.
pub proof fn lemma_drop_program(code: Seq<char>, num: Number, st: MachineState)
    requires
        split_words(code).len() == 2,
        word_builtin(split_words(code)[0]) == Some(Builtin::Number(num)),
        word_builtin(split_words(code)[1]) == Some(Builtin::Drop),
        literal_exact(num),
    ensures
        run(spec_program_ops(code), st) == Some(
            MachineState { stack: st.stack, rax: literal_value(num), rcx: st.rcx },
        ),
{
    let ws = split_words(code);
    let pa = spec_number_ops(num);
    let pd = spec_builtin_ops(Builtin::Drop);
    let ops = words_ops(ws, 0);
    assert(words_ops(ws, 2) == Seq::<AbstractInstruction>::empty());
    Seq::add_empty_right(pd, words_ops(ws, 2));
    assert(words_ops(ws, 1) == pd);
    assert(word_ops(ws[0]) == pa);
    assert(ops == pa + pd);
    lemma_drop_effect(num, st);
    let end = MachineState { stack: st.stack, rax: literal_value(num), rcx: st.rcx };
    assert(run(ops, st) == Some(end));
    lemma_ops_ret_free(num, Builtin::Drop);
    assert forall|i: int| 0 <= i < ops.len() implies !((#[trigger] ops[i]) matches
    AbstractInstruction::Ret(_)) by {
        if i < pa.len() {
            assert(ops[i] == pa[i]);
        } else {
            assert(ops[i] == pd[i - pa.len()]);
        }
    }
    lemma_program_run(ops, st, end);
}

/// An interned symbol that carries the meaning of a word: its stored kind
/// is a builtin that compiles and schedules exactly as the word itself
/// does.
pub open spec fn symbol_word_ok(table: Seq<Symbol>, sid: SymbolId, w: Seq<char>) -> bool {
    &&& sid < table.len()
    &&& match table[sid as int].kind {
        SymbolKind::Builtin(b) => match word_builtin(w) {
            Some(bw) => builtin_ops(b) == builtin_ops(bw) && builtin_ready(b) == builtin_ready(bw),
            None => false,
        },
        _ => false,
    }
}

/// A lowered leaf that stands for a word: it generates the word's
/// instructions and is implemented exactly when the word is.
pub open spec fn node_matches_word(node: CFGNode, w: Seq<char>) -> bool {
    match node {
        CFGNode::Number(n) => (n matches Number::Uint(_) || n matches Number::Int(_))
            && spec_number_ops(n) == word_ops(w),
        CFGNode::Builtin(b) => (b matches Builtin::Add || b matches Builtin::Drop)
            && spec_builtin_ops(b) == word_ops(w),
        _ => false,
    }
}

/// A scope whose body is exactly one matching leaf per word generates
/// exactly the words' instructions.
proof fn lemma_program_gen(
    nodes: Seq<CFGNode>,
    body: Seq<CFGNodeId>,
    scope: int,
    ws: Seq<Seq<char>>,
    k: int,
)
    requires
        nodes_wf(nodes),
        0 <= scope < nodes.len(),
        body == node_children(nodes[scope]),
        body.len() == ws.len(),
        0 <= k <= body.len(),
        forall|j: int|
            0 <= j < body.len() ==> node_matches_word(#[trigger] nodes[body[j] as int], ws[j]),
    ensures
        gen_list_ready(nodes, body, scope, k),
        spec_gen_list(nodes, body, scope, k) == words_ops(ws, k),
    decreases body.len() - k,
{
    if k < body.len() {
        assert(node_wf(nodes[scope], scope, nodes.len() as int));
        assert(scope < body[k as int] < nodes.len());
        lemma_program_gen(nodes, body, scope, ws, k + 1);
        assert(node_matches_word(nodes[body[k as int] as int], ws[k]));
        assert(gen_ready(nodes, body[k as int] as int));
        assert(spec_gen(nodes, body[k as int] as int) == word_ops(ws[k]));
    }
}

/// The result of compiling one source text: where the program sits in the
/// tree, which unit holds its bytes, and the tree dumps taken before and
/// after lowering.
pub struct CompileOutput {
    pub root: CFGNodeId,
    pub scope: CFGNodeId,
    pub unit: CompilationUnitId,
    pub tree_before: String,
    pub tree_after: String,
}

/// The compilation context.
pub struct Context {
    symbols: SymbolStorage,
    sources: Sources,
    compiler: Compiler,
    cfg: CFG,
    cfg_stack: Vec<CFGNodeId>,
}

impl Context {
    pub closed spec fn spec_symbols(self) -> SymbolStorage {
        self.symbols
    }

    pub closed spec fn spec_sources(self) -> Sources {
        self.sources
    }

    pub closed spec fn spec_compiler(self) -> Compiler {
        self.compiler
    }

    pub closed spec fn spec_cfg(self) -> CFG {
        self.cfg
    }

    pub closed spec fn spec_stack(self) -> Seq<CFGNodeId> {
        self.cfg_stack@
    }

    /// Every interned key means what the word itself means: the table
    /// never resolves a word differently from a fresh parse.
    pub open spec fn canonical(s: SymbolStorage) -> bool {
        forall|k: Seq<char>|
            match #[trigger] s.spec_lookup(k) {
                Some(id) => symbol_word_ok(s.spec_table(), id, k),
                None => true,
            }
    }

    pub open spec fn wf(self) -> bool {
        &&& self.spec_symbols().wf()
        &&& self.spec_cfg().wf()
        &&& self.spec_compiler().wf()
        &&& Context::canonical(self.spec_symbols())
        &&& symbols_valid(
            self.spec_cfg().spec_nodes(),
            self.spec_symbols().spec_table().len() as int,
        )
        &&& forall|i: int|
            0 <= i < self.spec_stack().len() ==> #[trigger] self.spec_stack()[i]
                < self.spec_cfg().spec_nodes().len()
        &&& forall|i: int|
            0 <= i < self.spec_stack().len() ==> (self.spec_cfg().spec_nodes()[(
            #[trigger] self.spec_stack()[i]) as int] matches CFGNode::Scope { .. })
        &&& self.spec_symbols().spec_lookup("+"@) is Some
        &&& self.spec_symbols().spec_lookup("-"@) is Some
        &&& self.spec_symbols().spec_lookup("*"@) is Some
        &&& self.spec_symbols().spec_lookup("/"@) is Some
        &&& self.spec_symbols().spec_lookup("."@) is Some
        &&& self.spec_symbols().spec_lookup("drop"@) is Some
    }

    /// Interns one operator builtin, keeping the table canonical.
    fn intern_op(symbols: &mut SymbolStorage, op: Builtin) -> (id: SymbolId)
        requires
            old(symbols).wf(),
            Context::canonical(*old(symbols)),
            !(op matches Builtin::Number(_)),
        ensures
            final(symbols).wf(),
            Context::canonical(*final(symbols)),
            final(symbols).spec_lookup(op.spec_name()) == Some(id),
            final(symbols).spec_table().len() >= old(symbols).spec_table().len(),
            forall|i: int|
                0 <= i < old(symbols).spec_table().len() ==> final(symbols).spec_table()[i] == old(symbols).spec_table()[i],
            forall|k: Seq<char>|
                old(symbols).spec_lookup(k) is Some ==> final(symbols).spec_lookup(k) == old(symbols).spec_lookup(k),
    {
        proof {
            lemma_operator_round_trip(op);
        }
        let id = op.add_symbol(symbols);
        proof {
            match old(symbols).spec_lookup(op.spec_name()) {
                Some(_) => {},
                None => {
                    assert forall|k: Seq<char>|
                        match #[trigger] symbols.spec_lookup(k) {
                            Some(kid) => symbol_word_ok(symbols.spec_table(), kid, k),
                            None => true,
                        } by {
                        if k == op.spec_name() {
                            assert(symbols.spec_lookup(k) == Some(id));
                            assert(symbols.spec_table()[id as int].kind == SymbolKind::Builtin(op));
                        } else {
                            assert(symbols.spec_lookup(k) == old(symbols).spec_lookup(k));
                            match symbols.spec_lookup(k) {
                                Some(kid) => {
                                    assert(symbol_word_ok(old(symbols).spec_table(), kid, k));
                                    old(symbols).lemma_lookup_in_table(k);
                                },
                                None => {},
                            }
                        }
                    }
                },
            }
            assert forall|k: Seq<char>|
                old(symbols).spec_lookup(k) is Some implies final(symbols).spec_lookup(k) == old(symbols).spec_lookup(k) by {
                if k != op.spec_name() {
                } else {
                    match old(symbols).spec_lookup(k) {
                        Some(_) => {},
                        None => {
                            assert(false);
                        },
                    }
                }
            }
        }
        id
    }

    /// Interns one parsed numeric literal under its canonical spelling,
    /// keeping the table canonical.
    fn intern_number(symbols: &mut SymbolStorage, num: Number) -> (id: SymbolId)
        requires
            old(symbols).wf(),
            Context::canonical(*old(symbols)),
            num matches Number::Uint(_) || (num matches Number::Int(v) && v <= 0),
        ensures
            final(symbols).wf(),
            Context::canonical(*final(symbols)),
            id < final(symbols).spec_table().len(),
            match final(symbols).spec_table()[id as int].kind {
                SymbolKind::Builtin(b) => builtin_ops(b) == builtin_ops(Builtin::Number(num))
                    && builtin_ready(b) == builtin_ready(Builtin::Number(num)),
                _ => false,
            },
            final(symbols).spec_table().len() >= old(symbols).spec_table().len(),
            forall|i: int|
                0 <= i < old(symbols).spec_table().len() ==> final(symbols).spec_table()[i] == old(symbols).spec_table()[i],
            forall|k: Seq<char>|
                old(symbols).spec_lookup(k) is Some ==> final(symbols).spec_lookup(k) == old(symbols).spec_lookup(k),
    {
        proof {
            crate::builtin::lemma_number_key_meaning(num);
            match Builtin::spec_from_str(Builtin::Number(num).spec_name()) {
                Some(Builtin::Number(m)) => {
                    assert(builtin_ops(Builtin::Number(m)) == builtin_ops(Builtin::Number(num)));
                    assert(builtin_ready(Builtin::Number(m)) == builtin_ready(
                        Builtin::Number(num),
                    ));
                },
                _ => {
                    assert(false);
                },
            }
        }
        let builtin = Builtin::Number(num);
        let id = builtin.add_symbol(symbols);
        proof {
            let key = builtin.spec_name();
            match old(symbols).spec_lookup(key) {
                Some(existing) => {
                    assert(symbol_word_ok(symbols.spec_table(), id, key));
                    match symbols.spec_table()[id as int].kind {
                        SymbolKind::Builtin(b) => match word_builtin(key) {
                            Some(bw) => {
                                assert(builtin_ops(b) == builtin_ops(bw));
                                assert(builtin_ops(bw) == builtin_ops(builtin));
                                assert(builtin_ready(bw) == builtin_ready(builtin));
                            },
                            None => {
                                assert(false);
                            },
                        },
                        _ => {
                            assert(false);
                        },
                    }
                },
                None => {
                    assert forall|k: Seq<char>|
                        match #[trigger] symbols.spec_lookup(k) {
                            Some(kid) => symbol_word_ok(symbols.spec_table(), kid, k),
                            None => true,
                        } by {
                        if k == key {
                            assert(symbols.spec_lookup(k) == Some(id));
                            assert(symbols.spec_table()[id as int].kind == SymbolKind::Builtin(
                                builtin,
                            ));
                        } else {
                            assert(symbols.spec_lookup(k) == old(symbols).spec_lookup(k));
                            match symbols.spec_lookup(k) {
                                Some(kid) => {
                                    assert(symbol_word_ok(old(symbols).spec_table(), kid, k));
                                    old(symbols).lemma_lookup_in_table(k);
                                },
                                None => {},
                            }
                        }
                    }
                },
            }
            assert forall|k: Seq<char>|
                old(symbols).spec_lookup(k) is Some implies final(symbols).spec_lookup(k) == old(symbols).spec_lookup(k) by {
                if k == key {
                    match old(symbols).spec_lookup(k) {
                        Some(_) => {},
                        None => {
                            assert(false);
                        },
                    }
                }
            }
        }
        proof {
            match old(symbols).spec_lookup(Builtin::Number(num).spec_name()) {
                Some(_) => {
                    // the id names the previously interned entry, whose kind
                    // the canonical table already pins
                    assert(symbol_word_ok(
                        symbols.spec_table(),
                        id,
                        Builtin::Number(num).spec_name(),
                    ));
                },
                None => {},
            }
        }
        id
    }

    /// A fresh context with the six builtins pre-interned under their
    /// canonical source spellings.
    pub fn new() -> (c: Context)
        ensures
            c.wf(),
            c.spec_cfg().spec_nodes().len() == 0,
            c.spec_stack().len() == 0,
            c.spec_compiler().spec_units().len() == 0,
    {
        let symbols = SymbolStorage::new();
        let sources = Sources::new();
        let cfg = CFG::new();
        let cfg_stack: Vec<CFGNodeId> = Vec::new();
        let compiler = Compiler::new();
        let mut context = Context { symbols, sources, compiler, cfg, cfg_stack };
        context.populate_default_symbols();
        context
    }

    /// Interns the operator builtins once, at context construction.
    pub fn populate_default_symbols(&mut self)
        requires
            old(self).spec_symbols().wf(),
            Context::canonical(old(self).spec_symbols()),
            old(self).spec_cfg().wf(),
            old(self).spec_compiler().wf(),
            symbols_valid(
                old(self).spec_cfg().spec_nodes(),
                old(self).spec_symbols().spec_table().len() as int,
            ),
            forall|i: int|
                0 <= i < old(self).spec_stack().len() ==> #[trigger] old(self).spec_stack()[i]
                    < old(self).spec_cfg().spec_nodes().len() && old(self).spec_cfg().spec_nodes()[old(self).spec_stack()[i] as int] matches CFGNode::Scope {
                    ..
                },
        ensures
            final(self).wf(),
            final(self).spec_cfg() == old(self).spec_cfg(),
            final(self).spec_stack() == old(self).spec_stack(),
            final(self).spec_compiler() == old(self).spec_compiler(),
    {
        let ghost n0 = self.symbols.spec_table().len() as int;
        Context::intern_op(&mut self.symbols, Builtin::Add);
        Context::intern_op(&mut self.symbols, Builtin::Sub);
        Context::intern_op(&mut self.symbols, Builtin::Mul);
        Context::intern_op(&mut self.symbols, Builtin::Div);
        Context::intern_op(&mut self.symbols, Builtin::DotPrint);
        Context::intern_op(&mut self.symbols, Builtin::Drop);
        proof {
            assert(Builtin::Add.spec_name() == "+"@);
            assert(Builtin::Sub.spec_name() == "-"@);
            assert(Builtin::Mul.spec_name() == "*"@);
            assert(Builtin::Div.spec_name() == "/"@);
            assert(Builtin::DotPrint.spec_name() == "."@);
            assert(Builtin::Drop.spec_name() == "drop"@);
            assert(self.spec_stack() == old(self).spec_stack());
            assert(self.spec_cfg() == old(self).spec_cfg());
            assert forall|i: int|
                0 <= i < self.spec_stack().len() implies #[trigger] self.spec_stack()[i]
                < self.spec_cfg().spec_nodes().len() by {
                assert(old(self).spec_stack()[i] < old(self).spec_cfg().spec_nodes().len());
            }
            assert forall|i: int|
                0 <= i < self.spec_stack().len() implies (self.spec_cfg().spec_nodes()[(
            #[trigger] self.spec_stack()[i]) as int] matches CFGNode::Scope { .. }) by {
                assert(old(self).spec_cfg().spec_nodes()[old(self).spec_stack()[i] as int] matches
                    CFGNode::Scope { .. });
            }
            assert forall|i: int|
                0 <= i < self.spec_cfg().spec_nodes().len() implies match #[trigger] self.spec_cfg().spec_nodes()[i] {
                CFGNode::Symbol(s) => s < self.spec_symbols().spec_table().len(),
                _ => true,
            } by {
                assert(match old(self).spec_cfg().spec_nodes()[i] {
                    CFGNode::Symbol(s) => s < n0,
                    _ => true,
                });
                assert(self.spec_symbols().spec_table().len() >= n0);
            }
        }
    }

    /// Resolves one word: an interned word contributes a reference to its
    /// symbol, a fresh numeric literal is interned first, and anything else
    /// is an error, not a silent no-op. The new leaf goes under the
    /// innermost scope.
    pub fn read_word<'a>(&mut self, _lexer: &mut Lexer<'a>, word: Word<'a>) -> (r: Result<
        (),
        VmError,
    >)
        requires
            old(self).wf(),
            old(self).spec_stack().len() > 0,
        ensures
            final(self).wf(),
            *final(_lexer) == *old(_lexer),
            final(self).spec_stack() == old(self).spec_stack(),
            final(self).spec_compiler() == old(self).spec_compiler(),
            final(self).spec_sources() == old(self).spec_sources(),
            final(self).spec_cfg().spec_roots() == old(self).spec_cfg().spec_roots(),
            final(self).spec_symbols().spec_table().len() >= old(self).spec_symbols().spec_table().len(),
            forall|i: int|
                0 <= i < old(self).spec_symbols().spec_table().len() ==> final(self).spec_symbols().spec_table()[i] == old(self).spec_symbols().spec_table()[i],
            ({
                let w = word.data@;
                let top = old(self).spec_stack().last();
                let fresh = old(self).spec_cfg().spec_nodes().len();
                match word_builtin(w) {
                    None => r == Err::<(), VmError>(VmError::UnknownSymbol) && final(self).spec_cfg() == old(self).spec_cfg(),
                    Some(_) => {
                        &&& r == Ok::<(), VmError>(())
                        &&& final(self).spec_cfg().spec_nodes().len() == fresh + 1
                        &&& exists|sid: SymbolId|
                            #![auto]
                            final(self).spec_cfg().spec_nodes()[fresh as int] == CFGNode::Symbol(
                                sid,
                            ) && symbol_word_ok(final(self).spec_symbols().spec_table(), sid, w)
                        &&& (old(self).spec_cfg().spec_nodes()[top as int] matches CFGNode::Scope {
                            parent: p0,
                            body: b0,
                        } && final(self).spec_cfg().spec_nodes()[top as int] matches CFGNode::Scope {
                            parent: p1,
                            body: b1,
                        } && p1 == p0 && b1@ == b0@.push(fresh as usize))
                        &&& forall|i: int|
                            0 <= i < fresh && i != top ==> final(self).spec_cfg().spec_nodes()[i]
                                == old(self).spec_cfg().spec_nodes()[i]
                    },
                }
            }),
    {
        let ghost w = word.data@;
        let node_id = self.cfg_stack[self.cfg_stack.len() - 1];
        proof {
            assert(node_id == old(self).spec_stack().last());
        }
        match self.symbols.get_id(word.data) {
            Some(id) => {
                proof {
                    assert(self.symbols.spec_lookup(w) == Some(id));
                    assert(symbol_word_ok(self.symbols.spec_table(), id, w));
                }
                match self.symbols.get(&id) {
                    Ok(sym) => {
                        match &sym.kind {
                            SymbolKind::ReaderMacro => {
                                proof {
                                    assert(false);
                                }
                            },
                            _ => {},
                        }
                    },
                    Err(_) => {
                        proof {
                            assert(false);
                        }
                    },
                }
                let inserted = self.cfg.insert(&node_id, InsertCFGNode::Symbol(id));
                match inserted {
                    Ok(_) => {
                        proof {
                            self.lemma_read_word_wf(*old(self), id, w);
                        }
                        Ok(())
                    },
                    Err(_) => {
                        proof {
                            assert(false);
                        }
                        Err(VmError::InvalidScope)
                    },
                }
            },
            None => {
                match Number::parse(word.data) {
                    Some(num) => {
                        proof {
                            crate::builtin::lemma_parse_signed_shape(w);
                            assert(self.symbols.spec_lookup("+"@) is Some);
                            assert(word_builtin(w) == Some(Builtin::Number(num))) by {
                                if w == "+"@ || w == "-"@ || w == "*"@ || w == "/"@ || w == "."@
                                    || w == "drop"@ {
                                    assert(old(self).spec_symbols().spec_lookup(w) is Some);
                                    assert(false);
                                }
                            }
                        }
                        let id = Context::intern_number(&mut self.symbols, num);
                        proof {
                            assert(symbol_word_ok(self.symbols.spec_table(), id, w));
                        }
                        let inserted = self.cfg.insert(&node_id, InsertCFGNode::Symbol(id));
                        match inserted {
                            Ok(_) => {
                                proof {
                                    self.lemma_read_word_wf(*old(self), id, w);
                                }
                                Ok(())
                            },
                            Err(_) => {
                                proof {
                                    assert(false);
                                }
                                Err(VmError::InvalidScope)
                            },
                        }
                    },
                    None => {
                        proof {
                            assert(word_builtin(w) == None::<Builtin>) by {
                                if w == "+"@ || w == "-"@ || w == "*"@ || w == "/"@ || w == "."@
                                    || w == "drop"@ {
                                    assert(old(self).spec_symbols().spec_lookup(w) is Some);
                                    assert(false);
                                }
                            }
                        }
                        Err(VmError::UnknownSymbol)
                    },
                }
            },
        }
    }

    /// The compiled unit an id names.
    pub fn unit(&self, id: &CompilationUnitId) -> (r: Result<&Compilation, VmError>)
        ensures
            match r {
                Ok(unit) => *id < self.spec_compiler().spec_units().len() && *unit
                    == self.spec_compiler().spec_units()[*id as int],
                Err(e) => e == VmError::UnknownNode && *id >= self.spec_compiler().spec_units().len(),
            },
    {
        self.compiler.get(id)
    }

    /// Compiles one source text end to end: the words are read into a
    /// fresh root scope, the tree is dumped, lowered and dumped again, and
    /// the generated instructions are encoded into a fresh compilation
    /// unit. A compilation-stage error aborts the whole unit: nothing is
    /// registered and no partial machine code survives.
    #[verifier::loop_isolation(false)]
    pub fn compile_source(&mut self, code: &str) -> (r: Result<CompileOutput, VmError>)
        requires
            old(self).wf(),
            code@.len() + 1 <= usize::MAX,
            2 * (old(self).spec_cfg().spec_nodes().len() + code@.len() + 2) <= usize::MAX,
            forall|k: int|
                0 <= k < split_words(code@).len() ==> word_gen_ok(#[trigger] split_words(code@)[k]),
        ensures
            final(self).wf(),
            ({
                let ws = split_words(code@);
                let program = spec_program_ops(code@);
                match r {
                    Ok(out) => {
                        &&& words_known(ws)
                        &&& ops_error(program, 0) is None
                        &&& out.unit == old(self).spec_compiler().spec_units().len()
                        &&& final(self).spec_compiler().spec_units().len() == old(self).spec_compiler().spec_units().len() + 1
                        &&& final(self).spec_compiler().spec_units()[out.unit as int].opcodes@
                            == ops_emit(program, 0)
                        &&& final(self).spec_compiler().spec_units()[out.unit as int].instructions@
                            == words_ops(ws, 0)
                        &&& out.root < final(self).spec_cfg().spec_nodes().len()
                        &&& out.tree_after@ == spec_dump(
                            final(self).spec_cfg().spec_nodes(),
                            final(self).spec_symbols().spec_table(),
                            out.root as int,
                            0,
                        )
                    },
                    Err(e) => {
                        &&& final(self).spec_compiler() == old(self).spec_compiler()
                        &&& if !words_known(ws) {
                            e == VmError::UnknownSymbol
                        } else {
                            ops_error(program, 0) == Some(e)
                        }
                    },
                }
            }),
    {
        let ghost ws = split_words(code@);
        proof {
            lemma_split_words_count(code@);
        }
        let source_text = code.to_owned();
        let _source_id = self.sources.new_source(SourceSource::Text(source_text));
        let (root_id, scope_id) = self.cfg.add_root();
        self.cfg_stack.push(scope_id);
        let ghost base = old(self).spec_cfg().spec_nodes().len() as int;
        let ghost stack0 = self.spec_stack();
        proof {
            assert forall|i: int|
                0 <= i < self.spec_stack().len() implies #[trigger] self.spec_stack()[i]
                < self.spec_cfg().spec_nodes().len() by {
                if i < old(self).spec_stack().len() {
                    assert(old(self).spec_stack()[i] < old(self).spec_cfg().spec_nodes().len());
                }
            }
            assert forall|i: int|
                0 <= i < self.spec_stack().len() implies (self.spec_cfg().spec_nodes()[(
            #[trigger] self.spec_stack()[i]) as int] matches CFGNode::Scope { .. }) by {
                if i < old(self).spec_stack().len() {
                    assert(old(self).spec_cfg().spec_nodes()[old(self).spec_stack()[i] as int]
                        matches CFGNode::Scope { .. });
                }
            }
        }
        let mut lexer = Lexer::new(code);
        let ghost mut k: int = 0;
        let ghost mut sids: Seq<SymbolId> = Seq::empty();
        let mut done: bool = false;
        while !done
            invariant
                0 <= k <= ws.len(),
                self.wf(),
                lexer.wf(),
                done ==> k == ws.len(),
                split_words(lexer.source@) == ws.subrange(k, ws.len() as int),
                self.spec_stack() == stack0,
                stack0.len() > 0,
                stack0.last() == scope_id,
                self.spec_compiler() == old(self).spec_compiler(),
                self.spec_cfg().spec_nodes().len() == base + 2 + k,
                root_id == base,
                scope_id == base + 1,
                (self.spec_cfg().spec_nodes()[root_id as int] matches CFGNode::Root(cs) && cs@
                    == seq![scope_id]),
                (self.spec_cfg().spec_nodes()[scope_id as int] matches CFGNode::Scope {
                    parent,
                    body,
                } && parent == root_id && body@ == Seq::new(
                    k as nat,
                    |j: int| (base + 2 + j) as usize,
                )),
                sids.len() == k,
                forall|j: int|
                    0 <= j < k ==> self.spec_cfg().spec_nodes()[base + 2 + j] == CFGNode::Symbol(
                        #[trigger] sids[j],
                    ) && symbol_word_ok(self.spec_symbols().spec_table(), sids[j], ws[j]),
                forall|j: int| 0 <= j < k ==> (#[trigger] word_builtin(ws[j])) is Some,
            decreases ws.len() - k + (if done {
                0int
            } else {
                1int
            }),
        {
            let ghost src0 = lexer.source@;
            let ghost t = drop_spaces(src0);
            let next = lexer.next_word();
            match next {
                None => {
                    proof {
                        assert(t.len() == 0);
                        assert(split_words(src0) =~= Seq::<Seq<char>>::empty());
                        assert(ws.subrange(k, ws.len() as int).len() == 0);
                    }
                    done = true;
                },
                Some(word) => {
                    proof {
                        assert(t.len() > 0);
                        let e = first_word_end(t);
                        assert(split_words(src0) == seq![t.subrange(0, e)] + split_words(
                            t.subrange(e, t.len() as int),
                        ));
                        assert(ws.subrange(k, ws.len() as int)[0] == t.subrange(0, e));
                        assert(ws[k] == t.subrange(0, e));
                        assert(word.data@ == ws[k]);
                        assert(split_words(lexer.source@) =~= ws.subrange(k, ws.len() as int).subrange(
                            1,
                            ws.len() - k,
                        ));
                        assert(ws.subrange(k, ws.len() as int).subrange(1, ws.len() - k) =~= ws.subrange(
                            k + 1,
                            ws.len() as int,
                        ));
                    }
                    let ghost pre = *self;
                    let res = self.read_word(&mut lexer, word);
                    match res {
                        Ok(_) => {
                            proof {
                                let now = self.spec_cfg().spec_nodes();
                                let prev = pre.spec_cfg().spec_nodes();
                                assert(now[scope_id as int] matches CFGNode::Scope { parent, body }
                                    && parent == root_id && body@ == Seq::new(
                                    (k + 1) as nat,
                                    |j: int| (base + 2 + j) as usize,
                                )) by {
                                    assert(prev[scope_id as int] matches CFGNode::Scope {
                                        parent: pp,
                                        body: pb,
                                    } && pp == root_id && pb@ == Seq::new(
                                        k as nat,
                                        |j: int| (base + 2 + j) as usize,
                                    ));
                                    match (prev[scope_id as int], now[scope_id as int]) {
                                        (
                                            CFGNode::Scope { parent: pp, body: pb },
                                            CFGNode::Scope { parent: qp, body: qb },
                                        ) => {
                                            assert(qb@ == pb@.push((base + 2 + k) as usize));
                                            assert(qb@ =~= Seq::new(
                                                (k + 1) as nat,
                                                |j: int| (base + 2 + j) as usize,
                                            ));
                                        },
                                        _ => {
                                            assert(false);
                                        },
                                    }
                                }
                                assert(now[root_id as int] == prev[root_id as int]);
                                let sid = choose|sid: SymbolId|
                                    #![auto]
                                    self.spec_cfg().spec_nodes()[pre.spec_cfg().spec_nodes().len() as int]
                                        == CFGNode::Symbol(sid) && symbol_word_ok(
                                        self.spec_symbols().spec_table(),
                                        sid,
                                        word.data@,
                                    );
                                assert(pre.spec_cfg().spec_nodes().len() as int == base + 2 + k);
                                assert(now[base + 2 + k] == CFGNode::Symbol(sid));
                                assert(symbol_word_ok(self.spec_symbols().spec_table(), sid, ws[k]));
                                sids = sids.push(sid);
                                assert forall|j: int| 0 <= j < k + 1 implies now[base + 2 + j]
                                    == CFGNode::Symbol(#[trigger] sids[j]) && symbol_word_ok(
                                    self.spec_symbols().spec_table(),
                                    sids[j],
                                    ws[j],
                                ) by {
                                    if j < k {
                                        assert(sids[j] == sids.drop_last()[j]);
                                        assert(prev[base + 2 + j] == CFGNode::Symbol(sids[j]));
                                        assert(now[base + 2 + j] == prev[base + 2 + j]);
                                        assert(symbol_word_ok(
                                            pre.spec_symbols().spec_table(),
                                            sids[j],
                                            ws[j],
                                        ));
                                        assert(self.spec_symbols().spec_table()[sids[j] as int]
                                            == pre.spec_symbols().spec_table()[sids[j] as int]);
                                    } else {
                                        assert(sids[j] == sid);
                                    }
                                }
                                k = k + 1;
                            }
                        },
                        Err(err) => {
                            proof {
                                assert(word_builtin(ws[k]) is None);
                                assert(!words_known(ws));
                            }
                            return Err(err);
                        },
                    }
                },
            }
        }
        let mut tree_before = String::new();
        proof {
            assert(self.spec_cfg().spec_nodes().len() - root_id == 2 + ws.len());
            assert(ws.len() <= code@.len());
        }
        self.cfg.debug_traverse(&self.symbols, &root_id, &mut tree_before, 0);
        let ghost pre_lower = self.spec_cfg().spec_nodes();
        let ghost table = self.spec_symbols().spec_table();
        self.cfg.lower(&self.symbols, &root_id);
        let mut tree_after = String::new();
        self.cfg.debug_traverse(&self.symbols, &root_id, &mut tree_after, 0);
        proof {
            let low = self.spec_cfg().spec_nodes();
            assert(low == spec_lowered(pre_lower, table, root_id as int));
            crate::lower::lemma_lowered_wf(pre_lower, table, root_id as int);
            // membership of the fresh subtree
            assert(in_subtree(pre_lower, root_id as int, root_id as int));
            assert(node_children(pre_lower[root_id as int]) == seq![scope_id]);
            assert(in_subtree(pre_lower, scope_id as int, scope_id as int));
            assert(in_subtree(pre_lower, root_id as int, scope_id as int)) by {
                assert(node_children(pre_lower[root_id as int])[0] == scope_id);
            }
            let ghost body0 = node_children(pre_lower[scope_id as int]);
            assert(body0 == Seq::new(ws.len() as nat, |j: int| (base + 2 + j) as usize));
            assert forall|j: int| 0 <= j < ws.len() implies #[trigger] in_subtree(
                pre_lower,
                root_id as int,
                base + 2 + j,
            ) by {
                assert(body0[j] == (base + 2 + j) as usize);
                assert(in_subtree(pre_lower, base + 2 + j, base + 2 + j));
                assert(in_subtree(pre_lower, scope_id as int, base + 2 + j));
                assert(node_children(pre_lower[root_id as int])[0] == scope_id);
            }
            // the lowered root and scope keep their shape
            assert(low[root_id as int] == pre_lower[root_id as int]);
            assert(low[scope_id as int] == pre_lower[scope_id as int]);
            assert(node_children(low[scope_id as int]) == body0);
            assert(node_children(low[root_id as int]) == seq![scope_id]);
            // every leaf lowers to the matching operation node
            assert forall|j: int| 0 <= j < ws.len() implies node_matches_word(
                #[trigger] low[body0[j] as int],
                ws[j],
            ) by {
                let leaf = base + 2 + j;
                assert(body0[j] == leaf as usize);
                assert(0 <= j < ws.len());
                let sid = sids[j];
                assert(pre_lower[leaf] == CFGNode::Symbol(sid) && symbol_word_ok(table, sid, ws[j]));
                assert(low[leaf] == lower_node(CFGNode::Symbol(sid), table));
                assert(word_gen_ok(ws[j]));
                match table[sid as int].kind {
                    SymbolKind::Builtin(b) => {
                        match word_builtin(ws[j]) {
                            Some(bw) => {
                                assert(builtin_ready(bw));
                                assert(builtin_ready(b));
                                assert(builtin_ops(b) == builtin_ops(bw));
                                match b {
                                    Builtin::Number(n) => {
                                        assert(low[leaf] == CFGNode::Number(n));
                                        assert(spec_number_ops(n) == word_ops(ws[j]));
                                    },
                                    Builtin::Add => {
                                        assert(low[leaf] == CFGNode::Builtin(Builtin::Add));
                                    },
                                    Builtin::Drop => {
                                        assert(low[leaf] == CFGNode::Builtin(Builtin::Drop));
                                    },
                                    _ => {
                                        assert(false);
                                    },
                                }
                            },
                            None => {
                                assert(false);
                            },
                        }
                    },
                    _ => {
                        assert(false);
                    },
                }
            }
            lemma_program_gen(low, body0, scope_id as int, ws, 0);
            // the root generates exactly the scope's instructions
            assert(gen_ready(low, scope_id as int));
            assert(gen_list_ready(low, seq![scope_id], root_id as int, 0)) by {
                assert(seq![scope_id][0] == scope_id);
                assert(gen_list_ready(low, seq![scope_id], root_id as int, 1));
            }
            assert(gen_ready(low, root_id as int));
            assert(spec_gen(low, root_id as int) == words_ops(ws, 0)) by {
                assert(spec_gen_list(low, seq![scope_id], root_id as int, 1)
                    == Seq::<AbstractInstruction>::empty());
                assert(spec_gen_list(low, seq![scope_id], root_id as int, 0) == spec_gen(
                    low,
                    scope_id as int,
                ) + Seq::<AbstractInstruction>::empty());
                Seq::add_empty_right(
                    spec_gen(low, scope_id as int),
                    Seq::<AbstractInstruction>::empty(),
                );
                assert(spec_gen(low, scope_id as int) == spec_gen_list(
                    low,
                    body0,
                    scope_id as int,
                    0,
                ));
            }
        }
        let compiled = self.compiler.compile(&self.cfg, root_id);
        proof {
            assert(spec_program_ops(code@) == spec_gen(
                self.spec_cfg().spec_nodes(),
                root_id as int,
            ).push(AbstractInstruction::Ret(RetInstruction)));
        }
        match compiled {
            Ok(unit) => {
                Ok(CompileOutput { root: root_id, scope: scope_id, unit, tree_before, tree_after })
            },
            Err(e) => Err(e),
        }
    }

    /// Parsing of user function definitions: declared, with no protocol
    /// behind it yet.
    pub fn parse_function_def<'a>(_lexer: &mut Lexer<'a>)
        ensures
            *final(_lexer) == *old(_lexer),
    {
    }

    /// Re-establishes the context invariant after one leaf insertion: the
    /// tree grew by one valid symbol reference under the innermost scope.
    proof fn lemma_read_word_wf(self, pre: Context, sid: SymbolId, w: Seq<char>)
        requires
            pre.wf(),
            pre.spec_stack().len() > 0,
            self.spec_symbols().wf(),
            Context::canonical(self.spec_symbols()),
            self.spec_symbols().spec_table().len() >= pre.spec_symbols().spec_table().len(),
            self.spec_compiler() == pre.spec_compiler(),
            self.spec_stack() == pre.spec_stack(),
            self.spec_cfg().wf(),
            sid < self.spec_symbols().spec_table().len(),
            self.spec_cfg().spec_nodes().len() == pre.spec_cfg().spec_nodes().len() + 1,
            self.spec_cfg().spec_nodes()[pre.spec_cfg().spec_nodes().len() as int]
                == CFGNode::Symbol(sid),
            (self.spec_cfg().spec_nodes()[pre.spec_stack().last() as int] matches CFGNode::Scope {
                ..
            }),
            forall|i: int|
                0 <= i < pre.spec_cfg().spec_nodes().len() && i != pre.spec_stack().last()
                    ==> self.spec_cfg().spec_nodes()[i] == pre.spec_cfg().spec_nodes()[i],
            self.spec_symbols().spec_lookup("+"@) is Some,
            self.spec_symbols().spec_lookup("-"@) is Some,
            self.spec_symbols().spec_lookup("*"@) is Some,
            self.spec_symbols().spec_lookup("/"@) is Some,
            self.spec_symbols().spec_lookup("."@) is Some,
            self.spec_symbols().spec_lookup("drop"@) is Some,
        ensures
            self.wf(),
    {
        let top = pre.spec_stack().last();
        let fresh = pre.spec_cfg().spec_nodes().len() as int;
        assert forall|i: int|
            0 <= i < self.spec_cfg().spec_nodes().len() implies match #[trigger] self.spec_cfg().spec_nodes()[i] {
            CFGNode::Symbol(s) => s < self.spec_symbols().spec_table().len(),
            _ => true,
        } by {
            if i < fresh && i != top {
                assert(self.spec_cfg().spec_nodes()[i] == pre.spec_cfg().spec_nodes()[i]);
                assert(match pre.spec_cfg().spec_nodes()[i] {
                    CFGNode::Symbol(s) => s < pre.spec_symbols().spec_table().len(),
                    _ => true,
                });
            }
        }
        assert forall|i: int|
            0 <= i < self.spec_stack().len() implies #[trigger] self.spec_stack()[i]
            < self.spec_cfg().spec_nodes().len() by {
            assert(pre.spec_stack()[i] < pre.spec_cfg().spec_nodes().len());
        }
        assert forall|i: int|
            0 <= i < self.spec_stack().len() implies (self.spec_cfg().spec_nodes()[(
        #[trigger] self.spec_stack()[i]) as int] matches CFGNode::Scope { .. }) by {
            if self.spec_stack()[i] != top {
                assert(self.spec_cfg().spec_nodes()[self.spec_stack()[i] as int]
                    == pre.spec_cfg().spec_nodes()[pre.spec_stack()[i] as int]);
                assert(pre.spec_cfg().spec_nodes()[pre.spec_stack()[i] as int] matches
                    CFGNode::Scope { .. });
            }
        }
    }
}

} // verus!
