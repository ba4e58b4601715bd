//! The scope tree: the parsed program as an id-indexed arena of nested
//! scopes.
//!
//! Children are referenced by dense integer ids, never by owning pointers,
//! and insertion only ever appends under an existing scope, so every child
//! id is strictly greater than its parent's — the arena is acyclic by
//! construction, and traversals terminate by that measure. Nodes are never
//! removed; lowering rewrites a node's variant in place.

use vstd::prelude::*;

use crate::builtin::Builtin;
use crate::builtin::Number;
use crate::decimal::spec_digits;
use crate::decimal::u64_to_string;
use crate::symbol::StackEffect;
use crate::symbol::Symbol;
use crate::symbol::SymbolId;
use crate::symbol::SymbolStorage;
use crate::VmError;

verus! {

pub type CFGNodeId = usize;

/// What can be inserted under a scope. The quotation form is declared but
/// has no insertion protocol yet.
#[derive(Debug)]
pub enum InsertCFGNode {
    Quotation(Vec<SymbolId>),
    Symbol(SymbolId),
    Unknown(SymbolId),
}

/// One node of the scope tree.
#[derive(Debug)]
pub enum CFGNode {
    Root(Vec<CFGNodeId>),
    Scope { parent: CFGNodeId, body: Vec<CFGNodeId> },
    Quotation(CFGNodeId),
    Function {
        symbol: SymbolId,
        stack_effect: StackEffect,
        body: CFGNodeId,
        inline: bool,
        recursive: bool,
    },
    ReaderMacro { symbol: SymbolId, body: CFGNodeId },
    Macro { symbol: SymbolId, body: CFGNodeId },
    Number(Number),
    Builtin(Builtin),
    Symbol(SymbolId),
    Unknown(SymbolId),
}

/// The child ids a node refers to.
pub open spec fn node_children(node: CFGNode) -> Seq<CFGNodeId> {
    match node {
        CFGNode::Root(children) => children@,
        CFGNode::Scope { body, .. } => body@,
        CFGNode::Quotation(body) => seq![body],
        CFGNode::Function { body, .. } => seq![body],
        CFGNode::ReaderMacro { body, .. } => seq![body],
        CFGNode::Macro { body, .. } => seq![body],
        CFGNode::Number(_) => Seq::<CFGNodeId>::empty(),
        CFGNode::Builtin(_) => Seq::<CFGNodeId>::empty(),
        CFGNode::Symbol(_) => Seq::<CFGNodeId>::empty(),
        CFGNode::Unknown(_) => Seq::<CFGNodeId>::empty(),
    }
}

/// The node variants the insertion protocol can put into the arena. The
/// quotation, function and macro forms are declared in the taxonomy but no
/// insertion rule reaches them yet.
pub open spec fn node_supported(node: CFGNode) -> bool {
    match node {
        CFGNode::Root(_) => true,
        CFGNode::Scope { .. } => true,
        CFGNode::Number(_) => true,
        CFGNode::Builtin(_) => true,
        CFGNode::Symbol(_) => true,
        CFGNode::Unknown(_) => true,
        _ => false,
    }
}

/// Well-formedness of the node standing at position `i` of an arena of
/// `len` nodes: a constructible variant, every child appended after it, and
/// a scope's parent allocated before it.
pub open spec fn node_wf(node: CFGNode, i: int, len: int) -> bool {
    &&& node_supported(node)
    &&& forall|j: int|
        0 <= j < node_children(node).len() ==> i < #[trigger] node_children(node)[j] < len
    &&& (node matches CFGNode::Scope { parent, .. } ==> parent < i)
}

/// Every node of the arena is well formed at its position.
pub open spec fn nodes_wf(nodes: Seq<CFGNode>) -> bool {
    forall|i: int| 0 <= i < nodes.len() ==> node_wf(#[trigger] nodes[i], i, nodes.len() as int)
}

/// The scope tree arena: `nodes` is indexed by node id, `roots` lists the
/// ids of the root nodes in creation order.
pub struct CFG {
    roots: Vec<CFGNodeId>,
    nodes: Vec<CFGNode>,
}

impl CFG {
    pub closed spec fn spec_nodes(self) -> Seq<CFGNode> {
        self.nodes@
    }

    pub closed spec fn spec_roots(self) -> Seq<CFGNodeId> {
        self.roots@
    }

    pub open spec fn wf(self) -> bool {
        &&& nodes_wf(self.spec_nodes())
        &&& forall|i: int|
            0 <= i < self.spec_roots().len() ==> #[trigger] self.spec_roots()[i]
                < self.spec_nodes().len()
    }

    pub fn new() -> (cfg: CFG)
        ensures
            cfg.wf(),
            cfg.spec_nodes().len() == 0,
            cfg.spec_roots().len() == 0,
    {
        CFG { roots: Vec::new(), nodes: Vec::new() }
    }

    /// Read access to a node; an id that was never allocated is a
    /// recoverable error.
    pub fn get(&self, id: &CFGNodeId) -> (r: Result<&CFGNode, VmError>)
        ensures
            match r {
                Ok(node) => *id < self.spec_nodes().len() && *node == self.spec_nodes()[*id as int],
                Err(e) => e == VmError::UnknownNode && *id >= self.spec_nodes().len(),
            },
    {
        if *id < self.nodes.len() {
            Ok(&self.nodes[*id])
        } else {
            Err(VmError::UnknownNode)
        }
    }

    /// Allocates a leaf for `node`, appends its id to the body of the scope
    /// `scope` names, and returns the new id; an id that does not name a
    /// scope is refused and the arena is left unchanged.
    pub fn insert(&mut self, scope: &CFGNodeId, node: InsertCFGNode) -> (r: Result<
        CFGNodeId,
        VmError,
    >)
        requires
            old(self).wf(),
            !(node matches InsertCFGNode::Quotation(_)),
        ensures
            final(self).wf(),
            match r {
                Ok(id) => {
                    &&& *scope < old(self).spec_nodes().len()
                    &&& old(self).spec_nodes()[*scope as int] matches CFGNode::Scope { .. }
                    &&& id == old(self).spec_nodes().len()
                    &&& final(self).spec_nodes().len() == old(self).spec_nodes().len() + 1
                    &&& (match node {
                        InsertCFGNode::Symbol(s) => final(self).spec_nodes()[id as int]
                            == CFGNode::Symbol(s),
                        InsertCFGNode::Unknown(s) => final(self).spec_nodes()[id as int]
                            == CFGNode::Unknown(s),
                        InsertCFGNode::Quotation(_) => false,
                    })
                    &&& (old(self).spec_nodes()[*scope as int] matches CFGNode::Scope {
                        parent: p0,
                        body: b0,
                    } && final(self).spec_nodes()[*scope as int] matches CFGNode::Scope {
                        parent: p1,
                        body: b1,
                    } && p1 == p0 && b1@ == b0@.push(id))
                    &&& forall|i: int|
                        0 <= i < old(self).spec_nodes().len() && i != *scope
                            ==> final(self).spec_nodes()[i] == old(self).spec_nodes()[i]
                    &&& final(self).spec_roots() == old(self).spec_roots()
                },
                Err(e) => {
                    &&& e == VmError::InvalidScope
                    &&& *final(self) == *old(self)
                    &&& (*scope >= old(self).spec_nodes().len() || !(old(
                        self,
                    ).spec_nodes()[*scope as int] matches CFGNode::Scope { .. }))
                },
            },
    {
        let idx = *scope;
        if idx >= self.nodes.len() {
            return Err(VmError::InvalidScope);
        }
        match &self.nodes[idx] {
            CFGNode::Scope { .. } => {},
            _ => {
                return Err(VmError::InvalidScope);
            },
        }
        let id = self.nodes.len();
        match node {
            InsertCFGNode::Symbol(s) => self.nodes.push(CFGNode::Symbol(s)),
            InsertCFGNode::Unknown(s) => self.nodes.push(CFGNode::Unknown(s)),
            InsertCFGNode::Quotation(_) => {
                proof {
                    assert(false);
                }
                return Err(VmError::InvalidScope);
            },
        }
        let slot = &mut self.nodes[idx];
        let mut taken = CFGNode::Unknown(0);
        core::mem::swap(slot, &mut taken);
        match taken {
            CFGNode::Scope { parent, mut body } => {
                body.push(id);
                *slot = CFGNode::Scope { parent, body };
            },
            other => {
                proof {
                    assert(false);
                }
                *slot = other;
            },
        }
        proof {
            let prev = old(self).spec_nodes();
            let now = self.spec_nodes();
            assert forall|i: int| 0 <= i < now.len() implies node_wf(now[i], i, now.len() as int) by {
                if i < prev.len() {
                    assert(node_wf(prev[i], i, prev.len() as int));
                    if i != idx {
                        assert(now[i] == prev[i]);
                    }
                    assert forall|j: int| 0 <= j < node_children(now[i]).len() implies i
                        < #[trigger] node_children(now[i])[j] < now.len() by {
                        if i == idx {
                            let cs0 = node_children(prev[i]);
                            let cs1 = node_children(now[i]);
                            assert(cs1 == cs0.push(id));
                            if j < cs0.len() {
                                assert(i < cs0[j] < prev.len());
                            }
                        } else {
                            assert(i < node_children(prev[i])[j] < prev.len());
                        }
                    }
                } else {
                    assert(node_children(now[i]).len() == 0);
                }
            }
            assert forall|i: int| 0 <= i < self.spec_roots().len() implies #[trigger] self.spec_roots()[i]
                < self.spec_nodes().len() by {
                assert(old(self).spec_roots()[i] < old(self).spec_nodes().len());
            }
        }
        Ok(id)
    }

    /// Copies out the child-id list of a node.
    pub(crate) fn child_list(&self, id: CFGNodeId) -> (r: Vec<CFGNodeId>)
        requires
            id < self.spec_nodes().len(),
        ensures
            r@ == node_children(self.spec_nodes()[id as int]),
    {
        let mut list: Vec<CFGNodeId> = Vec::new();
        match &self.nodes[id] {
            CFGNode::Root(children) => {
                let n = children.len();
                let mut k: usize = 0;
                while k < n
                    invariant
                        0 <= k <= n,
                        n == children@.len(),
                        list@ == children@.subrange(0, k as int),
                    decreases n - k,
                {
                    list.push(children[k]);
                    proof {
                        assert(list@ =~= children@.subrange(0, k + 1 as int));
                    }
                    k = k + 1;
                }
                proof {
                    assert(children@.subrange(0, n as int) =~= children@);
                }
            },
            CFGNode::Scope { body, .. } => {
                let n = body.len();
                let mut k: usize = 0;
                while k < n
                    invariant
                        0 <= k <= n,
                        n == body@.len(),
                        list@ == body@.subrange(0, k as int),
                    decreases n - k,
                {
                    list.push(body[k]);
                    proof {
                        assert(list@ =~= body@.subrange(0, k + 1 as int));
                    }
                    k = k + 1;
                }
                proof {
                    assert(body@.subrange(0, n as int) =~= body@);
                }
            },
            CFGNode::Quotation(body) => {
                list.push(*body);
                proof {
                    assert(list@ =~= seq![*body]);
                }
            },
            CFGNode::Function { body, .. } => {
                list.push(*body);
                proof {
                    assert(list@ =~= seq![*body]);
                }
            },
            CFGNode::ReaderMacro { body, .. } => {
                list.push(*body);
                proof {
                    assert(list@ =~= seq![*body]);
                }
            },
            CFGNode::Macro { body, .. } => {
                list.push(*body);
                proof {
                    assert(list@ =~= seq![*body]);
                }
            },
            _ => {},
        }
        list
    }

    /// Rewrites the node an id names, in place; the replacement must be
    /// well formed at that position.
    pub(crate) fn set_node(&mut self, id: CFGNodeId, node: CFGNode)
        requires
            old(self).wf(),
            id < old(self).spec_nodes().len(),
            node_wf(node, id as int, old(self).spec_nodes().len() as int),
        ensures
            final(self).wf(),
            final(self).spec_nodes() == old(self).spec_nodes().update(id as int, node),
            final(self).spec_roots() == old(self).spec_roots(),
    {
        let slot = &mut self.nodes[id];
        *slot = node;
        proof {
            let prev = old(self).spec_nodes();
            let now = self.spec_nodes();
            assert(now =~= prev.update(id as int, node));
            assert forall|i: int| 0 <= i < now.len() implies node_wf(now[i], i, now.len() as int) by {
                if i != id {
                    assert(now[i] == prev[i]);
                    assert(node_wf(prev[i], i, prev.len() as int));
                }
            }
            assert forall|i: int| 0 <= i < self.spec_roots().len() implies #[trigger] self.spec_roots()[i]
                < self.spec_nodes().len() by {
                assert(old(self).spec_roots()[i] < old(self).spec_nodes().len());
            }
        }
    }

    /// Creates a fresh root holding a single empty scope and returns both
    /// ids.
    pub fn add_root(&mut self) -> (ids: (CFGNodeId, CFGNodeId))
        requires
            old(self).wf(),
            old(self).spec_nodes().len() + 2 <= usize::MAX,
        ensures
            final(self).wf(),
            ids.0 == old(self).spec_nodes().len(),
            ids.1 == old(self).spec_nodes().len() + 1,
            final(self).spec_nodes().len() == old(self).spec_nodes().len() + 2,
            (final(self).spec_nodes()[ids.0 as int] matches CFGNode::Root(children) && children@
                == seq![ids.1]),
            (final(self).spec_nodes()[ids.1 as int] matches CFGNode::Scope { parent, body }
                && parent == ids.0 && body@ == Seq::<CFGNodeId>::empty()),
            forall|i: int|
                0 <= i < old(self).spec_nodes().len() ==> final(self).spec_nodes()[i] == old(
                    self,
                ).spec_nodes()[i],
            final(self).spec_roots() == old(self).spec_roots().push(ids.0),
    {
        let root_id = self.nodes.len();
        let scope_id = root_id + 1;
        let mut children: Vec<CFGNodeId> = Vec::new();
        children.push(scope_id);
        let root = CFGNode::Root(children);
        let scope = CFGNode::Scope { parent: root_id, body: Vec::new() };
        self.roots.push(root_id);
        self.nodes.push(root);
        self.nodes.push(scope);
        proof {
            let prev = old(self).spec_nodes();
            let now = self.spec_nodes();
            assert forall|i: int| 0 <= i < now.len() implies node_wf(now[i], i, now.len() as int) by {
                if i < prev.len() {
                    assert(node_wf(prev[i], i, prev.len() as int));
                    assert(now[i] == prev[i]);
                    assert forall|j: int| 0 <= j < node_children(now[i]).len() implies i
                        < #[trigger] node_children(now[i])[j] < now.len() by {
                        assert(i < node_children(prev[i])[j] < prev.len());
                    }
                } else if i == root_id {
                    assert(node_children(now[i]) =~= seq![scope_id]);
                } else {
                    assert(node_children(now[i]).len() == 0);
                }
            }
            assert forall|i: int| 0 <= i < self.spec_roots().len() implies #[trigger] self.spec_roots()[i]
                < self.spec_nodes().len() by {
                if i < old(self).spec_roots().len() {
                    assert(old(self).spec_roots()[i] < old(self).spec_nodes().len());
                } else {
                    assert(self.spec_roots()[i] == root_id);
                }
            }
        }
        (root_id, scope_id)
    }
}

impl CFG {
    /// Appends an indentation-structured dump of the subtree at `node_id`
    /// to `buffer`: one line per node, child lines two spaces deeper. A
    /// debugging aid for tracing compilation stages, not a stable format.
    #[verifier::loop_isolation(false)]
    pub fn debug_traverse(
        &self,
        symbols: &SymbolStorage,
        node_id: &CFGNodeId,
        buffer: &mut String,
        depth: usize,
    )
        requires
            self.wf(),
            *node_id < self.spec_nodes().len(),
            crate::lower::symbols_valid(self.spec_nodes(), symbols.spec_table().len() as int),
            depth + 2 * (self.spec_nodes().len() - *node_id) <= usize::MAX,
        ensures
            final(buffer)@ == old(buffer)@ + spec_dump(
                self.spec_nodes(),
                symbols.spec_table(),
                *node_id as int,
                depth as int,
            ),
        decreases self.spec_nodes().len() - *node_id,
    {
        let idx = *node_id;
        let ghost nodes = self.spec_nodes();
        let ghost table = symbols.spec_table();
        let ghost base = buffer@;
        proof {
            assert(buffer@ =~= base + spec_spaces(0));
        }
        let mut d: usize = 0;
        while d < depth
            invariant
                0 <= d <= depth,
                buffer@ == base + spec_spaces(d as int),
            decreases depth - d,
        {
            let ghost before = buffer@;
            buffer.append(" ");
            proof {
                reveal_strlit(" ");
                assert(" "@ =~= seq![' ']);
                lemma_spaces_snoc(d as int);
                lemma_dump_add_assoc(base, spec_spaces(d as int), seq![' ']);
            }
            d = d + 1;
        }
        let ghost spaces = spec_spaces(depth as int);
        match self.get(&idx) {
            Ok(node_ref) => match node_ref {
                CFGNode::Root(_) => {
                    buffer.append("root: ");
                    let ds = u64_to_string(idx as u64);
                    buffer.append(ds.as_str());
                    buffer.append("\n");
                    let ghost header = buffer@;
                    let ghost children = node_children(nodes[idx as int]);
                    proof {
                        assert(node_wf(nodes[idx as int], idx as int, nodes.len() as int));
                    }
                    let list = self.child_list(idx);
                    let n = list.len();
                    let mut k: usize = 0;
                    while k < n
                        invariant
                            0 <= k <= n,
                            header + spec_dump_list(nodes, table, children, idx as int, 0, depth + 2)
                                == buffer@ + spec_dump_list(
                                nodes,
                                table,
                                children,
                                idx as int,
                                k as int,
                                depth + 2,
                            ),
                        decreases n - k,
                    {
                        let child = list[k];
                        let ghost buf_k = buffer@;
                        proof {
                            assert(children[k as int] == child);
                            assert(idx < child < nodes.len());
                        }
                        self.debug_traverse(symbols, &child, buffer, depth + 2);
                        proof {
                            lemma_dump_add_assoc(
                                buf_k,
                                spec_dump(nodes, table, child as int, depth + 2),
                                spec_dump_list(nodes, table, children, idx as int, k + 1, depth + 2),
                            );
                        }
                        k = k + 1;
                    }
                    proof {
                        Seq::add_empty_right(
                            buffer@,
                            spec_dump_list(nodes, table, children, idx as int, n as int, depth + 2),
                        );
                        let p1 = "root: "@;
                        let p2 = spec_digits(idx as nat);
                        let p3 = "\n"@;
                        let rest = spec_dump_list(nodes, table, children, idx as int, 0, depth + 2);
                        assert(buffer@ == base + spaces + p1 + p2 + p3 + rest);
                        lemma_dump_add_assoc(base, spaces, p1);
                        lemma_dump_add_assoc(base, spaces + p1, p2);
                        lemma_dump_add_assoc(base, spaces + p1 + p2, p3);
                        lemma_dump_add_assoc(base, spaces + p1 + p2 + p3, rest);
                        assert(spec_dump(nodes, table, idx as int, depth as int) == spaces + p1 + p2
                            + p3 + rest);
                    }
                },
                CFGNode::Scope { parent, .. } => {
                    let parent_id = *parent;
                    buffer.append("scope: ");
                    let ds = u64_to_string(idx as u64);
                    buffer.append(ds.as_str());
                    buffer.append(" <-- ");
                    let ps = u64_to_string(parent_id as u64);
                    buffer.append(ps.as_str());
                    buffer.append("\n");
                    let ghost header = buffer@;
                    let ghost children = node_children(nodes[idx as int]);
                    proof {
                        assert(node_wf(nodes[idx as int], idx as int, nodes.len() as int));
                    }
                    let list = self.child_list(idx);
                    let n = list.len();
                    let mut k: usize = 0;
                    while k < n
                        invariant
                            0 <= k <= n,
                            header + spec_dump_list(nodes, table, children, idx as int, 0, depth + 2)
                                == buffer@ + spec_dump_list(
                                nodes,
                                table,
                                children,
                                idx as int,
                                k as int,
                                depth + 2,
                            ),
                        decreases n - k,
                    {
                        let child = list[k];
                        let ghost buf_k = buffer@;
                        proof {
                            assert(children[k as int] == child);
                            assert(idx < child < nodes.len());
                        }
                        self.debug_traverse(symbols, &child, buffer, depth + 2);
                        proof {
                            lemma_dump_add_assoc(
                                buf_k,
                                spec_dump(nodes, table, child as int, depth + 2),
                                spec_dump_list(nodes, table, children, idx as int, k + 1, depth + 2),
                            );
                        }
                        k = k + 1;
                    }
                    proof {
                        Seq::add_empty_right(
                            buffer@,
                            spec_dump_list(nodes, table, children, idx as int, n as int, depth + 2),
                        );
                        let p1 = "scope: "@;
                        let p2 = spec_digits(idx as nat);
                        let p3 = " <-- "@;
                        let p4 = spec_digits(parent_id as nat);
                        let p5 = "\n"@;
                        let rest = spec_dump_list(nodes, table, children, idx as int, 0, depth + 2);
                        assert(buffer@ == base + spaces + p1 + p2 + p3 + p4 + p5 + rest);
                        lemma_dump_add_assoc(base, spaces, p1);
                        lemma_dump_add_assoc(base, spaces + p1, p2);
                        lemma_dump_add_assoc(base, spaces + p1 + p2, p3);
                        lemma_dump_add_assoc(base, spaces + p1 + p2 + p3, p4);
                        lemma_dump_add_assoc(base, spaces + p1 + p2 + p3 + p4, p5);
                        lemma_dump_add_assoc(base, spaces + p1 + p2 + p3 + p4 + p5, rest);
                        assert(spec_dump(nodes, table, idx as int, depth as int) == spaces + p1 + p2
                            + p3 + p4 + p5 + rest);
                    }
                },
                CFGNode::Symbol(sym_id) => {
                    let sid = *sym_id;
                    buffer.append("symbol: ");
                    let ds = u64_to_string(idx as u64);
                    buffer.append(ds.as_str());
                    buffer.append(" --> ");
                    let ss = u64_to_string(sid as u64);
                    buffer.append(ss.as_str());
                    buffer.append(" | ");
                    match symbols.get(&sid) {
                        Ok(sym) => {
                            buffer.append(sym.identifier.as_str());
                        },
                        Err(_) => {
                            proof {
                                assert(false);
                            }
                        },
                    }
                    buffer.append("\n");
                    proof {
                        let p1 = "symbol: "@;
                        let p2 = spec_digits(idx as nat);
                        let p3 = " --> "@;
                        let p4 = spec_digits(sid as nat);
                        let p5 = " | "@;
                        let p6 = table[sid as int].identifier@;
                        let p7 = "\n"@;
                        assert(buffer@ == base + spaces + p1 + p2 + p3 + p4 + p5 + p6 + p7);
                        lemma_dump_add_assoc(base, spaces, p1);
                        lemma_dump_add_assoc(base, spaces + p1, p2);
                        lemma_dump_add_assoc(base, spaces + p1 + p2, p3);
                        lemma_dump_add_assoc(base, spaces + p1 + p2 + p3, p4);
                        lemma_dump_add_assoc(base, spaces + p1 + p2 + p3 + p4, p5);
                        lemma_dump_add_assoc(base, spaces + p1 + p2 + p3 + p4 + p5, p6);
                        lemma_dump_add_assoc(base, spaces + p1 + p2 + p3 + p4 + p5 + p6, p7);
                        assert(spec_dump(nodes, table, idx as int, depth as int) == spaces + p1 + p2
                            + p3 + p4 + p5 + p6 + p7);
                    }
                },
                CFGNode::Unknown(sym_id) => {
                    let sid = *sym_id;
                    buffer.append("unknown: ");
                    let ds = u64_to_string(idx as u64);
                    buffer.append(ds.as_str());
                    buffer.append(" --> ");
                    let ss = u64_to_string(sid as u64);
                    buffer.append(ss.as_str());
                    buffer.append("\n");
                    proof {
                        let p1 = "unknown: "@;
                        let p2 = spec_digits(idx as nat);
                        let p3 = " --> "@;
                        let p4 = spec_digits(sid as nat);
                        let p5 = "\n"@;
                        assert(buffer@ == base + spaces + p1 + p2 + p3 + p4 + p5);
                        lemma_dump_add_assoc(base, spaces, p1);
                        lemma_dump_add_assoc(base, spaces + p1, p2);
                        lemma_dump_add_assoc(base, spaces + p1 + p2, p3);
                        lemma_dump_add_assoc(base, spaces + p1 + p2 + p3, p4);
                        lemma_dump_add_assoc(base, spaces + p1 + p2 + p3 + p4, p5);
                        assert(spec_dump(nodes, table, idx as int, depth as int) == spaces + p1 + p2
                            + p3 + p4 + p5);
                    }
                },
                CFGNode::Number(num) => {
                    let value = *num;
                    buffer.append("number: ");
                    let ds = u64_to_string(idx as u64);
                    buffer.append(ds.as_str());
                    buffer.append(" --> ");
                    let rendered = Builtin::Number(value).to_string();
                    buffer.append(rendered.as_str());
                    buffer.append("\n");
                    proof {
                        let p1 = "number: "@;
                        let p2 = spec_digits(idx as nat);
                        let p3 = " --> "@;
                        let p4 = value.spec_render();
                        let p5 = "\n"@;
                        assert(buffer@ == base + spaces + p1 + p2 + p3 + p4 + p5);
                        lemma_dump_add_assoc(base, spaces, p1);
                        lemma_dump_add_assoc(base, spaces + p1, p2);
                        lemma_dump_add_assoc(base, spaces + p1 + p2, p3);
                        lemma_dump_add_assoc(base, spaces + p1 + p2 + p3, p4);
                        lemma_dump_add_assoc(base, spaces + p1 + p2 + p3 + p4, p5);
                        assert(spec_dump(nodes, table, idx as int, depth as int) == spaces + p1 + p2
                            + p3 + p4 + p5);
                    }
                },
                CFGNode::Builtin(b) => {
                    let op = *b;
                    buffer.append("builtin: ");
                    let ds = u64_to_string(idx as u64);
                    buffer.append(ds.as_str());
                    buffer.append(" --> ");
                    let rendered = op.to_string();
                    buffer.append(rendered.as_str());
                    buffer.append("\n");
                    proof {
                        let p1 = "builtin: "@;
                        let p2 = spec_digits(idx as nat);
                        let p3 = " --> "@;
                        let p4 = op.spec_name();
                        let p5 = "\n"@;
                        assert(buffer@ == base + spaces + p1 + p2 + p3 + p4 + p5);
                        lemma_dump_add_assoc(base, spaces, p1);
                        lemma_dump_add_assoc(base, spaces + p1, p2);
                        lemma_dump_add_assoc(base, spaces + p1 + p2, p3);
                        lemma_dump_add_assoc(base, spaces + p1 + p2 + p3, p4);
                        lemma_dump_add_assoc(base, spaces + p1 + p2 + p3 + p4, p5);
                        assert(spec_dump(nodes, table, idx as int, depth as int) == spaces + p1 + p2
                            + p3 + p4 + p5);
                    }
                },
                _ => {
                    proof {
                        assert(false);
                    }
                },
            },
            Err(_) => {
                proof {
                    assert(false);
                }
            },
        }
    }
}

/// Concatenation of dump text is associative.
proof fn lemma_dump_add_assoc(a: Seq<char>, b: Seq<char>, c: Seq<char>)
    ensures
        a + b + c == a + (b + c),
{
    assert(a + b + c =~= a + (b + c));
}

/// An indentation of `n` spaces.
pub open spec fn spec_spaces(n: int) -> Seq<char>
    decreases n,
{
    if n <= 0 {
        Seq::<char>::empty()
    } else {
        seq![' '] + spec_spaces(n - 1)
    }
}

/// Indentation grows one space at a time, at the right end.
pub proof fn lemma_spaces_snoc(n: int)
    requires
        n >= 0,
    ensures
        spec_spaces(n + 1) == spec_spaces(n) + seq![' '],
    decreases n,
{
    if n == 0 {
        assert(spec_spaces(0) == Seq::<char>::empty());
        assert(spec_spaces(1) == seq![' '] + spec_spaces(0));
        assert(seq![' '] + Seq::<char>::empty() =~= Seq::<char>::empty() + seq![' ']);
    } else {
        lemma_spaces_snoc(n - 1);
        assert(seq![' '] + (spec_spaces(n - 1) + seq![' ']) =~= (seq![' '] + spec_spaces(n - 1))
            + seq![' ']);
    }
}

/// The dump line (and, for scopes, subtree) of one node: one line per
/// node, child lines indented two spaces deeper.
pub open spec fn spec_dump(nodes: Seq<CFGNode>, table: Seq<Symbol>, id: int, depth: int) -> Seq<
    char,
>
    decreases nodes.len() - id, 1int, 0int
        when 0 <= id < nodes.len() && nodes_wf(nodes)
{
    spec_spaces(depth) + match nodes[id] {
        CFGNode::Root(_) => "root: "@ + spec_digits(id as nat) + "\n"@ + spec_dump_list(
            nodes,
            table,
            node_children(nodes[id]),
            id,
            0,
            depth + 2,
        ),
        CFGNode::Scope { parent, .. } => "scope: "@ + spec_digits(id as nat) + " <-- "@
            + spec_digits(parent as nat) + "\n"@ + spec_dump_list(
            nodes,
            table,
            node_children(nodes[id]),
            id,
            0,
            depth + 2,
        ),
        CFGNode::Symbol(sid) => "symbol: "@ + spec_digits(id as nat) + " --> "@ + spec_digits(
            sid as nat,
        ) + " | "@ + (if sid < table.len() {
            table[sid as int].identifier@
        } else {
            Seq::<char>::empty()
        }) + "\n"@,
        CFGNode::Unknown(sid) => "unknown: "@ + spec_digits(id as nat) + " --> "@ + spec_digits(
            sid as nat,
        ) + "\n"@,
        CFGNode::Number(num) => "number: "@ + spec_digits(id as nat) + " --> "@ + num.spec_render()
            + "\n"@,
        CFGNode::Builtin(b) => "builtin: "@ + spec_digits(id as nat) + " --> "@ + b.spec_name()
            + "\n"@,
        _ => Seq::<char>::empty(),
    }
}

/// The dumps of the children from position `k` on, in order.
pub open spec fn spec_dump_list(
    nodes: Seq<CFGNode>,
    table: Seq<Symbol>,
    ids: Seq<CFGNodeId>,
    parent: int,
    k: int,
    depth: int,
) -> Seq<char>
    decreases nodes.len() - parent, 0int, ids.len() - k
        when nodes_wf(nodes) && 0 <= parent < nodes.len() && ids == node_children(nodes[parent])
{
    if k < 0 || k >= ids.len() {
        Seq::<char>::empty()
    } else {
        spec_dump(nodes, table, ids[k] as int, depth) + spec_dump_list(
            nodes,
            table,
            ids,
            parent,
            k + 1,
            depth,
        )
    }
}

} // verus!
