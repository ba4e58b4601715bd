//! The lowering pass: a depth-first walk that rewrites symbol-reference
//! leaves into self-contained operation nodes by one lookup into the symbol
//! table.
//!
//! The rewrite is in place — same node id, new variant — so no downstream
//! reference needs updating, and it removes the symbol table as a
//! dependency for every later stage. Re-running the pass over an
//! already-lowered subtree rewrites nothing further, because the lowered
//! variants are not themselves rewrite targets.

use vstd::prelude::*;

use crate::builtin::Builtin;
use crate::cfg::node_children;
use crate::cfg::node_wf;
use crate::cfg::nodes_wf;
use crate::cfg::CFG;
use crate::cfg::CFGNode;
use crate::cfg::CFGNodeId;
use crate::symbol::Symbol;
use crate::symbol::SymbolId;
use crate::symbol::SymbolKind;
use crate::symbol::SymbolStorage;

verus! {

/// What one lowering step makes of a node: a symbol reference to a builtin
/// becomes the self-contained literal or operator node; every other node is
/// left untouched.
pub open spec fn lower_node(node: CFGNode, table: Seq<Symbol>) -> CFGNode {
    match node {
        CFGNode::Symbol(id) => if id < table.len() {
            match table[id as int].kind {
                SymbolKind::Builtin(b) => match b {
                    Builtin::Number(num) => CFGNode::Number(num),
                    _ => CFGNode::Builtin(b),
                },
                _ => node,
            }
        } else {
            node
        },
        _ => node,
    }
}

/// Every symbol reference in the arena names an allocated symbol.
pub open spec fn symbols_valid(nodes: Seq<CFGNode>, nsyms: int) -> bool {
    forall|i: int|
        0 <= i < nodes.len() ==> match #[trigger] nodes[i] {
            CFGNode::Symbol(s) => s < nsyms,
            _ => true,
        }
}

/// Membership of node `i` in the subtree rooted at `root`.
pub open spec fn in_subtree(nodes: Seq<CFGNode>, root: int, i: int) -> bool
    decreases nodes.len() - root
        when 0 <= root < nodes.len() && nodes_wf(nodes)
{
    ||| i == root
    ||| exists|j: int|
        0 <= j < node_children(nodes[root]).len() && in_subtree(
            nodes,
            #[trigger] node_children(nodes[root])[j] as int,
            i,
        )
}

/// The arena after lowering the subtree at `root`.
pub open spec fn spec_lowered(nodes: Seq<CFGNode>, table: Seq<Symbol>, root: int) -> Seq<CFGNode> {
    Seq::new(
        nodes.len(),
        |i: int|
            if in_subtree(nodes, root, i) {
                lower_node(nodes[i], table)
            } else {
                nodes[i]
            },
    )
}

/// Lowering keeps a node's children and its well-formedness at its
/// position.
pub proof fn lemma_lower_node_wf(node: CFGNode, table: Seq<Symbol>, i: int, len: int)
    ensures
        node_children(lower_node(node, table)) == node_children(node),
        node_wf(node, i, len) ==> node_wf(lower_node(node, table), i, len),
{
}

/// An already-lowered node is not a rewrite target.
pub proof fn lemma_lower_node_idempotent(node: CFGNode, table: Seq<Symbol>)
    ensures
        lower_node(lower_node(node, table), table) == lower_node(node, table),
{
}

/// A subtree only reaches ids at or after its root.
pub proof fn lemma_in_subtree_ge(nodes: Seq<CFGNode>, root: int, i: int)
    requires
        nodes_wf(nodes),
        0 <= root < nodes.len(),
    ensures
        in_subtree(nodes, root, i) ==> i >= root,
    decreases nodes.len() - root,
{
    let cs = node_children(nodes[root]);
    assert(node_wf(nodes[root], root, nodes.len() as int));
    assert forall|j: int|
        0 <= j < cs.len() && in_subtree(nodes, #[trigger] cs[j] as int, i) implies i >= cs[j] by {
        lemma_in_subtree_ge(nodes, cs[j] as int, i);
    }
}

/// Two arenas of the same length whose nodes have the same children have
/// the same subtrees.
pub proof fn lemma_in_subtree_frame(a: Seq<CFGNode>, b: Seq<CFGNode>, root: int, i: int)
    requires
        nodes_wf(a),
        nodes_wf(b),
        b.len() == a.len(),
        forall|x: int| 0 <= x < a.len() ==> node_children(#[trigger] b[x]) == node_children(a[x]),
        0 <= root < a.len(),
    ensures
        in_subtree(b, root, i) == in_subtree(a, root, i),
    decreases a.len() - root,
{
    let cs = node_children(a[root]);
    assert(node_children(b[root]) == cs);
    assert(node_wf(a[root], root, a.len() as int));
    assert forall|j: int| 0 <= j < cs.len() implies in_subtree(b, #[trigger] cs[j] as int, i)
        == in_subtree(a, cs[j] as int, i) by {
        lemma_in_subtree_frame(a, b, cs[j] as int, i);
    }
    if in_subtree(a, root, i) && i != root {
        let jw = choose|j: int|
            0 <= j < cs.len() && in_subtree(a, #[trigger] node_children(a[root])[j] as int, i);
        assert(in_subtree(b, cs[jw] as int, i));
        assert(exists|j: int|
            0 <= j < node_children(b[root]).len() && in_subtree(
                b,
                #[trigger] node_children(b[root])[j] as int,
                i,
            ));
    }
    if in_subtree(b, root, i) && i != root {
        let jw = choose|j: int|
            0 <= j < cs.len() && in_subtree(b, #[trigger] node_children(b[root])[j] as int, i);
        assert(in_subtree(a, cs[jw] as int, i));
        assert(exists|j: int|
            0 <= j < node_children(a[root]).len() && in_subtree(
                a,
                #[trigger] node_children(a[root])[j] as int,
                i,
            ));
    }
}

/// The lowered arena is well formed and has the same children structure.
pub proof fn lemma_lowered_wf(nodes: Seq<CFGNode>, table: Seq<Symbol>, root: int)
    requires
        nodes_wf(nodes),
    ensures
        nodes_wf(spec_lowered(nodes, table, root)),
        spec_lowered(nodes, table, root).len() == nodes.len(),
        forall|x: int|
            0 <= x < nodes.len() ==> node_children(
                #[trigger] spec_lowered(nodes, table, root)[x],
            ) == node_children(nodes[x]),
{
    let low = spec_lowered(nodes, table, root);
    assert forall|x: int| 0 <= x < nodes.len() implies node_children(#[trigger] low[x])
        == node_children(nodes[x]) by {
        lemma_lower_node_wf(nodes[x], table, x, nodes.len() as int);
    }
    assert forall|x: int| 0 <= x < low.len() implies node_wf(low[x], x, low.len() as int) by {
        assert(node_wf(nodes[x], x, nodes.len() as int));
        lemma_lower_node_wf(nodes[x], table, x, nodes.len() as int);
    }
}

/// Lowering idempotence: applying the pass to an already-lowered tree
/// produces no further rewrites.
pub proof fn lemma_lowering_idempotent(nodes: Seq<CFGNode>, table: Seq<Symbol>, root: int)
    requires
        nodes_wf(nodes),
        0 <= root < nodes.len(),
    ensures
        spec_lowered(spec_lowered(nodes, table, root), table, root) == spec_lowered(
            nodes,
            table,
            root,
        ),
{
    let a = spec_lowered(nodes, table, root);
    lemma_lowered_wf(nodes, table, root);
    assert forall|i: int| 0 <= i < a.len() implies spec_lowered(a, table, root)[i] == a[i] by {
        lemma_in_subtree_frame(nodes, a, root, i);
        if in_subtree(a, root, i) {
            lemma_lower_node_idempotent(nodes[i], table);
        }
    }
    assert(spec_lowered(a, table, root) =~= a);
}

impl CFG {
    /// Depth-first lowering of the subtree rooted at `node`; every other
    /// node of the arena is left exactly as it was.
    #[verifier::loop_isolation(false)]
    pub fn lower(&mut self, symbols: &SymbolStorage, node: &CFGNodeId)
        requires
            old(self).wf(),
            *node < old(self).spec_nodes().len(),
            symbols_valid(old(self).spec_nodes(), symbols.spec_table().len() as int),
        ensures
            final(self).wf(),
            final(self).spec_nodes() == spec_lowered(
                old(self).spec_nodes(),
                symbols.spec_table(),
                *node as int,
            ),
            final(self).spec_roots() == old(self).spec_roots(),
            symbols_valid(final(self).spec_nodes(), symbols.spec_table().len() as int),
        decreases old(self).spec_nodes().len() - *node,
    {
        let idx = *node;
        let ghost nodes0 = self.spec_nodes();
        let ghost table = symbols.spec_table();
        let ghost roots0 = self.spec_roots();
        let mut sym_target: Option<SymbolId> = None;
        let mut branch: bool = false;
        match self.get(&idx) {
            Ok(node_ref) => match node_ref {
                CFGNode::Root(_) => {
                    branch = true;
                },
                CFGNode::Scope { .. } => {
                    branch = true;
                },
                CFGNode::Symbol(s) => {
                    sym_target = Some(*s);
                },
                _ => {},
            },
            Err(_) => {
                proof {
                    assert(false);
                }
            },
        }
        if branch {
            let list = self.child_list(idx);
            let ghost children0 = node_children(nodes0[idx as int]);
            let n = list.len();
            let mut k: usize = 0;
            proof {
                assert(node_wf(nodes0[idx as int], idx as int, nodes0.len() as int));
            }
            while k < n
                invariant
                    0 <= k <= n,
                    idx < nodes0.len(),
                    nodes_wf(nodes0),
                    node_wf(nodes0[idx as int], idx as int, nodes0.len() as int),
                    children0 == node_children(nodes0[idx as int]),
                    n == children0.len(),
                    list@ == children0,
                    table == symbols.spec_table(),
                    self.wf(),
                    self.spec_nodes().len() == nodes0.len(),
                    self.spec_roots() == roots0,
                    symbols_valid(self.spec_nodes(), table.len() as int),
                    forall|x: int|
                        0 <= x < nodes0.len() ==> node_children(#[trigger] self.spec_nodes()[x])
                            == node_children(nodes0[x]),
                    forall|i2: int|
                        0 <= i2 < nodes0.len() ==> #[trigger] self.spec_nodes()[i2] == (
                        if (exists|j: int|
                            0 <= j < k && in_subtree(nodes0, #[trigger] children0[j] as int, i2)) {
                            lower_node(nodes0[i2], table)
                        } else {
                            nodes0[i2]
                        }),
                decreases n - k,
            {
                let child = list[k];
                let ghost prev = self.spec_nodes();
                proof {
                    assert(children0[k as int] == child);
                    assert(idx < child < nodes0.len());
                }
                self.lower(symbols, &child);
                proof {
                    let now = self.spec_nodes();
                    assert(now == spec_lowered(prev, table, child as int));
                    assert forall|i2: int| 0 <= i2 < nodes0.len() implies #[trigger] now[i2] == (
                    if (exists|j: int|
                        0 <= j < k + 1 && in_subtree(nodes0, #[trigger] children0[j] as int, i2)) {
                        lower_node(nodes0[i2], table)
                    } else {
                        nodes0[i2]
                    }) by {
                        lemma_in_subtree_frame(nodes0, prev, child as int, i2);
                        let hit_new = in_subtree(nodes0, child as int, i2);
                        let hit_old = exists|j: int|
                            0 <= j < k && in_subtree(nodes0, #[trigger] children0[j] as int, i2);
                        assert(now[i2] == if in_subtree(prev, child as int, i2) {
                            lower_node(prev[i2], table)
                        } else {
                            prev[i2]
                        });
                        if hit_old {
                            let jw = choose|j: int|
                                0 <= j < k && in_subtree(
                                    nodes0,
                                    #[trigger] children0[j] as int,
                                    i2,
                                );
                            assert(in_subtree(nodes0, children0[jw] as int, i2));
                            assert(0 <= jw < k + 1);
                            assert(exists|j: int|
                                0 <= j < k + 1 && in_subtree(
                                    nodes0,
                                    #[trigger] children0[j] as int,
                                    i2,
                                ));
                            assert(prev[i2] == lower_node(nodes0[i2], table));
                            if hit_new {
                                lemma_lower_node_idempotent(nodes0[i2], table);
                            }
                            assert(now[i2] == lower_node(nodes0[i2], table));
                        } else if hit_new {
                            assert(0 <= k < k + 1 && in_subtree(
                                nodes0,
                                children0[k as int] as int,
                                i2,
                            ));
                            assert(exists|j: int|
                                0 <= j < k + 1 && in_subtree(
                                    nodes0,
                                    #[trigger] children0[j] as int,
                                    i2,
                                ));
                            assert(prev[i2] == nodes0[i2]);
                            assert(now[i2] == lower_node(nodes0[i2], table));
                        } else {
                            assert(now[i2] == prev[i2]);
                            assert(prev[i2] == nodes0[i2]);
                            if (exists|j: int|
                                0 <= j < k + 1 && in_subtree(
                                    nodes0,
                                    #[trigger] children0[j] as int,
                                    i2,
                                )) {
                                let jw = choose|j: int|
                                    0 <= j < k + 1 && in_subtree(
                                        nodes0,
                                        #[trigger] children0[j] as int,
                                        i2,
                                    );
                                if jw < k {
                                    assert(hit_old);
                                } else {
                                    assert(jw == k);
                                    assert(hit_new);
                                }
                                assert(false);
                            }
                        }
                    }
                    assert forall|x: int| 0 <= x < nodes0.len() implies node_children(
                        #[trigger] now[x],
                    ) == node_children(nodes0[x]) by {
                        lemma_lower_node_wf(prev[x], table, x, nodes0.len() as int);
                    }
                    assert forall|x: int| 0 <= x < nodes0.len() implies match #[trigger] now[x] {
                        CFGNode::Symbol(s) => s < table.len(),
                        _ => true,
                    } by {
                        assert(match prev[x] {
                            CFGNode::Symbol(s) => s < table.len(),
                            _ => true,
                        });
                    }
                }
                k = k + 1;
            }
            proof {
                let now = self.spec_nodes();
                assert forall|i2: int| 0 <= i2 < nodes0.len() implies #[trigger] now[i2]
                    == spec_lowered(nodes0, table, idx as int)[i2] by {
                    let hit = in_subtree(nodes0, idx as int, i2);
                    let hit_kids = exists|j: int|
                        0 <= j < n && in_subtree(nodes0, #[trigger] children0[j] as int, i2);
                    if i2 == idx {
                        assert(hit);
                        if hit_kids {
                            let jw = choose|j: int|
                                0 <= j < n && in_subtree(
                                    nodes0,
                                    #[trigger] children0[j] as int,
                                    i2,
                                );
                            lemma_in_subtree_ge(nodes0, children0[jw] as int, i2);
                            assert(false);
                        }
                        assert(now[i2] == nodes0[i2]);
                        assert(lower_node(nodes0[i2], table) == nodes0[i2]);
                    } else {
                        if hit {
                            let jw = choose|j: int|
                                0 <= j < node_children(nodes0[idx as int]).len() && in_subtree(
                                    nodes0,
                                    #[trigger] node_children(nodes0[idx as int])[j] as int,
                                    i2,
                                );
                            assert(in_subtree(nodes0, children0[jw] as int, i2));
                            assert(hit_kids);
                        }
                        if hit_kids {
                            let jw = choose|j: int|
                                0 <= j < n && in_subtree(
                                    nodes0,
                                    #[trigger] children0[j] as int,
                                    i2,
                                );
                            assert(in_subtree(
                                nodes0,
                                node_children(nodes0[idx as int])[jw] as int,
                                i2,
                            ));
                            assert(hit);
                        }
                        assert(hit == hit_kids);
                    }
                }
                assert(now =~= spec_lowered(nodes0, table, idx as int));
            }
        } else if let Some(sid) = sym_target {
            proof {
                assert(nodes0[idx as int] == CFGNode::Symbol(sid));
                assert(sid < table.len());
            }
            match symbols.get(&sid) {
                Ok(sym) => {
                    match &sym.kind {
                        SymbolKind::Builtin(b) => match b {
                            Builtin::Number(num) => {
                                let value = *num;
                                proof {
                                    assert(node_wf(
                                        CFGNode::Number(value),
                                        idx as int,
                                        nodes0.len() as int,
                                    ));
                                }
                                self.set_node(idx, CFGNode::Number(value));
                            },
                            _ => {
                                let op = *b;
                                proof {
                                    assert(node_wf(
                                        CFGNode::Builtin(op),
                                        idx as int,
                                        nodes0.len() as int,
                                    ));
                                }
                                self.set_node(idx, CFGNode::Builtin(op));
                            },
                        },
                        _ => {},
                    }
                },
                Err(_) => {
                    proof {
                        assert(false);
                    }
                },
            }
            proof {
                assert forall|i2: int| 0 <= i2 < nodes0.len() implies #[trigger] self.spec_nodes()[i2]
                    == spec_lowered(nodes0, table, idx as int)[i2] by {
                    assert(node_children(nodes0[idx as int]).len() == 0);
                    assert(in_subtree(nodes0, idx as int, i2) == (i2 == idx));
                    if i2 == idx {
                        assert(self.spec_nodes()[i2] == lower_node(nodes0[i2], table));
                    }
                }
                assert(self.spec_nodes() =~= spec_lowered(nodes0, table, idx as int));
            }
        } else {
            proof {
                assert forall|i2: int| 0 <= i2 < nodes0.len() implies #[trigger] self.spec_nodes()[i2]
                    == spec_lowered(nodes0, table, idx as int)[i2] by {
                    assert(node_children(nodes0[idx as int]).len() == 0);
                    assert(in_subtree(nodes0, idx as int, i2) == (i2 == idx));
                    if i2 == idx {
                        assert(lower_node(nodes0[i2], table) == nodes0[i2]);
                    }
                }
                assert(self.spec_nodes() =~= spec_lowered(nodes0, table, idx as int));
            }
        }
    }
}

} // verus!
