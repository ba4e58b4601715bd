use vm::builtin::Builtin;
use vm::builtin::Number;
use vm::cfg::CFGNode;
use vm::cfg::InsertCFGNode;
use vm::cfg::CFG;
use vm::jit::Jitter;
use vm::symbol::SymbolStorage;
use vm::VmError;

#[test]
fn roots_and_scopes() {
    let mut cfg = CFG::new();
    let (root, scope) = cfg.add_root();
    assert_eq!((root, scope), (0, 1));
    assert!(matches!(cfg.get(&root), Ok(CFGNode::Root(_))));
    assert!(matches!(cfg.get(&scope), Ok(CFGNode::Scope { parent: 0, .. })));
    let (second_root, second_scope) = cfg.add_root();
    assert_eq!((second_root, second_scope), (2, 3));
}

#[test]
fn insert_appends_under_scope() {
    let mut cfg = CFG::new();
    let (_root, scope) = cfg.add_root();
    let first = cfg.insert(&scope, InsertCFGNode::Symbol(4)).expect("insert");
    let second = cfg.insert(&scope, InsertCFGNode::Unknown(9)).expect("insert");
    assert_eq!((first, second), (2, 3));
    assert!(matches!(cfg.get(&first), Ok(CFGNode::Symbol(4))));
    assert!(matches!(cfg.get(&second), Ok(CFGNode::Unknown(9))));
    match cfg.get(&scope) {
        Ok(CFGNode::Scope { body, .. }) => assert_eq!(body, &vec![2, 3]),
        _ => panic!("the scope must still be a scope"),
    }
}

#[test]
fn insert_refuses_non_scopes() {
    let mut cfg = CFG::new();
    let (root, scope) = cfg.add_root();
    let leaf = cfg.insert(&scope, InsertCFGNode::Symbol(0)).expect("insert");
    assert_eq!(cfg.insert(&root, InsertCFGNode::Symbol(1)), Err(VmError::InvalidScope));
    assert_eq!(cfg.insert(&leaf, InsertCFGNode::Symbol(1)), Err(VmError::InvalidScope));
    let absent = 17;
    assert_eq!(cfg.insert(&absent, InsertCFGNode::Symbol(1)), Err(VmError::InvalidScope));
}

#[test]
fn get_refuses_unallocated_ids() {
    let cfg = CFG::new();
    match cfg.get(&0) {
        Err(e) => assert_eq!(e, VmError::UnknownNode),
        Ok(_) => panic!("an empty arena holds nothing"),
    }
}

#[test]
fn lowering_rewrites_symbol_references_in_place() {
    let mut symbols = SymbolStorage::new();
    let seven = Builtin::Number(Number::Uint(7)).add_symbol(&mut symbols);
    let plus = Builtin::Add.add_symbol(&mut symbols);
    let mut cfg = CFG::new();
    let (root, scope) = cfg.add_root();
    let first = cfg.insert(&scope, InsertCFGNode::Symbol(seven)).expect("insert");
    let second = cfg.insert(&scope, InsertCFGNode::Symbol(plus)).expect("insert");
    cfg.lower(&symbols, &root);
    assert!(matches!(cfg.get(&first), Ok(CFGNode::Number(Number::Uint(7)))));
    assert!(matches!(cfg.get(&second), Ok(CFGNode::Builtin(Builtin::Add))));
}

#[test]
fn lowering_twice_changes_nothing_more() {
    let mut symbols = SymbolStorage::new();
    let five = Builtin::Number(Number::Uint(5)).add_symbol(&mut symbols);
    let mut cfg = CFG::new();
    let (root, scope) = cfg.add_root();
    let leaf = cfg.insert(&scope, InsertCFGNode::Symbol(five)).expect("insert");
    cfg.lower(&symbols, &root);
    cfg.lower(&symbols, &root);
    assert!(matches!(cfg.get(&leaf), Ok(CFGNode::Number(Number::Uint(5)))));
}

#[test]
fn lowering_leaves_unknown_references_untouched() {
    let mut symbols = SymbolStorage::new();
    let mut cfg = CFG::new();
    let (root, scope) = cfg.add_root();
    let leaf = cfg.insert(&scope, InsertCFGNode::Unknown(3)).expect("insert");
    cfg.lower(&symbols, &root);
    assert!(matches!(cfg.get(&leaf), Ok(CFGNode::Unknown(3))));
}

#[test]
fn jitter_compiles_a_lowered_tree() {
    let mut symbols = SymbolStorage::new();
    let seven = Builtin::Number(Number::Uint(7)).add_symbol(&mut symbols);
    let mut cfg = CFG::new();
    let (root, scope) = cfg.add_root();
    cfg.insert(&scope, InsertCFGNode::Symbol(seven)).expect("insert");
    cfg.lower(&symbols, &root);
    let mut jitter = Jitter::new();
    jitter.compile_cfg(&cfg, &root).expect("compile");
    assert_eq!(jitter.next, vec![0x6A, 0x07, 0xC3]);
}

#[test]
fn jitter_traverse_appends_without_return() {
    let mut symbols = SymbolStorage::new();
    let seven = Builtin::Number(Number::Uint(7)).add_symbol(&mut symbols);
    let mut cfg = CFG::new();
    let (root, scope) = cfg.add_root();
    cfg.insert(&scope, InsertCFGNode::Symbol(seven)).expect("insert");
    cfg.lower(&symbols, &root);
    let mut jitter = Jitter::new();
    jitter.traverse_cfg(&cfg, &root).expect("traverse");
    assert_eq!(jitter.next, vec![0x6A, 0x07]);
}

#[test]
fn dump_shows_each_node_on_its_own_line() {
    let mut symbols = SymbolStorage::new();
    let five = Builtin::Number(Number::Uint(5)).add_symbol(&mut symbols);
    let mut cfg = CFG::new();
    let (root, scope) = cfg.add_root();
    cfg.insert(&scope, InsertCFGNode::Symbol(five)).expect("insert");
    let mut buffer = String::new();
    cfg.debug_traverse(&symbols, &root, &mut buffer, 0);
    assert_eq!(buffer, "root: 0\n  scope: 1 <-- 0\n    symbol: 2 --> 0 | 5\n");
}
