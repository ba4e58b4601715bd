use vm::builtin::Builtin;
use vm::builtin::Number;
use vm::context::Context;
use vm::symbol::SymbolKind;
use vm::symbol::SymbolStorage;
use vm::VmError;

#[test]
fn demo_program_compiles() {
    // net stack effect of the demo source is zero: push, push, add, drop
    let mut context = Context::new();
    let out = context.compile_source("5 10 + drop\n").expect("demo should compile");
    let unit = context.unit(&out.unit).expect("unit should be registered");
    assert_eq!(
        unit.opcodes,
        vec![0x6A, 0x05, 0x6A, 0x0A, 0x59, 0x58, 0x48, 0x01, 0xC8, 0x50, 0x58, 0xC3]
    );
}

#[test]
fn addition_program_bytes() {
    let mut context = Context::new();
    let out = context.compile_source("3 4 +").expect("addition should compile");
    let unit = context.unit(&out.unit).expect("unit should be registered");
    assert_eq!(
        unit.opcodes,
        vec![0x6A, 0x03, 0x6A, 0x04, 0x59, 0x58, 0x48, 0x01, 0xC8, 0x50, 0xC3]
    );
}

#[test]
fn compilation_listing() {
    let mut context = Context::new();
    let out = context.compile_source("3 4 +").expect("addition should compile");
    let unit = context.unit(&out.unit).expect("unit should be registered");
    assert_eq!(
        unit.to_string(),
        "push 3 ; byte\npush 4 ; byte\npop RCX\npop RAX\nadd RAX, RCX\npush RAX\n"
    );
}

#[test]
fn identical_source_compiles_to_identical_bytes() {
    // determinism: the same text, compiled twice in the same context,
    // yields byte-identical encoded output
    let mut context = Context::new();
    let first = context.compile_source("5 10 + drop").expect("first compile");
    let second = context.compile_source("5 10 + drop").expect("second compile");
    let a = context.unit(&first.unit).expect("first unit").opcodes.clone();
    let b = context.unit(&second.unit).expect("second unit").opcodes.clone();
    assert_eq!(a, b);
}

#[test]
fn identical_source_across_contexts() {
    let mut one = Context::new();
    let mut two = Context::new();
    let a = one.compile_source("1 2 + 3 +").expect("first context");
    let b = two.compile_source("1 2 + 3 +").expect("second context");
    assert_eq!(
        one.unit(&a.unit).expect("unit").opcodes,
        two.unit(&b.unit).expect("unit").opcodes
    );
}

#[test]
fn unknown_word_is_an_error() {
    let mut context = Context::new();
    match context.compile_source("5 frobnicate +") {
        Err(e) => assert_eq!(e, VmError::UnknownSymbol),
        Ok(_) => panic!("an unknown word must abort the compilation"),
    }
    // the aborted compilation registered nothing
    assert!(context.unit(&0).is_err());
}

#[test]
fn oversized_literal_is_rejected_not_truncated() {
    // a literal beyond the 32-bit range needs the eight-byte push path,
    // which the instruction set has no form for
    let mut context = Context::new();
    match context.compile_source("1000000000000") {
        Err(e) => assert_eq!(e, VmError::OperandSizeMismatch),
        Ok(_) => panic!("an oversized literal must abort the compilation"),
    }
    assert!(context.unit(&0).is_err());
}

#[test]
fn wide_literal_uses_dword_push() {
    let mut context = Context::new();
    let out = context.compile_source("1000").expect("literal should compile");
    let unit = context.unit(&out.unit).expect("unit");
    assert_eq!(unit.opcodes, vec![0x68, 0xE8, 0x03, 0x00, 0x00, 0xC3]);
}

#[test]
fn negative_literal_uses_signed_width() {
    let mut context = Context::new();
    let out = context.compile_source("-1").expect("literal should compile");
    let unit = context.unit(&out.unit).expect("unit");
    // -1 fits a signed byte, so the one-byte push form carries 0xFF
    assert_eq!(unit.opcodes, vec![0x6A, 0xFF, 0xC3]);
}

#[test]
fn tree_dumps_trace_lowering() {
    let mut context = Context::new();
    let out = context.compile_source("5").expect("literal should compile");
    assert_eq!(out.root, 0);
    assert_eq!(out.scope, 1);
    // before lowering the leaf is a symbol reference; after, a literal
    assert_eq!(out.tree_before, "root: 0\n  scope: 1 <-- 0\n    symbol: 2 --> 6 | 5\n");
    assert_eq!(out.tree_after, "root: 0\n  scope: 1 <-- 0\n    number: 2 --> 5\n");
}

#[test]
fn interning_is_idempotent() {
    let mut symbols = SymbolStorage::new();
    let first = symbols.insert_or_get(
        String::from("alpha"),
        String::from("alpha"),
        SymbolKind::Macro,
    );
    let second = symbols.insert_or_get(
        String::from("alpha"),
        String::from("beta"),
        SymbolKind::ReaderMacro,
    );
    assert_eq!(first, second);
    // the stored identifier is the one given at first interning
    let stored = symbols.get(&first).expect("symbol should exist");
    assert_eq!(stored.identifier, "alpha");
}

#[test]
fn interning_plus_twice_yields_same_id() {
    let mut symbols = SymbolStorage::new();
    let first = Builtin::Add.add_symbol(&mut symbols);
    let second = Builtin::Add.add_symbol(&mut symbols);
    assert_eq!(first, second);
}

#[test]
fn symbol_lookup_and_errors() {
    let mut symbols = SymbolStorage::new();
    assert_eq!(symbols.get_id("drop"), None);
    let id = Builtin::Drop.add_symbol(&mut symbols);
    assert_eq!(symbols.get_id("drop"), Some(id));
    assert!(symbols.get(&id).is_ok());
    match symbols.get(&(id + 1)) {
        Err(e) => assert_eq!(e, VmError::UnknownSymbol),
        Ok(_) => panic!("an unallocated id must be refused"),
    }
}

#[test]
fn number_words_are_interned_by_spelling() {
    let mut symbols = SymbolStorage::new();
    let first = Builtin::Number(Number::Uint(5)).add_symbol(&mut symbols);
    let second = Builtin::Number(Number::Uint(5)).add_symbol(&mut symbols);
    assert_eq!(first, second);
    assert_eq!(symbols.get_id("5"), Some(first));
}
