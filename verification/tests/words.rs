use vm::builtin::Builtin;
use vm::builtin::Number;
use vm::decimal::i64_to_string;
use vm::decimal::parse_i64;
use vm::decimal::parse_u64;
use vm::decimal::u64_to_string;
use vm::lexer::Lexer;
use vm::memory::ceil;
use vm::sources::Entry;
use vm::sources::Source;
use vm::sources::SourceSource;
use vm::sources::Sources;

#[test]
fn lexer_splits_on_whitespace() {
    let mut lexer = Lexer::new("ab  cd\ne");
    let first = lexer.next_word().expect("first word");
    assert_eq!(first.data, "ab");
    assert_eq!((first.line, first.column), (1, 1));
    let second = lexer.next_word().expect("second word");
    assert_eq!(second.data, "cd");
    assert_eq!((second.line, second.column), (1, 5));
    let third = lexer.next_word().expect("third word");
    assert_eq!(third.data, "e");
    assert_eq!((third.line, third.column), (2, 1));
    assert!(lexer.next_word().is_none());
}

#[test]
fn lexer_empty_and_blank_sources() {
    let mut lexer = Lexer::new("");
    assert!(lexer.next_word().is_none());
    let mut blank = Lexer::new(" \t\n ");
    assert!(blank.next_word().is_none());
    assert_eq!(blank.source, "");
}

#[test]
fn skip_whitespace_advances_position() {
    let mut lexer = Lexer::new("\n\n  x");
    lexer.skip_whitespace();
    assert_eq!(lexer.source, "x");
    assert_eq!((lexer.line, lexer.column), (3, 3));
}

#[test]
fn unsigned_parsing() {
    assert_eq!(parse_u64("0"), Some(0));
    assert_eq!(parse_u64("1234"), Some(1234));
    assert_eq!(parse_u64("+7"), Some(7));
    assert_eq!(parse_u64("18446744073709551615"), Some(u64::MAX));
    assert_eq!(parse_u64("18446744073709551616"), None);
    assert_eq!(parse_u64(""), None);
    assert_eq!(parse_u64("+"), None);
    assert_eq!(parse_u64("12a"), None);
    assert_eq!(parse_u64("-3"), None);
}

#[test]
fn signed_parsing() {
    assert_eq!(parse_i64("-1"), Some(-1));
    assert_eq!(parse_i64("-9223372036854775808"), Some(i64::MIN));
    assert_eq!(parse_i64("-9223372036854775809"), None);
    assert_eq!(parse_i64("9223372036854775807"), Some(i64::MAX));
    assert_eq!(parse_i64("9223372036854775808"), None);
    assert_eq!(parse_i64("-"), None);
}

#[test]
fn decimal_rendering() {
    assert_eq!(u64_to_string(0), "0");
    assert_eq!(u64_to_string(1234), "1234");
    assert_eq!(u64_to_string(u64::MAX), "18446744073709551615");
    assert_eq!(i64_to_string(-5), "-5");
    assert_eq!(i64_to_string(0), "0");
    assert_eq!(i64_to_string(i64::MIN), "-9223372036854775808");
}

#[test]
fn number_parsing_prefers_unsigned() {
    assert_eq!(Number::parse("5"), Some(Number::Uint(5)));
    assert_eq!(Number::parse("+5"), Some(Number::Uint(5)));
    assert_eq!(Number::parse("-5"), Some(Number::Int(-5)));
    assert_eq!(Number::parse("-0"), Some(Number::Int(0)));
    assert_eq!(Number::parse("abc"), None);
    assert_eq!(Number::parse("5.5"), None);
}

#[test]
fn builtin_words() {
    assert_eq!(Builtin::from_str("+"), Some(Builtin::Add));
    assert_eq!(Builtin::from_str("-"), Some(Builtin::Sub));
    assert_eq!(Builtin::from_str("*"), Some(Builtin::Mul));
    assert_eq!(Builtin::from_str("/"), Some(Builtin::Div));
    assert_eq!(Builtin::from_str("."), Some(Builtin::DotPrint));
    assert_eq!(Builtin::from_str("drop"), Some(Builtin::Drop));
    assert_eq!(Builtin::from_str("17"), Some(Builtin::Number(Number::Uint(17))));
    assert_eq!(Builtin::from_str("dup"), None);
}

#[test]
fn builtin_spellings() {
    assert_eq!(Builtin::Add.to_string(), "+");
    assert_eq!(Builtin::Drop.to_string(), "drop");
    assert_eq!(Builtin::Number(Number::Uint(42)).to_string(), "42");
    assert_eq!(Builtin::Number(Number::Int(-3)).to_string(), "-3");
    assert_eq!(Builtin::Number(Number::Ratio(1, 2)).to_string(), "1/2");
}

#[test]
fn page_rounding() {
    // the capacity is the smallest page multiple at or above the request
    assert_eq!(ceil(1, 4096), 4096);
    assert_eq!(ceil(4095, 4096), 4096);
    assert_eq!(ceil(4096, 4096), 4096);
    assert_eq!(ceil(4097, 4096), 8192);
    assert_eq!(ceil(5, 16), 16);
    assert_eq!(ceil(32, 16), 32);
}

#[test]
fn source_registry() {
    let mut sources = Sources::new();
    let id = sources.new_source(SourceSource::File(String::from("demo.vm")));
    assert_eq!(id, 0);
    let second = sources.new_source(SourceSource::Text(String::from("5 10 +")));
    assert_eq!(second, 1);
    let source = sources.get_source(id).expect("registered source");
    assert_eq!(source.name, "demo.vm");
    assert!(sources.get_source(2).is_none());
}

#[test]
fn source_entries() {
    let mut source = Source::new(SourceSource::Repl(String::from("session")));
    assert_eq!(source.name, "session");
    let first = source.new_entry(Entry { line: 1, column: 2 });
    let second = source.new_entry(Entry { line: 3, column: 4 });
    assert_eq!(first, 0);
    assert_eq!(second, 1);
    assert_eq!(source.entries[1], Entry { line: 3, column: 4 });
}
