//! Builtin words: numeric literals and the pre-interned operators.

use vstd::prelude::*;

use crate::decimal::dec_val;
use crate::decimal::is_digit;
use crate::decimal::lemma_digits_value;
use crate::decimal::spec_digits;
use crate::decimal::spec_parse_i64;
use crate::decimal::spec_parse_u64;
use crate::decimal::spec_signed_digits;
use crate::decimal::i64_to_string;
use crate::decimal::parse_i64;
use crate::decimal::parse_u64;
use crate::decimal::u64_to_string;
use crate::symbol::SymbolId;
use crate::symbol::SymbolKind;
use crate::symbol::SymbolStorage;
use crate::text::str_eq;

verus! {

/// A numeric literal. Unsigned and signed decimal spellings are parsed; the
/// ratio form is declared for the reader but never produced by parsing.
#[derive(Debug, Copy, Clone, PartialEq, Eq, Structural)]
pub enum Number {
    Uint(u64),
    Int(i64),
    Ratio(i64, i64),
}

impl Number {
    /// What parsing a word yields: the unsigned reading wins, the signed
    /// reading catches negative spellings.
    pub open spec fn spec_parse(s: Seq<char>) -> Option<Number> {
        match spec_parse_u64(s) {
            Some(n) => Some(Number::Uint(n)),
            None => match spec_parse_i64(s) {
                Some(v) => Some(Number::Int(v)),
                None => None,
            },
        }
    }

    /// The canonical decimal spelling of the number.
    pub open spec fn spec_render(self) -> Seq<char> {
        match self {
            Number::Uint(n) => spec_digits(n as nat),
            Number::Int(v) => spec_signed_digits(v as int),
            Number::Ratio(a, b) => spec_signed_digits(a as int) + "/"@ + spec_signed_digits(
                b as int,
            ),
        }
    }

    pub fn parse(word: &str) -> (r: Option<Number>)
        ensures
            r == Number::spec_parse(word@),
    {
        if let Some(n) = parse_u64(word) {
            return Some(Number::Uint(n));
        }
        if let Some(v) = parse_i64(word) {
            return Some(Number::Int(v));
        }
        None
    }
}

/// A pre-interned word: the literal-number wrapper or one of the operator
/// builtins.
#[derive(Debug, Copy, Clone, PartialEq, Eq, Structural)]
pub enum Builtin {
    Number(Number),
    Add,
    Sub,
    Mul,
    Div,
    DotPrint,
    Drop,
}

impl Builtin {
    /// The canonical source spelling of the builtin; numeric literals spell
    /// themselves.
    pub open spec fn spec_name(self) -> Seq<char> {
        match self {
            Builtin::Number(num) => num.spec_render(),
            Builtin::Add => "+"@,
            Builtin::Sub => "-"@,
            Builtin::Mul => "*"@,
            Builtin::Div => "/"@,
            Builtin::DotPrint => "."@,
            Builtin::Drop => "drop"@,
        }
    }

    /// What a source word means, if anything: one of the six operator
    /// spellings, else a numeric literal.
    pub open spec fn spec_from_str(s: Seq<char>) -> Option<Builtin> {
        if s == "+"@ {
            Some(Builtin::Add)
        } else if s == "-"@ {
            Some(Builtin::Sub)
        } else if s == "*"@ {
            Some(Builtin::Mul)
        } else if s == "/"@ {
            Some(Builtin::Div)
        } else if s == "."@ {
            Some(Builtin::DotPrint)
        } else if s == "drop"@ {
            Some(Builtin::Drop)
        } else {
            match Number::spec_parse(s) {
                Some(num) => Some(Builtin::Number(num)),
                None => None,
            }
        }
    }

    pub fn from_str(word: &str) -> (r: Option<Builtin>)
        ensures
            r == Builtin::spec_from_str(word@),
    {
        if str_eq(word, "+") {
            Some(Builtin::Add)
        } else if str_eq(word, "-") {
            Some(Builtin::Sub)
        } else if str_eq(word, "*") {
            Some(Builtin::Mul)
        } else if str_eq(word, "/") {
            Some(Builtin::Div)
        } else if str_eq(word, ".") {
            Some(Builtin::DotPrint)
        } else if str_eq(word, "drop") {
            Some(Builtin::Drop)
        } else {
            match Number::parse(word) {
                Some(num) => Some(Builtin::Number(num)),
                None => None,
            }
        }
    }

    pub fn to_string(&self) -> (r: String)
        ensures
            r@ == self.spec_name(),
    {
        match self {
            Builtin::Number(num) => match num {
                Number::Uint(val) => u64_to_string(*val),
                Number::Int(val) => i64_to_string(*val),
                Number::Ratio(a, b) => {
                    let mut s = i64_to_string(*a);
                    s.append("/");
                    let denom = i64_to_string(*b);
                    s.append(denom.as_str());
                    s
                },
            },
            Builtin::Add => "+".to_owned(),
            Builtin::Sub => "-".to_owned(),
            Builtin::Mul => "*".to_owned(),
            Builtin::Div => "/".to_owned(),
            Builtin::DotPrint => ".".to_owned(),
            Builtin::Drop => "drop".to_owned(),
        }
    }

    /// Interns the builtin under its canonical spelling.
    pub fn add_symbol(self, symbols: &mut SymbolStorage) -> (id: SymbolId)
        requires
            old(symbols).wf(),
        ensures
            final(symbols).wf(),
            id < final(symbols).spec_table().len(),
            final(symbols).spec_lookup(self.spec_name()) == Some(id),
            match old(symbols).spec_lookup(self.spec_name()) {
                Some(existing) => id == existing && *final(symbols) == *old(symbols),
                None => {
                    &&& id == old(symbols).spec_table().len()
                    &&& final(symbols).spec_table().len() == old(symbols).spec_table().len() + 1
                    &&& final(symbols).spec_table()[id as int].identifier@ == self.spec_name()
                    &&& final(symbols).spec_table()[id as int].kind == SymbolKind::Builtin(self)
                    &&& forall|i: int|
                        0 <= i < old(symbols).spec_table().len()
                            ==> final(symbols).spec_table()[i] == old(symbols).spec_table()[i]
                    &&& forall|k: Seq<char>|
                        k != self.spec_name()
                            ==> final(symbols).spec_lookup(k) == old(symbols).spec_lookup(k)
                },
            },
    {
        let key = self.to_string();
        let ident = self.to_string();
        symbols.insert_or_get(key, ident, SymbolKind::Builtin(self))
    }
}

/// The six operator spellings parse back to their own operators.
pub proof fn lemma_operator_round_trip(b: Builtin)
    requires
        !(b matches Builtin::Number(_)),
    ensures
        Builtin::spec_from_str(b.spec_name()) == Some(b),
{
    reveal_strlit("+");
    reveal_strlit("-");
    reveal_strlit("*");
    reveal_strlit("/");
    reveal_strlit(".");
    reveal_strlit("drop");
}

/// A parsed literal is never a positive signed reading: the unsigned
/// reading would have taken it first.
pub proof fn lemma_parse_signed_shape(s: Seq<char>)
    ensures
        match Number::spec_parse(s) {
            Some(Number::Int(v)) => v <= 0,
            _ => true,
        },
{
    match Number::spec_parse(s) {
        Some(Number::Int(v)) => {
            assert(spec_parse_u64(s) is None);
            if s.len() > 0 && s[0] == '-' {
            } else {
                assert(spec_parse_i64(s) is Some);
                assert(false);
            }
        },
        _ => {},
    }
}

/// The canonical spelling of a parsed literal resolves back to a literal
/// that compiles and schedules exactly the same way. A negative zero is
/// re-read unsigned, but both spell the same push.
pub proof fn lemma_number_key_meaning(num: Number)
    requires
        num matches Number::Uint(_) || (num matches Number::Int(v) && v <= 0),
    ensures
        match Builtin::spec_from_str(num.spec_render()) {
            Some(Builtin::Number(m)) => (m matches Number::Uint(_) || m matches Number::Int(_)) && (
            match (m, num) {
                (Number::Uint(a), Number::Uint(b)) => a == b,
                (Number::Uint(a), Number::Int(b)) => a == 0 && b == 0,
                (Number::Int(a), Number::Int(b)) => a == b,
                _ => false,
            }),
            _ => false,
        },
{
    match num {
        Number::Uint(_) => {
            lemma_number_round_trip(num);
        },
        Number::Int(v) => {
            if v < 0 {
                lemma_number_round_trip(num);
            } else {
                // v == 0: the spelling is "0", which re-reads as unsigned zero
                let s = num.spec_render();
                assert(s == spec_digits(0));
                lemma_number_round_trip(Number::Uint(0));
                assert(Number::Uint(0).spec_render() == spec_digits(0));
                assert(Builtin::spec_from_str(s) == Some(Builtin::Number(Number::Uint(0))));
            }
        },
        Number::Ratio(_, _) => {
            assert(false);
        },
    }
}

/// A rendered numeric literal parses back to itself: digits spell no
/// operator, and the decimal reading returns the value.
pub proof fn lemma_number_round_trip(num: Number)
    requires
        num matches Number::Uint(_) || (num matches Number::Int(v) && v < 0),
    ensures
        Builtin::spec_from_str(num.spec_render()) == Some(Builtin::Number(num)),
{
    reveal_strlit("+");
    reveal_strlit("-");
    reveal_strlit("*");
    reveal_strlit("/");
    reveal_strlit(".");
    reveal_strlit("drop");
    let s = num.spec_render();
    match num {
        Number::Uint(v) => {
            lemma_digits_value(v as nat);
            assert(s == spec_digits(v as nat));
            assert(is_digit(s[0]));
            assert(s != "+"@) by {
                if s == "+"@ {
                    assert(s[0] == '+');
                    assert(48 <= '+' as u32 <= 57);
                    assert(false);
                }
            }
            assert(s != "-"@) by {
                if s == "-"@ {
                    assert(s[0] == '-');
                    assert(48 <= '-' as u32 <= 57);
                    assert(false);
                }
            }
            assert(s != "*"@) by {
                if s == "*"@ {
                    assert(s[0] == '*');
                    assert(48 <= '*' as u32 <= 57);
                    assert(false);
                }
            }
            assert(s != "/"@) by {
                if s == "/"@ {
                    assert(s[0] == '/');
                    assert(48 <= '/' as u32 <= 57);
                    assert(false);
                }
            }
            assert(s != "."@) by {
                if s == "."@ {
                    assert(s[0] == '.');
                    assert(48 <= '.' as u32 <= 57);
                    assert(false);
                }
            }
            assert(s != "drop"@) by {
                if s == "drop"@ {
                    assert(s[0] == 'd');
                    assert(48 <= 'd' as u32 <= 57);
                    assert(false);
                }
            }
            assert(!(s.len() > 0 && s[0] == '+')) by {
                assert(is_digit(s[0]));
            }
            assert(crate::decimal::spec_parse_u64(s) == Some(v));
        },
        Number::Int(v) => {
            let mag = (-v) as nat;
            lemma_digits_value(mag);
            assert(s == seq!['-'] + spec_digits((-v) as int as nat));
            assert(s[0] == '-');
            assert(s.len() >= 2);
            assert(s != "+"@ && s != "*"@ && s != "/"@ && s != "."@) by {
                assert(s[0] == '-');
            }
            assert(s != "-"@) by {
                assert("-"@.len() == 1);
            }
            assert(s != "drop"@) by {
                assert("drop"@[0] == 'd');
            }
            let body = s.subrange(1, s.len() as int);
            assert(body =~= spec_digits(mag));
            // the unsigned reading fails on the sign
            assert(crate::decimal::spec_parse_u64(s) == None::<u64>) by {
                assert(!is_digit(s[0]));
                assert(!crate::decimal::all_digits(s));
            }
            // the signed reading strips the sign and reads the magnitude
            assert(dec_val(body) == mag);
            assert(mag <= 0x8000_0000_0000_0000) by {
                assert(v >= i64::MIN);
            }
            assert(crate::decimal::spec_parse_i64(s) == Some((-(dec_val(body) as int)) as i64));
            assert((-(dec_val(body) as int)) as i64 == v);
        },
        Number::Ratio(_, _) => {
            assert(false);
        },
    }
}

} // verus!
