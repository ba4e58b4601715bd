//! Decimal rendering and parsing of machine integers.
//!
//! Numeric literals are interned under their canonical decimal spelling, so
//! both directions matter: `dec_val`/`spec_digits` give the mathematical
//! meaning, and the executable functions are proved against them.

use vstd::prelude::*;

verus! {

/// The character for a single decimal digit value.
pub open spec fn digit_char(d: nat) -> char {
    if d == 0 {
        '0'
    } else if d == 1 {
        '1'
    } else if d == 2 {
        '2'
    } else if d == 3 {
        '3'
    } else if d == 4 {
        '4'
    } else if d == 5 {
        '5'
    } else if d == 6 {
        '6'
    } else if d == 7 {
        '7'
    } else if d == 8 {
        '8'
    } else {
        '9'
    }
}

/// Decimal digit sequence of `n`, most significant digit first.
pub open spec fn spec_digits(n: nat) -> Seq<char>
    decreases n,
{
    if n < 10 {
        seq![digit_char(n)]
    } else {
        spec_digits(n / 10) + seq![digit_char(n % 10)]
    }
}

/// Decimal rendering of a signed value: a minus sign, if the value is
/// negative, followed by the digits of the magnitude.
pub open spec fn spec_signed_digits(v: int) -> Seq<char> {
    if v >= 0 {
        spec_digits(v as nat)
    } else {
        seq!['-'] + spec_digits((-v) as nat)
    }
}

pub open spec fn is_digit(c: char) -> bool {
    48 <= c as u32 && c as u32 <= 57
}

pub open spec fn digit_val(c: char) -> nat {
    (c as u32 - 48) as nat
}

pub open spec fn all_digits(s: Seq<char>) -> bool {
    forall|i: int| 0 <= i < s.len() ==> is_digit(#[trigger] s[i])
}

/// Value of a digit string, most significant digit first.
pub open spec fn dec_val(s: Seq<char>) -> nat
    decreases s.len(),
{
    if s.len() == 0 {
        0
    } else {
        dec_val(s.drop_last()) * 10 + digit_val(s.last())
    }
}

/// What a run of decimal digits must look like to denote a value at all.
pub open spec fn digits_ok(s: Seq<char>) -> bool {
    s.len() >= 1 && all_digits(s)
}

/// The unsigned values the parser accepts: an optional plus sign, then at
/// least one digit, denoting a value that fits in a `u64`.
pub open spec fn spec_parse_u64(s: Seq<char>) -> Option<u64> {
    let body = if s.len() > 0 && s[0] == '+' {
        s.subrange(1, s.len() as int)
    } else {
        s
    };
    if digits_ok(body) && dec_val(body) <= u64::MAX {
        Some(dec_val(body) as u64)
    } else {
        None
    }
}

/// The signed values the parser accepts: an optional sign, then at least one
/// digit, denoting a value that fits in an `i64`.
pub open spec fn spec_parse_i64(s: Seq<char>) -> Option<i64> {
    if s.len() > 0 && s[0] == '-' {
        let body = s.subrange(1, s.len() as int);
        if digits_ok(body) && dec_val(body) <= 0x8000_0000_0000_0000 {
            Some((-(dec_val(body) as int)) as i64)
        } else {
            None
        }
    } else {
        let body = if s.len() > 0 && s[0] == '+' {
            s.subrange(1, s.len() as int)
        } else {
            s
        };
        if digits_ok(body) && dec_val(body) <= i64::MAX {
            Some(dec_val(body) as i64)
        } else {
            None
        }
    }
}

/// A digit string is worth at least as much as any of its prefixes.
pub proof fn lemma_dec_val_prefix(s: Seq<char>, k: int)
    requires
        0 <= k <= s.len(),
    ensures
        dec_val(s.subrange(0, k)) <= dec_val(s),
    decreases s.len(),
{
    if k == s.len() {
        assert(s.subrange(0, k) =~= s);
    } else {
        assert(s.drop_last().subrange(0, k) =~= s.subrange(0, k));
        lemma_dec_val_prefix(s.drop_last(), k);
    }
}

/// The digits of `n` denote `n`, and look like digits.
pub proof fn lemma_digits_value(n: nat)
    ensures
        spec_digits(n).len() >= 1,
        all_digits(spec_digits(n)),
        dec_val(spec_digits(n)) == n,
    decreases n,
{
    if n < 10 {
        let s = seq![digit_char(n)];
        assert(spec_digits(n) == s);
        assert(s.drop_last() =~= Seq::<char>::empty());
        assert(s.last() == digit_char(n));
        assert(dec_val(s) == dec_val(s.drop_last()) * 10 + digit_val(s.last()));
        assert(dec_val(s.drop_last()) == 0);
        assert(digit_val(digit_char(n)) == n);
        assert forall|i: int| 0 <= i < s.len() implies is_digit(s[i]) by {
            assert(s[i] == digit_char(n));
        }
    } else {
        lemma_digits_value(n / 10);
        let s = spec_digits(n / 10);
        let c = digit_char(n % 10);
        let w = s + seq![c];
        assert(spec_digits(n) == w);
        assert(w.last() == c);
        assert(w.drop_last() =~= s);
        assert(dec_val(w) == dec_val(s) * 10 + digit_val(c));
        assert(digit_val(c) == n % 10);
        assert((n / 10) * 10 + n % 10 == n) by (nonlinear_arith);
        assert forall|i: int| 0 <= i < w.len() implies is_digit(w[i]) by {
            if i < s.len() {
                assert(w[i] == s[i]);
                assert(is_digit(s[i]));
            } else {
                assert(w[i] == c);
            }
        }
    }
}

/// Parses the digit run that starts at character `start` and extends to the
/// end of `word`.
pub fn parse_digits(word: &str, start: usize) -> (r: Option<u64>)
    requires
        start <= word@.len(),
    ensures
        ({
            let body = word@.subrange(start as int, word@.len() as int);
            r == if digits_ok(body) && dec_val(body) <= u64::MAX {
                Some(dec_val(body) as u64)
            } else {
                None::<u64>
            }
        }),
{
    let ghost body = word@.subrange(start as int, word@.len() as int);
    let len = word.unicode_len();
    if start >= len {
        return None;
    }
    let mut i: usize = start;
    let mut val: u64 = 0;
    while i < len
        invariant
            start <= i <= len,
            len == word@.len(),
            body == word@.subrange(start as int, word@.len() as int),
            forall|j: int| start <= j < i ==> is_digit(#[trigger] word@[j]),
            val == dec_val(word@.subrange(start as int, i as int)),
        decreases len - i,
    {
        let c = word.get_char(i);
        let code = c as u32;
        if code < 48 || code > 57 {
            proof {
                assert(body[i - start] == word@[i as int]);
                assert(!all_digits(body));
            }
            return None;
        }
        let dv = (code - 48) as u64;
        let overflowed: bool = match val.checked_mul(10) {
            Some(x) => match x.checked_add(dv) {
                Some(y) => {
                    val = y;
                    false
                },
                None => true,
            },
            None => true,
        };
        proof {
            assert(word@.subrange(start as int, i + 1 as int).drop_last() =~= word@.subrange(
                start as int,
                i as int,
            ));
        }
        if overflowed {
            proof {
                let consumed = word@.subrange(start as int, i + 1 as int);
                assert(dec_val(consumed) > u64::MAX);
                assert(consumed =~= body.subrange(0, i + 1 - start as int));
                lemma_dec_val_prefix(body, i + 1 - start as int);
            }
            return None;
        }
        i = i + 1;
    }
    proof {
        assert(word@.subrange(start as int, i as int) =~= body);
    }
    Some(val)
}

/// Parsing a word as an unsigned 64-bit decimal literal.
pub fn parse_u64(word: &str) -> (r: Option<u64>)
    ensures
        r == spec_parse_u64(word@),
{
    let len = word.unicode_len();
    if len > 0 && word.get_char(0) == '+' {
        parse_digits(word, 1)
    } else {
        proof {
            assert(word@.subrange(0, word@.len() as int) =~= word@);
        }
        parse_digits(word, 0)
    }
}

/// Parsing a word as a signed 64-bit decimal literal.
pub fn parse_i64(word: &str) -> (r: Option<i64>)
    ensures
        r == spec_parse_i64(word@),
{
    let len = word.unicode_len();
    if len > 0 && word.get_char(0) == '-' {
        match parse_digits(word, 1) {
            Some(m) => {
                if m <= 0x8000_0000_0000_0000u64 {
                    if m == 0x8000_0000_0000_0000u64 {
                        Some(i64::MIN)
                    } else {
                        Some(-(m as i64))
                    }
                } else {
                    None
                }
            },
            None => None,
        }
    } else if len > 0 && word.get_char(0) == '+' {
        match parse_digits(word, 1) {
            Some(m) => {
                if m <= i64::MAX as u64 {
                    Some(m as i64)
                } else {
                    None
                }
            },
            None => None,
        }
    } else {
        proof {
            assert(word@.subrange(0, word@.len() as int) =~= word@);
        }
        match parse_digits(word, 0) {
            Some(m) => {
                if m <= i64::MAX as u64 {
                    Some(m as i64)
                } else {
                    None
                }
            },
            None => None,
        }
    }
}

/// Renders `n` in decimal.
pub fn u64_to_string(n: u64) -> (r: String)
    ensures
        r@ == spec_digits(n as nat),
    decreases n,
{
    let d = n % 10;
    let ds: &str = if d == 0 {
        "0"
    } else if d == 1 {
        "1"
    } else if d == 2 {
        "2"
    } else if d == 3 {
        "3"
    } else if d == 4 {
        "4"
    } else if d == 5 {
        "5"
    } else if d == 6 {
        "6"
    } else if d == 7 {
        "7"
    } else if d == 8 {
        "8"
    } else {
        "9"
    };
    proof {
        reveal_strlit("0");
        reveal_strlit("1");
        reveal_strlit("2");
        reveal_strlit("3");
        reveal_strlit("4");
        reveal_strlit("5");
        reveal_strlit("6");
        reveal_strlit("7");
        reveal_strlit("8");
        reveal_strlit("9");
        assert(ds@ =~= seq![digit_char((n % 10) as nat)]);
    }
    if n < 10 {
        ds.to_owned()
    } else {
        let mut s = u64_to_string(n / 10);
        s.append(ds);
        s
    }
}

/// Renders `v` in decimal, with a leading minus sign when negative.
pub fn i64_to_string(v: i64) -> (r: String)
    ensures
        r@ == spec_signed_digits(v as int),
{
    if v >= 0 {
        u64_to_string(v as u64)
    } else {
        let mag: u64 = if v == i64::MIN {
            0x8000_0000_0000_0000u64
        } else {
            (-v) as u64
        };
        let mut s = "-".to_owned();
        proof {
            reveal_strlit("-");
            assert(s@ =~= seq!['-']);
        }
        let rest = u64_to_string(mag);
        s.append(rest.as_str());
        s
    }
}

} // verus!
