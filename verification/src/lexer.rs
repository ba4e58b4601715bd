//! The word tokenizer: a whitespace splitter over an immutable text buffer
//! that yields positioned words.
//!
//! Tab, space and newline separate words; a newline starts a new line and
//! resets the column.

use vstd::prelude::*;

verus! {

/// The characters that separate words.
pub open spec fn is_space(c: char) -> bool {
    c == '\t' || c == ' ' || c == '\n'
}

/// `s` without its leading run of whitespace.
pub open spec fn drop_spaces(s: Seq<char>) -> Seq<char>
    decreases s.len(),
{
    if s.len() > 0 && is_space(s[0]) {
        drop_spaces(s.subrange(1, s.len() as int))
    } else {
        s
    }
}

/// Index of the first whitespace character of `s`, or its length.
pub open spec fn first_word_end(s: Seq<char>) -> int
    decreases s.len(),
{
    if s.len() == 0 {
        0
    } else if is_space(s[0]) {
        0
    } else {
        1 + first_word_end(s.subrange(1, s.len() as int))
    }
}

/// Line and column after reading the characters of `s`, one by one: a
/// newline starts the next line at column one, anything else moves one
/// column right.
pub open spec fn spec_advance(line: int, column: int, s: Seq<char>) -> (int, int)
    decreases s.len(),
{
    if s.len() == 0 {
        (line, column)
    } else if s[0] == '\n' {
        spec_advance(line + 1, 1, s.subrange(1, s.len() as int))
    } else {
        spec_advance(line, column + 1, s.subrange(1, s.len() as int))
    }
}

/// The word sequence of a source text: maximal runs of non-whitespace.
pub open spec fn split_words(s: Seq<char>) -> Seq<Seq<char>>
    decreases s.len(),
{
    let t = drop_spaces(s);
    if t.len() == 0 {
        Seq::<Seq<char>>::empty()
    } else {
        proof {
            lemma_drop_spaces_len(s);
            lemma_first_word_end_bounds(t);
        }
        seq![t.subrange(0, first_word_end(t))] + split_words(
            t.subrange(first_word_end(t), t.len() as int),
        )
    }
}

/// Skipping whitespace never lengthens the text, and what remains starts
/// with a non-space unless it is empty.
pub proof fn lemma_drop_spaces_len(s: Seq<char>)
    ensures
        drop_spaces(s).len() <= s.len(),
        drop_spaces(s).len() > 0 ==> !is_space(drop_spaces(s)[0]),
    decreases s.len(),
{
    if s.len() > 0 && is_space(s[0]) {
        lemma_drop_spaces_len(s.subrange(1, s.len() as int));
    }
}

/// The first word of a non-empty word-leading text is non-empty and ends
/// within the text.
pub proof fn lemma_first_word_end_bounds(s: Seq<char>)
    ensures
        0 <= first_word_end(s) <= s.len(),
        s.len() > 0 && !is_space(s[0]) ==> first_word_end(s) >= 1,
    decreases s.len(),
{
    if s.len() > 0 && !is_space(s[0]) {
        lemma_first_word_end_bounds(s.subrange(1, s.len() as int));
    }
}

/// Where the leading whitespace of `s` ends: if the first `i` characters
/// are spaces and the next is not, the rest is exactly what skipping
/// leaves.
pub proof fn lemma_drop_spaces_at(s: Seq<char>, i: int)
    requires
        0 <= i <= s.len(),
        forall|j: int| 0 <= j < i ==> is_space(#[trigger] s[j]),
        i == s.len() || !is_space(s[i]),
    ensures
        drop_spaces(s) == s.subrange(i, s.len() as int),
    decreases i,
{
    if i == 0 {
        if s.len() > 0 {
            assert(!is_space(s[0]));
        }
        assert(s.subrange(0, s.len() as int) =~= s);
    } else {
        assert(is_space(s[0]));
        let rest = s.subrange(1, s.len() as int);
        assert forall|j: int| 0 <= j < i - 1 implies is_space(#[trigger] rest[j]) by {
            assert(rest[j] == s[j + 1]);
        }
        if i - 1 < rest.len() {
            assert(rest[i - 1] == s[i as int]);
        }
        lemma_drop_spaces_at(rest, i - 1);
        assert(rest.subrange(i - 1, rest.len() as int) =~= s.subrange(i, s.len() as int));
    }
}

/// Where the first word of `s` ends: if the first `e` characters are
/// non-spaces and the next is a space or the end, the word ends at `e`.
pub proof fn lemma_first_word_end_at(s: Seq<char>, e: int)
    requires
        0 <= e <= s.len(),
        forall|j: int| 0 <= j < e ==> !is_space(#[trigger] s[j]),
        e == s.len() || is_space(s[e]),
    ensures
        first_word_end(s) == e,
    decreases e,
{
    if e == 0 {
    } else {
        let rest = s.subrange(1, s.len() as int);
        assert forall|j: int| 0 <= j < e - 1 implies !is_space(#[trigger] rest[j]) by {
            assert(rest[j] == s[j + 1]);
        }
        if e - 1 < rest.len() {
            assert(rest[e - 1] == s[e as int]);
        }
        lemma_first_word_end_at(rest, e - 1);
    }
}

/// A text has at most as many words as characters.
pub proof fn lemma_split_words_count(s: Seq<char>)
    ensures
        split_words(s).len() <= s.len(),
    decreases s.len(),
{
    let t = drop_spaces(s);
    lemma_drop_spaces_len(s);
    if t.len() > 0 {
        lemma_first_word_end_bounds(t);
        let e = first_word_end(t);
        lemma_split_words_count(t.subrange(e, t.len() as int));
    }
}

/// One word of source text, with the position it started at.
#[derive(Debug, Copy, Clone)]
pub struct Word<'a> {
    pub data: &'a str,
    pub line: usize,
    pub column: usize,
}

/// A cursor over the remaining source text, tracking the position of the
/// next unread character.
pub struct Lexer<'a> {
    pub source: &'a str,
    pub line: usize,
    pub column: usize,
}

impl<'a> Lexer<'a> {
    /// The position counters stay clear of overflow however much of the
    /// remaining text they advance over.
    pub open spec fn wf(self) -> bool {
        &&& self.line + self.source@.len() <= usize::MAX
        &&& self.column + self.source@.len() <= usize::MAX
    }

    pub fn new(source: &'a str) -> (lexer: Lexer<'a>)
        requires
            source@.len() + 1 <= usize::MAX,
        ensures
            lexer.wf(),
            lexer.source@ == source@,
            lexer.line == 1,
            lexer.column == 1,
    {
        Lexer { source, line: 1, column: 1 }
    }

    /// Advances past the leading whitespace, updating the position; when
    /// only whitespace remains, the text is emptied and the position is
    /// left where it was.
    #[verifier::loop_isolation(false)]
    pub fn skip_whitespace(&mut self)
        requires
            old(self).wf(),
        ensures
            final(self).wf(),
            ({
                let s = old(self).source@;
                let t = drop_spaces(s);
                if t.len() > 0 {
                    &&& final(self).source@ == t
                    &&& (final(self).line as int, final(self).column as int) == spec_advance(
                        old(self).line as int,
                        old(self).column as int,
                        s.subrange(0, s.len() - t.len()),
                    )
                } else {
                    &&& final(self).source@.len() == 0
                    &&& final(self).line == old(self).line
                    &&& final(self).column == old(self).column
                }
            }),
    {
        let ghost s = self.source@;
        let n = self.source.unicode_len();
        let mut i: usize = 0;
        let mut halted: bool = false;
        while i < n && !halted
            invariant
                0 <= i <= n,
                forall|j: int| 0 <= j < i ==> is_space(#[trigger] s[j]),
                halted ==> i < n && !is_space(s[i as int]),
            decreases n - i, if halted { 0int } else { 1int },
        {
            let c = self.source.get_char(i);
            if c == '\t' || c == ' ' || c == '\n' {
                i = i + 1;
            } else {
                halted = true;
            }
        }
        proof {
            assert(i == n || !is_space(s[i as int]));
        }
        proof {
            lemma_drop_spaces_at(s, i as int);
        }
        if i < n {
            let mut k: usize = 0;
            while k < i
                invariant
                    0 <= k <= i,
                    self.source == old(self).source,
                    (self.line as int, self.column as int) == spec_advance(
                        old(self).line as int,
                        old(self).column as int,
                        s.subrange(0, k as int),
                    ),
                    self.line + (n - k) <= usize::MAX,
                    self.column + (n - k) <= usize::MAX,
                decreases i - k,
            {
                let ghost prefix = s.subrange(0, k as int);
                let ghost prefix1 = s.subrange(0, k + 1 as int);
                let c = self.source.get_char(k);
                if c == '\n' {
                    self.line = self.line + 1;
                    self.column = 1;
                } else {
                    self.column = self.column + 1;
                }
                proof {
                    lemma_advance_snoc(old(self).line as int, old(self).column as int, prefix1);
                    assert(prefix1.drop_last() =~= prefix);
                    assert(prefix1.last() == s[k as int]);
                }
                k = k + 1;
            }
            self.source = self.source.substring_char(i, n);
        } else {
            self.source = "";
            proof {
                reveal_strlit("");
            }
        }
    }

    /// The next word of the text, or nothing when only whitespace is left.
    #[verifier::loop_isolation(false)]
    pub fn next_word(&mut self) -> (r: Option<Word<'a>>)
        requires
            old(self).wf(),
        ensures
            final(self).wf(),
            ({
                let s = old(self).source@;
                let t = drop_spaces(s);
                if t.len() == 0 {
                    &&& r is None
                    &&& final(self).source@.len() == 0
                    &&& final(self).line == old(self).line
                    &&& final(self).column == old(self).column
                } else {
                    let e = first_word_end(t);
                    &&& r matches Some(w) && w.data@ == t.subrange(0, e) && (
                        w.line as int,
                        w.column as int,
                    ) == spec_advance(
                        old(self).line as int,
                        old(self).column as int,
                        s.subrange(0, s.len() - t.len()),
                    ) && final(self).line == w.line && final(self).column == w.column + e
                    &&& final(self).source@ == t.subrange(e, t.len() as int)
                }
            }),
    {
        let ghost s0 = self.source@;
        self.skip_whitespace();
        let n = self.source.unicode_len();
        if n == 0 {
            proof {
                if drop_spaces(s0).len() > 0 {
                    assert(false);
                }
            }
            return None;
        }
        let ghost t = self.source@;
        let mut e: usize = 0;
        let mut halted: bool = false;
        while e < n && !halted
            invariant
                0 <= e <= n,
                forall|j: int| 0 <= j < e ==> !is_space(#[trigger] t[j]),
                halted ==> e < n && is_space(t[e as int]),
            decreases n - e, if halted { 0int } else { 1int },
        {
            let c = self.source.get_char(e);
            if c == '\t' || c == ' ' || c == '\n' {
                halted = true;
            } else {
                e = e + 1;
            }
        }
        proof {
            assert(e == n || is_space(t[e as int]));
        }
        proof {
            lemma_first_word_end_at(t, e as int);
        }
        let data = self.source.substring_char(0, e);
        let word = Word { data, line: self.line, column: self.column };
        self.source = self.source.substring_char(e, n);
        self.column = self.column + e;
        Some(word)
    }
}

/// Advancing over a text and then one more character equals advancing over
/// the text extended by that character.
pub proof fn lemma_advance_snoc(line: int, column: int, s: Seq<char>)
    requires
        s.len() > 0,
    ensures
        spec_advance(line, column, s) == ({
            let p = spec_advance(line, column, s.drop_last());
            if s.last() == '\n' {
                (p.0 + 1, 1int)
            } else {
                (p.0, p.1 + 1)
            }
        }),
    decreases s.len(),
{
    if s.len() == 1 {
        assert(s.drop_last() =~= Seq::<char>::empty());
        assert(s.subrange(1, s.len() as int) =~= Seq::<char>::empty());
        assert(s.last() == s[0]);
        assert(spec_advance(line, column, s.drop_last()) == (line, column));
        assert(spec_advance(line, column, s) == if s[0] == '\n' {
            spec_advance(line + 1, 1, s.subrange(1, s.len() as int))
        } else {
            spec_advance(line, column + 1, s.subrange(1, s.len() as int))
        });
        assert(spec_advance(line + 1, 1, Seq::<char>::empty()) == (line + 1, 1int));
        assert(spec_advance(line, column + 1, Seq::<char>::empty()) == (line, column + 1));
    } else {
        let rest = s.subrange(1, s.len() as int);
        let sd = s.drop_last();
        let l1: int = if s[0] == '\n' {
            line + 1
        } else {
            line
        };
        let c1: int = if s[0] == '\n' {
            1int
        } else {
            column + 1
        };
        lemma_advance_snoc(l1, c1, rest);
        assert(rest.drop_last() =~= sd.subrange(1, sd.len() as int));
        assert(rest.last() == s.last());
        assert(sd[0] == s[0]);
        assert(sd.len() > 0);
        assert(spec_advance(line, column, s) == spec_advance(l1, c1, rest));
        assert(spec_advance(line, column, sd) == spec_advance(l1, c1, sd.subrange(1, sd.len() as int)));
        assert(spec_advance(l1, c1, rest) == ({
            let p = spec_advance(l1, c1, rest.drop_last());
            if rest.last() == '\n' {
                (p.0 + 1, 1int)
            } else {
                (p.0, p.1 + 1)
            }
        }));
    }
}

} // verus!
