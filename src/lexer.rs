use vstd::prelude::*;
use vstd::string::StrSliceExecFns;

verus! {

/// One token of a debug command line.
#[derive(Clone, Copy, Debug, PartialEq, Eq, Structural)]
pub enum Word {
    Character(char),
    Integer(usize),
    Backslash,
    LeftSquareBracket,
    RightSquareBracket,
    Semicolon,
    Space,
    Other,
}

pub open spec fn is_dec_digit(c: char) -> bool {
    '0' <= c && c <= '9'
}

pub open spec fn is_hex_digit(c: char) -> bool {
    ('0' <= c && c <= '9') || ('a' <= c && c <= 'f') || ('A' <= c && c <= 'F')
}

pub open spec fn is_letter(c: char) -> bool {
    ('a' <= c && c <= 'z') || ('A' <= c && c <= 'Z')
}

pub open spec fn is_blank(c: char) -> bool {
    c == ' ' || c == '\t'
}

pub open spec fn hex_digit_value(c: char) -> nat {
    if '0' <= c && c <= '9' {
        (c as u32 - '0' as u32) as nat
    } else if 'a' <= c && c <= 'f' {
        (c as u32 - 'a' as u32 + 10) as nat
    } else {
        (c as u32 - 'A' as u32 + 10) as nat
    }
}

/// The value of a run of digits in the given base, most significant first.
pub open spec fn digits_value(d: Seq<char>, base: nat) -> nat
    decreases d.len(),
{
    if d.len() == 0 {
        0
    } else {
        digits_value(d.drop_last(), base) * base + hex_digit_value(d.last())
    }
}

/// The first index at or after `i` that does not hold a decimal digit.
pub open spec fn dec_run_end(s: Seq<char>, i: int) -> int
    decreases s.len() - i,
{
    if 0 <= i < s.len() && is_dec_digit(s[i]) {
        dec_run_end(s, i + 1)
    } else {
        i
    }
}

/// The first index at or after `i` that does not hold a hexadecimal digit.
pub open spec fn hex_run_end(s: Seq<char>, i: int) -> int
    decreases s.len() - i,
{
    if 0 <= i < s.len() && is_hex_digit(s[i]) {
        hex_run_end(s, i + 1)
    } else {
        i
    }
}

/// The first index at or after `i` that does not hold a space or a tab.
pub open spec fn blank_run_end(s: Seq<char>, i: int) -> int
    decreases s.len() - i,
{
    if 0 <= i < s.len() && is_blank(s[i]) {
        blank_run_end(s, i + 1)
    } else {
        i
    }
}

/// An integer token: its value where it fits in a machine word.
pub open spec fn integer_word(v: nat) -> Word {
    if v <= usize::MAX {
        Word::Integer(v as usize)
    } else {
        Word::Other
    }
}

/// The token that starts at `pos` (which must lie inside `s`) and the position after it.
pub open spec fn lex_word(s: Seq<char>, pos: int) -> (Word, int)
    recommends
        0 <= pos < s.len(),
{
    let c = s[pos];
    if '1' <= c && c <= '9' {
        let e = dec_run_end(s, pos);
        (integer_word(digits_value(s.subrange(pos, e), 10)), e)
    } else if c == '0' {
        if pos + 1 < s.len() && s[pos + 1] == 'x' {
            let e = hex_run_end(s, pos + 2);
            if e == pos + 2 {
                (Word::Other, e)
            } else {
                (integer_word(digits_value(s.subrange(pos + 2, e), 16)), e)
            }
        } else if pos + 1 < s.len() && (is_dec_digit(s[pos + 1]) || is_letter(s[pos + 1])) {
            (Word::Other, pos + 1)
        } else {
            (Word::Integer(0), pos + 1)
        }
    } else if c == '/' {
        (Word::Backslash, pos + 1)
    } else if c == '[' {
        (Word::LeftSquareBracket, pos + 1)
    } else if c == ']' {
        (Word::RightSquareBracket, pos + 1)
    } else if c == ';' {
        (Word::Semicolon, pos + 1)
    } else if is_blank(c) {
        (Word::Space, blank_run_end(s, pos))
    } else if is_letter(c) {
        (Word::Character(c), pos + 1)
    } else {
        (Word::Other, pos + 1)
    }
}

proof fn lemma_dec_run_end(s: Seq<char>, i: int)
    requires
        0 <= i <= s.len(),
    ensures
        i <= dec_run_end(s, i) <= s.len(),
        forall|k: int| i <= k < dec_run_end(s, i) ==> is_dec_digit(#[trigger] s[k]),
        dec_run_end(s, i) < s.len() ==> !is_dec_digit(s[dec_run_end(s, i)]),
    decreases s.len() - i,
{
    if i < s.len() && is_dec_digit(s[i]) {
        lemma_dec_run_end(s, i + 1);
    }
}

proof fn lemma_hex_run_end(s: Seq<char>, i: int)
    requires
        0 <= i <= s.len(),
    ensures
        i <= hex_run_end(s, i) <= s.len(),
        forall|k: int| i <= k < hex_run_end(s, i) ==> is_hex_digit(#[trigger] s[k]),
        hex_run_end(s, i) < s.len() ==> !is_hex_digit(s[hex_run_end(s, i)]),
    decreases s.len() - i,
{
    if i < s.len() && is_hex_digit(s[i]) {
        lemma_hex_run_end(s, i + 1);
    }
}

proof fn lemma_blank_run_end(s: Seq<char>, i: int)
    requires
        0 <= i <= s.len(),
    ensures
        i <= blank_run_end(s, i) <= s.len(),
        forall|k: int| i <= k < blank_run_end(s, i) ==> is_blank(#[trigger] s[k]),
        blank_run_end(s, i) < s.len() ==> !is_blank(s[blank_run_end(s, i)]),
    decreases s.len() - i,
{
    if i < s.len() && is_blank(s[i]) {
        lemma_blank_run_end(s, i + 1);
    }
}

/// Every token consumes at least one character and stays inside the line.
pub proof fn lemma_lex_word_progress(s: Seq<char>, pos: int)
    requires
        0 <= pos < s.len(),
    ensures
        pos < lex_word(s, pos).1 <= s.len(),
{
    lemma_dec_run_end(s, pos);
    if pos + 2 <= s.len() {
        lemma_hex_run_end(s, pos + 2);
    }
    lemma_blank_run_end(s, pos);
}

/// A `0` followed directly by a digit or a letter other than `x` is no
/// number: the token is an error token.
pub proof fn lemma_zero_prefix(s: Seq<char>, pos: int)
    requires
        0 <= pos,
        pos + 1 < s.len(),
        s[pos] == '0',
        is_dec_digit(s[pos + 1]) || is_letter(s[pos + 1]),
        s[pos + 1] != 'x',
    ensures
        lex_word(s, pos).0 == Word::Other,
{
}

/// The tokens of `s` from position `pos` to its end.
pub open spec fn tokens_from(s: Seq<char>, pos: int) -> Seq<Word>
    decreases s.len() - pos,
    via tokens_from_decreases
{
    if 0 <= pos < s.len() {
        seq![lex_word(s, pos).0] + tokens_from(s, lex_word(s, pos).1)
    } else {
        Seq::empty()
    }
}

#[via_fn]
proof fn tokens_from_decreases(s: Seq<char>, pos: int) {
    if 0 <= pos < s.len() {
        lemma_lex_word_progress(s, pos);
    }
}

/// The tokens of a whole line.
pub open spec fn tokens(s: Seq<char>) -> Seq<Word> {
    tokens_from(s, 0)
}

/// A single forward pass over the characters of one line.
pub struct Lexer {
    pub chars: Vec<char>,
    pub pos: usize,
}

impl Lexer {
    pub open spec fn wf(&self) -> bool {
        self.pos <= self.chars@.len()
    }

    /// The tokens that are still to come.
    pub open spec fn remaining(&self) -> Seq<Word> {
        tokens_from(self.chars@, self.pos as int)
    }

    fn is_dec_digit(c: char) -> (r: bool)
        ensures
            r == is_dec_digit(c),
    {
        '0' <= c && c <= '9'
    }

    fn is_hex_digit(c: char) -> (r: bool)
        ensures
            r == is_hex_digit(c),
    {
        ('0' <= c && c <= '9') || ('a' <= c && c <= 'f') || ('A' <= c && c <= 'F')
    }

    fn is_alphanumeric(c: char) -> (r: bool)
        ensures
            r == (is_dec_digit(c) || is_letter(c)),
    {
        ('0' <= c && c <= '9') || ('a' <= c && c <= 'z') || ('A' <= c && c <= 'Z')
    }

    /// Reads a run of digits in `base` (10 or 16) that starts at `self.pos`, and
    /// returns its value if it fits in a machine word.
    fn digit_run(&mut self, base: usize) -> (r: Option<usize>)
        requires
            old(self).wf(),
            base == 10 || base == 16,
        ensures
            final(self).chars == old(self).chars,
            final(self).pos as int == if base == 10 {
                dec_run_end(old(self).chars@, old(self).pos as int)
            } else {
                hex_run_end(old(self).chars@, old(self).pos as int)
            },
            match r {
                Some(v) => v as nat == digits_value(
                    old(self).chars@.subrange(old(self).pos as int, final(self).pos as int),
                    base as nat,
                ),
                None => digits_value(
                    old(self).chars@.subrange(old(self).pos as int, final(self).pos as int),
                    base as nat,
                ) > usize::MAX,
            },
    {
        let ghost s = self.chars@;
        let ghost start = self.pos as int;
        let mut value: usize = 0;
        let mut fits: bool = true;
        proof {
            assert(s.subrange(start, start).len() == 0);
        }
        while self.pos < self.chars.len()
            invariant
                self.chars == old(self).chars,
                self.chars@ == s,
                0 <= start <= self.pos <= s.len(),
                base == 10 || base == 16,
                forall|k: int| start <= k < self.pos ==> (if base == 10 {
                    is_dec_digit(#[trigger] s[k])
                } else {
                    is_hex_digit(s[k])
                }),
                if base == 10 {
                    dec_run_end(s, start) == dec_run_end(s, self.pos as int)
                } else {
                    hex_run_end(s, start) == hex_run_end(s, self.pos as int)
                },
                fits ==> value as nat == digits_value(s.subrange(start, self.pos as int), base as nat),
                !fits ==> digits_value(s.subrange(start, self.pos as int), base as nat) > usize::MAX,
            ensures
                self.chars == old(self).chars,
                self.pos as int == if base == 10 {
                    dec_run_end(s, start)
                } else {
                    hex_run_end(s, start)
                },
                fits ==> value as nat == digits_value(s.subrange(start, self.pos as int), base as nat),
                !fits ==> digits_value(s.subrange(start, self.pos as int), base as nat) > usize::MAX,
            decreases s.len() - self.pos,
        {
            let c = self.chars[self.pos];
            let is_digit = if base == 10 {
                Self::is_dec_digit(c)
            } else {
                Self::is_hex_digit(c)
            };
            if !is_digit {
                break;
            }
            let d: usize = if '0' <= c && c <= '9' {
                (c as u32 - '0' as u32) as usize
            } else if 'a' <= c && c <= 'f' {
                (c as u32 - 'a' as u32 + 10) as usize
            } else {
                (c as u32 - 'A' as u32 + 10) as usize
            };
            let ghost p: int = self.pos as int;
            let ghost prev = s.subrange(start, p);
            let ghost next = s.subrange(start, p + 1);
            proof {
                assert(next.drop_last() =~= prev);
                assert(next.last() == c);
                assert(d as nat == hex_digit_value(c));
                assert(digits_value(next, base as nat) == digits_value(prev, base as nat)
                    * base as nat + d as nat);
            }
            let limit = (usize::MAX - d) / base;
            if fits && value <= limit {
                proof {
                    assert(value * base + d <= usize::MAX) by (nonlinear_arith)
                        requires
                            value <= limit,
                            limit == (usize::MAX - d) / base as int,
                            base > 0,
                            d <= usize::MAX,
                    ;
                }
                value = value * base + d;
            } else {
                proof {
                    if fits {
                        assert(value * base + d > usize::MAX) by (nonlinear_arith)
                            requires
                                value > limit,
                                limit == (usize::MAX - d) / base as int,
                                base > 0,
                                d <= usize::MAX,
                        ;
                    } else {
                        let p = digits_value(prev, base as nat);
                        assert(p * base as nat + d as nat > usize::MAX) by (nonlinear_arith)
                            requires
                                p > usize::MAX,
                                base > 0,
                        ;
                    }
                }
                fits = false;
            }
            self.pos = self.pos + 1;
        }
        if fits {
            Some(value)
        } else {
            None
        }
    }

    /// Skips a run of spaces and tabs.
    fn skip_blanks(&mut self)
        requires
            old(self).wf(),
        ensures
            final(self).chars == old(self).chars,
            final(self).pos as int == blank_run_end(old(self).chars@, old(self).pos as int),
    {
        let ghost s = self.chars@;
        let ghost start = self.pos as int;
        while self.pos < self.chars.len()
            invariant
                self.chars == old(self).chars,
                self.chars@ == s,
                0 <= start <= self.pos <= s.len(),
                blank_run_end(s, start) == blank_run_end(s, self.pos as int),
            ensures
                self.chars == old(self).chars,
                self.pos as int == blank_run_end(s, start),
            decreases s.len() - self.pos,
        {
            let c = self.chars[self.pos];
            if c != ' ' && c != '\t' {
                break;
            }
            self.pos = self.pos + 1;
        }
    }

    /// The next token of the line, or `None` at its end.
    pub fn next(&mut self) -> (r: Option<Word>)
        requires
            old(self).wf(),
        ensures
            final(self).wf(),
            final(self).chars == old(self).chars,
            old(self).pos < old(self).chars@.len() ==> r == Some(
                lex_word(old(self).chars@, old(self).pos as int).0,
            ) && final(self).pos as int == lex_word(old(self).chars@, old(self).pos as int).1,
            old(self).pos >= old(self).chars@.len() ==> r is None && final(self).pos
                == old(self).pos,
    {
        let ghost s = self.chars@;
        let ghost p = self.pos as int;
        if self.pos >= self.chars.len() {
            return None;
        }
        proof {
            lemma_dec_run_end(s, p);
            lemma_blank_run_end(s, p);
            if p + 2 <= s.len() {
                lemma_hex_run_end(s, p + 2);
            }
        }
        let c = self.chars[self.pos];
        if '1' <= c && c <= '9' {
            match self.digit_run(10) {
                Some(v) => Some(Word::Integer(v)),
                None => Some(Word::Other),
            }
        } else if c == '0' {
            self.pos = self.pos + 1;
            if self.pos < self.chars.len() && self.chars[self.pos] == 'x' {
                self.pos = self.pos + 1;
                let at = self.pos;
                let v = self.digit_run(16);
                if self.pos == at {
                    Some(Word::Other)
                } else {
                    match v {
                        Some(v) => Some(Word::Integer(v)),
                        None => Some(Word::Other),
                    }
                }
            } else if self.pos < self.chars.len() && Self::is_alphanumeric(self.chars[self.pos]) {
                Some(Word::Other)
            } else {
                Some(Word::Integer(0))
            }
        } else if c == '/' {
            self.pos = self.pos + 1;
            Some(Word::Backslash)
        } else if c == '[' {
            self.pos = self.pos + 1;
            Some(Word::LeftSquareBracket)
        } else if c == ']' {
            self.pos = self.pos + 1;
            Some(Word::RightSquareBracket)
        } else if c == ';' {
            self.pos = self.pos + 1;
            Some(Word::Semicolon)
        } else if c == ' ' || c == '\t' {
            self.skip_blanks();
            Some(Word::Space)
        } else if ('a' <= c && c <= 'z') || ('A' <= c && c <= 'Z') {
            self.pos = self.pos + 1;
            Some(Word::Character(c))
        } else {
            self.pos = self.pos + 1;
            Some(Word::Other)
        }
    }
}

/// A lexer positioned at the start of `input`.
pub fn lexer(input: &str) -> (r: Lexer)
    ensures
        r.wf(),
        r.chars@ == input@,
        r.pos == 0,
{
    let n = input.unicode_len();
    let mut chars: Vec<char> = Vec::new();
    let mut i: usize = 0;
    while i < n
        invariant
            n == input@.len(),
            i <= n,
            chars@ == input@.subrange(0, i as int),
        decreases n - i,
    {
        chars.push(input.get_char(i));
        i = i + 1;
        proof {
            assert(chars@ =~= input@.subrange(0, i as int));
        }
    }
    proof {
        assert(chars@ =~= input@);
    }
    Lexer { chars, pos: 0 }
}

} // verus!
