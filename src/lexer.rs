//! The tokenizer: turns one line of text into positioned tokens.
use vstd::prelude::*;

use crate::text::{chars_of, push_char};

verus! {

/// One lexical unit. Every variant carries the character offset (counted in
/// characters, from zero) at which it starts in the line.
#[derive(Debug)]
pub enum Token {
    /// A run of digits, kept as text.
    Integer(String, usize),
    /// A run of digits with a dot, kept as text.
    Float(String, usize),
    /// The exponent marker `e` or `E` of scientific notation.
    E(usize),
    Plus(usize),
    Minus(usize),
    /// `*` or the multiplication sign `×`.
    Asterisk(usize),
    Slash(usize),
    Caret(usize),
    /// `_`, the last result.
    Underscore(usize),
    LParen(usize),
    RParen(usize),
    /// End of the tokens: with the offset of an unmatched `(` where the input
    /// ended inside a group, with nothing at the top level.
    EOE(Option<usize>),
    /// A character that no rule accepts.
    Unknown(usize),
}

/// The mathematical model of a token: its text as a character sequence.
pub enum Tok {
    Integer(Seq<char>, usize),
    Float(Seq<char>, usize),
    E(usize),
    Plus(usize),
    Minus(usize),
    Asterisk(usize),
    Slash(usize),
    Caret(usize),
    Underscore(usize),
    LParen(usize),
    RParen(usize),
    EOE(Option<usize>),
    Unknown(usize),
}

impl View for Token {
    type V = Tok;

    open spec fn view(&self) -> Tok {
        match self {
            Token::Integer(s, i) => Tok::Integer(s@, *i),
            Token::Float(s, i) => Tok::Float(s@, *i),
            Token::E(i) => Tok::E(*i),
            Token::Plus(i) => Tok::Plus(*i),
            Token::Minus(i) => Tok::Minus(*i),
            Token::Asterisk(i) => Tok::Asterisk(*i),
            Token::Slash(i) => Tok::Slash(*i),
            Token::Caret(i) => Tok::Caret(*i),
            Token::Underscore(i) => Tok::Underscore(*i),
            Token::LParen(i) => Tok::LParen(*i),
            Token::RParen(i) => Tok::RParen(*i),
            Token::EOE(o) => Tok::EOE(*o),
            Token::Unknown(i) => Tok::Unknown(*i),
        }
    }
}

/// The offset that a diagnostic points at: the token's own offset, or, for
/// an end of input at the top level, one past the last character.
pub open spec fn tok_index(t: Tok, length: usize) -> usize {
    match t {
        Tok::Integer(_, i) => i,
        Tok::Float(_, i) => i,
        Tok::E(i) => i,
        Tok::Plus(i) => i,
        Tok::Minus(i) => i,
        Tok::Asterisk(i) => i,
        Tok::Slash(i) => i,
        Tok::Caret(i) => i,
        Tok::Underscore(i) => i,
        Tok::LParen(i) => i,
        Tok::RParen(i) => i,
        Tok::Unknown(i) => i,
        Tok::EOE(Some(i)) => i,
        Tok::EOE(None) => length,
    }
}

impl Token {
    /// The offset that a diagnostic points at, in a line of `length`
    /// characters.
    pub fn index(&self, length: usize) -> (r: usize)
        ensures
            r == tok_index(self@, length),
    {
        match self {
            Token::Integer(_, i) => *i,
            Token::Float(_, i) => *i,
            Token::E(i) => *i,
            Token::Plus(i) => *i,
            Token::Minus(i) => *i,
            Token::Asterisk(i) => *i,
            Token::Slash(i) => *i,
            Token::Caret(i) => *i,
            Token::Underscore(i) => *i,
            Token::LParen(i) => *i,
            Token::RParen(i) => *i,
            Token::Unknown(i) => *i,
            Token::EOE(Some(i)) => *i,
            Token::EOE(None) => length,
        }
    }

    /// A copy of the token.
    pub fn duplicate(&self) -> (r: Token)
        ensures
            r@ == self@,
    {
        match self {
            Token::Integer(s, i) => Token::Integer(s.clone(), *i),
            Token::Float(s, i) => Token::Float(s.clone(), *i),
            Token::E(i) => Token::E(*i),
            Token::Plus(i) => Token::Plus(*i),
            Token::Minus(i) => Token::Minus(*i),
            Token::Asterisk(i) => Token::Asterisk(*i),
            Token::Slash(i) => Token::Slash(*i),
            Token::Caret(i) => Token::Caret(*i),
            Token::Underscore(i) => Token::Underscore(*i),
            Token::LParen(i) => Token::LParen(*i),
            Token::RParen(i) => Token::RParen(*i),
            Token::EOE(o) => Token::EOE(*o),
            Token::Unknown(i) => Token::Unknown(*i),
        }
    }
}

/// The models of a sequence of tokens.
pub open spec fn toks(v: Seq<Token>) -> Seq<Tok> {
    v.map_values(|t: Token| t@)
}

pub open spec fn is_digit(c: char) -> bool {
    '0' <= c && c <= '9'
}

pub open spec fn is_blank(c: char) -> bool {
    c == ' ' || c == '\t'
}

/// The number of consecutive digits in `s` from position `i` on.
pub open spec fn digits_from(s: Seq<char>, i: nat) -> nat
    decreases s.len() - i,
{
    if i < s.len() && is_digit(s[i as int]) {
        1 + digits_from(s, i + 1)
    } else {
        0
    }
}

/// The token for a character that forms a token on its own.
pub open spec fn glyph(c: char, i: usize) -> Tok {
    if c == '+' {
        Tok::Plus(i)
    } else if c == '-' {
        Tok::Minus(i)
    } else if c == '*' || c == '\u{d7}' {
        Tok::Asterisk(i)
    } else if c == '/' {
        Tok::Slash(i)
    } else if c == '^' {
        Tok::Caret(i)
    } else if c == '_' {
        Tok::Underscore(i)
    } else if c == '(' {
        Tok::LParen(i)
    } else if c == ')' {
        Tok::RParen(i)
    } else if c == 'e' || c == 'E' {
        Tok::E(i)
    } else {
        Tok::Unknown(i)
    }
}

/// The tokens of `s` from position `i` on: blanks are skipped, a digit
/// starts a numeral (an integer, or a float where a dot follows its digits),
/// a dot followed by a digit starts a float, and every other character is a
/// token of its own.
pub open spec fn lex_from(s: Seq<char>, i: nat) -> Seq<Tok>
    decreases s.len() - i via lex_from_decreases
{
    if i >= s.len() {
        seq![]
    } else {
        let c = s[i as int];
        let at = i as usize;
        if is_blank(c) {
            lex_from(s, i + 1)
        } else if is_digit(c) {
            let j = i + 1 + digits_from(s, i + 1);
            if j < s.len() && s[j as int] == '.' {
                let k = j + 1 + digits_from(s, j + 1);
                seq![Tok::Float(s.subrange(i as int, k as int), at)] + lex_from(s, k)
            } else {
                seq![Tok::Integer(s.subrange(i as int, j as int), at)] + lex_from(s, j)
            }
        } else if c == '.' && i + 1 < s.len() && is_digit(s[i + 1 as int]) {
            let k = i + 1 + digits_from(s, i + 1);
            seq![Tok::Float(s.subrange(i as int, k as int), at)] + lex_from(s, k)
        } else {
            seq![glyph(c, at)] + lex_from(s, i + 1)
        }
    }
}

#[via_fn]
proof fn lex_from_decreases(s: Seq<char>, i: nat) {
    if i < s.len() {
        lemma_digit_run(s, i + 1);
        let j = i + 1 + digits_from(s, i + 1);
        if j < s.len() {
            lemma_digit_run(s, j + 1);
        }
    }
}

pub open spec fn all_digits(x: Seq<char>) -> bool {
    forall|i: int| 0 <= i < x.len() ==> #[trigger] is_digit(x[i])
}

/// The text of an integer literal: one digit or more.
pub open spec fn integer_text(x: Seq<char>) -> bool {
    x.len() > 0 && all_digits(x)
}

/// The text of a float literal: digits, a dot, digits, with a digit on at
/// least one side of the dot.
pub open spec fn float_text(x: Seq<char>) -> bool {
    exists|m: int|
        0 <= m < x.len() && #[trigger] x[m] == '.' && all_digits(x.take(m)) && all_digits(
            x.skip(m + 1),
        ) && (m > 0 || m + 1 < x.len())
}

/// A run of digits from `i` that ends at `m` has `m - i` digits.
proof fn lemma_digits_exact(s: Seq<char>, i: nat, m: nat)
    requires
        i <= m <= s.len(),
        forall|j: int| i <= j < m ==> #[trigger] is_digit(s[j]),
        m == s.len() || !is_digit(s[m as int]),
    ensures
        digits_from(s, i) == m - i,
    decreases m - i,
{
    if i < m {
        lemma_digits_exact(s, i + 1, m);
    }
}

/// The digits that `digits_from` counts are digits, and the run stops at
/// the end or at a character that is not a digit.
proof fn lemma_digit_run(s: Seq<char>, i: nat)
    requires
        i <= s.len(),
    ensures
        i + digits_from(s, i) <= s.len(),
        forall|j: int| i <= j < i + digits_from(s, i) ==> #[trigger] is_digit(s[j]),
        i + digits_from(s, i) == s.len() || !is_digit(s[(i + digits_from(s, i)) as int]),
    decreases s.len() - i,
{
    if i < s.len() && is_digit(s[i as int]) {
        lemma_digit_run(s, i + 1);
    }
}

/// Every literal that the tokenizer gives has the text of its kind.
pub proof fn lemma_literal_texts(s: Seq<char>, i: nat)
    ensures
        forall|k: int|
            0 <= k < lex_from(s, i).len() ==> {
                &&& (#[trigger] lex_from(s, i)[k] matches Tok::Integer(x, _) ==> integer_text(x))
                &&& (lex_from(s, i)[k] matches Tok::Float(x, _) ==> float_text(x))
            },
    decreases s.len() - i,
{
    if i < s.len() {
        let c = s[i as int];
        if is_blank(c) {
            lemma_literal_texts(s, i + 1);
        } else if is_digit(c) {
            lemma_digit_run(s, i + 1);
            let j = i + 1 + digits_from(s, i + 1);
            if j < s.len() && s[j as int] == '.' {
                lemma_digit_run(s, j + 1);
                let k = j + 1 + digits_from(s, j + 1);
                let x = s.subrange(i as int, k as int);
                let m = j - i;
                assert(x[m] == '.');
                assert(all_digits(x.take(m)));
                assert(all_digits(x.skip(m + 1)));
                assert(float_text(x));
                lemma_literal_texts(s, k);
                assert(lex_from(s, i) == seq![Tok::Float(x, i as usize)] + lex_from(s, k));
            } else {
                let x = s.subrange(i as int, j as int);
                assert(integer_text(x));
                lemma_literal_texts(s, j);
                assert(lex_from(s, i) == seq![Tok::Integer(x, i as usize)] + lex_from(s, j));
            }
        } else if c == '.' && i + 1 < s.len() && is_digit(s[i + 1 as int]) {
            lemma_digit_run(s, i + 1);
            let k = i + 1 + digits_from(s, i + 1);
            let x = s.subrange(i as int, k as int);
            assert(x[0] == '.');
            assert(all_digits(x.take(0)));
            assert(all_digits(x.skip(1)));
            assert(float_text(x));
            lemma_literal_texts(s, k);
            assert(lex_from(s, i) == seq![Tok::Float(x, i as usize)] + lex_from(s, k));
        } else {
            lemma_literal_texts(s, i + 1);
            assert(lex_from(s, i) == seq![glyph(c, i as usize)] + lex_from(s, i + 1));
        }
    }
}

/// The text of an integer literal is tokenized as that literal alone.
pub proof fn lemma_lex_integer_text(x: Seq<char>)
    requires
        integer_text(x),
    ensures
        lex_spec(x) == seq![Tok::Integer(x, 0usize)],
{
    lemma_digits_exact(x, 1, x.len());
    assert(x.subrange(0, x.len() as int) =~= x);
    assert(lex_from(x, x.len()) == Seq::<Tok>::empty());
    assert(lex_spec(x) =~= seq![Tok::Integer(x, 0usize)]);
}

/// The text of a float literal is tokenized as that literal alone.
pub proof fn lemma_lex_float_text(x: Seq<char>)
    requires
        float_text(x),
    ensures
        lex_spec(x) == seq![Tok::Float(x, 0usize)],
{
    let m = choose|m: int|
        0 <= m < x.len() && #[trigger] x[m] == '.' && all_digits(x.take(m)) && all_digits(
            x.skip(m + 1),
        ) && (m > 0 || m + 1 < x.len());
    assert(forall|j: int| m + 1 <= j < x.len() ==> is_digit(#[trigger] x[j])) by {
        assert forall|j: int| m + 1 <= j < x.len() implies is_digit(#[trigger] x[j]) by {
            assert(x.skip(m + 1)[j - m - 1] == x[j]);
        }
    }
    assert(forall|j: int| 0 <= j < m ==> is_digit(#[trigger] x[j])) by {
        assert forall|j: int| 0 <= j < m implies is_digit(#[trigger] x[j]) by {
            assert(x.take(m)[j] == x[j]);
        }
    }
    lemma_digits_exact(x, (m + 1) as nat, x.len());
    if m > 0 {
        lemma_digits_exact(x, 1, m as nat);
    }
    assert(x.subrange(0, x.len() as int) =~= x);
    assert(lex_from(x, x.len()) == Seq::<Tok>::empty());
    assert(lex_spec(x) =~= seq![Tok::Float(x, 0usize)]);
}

/// The tokens of a line.
pub open spec fn lex_spec(s: Seq<char>) -> Seq<Tok> {
    lex_from(s, 0)
}

fn glyph_token(c: char, i: usize) -> (r: Token)
    ensures
        r@ == glyph(c, i),
{
    if c == '+' {
        Token::Plus(i)
    } else if c == '-' {
        Token::Minus(i)
    } else if c == '*' || c == '\u{d7}' {
        Token::Asterisk(i)
    } else if c == '/' {
        Token::Slash(i)
    } else if c == '^' {
        Token::Caret(i)
    } else if c == '_' {
        Token::Underscore(i)
    } else if c == '(' {
        Token::LParen(i)
    } else if c == ')' {
        Token::RParen(i)
    } else if c == 'e' || c == 'E' {
        Token::E(i)
    } else {
        Token::Unknown(i)
    }
}

/// Appends the digits of `s` from `i` on to `text`; returns the position
/// after the last of them.
fn take_digits(s: &Vec<char>, i: usize, text: &mut String) -> (j: usize)
    requires
        i <= s@.len(),
    ensures
        j == i + digits_from(s@, i as nat),
        j <= s@.len(),
        final(text)@ == old(text)@ + s@.subrange(i as int, j as int),
{
    let mut j = i;
    while j < s.len() && '0' <= s[j] && s[j] <= '9'
        invariant
            i <= j <= s@.len(),
            i + digits_from(s@, i as nat) == j + digits_from(s@, j as nat),
            text@ == old(text)@ + s@.subrange(i as int, j as int),
        decreases s@.len() - j,
    {
        push_char(text, s[j]);
        assert(s@.subrange(i as int, j + 1) == s@.subrange(i as int, j as int).push(s@[j as int]));
        j = j + 1;
    }
    j
}

/// The tokens of `source`, in order.
pub fn lex(source: &str) -> (r: Vec<Token>)
    ensures
        toks(r@) == lex_spec(source@),
{
    let s = chars_of(source);
    let n = s.len();
    let mut out: Vec<Token> = Vec::new();
    let mut i: usize = 0;
    while i < n
        invariant
            n == s@.len(),
            s@ == source@,
            i <= n,
            toks(out@) + lex_from(s@, i as nat) == lex_spec(s@),
        decreases n - i,
    {
        let c = s[i];
        let ghost before = out@;
        if c == ' ' || c == '\t' {
            i = i + 1;
        } else if '0' <= c && c <= '9' {
            let mut text = String::new();
            push_char(&mut text, c);
            let j = take_digits(&s, i + 1, &mut text);
            if j < n && s[j] == '.' {
                push_char(&mut text, '.');
                let k = take_digits(&s, j + 1, &mut text);
                assert(text@ =~= s@.subrange(i as int, k as int));
                out.push(Token::Float(text, i));
                i = k;
            } else {
                assert(text@ =~= s@.subrange(i as int, j as int));
                out.push(Token::Integer(text, i));
                i = j;
            }
        } else if c == '.' && i + 1 < n && '0' <= s[i + 1] && s[i + 1] <= '9' {
            let mut text = String::new();
            push_char(&mut text, '.');
            let k = take_digits(&s, i + 1, &mut text);
            assert(text@ =~= s@.subrange(i as int, k as int));
            out.push(Token::Float(text, i));
            i = k;
        } else {
            out.push(glyph_token(c, i));
            i = i + 1;
        }
        assert(toks(out@) + lex_from(s@, i as nat) == lex_spec(s@)) by {
            assert(toks(out@) == toks(before) + toks(out@).subrange(before.len() as int, out@.len() as int));
        }
    }
    out
}

} // verus!
