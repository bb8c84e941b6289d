//! The text of a diagnostic: a caret under the offending token and a line
//! that names it.
use vstd::prelude::*;

use crate::lexer::{Tok, Token, tok_index};
use crate::text::push_char;

verus! {

/// The decimal digit for `d`, which is below ten.
pub open spec fn digit_char(d: nat) -> char {
    seq!['0', '1', '2', '3', '4', '5', '6', '7', '8', '9'][d as int]
}

/// The decimal numeral of `n`, without leading zeros.
pub open spec fn decimal(n: nat) -> Seq<char>
    decreases n,
{
    if n < 10 {
        seq![digit_char(n)]
    } else {
        decimal(n / 10).push(digit_char(n % 10))
    }
}

/// `n` spaces.
pub open spec fn spaces(n: nat) -> Seq<char>
    decreases n,
{
    if n == 0 {
        seq![]
    } else {
        spaces((n - 1) as nat).push(' ')
    }
}

/// The name of a token's variant.
pub open spec fn tok_name(t: Tok) -> Seq<char> {
    match t {
        Tok::Integer(..) => "Integer"@,
        Tok::Float(..) => "Float"@,
        Tok::E(_) => "E"@,
        Tok::Plus(_) => "Plus"@,
        Tok::Minus(_) => "Minus"@,
        Tok::Asterisk(_) => "Asterisk"@,
        Tok::Slash(_) => "Slash"@,
        Tok::Caret(_) => "Caret"@,
        Tok::Underscore(_) => "Underscore"@,
        Tok::LParen(_) => "LParen"@,
        Tok::RParen(_) => "RParen"@,
        Tok::EOE(_) => "EOE"@,
        Tok::Unknown(_) => "Unknown"@,
    }
}

/// A token as text: its variant's name and, in parentheses, its fields, a
/// literal's text in double quotes (`Integer("12", 0)`, `Plus(3)`,
/// `EOE(Some(0))`, `EOE(None)`).
pub open spec fn describe_tok(t: Tok) -> Seq<char> {
    match t {
        Tok::Integer(x, i) => tok_name(t) + "(\""@ + x + "\", "@ + decimal(i as nat) + ")"@,
        Tok::Float(x, i) => tok_name(t) + "(\""@ + x + "\", "@ + decimal(i as nat) + ")"@,
        Tok::EOE(Some(i)) => tok_name(t) + "(Some("@ + decimal(i as nat) + "))"@,
        Tok::EOE(None) => tok_name(t) + "(None)"@,
        _ => tok_name(t) + "("@ + decimal(tok_index(t, 0) as nat) + ")"@,
    }
}

/// The line with the caret: two columns of margin, then one space for each
/// character before the offending token.
pub open spec fn caret_line(t: Tok, length: usize) -> Seq<char> {
    spaces((tok_index(t, length) + 2) as nat).push('^')
}

/// The line that says what went wrong. An end of input inside a group
/// (whose recorded offset is not the line's length) says that a closing
/// parenthesis was expected.
pub open spec fn message_line(t: Tok, length: usize) -> Seq<char> {
    match t {
        Tok::EOE(o) => if o is Some && o->0 != length {
            "  Unexpected end of input: Expected closing parenthesis"@
        } else {
            "  Unexpected end of input"@
        },
        _ => spaces((tok_index(t, length) + 2) as nat) + "Invalid Token: "@ + describe_tok(t),
    }
}

fn digit(d: usize) -> (c: char)
    requires
        d < 10,
    ensures
        c == digit_char(d as nat),
{
    let table = ['0', '1', '2', '3', '4', '5', '6', '7', '8', '9'];
    assert(table@ == seq!['0', '1', '2', '3', '4', '5', '6', '7', '8', '9']);
    table[d]
}

fn push_decimal(s: &mut String, n: usize)
    ensures
        final(s)@ == old(s)@ + decimal(n as nat),
    decreases n,
{
    if n >= 10 {
        push_decimal(s, n / 10);
    }
    push_char(s, digit(n % 10));
}

fn push_spaces(s: &mut String, n: usize)
    ensures
        final(s)@ == old(s)@ + spaces(n as nat),
{
    let mut k: usize = 0;
    while k < n
        invariant
            k <= n,
            s@ == old(s)@ + spaces(k as nat),
        decreases n - k,
    {
        push_char(s, ' ');
        k = k + 1;
    }
}

impl Token {
    fn name(&self) -> (r: &'static str)
        ensures
            r@ == tok_name(self@),
    {
        match self {
            Token::Integer(..) => "Integer",
            Token::Float(..) => "Float",
            Token::E(_) => "E",
            Token::Plus(_) => "Plus",
            Token::Minus(_) => "Minus",
            Token::Asterisk(_) => "Asterisk",
            Token::Slash(_) => "Slash",
            Token::Caret(_) => "Caret",
            Token::Underscore(_) => "Underscore",
            Token::LParen(_) => "LParen",
            Token::RParen(_) => "RParen",
            Token::EOE(_) => "EOE",
            Token::Unknown(_) => "Unknown",
        }
    }

    /// The token as text, as `describe_tok` gives it.
    pub fn describe(&self) -> (r: String)
        ensures
            r@ == describe_tok(self@),
    {
        let mut s = String::from_str(self.name());
        match self {
            Token::Integer(x, i) | Token::Float(x, i) => {
                s.append("(\"");
                s.append(x.as_str());
                s.append("\", ");
                push_decimal(&mut s, *i);
                s.append(")");
            },
            Token::EOE(Some(i)) => {
                s.append("(Some(");
                push_decimal(&mut s, *i);
                s.append("))");
            },
            Token::EOE(None) => {
                s.append("(None)");
            },
            _ => {
                s.append("(");
                push_decimal(&mut s, self.index(0));
                s.append(")");
            },
        }
        s
    }
}

/// The two lines that point at `token` in a line of `length` characters:
/// the caret line and the message line.
pub fn diagnostic(token: &Token, length: usize) -> (r: (String, String))
    ensures
        r.0@ == caret_line(token@, length),
        r.1@ == message_line(token@, length),
{
    let mut caret = String::new();
    push_char(&mut caret, ' ');
    push_char(&mut caret, ' ');
    proof {
        reveal_with_fuel(spaces, 3);
        assert(caret@ =~= spaces(2));
    }
    push_spaces(&mut caret, token.index(length));
    proof {
        lemma_spaces_split(2, tok_index(token@, length) as nat);
    }
    assert(caret@ == spaces((tok_index(token@, length) + 2) as nat));
    let pad = caret.clone();
    push_char(&mut caret, '^');
    let message = match token {
        Token::EOE(o) => {
            let closing = match o {
                Some(i) => *i != length,
                None => false,
            };
            if closing {
                String::from_str("  Unexpected end of input: Expected closing parenthesis")
            } else {
                String::from_str("  Unexpected end of input")
            }
        },
        _ => {
            let mut m = pad;
            m.append("Invalid Token: ");
            let d = token.describe();
            m.append(d.as_str());
            m
        },
    };
    (caret, message)
}

/// Spaces concatenate.
proof fn lemma_spaces_split(a: nat, b: nat)
    ensures
        spaces(a) + spaces(b) == spaces(a + b),
    decreases b,
{
    if b == 0 {
        assert(spaces(a) + spaces(0) =~= spaces(a));
    } else {
        lemma_spaces_split(a, (b - 1) as nat);
        assert(spaces(a) + spaces(b) =~= (spaces(a) + spaces((b - 1) as nat)).push(' '));
    }
}

} // verus!
