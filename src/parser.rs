//! The recursive-descent parser, from tokens to an expression tree.
//!
//! Grammar, loosest first:
//! ```text
//! expression ::= term { ("+" | "-") term }
//! term       ::= powered { ("*" | "/") powered }
//! powered    ::= juxtaposed [ "^" powered ]
//! juxtaposed ::= unary { "(" expression ")" }
//! unary      ::= ["+" | "-"] number
//! number     ::= (int | float) [ ("e" | "E") powered ] | "_" | "(" expression ")"
//! ```
//! Every parsing function reads the tokens from a position with one token of
//! lookahead and never backtracks. A failure still moves the position past
//! what was consumed; `unary` relies on that when it treats a failing `+` or
//! `-` as a sign.
use vstd::prelude::*;

use crate::lexer::{
    Tok, Token, toks, lex_spec, lemma_literal_texts, lemma_lex_integer_text, lemma_lex_float_text,
};

verus! {

/// A binary operator.
#[derive(Debug, Clone, Copy, PartialEq, Eq, Structural)]
pub enum Oparand {
    Add,
    Sub,
    Mul,
    Div,
    Pow,
}

/// An expression tree. Literals keep their text; it is turned into a number
/// when the tree is evaluated.
#[derive(Debug)]
pub enum Tree {
    Operation(Oparand, Box<Tree>, Box<Tree>),
    Integer(String),
    Float(String),
    LastResult,
}

/// The mathematical model of an expression tree.
pub enum Ast {
    Operation(Oparand, Box<Ast>, Box<Ast>),
    Integer(Seq<char>),
    Float(Seq<char>),
    LastResult,
}

/// The model of a tree: its literals' text as character sequences.
pub open spec fn tree_model(t: Tree) -> Ast
    decreases t,
{
    match t {
        Tree::Operation(o, l, r) => Ast::Operation(o, Box::new(tree_model(*l)), Box::new(tree_model(*r))),
        Tree::Integer(s) => Ast::Integer(s@),
        Tree::Float(s) => Ast::Float(s@),
        Tree::LastResult => Ast::LastResult,
    }
}

impl View for Tree {
    type V = Ast;

    open spec fn view(&self) -> Ast {
        tree_model(*self)
    }
}

pub open spec fn op(o: Oparand, l: Ast, r: Ast) -> Ast {
    Ast::Operation(o, Box::new(l), Box::new(r))
}

/// The text `0.0`, the left operand that a negation subtracts from.
pub open spec fn zero_text() -> Seq<char> {
    seq!['0', '.', '0']
}

/// The text `10`, the base of scientific notation.
pub open spec fn ten_text() -> Seq<char> {
    seq!['1', '0']
}

/// The outcome of a parsing function: a tree or the offending token, and
/// the position after what was consumed.
pub type Step = (Result<Ast, Tok>, int);

pub open spec fn res_view(r: Result<Tree, Token>) -> Result<Ast, Tok> {
    match r {
        Ok(t) => Ok(t@),
        Err(e) => Err(e@),
    }
}

pub open spec fn at(t: Seq<Tok>, p: int) -> Option<Tok> {
    if 0 <= p < t.len() {
        Some(t[p])
    } else {
        None
    }
}

/// `expression ::= term { ("+" | "-") term }`
pub open spec fn expression(t: Seq<Tok>, p: int) -> Step
    decreases t.len() - p, 7int,
{
    let (r, q) = term(t, p);
    match r {
        Err(e) => (Err(e), q),
        Ok(a) => if p < q <= t.len() {
            expression_rest(t, q, a)
        } else {
            (Ok(a), q)
        },
    }
}

/// The loop of `expression`, with the tree folded so far.
pub open spec fn expression_rest(t: Seq<Tok>, p: int, acc: Ast) -> Step
    decreases t.len() - p, 1int,
{
    match at(t, p) {
        Some(Tok::Plus(_)) => expression_more(t, p, acc, Oparand::Add),
        Some(Tok::Minus(_)) => expression_more(t, p, acc, Oparand::Sub),
        _ => (Ok(acc), p),
    }
}

pub open spec fn expression_more(t: Seq<Tok>, p: int, acc: Ast, o: Oparand) -> Step
    decreases t.len() - p, 0int,
{
    if 0 <= p < t.len() {
        let (r, q) = term(t, p + 1);
        match r {
            Err(e) => (Err(e), q),
            Ok(b) => if p < q <= t.len() {
                expression_rest(t, q, op(o, acc, b))
            } else {
                (Ok(op(o, acc, b)), q)
            },
        }
    } else {
        (Ok(acc), p)
    }
}

/// `term ::= powered { ("*" | "/") powered }`
pub open spec fn term(t: Seq<Tok>, p: int) -> Step
    decreases t.len() - p, 6int,
{
    let (r, q) = powered(t, p);
    match r {
        Err(e) => (Err(e), q),
        Ok(a) => if p < q <= t.len() {
            term_rest(t, q, a)
        } else {
            (Ok(a), q)
        },
    }
}

/// The loop of `term`, with the tree folded so far.
pub open spec fn term_rest(t: Seq<Tok>, p: int, acc: Ast) -> Step
    decreases t.len() - p, 1int,
{
    match at(t, p) {
        Some(Tok::Asterisk(_)) => term_more(t, p, acc, Oparand::Mul),
        Some(Tok::Slash(_)) => term_more(t, p, acc, Oparand::Div),
        _ => (Ok(acc), p),
    }
}

pub open spec fn term_more(t: Seq<Tok>, p: int, acc: Ast, o: Oparand) -> Step
    decreases t.len() - p, 0int,
{
    if 0 <= p < t.len() {
        let (r, q) = powered(t, p + 1);
        match r {
            Err(e) => (Err(e), q),
            Ok(b) => if p < q <= t.len() {
                term_rest(t, q, op(o, acc, b))
            } else {
                (Ok(op(o, acc, b)), q)
            },
        }
    } else {
        (Ok(acc), p)
    }
}

/// `powered ::= juxtaposed [ "^" powered ]`, right-associative.
pub open spec fn powered(t: Seq<Tok>, p: int) -> Step
    decreases t.len() - p, 5int,
{
    let (r, q) = juxtaposed(t, p);
    match r {
        Err(e) => (Err(e), q),
        Ok(a) => match at(t, q) {
            Some(Tok::Caret(_)) => if p <= q {
                let (r2, q2) = powered(t, q + 1);
                match r2 {
                    Err(e) => (Err(e), q2),
                    Ok(b) => (Ok(op(Oparand::Pow, a, b)), q2),
                }
            } else {
                (Ok(a), q)
            },
            _ => (Ok(a), q),
        },
    }
}

/// `juxtaposed ::= unary { "(" expression ")" }`
pub open spec fn juxtaposed(t: Seq<Tok>, p: int) -> Step
    decreases t.len() - p, 4int,
{
    let (r, q) = unary(t, p);
    match r {
        Err(e) => (Err(e), q),
        Ok(a) => if p < q <= t.len() {
            juxtaposed_rest(t, q, a)
        } else {
            (Ok(a), q)
        },
    }
}

/// The loop of `juxtaposed`: each group that follows multiplies the tree
/// folded so far.
pub open spec fn juxtaposed_rest(t: Seq<Tok>, p: int, acc: Ast) -> Step
    decreases t.len() - p, 0int,
{
    match at(t, p) {
        Some(Tok::LParen(i)) => {
            let (r, q) = expression(t, p + 1);
            match r {
                Err(e) => (Err(e), q),
                Ok(b) => match at(t, q) {
                    Some(Tok::RParen(_)) => if p <= q {
                        juxtaposed_rest(t, q + 1, op(Oparand::Mul, acc, b))
                    } else {
                        (Ok(acc), q)
                    },
                    Some(tok) => (Err(tok), q + 1),
                    None => (Err(Tok::EOE(Some(i))), q),
                },
            }
        },
        _ => (Ok(acc), p),
    }
}

/// `unary ::= ["+" | "-"] number`: a sign is taken only where `number`
/// failed on it.
pub open spec fn unary(t: Seq<Tok>, p: int) -> Step
    decreases t.len() - p, 3int,
{
    let (r, q) = number(t, p);
    match r {
        Ok(a) => (Ok(a), q),
        Err(Tok::Plus(i)) => if p <= q <= t.len() {
            number(t, q)
        } else {
            (Err(Tok::Plus(i)), q)
        },
        Err(Tok::Minus(i)) => if p <= q <= t.len() {
            let (r2, q2) = number(t, q);
            match r2 {
                Err(e) => (Err(e), q2),
                Ok(b) => (Ok(op(Oparand::Sub, Ast::Float(zero_text()), b)), q2),
            }
        } else {
            (Err(Tok::Minus(i)), q)
        },
        Err(e) => (Err(e), q),
    }
}

/// `number ::= (int | float) [ ("e" | "E") powered ] | "_" | "(" expression ")"`
pub open spec fn number(t: Seq<Tok>, p: int) -> Step
    decreases t.len() - p, 2int,
{
    match at(t, p) {
        None => (Err(Tok::EOE(None)), p),
        Some(Tok::Underscore(_)) => (Ok(Ast::LastResult), p + 1),
        Some(Tok::Integer(s, _)) => scaled(t, p + 1, Ast::Integer(s)),
        Some(Tok::Float(s, _)) => scaled(t, p + 1, Ast::Float(s)),
        Some(Tok::LParen(i)) => {
            let (r, q) = expression(t, p + 1);
            match r {
                Err(e) => (Err(e), q),
                Ok(a) => match at(t, q) {
                    Some(Tok::RParen(_)) => (Ok(a), q + 1),
                    Some(tok) => (Err(tok), q + 1),
                    None => (Err(Tok::EOE(Some(i))), q),
                },
            }
        },
        Some(tok) => (Err(tok), p + 1),
    }
}

/// A literal, times ten to the power that follows where an exponent marker
/// comes next.
pub open spec fn scaled(t: Seq<Tok>, p: int, lit: Ast) -> Step
    decreases t.len() - p, 0int,
{
    match at(t, p) {
        Some(Tok::E(_)) => {
            let (r, q) = powered(t, p + 1);
            match r {
                Err(e) => (Err(e), q),
                Ok(x) => (Ok(op(Oparand::Mul, lit, op(Oparand::Pow, Ast::Integer(ten_text()), x))), q),
            }
        },
        _ => (Ok(lit), p),
    }
}

/// The tree of a whole token sequence: an expression with no token left
/// after it.
pub open spec fn parse_spec(t: Seq<Tok>) -> Result<Ast, Tok> {
    let (r, q) = expression(t, 0);
    match r {
        Err(e) => Err(e),
        Ok(a) => if 0 <= q < t.len() {
            Err(t[q])
        } else {
            Ok(a)
        },
    }
}

/// A token sequence of one literal parses as that literal.
proof fn lemma_parse_single_literal(tok: Tok, lit: Ast)
    requires
        tok matches Tok::Integer(x, _) ==> lit == Ast::Integer(x),
        tok matches Tok::Float(x, _) ==> lit == Ast::Float(x),
        tok is Integer || tok is Float,
    ensures
        parse_spec(seq![tok]) == Ok::<Ast, Tok>(lit),
{
    let t = seq![tok];
    assert(at(t, 1) is None);
    assert(scaled(t, 1, lit) == (Ok::<Ast, Tok>(lit), 1int));
    assert(number(t, 0) == (Ok::<Ast, Tok>(lit), 1int));
    assert(unary(t, 0) == (Ok::<Ast, Tok>(lit), 1int));
    assert(juxtaposed_rest(t, 1, lit) == (Ok::<Ast, Tok>(lit), 1int));
    assert(juxtaposed(t, 0) == (Ok::<Ast, Tok>(lit), 1int));
    assert(powered(t, 0) == (Ok::<Ast, Tok>(lit), 1int));
    assert(term_rest(t, 1, lit) == (Ok::<Ast, Tok>(lit), 1int));
    assert(term(t, 0) == (Ok::<Ast, Tok>(lit), 1int));
    assert(expression_rest(t, 1, lit) == (Ok::<Ast, Tok>(lit), 1int));
    assert(expression(t, 0) == (Ok::<Ast, Tok>(lit), 1int));
}

/// Any literal of a line, tokenized again from its own text, is that
/// literal alone at offset zero, and parses as the very node that it forms
/// inside the line; evaluated on its own it therefore has the values that it
/// has there.
pub proof fn lemma_literal_round_trip(line: Seq<char>, k: int)
    requires
        0 <= k < lex_spec(line).len(),
    ensures
        lex_spec(line)[k] matches Tok::Integer(x, _) ==> {
            &&& lex_spec(x) == seq![Tok::Integer(x, 0usize)]
            &&& parse_spec(lex_spec(x)) == Ok::<Ast, Tok>(Ast::Integer(x))
        },
        lex_spec(line)[k] matches Tok::Float(x, _) ==> {
            &&& lex_spec(x) == seq![Tok::Float(x, 0usize)]
            &&& parse_spec(lex_spec(x)) == Ok::<Ast, Tok>(Ast::Float(x))
        },
{
    lemma_literal_texts(line, 0);
    match lex_spec(line)[k] {
        Tok::Integer(x, _) => {
            lemma_lex_integer_text(x);
            lemma_parse_single_literal(Tok::Integer(x, 0usize), Ast::Integer(x));
        },
        Tok::Float(x, _) => {
            lemma_lex_float_text(x);
            lemma_parse_single_literal(Tok::Float(x, 0usize), Ast::Float(x));
        },
        _ => {},
    }
}

/// An exec result `r`, started at `p0`, agrees with the model step `s`, and
/// the position moved forward (strictly, on success) within the tokens.
pub open spec fn agrees(t: Seq<Token>, p0: usize, r: (Result<Tree, Token>, usize), s: Step) -> bool {
    &&& res_view(r.0) == s.0
    &&& r.1 as int == s.1
    &&& p0 <= r.1 <= t.len()
    &&& (r.0 is Ok ==> p0 < r.1)
}

fn make_op(o: Oparand, l: Tree, r: Tree) -> (t: Tree)
    ensures
        t@ == op(o, l@, r@),
{
    Tree::Operation(o, Box::new(l), Box::new(r))
}

fn parse_expression(t: &Vec<Token>, p0: usize) -> (r: (Result<Tree, Token>, usize))
    requires
        p0 <= t@.len(),
    ensures
        agrees(t@, p0, r, expression(toks(t@), p0 as int)),
    decreases t@.len() - p0, 7nat,
{
    let ghost tk = toks(t@);
    let (first, q) = parse_term(t, p0);
    let mut acc = match first {
        Err(e) => return (Err(e), q),
        Ok(a) => a,
    };
    let mut p = q;
    while p < t.len()
        invariant
            tk == toks(t@),
            p0 < p <= t@.len(),
            expression(tk, p0 as int) == expression_rest(tk, p as int, acc@),
        decreases t@.len() - p,
    {
        let o = match &t[p] {
            Token::Plus(_) => Oparand::Add,
            Token::Minus(_) => Oparand::Sub,
            _ => return (Ok(acc), p),
        };
        let (next, q) = parse_term(t, p + 1);
        match next {
            Err(e) => return (Err(e), q),
            Ok(b) => {
                acc = make_op(o, acc, b);
                p = q;
            },
        }
    }
    (Ok(acc), p)
}

fn parse_term(t: &Vec<Token>, p0: usize) -> (r: (Result<Tree, Token>, usize))
    requires
        p0 <= t@.len(),
    ensures
        agrees(t@, p0, r, term(toks(t@), p0 as int)),
    decreases t@.len() - p0, 6nat,
{
    let ghost tk = toks(t@);
    let (first, q) = parse_powered(t, p0);
    let mut acc = match first {
        Err(e) => return (Err(e), q),
        Ok(a) => a,
    };
    let mut p = q;
    while p < t.len()
        invariant
            tk == toks(t@),
            p0 < p <= t@.len(),
            term(tk, p0 as int) == term_rest(tk, p as int, acc@),
        decreases t@.len() - p,
    {
        let o = match &t[p] {
            Token::Asterisk(_) => Oparand::Mul,
            Token::Slash(_) => Oparand::Div,
            _ => return (Ok(acc), p),
        };
        let (next, q) = parse_powered(t, p + 1);
        match next {
            Err(e) => return (Err(e), q),
            Ok(b) => {
                acc = make_op(o, acc, b);
                p = q;
            },
        }
    }
    (Ok(acc), p)
}

fn parse_powered(t: &Vec<Token>, p0: usize) -> (r: (Result<Tree, Token>, usize))
    requires
        p0 <= t@.len(),
    ensures
        agrees(t@, p0, r, powered(toks(t@), p0 as int)),
    decreases t@.len() - p0, 5nat,
{
    let (first, q) = parse_juxtaposed(t, p0);
    let base = match first {
        Err(e) => return (Err(e), q),
        Ok(a) => a,
    };
    if q < t.len() {
        if let Token::Caret(_) = &t[q] {
            let (next, q2) = parse_powered(t, q + 1);
            return match next {
                Err(e) => (Err(e), q2),
                Ok(b) => (Ok(make_op(Oparand::Pow, base, b)), q2),
            };
        }
    }
    (Ok(base), q)
}

fn parse_juxtaposed(t: &Vec<Token>, p0: usize) -> (r: (Result<Tree, Token>, usize))
    requires
        p0 <= t@.len(),
    ensures
        agrees(t@, p0, r, juxtaposed(toks(t@), p0 as int)),
    decreases t@.len() - p0, 4nat,
{
    let ghost tk = toks(t@);
    let (first, q) = parse_unary(t, p0);
    let mut acc = match first {
        Err(e) => return (Err(e), q),
        Ok(a) => a,
    };
    let mut p = q;
    while p < t.len()
        invariant
            tk == toks(t@),
            p0 < p <= t@.len(),
            juxtaposed(tk, p0 as int) == juxtaposed_rest(tk, p as int, acc@),
        decreases t@.len() - p,
    {
        let open_at = match &t[p] {
            Token::LParen(i) => *i,
            _ => return (Ok(acc), p),
        };
        let (inner, q) = parse_expression(t, p + 1);
        let b = match inner {
            Err(e) => return (Err(e), q),
            Ok(b) => b,
        };
        if q >= t.len() {
            return (Err(Token::EOE(Some(open_at))), q);
        }
        match &t[q] {
            Token::RParen(_) => {
                acc = make_op(Oparand::Mul, acc, b);
                p = q + 1;
            },
            other => return (Err(other.duplicate()), q + 1),
        }
    }
    (Ok(acc), p)
}

fn parse_unary(t: &Vec<Token>, p0: usize) -> (r: (Result<Tree, Token>, usize))
    requires
        p0 <= t@.len(),
    ensures
        agrees(t@, p0, r, unary(toks(t@), p0 as int)),
    decreases t@.len() - p0, 3nat,
{
    let (first, q) = parse_number(t, p0);
    match first {
        Ok(a) => (Ok(a), q),
        Err(Token::Plus(_)) => parse_number(t, q),
        Err(Token::Minus(_)) => {
            let (next, q2) = parse_number(t, q);
            match next {
                Err(e) => (Err(e), q2),
                Ok(b) => {
                    let zero = String::from_str("0.0");
                    proof {
                        reveal_strlit("0.0");
                        assert(zero@ == zero_text());
                    }
                    (Ok(make_op(Oparand::Sub, Tree::Float(zero), b)), q2)
                },
            }
        },
        Err(e) => (Err(e), q),
    }
}

fn parse_number(t: &Vec<Token>, p0: usize) -> (r: (Result<Tree, Token>, usize))
    requires
        p0 <= t@.len(),
    ensures
        agrees(t@, p0, r, number(toks(t@), p0 as int)),
    decreases t@.len() - p0, 2nat,
{
    if p0 >= t.len() {
        return (Err(Token::EOE(None)), p0);
    }
    match &t[p0] {
        Token::Underscore(_) => (Ok(Tree::LastResult), p0 + 1),
        Token::Integer(s, _) => parse_scaled(t, p0 + 1, Tree::Integer(s.clone())),
        Token::Float(s, _) => parse_scaled(t, p0 + 1, Tree::Float(s.clone())),
        Token::LParen(i) => {
            let open_at = *i;
            let (inner, q) = parse_expression(t, p0 + 1);
            let a = match inner {
                Err(e) => return (Err(e), q),
                Ok(a) => a,
            };
            if q >= t.len() {
                return (Err(Token::EOE(Some(open_at))), q);
            }
            match &t[q] {
                Token::RParen(_) => (Ok(a), q + 1),
                other => (Err(other.duplicate()), q + 1),
            }
        },
        other => (Err(other.duplicate()), p0 + 1),
    }
}

fn parse_scaled(t: &Vec<Token>, p0: usize, lit: Tree) -> (r: (Result<Tree, Token>, usize))
    requires
        0 < p0 <= t@.len(),
    ensures
        res_view(r.0) == scaled(toks(t@), p0 as int, lit@).0,
        r.1 as int == scaled(toks(t@), p0 as int, lit@).1,
        p0 <= r.1 <= t@.len(),
    decreases t@.len() - p0, 0nat,
{
    if p0 < t.len() {
        if let Token::E(_) = &t[p0] {
            let (exponent, q) = parse_powered(t, p0 + 1);
            return match exponent {
                Err(e) => (Err(e), q),
                Ok(x) => {
                    let ten = String::from_str("10");
                    proof {
                        reveal_strlit("10");
                        assert(ten@ == ten_text());
                    }
                    let power = make_op(Oparand::Pow, Tree::Integer(ten), x);
                    (Ok(make_op(Oparand::Mul, lit, power)), q)
                },
            };
        }
    }
    (Ok(lit), p0)
}

/// Parses a whole token sequence: one expression, and no token after it.
/// Fails with the offending token.
pub fn parse(tokens: &Vec<Token>) -> (r: Result<Tree, Token>)
    ensures
        res_view(r) == parse_spec(toks(tokens@)),
{
    let (r, q) = parse_expression(tokens, 0);
    match r {
        Err(e) => Err(e),
        Ok(a) => if q < tokens.len() {
            Err(tokens[q].duplicate())
        } else {
            Ok(a)
        },
    }
}

} // verus!
