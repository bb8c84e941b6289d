//! How the grammar groups binary operators.
use vstd::prelude::*;

use crate::lexer::Tok;
use crate::parser::{
    Ast, Oparand, at, expression, expression_more, expression_rest, juxtaposed, juxtaposed_rest, number, op,
    parse_spec, powered, scaled, term, term_more, term_rest, unary,
};

verus! {

/// The binary operator that a token stands for, if any.
pub open spec fn binary_op(t: Tok) -> Option<Oparand> {
    match t {
        Tok::Plus(_) => Some(Oparand::Add),
        Tok::Minus(_) => Some(Oparand::Sub),
        Tok::Asterisk(_) => Some(Oparand::Mul),
        Tok::Slash(_) => Some(Oparand::Div),
        Tok::Caret(_) => Some(Oparand::Pow),
        _ => None,
    }
}

/// How tightly an operator binds: `^` over `*` and `/`, over `+` and `-`.
pub open spec fn binding(o: Oparand) -> nat {
    match o {
        Oparand::Add | Oparand::Sub => 1,
        Oparand::Mul | Oparand::Div => 2,
        Oparand::Pow => 3,
    }
}

/// In `a o1 b o2 c`, whether `a o1 b` is grouped first: `o1` binds more
/// tightly, or as tightly and is left-associative (all but `^`).
pub open spec fn groups_left(o1: Oparand, o2: Oparand) -> bool {
    binding(o1) > binding(o2) || (binding(o1) == binding(o2) && o1 != Oparand::Pow)
}

/// An integer literal at `p` that is followed by no exponent marker and no
/// group is a `juxtaposed` operand on its own.
proof fn lemma_integer_operand(t: Seq<Tok>, p: int, x: Seq<char>)
    requires
        0 <= p < t.len(),
        t[p] matches Tok::Integer(y, _) && y == x,
        at(t, p + 1) is None || binary_op(t[p + 1]) is Some || t[p + 1] is RParen,
    ensures
        juxtaposed(t, p) == (Ok::<Ast, Tok>(Ast::Integer(x)), p + 1),
{
    let a = Ast::Integer(x);
    assert(scaled(t, p + 1, a) == (Ok::<Ast, Tok>(a), p + 1));
    assert(number(t, p) == (Ok::<Ast, Tok>(a), p + 1));
    assert(unary(t, p) == (Ok::<Ast, Tok>(a), p + 1));
    assert(juxtaposed_rest(t, p + 1, a) == (Ok::<Ast, Tok>(a), p + 1));
}

/// An operand with no `^` after it is a `powered` operand on its own.
proof fn lemma_power_single(t: Seq<Tok>, p: int, x: Seq<char>)
    requires
        0 <= p < t.len(),
        t[p] matches Tok::Integer(y, _) && y == x,
        at(t, p + 1) is None || t[p + 1] is RParen || (binary_op(t[p + 1]) is Some && binary_op(
            t[p + 1],
        ) != Some(Oparand::Pow)),
    ensures
        powered(t, p) == (Ok::<Ast, Tok>(Ast::Integer(x)), p + 1),
{
    lemma_integer_operand(t, p, x);
}

/// `a ^ b`, with no `^` after `b`.
proof fn lemma_power_pair(t: Seq<Tok>, p: int, x: Seq<char>, y: Seq<char>)
    requires
        0 <= p && p + 2 < t.len(),
        t[p] matches Tok::Integer(u, _) && u == x,
        t[p + 1] is Caret,
        t[p + 2] matches Tok::Integer(u, _) && u == y,
        at(t, p + 3) is None || t[p + 3] is RParen || (binary_op(t[p + 3]) is Some && binary_op(
            t[p + 3],
        ) != Some(Oparand::Pow)),
    ensures
        powered(t, p) == (Ok::<Ast, Tok>(op(Oparand::Pow, Ast::Integer(x), Ast::Integer(y))), p
            + 3),
{
    lemma_integer_operand(t, p, x);
    lemma_power_single(t, p + 2, y);
}

/// Three integer literals joined by two binary operators are grouped by
/// standard precedence: `^` binds most tightly and groups to the right;
/// `*` and `/`, then `+` and `-`, group to the left.
pub proof fn lemma_three_operand_precedence(
    a: Seq<char>,
    i: usize,
    t1: Tok,
    b: Seq<char>,
    j: usize,
    t2: Tok,
    c: Seq<char>,
    k: usize,
)
    requires
        binary_op(t1) is Some,
        binary_op(t2) is Some,
    ensures
        ({
            let o1 = binary_op(t1)->0;
            let o2 = binary_op(t2)->0;
            let (x, y, z) = (Ast::Integer(a), Ast::Integer(b), Ast::Integer(c));
            parse_spec(seq![Tok::Integer(a, i), t1, Tok::Integer(b, j), t2, Tok::Integer(c, k)])
                == Ok::<Ast, Tok>(
                if groups_left(o1, o2) {
                    op(o2, op(o1, x, y), z)
                } else {
                    op(o1, x, op(o2, y, z))
                },
            )
        }),
{
    let t = seq![Tok::Integer(a, i), t1, Tok::Integer(b, j), t2, Tok::Integer(c, k)];
    let o1 = binary_op(t1)->0;
    let o2 = binary_op(t2)->0;
    let (x, y, z) = (Ast::Integer(a), Ast::Integer(b), Ast::Integer(c));
    assert(at(t, 5) is None);
    lemma_power_single(t, 4, c);
    if o1 == Oparand::Pow {
        if o2 == Oparand::Pow {
            lemma_integer_operand(t, 0, a);
            lemma_power_pair(t, 2, b, c);
            let r = op(Oparand::Pow, x, op(Oparand::Pow, y, z));
            assert(powered(t, 0) == (Ok::<Ast, Tok>(r), 5int));
            assert(term(t, 0) == (Ok::<Ast, Tok>(r), 5int));
            assert(expression(t, 0) == (Ok::<Ast, Tok>(r), 5int));
        } else {
            lemma_power_pair(t, 0, a, b);
            let l = op(Oparand::Pow, x, y);
            let r = op(o2, l, z);
            if binding(o2) == 2 {
                assert(term_rest(t, 5, r) == (Ok::<Ast, Tok>(r), 5int));
                assert(term_rest(t, 3, l) == (Ok::<Ast, Tok>(r), 5int));
                assert(term(t, 0) == (Ok::<Ast, Tok>(r), 5int));
                assert(expression(t, 0) == (Ok::<Ast, Tok>(r), 5int));
            } else {
                assert(term(t, 0) == (Ok::<Ast, Tok>(l), 3int));
                assert(term(t, 4) == (Ok::<Ast, Tok>(z), 5int));
                assert(expression_rest(t, 5, r) == (Ok::<Ast, Tok>(r), 5int));
                assert(expression_more(t, 3, l, o2) == (Ok::<Ast, Tok>(r), 5int));
                assert(expression_rest(t, 3, l) == (Ok::<Ast, Tok>(r), 5int));
                assert(expression(t, 0) == (Ok::<Ast, Tok>(r), 5int));
            }
        }
    } else {
        lemma_power_single(t, 0, a);
        if o2 == Oparand::Pow {
            lemma_power_pair(t, 2, b, c);
            let rr = op(Oparand::Pow, y, z);
            let r = op(o1, x, rr);
            if binding(o1) == 2 {
                assert(term_rest(t, 5, r) == (Ok::<Ast, Tok>(r), 5int));
                assert(term_more(t, 1, x, o1) == (Ok::<Ast, Tok>(r), 5int));
                assert(term_rest(t, 1, x) == (Ok::<Ast, Tok>(r), 5int));
                assert(term(t, 0) == (Ok::<Ast, Tok>(r), 5int));
                assert(expression(t, 0) == (Ok::<Ast, Tok>(r), 5int));
            } else {
                assert(term(t, 0) == (Ok::<Ast, Tok>(x), 1int));
                assert(term(t, 2) == (Ok::<Ast, Tok>(rr), 5int));
                assert(expression_rest(t, 1, x) == (Ok::<Ast, Tok>(r), 5int));
                assert(expression(t, 0) == (Ok::<Ast, Tok>(r), 5int));
            }
        } else {
            lemma_power_single(t, 2, b);
            if binding(o1) == 2 && binding(o2) == 2 {
                let l = op(o1, x, y);
                let r = op(o2, l, z);
                assert(term_rest(t, 5, r) == (Ok::<Ast, Tok>(r), 5int));
                assert(term_more(t, 3, l, o2) == (Ok::<Ast, Tok>(r), 5int));
                assert(term_rest(t, 3, l) == (Ok::<Ast, Tok>(r), 5int));
                assert(term_more(t, 1, x, o1) == (Ok::<Ast, Tok>(r), 5int));
                assert(term_rest(t, 1, x) == (Ok::<Ast, Tok>(r), 5int));
                assert(term(t, 0) == (Ok::<Ast, Tok>(r), 5int));
                assert(expression(t, 0) == (Ok::<Ast, Tok>(r), 5int));
            } else if binding(o1) == 2 {
                let l = op(o1, x, y);
                let r = op(o2, l, z);
                assert(term_rest(t, 1, x) == (Ok::<Ast, Tok>(l), 3int));
                assert(term(t, 0) == (Ok::<Ast, Tok>(l), 3int));
                assert(term(t, 4) == (Ok::<Ast, Tok>(z), 5int));
                assert(expression_rest(t, 5, r) == (Ok::<Ast, Tok>(r), 5int));
                assert(expression_more(t, 3, l, o2) == (Ok::<Ast, Tok>(r), 5int));
                assert(expression_rest(t, 3, l) == (Ok::<Ast, Tok>(r), 5int));
                assert(expression(t, 0) == (Ok::<Ast, Tok>(r), 5int));
            } else if binding(o2) == 2 {
                let rr = op(o2, y, z);
                let r = op(o1, x, rr);
                assert(term(t, 0) == (Ok::<Ast, Tok>(x), 1int));
                assert(term_rest(t, 5, rr) == (Ok::<Ast, Tok>(rr), 5int));
                assert(term_more(t, 3, y, o2) == (Ok::<Ast, Tok>(rr), 5int));
                assert(term_rest(t, 3, y) == (Ok::<Ast, Tok>(rr), 5int));
                assert(term(t, 2) == (Ok::<Ast, Tok>(rr), 5int));
                assert(expression_rest(t, 1, x) == (Ok::<Ast, Tok>(r), 5int));
                assert(expression(t, 0) == (Ok::<Ast, Tok>(r), 5int));
            } else {
                let l = op(o1, x, y);
                let r = op(o2, l, z);
                assert(term(t, 0) == (Ok::<Ast, Tok>(x), 1int));
                assert(term(t, 2) == (Ok::<Ast, Tok>(y), 3int));
                assert(term(t, 4) == (Ok::<Ast, Tok>(z), 5int));
                assert(expression_rest(t, 5, r) == (Ok::<Ast, Tok>(r), 5int));
                assert(expression_more(t, 3, l, o2) == (Ok::<Ast, Tok>(r), 5int));
                assert(expression_rest(t, 3, l) == (Ok::<Ast, Tok>(r), 5int));
                assert(expression_rest(t, 1, x) == (Ok::<Ast, Tok>(r), 5int));
                assert(expression(t, 0) == (Ok::<Ast, Tok>(r), 5int));
            }
        }
    }
}

/// Two integer literals joined by a binary operator, with the end or a `)`
/// after them, form one expression.
proof fn lemma_two_operands(t: Seq<Tok>, p: int, x: Seq<char>, y: Seq<char>)
    requires
        0 <= p && p + 2 < t.len(),
        t[p] matches Tok::Integer(u, _) && u == x,
        binary_op(t[p + 1]) is Some,
        t[p + 2] matches Tok::Integer(u, _) && u == y,
        at(t, p + 3) is None || t[p + 3] is RParen,
    ensures
        expression(t, p) == (Ok::<Ast, Tok>(
            op(binary_op(t[p + 1])->0, Ast::Integer(x), Ast::Integer(y)),
        ), p + 3),
{
    let o = binary_op(t[p + 1])->0;
    let (a, b) = (Ast::Integer(x), Ast::Integer(y));
    let r = op(o, a, b);
    lemma_power_single(t, p + 2, y);
    assert(term_rest(t, p + 3, r) == (Ok::<Ast, Tok>(r), p + 3));
    assert(expression_rest(t, p + 3, r) == (Ok::<Ast, Tok>(r), p + 3));
    if o == Oparand::Pow {
        lemma_power_pair(t, p, x, y);
        assert(term(t, p) == (Ok::<Ast, Tok>(r), p + 3));
    } else {
        lemma_power_single(t, p, x);
        if binding(o) == 2 {
            assert(term_more(t, p + 1, a, o) == (Ok::<Ast, Tok>(r), p + 3));
            assert(term_rest(t, p + 1, a) == (Ok::<Ast, Tok>(r), p + 3));
            assert(term(t, p) == (Ok::<Ast, Tok>(r), p + 3));
        } else {
            assert(term_rest(t, p + 3, b) == (Ok::<Ast, Tok>(b), p + 3));
            assert(term(t, p + 2) == (Ok::<Ast, Tok>(b), p + 3));
            assert(term_rest(t, p + 1, a) == (Ok::<Ast, Tok>(a), p + 1));
            assert(term(t, p) == (Ok::<Ast, Tok>(a), p + 1));
            assert(expression_more(t, p + 1, a, o) == (Ok::<Ast, Tok>(r), p + 3));
            assert(expression_rest(t, p + 1, a) == (Ok::<Ast, Tok>(r), p + 3));
        }
    }
}

/// A group in parentheses is an operand of its own, whatever the operators
/// around it: `(a o1 b) o2 c` applies `o2` to `a o1 b` and `c`, and
/// `a o1 (b o2 c)` applies `o1` to `a` and `b o2 c`, for integer literals
/// `a`, `b`, `c` and any binary operators `o1`, `o2`.
pub proof fn lemma_parentheses_group_first(
    a: Seq<char>,
    i: usize,
    t1: Tok,
    b: Seq<char>,
    j: usize,
    t2: Tok,
    c: Seq<char>,
    k: usize,
    open_at: usize,
    close_at: usize,
)
    requires
        binary_op(t1) is Some,
        binary_op(t2) is Some,
    ensures
        ({
            let o1 = binary_op(t1)->0;
            let o2 = binary_op(t2)->0;
            let (x, y, z) = (Ast::Integer(a), Ast::Integer(b), Ast::Integer(c));
            let (lp, rp) = (Tok::LParen(open_at), Tok::RParen(close_at));
            &&& parse_spec(
                seq![lp, Tok::Integer(a, i), t1, Tok::Integer(b, j), rp, t2, Tok::Integer(c, k)],
            ) == Ok::<Ast, Tok>(op(o2, op(o1, x, y), z))
            &&& parse_spec(
                seq![Tok::Integer(a, i), t1, lp, Tok::Integer(b, j), t2, Tok::Integer(c, k), rp],
            ) == Ok::<Ast, Tok>(op(o1, x, op(o2, y, z)))
        }),
{
    let o1 = binary_op(t1)->0;
    let o2 = binary_op(t2)->0;
    let (x, y, z) = (Ast::Integer(a), Ast::Integer(b), Ast::Integer(c));
    let (lp, rp) = (Tok::LParen(open_at), Tok::RParen(close_at));

    let t = seq![lp, Tok::Integer(a, i), t1, Tok::Integer(b, j), rp, t2, Tok::Integer(c, k)];
    let g = op(o1, x, y);
    let r = op(o2, g, z);
    lemma_two_operands(t, 1, a, b);
    assert(at(t, 7) is None);
    assert(number(t, 0) == (Ok::<Ast, Tok>(g), 5int));
    assert(unary(t, 0) == (Ok::<Ast, Tok>(g), 5int));
    assert(juxtaposed_rest(t, 5, g) == (Ok::<Ast, Tok>(g), 5int));
    assert(juxtaposed(t, 0) == (Ok::<Ast, Tok>(g), 5int));
    lemma_power_single(t, 6, c);
    assert(term_rest(t, 7, r) == (Ok::<Ast, Tok>(r), 7int));
    assert(expression_rest(t, 7, r) == (Ok::<Ast, Tok>(r), 7int));
    if o2 == Oparand::Pow {
        assert(powered(t, 0) == (Ok::<Ast, Tok>(r), 7int));
        assert(term(t, 0) == (Ok::<Ast, Tok>(r), 7int));
    } else {
        assert(powered(t, 0) == (Ok::<Ast, Tok>(g), 5int));
        if binding(o2) == 2 {
            assert(term_more(t, 5, g, o2) == (Ok::<Ast, Tok>(r), 7int));
            assert(term_rest(t, 5, g) == (Ok::<Ast, Tok>(r), 7int));
            assert(term(t, 0) == (Ok::<Ast, Tok>(r), 7int));
        } else {
            assert(term_rest(t, 7, z) == (Ok::<Ast, Tok>(z), 7int));
            assert(term(t, 6) == (Ok::<Ast, Tok>(z), 7int));
            assert(term(t, 0) == (Ok::<Ast, Tok>(g), 5int));
            assert(expression_more(t, 5, g, o2) == (Ok::<Ast, Tok>(r), 7int));
            assert(expression_rest(t, 5, g) == (Ok::<Ast, Tok>(r), 7int));
        }
    }
    assert(expression(t, 0) == (Ok::<Ast, Tok>(r), 7int));

    let u = seq![Tok::Integer(a, i), t1, lp, Tok::Integer(b, j), t2, Tok::Integer(c, k), rp];
    let h = op(o2, y, z);
    let s = op(o1, x, h);
    lemma_two_operands(u, 3, b, c);
    assert(at(u, 7) is None);
    assert(number(u, 2) == (Ok::<Ast, Tok>(h), 7int));
    assert(unary(u, 2) == (Ok::<Ast, Tok>(h), 7int));
    assert(juxtaposed_rest(u, 7, h) == (Ok::<Ast, Tok>(h), 7int));
    assert(juxtaposed(u, 2) == (Ok::<Ast, Tok>(h), 7int));
    assert(powered(u, 2) == (Ok::<Ast, Tok>(h), 7int));
    assert(term_rest(u, 7, s) == (Ok::<Ast, Tok>(s), 7int));
    assert(expression_rest(u, 7, s) == (Ok::<Ast, Tok>(s), 7int));
    lemma_integer_operand(u, 0, a);
    if o1 == Oparand::Pow {
        assert(powered(u, 0) == (Ok::<Ast, Tok>(s), 7int));
        assert(term(u, 0) == (Ok::<Ast, Tok>(s), 7int));
    } else {
        assert(powered(u, 0) == (Ok::<Ast, Tok>(x), 1int));
        if binding(o1) == 2 {
            assert(term_more(u, 1, x, o1) == (Ok::<Ast, Tok>(s), 7int));
            assert(term_rest(u, 1, x) == (Ok::<Ast, Tok>(s), 7int));
            assert(term(u, 0) == (Ok::<Ast, Tok>(s), 7int));
        } else {
            assert(term_rest(u, 7, h) == (Ok::<Ast, Tok>(h), 7int));
            assert(term(u, 2) == (Ok::<Ast, Tok>(h), 7int));
            assert(term_rest(u, 1, x) == (Ok::<Ast, Tok>(x), 1int));
            assert(term(u, 0) == (Ok::<Ast, Tok>(x), 1int));
            assert(expression_more(u, 1, x, o1) == (Ok::<Ast, Tok>(s), 7int));
            assert(expression_rest(u, 1, x) == (Ok::<Ast, Tok>(s), 7int));
        }
    }
    assert(expression(u, 0) == (Ok::<Ast, Tok>(s), 7int));
}

} // verus!
