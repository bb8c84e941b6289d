//! The evaluator: folds an expression tree into a value. The number type,
//! the reading of literal text and the arithmetic are the caller's; the
//! walk over the tree is this module's.
use vstd::prelude::*;

use crate::parser::{Ast, Oparand, Tree};

verus! {

/// `v` is a value of the tree `a`, given the last result: a literal is
/// read by `literal` from its text, `LastResult` is `last`, and an operation
/// is `combine` applied to its operator and to values of its two operands.
pub open spec fn evaluates_to<T, L: Fn(&String) -> T, C: Fn(Oparand, T, T) -> T>(
    a: Ast,
    last: T,
    literal: L,
    combine: C,
    v: T,
) -> bool
    decreases a,
{
    match a {
        Ast::Integer(s) => exists|x: String| x@ == s && #[trigger] literal.ensures((&x,), v),
        Ast::Float(s) => exists|x: String| x@ == s && #[trigger] literal.ensures((&x,), v),
        Ast::LastResult => v == last,
        Ast::Operation(o, l, r) => exists|lv: T, rv: T|
            evaluates_to(*l, last, literal, combine, lv)
                && evaluates_to(*r, last, literal, combine, rv)
                && #[trigger] combine.ensures((o, lv, rv), v),
    }
}

/// Evaluates `tree`: left operand before right, both always, with `_`
/// standing for `last_result`.
pub fn evaluate<T: Copy, L: Fn(&String) -> T, C: Fn(Oparand, T, T) -> T>(
    tree: &Tree,
    last_result: T,
    literal: &L,
    combine: &C,
) -> (v: T)
    requires
        forall|x: &String| #[trigger] literal.requires((x,)),
        forall|o: Oparand, a: T, b: T| #[trigger] combine.requires((o, a, b)),
    ensures
        evaluates_to(tree@, last_result, *literal, *combine, v),
    decreases tree,
{
    match tree {
        Tree::Integer(s) => literal(s),
        Tree::Float(s) => literal(s),
        Tree::LastResult => last_result,
        Tree::Operation(o, l, r) => {
            let lv = evaluate(l, last_result, literal, combine);
            let rv = evaluate(r, last_result, literal, combine);
            combine(*o, lv, rv)
        },
    }
}

} // verus!
