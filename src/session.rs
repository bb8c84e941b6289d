//! One line of a session: a blank line is passed over, a line that does not
//! parse is rejected with its offending token, and a line that parses is
//! evaluated and becomes the last result.
use vstd::prelude::*;

use crate::eval::{evaluate, evaluates_to};
use crate::lexer::{lex, lex_spec, Token};
use crate::parser::{parse, parse_spec, Ast, Oparand};
use crate::text::{chars_of, is_white_space, unicode_white_space};

verus! {

/// A line is blank when all its characters are whitespace.
pub open spec fn blank_line(s: Seq<char>) -> bool {
    forall|i: int| 0 <= i < s.len() ==> #[trigger] unicode_white_space(s[i])
}

/// Whether `line` is blank.
pub fn is_blank(line: &str) -> (r: bool)
    ensures
        r == blank_line(line@),
{
    let s = chars_of(line);
    let mut i: usize = 0;
    while i < s.len()
        invariant
            s@ == line@,
            i <= s@.len(),
            forall|j: int| 0 <= j < i ==> #[trigger] unicode_white_space(s@[j]),
        decreases s@.len() - i,
    {
        if !is_white_space(s[i]) {
            return false;
        }
        i = i + 1;
    }
    true
}

/// What a line gave.
pub enum Outcome<T> {
    /// The line was blank: nothing to show.
    Blank,
    /// The line did not parse: the offending token.
    Rejected(Token),
    /// The line's value, now the last result.
    Value(T),
}

/// The state carried from line to line: the last result.
pub struct Session<T> {
    pub last_result: T,
}

impl<T: Copy> Session<T> {
    /// A session whose last result is `initial`.
    pub fn new(initial: T) -> (r: Session<T>)
        ensures
            r.last_result == initial,
    {
        Session { last_result: initial }
    }

    /// Handles one line. A blank line gives `Blank` and a line that does
    /// not parse gives `Rejected`; neither changes the last result. A line
    /// that parses gives one of its values, computed with the last result
    /// as it was, and that value becomes the last result.
    pub fn process_line<L: Fn(&String) -> T, C: Fn(Oparand, T, T) -> T>(
        &mut self,
        line: &str,
        literal: &L,
        combine: &C,
    ) -> (r: Outcome<T>)
        requires
            forall|x: &String| #[trigger] literal.requires((x,)),
            forall|o: Oparand, a: T, b: T| #[trigger] combine.requires((o, a, b)),
        ensures
            r is Blank <==> blank_line(line@),
            r is Blank ==> final(self).last_result == old(self).last_result,
            r matches Outcome::Rejected(e) ==> {
                &&& parse_spec(lex_spec(line@)) == Err::<Ast, _>(e@)
                &&& final(self).last_result == old(self).last_result
            },
            !blank_line(line@) && parse_spec(lex_spec(line@)) is Err ==> r is Rejected,
            r matches Outcome::Value(v) ==> {
                &&& parse_spec(lex_spec(line@)) is Ok
                &&& evaluates_to(
                    parse_spec(lex_spec(line@))->Ok_0,
                    old(self).last_result,
                    *literal,
                    *combine,
                    v,
                )
                &&& final(self).last_result == v
            },
    {
        if is_blank(line) {
            return Outcome::Blank;
        }
        let tokens = lex(line);
        match parse(&tokens) {
            Err(e) => Outcome::Rejected(e),
            Ok(tree) => {
                let v = evaluate(&tree, self.last_result, literal, combine);
                self.last_result = v;
                Outcome::Value(v)
            },
        }
    }
}

} // verus!
