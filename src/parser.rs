//! The entry points: a whole program, or one expression.
use vstd::prelude::*;
use crate::ast::{Ast, Diag, Rule, trees};
use crate::lexical::{lit_at, space_end};
use crate::grammar::{
    declarations, expr, first_decl, skipped_head, after_first, skipped_after_first, to_chars,
};
use crate::syntax::{decls_of, decls_diags, expr_of, expr_diags, diag};

verus! {

/// Parses `text` as a sequence of top-level declarations. Always returns
/// the declarations that it could make out, every one a `Let` whose `next`
/// is empty, together with the diagnostics of every recovery.
pub fn parser(text: &str) -> (r: (Vec<Ast>, Vec<Diag>))
    ensures
        trees(r.0@) == decls_of(text@, space_end(text@, 0)),
        r.1@ == decls_diags(text@, space_end(text@, 0)),
        forall|i: int| 0 <= i < r.0@.len() ==> (#[trigger] r.0@[i]) is Let && r.0@[i]->Let_next is None,
        space_end(text@, 0) == text@.len() ==> r.0@.len() == 0 && r.1@.len() == 0,
        lit_at(text@, space_end(text@, 0), seq!['l', 'e', 't']) ==> r.0@.len() >= 1 && first_decl(
            text@,
            r.0@[0],
        ),
        space_end(text@, 0) < text@.len() && !lit_at(text@, space_end(text@, 0), seq!['l', 'e', 't'])
            ==> r.1@.len() >= 1 && r.1@[0] == skipped_head(text@),
        lit_at(text@, space_end(text@, 0), seq!['l', 'e', 't']) && after_first(text@) < text@.len()
            && !lit_at(text@, after_first(text@), seq!['l', 'e', 't']) ==> exists|i: int|
            0 <= i < r.1@.len() && r.1@[i] == skipped_after_first(text@),
{
    let s = to_chars(text);
    declarations(&s)
}

/// Parses `text` as one expression. Text left over after the expression
/// is reported by a diagnostic at its end.
pub fn expr_parser(text: &str) -> (r: (Ast, Vec<Diag>))
    ensures
        r.0@ == expr_of(text@, 0).0,
        expr_of(text@, 0).1 == text@.len() ==> r.1@ == expr_diags(text@, 0),
        expr_of(text@, 0).1 < text@.len() ==> r.1@ == expr_diags(text@, 0) + diag(
            expr_of(text@, 0).1,
            text@.len() as int,
            Rule::Expression,
        ),
        expr_of(text@, 0).1 < text@.len() ==> r.1@.len() >= 1 && r.1@.last() == (Diag {
            start: expr_of(text@, 0).1 as usize,
            end: text@.len() as usize,
            rule: Rule::Expression,
        }),
{
    let s = to_chars(text);
    let mut d: Vec<Diag> = Vec::new();
    let (a, e) = expr(&s, 0, &mut d);
    if e < s.len() {
        d.push(Diag { start: e, end: s.len(), rule: Rule::Expression });
    }
    (a, d)
}

} // verus!
