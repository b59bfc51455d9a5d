//! The grammar as mathematical functions: for each rule, the tree that it
//! builds at a position of the input and the position where it stops.
//! The parsing functions are proved to compute exactly these.
use vstd::prelude::*;
use crate::ast::{Ast, Tree, Diag, Rule, trees};
use crate::lexical::{Class, class_end, space_end, lit_at, kw_at, ident_at, is_digit, int_value};
use crate::grammar::{op_len, float_at, number_end, name_end, let_after};

verus! {

/// The value of a rule's optional result.
pub open spec fn opt_tree(r: Option<(Ast, usize)>) -> Option<(Tree, int)> {
    match r {
        Some((a, q)) => Some((a@, q as int)),
        None => None,
    }
}

/// The value of a list rule's optional result.
pub open spec fn opt_trees(r: Option<(Vec<Ast>, usize)>) -> Option<(Seq<Tree>, int)> {
    match r {
        Some((v, q)) => Some((trees(v@), q as int)),
        None => None,
    }
}

/// The value of an optional pair of nodes.
pub open spec fn opt_pair(r: Option<(Ast, Ast)>) -> Option<(Tree, Tree)> {
    match r {
        Some((a, b)) => Some((a@, b@)),
        None => None,
    }
}

/// `a <= q <= b`: a position that a rule reached lies in its range.
pub open spec fn within(a: int, q: int, b: int) -> bool {
    a <= q <= b
}

/// A number literal at `p` and where it ends.
pub open spec fn number_of(s: Seq<char>, p: int) -> (Tree, int) {
    let e = number_end(s, p);
    if float_at(s, p) {
        (Tree::Float(s.subrange(p, e)), e)
    } else {
        (Tree::Int(int_value(s.subrange(p, e))), e)
    }
}

/// Where the parenthesis open before `i` closes, with `depth` of them open.
pub open spec fn close_from(s: Seq<char>, i: int, depth: int) -> Option<int>
    decreases s.len() - i,
{
    if i < 0 || i >= s.len() {
        None
    } else if s[i] == '(' {
        close_from(s, i + 1, depth + 1)
    } else if s[i] == ')' {
        if depth <= 1 {
            Some(i + 1)
        } else {
            close_from(s, i + 1, depth - 1)
        }
    } else {
        close_from(s, i + 1, depth)
    }
}

/// An expression at `p`.
pub open spec fn expr_of(s: Seq<char>, p: int) -> (Tree, int)
    decreases s.len() - p, 40int,
{
    level_of(s, p, 6)
}

/// Precedence level `k` at `p`: 0 is prefix operators, 6 is `or`.
pub open spec fn level_of(s: Seq<char>, p: int, k: int) -> (Tree, int)
    decreases s.len() - p,
        if k <= 0 {
            10
        } else {
            3 * k + 10
        },
{
    if k <= 0 {
        prefix_of(s, p)
    } else {
        let (l, q) = level_of(s, p, k - 1);
        if within(p, q, s.len() as int) {
            fold_of(s, q, k, l)
        } else {
            (l, q)
        }
    }
}

/// The operators of level `k` from `q` on, folded to the left onto `lhs`.
pub open spec fn fold_of(s: Seq<char>, q: int, k: int, lhs: Tree) -> (Tree, int)
    decreases s.len() - q, 3 * k + 9,
{
    let n = op_len(s, q, k);
    if n <= 0 || k <= 0 {
        (lhs, q)
    } else {
        let (r, q2) = level_of(s, q + n, k - 1);
        if within(q + n, q2, s.len() as int) {
            fold_of(s, q2, k, Tree::Binary(s.subrange(q, q + n), Box::new(lhs), Box::new(r)))
        } else {
            (lhs, q)
        }
    }
}

/// `not` or `-` before a prefix expression, or else a call.
pub open spec fn prefix_of(s: Seq<char>, p: int) -> (Tree, int)
    decreases s.len() - p, 8int,
{
    let p1 = space_end(s, p);
    if !within(p, p1, s.len() as int) {
        (Tree::Dummy, p)
    } else if kw_at(s, p1, seq!['n', 'o', 't']) || lit_at(s, p1, seq!['-']) {
        let w = if kw_at(s, p1, seq!['n', 'o', 't']) {
            seq!['n', 'o', 't']
        } else {
            seq!['-']
        };
        let q = space_end(s, p1 + w.len());
        if within(p1 + w.len(), q, s.len() as int) {
            let (x, e) = prefix_of(s, q);
            (Tree::Unary(w, Box::new(x)), e)
        } else {
            (Tree::Dummy, p)
        }
    } else {
        call_of(s, p)
    }
}

/// An atom and the argument lists after it.
pub open spec fn call_of(s: Seq<char>, p: int) -> (Tree, int)
    decreases s.len() - p, 7int,
{
    let (a, q) = atom_of(s, p);
    if within(p, q, s.len() as int) {
        call_tail_of(s, q, a)
    } else {
        (a, q)
    }
}

/// `callee` applied to each argument list from `q` on.
pub open spec fn call_tail_of(s: Seq<char>, q: int, callee: Tree) -> (Tree, int)
    decreases s.len() - q, 5int,
{
    let q1 = space_end(s, q + 1);
    if !lit_at(s, q, seq!['(']) || !within(q + 1, q1, s.len() as int) {
        (callee, q)
    } else if lit_at(s, q1, seq![')']) {
        let q2 = space_end(s, q1 + 1);
        if within(q1 + 1, q2, s.len() as int) {
            call_tail_of(s, q2, Tree::Call { callee: Box::new(callee), args: Seq::empty() })
        } else {
            (callee, q)
        }
    } else {
        match items_of(s, q1) {
            Some((args, q2)) => {
                let q3 = space_end(s, q2);
                if within(q1 + 1, q2, s.len() as int) && within(q2, q3, s.len() as int) {
                    call_tail_of(s, q3, Tree::Call { callee: Box::new(callee), args })
                } else {
                    (callee, q)
                }
            },
            None => (callee, q),
        }
    }
}

/// Expressions separated by commas up to a closing `)`, which is consumed;
/// a trailing comma is allowed.
pub open spec fn items_of(s: Seq<char>, p: int) -> Option<(Seq<Tree>, int)>
    decreases s.len() - p, 50int,
{
    let (e, q) = expr_of(s, p);
    let q1 = space_end(s, q);
    let q2 = space_end(s, q1 + 1);
    if !within(p, q, s.len() as int) || !within(q, q1, s.len() as int) {
        None
    } else if lit_at(s, q1, seq![',']) {
        if lit_at(s, q2, seq![')']) {
            Some((seq![e], q2 + 1))
        } else if within(q1 + 1, q2, s.len() as int) {
            match items_of(s, q2) {
                Some((rest, q3)) => Some((seq![e] + rest, q3)),
                None => None,
            }
        } else {
            None
        }
    } else if lit_at(s, q1, seq![')']) {
        Some((seq![e], q1 + 1))
    } else {
        None
    }
}

/// A parenthesized group at `p`: one expression stands for itself, none
/// or several make a block.
pub open spec fn group_of(s: Seq<char>, p: int) -> Option<(Tree, int)>
    decreases s.len() - p, 4int,
{
    let q = space_end(s, p + 1);
    if p < 0 || !within(p + 1, q, s.len() as int) {
        None
    } else if lit_at(s, q, seq![')']) {
        Some((Tree::Block(Seq::empty()), q + 1))
    } else {
        match items_of(s, q) {
            Some((v, q2)) => if v.len() == 1 {
                Some((v[0], q2))
            } else {
                Some((Tree::Block(v), q2))
            },
            None => None,
        }
    }
}

/// `:` and an expression, or a parenthesized list as a block.
pub open spec fn block_of(s: Seq<char>, p: int) -> Option<(Tree, int)>
    decreases s.len() - p, 1int,
{
    let q = space_end(s, p + 1);
    if lit_at(s, p, seq![':']) {
        Some(expr_of(s, p + 1))
    } else if !lit_at(s, p, seq!['(']) || !within(p + 1, q, s.len() as int) {
        None
    } else if lit_at(s, q, seq![')']) {
        Some((Tree::Block(Seq::empty()), q + 1))
    } else {
        match items_of(s, q) {
            Some((v, q2)) => Some((Tree::Block(v), q2)),
            None => None,
        }
    }
}

/// A declaration's body, or `Dummy` and the rest of the input.
pub open spec fn body_of(s: Seq<char>, p: int) -> (Tree, int)
    decreases s.len() - p, 2int,
{
    match block_of(s, p) {
        Some(x) => x,
        None => (Tree::Dummy, s.len() as int),
    }
}

/// The last `elif` branch from `q` on that parses, and where the chain ends.
pub open spec fn elifs_of(s: Seq<char>, q: int) -> (Option<(Tree, Tree)>, int)
    decreases s.len() - q, 1int,
{
    let q1 = space_end(s, q);
    let q2 = space_end(s, q1 + 4);
    if !within(q, q1, s.len() as int) || !kw_at(s, q1, seq!['e', 'l', 'i', 'f']) || !within(
        q1 + 4,
        q2,
        s.len() as int,
    ) {
        (None, q)
    } else {
        let (c, q3) = expr_of(s, q2);
        if !within(q2, q3, s.len() as int) {
            (None, q)
        } else {
            match block_of(s, q3) {
                None => (None, q),
                Some((b, q4)) => if within(q3 + 1, q4, s.len() as int) {
                    let (rest, q5) = elifs_of(s, q4);
                    match rest {
                        Some(x) => (Some(x), q5),
                        None => (Some((c, b)), q5),
                    }
                } else {
                    (None, q)
                },
            }
        }
    }
}

/// The `else` branch of a conditional whose `elif` chain ends at `q3`.
pub open spec fn else_of(s: Seq<char>, q3: int) -> Option<(Tree, int)>
    decreases s.len() - q3, 1int,
{
    let q4 = space_end(s, q3);
    let q5 = space_end(s, q4 + 4);
    if within(q3, q4, s.len() as int) && kw_at(s, q4, seq!['e', 'l', 's', 'e']) && within(
        q4 + 4,
        q5,
        s.len() as int,
    ) {
        block_of(s, q5)
    } else {
        None
    }
}

/// A conditional at `p`. Every `elif` rebuilds the node from the first
/// branch, so only the last one stays in the else-slot; an `else` is kept
/// only where there is no `elif`.
pub open spec fn if_of(s: Seq<char>, p: int) -> Option<(Tree, int)>
    decreases s.len() - p, 4int,
{
    let q = space_end(s, p + 2);
    if p < 0 || !within(p + 2, q, s.len() as int) {
        None
    } else {
        let (c, q1) = expr_of(s, q);
        if !within(q, q1, s.len() as int) {
            None
        } else {
            match block_of(s, q1) {
                None => None,
                Some((t, q2)) => if !within(q1 + 1, q2, s.len() as int) {
                    None
                } else {
                    let (elif, q3) = elifs_of(s, q2);
                    let els = if within(q2, q3, s.len() as int) {
                        else_of(s, q3)
                    } else {
                        None
                    };
                    Some(assemble(c, t, elif, q3, els))
                },
            }
        }
    }
}

/// The conditional whose first branch is `c` and `t`, given the last
/// `elif` branch and the `else` branch that follow it; `q3` is where the
/// `elif` chain ends. An `elif` fills the else-slot and the `else` is then
/// dropped.
pub open spec fn assemble(
    c: Tree,
    t: Tree,
    elif: Option<(Tree, Tree)>,
    q3: int,
    els: Option<(Tree, int)>,
) -> (Tree, int) {
    let end = match els {
        Some((b, q6)) => q6,
        None => q3,
    };
    let else_expr = match elif {
        Some((ec, eb)) => Some(
            Box::new(Tree::If { cond: Box::new(ec), then_expr: Box::new(eb), else_expr: None }),
        ),
        None => match els {
            Some((b, q6)) => Some(Box::new(b)),
            None => None,
        },
    };
    (Tree::If { cond: Box::new(c), then_expr: Box::new(t), else_expr }, end)
}

/// The name of the declaration at `p`: an identifier, else the run of
/// characters up to whitespace, `:`, `=`, `(` or `)`, else `error_name`.
pub open spec fn decl_name(s: Seq<char>, p: int) -> Seq<char> {
    let q = space_end(s, p + 3);
    if ident_at(s, q) {
        s.subrange(q, class_end(s, q, Class::Word))
    } else if class_end(s, q, Class::NameRun) == q {
        "error_name"@
    } else {
        s.subrange(q, class_end(s, q, Class::NameRun))
    }
}

/// Parameters separated by commas up to `)`; a parameter that is no
/// identifier is `Dummy`.
pub open spec fn param_items_of(s: Seq<char>, q: int) -> Option<(Seq<Tree>, int)>
    decreases s.len() - q,
{
    let e = if ident_at(s, q) {
        class_end(s, q, Class::Word)
    } else {
        class_end(s, q, Class::ParamRun)
    };
    let x = if ident_at(s, q) {
        Tree::Ident(s.subrange(q, e))
    } else {
        Tree::Dummy
    };
    let q2 = space_end(s, e);
    let q3 = space_end(s, q2 + 1);
    if !ident_at(s, q) && e == q {
        None
    } else if lit_at(s, q2, seq![',']) {
        if lit_at(s, q3, seq![')']) {
            Some((seq![x], space_end(s, q3 + 1)))
        } else if within(q + 1, q3, s.len() as int) {
            match param_items_of(s, q3) {
                Some((rest, q4)) => Some((seq![x] + rest, q4)),
                None => None,
            }
        } else {
            None
        }
    } else if lit_at(s, q2, seq![')']) {
        Some((seq![x], space_end(s, q2 + 1)))
    } else {
        None
    }
}

/// A parameter list at `p`, or the sentinel list for one that does not
/// parse, skipped up to and including its `)`.
pub open spec fn params_of(s: Seq<char>, p: int) -> (Seq<Tree>, int) {
    let q = space_end(s, p);
    let q1 = space_end(s, q + 1);
    let primary = if !lit_at(s, q, seq!['(']) {
        None
    } else if lit_at(s, q1, seq![')']) {
        Some((Seq::empty(), space_end(s, q1 + 1)))
    } else {
        param_items_of(s, q1)
    };
    match primary {
        Some(x) => x,
        None => {
            let e = class_end(s, p, Class::NotClose);
            (
                seq![Tree::Ident("error_params"@)],
                if e < s.len() {
                    space_end(s, e + 1)
                } else {
                    e
                },
            )
        },
    }
}

/// A declaration at `p`, where `let` stands, and the whitespace after it.
pub open spec fn decl_of(s: Seq<char>, p: int) -> (Tree, int)
    decreases s.len() - p, 4int,
{
    let name = decl_name(s, p);
    let p2 = name_end(s, p);
    let q1 = space_end(s, p2);
    let q2 = space_end(s, q1 + 2);
    let (args, vq) = if !within(p + 3, p2, s.len() as int) {
        (None, (Tree::Dummy, p))
    } else if lit_at(s, p2, seq![':', ':']) {
        let (ps, q) = params_of(s, p2 + 2);
        if within(p2 + 2, q, s.len() as int) {
            (Some(ps), body_of(s, q))
        } else {
            (Some(ps), (Tree::Dummy, q))
        }
    } else if within(p2, q1, s.len() as int) && lit_at(s, q1, seq!['=', '>']) && within(
        q1 + 2,
        q2,
        s.len() as int,
    ) {
        (Some(Seq::empty()), expr_of(s, q2))
    } else {
        (None, body_of(s, p2))
    };
    (
        Tree::Let { name, args, value: Box::new(vq.0), next: None },
        space_end(s, vq.1),
    )
}

/// An atom at `p`, with the whitespace around it.
pub open spec fn atom_of(s: Seq<char>, p: int) -> (Tree, int)
    decreases s.len() - p, 6int,
{
    let p1 = space_end(s, p);
    let recovered = (Tree::Dummy, class_end(s, p, Class::NotDelim));
    if !within(p, p1, s.len() as int) {
        recovered
    } else if kw_at(s, p1, seq!['i', 'f']) {
        match if_of(s, p1) {
            Some((x, q)) => (x, space_end(s, q)),
            None => recovered,
        }
    } else if lit_at(s, p1, seq!['l', 'e', 't']) {
        decl_of(s, p1)
    } else if lit_at(s, p1, seq!['t', 'r', 'u', 'e']) {
        (Tree::Bool(true), space_end(s, p1 + 4))
    } else if lit_at(s, p1, seq!['f', 'a', 'l', 's', 'e']) {
        (Tree::Bool(false), space_end(s, p1 + 5))
    } else if p1 < s.len() && is_digit(s[p1]) {
        let (x, q) = number_of(s, p1);
        (x, space_end(s, q))
    } else if ident_at(s, p1) {
        let e = class_end(s, p1, Class::Word);
        (Tree::Ident(s.subrange(p1, e)), space_end(s, e))
    } else if lit_at(s, p1, seq!['(']) {
        match group_of(s, p1) {
            Some((x, q)) => (x, space_end(s, q)),
            None => match close_from(s, p1, 0) {
                Some(e) => (Tree::Dummy, space_end(s, e)),
                None => recovered,
            },
        }
    } else {
        recovered
    }
}

/// The top-level declarations from `p` on: text where no `let` stands is
/// skipped up to the next `let`.
pub open spec fn decls_of(s: Seq<char>, p: int) -> Seq<Tree>
    decreases s.len() - p,
{
    if p < 0 || p >= s.len() {
        Seq::empty()
    } else {
        let (x, e) = decl_of(s, p);
        let q = if lit_at(s, p, seq!['l', 'e', 't']) {
            space_end(s, e)
        } else {
            space_end(s, let_after(s, p + 1))
        };
        if !within(p + 1, q, s.len() as int) {
            Seq::empty()
        } else if lit_at(s, p, seq!['l', 'e', 't']) {
            seq![x] + decls_of(s, q)
        } else {
            decls_of(s, q)
        }
    }
}

/// The diagnostic of one recovery: the span `a..b` and the rule.
pub open spec fn diag(a: int, b: int, rule: Rule) -> Seq<Diag> {
    seq![Diag { start: a as usize, end: b as usize, rule }]
}

/// The diagnostics that an expression at `p` raises, in order.
pub open spec fn expr_diags(s: Seq<char>, p: int) -> Seq<Diag>
    decreases s.len() - p, 40int,
{
    level_diags(s, p, 6)
}

pub open spec fn level_diags(s: Seq<char>, p: int, k: int) -> Seq<Diag>
    decreases s.len() - p,
        if k <= 0 {
            10
        } else {
            3 * k + 10
        },
{
    if k <= 0 {
        prefix_diags(s, p)
    } else {
        let (l, q) = level_of(s, p, k - 1);
        if within(p, q, s.len() as int) {
            level_diags(s, p, k - 1) + fold_diags(s, q, k)
        } else {
            level_diags(s, p, k - 1)
        }
    }
}

pub open spec fn fold_diags(s: Seq<char>, q: int, k: int) -> Seq<Diag>
    decreases s.len() - q, 3 * k + 9,
{
    let n = op_len(s, q, k);
    if n <= 0 || k <= 0 {
        Seq::empty()
    } else {
        let (r, q2) = level_of(s, q + n, k - 1);
        if within(q + n, q2, s.len() as int) {
            level_diags(s, q + n, k - 1) + fold_diags(s, q2, k)
        } else {
            Seq::empty()
        }
    }
}

pub open spec fn prefix_diags(s: Seq<char>, p: int) -> Seq<Diag>
    decreases s.len() - p, 8int,
{
    let p1 = space_end(s, p);
    if !within(p, p1, s.len() as int) {
        Seq::empty()
    } else if kw_at(s, p1, seq!['n', 'o', 't']) || lit_at(s, p1, seq!['-']) {
        let w = if kw_at(s, p1, seq!['n', 'o', 't']) {
            seq!['n', 'o', 't']
        } else {
            seq!['-']
        };
        let q = space_end(s, p1 + w.len());
        if within(p1 + w.len(), q, s.len() as int) {
            prefix_diags(s, q)
        } else {
            Seq::empty()
        }
    } else {
        call_diags(s, p)
    }
}

pub open spec fn call_diags(s: Seq<char>, p: int) -> Seq<Diag>
    decreases s.len() - p, 7int,
{
    let (a, q) = atom_of(s, p);
    if within(p, q, s.len() as int) {
        atom_diags(s, p) + call_tail_diags(s, q)
    } else {
        atom_diags(s, p)
    }
}

pub open spec fn call_tail_diags(s: Seq<char>, q: int) -> Seq<Diag>
    decreases s.len() - q, 5int,
{
    let q1 = space_end(s, q + 1);
    if !lit_at(s, q, seq!['(']) || !within(q + 1, q1, s.len() as int) {
        Seq::empty()
    } else if lit_at(s, q1, seq![')']) {
        let q2 = space_end(s, q1 + 1);
        if within(q1 + 1, q2, s.len() as int) {
            call_tail_diags(s, q2)
        } else {
            Seq::empty()
        }
    } else {
        match items_of(s, q1) {
            Some((args, q2)) => {
                let q3 = space_end(s, q2);
                if within(q1 + 1, q2, s.len() as int) && within(q2, q3, s.len() as int) {
                    items_diags(s, q1) + call_tail_diags(s, q3)
                } else {
                    Seq::empty()
                }
            },
            None => Seq::empty(),
        }
    }
}

/// The diagnostics of a list of expressions at `p` that closes.
pub open spec fn items_diags(s: Seq<char>, p: int) -> Seq<Diag>
    decreases s.len() - p, 50int,
{
    let (e, q) = expr_of(s, p);
    let q1 = space_end(s, q);
    let q2 = space_end(s, q1 + 1);
    if within(p, q, s.len() as int) && within(q, q1, s.len() as int) && lit_at(s, q1, seq![','])
        && !lit_at(s, q2, seq![')']) && within(q1 + 1, q2, s.len() as int) {
        expr_diags(s, p) + items_diags(s, q2)
    } else {
        expr_diags(s, p)
    }
}

pub open spec fn group_diags(s: Seq<char>, p: int) -> Seq<Diag>
    decreases s.len() - p, 4int,
{
    let q = space_end(s, p + 1);
    if p < 0 || !within(p + 1, q, s.len() as int) || lit_at(s, q, seq![')']) {
        Seq::empty()
    } else {
        items_diags(s, q)
    }
}

pub open spec fn block_diags(s: Seq<char>, p: int) -> Seq<Diag>
    decreases s.len() - p, 1int,
{
    let q = space_end(s, p + 1);
    if lit_at(s, p, seq![':']) {
        expr_diags(s, p + 1)
    } else if !lit_at(s, p, seq!['(']) || !within(p + 1, q, s.len() as int) || lit_at(
        s,
        q,
        seq![')'],
    ) {
        Seq::empty()
    } else {
        items_diags(s, q)
    }
}

pub open spec fn body_diags(s: Seq<char>, p: int) -> Seq<Diag>
    decreases s.len() - p, 2int,
{
    match block_of(s, p) {
        Some(x) => block_diags(s, p),
        None => diag(p, s.len() as int, Rule::Body),
    }
}

pub open spec fn elifs_diags(s: Seq<char>, q: int) -> Seq<Diag>
    decreases s.len() - q, 1int,
{
    let q1 = space_end(s, q);
    let q2 = space_end(s, q1 + 4);
    if !within(q, q1, s.len() as int) || !kw_at(s, q1, seq!['e', 'l', 'i', 'f']) || !within(
        q1 + 4,
        q2,
        s.len() as int,
    ) {
        Seq::empty()
    } else {
        let (c, q3) = expr_of(s, q2);
        if !within(q2, q3, s.len() as int) {
            Seq::empty()
        } else {
            match block_of(s, q3) {
                None => Seq::empty(),
                Some((b, q4)) => if within(q3 + 1, q4, s.len() as int) {
                    expr_diags(s, q2) + block_diags(s, q3) + elifs_diags(s, q4)
                } else {
                    Seq::empty()
                },
            }
        }
    }
}

pub open spec fn else_diags(s: Seq<char>, q3: int) -> Seq<Diag>
    decreases s.len() - q3, 1int,
{
    let q4 = space_end(s, q3);
    let q5 = space_end(s, q4 + 4);
    if else_of(s, q3) is Some && within(q4 + 4, q5, s.len() as int) {
        block_diags(s, q5)
    } else {
        Seq::empty()
    }
}

/// The diagnostics of a conditional at `p` that parses.
pub open spec fn if_diags(s: Seq<char>, p: int) -> Seq<Diag>
    decreases s.len() - p, 4int,
{
    let q = space_end(s, p + 2);
    let (c, q1) = expr_of(s, q);
    if p < 0 || !within(p + 2, q, s.len() as int) || !within(q, q1, s.len() as int) {
        Seq::empty()
    } else {
        match block_of(s, q1) {
            None => Seq::empty(),
            Some((t, q2)) => if !within(q1 + 1, q2, s.len() as int) {
                Seq::empty()
            } else {
                let (elif, q3) = elifs_of(s, q2);
                expr_diags(s, q) + block_diags(s, q1) + elifs_diags(s, q2) + if within(
                    q2,
                    q3,
                    s.len() as int,
                ) {
                    else_diags(s, q3)
                } else {
                    Seq::empty()
                }
            },
        }
    }
}

pub open spec fn param_items_diags(s: Seq<char>, q: int) -> Seq<Diag>
    decreases s.len() - q,
{
    let e = if ident_at(s, q) {
        class_end(s, q, Class::Word)
    } else {
        class_end(s, q, Class::ParamRun)
    };
    let own = if ident_at(s, q) {
        Seq::empty()
    } else {
        diag(q, e, Rule::Parameter)
    };
    let q2 = space_end(s, e);
    let q3 = space_end(s, q2 + 1);
    if lit_at(s, q2, seq![',']) && !lit_at(s, q3, seq![')']) && within(q + 1, q3, s.len() as int) {
        own + param_items_diags(s, q3)
    } else {
        own
    }
}

pub open spec fn params_diags(s: Seq<char>, p: int) -> Seq<Diag> {
    let q = space_end(s, p);
    let q1 = space_end(s, q + 1);
    if lit_at(s, q, seq!['(']) && lit_at(s, q1, seq![')']) {
        Seq::empty()
    } else if lit_at(s, q, seq!['(']) && param_items_of(s, q1) is Some {
        param_items_diags(s, q1)
    } else {
        diag(p, class_end(s, p, Class::NotClose), Rule::Parameters)
    }
}

pub open spec fn decl_diags(s: Seq<char>, p: int) -> Seq<Diag>
    decreases s.len() - p, 4int,
{
    let q = space_end(s, p + 3);
    let own = if ident_at(s, q) {
        Seq::empty()
    } else {
        diag(q, class_end(s, q, Class::NameRun), Rule::Name)
    };
    let p2 = name_end(s, p);
    let q1 = space_end(s, p2);
    let q2 = space_end(s, q1 + 2);
    let rest = if !within(p + 3, p2, s.len() as int) {
        Seq::empty()
    } else if lit_at(s, p2, seq![':', ':']) {
        let (ps, qp) = params_of(s, p2 + 2);
        if within(p2 + 2, qp, s.len() as int) {
            params_diags(s, p2 + 2) + body_diags(s, qp)
        } else {
            params_diags(s, p2 + 2)
        }
    } else if within(p2, q1, s.len() as int) && lit_at(s, q1, seq!['=', '>']) && within(
        q1 + 2,
        q2,
        s.len() as int,
    ) {
        expr_diags(s, q2)
    } else {
        body_diags(s, p2)
    };
    own + rest
}

pub open spec fn atom_diags(s: Seq<char>, p: int) -> Seq<Diag>
    decreases s.len() - p, 6int,
{
    let p1 = space_end(s, p);
    let recovered = diag(p, class_end(s, p, Class::NotDelim), Rule::Expression);
    if !within(p, p1, s.len() as int) {
        recovered
    } else if kw_at(s, p1, seq!['i', 'f']) {
        match if_of(s, p1) {
            Some(x) => if_diags(s, p1),
            None => recovered,
        }
    } else if lit_at(s, p1, seq!['l', 'e', 't']) {
        decl_diags(s, p1)
    } else if lit_at(s, p1, seq!['t', 'r', 'u', 'e']) || lit_at(s, p1, seq!['f', 'a', 'l', 's', 'e'])
        || (p1 < s.len() && is_digit(s[p1])) || ident_at(s, p1) {
        Seq::empty()
    } else if lit_at(s, p1, seq!['(']) {
        match group_of(s, p1) {
            Some(x) => group_diags(s, p1),
            None => match close_from(s, p1, 0) {
                Some(e) => diag(p1, e, Rule::Group),
                None => recovered,
            },
        }
    } else {
        recovered
    }
}

/// The diagnostics of the top-level declarations from `p` on.
pub open spec fn decls_diags(s: Seq<char>, p: int) -> Seq<Diag>
    decreases s.len() - p,
{
    if p < 0 || p >= s.len() {
        Seq::empty()
    } else {
        let (x, e) = decl_of(s, p);
        let isl = lit_at(s, p, seq!['l', 'e', 't']);
        let q = if isl {
            space_end(s, e)
        } else {
            space_end(s, let_after(s, p + 1))
        };
        let own = if isl {
            decl_diags(s, p)
        } else {
            diag(p, let_after(s, p + 1), Rule::Declaration)
        };
        if !within(p + 1, q, s.len() as int) {
            own
        } else {
            own + decls_diags(s, q)
        }
    }
}

} // verus!
