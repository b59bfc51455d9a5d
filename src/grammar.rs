//! The grammar: declarations, the expression precedence ladder, calls,
//! atoms, conditionals and their recovery rules, as mutually recursive
//! functions over a character buffer and a position in it.
use vstd::prelude::*;
use vstd::std_specs::iter::IteratorSpec;
use crate::ast::{
    Ast, Tree, Diag, Rule, extends, trees, lemma_diags_assoc, lemma_diags_push, lemma_diags_empty,
    lemma_diags_prefix, lemma_trees_cons, lemma_trees_one, lemma_trees_push,
    lemma_trees_len, lemma_trees_empty,
};
use crate::syntax::{
    number_of, close_from, expr_of, level_of, fold_of, prefix_of, call_of, call_tail_of, items_of,
    group_of, block_of, body_of, elifs_of, else_of, if_of, assemble, atom_of, decl_of, params_of,
    param_items_of, decls_of, opt_tree, opt_trees, opt_pair, diag, expr_diags, level_diags,
    fold_diags, prefix_diags, call_diags, call_tail_diags, items_diags, group_diags, block_diags,
    body_diags, elifs_diags, else_diags, if_diags, param_items_diags, params_diags, decl_diags,
    atom_diags, decls_diags,
};
use crate::lexical::{
    Class, class_end, space_end, lit_at, kw_at, ident_at, is_digit, int_value,
    lemma_class_end_bounds, lemma_char_lit, scan, skip_space, has_lit, has_kw, has_ident, text_of,
    int_literal, char_at, char_in_class,
};

verus! {

broadcast use lemma_diags_assoc, lemma_diags_push, lemma_diags_empty, lemma_diags_prefix;

/// The number of characters of an operator of precedence level `k` at `q`
/// (1: `* / %`, 2: `+ -`, 3: `<= >= < >`, 4: `= !=`, 5: `and`, 6: `or`),
/// or 0 where none stands there.
pub open spec fn op_len(s: Seq<char>, q: int, k: int) -> int {
    if k == 1 && (lit_at(s, q, seq!['*']) || lit_at(s, q, seq!['/']) || lit_at(s, q, seq!['%'])) {
        1
    } else if k == 2 && (lit_at(s, q, seq!['+']) || lit_at(s, q, seq!['-'])) {
        1
    } else if k == 3 && (lit_at(s, q, seq!['<', '=']) || lit_at(s, q, seq!['>', '='])) {
        2
    } else if k == 3 && (lit_at(s, q, seq!['<']) || lit_at(s, q, seq!['>'])) {
        1
    } else if k == 4 && lit_at(s, q, seq!['=']) {
        1
    } else if k == 4 && lit_at(s, q, seq!['!', '=']) {
        2
    } else if k == 5 && kw_at(s, q, seq!['a', 'n', 'd']) {
        3
    } else if k == 6 && kw_at(s, q, seq!['o', 'r']) {
        2
    } else {
        0
    }
}

/// A number literal at `p` is a float: digits, `.`, digits.
pub open spec fn float_at(s: Seq<char>, p: int) -> bool {
    let de = class_end(s, p, Class::Digit);
    de < s.len() && s[de] == '.' && class_end(s, de + 1, Class::Digit) > de + 1
}

/// Where the number literal that starts at `p` ends.
pub open spec fn number_end(s: Seq<char>, p: int) -> int {
    if float_at(s, p) {
        class_end(s, class_end(s, p, Class::Digit) + 1, Class::Digit)
    } else {
        class_end(s, p, Class::Digit)
    }
}

/// Where a declaration's name ends, with the whitespace after an
/// identifier; the declaration starts at `p`.
pub open spec fn name_end(s: Seq<char>, p: int) -> int {
    let q = space_end(s, p + 3);
    if ident_at(s, q) {
        space_end(s, class_end(s, q, Class::Word))
    } else {
        class_end(s, q, Class::NameRun)
    }
}

/// The form of a declaration that starts at `p`: 0 for a function (`::`),
/// 1 for a lazy binding (`=>`), 2 for a plain value.
pub open spec fn decl_form(s: Seq<char>, p: int) -> int {
    let e = name_end(s, p);
    if lit_at(s, e, seq![':', ':']) {
        0
    } else if lit_at(s, space_end(s, e), seq!['=', '>']) {
        1
    } else {
        2
    }
}

/// Where a declaration's args slot matches its form.
pub open spec fn args_match_form(a: Ast, form: int) -> bool {
    &&& a is Let
    &&& (form == 0 ==> a->Let_args is Some)
    &&& (form == 1 ==> a->Let_args is Some && a->Let_args->0@.len() == 0)
    &&& (form == 2 ==> a->Let_args is None)
}

/// The length of a character buffer fits in `usize`.
fn length_fits(s: &Vec<char>)
    ensures
        s@.len() <= usize::MAX,
{
    let _n = s.len();
}

fn op_at(s: &Vec<char>, q: usize, k: u8) -> (r: usize)
    requires
        q <= s@.len(),
    ensures
        r == op_len(s@, q as int, k as int),
        q + r <= s@.len(),
{
    if k == 1 {
        let b = char_at(s, q, '*') || char_at(s, q, '/') || char_at(s, q, '%');
        if b { 1 } else { 0 }
    } else if k == 2 {
        let b = char_at(s, q, '+') || char_at(s, q, '-');
        if b { 1 } else { 0 }
    } else if k == 3 {
        let two = has_lit(s, q, &vec!['<', '=']) || has_lit(s, q, &vec!['>', '=']);
        let one = char_at(s, q, '<') || char_at(s, q, '>');
        if two { 2 } else if one { 1 } else { 0 }
    } else if k == 4 {
        let one = char_at(s, q, '=');
        let two = has_lit(s, q, &vec!['!', '=']);
        if one { 1 } else if two { 2 } else { 0 }
    } else if k == 5 {
        let b = has_kw(s, q, &vec!['a', 'n', 'd']);
        if b { 3 } else { 0 }
    } else if k == 6 {
        let b = has_kw(s, q, &vec!['o', 'r']);
        if b { 2 } else { 0 }
    } else {
        0
    }
}

/// An atom's recovery: `Dummy` for the text from `p` up to the next `)`
/// or `,`, with one diagnostic for that span.
fn recover(s: &Vec<char>, p: usize, d: &mut Vec<Diag>) -> (r: (Ast, usize))
    requires
        p <= s@.len(),
    ensures
        r.0 is Dummy,
        r.1 == class_end(s@, p as int, Class::NotDelim),
        p <= r.1 <= s@.len(),
        final(d)@ == old(d)@ + diag(p as int, r.1 as int, Rule::Expression),
{
    let e = scan(s, p, Class::NotDelim);
    d.push(Diag { start: p, end: e, rule: Rule::Expression });
    (Ast::Dummy, e)
}

/// Where the parenthesis that opens at `p` closes, counting nested ones;
/// `None` where it is never closed.
fn close_of(s: &Vec<char>, p: usize) -> (r: Option<usize>)
    requires
        p < s@.len(),
        s@[p as int] == '(',
    ensures
        r is Some ==> p < r->0 <= s@.len() && close_from(s@, p as int, 0) == Some(r->0 as int),
        r is None ==> close_from(s@, p as int, 0) is None,
{
    let mut depth: usize = 0;
    let mut i = p;
    while i < s.len()
        invariant
            p <= i <= s@.len(),
            s@[p as int] == '(',
            depth <= i - p,
            close_from(s@, i as int, depth as int) == close_from(s@, p as int, 0),
        decreases s@.len() - i,
    {
        if s[i] == '(' {
            depth = depth + 1;
        } else if s[i] == ')' {
            if depth <= 1 {
                return Some(i + 1);
            }
            depth = depth - 1;
        }
        i = i + 1;
    }
    None
}

/// The number literal at `p`: a float where digits, `.` and digits stand
/// there, else an integer.
fn number(s: &Vec<char>, p: usize) -> (r: (Ast, usize))
    requires
        p < s@.len(),
        is_digit(s@[p as int]),
    ensures
        r.1 == number_end(s@, p as int),
        p < r.1 <= s@.len(),
        float_at(s@, p as int) ==> r.0 is Float && r.0->Float_0@ == s@.subrange(p as int, r.1 as int),
        !float_at(s@, p as int) ==> r.0 == Ast::Int(int_value(s@.subrange(p as int, r.1 as int))),
        (r.0@, r.1 as int) == number_of(s@, p as int),
{
    let de = scan(s, p, Class::Digit);
    proof {
        lemma_class_end_bounds(s@, p as int, Class::Digit);
    }
    if char_at(s, de, '.') {
        let fe = scan(s, de + 1, Class::Digit);
        if fe > de + 1 {
            return (Ast::Float(text_of(s, p, fe)), fe);
        }
    }
    (Ast::Int(int_literal(s, p, de)), de)
}

/// One expression at `p`: the precedence ladder from `or` down.
pub fn expr(s: &Vec<char>, p: usize, d: &mut Vec<Diag>) -> (r: (Ast, usize))
    requires
        p <= s@.len(),
    ensures
        p <= r.1 <= s@.len(),
        extends(old(d)@, final(d)@),
        (r.0@, r.1 as int) == expr_of(s@, p as int),
        final(d)@ == old(d)@ + expr_diags(s@, p as int),
    decreases s@.len() - p, 40int,
{
    level(s, p, 6, d)
}

/// Precedence level `k` (0 for prefix operators, 6 for `or`): an operand of
/// level `k - 1` and the operators of level `k` that follow it.
fn level(s: &Vec<char>, p: usize, k: u8, d: &mut Vec<Diag>) -> (r: (Ast, usize))
    requires
        p <= s@.len(),
        k <= 6,
    ensures
        p <= r.1 <= s@.len(),
        extends(old(d)@, final(d)@),
        (r.0@, r.1 as int) == level_of(s@, p as int, k as int),
        final(d)@ == old(d)@ + level_diags(s@, p as int, k as int),
    decreases s@.len() - p, 3 * k + 10,
{
    if k == 0 {
        prefix(s, p, d)
    } else {
        let (lhs, q) = level(s, p, k - 1, d);
        fold(s, q, k, lhs, d)
    }
}

/// Left-folds the operators of level `k` and their operands from `q` onto
/// `lhs`: `a - b - c` is `(a - b) - c`.
fn fold(s: &Vec<char>, q: usize, k: u8, lhs: Ast, d: &mut Vec<Diag>) -> (r: (Ast, usize))
    requires
        q <= s@.len(),
        1 <= k <= 6,
    ensures
        q <= r.1 <= s@.len(),
        extends(old(d)@, final(d)@),
        (r.0@, r.1 as int) == fold_of(s@, q as int, k as int, lhs@),
        final(d)@ == old(d)@ + fold_diags(s@, q as int, k as int),
    decreases s@.len() - q, 3 * k + 9,
{
    length_fits(s);
    let n = op_at(s, q, k);
    if n == 0 {
        (lhs, q)
    } else {
        let op = text_of(s, q, q + n);
        let (rhs, q2) = level(s, q + n, k - 1, d);
        let (r, e) = fold(s, q2, k, Ast::Binary(op, Box::new(lhs), Box::new(rhs)), d);
        (r, e)
    }
}

/// A prefix operator (`not`, `-`) applied to a prefix expression, or a call.
fn prefix(s: &Vec<char>, p: usize, d: &mut Vec<Diag>) -> (r: (Ast, usize))
    requires
        p <= s@.len(),
    ensures
        p <= r.1 <= s@.len(),
        extends(old(d)@, final(d)@),
        (r.0@, r.1 as int) == prefix_of(s@, p as int),
        final(d)@ == old(d)@ + prefix_diags(s@, p as int),
    decreases s@.len() - p, 8int,
{
    let p1 = skip_space(s, p);
    if has_kw(s, p1, &vec!['n', 'o', 't']) {
        let op = text_of(s, p1, p1 + 3);
        let q = skip_space(s, p1 + 3);
        let (x, e) = prefix(s, q, d);
        (Ast::Unary(op, Box::new(x)), e)
    } else if char_at(s, p1, '-') {
        let op = text_of(s, p1, p1 + 1);
        let q = skip_space(s, p1 + 1);
        let (x, e) = prefix(s, q, d);
        (Ast::Unary(op, Box::new(x)), e)
    } else {
        call(s, p, d)
    }
}

/// An atom followed by any number of parenthesized argument lists.
fn call(s: &Vec<char>, p: usize, d: &mut Vec<Diag>) -> (r: (Ast, usize))
    requires
        p <= s@.len(),
    ensures
        p <= r.1 <= s@.len(),
        extends(old(d)@, final(d)@),
        (r.0@, r.1 as int) == call_of(s@, p as int),
        final(d)@ == old(d)@ + call_diags(s@, p as int),
    decreases s@.len() - p, 7int,
{
    let (a, q) = atom(s, p, d);
    call_tail(s, q, a, d)
}

/// Applies `callee` to each argument list from `q` on; `()` is a call
/// without arguments.
fn call_tail(s: &Vec<char>, q: usize, callee: Ast, d: &mut Vec<Diag>) -> (r: (Ast, usize))
    requires
        q <= s@.len(),
    ensures
        q <= r.1 <= s@.len(),
        extends(old(d)@, final(d)@),
        (r.0@, r.1 as int) == call_tail_of(s@, q as int, callee@),
        final(d)@ == old(d)@ + call_tail_diags(s@, q as int),
    decreases s@.len() - q, 5int,
{
    if !char_at(s, q, '(') {
        return (callee, q);
    }
    let q1 = skip_space(s, q + 1);
    if char_at(s, q1, ')') {
        let q2 = skip_space(s, q1 + 1);
        proof {
            lemma_trees_empty();
        }
        return call_tail(s, q2, Ast::Call { callee: Box::new(callee), args: Vec::new() }, d);
    }
    let mark = d.len();
    match items(s, q1, d) {
        Some((args, q2)) => {
            let q3 = skip_space(s, q2);
            call_tail(s, q3, Ast::Call { callee: Box::new(callee), args }, d)
        },
        None => {
            d.truncate(mark);
            (callee, q)
        },
    }
}

/// Expressions separated by commas and closed by `)`, a trailing comma
/// allowed; `None` where the list does not close.
fn items(s: &Vec<char>, p: usize, d: &mut Vec<Diag>) -> (r: Option<(Vec<Ast>, usize)>)
    requires
        p <= s@.len(),
    ensures
        extends(old(d)@, final(d)@),
        r is Some ==> p < (r->0).1 <= s@.len(),
        opt_trees(r) == items_of(s@, p as int),
        r is Some ==> final(d)@ == old(d)@ + items_diags(s@, p as int),
    decreases s@.len() - p, 50int,
{
    let (e, q) = expr(s, p, d);
    let ghost ge = e;
    let q1 = skip_space(s, q);
    if char_at(s, q1, ',') {
        let q2 = skip_space(s, q1 + 1);
        if char_at(s, q2, ')') {
            let mut v = Vec::new();
            v.push(e);
            proof {
                assert(v@ =~= seq![ge]);
                lemma_trees_one(ge);
            }
            return Some((v, q2 + 1));
        }
        match items(s, q2, d) {
            Some((rest, q3)) => {
                let ghost tail = rest@;
                let mut rest = rest;
                rest.insert(0, e);
                proof {
                    assert(rest@ =~= seq![ge] + tail);
                    lemma_trees_cons(ge, tail);
                }
                Some((rest, q3))
            },
            None => None,
        }
    } else if char_at(s, q1, ')') {
        let mut v = Vec::new();
        v.push(e);
        proof {
            assert(v@ =~= seq![ge]);
            lemma_trees_one(ge);
        }
        Some((v, q1 + 1))
    } else {
        None
    }
}

/// A parenthesized group at `p`: one expression stands for itself, none or
/// several make a block.
fn group(s: &Vec<char>, p: usize, d: &mut Vec<Diag>) -> (r: Option<(Ast, usize)>)
    requires
        p < s@.len(),
        s@[p as int] == '(',
    ensures
        extends(old(d)@, final(d)@),
        r is Some ==> p < (r->0).1 <= s@.len(),
        opt_tree(r) == group_of(s@, p as int),
        r is Some ==> final(d)@ == old(d)@ + group_diags(s@, p as int),
    decreases s@.len() - p, 4int,
{
    length_fits(s);
    let q = skip_space(s, p + 1);
    if char_at(s, q, ')') {
        proof {
            lemma_trees_empty();
        }
        return Some((Ast::Block(Vec::new()), q + 1));
    }
    match items(s, q, d) {
        Some((v, q2)) => {
            let mut v = v;
            proof {
                lemma_trees_len(v@);
                if v@.len() == 1 {
                    assert(v@ =~= seq![v@[0]]);
                    lemma_trees_one(v@[0]);
                }
            }
            if v.len() == 1 {
                match v.pop() {
                    Some(x) => Some((x, q2)),
                    None => None,
                }
            } else {
                Some((Ast::Block(v), q2))
            }
        },
        None => None,
    }
}

/// A branch of a conditional or a declaration's body: `:` and an
/// expression, or a parenthesized list that always makes a block.
fn block(s: &Vec<char>, p: usize, d: &mut Vec<Diag>) -> (r: Option<(Ast, usize)>)
    requires
        p <= s@.len(),
    ensures
        extends(old(d)@, final(d)@),
        r is Some ==> p < (r->0).1 <= s@.len(),
        lit_at(s@, p as int, seq![':']) ==> r is Some,
        !lit_at(s@, p as int, seq![':']) && !lit_at(s@, p as int, seq!['(']) ==> r is None,
        lit_at(s@, p as int, seq!['(']) && r is Some ==> (r->0).0 is Block,
        opt_tree(r) == block_of(s@, p as int),
        r is Some ==> final(d)@ == old(d)@ + block_diags(s@, p as int),
    decreases s@.len() - p, 1int,
{
    if char_at(s, p, ':') {
        proof {
            lemma_char_lit(s@, p as int, '(');
        }
        let (x, q) = expr(s, p + 1, d);
        return Some((x, q));
    }
    if !char_at(s, p, '(') {
        return None;
    }
    let q = skip_space(s, p + 1);
    if char_at(s, q, ')') {
        proof {
            lemma_trees_empty();
        }
        return Some((Ast::Block(Vec::new()), q + 1));
    }
    match items(s, q, d) {
        Some((v, q2)) => Some((Ast::Block(v), q2)),
        None => None,
    }
}

/// A declaration's body, or `Dummy` in place of one that does not parse,
/// with the rest of the input skipped.
fn body(s: &Vec<char>, p: usize, d: &mut Vec<Diag>) -> (r: (Ast, usize))
    requires
        p <= s@.len(),
    ensures
        extends(old(d)@, final(d)@),
        p <= r.1 <= s@.len(),
        (r.0@, r.1 as int) == body_of(s@, p as int),
        final(d)@ == old(d)@ + body_diags(s@, p as int),
    decreases s@.len() - p, 2int,
{
    let mark = d.len();
    match block(s, p, d) {
        Some(x) => x,
        None => {
            d.truncate(mark);
            d.push(Diag { start: p, end: s.len(), rule: Rule::Body });
            (Ast::Dummy, s.len())
        },
    }
}

/// The `elif` branches from `q` on: the last one that parses and where the
/// chain ends.
fn elifs(s: &Vec<char>, q: usize, d: &mut Vec<Diag>) -> (r: (Option<(Ast, Ast)>, usize))
    requires
        q <= s@.len(),
    ensures
        extends(old(d)@, final(d)@),
        q <= r.1 <= s@.len(),
        (opt_pair(r.0), r.1 as int) == elifs_of(s@, q as int),
        final(d)@ == old(d)@ + elifs_diags(s@, q as int),
    decreases s@.len() - q, 1int,
{
    let q1 = skip_space(s, q);
    if !has_kw(s, q1, &vec!['e', 'l', 'i', 'f']) {
        return (None, q);
    }
    let ghost d0 = d@;
    let mark = d.len();
    let q2 = skip_space(s, q1 + 4);
    let (c, q3) = expr(s, q2, d);
    let ghost d1 = d@;
    match block(s, q3, d) {
        None => {
            d.truncate(mark);
            (None, q)
        },
        Some((b, q4)) => {
            let ghost d2 = d@;
            let (rest, q5) = elifs(s, q4, d);
            proof {
                let a = expr_diags(s@, q2 as int);
                let bd = block_diags(s@, q3 as int);
                let c3 = elifs_diags(s@, q4 as int);
                assert(d1 == d0 + a);
                assert(d2 == d1 + bd);
                assert(d@ == d2 + c3);
                assert(elifs_diags(s@, q as int) == a + bd + c3);
                assert(d@ =~= d0 + (a + bd + c3));
            }
            match rest {
                Some(x) => (Some(x), q5),
                None => (Some((c, b)), q5),
            }
        },
    }
}

/// The `else` branch after the `elif` chain that ends at `q3`, if one
/// parses there.
fn else_branch(s: &Vec<char>, q3: usize, d: &mut Vec<Diag>) -> (r: Option<(Ast, usize)>)
    requires
        q3 <= s@.len(),
    ensures
        extends(old(d)@, final(d)@),
        r is Some ==> q3 < (r->0).1 <= s@.len(),
        opt_tree(r) == else_of(s@, q3 as int),
        final(d)@ == old(d)@ + else_diags(s@, q3 as int),
    decreases s@.len() - q3, 1int,
{
    length_fits(s);
    let q4 = skip_space(s, q3);
    if !has_kw(s, q4, &vec!['e', 'l', 's', 'e']) {
        return None;
    }
    let mark = d.len();
    let q5 = skip_space(s, q4 + 4);
    let r = block(s, q5, d);
    if r.is_none() {
        d.truncate(mark);
    }
    r
}

/// A conditional at `p`. Each `elif` replaces the else-slot of the first
/// branch, so only the last one stays; an `else` is kept only where no
/// `elif` came before it.
#[verifier::rlimit(100)]
fn if_expr(s: &Vec<char>, p: usize, d: &mut Vec<Diag>) -> (r: Option<(Ast, usize)>)
    requires
        kw_at(s@, p as int, seq!['i', 'f']),
    ensures
        extends(old(d)@, final(d)@),
        r is Some ==> p < (r->0).1 <= s@.len(),
        opt_tree(r) == if_of(s@, p as int),
        r is Some ==> final(d)@ == old(d)@ + if_diags(s@, p as int),
    decreases s@.len() - p, 4int,
{
    length_fits(s);
    let ghost d0 = d@;
    let q = skip_space(s, p + 2);
    let (c, q1) = expr(s, q, d);
    let ghost d1 = d@;
    match block(s, q1, d) {
        None => None,
        Some((t, q2)) => {
            let ghost d2 = d@;
            let (elif, q3) = elifs(s, q2, d);
            let ghost d3 = d@;
            let els = else_branch(s, q3, d);
            proof {
                let a = expr_diags(s@, q as int);
                let b = block_diags(s@, q1 as int);
                let c3 = elifs_diags(s@, q2 as int);
                let e = else_diags(s@, q3 as int);
                assert(d1 == d0 + a);
                assert(d2 == d1 + b);
                assert(d3 == d2 + c3);
                assert(d@ == d3 + e);
                assert(if_diags(s@, p as int) == a + b + c3 + e);
                assert(d@ =~= d0 + (a + b + c3 + e));
            }
            Some(assemble_if(c, t, elif, q3, els))
        },
    }
}

/// The conditional whose first branch is `c` and `t`, given the last
/// `elif` branch and the `else` branch after the chain that ends at `q3`.
fn assemble_if(c: Ast, t: Ast, elif: Option<(Ast, Ast)>, q3: usize, els: Option<(Ast, usize)>) -> (r: (
    Ast,
    usize,
))
    ensures
        (r.0@, r.1 as int) == assemble(c@, t@, opt_pair(elif), q3 as int, opt_tree(els)),
        els is None ==> r.1 == q3,
        els is Some ==> r.1 == (els->0).1,
{
    let ghost gc = c;
    let ghost gt = t;
    match elif {
        Some((ec, eb)) => {
            let end = match els {
                Some((_, q6)) => q6,
                None => q3,
            };
            let ghost gec = ec;
            let ghost geb = eb;
            let inner = Ast::If { cond: Box::new(ec), then_expr: Box::new(eb), else_expr: None };
            let ghost gi = inner;
            proof {
                assert(gi@ == Tree::If {
                    cond: Box::new(gec@),
                    then_expr: Box::new(geb@),
                    else_expr: None,
                });
            }
            let r = Ast::If { cond: Box::new(c), then_expr: Box::new(t), else_expr: Some(Box::new(inner)) };
            proof {
                assert(r@ == Tree::If {
                    cond: Box::new(gc@),
                    then_expr: Box::new(gt@),
                    else_expr: Some(Box::new(gi@)),
                });
            }
            (r, end)
        },
        None => match els {
            Some((b, q6)) => {
                let ghost gb = b;
                let r = Ast::If { cond: Box::new(c), then_expr: Box::new(t), else_expr: Some(Box::new(b)) };
                proof {
                    assert(r@ == Tree::If {
                        cond: Box::new(gc@),
                        then_expr: Box::new(gt@),
                        else_expr: Some(Box::new(gb@)),
                    });
                }
                (r, q6)
            },
            None => {
                let r = Ast::If { cond: Box::new(c), then_expr: Box::new(t), else_expr: None };
                proof {
                    assert(r@ == Tree::If { cond: Box::new(gc@), then_expr: Box::new(gt@), else_expr: None });
                }
                (r, q3)
            },
        },
    }
}

/// An atom at `p`, with the whitespace around it: a conditional, a nested
/// declaration, a boolean, a number, an identifier or a parenthesized
/// group. Where none parses, `Dummy` stands for everything up to the next
/// `)` or `,`.
fn atom(s: &Vec<char>, p: usize, d: &mut Vec<Diag>) -> (r: (Ast, usize))
    requires
        p <= s@.len(),
    ensures
        p <= r.1 <= s@.len(),
        extends(old(d)@, final(d)@),
        (r.0@, r.1 as int) == atom_of(s@, p as int),
        final(d)@ == old(d)@ + atom_diags(s@, p as int),
    decreases s@.len() - p, 6int,
{
    let p1 = skip_space(s, p);
    let mark = d.len();
    if has_kw(s, p1, &vec!['i', 'f']) {
        match if_expr(s, p1, d) {
            Some((x, q)) => {
                let q2 = skip_space(s, q);
                return (x, q2);
            },
            None => {
                d.truncate(mark);
                return recover(s, p, d);
            },
        }
    }
    if has_lit(s, p1, &vec!['l', 'e', 't']) {
        return decl(s, p1, d);
    }
    if has_lit(s, p1, &vec!['t', 'r', 'u', 'e']) {
        return (Ast::Bool(true), skip_space(s, p1 + 4));
    }
    if has_lit(s, p1, &vec!['f', 'a', 'l', 's', 'e']) {
        return (Ast::Bool(false), skip_space(s, p1 + 5));
    }
    if p1 < s.len() && char_in_class(s[p1], Class::Digit) {
        let (x, q) = number(s, p1);
        return (x, skip_space(s, q));
    }
    if has_ident(s, p1) {
        let e = scan(s, p1, Class::Word);
        return (Ast::Ident(text_of(s, p1, e)), skip_space(s, e));
    }
    if char_at(s, p1, '(') {
        match group(s, p1, d) {
            Some((x, q)) => {
                return (x, skip_space(s, q));
            },
            None => {
                d.truncate(mark);
                match close_of(s, p1) {
                    Some(e) => {
                        d.push(Diag { start: p1, end: e, rule: Rule::Group });
                        return (Ast::Dummy, skip_space(s, e));
                    },
                    None => {
                        return recover(s, p, d);
                    },
                }
            },
        }
    }
    recover(s, p, d)
}

/// A declaration at `p`, where `let` stands: its name, its form (function,
/// lazy binding or plain value) and its value, with the whitespace after it.
pub fn decl(s: &Vec<char>, p: usize, d: &mut Vec<Diag>) -> (r: (Ast, usize))
    requires
        lit_at(s@, p as int, seq!['l', 'e', 't']),
    ensures
        p + 3 <= r.1 <= s@.len(),
        extends(old(d)@, final(d)@),
        r.0 is Let,
        r.0->Let_next is None,
        args_match_form(r.0, decl_form(s@, p as int)),
        ident_at(s@, space_end(s@, p + 3)) ==> r.0->Let_name@ == s@.subrange(
            space_end(s@, p + 3),
            class_end(s@, space_end(s@, p + 3), Class::Word),
        ),
        (r.0@, r.1 as int) == decl_of(s@, p as int),
        final(d)@ == old(d)@ + decl_diags(s@, p as int),
    decreases s@.len() - p, 4int,
{
    length_fits(s);
    let p1 = p + 3;
    let q = skip_space(s, p1);
    let ghost e0 = name_end(s@, p as int);
    let (name, p2) = if has_ident(s, q) {
        let e = scan(s, q, Class::Word);
        (text_of(s, q, e), skip_space(s, e))
    } else {
        let e = scan(s, q, Class::NameRun);
        d.push(Diag { start: q, end: e, rule: Rule::Name });
        if e == q {
            ("error_name".to_owned(), q)
        } else {
            (text_of(s, q, e), e)
        }
    };
    assert(p2 == e0);
    let (args, value, p3) = if has_lit(s, p2, &vec![':', ':']) {
        let (ps, q1) = params(s, p2 + 2, d);
        let (v, q2) = body(s, q1, d);
        (Some(ps), v, q2)
    } else {
        let q1 = skip_space(s, p2);
        if has_lit(s, q1, &vec!['=', '>']) {
            let q2 = skip_space(s, q1 + 2);
            let (v, q3) = expr(s, q2, d);
            proof {
                lemma_trees_empty();
            }
            (Some(Vec::new()), v, q3)
        } else {
            let (v, q2) = body(s, p2, d);
            (None, v, q2)
        }
    };
    let end = skip_space(s, p3);
    (Ast::Let { name, args, value: Box::new(value), next: None }, end)
}

/// A parameter list at `p` (after `::`). One that does not parse is
/// skipped up to and including its `)` and stands as one sentinel
/// identifier.
fn params(s: &Vec<char>, p: usize, d: &mut Vec<Diag>) -> (r: (Vec<Ast>, usize))
    requires
        p <= s@.len(),
    ensures
        extends(old(d)@, final(d)@),
        p <= r.1 <= s@.len(),
        (trees(r.0@), r.1 as int) == params_of(s@, p as int),
        final(d)@ == old(d)@ + params_diags(s@, p as int),
{
    let mark = d.len();
    let q = skip_space(s, p);
    if char_at(s, q, '(') {
        let q1 = skip_space(s, q + 1);
        if char_at(s, q1, ')') {
            proof {
                lemma_trees_empty();
            }
            return (Vec::new(), skip_space(s, q1 + 1));
        }
        match param_items(s, q1, d) {
            Some(x) => {
                return x;
            },
            None => {},
        }
    }
    d.truncate(mark);
    let e = scan(s, p, Class::NotClose);
    d.push(Diag { start: p, end: e, rule: Rule::Parameters });
    let x = Ast::Ident("error_params".to_owned());
    let ghost gx = x;
    let mut v = Vec::new();
    v.push(x);
    proof {
        assert(v@ =~= seq![gx]);
        lemma_trees_one(gx);
    }
    let end = if e < s.len() {
        skip_space(s, e + 1)
    } else {
        e
    };
    (v, end)
}

/// Parameters separated by commas and closed by `)`, a trailing comma
/// allowed. A parameter that is no identifier stands as `Dummy` for the
/// characters up to the next `,`, `)`, `(` or `:`.
fn param_items(s: &Vec<char>, q: usize, d: &mut Vec<Diag>) -> (r: Option<(Vec<Ast>, usize)>)
    requires
        q <= s@.len(),
    ensures
        extends(old(d)@, final(d)@),
        r is Some ==> q < (r->0).1 <= s@.len(),
        opt_trees(r) == param_items_of(s@, q as int),
        r is Some ==> final(d)@ == old(d)@ + param_items_diags(s@, q as int),
    decreases s@.len() - q,
{
    let (x, e) = if has_ident(s, q) {
        let e = scan(s, q, Class::Word);
        (Ast::Ident(text_of(s, q, e)), e)
    } else {
        let e = scan(s, q, Class::ParamRun);
        if e == q {
            return None;
        }
        d.push(Diag { start: q, end: e, rule: Rule::Parameter });
        (Ast::Dummy, e)
    };
    let ghost gx = x;
    let q2 = skip_space(s, e);
    if char_at(s, q2, ',') {
        let q3 = skip_space(s, q2 + 1);
        if char_at(s, q3, ')') {
            let mut v = Vec::new();
            v.push(x);
            proof {
                assert(v@ =~= seq![gx]);
                lemma_trees_one(gx);
            }
            return Some((v, skip_space(s, q3 + 1)));
        }
        match param_items(s, q3, d) {
            Some((rest, q4)) => {
                let ghost tail = rest@;
                let mut rest = rest;
                rest.insert(0, x);
                proof {
                    assert(rest@ =~= seq![gx] + tail);
                    lemma_trees_cons(gx, tail);
                }
                Some((rest, q4))
            },
            None => None,
        }
    } else if char_at(s, q2, ')') {
        let mut v = Vec::new();
        v.push(x);
        proof {
            assert(v@ =~= seq![gx]);
            lemma_trees_one(gx);
        }
        Some((v, skip_space(s, q2 + 1)))
    } else {
        None
    }
}

/// The first position at or after `p` where `let` stands, or the end.
pub open spec fn let_after(s: Seq<char>, p: int) -> int
    decreases s.len() - p,
{
    if p >= s.len() {
        s.len() as int
    } else if lit_at(s, p, seq!['l', 'e', 't']) {
        p
    } else {
        let_after(s, p + 1)
    }
}

fn next_let(s: &Vec<char>, p: usize) -> (r: usize)
    requires
        p <= s@.len(),
    ensures
        r == let_after(s@, p as int),
        p <= r <= s@.len(),
{
    let mut i = p;
    while i < s.len() && !has_lit(s, i, &vec!['l', 'e', 't'])
        invariant
            p <= i <= s@.len(),
            let_after(s@, i as int) == let_after(s@, p as int),
        decreases s@.len() - i,
    {
        i = i + 1;
    }
    i
}

/// Where the text after the first declaration of `s` starts.
pub open spec fn after_first(s: Seq<char>) -> int {
    space_end(s, decl_of(s, space_end(s, 0)).1)
}

/// The diagnostic for text after the first declaration where no further
/// declaration starts.
pub open spec fn skipped_after_first(s: Seq<char>) -> Diag {
    let a = after_first(s);
    Diag { start: a as usize, end: let_after(s, a + 1) as usize, rule: Rule::Declaration }
}

/// The top-level declarations of `s`, in order, and the diagnostics. Text
/// where a declaration should start but no `let` stands is skipped up to
/// the next `let` or the end, with one diagnostic.
pub fn declarations(s: &Vec<char>) -> (r: (Vec<Ast>, Vec<Diag>))
    ensures
        trees(r.0@) == decls_of(s@, space_end(s@, 0)),
        r.1@ == decls_diags(s@, space_end(s@, 0)),
        forall|i: int| 0 <= i < r.0@.len() ==> (#[trigger] r.0@[i]) is Let && r.0@[i]->Let_next is None,
        space_end(s@, 0) == s@.len() ==> r.0@.len() == 0 && r.1@.len() == 0,
        lit_at(s@, space_end(s@, 0), seq!['l', 'e', 't']) ==> r.0@.len() >= 1 && first_decl(
            s@,
            r.0@[0],
        ),
        space_end(s@, 0) < s@.len() && !lit_at(s@, space_end(s@, 0), seq!['l', 'e', 't']) ==> r.1@.len()
            >= 1 && r.1@[0] == skipped_head(s@),
        lit_at(s@, space_end(s@, 0), seq!['l', 'e', 't']) && after_first(s@) < s@.len() && !lit_at(
            s@,
            after_first(s@),
            seq!['l', 'e', 't'],
        ) ==> exists|i: int| 0 <= i < r.1@.len() && r.1@[i] == skipped_after_first(s@),
{
    let mut out: Vec<Ast> = Vec::new();
    let mut d: Vec<Diag> = Vec::new();
    let first = skip_space(s, 0);
    let mut p = first;
    let ghost mut w: int = 0;
    proof {
        lemma_trees_empty();
    }
    while p < s.len()
        invariant
            first == space_end(s@, 0),
            first <= p <= s@.len(),
            trees(out@) + decls_of(s@, p as int) == decls_of(s@, first as int),
            d@ + decls_diags(s@, p as int) == decls_diags(s@, first as int),
            forall|i: int| 0 <= i < out@.len() ==> (#[trigger] out@[i]) is Let && out@[i]->Let_next is None,
            p == first ==> out@.len() == 0 && d@.len() == 0,
            p > first && lit_at(s@, first as int, seq!['l', 'e', 't']) ==> out@.len() >= 1 && first_decl(
                s@,
                out@[0],
            ) && p >= after_first(s@),
            p > first && !lit_at(s@, first as int, seq!['l', 'e', 't']) ==> d@.len() >= 1 && d@[0]
                == skipped_head(s@),
            p > first && lit_at(s@, first as int, seq!['l', 'e', 't']) && p > after_first(s@)
                && after_first(s@) < s@.len() && !lit_at(s@, after_first(s@), seq!['l', 'e', 't'])
                ==> 0 <= w < d@.len() && d@[w] == skipped_after_first(s@),
        decreases s@.len() - p,
    {
        let ghost d0 = d@;
        let ghost p0 = p as int;
        if has_lit(s, p, &vec!['l', 'e', 't']) {
            let (x, e) = decl(s, p, &mut d);
            let ghost gx = x;
            let ghost before = out@;
            out.push(x);
            p = skip_space(s, e);
            proof {
                lemma_trees_push(before, gx);
                assert(trees(before).push(gx@) + decls_of(s@, p as int) =~= trees(before) + (seq![gx@]
                    + decls_of(s@, p as int)));
                assert(decls_diags(s@, p0) == decl_diags(s@, p0) + decls_diags(s@, p as int));
                assert(d@ + decls_diags(s@, p as int) =~= d0 + decls_diags(s@, p0));
            }
        } else {
            let e = next_let(s, p + 1);
            proof {
                if p as int == after_first(s@) {
                    w = d@.len() as int;
                }
            }
            d.push(Diag { start: p, end: e, rule: Rule::Declaration });
            p = skip_space(s, e);
            proof {
                assert(decls_diags(s@, p0) == diag(p0, e as int, Rule::Declaration) + decls_diags(
                    s@,
                    p as int,
                ));
                assert(d@ + decls_diags(s@, p as int) =~= d0 + decls_diags(s@, p0));
            }
        }
    }
    proof {
        assert(trees(out@) + decls_of(s@, p as int) =~= trees(out@));
        assert(d@ + decls_diags(s@, p as int) =~= d@);
    }
    (out, d)
}

/// `a` is what the declaration at the start of `s` gives: its form, and its
/// name where that is an identifier.
pub open spec fn first_decl(s: Seq<char>, a: Ast) -> bool {
    let p = space_end(s, 0);
    let q = space_end(s, p + 3);
    &&& a is Let
    &&& a@ == decl_of(s, p).0
    &&& args_match_form(a, decl_form(s, p))
    &&& ident_at(s, q) ==> a->Let_name@ == s.subrange(q, class_end(s, q, Class::Word))
}

/// The diagnostic for text at the start of `s` where no declaration starts.
pub open spec fn skipped_head(s: Seq<char>) -> Diag {
    let p = space_end(s, 0);
    Diag { start: p as usize, end: let_after(s, p + 1) as usize, rule: Rule::Declaration }
}

/// The characters of `text`, in order.
pub fn to_chars(text: &str) -> (r: Vec<char>)
    ensures
        r@ == text@,
{
    let mut it = text.chars();
    let mut v: Vec<char> = Vec::new();
    loop
        invariant
            v@ + it.remaining() == text@,
            it.decrease() is Some,
        ensures
            v@ + it.remaining() == text@,
            it.remaining().len() == 0,
        decreases it.decrease()->0,
    {
        let ghost before = it.remaining();
        match it.next() {
            Some(c) => {
                proof {
                    assert(v@.push(c) + it.remaining() =~= v@ + before);
                }
                v.push(c);
            },
            None => {
                break;
            },
        }
    }
    proof {
        assert(v@ =~= text@);
    }
    v
}

} // verus!
