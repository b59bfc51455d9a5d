//! Properties of the language that hold for every input.
use vstd::prelude::*;
use crate::lexical::{Class, class_end, is_digit, digits_value, int_value};
use crate::ast::Tree;
use crate::lexical::{space_end, lit_at, lemma_class_end_bounds};
use crate::grammar::op_len;
use crate::syntax::{number_of, fold_of, level_of, call_tail_of, items_of, group_of, assemble};

verus! {

/// The decimal digit for `k < 10`.
pub open spec fn digit_char(k: nat) -> char {
    if k == 0 {
        '0'
    } else if k == 1 {
        '1'
    } else if k == 2 {
        '2'
    } else if k == 3 {
        '3'
    } else if k == 4 {
        '4'
    } else if k == 5 {
        '5'
    } else if k == 6 {
        '6'
    } else if k == 7 {
        '7'
    } else if k == 8 {
        '8'
    } else {
        '9'
    }
}

/// The decimal text of `n`, without leading zeros.
pub open spec fn decimal(n: nat) -> Seq<char>
    decreases n,
{
    if n < 10 {
        seq![digit_char(n)]
    } else {
        decimal(n / 10).push(digit_char(n % 10))
    }
}

/// `d` without its leading zeros, keeping one digit at least.
pub open spec fn significant(d: Seq<char>) -> Seq<char>
    decreases d.len(),
{
    if d.len() > 1 && d[0] == '0' {
        significant(d.subrange(1, d.len() as int))
    } else {
        d
    }
}

pub open spec fn all_digits(d: Seq<char>) -> bool {
    forall|i: int| 0 <= i < d.len() ==> is_digit(#[trigger] d[i])
}

proof fn lemma_digit_char(c: char)
    requires
        is_digit(c),
    ensures
        digit_char(((c as u32) - 48) as nat) == c,
        c != '0' ==> (c as u32) - 48 >= 1,
{
}

proof fn lemma_leading_zero(x: Seq<char>)
    ensures
        digits_value(seq!['0'] + x) == digits_value(x),
    decreases x.len(),
{
    let y = seq!['0'] + x;
    if x.len() == 0 {
        assert(y.drop_last() =~= Seq::<char>::empty());
        assert(y.last() == '0');
        assert(digits_value(Seq::<char>::empty()) == 0);
        assert(digits_value(y) == digits_value(y.drop_last()) * 10 + (('0' as u32) - 48) as nat);
    } else {
        assert(y.drop_last() =~= seq!['0'] + x.drop_last());
        assert(y.last() == x.last());
        lemma_leading_zero(x.drop_last());
        assert(digits_value(y) == digits_value(y.drop_last()) * 10 + ((y.last() as u32) - 48) as nat);
        assert(digits_value(x) == digits_value(x.drop_last()) * 10 + ((x.last() as u32) - 48) as nat);
    }
}

proof fn lemma_significant(d: Seq<char>)
    requires
        d.len() >= 1,
        all_digits(d),
    ensures
        digits_value(significant(d)) == digits_value(d),
        all_digits(significant(d)),
        significant(d).len() >= 1,
        significant(d).len() == 1 || significant(d)[0] != '0',
    decreases d.len(),
{
    if d.len() > 1 && d[0] == '0' {
        let rest = d.subrange(1, d.len() as int);
        assert(d =~= seq!['0'] + rest);
        lemma_leading_zero(rest);
        lemma_significant(rest);
    }
}

proof fn lemma_positive(e: Seq<char>)
    requires
        e.len() >= 1,
        all_digits(e),
        e[0] != '0',
    ensures
        digits_value(e) >= 1,
    decreases e.len(),
{
    if e.len() == 1 {
        lemma_digit_char(e[0]);
        assert(e.drop_last() =~= Seq::<char>::empty());
    } else {
        assert(e.drop_last()[0] == e[0]);
        lemma_positive(e.drop_last());
    }
}

proof fn lemma_decimal_of_digits(e: Seq<char>)
    requires
        e.len() >= 1,
        all_digits(e),
        e.len() == 1 || e[0] != '0',
    ensures
        decimal(digits_value(e)) == e,
    decreases e.len(),
{
    let k = ((e.last() as u32) - 48) as nat;
    lemma_digit_char(e.last());
    if e.len() == 1 {
        assert(e.drop_last() =~= Seq::<char>::empty());
        assert(digits_value(Seq::<char>::empty()) == 0);
        assert(digits_value(e) == digits_value(e.drop_last()) * 10 + k);
        assert(digits_value(e) == k);
        assert(e =~= seq![e.last()]);
    } else {
        let f = e.drop_last();
        assert(f[0] == e[0]);
        lemma_decimal_of_digits(f);
        lemma_positive(f);
        let v = digits_value(f);
        assert(digits_value(e) == v * 10 + k);
        assert((v * 10 + k) / 10 == v && (v * 10 + k) % 10 == k && v * 10 + k >= 10) by (nonlinear_arith)
            requires
                k < 10,
                v >= 1,
        ;
        assert(e =~= f.push(e.last()));
    }
}

/// An integer literal's value, written back in decimal, gives the literal's
/// text without its leading zeros.
pub proof fn lemma_integer_round_trip(d: Seq<char>)
    requires
        d.len() >= 1,
        all_digits(d),
        digits_value(d) <= u64::MAX,
    ensures
        decimal(int_value(d) as nat) == significant(d),
{
    lemma_significant(d);
    lemma_decimal_of_digits(significant(d));
}

/// A number literal is a float exactly where a `.` and a digit follow its
/// leading digits, and a float's text holds that `.`.
pub proof fn lemma_float_needs_point(s: Seq<char>, p: int)
    requires
        0 <= p < s.len(),
        is_digit(s[p]),
    ensures
        number_of(s, p).0 is Float <==> ({
            let e = class_end(s, p, Class::Digit);
            e < s.len() && s[e] == '.' && e + 1 < s.len() && is_digit(s[e + 1])
        }),
        number_of(s, p).0 is Float ==> number_of(s, p).0->Float_0[class_end(s, p, Class::Digit) - p]
            == '.',
{
    let e = class_end(s, p, Class::Digit);
    crate::lexical::lemma_class_end_bounds(s, p, Class::Digit);
    if e < s.len() && s[e] == '.' {
        crate::lexical::lemma_class_end_bounds(s, e + 1, Class::Digit);
    }
}

/// Operators of one level fold to the left: `a op1 b op2 c` with no
/// further operator of that level is `(a op1 b) op2 c`.
pub proof fn lemma_left_associative(s: Seq<char>, q: int, k: int, a: Tree)
    requires
        1 <= k <= 6,
        0 <= q <= s.len(),
        op_len(s, q, k) > 0,
        within_level(s, q + op_len(s, q, k), k),
        op_len(s, level_of(s, q + op_len(s, q, k), k - 1).1, k) > 0,
        within_level(s, second_operand(s, q, k), k),
        op_len(s, level_of(s, second_operand(s, q, k), k - 1).1, k) == 0,
    ensures
        ({
            let n1 = op_len(s, q, k);
            let (b, q2) = level_of(s, q + n1, k - 1);
            let n2 = op_len(s, q2, k);
            let (c, q3) = level_of(s, q2 + n2, k - 1);
            fold_of(s, q, k, a) == (
                Tree::Binary(
                    s.subrange(q2, q2 + n2),
                    Box::new(Tree::Binary(s.subrange(q, q + n1), Box::new(a), Box::new(b))),
                    Box::new(c),
                ),
                q3,
            )
        }),
{
    let n1 = op_len(s, q, k);
    let (b, q2) = level_of(s, q + n1, k - 1);
    let n2 = op_len(s, q2, k);
    let (c, q3) = level_of(s, q2 + n2, k - 1);
    let ab = Tree::Binary(s.subrange(q, q + n1), Box::new(a), Box::new(b));
    assert(fold_of(s, q, k, a) == fold_of(s, q2, k, ab));
    assert(fold_of(s, q3, k, Tree::Binary(s.subrange(q2, q2 + n2), Box::new(ab), Box::new(c))) == (
        Tree::Binary(s.subrange(q2, q2 + n2), Box::new(ab), Box::new(c)),
        q3,
    ));
}

/// The operand of level `k - 1` that starts at `q` ends inside the input.
pub open spec fn within_level(s: Seq<char>, q: int, k: int) -> bool {
    q <= level_of(s, q, k - 1).1 <= s.len()
}

/// Where the second operand of a chain at `q` starts.
pub open spec fn second_operand(s: Seq<char>, q: int, k: int) -> int {
    let q2 = level_of(s, q + op_len(s, q, k), k - 1).1;
    q2 + op_len(s, q2, k)
}

/// `f` applied to no arguments.
pub open spec fn no_argument_call(f: Tree) -> Tree {
    Tree::Call { callee: Box::new(f), args: Seq::empty() }
}

/// `()` after a callee makes a call without arguments, and no `(` leaves
/// the callee as it is.
pub proof fn lemma_zero_argument_call(s: Seq<char>, q: int, f: Tree)
    requires
        0 <= q <= s.len(),
    ensures
        !lit_at(s, q, seq!['(']) ==> call_tail_of(s, q, f) == (f, q),
        lit_at(s, q, seq!['(']) && lit_at(s, space_end(s, q + 1), seq![')']) ==> call_tail_of(s, q, f)
            == call_tail_of(s, space_end(s, space_end(s, q + 1) + 1), no_argument_call(f)),
{
    if lit_at(s, q, seq!['(']) {
        lemma_class_end_bounds(s, q + 1, crate::lexical::Class::Space);
        let q1 = space_end(s, q + 1);
        if lit_at(s, q1, seq![')']) {
            lemma_class_end_bounds(s, q1 + 1, crate::lexical::Class::Space);
        }
    }
}

/// A parenthesized group of one expression is that expression.
pub proof fn lemma_singleton_group(s: Seq<char>, p: int)
    requires
        0 <= p < s.len(),
        s[p] == '(',
        !lit_at(s, space_end(s, p + 1), seq![')']),
        (items_of(s, space_end(s, p + 1)) is Some),
        (items_of(s, space_end(s, p + 1))->0).0.len() == 1,
    ensures
        group_of(s, p) == Some(
            (
                (items_of(s, space_end(s, p + 1))->0).0[0],
                (items_of(s, space_end(s, p + 1))->0).1,
            ),
        ),
{
    lemma_class_end_bounds(s, p + 1, crate::lexical::Class::Space);
}

/// A conditional node.
pub open spec fn conditional(c: Tree, t: Tree, e: Option<Tree>) -> Tree {
    Tree::If {
        cond: Box::new(c),
        then_expr: Box::new(t),
        else_expr: match e {
            Some(x) => Some(Box::new(x)),
            None => None,
        },
    }
}

/// After an `elif`, a conditional's else-slot holds only the last `elif`
/// branch, without an else of its own, and an `else` branch is dropped.
pub proof fn lemma_elif_collapse(
    c: Tree,
    t: Tree,
    ec: Tree,
    eb: Tree,
    q3: int,
    els: Option<(Tree, int)>,
)
    ensures
        assemble(c, t, Some((ec, eb)), q3, els).0 == conditional(c, t, Some(conditional(ec, eb, None))),
{
}

} // verus!
