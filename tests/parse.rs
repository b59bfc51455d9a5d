use crabstar_parser::ast::{Ast, Diag, Rule};
use crabstar_parser::parser::{expr_parser, parser};

fn num(n: u64) -> Ast {
    Ast::Int(n)
}

fn ident(s: &str) -> Ast {
    Ast::Ident(s.to_string())
}

fn bin(op: &str, l: Ast, r: Ast) -> Ast {
    Ast::Binary(op.to_string(), Box::new(l), Box::new(r))
}

fn un(op: &str, x: Ast) -> Ast {
    Ast::Unary(op.to_string(), Box::new(x))
}

fn let_(name: &str, args: Option<Vec<Ast>>, value: Ast) -> Ast {
    Ast::Let { name: name.to_string(), args, value: Box::new(value), next: None }
}

fn if_(c: Ast, t: Ast, e: Option<Ast>) -> Ast {
    Ast::If { cond: Box::new(c), then_expr: Box::new(t), else_expr: e.map(Box::new) }
}

fn call(f: Ast, args: Vec<Ast>) -> Ast {
    Ast::Call { callee: Box::new(f), args }
}

fn clean_expr(text: &str) -> Ast {
    let (a, d) = expr_parser(text);
    assert!(d.is_empty(), "diagnostics for {:?}: {:?}", text, d);
    a
}

#[test]
fn product_binds_tighter_than_sum() {
    assert_eq!(clean_expr("1 + 2 * 3"), bin("+", num(1), bin("*", num(2), num(3))));
    assert_eq!(clean_expr("1 * 2 + 3"), bin("+", bin("*", num(1), num(2)), num(3)));
}

#[test]
fn subtraction_is_left_associative() {
    assert_eq!(clean_expr("1 - 2 - 3"), bin("-", bin("-", num(1), num(2)), num(3)));
}

#[test]
fn full_ladder_order() {
    assert_eq!(
        clean_expr("a or b and c = d < e + f * g"),
        bin(
            "or",
            ident("a"),
            bin(
                "and",
                ident("b"),
                bin("=", ident("c"), bin("<", ident("d"), bin("+", ident("e"), bin("*", ident("f"), ident("g"))))),
            ),
        )
    );
    assert_eq!(clean_expr("x <= y != z >= w"), bin("!=", bin("<=", ident("x"), ident("y")), bin(">=", ident("z"), ident("w"))));
    assert_eq!(clean_expr("7 % 4 / 2"), bin("/", bin("%", num(7), num(4)), num(2)));
}

#[test]
fn singleton_group_unwraps() {
    assert_eq!(clean_expr("(1 + 2)"), clean_expr("1 + 2"));
    assert_eq!(clean_expr("(f(x) * 3)"), clean_expr("f(x) * 3"));
    assert_eq!(clean_expr("((a))"), ident("a"));
}

#[test]
fn pair_group_is_block() {
    assert_eq!(clean_expr("(1, 2)"), Ast::Block(vec![num(1), num(2)]));
    assert_eq!(clean_expr("(1, 2,)"), Ast::Block(vec![num(1), num(2)]));
    assert_eq!(clean_expr("()"), Ast::Block(vec![]));
}

#[test]
fn zero_arg_call_and_plain_name() {
    assert_eq!(clean_expr("f()"), call(ident("f"), vec![]));
    assert_eq!(clean_expr("f"), ident("f"));
    assert_eq!(clean_expr("f( )"), call(ident("f"), vec![]));
}

#[test]
fn calls_chain_to_the_left() {
    assert_eq!(clean_expr("f(1)(2)"), call(call(ident("f"), vec![num(1)]), vec![num(2)]));
    assert_eq!(clean_expr("g(1, x + 2)"), call(ident("g"), vec![num(1), bin("+", ident("x"), num(2))]));
}

#[test]
fn prefix_operators_nest() {
    assert_eq!(clean_expr("not -x"), un("not", un("-", ident("x"))));
    assert_eq!(clean_expr("-1 * 2"), bin("*", un("-", num(1)), num(2)));
    assert_eq!(clean_expr("nothing"), ident("nothing"));
}

#[test]
fn booleans() {
    assert_eq!(clean_expr("true and false"), bin("and", Ast::Bool(true), Ast::Bool(false)));
}

#[test]
fn declaration_shapes() {
    let (ds, d) = parser("let x: 12");
    assert!(d.is_empty());
    assert_eq!(ds, vec![let_("x", None, num(12))]);

    let (ds, d) = parser("let f :: (a, b): a + b");
    assert!(d.is_empty());
    assert_eq!(ds, vec![let_("f", Some(vec![ident("a"), ident("b")]), bin("+", ident("a"), ident("b")))]);

    let (ds, d) = parser("let g => 7");
    assert!(d.is_empty());
    assert_eq!(ds, vec![let_("g", Some(vec![]), num(7))]);
}

#[test]
fn declarations_follow_each_other() {
    let (ds, d) = parser("  let a: 1\n let b (2, 3)\nlet c :: (): c  ");
    assert!(d.is_empty());
    assert_eq!(
        ds,
        vec![
            let_("a", None, num(1)),
            let_("b", None, Ast::Block(vec![num(2), num(3)])),
            let_("c", Some(vec![]), ident("c")),
        ]
    );
}

#[test]
fn body_in_parentheses_is_always_block() {
    let (ds, _) = parser("let b(5)");
    assert_eq!(ds, vec![let_("b", None, Ast::Block(vec![num(5)]))]);
}

#[test]
fn nested_declaration_in_expression() {
    let (ds, d) = parser("let a: let b: 1");
    assert!(d.is_empty());
    assert_eq!(ds, vec![let_("a", None, let_("b", None, num(1)))]);
}

#[test]
fn trailing_garbage_is_recovered() {
    let (ds, d) = parser("let x: 1 @@@");
    assert_eq!(ds, vec![let_("x", None, num(1))]);
    assert_eq!(d, vec![Diag { start: 9, end: 12, rule: Rule::Declaration }]);
}

#[test]
fn garbage_between_declarations_is_skipped() {
    let (ds, d) = parser("?? let x: 1 ) let y: 2");
    assert_eq!(ds, vec![let_("x", None, num(1)), let_("y", None, num(2))]);
    assert_eq!(d, vec![
        Diag { start: 0, end: 3, rule: Rule::Declaration },
        Diag { start: 12, end: 14, rule: Rule::Declaration },
    ]);
}

#[test]
fn empty_and_blank_input() {
    assert_eq!(parser(""), (vec![], vec![]));
    assert_eq!(parser(" \n\t "), (vec![], vec![]));
}

#[test]
fn only_the_last_elif_is_kept() {
    let (ds, d) = parser("let x: if a: 1 elif b: 2 elif c: 3");
    assert!(d.is_empty());
    assert_eq!(ds, vec![let_("x", None, if_(ident("a"), num(1), Some(if_(ident("c"), num(3), None))))]);
}

#[test]
fn else_is_dropped_after_an_elif() {
    let (a, d) = expr_parser("if a: 1 elif b: 2 else: 3");
    assert!(d.is_empty());
    assert_eq!(a, if_(ident("a"), num(1), Some(if_(ident("b"), num(2), None))));
}

#[test]
fn else_without_elif_is_kept() {
    assert_eq!(clean_expr("if true: 12 else: 16"), if_(Ast::Bool(true), num(12), Some(num(16))));
    assert_eq!(clean_expr("if x: (1, 2)"), if_(ident("x"), Ast::Block(vec![num(1), num(2)]), None));
}

#[test]
fn integer_literals_round_trip() {
    for text in ["0", "7", "12", "18446744073709551615", "007", "000"] {
        let stripped = text.trim_start_matches('0');
        let expected = if stripped.is_empty() { "0" } else { stripped };
        match clean_expr(text) {
            Ast::Int(n) => assert_eq!(n.to_string(), expected),
            other => panic!("not an integer: {:?}", other),
        }
    }
}

#[test]
fn integer_too_large_is_zero() {
    assert_eq!(clean_expr("18446744073709551616"), num(0));
}

#[test]
fn float_needs_a_decimal_point() {
    assert_eq!(clean_expr("12"), num(12));
    assert_eq!(clean_expr("12.0"), Ast::Float("12.0".to_string()));
    assert_eq!(clean_expr("3.25 + 1"), bin("+", Ast::Float("3.25".to_string()), num(1)));
}

#[test]
fn malformed_name_is_kept_or_replaced() {
    let (ds, d) = parser("let 1x: 2");
    assert_eq!(ds, vec![let_("1x", None, num(2))]);
    assert_eq!(d, vec![Diag { start: 4, end: 6, rule: Rule::Name }]);

    let (ds, d) = parser("let : 2");
    assert_eq!(ds, vec![let_("error_name", None, num(2))]);
    assert_eq!(d, vec![Diag { start: 4, end: 4, rule: Rule::Name }]);
}

#[test]
fn malformed_parameter_becomes_dummy() {
    let (ds, d) = parser("let f :: (a, 1): a");
    assert_eq!(ds, vec![let_("f", Some(vec![ident("a"), Ast::Dummy]), ident("a"))]);
    assert_eq!(d, vec![Diag { start: 13, end: 14, rule: Rule::Parameter }]);
}

#[test]
fn malformed_parameter_list_becomes_sentinel() {
    let (ds, d) = parser("let f :: (a b): 1");
    assert_eq!(ds, vec![let_("f", Some(vec![ident("error_params")]), num(1))]);
    assert_eq!(d, vec![Diag { start: 8, end: 13, rule: Rule::Parameters }]);
}

#[test]
fn missing_body_becomes_dummy() {
    let (ds, d) = parser("let x 5");
    assert_eq!(ds, vec![let_("x", None, Ast::Dummy)]);
    assert_eq!(d, vec![Diag { start: 6, end: 7, rule: Rule::Body }]);
}

#[test]
fn malformed_atom_becomes_dummy() {
    let (a, d) = expr_parser("f(1, *, 3)");
    assert_eq!(a, call(ident("f"), vec![num(1), Ast::Dummy, num(3)]));
    assert_eq!(d, vec![Diag { start: 5, end: 6, rule: Rule::Expression }]);
}

#[test]
fn unbalanced_group_becomes_dummy() {
    let (a, d) = expr_parser("(1 2) + 3");
    assert_eq!(a, bin("+", Ast::Dummy, num(3)));
    assert_eq!(d, vec![Diag { start: 0, end: 5, rule: Rule::Group }]);
}

#[test]
fn leftover_expression_text_is_reported() {
    let (a, d) = expr_parser("1 )");
    assert_eq!(a, num(1));
    assert_eq!(d, vec![Diag { start: 2, end: 3, rule: Rule::Expression }]);
}

#[test]
fn identifiers_keep_their_text() {
    assert_eq!(clean_expr("snake_case9"), ident("snake_case9"));
    let (ds, _) = parser("let long_name: other");
    assert_eq!(ds, vec![let_("long_name", None, ident("other"))]);
}

#[test]
fn rule_labels() {
    assert_eq!(Rule::Parameter.label(), "function parameter");
    assert_eq!(Rule::Group.label(), "parenthesized expression");
}

#[test]
fn default_is_dummy() {
    assert_eq!(Ast::default(), Ast::Dummy);
}

#[test]
fn unicode_whitespace_is_skipped() {
    let (ds, d) = parser("\u{3000}let x:\u{00A0}1\u{2029}");
    assert!(d.is_empty());
    assert_eq!(ds, vec![let_("x", None, num(1))]);
}

#[test]
fn non_ascii_letter_is_no_identifier() {
    let (a, d) = expr_parser("\u{e9}t\u{e9}");
    assert_eq!(a, Ast::Dummy);
    assert_eq!(d, vec![Diag { start: 0, end: 3, rule: Rule::Expression }]);
}

#[test]
fn keywords_need_a_word_boundary() {
    let (a, d) = expr_parser("a andb");
    assert_eq!(a, ident("a"));
    assert_eq!(d, vec![Diag { start: 2, end: 6, rule: Rule::Expression }]);
}

#[test]
fn clone_copies_the_whole_tree() {
    let (ds, _) = parser("let f :: (a, b): if a: g(b, (1, 2)) else: -b");
    let copy = ds[0].clone();
    assert_eq!(copy, ds[0]);
}

#[test]
fn back_to_back_declarations_raise_nothing() {
    let (ds, d) = parser("let x: 1 let y: 2");
    assert!(d.is_empty());
    assert_eq!(ds, vec![let_("x", None, num(1)), let_("y", None, num(2))]);
}

#[test]
fn garbage_after_second_declaration_is_reported() {
    let (ds, d) = parser("let x: 1 let y: 2 @@@");
    assert_eq!(ds, vec![let_("x", None, num(1)), let_("y", None, num(2))]);
    assert_eq!(d, vec![Diag { start: 18, end: 21, rule: Rule::Declaration }]);
}

#[test]
fn dollar_name_is_kept_with_a_diagnostic() {
    let (ds, d) = parser("let$x: 1");
    assert_eq!(ds, vec![let_("$x", None, num(1))]);
    assert_eq!(d, vec![Diag { start: 3, end: 5, rule: Rule::Name }]);
}

#[test]
fn all_labels() {
    assert_eq!(Rule::Declaration.label(), "declaration");
    assert_eq!(Rule::Name.label(), "name");
    assert_eq!(Rule::Parameters.label(), "function parameters");
    assert_eq!(Rule::Body.label(), "body");
    assert_eq!(Rule::Expression.label(), "expression");
}
