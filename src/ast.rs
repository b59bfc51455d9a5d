//! The syntax tree and the diagnostics that a parse hands back.
use vstd::prelude::*;

verus! {

/// A node of the syntax tree. Every child is owned by its parent.
#[derive(Debug, PartialEq, Eq)]
pub enum Ast {
    /// Stands where a rule failed and recovered.
    Dummy,
    /// An integer literal; never negative, negation is a `Unary` node.
    Int(u64),
    /// A floating literal, kept as its source text (digits, `.`, digits).
    Float(String),
    Bool(bool),
    Ident(String),
    Unary(String, Box<Ast>),
    Binary(String, Box<Ast>, Box<Ast>),
    Block(Vec<Ast>),
    /// `args` is `None` for a plain value binding, `Some` of an empty list
    /// for a lazy binding and `Some` of the parameters for a function.
    /// `next` is never filled by the grammar.
    Let { name: String, args: Option<Vec<Ast>>, value: Box<Ast>, next: Option<Box<Ast>> },
    Call { callee: Box<Ast>, args: Vec<Ast> },
    If { cond: Box<Ast>, then_expr: Box<Ast>, else_expr: Option<Box<Ast>> },
}

/// The mathematical value of a syntax tree: text as character sequences
/// and child lists as sequences.
pub enum Tree {
    Dummy,
    Int(u64),
    Float(Seq<char>),
    Bool(bool),
    Ident(Seq<char>),
    Unary(Seq<char>, Box<Tree>),
    Binary(Seq<char>, Box<Tree>, Box<Tree>),
    Block(Seq<Tree>),
    Let { name: Seq<char>, args: Option<Seq<Tree>>, value: Box<Tree>, next: Option<Box<Tree>> },
    Call { callee: Box<Tree>, args: Seq<Tree> },
    If { cond: Box<Tree>, then_expr: Box<Tree>, else_expr: Option<Box<Tree>> },
}

impl View for Ast {
    type V = Tree;

    open spec fn view(&self) -> Tree
        decreases self,
    {
        match self {
            Ast::Dummy => Tree::Dummy,
            Ast::Int(n) => Tree::Int(*n),
            Ast::Float(t) => Tree::Float(t@),
            Ast::Bool(b) => Tree::Bool(*b),
            Ast::Ident(t) => Tree::Ident(t@),
            Ast::Unary(op, x) => Tree::Unary(op@, Box::new((**x).view())),
            Ast::Binary(op, l, r) => Tree::Binary(op@, Box::new((**l).view()), Box::new((**r).view())),
            Ast::Block(v) => Tree::Block(trees(v@)),
            Ast::Let { name, args, value, next } => Tree::Let {
                name: name@,
                args: match args {
                    Some(a) => Some(trees(a@)),
                    None => None,
                },
                value: Box::new((**value).view()),
                next: match next {
                    Some(n) => Some(Box::new((**n).view())),
                    None => None,
                },
            },
            Ast::Call { callee, args } => Tree::Call {
                callee: Box::new((**callee).view()),
                args: trees(args@),
            },
            Ast::If { cond, then_expr, else_expr } => Tree::If {
                cond: Box::new((**cond).view()),
                then_expr: Box::new((**then_expr).view()),
                else_expr: match else_expr {
                    Some(e) => Some(Box::new((**e).view())),
                    None => None,
                },
            },
        }
    }
}

/// The values of a list of nodes.
pub open spec fn trees(v: Seq<Ast>) -> Seq<Tree>
    decreases v,
{
    if v.len() == 0 {
        Seq::empty()
    } else {
        seq![v[0].view()] + trees(v.subrange(1, v.len() as int))
    }
}

pub proof fn lemma_trees_cons(a: Ast, v: Seq<Ast>)
    ensures
        trees(seq![a] + v) == seq![a@] + trees(v),
{
    let w = seq![a] + v;
    assert(w[0] == a);
    assert(w.subrange(1, w.len() as int) =~= v);
}

pub proof fn lemma_trees_one(a: Ast)
    ensures
        trees(seq![a]) == seq![a@],
{
    lemma_trees_cons(a, Seq::empty());
    assert(seq![a] + Seq::<Ast>::empty() =~= seq![a]);
    assert(seq![a@] + Seq::<Tree>::empty() =~= seq![a@]);
}

pub proof fn lemma_trees_len(v: Seq<Ast>)
    ensures
        trees(v).len() == v.len(),
    decreases v.len(),
{
    if v.len() > 0 {
        lemma_trees_len(v.subrange(1, v.len() as int));
        assert(trees(v) == seq![v[0]@] + trees(v.subrange(1, v.len() as int)));
    }
}

pub proof fn lemma_trees_empty()
    ensures
        trees(Seq::<Ast>::empty()) == Seq::<Tree>::empty(),
{
    assert(trees(Seq::<Ast>::empty()) =~= Seq::<Tree>::empty());
}

pub proof fn lemma_trees_push(v: Seq<Ast>, a: Ast)
    ensures
        trees(v.push(a)) == trees(v).push(a@),
    decreases v.len(),
{
    let w = v.push(a);
    if v.len() == 0 {
        lemma_trees_one(a);
        assert(w =~= seq![a]);
        assert(trees(v).push(a@) =~= seq![a@]);
    } else {
        let tail = v.subrange(1, v.len() as int);
        assert(w.subrange(1, w.len() as int) =~= tail.push(a));
        lemma_trees_push(tail, a);
        assert(w[0] == v[0]);
        assert(trees(w) == seq![w[0]@] + trees(w.subrange(1, w.len() as int)));
        assert(trees(v) == seq![v[0]@] + trees(tail));
        assert(trees(w) =~= trees(v).push(a@));
    }
}

impl Ast {
    /// A copy of the whole tree.
    pub fn deep_copy(&self) -> (r: Ast)
        ensures
            r@ == self@,
        decreases self,
    {
        match self {
            Ast::Dummy => Ast::Dummy,
            Ast::Int(n) => Ast::Int(*n),
            Ast::Float(t) => Ast::Float(t.clone()),
            Ast::Bool(b) => Ast::Bool(*b),
            Ast::Ident(t) => Ast::Ident(t.clone()),
            Ast::Unary(op, x) => Ast::Unary(op.clone(), Box::new((**x).deep_copy())),
            Ast::Binary(op, l, r) => Ast::Binary(
                op.clone(),
                Box::new((**l).deep_copy()),
                Box::new((**r).deep_copy()),
            ),
            Ast::Block(v) => Ast::Block(copy_all(v)),
            Ast::Let { name, args, value, next } => Ast::Let {
                name: name.clone(),
                args: match args {
                    Some(a) => Some(copy_all(a)),
                    None => None,
                },
                value: Box::new((**value).deep_copy()),
                next: match next {
                    Some(n) => Some(Box::new((**n).deep_copy())),
                    None => None,
                },
            },
            Ast::Call { callee, args } => Ast::Call {
                callee: Box::new((**callee).deep_copy()),
                args: copy_all(args),
            },
            Ast::If { cond, then_expr, else_expr } => Ast::If {
                cond: Box::new((**cond).deep_copy()),
                then_expr: Box::new((**then_expr).deep_copy()),
                else_expr: match else_expr {
                    Some(e) => Some(Box::new((**e).deep_copy())),
                    None => None,
                },
            },
        }
    }
}

/// A copy of each node of `v`.
fn copy_all(v: &Vec<Ast>) -> (r: Vec<Ast>)
    ensures
        trees(r@) == trees(v@),
    decreases v,
{
    let mut out: Vec<Ast> = Vec::new();
    let mut i: usize = 0;
    proof {
        lemma_trees_empty();
        assert(v@.subrange(0, 0) =~= Seq::<Ast>::empty());
    }
    while i < v.len()
        invariant
            i <= v@.len(),
            trees(out@) == trees(v@.subrange(0, i as int)),
        decreases v@.len() - i,
    {
        proof {
            assert(decreases_to!(v => v@[i as int]));
        }
        let x = v[i].deep_copy();
        let ghost before = out@;
        let ghost gx = x;
        out.push(x);
        proof {
            lemma_trees_push(before, gx);
            lemma_trees_push(v@.subrange(0, i as int), v@[i as int]);
            assert(v@.subrange(0, i + 1) =~= v@.subrange(0, i as int).push(v@[i as int]));
        }
        i = i + 1;
    }
    proof {
        assert(v@.subrange(0, v@.len() as int) =~= v@);
    }
    out
}

impl Clone for Ast {
    fn clone(&self) -> (r: Ast)
        ensures
            r@ == self@,
    {
        self.deep_copy()
    }
}

impl Default for Ast {
    fn default() -> (r: Ast)
        ensures
            r is Dummy,
    {
        Ast::Dummy
    }
}

/// The grammar rule that was active where a diagnostic was raised.
#[derive(Debug, Clone, Copy, PartialEq, Eq, Structural)]
pub enum Rule {
    Declaration,
    Name,
    Parameter,
    Parameters,
    Body,
    Expression,
    Group,
}

/// The human-readable label of a rule.
pub open spec fn rule_label(r: Rule) -> Seq<char> {
    match r {
        Rule::Declaration => "declaration"@,
        Rule::Name => "name"@,
        Rule::Parameter => "function parameter"@,
        Rule::Parameters => "function parameters"@,
        Rule::Body => "body"@,
        Rule::Expression => "expression"@,
        Rule::Group => "parenthesized expression"@,
    }
}

impl Rule {
    /// The human-readable label of the rule.
    pub fn label(&self) -> (r: &'static str)
        ensures
            r@ == rule_label(*self),
    {
        match self {
            Rule::Declaration => "declaration",
            Rule::Name => "name",
            Rule::Parameter => "function parameter",
            Rule::Parameters => "function parameters",
            Rule::Body => "body",
            Rule::Expression => "expression",
            Rule::Group => "parenthesized expression",
        }
    }
}

/// A recovered error: the span `start..end` of characters that the
/// recovery skipped (possibly empty) and the rule that failed there.
#[derive(Debug, Clone, Copy, PartialEq, Eq, Structural)]
pub struct Diag {
    pub start: usize,
    pub end: usize,
    pub rule: Rule,
}

/// `b` holds `a` as a prefix: diagnostics are only ever appended.
pub open spec fn extends(a: Seq<Diag>, b: Seq<Diag>) -> bool {
    &&& a.len() <= b.len()
    &&& forall|i: int| 0 <= i < a.len() ==> #[trigger] b[i] == a[i]
}

pub broadcast proof fn lemma_diags_assoc(a: Seq<Diag>, b: Seq<Diag>, c: Seq<Diag>)
    ensures
        #[trigger] ((a + b) + c) == a + (b + c),
{
    assert((a + b) + c =~= a + (b + c));
}

pub broadcast proof fn lemma_diags_push(a: Seq<Diag>, x: Diag)
    ensures
        #[trigger] a.push(x) == a + seq![x],
{
    assert(a.push(x) =~= a + seq![x]);
}

pub broadcast proof fn lemma_diags_empty(a: Seq<Diag>)
    ensures
        #[trigger] (a + Seq::<Diag>::empty()) == a,
{
    assert(a + Seq::<Diag>::empty() =~= a);
}

pub broadcast proof fn lemma_diags_prefix(a: Seq<Diag>, b: Seq<Diag>)
    requires
        extends(a, b),
    ensures
        #[trigger] b.subrange(0, a.len() as int) == a,
{
    assert(b.subrange(0, a.len() as int) =~= a);
}

} // verus!
