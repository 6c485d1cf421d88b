use vstd::prelude::*;

verus! {

/// A numeric literal, kept as the text it was written in.
pub struct NumberExprAst {
    pub val: Vec<char>,
}

pub struct VariableExprAst {
    pub name: Vec<char>,
}

pub struct BinaryExprAst {
    pub op: char,
    pub lhs: Box<Expr>,
    pub rhs: Box<Expr>,
}

pub struct FunctionCallExprAst {
    pub callee: Vec<char>,
    pub args: Vec<Expr>,
}

/// An expression node.
pub enum Expr {
    Number(NumberExprAst),
    Variable(VariableExprAst),
    Binary(BinaryExprAst),
    Call(FunctionCallExprAst),
}

/// The mathematical value of an [`Expr`].
pub ghost enum ExprView {
    Number(Seq<char>),
    Variable(Seq<char>),
    Binary(char, Box<ExprView>, Box<ExprView>),
    Call(Seq<char>, Seq<ExprView>),
}

/// The view of an expression tree, node by node.
pub open spec fn expr_view(e: &Expr) -> ExprView
    decreases e,
{
    match e {
        Expr::Number(n) => ExprView::Number(n.val@),
        Expr::Variable(v) => ExprView::Variable(v.name@),
        Expr::Binary(b) => ExprView::Binary(
            b.op,
            Box::new(expr_view(&b.lhs)),
            Box::new(expr_view(&b.rhs)),
        ),
        Expr::Call(c) => ExprView::Call(
            c.callee@,
            Seq::new(
                c.args.len() as nat,
                |i: int|
                    if 0 <= i < c.args.len() {
                        expr_view(&c.args@[i])
                    } else {
                        ExprView::Number(Seq::empty())
                    },
            ),
        ),
    }
}

impl View for Expr {
    type V = ExprView;

    open spec fn view(&self) -> ExprView {
        expr_view(self)
    }
}

impl NumberExprAst {
    pub fn new(val: Vec<char>) -> (r: NumberExprAst)
        ensures
            r.val@ == val@,
    {
        NumberExprAst { val }
    }
}

impl VariableExprAst {
    pub fn new(name: Vec<char>) -> (r: VariableExprAst)
        ensures
            r.name@ == name@,
    {
        VariableExprAst { name }
    }
}

impl BinaryExprAst {
    pub fn new(op: char, lhs: Expr, rhs: Expr) -> (r: BinaryExprAst)
        ensures
            r.op == op,
            r.lhs@ == lhs@,
            r.rhs@ == rhs@,
    {
        BinaryExprAst { op, lhs: Box::new(lhs), rhs: Box::new(rhs) }
    }
}

impl FunctionCallExprAst {
    pub fn new(callee: Vec<char>, args: Vec<Expr>) -> (r: FunctionCallExprAst)
        ensures
            r.callee@ == callee@,
            r.args@ == args@,
    {
        FunctionCallExprAst { callee, args }
    }
}

/// The views of a list of expressions, in order.
pub open spec fn exprs_view(args: Seq<Expr>) -> Seq<ExprView> {
    args.map_values(|a: Expr| a@)
}

/// The names of a list of identifiers, in order.
pub open spec fn names_view(names: Seq<Vec<char>>) -> Seq<Seq<char>> {
    names.map_values(|n: Vec<char>| n@)
}

pub proof fn lemma_call_view(c: FunctionCallExprAst)
    ensures
        Expr::Call(c)@ == ExprView::Call(c.callee@, exprs_view(c.args@)),
{
    let e = Expr::Call(c);
    let v = expr_view(&e);
    assert(e@ == v);
    let xs = v->Call_1;
    assert(xs.len() == c.args.len());
    assert forall|i: int| 0 <= i < xs.len() implies xs[i] == exprs_view(c.args@)[i] by {}
    assert(xs =~= exprs_view(c.args@));
}

/// A function's name and the names of its parameters.
pub struct PrototypeAst {
    pub name: Vec<char>,
    pub args: Vec<Vec<char>>,
}

pub ghost struct PrototypeView {
    pub name: Seq<char>,
    pub args: Seq<Seq<char>>,
}

impl View for PrototypeAst {
    type V = PrototypeView;

    open spec fn view(&self) -> PrototypeView {
        PrototypeView { name: self.name@, args: names_view(self.args@) }
    }
}

impl PrototypeAst {
    pub fn new(name: Vec<char>, args: Vec<Vec<char>>) -> (r: PrototypeAst)
        ensures
            r.name@ == name@,
            r.args@ == args@,
    {
        PrototypeAst { name, args }
    }
}

/// A function definition: a prototype and the expression it returns.
pub struct FunctionAst {
    pub proto: PrototypeAst,
    pub body: Expr,
}

pub ghost struct FunctionView {
    pub proto: PrototypeView,
    pub body: ExprView,
}

impl View for FunctionAst {
    type V = FunctionView;

    open spec fn view(&self) -> FunctionView {
        FunctionView { proto: self.proto@, body: self.body@ }
    }
}

impl FunctionAst {
    pub fn new(proto: PrototypeAst, body: Expr) -> (r: FunctionAst)
        ensures
            r@ == (FunctionView { proto: proto@, body: body@ }),
    {
        FunctionAst { proto, body }
    }
}

/// A top-level statement: a declaration (`extern`) or a definition (`def`, or a
/// bare expression wrapped as a function with an empty name and no parameters).
pub enum Function {
    Prototype(PrototypeAst),
    Definition(FunctionAst),
}

pub ghost enum FunctionItemView {
    Prototype(PrototypeView),
    Definition(FunctionView),
}

impl View for Function {
    type V = FunctionItemView;

    open spec fn view(&self) -> FunctionItemView {
        match self {
            Function::Prototype(p) => FunctionItemView::Prototype(p@),
            Function::Definition(f) => FunctionItemView::Definition(f@),
        }
    }
}

} // verus!
