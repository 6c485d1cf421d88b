use vstd::prelude::*;

use crate::ast::{
    exprs_view, lemma_call_view, names_view, Expr, ExprView, Function, FunctionAst, FunctionItemView, FunctionView,
    PrototypeAst, PrototypeView,
};
use crate::lexer::{same_chars, TokenView};
use crate::parser::precedence;

verus! {

/// A value of the intermediate representation, built from the values it uses.
pub enum IrValue {
    /// A floating-point constant, given by its decimal literal.
    Const(Vec<char>),
    /// The function's parameter at this index.
    Param(usize),
    FAdd(Box<IrValue>, Box<IrValue>),
    FSub(Box<IrValue>, Box<IrValue>),
    FMul(Box<IrValue>, Box<IrValue>),
    /// A call of the named function on the argument values, evaluated in order.
    Call(Vec<char>, Vec<IrValue>),
}

pub ghost enum IrValueView {
    Const(Seq<char>),
    Param(nat),
    FAdd(Box<IrValueView>, Box<IrValueView>),
    FSub(Box<IrValueView>, Box<IrValueView>),
    FMul(Box<IrValueView>, Box<IrValueView>),
    Call(Seq<char>, Seq<IrValueView>),
}

pub open spec fn ir_view(v: &IrValue) -> IrValueView
    decreases v,
{
    match v {
        IrValue::Const(t) => IrValueView::Const(t@),
        IrValue::Param(i) => IrValueView::Param(*i as nat),
        IrValue::FAdd(a, b) => IrValueView::FAdd(Box::new(ir_view(a)), Box::new(ir_view(b))),
        IrValue::FSub(a, b) => IrValueView::FSub(Box::new(ir_view(a)), Box::new(ir_view(b))),
        IrValue::FMul(a, b) => IrValueView::FMul(Box::new(ir_view(a)), Box::new(ir_view(b))),
        IrValue::Call(f, args) => IrValueView::Call(
            f@,
            Seq::new(
                args.len() as nat,
                |i: int|
                    if 0 <= i < args.len() {
                        ir_view(&args@[i])
                    } else {
                        IrValueView::Param(0)
                    },
            ),
        ),
    }
}

impl View for IrValue {
    type V = IrValueView;

    open spec fn view(&self) -> IrValueView {
        ir_view(self)
    }
}

pub open spec fn irs_view(vs: Seq<IrValue>) -> Seq<IrValueView> {
    vs.map_values(|v: IrValue| v@)
}

pub proof fn lemma_ir_call_view(f: Vec<char>, args: Vec<IrValue>)
    ensures
        IrValue::Call(f, args)@ == IrValueView::Call(f@, irs_view(args@)),
{
    let e = IrValue::Call(f, args);
    let v = ir_view(&e);
    assert(e@ == v);
    let xs = v->Call_1;
    assert(xs.len() == args.len());
    assert forall|i: int| 0 <= i < xs.len() implies xs[i] == irs_view(args@)[i] by {}
    assert(xs =~= irs_view(args@));
}

/// A function of the module: its signature, and its body if it is defined here.
pub struct IrFunction {
    pub name: Vec<char>,
    pub params: Vec<Vec<char>>,
    pub body: Option<IrValue>,
}

pub ghost struct IrFunctionView {
    pub name: Seq<char>,
    pub params: Seq<Seq<char>>,
    pub body: Option<IrValueView>,
}

impl View for IrFunction {
    type V = IrFunctionView;

    open spec fn view(&self) -> IrFunctionView {
        IrFunctionView {
            name: self.name@,
            params: names_view(self.params@),
            body: match self.body {
                Some(v) => Some(v@),
                None => None,
            },
        }
    }
}

/// Why an expression or a function could not be lowered.
#[derive(Debug, PartialEq, Clone)]
pub enum CodegenError {
    UnknownVariable(Vec<char>),
    UnknownFunction(Vec<char>),
    /// A call whose number of arguments differs from the callee's parameters.
    ArgumentCountMismatch(Vec<char>),
    UnsupportedOperator(char),
    /// A prototype that names the same parameter twice.
    DuplicateParameter(Vec<char>),
}

pub ghost enum CodegenErrorView {
    UnknownVariable(Seq<char>),
    UnknownFunction(Seq<char>),
    ArgumentCountMismatch(Seq<char>),
    UnsupportedOperator(char),
    DuplicateParameter(Seq<char>),
}

impl View for CodegenError {
    type V = CodegenErrorView;

    open spec fn view(&self) -> CodegenErrorView {
        match self {
            CodegenError::UnknownVariable(n) => CodegenErrorView::UnknownVariable(n@),
            CodegenError::UnknownFunction(n) => CodegenErrorView::UnknownFunction(n@),
            CodegenError::ArgumentCountMismatch(n) => CodegenErrorView::ArgumentCountMismatch(n@),
            CodegenError::UnsupportedOperator(c) => CodegenErrorView::UnsupportedOperator(*c),
            CodegenError::DuplicateParameter(n) => CodegenErrorView::DuplicateParameter(n@),
        }
    }
}

/// The index of the first occurrence of `n` in `names` at or after `from`.
pub open spec fn first_index(names: Seq<Seq<char>>, n: Seq<char>, from: int) -> Option<int>
    decreases names.len() - from,
{
    if from < 0 || from >= names.len() {
        None
    } else if names[from] == n {
        Some(from)
    } else {
        first_index(names, n, from + 1)
    }
}

pub proof fn lemma_first_index(names: Seq<Seq<char>>, n: Seq<char>, from: int)
    requires
        0 <= from,
    ensures
        first_index(names, n, from) matches Some(i) ==> from <= i < names.len() && names[i] == n
            && forall|j: int| from <= j < i ==> names[j] != n,
        first_index(names, n, from) is None ==> forall|j: int|
            from <= j < names.len() ==> names[j] != n,
    decreases names.len() - from,
{
    if from < names.len() && names[from] != n {
        lemma_first_index(names, n, from + 1);
    }
}

/// The first parameter, from index `from` on, that an earlier parameter repeats.
pub open spec fn first_duplicate(params: Seq<Seq<char>>, from: int) -> Option<Seq<char>>
    decreases params.len() - from,
{
    if from < 0 || from >= params.len() {
        None
    } else if first_index(params, params[from], 0) != Some(from) {
        Some(params[from])
    } else {
        first_duplicate(params, from + 1)
    }
}

pub open spec fn names_of(fs: Seq<IrFunctionView>) -> Seq<Seq<char>> {
    fs.map_values(|f: IrFunctionView| f.name)
}

/// The global function table: each function name of the module, with its
/// number of parameters.
pub open spec fn table(fs: Seq<IrFunctionView>) -> Map<Seq<char>, nat> {
    Map::new(
        |n: Seq<char>| first_index(names_of(fs), n, 0) is Some,
        |n: Seq<char>| fs[first_index(names_of(fs), n, 0)->Some_0].params.len(),
    )
}

/// Adds `f` to the module; a function of the same name is replaced.
pub open spec fn declare(fs: Seq<IrFunctionView>, f: IrFunctionView) -> Seq<IrFunctionView> {
    match first_index(names_of(fs), f.name, 0) {
        Some(i) => fs.update(i, f),
        None => fs.push(f),
    }
}

pub proof fn lemma_first_index_push(names: Seq<Seq<char>>, m: Seq<char>, n: Seq<char>)
    requires
        first_index(names, m, 0) is None,
    ensures
        first_index(names.push(m), n, 0) == if n == m {
            Some(names.len() as int)
        } else {
            first_index(names, n, 0)
        },
{
    let ms = names.push(m);
    lemma_first_index(names, m, 0);
    lemma_first_index(names, n, 0);
    lemma_first_index(ms, n, 0);
    if n == m {
        assert(ms[names.len() as int] == m);
    } else {
        match first_index(names, n, 0) {
            Some(i) => {
                assert(ms[i] == n);
                if first_index(ms, n, 0) != Some(i) {
                    let k = first_index(ms, n, 0)->Some_0;
                    assert(k < i ==> names[k] != n);
                }
            },
            None => {
                assert(ms[names.len() as int] == m);
            },
        }
    }
}

pub proof fn lemma_declare_table(fs: Seq<IrFunctionView>, f: IrFunctionView)
    ensures
        table(declare(fs, f)) == table(fs).insert(f.name, f.params.len()),
{
    let gs = declare(fs, f);
    lemma_first_index(names_of(fs), f.name, 0);
    match first_index(names_of(fs), f.name, 0) {
        Some(i) => {
            assert(names_of(gs) =~= names_of(fs));
            assert forall|n: Seq<char>| #![auto] table(gs).contains_key(n) && n != f.name
                implies table(gs)[n] == table(fs)[n] by {
                lemma_first_index(names_of(fs), n, 0);
                let j = first_index(names_of(fs), n, 0)->Some_0;
                assert(names_of(fs)[j] == n);
                assert(j != i);
            }
            assert(names_of(fs)[i] == f.name);
        },
        None => {
            assert(names_of(gs) =~= names_of(fs).push(f.name));
            assert forall|n: Seq<char>| #![auto]
                first_index(names_of(gs), n, 0) == if n == f.name {
                    Some(fs.len() as int)
                } else {
                    first_index(names_of(fs), n, 0)
                } by {
                lemma_first_index_push(names_of(fs), f.name, n);
            }
        },
    }
    assert forall|n: Seq<char>| #![auto] table(fs).contains_key(n) ==> 0 <= first_index(names_of(fs), n, 0)->Some_0 < fs.len() by {
        lemma_first_index(names_of(fs), n, 0);
    }
    assert(table(gs) =~= table(fs).insert(f.name, f.params.len()));
}

/// The table that the body of a function with prototype `p` is lowered
/// against: the module's functions, and `p` itself.
pub open spec fn body_table(fs: Seq<IrFunctionView>, p: PrototypeView) -> Map<Seq<char>, nat> {
    table(fs).insert(p.name, p.args.len())
}

/// Lowering of an expression, given the function table and the parameters of
/// the function it stands in.
pub open spec fn lower_expr(
    table: Map<Seq<char>, nat>,
    params: Seq<Seq<char>>,
    e: ExprView,
) -> Result<IrValueView, CodegenErrorView>
    decreases e, 0int,
{
    match e {
        ExprView::Number(t) => Ok(IrValueView::Const(t)),
        ExprView::Variable(n) => match first_index(params, n, 0) {
            Some(i) => Ok(IrValueView::Param(i as nat)),
            None => Err(CodegenErrorView::UnknownVariable(n)),
        },
        ExprView::Binary(op, l, r) => match lower_expr(table, params, *l) {
            Err(x) => Err(x),
            Ok(lv) => match lower_expr(table, params, *r) {
                Err(x) => Err(x),
                Ok(rv) => if op == '+' {
                    Ok(IrValueView::FAdd(Box::new(lv), Box::new(rv)))
                } else if op == '-' {
                    Ok(IrValueView::FSub(Box::new(lv), Box::new(rv)))
                } else if op == '*' {
                    Ok(IrValueView::FMul(Box::new(lv), Box::new(rv)))
                } else {
                    Err(CodegenErrorView::UnsupportedOperator(op))
                },
            },
        },
        ExprView::Call(callee, args) => if !table.contains_key(callee) {
            Err(CodegenErrorView::UnknownFunction(callee))
        } else if table[callee] != args.len() {
            Err(CodegenErrorView::ArgumentCountMismatch(callee))
        } else {
            match lower_args(table, params, args, 0) {
                Err(x) => Err(x),
                Ok(vs) => Ok(IrValueView::Call(callee, vs)),
            }
        },
    }
}

/// Lowering of the arguments `args[i..]`, in order; the first failure wins.
pub open spec fn lower_args(
    table: Map<Seq<char>, nat>,
    params: Seq<Seq<char>>,
    args: Seq<ExprView>,
    i: int,
) -> Result<Seq<IrValueView>, CodegenErrorView>
    decreases args, args.len() - i,
{
    if i < 0 || i >= args.len() {
        Ok(seq![])
    } else {
        match lower_expr(table, params, args[i]) {
            Err(x) => Err(x),
            Ok(v) => match lower_args(table, params, args, i + 1) {
                Err(x) => Err(x),
                Ok(vs) => Ok(seq![v] + vs),
            },
        }
    }
}

/// Lowering of an `extern` declaration: the module after it.
pub open spec fn lower_prototype(fs: Seq<IrFunctionView>, p: PrototypeView) -> Result<
    Seq<IrFunctionView>,
    CodegenErrorView,
> {
    match first_duplicate(p.args, 0) {
        Some(n) => Err(CodegenErrorView::DuplicateParameter(n)),
        None => Ok(declare(fs, IrFunctionView { name: p.name, params: p.args, body: None })),
    }
}

/// Lowering of a function definition: the module after it.
pub open spec fn lower_function(fs: Seq<IrFunctionView>, f: FunctionView) -> Result<
    Seq<IrFunctionView>,
    CodegenErrorView,
> {
    match first_duplicate(f.proto.args, 0) {
        Some(n) => Err(CodegenErrorView::DuplicateParameter(n)),
        None => match lower_expr(body_table(fs, f.proto), f.proto.args, f.body) {
            Err(x) => Err(x),
            Ok(v) => Ok(
                declare(fs, IrFunctionView { name: f.proto.name, params: f.proto.args, body: Some(v) }),
            ),
        },
    }
}

/// Lowering of a top-level statement: the module after it.
pub open spec fn generate(fs: Seq<IrFunctionView>, item: FunctionItemView) -> Result<
    Seq<IrFunctionView>,
    CodegenErrorView,
> {
    match item {
        FunctionItemView::Prototype(p) => lower_prototype(fs, p),
        FunctionItemView::Definition(f) => lower_function(fs, f),
    }
}

/// Whether a lowering result agrees with the mathematical lowering `spec_result`.
pub open spec fn ir_outcome(
    spec_result: Result<IrValueView, CodegenErrorView>,
    r: Result<IrValue, CodegenError>,
) -> bool {
    match spec_result {
        Ok(v) => r matches Ok(x) && x@ == v,
        Err(e) => r matches Err(x) && x@ == e,
    }
}

pub open spec fn unit_outcome<T>(
    spec_result: Result<T, CodegenErrorView>,
    r: Result<(), CodegenError>,
) -> bool {
    match spec_result {
        Ok(_) => r is Ok,
        Err(e) => r matches Err(x) && x@ == e,
    }
}

/// The index of the first occurrence of `n` in `names`.
fn find_index(names: &Vec<Vec<char>>, n: &Vec<char>) -> (r: Option<usize>)
    ensures
        match r {
            Some(k) => first_index(names_view(names@), n@, 0) == Some(k as int),
            None => first_index(names_view(names@), n@, 0) is None,
        },
{
    let ghost ns = names_view(names@);
    let mut i: usize = 0;
    while i < names.len()
        invariant
            0 <= i <= names.len(),
            ns == names_view(names@),
            first_index(ns, n@, i as int) == first_index(ns, n@, 0),
        decreases names.len() - i,
    {
        if same_chars(&names[i], n) {
            return Some(i);
        }
        i += 1;
    }
    None
}

fn clone_names(names: &Vec<Vec<char>>) -> (r: Vec<Vec<char>>)
    ensures
        names_view(r@) == names_view(names@),
{
    let mut r: Vec<Vec<char>> = Vec::new();
    let mut i: usize = 0;
    while i < names.len()
        invariant
            0 <= i <= names.len(),
            names_view(r@) == names_view(names@).subrange(0, i as int),
        decreases names.len() - i,
    {
        let ghost before = r@;
        let c = names[i].clone();
        assert(c@ == names_view(names@)[i as int]);
        r.push(c);
        assert(r@ == before.push(c));
        assert(names_view(r@) =~= names_view(before).push(c@));
        assert(names_view(r@) =~= names_view(names@).subrange(0, i + 1));
        i += 1;
    }
    assert(names_view(names@).subrange(0, i as int) =~= names_view(names@));
    r
}

/// The first parameter that an earlier one repeats.
fn find_duplicate(params: &Vec<Vec<char>>) -> (r: Option<Vec<char>>)
    ensures
        match first_duplicate(names_view(params@), 0) {
            Some(n) => r matches Some(x) && x@ == n,
            None => r is None,
        },
{
    let ghost ns = names_view(params@);
    let mut i: usize = 0;
    while i < params.len()
        invariant
            0 <= i <= params.len(),
            ns == names_view(params@),
            first_duplicate(ns, i as int) == first_duplicate(ns, 0),
        decreases params.len() - i,
    {
        assert(ns[i as int] == params@[i as int]@);
        match find_index(params, &params[i]) {
            Some(k) => {
                if k != i {
                    return Some(params[i].clone());
                }
            },
            None => {
                return Some(params[i].clone());
            },
        }
        i += 1;
    }
    None
}

/// The state of lowering: the module built so far.
pub struct CodeGenContext {
    pub functions: Vec<IrFunction>,
}

impl View for CodeGenContext {
    type V = Seq<IrFunctionView>;

    open spec fn view(&self) -> Seq<IrFunctionView> {
        self.functions@.map_values(|f: IrFunction| f@)
    }
}

/// A context with an empty module.
pub fn create_context() -> (r: CodeGenContext)
    ensures
        r@ == Seq::<IrFunctionView>::empty(),
{
    let r = CodeGenContext { functions: Vec::new() };
    assert(r@ =~= Seq::<IrFunctionView>::empty());
    r
}

impl CodeGenContext {
    /// The index of the module's function named `n`.
    fn find_function(&self, n: &Vec<char>) -> (r: Option<usize>)
        ensures
            match r {
                Some(k) => first_index(names_of(self@), n@, 0) == Some(k as int),
                None => first_index(names_of(self@), n@, 0) is None,
            },
            r matches Some(i) ==> i < self.functions.len(),
    {
        let ghost ns = names_of(self@);
        let mut i: usize = 0;
        while i < self.functions.len()
            invariant
                0 <= i <= self.functions.len(),
                ns == names_of(self@),
                first_index(ns, n@, i as int) == first_index(ns, n@, 0),
            decreases self.functions.len() - i,
        {
            if same_chars(&self.functions[i].name, n) {
                return Some(i);
            }
            i += 1;
        }
        None
    }

    /// The number of parameters of `n` in the table that a body with prototype
    /// `proto` is lowered against.
    fn lookup_arity(&self, proto: &PrototypeAst, n: &Vec<char>) -> (r: Option<usize>)
        ensures
            match r {
                Some(a) => body_table(self@, proto@).contains_key(n@) && body_table(
                    self@,
                    proto@,
                )[n@] == a,
                None => !body_table(self@, proto@).contains_key(n@),
            },
    {
        if same_chars(n, &proto.name) {
            return Some(proto.args.len());
        }
        proof {
            lemma_first_index(names_of(self@), n@, 0);
        }
        match self.find_function(n) {
            Some(i) => Some(self.functions[i].params.len()),
            None => None,
        }
    }

    /// Adds `f` to the module, in place of a function of the same name.
    fn declare(&mut self, f: IrFunction)
        ensures
            final(self)@ == declare(old(self)@, f@),
    {
        let ghost fv = f@;
        match self.find_function(&f.name) {
            Some(i) => {
                self.functions.set(i, f);
                assert(self@ =~= old(self)@.update(i as int, fv));
            },
            None => {
                self.functions.push(f);
                assert(self@ =~= old(self)@.push(fv));
            },
        }
    }

    /// Lowers an expression of the body of a function with prototype `proto`.
    /// Nothing is emitted into the module.
    pub fn lower_expr(&self, proto: &PrototypeAst, e: &Expr) -> (r: Result<IrValue, CodegenError>)
        ensures
            ir_outcome(lower_expr(body_table(self@, proto@), proto@.args, e@), r),
        decreases e,
    {
        match e {
            Expr::Number(n) => Ok(IrValue::Const(n.val.clone())),
            Expr::Variable(v) => match find_index(&proto.args, &v.name) {
                Some(i) => Ok(IrValue::Param(i)),
                None => Err(CodegenError::UnknownVariable(v.name.clone())),
            },
            Expr::Binary(b) => {
                let l = self.lower_expr(proto, &b.lhs)?;
                let r = self.lower_expr(proto, &b.rhs)?;
                if b.op == '+' {
                    Ok(IrValue::FAdd(Box::new(l), Box::new(r)))
                } else if b.op == '-' {
                    Ok(IrValue::FSub(Box::new(l), Box::new(r)))
                } else if b.op == '*' {
                    Ok(IrValue::FMul(Box::new(l), Box::new(r)))
                } else {
                    Err(CodegenError::UnsupportedOperator(b.op))
                }
            },
            Expr::Call(c) => {
                proof {
                    lemma_call_view(*c);
                }
                let arity = match self.lookup_arity(proto, &c.callee) {
                    Some(a) => a,
                    None => {
                        return Err(CodegenError::UnknownFunction(c.callee.clone()));
                    },
                };
                if arity != c.args.len() {
                    return Err(CodegenError::ArgumentCountMismatch(c.callee.clone()));
                }
                let ghost table = body_table(self@, proto@);
                let ghost args = exprs_view(c.args@);
                let mut vals: Vec<IrValue> = Vec::new();
                let mut i: usize = 0;
                while i < c.args.len()
                    invariant
                        0 <= i <= c.args.len(),
                        table == body_table(self@, proto@),
                        args == exprs_view(c.args@),
                        *e == Expr::Call(*c),
                        e@ == ExprView::Call(c.callee@, args),
                        table.contains_key(c.callee@),
                        table[c.callee@] == args.len(),
                        lower_args(table, proto@.args, args, 0) == match lower_args(
                            table,
                            proto@.args,
                            args,
                            i as int,
                        ) {
                            Ok(vs) => Ok(irs_view(vals@) + vs),
                            Err(x) => Err(x),
                        },
                    decreases c.args.len() - i,
                {
                    proof {
                        assert(args[i as int] == c.args@[i as int]@);
                        assert(decreases_to!(c.args => c.args@[i as int]));
                    }
                    let v = self.lower_expr(proto, &c.args[i]);
                    match v {
                        Ok(x) => {
                            let ghost before = vals@;
                            let ghost xv = x@;
                            vals.push(x);
                            assert(irs_view(vals@) =~= irs_view(before).push(xv));
                            proof {
                                let rest = lower_args(table, proto@.args, args, i + 1);
                                if let Ok(vs) = rest {
                                    assert(irs_view(before) + (seq![xv] + vs) =~= irs_view(
                                        vals@,
                                    ) + vs);
                                }
                            }
                        },
                        Err(err) => {
                            return Err(err);
                        },
                    }
                    i += 1;
                }
                assert(irs_view(vals@) + seq![] =~= irs_view(vals@));
                let callee = c.callee.clone();
                proof {
                    lemma_ir_call_view(callee, vals);
                }
                Ok(IrValue::Call(callee, vals))
            },
        }
    }

    /// Lowers an `extern` declaration: the function is declared in the module,
    /// in place of one of the same name. On failure the module is unchanged.
    pub fn lower_prototype(&mut self, p: &PrototypeAst) -> (r: Result<(), CodegenError>)
        ensures
            unit_outcome(lower_prototype(old(self)@, p@), r),
            match lower_prototype(old(self)@, p@) {
                Ok(fs) => final(self)@ == fs,
                Err(_) => final(self)@ == old(self)@,
            },
    {
        if let Some(n) = find_duplicate(&p.args) {
            return Err(CodegenError::DuplicateParameter(n));
        }
        let f = IrFunction { name: p.name.clone(), params: clone_names(&p.args), body: None };
        self.declare(f);
        Ok(())
    }

    /// Lowers a function definition. The body is lowered against the module's
    /// functions and the function's own prototype; only on success is the
    /// function, with its body, put into the module, in place of one of the
    /// same name. On failure the module, and so the function table, is unchanged.
    pub fn lower_function(&mut self, f: &FunctionAst) -> (r: Result<(), CodegenError>)
        ensures
            unit_outcome(lower_function(old(self)@, f@), r),
            match lower_function(old(self)@, f@) {
                Ok(fs) => final(self)@ == fs,
                Err(_) => final(self)@ == old(self)@,
            },
            r is Err ==> table(final(self)@) == table(old(self)@),
    {
        if let Some(n) = find_duplicate(&f.proto.args) {
            return Err(CodegenError::DuplicateParameter(n));
        }
        let body = match self.lower_expr(&f.proto, &f.body) {
            Ok(v) => v,
            Err(e) => {
                return Err(e);
            },
        };
        let g = IrFunction {
            name: f.proto.name.clone(),
            params: clone_names(&f.proto.args),
            body: Some(body),
        };
        self.declare(g);
        Ok(())
    }

    /// Lowers one top-level statement into the module.
    pub fn generate_code(&mut self, item: &Function) -> (r: Result<(), CodegenError>)
        ensures
            unit_outcome(generate(old(self)@, item@), r),
            match generate(old(self)@, item@) {
                Ok(fs) => final(self)@ == fs,
                Err(_) => final(self)@ == old(self)@,
            },
    {
        match item {
            Function::Prototype(p) => self.lower_prototype(p),
            Function::Definition(f) => self.lower_function(f),
        }
    }
}

/// The prototype a top-level statement declares.
pub open spec fn declared(item: FunctionItemView) -> PrototypeView {
    match item {
        FunctionItemView::Prototype(p) => p,
        FunctionItemView::Definition(f) => f.proto,
    }
}

/// A variable that is not a parameter of the enclosing function fails to lower
/// with an unknown-variable error.
pub proof fn law_unknown_variable(
    table: Map<Seq<char>, nat>,
    params: Seq<Seq<char>>,
    n: Seq<char>,
)
    requires
        !params.contains(n),
    ensures
        lower_expr(table, params, ExprView::Variable(n)) == Err::<IrValueView, CodegenErrorView>(
            CodegenErrorView::UnknownVariable(n),
        ),
{
    lemma_first_index(params, n, 0);
    if let Some(i) = first_index(params, n, 0) {
        assert(params[i] == n);
    }
}

/// `/` is a binary operator to the parser, but a division never lowers: it
/// fails, and with an unsupported-operator error when both operands lower.
pub proof fn law_division_unsupported(
    table: Map<Seq<char>, nat>,
    params: Seq<Seq<char>>,
    l: ExprView,
    r: ExprView,
)
    ensures
        precedence(TokenView::Character('/')) == 20,
        lower_expr(table, params, ExprView::Binary('/', Box::new(l), Box::new(r))) is Err,
        lower_expr(table, params, l) is Ok && lower_expr(table, params, r) is Ok ==> lower_expr(
            table,
            params,
            ExprView::Binary('/', Box::new(l), Box::new(r)),
        ) == Err::<IrValueView, CodegenErrorView>(CodegenErrorView::UnsupportedOperator('/')),
{
}

/// A definition whose body is a variable that is not one of its parameters
/// never lowers (so the module stays as it was): the error is the unknown
/// variable, unless the prototype already names a parameter twice.
pub proof fn law_unknown_variable_in_definition(
    fs: Seq<IrFunctionView>,
    f: FunctionView,
    n: Seq<char>,
)
    requires
        f.body == ExprView::Variable(n),
        !f.proto.args.contains(n),
    ensures
        lower_function(fs, f) is Err,
        first_duplicate(f.proto.args, 0) is None ==> lower_function(fs, f) == Err::<
            Seq<IrFunctionView>,
            CodegenErrorView,
        >(CodegenErrorView::UnknownVariable(n)),
{
    law_unknown_variable(body_table(fs, f.proto), f.proto.args, n);
}

/// A definition whose body is a division never lowers.
pub proof fn law_division_in_definition(
    fs: Seq<IrFunctionView>,
    f: FunctionView,
    l: ExprView,
    r: ExprView,
)
    requires
        f.body == ExprView::Binary('/', Box::new(l), Box::new(r)),
    ensures
        lower_function(fs, f) is Err,
{
    law_division_unsupported(body_table(fs, f.proto), f.proto.args, l, r);
}

/// What a successful statement declares stays in the function table for the
/// statement after it: its name, with its number of parameters; and a call of
/// it there with that many arguments that all lower, lowers too (unless the
/// later function takes that name for itself with another arity).
pub proof fn law_declarations_persist(
    fs: Seq<IrFunctionView>,
    first: FunctionItemView,
    next: PrototypeView,
    args: Seq<ExprView>,
)
    requires
        generate(fs, first) is Ok,
    ensures
        ({
            let fs1 = generate(fs, first)->Ok_0;
            let p = declared(first);
            &&& table(fs1).contains_key(p.name)
            &&& table(fs1)[p.name] == p.args.len()
            &&& (next.name != p.name || next.args.len() == p.args.len()) && args.len()
                == p.args.len() && lower_args(body_table(fs1, next), next.args, args, 0) is Ok
                ==> lower_expr(
                body_table(fs1, next),
                next.args,
                ExprView::Call(p.name, args),
            ) is Ok
        }),
{
    let p = declared(first);
    match first {
        FunctionItemView::Prototype(q) => {
            lemma_declare_table(fs, IrFunctionView { name: q.name, params: q.args, body: None });
        },
        FunctionItemView::Definition(f) => {
            let v = lower_expr(body_table(fs, f.proto), f.proto.args, f.body)->Ok_0;
            lemma_declare_table(
                fs,
                IrFunctionView { name: f.proto.name, params: f.proto.args, body: Some(v) },
            );
        },
    }
}

} // verus!
