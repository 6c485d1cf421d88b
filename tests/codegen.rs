use kaleidoscope::ast::{Expr, Function, PrototypeAst, VariableExprAst};
use kaleidoscope::codegen::{create_context, CodeGenContext, CodegenError, IrValue};
use kaleidoscope::lexer::Lexer;
use kaleidoscope::parser::Parser;

fn chars(s: &str) -> Vec<char> {
    s.chars().collect()
}

fn text(v: &[char]) -> String {
    v.iter().collect()
}

fn parse(input: &str) -> Function {
    let mut p = Parser::new(Lexer::new());
    p.set_buffer(String::from(input));
    p.parse_statement().unwrap().unwrap()
}

fn run(ctx: &mut CodeGenContext, input: &str) -> Result<(), CodegenError> {
    ctx.generate_code(&parse(input))
}

fn show(v: &IrValue) -> String {
    match v {
        IrValue::Const(t) => text(t),
        IrValue::Param(i) => format!("%{}", i),
        IrValue::FAdd(a, b) => format!("fadd({}, {})", show(a), show(b)),
        IrValue::FSub(a, b) => format!("fsub({}, {})", show(a), show(b)),
        IrValue::FMul(a, b) => format!("fmul({}, {})", show(a), show(b)),
        IrValue::Call(f, args) => {
            let args: Vec<String> = args.iter().map(show).collect();
            format!("call {}({})", text(f), args.join(", "))
        }
    }
}

fn names(ctx: &CodeGenContext) -> Vec<String> {
    ctx.functions.iter().map(|f| text(&f.name)).collect()
}

#[test]
fn unknown_variable_fails() {
    let ctx = create_context();
    let proto = PrototypeAst::new(chars("f"), vec![chars("x")]);
    let e = Expr::Variable(VariableExprAst::new(chars("y")));
    assert_eq!(ctx.lower_expr(&proto, &e).err(), Some(CodegenError::UnknownVariable(chars("y"))));
    assert!(ctx.functions.is_empty());
    let e = Expr::Variable(VariableExprAst::new(chars("x")));
    assert!(matches!(ctx.lower_expr(&proto, &e), Ok(IrValue::Param(0))));
}

#[test]
fn definition_with_unknown_variable_keeps_module() {
    let mut ctx = create_context();
    assert_eq!(run(&mut ctx, "def f(x) y"), Err(CodegenError::UnknownVariable(chars("y"))));
    assert!(ctx.functions.is_empty());
}

#[test]
fn failed_definition_leaves_table_unchanged() {
    let mut ctx = create_context();
    run(&mut ctx, "extern sin(x)").unwrap();
    assert_eq!(
        run(&mut ctx, "def g(x) nope(x)"),
        Err(CodegenError::UnknownFunction(chars("nope")))
    );
    assert_eq!(names(&ctx), vec!["sin"]);
    assert_eq!(run(&mut ctx, "g(1)"), Err(CodegenError::UnknownFunction(chars("g"))));
    assert_eq!(names(&ctx), vec!["sin"]);
}

#[test]
fn failed_redefinition_keeps_old_function() {
    let mut ctx = create_context();
    run(&mut ctx, "def f(x) x+1").unwrap();
    assert_eq!(run(&mut ctx, "def f(x) x/2"), Err(CodegenError::UnsupportedOperator('/')));
    assert_eq!(ctx.functions.len(), 1);
    assert_eq!(show(ctx.functions[0].body.as_ref().unwrap()), "fadd(%0, 1)");
}

#[test]
fn division_is_unsupported() {
    let mut ctx = create_context();
    assert_eq!(run(&mut ctx, "4/2"), Err(CodegenError::UnsupportedOperator('/')));
    assert!(ctx.functions.is_empty());
    // an operand's own error comes first
    assert_eq!(run(&mut ctx, "z/2"), Err(CodegenError::UnknownVariable(chars("z"))));
}

#[test]
fn declarations_persist_between_statements() {
    let mut ctx = create_context();
    run(&mut ctx, "extern cos(x)").unwrap();
    run(&mut ctx, "def twice(x) cos(x)*2").unwrap();
    run(&mut ctx, "twice(3)-1").unwrap();
    assert_eq!(names(&ctx), vec!["cos", "twice", ""]);
    assert!(ctx.functions[0].body.is_none());
    assert_eq!(show(ctx.functions[1].body.as_ref().unwrap()), "fmul(call cos(%0), 2)");
    assert_eq!(show(ctx.functions[2].body.as_ref().unwrap()), "fsub(call twice(3), 1)");
}

#[test]
fn arithmetic_lowering() {
    let mut ctx = create_context();
    run(&mut ctx, "def f(a, b) a+b*a-b").unwrap();
    assert_eq!(ctx.functions[0].params, vec![chars("a"), chars("b")]);
    assert_eq!(
        show(ctx.functions[0].body.as_ref().unwrap()),
        "fsub(fadd(%0, fmul(%1, %0)), %1)"
    );
}

#[test]
fn recursive_call_resolves() {
    let mut ctx = create_context();
    run(&mut ctx, "def f(n) f(n-1)").unwrap();
    assert_eq!(show(ctx.functions[0].body.as_ref().unwrap()), "call f(fsub(%0, 1))");
}

#[test]
fn argument_count_must_match() {
    let mut ctx = create_context();
    run(&mut ctx, "extern pow(a, b)").unwrap();
    assert_eq!(run(&mut ctx, "pow(1)"), Err(CodegenError::ArgumentCountMismatch(chars("pow"))));
    run(&mut ctx, "pow(1, 2)").unwrap();
}

#[test]
fn first_failing_argument_wins() {
    let mut ctx = create_context();
    run(&mut ctx, "extern h(a, b)").unwrap();
    assert_eq!(run(&mut ctx, "h(p, q)"), Err(CodegenError::UnknownVariable(chars("p"))));
}

#[test]
fn duplicate_parameters_are_rejected() {
    let mut ctx = create_context();
    assert_eq!(
        run(&mut ctx, "extern d(a, b, a)"),
        Err(CodegenError::DuplicateParameter(chars("a")))
    );
    assert_eq!(run(&mut ctx, "def e(x, x) x"), Err(CodegenError::DuplicateParameter(chars("x"))));
    assert!(ctx.functions.is_empty());
}

#[test]
fn redeclaration_replaces() {
    let mut ctx = create_context();
    run(&mut ctx, "extern f(a)").unwrap();
    run(&mut ctx, "def f(a, b) a").unwrap();
    assert_eq!(names(&ctx), vec!["f"]);
    assert_eq!(ctx.functions[0].params.len(), 2);
    assert_eq!(run(&mut ctx, "f(1)"), Err(CodegenError::ArgumentCountMismatch(chars("f"))));
}
