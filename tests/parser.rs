use kaleidoscope::ast::{Expr, Function, FunctionAst, PrototypeAst};
use kaleidoscope::lexer::{Lexer, Token};
use kaleidoscope::parser::{ParseError, Parser};

fn chars(s: &str) -> Vec<char> {
    s.chars().collect()
}

fn text(v: &[char]) -> String {
    v.iter().collect()
}

fn parser_on(input: &str) -> Parser {
    let mut p = Parser::new(Lexer::new());
    p.set_buffer(String::from(input));
    p
}

fn statement(input: &str) -> Result<Option<Function>, ParseError> {
    parser_on(input).parse_statement()
}

fn top_level_body(input: &str) -> Expr {
    match statement(input) {
        Ok(Some(Function::Definition(f))) => {
            assert!(f.proto.name.is_empty());
            assert!(f.proto.args.is_empty());
            f.body
        }
        _ => panic!("expected a top-level expression"),
    }
}

/// The tree in fully parenthesised form.
fn show(e: &Expr) -> String {
    match e {
        Expr::Number(n) => text(&n.val),
        Expr::Variable(v) => text(&v.name),
        Expr::Binary(b) => format!("({}{}{})", show(&b.lhs), b.op, show(&b.rhs)),
        Expr::Call(c) => {
            let args: Vec<String> = c.args.iter().map(show).collect();
            format!("{}[{}]", text(&c.callee), args.join(","))
        }
    }
}

#[test]
fn multiplication_binds_tighter() {
    let e = top_level_body("1+2*3");
    match &e {
        Expr::Binary(b) => {
            assert_eq!(b.op, '+');
            match &*b.rhs {
                Expr::Binary(r) => assert_eq!(r.op, '*'),
                _ => panic!("right child is not a binary node"),
            }
        }
        _ => panic!("root is not a binary node"),
    }
    assert_eq!(show(&e), "(1+(2*3))");
}

#[test]
fn equal_precedence_is_left_associative() {
    assert_eq!(show(&top_level_body("1-2-3")), "((1-2)-3)");
    assert_eq!(show(&top_level_body("8/4*2")), "((8/4)*2)");
}

#[test]
fn parentheses_override_precedence() {
    let e = top_level_body("(1+2)*3");
    match &e {
        Expr::Binary(b) => {
            assert_eq!(b.op, '*');
            match &*b.lhs {
                Expr::Binary(l) => assert_eq!(l.op, '+'),
                _ => panic!("left child is not a binary node"),
            }
        }
        _ => panic!("root is not a binary node"),
    }
    assert_eq!(show(&e), "((1+2)*3)");
}

#[test]
fn division_parses() {
    assert_eq!(show(&top_level_body("a/b+c")), "((a/b)+c)");
}

#[test]
fn mixed_precedence_chain() {
    assert_eq!(show(&top_level_body("a+b*c-d")), "((a+(b*c))-d)");
    assert_eq!(show(&top_level_body("a*b+c*d")), "((a*b)+(c*d))");
}

#[test]
fn calls_and_variables() {
    assert_eq!(show(&top_level_body("foo(1, x+2, bar())")), "foo[1,(x+2),bar[]]");
    assert_eq!(show(&top_level_body("y")), "y");
}

#[test]
fn definition_and_extern() {
    match statement("def f(x, y) x*y") {
        Ok(Some(Function::Definition(FunctionAst { proto, body }))) => {
            assert_eq!(proto.name, chars("f"));
            assert_eq!(proto.args, vec![chars("x"), chars("y")]);
            assert_eq!(show(&body), "(x*y)");
        }
        _ => panic!("expected a definition"),
    }
    match statement("extern sin(a)") {
        Ok(Some(Function::Prototype(PrototypeAst { name, args }))) => {
            assert_eq!(name, chars("sin"));
            assert_eq!(args, vec![chars("a")]);
        }
        _ => panic!("expected a declaration"),
    }
    match statement("extern now()") {
        Ok(Some(Function::Prototype(p))) => assert!(p.args.is_empty()),
        _ => panic!("expected a declaration"),
    }
}

#[test]
fn statements_in_sequence_and_separators() {
    let mut p = parser_on(";; def one() 1; one() ;");
    assert!(matches!(p.parse_statement(), Ok(Some(Function::Definition(_)))));
    match p.parse_statement() {
        Ok(Some(Function::Definition(f))) => assert_eq!(show(&f.body), "one[]"),
        _ => panic!("expected a top-level expression"),
    }
    assert!(matches!(p.parse_statement(), Ok(None)));
    assert!(matches!(p.parse_statement(), Ok(None)));
}

#[test]
fn empty_input_has_no_statement() {
    assert!(matches!(statement(""), Ok(None)));
    assert!(matches!(statement("  # nothing\n"), Ok(None)));
}

#[test]
fn parse_errors() {
    let ch = Token::Character;
    assert_eq!(statement(")").err(), Some(ParseError::UnexpectedToken(ch(')'))));
    assert_eq!(statement("1 +").err(), Some(ParseError::UnexpectedToken(Token::Eof)));
    assert_eq!(statement("1 + def").err(), Some(ParseError::UnexpectedToken(Token::Def)));
    assert_eq!(statement("(1").err(), Some(ParseError::ExpectedCloseParen(Token::Eof)));
    assert_eq!(statement("(1 x").err(), Some(ParseError::ExpectedCloseParen(Token::Identifier(chars("x")))));
    assert_eq!(statement("f(1 2)").err(), Some(ParseError::ExpectedComma(Token::Number(chars("2")))));
    assert_eq!(statement("f(1, 2").err(), Some(ParseError::ExpectedCloseParen(Token::Eof)));
    assert_eq!(statement("f(").err(), Some(ParseError::UnexpectedToken(Token::Eof)));
    assert_eq!(statement("extern 1()").err(), Some(ParseError::ExpectedIdentifier(Token::Number(chars("1")))));
    assert_eq!(statement("extern f(x,)").err(), Some(ParseError::ExpectedIdentifier(ch(')'))));
    assert_eq!(statement("extern f x").err(), Some(ParseError::ExpectedOpenParen(Token::Identifier(chars("x")))));
    assert_eq!(statement("def f(x y) x").err(), Some(ParseError::ExpectedCloseParen(Token::Identifier(chars("y")))));
}

#[test]
fn second_decimal_point_ends_the_number() {
    assert_eq!(show(&top_level_body("x + 1.2.3")), "(x+1.2)");
    let mut p = parser_on("x + 1.2.3");
    assert!(p.parse_statement().is_ok());
    assert_eq!(*p.current_token(), Token::Character('.'));
    assert_eq!(p.parse_statement().err(), Some(ParseError::UnexpectedToken(Token::Character('.'))));
}

#[test]
fn operator_precedence_table() {
    let cases = [("+", 10), ("-", 10), ("*", 20), ("/", 20), ("<", -1), ("x", -1)];
    for (op, prec) in cases {
        let p = parser_on(op);
        assert_eq!(p.get_op_precedence(), prec, "{}", op);
    }
}
