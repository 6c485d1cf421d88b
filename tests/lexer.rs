use kaleidoscope::lexer::{Lexer, Token};

fn chars(s: &str) -> Vec<char> {
    s.chars().collect()
}

fn number_value(t: &Token) -> f64 {
    match t {
        Token::Number(text) => text.iter().collect::<String>().parse::<f64>().unwrap(),
        _ => panic!("not a number token: {:?}", t),
    }
}

fn lex_all(input: &str) -> Vec<Token> {
    let mut lexer = Lexer::new();
    lexer.set_buffer(String::from(input));
    let mut out = vec![];
    loop {
        let t = lexer.get_token();
        let end = t == Token::Eof;
        out.push(t);
        if end {
            return out;
        }
    }
}

#[test]
fn test_get_token() {
    let input = String::from("a ä+b 0.3 0.33#abc\ndef");
    let mut lexer = Lexer::new();
    lexer.set_buffer(input);
    assert_eq!(lexer.get_token(), Token::Identifier(chars("a")));

    assert_eq!(lexer.get_token(), Token::Character('ä'));

    assert_eq!(lexer.get_token(), Token::Character('+'));

    assert_eq!(lexer.get_token(), Token::Identifier(chars("b")));

    let t = lexer.get_token();
    assert_eq!(number_value(&t), 0.3);

    let t = lexer.get_token();
    assert_eq!(number_value(&t), 0.33);

    assert_eq!(lexer.get_token(), Token::Def);

    assert_eq!(lexer.get_token(), Token::Eof);
}

#[test]
fn comment_contributes_no_tokens() {
    let toks = lex_all("1.5 + foo(2, 3) # c\n");
    assert_eq!(toks.len(), 9);
    assert_eq!(number_value(&toks[0]), 1.5);
    assert_eq!(toks[1], Token::Character('+'));
    assert_eq!(toks[2], Token::Identifier(chars("foo")));
    assert_eq!(toks[3], Token::Character('('));
    assert_eq!(number_value(&toks[4]), 2.0);
    assert_eq!(toks[5], Token::Character(','));
    assert_eq!(number_value(&toks[6]), 3.0);
    assert_eq!(toks[7], Token::Character(')'));
    assert_eq!(toks[8], Token::Eof);
}

#[test]
fn keywords_and_identifiers() {
    let toks = lex_all("extern def define x1");
    assert_eq!(
        toks,
        vec![
            Token::Extern,
            Token::Def,
            Token::Identifier(chars("define")),
            Token::Identifier(chars("x1")),
            Token::Eof
        ]
    );
}

#[test]
fn empty_and_blank_input_is_eof() {
    assert_eq!(lex_all(""), vec![Token::Eof]);
    assert_eq!(lex_all(" \t\r\n\u{3000}"), vec![Token::Eof]);
    assert_eq!(lex_all("# only a comment"), vec![Token::Eof]);
}

#[test]
fn eof_repeats_at_end() {
    let mut lexer = Lexer::new();
    lexer.set_buffer(String::from("x"));
    assert_eq!(lexer.get_token(), Token::Identifier(chars("x")));
    assert_eq!(lexer.get_token(), Token::Eof);
    assert_eq!(lexer.get_token(), Token::Eof);
}

#[test]
fn new_buffer_restarts_lexing() {
    let mut lexer = Lexer::new();
    lexer.set_buffer(String::from("a"));
    assert_eq!(lexer.get_token(), Token::Identifier(chars("a")));
    assert_eq!(lexer.get_token(), Token::Eof);
    lexer.set_buffer(String::from("b"));
    assert_eq!(lexer.get_token(), Token::Identifier(chars("b")));
}

#[test]
fn number_takes_at_most_one_point() {
    let mut lexer = Lexer::new();
    lexer.set_buffer(String::from("1.2.3 x"));
    let t = lexer.get_token();
    assert_eq!(t, Token::Number(chars("1.2")));
    assert_eq!(number_value(&t), 1.2);
    assert_eq!(lexer.get_token(), Token::Character('.'));
    assert_eq!(lexer.get_token(), Token::Number(chars("3")));
    assert_eq!(lexer.get_token(), Token::Identifier(chars("x")));
}

#[test]
fn number_with_trailing_point() {
    let toks = lex_all("7. 0..5");
    assert_eq!(
        toks,
        vec![
            Token::Number(chars("7.")),
            Token::Number(chars("0.")),
            Token::Character('.'),
            Token::Number(chars("5")),
            Token::Eof
        ]
    );
    assert_eq!(number_value(&toks[0]), 7.0);
}

#[test]
fn number_ends_at_a_letter() {
    let toks = lex_all("12ab");
    assert_eq!(toks, vec![Token::Number(chars("12")), Token::Identifier(chars("ab")), Token::Eof]);
}

#[test]
fn tokenize_reads_to_end() {
    let mut lexer = Lexer::new();
    lexer.set_buffer(String::from("def f(x) x*2"));
    let toks = lexer.tokenize();
    assert_eq!(toks.len(), 9);
    assert_eq!(toks[0], Token::Def);
    assert_eq!(toks[7], Token::Number(chars("2")));
    assert_eq!(toks[8], Token::Eof);
}

#[test]
fn comment_before_line_break_changes_no_token() {
    for (s, t) in [("1.5 + foo(2, 3) ", " c"), ("x", ""), ("", "def 1"), ("a b 2.", "#x")] {
        let mut with = Lexer::new();
        with.set_buffer(format!("{}#{}\n", s, t));
        let mut without = Lexer::new();
        without.set_buffer(format!("{}\n", s));
        assert_eq!(with.tokenize(), without.tokenize(), "{:?} {:?}", s, t);
    }
}
