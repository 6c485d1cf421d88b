use vstd::prelude::*;

use crate::ast::{
    exprs_view, lemma_call_view, names_view, BinaryExprAst, Expr, ExprView, Function,
    FunctionAst, FunctionCallExprAst, FunctionItemView, FunctionView, NumberExprAst, PrototypeAst,
    PrototypeView, VariableExprAst,
};
use crate::lexer::{clone_token, lemma_lex_progress, lex, Lexer, Token, TokenView};

verus! {

/// Why a top-level statement could not be parsed, with the token met where
/// the grammar wanted something else.
#[derive(Debug, PartialEq, Clone)]
pub enum ParseError {
    /// A token that cannot start an expression.
    UnexpectedToken(Token),
    ExpectedCloseParen(Token),
    /// Two call arguments not separated by a comma.
    ExpectedComma(Token),
    ExpectedIdentifier(Token),
    ExpectedOpenParen(Token),
}

pub ghost enum ParseErrorView {
    UnexpectedToken(TokenView),
    ExpectedCloseParen(TokenView),
    ExpectedComma(TokenView),
    ExpectedIdentifier(TokenView),
    ExpectedOpenParen(TokenView),
}

impl View for ParseError {
    type V = ParseErrorView;

    open spec fn view(&self) -> ParseErrorView {
        match self {
            ParseError::UnexpectedToken(t) => ParseErrorView::UnexpectedToken(t@),
            ParseError::ExpectedCloseParen(t) => ParseErrorView::ExpectedCloseParen(t@),
            ParseError::ExpectedComma(t) => ParseErrorView::ExpectedComma(t@),
            ParseError::ExpectedIdentifier(t) => ParseErrorView::ExpectedIdentifier(t@),
            ParseError::ExpectedOpenParen(t) => ParseErrorView::ExpectedOpenParen(t@),
        }
    }
}

/// Where a parser stands in a text: the index just past the current token, and
/// that token.
pub ghost struct ParseState {
    pub pos: int,
    pub cur: TokenView,
}

/// Decreases with every token consumed, down to the end of the input.
pub open spec fn measure(s: Seq<char>, st: ParseState) -> nat {
    if 0 <= st.pos <= s.len() {
        (2 * (s.len() - st.pos) + if st.cur is Eof {
            0int
        } else {
            1int
        }) as nat
    } else {
        0
    }
}

pub open spec fn smaller(s: Seq<char>, a: ParseState, b: ParseState) -> bool {
    0 <= a.pos <= s.len() && measure(s, a) < measure(s, b)
}

/// The state after consuming the current token.
pub open spec fn advance(s: Seq<char>, st: ParseState) -> ParseState {
    let (t, p) = lex(s, st.pos);
    ParseState { pos: p, cur: t }
}

/// The binding strength of a binary operator token; -1 for any other token.
pub open spec fn precedence(t: TokenView) -> int {
    match t {
        TokenView::Character(c) => if c == '+' || c == '-' {
            10
        } else if c == '*' || c == '/' {
            20
        } else {
            -1
        },
        _ => -1,
    }
}

pub open spec fn is_char(t: TokenView, c: char) -> bool {
    t == TokenView::Character(c)
}

pub proof fn lemma_advance(s: Seq<char>, st: ParseState)
    requires
        0 <= st.pos <= s.len(),
    ensures
        0 <= advance(s, st).pos <= s.len(),
        !(st.cur is Eof) ==> smaller(s, advance(s, st), st),
{
    lemma_lex_progress(s, st.pos);
}

/// `numberexpr ::= number`
pub open spec fn parse_number_expr(s: Seq<char>, st: ParseState) -> Result<
    (ExprView, ParseState),
    ParseErrorView,
>
    decreases measure(s, st), 3nat,
{
    match st.cur {
        TokenView::Number(t) => Ok((ExprView::Number(t), advance(s, st))),
        _ => Err(ParseErrorView::UnexpectedToken(st.cur)),
    }
}

/// `parenexpr ::= '(' expr ')'`
pub open spec fn parse_parenthesis_expr(s: Seq<char>, st: ParseState) -> Result<
    (ExprView, ParseState),
    ParseErrorView,
>
    decreases measure(s, st), 3nat,
{
    let st1 = advance(s, st);
    if smaller(s, st1, st) {
        match parse_expr(s, st1) {
            Err(e) => Err(e),
            Ok((e, st2)) => if is_char(st2.cur, ')') {
                Ok((e, advance(s, st2)))
            } else {
                Err(ParseErrorView::ExpectedCloseParen(st2.cur))
            },
        }
    } else {
        Err(ParseErrorView::UnexpectedToken(st.cur))
    }
}

/// `identifierexpr ::= identifier | identifier '(' (expr (',' expr)*)? ')'`
pub open spec fn parse_identifier_expr(s: Seq<char>, st: ParseState) -> Result<
    (ExprView, ParseState),
    ParseErrorView,
>
    decreases measure(s, st), 3nat,
{
    match st.cur {
        TokenView::Identifier(name) => {
            let st1 = advance(s, st);
            if !is_char(st1.cur, '(') {
                Ok((ExprView::Variable(name), st1))
            } else {
                let st2 = advance(s, st1);
                if is_char(st2.cur, ')') {
                    Ok((ExprView::Call(name, seq![]), advance(s, st2)))
                } else if smaller(s, st2, st) {
                    parse_call_args(s, st2, name, seq![])
                } else {
                    Err(ParseErrorView::UnexpectedToken(st2.cur))
                }
            }
        },
        _ => Err(ParseErrorView::UnexpectedToken(st.cur)),
    }
}

/// The arguments of a call from the current token on, after the arguments
/// `acc`. The end of input before `)` is a missing `)`; any other token
/// between two arguments is a missing comma.
pub open spec fn parse_call_args(
    s: Seq<char>,
    st: ParseState,
    name: Seq<char>,
    acc: Seq<ExprView>,
) -> Result<(ExprView, ParseState), ParseErrorView>
    decreases measure(s, st), 6nat,
{
    match parse_expr(s, st) {
        Err(e) => Err(e),
        Ok((e, st1)) => if is_char(st1.cur, ')') {
            Ok((ExprView::Call(name, acc.push(e)), advance(s, st1)))
        } else if is_char(st1.cur, ',') {
            let st2 = advance(s, st1);
            if smaller(s, st2, st) {
                parse_call_args(s, st2, name, acc.push(e))
            } else {
                Err(ParseErrorView::UnexpectedToken(st2.cur))
            }
        } else if st1.cur is Eof {
            Err(ParseErrorView::ExpectedCloseParen(st1.cur))
        } else {
            Err(ParseErrorView::ExpectedComma(st1.cur))
        },
    }
}

/// `primary ::= numberexpr | identifierexpr | parenexpr`
pub open spec fn parse_primary(s: Seq<char>, st: ParseState) -> Result<
    (ExprView, ParseState),
    ParseErrorView,
>
    decreases measure(s, st), 4nat,
{
    match st.cur {
        TokenView::Number(_) => parse_number_expr(s, st),
        TokenView::Identifier(_) => parse_identifier_expr(s, st),
        TokenView::Character(c) => if c == '(' {
            parse_parenthesis_expr(s, st)
        } else {
            Err(ParseErrorView::UnexpectedToken(st.cur))
        },
        _ => Err(ParseErrorView::UnexpectedToken(st.cur)),
    }
}

/// Precedence climbing: extends `lhs` with the operators, and their right
/// operands, that bind tighter than `prec`. An operator binds its right
/// operand to a later operator only if that one binds strictly tighter, so
/// operators of equal precedence group to the left.
pub open spec fn parse_binary_op_rhs(
    s: Seq<char>,
    st: ParseState,
    prec: int,
    lhs: ExprView,
) -> Result<(ExprView, ParseState), ParseErrorView>
    decreases measure(s, st), 2nat,
{
    let tp = precedence(st.cur);
    if tp <= prec {
        Ok((lhs, st))
    } else {
        match st.cur {
            TokenView::Character(op) => {
                let st1 = advance(s, st);
                if smaller(s, st1, st) {
                    match parse_primary(s, st1) {
                        Err(e) => Err(e),
                        Ok((rhs, st2)) => if !smaller(s, st2, st) {
                            Err(ParseErrorView::UnexpectedToken(st2.cur))
                        } else if tp < precedence(st2.cur) {
                            match parse_binary_op_rhs(s, st2, tp, rhs) {
                                Err(e) => Err(e),
                                Ok((rhs2, st3)) => if smaller(s, st3, st) {
                                    parse_binary_op_rhs(
                                        s,
                                        st3,
                                        prec,
                                        ExprView::Binary(op, Box::new(lhs), Box::new(rhs2)),
                                    )
                                } else {
                                    Err(ParseErrorView::UnexpectedToken(st3.cur))
                                },
                            }
                        } else {
                            parse_binary_op_rhs(
                                s,
                                st2,
                                prec,
                                ExprView::Binary(op, Box::new(lhs), Box::new(rhs)),
                            )
                        },
                    }
                } else {
                    Err(ParseErrorView::UnexpectedToken(st1.cur))
                }
            },
            _ => Ok((lhs, st)),
        }
    }
}

/// `expr ::= primary binoprhs`
pub open spec fn parse_expr(s: Seq<char>, st: ParseState) -> Result<
    (ExprView, ParseState),
    ParseErrorView,
>
    decreases measure(s, st), 5nat,
{
    match parse_primary(s, st) {
        Err(e) => Err(e),
        Ok((lhs, st1)) => if smaller(s, st1, st) {
            parse_binary_op_rhs(s, st1, 0, lhs)
        } else {
            Err(ParseErrorView::UnexpectedToken(st1.cur))
        },
    }
}

/// The parameters of a prototype from the current token on, after the
/// parameters `acc`: `identifier (',' identifier)* ')'`.
pub open spec fn parse_params(
    s: Seq<char>,
    st: ParseState,
    name: Seq<char>,
    acc: Seq<Seq<char>>,
) -> Result<(PrototypeView, ParseState), ParseErrorView>
    decreases measure(s, st),
{
    match st.cur {
        TokenView::Identifier(p) => {
            let st1 = advance(s, st);
            if is_char(st1.cur, ')') {
                Ok((PrototypeView { name, args: acc.push(p) }, advance(s, st1)))
            } else if is_char(st1.cur, ',') {
                let st2 = advance(s, st1);
                if smaller(s, st2, st) {
                    parse_params(s, st2, name, acc.push(p))
                } else {
                    Err(ParseErrorView::ExpectedIdentifier(st2.cur))
                }
            } else {
                Err(ParseErrorView::ExpectedCloseParen(st1.cur))
            }
        },
        _ => Err(ParseErrorView::ExpectedIdentifier(st.cur)),
    }
}

/// `prototype ::= identifier '(' (identifier (',' identifier)*)? ')'`
pub open spec fn parse_prototype(s: Seq<char>, st: ParseState) -> Result<
    (PrototypeView, ParseState),
    ParseErrorView,
> {
    match st.cur {
        TokenView::Identifier(name) => {
            let st1 = advance(s, st);
            if !is_char(st1.cur, '(') {
                Err(ParseErrorView::ExpectedOpenParen(st1.cur))
            } else {
                let st2 = advance(s, st1);
                if is_char(st2.cur, ')') {
                    Ok((PrototypeView { name, args: seq![] }, advance(s, st2)))
                } else {
                    parse_params(s, st2, name, seq![])
                }
            }
        },
        _ => Err(ParseErrorView::ExpectedIdentifier(st.cur)),
    }
}

/// `definition ::= 'def' prototype expr`, from the `def` token on.
pub open spec fn parse_def(s: Seq<char>, st: ParseState) -> Result<
    (FunctionView, ParseState),
    ParseErrorView,
> {
    match parse_prototype(s, advance(s, st)) {
        Err(e) => Err(e),
        Ok((proto, st2)) => match parse_expr(s, st2) {
            Err(e) => Err(e),
            Ok((body, st3)) => Ok((FunctionView { proto, body }, st3)),
        },
    }
}

/// `external ::= 'extern' prototype`, from the `extern` token on.
pub open spec fn parse_extern(s: Seq<char>, st: ParseState) -> Result<
    (PrototypeView, ParseState),
    ParseErrorView,
> {
    parse_prototype(s, advance(s, st))
}

/// The prototype of a top-level expression: no name, no parameters.
pub open spec fn anonymous_prototype() -> PrototypeView {
    PrototypeView { name: seq![], args: seq![] }
}

/// `toplevelexpr ::= expr`, wrapped as a function with the anonymous prototype.
pub open spec fn parse_top_level_expr(s: Seq<char>, st: ParseState) -> Result<
    (FunctionView, ParseState),
    ParseErrorView,
> {
    match parse_expr(s, st) {
        Err(e) => Err(e),
        Ok((body, st1)) => Ok((FunctionView { proto: anonymous_prototype(), body }, st1)),
    }
}

/// The next top-level statement: `None` at the end of the input; `;` tokens
/// are skipped.
pub open spec fn parse_statement(s: Seq<char>, st: ParseState) -> Result<
    (Option<FunctionItemView>, ParseState),
    ParseErrorView,
>
    decreases measure(s, st),
{
    match st.cur {
        TokenView::Eof => Ok((None, st)),
        TokenView::Def => match parse_def(s, st) {
            Ok((f, st1)) => Ok((Some(FunctionItemView::Definition(f)), st1)),
            Err(e) => Err(e),
        },
        TokenView::Extern => match parse_extern(s, st) {
            Ok((p, st1)) => Ok((Some(FunctionItemView::Prototype(p)), st1)),
            Err(e) => Err(e),
        },
        _ => if is_char(st.cur, ';') {
            let st1 = advance(s, st);
            if smaller(s, st1, st) {
                parse_statement(s, st1)
            } else {
                Err(ParseErrorView::UnexpectedToken(st1.cur))
            }
        } else {
            match parse_top_level_expr(s, st) {
                Ok((f, st1)) => Ok((Some(FunctionItemView::Definition(f)), st1)),
                Err(e) => Err(e),
            }
        },
    }
}

pub open spec fn statement_view(x: Option<Function>) -> Option<FunctionItemView> {
    match x {
        Some(g) => Some(g@),
        None => None,
    }
}

/// Whether a parse result agrees with the mathematical parse `spec_result`,
/// `after` being where the parser then stands.
pub open spec fn expr_outcome(
    spec_result: Result<(ExprView, ParseState), ParseErrorView>,
    r: Result<Expr, ParseError>,
    after: ParseState,
) -> bool {
    match spec_result {
        Ok((e, st)) => r matches Ok(x) && x@ == e && after == st,
        Err(err) => r matches Err(x) && x@ == err,
    }
}

/// A recursive-descent parser over the tokens of a [`Lexer`], one token of
/// lookahead.
pub struct Parser {
    lexer: Lexer,
    cur_token: Token,
}

impl Parser {
    /// The cursor stands within the text.
    pub closed spec fn wf(&self) -> bool {
        self.lexer.wf()
    }

    /// The text being parsed.
    pub closed spec fn text(&self) -> Seq<char> {
        self.lexer.buffer@
    }

    /// Where the parser stands in [`Parser::text`].
    pub closed spec fn state(&self) -> ParseState {
        ParseState { pos: self.lexer.pos as int, cur: self.cur_token@ }
    }

    /// A parser over the text of `lexer`, from its cursor on (from the end of
    /// the text if the cursor is past it); no token has been read yet.
    pub fn new(lexer: Lexer) -> (r: Parser)
        ensures
            r.wf(),
            r.text() == lexer.buffer@,
            r.state() == (ParseState {
                pos: if lexer.pos <= lexer.buffer.len() {
                    lexer.pos as int
                } else {
                    lexer.buffer.len() as int
                },
                cur: TokenView::Eof,
            }),
    {
        let mut lexer = lexer;
        if lexer.pos > lexer.buffer.len() {
            lexer.pos = lexer.buffer.len();
        }
        Parser { lexer, cur_token: Token::Eof }
    }

    /// The token the parser stands on.
    pub fn current_token(&self) -> (r: &Token)
        ensures
            r@ == self.state().cur,
    {
        &self.cur_token
    }

    fn read_token(&mut self)
        requires
            old(self).wf(),
        ensures
            final(self).wf(),
            final(self).text() == old(self).text(),
            final(self).state() == advance(old(self).text(), old(self).state()),
            !(old(self).cur_token@ is Eof) ==> smaller(
                old(self).text(),
                final(self).state(),
                old(self).state(),
            ),
    {
        proof {
            lemma_advance(self.text(), self.state());
        }
        self.cur_token = self.lexer.get_token();
    }

    fn cur_is(&self, c: char) -> (r: bool)
        ensures
            r == is_char(self.cur_token@, c),
    {
        match self.cur_token {
            Token::Character(d) => d == c,
            _ => false,
        }
    }

    /// The precedence of the current token as a binary operator, -1 if it is none.
    pub fn get_op_precedence(&self) -> (r: i8)
        ensures
            r as int == precedence(self.state().cur),
    {
        match self.cur_token {
            Token::Character(c) => if c == '+' || c == '-' {
                10
            } else if c == '*' || c == '/' {
                20
            } else {
                -1
            },
            _ => -1,
        }
    }

    fn parse_number_expr(&mut self) -> (r: Result<Expr, ParseError>)
        requires
            old(self).wf(),
        ensures
            final(self).wf(),
            final(self).text() == old(self).text(),
            expr_outcome(parse_number_expr(old(self).text(), old(self).state()), r, final(self).state()),
            r is Ok ==> smaller(old(self).text(), final(self).state(), old(self).state()),
        decreases measure(old(self).text(), old(self).state()), 3nat,
    {
        let val = match &self.cur_token {
            Token::Number(t) => t.clone(),
            _ => {
                return Err(ParseError::UnexpectedToken(clone_token(&self.cur_token)));
            },
        };
        self.read_token();
        Ok(Expr::Number(NumberExprAst::new(val)))
    }

    fn parse_parenthesis_expr(&mut self) -> (r: Result<Expr, ParseError>)
        requires
            old(self).wf(),
            !(old(self).cur_token@ is Eof),
        ensures
            final(self).wf(),
            final(self).text() == old(self).text(),
            expr_outcome(
                parse_parenthesis_expr(old(self).text(), old(self).state()),
                r,
                final(self).state(),
            ),
            r is Ok ==> smaller(old(self).text(), final(self).state(), old(self).state()),
        decreases measure(old(self).text(), old(self).state()), 3nat,
    {
        self.read_token();
        let e = self.parse_expr()?;
        if !self.cur_is(')') {
            return Err(ParseError::ExpectedCloseParen(clone_token(&self.cur_token)));
        }
        self.read_token();
        Ok(e)
    }

    fn parse_identifier_expr(&mut self) -> (r: Result<Expr, ParseError>)
        requires
            old(self).wf(),
        ensures
            final(self).wf(),
            final(self).text() == old(self).text(),
            expr_outcome(
                parse_identifier_expr(old(self).text(), old(self).state()),
                r,
                final(self).state(),
            ),
            r is Ok ==> smaller(old(self).text(), final(self).state(), old(self).state()),
        decreases measure(old(self).text(), old(self).state()), 3nat,
    {
        let name = match &self.cur_token {
            Token::Identifier(n) => n.clone(),
            _ => {
                return Err(ParseError::UnexpectedToken(clone_token(&self.cur_token)));
            },
        };
        self.read_token();
        if !self.cur_is('(') {
            return Ok(Expr::Variable(VariableExprAst::new(name)));
        }
        self.read_token();
        if self.cur_is(')') {
            self.read_token();
            let c = FunctionCallExprAst::new(name, Vec::new());
            proof {
                lemma_call_view(c);
                assert(exprs_view(c.args@) =~= seq![]);
            }
            return Ok(Expr::Call(c));
        }
        let args: Vec<Expr> = Vec::new();
        assert(exprs_view(args@) =~= seq![]);
        self.parse_call_args(name, args)
    }

    fn parse_call_args(&mut self, name: Vec<char>, args: Vec<Expr>) -> (r: Result<
        Expr,
        ParseError,
    >)
        requires
            old(self).wf(),
        ensures
            final(self).wf(),
            final(self).text() == old(self).text(),
            expr_outcome(
                parse_call_args(old(self).text(), old(self).state(), name@, exprs_view(args@)),
                r,
                final(self).state(),
            ),
            r is Ok ==> smaller(old(self).text(), final(self).state(), old(self).state()),
        decreases measure(old(self).text(), old(self).state()), 6nat,
    {
        let e = self.parse_expr()?;
        let mut args = args;
        let ghost acc = exprs_view(args@);
        let ghost ev = e@;
        args.push(e);
        assert(exprs_view(args@) =~= acc.push(ev));
        if self.cur_is(')') {
            self.read_token();
            let c = FunctionCallExprAst::new(name, args);
            proof {
                lemma_call_view(c);
            }
            return Ok(Expr::Call(c));
        }
        if let Token::Eof = self.cur_token {
            return Err(ParseError::ExpectedCloseParen(clone_token(&self.cur_token)));
        }
        if !self.cur_is(',') {
            return Err(ParseError::ExpectedComma(clone_token(&self.cur_token)));
        }
        self.read_token();
        self.parse_call_args(name, args)
    }

    fn parse_primary(&mut self) -> (r: Result<Expr, ParseError>)
        requires
            old(self).wf(),
        ensures
            final(self).wf(),
            final(self).text() == old(self).text(),
            expr_outcome(parse_primary(old(self).text(), old(self).state()), r, final(self).state()),
            r is Ok ==> smaller(old(self).text(), final(self).state(), old(self).state()),
        decreases measure(old(self).text(), old(self).state()), 4nat,
    {
        match self.cur_token {
            Token::Number(_) => self.parse_number_expr(),
            Token::Identifier(_) => self.parse_identifier_expr(),
            Token::Character(c) => if c == '(' {
                self.parse_parenthesis_expr()
            } else {
                Err(ParseError::UnexpectedToken(clone_token(&self.cur_token)))
            },
            _ => Err(ParseError::UnexpectedToken(clone_token(&self.cur_token))),
        }
    }

    fn parse_binary_op_rhs(&mut self, expr_precedence: i8, lhs: Expr) -> (r: Result<
        Expr,
        ParseError,
    >)
        requires
            old(self).wf(),
        ensures
            final(self).wf(),
            final(self).text() == old(self).text(),
            expr_outcome(
                parse_binary_op_rhs(
                    old(self).text(),
                    old(self).state(),
                    expr_precedence as int,
                    lhs@,
                ),
                r,
                final(self).state(),
            ),
            r is Ok ==> measure(old(self).text(), final(self).state()) <= measure(
                old(self).text(),
                old(self).state(),
            ),
        decreases measure(old(self).text(), old(self).state()), 2nat,
    {
        let tok_precedence = self.get_op_precedence();
        if tok_precedence <= expr_precedence {
            return Ok(lhs);
        }
        let op = match self.cur_token {
            Token::Character(c) => c,
            _ => {
                return Ok(lhs);
            },
        };
        self.read_token();
        let rhs = self.parse_primary()?;
        let next_precedence = self.get_op_precedence();
        if tok_precedence < next_precedence {
            let rhs = self.parse_binary_op_rhs(tok_precedence, rhs)?;
            let b = Expr::Binary(BinaryExprAst::new(op, lhs, rhs));
            self.parse_binary_op_rhs(expr_precedence, b)
        } else {
            let b = Expr::Binary(BinaryExprAst::new(op, lhs, rhs));
            self.parse_binary_op_rhs(expr_precedence, b)
        }
    }

    fn parse_expr(&mut self) -> (r: Result<Expr, ParseError>)
        requires
            old(self).wf(),
        ensures
            final(self).wf(),
            final(self).text() == old(self).text(),
            expr_outcome(parse_expr(old(self).text(), old(self).state()), r, final(self).state()),
            r is Ok ==> smaller(old(self).text(), final(self).state(), old(self).state()),
        decreases measure(old(self).text(), old(self).state()), 5nat,
    {
        let lhs = self.parse_primary()?;
        self.parse_binary_op_rhs(0, lhs)
    }

    fn parse_params(&mut self, name: Vec<char>, args: Vec<Vec<char>>) -> (r: Result<
        PrototypeAst,
        ParseError,
    >)
        requires
            old(self).wf(),
        ensures
            final(self).wf(),
            final(self).text() == old(self).text(),
            match parse_params(old(self).text(), old(self).state(), name@, names_view(args@)) {
                Ok((p, st)) => r matches Ok(x) && x@ == p && final(self).state() == st,
                Err(e) => r matches Err(x) && x@ == e,
            },
            r is Ok ==> smaller(old(self).text(), final(self).state(), old(self).state()),
        decreases measure(old(self).text(), old(self).state()),
    {
        let p = match &self.cur_token {
            Token::Identifier(n) => n.clone(),
            _ => {
                return Err(ParseError::ExpectedIdentifier(clone_token(&self.cur_token)));
            },
        };
        let mut args = args;
        let ghost acc = names_view(args@);
        args.push(p);
        assert(names_view(args@) =~= acc.push(p@));
        self.read_token();
        if self.cur_is(')') {
            self.read_token();
            return Ok(PrototypeAst::new(name, args));
        }
        if !self.cur_is(',') {
            return Err(ParseError::ExpectedCloseParen(clone_token(&self.cur_token)));
        }
        self.read_token();
        self.parse_params(name, args)
    }

    fn parse_prototype(&mut self) -> (r: Result<PrototypeAst, ParseError>)
        requires
            old(self).wf(),
        ensures
            final(self).wf(),
            final(self).text() == old(self).text(),
            match parse_prototype(old(self).text(), old(self).state()) {
                Ok((p, st)) => r matches Ok(x) && x@ == p && final(self).state() == st,
                Err(e) => r matches Err(x) && x@ == e,
            },
    {
        let name = match &self.cur_token {
            Token::Identifier(n) => n.clone(),
            _ => {
                return Err(ParseError::ExpectedIdentifier(clone_token(&self.cur_token)));
            },
        };
        self.read_token();
        if !self.cur_is('(') {
            return Err(ParseError::ExpectedOpenParen(clone_token(&self.cur_token)));
        }
        self.read_token();
        let args: Vec<Vec<char>> = Vec::new();
        assert(names_view(args@) =~= seq![]);
        if self.cur_is(')') {
            self.read_token();
            return Ok(PrototypeAst::new(name, args));
        }
        self.parse_params(name, args)
    }

    fn parse_def(&mut self) -> (r: Result<FunctionAst, ParseError>)
        requires
            old(self).wf(),
        ensures
            final(self).wf(),
            final(self).text() == old(self).text(),
            match parse_def(old(self).text(), old(self).state()) {
                Ok((f, st)) => r matches Ok(x) && x@ == f && final(self).state() == st,
                Err(e) => r matches Err(x) && x@ == e,
            },
    {
        self.read_token();
        let proto = self.parse_prototype()?;
        let body = self.parse_expr()?;
        Ok(FunctionAst::new(proto, body))
    }

    fn parse_extern(&mut self) -> (r: Result<PrototypeAst, ParseError>)
        requires
            old(self).wf(),
        ensures
            final(self).wf(),
            final(self).text() == old(self).text(),
            match parse_extern(old(self).text(), old(self).state()) {
                Ok((p, st)) => r matches Ok(x) && x@ == p && final(self).state() == st,
                Err(e) => r matches Err(x) && x@ == e,
            },
    {
        self.read_token();
        self.parse_prototype()
    }

    fn parse_top_level_expr(&mut self) -> (r: Result<FunctionAst, ParseError>)
        requires
            old(self).wf(),
        ensures
            final(self).wf(),
            final(self).text() == old(self).text(),
            match parse_top_level_expr(old(self).text(), old(self).state()) {
                Ok((f, st)) => r matches Ok(x) && x@ == f && final(self).state() == st,
                Err(e) => r matches Err(x) && x@ == e,
            },
    {
        let body = self.parse_expr()?;
        let args: Vec<Vec<char>> = Vec::new();
        let proto = PrototypeAst::new(Vec::new(), args);
        assert(proto@.name =~= seq![]);
        assert(proto@.args =~= seq![]);
        Ok(FunctionAst::new(proto, body))
    }

    /// Starts over on a new text and reads its first token.
    pub fn set_buffer(&mut self, buffer: String)
        ensures
            final(self).wf(),
            final(self).text() == buffer@,
            final(self).state() == advance(buffer@, ParseState { pos: 0, cur: TokenView::Eof }),
    {
        self.lexer.set_buffer(buffer);
        self.cur_token = Token::Eof;
        self.read_token();
    }

    /// Parses the next top-level statement: `Ok(None)` at the end of the input.
    pub fn parse_statement(&mut self) -> (r: Result<Option<Function>, ParseError>)
        requires
            old(self).wf(),
        ensures
            final(self).wf(),
            final(self).text() == old(self).text(),
            match parse_statement(old(self).text(), old(self).state()) {
                Ok((f, st)) => r matches Ok(x) && statement_view(x) == f
                    && final(self).state() == st,
                Err(e) => r matches Err(x) && x@ == e,
            },
        decreases measure(old(self).text(), old(self).state()),
    {
        match self.cur_token {
            Token::Eof => Ok(None),
            Token::Def => {
                let f = self.parse_def()?;
                Ok(Some(Function::Definition(f)))
            },
            Token::Extern => {
                let p = self.parse_extern()?;
                Ok(Some(Function::Prototype(p)))
            },
            _ => {
                if self.cur_is(';') {
                    self.read_token();
                    self.parse_statement()
                } else {
                    let f = self.parse_top_level_expr()?;
                    Ok(Some(Function::Definition(f)))
                }
            },
        }
    }
}

} // verus!
