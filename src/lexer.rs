use vstd::prelude::*;

verus! {

/// A token, with the text or character it was read from.
#[derive(Debug, PartialEq, Clone)]
pub enum Token {
    Eof,
    Def,
    Extern,
    Identifier(Vec<char>),
    /// The digits (and at most one decimal point) of a numeric literal.
    Number(Vec<char>),
    Character(char),
}

/// The mathematical value of a [`Token`].
pub ghost enum TokenView {
    Eof,
    Def,
    Extern,
    Identifier(Seq<char>),
    Number(Seq<char>),
    Character(char),
}

impl View for Token {
    type V = TokenView;

    open spec fn view(&self) -> TokenView {
        match self {
            Token::Eof => TokenView::Eof,
            Token::Def => TokenView::Def,
            Token::Extern => TokenView::Extern,
            Token::Identifier(w) => TokenView::Identifier(w@),
            Token::Number(t) => TokenView::Number(t@),
            Token::Character(c) => TokenView::Character(*c),
        }
    }
}

/// Unicode `White_Space` characters, the set `char::is_whitespace` accepts.
pub open spec fn is_space(c: char) -> bool {
    let u = c as u32;
    ||| 0x09 <= u <= 0x0D
    ||| u == 0x20
    ||| u == 0x85
    ||| u == 0xA0
    ||| u == 0x1680
    ||| 0x2000 <= u <= 0x200A
    ||| u == 0x2028
    ||| u == 0x2029
    ||| u == 0x202F
    ||| u == 0x205F
    ||| u == 0x3000
}

pub open spec fn is_alpha(c: char) -> bool {
    ('a' as u32 <= c as u32 <= 'z' as u32) || ('A' as u32 <= c as u32 <= 'Z' as u32)
}

pub open spec fn is_digit(c: char) -> bool {
    '0' as u32 <= c as u32 <= '9' as u32
}

pub open spec fn is_alnum(c: char) -> bool {
    is_alpha(c) || is_digit(c)
}

pub open spec fn is_line_break(c: char) -> bool {
    c == '\n' || c == '\r'
}

/// The first index at or after `i` that holds no whitespace.
pub open spec fn skip_spaces(s: Seq<char>, i: int) -> int
    decreases s.len() - i,
{
    if 0 <= i < s.len() && is_space(s[i]) {
        skip_spaces(s, i + 1)
    } else {
        i
    }
}

/// The end of the run of letters and digits that starts at `i`.
pub open spec fn ident_end(s: Seq<char>, i: int) -> int
    decreases s.len() - i,
{
    if 0 <= i < s.len() && is_alnum(s[i]) {
        ident_end(s, i + 1)
    } else {
        i
    }
}

/// The end of the run of digits that starts at `i`.
pub open spec fn digits_end(s: Seq<char>, i: int) -> int
    decreases s.len() - i,
{
    if 0 <= i < s.len() && is_digit(s[i]) {
        digits_end(s, i + 1)
    } else {
        i
    }
}

/// The end of a numeric literal whose digits go on at `i`: digits, then at
/// most one decimal point and the digits after it.
pub open spec fn number_end(s: Seq<char>, i: int) -> int {
    let d = digits_end(s, i);
    if 0 <= d < s.len() && s[d] == '.' {
        digits_end(s, d + 1)
    } else {
        d
    }
}

/// The index of the first line break at or after `i`, or the end of the text.
pub open spec fn line_end(s: Seq<char>, i: int) -> int
    decreases s.len() - i,
{
    if 0 <= i < s.len() && !is_line_break(s[i]) {
        line_end(s, i + 1)
    } else {
        i
    }
}

pub open spec fn keyword_or_identifier(w: Seq<char>) -> TokenView {
    if w == seq!['d', 'e', 'f'] {
        TokenView::Def
    } else if w == seq!['e', 'x', 't', 'e', 'r', 'n'] {
        TokenView::Extern
    } else {
        TokenView::Identifier(w)
    }
}

/// The token that starts at index `i` of `s`, with the index just past it.
pub open spec fn lex(s: Seq<char>, i: int) -> (TokenView, int)
    decreases s.len() - i,
    via lex_decreases
{
    let j = skip_spaces(s, i);
    if i < 0 || j >= s.len() {
        (TokenView::Eof, j)
    } else {
        let c = s[j];
        if is_alpha(c) {
            let e = ident_end(s, j + 1);
            (keyword_or_identifier(s.subrange(j, e)), e)
        } else if is_digit(c) {
            let e = number_end(s, j + 1);
            (TokenView::Number(s.subrange(j, e)), e)
        } else if c == '#' {
            lex(s, line_end(s, j + 1))
        } else {
            (TokenView::Character(c), j + 1)
        }
    }
}

#[via_fn]
proof fn lex_decreases(s: Seq<char>, i: int) {
    lemma_skip_spaces_bounds(s, i);
    let j = skip_spaces(s, i);
    if 0 <= i && j < s.len() {
        lemma_line_end_bounds(s, j + 1);
    }
}

pub proof fn lemma_skip_spaces_bounds(s: Seq<char>, i: int)
    ensures
        i <= skip_spaces(s, i),
        0 <= i <= s.len() ==> skip_spaces(s, i) <= s.len(),
    decreases s.len() - i,
{
    if 0 <= i < s.len() && is_space(s[i]) {
        lemma_skip_spaces_bounds(s, i + 1);
    }
}

pub proof fn lemma_line_end_bounds(s: Seq<char>, i: int)
    ensures
        i <= line_end(s, i),
        0 <= i <= s.len() ==> line_end(s, i) <= s.len(),
    decreases s.len() - i,
{
    if 0 <= i < s.len() && !is_line_break(s[i]) {
        lemma_line_end_bounds(s, i + 1);
    }
}

pub proof fn lemma_ident_end_bounds(s: Seq<char>, i: int)
    ensures
        i <= ident_end(s, i),
        0 <= i <= s.len() ==> ident_end(s, i) <= s.len(),
    decreases s.len() - i,
{
    if 0 <= i < s.len() && is_alnum(s[i]) {
        lemma_ident_end_bounds(s, i + 1);
    }
}

pub proof fn lemma_digits_end_bounds(s: Seq<char>, i: int)
    ensures
        i <= digits_end(s, i),
        0 <= i <= s.len() ==> digits_end(s, i) <= s.len(),
    decreases s.len() - i,
{
    if 0 <= i < s.len() && is_digit(s[i]) {
        lemma_digits_end_bounds(s, i + 1);
    }
}

pub proof fn lemma_number_end_bounds(s: Seq<char>, i: int)
    ensures
        i <= number_end(s, i),
        0 <= i <= s.len() ==> number_end(s, i) <= s.len(),
{
    lemma_digits_end_bounds(s, i);
    let d = digits_end(s, i);
    if 0 <= d < s.len() && s[d] == '.' {
        lemma_digits_end_bounds(s, d + 1);
    }
}

/// Reading a token never moves backwards; any token but the end of input
/// consumes at least one character, and the end of input leaves the cursor at
/// the end of the text.
pub proof fn lemma_lex_progress(s: Seq<char>, i: int)
    requires
        0 <= i <= s.len(),
    ensures
        ({
            let (t, p) = lex(s, i);
            &&& i <= p <= s.len()
            &&& t is Eof ==> p == s.len()
            &&& !(t is Eof) ==> i < p
        }),
    decreases s.len() - i,
{
    lemma_skip_spaces_bounds(s, i);
    let j = skip_spaces(s, i);
    if j < s.len() {
        let c = s[j];
        if is_alpha(c) {
            lemma_ident_end_bounds(s, j + 1);
        } else if is_digit(c) {
            lemma_number_end_bounds(s, j + 1);
        } else if c == '#' {
            lemma_line_end_bounds(s, j + 1);
            lemma_lex_progress(s, line_end(s, j + 1));
        }
    }
}


/// The tokens of `s` from index `i` on, up to and including the end of input.
pub open spec fn tokens_from(s: Seq<char>, i: int) -> Seq<TokenView>
    decreases s.len() - i,
{
    let (t, p) = lex(s, i);
    if t is Eof {
        seq![t]
    } else if 0 <= i < p <= s.len() {
        seq![t] + tokens_from(s, p)
    } else {
        seq![]
    }
}

/// Two texts that agree below `n`.
pub open spec fn agree_below(a: Seq<char>, b: Seq<char>, n: int) -> bool {
    &&& n < a.len()
    &&& n < b.len()
    &&& forall|x: int| 0 <= x < n ==> a[x] == b[x]
}

proof fn lemma_ident_end_agree(a: Seq<char>, b: Seq<char>, n: int, k: int)
    requires
        0 <= k <= n,
        agree_below(a, b, n),
        !is_alnum(a[n]),
        !is_alnum(b[n]),
    ensures
        ident_end(a, k) == ident_end(b, k) <= n,
    decreases n - k,
{
    if k < n && is_alnum(a[k]) {
        lemma_ident_end_agree(a, b, n, k + 1);
    }
}

proof fn lemma_digits_end_agree(a: Seq<char>, b: Seq<char>, n: int, k: int)
    requires
        0 <= k <= n,
        agree_below(a, b, n),
        !is_digit(a[n]),
        !is_digit(b[n]),
    ensures
        digits_end(a, k) == digits_end(b, k) <= n,
    decreases n - k,
{
    if k < n && is_digit(a[k]) {
        lemma_digits_end_agree(a, b, n, k + 1);
    }
}

proof fn lemma_skip_spaces_agree(a: Seq<char>, b: Seq<char>, n: int, k: int)
    requires
        0 <= k <= n,
        agree_below(a, b, n),
    ensures
        skip_spaces(a, k) < n ==> skip_spaces(b, k) == skip_spaces(a, k),
        skip_spaces(b, k) < n ==> skip_spaces(a, k) == skip_spaces(b, k),
        skip_spaces(a, k) >= n ==> skip_spaces(a, k) == skip_spaces(a, n),
        skip_spaces(b, k) >= n ==> skip_spaces(b, k) == skip_spaces(b, n),
    decreases n - k,
{
    lemma_skip_spaces_bounds(a, k);
    lemma_skip_spaces_bounds(b, k);
    if k < n {
        assert(a[k] == b[k]);
        if is_space(a[k]) {
            lemma_skip_spaces_agree(a, b, n, k + 1);
        }
    }
}

proof fn lemma_line_end_run(a: Seq<char>, k: int, e: int)
    requires
        0 <= k <= e < a.len(),
        is_line_break(a[e]),
        forall|x: int| k <= x < e ==> !is_line_break(a[x]),
    ensures
        line_end(a, k) == e,
    decreases e - k,
{
    if k < e {
        lemma_line_end_run(a, k + 1, e);
    }
}

/// Where the texts `a` (text, comment, line break) and `b` (text, line break)
/// agree before index `n`, the end of the shared text, they read the same
/// token at every index up to `n`; a token other than the end of input ends
/// at the same index, within the shared text.
proof fn lemma_lex_comment(a: Seq<char>, b: Seq<char>, n: int, i: int)
    requires
        0 <= i <= n,
        agree_below(a, b, n),
        forall|x: int| 0 <= x < n ==> a[x] != '#',
        a[n] == '#',
        a.last() == '\n',
        forall|x: int| n < x < a.len() - 1 ==> !is_line_break(a[x]),
        b.len() == n + 1,
        b[n] == '\n',
    ensures
        lex(a, i).0 == lex(b, i).0,
        !(lex(a, i).0 is Eof) ==> lex(a, i).1 == lex(b, i).1 <= n,
{
    lemma_skip_spaces_agree(a, b, n, i);
    lemma_skip_spaces_bounds(a, i);
    let ja = skip_spaces(a, i);
    let jb = skip_spaces(b, i);
    if ja < n {
        let c = a[ja];
        if is_alpha(c) {
            lemma_ident_end_agree(a, b, n, ja + 1);
            lemma_ident_end_bounds(a, ja + 1);
            let e = ident_end(a, ja + 1);
            assert(a.subrange(ja, e) =~= b.subrange(ja, e));
        } else if is_digit(c) {
            lemma_digits_end_agree(a, b, n, ja + 1);
            lemma_digits_end_bounds(a, ja + 1);
            lemma_number_end_bounds(a, ja + 1);
            let d = digits_end(a, ja + 1);
            if d < n && a[d] == '.' {
                lemma_digits_end_agree(a, b, n, d + 1);
            }
            let e = number_end(a, ja + 1);
            assert(a.subrange(ja, e) =~= b.subrange(ja, e));
        }
    } else {
        assert(skip_spaces(a, n) == n);
        assert(skip_spaces(b, n + 1) == n + 1);
        assert(skip_spaces(b, n) == n + 1);
        let last = a.len() - 1;
        lemma_line_end_run(a, n + 1, last);
        assert(skip_spaces(a, last + 1) == last + 1);
        assert(skip_spaces(a, last) == last + 1);
        assert(lex(a, last).0 is Eof);
    }
}

proof fn lemma_tokens_comment(a: Seq<char>, b: Seq<char>, n: int, i: int)
    requires
        0 <= i <= n,
        agree_below(a, b, n),
        forall|x: int| 0 <= x < n ==> a[x] != '#',
        a[n] == '#',
        a.last() == '\n',
        forall|x: int| n < x < a.len() - 1 ==> !is_line_break(a[x]),
        b.len() == n + 1,
        b[n] == '\n',
    ensures
        tokens_from(a, i) == tokens_from(b, i),
    decreases n - i,
{
    lemma_lex_comment(a, b, n, i);
    lemma_lex_progress(a, i);
    lemma_lex_progress(b, i);
    let (t, p) = lex(a, i);
    if !(t is Eof) {
        lemma_tokens_comment(a, b, n, p);
    }
}

/// A comment contributes no tokens: a text with no `#`, read with a comment
/// before its closing line break, gives the same tokens as without it.
pub proof fn law_comment_contributes_no_tokens(s: Seq<char>, t: Seq<char>)
    requires
        !s.contains('#'),
        forall|x: int| 0 <= x < t.len() ==> !is_line_break(t[x]),
    ensures
        tokens_from(s + seq!['#'] + t + seq!['\n'], 0) == tokens_from(s + seq!['\n'], 0),
{
    let a = s + seq!['#'] + t + seq!['\n'];
    let b = s + seq!['\n'];
    let n = s.len() as int;
    assert forall|x: int| 0 <= x < n implies a[x] == b[x] && a[x] != '#' by {
        assert(a[x] == s[x]);
        assert(b[x] == s[x]);
    }
    assert forall|x: int| n < x < a.len() - 1 implies !is_line_break(a[x]) by {
        assert(a[x] == t[x - n - 1]);
    }
    lemma_tokens_comment(a, b, n, 0);
}

pub fn is_space_char(c: char) -> (r: bool)
    ensures
        r == is_space(c),
{
    let u = c as u32;
    (0x09 <= u && u <= 0x0D) || u == 0x20 || u == 0x85 || u == 0xA0 || u == 0x1680 || (0x2000
        <= u && u <= 0x200A) || u == 0x2028 || u == 0x2029 || u == 0x202F || u == 0x205F || u
        == 0x3000
}

pub fn is_alpha_char(c: char) -> (r: bool)
    ensures
        r == is_alpha(c),
{
    let u = c as u32;
    ('a' as u32 <= u && u <= 'z' as u32) || ('A' as u32 <= u && u <= 'Z' as u32)
}

pub fn is_digit_char(c: char) -> (r: bool)
    ensures
        r == is_digit(c),
{
    let u = c as u32;
    '0' as u32 <= u && u <= '9' as u32
}

/// A copy of a token.
pub fn clone_token(t: &Token) -> (r: Token)
    ensures
        r@ == t@,
{
    match t {
        Token::Eof => Token::Eof,
        Token::Def => Token::Def,
        Token::Extern => Token::Extern,
        Token::Identifier(w) => Token::Identifier(w.clone()),
        Token::Number(n) => Token::Number(n.clone()),
        Token::Character(c) => Token::Character(*c),
    }
}

/// Whether `w` spells `k`.
pub fn same_chars(w: &Vec<char>, k: &Vec<char>) -> (r: bool)
    ensures
        r == (w@ == k@),
{
    if w.len() != k.len() {
        return false;
    }
    let mut i: usize = 0;
    while i < w.len()
        invariant
            w.len() == k.len(),
            0 <= i <= w.len(),
            w@.subrange(0, i as int) == k@.subrange(0, i as int),
        decreases w.len() - i,
    {
        if w[i] != k[i] {
            assert(w@[i as int] != k@[i as int]);
            return false;
        }
        assert(w@.subrange(0, i + 1) =~= w@.subrange(0, i as int).push(w@[i as int]));
        assert(k@.subrange(0, i + 1) =~= k@.subrange(0, i as int).push(k@[i as int]));
        i += 1;
    }
    assert(w@ =~= w@.subrange(0, i as int));
    assert(k@ =~= k@.subrange(0, i as int));
    true
}

fn keyword_token(w: Vec<char>) -> (r: Token)
    ensures
        r@ == keyword_or_identifier(w@),
{
    if same_chars(&w, &vec!['d', 'e', 'f']) {
        Token::Def
    } else if same_chars(&w, &vec!['e', 'x', 't', 'e', 'r', 'n']) {
        Token::Extern
    } else {
        Token::Identifier(w)
    }
}

/// Splits a text into tokens, one call of [`Lexer::get_token`] at a time.
pub struct Lexer {
    pub buffer: Vec<char>,
    /// Index of the next unconsumed character, the lookahead.
    pub pos: usize,
}

impl Lexer {
    pub open spec fn wf(&self) -> bool {
        self.pos <= self.buffer.len()
    }

    /// The lookahead character, or `None` at the end of the text.
    pub open spec fn last_char(&self) -> Option<char> {
        if self.pos < self.buffer.len() {
            Some(self.buffer@[self.pos as int])
        } else {
            None
        }
    }

    pub fn new() -> (r: Lexer)
        ensures
            r.wf(),
            r.buffer@ == Seq::<char>::empty(),
            r.pos == 0,
    {
        Lexer { buffer: Vec::new(), pos: 0 }
    }

    /// Starts over on a new text.
    pub fn set_buffer(&mut self, buffer: String)
        ensures
            final(self).wf(),
            final(self).buffer@ == buffer@,
            final(self).pos == 0,
    {
        self.buffer = chars_of(&buffer);
        self.pos = 0;
    }

    /// Reads a word that starts at the lookahead, a letter.
    fn get_identifier(&mut self) -> (r: Token)
        requires
            old(self).wf(),
            old(self).pos < old(self).buffer.len(),
            is_alpha(old(self).buffer@[old(self).pos as int]),
        ensures
            final(self).wf(),
            final(self).buffer@ == old(self).buffer@,
            final(self).pos == ident_end(old(self).buffer@, old(self).pos + 1),
            r@ == keyword_or_identifier(
                old(self).buffer@.subrange(old(self).pos as int, final(self).pos as int),
            ),
    {
        let ghost s = self.buffer@;
        let start = self.pos;
        let len = self.buffer.len();
        let mut w: Vec<char> = Vec::new();
        w.push(self.buffer[start]);
        self.pos += 1;
        while self.pos < len && (is_alpha_char(self.buffer[self.pos]) || is_digit_char(
            self.buffer[self.pos],
        ))
            invariant
                self.wf(),
                self.buffer@ == s,
                s == old(self).buffer@,
                start == old(self).pos,
                len == s.len(),
                start < self.pos,
                ident_end(s, self.pos as int) == ident_end(s, start + 1),
                w@ == s.subrange(start as int, self.pos as int),
            decreases len - self.pos,
        {
            w.push(self.buffer[self.pos]);
            self.pos += 1;
            assert(w@ =~= s.subrange(start as int, self.pos as int));
        }
        keyword_token(w)
    }

    /// Reads a numeric literal that starts at the lookahead, a digit: digits,
    /// then at most one decimal point and the digits after it.
    fn get_number(&mut self) -> (r: Token)
        requires
            old(self).wf(),
            old(self).pos < old(self).buffer.len(),
            is_digit(old(self).buffer@[old(self).pos as int]),
        ensures
            final(self).wf(),
            final(self).buffer@ == old(self).buffer@,
            final(self).pos == number_end(old(self).buffer@, old(self).pos + 1),
            r@ == TokenView::Number(
                old(self).buffer@.subrange(old(self).pos as int, final(self).pos as int),
            ),
    {
        let ghost s = self.buffer@;
        let start = self.pos;
        let len = self.buffer.len();
        let mut w: Vec<char> = Vec::new();
        w.push(self.buffer[start]);
        self.pos += 1;
        assert(w@ =~= s.subrange(start as int, self.pos as int));
        self.push_digits(&mut w, start);
        let ghost d = self.pos as int;
        assert(d == digits_end(s, start + 1));
        if self.pos < len && self.buffer[self.pos] == '.' {
            assert(s[self.pos as int] == '.');
            w.push('.');
            self.pos += 1;
            assert(w@ =~= s.subrange(start as int, self.pos as int));
            self.push_digits(&mut w, start);
        }
        Token::Number(w)
    }

    /// Moves the cursor, and the characters it passes into `w`, over a run of digits.
    fn push_digits(&mut self, w: &mut Vec<char>, start: usize)
        requires
            old(self).wf(),
            start <= old(self).pos,
            old(w)@ == old(self).buffer@.subrange(start as int, old(self).pos as int),
        ensures
            final(self).wf(),
            final(self).buffer@ == old(self).buffer@,
            final(self).pos == digits_end(old(self).buffer@, old(self).pos as int),
            old(self).pos <= final(self).pos,
            final(w)@ == old(self).buffer@.subrange(start as int, final(self).pos as int),
    {
        let ghost s = self.buffer@;
        let len = self.buffer.len();
        while self.pos < len && is_digit_char(self.buffer[self.pos])
            invariant
                self.wf(),
                self.buffer@ == s,
                s == old(self).buffer@,
                len == s.len(),
                start <= old(self).pos <= self.pos,
                digits_end(s, self.pos as int) == digits_end(s, old(self).pos as int),
                w@ == s.subrange(start as int, self.pos as int),
            decreases len - self.pos,
        {
            w.push(self.buffer[self.pos]);
            self.pos += 1;
            assert(w@ =~= s.subrange(start as int, self.pos as int));
        }
    }

    /// A cursor past the end of the text reads the end of input.
    pub fn get_token(&mut self) -> (r: Token)
        ensures
            old(self).wf() ==> final(self).wf(),
            final(self).buffer@ == old(self).buffer@,
            (r@, final(self).pos as int) == lex(old(self).buffer@, old(self).pos as int),
    {
        let ghost s = self.buffer@;
        let ghost target = lex(s, self.pos as int);
        let len = self.buffer.len();
        if self.pos > len {
            return Token::Eof;
        }
        loop
            invariant
                self.wf(),
                old(self).wf(),
                self.buffer@ == s,
                s == old(self).buffer@,
                target == lex(old(self).buffer@, old(self).pos as int),
                len == s.len(),
                lex(s, self.pos as int) == target,
            decreases len - self.pos,
        {
            let ghost p0 = self.pos as int;
            while self.pos < len && is_space_char(self.buffer[self.pos])
                invariant
                    self.wf(),
                    self.buffer@ == s,
                    len == s.len(),
                    p0 <= self.pos,
                    skip_spaces(s, self.pos as int) == skip_spaces(s, p0),
                decreases len - self.pos,
            {
                self.pos += 1;
            }
            if self.pos >= len {
                return Token::Eof;
            }
            let c = self.buffer[self.pos];
            let start = self.pos;
            if is_alpha_char(c) {
                return self.get_identifier();
            } else if is_digit_char(c) {
                return self.get_number();
            } else if c == '#' {
                self.pos += 1;
                while self.pos < len && self.buffer[self.pos] != '\n' && self.buffer[self.pos]
                    != '\r'
                    invariant
                        self.wf(),
                        self.buffer@ == s,
                        len == s.len(),
                        start < self.pos,
                        line_end(s, self.pos as int) == line_end(s, start + 1),
                    decreases len - self.pos,
                {
                    self.pos += 1;
                }
            } else {
                self.pos += 1;
                return Token::Character(c);
            }
        }
    }

    /// Reads every token from the cursor on, up to and including the end of input.
    pub fn tokenize(&mut self) -> (r: Vec<Token>)
        ensures
            final(self).buffer@ == old(self).buffer@,
            r@.map_values(|t: Token| t@) == tokens_from(old(self).buffer@, old(self).pos as int),
    {
        let ghost s = self.buffer@;
        let ghost p0 = self.pos as int;
        let mut out: Vec<Token> = Vec::new();
        if self.pos > self.buffer.len() {
            let t = self.get_token();
            out.push(t);
            assert(out@.map_values(|t: Token| t@) =~= seq![TokenView::Eof]);
            return out;
        }
        loop
            invariant
                self.wf(),
                self.buffer@ == s,
                s == old(self).buffer@,
                p0 == old(self).pos as int,
                out@.map_values(|t: Token| t@) + tokens_from(s, self.pos as int) == tokens_from(
                    s,
                    p0,
                ),
            decreases s.len() - self.pos,
        {
            proof {
                lemma_lex_progress(s, self.pos as int);
            }
            let ghost before = out@.map_values(|t: Token| t@);
            let ghost p = self.pos as int;
            let t = self.get_token();
            let end = match t {
                Token::Eof => true,
                _ => false,
            };
            let ghost tv = t@;
            out.push(t);
            assert(out@.map_values(|t: Token| t@) =~= before.push(tv));
            if end {
                assert(tokens_from(s, p) == seq![tv]);
                assert(before + seq![tv] =~= before.push(tv));
                return out;
            }
            assert(tokens_from(s, p) == seq![tv] + tokens_from(s, self.pos as int));
            assert(before + (seq![tv] + tokens_from(s, self.pos as int)) =~= before.push(tv)
                + tokens_from(s, self.pos as int));
        }
    }
}

/// Relies on `str::chars` collected into a `Vec`: the characters of the text, in order.
#[verifier::external_body]
pub(crate) fn chars_of(s: &String) -> (r: Vec<char>)
    ensures
        r@ == s@,
{
    s.chars().collect()
}

} // verus!
