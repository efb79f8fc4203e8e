use vstd::prelude::*;
use vstd::string::*;
use crate::token::{Token, TokenResult, TokenType};

verus! {

pub open spec fn is_alpha_char(c: char) -> bool {
    ('a' <= c && c <= 'z') || ('A' <= c && c <= 'Z') || c == '_'
}

pub open spec fn is_digit_char(c: char) -> bool {
    '0' <= c && c <= '9'
}

/// Where skipping blanks and line comments that start at `p` ends, and the
/// line number reached there. `in_comment` says that `p` lies inside a
/// line comment.
pub open spec fn skip_from(s: Seq<char>, p: int, line: int, in_comment: bool) -> (int, int)
    decreases s.len() - p,
{
    if p < 0 || p >= s.len() {
        (p, line)
    } else if in_comment {
        if s[p] == '\n' {
            skip_from(s, p + 1, line + 1, false)
        } else {
            skip_from(s, p + 1, line, true)
        }
    } else if s[p] == ' ' || s[p] == '\t' || s[p] == '\r' {
        skip_from(s, p + 1, line, false)
    } else if s[p] == '\n' {
        skip_from(s, p + 1, line + 1, false)
    } else if s[p] == '/' && p + 1 < s.len() && s[p + 1] == '/' {
        skip_from(s, p + 2, line, true)
    } else {
        (p, line)
    }
}

/// The end of the longest run of letters, digits and underscores from `p`.
pub open spec fn word_end(s: Seq<char>, p: int) -> int
    decreases s.len() - p,
{
    if p < 0 || p >= s.len() {
        p
    } else if is_alpha_char(s[p]) || is_digit_char(s[p]) {
        word_end(s, p + 1)
    } else {
        p
    }
}

/// The end of the longest run of decimal digits from `p`.
pub open spec fn digits_end(s: Seq<char>, p: int) -> int
    decreases s.len() - p,
{
    if p < 0 || p >= s.len() {
        p
    } else if is_digit_char(s[p]) {
        digits_end(s, p + 1)
    } else {
        p
    }
}

/// The end of a number literal whose first digit stands at `q`: digits,
/// then a fraction only where a digit follows the dot.
pub open spec fn number_end(s: Seq<char>, q: int) -> int {
    let d = digits_end(s, q + 1);
    if d + 1 < s.len() && s[d] == '.' && is_digit_char(s[d + 1]) {
        digits_end(s, d + 2)
    } else {
        d
    }
}

/// The position of the first double quote at or after `p`, or the length.
pub open spec fn string_end(s: Seq<char>, p: int) -> int
    decreases s.len() - p,
{
    if p < 0 || p >= s.len() || s[p] == '"' {
        p
    } else {
        string_end(s, p + 1)
    }
}

/// The number of newlines in `s[a..b]`.
pub open spec fn newlines(s: Seq<char>, a: int, b: int) -> int
    decreases b - a,
{
    if b <= a {
        0
    } else {
        newlines(s, a, b - 1) + if s[b - 1] == '\n' {
            1int
        } else {
            0int
        }
    }
}

pub open spec fn keyword_kind(w: Seq<char>) -> TokenType {
    if w == "and"@ {
        TokenType::And
    } else if w == "class"@ {
        TokenType::Class
    } else if w == "else"@ {
        TokenType::Else
    } else if w == "if"@ {
        TokenType::If
    } else if w == "nil"@ {
        TokenType::Nil
    } else if w == "or"@ {
        TokenType::Or
    } else if w == "print"@ {
        TokenType::Print
    } else if w == "return"@ {
        TokenType::Return
    } else if w == "super"@ {
        TokenType::Super
    } else if w == "var"@ {
        TokenType::Var
    } else if w == "while"@ {
        TokenType::While
    } else if w == "false"@ {
        TokenType::False
    } else if w == "for"@ {
        TokenType::For
    } else if w == "fun"@ {
        TokenType::Fun
    } else if w == "this"@ {
        TokenType::This
    } else if w == "true"@ {
        TokenType::True
    } else {
        TokenType::Identifier
    }
}

/// The kind of a one-character token that never takes a second character.
pub open spec fn single_kind(c: char) -> Option<TokenType> {
    if c == '(' {
        Some(TokenType::LeftParen)
    } else if c == ')' {
        Some(TokenType::RightParen)
    } else if c == '{' {
        Some(TokenType::LeftBrace)
    } else if c == '}' {
        Some(TokenType::RightBrace)
    } else if c == ';' {
        Some(TokenType::Semicolon)
    } else if c == ',' {
        Some(TokenType::Comma)
    } else if c == '.' {
        Some(TokenType::Dot)
    } else if c == '-' {
        Some(TokenType::Minus)
    } else if c == '+' {
        Some(TokenType::Plus)
    } else if c == '/' {
        Some(TokenType::Slash)
    } else if c == '*' {
        Some(TokenType::Star)
    } else {
        None
    }
}

/// For an operator that may be followed by `=`: the kind with the `=` and the
/// kind without it.
pub open spec fn pair_kinds(c: char) -> Option<(TokenType, TokenType)> {
    if c == '!' {
        Some((TokenType::BangEqual, TokenType::Bang))
    } else if c == '=' {
        Some((TokenType::EqualEqual, TokenType::Equal))
    } else if c == '<' {
        Some((TokenType::LessEqual, TokenType::Less))
    } else if c == '>' {
        Some((TokenType::GreaterEqual, TokenType::Greater))
    } else {
        None
    }
}

/// One scanning step as a value: the token's kind, the range of its text,
/// its line, and where scanning goes on.
pub struct Scan {
    pub kind: TokenType,
    pub start: int,
    pub stop: int,
    pub line: int,
    pub next: int,
}

/// The token whose first character stands at `q` (blanks already skipped).
pub open spec fn scan_at(s: Seq<char>, q: int, l: int) -> Scan {
    if q >= s.len() {
        Scan { kind: TokenType::Eof, start: q, stop: q, line: l, next: q }
    } else if is_alpha_char(s[q]) {
        let e = word_end(s, q + 1);
        Scan { kind: keyword_kind(s.subrange(q, e)), start: q, stop: e, line: l, next: e }
    } else if is_digit_char(s[q]) {
        let e = number_end(s, q);
        Scan { kind: TokenType::Number, start: q, stop: e, line: l, next: e }
    } else if single_kind(s[q]) is Some {
        Scan { kind: single_kind(s[q])->Some_0, start: q, stop: q + 1, line: l, next: q + 1 }
    } else if pair_kinds(s[q]) is Some {
        if q + 1 < s.len() && s[q + 1] == '=' {
            Scan { kind: pair_kinds(s[q])->Some_0.0, start: q, stop: q + 2, line: l, next: q + 2 }
        } else {
            Scan { kind: pair_kinds(s[q])->Some_0.1, start: q, stop: q + 1, line: l, next: q + 1 }
        }
    } else if s[q] == '"' {
        let e = string_end(s, q + 1);
        let l2 = l + newlines(s, q + 1, e);
        if e >= s.len() {
            Scan { kind: TokenType::Error, start: q + 1, stop: e, line: l2, next: e }
        } else {
            Scan { kind: TokenType::String, start: q + 1, stop: e, line: l2, next: e + 1 }
        }
    } else {
        Scan { kind: TokenType::Error, start: q, stop: q + 1, line: l, next: q + 1 }
    }
}

/// The token that a scan from position `p` on line `line` yields.
pub open spec fn scan_spec(s: Seq<char>, p: int, line: int) -> Scan {
    let (q, l) = skip_from(s, p, line, false);
    scan_at(s, q, l)
}

/// Turns source text into tokens, one per call.
#[derive(Debug)]
pub struct Scanner {
    source: String,
    chars: Vec<char>,
    start: usize,
    current: usize,
    line: i32,
}

impl Scanner {
    /// The source text.
    pub closed spec fn text(&self) -> Seq<char> {
        self.chars@
    }

    /// The position of the next character to scan.
    pub closed spec fn pos(&self) -> int {
        self.current as int
    }

    /// The line that the next character stands on.
    pub closed spec fn line_no(&self) -> int {
        self.line as int
    }

    /// Where the token being scanned starts.
    pub closed spec fn tok_start(&self) -> int {
        self.start as int
    }

    pub closed spec fn wf(&self) -> bool {
        &&& self.source@ == self.chars@
        &&& self.start <= self.current <= self.chars.len()
        &&& 1 <= self.line
        &&& self.line as int + self.chars.len() - self.current < i32::MAX as int
    }

    pub fn new(source: &str) -> (r: Scanner)
        requires
            source@.len() + 1 < i32::MAX as int,
        ensures
            r.wf(),
            r.text() == source@,
            r.pos() == 0,
            r.line_no() == 1,
    {
        let n = source.unicode_len();
        let mut chars: Vec<char> = Vec::new();
        let mut i: usize = 0;
        while i < n
            invariant
                n == source@.len(),
                i <= n,
                chars@ == source@.subrange(0, i as int),
            decreases n - i,
        {
            chars.push(source.get_char(i));
            i += 1;
        }
        proof {
            assert(chars@ =~= source@);
        }
        Scanner { source: String::from_str(source), chars, start: 0, current: 0, line: 1 }
    }
}
impl Scanner {
    /// Steps over the next character, if there is one, and returns it.
    pub fn advance(&mut self) -> (r: Option<char>)
        requires
            old(self).wf(),
        ensures
            final(self).wf(),
            final(self).text() == old(self).text(),
            final(self).line_no() == old(self).line_no(),
            final(self).tok_start() == old(self).tok_start(),
            old(self).pos() < old(self).text().len() ==> r == Some(old(self).text()[old(self).pos()])
                && final(self).pos() == old(self).pos() + 1,
            old(self).pos() >= old(self).text().len() ==> r is None && final(self).pos()
                == old(self).pos(),
    {
        if self.current < self.chars.len() {
            let c = self.chars[self.current];
            self.current += 1;
            Some(c)
        } else {
            None
        }
    }

    /// The next character, left in place.
    pub fn peek(&self) -> (r: Option<char>)
        requires
            self.wf(),
        ensures
            self.pos() < self.text().len() ==> r == Some(self.text()[self.pos()]),
            self.pos() >= self.text().len() ==> r is None,
    {
        if self.current < self.chars.len() {
            Some(self.chars[self.current])
        } else {
            None
        }
    }

    /// Whether the character after the next one is `expected`.
    fn peek_next_matches(&self, expected: char) -> (r: bool)
        requires
            self.wf(),
        ensures
            r == (self.pos() + 1 < self.text().len() && self.text()[self.pos() + 1] == expected),
    {
        self.chars.len() - self.current > 1 && self.chars[self.current + 1] == expected
    }

    pub fn is_eof(&self) -> (r: bool)
        requires
            self.wf(),
        ensures
            r == (self.pos() >= self.text().len()),
    {
        self.current >= self.chars.len()
    }

    /// Whether the next character is `expected`.
    pub fn peek_matches(&self, expected: &char) -> (r: bool)
        requires
            self.wf(),
        ensures
            r == (self.pos() < self.text().len() && self.text()[self.pos()] == *expected),
    {
        match self.peek() {
            Some(c) => c == *expected,
            None => false,
        }
    }

    fn peek_is_alpha(&self) -> (r: bool)
        requires
            self.wf(),
        ensures
            r == (self.pos() < self.text().len() && is_alpha_char(self.text()[self.pos()])),
    {
        match self.peek() {
            Some(c) => Scanner::is_alpha(c),
            None => false,
        }
    }

    fn peek_is_digit(&self) -> (r: bool)
        requires
            self.wf(),
        ensures
            r == (self.pos() < self.text().len() && is_digit_char(self.text()[self.pos()])),
    {
        match self.peek() {
            Some(c) => Scanner::is_digit(c),
            None => false,
        }
    }

    fn is_alpha(c: char) -> (r: bool)
        ensures
            r == is_alpha_char(c),
    {
        ('a' <= c && c <= 'z') || ('A' <= c && c <= 'Z') || c == '_'
    }

    fn is_digit(c: char) -> (r: bool)
        ensures
            r == is_digit_char(c),
    {
        '0' <= c && c <= '9'
    }

    /// Steps over the next character when it is `expected`.
    fn matches(&mut self, expected: &char) -> (r: bool)
        requires
            old(self).wf(),
        ensures
            final(self).wf(),
            final(self).text() == old(self).text(),
            final(self).line_no() == old(self).line_no(),
            final(self).tok_start() == old(self).tok_start(),
            r == (old(self).pos() < old(self).text().len() && old(self).text()[old(self).pos()]
                == *expected),
            final(self).pos() == old(self).pos() + if r {
                1int
            } else {
                0int
            },
    {
        match self.peek() {
            Some(c) => {
                if c == *expected {
                    self.advance();
                    true
                } else {
                    false
                }
            },
            None => false,
        }
    }

    /// Skips blanks, newlines (counting them) and line comments.
    fn skip_whitespace(&mut self)
        requires
            old(self).wf(),
        ensures
            final(self).wf(),
            final(self).text() == old(self).text(),
            (final(self).pos(), final(self).line_no()) == skip_from(
                old(self).text(),
                old(self).pos(),
                old(self).line_no(),
                false,
            ),
    {
        let ghost s = self.text();
        let ghost goal = skip_from(s, self.pos(), self.line_no(), false);
        let mut in_comment = false;
        loop
            invariant
                self.wf(),
                self.text() == s,
                skip_from(s, self.pos(), self.line_no(), in_comment) == goal,
            ensures
                self.wf(),
                self.text() == s,
                (self.pos(), self.line_no()) == goal,
            decreases self.text().len() - self.pos(),
        {
            match self.peek() {
                None => break,
                Some(c) => {
                    if in_comment {
                        self.advance();
                        if c == '\n' {
                            self.line += 1;
                            in_comment = false;
                        }
                    } else if c == ' ' || c == '\t' || c == '\r' {
                        self.advance();
                    } else if c == '\n' {
                        self.advance();
                        self.line += 1;
                    } else if c == '/' && self.peek_next_matches('/') {
                        self.advance();
                        self.advance();
                        in_comment = true;
                    } else {
                        break;
                    }
                },
            }
        }
    }
}
impl Scanner {
    /// The token of the given kind that covers the text from the token's start
    /// up to the cursor.
    fn make_token(&self, token_type: TokenType) -> (r: TokenResult)
        requires
            self.wf(),
        ensures
            r.line == self.line_no(),
            r.token_type == token_type,
            r.data is Ok,
            r.data->Ok_0.start == self.tok_start(),
            r.data->Ok_0.stop == self.pos(),
            r.data->Ok_0.lexeme@ == self.text().subrange(self.tok_start(), self.pos()),
    {
        let lexeme = self.source.as_str().substring_char(self.start, self.current);
        TokenResult {
            line: self.line,
            token_type,
            data: Ok(Token { start: self.start, stop: self.current, lexeme: String::from_str(lexeme) }),
        }
    }

    fn make_error_token(&self, message: &str) -> (r: TokenResult)
        ensures
            r.line == self.line_no(),
            r.token_type == TokenType::Error,
            r.data is Err,
            r.data->Err_0@ == message@,
    {
        TokenResult { line: self.line, token_type: TokenType::Error, data: Err(String::from_str(message)) }
    }

    fn make_eof_token(&self) -> (r: TokenResult)
        requires
            self.wf(),
            self.tok_start() == self.pos(),
        ensures
            r.line == self.line_no(),
            r.token_type == TokenType::Eof,
            r.data is Ok,
            r.data->Ok_0.start == self.pos(),
            r.data->Ok_0.stop == self.pos(),
            r.data->Ok_0.lexeme@ == Seq::<char>::empty(),
    {
        let r = self.make_token(TokenType::Eof);
        proof {
            assert(self.text().subrange(self.tok_start(), self.pos()) =~= Seq::<char>::empty());
        }
        r
    }

    /// Whether the text from the token's start up to the cursor is `word`.
    fn word_is(&self, word: &str) -> (r: bool)
        requires
            self.wf(),
        ensures
            r == (self.text().subrange(self.tok_start(), self.pos()) == word@),
    {
        let ghost w = self.text().subrange(self.tok_start(), self.pos());
        let n = word.unicode_len();
        if n != self.current - self.start {
            proof {
                assert(w.len() != word@.len());
            }
            return false;
        }
        let mut i: usize = 0;
        while i < n
            invariant
                self.wf(),
                n == word@.len(),
                n == self.current - self.start,
                w == self.text().subrange(self.tok_start(), self.pos()),
                i <= n,
                forall|j: int| 0 <= j < i ==> w[j] == word@[j],
            decreases n - i,
        {
            if self.chars[self.start + i] != word.get_char(i) {
                proof {
                    assert(w[i as int] != word@[i as int]);
                }
                return false;
            }
            i += 1;
        }
        proof {
            assert(w =~= word@);
        }
        true
    }

    fn make_identifier_token(&self) -> (r: TokenResult)
        requires
            self.wf(),
        ensures
            r.line == self.line_no(),
            r.token_type == keyword_kind(self.text().subrange(self.tok_start(), self.pos())),
            r.data is Ok,
            r.data->Ok_0.start == self.tok_start(),
            r.data->Ok_0.stop == self.pos(),
            r.data->Ok_0.lexeme@ == self.text().subrange(self.tok_start(), self.pos()),
    {
        let kind = if self.word_is("and") {
            TokenType::And
        } else if self.word_is("class") {
            TokenType::Class
        } else if self.word_is("else") {
            TokenType::Else
        } else if self.word_is("if") {
            TokenType::If
        } else if self.word_is("nil") {
            TokenType::Nil
        } else if self.word_is("or") {
            TokenType::Or
        } else if self.word_is("print") {
            TokenType::Print
        } else if self.word_is("return") {
            TokenType::Return
        } else if self.word_is("super") {
            TokenType::Super
        } else if self.word_is("var") {
            TokenType::Var
        } else if self.word_is("while") {
            TokenType::While
        } else if self.word_is("false") {
            TokenType::False
        } else if self.word_is("for") {
            TokenType::For
        } else if self.word_is("fun") {
            TokenType::Fun
        } else if self.word_is("this") {
            TokenType::This
        } else if self.word_is("true") {
            TokenType::True
        } else {
            TokenType::Identifier
        };
        self.make_token(kind)
    }

    /// Scans the rest of an identifier or keyword whose first character has
    /// been taken.
    fn identifier(&mut self) -> (r: TokenResult)
        requires
            old(self).wf(),
            old(self).tok_start() < old(self).pos(),
        ensures
            final(self).wf(),
            final(self).text() == old(self).text(),
            final(self).line_no() == old(self).line_no(),
            final(self).tok_start() == old(self).tok_start(),
            final(self).pos() == word_end(old(self).text(), old(self).pos()),
            r.line == final(self).line_no(),
            r.token_type == keyword_kind(final(self).text().subrange(final(self).tok_start(), final(self).pos())),
            r.data is Ok,
            r.data->Ok_0.start == final(self).tok_start(),
            r.data->Ok_0.stop == final(self).pos(),
            r.data->Ok_0.lexeme@ == final(self).text().subrange(final(self).tok_start(), final(self).pos()),
    {
        let ghost s = self.text();
        let ghost goal = word_end(s, self.pos());
        while self.peek_is_alpha() || self.peek_is_digit()
            invariant
                self.wf(),
                self.text() == s,
                self.line_no() == old(self).line_no(),
                self.tok_start() == old(self).tok_start(),
                word_end(s, self.pos()) == goal,
            decreases s.len() - self.pos(),
        {
            self.advance();
        }
        self.make_identifier_token()
    }

    /// Scans the rest of a number literal whose first digit has been taken.
    fn number(&mut self) -> (r: TokenResult)
        requires
            old(self).wf(),
            old(self).tok_start() + 1 == old(self).pos(),
        ensures
            final(self).wf(),
            final(self).text() == old(self).text(),
            final(self).line_no() == old(self).line_no(),
            final(self).tok_start() == old(self).tok_start(),
            final(self).pos() == number_end(old(self).text(), old(self).tok_start()),
            r.line == final(self).line_no(),
            r.token_type == TokenType::Number,
            r.data is Ok,
            r.data->Ok_0.start == final(self).tok_start(),
            r.data->Ok_0.stop == final(self).pos(),
            r.data->Ok_0.lexeme@ == final(self).text().subrange(final(self).tok_start(), final(self).pos()),
    {
        let ghost s = self.text();
        let ghost d = digits_end(s, self.pos());
        while self.peek_is_digit()
            invariant
                self.wf(),
                self.text() == s,
                self.line_no() == old(self).line_no(),
                self.tok_start() == old(self).tok_start(),
                digits_end(s, self.pos()) == d,
            decreases s.len() - self.pos(),
        {
            self.advance();
        }
        if self.peek_matches(&'.') && self.next_is_digit() {
            let ghost e = digits_end(s, self.pos() + 1);
            self.advance();
            while self.peek_is_digit()
                invariant
                    self.wf(),
                    self.text() == s,
                    self.line_no() == old(self).line_no(),
                    self.tok_start() == old(self).tok_start(),
                    digits_end(s, self.pos()) == e,
                decreases s.len() - self.pos(),
            {
                self.advance();
            }
        }
        self.make_token(TokenType::Number)
    }

    /// Whether the character after the next one is a digit.
    fn next_is_digit(&self) -> (r: bool)
        requires
            self.wf(),
        ensures
            r == (self.pos() + 1 < self.text().len() && is_digit_char(self.text()[self.pos() + 1])),
    {
        self.chars.len() - self.current > 1 && Scanner::is_digit(self.chars[self.current + 1])
    }

    /// Scans the rest of a string literal whose opening quote has been taken.
    fn string(&mut self) -> (r: TokenResult)
        requires
            old(self).wf(),
            old(self).tok_start() + 1 == old(self).pos(),
        ensures
            final(self).wf(),
            final(self).text() == old(self).text(),
            ({
                let s = old(self).text();
                let e = string_end(s, old(self).pos());
                let l2 = old(self).line_no() + newlines(s, old(self).pos(), e);
                &&& final(self).line_no() == l2
                &&& r.line == l2
                &&& e >= s.len() ==> r.token_type == TokenType::Error && r.data is Err
                    && final(self).pos() == e
                &&& e < s.len() ==> r.token_type == TokenType::String && r.data is Ok
                    && final(self).pos() == e + 1 && r.data->Ok_0.start == old(self).pos()
                    && r.data->Ok_0.stop == e && r.data->Ok_0.lexeme@ == s.subrange(old(self).pos(), e)
            }),
    {
        // The opening quote is no part of the lexeme.
        self.start += 1;
        let ghost s = self.text();
        let ghost body_start = self.pos();
        let ghost e = string_end(s, body_start);
        while !self.peek_matches(&'"') && !self.is_eof()
            invariant
                self.wf(),
                self.text() == s,
                self.tok_start() == body_start,
                body_start <= self.pos(),
                string_end(s, self.pos()) == e,
                self.line_no() == old(self).line_no() + newlines(s, body_start, self.pos()),
            decreases s.len() - self.pos(),
        {
            let c = self.advance();
            if c == Some('\n') {
                self.line += 1;
            }
        }
        if self.is_eof() {
            self.make_error_token("Unterminated string.")
        } else {
            let return_token = self.make_token(TokenType::String);
            self.advance();
            return_token
        }
    }

    fn make_token_if_matches(&mut self, expected: &char, on_match: TokenType, otherwise: TokenType) -> (r: TokenResult)
        requires
            old(self).wf(),
        ensures
            final(self).wf(),
            final(self).text() == old(self).text(),
            final(self).line_no() == old(self).line_no(),
            final(self).tok_start() == old(self).tok_start(),
            ({
                let m = old(self).pos() < old(self).text().len() && old(self).text()[old(self).pos()] == *expected;
                &&& final(self).pos() == old(self).pos() + if m { 1int } else { 0int }
                &&& r.token_type == if m { on_match } else { otherwise }
            }),
            r.line == final(self).line_no(),
            r.data is Ok,
            r.data->Ok_0.start == final(self).tok_start(),
            r.data->Ok_0.stop == final(self).pos(),
            r.data->Ok_0.lexeme@ == final(self).text().subrange(final(self).tok_start(), final(self).pos()),
    {
        if self.matches(expected) {
            self.make_token(on_match)
        } else {
            self.make_token(otherwise)
        }
    }
}

impl Scanner {
    /// Scans the next token. Blanks and comments before it are skipped; at the
    /// end of the text every call yields an end-of-input token.
    pub fn scan_token(&mut self) -> (r: TokenResult)
        requires
            old(self).wf(),
        ensures
            final(self).wf(),
            final(self).text() == old(self).text(),
            ({
                let sc = scan_spec(old(self).text(), old(self).pos(), old(self).line_no());
                &&& final(self).pos() == sc.next
                &&& final(self).line_no() == sc.line
                &&& r.token_type == sc.kind
                &&& r.line == sc.line
                &&& (r.data is Err) == (sc.kind == TokenType::Error)
                &&& r.data is Ok ==> r.data->Ok_0.start == sc.start && r.data->Ok_0.stop == sc.stop
                    && r.data->Ok_0.lexeme@ == old(self).text().subrange(sc.start, sc.stop)
            }),
            old(self).pos() <= final(self).pos() <= final(self).text().len(),
            r.token_type != TokenType::Eof ==> old(self).pos() < final(self).pos(),
            r.token_type == TokenType::Eof ==> final(self).pos() == final(self).text().len(),
            old(self).pos() >= old(self).text().len() ==> r.token_type == TokenType::Eof,
            r.token_type == TokenType::Number ==> r.data is Ok && is_number_text(r.data->Ok_0.lexeme@),
    {
        proof {
            lemma_scan_bounds(self.text(), self.pos(), self.line_no());
        }
        self.skip_whitespace();
        self.start = self.current;
        match self.advance() {
            None => self.make_eof_token(),
            Some(c) => {
                if Scanner::is_alpha(c) {
                    self.identifier()
                } else if Scanner::is_digit(c) {
                    self.number()
                } else {
                    match c {
                        '(' => self.make_token(TokenType::LeftParen),
                        ')' => self.make_token(TokenType::RightParen),
                        '{' => self.make_token(TokenType::LeftBrace),
                        '}' => self.make_token(TokenType::RightBrace),
                        ';' => self.make_token(TokenType::Semicolon),
                        ',' => self.make_token(TokenType::Comma),
                        '.' => self.make_token(TokenType::Dot),
                        '-' => self.make_token(TokenType::Minus),
                        '+' => self.make_token(TokenType::Plus),
                        '/' => self.make_token(TokenType::Slash),
                        '*' => self.make_token(TokenType::Star),
                        '!' => self.make_token_if_matches(&'=', TokenType::BangEqual, TokenType::Bang),
                        '=' => self.make_token_if_matches(&'=', TokenType::EqualEqual, TokenType::Equal),
                        '<' => self.make_token_if_matches(&'=', TokenType::LessEqual, TokenType::Less),
                        '>' => self.make_token_if_matches(&'=', TokenType::GreaterEqual, TokenType::Greater),
                        '"' => self.string(),
                        _ => self.make_error_token("Unexpected character."),
                    }
                }
            },
        }
    }
}

/// Every character is a blank or a newline.
pub open spec fn all_blank(s: Seq<char>) -> bool {
    forall|i: int| 0 <= i < s.len() ==> (s[i] == ' ' || s[i] == '\t' || s[i] == '\r' || s[i] == '\n')
}

proof fn lemma_skip_blank(s: Seq<char>, p: int, line: int)
    requires
        all_blank(s),
        0 <= p <= s.len(),
    ensures
        skip_from(s, p, line, false).0 == s.len(),
    decreases s.len() - p,
{
    if p < s.len() {
        if s[p] == '\n' {
            lemma_skip_blank(s, p + 1, line + 1);
        } else {
            lemma_skip_blank(s, p + 1, line);
        }
    }
}

/// Text of blanks alone (or none) scans at once to the end of input, and a
/// scan from the end yields the end of input again and stays there.
pub proof fn blank_text_ends_at_once(s: Seq<char>, line: int)
    requires
        all_blank(s),
    ensures
        scan_spec(s, 0, line).kind == TokenType::Eof,
        scan_spec(s, 0, line).next == s.len(),
        forall|l: int|
            #![trigger scan_spec(s, s.len() as int, l)]
            scan_spec(s, s.len() as int, l).kind == TokenType::Eof && scan_spec(s, s.len() as int, l).next
                == s.len(),
{
    lemma_skip_blank(s, 0, line);
}

/// A number literal as a whole text: digits, optionally a dot with digits on
/// both sides.
pub open spec fn is_number_text(s: Seq<char>) -> bool {
    ||| (s.len() >= 1 && forall|i: int| 0 <= i < s.len() ==> is_digit_char(s[i]))
    ||| exists|k: int|
        1 <= k < s.len() - 1 && s[k] == '.' && forall|i: int|
            0 <= i < s.len() && i != k ==> is_digit_char(#[trigger] s[i])
}

proof fn lemma_digits_end(s: Seq<char>, p: int, e: int)
    requires
        0 <= p <= e <= s.len(),
        forall|i: int| p <= i < e ==> is_digit_char(s[i]),
        e == s.len() || !is_digit_char(s[e]),
    ensures
        digits_end(s, p) == e,
    decreases e - p,
{
    if p < e {
        lemma_digits_end(s, p + 1, e);
    }
}

/// A text that is one number literal scans as one Number token whose lexeme is
/// the whole text.
pub proof fn number_text_scans_whole(s: Seq<char>, line: int)
    requires
        is_number_text(s),
    ensures
        scan_spec(s, 0, line).kind == TokenType::Number,
        scan_spec(s, 0, line).start == 0,
        scan_spec(s, 0, line).stop == s.len(),
        s.subrange(scan_spec(s, 0, line).start, scan_spec(s, 0, line).stop) == s,
{
    assert(is_digit_char(s[0]));
    assert(skip_from(s, 0, line, false) == (0int, line));
    if forall|i: int| 0 <= i < s.len() ==> is_digit_char(s[i]) {
        lemma_digits_end(s, 1, s.len() as int);
    } else {
        let k = choose|k: int|
            1 <= k < s.len() - 1 && s[k] == '.' && forall|i: int|
                0 <= i < s.len() && i != k ==> is_digit_char(#[trigger] s[i]);
        lemma_digits_end(s, 1, k);
        assert(is_digit_char(s[k + 1]));
        lemma_digits_end(s, k + 2, s.len() as int);
    }
    assert(s.subrange(0, s.len() as int) =~= s);
}

proof fn lemma_skip_bounds(s: Seq<char>, p: int, line: int, c: bool)
    requires
        0 <= p <= s.len(),
    ensures
        p <= skip_from(s, p, line, c).0 <= s.len(),
    decreases s.len() - p,
{
    if p < s.len() {
        if c {
            if s[p] == '\n' {
                lemma_skip_bounds(s, p + 1, line + 1, false);
            } else {
                lemma_skip_bounds(s, p + 1, line, true);
            }
        } else if s[p] == ' ' || s[p] == '\t' || s[p] == '\r' {
            lemma_skip_bounds(s, p + 1, line, false);
        } else if s[p] == '\n' {
            lemma_skip_bounds(s, p + 1, line + 1, false);
        } else if s[p] == '/' && p + 1 < s.len() && s[p + 1] == '/' {
            lemma_skip_bounds(s, p + 2, line, true);
        }
    }
}

proof fn lemma_word_end(s: Seq<char>, p: int)
    requires
        0 <= p <= s.len(),
    ensures
        p <= word_end(s, p) <= s.len(),
    decreases s.len() - p,
{
    if p < s.len() {
        lemma_word_end(s, p + 1);
    }
}

proof fn lemma_digits_run(s: Seq<char>, p: int)
    requires
        0 <= p <= s.len(),
    ensures
        p <= digits_end(s, p) <= s.len(),
        forall|i: int| p <= i < digits_end(s, p) ==> is_digit_char(s[i]),
        digits_end(s, p) == s.len() || !is_digit_char(s[digits_end(s, p)]),
    decreases s.len() - p,
{
    if p < s.len() {
        lemma_digits_run(s, p + 1);
    }
}

proof fn lemma_string_end(s: Seq<char>, p: int)
    requires
        0 <= p <= s.len(),
    ensures
        p <= string_end(s, p) <= s.len(),
    decreases s.len() - p,
{
    if p < s.len() {
        lemma_string_end(s, p + 1);
    }
}

proof fn lemma_scan_bounds(s: Seq<char>, p: int, line: int)
    requires
        0 <= p <= s.len(),
    ensures
        ({
            let sc = scan_spec(s, p, line);
            &&& p <= sc.next <= s.len()
            &&& sc.kind != TokenType::Eof ==> p < sc.next
            &&& sc.kind == TokenType::Eof ==> sc.next == s.len()
            &&& p >= s.len() ==> sc.kind == TokenType::Eof
            &&& sc.kind == TokenType::Number ==> is_number_text(s.subrange(sc.start, sc.stop))
        }),
{
    lemma_skip_bounds(s, p, line, false);
    let q = skip_from(s, p, line, false).0;
    if q < s.len() {
        lemma_word_end(s, q + 1);
        lemma_string_end(s, q + 1);
        lemma_digits_run(s, q + 1);
        let d = digits_end(s, q + 1);
        if is_digit_char(s[q]) {
            let w = s.subrange(q, number_end(s, q));
            if d + 1 < s.len() && s[d] == '.' && is_digit_char(s[d + 1]) {
                lemma_digits_run(s, d + 2);
                let k = d - q;
                assert(w[k] == '.');
                assert forall|i: int| 0 <= i < w.len() && i != k implies is_digit_char(#[trigger] w[i]) by {
                    if i < k {
                        assert(w[i] == s[q + i]);
                    } else {
                        assert(w[i] == s[q + i]);
                    }
                }
            } else {
                assert forall|i: int| 0 <= i < w.len() implies is_digit_char(w[i]) by {
                    assert(w[i] == s[q + i]);
                }
            }
        }
    }
}

/// Operators are scanned by maximal munch: where one of `!`, `=`, `<`, `>` is
/// followed by `=`, the two characters form one token; otherwise the first
/// stands alone. So `==` is one EqualEqual, and `===` is EqualEqual, then Equal.
pub proof fn operators_munch_maximally(s: Seq<char>, p: int, line: int)
    requires
        0 <= p <= s.len(),
    ensures
        ({
            let q = skip_from(s, p, line, false).0;
            let sc = scan_spec(s, p, line);
            q < s.len() && pair_kinds(s[q]) is Some ==> if q + 1 < s.len() && s[q + 1] == '=' {
                sc.kind == pair_kinds(s[q])->Some_0.0 && sc.start == q && sc.stop == q + 2
            } else {
                sc.kind == pair_kinds(s[q])->Some_0.1 && sc.start == q && sc.stop == q + 1
            }
        }),
{
}

} // verus!
