//! The lexer: turns source text into tokens, proved against `lexical`.
use vstd::prelude::*;
use crate::lexical::{
    alnum_end, digits_end, is_alnum, is_alpha, is_digit, keyword_kind, lemma_step_advances, line_end,
    newlines, number_text, plain_token, quote_end, scan_from, step, strip_leading_zeros,
    strip_trailing_zeros, Step,
};
use crate::text::{chars_of, push_char};
use crate::token::{Literal, LiteralView, Token, TokenType, TokenView};

verus! {

/// Why scanning stopped, with the line on which it stopped.
#[derive(Debug, Clone, Copy, PartialEq, Eq, Structural)]
pub enum ScannerError {
    /// A character that starts no token.
    UnexpectedChar(usize),
    /// A string literal whose closing quote never came.
    UnterminatedString(usize),
}

/// The views of a sequence of tokens.
pub open spec fn tokens_view(ts: Seq<Token>) -> Seq<TokenView> {
    ts.map_values(|t: Token| t@)
}

/// The view of a scan's outcome.
pub open spec fn scan_result_view(r: Result<Vec<Token>, ScannerError>) -> Result<
    Seq<TokenView>,
    ScannerError,
> {
    match r {
        Ok(ts) => Ok(tokens_view(ts@)),
        Err(e) => Err(e),
    }
}

/// `done` followed by what `rest` produces, or the error of `rest`.
pub open spec fn prepend(done: Seq<TokenView>, rest: Result<Seq<TokenView>, ScannerError>) -> Result<
    Seq<TokenView>,
    ScannerError,
> {
    match rest {
        Ok(ts) => Ok(done + ts),
        Err(e) => Err(e),
    }
}

proof fn lemma_tokens_view_push(ts: Seq<Token>, t: Token)
    ensures
        tokens_view(ts.push(t)) == tokens_view(ts).push(t@),
{
    assert(tokens_view(ts.push(t)) =~= tokens_view(ts).push(t@));
}

fn is_digit_char(c: char) -> (r: bool)
    ensures
        r == is_digit(c),
{
    '0' <= c && c <= '9'
}

fn is_alpha_char(c: char) -> (r: bool)
    ensures
        r == is_alpha(c),
{
    ('a' <= c && c <= 'z') || ('A' <= c && c <= 'Z')
}

fn is_alnum_char(c: char) -> (r: bool)
    ensures
        r == is_alnum(c),
{
    is_digit_char(c) || is_alpha_char(c)
}

proof fn lemma_newlines_bound(s: Seq<char>)
    ensures
        newlines(s) <= s.len(),
    decreases s.len(),
{
    if s.len() > 0 {
        lemma_newlines_bound(s.drop_last());
    }
}

/// Converts source text into tokens, one pass from left to right.
pub struct Scanner {
    source: Vec<char>,
    start: usize,
    current: usize,
    line: usize,
}

impl Scanner {
    /// The characters being scanned.
    pub closed spec fn source(&self) -> Seq<char> {
        self.source@
    }

    /// Where scanning resumes.
    pub closed spec fn position(&self) -> nat {
        self.current as nat
    }

    /// The line that scanning has reached.
    pub closed spec fn current_line(&self) -> nat {
        self.line as nat
    }

    /// The scanner's state is consistent: the position lies in the source,
    /// and the line counter cannot outgrow the characters read.
    pub closed spec fn wf(&self) -> bool {
        &&& self.start <= self.current <= self.source.len()
        &&& self.source.len() < usize::MAX
        &&& 1 <= self.line <= self.current + 1
    }

    /// A scanner at the start of `source`, on line 1.
    pub fn new(source: String) -> (r: Self)
        requires
            source@.len() < usize::MAX,
        ensures
            r.wf(),
            r.source() == source@,
            r.position() == 0,
            r.current_line() == 1,
    {
        Scanner { source: chars_of(&source), start: 0, current: 0, line: 1 }
    }

    /// Scans from the current position to the end of the source. The tokens
    /// end with one end-of-input token; on the first character that starts no
    /// token, or an unterminated string, the error is returned instead.
    pub fn scan_tokens(&mut self) -> (r: Result<Vec<Token>, ScannerError>)
        requires
            old(self).wf(),
        ensures
            final(self).wf(),
            final(self).source() == old(self).source(),
            scan_result_view(r) == scan_from(
                old(self).source(),
                old(self).position() as int,
                old(self).current_line(),
            ),
    {
        let ghost src = self.source@;
        let ghost goal = scan_from(src, self.current as int, self.line as nat);
        let mut tokens: Vec<Token> = Vec::new();
        while !self.at_end()
            invariant
                self.wf(),
                self.source@ == src,
                src == old(self).source@,
                goal == scan_from(src, old(self).current as int, old(self).line as nat),
                goal == prepend(tokens_view(tokens@), scan_from(src, self.current as int, self.line as nat)),
            decreases src.len() - self.current,
        {
            self.start = self.current;
            let ghost before = tokens_view(tokens@);
            let ghost pos = self.current as int;
            let ghost line = self.line as nat;
            proof {
                lemma_step_advances(src, pos, line);
            }
            let res = self.scan_token(&mut tokens);
            if let Err(e) = res {
                return Err(e);
            }
            proof {
                match step(src, pos, line) {
                    Step::Emit(t, p, l) => {
                        assert(before + (seq![t] + scan_from(src, p, l)->Ok_0) =~= before.push(t)
                            + scan_from(src, p, l)->Ok_0);
                    },
                    _ => {},
                }
            }
        }
        let eof = Token::new(TokenType::Eof, String::new(), None, self.line);
        proof {
            lemma_tokens_view_push(tokens@, eof);
            assert(src.subrange(self.current as int, self.current as int) =~= Seq::<char>::empty());
            assert(tokens_view(tokens@) + seq![eof@] =~= tokens_view(tokens@).push(eof@));
        }
        tokens.push(eof);
        Ok(tokens)
    }

    fn at_end(&self) -> (r: bool)
        ensures
            r == (self.current >= self.source.len()),
    {
        self.current >= self.source.len()
    }

    /// Reads the token that starts at the current position.
    fn scan_token(&mut self, tokens: &mut Vec<Token>) -> (r: Result<(), ScannerError>)
        requires
            old(self).wf(),
            old(self).start == old(self).current,
            old(self).current < old(self).source.len(),
        ensures
            final(self).wf(),
            final(self).source@ == old(self).source@,
            match step(old(self).source@, old(self).current as int, old(self).line as nat) {
                Step::Emit(t, p, l) => {
                    &&& r is Ok
                    &&& tokens_view(final(tokens)@) == tokens_view(old(tokens)@).push(t)
                    &&& final(self).current == p
                    &&& final(self).line == l
                },
                Step::Skip(p, l) => {
                    &&& r is Ok
                    &&& final(tokens)@ == old(tokens)@
                    &&& final(self).current == p
                    &&& final(self).line == l
                },
                Step::Fail(e) => {
                    &&& r == Err::<(), ScannerError>(e)
                    &&& final(tokens)@ == old(tokens)@
                },
            },
    {
        let ghost src = self.source@;
        let ghost pos = self.current as int;
        let c = self.advance();
        if c == '(' {
            self.add_token(tokens, TokenType::LeftParen, None, self.line);
        } else if c == ')' {
            self.add_token(tokens, TokenType::RightParen, None, self.line);
        } else if c == '{' {
            self.add_token(tokens, TokenType::LeftBrace, None, self.line);
        } else if c == '}' {
            self.add_token(tokens, TokenType::RightBrace, None, self.line);
        } else if c == ',' {
            self.add_token(tokens, TokenType::Comma, None, self.line);
        } else if c == '.' {
            self.add_token(tokens, TokenType::Dot, None, self.line);
        } else if c == '-' {
            self.add_token(tokens, TokenType::Minus, None, self.line);
        } else if c == '+' {
            self.add_token(tokens, TokenType::Plus, None, self.line);
        } else if c == ';' {
            self.add_token(tokens, TokenType::Semicolon, None, self.line);
        } else if c == '*' {
            self.add_token(tokens, TokenType::Star, None, self.line);
        } else if c == '!' {
            let kind = if self.char_match('=') {
                TokenType::BangEqual
            } else {
                TokenType::Bang
            };
            self.add_token(tokens, kind, None, self.line);
        } else if c == '=' {
            let kind = if self.char_match('=') {
                TokenType::EqualEqual
            } else {
                TokenType::Equal
            };
            self.add_token(tokens, kind, None, self.line);
        } else if c == '<' {
            let kind = if self.char_match('=') {
                TokenType::LessEqual
            } else {
                TokenType::Less
            };
            self.add_token(tokens, kind, None, self.line);
        } else if c == '>' {
            let kind = if self.char_match('=') {
                TokenType::GreaterEqual
            } else {
                TokenType::Greater
            };
            self.add_token(tokens, kind, None, self.line);
        } else if c == '/' {
            if self.char_match('/') {
                while self.peek() != '\n' && !self.at_end()
                    invariant
                        self.wf(),
                        self.source@ == src,
                        self.line == old(self).line,
                        pos + 2 <= self.current,
                        line_end(src, pos + 2) == line_end(src, self.current as int),
                    decreases src.len() - self.current,
                {
                    self.advance();
                }
            } else {
                self.add_token(tokens, TokenType::Slash, None, self.line);
            }
        } else if c == ' ' || c == '\r' || c == '\t' {
        } else if c == '\n' {
            self.line = self.line + 1;
        } else if c == '"' {
            return self.string(tokens);
        } else if is_digit_char(c) {
            self.number(tokens);
        } else if is_alpha_char(c) {
            self.identifier(tokens);
        } else {
            return Err(ScannerError::UnexpectedChar(self.line));
        }
        Ok(())
    }

    fn advance(&mut self) -> (r: char)
        requires
            old(self).wf(),
            old(self).current < old(self).source.len(),
        ensures
            final(self).wf(),
            r == old(self).source@[old(self).current as int],
            final(self).current == old(self).current + 1,
            final(self).source@ == old(self).source@,
            final(self).start == old(self).start,
            final(self).line == old(self).line,
    {
        let c = self.source[self.current];
        self.current = self.current + 1;
        c
    }

    fn peek(&self) -> (r: char)
        ensures
            self.current < self.source.len() ==> r == self.source@[self.current as int],
            self.current >= self.source.len() ==> r == '\0',
    {
        if self.at_end() {
            '\0'
        } else {
            self.source[self.current]
        }
    }

    fn peek_next(&self) -> (r: char)
        requires
            self.current < usize::MAX,
        ensures
            self.current + 1 < self.source.len() ==> r == self.source@[self.current + 1],
            self.current + 1 >= self.source.len() ==> r == '\0',
    {
        if self.current + 1 >= self.source.len() {
            '\0'
        } else {
            self.source[self.current + 1]
        }
    }

    /// Consumes the current character if it is `expected`.
    fn char_match(&mut self, expected: char) -> (r: bool)
        requires
            old(self).wf(),
        ensures
            final(self).wf(),
            r == (old(self).current < old(self).source.len() && old(self).source@[old(
                self,
            ).current as int] == expected),
            final(self).current == old(self).current + if r {
                1int
            } else {
                0int
            },
            final(self).source@ == old(self).source@,
            final(self).start == old(self).start,
            final(self).line == old(self).line,
    {
        if self.at_end() {
            return false;
        }
        if self.source[self.current] != expected {
            return false;
        }
        self.current = self.current + 1;
        true
    }

    /// Appends the characters from `start` to `end` to `s`.
    fn push_range(&self, s: &mut String, start: usize, end: usize)
        requires
            start <= end <= self.source.len(),
        ensures
            final(s)@ == old(s)@ + self.source@.subrange(start as int, end as int),
    {
        let mut i = start;
        while i < end
            invariant
                start <= i <= end <= self.source.len(),
                s@ == old(s)@ + self.source@.subrange(start as int, i as int),
            decreases end - i,
        {
            push_char(s, self.source[i]);
            i = i + 1;
            assert(s@ =~= old(s)@ + self.source@.subrange(start as int, i as int));
        }
    }

    /// The characters from `start` to `end` as a `String`.
    fn substring(&self, start: usize, end: usize) -> (r: String)
        requires
            start <= end <= self.source.len(),
        ensures
            r@ == self.source@.subrange(start as int, end as int),
    {
        let mut s = String::new();
        self.push_range(&mut s, start, end);
        assert(s@ =~= self.source@.subrange(start as int, end as int));
        s
    }

    /// Reads the rest of a string literal whose opening quote is at `start`.
    fn string(&mut self, tokens: &mut Vec<Token>) -> (r: Result<(), ScannerError>)
        requires
            old(self).wf(),
            old(self).current == old(self).start + 1,
            old(self).line <= old(self).current,
        ensures
            final(self).wf(),
            final(self).source@ == old(self).source@,
            ({
                let src = old(self).source@;
                let e = quote_end(src, old(self).current as int);
                let l = (old(self).line + newlines(src.subrange(old(self).current as int, e))) as nat;
                if e >= src.len() {
                    &&& r == Err::<(), ScannerError>(ScannerError::UnterminatedString(l as usize))
                    &&& final(tokens)@ == old(tokens)@
                } else {
                    &&& r is Ok
                    &&& tokens_view(final(tokens)@) == tokens_view(old(tokens)@).push(
                        TokenView {
                            kind: TokenType::LoxString,
                            lexeme: src.subrange(old(self).start as int, e + 1),
                            literal: Some(LiteralView::Str(src.subrange(old(self).current as int, e))),
                            line: old(self).line as nat,
                        },
                    )
                    &&& final(self).current == e + 1
                    &&& final(self).line == l
                }
            }),
    {
        let ghost src = self.source@;
        let ghost first = self.current as int;
        let start_line = self.line;
        while self.peek() != '"' && !self.at_end()
            invariant
                self.wf(),
                self.source@ == src,
                self.start == old(self).start,
                first == old(self).current,
                first <= self.current,
                quote_end(src, first) == quote_end(src, self.current as int),
                self.line == old(self).line + newlines(src.subrange(first, self.current as int)),
                self.line <= self.current,
            decreases src.len() - self.current,
        {
            let ghost cur = self.current as int;
            proof {
                lemma_newlines_bound(src.subrange(first, cur));
                assert(src.subrange(first, cur + 1).drop_last() =~= src.subrange(first, cur));
            }
            if self.peek() == '\n' {
                self.line = self.line + 1;
            }
            self.advance();
        }
        if self.at_end() {
            return Err(ScannerError::UnterminatedString(self.line));
        }
        self.advance();
        let value = self.substring(self.start + 1, self.current - 1);
        self.add_token(tokens, TokenType::LoxString, Some(Literal::LoxString(value)), start_line);
        Ok(())
    }

    /// Canonical text of the number with whole part `start..w` and fraction
    /// `fstart..fend`.
    fn number_literal(&self, start: usize, w: usize, fstart: usize, fend: usize) -> (r: String)
        requires
            start < w <= self.source.len(),
            fstart <= fend <= self.source.len(),
        ensures
            r@ == number_text(
                self.source@.subrange(start as int, w as int),
                self.source@.subrange(fstart as int, fend as int),
            ),
    {
        let ghost src = self.source@;
        let mut i = start;
        while i + 1 < w && self.source[i] == '0'
            invariant
                start <= i < w <= src.len(),
                src == self.source@,
                strip_leading_zeros(src.subrange(start as int, w as int)) == strip_leading_zeros(
                    src.subrange(i as int, w as int),
                ),
            decreases w - i,
        {
            assert(src.subrange(i as int, w as int).drop_first() =~= src.subrange(i + 1, w as int));
            i = i + 1;
        }
        let mut j = fend;
        while j > fstart && self.source[j - 1] == '0'
            invariant
                fstart <= j <= fend <= src.len(),
                src == self.source@,
                strip_trailing_zeros(src.subrange(fstart as int, fend as int))
                    == strip_trailing_zeros(src.subrange(fstart as int, j as int)),
            decreases j,
        {
            assert(src.subrange(fstart as int, j as int).drop_last() =~= src.subrange(
                fstart as int,
                j - 1,
            ));
            j = j - 1;
        }
        let mut s = String::new();
        self.push_range(&mut s, i, w);
        if j > fstart {
            push_char(&mut s, '.');
            self.push_range(&mut s, fstart, j);
        }
        assert(s@ =~= number_text(
            src.subrange(start as int, w as int),
            src.subrange(fstart as int, fend as int),
        ));
        s
    }

    /// Reads the rest of a number whose first digit is at `start`.
    fn number(&mut self, tokens: &mut Vec<Token>)
        requires
            old(self).wf(),
            old(self).current == old(self).start + 1,
            is_digit(old(self).source@[old(self).start as int]),
        ensures
            final(self).wf(),
            final(self).source@ == old(self).source@,
            final(self).line == old(self).line,
            ({
                let src = old(self).source@;
                let pos = old(self).start as int;
                let w = digits_end(src, pos);
                let has_frac = w + 1 < src.len() && src[w] == '.' && is_digit(src[w + 1]);
                let e = if has_frac {
                    digits_end(src, w + 1)
                } else {
                    w
                };
                let frac = if has_frac {
                    src.subrange(w + 1, e)
                } else {
                    Seq::empty()
                };
                &&& tokens_view(final(tokens)@) == tokens_view(old(tokens)@).push(
                    TokenView {
                        kind: TokenType::Number,
                        lexeme: src.subrange(pos, e),
                        literal: Some(LiteralView::Num(number_text(src.subrange(pos, w), frac))),
                        line: old(self).line as nat,
                    },
                )
                &&& final(self).current == e
            }),
    {
        let ghost src = self.source@;
        let ghost pos = self.start as int;
        while is_digit_char(self.peek())
            invariant
                self.wf(),
                self.source@ == src,
                self.start == old(self).start,
                self.line == old(self).line,
                pos < self.current,
                digits_end(src, pos) == digits_end(src, self.current as int),
            decreases src.len() - self.current,
        {
            self.advance();
        }
        let w = self.current;
        let mut fstart = w;
        if self.peek() == '.' && is_digit_char(self.peek_next()) {
            self.advance();
            fstart = self.current;
            while is_digit_char(self.peek())
                invariant
                    self.wf(),
                    self.source@ == src,
                    self.start == old(self).start,
                    self.line == old(self).line,
                    w + 1 <= self.current,
                    digits_end(src, w + 1) == digits_end(src, self.current as int),
                decreases src.len() - self.current,
            {
                self.advance();
            }
        }
        let text = self.number_literal(self.start, w, fstart, self.current);
        proof {
            if fstart == w {
                assert(src.subrange(fstart as int, self.current as int) =~= Seq::<char>::empty());
            }
        }
        self.add_token(tokens, TokenType::Number, Some(Literal::Number(text)), self.line);
    }

    /// Whether the characters from `start` to `end` spell `word`.
    fn spells(&self, start: usize, end: usize, word: &Vec<char>) -> (r: bool)
        requires
            start <= end <= self.source.len(),
        ensures
            r == (self.source@.subrange(start as int, end as int) == word@),
    {
        if end - start != word.len() {
            return false;
        }
        let mut k: usize = 0;
        while k < word.len()
            invariant
                start <= end <= self.source.len(),
                end - start == word.len(),
                k <= word.len(),
                forall|m: int| 0 <= m < k ==> self.source@[start + m] == word@[m],
            decreases word.len() - k,
        {
            if self.source[start + k] != word[k] {
                return false;
            }
            k = k + 1;
        }
        assert(self.source@.subrange(start as int, end as int) =~= word@);
        true
    }

    /// The reserved word spelled from `start` to `end`, or `Identifier`.
    fn keyword(&self, start: usize, end: usize) -> (r: TokenType)
        requires
            start <= end <= self.source.len(),
        ensures
            r == keyword_kind(self.source@.subrange(start as int, end as int)),
    {
        if self.spells(start, end, &vec!['a', 'n', 'd']) {
            TokenType::And
        } else if self.spells(start, end, &vec!['c', 'l', 'a', 's', 's']) {
            TokenType::Class
        } else if self.spells(start, end, &vec!['e', 'l', 's', 'e']) {
            TokenType::Else
        } else if self.spells(start, end, &vec!['f', 'a', 'l', 's', 'e']) {
            TokenType::False
        } else if self.spells(start, end, &vec!['f', 'o', 'r']) {
            TokenType::For
        } else if self.spells(start, end, &vec!['f', 'u', 'n']) {
            TokenType::Fun
        } else if self.spells(start, end, &vec!['i', 'f']) {
            TokenType::If
        } else if self.spells(start, end, &vec!['n', 'i', 'l']) {
            TokenType::Nil
        } else if self.spells(start, end, &vec!['o', 'r']) {
            TokenType::Or
        } else if self.spells(start, end, &vec!['p', 'r', 'i', 'n', 't']) {
            TokenType::Print
        } else if self.spells(start, end, &vec!['r', 'e', 't', 'u', 'r', 'n']) {
            TokenType::Return
        } else if self.spells(start, end, &vec!['s', 'u', 'p', 'e', 'r']) {
            TokenType::Super
        } else if self.spells(start, end, &vec!['t', 'h', 'i', 's']) {
            TokenType::This
        } else if self.spells(start, end, &vec!['t', 'r', 'u', 'e']) {
            TokenType::True
        } else if self.spells(start, end, &vec!['v', 'a', 'r']) {
            TokenType::Var
        } else if self.spells(start, end, &vec!['w', 'h', 'i', 'l', 'e']) {
            TokenType::While
        } else {
            TokenType::Identifier
        }
    }

    /// Reads the rest of a word whose first letter is at `start`.
    fn identifier(&mut self, tokens: &mut Vec<Token>)
        requires
            old(self).wf(),
            old(self).current == old(self).start + 1,
            is_alpha(old(self).source@[old(self).start as int]),
        ensures
            final(self).wf(),
            final(self).source@ == old(self).source@,
            final(self).line == old(self).line,
            ({
                let src = old(self).source@;
                let pos = old(self).start as int;
                let e = alnum_end(src, pos);
                &&& tokens_view(final(tokens)@) == tokens_view(old(tokens)@).push(
                    plain_token(keyword_kind(src.subrange(pos, e)), src, pos, e, old(self).line as nat),
                )
                &&& final(self).current == e
            }),
    {
        let ghost src = self.source@;
        let ghost pos = self.start as int;
        while is_alnum_char(self.peek())
            invariant
                self.wf(),
                self.source@ == src,
                self.start == old(self).start,
                self.line == old(self).line,
                pos < self.current,
                alnum_end(src, pos) == alnum_end(src, self.current as int),
            decreases src.len() - self.current,
        {
            self.advance();
        }
        let kind = self.keyword(self.start, self.current);
        self.add_token(tokens, kind, None, self.line);
    }

    /// Adds the token spelled from `start` to the current position, on `line`.
    fn add_token(
        &self,
        tokens: &mut Vec<Token>,
        kind: TokenType,
        literal: Option<Literal>,
        line: usize,
    )
        requires
            self.start <= self.current <= self.source.len(),
        ensures
            tokens_view(final(tokens)@) == tokens_view(old(tokens)@).push(
                TokenView {
                    kind,
                    lexeme: self.source@.subrange(self.start as int, self.current as int),
                    literal: crate::token::literal_option_view(literal),
                    line: line as nat,
                },
            ),
    {
        let text = self.substring(self.start, self.current);
        let t = Token::new(kind, text, literal, line);
        proof {
            lemma_tokens_view_push(old(tokens)@, t);
        }
        tokens.push(t);
    }
}

} // verus!
