//! The lexical grammar as spec functions: what the lexer does at each
//! position, and what it produces from a whole source.
use vstd::prelude::*;
use crate::scanner::ScannerError;
use crate::token::{LiteralView, TokenType, TokenView};

verus! {

pub open spec fn is_digit(c: char) -> bool {
    '0' <= c && c <= '9'
}

pub open spec fn is_alpha(c: char) -> bool {
    ('a' <= c && c <= 'z') || ('A' <= c && c <= 'Z')
}

pub open spec fn is_alnum(c: char) -> bool {
    is_digit(c) || is_alpha(c)
}

/// End of the run of digits that starts at `i`.
pub open spec fn digits_end(src: Seq<char>, i: int) -> int
    decreases src.len() - i,
{
    if 0 <= i < src.len() && is_digit(src[i]) {
        digits_end(src, i + 1)
    } else {
        i
    }
}

/// End of the run of letters and digits that starts at `i`.
pub open spec fn alnum_end(src: Seq<char>, i: int) -> int
    decreases src.len() - i,
{
    if 0 <= i < src.len() && is_alnum(src[i]) {
        alnum_end(src, i + 1)
    } else {
        i
    }
}

/// Position of the first newline at or after `i`, or the end of the source.
pub open spec fn line_end(src: Seq<char>, i: int) -> int
    decreases src.len() - i,
{
    if 0 <= i < src.len() && src[i] != '\n' {
        line_end(src, i + 1)
    } else {
        i
    }
}

/// Position of the first double quote at or after `i`, or the end of the source.
pub open spec fn quote_end(src: Seq<char>, i: int) -> int
    decreases src.len() - i,
{
    if 0 <= i < src.len() && src[i] != '"' {
        quote_end(src, i + 1)
    } else {
        i
    }
}

/// Number of newline characters in `s`.
pub open spec fn newlines(s: Seq<char>) -> nat
    decreases s.len(),
{
    if s.len() == 0 {
        0
    } else {
        newlines(s.drop_last()) + if s.last() == '\n' {
            1nat
        } else {
            0nat
        }
    }
}

/// The reserved word that `s` spells, or `Identifier`.
pub open spec fn keyword_kind(s: Seq<char>) -> TokenType {
    if s == seq!['a', 'n', 'd'] {
        TokenType::And
    } else if s == seq!['c', 'l', 'a', 's', 's'] {
        TokenType::Class
    } else if s == seq!['e', 'l', 's', 'e'] {
        TokenType::Else
    } else if s == seq!['f', 'a', 'l', 's', 'e'] {
        TokenType::False
    } else if s == seq!['f', 'o', 'r'] {
        TokenType::For
    } else if s == seq!['f', 'u', 'n'] {
        TokenType::Fun
    } else if s == seq!['i', 'f'] {
        TokenType::If
    } else if s == seq!['n', 'i', 'l'] {
        TokenType::Nil
    } else if s == seq!['o', 'r'] {
        TokenType::Or
    } else if s == seq!['p', 'r', 'i', 'n', 't'] {
        TokenType::Print
    } else if s == seq!['r', 'e', 't', 'u', 'r', 'n'] {
        TokenType::Return
    } else if s == seq!['s', 'u', 'p', 'e', 'r'] {
        TokenType::Super
    } else if s == seq!['t', 'h', 'i', 's'] {
        TokenType::This
    } else if s == seq!['t', 'r', 'u', 'e'] {
        TokenType::True
    } else if s == seq!['v', 'a', 'r'] {
        TokenType::Var
    } else if s == seq!['w', 'h', 'i', 'l', 'e'] {
        TokenType::While
    } else {
        TokenType::Identifier
    }
}

/// The kind of a character that is a token on its own, whatever follows it.
pub open spec fn single_char_kind(c: char) -> Option<TokenType> {
    if c == '(' {
        Some(TokenType::LeftParen)
    } else if c == ')' {
        Some(TokenType::RightParen)
    } else if c == '{' {
        Some(TokenType::LeftBrace)
    } else if c == '}' {
        Some(TokenType::RightBrace)
    } else if c == ',' {
        Some(TokenType::Comma)
    } else if c == '.' {
        Some(TokenType::Dot)
    } else if c == '-' {
        Some(TokenType::Minus)
    } else if c == '+' {
        Some(TokenType::Plus)
    } else if c == ';' {
        Some(TokenType::Semicolon)
    } else if c == '*' {
        Some(TokenType::Star)
    } else {
        None
    }
}

/// For `!`, `=`, `<` and `>`: the kinds of the operator alone and followed by `=`.
pub open spec fn operator_kinds(c: char) -> Option<(TokenType, TokenType)> {
    if c == '!' {
        Some((TokenType::Bang, TokenType::BangEqual))
    } else if c == '=' {
        Some((TokenType::Equal, TokenType::EqualEqual))
    } else if c == '<' {
        Some((TokenType::Less, TokenType::LessEqual))
    } else if c == '>' {
        Some((TokenType::Greater, TokenType::GreaterEqual))
    } else {
        None
    }
}

/// `s` without its leading zeros, keeping at least one character.
pub open spec fn strip_leading_zeros(s: Seq<char>) -> Seq<char>
    decreases s.len(),
{
    if s.len() > 1 && s[0] == '0' {
        strip_leading_zeros(s.drop_first())
    } else {
        s
    }
}

/// `s` without its trailing zeros.
pub open spec fn strip_trailing_zeros(s: Seq<char>) -> Seq<char>
    decreases s.len(),
{
    if s.len() > 0 && s.last() == '0' {
        strip_trailing_zeros(s.drop_last())
    } else {
        s
    }
}

/// Canonical text of the decimal number with digits `whole` before the point
/// and `frac` after it.
pub open spec fn number_text(whole: Seq<char>, frac: Seq<char>) -> Seq<char> {
    let w = strip_leading_zeros(whole);
    let f = strip_trailing_zeros(frac);
    if f.len() == 0 {
        w
    } else {
        w + seq!['.'] + f
    }
}

/// A token without a decoded value, spelled by `src[start..end]`.
pub open spec fn plain_token(kind: TokenType, src: Seq<char>, start: int, end: int, line: nat)
    -> TokenView {
    TokenView { kind, lexeme: src.subrange(start, end), literal: None, line }
}

/// What the lexer does at one position.
pub enum Step {
    /// A token is produced; scanning resumes at the position, on the line.
    Emit(TokenView, int, nat),
    /// Nothing is produced; scanning resumes at the position, on the line.
    Skip(int, nat),
    /// Scanning stops.
    Fail(ScannerError),
}

/// The lexer's action at position `pos` of `src` (with `pos` inside `src`)
/// when the current line is `line`.
pub open spec fn step(src: Seq<char>, pos: int, line: nat) -> Step {
    let c = src[pos];
    let next_is = |x: char| pos + 1 < src.len() && src[pos + 1] == x;
    if single_char_kind(c) is Some {
        Step::Emit(plain_token(single_char_kind(c)->0, src, pos, pos + 1, line), pos + 1, line)
    } else if operator_kinds(c) is Some {
        let (alone, with_eq) = operator_kinds(c)->0;
        if next_is('=') {
            Step::Emit(plain_token(with_eq, src, pos, pos + 2, line), pos + 2, line)
        } else {
            Step::Emit(plain_token(alone, src, pos, pos + 1, line), pos + 1, line)
        }
    } else if c == '/' {
        if next_is('/') {
            Step::Skip(line_end(src, pos + 2), line)
        } else {
            Step::Emit(plain_token(TokenType::Slash, src, pos, pos + 1, line), pos + 1, line)
        }
    } else if c == ' ' || c == '\r' || c == '\t' {
        Step::Skip(pos + 1, line)
    } else if c == '\n' {
        Step::Skip(pos + 1, line + 1)
    } else if c == '"' {
        let e = quote_end(src, pos + 1);
        let l = line + newlines(src.subrange(pos + 1, e));
        if e >= src.len() {
            Step::Fail(ScannerError::UnterminatedString(l as usize))
        } else {
            Step::Emit(
                TokenView {
                    kind: TokenType::LoxString,
                    lexeme: src.subrange(pos, e + 1),
                    literal: Some(LiteralView::Str(src.subrange(pos + 1, e))),
                    line,
                },
                e + 1,
                l,
            )
        }
    } else if is_digit(c) {
        let w = digits_end(src, pos);
        let has_frac = w + 1 < src.len() && src[w] == '.' && is_digit(src[w + 1]);
        let e = if has_frac {
            digits_end(src, w + 1)
        } else {
            w
        };
        let frac = if has_frac {
            src.subrange(w + 1, e)
        } else {
            Seq::empty()
        };
        Step::Emit(
            TokenView {
                kind: TokenType::Number,
                lexeme: src.subrange(pos, e),
                literal: Some(LiteralView::Num(number_text(src.subrange(pos, w), frac))),
                line,
            },
            e,
            line,
        )
    } else if is_alpha(c) {
        let e = alnum_end(src, pos);
        Step::Emit(plain_token(keyword_kind(src.subrange(pos, e)), src, pos, e, line), e, line)
    } else {
        Step::Fail(ScannerError::UnexpectedChar(line as usize))
    }
}

proof fn lemma_digits_end(src: Seq<char>, i: int)
    requires
        0 <= i <= src.len(),
    ensures
        i <= digits_end(src, i) <= src.len(),
        forall|k: int| i <= k < digits_end(src, i) ==> is_digit(src[k]),
        digits_end(src, i) < src.len() ==> !is_digit(src[digits_end(src, i)]),
    decreases src.len() - i,
{
    if i < src.len() && is_digit(src[i]) {
        lemma_digits_end(src, i + 1);
    }
}

proof fn lemma_alnum_end(src: Seq<char>, i: int)
    requires
        0 <= i <= src.len(),
    ensures
        i <= alnum_end(src, i) <= src.len(),
    decreases src.len() - i,
{
    if i < src.len() && is_alnum(src[i]) {
        lemma_alnum_end(src, i + 1);
    }
}

proof fn lemma_line_end(src: Seq<char>, i: int)
    requires
        0 <= i <= src.len(),
    ensures
        i <= line_end(src, i) <= src.len(),
    decreases src.len() - i,
{
    if i < src.len() && src[i] != '\n' {
        lemma_line_end(src, i + 1);
    }
}

proof fn lemma_quote_end(src: Seq<char>, i: int)
    requires
        0 <= i <= src.len(),
    ensures
        i <= quote_end(src, i) <= src.len(),
        quote_end(src, i) < src.len() ==> src[quote_end(src, i)] == '"',
    decreases src.len() - i,
{
    if i < src.len() && src[i] != '"' {
        lemma_quote_end(src, i + 1);
    }
}

/// Every step that does not fail moves forward and stays inside the source.
pub proof fn lemma_step_advances(src: Seq<char>, pos: int, line: nat)
    requires
        0 <= pos < src.len(),
    ensures
        match step(src, pos, line) {
            Step::Emit(_, p, _) => pos < p <= src.len(),
            Step::Skip(p, _) => pos < p <= src.len(),
            Step::Fail(_) => true,
        },
{
    let c = src[pos];
    if c == '/' && pos + 1 < src.len() && src[pos + 1] == '/' {
        lemma_line_end(src, pos + 2);
    } else if c == '"' {
        lemma_quote_end(src, pos + 1);
    } else if is_digit(c) {
        lemma_digits_end(src, pos + 1);
        let w = digits_end(src, pos);
        if w + 1 < src.len() && src[w] == '.' && is_digit(src[w + 1]) {
            lemma_digits_end(src, w + 1);
        }
    } else if is_alpha(c) {
        lemma_alnum_end(src, pos + 1);
    }
}

/// The tokens that the lexer produces from position `pos` on, starting on
/// `line`: everything up to the end of the source, then one end-of-input
/// token; or the first error.
pub open spec fn scan_from(src: Seq<char>, pos: int, line: nat) -> Result<
    Seq<TokenView>,
    ScannerError,
>
    decreases src.len() - pos,
{
    if pos < 0 || pos >= src.len() {
        Ok(seq![plain_token(TokenType::Eof, src, pos, pos, line)])
    } else {
        proof {
            lemma_step_advances(src, pos, line);
        }
        match step(src, pos, line) {
            Step::Emit(t, p, l) => match scan_from(src, p, l) {
                Ok(ts) => Ok(seq![t] + ts),
                Err(e) => Err(e),
            },
            Step::Skip(p, l) => scan_from(src, p, l),
            Step::Fail(e) => Err(e),
        }
    }
}

/// The result of lexing the whole of `src`.
pub open spec fn scan_spec(src: Seq<char>) -> Result<Seq<TokenView>, ScannerError> {
    scan_from(src, 0, 1)
}

/// The kind of token that `s` spells when it is exactly one punctuation
/// mark or one operator of one or two characters.
pub open spec fn single_token_kind(s: Seq<char>) -> Option<TokenType> {
    if s.len() == 1 && single_char_kind(s[0]) is Some {
        single_char_kind(s[0])
    } else if s.len() == 1 && operator_kinds(s[0]) is Some {
        Some((operator_kinds(s[0])->0).0)
    } else if s.len() == 2 && operator_kinds(s[0]) is Some && s[1] == '=' {
        Some((operator_kinds(s[0])->0).1)
    } else if s == seq!['/'] {
        Some(TokenType::Slash)
    } else {
        None
    }
}

/// Scanning a source that is exactly one punctuation mark or operator yields
/// that token and then the end-of-input token, both on line 1.
pub proof fn lemma_single_token_scan(s: Seq<char>)
    requires
        single_token_kind(s) is Some,
    ensures
        scan_spec(s) == Ok::<Seq<TokenView>, ScannerError>(
            seq![
                plain_token(single_token_kind(s)->0, s, 0, s.len() as int, 1),
                plain_token(TokenType::Eof, s, s.len() as int, s.len() as int, 1),
            ],
        ),
{
    let n = s.len() as int;
    let eof = plain_token(TokenType::Eof, s, n, n, 1);
    assert(scan_from(s, n, 1) == Ok::<Seq<TokenView>, ScannerError>(seq![eof]));
    let t = plain_token(single_token_kind(s)->0, s, 0, n, 1);
    assert(step(s, 0, 1) == Step::Emit(t, n, 1));
    assert(seq![t] + seq![eof] =~= seq![t, eof]);
}

/// The tokens end with one end-of-input token, and no other token is one.
pub open spec fn ends_with_single_eof(ts: Seq<TokenView>) -> bool {
    &&& ts.len() >= 1
    &&& ts.last().kind == TokenType::Eof
    &&& forall|i: int| 0 <= i < ts.len() - 1 ==> ts[i].kind != TokenType::Eof
}

proof fn lemma_scan_from_single_eof(src: Seq<char>, pos: int, line: nat)
    requires
        0 <= pos,
    ensures
        scan_from(src, pos, line) is Ok ==> ends_with_single_eof(scan_from(src, pos, line)->Ok_0),
    decreases src.len() - pos,
{
    if pos < src.len() {
        lemma_step_advances(src, pos, line);
        match step(src, pos, line) {
            Step::Emit(t, p, l) => {
                lemma_scan_from_single_eof(src, p, l);
                if scan_from(src, p, l) is Ok {
                    let rest = scan_from(src, p, l)->Ok_0;
                    let all = seq![t] + rest;
                    assert(t.kind != TokenType::Eof);
                    assert(all.last() == rest.last());
                    assert forall|i: int| 0 <= i < all.len() - 1 implies all[i].kind
                        != TokenType::Eof by {
                        if i > 0 {
                            assert(all[i] == rest[i - 1]);
                        }
                    }
                }
            },
            Step::Skip(p, l) => {
                lemma_scan_from_single_eof(src, p, l);
            },
            Step::Fail(_) => {},
        }
    }
}

/// Whenever scanning succeeds, the tokens end with exactly one end-of-input
/// token.
pub proof fn lemma_scan_ends_with_single_eof(src: Seq<char>)
    ensures
        scan_spec(src) is Ok ==> ends_with_single_eof(scan_spec(src)->Ok_0),
{
    lemma_scan_from_single_eof(src, 0, 1);
}

} // verus!
