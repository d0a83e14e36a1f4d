//! The recursive-descent parser, proved against `grammar`.
use vstd::prelude::*;
use crate::expr::Expr;
use crate::grammar::{
    comparison, comparison_ops, comparison_rest, equality, equality_ops, equality_rest, expression,
    factor, factor_ops, factor_rest, kind_in, primary, term, term_ops, term_rest, unary,
    unary_ops, boundary_from, recovery_point,
    ParseErrorView, ParseOutcome,
};
use crate::scanner::tokens_view;
use crate::token::{Literal, Token, TokenType, TokenView};

verus! {

/// Why parsing stopped: the offending token and a fixed message.
#[derive(Debug)]
pub enum ParseError {
    /// A `(` whose `)` is missing; the token holds what came instead.
    UnbalancedParens(Token, String),
    /// A token that cannot start an operand.
    UnknownPrimary(Token, String),
}

impl View for ParseError {
    type V = ParseErrorView;

    open spec fn view(&self) -> ParseErrorView {
        match self {
            ParseError::UnbalancedParens(t, m) => ParseErrorView::UnbalancedParens(t@, m@),
            ParseError::UnknownPrimary(t, m) => ParseErrorView::UnknownPrimary(t@, m@),
        }
    }
}

/// The view of a parse that stopped at `cur`.
pub open spec fn outcome_view(r: Result<Box<Expr>, ParseError>, cur: usize) -> ParseOutcome {
    match r {
        Ok(e) => Ok(((*e)@, cur as int)),
        Err(e) => Err((e@, cur as int)),
    }
}

/// Recursive-descent parser over a token sequence that ends with end of input.
pub struct Parser {
    tokens: Vec<Token>,
    current: usize,
}

impl Parser {
    /// The views of the tokens being parsed.
    pub closed spec fn tokens(&self) -> Seq<TokenView> {
        tokens_view(self.tokens@)
    }

    /// The position of the next token to read.
    pub closed spec fn position(&self) -> nat {
        self.current as nat
    }

    /// The tokens end with end of input, and the position lies on a token.
    pub closed spec fn wf(&self) -> bool {
        &&& self.tokens.len() > 0
        &&& self.tokens@.last().token_type == TokenType::Eof
        &&& self.current < self.tokens.len()
    }

    pub fn new(tokens: Vec<Token>) -> (r: Self)
        requires
            tokens.len() > 0,
            tokens@.last().token_type == TokenType::Eof,
        ensures
            r.wf(),
            r.tokens() == tokens_view(tokens@),
            r.position() == 0,
    {
        Parser { tokens, current: 0 }
    }

    /// Parses one expression from the current position; stops at the first error.
    pub fn parse(&mut self) -> (r: Result<Box<Expr>, ParseError>)
        requires
            old(self).wf(),
        ensures
            final(self).wf(),
            final(self).tokens() == old(self).tokens(),
            outcome_view(r, final(self).position() as usize) == expression(
                old(self).tokens(),
                old(self).position() as int,
            ),
    {
        self.expression()
    }

    fn expression(&mut self) -> (r: Result<Box<Expr>, ParseError>)
        requires
            old(self).wf(),
        ensures
            final(self).wf(),
            final(self).tokens@ == old(self).tokens@,
            outcome_view(r, final(self).current) == expression(
                tokens_view(old(self).tokens@),
                old(self).current as int,
            ),
            r is Ok ==> old(self).current < final(self).current,
        decreases old(self).tokens.len() - old(self).current, 7nat,
    {
        self.equality()
    }

    #[verifier::rlimit(40)]
    fn equality(&mut self) -> (r: Result<Box<Expr>, ParseError>)
        requires
            old(self).wf(),
        ensures
            final(self).wf(),
            final(self).tokens@ == old(self).tokens@,
            outcome_view(r, final(self).current) == equality(
                tokens_view(old(self).tokens@),
                old(self).current as int,
            ),
            r is Ok ==> old(self).current < final(self).current,
        decreases old(self).tokens.len() - old(self).current, 6nat,
    {
        let ghost toks = tokens_view(self.tokens@);
        let ghost p = self.current as int;
        let mut expr = match self.comparison() {
            Ok(e) => e,
            Err(e) => {
                return Err(e);
            },
        };
        let kinds = [TokenType::BangEqual, TokenType::EqualEqual];
        proof {
            assert(kinds@ == equality_ops());
        }
        while self.token_match(&kinds)
            invariant
                self.wf(),
                tokens_view(self.tokens@) == toks,
                self.tokens@ == old(self).tokens@,
                p == old(self).current,
                p < self.current,
                kinds@ == equality_ops(),
                equality(toks, p) == equality_rest(toks, self.current as int, expr@),
            decreases self.tokens.len() - self.current,
        {
            let operator = self.previous();
            let right = match self.comparison() {
                Ok(e) => e,
                Err(e) => {
                    return Err(e);
                },
            };
            expr = Box::new(Expr::Binary(expr, operator, right));
        }
        Ok(expr)
    }

    #[verifier::rlimit(40)]
    fn comparison(&mut self) -> (r: Result<Box<Expr>, ParseError>)
        requires
            old(self).wf(),
        ensures
            final(self).wf(),
            final(self).tokens@ == old(self).tokens@,
            outcome_view(r, final(self).current) == comparison(
                tokens_view(old(self).tokens@),
                old(self).current as int,
            ),
            r is Ok ==> old(self).current < final(self).current,
        decreases old(self).tokens.len() - old(self).current, 5nat,
    {
        let ghost toks = tokens_view(self.tokens@);
        let ghost p = self.current as int;
        let mut expr = match self.term() {
            Ok(e) => e,
            Err(e) => {
                return Err(e);
            },
        };
        let kinds = [TokenType::Greater, TokenType::GreaterEqual, TokenType::Less, TokenType::LessEqual];
        proof {
            assert(kinds@ == comparison_ops());
        }
        while self.token_match(&kinds)
            invariant
                self.wf(),
                tokens_view(self.tokens@) == toks,
                self.tokens@ == old(self).tokens@,
                p == old(self).current,
                p < self.current,
                kinds@ == comparison_ops(),
                comparison(toks, p) == comparison_rest(toks, self.current as int, expr@),
            decreases self.tokens.len() - self.current,
        {
            let operator = self.previous();
            let right = match self.term() {
                Ok(e) => e,
                Err(e) => {
                    return Err(e);
                },
            };
            expr = Box::new(Expr::Binary(expr, operator, right));
        }
        Ok(expr)
    }

    #[verifier::rlimit(40)]
    fn term(&mut self) -> (r: Result<Box<Expr>, ParseError>)
        requires
            old(self).wf(),
        ensures
            final(self).wf(),
            final(self).tokens@ == old(self).tokens@,
            outcome_view(r, final(self).current) == term(
                tokens_view(old(self).tokens@),
                old(self).current as int,
            ),
            r is Ok ==> old(self).current < final(self).current,
        decreases old(self).tokens.len() - old(self).current, 4nat,
    {
        let ghost toks = tokens_view(self.tokens@);
        let ghost p = self.current as int;
        let mut expr = match self.factor() {
            Ok(e) => e,
            Err(e) => {
                return Err(e);
            },
        };
        let kinds = [TokenType::Minus, TokenType::Plus];
        proof {
            assert(kinds@ == term_ops());
        }
        while self.token_match(&kinds)
            invariant
                self.wf(),
                tokens_view(self.tokens@) == toks,
                self.tokens@ == old(self).tokens@,
                p == old(self).current,
                p < self.current,
                kinds@ == term_ops(),
                term(toks, p) == term_rest(toks, self.current as int, expr@),
            decreases self.tokens.len() - self.current,
        {
            let operator = self.previous();
            let right = match self.factor() {
                Ok(e) => e,
                Err(e) => {
                    return Err(e);
                },
            };
            expr = Box::new(Expr::Binary(expr, operator, right));
        }
        Ok(expr)
    }

    #[verifier::rlimit(40)]
    fn factor(&mut self) -> (r: Result<Box<Expr>, ParseError>)
        requires
            old(self).wf(),
        ensures
            final(self).wf(),
            final(self).tokens@ == old(self).tokens@,
            outcome_view(r, final(self).current) == factor(
                tokens_view(old(self).tokens@),
                old(self).current as int,
            ),
            r is Ok ==> old(self).current < final(self).current,
        decreases old(self).tokens.len() - old(self).current, 3nat,
    {
        let ghost toks = tokens_view(self.tokens@);
        let ghost p = self.current as int;
        let mut expr = match self.unary() {
            Ok(e) => e,
            Err(e) => {
                return Err(e);
            },
        };
        let kinds = [TokenType::Slash, TokenType::Star];
        proof {
            assert(kinds@ == factor_ops());
        }
        while self.token_match(&kinds)
            invariant
                self.wf(),
                tokens_view(self.tokens@) == toks,
                self.tokens@ == old(self).tokens@,
                p == old(self).current,
                p < self.current,
                kinds@ == factor_ops(),
                factor(toks, p) == factor_rest(toks, self.current as int, expr@),
            decreases self.tokens.len() - self.current,
        {
            let operator = self.previous();
            let right = match self.unary() {
                Ok(e) => e,
                Err(e) => {
                    return Err(e);
                },
            };
            expr = Box::new(Expr::Binary(expr, operator, right));
        }
        Ok(expr)
    }

    fn unary(&mut self) -> (r: Result<Box<Expr>, ParseError>)
        requires
            old(self).wf(),
        ensures
            final(self).wf(),
            final(self).tokens@ == old(self).tokens@,
            outcome_view(r, final(self).current) == unary(
                tokens_view(old(self).tokens@),
                old(self).current as int,
            ),
            r is Ok ==> old(self).current < final(self).current,
        decreases old(self).tokens.len() - old(self).current, 2nat,
    {
        let kinds = [TokenType::Bang, TokenType::Minus];
        proof {
            assert(kinds@ == unary_ops());
        }
        if self.token_match(&kinds) {
            let operator = self.previous();
            let right = match self.unary() {
                Ok(e) => e,
                Err(e) => {
                    return Err(e);
                },
            };
            return Ok(Box::new(Expr::Unary(operator, right)));
        }
        self.primary()
    }

    fn primary(&mut self) -> (r: Result<Box<Expr>, ParseError>)
        requires
            old(self).wf(),
        ensures
            final(self).wf(),
            final(self).tokens@ == old(self).tokens@,
            outcome_view(r, final(self).current) == primary(
                tokens_view(old(self).tokens@),
                old(self).current as int,
            ),
            r is Ok ==> old(self).current < final(self).current,
        decreases old(self).tokens.len() - old(self).current, 1nat,
    {
        let kinds = [TokenType::False];
        proof {
            assert(kinds@ == seq![TokenType::False]);
        }
        if self.token_match(&kinds) {
            return Ok(Box::new(Expr::Literal(Literal::Boolean(false))));
        }
        let kinds = [TokenType::True];
        proof {
            assert(kinds@ == seq![TokenType::True]);
        }
        if self.token_match(&kinds) {
            return Ok(Box::new(Expr::Literal(Literal::Boolean(true))));
        }
        let kinds = [TokenType::Nil];
        proof {
            assert(kinds@ == seq![TokenType::Nil]);
        }
        if self.token_match(&kinds) {
            return Ok(Box::new(Expr::Literal(Literal::Nil)));
        }
        let kinds = [TokenType::Number, TokenType::LoxString];
        proof {
            assert(kinds@ == seq![TokenType::Number, TokenType::LoxString]);
        }
        if self.token_match(&kinds) {
            return Ok(Box::new(Expr::Literal(self.previous().literal())));
        }
        let kinds = [TokenType::LeftParen];
        proof {
            assert(kinds@ == seq![TokenType::LeftParen]);
        }
        if self.token_match(&kinds) {
            let expr = match self.expression() {
                Ok(e) => e,
                Err(e) => {
                    return Err(e);
                },
            };
            if let Err(e) = self.consume(
                TokenType::RightParen,
                String::from_str("Expect ')' after expression."),
            ) {
                return Err(e);
            }
            return Ok(Box::new(Expr::Grouping(expr)));
        }
        Err(ParseError::UnknownPrimary(self.peek(), String::from_str("Expected expression")))
    }

    /// Error recovery: skips tokens up to the next statement boundary, that is
    /// past a `;`, or up to a reserved word that begins a statement, or up to
    /// the end of input.
    pub fn synchronize(&mut self)
        requires
            old(self).wf(),
        ensures
            final(self).wf(),
            final(self).tokens() == old(self).tokens(),
            final(self).position() == recovery_point(old(self).tokens(), old(self).position() as int),
    {
        let ghost toks = tokens_view(self.tokens@);
        if self.at_end() {
            return;
        }
        self.advance();
        while !self.at_end()
            invariant
                self.wf(),
                self.tokens@ == old(self).tokens@,
                toks == tokens_view(self.tokens@),
                self.current >= 1,
                recovery_point(toks, old(self).current as int) == boundary_from(
                    toks,
                    self.current as int,
                ),
            decreases self.tokens.len() - self.current,
        {
            if self.previous().token_type() == TokenType::Semicolon {
                return;
            }
            let kind = self.tokens[self.current].token_type();
            match kind {
                TokenType::Class
                | TokenType::Fun
                | TokenType::Var
                | TokenType::For
                | TokenType::If
                | TokenType::While
                | TokenType::Print
                | TokenType::Return => {
                    return;
                },
                _ => {
                    self.advance();
                },
            }
        }
    }

    /// Consumes a token of kind `kind`, or fails with the token found instead.
    fn consume(&mut self, kind: TokenType, message: String) -> (r: Result<Token, ParseError>)
        requires
            old(self).wf(),
            kind != TokenType::Eof,
        ensures
            final(self).wf(),
            final(self).tokens@ == old(self).tokens@,
            kind_in(tokens_view(old(self).tokens@), old(self).current as int, seq![kind]) ==> {
                &&& r is Ok
                &&& final(self).current == old(self).current + 1
            },
            !kind_in(tokens_view(old(self).tokens@), old(self).current as int, seq![kind]) ==> {
                &&& r is Err
                &&& r->Err_0@ == ParseErrorView::UnbalancedParens(
                    old(self).tokens@[old(self).current as int]@,
                    message@,
                )
                &&& final(self).current == old(self).current
            },
    {
        if self.check(kind) {
            proof {
                assert(seq![kind][0] == kind);
            }
            return Ok(self.advance());
        }
        Err(ParseError::UnbalancedParens(self.peek(), message))
    }

    /// Consumes the current token if its kind is one of `kinds`.
    fn token_match(&mut self, kinds: &[TokenType]) -> (r: bool)
        requires
            old(self).wf(),
            !kinds@.contains(TokenType::Eof),
        ensures
            final(self).wf(),
            final(self).tokens@ == old(self).tokens@,
            r == kind_in(tokens_view(old(self).tokens@), old(self).current as int, kinds@),
            final(self).current == old(self).current + if r {
                1int
            } else {
                0int
            },
    {
        let ghost kind = self.tokens@[self.current as int].token_type;
        let mut i: usize = 0;
        while i < kinds.len()
            invariant
                self == old(self),
                self.wf(),
                kind == self.tokens@[self.current as int].token_type,
                !kinds@.contains(TokenType::Eof),
                i <= kinds.len(),
                forall|j: int| 0 <= j < i ==> kinds@[j] != kind,
            decreases kinds.len() - i,
        {
            if self.check(kinds[i]) {
                proof {
                    assert(kinds@[i as int] == kind);
                    assert(kinds@.contains(kind));
                }
                self.advance();
                return true;
            }
            proof {
                if kinds@[i as int] == TokenType::Eof {
                    assert(kinds@.contains(TokenType::Eof));
                }
            }
            i = i + 1;
        }
        proof {
            if kinds@.contains(kind) {
                let j = choose|j: int| 0 <= j < kinds@.len() && kinds@[j] == kind;
                assert(kinds@[j] != kind);
            }
        }
        false
    }

    fn check(&self, kind: TokenType) -> (r: bool)
        requires
            self.wf(),
        ensures
            r == (self.tokens@[self.current as int].token_type != TokenType::Eof
                && self.tokens@[self.current as int].token_type == kind),
    {
        if self.at_end() {
            false
        } else {
            self.tokens[self.current].token_type() == kind
        }
    }

    /// Consumes the current token unless it is the end of input, and returns
    /// the token just before the new position.
    fn advance(&mut self) -> (r: Token)
        requires
            old(self).wf(),
            old(self).current > 0 || old(self).tokens@[0].token_type != TokenType::Eof,
        ensures
            final(self).wf(),
            final(self).tokens@ == old(self).tokens@,
            final(self).current == old(self).current + if old(self).tokens@[old(
                self,
            ).current as int].token_type == TokenType::Eof {
                0int
            } else {
                1int
            },
            r@ == old(self).tokens@[final(self).current - 1]@,
    {
        if !self.at_end() {
            self.current = self.current + 1;
        }
        self.previous()
    }

    fn at_end(&self) -> (r: bool)
        requires
            self.wf(),
        ensures
            r == (self.tokens@[self.current as int].token_type == TokenType::Eof),
    {
        self.tokens[self.current].token_type() == TokenType::Eof
    }

    fn peek(&self) -> (r: Token)
        requires
            self.wf(),
        ensures
            r@ == self.tokens@[self.current as int]@,
    {
        self.tokens[self.current].clone()
    }

    fn previous(&self) -> (r: Token)
        requires
            self.wf(),
            self.current > 0,
        ensures
            r@ == self.tokens@[self.current - 1]@,
    {
        self.tokens[self.current - 1].clone()
    }
}

} // verus!
