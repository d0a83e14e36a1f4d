//! The expression grammar as spec functions, one per precedence level.
use vstd::prelude::*;
use crate::expr::ExprView;
use crate::token::{LiteralView, TokenType, TokenView};

verus! {

/// The mathematical value of a parse error: the offending token and a message.
pub enum ParseErrorView {
    UnbalancedParens(TokenView, Seq<char>),
    UnknownPrimary(TokenView, Seq<char>),
}

/// A parsed expression and the position after it, or the first error and the
/// position of the token that it names (where parsing stopped).
pub type ParseOutcome = Result<(ExprView, int), (ParseErrorView, int)>;

pub open spec fn unbalanced_message() -> Seq<char> {
    "Expect ')' after expression."@
}

pub open spec fn unknown_primary_message() -> Seq<char> {
    "Expected expression"@
}

pub open spec fn equality_ops() -> Seq<TokenType> {
    seq![TokenType::BangEqual, TokenType::EqualEqual]
}

pub open spec fn comparison_ops() -> Seq<TokenType> {
    seq![TokenType::Greater, TokenType::GreaterEqual, TokenType::Less, TokenType::LessEqual]
}

pub open spec fn term_ops() -> Seq<TokenType> {
    seq![TokenType::Minus, TokenType::Plus]
}

pub open spec fn factor_ops() -> Seq<TokenType> {
    seq![TokenType::Slash, TokenType::Star]
}

pub open spec fn unary_ops() -> Seq<TokenType> {
    seq![TokenType::Bang, TokenType::Minus]
}

/// The token at `p` exists and its kind is one of `kinds`.
pub open spec fn kind_in(toks: Seq<TokenView>, p: int, kinds: Seq<TokenType>) -> bool {
    0 <= p < toks.len() && kinds.contains(toks[p].kind)
}

/// A parse that started at `from` and stopped at `to` stayed inside the
/// tokens. Every successful parse consumes at least one token, so this holds
/// wherever it is tested (see `lemma_expression_moves`); it is stated so that
/// each recursion below visibly ends.
pub open spec fn moved(toks: Seq<TokenView>, from: int, to: int) -> bool {
    from <= to <= toks.len()
}

/// The decoded value of a literal token, `Nil` where it has none.
pub open spec fn literal_value(t: TokenView) -> LiteralView {
    match t.literal {
        Some(v) => v,
        None => LiteralView::Nil,
    }
}

pub open spec fn expression(toks: Seq<TokenView>, p: int) -> ParseOutcome
    decreases toks.len() - p, 7nat,
{
    equality(toks, p)
}

pub open spec fn equality(toks: Seq<TokenView>, p: int) -> ParseOutcome
    decreases toks.len() - p, 6nat,
{
    match comparison(toks, p) {
        Ok((left, q)) => if moved(toks, p, q) {
            equality_rest(toks, q, left)
        } else {
            Ok((left, q))
        },
        Err(e) => Err(e),
    }
}

/// Folds further equality operators onto `left`, from position `q` on.
pub open spec fn equality_rest(toks: Seq<TokenView>, q: int, left: ExprView) -> ParseOutcome
    decreases toks.len() - q, 0nat,
{
    if kind_in(toks, q, equality_ops()) {
        match comparison(toks, q + 1) {
            Ok((right, q2)) => {
                let e = ExprView::Binary(Box::new(left), toks[q], Box::new(right));
                if moved(toks, q + 1, q2) {
                    equality_rest(toks, q2, e)
                } else {
                    Ok((e, q2))
                }
            },
            Err(e) => Err(e),
        }
    } else {
        Ok((left, q))
    }
}

pub open spec fn comparison(toks: Seq<TokenView>, p: int) -> ParseOutcome
    decreases toks.len() - p, 5nat,
{
    match term(toks, p) {
        Ok((left, q)) => if moved(toks, p, q) {
            comparison_rest(toks, q, left)
        } else {
            Ok((left, q))
        },
        Err(e) => Err(e),
    }
}

pub open spec fn comparison_rest(toks: Seq<TokenView>, q: int, left: ExprView) -> ParseOutcome
    decreases toks.len() - q, 0nat,
{
    if kind_in(toks, q, comparison_ops()) {
        match term(toks, q + 1) {
            Ok((right, q2)) => {
                let e = ExprView::Binary(Box::new(left), toks[q], Box::new(right));
                if moved(toks, q + 1, q2) {
                    comparison_rest(toks, q2, e)
                } else {
                    Ok((e, q2))
                }
            },
            Err(e) => Err(e),
        }
    } else {
        Ok((left, q))
    }
}

pub open spec fn term(toks: Seq<TokenView>, p: int) -> ParseOutcome
    decreases toks.len() - p, 4nat,
{
    match factor(toks, p) {
        Ok((left, q)) => if moved(toks, p, q) {
            term_rest(toks, q, left)
        } else {
            Ok((left, q))
        },
        Err(e) => Err(e),
    }
}

pub open spec fn term_rest(toks: Seq<TokenView>, q: int, left: ExprView) -> ParseOutcome
    decreases toks.len() - q, 0nat,
{
    if kind_in(toks, q, term_ops()) {
        match factor(toks, q + 1) {
            Ok((right, q2)) => {
                let e = ExprView::Binary(Box::new(left), toks[q], Box::new(right));
                if moved(toks, q + 1, q2) {
                    term_rest(toks, q2, e)
                } else {
                    Ok((e, q2))
                }
            },
            Err(e) => Err(e),
        }
    } else {
        Ok((left, q))
    }
}

pub open spec fn factor(toks: Seq<TokenView>, p: int) -> ParseOutcome
    decreases toks.len() - p, 3nat,
{
    match unary(toks, p) {
        Ok((left, q)) => if moved(toks, p, q) {
            factor_rest(toks, q, left)
        } else {
            Ok((left, q))
        },
        Err(e) => Err(e),
    }
}

pub open spec fn factor_rest(toks: Seq<TokenView>, q: int, left: ExprView) -> ParseOutcome
    decreases toks.len() - q, 0nat,
{
    if kind_in(toks, q, factor_ops()) {
        match unary(toks, q + 1) {
            Ok((right, q2)) => {
                let e = ExprView::Binary(Box::new(left), toks[q], Box::new(right));
                if moved(toks, q + 1, q2) {
                    factor_rest(toks, q2, e)
                } else {
                    Ok((e, q2))
                }
            },
            Err(e) => Err(e),
        }
    } else {
        Ok((left, q))
    }
}

pub open spec fn unary(toks: Seq<TokenView>, p: int) -> ParseOutcome
    decreases toks.len() - p, 2nat,
{
    if kind_in(toks, p, unary_ops()) {
        match unary(toks, p + 1) {
            Ok((operand, q)) => Ok((ExprView::Unary(toks[p], Box::new(operand)), q)),
            Err(e) => Err(e),
        }
    } else {
        primary(toks, p)
    }
}

pub open spec fn primary(toks: Seq<TokenView>, p: int) -> ParseOutcome
    decreases toks.len() - p, 1nat,
{
    if kind_in(toks, p, seq![TokenType::False]) {
        Ok((ExprView::Literal(LiteralView::Bool(false)), p + 1))
    } else if kind_in(toks, p, seq![TokenType::True]) {
        Ok((ExprView::Literal(LiteralView::Bool(true)), p + 1))
    } else if kind_in(toks, p, seq![TokenType::Nil]) {
        Ok((ExprView::Literal(LiteralView::Nil), p + 1))
    } else if kind_in(toks, p, seq![TokenType::Number, TokenType::LoxString]) {
        Ok((ExprView::Literal(literal_value(toks[p])), p + 1))
    } else if kind_in(toks, p, seq![TokenType::LeftParen]) {
        match expression(toks, p + 1) {
            Ok((inner, q)) => if kind_in(toks, q, seq![TokenType::RightParen]) {
                Ok((ExprView::Grouping(Box::new(inner)), q + 1))
            } else {
                Err((ParseErrorView::UnbalancedParens(toks[q], unbalanced_message()), q))
            },
            Err(e) => Err(e),
        }
    } else {
        Err((ParseErrorView::UnknownPrimary(toks[p], unknown_primary_message()), p))
    }
}

/// Every successful parse from `p` consumes at least one token and stops
/// inside the tokens: the `moved` tests above never fail.
pub proof fn lemma_expression_moves(toks: Seq<TokenView>, p: int)
    requires
        0 <= p,
    ensures
        expression(toks, p) is Ok ==> p < expression(toks, p)->Ok_0.1 <= toks.len(),
    decreases toks.len() - p, 7nat,
{
    lemma_equality_moves(toks, p);
}

proof fn lemma_equality_moves(toks: Seq<TokenView>, p: int)
    requires
        0 <= p,
    ensures
        equality(toks, p) is Ok ==> p < equality(toks, p)->Ok_0.1 <= toks.len(),
    decreases toks.len() - p, 6nat,
{
    lemma_comparison_moves(toks, p);
    if comparison(toks, p) is Ok {
        let (left, q) = comparison(toks, p)->Ok_0;
        lemma_equality_rest_moves(toks, q, left);
    }
}

proof fn lemma_equality_rest_moves(toks: Seq<TokenView>, q: int, left: ExprView)
    requires
        0 <= q <= toks.len(),
    ensures
        equality_rest(toks, q, left) is Ok ==> q <= equality_rest(toks, q, left)->Ok_0.1 <= toks.len(),
    decreases toks.len() - q, 0nat,
{
    if kind_in(toks, q, equality_ops()) {
        lemma_comparison_moves(toks, q + 1);
        if comparison(toks, q + 1) is Ok {
            let (right, q2) = comparison(toks, q + 1)->Ok_0;
            let e = ExprView::Binary(Box::new(left), toks[q], Box::new(right));
            lemma_equality_rest_moves(toks, q2, e);
        }
    }
}

proof fn lemma_comparison_moves(toks: Seq<TokenView>, p: int)
    requires
        0 <= p,
    ensures
        comparison(toks, p) is Ok ==> p < comparison(toks, p)->Ok_0.1 <= toks.len(),
    decreases toks.len() - p, 5nat,
{
    lemma_term_moves(toks, p);
    if term(toks, p) is Ok {
        let (left, q) = term(toks, p)->Ok_0;
        lemma_comparison_rest_moves(toks, q, left);
    }
}

proof fn lemma_comparison_rest_moves(toks: Seq<TokenView>, q: int, left: ExprView)
    requires
        0 <= q <= toks.len(),
    ensures
        comparison_rest(toks, q, left) is Ok ==> q <= comparison_rest(toks, q, left)->Ok_0.1 <= toks.len(),
    decreases toks.len() - q, 0nat,
{
    if kind_in(toks, q, comparison_ops()) {
        lemma_term_moves(toks, q + 1);
        if term(toks, q + 1) is Ok {
            let (right, q2) = term(toks, q + 1)->Ok_0;
            let e = ExprView::Binary(Box::new(left), toks[q], Box::new(right));
            lemma_comparison_rest_moves(toks, q2, e);
        }
    }
}

proof fn lemma_term_moves(toks: Seq<TokenView>, p: int)
    requires
        0 <= p,
    ensures
        term(toks, p) is Ok ==> p < term(toks, p)->Ok_0.1 <= toks.len(),
    decreases toks.len() - p, 4nat,
{
    lemma_factor_moves(toks, p);
    if factor(toks, p) is Ok {
        let (left, q) = factor(toks, p)->Ok_0;
        lemma_term_rest_moves(toks, q, left);
    }
}

proof fn lemma_term_rest_moves(toks: Seq<TokenView>, q: int, left: ExprView)
    requires
        0 <= q <= toks.len(),
    ensures
        term_rest(toks, q, left) is Ok ==> q <= term_rest(toks, q, left)->Ok_0.1 <= toks.len(),
    decreases toks.len() - q, 0nat,
{
    if kind_in(toks, q, term_ops()) {
        lemma_factor_moves(toks, q + 1);
        if factor(toks, q + 1) is Ok {
            let (right, q2) = factor(toks, q + 1)->Ok_0;
            let e = ExprView::Binary(Box::new(left), toks[q], Box::new(right));
            lemma_term_rest_moves(toks, q2, e);
        }
    }
}

proof fn lemma_factor_moves(toks: Seq<TokenView>, p: int)
    requires
        0 <= p,
    ensures
        factor(toks, p) is Ok ==> p < factor(toks, p)->Ok_0.1 <= toks.len(),
    decreases toks.len() - p, 3nat,
{
    lemma_unary_moves(toks, p);
    if unary(toks, p) is Ok {
        let (left, q) = unary(toks, p)->Ok_0;
        lemma_factor_rest_moves(toks, q, left);
    }
}

proof fn lemma_factor_rest_moves(toks: Seq<TokenView>, q: int, left: ExprView)
    requires
        0 <= q <= toks.len(),
    ensures
        factor_rest(toks, q, left) is Ok ==> q <= factor_rest(toks, q, left)->Ok_0.1 <= toks.len(),
    decreases toks.len() - q, 0nat,
{
    if kind_in(toks, q, factor_ops()) {
        lemma_unary_moves(toks, q + 1);
        if unary(toks, q + 1) is Ok {
            let (right, q2) = unary(toks, q + 1)->Ok_0;
            let e = ExprView::Binary(Box::new(left), toks[q], Box::new(right));
            lemma_factor_rest_moves(toks, q2, e);
        }
    }
}

proof fn lemma_unary_moves(toks: Seq<TokenView>, p: int)
    requires
        0 <= p,
    ensures
        unary(toks, p) is Ok ==> p < unary(toks, p)->Ok_0.1 <= toks.len(),
    decreases toks.len() - p, 2nat,
{
    if kind_in(toks, p, unary_ops()) {
        lemma_unary_moves(toks, p + 1);
    } else {
        lemma_primary_moves(toks, p);
    }
}

proof fn lemma_primary_moves(toks: Seq<TokenView>, p: int)
    requires
        0 <= p,
    ensures
        primary(toks, p) is Ok ==> p < primary(toks, p)->Ok_0.1 <= toks.len(),
    decreases toks.len() - p, 1nat,
{
    if kind_in(toks, p, seq![TokenType::LeftParen]) {
        lemma_expression_moves(toks, p + 1);
    }
}

/// The tree that the tokens parse to, or the first error.
pub open spec fn parse_spec(toks: Seq<TokenView>) -> Result<ExprView, ParseErrorView> {
    match expression(toks, 0) {
        Ok((e, _)) => Ok(e),
        Err((e, _)) => Err(e),
    }
}

/// Kinds of reserved word that begin a statement or a declaration.
pub open spec fn starts_statement(k: TokenType) -> bool {
    k == TokenType::Class || k == TokenType::Fun || k == TokenType::Var || k == TokenType::For
        || k == TokenType::If || k == TokenType::While || k == TokenType::Print || k
        == TokenType::Return
}

/// The first position at or after `q` that is a statement boundary: the end
/// of input, the token after a `;`, or a reserved word that begins a statement.
pub open spec fn boundary_from(toks: Seq<TokenView>, q: int) -> int
    decreases toks.len() - q,
{
    if q < 1 || q >= toks.len() || toks[q].kind == TokenType::Eof {
        q
    } else if toks[q - 1].kind == TokenType::Semicolon || starts_statement(toks[q].kind) {
        q
    } else {
        boundary_from(toks, q + 1)
    }
}

/// Where error recovery that starts at `p` resumes: it steps over the token at
/// `p` (unless that is the end of input), then goes on to the next boundary.
pub open spec fn recovery_point(toks: Seq<TokenView>, p: int) -> int {
    if toks[p].kind == TokenType::Eof {
        p
    } else {
        boundary_from(toks, p + 1)
    }
}

} // verus!
