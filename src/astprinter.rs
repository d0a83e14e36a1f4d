//! The renderer: a tree as fully parenthesized prefix text, and the proof
//! that this text determines the tree's shape.
use vstd::prelude::*;
use crate::expr::{Expr, ExprView};
use crate::text::push_char;
use crate::token::{Literal, LiteralView, Token, TokenType};

verus! {

/// Canonical text of a literal value.
pub open spec fn literal_text(v: LiteralView) -> Seq<char> {
    match v {
        LiteralView::Nil => "nil"@,
        LiteralView::Num(t) => t,
        LiteralView::Bool(b) => if b {
            "true"@
        } else {
            "false"@
        },
        LiteralView::Str(s) => s,
    }
}

/// `(name r0 r1 ...)`: a name followed by each text after a space, in parentheses.
pub open spec fn parenthesized(name: Seq<char>, parts: Seq<Seq<char>>) -> Seq<char> {
    seq!['('] + name + spaced(parts) + seq![')']
}

/// Each text preceded by one space, one after the other.
pub open spec fn spaced(parts: Seq<Seq<char>>) -> Seq<char>
    decreases parts.len(),
{
    if parts.len() == 0 {
        Seq::empty()
    } else {
        spaced(parts.drop_last()) + seq![' '] + parts.last()
    }
}

/// The fully parenthesized prefix rendering of a tree.
pub open spec fn render(e: ExprView) -> Seq<char>
    decreases e,
{
    match e {
        ExprView::Binary(l, op, r) => seq!['('] + op.lexeme + seq![' '] + render(*l) + seq![' ']
            + render(*r) + seq![')'],
        ExprView::Unary(op, x) => seq!['('] + op.lexeme + seq![' '] + render(*x) + seq![')'],
        ExprView::Literal(v) => literal_text(v),
        ExprView::Grouping(x) => seq!['('] + "group"@ + seq![' '] + render(*x) + seq![')'],
    }
}

/// Height of a tree: a leaf has height 1.
pub open spec fn height(e: ExprView) -> nat
    decreases e,
{
    match e {
        ExprView::Binary(l, _, r) => 1 + vstd::math::max(height(*l) as int, height(*r) as int) as nat,
        ExprView::Unary(_, x) => 1 + height(*x),
        ExprView::Literal(_) => 1,
        ExprView::Grouping(x) => 1 + height(*x),
    }
}

/// Non-empty text with no space and no parenthesis.
pub open spec fn plain_text(s: Seq<char>) -> bool {
    s.len() > 0 && forall|i: int| 0 <= i < s.len() ==> s[i] != ' ' && s[i] != '(' && s[i] != ')'
}

/// Every operator lexeme and literal text in the tree is plain, and no
/// operator is spelled `group`.
pub open spec fn plain_tree(e: ExprView) -> bool
    decreases e,
{
    match e {
        ExprView::Binary(l, op, r) => plain_text(op.lexeme) && op.lexeme != "group"@ && plain_tree(*l)
            && plain_tree(*r),
        ExprView::Unary(op, x) => plain_text(op.lexeme) && op.lexeme != "group"@ && plain_tree(*x),
        ExprView::Literal(v) => plain_text(literal_text(v)),
        ExprView::Grouping(x) => plain_tree(*x),
    }
}

/// Two trees have the same shape: the same kinds of node, the same operator
/// lexemes and the same literal texts, wherever they stand. Source lines are
/// not part of the shape.
pub open spec fn same_shape(a: ExprView, b: ExprView) -> bool
    decreases a,
{
    match (a, b) {
        (ExprView::Binary(l1, o1, r1), ExprView::Binary(l2, o2, r2)) => o1.lexeme == o2.lexeme
            && same_shape(*l1, *l2) && same_shape(*r1, *r2),
        (ExprView::Unary(o1, x1), ExprView::Unary(o2, x2)) => o1.lexeme == o2.lexeme && same_shape(
            *x1,
            *x2,
        ),
        (ExprView::Literal(v1), ExprView::Literal(v2)) => literal_text(v1) == literal_text(v2),
        (ExprView::Grouping(x1), ExprView::Grouping(x2)) => same_shape(*x1, *x2),
        _ => false,
    }
}

/// Text that may follow a rendered tree: nothing, or a space or `)` first.
pub open spec fn delimited(r: Seq<char>) -> bool {
    r.len() == 0 || r[0] == ' ' || r[0] == ')'
}

/// Two plain texts, each followed by delimited text, that spell the same
/// characters are equal, and so are the texts that follow them.
proof fn lemma_plain_prefix(x: Seq<char>, y: Seq<char>, rx: Seq<char>, ry: Seq<char>)
    requires
        plain_text(x),
        plain_text(y),
        delimited(rx),
        delimited(ry),
        x + rx == y + ry,
    ensures
        x == y,
        rx == ry,
{
    if x.len() < y.len() {
        let k = x.len() as int;
        assert((y + ry)[k] == y[k]);
        assert((x + rx).len() == (y + ry).len());
        assert((x + rx)[k] == rx[0]);
    } else if y.len() < x.len() {
        let k = y.len() as int;
        assert((x + rx)[k] == x[k]);
        assert((x + rx).len() == (y + ry).len());
        assert((y + ry)[k] == ry[0]);
    }
    assert(x =~= (x + rx).subrange(0, x.len() as int));
    assert(y =~= (y + ry).subrange(0, y.len() as int));
    assert(rx =~= (x + rx).subrange(x.len() as int, (x + rx).len() as int));
    assert(ry =~= (y + ry).subrange(y.len() as int, (y + ry).len() as int));
}

/// The name after the opening parenthesis of a node's rendering.
pub open spec fn head(e: ExprView) -> Seq<char> {
    match e {
        ExprView::Binary(_, op, _) => op.lexeme,
        ExprView::Unary(op, _) => op.lexeme,
        ExprView::Literal(_) => Seq::empty(),
        ExprView::Grouping(_) => "group"@,
    }
}

/// What follows the first operand of a node's rendering, then `r`.
pub open spec fn tail(e: ExprView, r: Seq<char>) -> Seq<char> {
    match e {
        ExprView::Binary(_, _, right) => seq![' '] + render(*right) + seq![')'] + r,
        _ => seq![')'] + r,
    }
}

/// The first operand of a node.
pub open spec fn first_operand(e: ExprView) -> ExprView {
    match e {
        ExprView::Binary(l, _, _) => *l,
        ExprView::Unary(_, x) => *x,
        ExprView::Grouping(x) => *x,
        ExprView::Literal(_) => e,
    }
}

proof fn lemma_node_layout(e: ExprView, r: Seq<char>)
    requires
        !(e is Literal),
    ensures
        render(e) + r == seq!['('] + (head(e) + (seq![' '] + (render(first_operand(e)) + tail(
            e,
            r,
        )))),
{
    match e {
        ExprView::Binary(l, op, right) => {
            assert(render(e) + r =~= seq!['('] + (head(e) + (seq![' '] + (render(*l) + tail(e, r)))));
        },
        ExprView::Unary(op, x) => {
            assert(render(e) + r =~= seq!['('] + (head(e) + (seq![' '] + (render(*x) + tail(e, r)))));
        },
        ExprView::Grouping(x) => {
            assert(render(e) + r =~= seq!['('] + (head(e) + (seq![' '] + (render(*x) + tail(e, r)))));
        },
        ExprView::Literal(_) => {},
    }
}

/// A rendered plain tree, followed by delimited text, can be read back in one
/// way only.
proof fn lemma_render_prefix(a: ExprView, b: ExprView, ra: Seq<char>, rb: Seq<char>)
    requires
        plain_tree(a),
        plain_tree(b),
        delimited(ra),
        delimited(rb),
        render(a) + ra == render(b) + rb,
    ensures
        same_shape(a, b),
        render(a) == render(b),
        ra == rb,
    decreases a,
{
    reveal_strlit("group");
    if a is Literal && b is Literal {
        lemma_plain_prefix(render(a), render(b), ra, rb);
    } else if a is Literal {
        lemma_node_layout(b, rb);
        assert((render(b) + rb)[0] == '(');
        assert((render(a) + ra)[0] == render(a)[0]);
    } else if b is Literal {
        lemma_node_layout(a, ra);
        assert((render(a) + ra)[0] == '(');
        assert((render(b) + rb)[0] == render(b)[0]);
    } else {
        lemma_node_layout(a, ra);
        lemma_node_layout(b, rb);
        let after_a = seq![' '] + (render(first_operand(a)) + tail(a, ra));
        let after_b = seq![' '] + (render(first_operand(b)) + tail(b, rb));
        assert(head(a) + after_a =~= (render(a) + ra).drop_first());
        assert(head(b) + after_b =~= (render(b) + rb).drop_first());
        assert(plain_text(head(a)));
        assert(plain_text(head(b)));
        lemma_plain_prefix(head(a), head(b), after_a, after_b);
        assert(render(first_operand(a)) + tail(a, ra) =~= after_a.drop_first());
        assert(render(first_operand(b)) + tail(b, rb) =~= after_b.drop_first());
        lemma_render_prefix(first_operand(a), first_operand(b), tail(a, ra), tail(b, rb));
        match (a, b) {
            (ExprView::Binary(l1, o1, r1), ExprView::Binary(l2, o2, r2)) => {
                let ta = render(*r1) + (seq![')'] + ra);
                let tb = render(*r2) + (seq![')'] + rb);
                assert(ta =~= tail(a, ra).drop_first());
                assert(tb =~= tail(b, rb).drop_first());
                lemma_render_prefix(*r1, *r2, seq![')'] + ra, seq![')'] + rb);
                assert(ra =~= (seq![')'] + ra).drop_first());
                assert(rb =~= (seq![')'] + rb).drop_first());
                assert(render(a) =~= render(b));
            },
            (ExprView::Binary(_, _, _), _) => {
                assert(tail(a, ra)[0] == ' ');
                assert(tail(b, rb)[0] == ')');
            },
            (_, ExprView::Binary(_, _, _)) => {
                assert(tail(a, ra)[0] == ')');
                assert(tail(b, rb)[0] == ' ');
            },
            _ => {
                assert(ra =~= tail(a, ra).drop_first());
                assert(rb =~= tail(b, rb).drop_first());
                assert(render(a) =~= render(b));
            },
        }
    }
}

/// The rendering is unambiguous: two trees whose operator lexemes and literal
/// texts are plain render to the same text only if they have the same shape.
pub proof fn lemma_render_determines_shape(a: ExprView, b: ExprView)
    requires
        plain_tree(a),
        plain_tree(b),
        render(a) == render(b),
    ensures
        same_shape(a, b),
{
    assert(render(a) + Seq::<char>::empty() =~= render(b) + Seq::<char>::empty());
    lemma_render_prefix(a, b, Seq::empty(), Seq::empty());
}

/// How the lexer spells each operator kind; empty for every other kind.
pub open spec fn operator_spelling(k: TokenType) -> Seq<char> {
    match k {
        TokenType::Minus => seq!['-'],
        TokenType::Plus => seq!['+'],
        TokenType::Slash => seq!['/'],
        TokenType::Star => seq!['*'],
        TokenType::Bang => seq!['!'],
        TokenType::BangEqual => seq!['!', '='],
        TokenType::EqualEqual => seq!['=', '='],
        TokenType::Greater => seq!['>'],
        TokenType::GreaterEqual => seq!['>', '='],
        TokenType::Less => seq!['<'],
        TokenType::LessEqual => seq!['<', '='],
        _ => Seq::empty(),
    }
}

/// Non-empty text of digits and points, as number values are.
pub open spec fn number_like(t: Seq<char>) -> bool {
    t.len() > 0 && forall|i: int| 0 <= i < t.len() ==> (('0' <= t[i] && t[i] <= '9') || t[i] == '.')
}

/// Every operator is an operator kind spelled as the lexer spells it, and
/// every literal is a number (with number-like text), a boolean or nil.
pub open spec fn spelled_tree(e: ExprView) -> bool
    decreases e,
{
    match e {
        ExprView::Binary(l, op, r) => operator_spelling(op.kind).len() > 0 && op.lexeme
            == operator_spelling(op.kind) && spelled_tree(*l) && spelled_tree(*r),
        ExprView::Unary(op, x) => operator_spelling(op.kind).len() > 0 && op.lexeme
            == operator_spelling(op.kind) && spelled_tree(*x),
        ExprView::Literal(v) => match v {
            LiteralView::Num(t) => number_like(t),
            LiteralView::Str(_) => false,
            _ => true,
        },
        ExprView::Grouping(x) => spelled_tree(*x),
    }
}

/// Two trees are the same but for source lines: the same kinds of node, the
/// same operator kinds and lexemes, the same literal values.
pub open spec fn same_tree(a: ExprView, b: ExprView) -> bool
    decreases a,
{
    match (a, b) {
        (ExprView::Binary(l1, o1, r1), ExprView::Binary(l2, o2, r2)) => o1.kind == o2.kind
            && o1.lexeme == o2.lexeme && same_tree(*l1, *l2) && same_tree(*r1, *r2),
        (ExprView::Unary(o1, x1), ExprView::Unary(o2, x2)) => o1.kind == o2.kind && o1.lexeme
            == o2.lexeme && same_tree(*x1, *x2),
        (ExprView::Literal(v1), ExprView::Literal(v2)) => v1 == v2,
        (ExprView::Grouping(x1), ExprView::Grouping(x2)) => same_tree(*x1, *x2),
        _ => false,
    }
}

proof fn lemma_spelling_plain(k: TokenType)
    requires
        operator_spelling(k).len() > 0,
    ensures
        plain_text(operator_spelling(k)),
        operator_spelling(k) != "group"@,
{
    reveal_strlit("group");
    assert("group"@.len() == 5);
}

proof fn lemma_spelled_literal(v: LiteralView)
    requires
        spelled_tree(ExprView::Literal(v)),
    ensures
        plain_text(literal_text(v)),
{
    reveal_strlit("nil");
    reveal_strlit("true");
    reveal_strlit("false");
}

proof fn lemma_spelled_is_plain(e: ExprView)
    requires
        spelled_tree(e),
    ensures
        plain_tree(e),
    decreases e,
{
    match e {
        ExprView::Binary(l, op, r) => {
            lemma_spelling_plain(op.kind);
            lemma_spelled_is_plain(*l);
            lemma_spelled_is_plain(*r);
        },
        ExprView::Unary(op, x) => {
            lemma_spelling_plain(op.kind);
            lemma_spelled_is_plain(*x);
        },
        ExprView::Literal(v) => {
            lemma_spelled_literal(v);
        },
        ExprView::Grouping(x) => {
            lemma_spelled_is_plain(*x);
        },
    }
}

proof fn lemma_literal_text_determines(v1: LiteralView, v2: LiteralView)
    requires
        spelled_tree(ExprView::Literal(v1)),
        spelled_tree(ExprView::Literal(v2)),
        literal_text(v1) == literal_text(v2),
    ensures
        v1 == v2,
{
    reveal_strlit("nil");
    reveal_strlit("true");
    reveal_strlit("false");
    assert("true"@.len() == 4 && "true"@[0] == 't');
    assert("false"@.len() == 5 && "false"@[0] == 'f');
    assert("nil"@[0] == 'n');
    match (v1, v2) {
        (LiteralView::Num(t), LiteralView::Bool(_)) => {
            assert(!number_like(literal_text(v2))) by {
                assert(!(('0' <= literal_text(v2)[1] && literal_text(v2)[1] <= '9') || literal_text(v2)[1] == '.'));
            }
        },
        (LiteralView::Bool(_), LiteralView::Num(t)) => {
            assert(!number_like(literal_text(v1))) by {
                assert(!(('0' <= literal_text(v1)[1] && literal_text(v1)[1] <= '9') || literal_text(v1)[1] == '.'));
            }
        },
        (LiteralView::Num(t), LiteralView::Nil) => {
            assert(!number_like(literal_text(v2))) by {
                assert(!(('0' <= literal_text(v2)[0] && literal_text(v2)[0] <= '9') || literal_text(v2)[0] == '.'));
            }
        },
        (LiteralView::Nil, LiteralView::Num(t)) => {
            assert(!number_like(literal_text(v1))) by {
                assert(!(('0' <= literal_text(v1)[0] && literal_text(v1)[0] <= '9') || literal_text(v1)[0] == '.'));
            }
        },
        (LiteralView::Bool(b1), LiteralView::Bool(b2)) => {
            if b1 != b2 {
                assert(literal_text(v1).len() != literal_text(v2).len());
            }
        },
        (LiteralView::Bool(_), LiteralView::Nil) => {
            assert(literal_text(v1)[0] != literal_text(v2)[0]);
        },
        (LiteralView::Nil, LiteralView::Bool(_)) => {
            assert(literal_text(v1)[0] != literal_text(v2)[0]);
        },
        _ => {},
    }
}

proof fn lemma_spelling_determines(k1: TokenType, k2: TokenType)
    requires
        operator_spelling(k1).len() > 0,
        operator_spelling(k1) == operator_spelling(k2),
    ensures
        k1 == k2,
{
    let s = operator_spelling(k1);
    assert(s[0] == operator_spelling(k2)[0]);
    assert(s.len() == operator_spelling(k2).len());
    if s.len() == 2 {
        assert(s[1] == operator_spelling(k2)[1]);
    }
}

proof fn lemma_same_shape_same_tree(a: ExprView, b: ExprView)
    requires
        spelled_tree(a),
        spelled_tree(b),
        same_shape(a, b),
    ensures
        same_tree(a, b),
    decreases a,
{
    match (a, b) {
        (ExprView::Binary(l1, o1, r1), ExprView::Binary(l2, o2, r2)) => {
            lemma_spelling_determines(o1.kind, o2.kind);
            lemma_same_shape_same_tree(*l1, *l2);
            lemma_same_shape_same_tree(*r1, *r2);
        },
        (ExprView::Unary(o1, x1), ExprView::Unary(o2, x2)) => {
            lemma_spelling_determines(o1.kind, o2.kind);
            lemma_same_shape_same_tree(*x1, *x2);
        },
        (ExprView::Literal(v1), ExprView::Literal(v2)) => {
            lemma_literal_text_determines(v1, v2);
        },
        (ExprView::Grouping(x1), ExprView::Grouping(x2)) => {
            lemma_same_shape_same_tree(*x1, *x2);
        },
        _ => {},
    }
}

/// For trees whose operators are spelled as the lexer spells them and whose
/// literals are numbers, booleans or nil, the rendering determines the tree
/// but for source lines: equal renderings mean the same node kinds, operator
/// kinds and lexemes, and literal values.
pub proof fn lemma_render_determines_tree(a: ExprView, b: ExprView)
    requires
        spelled_tree(a),
        spelled_tree(b),
        render(a) == render(b),
    ensures
        same_tree(a, b),
{
    lemma_spelled_is_plain(a);
    lemma_spelled_is_plain(b);
    lemma_render_determines_shape(a, b);
    lemma_same_shape_same_tree(a, b);
}

proof fn lemma_spaced_one(a: Seq<char>)
    ensures
        spaced(seq![a]) == seq![' '] + a,
{
    assert(seq![a].drop_last() =~= Seq::<Seq<char>>::empty());
    assert(spaced(Seq::<Seq<char>>::empty()) == Seq::<char>::empty());
    assert(seq![a].last() == a);
    assert(Seq::<char>::empty() + seq![' '] + a =~= seq![' '] + a);
}

proof fn lemma_spaced_two(a: Seq<char>, b: Seq<char>)
    ensures
        spaced(seq![a, b]) == seq![' '] + a + seq![' '] + b,
{
    assert(seq![a, b].drop_last() =~= seq![a]);
    lemma_spaced_one(a);
}

/// Renders expression trees as text.
pub struct AstPrinter {}

impl AstPrinter {
    pub fn new() -> (r: Self) {
        AstPrinter {  }
    }

    /// The rendering of `expr`.
    pub fn print(&mut self, expr: Expr) -> (r: String)
        ensures
            r@ == render(expr@),
    {
        self.evaluate(&expr)
    }

    fn evaluate(&mut self, expr: &Expr) -> (r: String)
        ensures
            r@ == render(expr@),
        decreases height(expr@), 3nat,
    {
        match expr {
            Expr::Binary(left, op, right) => self.visit_binary_expr(left, op, right),
            Expr::Grouping(inner) => self.visit_grouping_expr(inner),
            Expr::Literal(value) => self.visit_literal_expr(value),
            Expr::Unary(op, operand) => self.visit_unary_expr(op, operand),
        }
    }

    /// `(name e0 e1 ...)` with each expression rendered.
    fn parenthesize(&mut self, name: String, exprs: &[&Expr], Ghost(bound): Ghost<nat>) -> (r:
        String)
        requires
            forall|i: int| 0 <= i < exprs@.len() ==> height((*exprs@[i])@) < bound,
        ensures
            r@ == parenthesized(name@, exprs@.map_values(|e: &Expr| render((*e)@))),
        decreases bound, 1nat,
    {
        let ghost parts = exprs@.map_values(|e: &Expr| render((*e)@));
        let mut s = String::new();
        push_char(&mut s, '(');
        s.append(name.as_str());
        let mut i: usize = 0;
        while i < exprs.len()
            invariant
                i <= exprs@.len(),
                parts == exprs@.map_values(|e: &Expr| render((*e)@)),
                forall|k: int| 0 <= k < exprs@.len() ==> height((*exprs@[k])@) < bound,
                s@ == seq!['('] + name@ + spaced(parts.subrange(0, i as int)),
            decreases exprs.len() - i,
        {
            push_char(&mut s, ' ');
            let part = self.evaluate(exprs[i]);
            s.append(part.as_str());
            proof {
                assert(parts.subrange(0, i + 1).drop_last() =~= parts.subrange(0, i as int));
            }
            i = i + 1;
        }
        push_char(&mut s, ')');
        proof {
            assert(parts.subrange(0, exprs@.len() as int) =~= parts);
        }
        s
    }

    fn visit_binary_expr(&mut self, left: &Expr, op: &Token, right: &Expr) -> (r: String)
        ensures
            r@ == seq!['('] + op.lexeme@ + seq![' '] + render(left@) + seq![' '] + render(right@)
                + seq![')'],
        decreases 1 + vstd::math::max(height(left@) as int, height(right@) as int), 2nat,
    {
        let exprs = [left, right];
        let ghost bound = (1 + vstd::math::max(height(left@) as int, height(right@) as int)) as nat;
        let s = self.parenthesize(op.lexeme(), &exprs, Ghost(bound));
        proof {
            let parts = exprs@.map_values(|e: &Expr| render((*e)@));
            assert(parts =~= seq![render(left@), render(right@)]);
            lemma_spaced_two(render(left@), render(right@));
            assert(s@ =~= seq!['('] + op.lexeme@ + seq![' '] + render(left@) + seq![' '] + render(
                right@,
            ) + seq![')']);
        }
        s
    }

    fn visit_grouping_expr(&mut self, inner: &Expr) -> (r: String)
        ensures
            r@ == seq!['('] + "group"@ + seq![' '] + render(inner@) + seq![')'],
        decreases 1 + height(inner@), 2nat,
    {
        let exprs = [inner];
        let s = self.parenthesize(String::from_str("group"), &exprs, Ghost(1 + height(inner@)));
        proof {
            let parts = exprs@.map_values(|e: &Expr| render((*e)@));
            assert(parts =~= seq![render(inner@)]);
            lemma_spaced_one(render(inner@));
            assert(s@ =~= seq!['('] + "group"@ + seq![' '] + render(inner@) + seq![')']);
        }
        s
    }

    fn visit_literal_expr(&mut self, value: &Literal) -> (r: String)
        ensures
            r@ == literal_text(value@),
    {
        match value {
            Literal::Nil => String::from_str("nil"),
            Literal::Number(text) => text.clone(),
            Literal::Boolean(b) => if *b {
                String::from_str("true")
            } else {
                String::from_str("false")
            },
            Literal::LoxString(s) => s.clone(),
        }
    }

    fn visit_unary_expr(&mut self, op: &Token, operand: &Expr) -> (r: String)
        ensures
            r@ == seq!['('] + op.lexeme@ + seq![' '] + render(operand@) + seq![')'],
        decreases 1 + height(operand@), 2nat,
    {
        let exprs = [operand];
        let s = self.parenthesize(op.lexeme(), &exprs, Ghost(1 + height(operand@)));
        proof {
            let parts = exprs@.map_values(|e: &Expr| render((*e)@));
            assert(parts =~= seq![render(operand@)]);
            lemma_spaced_one(render(operand@));
            assert(s@ =~= seq!['('] + op.lexeme@ + seq![' '] + render(operand@) + seq![')']);
        }
        s
    }
}

} // verus!
