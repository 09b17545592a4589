use vstd::prelude::*;

use crate::stmt::{stmt_view, stmts_view, SStmt, Stmt};
use crate::grammar::literal_value;
use crate::token::{token_views, Literal, Token, TokenType, TokenView};

verus! {

/// The value written by a literal in the source: a number (its digits as
/// written), a string, a boolean or nil.
#[derive(Debug, Clone)]
pub enum LiteralValue {
    Num(String),
    Str(String),
    Bool(bool),
    Nil,
}

/// An expression of the syntax tree.
#[derive(Debug)]
pub enum Expr {
    Literal(LiteralExpr),
    Logical(LogicalExpr),
    Variable(VariableExpr),
    Assign(AssignExpr),
    Unary(UnaryExpr),
    Binary(BinaryExpr),
    Call(CallExpr),
    Grouping(GroupingExpr),
    Function(FunctionExpr),
}

#[derive(Debug, Clone)]
pub struct LiteralExpr {
    pub value: LiteralValue,
}

#[derive(Debug, Clone)]
pub struct LogicalExpr {
    pub left: Box<Expr>,
    pub operator: Token,
    pub right: Box<Expr>,
}

#[derive(Debug, Clone)]
pub struct VariableExpr {
    pub name: Token,
}

#[derive(Debug, Clone)]
pub struct AssignExpr {
    pub name: Token,
    pub expression: Box<Expr>,
}

#[derive(Debug, Clone)]
pub struct UnaryExpr {
    pub operator: Token,
    pub right: Box<Expr>,
}

#[derive(Debug, Clone)]
pub struct BinaryExpr {
    pub left: Box<Expr>,
    pub operator: Token,
    pub right: Box<Expr>,
}

#[derive(Debug, Clone)]
pub struct CallExpr {
    pub callee: Box<Expr>,
    pub paren: Token,
    pub arguments: Vec<Expr>,
}

#[derive(Debug, Clone)]
pub struct GroupingExpr {
    pub expression: Box<Expr>,
}

#[derive(Debug, Clone)]
pub struct FunctionExpr {
    pub params: Vec<Token>,
    pub statements: Vec<Stmt>,
}

/// The mathematical content of a [`LiteralValue`].
pub enum LiteralValueView {
    Num(Seq<char>),
    Str(Seq<char>),
    Bool(bool),
    Nil,
}

/// The mathematical content of an [`Expr`].
pub enum SExpr {
    Literal(LiteralValueView),
    Logical(Box<SExpr>, TokenView, Box<SExpr>),
    Variable(TokenView),
    Assign(TokenView, Box<SExpr>),
    Unary(TokenView, Box<SExpr>),
    Binary(Box<SExpr>, TokenView, Box<SExpr>),
    Call(Box<SExpr>, TokenView, Seq<SExpr>),
    Grouping(Box<SExpr>),
    Function(Seq<TokenView>, Seq<SStmt>),
}

impl View for LiteralValue {
    type V = LiteralValueView;

    open spec fn view(&self) -> LiteralValueView {
        match self {
            LiteralValue::Num(s) => LiteralValueView::Num(s@),
            LiteralValue::Str(s) => LiteralValueView::Str(s@),
            LiteralValue::Bool(b) => LiteralValueView::Bool(*b),
            LiteralValue::Nil => LiteralValueView::Nil,
        }
    }
}

/// The mathematical content of an expression.
pub open spec fn expr_view(e: Expr) -> SExpr
    decreases e,
{
    match e {
        Expr::Literal(l) => SExpr::Literal(l.value@),
        Expr::Logical(l) => SExpr::Logical(
            Box::new(expr_view(*l.left)),
            l.operator@,
            Box::new(expr_view(*l.right)),
        ),
        Expr::Variable(v) => SExpr::Variable(v.name@),
        Expr::Assign(a) => SExpr::Assign(a.name@, Box::new(expr_view(*a.expression))),
        Expr::Unary(u) => SExpr::Unary(u.operator@, Box::new(expr_view(*u.right))),
        Expr::Binary(b) => SExpr::Binary(
            Box::new(expr_view(*b.left)),
            b.operator@,
            Box::new(expr_view(*b.right)),
        ),
        Expr::Call(c) => SExpr::Call(
            Box::new(expr_view(*c.callee)),
            c.paren@,
            exprs_view(c.arguments@),
        ),
        Expr::Grouping(g) => SExpr::Grouping(Box::new(expr_view(*g.expression))),
        Expr::Function(f) => SExpr::Function(token_views(f.params@), stmts_view(f.statements@)),
    }
}

/// The mathematical content of a sequence of expressions.
pub open spec fn exprs_view(s: Seq<Expr>) -> Seq<SExpr>
    decreases s,
{
    if s.len() == 0 {
        seq![]
    } else {
        exprs_view(s.subrange(0, s.len() - 1)).push(expr_view(s[s.len() - 1]))
    }
}

/// Viewing a sequence with one more expression adds that expression's view.
pub proof fn lemma_exprs_view_push(s: Seq<Expr>, x: Expr)
    ensures
        exprs_view(s.push(x)) == exprs_view(s).push(expr_view(x)),
{
    assert(s.push(x).subrange(0, s.len() as int) =~= s);
}

/// Viewing a sequence of expressions keeps its length.
pub proof fn lemma_exprs_view_len(s: Seq<Expr>)
    ensures
        exprs_view(s).len() == s.len(),
    decreases s.len(),
{
    if s.len() > 0 {
        lemma_exprs_view_len(s.subrange(0, s.len() - 1));
    }
}

/// The view of a sequence of expressions has their views in order.
pub proof fn lemma_exprs_view_index(s: Seq<Expr>)
    ensures
        exprs_view(s).len() == s.len(),
        forall|i: int| 0 <= i < s.len() ==> #[trigger] exprs_view(s)[i] == expr_view(s[i]),
    decreases s.len(),
{
    if s.len() > 0 {
        let t = s.subrange(0, s.len() - 1);
        lemma_exprs_view_index(t);
        assert forall|i: int| 0 <= i < s.len() implies #[trigger] exprs_view(s)[i] == expr_view(s[i]) by {
            if i < s.len() - 1 {
                assert(t[i] == s[i]);
            }
        }
    }
}

impl View for Expr {
    type V = SExpr;

    open spec fn view(&self) -> SExpr {
        expr_view(*self)
    }
}

impl LiteralValue {
    /// The value of a literal token (a string, a number, true, false or nil), if
    /// the token is one.
    pub fn from_token(token: &Token) -> (r: Option<LiteralValue>)
        ensures
            match r {
                Some(v) => literal_value(token@) == Some(v@),
                None => literal_value(token@) is None,
            },
    {
        match token.ty {
            TokenType::Str => match &token.literal {
                Some(Literal::Str(s)) => Some(LiteralValue::Str(s.clone())),
                _ => None,
            },
            TokenType::Number => match &token.literal {
                Some(Literal::Number(s)) => Some(LiteralValue::Num(s.clone())),
                _ => None,
            },
            TokenType::True => Some(LiteralValue::Bool(true)),
            TokenType::False => Some(LiteralValue::Bool(false)),
            TokenType::Nil => Some(LiteralValue::Nil),
            _ => None,
        }
    }
}

impl Expr {
    pub fn literal(value: LiteralValue) -> (r: Expr)
        ensures
            r@ == SExpr::Literal(value@),
    {
        Expr::Literal(LiteralExpr { value })
    }

    pub fn unary(operator: Token, expr: Expr) -> (r: Expr)
        ensures
            r@ == SExpr::Unary(operator@, Box::new(expr@)),
    {
        Expr::Unary(UnaryExpr { operator, right: Box::new(expr) })
    }

    pub fn binary(left: Expr, operator: Token, right: Expr) -> (r: Expr)
        ensures
            r@ == SExpr::Binary(Box::new(left@), operator@, Box::new(right@)),
    {
        Expr::Binary(BinaryExpr { left: Box::new(left), operator, right: Box::new(right) })
    }

    pub fn grouping(expr: Expr) -> (r: Expr)
        ensures
            r@ == SExpr::Grouping(Box::new(expr@)),
    {
        Expr::Grouping(GroupingExpr { expression: Box::new(expr) })
    }

    pub fn logical(left: Expr, operator: Token, right: Expr) -> (r: Expr)
        ensures
            r@ == SExpr::Logical(Box::new(left@), operator@, Box::new(right@)),
    {
        Expr::Logical(LogicalExpr { left: Box::new(left), operator, right: Box::new(right) })
    }

    pub fn variable(name: Token) -> (r: Expr)
        ensures
            r@ == SExpr::Variable(name@),
    {
        Expr::Variable(VariableExpr { name })
    }

    pub fn assign(name: Token, value: Expr) -> (r: Expr)
        ensures
            r@ == SExpr::Assign(name@, Box::new(value@)),
    {
        Expr::Assign(AssignExpr { name, expression: Box::new(value) })
    }

    pub fn call(callee: Expr, paren: Token, arguments: Vec<Expr>) -> (r: Expr)
        ensures
            r@ == SExpr::Call(Box::new(callee@), paren@, exprs_view(arguments@)),
    {
        Expr::Call(CallExpr { callee: Box::new(callee), paren, arguments })
    }

    pub fn function(params: Vec<Token>, statements: Vec<Stmt>) -> (r: Expr)
        ensures
            r@ == SExpr::Function(token_views(params@), stmts_view(statements@)),
    {
        Expr::Function(FunctionExpr { params, statements })
    }
}

impl LiteralValue {
    /// A copy with the same content.
    pub fn duplicate(&self) -> (r: LiteralValue)
        ensures
            r@ == self@,
    {
        match self {
            LiteralValue::Num(s) => LiteralValue::Num(s.clone()),
            LiteralValue::Str(s) => LiteralValue::Str(s.clone()),
            LiteralValue::Bool(b) => LiteralValue::Bool(*b),
            LiteralValue::Nil => LiteralValue::Nil,
        }
    }
}

/// Copies of the tokens `ts`, in order.
pub fn duplicate_tokens(ts: &Vec<Token>) -> (r: Vec<Token>)
    ensures
        token_views(r@) == token_views(ts@),
{
    let mut r: Vec<Token> = Vec::new();
    let mut i: usize = 0;
    while i < ts.len()
        invariant
            i <= ts@.len(),
            r@.len() == i,
            forall|j: int| 0 <= j < i ==> #[trigger] r@[j]@ == ts@[j]@,
        decreases ts@.len() - i,
    {
        r.push(ts[i].duplicate());
        i = i + 1;
    }
    assert(token_views(r@) =~= token_views(ts@));
    r
}

impl Expr {
    /// A copy with the same content.
    pub fn duplicate(&self) -> (r: Expr)
        ensures
            r@ == self@,
        decreases self,
    {
        match self {
            Expr::Literal(l) => Expr::literal(l.value.duplicate()),
            Expr::Logical(l) => Expr::logical(
                l.left.duplicate(),
                l.operator.duplicate(),
                l.right.duplicate(),
            ),
            Expr::Variable(v) => Expr::variable(v.name.duplicate()),
            Expr::Assign(a) => Expr::assign(a.name.duplicate(), a.expression.duplicate()),
            Expr::Unary(u) => Expr::unary(u.operator.duplicate(), u.right.duplicate()),
            Expr::Binary(b) => Expr::binary(
                b.left.duplicate(),
                b.operator.duplicate(),
                b.right.duplicate(),
            ),
            Expr::Call(c) => {
                let callee = c.callee.duplicate();
                let mut args: Vec<Expr> = Vec::new();
                let mut i: usize = 0;
                proof {
                    lemma_exprs_view_index(c.arguments@);
                    assert(exprs_view(args@) =~= exprs_view(c.arguments@).subrange(0, 0));
                }
                while i < c.arguments.len()
                    invariant
                        *self == Expr::Call(*c),
                        i <= c.arguments@.len(),
                        exprs_view(c.arguments@).len() == c.arguments@.len(),
                        forall|j: int| 0 <= j < c.arguments@.len() ==> #[trigger] exprs_view(c.arguments@)[j] == expr_view(c.arguments@[j]),
                        exprs_view(args@) == exprs_view(c.arguments@).subrange(0, i as int),
                    decreases c.arguments@.len() - i,
                {
                    proof {
                        assert(decreases_to!(*self => (*self)->Call_0));
                        assert(decreases_to!((*self)->Call_0 => (*self)->Call_0.arguments));
                        assert(decreases_to!(c.arguments => c.arguments@[i as int]));
                    }
                    let a = c.arguments[i].duplicate();
                    let ghost before = args@;
                    args.push(a);
                    proof {
                        lemma_exprs_view_push(before, a);
                        assert(exprs_view(args@) =~= exprs_view(c.arguments@).subrange(0, i + 1));
                    }
                    i = i + 1;
                }
                proof {
                    assert(exprs_view(c.arguments@).subrange(0, i as int) =~= exprs_view(c.arguments@));
                }
                Expr::call(callee, c.paren.duplicate(), args)
            },
            Expr::Grouping(g) => Expr::grouping(g.expression.duplicate()),
            Expr::Function(f) => Expr::function(
                duplicate_tokens(&f.params),
                crate::stmt::duplicate_stmts(&f.statements),
            ),
        }
    }
}

impl Clone for Expr {
    /// A copy with the same content (see [`Expr::duplicate`]).
    fn clone(&self) -> (r: Expr)
        ensures
            r@ == self@,
    {
        self.duplicate()
    }
}

} // verus!
