use vstd::prelude::*;

use crate::expr::{expr_view, exprs_view, Expr, SExpr};
use crate::token::{token_views, Token, TokenView};

verus! {

/// A whole program: its statements in order.
#[derive(Debug, Clone)]
pub struct Program(pub Vec<Stmt>);

/// A statement of the syntax tree.
#[derive(Debug)]
pub enum Stmt {
    Expression(ExpressionStmt),
    Print(PrintStmt),
    Var(VarStmt),
    Block(BlockStmt),
    If(IfStmt),
    Return(ReturnStmt),
    While(WhileStmt),
    Function(FunctionStmt),
    Break(BreakStmt),
}

#[derive(Debug, Clone)]
pub struct ExpressionStmt {
    pub expression: Expr,
}

#[derive(Debug, Clone)]
pub struct PrintStmt {
    pub expression: Expr,
}

#[derive(Debug, Clone)]
pub struct VarStmt {
    pub name: Token,
    pub initializer: Option<Expr>,
}

#[derive(Debug, Clone)]
pub struct BlockStmt {
    pub statements: Vec<Stmt>,
}

#[derive(Debug, Clone)]
pub struct IfStmt {
    pub condition: Expr,
    pub then_branch: Box<Stmt>,
    pub else_branch: Option<Box<Stmt>>,
}

#[derive(Debug, Clone)]
pub struct ReturnStmt {
    pub keyword: Token,
    pub value: Option<Expr>,
}

#[derive(Debug, Clone)]
pub struct WhileStmt {
    pub condition: Expr,
    pub body: Box<Stmt>,
}

#[derive(Debug, Clone)]
pub struct FunctionStmt {
    pub name: Token,
    pub params: Vec<Token>,
    pub statements: Vec<Stmt>,
}

#[derive(Debug, Clone)]
pub struct BreakStmt {
    pub keyword: Token,
}

/// The mathematical content of a [`Stmt`].
pub enum SStmt {
    Expression(SExpr),
    Print(SExpr),
    Var(TokenView, Option<SExpr>),
    Block(Seq<SStmt>),
    If(SExpr, Box<SStmt>, Option<Box<SStmt>>),
    Return(TokenView, Option<SExpr>),
    While(SExpr, Box<SStmt>),
    Function(TokenView, Seq<TokenView>, Seq<SStmt>),
    Break(TokenView),
}

/// The mathematical content of a statement.
pub open spec fn stmt_view(s: Stmt) -> SStmt
    decreases s,
{
    match s {
        Stmt::Expression(e) => SStmt::Expression(expr_view(e.expression)),
        Stmt::Print(p) => SStmt::Print(expr_view(p.expression)),
        Stmt::Var(v) => SStmt::Var(
            v.name@,
            match v.initializer {
                Some(e) => Some(expr_view(e)),
                None => None,
            },
        ),
        Stmt::Block(b) => SStmt::Block(stmts_view(b.statements@)),
        Stmt::If(i) => SStmt::If(
            expr_view(i.condition),
            Box::new(stmt_view(*i.then_branch)),
            match i.else_branch {
                Some(e) => Some(Box::new(stmt_view(*e))),
                None => None,
            },
        ),
        Stmt::Return(r) => SStmt::Return(
            r.keyword@,
            match r.value {
                Some(e) => Some(expr_view(e)),
                None => None,
            },
        ),
        Stmt::While(w) => SStmt::While(expr_view(w.condition), Box::new(stmt_view(*w.body))),
        Stmt::Function(f) => SStmt::Function(
            f.name@,
            token_views(f.params@),
            stmts_view(f.statements@),
        ),
        Stmt::Break(b) => SStmt::Break(b.keyword@),
    }
}

/// The mathematical content of a sequence of statements.
pub open spec fn stmts_view(s: Seq<Stmt>) -> Seq<SStmt>
    decreases s,
{
    if s.len() == 0 {
        seq![]
    } else {
        stmts_view(s.subrange(0, s.len() - 1)).push(stmt_view(s[s.len() - 1]))
    }
}

/// Viewing a sequence with one more statement adds that statement's view.
pub proof fn lemma_stmts_view_push(s: Seq<Stmt>, x: Stmt)
    ensures
        stmts_view(s.push(x)) == stmts_view(s).push(stmt_view(x)),
{
    assert(s.push(x).subrange(0, s.len() as int) =~= s);
}

/// The view of a sequence of statements has their views in order.
pub proof fn lemma_stmts_view_index(s: Seq<Stmt>)
    ensures
        stmts_view(s).len() == s.len(),
        forall|i: int| 0 <= i < s.len() ==> #[trigger] stmts_view(s)[i] == stmt_view(s[i]),
    decreases s.len(),
{
    if s.len() > 0 {
        let t = s.subrange(0, s.len() - 1);
        lemma_stmts_view_index(t);
        assert forall|i: int| 0 <= i < s.len() implies #[trigger] stmts_view(s)[i] == stmt_view(s[i]) by {
            if i < s.len() - 1 {
                assert(t[i] == s[i]);
            }
        }
    }
}

impl View for Stmt {
    type V = SStmt;

    open spec fn view(&self) -> SStmt {
        stmt_view(*self)
    }
}

impl View for Program {
    type V = Seq<SStmt>;

    open spec fn view(&self) -> Seq<SStmt> {
        stmts_view(self.0@)
    }
}

impl Stmt {
    pub fn expression(expression: Expr) -> (r: Stmt)
        ensures
            r@ == SStmt::Expression(expression@),
    {
        Stmt::Expression(ExpressionStmt { expression })
    }

    pub fn print(expression: Expr) -> (r: Stmt)
        ensures
            r@ == SStmt::Print(expression@),
    {
        Stmt::Print(PrintStmt { expression })
    }

    pub fn var(name: Token, initializer: Option<Expr>) -> (r: Stmt)
        ensures
            r@ == SStmt::Var(
                name@,
                match initializer {
                    Some(e) => Some(e@),
                    None => None,
                },
            ),
    {
        Stmt::Var(VarStmt { name, initializer })
    }

    pub fn block(statements: Vec<Stmt>) -> (r: Stmt)
        ensures
            r@ == SStmt::Block(stmts_view(statements@)),
    {
        Stmt::Block(BlockStmt { statements })
    }

    pub fn if_stmt(condition: Expr, then_branch: Stmt, else_branch: Option<Stmt>) -> (r: Stmt)
        ensures
            r@ == SStmt::If(
                condition@,
                Box::new(then_branch@),
                match else_branch {
                    Some(s) => Some(Box::new(s@)),
                    None => None,
                },
            ),
    {
        Stmt::If(
            IfStmt {
                condition,
                then_branch: Box::new(then_branch),
                else_branch: match else_branch {
                    Some(stmt) => Some(Box::new(stmt)),
                    _ => None,
                },
            },
        )
    }

    pub fn return_stmt(keyword: Token, value: Option<Expr>) -> (r: Stmt)
        ensures
            r@ == SStmt::Return(
                keyword@,
                match value {
                    Some(e) => Some(e@),
                    None => None,
                },
            ),
    {
        Stmt::Return(ReturnStmt { keyword, value })
    }

    pub fn while_stmt(condition: Expr, body: Stmt) -> (r: Stmt)
        ensures
            r@ == SStmt::While(condition@, Box::new(body@)),
    {
        Stmt::While(WhileStmt { condition, body: Box::new(body) })
    }

    pub fn function(name: Token, params: Vec<Token>, statements: Vec<Stmt>) -> (r: Stmt)
        ensures
            r@ == SStmt::Function(name@, token_views(params@), stmts_view(statements@)),
    {
        Stmt::Function(FunctionStmt { name, params, statements })
    }

    pub fn break_stmt(keyword: Token) -> (r: Stmt)
        ensures
            r@ == SStmt::Break(keyword@),
    {
        Stmt::Break(BreakStmt { keyword })
    }
}

/// Copies of the statements `ss`, in order.
pub fn duplicate_stmts(ss: &Vec<Stmt>) -> (r: Vec<Stmt>)
    ensures
        stmts_view(r@) == stmts_view(ss@),
    decreases ss,
{
    let mut r: Vec<Stmt> = Vec::new();
    let mut i: usize = 0;
    proof {
        lemma_stmts_view_index(ss@);
        assert(stmts_view(r@) =~= stmts_view(ss@).subrange(0, 0));
    }
    while i < ss.len()
        invariant
            i <= ss@.len(),
            stmts_view(ss@).len() == ss@.len(),
            forall|j: int| 0 <= j < ss@.len() ==> #[trigger] stmts_view(ss@)[j] == stmt_view(ss@[j]),
            stmts_view(r@) == stmts_view(ss@).subrange(0, i as int),
        decreases ss@.len() - i,
    {
        proof {
            assert(decreases_to!(ss => ss@[i as int]));
        }
        let s = ss[i].duplicate();
        let ghost before = r@;
        r.push(s);
        proof {
            lemma_stmts_view_push(before, s);
            assert(stmts_view(r@) =~= stmts_view(ss@).subrange(0, i + 1));
        }
        i = i + 1;
    }
    proof {
        assert(stmts_view(ss@).subrange(0, i as int) =~= stmts_view(ss@));
    }
    r
}

impl Stmt {
    /// A copy with the same content.
    pub fn duplicate(&self) -> (r: Stmt)
        ensures
            r@ == self@,
        decreases self,
    {
        match self {
            Stmt::Expression(s) => Stmt::expression(s.expression.duplicate()),
            Stmt::Print(s) => Stmt::print(s.expression.duplicate()),
            Stmt::Var(s) => Stmt::var(
                s.name.duplicate(),
                match &s.initializer {
                    Some(e) => Some(e.duplicate()),
                    None => None,
                },
            ),
            Stmt::Block(b) => Stmt::block(duplicate_stmts(&b.statements)),
            Stmt::If(s) => Stmt::if_stmt(
                s.condition.duplicate(),
                s.then_branch.duplicate(),
                match &s.else_branch {
                    Some(e) => Some(e.duplicate()),
                    None => None,
                },
            ),
            Stmt::Return(s) => Stmt::return_stmt(
                s.keyword.duplicate(),
                match &s.value {
                    Some(e) => Some(e.duplicate()),
                    None => None,
                },
            ),
            Stmt::While(s) => Stmt::while_stmt(s.condition.duplicate(), s.body.duplicate()),
            Stmt::Function(s) => Stmt::function(
                s.name.duplicate(),
                crate::expr::duplicate_tokens(&s.params),
                duplicate_stmts(&s.statements),
            ),
            Stmt::Break(s) => Stmt::break_stmt(s.keyword.duplicate()),
        }
    }
}

impl Clone for Stmt {
    /// A copy with the same content (see [`Stmt::duplicate`]).
    fn clone(&self) -> (r: Stmt)
        ensures
            r@ == self@,
    {
        self.duplicate()
    }
}

} // verus!
