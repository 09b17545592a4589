use vstd::prelude::*;

use crate::expr::{
    expr_view, exprs_view, lemma_exprs_view_index, Expr, LiteralValue, LiteralValueView, SExpr,
};
use crate::stmt::{lemma_stmts_view_index, stmt_view, stmts_view, Program, SStmt, Stmt};
use crate::text::{number_text, number_to_string};
use crate::token::{spec_token_text, token_views, Token, TokenView};

verus! {

// The printed form of syntax trees: each node as a parenthesised list that
// starts with what the node is.

/// How a literal is printed: a number by its value (see [`number_text`]), a
/// string by its contents, then `true`, `false` and `nil`.
pub open spec fn literal_text(v: LiteralValueView) -> Seq<char> {
    match v {
        LiteralValueView::Num(s) => number_text(s),
        LiteralValueView::Str(s) => s,
        LiteralValueView::Bool(b) => if b {
            "true"@
        } else {
            "false"@
        },
        LiteralValueView::Nil => "nil"@,
    }
}

/// How an expression is printed.
pub open spec fn expr_text(e: SExpr) -> Seq<char>
    decreases e,
{
    match e {
        SExpr::Literal(v) => literal_text(v),
        SExpr::Logical(l, op, r) => "("@ + spec_token_text(op) + " "@ + expr_text(*l) + " "@
            + expr_text(*r) + ")"@,
        SExpr::Variable(name) => spec_token_text(name),
        SExpr::Assign(name, v) => "(= "@ + spec_token_text(name) + " "@ + expr_text(*v) + ")"@,
        SExpr::Unary(op, r) => "("@ + spec_token_text(op) + " "@ + expr_text(*r) + ")"@,
        SExpr::Binary(l, op, r) => "("@ + spec_token_text(op) + " "@ + expr_text(*l) + " "@
            + expr_text(*r) + ")"@,
        SExpr::Call(callee, _, args) => "("@ + expr_text(*callee) + args_text(args) + ")"@,
        SExpr::Grouping(g) => "(group "@ + expr_text(*g) + ")"@,
        SExpr::Function(_, _) => "(fn <anonymous>)"@,
    }
}

/// The arguments of a call as printed: each after a space.
pub open spec fn args_text(args: Seq<SExpr>) -> Seq<char>
    decreases args,
{
    if args.len() == 0 {
        seq![]
    } else {
        args_text(args.subrange(0, args.len() - 1)) + " "@ + expr_text(args[args.len() - 1])
    }
}

/// The names of a function's parameters, separated by spaces.
pub open spec fn params_text(params: Seq<TokenView>) -> Seq<char>
    decreases params.len(),
{
    if params.len() == 0 {
        seq![]
    } else if params.len() == 1 {
        params[0].lexeme
    } else {
        params_text(params.subrange(0, params.len() - 1)) + " "@ + params[params.len() - 1].lexeme
    }
}

/// How a statement is printed.
pub open spec fn stmt_text(s: SStmt) -> Seq<char>
    decreases s,
{
    match s {
        SStmt::Expression(e) => "(expr "@ + expr_text(e) + ")"@,
        SStmt::Print(e) => "(print "@ + expr_text(e) + ")"@,
        SStmt::Var(name, init) => match init {
            Some(e) => "(var "@ + name.lexeme + " "@ + expr_text(e) + ")"@,
            None => "(var "@ + name.lexeme + ")"@,
        },
        SStmt::Block(b) => "(block "@ + stmts_text(b) + ")"@,
        SStmt::If(c, t, e) => match e {
            Some(e) => "(if "@ + expr_text(c) + " "@ + stmt_text(*t) + " "@ + stmt_text(*e) + ")"@,
            None => "(if "@ + expr_text(c) + " "@ + stmt_text(*t) + ")"@,
        },
        SStmt::Return(_, v) => match v {
            Some(e) => "(return "@ + expr_text(e) + ")"@,
            None => "(return)"@,
        },
        SStmt::While(c, b) => "(while "@ + expr_text(c) + " "@ + stmt_text(*b) + ")"@,
        SStmt::Function(name, params, body) => "(fun "@ + name.lexeme + " ("@ + params_text(params)
            + ") "@ + stmts_text(body) + ")"@,
        SStmt::Break(_) => "(break)"@,
    }
}

/// Statements as printed: one after the other, with nothing between them.
pub open spec fn stmts_text(ss: Seq<SStmt>) -> Seq<char>
    decreases ss,
{
    if ss.len() == 0 {
        seq![]
    } else {
        stmts_text(ss.subrange(0, ss.len() - 1)) + stmt_text(ss[ss.len() - 1])
    }
}

/// Printing two runs of statements one after the other prints the first run,
/// then the second.
pub proof fn lemma_stmts_text_concat(a: Seq<SStmt>, b: Seq<SStmt>)
    ensures
        stmts_text(a + b) == stmts_text(a) + stmts_text(b),
    decreases b.len(),
{
    if b.len() == 0 {
        assert(a + b =~= a);
        assert(stmts_text(a) + stmts_text(b) =~= stmts_text(a));
    } else {
        let b0 = b.subrange(0, b.len() - 1);
        lemma_stmts_text_concat(a, b0);
        assert((a + b).subrange(0, (a + b).len() - 1) =~= a + b0);
        assert((a + b)[(a + b).len() - 1] == b[b.len() - 1]);
    }
}

impl LiteralValue {
    /// The printed form of this value.
    pub fn to_string(&self) -> (r: String)
        ensures
            r@ == literal_text(self@),
    {
        match self {
            LiteralValue::Num(s) => number_to_string(s.as_str()),
            LiteralValue::Str(s) => s.clone(),
            LiteralValue::Bool(b) => if *b {
                String::from_str("true")
            } else {
                String::from_str("false")
            },
            LiteralValue::Nil => String::from_str("nil"),
        }
    }
}

impl Expr {
    /// The printed form of this expression.
    pub fn to_string(&self) -> (r: String)
        ensures
            r@ == expr_text(self@),
        decreases self,
    {
        match self {
            Expr::Literal(l) => l.value.to_string(),
            Expr::Logical(l) => {
                let mut r = String::from_str("(");
                r.append(l.operator.text().as_str());
                r.append(" ");
                r.append(l.left.to_string().as_str());
                r.append(" ");
                r.append(l.right.to_string().as_str());
                r.append(")");
                r
            },
            Expr::Variable(v) => v.name.text(),
            Expr::Assign(a) => {
                let mut r = String::from_str("(= ");
                r.append(a.name.text().as_str());
                r.append(" ");
                r.append(a.expression.to_string().as_str());
                r.append(")");
                r
            },
            Expr::Unary(u) => {
                let mut r = String::from_str("(");
                r.append(u.operator.text().as_str());
                r.append(" ");
                r.append(u.right.to_string().as_str());
                r.append(")");
                r
            },
            Expr::Binary(b) => {
                let mut r = String::from_str("(");
                r.append(b.operator.text().as_str());
                r.append(" ");
                r.append(b.left.to_string().as_str());
                r.append(" ");
                r.append(b.right.to_string().as_str());
                r.append(")");
                r
            },
            Expr::Call(c) => {
                let mut r = String::from_str("(");
                r.append(c.callee.to_string().as_str());
                let ghost args = exprs_view(c.arguments@);
                proof {
                    lemma_exprs_view_index(c.arguments@);
                    assert(args.subrange(0, 0) =~= seq![]);
                }
                let mut i: usize = 0;
                while i < c.arguments.len()
                    invariant
                        i <= c.arguments@.len(),
                        args == exprs_view(c.arguments@),
                        *self == Expr::Call(*c),
                        args.len() == c.arguments@.len(),
                        forall|j: int| 0 <= j < args.len() ==> #[trigger] args[j] == expr_view(c.arguments@[j]),
                        r@ == "("@ + expr_text(c.callee@) + args_text(args.subrange(0, i as int)),
                    decreases c.arguments@.len() - i,
                {
                    proof {
                        assert(decreases_to!(*self => (*self)->Call_0));
                        assert(decreases_to!((*self)->Call_0 => (*self)->Call_0.arguments));
                        assert(decreases_to!(c.arguments => c.arguments@[i as int]));
                    }
                    let arg = c.arguments[i].to_string();
                    r.append(" ");
                    r.append(arg.as_str());
                    proof {
                        assert(args.subrange(0, i + 1).subrange(0, i as int) =~= args.subrange(0, i as int));
                        assert(args.subrange(0, i + 1)[i as int] == args[i as int]);
                    }
                    i = i + 1;
                }
                proof {
                    assert(args.subrange(0, args.len() as int) =~= args);
                }
                r.append(")");
                r
            },
            Expr::Grouping(g) => {
                let mut r = String::from_str("(group ");
                r.append(g.expression.to_string().as_str());
                r.append(")");
                r
            },
            Expr::Function(_) => String::from_str("(fn <anonymous>)"),
        }
    }
}

/// The names of the parameters `params`, separated by spaces.
fn params_to_string(params: &Vec<Token>) -> (r: String)
    ensures
        r@ == params_text(token_views(params@)),
{
    let ghost ps = token_views(params@);
    let mut r = String::new();
    let mut i: usize = 0;
    proof {
        assert(ps.subrange(0, 0) =~= seq![]);
    }
    while i < params.len()
        invariant
            i <= params@.len(),
            ps == token_views(params@),
            r@ == params_text(ps.subrange(0, i as int)),
        decreases params@.len() - i,
    {
        if i > 0 {
            r.append(" ");
        }
        r.append(params[i].lexeme.as_str());
        proof {
            let next = ps.subrange(0, i + 1);
            assert(next.subrange(0, i as int) =~= ps.subrange(0, i as int));
            if i == 0 {
                assert(r@ =~= next[0].lexeme);
            }
        }
        i = i + 1;
    }
    proof {
        assert(ps.subrange(0, ps.len() as int) =~= ps);
    }
    r
}

/// The printed forms of the statements `stmts`, one after the other.
fn stmts_to_string(stmts: &Vec<Stmt>) -> (r: String)
    ensures
        r@ == stmts_text(stmts_view(stmts@)),
    decreases stmts,
{
    let ghost ss = stmts_view(stmts@);
    proof {
        lemma_stmts_view_index(stmts@);
        assert(ss.subrange(0, 0) =~= seq![]);
    }
    let mut r = String::new();
    let mut i: usize = 0;
    while i < stmts.len()
        invariant
            i <= stmts@.len(),
            ss == stmts_view(stmts@),
            ss.len() == stmts@.len(),
            forall|j: int| 0 <= j < ss.len() ==> #[trigger] ss[j] == stmt_view(stmts@[j]),
            r@ == stmts_text(ss.subrange(0, i as int)),
        decreases stmts@.len() - i,
    {
        proof {
            assert(decreases_to!(stmts => stmts@[i as int]));
        }
        let s = stmts[i].to_string();
        r.append(s.as_str());
        proof {
            assert(ss.subrange(0, i + 1).subrange(0, i as int) =~= ss.subrange(0, i as int));
            assert(ss.subrange(0, i + 1)[i as int] == ss[i as int]);
        }
        i = i + 1;
    }
    proof {
        assert(ss.subrange(0, ss.len() as int) =~= ss);
    }
    r
}

impl Stmt {
    /// The printed form of this statement.
    pub fn to_string(&self) -> (r: String)
        ensures
            r@ == stmt_text(self@),
        decreases self,
    {
        match self {
            Stmt::Expression(s) => {
                let mut r = String::from_str("(expr ");
                r.append(s.expression.to_string().as_str());
                r.append(")");
                r
            },
            Stmt::Print(s) => {
                let mut r = String::from_str("(print ");
                r.append(s.expression.to_string().as_str());
                r.append(")");
                r
            },
            Stmt::Var(s) => {
                let mut r = String::from_str("(var ");
                r.append(s.name.lexeme.as_str());
                match &s.initializer {
                    Some(init) => {
                        r.append(" ");
                        r.append(init.to_string().as_str());
                    },
                    None => {},
                }
                r.append(")");
                r
            },
            Stmt::Block(b) => {
                let mut r = String::from_str("(block ");
                r.append(stmts_to_string(&b.statements).as_str());
                r.append(")");
                r
            },
            Stmt::If(s) => {
                let mut r = String::from_str("(if ");
                r.append(s.condition.to_string().as_str());
                r.append(" ");
                r.append(s.then_branch.to_string().as_str());
                match &s.else_branch {
                    Some(e) => {
                        r.append(" ");
                        r.append(e.to_string().as_str());
                    },
                    None => {},
                }
                r.append(")");
                r
            },
            Stmt::Return(s) => {
                match &s.value {
                    Some(e) => {
                        let mut r = String::from_str("(return ");
                        r.append(e.to_string().as_str());
                        r.append(")");
                        r
                    },
                    None => String::from_str("(return)"),
                }
            },
            Stmt::While(s) => {
                let mut r = String::from_str("(while ");
                r.append(s.condition.to_string().as_str());
                r.append(" ");
                r.append(s.body.to_string().as_str());
                r.append(")");
                r
            },
            Stmt::Function(s) => {
                let mut r = String::from_str("(fun ");
                r.append(s.name.lexeme.as_str());
                r.append(" (");
                r.append(params_to_string(&s.params).as_str());
                r.append(") ");
                r.append(stmts_to_string(&s.statements).as_str());
                r.append(")");
                r
            },
            Stmt::Break(_) => String::from_str("(break)"),
        }
    }
}

impl Program {
    /// The printed form of this program: its statements, one after the other.
    pub fn to_string(&self) -> (r: String)
        ensures
            r@ == stmts_text(self@),
    {
        stmts_to_string(&self.0)
    }
}

} // verus!
