use vstd::prelude::*;

use crate::error::{
    spec_invalid_assignment, spec_missing_expression, spec_too_many_arguments, spec_wrong_token,
    ErrorView,
};
use crate::expr::{LiteralValueView, SExpr};
use crate::stmt::SStmt;
use crate::token::{LiteralView, TokenType, TokenView};

verus! {

// The grammar of the language, as a recursive-descent reading of a token
// sequence `ts`. Each rule reads from a position and gives the outcome of that
// reading: a result (a tree or an error) together with the number of tokens the
// reading consumed, or `Diverges` where the reading never ends.

/// The outcome of reading a rule of the grammar.
pub enum Parse<T> {
    /// The result, and the number of tokens consumed to reach it.
    Done(Result<T, ErrorView>, nat),
    /// The reading never ends.
    Diverges,
}

/// The index of the first end-of-file token at or after `i` (the length when there is none).
pub open spec fn first_eof_from(ts: Seq<TokenView>, i: nat) -> nat
    decreases ts.len() - i,
{
    if i >= ts.len() {
        ts.len()
    } else if ts[i as int].ty == TokenType::EOF {
        i
    } else {
        first_eof_from(ts, i + 1)
    }
}

/// The index of the first end-of-file token (the length when there is none).
pub open spec fn first_eof(ts: Seq<TokenView>) -> nat {
    first_eof_from(ts, 0)
}

/// A position from which the parser reads: at or before the first end-of-file token.
pub open spec fn in_range(ts: Seq<TokenView>, pos: nat) -> bool {
    pos <= first_eof(ts) < ts.len()
}

/// How many tokens remain to be read from `pos`, the first end-of-file token included.
pub open spec fn remaining(ts: Seq<TokenView>, pos: nat) -> nat {
    if pos <= first_eof(ts) {
        (first_eof(ts) - pos + 1) as nat
    } else {
        0
    }
}

pub open spec fn at_end(ts: Seq<TokenView>, pos: nat) -> bool {
    ts[pos as int].ty == TokenType::EOF
}

/// The next token is of kind `ty` (never true at the end).
pub open spec fn check(ts: Seq<TokenView>, pos: nat, ty: TokenType) -> bool {
    !at_end(ts, pos) && ts[pos as int].ty == ty
}

/// Adds `k` consumed tokens to an outcome.
pub open spec fn shift<T>(r: Parse<T>, k: nat) -> Parse<T> {
    match r {
        Parse::Done(res, j) => Parse::Done(res, j + k),
        Parse::Diverges => Parse::Diverges,
    }
}

/// Reading a token of kind `ty`.
pub open spec fn consume(ts: Seq<TokenView>, pos: nat, ty: TokenType) -> Parse<TokenView> {
    if check(ts, pos, ty) {
        Parse::Done(Ok(ts[pos as int]), 1)
    } else {
        Parse::Done(Err(spec_wrong_token(ty, ts[pos as int])), 0)
    }
}

/// Reading an identifier.
pub open spec fn consume_identifier(ts: Seq<TokenView>, pos: nat) -> Parse<TokenView> {
    if ts[pos as int].ty == TokenType::Identifier {
        Parse::Done(Ok(ts[pos as int]), 1)
    } else {
        Parse::Done(Err(spec_wrong_token(TokenType::Identifier, ts[pos as int])), 0)
    }
}

/// The value of a literal token, if it is one.
pub open spec fn literal_value(t: TokenView) -> Option<LiteralValueView> {
    if t.ty == TokenType::Str {
        match t.literal {
            Some(LiteralView::Str(s)) => Some(LiteralValueView::Str(s)),
            _ => None,
        }
    } else if t.ty == TokenType::Number {
        match t.literal {
            Some(LiteralView::Number(s)) => Some(LiteralValueView::Num(s)),
            _ => None,
        }
    } else if t.ty == TokenType::True {
        Some(LiteralValueView::Bool(true))
    } else if t.ty == TokenType::False {
        Some(LiteralValueView::Bool(false))
    } else if t.ty == TokenType::Nil {
        Some(LiteralValueView::Nil)
    } else {
        None
    }
}

/// Turns a successful reading into another value.
pub open spec fn map_ok<A, B>(r: Parse<A>, f: spec_fn(A) -> B) -> Parse<B> {
    match r {
        Parse::Done(Ok(a), k) => Parse::Done(Ok(f(a)), k),
        Parse::Done(Err(e), k) => Parse::Done(Err(e), k),
        Parse::Diverges => Parse::Diverges,
    }
}

/// After a successful reading of `r` from `pos`, reads a token of kind `ty`; the
/// value becomes `f` of the first reading's value.
pub open spec fn then_consume<A, B>(
    ts: Seq<TokenView>,
    pos: nat,
    r: Parse<A>,
    ty: TokenType,
    f: spec_fn(A) -> B,
) -> Parse<B> {
    match r {
        Parse::Done(Ok(a), k) => match consume(ts, pos + k, ty) {
            Parse::Done(Ok(_), k2) => Parse::Done(Ok(f(a)), k + k2),
            Parse::Done(Err(e), k2) => Parse::Done(Err(e), k + k2),
            Parse::Diverges => Parse::Diverges,
        },
        Parse::Done(Err(e), k) => Parse::Done(Err(e), k),
        Parse::Diverges => Parse::Diverges,
    }
}

/// declaration → "var" varDecl | "fun" IDENT funDecl | statement
#[verifier::opaque]
pub open spec fn declaration(ts: Seq<TokenView>, pos: nat) -> Parse<SStmt>
    decreases remaining(ts, pos), 40nat,
{
    if !in_range(ts, pos) {
        Parse::Diverges
    } else {
        let ty = ts[pos as int].ty;
        if ty == TokenType::Var {
            shift(var_declaration(ts, pos + 1), 1)
        } else if ty == TokenType::Fun {
            let next = if at_end(ts, pos) {
                ts[pos as int]
            } else {
                ts[pos + 1int]
            };
            if next.ty == TokenType::Identifier {
                shift(function_declaration(ts, pos + 1), 1)
            } else {
                statement(ts, pos)
            }
        } else {
            statement(ts, pos)
        }
    }
}

/// varDecl → IDENT ( "=" expression )? ";"
#[verifier::opaque]
pub open spec fn var_declaration(ts: Seq<TokenView>, pos: nat) -> Parse<SStmt>
    decreases remaining(ts, pos), 2nat,
{
    if !in_range(ts, pos) {
        Parse::Diverges
    } else {
        match consume_identifier(ts, pos) {
            Parse::Done(Ok(name), k1) => {
                let p1 = pos + k1;
                if ts[p1 as int].ty == TokenType::Equal {
                    shift(
                        then_consume(
                            ts,
                            p1 + 1,
                            expression(ts, p1 + 1),
                            TokenType::Semicolon,
                            |e: SExpr| SStmt::Var(name, Some(e)),
                        ),
                        k1 + 1,
                    )
                } else {
                    match consume(ts, p1, TokenType::Semicolon) {
                        Parse::Done(Ok(_), k2) => Parse::Done(Ok(SStmt::Var(name, None)), k1 + k2),
                        Parse::Done(Err(e), k2) => Parse::Done(Err(e), k1 + k2),
                        Parse::Diverges => Parse::Diverges,
                    }
                }
            },
            Parse::Done(Err(e), k1) => Parse::Done(Err(e), k1),
            Parse::Diverges => Parse::Diverges,
        }
    }
}

/// The part of a function after its name: "(" parameters ")" "{" block; the
/// parameters and the statements of the body.
#[verifier::opaque]
pub open spec fn function_rest(ts: Seq<TokenView>, pos: nat) -> Parse<(Seq<TokenView>, Seq<SStmt>)>
    decreases remaining(ts, pos), 3nat,
{
    if !in_range(ts, pos) {
        Parse::Diverges
    } else {
        match consume(ts, pos, TokenType::LeftParen) {
            Parse::Done(Ok(_), k1) => {
                let p1 = pos + k1;
                match consume_function_parameters(ts, p1) {
                    Parse::Done(Ok(params), k2) => {
                        let p2 = p1 + k2;
                        match consume(ts, p2, TokenType::RightParen) {
                            Parse::Done(Ok(_), k3) => {
                                let p3 = p2 + k3;
                                match consume(ts, p3, TokenType::LeftBrace) {
                                    Parse::Done(Ok(_), k4) => {
                                        let p4 = p3 + k4;
                                        shift(
                                            map_ok(block(ts, p4), |b: Seq<SStmt>| (params, b)),
                                            k1 + k2 + k3 + k4,
                                        )
                                    },
                                    Parse::Done(Err(e), k4) => Parse::Done(Err(e), k1 + k2 + k3 + k4),
                                    Parse::Diverges => Parse::Diverges,
                                }
                            },
                            Parse::Done(Err(e), k3) => Parse::Done(Err(e), k1 + k2 + k3),
                            Parse::Diverges => Parse::Diverges,
                        }
                    },
                    Parse::Done(Err(e), k2) => Parse::Done(Err(e), k1 + k2),
                    Parse::Diverges => Parse::Diverges,
                }
            },
            Parse::Done(Err(e), k1) => Parse::Done(Err(e), k1),
            Parse::Diverges => Parse::Diverges,
        }
    }
}

/// funDecl → IDENT "(" parameters ")" "{" block
#[verifier::opaque]
pub open spec fn function_declaration(ts: Seq<TokenView>, pos: nat) -> Parse<SStmt>
    decreases remaining(ts, pos), 4nat,
{
    if !in_range(ts, pos) {
        Parse::Diverges
    } else {
        match consume_identifier(ts, pos) {
            Parse::Done(Ok(name), k1) => shift(
                map_ok(
                    function_rest(ts, pos + k1),
                    |f: (Seq<TokenView>, Seq<SStmt>)| SStmt::Function(name, f.0, f.1),
                ),
                k1,
            ),
            Parse::Done(Err(e), k1) => Parse::Done(Err(e), k1),
            Parse::Diverges => Parse::Diverges,
        }
    }
}

/// parameters → ( IDENT ( "," IDENT )* )?
pub open spec fn consume_function_parameters(ts: Seq<TokenView>, pos: nat) -> Parse<Seq<TokenView>> {
    if !check(ts, pos, TokenType::RightParen) {
        parameters_from(ts, pos, seq![])
    } else {
        Parse::Done(Ok(seq![]), 0)
    }
}

/// The parameters from `pos` on, after the parameters `acc`.
#[verifier::opaque]
pub open spec fn parameters_from(ts: Seq<TokenView>, pos: nat, acc: Seq<TokenView>) -> Parse<Seq<TokenView>>
    decreases remaining(ts, pos),
{
    if !in_range(ts, pos) {
        Parse::Diverges
    } else if acc.len() > 255 {
        Parse::Done(Err(spec_too_many_arguments(ts[pos as int])), 0)
    } else {
        match consume_identifier(ts, pos) {
            Parse::Done(Ok(t), k) => {
                let p = pos + k;
                if ts[p as int].ty == TokenType::Comma {
                    shift(parameters_from(ts, p + 1, acc.push(t)), k + 1)
                } else {
                    Parse::Done(Ok(acc.push(t)), k)
                }
            },
            Parse::Done(Err(e), k) => Parse::Done(Err(e), k),
            Parse::Diverges => Parse::Diverges,
        }
    }
}

/// statement → forStmt | ifStmt | printStmt | returnStmt | breakStmt | whileStmt | block | exprStmt
#[verifier::opaque]
pub open spec fn statement(ts: Seq<TokenView>, pos: nat) -> Parse<SStmt>
    decreases remaining(ts, pos), 39nat,
{
    if !in_range(ts, pos) {
        Parse::Diverges
    } else {
        let ty = ts[pos as int].ty;
        if ty == TokenType::For {
            shift(for_statement(ts, pos + 1), 1)
        } else if ty == TokenType::If {
            shift(if_statement(ts, pos + 1), 1)
        } else if ty == TokenType::Print {
            shift(print_statement(ts, pos + 1), 1)
        } else if ty == TokenType::Return {
            shift(return_statement(ts, pos + 1), 1)
        } else if ty == TokenType::Break {
            shift(break_statement(ts, pos + 1), 1)
        } else if ty == TokenType::While {
            shift(while_statement(ts, pos + 1), 1)
        } else if ty == TokenType::LeftBrace {
            shift(map_ok(block(ts, pos + 1), |b: Seq<SStmt>| SStmt::Block(b)), 1)
        } else {
            expression_statement(ts, pos)
        }
    }
}

/// The initializer clause of a for loop: ";" | "var" varDecl | exprStmt.
#[verifier::opaque]
pub open spec fn for_initializer(ts: Seq<TokenView>, pos: nat) -> Parse<Option<SStmt>>
    decreases remaining(ts, pos), 45nat,
{
    if !in_range(ts, pos) {
        Parse::Diverges
    } else if ts[pos as int].ty == TokenType::Semicolon {
        Parse::Done(Ok(None), 1)
    } else if ts[pos as int].ty == TokenType::Var {
        shift(map_ok(var_declaration(ts, pos + 1), |s: SStmt| Some(s)), 1)
    } else {
        map_ok(expression_statement(ts, pos), |s: SStmt| Some(s))
    }
}

/// The condition clause of a for loop: expression? ";", the condition being
/// absent when the semicolon comes at once.
#[verifier::opaque]
pub open spec fn for_condition(ts: Seq<TokenView>, pos: nat) -> Parse<Option<SExpr>>
    decreases remaining(ts, pos), 45nat,
{
    if !in_range(ts, pos) {
        Parse::Diverges
    } else if !check(ts, pos, TokenType::Semicolon) {
        then_consume(ts, pos, expression(ts, pos), TokenType::Semicolon, |e: SExpr| Some(e))
    } else {
        Parse::Done(Ok(None), 1)
    }
}

/// The increment clause of a for loop: expression?
#[verifier::opaque]
pub open spec fn for_increment(ts: Seq<TokenView>, pos: nat) -> Parse<Option<SExpr>>
    decreases remaining(ts, pos), 45nat,
{
    if !in_range(ts, pos) {
        Parse::Diverges
    } else if !check(ts, pos, TokenType::RightParen) {
        map_ok(expression(ts, pos), |e: SExpr| Some(e))
    } else {
        Parse::Done(Ok(None), 0)
    }
}

/// The loop that a for statement stands for: the initializer, then a while loop
/// over the condition (true when absent) whose body is followed by the increment.
pub open spec fn desugar_for(
    initializer: Option<SStmt>,
    condition: Option<SExpr>,
    increment: Option<SExpr>,
    body: SStmt,
) -> SStmt {
    let cond = match condition {
        Some(c) => c,
        None => SExpr::Literal(LiteralValueView::Bool(true)),
    };
    let while_loop = SStmt::While(
        cond,
        Box::new(
            match increment {
                Some(i) => SStmt::Block(seq![body, SStmt::Expression(i)]),
                None => body,
            },
        ),
    );
    match initializer {
        Some(i) => SStmt::Block(seq![i, while_loop]),
        None => while_loop,
    }
}

/// forStmt → "(" initializer condition increment ")" statement
#[verifier::opaque]
pub open spec fn for_statement(ts: Seq<TokenView>, pos: nat) -> Parse<SStmt>
    decreases remaining(ts, pos), 6nat,
{
    if !in_range(ts, pos) {
        Parse::Diverges
    } else {
        match consume(ts, pos, TokenType::LeftParen) {
            Parse::Done(Ok(_), k1) => {
                let p1 = pos + k1;
                match for_initializer(ts, p1) {
                    Parse::Done(Ok(init), k2) => {
                        let p2 = p1 + k2;
                        match for_condition(ts, p2) {
                            Parse::Done(Ok(cond), k3) => {
                                let p3 = p2 + k3;
                                match for_increment(ts, p3) {
                                    Parse::Done(Ok(incr), k4) => {
                                        let p4 = p3 + k4;
                                        match consume(ts, p4, TokenType::RightParen) {
                                            Parse::Done(Ok(_), k5) => {
                                                let p5 = p4 + k5;
                                                shift(
                                                    map_ok(
                                                        statement(ts, p5),
                                                        |body: SStmt| desugar_for(init, cond, incr, body),
                                                    ),
                                                    k1 + k2 + k3 + k4 + k5,
                                                )
                                            },
                                            Parse::Done(Err(e), k5) => Parse::Done(
                                                Err(e),
                                                k1 + k2 + k3 + k4 + k5,
                                            ),
                                            Parse::Diverges => Parse::Diverges,
                                        }
                                    },
                                    Parse::Done(Err(e), k4) => Parse::Done(Err(e), k1 + k2 + k3 + k4),
                                    Parse::Diverges => Parse::Diverges,
                                }
                            },
                            Parse::Done(Err(e), k3) => Parse::Done(Err(e), k1 + k2 + k3),
                            Parse::Diverges => Parse::Diverges,
                        }
                    },
                    Parse::Done(Err(e), k2) => Parse::Done(Err(e), k1 + k2),
                    Parse::Diverges => Parse::Diverges,
                }
            },
            Parse::Done(Err(e), k1) => Parse::Done(Err(e), k1),
            Parse::Diverges => Parse::Diverges,
        }
    }
}

/// expression ")": the rest of the parenthesised condition of an if or while
/// statement, after its opening parenthesis.
#[verifier::opaque]
pub open spec fn condition_rest(ts: Seq<TokenView>, pos: nat) -> Parse<SExpr>
    decreases remaining(ts, pos), 45nat,
{
    if !in_range(ts, pos) {
        Parse::Diverges
    } else {
        then_consume(ts, pos, expression(ts, pos), TokenType::RightParen, |e: SExpr| e)
    }
}

/// ifStmt → "(" expression ")" statement ( "else" statement )?
#[verifier::opaque]
pub open spec fn if_statement(ts: Seq<TokenView>, pos: nat) -> Parse<SStmt>
    decreases remaining(ts, pos), 6nat,
{
    if !in_range(ts, pos) {
        Parse::Diverges
    } else {
        match consume(ts, pos, TokenType::LeftParen) {
            Parse::Done(Ok(_), k0) => match condition_rest(ts, pos + k0) {
            Parse::Done(Ok(cond), kc) => {
                let k1 = k0 + kc;
                let p1 = pos + k1;
                match statement(ts, p1) {
                    Parse::Done(Ok(then_branch), k2) => {
                        let p2 = p1 + k2;
                        if ts[p2 as int].ty == TokenType::Else {
                            shift(
                                map_ok(
                                    statement(ts, p2 + 1),
                                    |e: SStmt| SStmt::If(cond, Box::new(then_branch), Some(Box::new(e))),
                                ),
                                k1 + k2 + 1,
                            )
                        } else {
                            Parse::Done(Ok(SStmt::If(cond, Box::new(then_branch), None)), k1 + k2)
                        }
                    },
                    Parse::Done(Err(e), k2) => Parse::Done(Err(e), k1 + k2),
                    Parse::Diverges => Parse::Diverges,
                }
            },
            Parse::Done(Err(e), kc) => Parse::Done(Err(e), k0 + kc),
            Parse::Diverges => Parse::Diverges,
            },
            Parse::Done(Err(e), k0) => Parse::Done(Err(e), k0),
            Parse::Diverges => Parse::Diverges,
        }
    }
}

/// printStmt → expression ";"
#[verifier::opaque]
pub open spec fn print_statement(ts: Seq<TokenView>, pos: nat) -> Parse<SStmt>
    decreases remaining(ts, pos), 38nat,
{
    if !in_range(ts, pos) {
        Parse::Diverges
    } else {
        then_consume(ts, pos, expression(ts, pos), TokenType::Semicolon, |e: SExpr| SStmt::Print(e))
    }
}

/// breakStmt → ";", the break keyword being the token before `pos`.
pub open spec fn break_statement(ts: Seq<TokenView>, pos: nat) -> Parse<SStmt> {
    let keyword = ts[pos - 1];
    match consume(ts, pos, TokenType::Semicolon) {
        Parse::Done(Ok(_), k) => Parse::Done(Ok(SStmt::Break(keyword)), k),
        Parse::Done(Err(e), k) => Parse::Done(Err(e), k),
        Parse::Diverges => Parse::Diverges,
    }
}

/// returnStmt → expression? ";", the return keyword being the token before `pos`.
#[verifier::opaque]
pub open spec fn return_statement(ts: Seq<TokenView>, pos: nat) -> Parse<SStmt>
    decreases remaining(ts, pos), 38nat,
{
    if !in_range(ts, pos) {
        Parse::Diverges
    } else {
        let keyword = ts[pos - 1];
        if !check(ts, pos, TokenType::Semicolon) {
            then_consume(
                ts,
                pos,
                expression(ts, pos),
                TokenType::Semicolon,
                |e: SExpr| SStmt::Return(keyword, Some(e)),
            )
        } else {
            match consume(ts, pos, TokenType::Semicolon) {
                Parse::Done(Ok(_), k) => Parse::Done(Ok(SStmt::Return(keyword, None)), k),
                Parse::Done(Err(e), k) => Parse::Done(Err(e), k),
                Parse::Diverges => Parse::Diverges,
            }
        }
    }
}

/// whileStmt → "(" expression ")" statement
#[verifier::opaque]
pub open spec fn while_statement(ts: Seq<TokenView>, pos: nat) -> Parse<SStmt>
    decreases remaining(ts, pos), 6nat,
{
    if !in_range(ts, pos) {
        Parse::Diverges
    } else {
        match consume(ts, pos, TokenType::LeftParen) {
            Parse::Done(Ok(_), k0) => match condition_rest(ts, pos + k0) {
                Parse::Done(Ok(cond), kc) => shift(
                    map_ok(
                        statement(ts, pos + k0 + kc),
                        |body: SStmt| SStmt::While(cond, Box::new(body)),
                    ),
                    k0 + kc,
                ),
                Parse::Done(Err(e), kc) => Parse::Done(Err(e), k0 + kc),
                Parse::Diverges => Parse::Diverges,
            },
            Parse::Done(Err(e), k0) => Parse::Done(Err(e), k0),
            Parse::Diverges => Parse::Diverges,
        }
    }
}

/// block → declaration* "}": the declarations up to the closing brace.
#[verifier::opaque]
pub open spec fn block(ts: Seq<TokenView>, pos: nat) -> Parse<Seq<SStmt>>
    decreases remaining(ts, pos), 42nat,
{
    if !in_range(ts, pos) {
        Parse::Diverges
    } else {
        block_from(ts, pos, seq![])
    }
}

/// The rest of a block from `pos`, after its declarations `acc`.
#[verifier::opaque]
pub open spec fn block_from(ts: Seq<TokenView>, pos: nat, acc: Seq<SStmt>) -> Parse<Seq<SStmt>>
    decreases remaining(ts, pos), 41nat,
{
    if !in_range(ts, pos) {
        Parse::Diverges
    } else if !check(ts, pos, TokenType::RightBrace) && !at_end(ts, pos) {
        match declaration(ts, pos) {
            Parse::Done(Ok(s), k) => if k == 0 {
                Parse::Diverges
            } else {
                shift(block_from(ts, pos + k, acc.push(s)), k)
            },
            Parse::Done(Err(e), k) => Parse::Done(Err(e), k),
            Parse::Diverges => Parse::Diverges,
        }
    } else {
        match consume(ts, pos, TokenType::RightBrace) {
            Parse::Done(Ok(_), k) => Parse::Done(Ok(acc), k),
            Parse::Done(Err(e), k) => Parse::Done(Err(e), k),
            Parse::Diverges => Parse::Diverges,
        }
    }
}

/// exprStmt → expression ";"
#[verifier::opaque]
pub open spec fn expression_statement(ts: Seq<TokenView>, pos: nat) -> Parse<SStmt>
    decreases remaining(ts, pos), 38nat,
{
    if !in_range(ts, pos) {
        Parse::Diverges
    } else {
        then_consume(
            ts,
            pos,
            expression(ts, pos),
            TokenType::Semicolon,
            |e: SExpr| SStmt::Expression(e),
        )
    }
}

/// expression → assignment
#[verifier::opaque]
pub open spec fn expression(ts: Seq<TokenView>, pos: nat) -> Parse<SExpr>
    decreases remaining(ts, pos), 30nat,
{
    if !in_range(ts, pos) {
        Parse::Diverges
    } else {
        assignment(ts, pos)
    }
}

/// assignment → logic_or ( "=" assignment )?, where the left side must be a variable.
#[verifier::opaque]
pub open spec fn assignment(ts: Seq<TokenView>, pos: nat) -> Parse<SExpr>
    decreases remaining(ts, pos), 29nat,
{
    if !in_range(ts, pos) {
        Parse::Diverges
    } else {
        match logic_or(ts, pos) {
            Parse::Done(Ok(expr), k1) => {
                let p1 = pos + k1;
                if ts[p1 as int].ty == TokenType::Equal {
                    match assignment(ts, p1 + 1) {
                        Parse::Done(Ok(value), k2) => {
                            let p2 = p1 + 1 + k2;
                            match expr {
                                SExpr::Variable(name) => Parse::Done(
                                    Ok(SExpr::Assign(name, Box::new(value))),
                                    k1 + 1 + k2,
                                ),
                                _ => Parse::Done(
                                    Err(spec_invalid_assignment(ts[p2 as int])),
                                    k1 + 1 + k2,
                                ),
                            }
                        },
                        Parse::Done(Err(e), k2) => Parse::Done(Err(e), k1 + 1 + k2),
                        Parse::Diverges => Parse::Diverges,
                    }
                } else {
                    Parse::Done(Ok(expr), k1)
                }
            },
            Parse::Done(Err(e), k1) => Parse::Done(Err(e), k1),
            Parse::Diverges => Parse::Diverges,
        }
    }
}

/// logic_or → logic_and ( "or" logic_and )*
#[verifier::opaque]
pub open spec fn logic_or(ts: Seq<TokenView>, pos: nat) -> Parse<SExpr>
    decreases remaining(ts, pos), 28nat,
{
    if !in_range(ts, pos) {
        Parse::Diverges
    } else {
        match logic_and(ts, pos) {
            Parse::Done(Ok(left), k) => shift(logic_or_from(ts, left, pos + k), k),
            Parse::Done(Err(e), k) => Parse::Done(Err(e), k),
            Parse::Diverges => Parse::Diverges,
        }
    }
}

/// The ( "or" logic_and )* part of logic_or from `pos`, with `left` read before it.
#[verifier::opaque]
pub open spec fn logic_or_from(ts: Seq<TokenView>, left: SExpr, pos: nat) -> Parse<SExpr>
    decreases remaining(ts, pos), 27nat,
{
    if !in_range(ts, pos) {
        Parse::Diverges
    } else if ts[pos as int].ty == TokenType::Or {
        let op = ts[pos as int];
        match logic_and(ts, pos + 1) {
            Parse::Done(Ok(right), k) => shift(
                logic_or_from(ts, SExpr::Logical(Box::new(left), op, Box::new(right)), pos + 1 + k),
                k + 1,
            ),
            Parse::Done(Err(e), k) => Parse::Done(Err(e), k + 1),
            Parse::Diverges => Parse::Diverges,
        }
    } else {
        Parse::Done(Ok(left), 0)
    }
}

/// logic_and → equality ( "and" logic_and )*
#[verifier::opaque]
pub open spec fn logic_and(ts: Seq<TokenView>, pos: nat) -> Parse<SExpr>
    decreases remaining(ts, pos), 26nat,
{
    if !in_range(ts, pos) {
        Parse::Diverges
    } else {
        match equality(ts, pos) {
            Parse::Done(Ok(left), k) => shift(logic_and_from(ts, left, pos + k), k),
            Parse::Done(Err(e), k) => Parse::Done(Err(e), k),
            Parse::Diverges => Parse::Diverges,
        }
    }
}

/// The ( "and" logic_and )* part of logic_and from `pos`, with `left` read before it.
#[verifier::opaque]
pub open spec fn logic_and_from(ts: Seq<TokenView>, left: SExpr, pos: nat) -> Parse<SExpr>
    decreases remaining(ts, pos), 25nat,
{
    if !in_range(ts, pos) {
        Parse::Diverges
    } else if ts[pos as int].ty == TokenType::And {
        let op = ts[pos as int];
        match logic_and(ts, pos + 1) {
            Parse::Done(Ok(right), k) => shift(
                logic_and_from(ts, SExpr::Logical(Box::new(left), op, Box::new(right)), pos + 1 + k),
                k + 1,
            ),
            Parse::Done(Err(e), k) => Parse::Done(Err(e), k + 1),
            Parse::Diverges => Parse::Diverges,
        }
    } else {
        Parse::Done(Ok(left), 0)
    }
}

pub open spec fn is_equality_op(ty: TokenType) -> bool {
    ty == TokenType::EqualEqual || ty == TokenType::BangEqual
}

pub open spec fn is_comparison_op(ty: TokenType) -> bool {
    ty == TokenType::Greater || ty == TokenType::GreaterEqual || ty == TokenType::Less || ty
        == TokenType::LessEqual
}

pub open spec fn is_term_op(ty: TokenType) -> bool {
    ty == TokenType::Plus || ty == TokenType::Minus
}

pub open spec fn is_factor_op(ty: TokenType) -> bool {
    ty == TokenType::Slash || ty == TokenType::Star
}

pub open spec fn is_unary_op(ty: TokenType) -> bool {
    ty == TokenType::Bang || ty == TokenType::Minus
}

/// equality → comparison ( ( "==" | "!=" ) comparison )*
#[verifier::opaque]
pub open spec fn equality(ts: Seq<TokenView>, pos: nat) -> Parse<SExpr>
    decreases remaining(ts, pos), 24nat,
{
    if !in_range(ts, pos) {
        Parse::Diverges
    } else {
        match comparison(ts, pos) {
            Parse::Done(Ok(left), k) => shift(equality_from(ts, left, pos + k), k),
            Parse::Done(Err(e), k) => Parse::Done(Err(e), k),
            Parse::Diverges => Parse::Diverges,
        }
    }
}

#[verifier::opaque]
pub open spec fn equality_from(ts: Seq<TokenView>, left: SExpr, pos: nat) -> Parse<SExpr>
    decreases remaining(ts, pos), 23nat,
{
    if !in_range(ts, pos) {
        Parse::Diverges
    } else if is_equality_op(ts[pos as int].ty) {
        let op = ts[pos as int];
        match comparison(ts, pos + 1) {
            Parse::Done(Ok(right), k) => shift(
                equality_from(ts, SExpr::Binary(Box::new(left), op, Box::new(right)), pos + 1 + k),
                k + 1,
            ),
            Parse::Done(Err(e), k) => Parse::Done(Err(e), k + 1),
            Parse::Diverges => Parse::Diverges,
        }
    } else {
        Parse::Done(Ok(left), 0)
    }
}

/// comparison → term ( ( ">" | ">=" | "<" | "<=" ) term )*
#[verifier::opaque]
pub open spec fn comparison(ts: Seq<TokenView>, pos: nat) -> Parse<SExpr>
    decreases remaining(ts, pos), 22nat,
{
    if !in_range(ts, pos) {
        Parse::Diverges
    } else {
        match term(ts, pos) {
            Parse::Done(Ok(left), k) => shift(comparison_from(ts, left, pos + k), k),
            Parse::Done(Err(e), k) => Parse::Done(Err(e), k),
            Parse::Diverges => Parse::Diverges,
        }
    }
}

#[verifier::opaque]
pub open spec fn comparison_from(ts: Seq<TokenView>, left: SExpr, pos: nat) -> Parse<SExpr>
    decreases remaining(ts, pos), 21nat,
{
    if !in_range(ts, pos) {
        Parse::Diverges
    } else if is_comparison_op(ts[pos as int].ty) {
        let op = ts[pos as int];
        match term(ts, pos + 1) {
            Parse::Done(Ok(right), k) => shift(
                comparison_from(ts, SExpr::Binary(Box::new(left), op, Box::new(right)), pos + 1 + k),
                k + 1,
            ),
            Parse::Done(Err(e), k) => Parse::Done(Err(e), k + 1),
            Parse::Diverges => Parse::Diverges,
        }
    } else {
        Parse::Done(Ok(left), 0)
    }
}

/// term → factor ( ( "+" | "-" ) factor )*
#[verifier::opaque]
pub open spec fn term(ts: Seq<TokenView>, pos: nat) -> Parse<SExpr>
    decreases remaining(ts, pos), 20nat,
{
    if !in_range(ts, pos) {
        Parse::Diverges
    } else {
        match factor(ts, pos) {
            Parse::Done(Ok(left), k) => shift(term_from(ts, left, pos + k), k),
            Parse::Done(Err(e), k) => Parse::Done(Err(e), k),
            Parse::Diverges => Parse::Diverges,
        }
    }
}

#[verifier::opaque]
pub open spec fn term_from(ts: Seq<TokenView>, left: SExpr, pos: nat) -> Parse<SExpr>
    decreases remaining(ts, pos), 19nat,
{
    if !in_range(ts, pos) {
        Parse::Diverges
    } else if is_term_op(ts[pos as int].ty) {
        let op = ts[pos as int];
        match factor(ts, pos + 1) {
            Parse::Done(Ok(right), k) => shift(
                term_from(ts, SExpr::Binary(Box::new(left), op, Box::new(right)), pos + 1 + k),
                k + 1,
            ),
            Parse::Done(Err(e), k) => Parse::Done(Err(e), k + 1),
            Parse::Diverges => Parse::Diverges,
        }
    } else {
        Parse::Done(Ok(left), 0)
    }
}

/// factor → unary ( ( "/" | "*" ) unary )*
#[verifier::opaque]
pub open spec fn factor(ts: Seq<TokenView>, pos: nat) -> Parse<SExpr>
    decreases remaining(ts, pos), 18nat,
{
    if !in_range(ts, pos) {
        Parse::Diverges
    } else {
        match unary(ts, pos) {
            Parse::Done(Ok(left), k) => shift(factor_from(ts, left, pos + k), k),
            Parse::Done(Err(e), k) => Parse::Done(Err(e), k),
            Parse::Diverges => Parse::Diverges,
        }
    }
}

#[verifier::opaque]
pub open spec fn factor_from(ts: Seq<TokenView>, left: SExpr, pos: nat) -> Parse<SExpr>
    decreases remaining(ts, pos), 17nat,
{
    if !in_range(ts, pos) {
        Parse::Diverges
    } else if is_factor_op(ts[pos as int].ty) {
        let op = ts[pos as int];
        match unary(ts, pos + 1) {
            Parse::Done(Ok(right), k) => shift(
                factor_from(ts, SExpr::Binary(Box::new(left), op, Box::new(right)), pos + 1 + k),
                k + 1,
            ),
            Parse::Done(Err(e), k) => Parse::Done(Err(e), k + 1),
            Parse::Diverges => Parse::Diverges,
        }
    } else {
        Parse::Done(Ok(left), 0)
    }
}

/// unary → ( "!" | "-" ) unary | call
#[verifier::opaque]
pub open spec fn unary(ts: Seq<TokenView>, pos: nat) -> Parse<SExpr>
    decreases remaining(ts, pos), 16nat,
{
    if !in_range(ts, pos) {
        Parse::Diverges
    } else if is_unary_op(ts[pos as int].ty) {
        let op = ts[pos as int];
        shift(map_ok(unary(ts, pos + 1), |right: SExpr| SExpr::Unary(op, Box::new(right))), 1)
    } else {
        call(ts, pos)
    }
}

/// call → primary ( "(" arguments ")" )*
#[verifier::opaque]
pub open spec fn call(ts: Seq<TokenView>, pos: nat) -> Parse<SExpr>
    decreases remaining(ts, pos), 15nat,
{
    if !in_range(ts, pos) {
        Parse::Diverges
    } else {
        match primary(ts, pos) {
            Parse::Done(Ok(callee), k) => shift(call_from(ts, callee, pos + k), k),
            Parse::Done(Err(e), k) => Parse::Done(Err(e), k),
            Parse::Diverges => Parse::Diverges,
        }
    }
}

/// The ( "(" arguments ")" )* part of call from `pos`, with `callee` read before it.
#[verifier::opaque]
pub open spec fn call_from(ts: Seq<TokenView>, callee: SExpr, pos: nat) -> Parse<SExpr>
    decreases remaining(ts, pos), 14nat,
{
    if !in_range(ts, pos) {
        Parse::Diverges
    } else if ts[pos as int].ty == TokenType::LeftParen {
        match finish_call(ts, callee, pos + 1) {
            Parse::Done(Ok(e), k) => shift(call_from(ts, e, pos + 1 + k), k + 1),
            Parse::Done(Err(e), k) => Parse::Done(Err(e), k + 1),
            Parse::Diverges => Parse::Diverges,
        }
    } else {
        Parse::Done(Ok(callee), 0)
    }
}

/// arguments ")" after the opening parenthesis of a call of `callee`.
#[verifier::opaque]
pub open spec fn finish_call(ts: Seq<TokenView>, callee: SExpr, pos: nat) -> Parse<SExpr>
    decreases remaining(ts, pos), 35nat,
{
    if !in_range(ts, pos) {
        Parse::Diverges
    } else {
        let args = if !check(ts, pos, TokenType::RightParen) {
            arguments_from(ts, pos, seq![])
        } else {
            Parse::Done(Ok(seq![]), 0)
        };
        match args {
            Parse::Done(Ok(a), k) => match consume(ts, pos + k, TokenType::RightParen) {
                Parse::Done(Ok(paren), k2) => Parse::Done(
                    Ok(SExpr::Call(Box::new(callee), paren, a)),
                    k + k2,
                ),
                Parse::Done(Err(e), k2) => Parse::Done(Err(e), k + k2),
                Parse::Diverges => Parse::Diverges,
            },
            Parse::Done(Err(e), k) => Parse::Done(Err(e), k),
            Parse::Diverges => Parse::Diverges,
        }
    }
}

/// arguments → expression ( "," expression )*, after the arguments `acc`; at most 254.
#[verifier::opaque]
pub open spec fn arguments_from(ts: Seq<TokenView>, pos: nat, acc: Seq<SExpr>) -> Parse<Seq<SExpr>>
    decreases remaining(ts, pos), 34nat,
{
    if !in_range(ts, pos) {
        Parse::Diverges
    } else {
        match expression(ts, pos) {
            Parse::Done(Ok(arg), k) => {
                let args = acc.push(arg);
                let p = pos + k;
                if args.len() >= 255 {
                    Parse::Done(Err(spec_too_many_arguments(ts[p as int])), k)
                } else if ts[p as int].ty == TokenType::Comma {
                    shift(arguments_from(ts, p + 1, args), k + 1)
                } else {
                    Parse::Done(Ok(args), k)
                }
            },
            Parse::Done(Err(e), k) => Parse::Done(Err(e), k),
            Parse::Diverges => Parse::Diverges,
        }
    }
}

/// primary → "(" expression ")" | IDENT | "fun" function | literal. The token is
/// read with an advance that stays on the end-of-file token, so that at the end
/// the token before it is read again.
#[verifier::opaque]
pub open spec fn primary(ts: Seq<TokenView>, pos: nat) -> Parse<SExpr>
    decreases remaining(ts, pos), 13nat,
{
    if !in_range(ts, pos) {
        Parse::Diverges
    } else {
        let end = at_end(ts, pos);
        let token = if end {
            ts[pos - 1]
        } else {
            ts[pos as int]
        };
        let k: nat = if end {
            0
        } else {
            1
        };
        let p1 = pos + k;
        if token.ty == TokenType::LeftParen {
            if end {
                Parse::Diverges
            } else {
                shift(
                    then_consume(
                        ts,
                        p1,
                        expression(ts, p1),
                        TokenType::RightParen,
                        |e: SExpr| SExpr::Grouping(Box::new(e)),
                    ),
                    k,
                )
            }
        } else if token.ty == TokenType::Identifier {
            Parse::Done(Ok(SExpr::Variable(token)), k)
        } else if token.ty == TokenType::Fun {
            shift(function_expr(ts, p1), k)
        } else {
            match literal_value(token) {
                Some(v) => Parse::Done(Ok(SExpr::Literal(v)), k),
                None => Parse::Done(
                    Err(spec_missing_expression(token, "Expected primary expression."@)),
                    k,
                ),
            }
        }
    }
}

/// function → "(" parameters ")" "{" block: an anonymous function.
#[verifier::opaque]
pub open spec fn function_expr(ts: Seq<TokenView>, pos: nat) -> Parse<SExpr>
    decreases remaining(ts, pos), 12nat,
{
    if !in_range(ts, pos) {
        Parse::Diverges
    } else {
        map_ok(function_rest(ts, pos), |f: (Seq<TokenView>, Seq<SStmt>)| SExpr::Function(f.0, f.1))
    }
}

/// The tokens skipped after an error before parsing resumes: one token, then up to
/// a semicolon just passed or a token that starts a declaration or statement.
pub open spec fn synchronize(ts: Seq<TokenView>, pos: nat) -> nat {
    if at_end(ts, pos) {
        0
    } else {
        1 + synchronize_from(ts, pos + 1)
    }
}

pub open spec fn starts_statement(ty: TokenType) -> bool {
    ||| ty == TokenType::Class
    ||| ty == TokenType::For
    ||| ty == TokenType::Fun
    ||| ty == TokenType::If
    ||| ty == TokenType::Print
    ||| ty == TokenType::Return
    ||| ty == TokenType::Var
    ||| ty == TokenType::While
}

pub open spec fn synchronize_from(ts: Seq<TokenView>, pos: nat) -> nat
    decreases remaining(ts, pos),
{
    if !in_range(ts, pos) || at_end(ts, pos) {
        0
    } else if ts[pos - 1].ty == TokenType::Semicolon {
        0
    } else if starts_statement(ts[pos as int].ty) {
        0
    } else {
        1 + synchronize_from(ts, pos + 1)
    }
}

/// Recovery after a failed declaration always moves on: wherever the failed
/// reading stopped, parsing resumes at least one token after where it started.
pub proof fn lemma_recovery_moves_on(ts: Seq<TokenView>, pos: nat, k: nat)
    requires
        in_range(ts, pos),
        !at_end(ts, pos),
    ensures
        pos + k + synchronize(ts, pos + k) > pos,
{
}

/// A declaration that parses reads at least one token: it starts with a
/// keyword or a brace, or it is an expression statement, whose semicolon is read.
pub proof fn lemma_declaration_moves_on(ts: Seq<TokenView>, pos: nat)
    requires
        in_range(ts, pos),
    ensures
        declaration(ts, pos) matches Parse::Done(Ok(_), k) ==> k >= 1,
{
    reveal(declaration);
    reveal(statement);
    reveal(expression_statement);
}

/// How parsing a whole token sequence ends.
pub enum ProgramOutcome {
    /// No declaration failed: the statements of the program.
    Parsed(Seq<SStmt>),
    /// Some declarations failed: their errors in order.
    Rejected(Seq<ErrorView>),
    /// Parsing never ends.
    Diverges,
}

/// Parsing declarations from `pos` until the end, after the statements `stmts` and
/// the errors `errs`; after an error, parsing resumes where `synchronize` leads.
#[verifier::opaque]
pub open spec fn program_from(
    ts: Seq<TokenView>,
    pos: nat,
    stmts: Seq<SStmt>,
    errs: Seq<ErrorView>,
) -> ProgramOutcome
    decreases remaining(ts, pos),
{
    if !in_range(ts, pos) {
        ProgramOutcome::Diverges
    } else if at_end(ts, pos) {
        if errs.len() == 0 {
            ProgramOutcome::Parsed(stmts)
        } else {
            ProgramOutcome::Rejected(errs)
        }
    } else {
        match declaration(ts, pos) {
            Parse::Done(Ok(s), k) => if k == 0 {
                ProgramOutcome::Diverges
            } else {
                program_from(ts, pos + k, stmts.push(s), errs)
            },
            Parse::Done(Err(e), k) => {
                let q = pos + k + synchronize(ts, pos + k);
                if q <= pos {
                    ProgramOutcome::Diverges
                } else {
                    program_from(ts, q, stmts, errs.push(e))
                }
            },
            Parse::Diverges => ProgramOutcome::Diverges,
        }
    }
}

/// Parsing a whole token sequence.
pub open spec fn spec_parse(ts: Seq<TokenView>) -> ProgramOutcome {
    program_from(ts, 0, seq![], seq![])
}

} // verus!
