use vstd::prelude::*;

use crate::error::{Error, ErrorView};
use crate::expr::{exprs_view, lemma_exprs_view_len, lemma_exprs_view_push, Expr, LiteralValue, SExpr};
use crate::grammar::{
    arguments_from, assignment, at_end, block, block_from, call, call_from, check, comparison,
    comparison_from, condition_rest, consume, consume_function_parameters, consume_identifier,
    declaration, equality, equality_from, expression, expression_statement, factor, factor_from,
    first_eof, first_eof_from, finish_call, for_condition, for_increment, for_initializer, for_statement,
    function_declaration, function_expr, function_rest, if_statement, in_range, logic_and,
    logic_and_from, logic_or, logic_or_from, parameters_from, primary, print_statement,
    program_from, remaining, return_statement, shift, spec_parse, statement, synchronize,
    synchronize_from, term, term_from, unary, var_declaration, while_statement, break_statement,
    lemma_declaration_moves_on, lemma_recovery_moves_on, Parse, ProgramOutcome,
};
use crate::scanner::{lemma_scan_ends_with_single_eof, spec_scan, ScanOutcome};
use crate::stmt::{lemma_stmts_view_push, stmts_view, Program, SStmt, Stmt};
use crate::token::{lemma_token_views_push, token_views, Token, TokenType, TokenView};

verus! {

/// The errors of the declarations that failed to parse, in order.
#[derive(Debug)]
pub struct ParseErrors(pub Vec<Error>);

/// The views of a sequence of errors.
pub open spec fn error_views(es: Seq<Error>) -> Seq<ErrorView> {
    es.map_values(|e: Error| e@)
}

impl View for ParseErrors {
    type V = Seq<ErrorView>;

    open spec fn view(&self) -> Seq<ErrorView> {
        error_views(self.0@)
    }
}

/// A reading from `start` that ended at `end` with `r` agrees with the grammar's
/// outcome `p`: same result (by `view`), same number of tokens consumed.
pub open spec fn agrees<T, V>(
    p: Parse<V>,
    start: int,
    end: int,
    r: Result<T, Error>,
    view: spec_fn(T) -> V,
) -> bool {
    match p {
        Parse::Done(res, k) => end == start + k && match r {
            Ok(v) => res == Ok::<V, ErrorView>(view(v)),
            Err(e) => res == Err::<V, ErrorView>(e@),
        },
        Parse::Diverges => false,
    }
}

/// Parses a token sequence into a program, or reports the errors of all the
/// declarations that failed; `None` when parsing never ends (a reading that
/// meets the end of the tokens right after an opening parenthesis reads that
/// parenthesis again and again).
pub fn try_parse(tokens: Vec<Token>) -> (r: Option<Result<Program, ParseErrors>>)
    requires
        first_eof(token_views(tokens@)) < tokens@.len(),
    ensures
        match spec_parse(token_views(tokens@)) {
            ProgramOutcome::Parsed(stmts) => r matches Some(Ok(p)) && p@ == stmts,
            ProgramOutcome::Rejected(errs) => r matches Some(Err(e)) && e@ == errs,
            ProgramOutcome::Diverges => r is None,
        },
{
    let parser = Parser {
        tokens: Vec::new(),
        current: 0,
        statements: Vec::new(),
        errors: Vec::new(),
        stuck: false,
    };
    parser.parse(tokens)
}

/// Parses a token sequence into a program, or reports the errors of all the
/// declarations that failed.
pub fn parse(tokens: Vec<Token>) -> (r: Result<Program, ParseErrors>)
    requires
        first_eof(token_views(tokens@)) < tokens@.len(),
        !(spec_parse(token_views(tokens@)) is Diverges),
    ensures
        match spec_parse(token_views(tokens@)) {
            ProgramOutcome::Parsed(stmts) => r matches Ok(p) && p@ == stmts,
            ProgramOutcome::Rejected(errs) => r matches Err(e) && e@ == errs,
            ProgramOutcome::Diverges => false,
        },
{
    match try_parse(tokens) {
        Some(r) => r,
        None => {
            proof {
                assert(false);
            }
            Err(ParseErrors(Vec::new()))
        },
    }
}

/// The state of a parse: the tokens, the next token to read, the statements
/// and errors found so far, and whether the parse has met a reading that never
/// ends.
pub struct Parser {
    tokens: Vec<Token>,
    current: usize,
    statements: Vec<Stmt>,
    errors: Vec<Error>,
    stuck: bool,
}

impl Parser {
    spec fn ts(&self) -> Seq<TokenView> {
        token_views(self.tokens@)
    }

    spec fn pos(&self) -> nat {
        self.current as nat
    }

    /// The position is at or before the first end-of-file token.
    spec fn valid(&self) -> bool {
        &&& self.ts().len() == self.tokens@.len()
        &&& in_range(self.ts(), self.pos())
    }

    /// A valid position in a sequence that holds a token before its end.
    spec fn wf(&self) -> bool {
        &&& self.valid()
        &&& first_eof(self.ts()) > 0
    }

    spec fn frame(&self, other: &Parser) -> bool {
        &&& self.tokens@ == other.tokens@
        &&& self.statements@ == other.statements@
        &&& self.errors@ == other.errors@
    }

    #[verifier::spinoff_prover]
    fn parse(self, tokens: Vec<Token>) -> (r: Option<Result<Program, ParseErrors>>)
        requires
            self.statements@.len() == 0,
            self.errors@.len() == 0,
            self.current == 0,
            !self.stuck,
            first_eof(token_views(tokens@)) < tokens@.len(),
        ensures
            match spec_parse(token_views(tokens@)) {
                ProgramOutcome::Parsed(stmts) => r matches Some(Ok(p)) && p@ == stmts,
                ProgramOutcome::Rejected(errs) => r matches Some(Err(e)) && e@ == errs,
                ProgramOutcome::Diverges => r is None,
            },
    {
        proof {
            reveal(program_from);
            reveal(declaration);
        }
        let mut parser = self;
        parser.tokens = tokens;
        let ghost ts = parser.ts();
        proof {
            assert(stmts_view(parser.statements@) =~= seq![]);
            assert(error_views(parser.errors@) =~= seq![]);
        }
        while !parser.is_at_end()
            invariant
                parser.valid(),
                parser.ts() == ts,
                ts == token_views(tokens@),
                !parser.stuck,
                spec_parse(ts) == program_from(
                    ts,
                    parser.pos(),
                    stmts_view(parser.statements@),
                    error_views(parser.errors@),
                ),
            decreases remaining(ts, parser.pos()),
        {
            proof {
                reveal(program_from);
                reveal(declaration);
            }
            proof {
                lemma_not_at_end_before_eof(ts, parser.pos());
                lemma_declaration_moves_on(ts, parser.pos());
            }
            let ghost pos = parser.pos();
            let ghost stmts = stmts_view(parser.statements@);
            let ghost errs = error_views(parser.errors@);
            assert(spec_parse(ts) == program_from(ts, pos, stmts, errs));
            match parser.declaration() {
                Ok(decl) => {
                    let ghost before = parser.statements@;
                    parser.statements.push(decl);
                    proof {
                        lemma_stmts_view_push(before, decl);
                    }
                },
                Err(err) => {
                    if parser.stuck {
                        assert(declaration(ts, pos) is Diverges);
                        assert(program_from(ts, pos, stmts, errs) is Diverges);
                        return None;
                    }
                    proof {
                        lemma_recovery_moves_on(ts, pos, (parser.pos() - pos) as nat);
                    }
                    let ghost before = parser.errors@;
                    parser.errors.push(err);
                    proof {
                        assert(error_views(parser.errors@) =~= error_views(before).push(err@));
                    }
                    parser.synchronize();
                },
            }
        }
        if parser.errors.len() == 0 {
            Some(Ok(Program(parser.statements)))
        } else {
            Some(Err(ParseErrors(parser.errors)))
        }
    }

    #[verifier::spinoff_prover]
    fn declaration(&mut self) -> (r: Result<Stmt, Error>)
        requires
            old(self).wf(),
            !old(self).stuck,
        ensures
            final(self).wf(),
            final(self).frame(old(self)),
            final(self).stuck ==> r is Err && declaration(old(self).ts(), old(self).pos()) is Diverges,
            !final(self).stuck ==> agrees(declaration(old(self).ts(), old(self).pos()), old(self).current as int, final(self).current as int, r, |s: Stmt| s@),
        decreases remaining(old(self).ts(), old(self).pos()), 40nat,
    {
        proof {
            reveal(declaration);
            reveal(var_declaration);
            reveal(function_declaration);
            reveal(statement);
        }
        let ty = self.peek().ty;
        if ty == TokenType::Var {
            match self.consume(TokenType::Var) {
                Ok(_) => {},
                Err(e) => return Err(e),
            }
            self.var_declaration()
        } else if ty == TokenType::Fun {
            if self.next().ty == TokenType::Identifier {
                match self.consume(TokenType::Fun) {
                    Ok(_) => {},
                    Err(e) => return Err(e),
                }
                self.function_declaration()
            } else {
                self.statement()
            }
        } else {
            self.statement()
        }
    }

    #[verifier::spinoff_prover]
    fn var_declaration(&mut self) -> (r: Result<Stmt, Error>)
        requires
            old(self).wf(),
            !old(self).stuck,
        ensures
            final(self).wf(),
            final(self).frame(old(self)),
            final(self).stuck ==> r is Err && var_declaration(old(self).ts(), old(self).pos()) is Diverges,
            !final(self).stuck ==> agrees(var_declaration(old(self).ts(), old(self).pos()), old(self).current as int, final(self).current as int, r, |s: Stmt| s@),
        decreases remaining(old(self).ts(), old(self).pos()), 2nat,
    {
        proof {
            reveal(var_declaration);
            reveal(expression);
        }
        let name = match self.consume_identifier() {
            Ok(t) => t,
            Err(e) => return Err(e),
        };
        let initializer = if self.matches_one(TokenType::Equal) {
            match self.expression() {
                Ok(e) => Some(e),
                Err(e) => return Err(e),
            }
        } else {
            None
        };
        match self.consume(TokenType::Semicolon) {
            Ok(_) => {},
            Err(e) => return Err(e),
        }
        Ok(Stmt::var(name, initializer))
    }

    /// The part of a function after its name: its parameters and its body.
    #[verifier::spinoff_prover]
    fn function_rest(&mut self) -> (r: Result<(Vec<Token>, Vec<Stmt>), Error>)
        requires
            old(self).wf(),
            !old(self).stuck,
        ensures
            final(self).wf(),
            final(self).frame(old(self)),
            final(self).stuck ==> r is Err && function_rest(old(self).ts(), old(self).pos()) is Diverges,
            !final(self).stuck ==> agrees(function_rest(old(self).ts(), old(self).pos()), old(self).current as int, final(self).current as int, r,
                |f: (Vec<Token>, Vec<Stmt>)| (token_views(f.0@), stmts_view(f.1@))),
        decreases remaining(old(self).ts(), old(self).pos()), 3nat,
    {
        proof {
            reveal(function_rest);
            reveal(parameters_from);
            reveal(block);
        }
        match self.consume(TokenType::LeftParen) {
            Ok(_) => {},
            Err(e) => return Err(e),
        }
        let params = match self.consume_function_parameters() {
            Ok(p) => p,
            Err(e) => return Err(e),
        };
        match self.consume(TokenType::RightParen) {
            Ok(_) => {},
            Err(e) => return Err(e),
        }
        match self.consume(TokenType::LeftBrace) {
            Ok(_) => {},
            Err(e) => return Err(e),
        }
        let statements = match self.block() {
            Ok(b) => b,
            Err(e) => return Err(e),
        };
        Ok((params, statements))
    }

    #[verifier::spinoff_prover]
    fn function_declaration(&mut self) -> (r: Result<Stmt, Error>)
        requires
            old(self).wf(),
            !old(self).stuck,
        ensures
            final(self).wf(),
            final(self).frame(old(self)),
            final(self).stuck ==> r is Err && function_declaration(old(self).ts(), old(self).pos()) is Diverges,
            !final(self).stuck ==> agrees(function_declaration(old(self).ts(), old(self).pos()), old(self).current as int, final(self).current as int, r, |s: Stmt| s@),
        decreases remaining(old(self).ts(), old(self).pos()), 4nat,
    {
        proof {
            reveal(function_declaration);
            reveal(function_rest);
        }
        let name = match self.consume_identifier() {
            Ok(t) => t,
            Err(e) => return Err(e),
        };
        let (params, statements) = match self.function_rest() {
            Ok(f) => f,
            Err(e) => return Err(e),
        };
        Ok(Stmt::function(name, params, statements))
    }

    #[verifier::spinoff_prover]
    fn consume_function_parameters(&mut self) -> (r: Result<Vec<Token>, Error>)
        requires
            old(self).wf(),
            !old(self).stuck,
        ensures
            final(self).wf(),
            final(self).frame(old(self)),
            final(self).stuck ==> r is Err && consume_function_parameters(old(self).ts(), old(self).pos()) is Diverges,
            !final(self).stuck ==> agrees(consume_function_parameters(old(self).ts(), old(self).pos()), old(self).current as int, final(self).current as int, r, |v: Vec<Token>| token_views(v@)),
    {
        proof {
            reveal(parameters_from);
        }
        let ghost ts = self.ts();
        let ghost pos0 = self.pos();
        let mut params: Vec<Token> = Vec::new();
        proof {
            assert(token_views(params@) =~= seq![]);
        }
        if !self.check(TokenType::RightParen) {
            loop
                invariant
                    self.wf(),
                    self.frame(old(self)),
                    self.ts() == ts,
                    pos0 == old(self).pos(),
                    pos0 <= self.pos(),
                    consume_function_parameters(ts, pos0) == shift(
                        parameters_from(ts, self.pos(), token_views(params@)),
                        (self.pos() - pos0) as nat,
                    ),
                    !self.stuck,
                decreases remaining(ts, self.pos()),
            {
                proof {
                    reveal(parameters_from);
                }
                if params.len() > 255 {
                    return Err(Error::too_many_arguments(self.peek()));
                }
                let param = match self.consume_identifier() {
                    Ok(t) => t,
                    Err(e) => return Err(e),
                };
                let ghost before = params@;
                params.push(param);
                proof {
                    lemma_token_views_push(before, param);
                }
                if !self.matches_one(TokenType::Comma) {
                    return Ok(params);
                }
            }
        }
        Ok(params)
    }

    #[verifier::spinoff_prover]
    fn statement(&mut self) -> (r: Result<Stmt, Error>)
        requires
            old(self).wf(),
            !old(self).stuck,
        ensures
            final(self).wf(),
            final(self).frame(old(self)),
            final(self).stuck ==> r is Err && statement(old(self).ts(), old(self).pos()) is Diverges,
            !final(self).stuck ==> agrees(statement(old(self).ts(), old(self).pos()), old(self).current as int, final(self).current as int, r, |s: Stmt| s@),
        decreases remaining(old(self).ts(), old(self).pos()), 39nat,
    {
        proof {
            reveal(statement);
            reveal(for_statement);
            reveal(if_statement);
            reveal(print_statement);
            reveal(return_statement);
            reveal(while_statement);
            reveal(block);
            reveal(expression_statement);
        }
        let ty = self.peek().ty;
        if ty == TokenType::For {
            match self.consume(TokenType::For) {
                Ok(_) => {},
                Err(e) => return Err(e),
            }
            self.for_statement()
        } else if ty == TokenType::If {
            match self.consume(TokenType::If) {
                Ok(_) => {},
                Err(e) => return Err(e),
            }
            self.if_statement()
        } else if ty == TokenType::Print {
            match self.consume(TokenType::Print) {
                Ok(_) => {},
                Err(e) => return Err(e),
            }
            self.print_statement()
        } else if ty == TokenType::Return {
            match self.consume(TokenType::Return) {
                Ok(_) => {},
                Err(e) => return Err(e),
            }
            self.return_statement()
        } else if ty == TokenType::Break {
            match self.consume(TokenType::Break) {
                Ok(_) => {},
                Err(e) => return Err(e),
            }
            self.break_statement()
        } else if ty == TokenType::While {
            match self.consume(TokenType::While) {
                Ok(_) => {},
                Err(e) => return Err(e),
            }
            self.while_statement()
        } else if ty == TokenType::LeftBrace {
            match self.consume(TokenType::LeftBrace) {
                Ok(_) => {},
                Err(e) => return Err(e),
            }
            self.block_statement()
        } else {
            self.expression_statement()
        }
    }

    #[verifier::spinoff_prover]
    #[verifier::rlimit(40)]
    fn for_statement(&mut self) -> (r: Result<Stmt, Error>)
        requires
            old(self).wf(),
            !old(self).stuck,
        ensures
            final(self).wf(),
            final(self).frame(old(self)),
            final(self).stuck ==> r is Err && for_statement(old(self).ts(), old(self).pos()) is Diverges,
            !final(self).stuck ==> agrees(for_statement(old(self).ts(), old(self).pos()), old(self).current as int, final(self).current as int, r, |s: Stmt| s@),
        decreases remaining(old(self).ts(), old(self).pos()), 6nat,
    {
        proof {
            reveal(for_statement);
            reveal(for_initializer);
            reveal(for_condition);
            reveal(for_increment);
            reveal(var_declaration);
            reveal(expression_statement);
            reveal(expression);
            reveal(statement);
        }
        let ghost ts = self.ts();
        match self.consume(TokenType::LeftParen) {
            Ok(_) => {},
            Err(e) => return Err(e),
        }
        /* Initializer */
        let ghost p1 = self.pos();
        let initializer = if self.matches_one(TokenType::Semicolon) {
            None
        } else if self.matches_one(TokenType::Var) {
            match self.var_declaration() {
                Ok(decl) => Some(decl),
                Err(e) => return Err(e),
            }
        } else {
            match self.expression_statement() {
                Ok(s) => Some(s),
                Err(e) => return Err(e),
            }
        };
        proof {
            assert(for_initializer(ts, p1) == Parse::Done(
                Ok::<Option<SStmt>, ErrorView>(match initializer {
                    Some(s) => Some(s@),
                    None => None,
                }),
                (self.pos() - p1) as nat,
            ));
        }
        /* Condition */
        let ghost p2 = self.pos();
        let condition = if !self.check(TokenType::Semicolon) {
            let expr = match self.expression() {
                Ok(e) => e,
                Err(e) => return Err(e),
            };
            match self.consume(TokenType::Semicolon) {
                Ok(_) => {},
                Err(e) => return Err(e),
            }
            Some(expr)
        } else {
            self.advance();
            None
        };
        proof {
            assert(for_condition(ts, p2) == Parse::Done(
                Ok::<Option<SExpr>, ErrorView>(match condition {
                    Some(e) => Some(e@),
                    None => None,
                }),
                (self.pos() - p2) as nat,
            ));
        }
        /* Increment */
        let ghost p3 = self.pos();
        let increment = if !self.check(TokenType::RightParen) {
            match self.expression() {
                Ok(e) => Some(e),
                Err(e) => return Err(e),
            }
        } else {
            None
        };
        proof {
            assert(for_increment(ts, p3) == Parse::Done(
                Ok::<Option<SExpr>, ErrorView>(match increment {
                    Some(e) => Some(e@),
                    None => None,
                }),
                (self.pos() - p3) as nat,
            ));
        }
        match self.consume(TokenType::RightParen) {
            Ok(_) => {},
            Err(e) => return Err(e),
        }
        /* Body */
        let body = match self.statement() {
            Ok(s) => s,
            Err(e) => return Err(e),
        };
        /* Condition is true if it isn't explicitly set */
        let cond = match condition {
            Some(c) => c,
            None => Expr::literal(LiteralValue::Bool(true)),
        };
        /* If present, put the increment statement at the end of the body. */
        let loop_body = match increment {
            Some(incr) => {
                let mut v: Vec<Stmt> = Vec::new();
                v.push(body);
                v.push(Stmt::expression(incr));
                proof {
                    lemma_stmts_two(v@);
                }
                Stmt::block(v)
            },
            None => body,
        };
        let while_loop = Stmt::while_stmt(cond, loop_body);
        /* If present, put the initializer before the while loop */
        let for_loop = match initializer {
            Some(init) => {
                let mut v: Vec<Stmt> = Vec::new();
                v.push(init);
                v.push(while_loop);
                proof {
                    lemma_stmts_two(v@);
                }
                Stmt::block(v)
            },
            None => while_loop,
        };
        Ok(for_loop)
    }

    #[verifier::spinoff_prover]
    fn if_statement(&mut self) -> (r: Result<Stmt, Error>)
        requires
            old(self).wf(),
            !old(self).stuck,
        ensures
            final(self).wf(),
            final(self).frame(old(self)),
            final(self).stuck ==> r is Err && if_statement(old(self).ts(), old(self).pos()) is Diverges,
            !final(self).stuck ==> agrees(if_statement(old(self).ts(), old(self).pos()), old(self).current as int, final(self).current as int, r, |s: Stmt| s@),
        decreases remaining(old(self).ts(), old(self).pos()), 6nat,
    {
        proof {
            reveal(if_statement);
            reveal(condition_rest);
            reveal(expression);
            reveal(statement);
        }
        match self.consume(TokenType::LeftParen) {
            Ok(_) => {},
            Err(e) => return Err(e),
        }
        let condition = match self.expression() {
            Ok(e) => e,
            Err(e) => return Err(e),
        };
        match self.consume(TokenType::RightParen) {
            Ok(_) => {},
            Err(e) => return Err(e),
        }
        let then_branch = match self.statement() {
            Ok(s) => s,
            Err(e) => return Err(e),
        };
        let else_branch = if self.matches_one(TokenType::Else) {
            match self.statement() {
                Ok(s) => Some(s),
                Err(e) => return Err(e),
            }
        } else {
            None
        };
        Ok(Stmt::if_stmt(condition, then_branch, else_branch))
    }

    #[verifier::spinoff_prover]
    fn print_statement(&mut self) -> (r: Result<Stmt, Error>)
        requires
            old(self).wf(),
            !old(self).stuck,
        ensures
            final(self).wf(),
            final(self).frame(old(self)),
            final(self).stuck ==> r is Err && print_statement(old(self).ts(), old(self).pos()) is Diverges,
            !final(self).stuck ==> agrees(print_statement(old(self).ts(), old(self).pos()), old(self).current as int, final(self).current as int, r, |s: Stmt| s@),
        decreases remaining(old(self).ts(), old(self).pos()), 38nat,
    {
        proof {
            reveal(print_statement);
            reveal(expression);
        }
        let value = match self.expression() {
            Ok(e) => e,
            Err(e) => return Err(e),
        };
        match self.consume(TokenType::Semicolon) {
            Ok(_) => {},
            Err(e) => return Err(e),
        }
        Ok(Stmt::print(value))
    }

    #[verifier::spinoff_prover]
    fn break_statement(&mut self) -> (r: Result<Stmt, Error>)
        requires
            old(self).wf(),
            old(self).current >= 1,
        ensures
            final(self).wf(),
            final(self).frame(old(self)),
            final(self).stuck == old(self).stuck,
            agrees(break_statement(old(self).ts(), old(self).pos()), old(self).current as int, final(self).current as int, r, |s: Stmt| s@),
    {
        let keyword = self.previous().duplicate();
        match self.consume(TokenType::Semicolon) {
            Ok(_) => {},
            Err(e) => return Err(e),
        }
        Ok(Stmt::break_stmt(keyword))
    }

    #[verifier::spinoff_prover]
    fn return_statement(&mut self) -> (r: Result<Stmt, Error>)
        requires
            old(self).wf(),
            old(self).current >= 1,
            !old(self).stuck,
        ensures
            final(self).wf(),
            final(self).frame(old(self)),
            final(self).stuck ==> r is Err && return_statement(old(self).ts(), old(self).pos()) is Diverges,
            !final(self).stuck ==> agrees(return_statement(old(self).ts(), old(self).pos()), old(self).current as int, final(self).current as int, r, |s: Stmt| s@),
        decreases remaining(old(self).ts(), old(self).pos()), 38nat,
    {
        proof {
            reveal(return_statement);
            reveal(expression);
        }
        let keyword = self.previous().duplicate();
        let value = if !self.check(TokenType::Semicolon) {
            match self.expression() {
                Ok(e) => Some(e),
                Err(e) => return Err(e),
            }
        } else {
            None
        };
        match self.consume(TokenType::Semicolon) {
            Ok(_) => {},
            Err(e) => return Err(e),
        }
        Ok(Stmt::return_stmt(keyword, value))
    }

    #[verifier::spinoff_prover]
    fn while_statement(&mut self) -> (r: Result<Stmt, Error>)
        requires
            old(self).wf(),
            !old(self).stuck,
        ensures
            final(self).wf(),
            final(self).frame(old(self)),
            final(self).stuck ==> r is Err && while_statement(old(self).ts(), old(self).pos()) is Diverges,
            !final(self).stuck ==> agrees(while_statement(old(self).ts(), old(self).pos()), old(self).current as int, final(self).current as int, r, |s: Stmt| s@),
        decreases remaining(old(self).ts(), old(self).pos()), 6nat,
    {
        proof {
            reveal(while_statement);
            reveal(condition_rest);
            reveal(expression);
            reveal(statement);
        }
        match self.consume(TokenType::LeftParen) {
            Ok(_) => {},
            Err(e) => return Err(e),
        }
        let condition = match self.expression() {
            Ok(e) => e,
            Err(e) => return Err(e),
        };
        match self.consume(TokenType::RightParen) {
            Ok(_) => {},
            Err(e) => return Err(e),
        }
        let body = match self.statement() {
            Ok(s) => s,
            Err(e) => return Err(e),
        };
        Ok(Stmt::while_stmt(condition, body))
    }

    #[verifier::spinoff_prover]
    fn block_statement(&mut self) -> (r: Result<Stmt, Error>)
        requires
            old(self).wf(),
            !old(self).stuck,
        ensures
            final(self).wf(),
            final(self).frame(old(self)),
            final(self).stuck ==> r is Err && block(old(self).ts(), old(self).pos()) is Diverges,
            !final(self).stuck ==> agrees(block(old(self).ts(), old(self).pos()), old(self).current as int, final(self).current as int, r,
                |s: Stmt| match s@ { SStmt::Block(b) => b, _ => seq![] }),
            r matches Ok(s) ==> s@ is Block,
        decreases remaining(old(self).ts(), old(self).pos()), 43nat,
    {
        match self.block() {
            Ok(b) => Ok(Stmt::block(b)),
            Err(e) => Err(e),
        }
    }

    #[verifier::spinoff_prover]
    fn block(&mut self) -> (r: Result<Vec<Stmt>, Error>)
        requires
            old(self).wf(),
            !old(self).stuck,
        ensures
            final(self).wf(),
            final(self).frame(old(self)),
            final(self).stuck ==> r is Err && block(old(self).ts(), old(self).pos()) is Diverges,
            !final(self).stuck ==> agrees(block(old(self).ts(), old(self).pos()), old(self).current as int, final(self).current as int, r, |v: Vec<Stmt>| stmts_view(v@)),
        decreases remaining(old(self).ts(), old(self).pos()), 42nat,
    {
        proof {
            reveal(block);
            reveal(block_from);
            reveal(declaration);
        }
        let ghost ts = self.ts();
        let ghost pos0 = self.pos();
        let mut statements: Vec<Stmt> = Vec::new();
        proof {
            assert(stmts_view(statements@) =~= seq![]);
        }
        while !self.check(TokenType::RightBrace) && !self.is_at_end()
            invariant
                self.wf(),
                self.frame(old(self)),
                self.ts() == ts,
                pos0 == old(self).pos(),
                pos0 <= self.pos(),
                block(ts, pos0) == shift(
                    block_from(ts, self.pos(), stmts_view(statements@)),
                    (self.pos() - pos0) as nat,
                ),
                !self.stuck,
            decreases remaining(ts, self.pos()),
        {
            proof {
                reveal(block);
                reveal(block_from);
                reveal(declaration);
                lemma_declaration_moves_on(ts, self.pos());
            }
            let decl = match self.declaration() {
                Ok(d) => d,
                Err(e) => return Err(e),
            };
            let ghost before = statements@;
            statements.push(decl);
            proof {
                lemma_stmts_view_push(before, decl);
            }
        }
        match self.consume(TokenType::RightBrace) {
            Ok(_) => {},
            Err(e) => return Err(e),
        }
        Ok(statements)
    }

    #[verifier::spinoff_prover]
    fn expression_statement(&mut self) -> (r: Result<Stmt, Error>)
        requires
            old(self).wf(),
            !old(self).stuck,
        ensures
            final(self).wf(),
            final(self).frame(old(self)),
            final(self).stuck ==> r is Err && expression_statement(old(self).ts(), old(self).pos()) is Diverges,
            !final(self).stuck ==> agrees(expression_statement(old(self).ts(), old(self).pos()), old(self).current as int, final(self).current as int, r, |s: Stmt| s@),
        decreases remaining(old(self).ts(), old(self).pos()), 38nat,
    {
        proof {
            reveal(expression_statement);
            reveal(expression);
        }
        let expr = match self.expression() {
            Ok(e) => e,
            Err(e) => return Err(e),
        };
        match self.consume(TokenType::Semicolon) {
            Ok(_) => {},
            Err(e) => return Err(e),
        }
        Ok(Stmt::expression(expr))
    }

    #[verifier::spinoff_prover]
    fn expression(&mut self) -> (r: Result<Expr, Error>)
        requires
            old(self).wf(),
            !old(self).stuck,
        ensures
            final(self).wf(),
            final(self).frame(old(self)),
            final(self).stuck ==> r is Err && expression(old(self).ts(), old(self).pos()) is Diverges,
            !final(self).stuck ==> agrees(expression(old(self).ts(), old(self).pos()), old(self).current as int, final(self).current as int, r, |e: Expr| e@),
        decreases remaining(old(self).ts(), old(self).pos()), 30nat,
    {
        proof {
            reveal(expression);
            reveal(assignment);
        }
        self.assignment()
    }

    #[verifier::spinoff_prover]
    fn assignment(&mut self) -> (r: Result<Expr, Error>)
        requires
            old(self).wf(),
            !old(self).stuck,
        ensures
            final(self).wf(),
            final(self).frame(old(self)),
            final(self).stuck ==> r is Err && assignment(old(self).ts(), old(self).pos()) is Diverges,
            !final(self).stuck ==> agrees(assignment(old(self).ts(), old(self).pos()), old(self).current as int, final(self).current as int, r, |e: Expr| e@),
        decreases remaining(old(self).ts(), old(self).pos()), 29nat,
    {
        proof {
            reveal(assignment);
            reveal(logic_or);
        }
        let expr = match self.logic_or() {
            Ok(e) => e,
            Err(e) => return Err(e),
        };
        if self.matches_one(TokenType::Equal) {
            let value = match self.assignment() {
                Ok(v) => v,
                Err(e) => return Err(e),
            };
            match expr {
                Expr::Variable(e) => Ok(Expr::assign(e.name, value)),
                _ => Err(Error::invalid_assignment(self.peek())),
            }
        } else {
            Ok(expr)
        }
    }

    #[verifier::spinoff_prover]
    fn logic_or(&mut self) -> (r: Result<Expr, Error>)
        requires
            old(self).wf(),
            !old(self).stuck,
        ensures
            final(self).wf(),
            final(self).frame(old(self)),
            final(self).stuck ==> r is Err && logic_or(old(self).ts(), old(self).pos()) is Diverges,
            !final(self).stuck ==> agrees(logic_or(old(self).ts(), old(self).pos()), old(self).current as int, final(self).current as int, r, |e: Expr| e@),
        decreases remaining(old(self).ts(), old(self).pos()), 28nat,
    {
        proof {
            reveal(logic_or);
            reveal(logic_or_from);
            reveal(logic_and);
        }
        let ghost ts = self.ts();
        let ghost pos0 = self.pos();
        let mut expr = match self.logic_and() {
            Ok(e) => e,
            Err(e) => return Err(e),
        };
        while self.matches_one(TokenType::Or)
            invariant
                self.wf(),
                self.frame(old(self)),
                self.ts() == ts,
                pos0 == old(self).pos(),
                pos0 <= self.pos(),
                logic_or(ts, pos0) == shift(logic_or_from(ts, expr@, self.pos()), (self.pos() - pos0) as nat),
                !self.stuck,
            decreases remaining(ts, self.pos()),
        {
            proof {
                reveal(logic_or);
                reveal(logic_or_from);
                reveal(logic_and);
            }
            let operator = self.previous().duplicate();
            let right = match self.logic_and() {
                Ok(e) => e,
                Err(e) => return Err(e),
            };
            expr = Expr::logical(expr, operator, right);
        }
        Ok(expr)
    }

    #[verifier::spinoff_prover]
    fn logic_and(&mut self) -> (r: Result<Expr, Error>)
        requires
            old(self).wf(),
            !old(self).stuck,
        ensures
            final(self).wf(),
            final(self).frame(old(self)),
            final(self).stuck ==> r is Err && logic_and(old(self).ts(), old(self).pos()) is Diverges,
            !final(self).stuck ==> agrees(logic_and(old(self).ts(), old(self).pos()), old(self).current as int, final(self).current as int, r, |e: Expr| e@),
        decreases remaining(old(self).ts(), old(self).pos()), 26nat,
    {
        proof {
            reveal(logic_and);
            reveal(logic_and_from);
            reveal(equality);
        }
        let ghost ts = self.ts();
        let ghost pos0 = self.pos();
        let mut expr = match self.equality() {
            Ok(e) => e,
            Err(e) => return Err(e),
        };
        while self.matches_one(TokenType::And)
            invariant
                self.wf(),
                self.frame(old(self)),
                self.ts() == ts,
                pos0 == old(self).pos(),
                pos0 <= self.pos(),
                logic_and(ts, pos0) == shift(logic_and_from(ts, expr@, self.pos()), (self.pos() - pos0) as nat),
                !self.stuck,
            decreases remaining(ts, self.pos()),
        {
            proof {
                reveal(logic_and);
                reveal(logic_and_from);
                reveal(equality);
            }
            let operator = self.previous().duplicate();
            let right = match self.logic_and() {
                Ok(e) => e,
                Err(e) => return Err(e),
            };
            expr = Expr::logical(expr, operator, right);
        }
        Ok(expr)
    }

    #[verifier::spinoff_prover]
    fn equality(&mut self) -> (r: Result<Expr, Error>)
        requires
            old(self).wf(),
            !old(self).stuck,
        ensures
            final(self).wf(),
            final(self).frame(old(self)),
            final(self).stuck ==> r is Err && equality(old(self).ts(), old(self).pos()) is Diverges,
            !final(self).stuck ==> agrees(equality(old(self).ts(), old(self).pos()), old(self).current as int, final(self).current as int, r, |e: Expr| e@),
        decreases remaining(old(self).ts(), old(self).pos()), 24nat,
    {
        proof {
            reveal(equality);
            reveal(equality_from);
            reveal(comparison);
        }
        let ghost ts = self.ts();
        let ghost pos0 = self.pos();
        let mut expr = match self.comparison() {
            Ok(e) => e,
            Err(e) => return Err(e),
        };
        while self.matches_either(TokenType::EqualEqual, TokenType::BangEqual)
            invariant
                self.wf(),
                self.frame(old(self)),
                self.ts() == ts,
                pos0 == old(self).pos(),
                pos0 <= self.pos(),
                equality(ts, pos0) == shift(equality_from(ts, expr@, self.pos()), (self.pos() - pos0) as nat),
                !self.stuck,
            decreases remaining(ts, self.pos()),
        {
            proof {
                reveal(equality);
                reveal(equality_from);
                reveal(comparison);
            }
            let operator = self.previous().duplicate();
            let right = match self.comparison() {
                Ok(e) => e,
                Err(e) => return Err(e),
            };
            expr = Expr::binary(expr, operator, right);
        }
        Ok(expr)
    }

    #[verifier::spinoff_prover]
    fn comparison(&mut self) -> (r: Result<Expr, Error>)
        requires
            old(self).wf(),
            !old(self).stuck,
        ensures
            final(self).wf(),
            final(self).frame(old(self)),
            final(self).stuck ==> r is Err && comparison(old(self).ts(), old(self).pos()) is Diverges,
            !final(self).stuck ==> agrees(comparison(old(self).ts(), old(self).pos()), old(self).current as int, final(self).current as int, r, |e: Expr| e@),
        decreases remaining(old(self).ts(), old(self).pos()), 22nat,
    {
        proof {
            reveal(comparison);
            reveal(comparison_from);
            reveal(term);
        }
        let ghost ts = self.ts();
        let ghost pos0 = self.pos();
        let mut expr = match self.term() {
            Ok(e) => e,
            Err(e) => return Err(e),
        };
        while self.matches_four(TokenType::Greater, TokenType::GreaterEqual, TokenType::Less, TokenType::LessEqual)
            invariant
                self.wf(),
                self.frame(old(self)),
                self.ts() == ts,
                pos0 == old(self).pos(),
                pos0 <= self.pos(),
                comparison(ts, pos0) == shift(comparison_from(ts, expr@, self.pos()), (self.pos() - pos0) as nat),
                !self.stuck,
            decreases remaining(ts, self.pos()),
        {
            proof {
                reveal(comparison);
                reveal(comparison_from);
                reveal(term);
            }
            let operator = self.previous().duplicate();
            let right = match self.term() {
                Ok(e) => e,
                Err(e) => return Err(e),
            };
            expr = Expr::binary(expr, operator, right);
        }
        Ok(expr)
    }

    #[verifier::spinoff_prover]
    fn term(&mut self) -> (r: Result<Expr, Error>)
        requires
            old(self).wf(),
            !old(self).stuck,
        ensures
            final(self).wf(),
            final(self).frame(old(self)),
            final(self).stuck ==> r is Err && term(old(self).ts(), old(self).pos()) is Diverges,
            !final(self).stuck ==> agrees(term(old(self).ts(), old(self).pos()), old(self).current as int, final(self).current as int, r, |e: Expr| e@),
        decreases remaining(old(self).ts(), old(self).pos()), 20nat,
    {
        proof {
            reveal(term);
            reveal(term_from);
            reveal(factor);
        }
        let ghost ts = self.ts();
        let ghost pos0 = self.pos();
        let mut expr = match self.factor() {
            Ok(e) => e,
            Err(e) => return Err(e),
        };
        while self.matches_either(TokenType::Plus, TokenType::Minus)
            invariant
                self.wf(),
                self.frame(old(self)),
                self.ts() == ts,
                pos0 == old(self).pos(),
                pos0 <= self.pos(),
                term(ts, pos0) == shift(term_from(ts, expr@, self.pos()), (self.pos() - pos0) as nat),
                !self.stuck,
            decreases remaining(ts, self.pos()),
        {
            proof {
                reveal(term);
                reveal(term_from);
                reveal(factor);
            }
            let operator = self.previous().duplicate();
            let right = match self.factor() {
                Ok(e) => e,
                Err(e) => return Err(e),
            };
            expr = Expr::binary(expr, operator, right);
        }
        Ok(expr)
    }

    #[verifier::spinoff_prover]
    fn factor(&mut self) -> (r: Result<Expr, Error>)
        requires
            old(self).wf(),
            !old(self).stuck,
        ensures
            final(self).wf(),
            final(self).frame(old(self)),
            final(self).stuck ==> r is Err && factor(old(self).ts(), old(self).pos()) is Diverges,
            !final(self).stuck ==> agrees(factor(old(self).ts(), old(self).pos()), old(self).current as int, final(self).current as int, r, |e: Expr| e@),
        decreases remaining(old(self).ts(), old(self).pos()), 18nat,
    {
        proof {
            reveal(factor);
            reveal(factor_from);
            reveal(unary);
        }
        let ghost ts = self.ts();
        let ghost pos0 = self.pos();
        let mut expr = match self.unary() {
            Ok(e) => e,
            Err(e) => return Err(e),
        };
        while self.matches_either(TokenType::Slash, TokenType::Star)
            invariant
                self.wf(),
                self.frame(old(self)),
                self.ts() == ts,
                pos0 == old(self).pos(),
                pos0 <= self.pos(),
                factor(ts, pos0) == shift(factor_from(ts, expr@, self.pos()), (self.pos() - pos0) as nat),
                !self.stuck,
            decreases remaining(ts, self.pos()),
        {
            proof {
                reveal(factor);
                reveal(factor_from);
                reveal(unary);
            }
            let operator = self.previous().duplicate();
            let right = match self.unary() {
                Ok(e) => e,
                Err(e) => return Err(e),
            };
            expr = Expr::binary(expr, operator, right);
        }
        Ok(expr)
    }

    #[verifier::spinoff_prover]
    fn unary(&mut self) -> (r: Result<Expr, Error>)
        requires
            old(self).wf(),
            !old(self).stuck,
        ensures
            final(self).wf(),
            final(self).frame(old(self)),
            final(self).stuck ==> r is Err && unary(old(self).ts(), old(self).pos()) is Diverges,
            !final(self).stuck ==> agrees(unary(old(self).ts(), old(self).pos()), old(self).current as int, final(self).current as int, r, |e: Expr| e@),
        decreases remaining(old(self).ts(), old(self).pos()), 16nat,
    {
        proof {
            reveal(unary);
            reveal(call);
        }
        let ty = self.peek().ty;
        if ty == TokenType::Bang || ty == TokenType::Minus {
            self.advance();
            let operator = self.previous().duplicate();
            let right = match self.unary() {
                Ok(e) => e,
                Err(e) => return Err(e),
            };
            return Ok(Expr::unary(operator, right));
        }
        self.call()
    }

    #[verifier::spinoff_prover]
    fn call(&mut self) -> (r: Result<Expr, Error>)
        requires
            old(self).wf(),
            !old(self).stuck,
        ensures
            final(self).wf(),
            final(self).frame(old(self)),
            final(self).stuck ==> r is Err && call(old(self).ts(), old(self).pos()) is Diverges,
            !final(self).stuck ==> agrees(call(old(self).ts(), old(self).pos()), old(self).current as int, final(self).current as int, r, |e: Expr| e@),
        decreases remaining(old(self).ts(), old(self).pos()), 15nat,
    {
        proof {
            reveal(call);
            reveal(call_from);
            reveal(primary);
            reveal(finish_call);
        }
        let ghost ts = self.ts();
        let ghost pos0 = self.pos();
        let mut expr = match self.primary() {
            Ok(e) => e,
            Err(e) => return Err(e),
        };
        while self.matches_one(TokenType::LeftParen)
            invariant
                self.wf(),
                self.frame(old(self)),
                self.ts() == ts,
                pos0 == old(self).pos(),
                pos0 <= self.pos(),
                call(ts, pos0) == shift(call_from(ts, expr@, self.pos()), (self.pos() - pos0) as nat),
                !self.stuck,
            decreases remaining(ts, self.pos()),
        {
            proof {
                reveal(call);
                reveal(call_from);
                reveal(primary);
                reveal(finish_call);
            }
            expr = match self.finish_call(expr) {
                Ok(e) => e,
                Err(e) => return Err(e),
            };
        }
        Ok(expr)
    }

    #[verifier::spinoff_prover]
    fn finish_call(&mut self, callee: Expr) -> (r: Result<Expr, Error>)
        requires
            old(self).wf(),
            !old(self).stuck,
        ensures
            final(self).wf(),
            final(self).frame(old(self)),
            final(self).stuck ==> r is Err && finish_call(old(self).ts(), callee@, old(self).pos()) is Diverges,
            !final(self).stuck ==> agrees(finish_call(old(self).ts(), callee@, old(self).pos()), old(self).current as int, final(self).current as int, r, |e: Expr| e@),
        decreases remaining(old(self).ts(), old(self).pos()), 35nat,
    {
        proof {
            reveal(finish_call);
            reveal(arguments_from);
            reveal(expression);
        }
        let ghost ts = self.ts();
        let ghost pos0 = self.pos();
        let ghost all_args = if !check(ts, pos0, TokenType::RightParen) {
            arguments_from(ts, pos0, seq![])
        } else {
            Parse::Done(Ok(seq![]), 0)
        };
        let mut arguments: Vec<Expr> = Vec::new();
        proof {
            assert(exprs_view(arguments@) =~= seq![]);
        }
        let mut more = !self.check(TokenType::RightParen);
        while more
            invariant
                self.wf(),
                self.frame(old(self)),
                self.ts() == ts,
                pos0 == old(self).pos(),
                pos0 <= self.pos(),
                !self.stuck,
                all_args == (if !check(ts, pos0, TokenType::RightParen) {
                    arguments_from(ts, pos0, seq![])
                } else {
                    Parse::Done(Ok(seq![]), 0)
                }),
                more ==> all_args == shift(
                    arguments_from(ts, self.pos(), exprs_view(arguments@)),
                    (self.pos() - pos0) as nat,
                ),
                !more ==> all_args == Parse::Done(
                    Ok::<Seq<SExpr>, ErrorView>(exprs_view(arguments@)),
                    (self.pos() - pos0) as nat,
                ),
            decreases remaining(ts, self.pos()), if more { 1nat } else { 0nat },
        {
            proof {
                reveal(finish_call);
                reveal(arguments_from);
                reveal(expression);
            }
            let arg = match self.expression() {
                Ok(e) => e,
                Err(e) => return Err(e),
            };
            let ghost before = arguments@;
            arguments.push(arg);
            proof {
                lemma_exprs_view_push(before, arg);
                lemma_exprs_view_len(arguments@);
            }
            if arguments.len() >= 255 {
                return Err(Error::too_many_arguments(self.peek()));
            }
            more = self.matches_one(TokenType::Comma);
        }
        let paren = match self.consume(TokenType::RightParen) {
            Ok(t) => t,
            Err(e) => return Err(e),
        };
        Ok(Expr::call(callee, paren, arguments))
    }

    #[verifier::spinoff_prover]
    fn primary(&mut self) -> (r: Result<Expr, Error>)
        requires
            old(self).wf(),
            !old(self).stuck,
        ensures
            final(self).wf(),
            final(self).frame(old(self)),
            final(self).stuck ==> r is Err && primary(old(self).ts(), old(self).pos()) is Diverges,
            !final(self).stuck ==> agrees(primary(old(self).ts(), old(self).pos()), old(self).current as int, final(self).current as int, r, |e: Expr| e@),
        decreases remaining(old(self).ts(), old(self).pos()), 13nat,
    {
        proof {
            reveal(primary);
            reveal(expression);
            reveal(function_expr);
        }
        let end = self.is_at_end();
        proof {
            if !end {
                lemma_not_at_end_before_eof(self.ts(), self.pos());
            }
        }
        self.advance();
        let token = self.previous().duplicate();
        if token.ty == TokenType::LeftParen {
            if end {
                // The parenthesis is read again at the end of the tokens, forever.
                self.stuck = true;
                return Err(Error::missing_expression(&token, String::from_str("Expected expression.")));
            }
            let expr = match self.expression() {
                Ok(e) => e,
                Err(e) => return Err(e),
            };
            match self.consume(TokenType::RightParen) {
                Ok(_) => {},
                Err(e) => return Err(e),
            }
            Ok(Expr::grouping(expr))
        } else if token.ty == TokenType::Identifier {
            Ok(Expr::variable(token))
        } else if token.ty == TokenType::Fun {
            self.function_expr()
        } else {
            match LiteralValue::from_token(&token) {
                Some(v) => Ok(Expr::literal(v)),
                None => Err(
                    Error::missing_expression(&token, String::from_str("Expected primary expression.")),
                ),
            }
        }
    }

    #[verifier::spinoff_prover]
    fn function_expr(&mut self) -> (r: Result<Expr, Error>)
        requires
            old(self).wf(),
            !old(self).stuck,
        ensures
            final(self).wf(),
            final(self).frame(old(self)),
            final(self).stuck ==> r is Err && function_expr(old(self).ts(), old(self).pos()) is Diverges,
            !final(self).stuck ==> agrees(function_expr(old(self).ts(), old(self).pos()), old(self).current as int, final(self).current as int, r, |e: Expr| e@),
        decreases remaining(old(self).ts(), old(self).pos()), 12nat,
    {
        proof {
            reveal(function_expr);
            reveal(function_rest);
        }
        let (params, statements) = match self.function_rest() {
            Ok(f) => f,
            Err(e) => return Err(e),
        };
        Ok(Expr::function(params, statements))
    }

    /// Skips tokens after an error, up to a point where a declaration may start.
    #[verifier::spinoff_prover]
    fn synchronize(&mut self)
        requires
            old(self).valid(),
        ensures
            final(self).valid(),
            old(self).wf() ==> final(self).wf(),
            final(self).frame(old(self)),
            final(self).stuck == old(self).stuck,
            final(self).current == old(self).current + synchronize(old(self).ts(), old(self).pos()),
    {
        let ghost ts = self.ts();
        let ghost pos0 = self.pos();
        proof {
            if !at_end(ts, pos0) {
                lemma_not_at_end_before_eof(ts, pos0);
            }
        }
        self.advance();
        while !self.is_at_end()
            invariant
                self.valid(),
                old(self).wf() ==> self.wf(),
                self.frame(old(self)),
                self.stuck == old(self).stuck,
                self.ts() == ts,
                pos0 == old(self).pos(),
                !at_end(ts, pos0) ==> self.current >= 1,
                at_end(ts, pos0) ==> self.pos() == pos0,
                !at_end(ts, pos0) ==> pos0 + 1 + synchronize_from(ts, pos0 + 1) == self.pos() + synchronize_from(ts, self.pos()),
            decreases remaining(ts, self.pos()),
        {
            if self.previous().ty == TokenType::Semicolon {
                return;
            }
            let ty = self.peek().ty;
            if ty == TokenType::Class || ty == TokenType::For || ty == TokenType::Fun || ty == TokenType::If
                || ty == TokenType::Print || ty == TokenType::Return || ty == TokenType::Var || ty == TokenType::While {
                return;
            }
            proof {
                lemma_not_at_end_before_eof(ts, self.pos());
            }
            self.advance();
        }
    }

    fn previous(&self) -> (t: &Token)
        requires
            self.valid(),
            self.current >= 1,
        ensures
            t@ == self.ts()[self.current - 1],
    {
        &self.tokens[self.current - 1]
    }

    fn peek(&self) -> (t: &Token)
        requires
            self.valid(),
        ensures
            t@ == self.ts()[self.current as int],
    {
        &self.tokens[self.current]
    }

    fn next(&self) -> (t: &Token)
        requires
            self.wf(),
        ensures
            t@ == if at_end(self.ts(), self.pos()) {
                self.ts()[self.current as int]
            } else {
                self.ts()[self.current + 1]
            },
    {
        if self.is_at_end() {
            self.peek()
        } else {
            proof {
                lemma_not_at_end_before_eof(self.ts(), self.pos());
            }
            assert(self.current + 1 < self.tokens.len());
            &self.tokens[self.current + 1]
        }
    }

    #[verifier::spinoff_prover]
    fn advance(&mut self)
        requires
            old(self).valid(),
        ensures
            final(self).valid(),
            old(self).wf() ==> final(self).wf(),
            final(self).frame(old(self)),
            final(self).stuck == old(self).stuck,
            final(self).current == if at_end(old(self).ts(), old(self).pos()) {
                old(self).current as int
            } else {
                old(self).current + 1
            },
    {
        if !self.is_at_end() {
            proof {
                lemma_not_at_end_before_eof(self.ts(), self.pos());
            }
            assert(self.current + 1 < self.tokens.len());
            self.current = self.current + 1;
        }
    }

    /// Reads the next token if it is of kind `ty`.
    #[verifier::spinoff_prover]
    fn matches_one(&mut self, ty: TokenType) -> (r: bool)
        requires
            old(self).wf(),
            ty != TokenType::EOF,
        ensures
            final(self).wf(),
            final(self).frame(old(self)),
            final(self).stuck == old(self).stuck,
            r == (old(self).ts()[old(self).current as int].ty == ty),
            r ==> final(self).current == old(self).current + 1,
            !r ==> final(self).current == old(self).current,
    {
        if self.peek().ty == ty {
            self.advance();
            true
        } else {
            false
        }
    }

    /// Reads the next token if it is of kind `a` or `b`.
    #[verifier::spinoff_prover]
    fn matches_either(&mut self, a: TokenType, b: TokenType) -> (r: bool)
        requires
            old(self).wf(),
            a != TokenType::EOF,
            b != TokenType::EOF,
        ensures
            final(self).wf(),
            final(self).frame(old(self)),
            final(self).stuck == old(self).stuck,
            r == (old(self).ts()[old(self).current as int].ty == a || old(self).ts()[old(self).current as int].ty == b),
            r ==> final(self).current == old(self).current + 1,
            !r ==> final(self).current == old(self).current,
    {
        let ty = self.peek().ty;
        if ty == a || ty == b {
            self.advance();
            true
        } else {
            false
        }
    }

    /// Reads the next token if it is of one of the kinds `a`, `b`, `c` and `d`.
    #[verifier::spinoff_prover]
    fn matches_four(&mut self, a: TokenType, b: TokenType, c: TokenType, d: TokenType) -> (r: bool)
        requires
            old(self).wf(),
            a != TokenType::EOF,
            b != TokenType::EOF,
            c != TokenType::EOF,
            d != TokenType::EOF,
        ensures
            final(self).wf(),
            final(self).frame(old(self)),
            final(self).stuck == old(self).stuck,
            r == ({
                let t = old(self).ts()[old(self).current as int].ty;
                t == a || t == b || t == c || t == d
            }),
            r ==> final(self).current == old(self).current + 1,
            !r ==> final(self).current == old(self).current,
    {
        let ty = self.peek().ty;
        if ty == a || ty == b || ty == c || ty == d {
            self.advance();
            true
        } else {
            false
        }
    }

    fn check(&self, ty: TokenType) -> (r: bool)
        requires
            self.valid(),
        ensures
            r == check(self.ts(), self.pos(), ty),
    {
        if self.is_at_end() {
            return false;
        }
        self.peek().ty == ty
    }

    fn is_at_end(&self) -> (r: bool)
        requires
            self.valid(),
        ensures
            r == at_end(self.ts(), self.pos()),
    {
        self.peek().ty == TokenType::EOF
    }

    #[verifier::spinoff_prover]
    fn consume(&mut self, ty: TokenType) -> (r: Result<Token, Error>)
        requires
            old(self).valid(),
        ensures
            final(self).valid(),
            old(self).wf() ==> final(self).wf(),
            final(self).frame(old(self)),
            final(self).stuck == old(self).stuck,
            agrees(consume(old(self).ts(), old(self).pos(), ty), old(self).current as int, final(self).current as int, r, |t: Token| t@),
    {
        if self.check(ty) {
            let t = self.peek().duplicate();
            self.advance();
            Ok(t)
        } else {
            Err(Error::wrong_token(ty, self.peek()))
        }
    }

    #[verifier::spinoff_prover]
    fn consume_identifier(&mut self) -> (r: Result<Token, Error>)
        requires
            old(self).wf(),
        ensures
            final(self).wf(),
            final(self).frame(old(self)),
            final(self).stuck == old(self).stuck,
            agrees(consume_identifier(old(self).ts(), old(self).pos()), old(self).current as int, final(self).current as int, r, |t: Token| t@),
    {
        if self.peek().ty == TokenType::Identifier {
            let t = self.peek().duplicate();
            self.advance();
            Ok(t)
        } else {
            Err(Error::wrong_token(TokenType::Identifier, self.peek()))
        }
    }
}

/// The tokens of a successful scan meet the parser's first entry condition:
/// their first end-of-file token is their last token.
pub proof fn lemma_scanned_tokens_end_at_first_eof(s: Seq<u8>)
    ensures
        spec_scan(s) matches ScanOutcome::Tokens(ts) ==> first_eof(ts) == ts.len() - 1,
{
    lemma_scan_ends_with_single_eof(s);
    if let ScanOutcome::Tokens(ts) = spec_scan(s) {
        lemma_first_eof_from(ts, 0);
        if first_eof(ts) < ts.len() - 1 {
            assert(ts[first_eof(ts) as int].ty == TokenType::EOF);
        }
        if first_eof(ts) == ts.len() {
            assert(ts[ts.len() - 1].ty == TokenType::EOF);
        }
    }
}

/// A sequence of two statements has the views of the two in order.
proof fn lemma_stmts_two(v: Seq<Stmt>)
    requires
        v.len() == 2,
    ensures
        stmts_view(v) == seq![v[0]@, v[1]@],
{
    crate::stmt::lemma_stmts_view_index(v);
    assert(stmts_view(v) =~= seq![v[0]@, v[1]@]);
}

/// Before the first end-of-file token, no token is an end-of-file token.
proof fn lemma_first_eof_from(ts: Seq<TokenView>, i: nat)
    requires
        i <= ts.len(),
    ensures
        i <= first_eof_from(ts, i) <= ts.len(),
        forall|j: int| i <= j < first_eof_from(ts, i) ==> ts[j].ty != TokenType::EOF,
        first_eof_from(ts, i) < ts.len() ==> ts[first_eof_from(ts, i) as int].ty == TokenType::EOF,
    decreases ts.len() - i,
{
    if i < ts.len() && ts[i as int].ty != TokenType::EOF {
        lemma_first_eof_from(ts, i + 1);
    }
}

/// A position before the first end-of-file token holds another token, and the
/// position after it is still in range.
proof fn lemma_not_at_end_before_eof(ts: Seq<TokenView>, pos: nat)
    requires
        in_range(ts, pos),
        !at_end(ts, pos),
    ensures
        pos < first_eof(ts),
        pos + 1 < ts.len(),
        in_range(ts, pos + 1),
{
    lemma_first_eof_from(ts, 0);
}

} // verus!
