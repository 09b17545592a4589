use vstd::prelude::*;

use crate::error::ErrorView;
use crate::expr::{LiteralValueView, SExpr};
use crate::grammar::{
    at_end, comparison, comparison_from, condition_rest, declaration, equality, equality_from,
    expression, factor, factor_from, first_eof, first_eof_from, for_condition, for_increment,
    for_initializer, for_statement, if_statement, in_range, while_statement, block, block_from,
    is_unary_op,
    is_comparison_op, is_equality_op, is_factor_op, is_term_op, logic_and, logic_and_from, logic_or,
    logic_or_from, program_from, shift, starts_statement, statement, synchronize, synchronize_from,
    term, term_from, unary, Parse, ProgramOutcome,
};
use crate::stmt::SStmt;
use crate::token::{TokenType, TokenView};

verus! {

// Laws of the grammar: how the readings of its rules combine.

/// Products and quotients group to the left: three operands, each read as a `unary`, joined
/// by two operators of this level read as `(a op b) op c`; the third operand is
/// the whole right side of the second operator, and the reading stops before a
/// token that is no operator of this level.
#[verifier::spinoff_prover]
pub proof fn lemma_factor_groups_left(
    ts: Seq<TokenView>,
    pos: nat,
    a: SExpr,
    ka: nat,
    b: SExpr,
    kb: nat,
    c: SExpr,
    kc: nat,
)
    requires
        pos + ka + kb + kc + 2 <= first_eof(ts) < ts.len(),
        unary(ts, pos) == Parse::Done(Ok::<SExpr, ErrorView>(a), ka),
        is_factor_op(ts[(pos + ka) as int].ty),
        unary(ts, pos + ka + 1) == Parse::Done(Ok::<SExpr, ErrorView>(b), kb),
        is_factor_op(ts[(pos + ka + 1 + kb) as int].ty),
        unary(ts, pos + ka + kb + 2) == Parse::Done(Ok::<SExpr, ErrorView>(c), kc),
        !(is_factor_op(ts[(pos + ka + kb + kc + 2) as int].ty)),
    ensures
        factor(ts, pos) == Parse::Done(
            Ok::<SExpr, ErrorView>(
                SExpr::Binary(
                    Box::new(SExpr::Binary(Box::new(a), ts[(pos + ka) as int], Box::new(b))),
                    ts[(pos + ka + 1 + kb) as int],
                    Box::new(c),
                ),
            ),
            ka + kb + kc + 2,
        ),
{
    reveal(factor);
    reveal(factor_from);
    reveal(unary);
    let p1 = pos + ka;
    let p2 = p1 + 1 + kb;
    let p3 = p2 + 1 + kc;
    let ab = SExpr::Binary(Box::new(a), ts[p1 as int], Box::new(b));
    let abc = SExpr::Binary(Box::new(ab), ts[p2 as int], Box::new(c));
    assert(factor_from(ts, abc, p3) == Parse::Done(Ok::<SExpr, ErrorView>(abc), 0));
    assert(factor_from(ts, ab, p2) == shift(factor_from(ts, abc, p3), kc + 1));
    assert(factor_from(ts, a, p1) == shift(factor_from(ts, ab, p2), kb + 1));
}

/// Sums and differences group to the left: three operands, each read as a `factor`, joined
/// by two operators of this level read as `(a op b) op c`; the third operand is
/// the whole right side of the second operator, and the reading stops before a
/// token that is no operator of this level.
#[verifier::spinoff_prover]
pub proof fn lemma_term_groups_left(
    ts: Seq<TokenView>,
    pos: nat,
    a: SExpr,
    ka: nat,
    b: SExpr,
    kb: nat,
    c: SExpr,
    kc: nat,
)
    requires
        pos + ka + kb + kc + 2 <= first_eof(ts) < ts.len(),
        factor(ts, pos) == Parse::Done(Ok::<SExpr, ErrorView>(a), ka),
        is_term_op(ts[(pos + ka) as int].ty),
        factor(ts, pos + ka + 1) == Parse::Done(Ok::<SExpr, ErrorView>(b), kb),
        is_term_op(ts[(pos + ka + 1 + kb) as int].ty),
        factor(ts, pos + ka + kb + 2) == Parse::Done(Ok::<SExpr, ErrorView>(c), kc),
        !(is_term_op(ts[(pos + ka + kb + kc + 2) as int].ty)),
    ensures
        term(ts, pos) == Parse::Done(
            Ok::<SExpr, ErrorView>(
                SExpr::Binary(
                    Box::new(SExpr::Binary(Box::new(a), ts[(pos + ka) as int], Box::new(b))),
                    ts[(pos + ka + 1 + kb) as int],
                    Box::new(c),
                ),
            ),
            ka + kb + kc + 2,
        ),
{
    reveal(term);
    reveal(term_from);
    reveal(factor);
    let p1 = pos + ka;
    let p2 = p1 + 1 + kb;
    let p3 = p2 + 1 + kc;
    let ab = SExpr::Binary(Box::new(a), ts[p1 as int], Box::new(b));
    let abc = SExpr::Binary(Box::new(ab), ts[p2 as int], Box::new(c));
    assert(term_from(ts, abc, p3) == Parse::Done(Ok::<SExpr, ErrorView>(abc), 0));
    assert(term_from(ts, ab, p2) == shift(term_from(ts, abc, p3), kc + 1));
    assert(term_from(ts, a, p1) == shift(term_from(ts, ab, p2), kb + 1));
}

/// Comparisons group to the left: three operands, each read as a `term`, joined
/// by two operators of this level read as `(a op b) op c`; the third operand is
/// the whole right side of the second operator, and the reading stops before a
/// token that is no operator of this level.
#[verifier::spinoff_prover]
pub proof fn lemma_comparison_groups_left(
    ts: Seq<TokenView>,
    pos: nat,
    a: SExpr,
    ka: nat,
    b: SExpr,
    kb: nat,
    c: SExpr,
    kc: nat,
)
    requires
        pos + ka + kb + kc + 2 <= first_eof(ts) < ts.len(),
        term(ts, pos) == Parse::Done(Ok::<SExpr, ErrorView>(a), ka),
        is_comparison_op(ts[(pos + ka) as int].ty),
        term(ts, pos + ka + 1) == Parse::Done(Ok::<SExpr, ErrorView>(b), kb),
        is_comparison_op(ts[(pos + ka + 1 + kb) as int].ty),
        term(ts, pos + ka + kb + 2) == Parse::Done(Ok::<SExpr, ErrorView>(c), kc),
        !(is_comparison_op(ts[(pos + ka + kb + kc + 2) as int].ty)),
    ensures
        comparison(ts, pos) == Parse::Done(
            Ok::<SExpr, ErrorView>(
                SExpr::Binary(
                    Box::new(SExpr::Binary(Box::new(a), ts[(pos + ka) as int], Box::new(b))),
                    ts[(pos + ka + 1 + kb) as int],
                    Box::new(c),
                ),
            ),
            ka + kb + kc + 2,
        ),
{
    reveal(comparison);
    reveal(comparison_from);
    reveal(term);
    let p1 = pos + ka;
    let p2 = p1 + 1 + kb;
    let p3 = p2 + 1 + kc;
    let ab = SExpr::Binary(Box::new(a), ts[p1 as int], Box::new(b));
    let abc = SExpr::Binary(Box::new(ab), ts[p2 as int], Box::new(c));
    assert(comparison_from(ts, abc, p3) == Parse::Done(Ok::<SExpr, ErrorView>(abc), 0));
    assert(comparison_from(ts, ab, p2) == shift(comparison_from(ts, abc, p3), kc + 1));
    assert(comparison_from(ts, a, p1) == shift(comparison_from(ts, ab, p2), kb + 1));
}

/// Equality tests group to the left: three operands, each read as a `comparison`, joined
/// by two operators of this level read as `(a op b) op c`; the third operand is
/// the whole right side of the second operator, and the reading stops before a
/// token that is no operator of this level.
#[verifier::spinoff_prover]
pub proof fn lemma_equality_groups_left(
    ts: Seq<TokenView>,
    pos: nat,
    a: SExpr,
    ka: nat,
    b: SExpr,
    kb: nat,
    c: SExpr,
    kc: nat,
)
    requires
        pos + ka + kb + kc + 2 <= first_eof(ts) < ts.len(),
        comparison(ts, pos) == Parse::Done(Ok::<SExpr, ErrorView>(a), ka),
        is_equality_op(ts[(pos + ka) as int].ty),
        comparison(ts, pos + ka + 1) == Parse::Done(Ok::<SExpr, ErrorView>(b), kb),
        is_equality_op(ts[(pos + ka + 1 + kb) as int].ty),
        comparison(ts, pos + ka + kb + 2) == Parse::Done(Ok::<SExpr, ErrorView>(c), kc),
        !(is_equality_op(ts[(pos + ka + kb + kc + 2) as int].ty)),
    ensures
        equality(ts, pos) == Parse::Done(
            Ok::<SExpr, ErrorView>(
                SExpr::Binary(
                    Box::new(SExpr::Binary(Box::new(a), ts[(pos + ka) as int], Box::new(b))),
                    ts[(pos + ka + 1 + kb) as int],
                    Box::new(c),
                ),
            ),
            ka + kb + kc + 2,
        ),
{
    reveal(equality);
    reveal(equality_from);
    reveal(comparison);
    let p1 = pos + ka;
    let p2 = p1 + 1 + kb;
    let p3 = p2 + 1 + kc;
    let ab = SExpr::Binary(Box::new(a), ts[p1 as int], Box::new(b));
    let abc = SExpr::Binary(Box::new(ab), ts[p2 as int], Box::new(c));
    assert(equality_from(ts, abc, p3) == Parse::Done(Ok::<SExpr, ErrorView>(abc), 0));
    assert(equality_from(ts, ab, p2) == shift(equality_from(ts, abc, p3), kc + 1));
    assert(equality_from(ts, a, p1) == shift(equality_from(ts, ab, p2), kb + 1));
}

/// Disjunctions group to the left: three operands, each read as a `logic_and`, joined
/// by two operators of this level read as `(a op b) op c`; the third operand is
/// the whole right side of the second operator, and the reading stops before a
/// token that is no operator of this level.
#[verifier::spinoff_prover]
pub proof fn lemma_logic_or_groups_left(
    ts: Seq<TokenView>,
    pos: nat,
    a: SExpr,
    ka: nat,
    b: SExpr,
    kb: nat,
    c: SExpr,
    kc: nat,
)
    requires
        pos + ka + kb + kc + 2 <= first_eof(ts) < ts.len(),
        logic_and(ts, pos) == Parse::Done(Ok::<SExpr, ErrorView>(a), ka),
        ts[(pos + ka) as int].ty == TokenType::Or,
        logic_and(ts, pos + ka + 1) == Parse::Done(Ok::<SExpr, ErrorView>(b), kb),
        ts[(pos + ka + 1 + kb) as int].ty == TokenType::Or,
        logic_and(ts, pos + ka + kb + 2) == Parse::Done(Ok::<SExpr, ErrorView>(c), kc),
        !(ts[(pos + ka + kb + kc + 2) as int].ty == TokenType::Or),
    ensures
        logic_or(ts, pos) == Parse::Done(
            Ok::<SExpr, ErrorView>(
                SExpr::Logical(
                    Box::new(SExpr::Logical(Box::new(a), ts[(pos + ka) as int], Box::new(b))),
                    ts[(pos + ka + 1 + kb) as int],
                    Box::new(c),
                ),
            ),
            ka + kb + kc + 2,
        ),
{
    reveal(logic_or);
    reveal(logic_or_from);
    reveal(logic_and);
    let p1 = pos + ka;
    let p2 = p1 + 1 + kb;
    let p3 = p2 + 1 + kc;
    let ab = SExpr::Logical(Box::new(a), ts[p1 as int], Box::new(b));
    let abc = SExpr::Logical(Box::new(ab), ts[p2 as int], Box::new(c));
    assert(logic_or_from(ts, abc, p3) == Parse::Done(Ok::<SExpr, ErrorView>(abc), 0));
    assert(logic_or_from(ts, ab, p2) == shift(logic_or_from(ts, abc, p3), kc + 1));
    assert(logic_or_from(ts, a, p1) == shift(logic_or_from(ts, ab, p2), kb + 1));
}

/// Conjunctions group to the right: three operands, each read as an
/// `equality`, joined by two `and` read as `a and (b and c)`, since the right
/// side of an `and` is a whole conjunction.
#[verifier::spinoff_prover]
pub proof fn lemma_logic_and_groups_right(
    ts: Seq<TokenView>,
    pos: nat,
    a: SExpr,
    ka: nat,
    b: SExpr,
    kb: nat,
    c: SExpr,
    kc: nat,
)
    requires
        pos + ka + kb + kc + 2 <= first_eof(ts) < ts.len(),
        equality(ts, pos) == Parse::Done(Ok::<SExpr, ErrorView>(a), ka),
        ts[(pos + ka) as int].ty == TokenType::And,
        equality(ts, pos + ka + 1) == Parse::Done(Ok::<SExpr, ErrorView>(b), kb),
        ts[(pos + ka + 1 + kb) as int].ty == TokenType::And,
        equality(ts, pos + ka + kb + 2) == Parse::Done(Ok::<SExpr, ErrorView>(c), kc),
        ts[(pos + ka + kb + kc + 2) as int].ty != TokenType::And,
    ensures
        logic_and(ts, pos) == Parse::Done(
            Ok::<SExpr, ErrorView>(
                SExpr::Logical(
                    Box::new(a),
                    ts[(pos + ka) as int],
                    Box::new(SExpr::Logical(Box::new(b), ts[(pos + ka + 1 + kb) as int], Box::new(c))),
                ),
            ),
            ka + kb + kc + 2,
        ),
{
    reveal(logic_and);
    reveal(logic_and_from);
    reveal(equality);
    let p1 = pos + ka;
    let p2 = p1 + 1 + kb;
    let p3 = p2 + 1 + kc;
    let bc = SExpr::Logical(Box::new(b), ts[p2 as int], Box::new(c));
    let abc = SExpr::Logical(Box::new(a), ts[p1 as int], Box::new(bc));
    assert(logic_and_from(ts, c, p3) == Parse::Done(Ok::<SExpr, ErrorView>(c), 0));
    assert(logic_and(ts, p2 + 1) == Parse::Done(Ok::<SExpr, ErrorView>(c), kc));
    assert(logic_and_from(ts, bc, p3) == Parse::Done(Ok::<SExpr, ErrorView>(bc), 0));
    assert(logic_and_from(ts, b, p2) == shift(logic_and_from(ts, bc, p3), kc + 1));
    assert(logic_and(ts, p1 + 1) == Parse::Done(Ok::<SExpr, ErrorView>(bc), kb + kc + 1));
    assert(logic_and_from(ts, abc, p3) == Parse::Done(Ok::<SExpr, ErrorView>(abc), 0));
    assert(logic_and_from(ts, a, p1) == shift(logic_and_from(ts, abc, p3), kb + kc + 2));
}

/// The else branch of an if statement is any statement: `if (c) T else E`,
/// where `c` reads as an expression and `T` and `E` read as statements, reads
/// as the if statement with both branches.
#[verifier::spinoff_prover]
pub proof fn lemma_if_else_takes_any_statement(
    ts: Seq<TokenView>,
    pos: nat,
    c: SExpr,
    kc: nat,
    t: SStmt,
    kt: nat,
    e: SStmt,
    ke: nat,
)
    requires
        pos + kc + kt + ke + 4 <= first_eof(ts) < ts.len(),
        ts[pos as int].ty == TokenType::If,
        ts[pos + 1int].ty == TokenType::LeftParen,
        expression(ts, pos + 2) == Parse::Done(Ok::<SExpr, ErrorView>(c), kc),
        ts[(pos + 2 + kc) as int].ty == TokenType::RightParen,
        statement(ts, pos + 3 + kc) == Parse::Done(Ok::<SStmt, ErrorView>(t), kt),
        ts[(pos + 3 + kc + kt) as int].ty == TokenType::Else,
        statement(ts, pos + 4 + kc + kt) == Parse::Done(Ok::<SStmt, ErrorView>(e), ke),
    ensures
        statement(ts, pos) == Parse::Done(
            Ok::<SStmt, ErrorView>(SStmt::If(c, Box::new(t), Some(Box::new(e)))),
            kc + kt + ke + 4,
        ),
{
    reveal(statement);
    reveal(if_statement);
    reveal(condition_rest);
    reveal(expression);
    assert(condition_rest(ts, pos + 2) == Parse::Done(Ok::<SExpr, ErrorView>(c), kc + 1));
    assert(if_statement(ts, pos + 1) == Parse::Done(
        Ok::<SStmt, ErrorView>(SStmt::If(c, Box::new(t), Some(Box::new(e)))),
        kc + kt + ke + 3,
    ));
}

/// Without an else, an if statement ends after its then branch: `if (c) T`
/// followed by a token other than `else` reads as the if statement with no
/// else branch.
#[verifier::spinoff_prover]
pub proof fn lemma_if_without_else(
    ts: Seq<TokenView>,
    pos: nat,
    c: SExpr,
    kc: nat,
    t: SStmt,
    kt: nat,
)
    requires
        pos + kc + kt + 3 <= first_eof(ts) < ts.len(),
        ts[pos as int].ty == TokenType::If,
        ts[pos + 1int].ty == TokenType::LeftParen,
        expression(ts, pos + 2) == Parse::Done(Ok::<SExpr, ErrorView>(c), kc),
        ts[(pos + 2 + kc) as int].ty == TokenType::RightParen,
        statement(ts, pos + 3 + kc) == Parse::Done(Ok::<SStmt, ErrorView>(t), kt),
        ts[(pos + 3 + kc + kt) as int].ty != TokenType::Else,
    ensures
        statement(ts, pos) == Parse::Done(
            Ok::<SStmt, ErrorView>(SStmt::If(c, Box::new(t), None)),
            kc + kt + 3,
        ),
{
    reveal(statement);
    reveal(if_statement);
    reveal(condition_rest);
    reveal(expression);
    assert(condition_rest(ts, pos + 2) == Parse::Done(Ok::<SExpr, ErrorView>(c), kc + 1));
    assert(if_statement(ts, pos + 1) == Parse::Done(
        Ok::<SStmt, ErrorView>(SStmt::If(c, Box::new(t), None)),
        kc + kt + 2,
    ));
}

/// The body of a while statement is any statement: `while (c) B`, where `c`
/// reads as an expression and `B` as a statement, reads as the loop of `B`
/// under `c`.
#[verifier::spinoff_prover]
pub proof fn lemma_while_takes_any_statement(
    ts: Seq<TokenView>,
    pos: nat,
    c: SExpr,
    kc: nat,
    b: SStmt,
    kb: nat,
)
    requires
        pos + kc + kb + 3 <= first_eof(ts) < ts.len(),
        ts[pos as int].ty == TokenType::While,
        ts[pos + 1int].ty == TokenType::LeftParen,
        expression(ts, pos + 2) == Parse::Done(Ok::<SExpr, ErrorView>(c), kc),
        ts[(pos + 2 + kc) as int].ty == TokenType::RightParen,
        statement(ts, pos + 3 + kc) == Parse::Done(Ok::<SStmt, ErrorView>(b), kb),
    ensures
        statement(ts, pos) == Parse::Done(
            Ok::<SStmt, ErrorView>(SStmt::While(c, Box::new(b))),
            kc + kb + 3,
        ),
{
    reveal(statement);
    reveal(while_statement);
    reveal(condition_rest);
    reveal(expression);
    assert(condition_rest(ts, pos + 2) == Parse::Done(Ok::<SExpr, ErrorView>(c), kc + 1));
}

/// A for loop with none of its three clauses loops forever: `for (;;) B`,
/// where `B` reads as a statement, reads as the loop of `B` under `true`.
#[verifier::spinoff_prover]
pub proof fn lemma_for_without_clauses(ts: Seq<TokenView>, pos: nat, b: SStmt, kb: nat)
    requires
        pos + kb + 5 <= first_eof(ts) < ts.len(),
        ts[pos as int].ty == TokenType::For,
        ts[pos + 1int].ty == TokenType::LeftParen,
        ts[pos + 2int].ty == TokenType::Semicolon,
        ts[pos + 3int].ty == TokenType::Semicolon,
        ts[pos + 4int].ty == TokenType::RightParen,
        statement(ts, pos + 5) == Parse::Done(Ok::<SStmt, ErrorView>(b), kb),
    ensures
        statement(ts, pos) == Parse::Done(
            Ok::<SStmt, ErrorView>(
                SStmt::While(SExpr::Literal(LiteralValueView::Bool(true)), Box::new(b)),
            ),
            kb + 5,
        ),
{
    reveal(statement);
    reveal(for_statement);
    reveal(for_initializer);
    reveal(for_condition);
    reveal(for_increment);
    assert(for_initializer(ts, pos + 2) == Parse::Done(Ok::<Option<SStmt>, ErrorView>(None), 1));
    assert(for_condition(ts, pos + 3) == Parse::Done(Ok::<Option<SExpr>, ErrorView>(None), 1));
    assert(for_increment(ts, pos + 4) == Parse::Done(Ok::<Option<SExpr>, ErrorView>(None), 0));
}

/// A prefix operator applies to the whole unary expression after it: `op R`,
/// with `op` a `!` or a `-` and `R` read as a unary expression (itself maybe
/// prefixed), reads as `op` applied to `R`.
#[verifier::spinoff_prover]
pub proof fn lemma_unary_applies_to_unary(ts: Seq<TokenView>, pos: nat, r: SExpr, kr: nat)
    requires
        pos + kr + 1 <= first_eof(ts) < ts.len(),
        is_unary_op(ts[pos as int].ty),
        unary(ts, pos + 1) == Parse::Done(Ok::<SExpr, ErrorView>(r), kr),
    ensures
        unary(ts, pos) == Parse::Done(
            Ok::<SExpr, ErrorView>(SExpr::Unary(ts[pos as int], Box::new(r))),
            kr + 1,
        ),
{
    reveal(unary);
}

/// A block holds its declarations in order: `{ D1 D2 }`, where `D1` and `D2`
/// read as declarations, reads as the block of both, first to last.
#[verifier::spinoff_prover]
pub proof fn lemma_block_keeps_declarations_in_order(
    ts: Seq<TokenView>,
    pos: nat,
    d1: SStmt,
    k1: nat,
    d2: SStmt,
    k2: nat,
)
    requires
        pos + k1 + k2 + 2 <= first_eof(ts) < ts.len(),
        ts[pos as int].ty == TokenType::LeftBrace,
        k1 >= 1,
        k2 >= 1,
        ts[pos + 1int].ty != TokenType::RightBrace,
        declaration(ts, pos + 1) == Parse::Done(Ok::<SStmt, ErrorView>(d1), k1),
        ts[(pos + 1 + k1) as int].ty != TokenType::RightBrace,
        declaration(ts, pos + 1 + k1) == Parse::Done(Ok::<SStmt, ErrorView>(d2), k2),
        ts[(pos + 1 + k1 + k2) as int].ty == TokenType::RightBrace,
    ensures
        statement(ts, pos) == Parse::Done(
            Ok::<SStmt, ErrorView>(SStmt::Block(seq![d1, d2])),
            k1 + k2 + 2,
        ),
{
    reveal(statement);
    reveal(block);
    reveal(block_from);
    reveal(declaration);
    lemma_no_eof_before_first(ts, 0);
    let p1 = pos + 1;
    let p2 = p1 + k1;
    let p3 = p2 + k2;
    assert(ts[p1 as int].ty != TokenType::EOF);
    assert(ts[p2 as int].ty != TokenType::EOF);
    assert(seq![d1].push(d2) =~= seq![d1, d2]);
    assert(block_from(ts, p3, seq![d1, d2]) == Parse::Done(Ok::<Seq<SStmt>, ErrorView>(seq![d1, d2]), 1));
    assert(block_from(ts, p2, seq![d1]) == shift(block_from(ts, p3, seq![d1].push(d2)), k2));
    assert(seq![].push(d1) =~= seq![d1]);
    assert(block_from(ts, p1, seq![]) == shift(block_from(ts, p2, seq![].push(d1)), k1));
}

/// A program holds its declarations in order: two declarations that read one
/// after the other up to the end of the tokens give both statements, first to
/// last, after the statements read before.
#[verifier::spinoff_prover]
pub proof fn lemma_program_keeps_declarations_in_order(
    ts: Seq<TokenView>,
    pos: nat,
    d1: SStmt,
    k1: nat,
    d2: SStmt,
    k2: nat,
    stmts: Seq<SStmt>,
)
    requires
        pos + k1 + k2 == first_eof(ts) < ts.len(),
        k1 >= 1,
        k2 >= 1,
        declaration(ts, pos) == Parse::Done(Ok::<SStmt, ErrorView>(d1), k1),
        declaration(ts, pos + k1) == Parse::Done(Ok::<SStmt, ErrorView>(d2), k2),
    ensures
        program_from(ts, pos, stmts, seq![]) == ProgramOutcome::Parsed(stmts + seq![d1, d2]),
{
    reveal(program_from);
    lemma_no_eof_before_first(ts, 0);
    assert(ts[pos as int].ty != TokenType::EOF);
    assert(ts[(pos + k1) as int].ty != TokenType::EOF);
    lemma_first_eof_is_eof(ts);
    let e: Seq<ErrorView> = seq![];
    assert(program_from(ts, pos + k1 + k2, stmts.push(d1).push(d2), e) == ProgramOutcome::Parsed(
        stmts.push(d1).push(d2),
    ));
    assert(program_from(ts, pos + k1, stmts.push(d1), e) == program_from(
        ts,
        pos + k1 + k2,
        stmts.push(d1).push(d2),
        e,
    ));
    assert(program_from(ts, pos, stmts, e) == program_from(ts, pos + k1, stmts.push(d1), e));
    assert(stmts.push(d1).push(d2) =~= stmts + seq![d1, d2]);
}

proof fn lemma_first_eof_is_eof(ts: Seq<TokenView>)
    requires
        first_eof(ts) < ts.len(),
    ensures
        ts[first_eof(ts) as int].ty == TokenType::EOF,
{
    lemma_first_eof_from_is_eof(ts, 0);
}

proof fn lemma_first_eof_from_is_eof(ts: Seq<TokenView>, i: nat)
    requires
        i <= ts.len(),
        first_eof_from(ts, i) < ts.len(),
    ensures
        ts[first_eof_from(ts, i) as int].ty == TokenType::EOF,
    decreases ts.len() - i,
{
    if i < ts.len() && ts[i as int].ty != TokenType::EOF {
        lemma_first_eof_from_is_eof(ts, i + 1);
    }
}

proof fn lemma_no_eof_before_first(ts: Seq<TokenView>, i: nat)
    requires
        i <= ts.len(),
    ensures
        i <= first_eof_from(ts, i) <= ts.len(),
        forall|j: int| i <= j < first_eof_from(ts, i) ==> ts[j].ty != TokenType::EOF,
    decreases ts.len() - i,
{
    if i < ts.len() && ts[i as int].ty != TokenType::EOF {
        lemma_no_eof_before_first(ts, i + 1);
    }
}

proof fn lemma_synchronize_from_to_semicolon(ts: Seq<TokenView>, start: nat, q: nat, j: nat)
    requires
        start < q <= j + 1,
        j < first_eof(ts) < ts.len(),
        ts[j as int].ty == TokenType::Semicolon,
        forall|i: int| start <= i < j ==> ts[i].ty != TokenType::Semicolon,
        forall|i: int| start < i <= j ==> !starts_statement(ts[i].ty),
    ensures
        q + synchronize_from(ts, q) == j + 1,
    decreases j + 1 - q,
{
    lemma_no_eof_before_first(ts, 0);
    if q <= j {
        assert(ts[q as int].ty != TokenType::EOF);
        lemma_synchronize_from_to_semicolon(ts, start, q + 1, j);
    }
}

/// Recovery stops right after the next semicolon: from a token before a
/// semicolon, when no semicolon comes earlier and no token after the first up
/// to that semicolon starts a statement, parsing resumes at the token after
/// the semicolon.
#[verifier::spinoff_prover]
pub proof fn lemma_synchronize_stops_after_semicolon(ts: Seq<TokenView>, pos: nat, j: nat)
    requires
        pos <= j < first_eof(ts) < ts.len(),
        ts[j as int].ty == TokenType::Semicolon,
        forall|i: int| pos <= i < j ==> ts[i].ty != TokenType::Semicolon,
        forall|i: int| pos < i <= j ==> !starts_statement(ts[i].ty),
    ensures
        pos + synchronize(ts, pos) == j + 1,
{
    lemma_no_eof_before_first(ts, 0);
    assert(ts[pos as int].ty != TokenType::EOF);
    lemma_synchronize_from_to_semicolon(ts, pos, pos + 1, j);
}

proof fn lemma_synchronize_from_to_keyword(ts: Seq<TokenView>, start: nat, q: nat, j: nat)
    requires
        start < q <= j,
        j <= first_eof(ts) < ts.len(),
        starts_statement(ts[j as int].ty),
        forall|i: int| start <= i < j ==> ts[i].ty != TokenType::Semicolon,
        forall|i: int| start < i < j ==> !starts_statement(ts[i].ty),
    ensures
        q + synchronize_from(ts, q) == j,
    decreases j - q,
{
    lemma_no_eof_before_first(ts, 0);
    if q < j {
        assert(ts[q as int].ty != TokenType::EOF);
        lemma_synchronize_from_to_keyword(ts, start, q + 1, j);
    }
}

/// Recovery stops before a token that starts a statement: from a token
/// before a statement keyword, when no semicolon comes first and no token in
/// between starts a statement, parsing resumes at that keyword.
#[verifier::spinoff_prover]
pub proof fn lemma_synchronize_stops_at_keyword(ts: Seq<TokenView>, pos: nat, j: nat)
    requires
        pos < j <= first_eof(ts) < ts.len(),
        starts_statement(ts[j as int].ty),
        forall|i: int| pos <= i < j ==> ts[i].ty != TokenType::Semicolon,
        forall|i: int| pos < i < j ==> !starts_statement(ts[i].ty),
    ensures
        pos + synchronize(ts, pos) == j,
{
    lemma_no_eof_before_first(ts, 0);
    assert(ts[pos as int].ty != TokenType::EOF);
    lemma_synchronize_from_to_keyword(ts, pos, pos + 1, j);
}

/// Every failed declaration is reported, and parsing goes on after the next
/// semicolon: when the declaration at `pos` fails with `e` having read up to a
/// token before a semicolon (as in [`lemma_synchronize_stops_after_semicolon`]),
/// parsing the rest gives what parsing from after that semicolon gives, with
/// `e` added to the errors.
#[verifier::spinoff_prover]
pub proof fn lemma_failed_declaration_is_reported(
    ts: Seq<TokenView>,
    pos: nat,
    e: ErrorView,
    k: nat,
    j: nat,
    stmts: Seq<SStmt>,
    errs: Seq<ErrorView>,
)
    requires
        pos + k <= j < first_eof(ts) < ts.len(),
        !at_end(ts, pos),
        declaration(ts, pos) == Parse::Done(Err::<SStmt, ErrorView>(e), k),
        ts[j as int].ty == TokenType::Semicolon,
        forall|i: int| pos + k <= i < j ==> ts[i].ty != TokenType::Semicolon,
        forall|i: int| pos + k < i <= j ==> !starts_statement(ts[i].ty),
    ensures
        program_from(ts, pos, stmts, errs) == program_from(ts, j + 1, stmts, errs.push(e)),
{
    reveal(program_from);
    lemma_synchronize_stops_after_semicolon(ts, pos + k, j);
}

} // verus!
