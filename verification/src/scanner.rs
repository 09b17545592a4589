use vstd::prelude::*;
use vstd::utf8::{decode_utf8, encode_utf8, valid_utf8};

use crate::error::{spec_scanner_error, Error, ErrorView};
use crate::text::{lemma_ascii_valid_utf8, lemma_enclosed_valid_utf8, push_char, string_from_utf8};
use crate::token::{keyword, spec_keyword, token_views, Literal, LiteralView, Token, TokenType, TokenView};

verus! {

// ---------------------------------------------------------------------------
// The lexical rules, stated over the bytes of the source.
// ---------------------------------------------------------------------------

/// A decimal digit.
pub open spec fn spec_is_digit(c: u8) -> bool {
    '0' as u8 <= c <= '9' as u8
}

/// A byte whose Latin-1 character is alphabetic: an ASCII letter or one of the
/// letters of the upper half of Latin-1.
pub open spec fn spec_is_alpha(c: u8) -> bool {
    ||| 'a' as u8 <= c <= 'z' as u8
    ||| 'A' as u8 <= c <= 'Z' as u8
    ||| c == 0xaa
    ||| c == 0xb5
    ||| c == 0xba
    ||| 0xc0 <= c <= 0xd6
    ||| 0xd8 <= c <= 0xf6
    ||| 0xf8 <= c
}

pub open spec fn spec_is_alphanumeric(c: u8) -> bool {
    spec_is_digit(c) || spec_is_alpha(c)
}

/// The byte at `i`, or 0 past the end.
pub open spec fn byte_at(s: Seq<u8>, i: int) -> u8 {
    if 0 <= i < s.len() {
        s[i]
    } else {
        0
    }
}

/// The kind of a token of a single character that never starts a longer token.
pub open spec fn single_char_type(c: u8) -> Option<TokenType> {
    if c == '(' as u8 {
        Some(TokenType::LeftParen)
    } else if c == ')' as u8 {
        Some(TokenType::RightParen)
    } else if c == '{' as u8 {
        Some(TokenType::LeftBrace)
    } else if c == '}' as u8 {
        Some(TokenType::RightBrace)
    } else if c == ',' as u8 {
        Some(TokenType::Comma)
    } else if c == '.' as u8 {
        Some(TokenType::Dot)
    } else if c == '-' as u8 {
        Some(TokenType::Minus)
    } else if c == '+' as u8 {
        Some(TokenType::Plus)
    } else if c == ';' as u8 {
        Some(TokenType::Semicolon)
    } else if c == '*' as u8 {
        Some(TokenType::Star)
    } else {
        None
    }
}

/// For a character that may be followed by '=', the kinds of the token it forms
/// alone and of the token it forms with the '='.
pub open spec fn equal_pair_types(c: u8) -> Option<(TokenType, TokenType)> {
    if c == '!' as u8 {
        Some((TokenType::Bang, TokenType::BangEqual))
    } else if c == '=' as u8 {
        Some((TokenType::Equal, TokenType::EqualEqual))
    } else if c == '<' as u8 {
        Some((TokenType::Less, TokenType::LessEqual))
    } else if c == '>' as u8 {
        Some((TokenType::Greater, TokenType::GreaterEqual))
    } else {
        None
    }
}

/// The first index from `i` on that does not hold a byte satisfying the digit test.
pub open spec fn digits_end(s: Seq<u8>, i: int) -> int
    decreases s.len() - i,
{
    if 0 <= i < s.len() && spec_is_digit(s[i]) {
        digits_end(s, i + 1)
    } else {
        i
    }
}

/// The first index from `i` on that does not hold a letter or a digit.
pub open spec fn alphanumeric_end(s: Seq<u8>, i: int) -> int
    decreases s.len() - i,
{
    if 0 <= i < s.len() && spec_is_alphanumeric(s[i]) {
        alphanumeric_end(s, i + 1)
    } else {
        i
    }
}

/// Where a number whose first digit ends at `i` ends: more digits, then, when a
/// '.' follows, the '.' and the digits after it.
pub open spec fn number_end(s: Seq<u8>, i: int) -> int {
    let j = digits_end(s, i);
    if byte_at(s, j) == '.' as u8 {
        digits_end(s, j + 1)
    } else {
        j
    }
}

/// Scanning the inside of a string from `i`: the index of the closing quote (or the
/// end of the source), with the line and column reached there.
pub open spec fn string_scan(s: Seq<u8>, i: int, line: int, col: int) -> (int, int, int)
    decreases s.len() - i,
{
    if i < 0 || i >= s.len() || s[i] == '"' as u8 {
        (i, line, col)
    } else if s[i] == '\n' as u8 {
        string_scan(s, i + 1, line + 1, 0)
    } else {
        string_scan(s, i + 1, line, col + 1)
    }
}

/// How a block comment ends: closed by "*/" before `pos` with the line and column
/// reached, or left open at the end of the source.
pub enum Comment {
    Closed(int, int, int),
    Open(int, int),
}

/// Scanning a block comment whose opening "/*" ends at `i`. Comments nest.
pub open spec fn block_comment(s: Seq<u8>, i: int, line: int, col: int) -> Comment
    decreases s.len() - i,
{
    if i < 0 || i >= s.len() {
        Comment::Open(line, col)
    } else {
        let c = s[i];
        let i1 = i + 1;
        let c1 = col + 1;
        if c == '*' as u8 && byte_at(s, i1) == '/' as u8 {
            Comment::Closed(i1 + 1, line, c1 + 1)
        } else if c == '/' as u8 && byte_at(s, i1) == '*' as u8 {
            match block_comment(s, i1 + 1, line, c1 + 1) {
                Comment::Closed(p, l, co) => if i < p <= s.len() {
                    block_comment(s, p, l, co)
                } else {
                    Comment::Open(l, co)
                },
                Comment::Open(l, co) => Comment::Open(l, co),
            }
        } else if c == '\n' as u8 {
            block_comment(s, i1, line + 1, -1)
        } else {
            block_comment(s, i1, line, c1)
        }
    }
}

/// The token of kind `ty` whose text runs from `start` to `end`, ending at
/// `line` and `col`.
pub open spec fn spec_token(
    s: Seq<u8>,
    ty: TokenType,
    start: int,
    end: int,
    literal: Option<LiteralView>,
    line: int,
    col: int,
) -> TokenView {
    TokenView {
        ty,
        lexeme: decode_utf8(s.subrange(start, end)),
        literal,
        line: line as usize,
        col: col as i64,
    }
}

/// The result of scanning from one position.
pub enum Step {
    /// A token, and where scanning goes on (position, line, column).
    Emit(TokenView, int, int, int),
    /// No token (blank or comment), and where scanning goes on.
    Skip(int, int, int),
    /// Scanning stops with this error.
    Fail(ErrorView),
    /// The scanner cannot represent the text of an identifier (its bytes are not
    /// valid UTF-8) and stops without a result.
    Abort,
}

/// One step of scanning at `pos`, which holds the next byte to scan; `line` and
/// `col` are where the previous byte was.
pub open spec fn spec_step(s: Seq<u8>, pos: int, line: int, col: int) -> Step {
    let n = s.len() as int;
    let c = s[pos];
    let p1 = pos + 1;
    let c1 = col + 1;
    if single_char_type(c) is Some {
        let ty = single_char_type(c).unwrap();
        Step::Emit(spec_token(s, ty, pos, p1, None, line, c1), p1, line, c1)
    } else if equal_pair_types(c) is Some {
        let (one, two) = equal_pair_types(c).unwrap();
        if byte_at(s, p1) == '=' as u8 {
            Step::Emit(spec_token(s, two, pos, p1 + 1, None, line, c1 + 1), p1 + 1, line, c1 + 1)
        } else {
            Step::Emit(spec_token(s, one, pos, p1, None, line, c1), p1, line, c1)
        }
    } else if c == '/' as u8 {
        if byte_at(s, p1) == '/' as u8 {
            let p2 = p1 + 1;
            let c2 = c1 + 1;
            if p2 < n && s[p2] != '\n' as u8 {
                Step::Skip(n, line, c2 + (n - p2))
            } else {
                Step::Skip(p2, line, c2)
            }
        } else if byte_at(s, p1) == '*' as u8 {
            match block_comment(s, p1 + 1, line, c1 + 1) {
                Comment::Closed(p, l, co) => Step::Skip(p, l, co),
                Comment::Open(l, co) => Step::Fail(
                    spec_scanner_error("unterminated comment."@, l as usize, co as i64),
                ),
            }
        } else {
            Step::Emit(spec_token(s, TokenType::Slash, pos, p1, None, line, c1), p1, line, c1)
        }
    } else if c == ' ' as u8 || c == '\r' as u8 || c == '\t' as u8 {
        Step::Skip(p1, line, c1)
    } else if c == '\n' as u8 {
        Step::Skip(p1, line + 1, -1)
    } else if c == '"' as u8 {
        let (p, l, co) = string_scan(s, p1, line, c1);
        if p >= n {
            Step::Fail(spec_scanner_error("unterminated string."@, l as usize, co as i64))
        } else {
            let contents = decode_utf8(s.subrange(pos + 1, p));
            Step::Emit(
                spec_token(s, TokenType::Str, pos, p + 1, Some(LiteralView::Str(contents)), l, co + 1),
                p + 1,
                l,
                co + 1,
            )
        }
    } else if spec_is_digit(c) {
        let e = number_end(s, p1);
        let text = decode_utf8(s.subrange(pos, e));
        let co = c1 + (e - p1);
        Step::Emit(
            spec_token(s, TokenType::Number, pos, e, Some(LiteralView::Number(text)), line, co),
            e,
            line,
            co,
        )
    } else if spec_is_alpha(c) {
        let e = alphanumeric_end(s, p1);
        let w = s.subrange(pos, e);
        let co = c1 + (e - p1);
        if !valid_utf8(w) {
            Step::Abort
        } else {
            match spec_keyword(w) {
                Some(k) => Step::Emit(spec_token(s, k, pos, e, None, line, co), e, line, co),
                None => Step::Emit(
                    spec_token(
                        s,
                        TokenType::Identifier,
                        pos,
                        e,
                        Some(LiteralView::Identifier(decode_utf8(w))),
                        line,
                        co,
                    ),
                    e,
                    line,
                    co,
                ),
            }
        }
    } else {
        Step::Fail(
            spec_scanner_error("scanner can't handle "@.push(c as char), line as usize, c1 as i64),
        )
    }
}

/// The outcome of scanning a whole source.
pub enum ScanOutcome {
    Tokens(Seq<TokenView>),
    Failed(ErrorView),
    Aborted,
}

/// Where a step goes on, when it goes on.
pub open spec fn step_next(st: Step) -> int {
    match st {
        Step::Emit(_, p, _, _) => p,
        Step::Skip(p, _, _) => p,
        _ => 0,
    }
}

/// Scanning from `pos`, with `acc` the tokens found before it: the tokens found
/// up to the end of the source, followed by the end-of-file token.
pub open spec fn scan_from(s: Seq<u8>, pos: int, line: int, col: int, acc: Seq<TokenView>) -> ScanOutcome
    decreases s.len() - pos,
{
    if pos < 0 || pos >= s.len() {
        ScanOutcome::Tokens(
            acc.push(spec_token(s, TokenType::EOF, s.len() as int, s.len() as int, None, line, col)),
        )
    } else {
        let st = spec_step(s, pos, line, col);
        if !(pos < step_next(st) <= s.len()) && (st is Emit || st is Skip) {
            ScanOutcome::Aborted
        } else {
            match st {
                Step::Emit(t, p, l, co) => scan_from(s, p, l, co, acc.push(t)),
                Step::Skip(p, l, co) => scan_from(s, p, l, co, acc),
                Step::Fail(e) => ScanOutcome::Failed(e),
                Step::Abort => ScanOutcome::Aborted,
            }
        }
    }
}

/// The outcome of scanning the bytes `s` from their start, on line 1.
pub open spec fn spec_scan(s: Seq<u8>) -> ScanOutcome {
    scan_from(s, 0, 1, -1, seq![])
}


proof fn lemma_digits_end(s: Seq<u8>, i: int)
    requires
        0 <= i <= s.len(),
    ensures
        i <= digits_end(s, i) <= s.len(),
    decreases s.len() - i,
{
    if i < s.len() && spec_is_digit(s[i]) {
        lemma_digits_end(s, i + 1);
    }
}

proof fn lemma_alphanumeric_end(s: Seq<u8>, i: int)
    requires
        0 <= i <= s.len(),
    ensures
        i <= alphanumeric_end(s, i) <= s.len(),
    decreases s.len() - i,
{
    if i < s.len() && spec_is_alphanumeric(s[i]) {
        lemma_alphanumeric_end(s, i + 1);
    }
}

proof fn lemma_string_scan(s: Seq<u8>, i: int, line: int, col: int)
    requires
        0 <= i <= s.len(),
    ensures
        i <= string_scan(s, i, line, col).0 <= s.len(),
        string_scan(s, i, line, col).1 >= line,
    decreases s.len() - i,
{
    if i < s.len() && s[i] != '"' as u8 {
        if s[i] == '\n' as u8 {
            lemma_string_scan(s, i + 1, line + 1, 0);
        } else {
            lemma_string_scan(s, i + 1, line, col + 1);
        }
    }
}

proof fn lemma_block_comment(s: Seq<u8>, i: int, line: int, col: int)
    requires
        0 <= i,
    ensures
        block_comment(s, i, line, col) matches Comment::Closed(p, l, _) ==> i < p <= s.len() && l >= line,
        block_comment(s, i, line, col) matches Comment::Open(l, _) ==> l >= line,
    decreases s.len() - i,
{
    if i < s.len() {
        let c = s[i];
        let i1 = i + 1;
        let c1 = col + 1;
        if c == '*' as u8 && byte_at(s, i1) == '/' as u8 {
        } else if c == '/' as u8 && byte_at(s, i1) == '*' as u8 {
            lemma_block_comment(s, i1 + 1, line, c1 + 1);
            if let Comment::Closed(p, l, co) = block_comment(s, i1 + 1, line, c1 + 1) {
                if i < p <= s.len() {
                    lemma_block_comment(s, p, l, co);
                }
            }
        } else if c == '\n' as u8 {
            lemma_block_comment(s, i1, line + 1, -1);
        } else {
            lemma_block_comment(s, i1, line, c1);
        }
    }
}

/// One step of scanning moves forward and never goes back a line, and a token
/// it produces is made of exactly the bytes the step read.
pub proof fn lemma_step_moves_on(s: Seq<u8>, pos: int, line: int, col: int)
    requires
        0 <= pos < s.len(),
    ensures
        match spec_step(s, pos, line, col) {
            Step::Emit(t, p, l, _) => {
                &&& pos < p <= s.len()
                &&& l >= line
                &&& t.lexeme == decode_utf8(s.subrange(pos, p))
            },
            Step::Skip(p, l, _) => pos < p <= s.len() && l >= line,
            _ => true,
        },
{
    let c = s[pos];
    let p1 = pos + 1;
    let c1 = col + 1;
    if spec_is_digit(c) {
        lemma_digits_end(s, p1);
        let j = digits_end(s, p1);
        if byte_at(s, j) == '.' as u8 {
            lemma_digits_end(s, j + 1);
        }
    }
    if spec_is_alpha(c) {
        lemma_alphanumeric_end(s, p1);
    }
    if c == '"' as u8 {
        lemma_string_scan(s, p1, line, c1);
    }
    if c == '/' as u8 && byte_at(s, p1) == '*' as u8 {
        lemma_block_comment(s, p1 + 1, line, c1 + 1);
    }
}

/// An ASCII letter.
pub open spec fn is_ascii_letter(c: u8) -> bool {
    'a' as u8 <= c <= 'z' as u8 || 'A' as u8 <= c <= 'Z' as u8
}

/// An ASCII decimal digit.
pub open spec fn is_ascii_digit(c: u8) -> bool {
    '0' as u8 <= c <= '9' as u8
}

proof fn lemma_alphanumeric_end_at(s: Seq<u8>, i: int, e: int)
    requires
        0 <= i <= e <= s.len(),
        forall|j: int| i <= j < e ==> is_ascii_letter(s[j]) || is_ascii_digit(s[j]),
        e < s.len() ==> s[e] < 0x80 && !is_ascii_letter(s[e]) && !is_ascii_digit(s[e]),
    ensures
        alphanumeric_end(s, i) == e,
    decreases e - i,
{
    if i < e {
        lemma_alphanumeric_end_at(s, i + 1, e);
    }
}

/// An identifier or reserved word runs over all the letters and digits that
/// follow its first letter: scanning from an ASCII letter followed by ASCII
/// letters and digits up to `e`, where no letter or digit follows, gives one
/// token made of exactly those bytes, an identifier unless they spell a
/// reserved word.
pub proof fn lemma_identifier_takes_letters_and_digits(
    s: Seq<u8>,
    pos: int,
    e: int,
    line: int,
    col: int,
)
    requires
        0 <= pos < e <= s.len(),
        is_ascii_letter(s[pos]),
        forall|j: int| pos < j < e ==> is_ascii_letter(s[j]) || is_ascii_digit(s[j]),
        e < s.len() ==> s[e] < 0x80 && !is_ascii_letter(s[e]) && !is_ascii_digit(s[e]),
    ensures
        spec_step(s, pos, line, col) matches Step::Emit(t, p, l, _) && p == e && l == line
            && t.lexeme == decode_utf8(s.subrange(pos, e)) && (t.ty == TokenType::Identifier
            || spec_keyword(s.subrange(pos, e)) == Some(t.ty)),
{
    lemma_alphanumeric_end_at(s, pos + 1, e);
    lemma_ascii_valid_utf8(s.subrange(pos, e));
}

proof fn lemma_digits_end_at(s: Seq<u8>, i: int, e: int)
    requires
        0 <= i <= e <= s.len(),
        forall|j: int| i <= j < e ==> is_ascii_digit(s[j]),
        e < s.len() ==> !is_ascii_digit(s[e]),
    ensures
        digits_end(s, i) == e,
    decreases e - i,
{
    if i < e {
        lemma_digits_end_at(s, i + 1, e);
    }
}

/// A number runs over all its digits and, after a point, over all the digits
/// of its fraction: scanning from digits up to `d`, a '.' at `d` and digits up
/// to `e` (no digit following) gives one number token made of exactly those
/// bytes, whose value is written by the same text.
pub proof fn lemma_number_takes_its_fraction(s: Seq<u8>, pos: int, d: int, e: int, line: int, col: int)
    requires
        0 <= pos < d < e <= s.len(),
        forall|j: int| pos <= j < d ==> is_ascii_digit(s[j]),
        s[d] == '.' as u8,
        forall|j: int| d < j < e ==> is_ascii_digit(s[j]),
        e < s.len() ==> !is_ascii_digit(s[e]),
    ensures
        spec_step(s, pos, line, col) matches Step::Emit(t, p, l, _) && p == e && l == line
            && t.ty == TokenType::Number && t.lexeme == decode_utf8(s.subrange(pos, e))
            && t.literal == Some(LiteralView::Number(decode_utf8(s.subrange(pos, e)))),
{
    lemma_digits_end_at(s, pos + 1, d);
    lemma_digits_end_at(s, d + 1, e);
}

proof fn lemma_string_scan_to_quote(s: Seq<u8>, i: int, q: int, line: int, col: int)
    requires
        0 <= i <= q < s.len(),
        forall|j: int| i <= j < q ==> s[j] != '"' as u8,
        s[q] == '"' as u8,
    ensures
        string_scan(s, i, line, col).0 == q,
    decreases q - i,
{
    if i < q {
        if s[i] == '\n' as u8 {
            lemma_string_scan_to_quote(s, i + 1, q, line + 1, 0);
        } else {
            lemma_string_scan_to_quote(s, i + 1, q, line, col + 1);
        }
    }
}

/// A string runs to the next double quote: scanning from a '"' whose closing
/// '"' is at `q` gives one string token made of the bytes up to that quote,
/// whose value is the text between the quotes.
pub proof fn lemma_string_runs_to_next_quote(s: Seq<u8>, pos: int, q: int, line: int, col: int)
    requires
        0 <= pos < q < s.len(),
        s[pos] == '"' as u8,
        forall|j: int| pos < j < q ==> s[j] != '"' as u8,
        s[q] == '"' as u8,
    ensures
        spec_step(s, pos, line, col) matches Step::Emit(t, p, _, _) && p == q + 1
            && t.ty == TokenType::Str && t.lexeme == decode_utf8(s.subrange(pos, q + 1))
            && t.literal == Some(LiteralView::Str(decode_utf8(s.subrange(pos + 1, q)))),
{
    lemma_string_scan_to_quote(s, pos + 1, q, line, col + 1);
}

/// No step of scanning produces an end-of-file token.
proof fn lemma_step_never_eof(s: Seq<u8>, pos: int, line: int, col: int)
    requires
        0 <= pos < s.len(),
    ensures
        spec_step(s, pos, line, col) matches Step::Emit(t, _, _, _) ==> t.ty != TokenType::EOF,
{
}

/// Scanning on from `pos` after tokens `acc` of which none is an end-of-file
/// token keeps `acc` in front and adds tokens of which only the last is one.
proof fn lemma_scan_from_single_eof(s: Seq<u8>, pos: int, line: int, col: int, acc: Seq<TokenView>)
    requires
        forall|i: int| 0 <= i < acc.len() ==> acc[i].ty != TokenType::EOF,
    ensures
        scan_from(s, pos, line, col, acc) matches ScanOutcome::Tokens(ts) ==> {
            &&& ts.len() > acc.len()
            &&& ts.subrange(0, acc.len() as int) == acc
            &&& ts[ts.len() - 1].ty == TokenType::EOF
            &&& forall|i: int| 0 <= i < ts.len() - 1 ==> ts[i].ty != TokenType::EOF
        },
    decreases s.len() - pos,
{
    if pos < 0 || pos >= s.len() {
        let ts = acc.push(spec_token(s, TokenType::EOF, s.len() as int, s.len() as int, None, line, col));
        assert(ts.subrange(0, acc.len() as int) =~= acc);
    } else {
        let st = spec_step(s, pos, line, col);
        lemma_step_never_eof(s, pos, line, col);
        if pos < step_next(st) <= s.len() {
            match st {
                Step::Emit(t, p, l, co) => {
                    lemma_scan_from_single_eof(s, p, l, co, acc.push(t));
                    if let ScanOutcome::Tokens(ts) = scan_from(s, p, l, co, acc.push(t)) {
                        assert(ts.subrange(0, acc.len() as int) =~= ts.subrange(0, acc.len() + 1int).subrange(0, acc.len() as int));
                    }
                },
                Step::Skip(p, l, co) => {
                    lemma_scan_from_single_eof(s, p, l, co, acc);
                },
                _ => {},
            }
        }
    }
}

/// A successful scan ends with an end-of-file token, and only there: every
/// other token is of another kind.
pub proof fn lemma_scan_ends_with_single_eof(s: Seq<u8>)
    ensures
        spec_scan(s) matches ScanOutcome::Tokens(ts) ==> {
            &&& ts.len() >= 1
            &&& ts[ts.len() - 1].ty == TokenType::EOF
            &&& forall|i: int| 0 <= i < ts.len() - 1 ==> ts[i].ty != TokenType::EOF
        },
{
    lemma_scan_from_single_eof(s, 0, 1, -1, seq![]);
}

// ---------------------------------------------------------------------------
// The scanner.
// ---------------------------------------------------------------------------

/// Scans `input` into tokens, ending with an end-of-file token, or reports the
/// first lexical error; `None` when an identifier of `input` is made of bytes
/// that are not UTF-8 (such as a lone letter of the upper half of Latin-1 taken
/// from a multi-byte character), which no token can hold.
pub fn try_scan_tokens(input: String) -> (r: Option<Result<Vec<Token>, Error>>)
    requires
        encode_utf8(input@).len() <= isize::MAX,
    ensures
        match spec_scan(encode_utf8(input@)) {
            ScanOutcome::Tokens(ts) => r matches Some(Ok(toks)) && token_views(toks@) == ts,
            ScanOutcome::Failed(e) => r matches Some(Err(err)) && err@ == e,
            ScanOutcome::Aborted => r is None,
        },
{
    let mut scanner = Scanner {
        source: Vec::new(),
        tokens: Vec::new(),
        err: None,
        start: 0,
        current: 0,
        line: 1,
        col: -1,
    };
    if !scanner.scan_tokens(input) {
        return None;
    }
    match scanner.err {
        Some(err) => Some(Err(err)),
        None => Some(Ok(scanner.tokens)),
    }
}

/// Scans `input` into tokens, ending with an end-of-file token, or reports the
/// first lexical error.
pub fn scan_tokens(input: String) -> (r: Result<Vec<Token>, Error>)
    requires
        encode_utf8(input@).len() <= isize::MAX,
        !(spec_scan(encode_utf8(input@)) is Aborted),
    ensures
        match spec_scan(encode_utf8(input@)) {
            ScanOutcome::Tokens(ts) => r matches Ok(toks) && token_views(toks@) == ts,
            ScanOutcome::Failed(e) => r matches Err(err) && err@ == e,
            ScanOutcome::Aborted => false,
        },
{
    match try_scan_tokens(input) {
        Some(r) => r,
        None => {
            proof {
                assert(false);
            }
            Err(Error::scanner(String::new(), 0, 0))
        },
    }
}

/// The state of a scan: the source, the tokens found so far, the error met if
/// any, where the current token starts, the next byte to scan, and the line and
/// column of the last byte scanned.
pub struct Scanner {
    source: Vec<u8>,
    tokens: Vec<Token>,
    err: Option<Error>,
    start: usize,
    current: usize,
    line: usize,
    col: i64,
}

impl Scanner {
    spec fn inv(&self) -> bool {
        &&& self.source@.len() <= isize::MAX
        &&& valid_utf8(self.source@)
        &&& self.start <= self.current <= self.source@.len()
        &&& 1 <= self.line <= self.current + 1
        &&& -1 <= self.col < self.current
    }

    spec fn same_but_position(&self, other: &Scanner) -> bool {
        &&& self.source@ == other.source@
        &&& self.tokens@ == other.tokens@
        &&& self.start == other.start
    }

    /// Scans `input`; false when scanning stops on an identifier whose bytes
    /// are not UTF-8.
    fn scan_tokens(&mut self, input: String) -> (completed: bool)
        requires
            old(self).tokens@.len() == 0,
            old(self).err is None,
            old(self).start == 0,
            old(self).current == 0,
            old(self).line == 1,
            old(self).col == -1,
            encode_utf8(input@).len() <= isize::MAX,
        ensures
            match spec_scan(encode_utf8(input@)) {
                ScanOutcome::Tokens(ts) => completed && final(self).err is None && token_views(
                    final(self).tokens@,
                ) == ts,
                ScanOutcome::Failed(e) => completed && (final(self).err matches Some(err) && err@ == e),
                ScanOutcome::Aborted => !completed,
            },
    {
        self.source = vstd::slice::slice_to_vec(input.as_str().as_bytes());
        let ghost s = self.source@;
        proof {
            vstd::utf8::encode_utf8_valid_utf8(input@);
            assert(token_views(self.tokens@) =~= seq![]);
        }
        let mut aborted = false;
        while !aborted && !self.done()
            invariant
                self.inv(),
                self.source@ == s,
                aborted ==> spec_scan(s) is Aborted,
                !aborted && self.err is None ==> spec_scan(s) == scan_from(
                    s,
                    self.current as int,
                    self.line as int,
                    self.col as int,
                    token_views(self.tokens@),
                ),
                !aborted ==> (self.err matches Some(e) ==> spec_scan(s) == ScanOutcome::Failed(e@)),
            decreases s.len() - self.current,
        {
            self.start = self.current;
            let ghost before = *self;
            if !self.scan_token() {
                aborted = true;
            }
            proof {
                let st = spec_step(s, before.current as int, before.line as int, before.col as int);
                match st {
                    Step::Emit(t, p, l, co) => {
                        assert(token_views(self.tokens@) =~= token_views(before.tokens@).push(t));
                    },
                    Step::Skip(p, l, co) => {
                        assert(token_views(self.tokens@) =~= token_views(before.tokens@));
                    },
                    _ => {},
                }
            }
        }
        if aborted {
            return false;
        }
        if self.err.is_none() {
            self.start = self.current;
            let ghost before = self.tokens@;
            proof {
                lemma_ascii_valid_utf8(s.subrange(self.start as int, self.current as int));
            }
            self.add_token(TokenType::EOF);
            proof {
                assert(token_views(self.tokens@) =~= token_views(before).push(
                    spec_token(s, TokenType::EOF, s.len() as int, s.len() as int, None, self.line as int, self.col as int),
                ));
            }
        }
        true
    }

    /// Scans one token (or blank, or comment) starting at `start`; false when
    /// the token is an identifier whose bytes are not UTF-8.
    fn scan_token(&mut self) -> (ok: bool)
        requires
            old(self).inv(),
            old(self).err is None,
            old(self).start == old(self).current,
            old(self).current < old(self).source@.len(),
        ensures
            final(self).inv(),
            final(self).source@ == old(self).source@,
            final(self).current > old(self).current,
            !ok <==> spec_step(
                old(self).source@,
                old(self).current as int,
                old(self).line as int,
                old(self).col as int,
            ) is Abort,
            !ok ==> final(self).tokens@ == old(self).tokens@ && final(self).line == old(self).line,
            ok ==> match spec_step(
                old(self).source@,
                old(self).current as int,
                old(self).line as int,
                old(self).col as int,
            ) {
                Step::Emit(t, p, l, co) => {
                    &&& final(self).err is None
                    &&& token_views(final(self).tokens@) == token_views(old(self).tokens@).push(t)
                    &&& final(self).current == p
                    &&& final(self).line == l
                    &&& final(self).col == co
                },
                Step::Skip(p, l, co) => {
                    &&& final(self).err is None
                    &&& final(self).tokens@ == old(self).tokens@
                    &&& final(self).current == p
                    &&& final(self).line == l
                    &&& final(self).col == co
                },
                Step::Fail(e) => {
                    &&& final(self).err matches Some(err) && err@ == e
                    &&& final(self).tokens@ == old(self).tokens@
                    &&& final(self).line >= old(self).line
                },
                Step::Abort => false,
            },
    {
        let ghost s = self.source@;
        let ghost pos = self.current as int;
        let ghost line0 = self.line as int;
        let ghost col0 = self.col as int;
        let c = self.advance();
        match single_char_type_exec(c) {
            Some(ty) => {
                proof {
                    lemma_ascii_valid_utf8(s.subrange(pos, pos + 1));
                }
                self.add_token(ty);
                return true;
            },
            None => {},
        }
        match equal_pair_types_exec(c) {
            Some((one, two)) => {
                if self.matches('=' as u8) {
                    proof {
                        lemma_ascii_valid_utf8(s.subrange(pos, pos + 2));
                    }
                    self.add_token(two);
                } else {
                    proof {
                        lemma_ascii_valid_utf8(s.subrange(pos, pos + 1));
                    }
                    self.add_token(one);
                }
                return true;
            },
            None => {},
        }
        if c == '/' as u8 {
            if self.matches('/' as u8) {
                self.comment();
            } else if self.matches('*' as u8) {
                proof {
                    lemma_block_comment(s, pos + 2, line0, col0 + 2);
                }
                self.multiline_comment();
            } else {
                proof {
                    lemma_ascii_valid_utf8(s.subrange(pos, pos + 1));
                }
                self.add_token(TokenType::Slash);
            }
        } else if c == ' ' as u8 || c == '\r' as u8 || c == '\t' as u8 {
        } else if c == '\n' as u8 {
            self.newline();
        } else if c == '"' as u8 {
            proof {
                lemma_string_scan(s, pos + 1, line0, col0 + 1);
            }
            self.string();
        } else if Self::is_digit(c) {
            self.number();
        } else if Self::is_alpha(c) {
            return self.identifier();
        } else {
            let mut message = String::from_str("scanner can't handle ");
            push_char(&mut message, c as char);
            self.err = Some(Error::scanner(message, self.line, self.col));
        }
        true
    }

    /// Consumes the next byte and returns it.
    fn advance(&mut self) -> (c: u8)
        requires
            old(self).source@.len() <= isize::MAX,
            valid_utf8(old(self).source@),
            old(self).start <= old(self).current < old(self).source@.len(),
            1 <= old(self).line <= old(self).current + 2,
            -1 <= old(self).col < old(self).current,
        ensures
            final(self).inv(),
            final(self).same_but_position(old(self)),
            final(self).err == old(self).err,
            final(self).current == old(self).current + 1,
            final(self).col == old(self).col + 1,
            final(self).line == old(self).line,
            c == old(self).source@[old(self).current as int],
            old(self).line <= old(self).current + 1 ==> final(self).line <= final(self).current,
    {
        self.current = self.current + 1;
        self.col = self.col + 1;
        self.source[self.current - 1]
    }

    /// The next byte, or 0 at the end of the source.
    fn peek(&self) -> (c: u8)
        requires
            self.inv(),
            self.err is None,
        ensures
            c == byte_at(self.source@, self.current as int),
    {
        if self.done() {
            0
        } else {
            self.source[self.current]
        }
    }

    /// Consumes the next byte when it is `ch`.
    fn matches(&mut self, ch: u8) -> (r: bool)
        requires
            old(self).inv(),
            old(self).err is None,
            ch != 0,
        ensures
            final(self).inv(),
            final(self).same_but_position(old(self)),
            final(self).err == old(self).err,
            final(self).line == old(self).line,
            r == (byte_at(old(self).source@, old(self).current as int) == ch),
            r ==> final(self).current == old(self).current + 1 && final(self).col == old(self).col + 1,
            !r ==> final(self).current == old(self).current && final(self).col == old(self).col,
    {
        if self.peek() == ch {
            self.advance();
            true
        } else {
            false
        }
    }

    /// Moves to the start of the next line, after a newline byte was consumed.
    fn newline(&mut self)
        requires
            old(self).current >= 1,
            old(self).line <= old(self).current,
            old(self).inv(),
        ensures
            final(self).inv(),
            final(self).same_but_position(old(self)),
            final(self).err == old(self).err,
            final(self).current == old(self).current,
            final(self).line == old(self).line + 1,
            final(self).col == -1,
    {
        self.col = -1;
        self.line = self.line + 1;
    }

    /// Skips a comment that starts with "//".
    fn comment(&mut self)
        requires
            old(self).inv(),
            old(self).err is None,
        ensures
            final(self).current >= old(self).current,
            final(self).inv(),
            final(self).same_but_position(old(self)),
            final(self).err is None,
            final(self).line == old(self).line,
            ({
                let s = old(self).source@;
                let p2 = old(self).current as int;
                if p2 < s.len() && s[p2] != '\n' as u8 {
                    final(self).current == s.len() && final(self).col == old(self).col + (s.len() - p2)
                } else {
                    final(self).current == old(self).current && final(self).col == old(self).col
                }
            }),
    {
        let next = self.peek();
        let ghost start_col = self.col as int;
        let ghost start_pos = self.current as int;
        while next != '\n' as u8 && !self.is_at_end()
            invariant
                self.inv(),
                self.same_but_position(old(self)),
                self.err is None,
                self.line == old(self).line,
                next == byte_at(self.source@, start_pos),
                start_pos == old(self).current,
                start_pos <= self.current,
                self.col == start_col + (self.current - start_pos),
                start_col == old(self).col,
                next == '\n' as u8 ==> self.current == start_pos,
                start_pos >= self.source@.len() ==> self.current == start_pos,
            decreases self.source@.len() - self.current,
        {
            self.advance();
        }
    }

    /// Skips a comment that starts with "/*"; comments nest.
    fn multiline_comment(&mut self)
        requires
            old(self).inv(),
            old(self).err is None,
        ensures
            final(self).inv(),
            final(self).same_but_position(old(self)),
            final(self).current >= old(self).current,
            match block_comment(
                old(self).source@,
                old(self).current as int,
                old(self).line as int,
                old(self).col as int,
            ) {
                Comment::Closed(p, l, co) => {
                    &&& final(self).err is None
                    &&& final(self).current == p
                    &&& final(self).line == l
                    &&& final(self).col == co
                },
                Comment::Open(l, co) => {
                    &&& final(self).err matches Some(e) && e@ == spec_scanner_error(
                        "unterminated comment."@,
                        l as usize,
                        co as i64,
                    )
                    &&& final(self).current == old(self).source@.len()
                    &&& final(self).line == l
                    &&& final(self).col == co
                },
            },
        decreases old(self).source@.len() - old(self).current,
    {
        let ghost s = self.source@;
        let ghost goal = block_comment(s, self.current as int, self.line as int, self.col as int);
        while !self.done()
            invariant
                self.inv(),
                self.same_but_position(old(self)),
                self.source@ == s,
                old(self).current <= self.current,
                goal == block_comment(
                    old(self).source@,
                    old(self).current as int,
                    old(self).line as int,
                    old(self).col as int,
                ),
                self.err is None ==> goal == block_comment(
                    s,
                    self.current as int,
                    self.line as int,
                    self.col as int,
                ),
                self.err is Some ==> self.current == s.len() && goal == Comment::Open(
                    self.line as int,
                    self.col as int,
                ),
            decreases s.len() - self.current,
        {
            let ghost i = self.current as int;
            let ghost l0 = self.line as int;
            let ghost c0 = self.col as int;
            let c = self.advance();
            proof {
                assert(goal == block_comment(s, i, l0, c0));
            }
            if c == '*' as u8 {
                if self.matches('/' as u8) {
                    return;
                }
            } else if c == '/' as u8 {
                if self.matches('*' as u8) {
                    self.multiline_comment();
                }
            } else if c == '\n' as u8 {
                self.newline();
            }
        }
        self.err = Some(Error::scanner(String::from_str("unterminated comment."), self.line, self.col));
    }

    /// Scans the rest of a number whose first digit was consumed.
    fn number(&mut self)
        requires
            old(self).inv(),
            old(self).err is None,
            old(self).start + 1 == old(self).current,
            spec_is_digit(old(self).source@[old(self).start as int]),
        ensures
            final(self).current >= old(self).current,
            final(self).inv(),
            final(self).source@ == old(self).source@,
            final(self).start == old(self).start,
            final(self).err is None,
            final(self).line == old(self).line,
            ({
                let s = old(self).source@;
                let e = number_end(s, old(self).current as int);
                let co = old(self).col + (e - old(self).current);
                &&& final(self).current == e
                &&& final(self).col == co
                &&& token_views(final(self).tokens@) == token_views(old(self).tokens@).push(
                    spec_token(
                        s,
                        TokenType::Number,
                        old(self).start as int,
                        e,
                        Some(LiteralView::Number(decode_utf8(s.subrange(old(self).start as int, e)))),
                        old(self).line as int,
                        co,
                    ),
                )
            }),
    {
        let ghost s = self.source@;
        let ghost p1 = self.current as int;
        let ghost c1 = self.col as int;
        while Self::is_digit(self.peek())
            invariant
                self.inv(),
                self.same_but_position(old(self)),
                self.source@ == s,
                self.err is None,
                self.line == old(self).line,
                p1 <= self.current,
                self.col == c1 + (self.current - p1),
                digits_end(s, self.current as int) == digits_end(s, p1),
                forall|k: int| self.start <= k < self.current ==> s[k] < 0x80,
            decreases s.len() - self.current,
        {
            self.advance();
        }
        if self.peek() == '.' as u8 {
            self.advance();
            let ghost q = self.current as int;
            while Self::is_digit(self.peek())
                invariant
                    self.inv(),
                    self.same_but_position(old(self)),
                    self.source@ == s,
                    self.err is None,
                    self.line == old(self).line,
                    p1 <= q <= self.current,
                    self.col == c1 + (self.current - p1),
                    digits_end(s, self.current as int) == digits_end(s, q),
                    number_end(s, p1) == digits_end(s, q),
                    forall|k: int| self.start <= k < self.current ==> s[k] < 0x80,
                decreases s.len() - self.current,
            {
                self.advance();
            }
        }
        proof {
            let w = s.subrange(self.start as int, self.current as int);
            assert forall|k: int| 0 <= k < w.len() implies w[k] < 0x80 by {
                assert(w[k] == s[self.start + k]);
            }
            lemma_ascii_valid_utf8(w);
        }
        let text = self.lexeme_text();
        self.add_token_literal(TokenType::Number, Some(Literal::Number(text)));
    }

    /// Scans the rest of a string whose opening quote was consumed.
    fn string(&mut self)
        requires
            old(self).inv(),
            old(self).err is None,
            old(self).start + 1 == old(self).current,
            old(self).source@[old(self).start as int] == '"' as u8,
        ensures
            final(self).current >= old(self).current,
            final(self).inv(),
            final(self).source@ == old(self).source@,
            final(self).start == old(self).start,
            ({
                let s = old(self).source@;
                let (p, l, co) = string_scan(s, old(self).current as int, old(self).line as int, old(self).col as int);
                if p >= s.len() {
                    &&& final(self).err matches Some(e) && e@ == spec_scanner_error(
                        "unterminated string."@,
                        l as usize,
                        co as i64,
                    )
                    &&& final(self).current == s.len()
                    &&& final(self).tokens@ == old(self).tokens@
                    &&& final(self).line == l
                } else {
                    &&& final(self).err is None
                    &&& final(self).current == p + 1
                    &&& final(self).line == l
                    &&& final(self).col == co + 1
                    &&& token_views(final(self).tokens@) == token_views(old(self).tokens@).push(
                        spec_token(
                            s,
                            TokenType::Str,
                            old(self).start as int,
                            p + 1,
                            Some(LiteralView::Str(decode_utf8(s.subrange(old(self).start + 1, p)))),
                            l,
                            co + 1,
                        ),
                    )
                }
            }),
    {
        let ghost s = self.source@;
        let ghost goal = string_scan(s, self.current as int, self.line as int, self.col as int);
        while self.peek() != '"' as u8 && !self.is_at_end()
            invariant
                self.inv(),
                self.same_but_position(old(self)),
                self.source@ == s,
                self.err is None,
                old(self).current <= self.current,
                goal == string_scan(s, self.current as int, self.line as int, self.col as int),
            decreases s.len() - self.current,
        {
            if self.peek() == '\n' as u8 {
                self.col = -1;
                self.line = self.line + 1;
            }
            self.advance();
        }
        if self.is_at_end() {
            self.err = Some(Error::scanner(String::from_str("unterminated string."), self.line, self.col));
            return;
        }
        self.advance();
        proof {
            lemma_enclosed_valid_utf8(s, self.start as int, self.current - 1);
        }
        let contents = match string_from_utf8(&self.source[self.start + 1..self.current - 1]) {
            Some(t) => t,
            None => {
                proof {
                    assert(false);
                }
                String::new()
            },
        };
        self.add_token_literal(TokenType::Str, Some(Literal::Str(contents)));
    }

    /// Scans the rest of an identifier or reserved word whose first letter was
    /// consumed; false, with no token added, when its bytes are not UTF-8.
    fn identifier(&mut self) -> (ok: bool)
        requires
            old(self).inv(),
            old(self).err is None,
            old(self).start + 1 == old(self).current,
        ensures
            final(self).current >= old(self).current,
            final(self).inv(),
            final(self).source@ == old(self).source@,
            final(self).start == old(self).start,
            final(self).err is None,
            final(self).line == old(self).line,
            !ok ==> final(self).tokens@ == old(self).tokens@,
            ok == valid_utf8(
                old(self).source@.subrange(
                    old(self).start as int,
                    alphanumeric_end(old(self).source@, old(self).current as int),
                ),
            ),
            ok ==> ({
                let s = old(self).source@;
                let e = alphanumeric_end(s, old(self).current as int);
                let w = s.subrange(old(self).start as int, e);
                let co = old(self).col + (e - old(self).current);
                &&& final(self).current == e
                &&& final(self).col == co
                &&& token_views(final(self).tokens@) == token_views(old(self).tokens@).push(
                    match spec_keyword(w) {
                        Some(k) => spec_token(s, k, old(self).start as int, e, None, old(self).line as int, co),
                        None => spec_token(
                            s,
                            TokenType::Identifier,
                            old(self).start as int,
                            e,
                            Some(LiteralView::Identifier(decode_utf8(w))),
                            old(self).line as int,
                            co,
                        ),
                    },
                )
            }),
    {
        let ghost s = self.source@;
        let ghost p1 = self.current as int;
        let ghost c1 = self.col as int;
        while Self::is_alphanumeric(self.peek())
            invariant
                self.inv(),
                self.same_but_position(old(self)),
                self.source@ == s,
                self.err is None,
                self.line == old(self).line,
                p1 <= self.current,
                self.col == c1 + (self.current - p1),
                alphanumeric_end(s, self.current as int) == alphanumeric_end(s, p1),
            decreases s.len() - self.current,
        {
            self.advance();
        }
        let text = match string_from_utf8(&self.source[self.start..self.current]) {
            Some(t) => t,
            None => return false,
        };
        match keyword(&self.source[self.start..self.current]) {
            Some(token_type) => self.add_token(token_type),
            None => self.add_token_literal(TokenType::Identifier, Some(Literal::Identifier(text))),
        }
        true
    }

    /// The text of the current token.
    fn lexeme_text(&self) -> (r: String)
        requires
            self.inv(),
            valid_utf8(self.source@.subrange(self.start as int, self.current as int)),
        ensures
            r@ == decode_utf8(self.source@.subrange(self.start as int, self.current as int)),
    {
        match string_from_utf8(&self.source[self.start..self.current]) {
            Some(t) => t,
            None => {
                proof {
                    assert(false);
                }
                String::new()
            },
        }
    }

    fn add_token(&mut self, token_type: TokenType)
        requires
            old(self).inv(),
            valid_utf8(old(self).source@.subrange(old(self).start as int, old(self).current as int)),
        ensures
            final(self).inv(),
            final(self).source@ == old(self).source@,
            final(self).start == old(self).start,
            final(self).current == old(self).current,
            final(self).line == old(self).line,
            final(self).col == old(self).col,
            final(self).err == old(self).err,
            token_views(final(self).tokens@) == token_views(old(self).tokens@).push(
                spec_token(
                    old(self).source@,
                    token_type,
                    old(self).start as int,
                    old(self).current as int,
                    None,
                    old(self).line as int,
                    old(self).col as int,
                ),
            ),
    {
        self.add_token_literal(token_type, None)
    }

    fn add_token_literal(&mut self, token_type: TokenType, literal: Option<Literal>)
        requires
            old(self).inv(),
            valid_utf8(old(self).source@.subrange(old(self).start as int, old(self).current as int)),
        ensures
            final(self).inv(),
            final(self).source@ == old(self).source@,
            final(self).start == old(self).start,
            final(self).current == old(self).current,
            final(self).line == old(self).line,
            final(self).col == old(self).col,
            final(self).err == old(self).err,
            token_views(final(self).tokens@) == token_views(old(self).tokens@).push(
                spec_token(
                    old(self).source@,
                    token_type,
                    old(self).start as int,
                    old(self).current as int,
                    crate::token::literal_view_opt(literal),
                    old(self).line as int,
                    old(self).col as int,
                ),
            ),
    {
        let text = self.lexeme_text();
        let token = Token { ty: token_type, lexeme: text, literal, line: self.line, col: self.col };
        let ghost before = self.tokens@;
        self.tokens.push(token);
        proof {
            assert(token_views(self.tokens@) =~= token_views(before).push(token@));
        }
    }

    fn done(&self) -> (r: bool)
        ensures
            r == (self.err is Some || self.current >= self.source@.len()),
    {
        self.err.is_some() || self.is_at_end()
    }

    fn is_at_end(&self) -> (r: bool)
        ensures
            r == (self.current >= self.source@.len()),
    {
        self.current >= self.source.len()
    }

    fn is_digit(c: u8) -> (r: bool)
        ensures
            r == spec_is_digit(c),
    {
        '0' as u8 <= c && c <= '9' as u8
    }

    fn is_alpha(c: u8) -> (r: bool)
        ensures
            r == spec_is_alpha(c),
    {
        ('a' as u8 <= c && c <= 'z' as u8) || ('A' as u8 <= c && c <= 'Z' as u8) || c == 0xaa
            || c == 0xb5 || c == 0xba || (0xc0 <= c && c <= 0xd6) || (0xd8 <= c && c <= 0xf6)
            || 0xf8 <= c
    }

    fn is_alphanumeric(c: u8) -> (r: bool)
        ensures
            r == spec_is_alphanumeric(c),
    {
        Self::is_digit(c) || Self::is_alpha(c)
    }
}

fn single_char_type_exec(c: u8) -> (r: Option<TokenType>)
    ensures
        r == single_char_type(c),
{
    if c == '(' as u8 {
        Some(TokenType::LeftParen)
    } else if c == ')' as u8 {
        Some(TokenType::RightParen)
    } else if c == '{' as u8 {
        Some(TokenType::LeftBrace)
    } else if c == '}' as u8 {
        Some(TokenType::RightBrace)
    } else if c == ',' as u8 {
        Some(TokenType::Comma)
    } else if c == '.' as u8 {
        Some(TokenType::Dot)
    } else if c == '-' as u8 {
        Some(TokenType::Minus)
    } else if c == '+' as u8 {
        Some(TokenType::Plus)
    } else if c == ';' as u8 {
        Some(TokenType::Semicolon)
    } else if c == '*' as u8 {
        Some(TokenType::Star)
    } else {
        None
    }
}

fn equal_pair_types_exec(c: u8) -> (r: Option<(TokenType, TokenType)>)
    ensures
        r == equal_pair_types(c),
{
    if c == '!' as u8 {
        Some((TokenType::Bang, TokenType::BangEqual))
    } else if c == '=' as u8 {
        Some((TokenType::Equal, TokenType::EqualEqual))
    } else if c == '<' as u8 {
        Some((TokenType::Less, TokenType::LessEqual))
    } else if c == '>' as u8 {
        Some((TokenType::Greater, TokenType::GreaterEqual))
    } else {
        None
    }
}

} // verus!
