use crafting_interpreters::error::{Error, ErrorKind};
use crafting_interpreters::function::{Function, FunctionDef, FunctionKind};
use crafting_interpreters::parser::{parse, try_parse};
use crafting_interpreters::scanner::{scan_tokens, try_scan_tokens};
use crafting_interpreters::stmt::{duplicate_stmts, Program};
use crafting_interpreters::text::number_to_string;
use crafting_interpreters::token::{Literal, Token, TokenType};

fn tokens_of(src: &str) -> Vec<Token> {
    scan_tokens(src.to_string()).expect("scanning failed.")
}

fn printed(src: &str) -> String {
    parse(tokens_of(src)).expect("parsing failed.").to_string()
}

fn parse_errors(src: &str) -> Vec<String> {
    match parse(tokens_of(src)) {
        Ok(p) => panic!("parsed: {}", p.to_string()),
        Err(e) => e.0.iter().map(Error::render).collect(),
    }
}

fn scan_error(src: &str) -> String {
    match scan_tokens(src.to_string()) {
        Ok(_) => panic!("scanned"),
        Err(e) => e.render(),
    }
}

fn token(ty: TokenType, lexeme: &str, line: usize, col: i64) -> Token {
    Token { ty, lexeme: lexeme.to_string(), literal: None, line, col }
}

#[test]
fn scan_ends_with_one_end_of_file_token() {
    let tokens = tokens_of("var a = 1; // done");
    let kinds: Vec<TokenType> = tokens.iter().map(|t| t.ty).collect();
    assert_eq!(
        kinds,
        vec![
            TokenType::Var,
            TokenType::Identifier,
            TokenType::Equal,
            TokenType::Number,
            TokenType::Semicolon,
            TokenType::EOF
        ]
    );
    assert_eq!(tokens.iter().filter(|t| t.ty == TokenType::EOF).count(), 1);
}

#[test]
fn scan_empty_source() {
    let tokens = tokens_of("");
    assert_eq!(tokens.len(), 1);
    assert_eq!(tokens[0].ty, TokenType::EOF);
    assert_eq!(tokens[0].lexeme, "");
}

#[test]
fn scan_two_character_operators() {
    let kinds: Vec<TokenType> = tokens_of("!= == <= >= ! = < > /").iter().map(|t| t.ty).collect();
    assert_eq!(
        kinds,
        vec![
            TokenType::BangEqual,
            TokenType::EqualEqual,
            TokenType::LessEqual,
            TokenType::GreaterEqual,
            TokenType::Bang,
            TokenType::Equal,
            TokenType::Less,
            TokenType::Greater,
            TokenType::Slash,
            TokenType::EOF
        ]
    );
}

#[test]
fn scan_literals_and_lexemes() {
    let tokens = tokens_of("12.50 \"hi there\" name while");
    assert_eq!(tokens[0].ty, TokenType::Number);
    assert_eq!(tokens[0].lexeme, "12.50");
    assert!(matches!(&tokens[0].literal, Some(Literal::Number(s)) if s == "12.50"));
    assert_eq!(tokens[1].ty, TokenType::Str);
    assert_eq!(tokens[1].lexeme, "\"hi there\"");
    assert!(matches!(&tokens[1].literal, Some(Literal::Str(s)) if s == "hi there"));
    assert_eq!(tokens[2].ty, TokenType::Identifier);
    assert!(matches!(&tokens[2].literal, Some(Literal::Identifier(s)) if s == "name"));
    assert_eq!(tokens[3].ty, TokenType::While);
    assert!(tokens[3].literal.is_none());
}

#[test]
fn scan_lines_and_columns() {
    let tokens = tokens_of("a\n  bc");
    assert_eq!((tokens[0].line, tokens[0].col), (1, 0));
    assert_eq!((tokens[1].line, tokens[1].col), (2, 3));
}

#[test]
fn scan_nested_block_comment() {
    let kinds: Vec<TokenType> = tokens_of("1 /* a /* b */ c */ 2").iter().map(|t| t.ty).collect();
    assert_eq!(kinds, vec![TokenType::Number, TokenType::Number, TokenType::EOF]);
}

#[test]
fn scan_unterminated_string() {
    let msg = scan_error("\"abc");
    assert!(msg.ends_with("Error: unterminated string."), "{msg}");
}

#[test]
fn scan_unterminated_comment() {
    let msg = scan_error("/* abc");
    assert!(msg.ends_with("Error: unterminated comment."), "{msg}");
}

#[test]
fn scan_unexpected_character() {
    assert_eq!(scan_error("@"), "[line 1:0] Error: scanner can't handle @");
}

#[test]
fn scan_non_ascii_letters_in_strings_and_comments() {
    let tokens = tokens_of("\"café\" // é");
    assert!(matches!(&tokens[0].literal, Some(Literal::Str(s)) if s == "café"));
    assert_eq!(tokens.len(), 2);
}

#[test]
fn scan_identifier_that_is_not_text() {
    assert!(try_scan_tokens("é".to_string()).is_none());
    assert!(try_scan_tokens("ab".to_string()).is_some());
}

#[test]
fn error_texts() {
    let semi = token(TokenType::Semicolon, ";", 2, 7);
    assert_eq!(Error::scanner("oops".to_string(), 3, 4).render(), "[line 3:4] Error: oops");
    assert_eq!(
        Error::wrong_token(TokenType::Identifier, &semi).render(),
        "[line 2:7] Error: Wrong token. expected: Identifier, found: ;"
    );
    assert_eq!(
        Error::missing_expression(&semi, "Expected primary expression.".to_string()).render(),
        "[line 2:7] Error: Expected primary expression."
    );
    assert_eq!(
        Error::runtime(&semi, "Operands must be numbers.".to_string()).render(),
        "[line 2:7] Error: Operands must be numbers."
    );
    assert_eq!(
        Error::invalid_assignment(&semi).render(),
        "[line 2:7] Error: Invalid assignment target."
    );
    assert_eq!(
        Error::too_many_arguments(&semi).render(),
        "[line 2:7] Error: Can't have more than 255 arguments."
    );
    assert_eq!(Error::scanner("x".to_string(), 1, -1).render(), "[line 1:-1] Error: x");
}

#[test]
fn error_fields() {
    let semi = token(TokenType::Semicolon, ";", 2, 7);
    let e = Error::wrong_token(TokenType::RightParen, &semi);
    assert!(matches!(
        e.kind,
        ErrorKind::WrongToken { expected: TokenType::RightParen, found: TokenType::Semicolon }
    ));
    assert_eq!((e.line, e.col), (2, 7));
}

#[test]
fn parse_missing_variable_name() {
    assert_eq!(
        parse_errors("var;"),
        vec!["[line 1:3] Error: Wrong token. expected: Identifier, found: ;".to_string()]
    );
}

#[test]
fn parse_reports_every_failed_declaration() {
    let errs = parse_errors("var; print 1; 1 = 2; print 3;");
    assert_eq!(
        errs,
        vec![
            "[line 1:3] Error: Wrong token. expected: Identifier, found: ;".to_string(),
            "[line 1:19] Error: Invalid assignment target.".to_string()
        ]
    );
}

#[test]
fn parse_missing_expression() {
    assert_eq!(parse_errors("print;"), vec!["[line 1:5] Error: Expected primary expression.".to_string()]);
}

#[test]
fn parse_for_without_any_clause() {
    assert_eq!(printed("for (;;) print 1;"), "(while true (print 1))");
    assert_eq!(printed("for (var i = 0;;) print i;"), "(block (var i 0)(while true (print Identifier(\"i\"))))");
}

#[test]
fn parse_too_many_arguments() {
    let src = format!("f({}0);", "0, ".repeat(255));
    let errs = parse_errors(&src);
    assert_eq!(errs.len(), 1);
    assert!(errs[0].ends_with("Error: Can't have more than 255 arguments."), "{}", errs[0]);
}

#[test]
fn parse_for_without_initializer_or_increment() {
    assert_eq!(
        printed("for (; i < 3;) print i;"),
        "(while (< Identifier(\"i\") 3) (print Identifier(\"i\")))"
    );
}

#[test]
fn parse_for_with_expression_initializer() {
    assert_eq!(
        printed("for (i = 0; i < 3;) print i;"),
        "(block (expr (= Identifier(\"i\") 0))(while (< Identifier(\"i\") 3) (print Identifier(\"i\"))))"
    );
}

#[test]
fn parse_precedence_and_associativity() {
    assert_eq!(printed("1 - 2 - 3;"), "(expr (- (- 1 2) 3))");
    assert_eq!(printed("1 + 2 * 3;"), "(expr (+ 1 (* 2 3)))");
    assert_eq!(printed("!-1;"), "(expr (! (- 1)))");
    assert_eq!(printed("a = b = 1;"), "(expr (= Identifier(\"a\") (= Identifier(\"b\") 1)))");
    assert_eq!(printed("1 or 2 and 3;"), "(expr (or 1 (and 2 3)))");
    assert_eq!(printed("1 >= 2 != 3 <= 4;"), "(expr (!= (>= 1 2) (<= 3 4)))");
}

#[test]
fn parse_calls() {
    assert_eq!(printed("f();"), "(expr (Identifier(\"f\")))");
    assert_eq!(printed("f(1)(2);"), "(expr ((Identifier(\"f\") 1) 2))");
}

#[test]
fn parse_functions_and_returns() {
    assert_eq!(printed("fun f() { return; }"), "(fun f () (return))");
    assert_eq!(
        printed("fun f(a, b) { return a; }"),
        "(fun f (a b) (return Identifier(\"a\")))"
    );
    assert_eq!(printed("if (1) 2;"), "(if 1 (expr 2))");
}

#[test]
fn print_literals() {
    assert_eq!(printed("007.50;"), "(expr 7.5)");
    assert_eq!(printed("1.0;"), "(expr 1)");
    assert_eq!(printed("0.000;"), "(expr 0)");
    assert_eq!(printed("\"hi\";"), "(expr hi)");
    assert_eq!(printed("nil; true;"), "(expr nil)(expr true)");
}

#[test]
fn number_text() {
    assert_eq!(number_to_string("0"), "0");
    assert_eq!(number_to_string("00"), "0");
    assert_eq!(number_to_string("120"), "120");
    assert_eq!(number_to_string("3.14"), "3.14");
    assert_eq!(number_to_string("3.140"), "3.14");
    assert_eq!(number_to_string("05.0"), "5");
    assert_eq!(number_to_string("0.5"), "0.5");
}

#[test]
fn print_program_statement_by_statement() {
    let program = parse(tokens_of("var a = 1; print a; { a = 2; }")).unwrap();
    let each: String = program.0.iter().map(|s| s.to_string()).collect();
    assert_eq!(program.to_string(), each);
    assert_eq!(each, "(var a 1)(print Identifier(\"a\"))(block (expr (= Identifier(\"a\") 2)))");
}

#[test]
fn duplicate_keeps_the_tree() {
    let src = "fun f(x) { while (x < 3) { x = x + 1; if (x) break; } return f(x, 2); } f(1);";
    let program = parse(tokens_of(src)).unwrap();
    let copy = Program(duplicate_stmts(&program.0));
    assert_eq!(copy.to_string(), program.to_string());
}

#[test]
fn function_arity() {
    let def = FunctionDef {
        params: vec![token(TokenType::Identifier, "a", 1, 0), token(TokenType::Identifier, "b", 1, 3)],
        statements: vec![],
    };
    assert_eq!(def.arity(), 2);
    let fun = Function { name: Some("f".to_string()), def: std::rc::Rc::new(def) };
    assert_eq!(fun.arity(), 2);
    assert!(matches!(FunctionKind::Method.clone(), FunctionKind::Method));
}

#[test]
fn scan_line_comment_runs_to_the_end_of_the_source() {
    let kinds: Vec<TokenType> = tokens_of("1; // note\n2;").iter().map(|t| t.ty).collect();
    assert_eq!(kinds, vec![TokenType::Number, TokenType::Semicolon, TokenType::EOF]);
    let kinds: Vec<TokenType> = tokens_of("1; //\n2;").iter().map(|t| t.ty).collect();
    assert_eq!(
        kinds,
        vec![
            TokenType::Number,
            TokenType::Semicolon,
            TokenType::Number,
            TokenType::Semicolon,
            TokenType::EOF
        ]
    );
}

#[test]
fn try_scan_agrees_with_scan() {
    let a = try_scan_tokens("print 1 + x;".to_string()).unwrap().unwrap();
    let b = tokens_of("print 1 + x;");
    let texts = |ts: &Vec<Token>| ts.iter().map(Token::text).collect::<Vec<String>>();
    assert_eq!(texts(&a), texts(&b));
    assert!(matches!(try_scan_tokens("\"open".to_string()), Some(Err(_))));
}

#[test]
fn token_texts() {
    let toks = tokens_of("x \"s\" 7 + and");
    let texts: Vec<String> = toks.iter().map(Token::text).collect();
    assert_eq!(texts, vec!["Identifier(\"x\")", "Str(\"s\")", "Num(7)", "+", "and", "EOF"]);
}

#[test]
fn try_parse_stops_where_parsing_never_ends() {
    assert!(try_parse(tokens_of("(")).is_none());
    assert!(try_parse(tokens_of("print 1 + (")).is_none());
    assert!(matches!(try_parse(tokens_of("print 1;")), Some(Ok(_))));
    assert!(matches!(try_parse(tokens_of("print;")), Some(Err(_))));
}

#[test]
fn parse_only_the_end_of_file_token() {
    let program = parse(tokens_of("")).unwrap();
    assert_eq!(program.0.len(), 0);
    assert_eq!(program.to_string(), "");
}

#[test]
fn clone_keeps_the_tree() {
    let program = parse(tokens_of("fun f(x) { return x + 1; } print f(2);")).unwrap();
    let copy = program.clone();
    assert_eq!(copy.to_string(), program.to_string());
    assert_eq!(program.0[1].clone().to_string(), "(print (Identifier(\"f\") 2))");
}
