use crafting_interpreters::parser::parse;
use crafting_interpreters::scanner::scan_tokens;

fn sexpr(src: &str) -> String {
    let tokens = scan_tokens(src.to_string()).expect("scanning failed.");
    let ast = parse(tokens).expect("parsing failed.");

    ast.to_string()
}

#[test]
fn parse_number() {
    assert_eq!(sexpr("123;"), "(expr 123)");
}

#[test]
fn parse_true() {
    assert_eq!(sexpr("true;"), "(expr true)");
}

#[test]
fn parse_false() {
    assert_eq!(sexpr("false;"), "(expr false)");
}

#[test]
fn parse_nil() {
    assert_eq!(sexpr("nil;"), "(expr nil)");
}

#[test]
fn parse_identifier() {
    assert_eq!(sexpr("identifier;"), "(expr Identifier(\"identifier\"))");
}

#[test]
fn parse_addition() {
    assert_eq!(sexpr("1 + 2;"), "(expr (+ 1 2))");
}

#[test]
fn parse_division() {
    assert_eq!(sexpr("1 / 2;"), "(expr (/ 1 2))");
}

#[test]
fn parse_comparison() {
    assert_eq!(sexpr("3 < 5;"), "(expr (< 3 5))");
}

#[test]
fn parse_equality() {
    assert_eq!(sexpr("100 == 100;"), "(expr (== 100 100))");
}

#[test]
fn parse_negation() {
    assert_eq!(sexpr("-32;"), "(expr (- 32))");
}

#[test]
fn parse_grouping() {
    assert_eq!(sexpr("1 / (2 + 3);"), "(expr (/ 1 (group (+ 2 3))))");
}

#[test]
fn parse_mult_addition_ordering() {
    assert_eq!(sexpr("1 / (2 + 3);"), "(expr (/ 1 (group (+ 2 3))))");
}

#[test]
fn parse_var_decl() {
    assert_eq!(sexpr("var a;"), "(var a)");
}

#[test]
fn parse_var_decl_assign() {
    assert_eq!(sexpr("var a = 5;"), "(var a 5)");
}

#[test]
fn parse_assignment_expr() {
    assert_eq!(sexpr("a = 5;"), "(expr (= Identifier(\"a\") 5))");
}

#[test]
fn parse_multiple_statements() {
    assert_eq!(sexpr("1; 2;"), "(expr 1)(expr 2)");
}

#[test]
fn parse_block_statement() {
    assert_eq!(sexpr("{ var a; a = 1; }"), r#"(block (var a)(expr (= Identifier("a") 1)))"#);
}

#[test]
fn parse_if_statement() {
    assert_eq!(sexpr("if (true) 1; else 0;"), "(if true (expr 1) (expr 0))");
}

#[test]
fn parse_logical_and() {
    assert_eq!(sexpr("1 and 2;"), "(expr (and 1 2))");
}

#[test]
fn parse_logical_or() {
    assert_eq!(sexpr("1 or 2;"), "(expr (or 1 2))");
}

#[test]
fn parse_while_statement() {
    assert_eq!(sexpr(r#"
var a = 1;
while (a < 10) {
    a = a + 1;
}
"#), "(var a 1)(while (< Identifier(\"a\") 10) (block (expr (= Identifier(\"a\") (+ Identifier(\"a\") 1)))))");
}

#[test]
fn parse_break_statement() {
    assert_eq!(sexpr(r#"
var a = 1;
while (a < 10) {
    a = a + 1;
    if (a > 5) break;
    a = 100;
}
"#), r#"(var a 1)(while (< Identifier("a") 10) (block (expr (= Identifier("a") (+ Identifier("a") 1)))(if (> Identifier("a") 5) (break))(expr (= Identifier("a") 100))))"#);
}

#[test]
fn parse_for_statement() {
    assert_eq!(sexpr(r#"
for (var i = 0; i < 10; i = i + 1) {
    print i;
}
"#), "(block (var i 0)(while (< Identifier(\"i\") 10) (block (block (print Identifier(\"i\")))(expr (= Identifier(\"i\") (+ Identifier(\"i\") 1))))))");
}

#[test]
fn parse_function_call() {
    assert_eq!(sexpr(r#"foo(x, y, z);"#), r#"(expr (Identifier("foo") Identifier("x") Identifier("y") Identifier("z")))"#);
}

#[test]
fn parse_function_declaration() {
    assert_eq!(sexpr(r#"
fun foo(x) {
    y = x + 10;
    print y;
}
"#), r#"(fun foo (x) (expr (= Identifier("y") (+ Identifier("x") 10)))(print Identifier("y")))"#);
}

#[test]
fn parse_valid_but_useless_function_expr() {
    assert_eq!(sexpr("fun (x) { print x; };"), "(expr (fn <anonymous>))");
}
