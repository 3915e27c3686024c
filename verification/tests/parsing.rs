use clisp::parser::parse;
use clisp::parser::parse_and_print;
use clisp::value::LispValue;

fn name(s: &str) -> LispValue {
    LispValue::Name(s.to_string())
}

fn num(n: i64) -> LispValue {
    LispValue::Int(n)
}

fn float(t: &str) -> LispValue {
    LispValue::Float(t.to_string())
}

fn text(s: &str) -> LispValue {
    LispValue::Str(s.to_string())
}

fn call(items: Vec<LispValue>) -> LispValue {
    LispValue::Function(items)
}

#[test]
fn function_call() {
    let result = parse("(+ 3 4 5)").unwrap();
    assert_eq!(result, vec![call(vec![name("+"), num(3), num(4), num(5)])]);

    let result = parse("(/= 3.0 4.0 5.0)").unwrap();
    assert_eq!(
        result,
        vec![call(vec![name("/="), float("3.0"), float("4.0"), float("5.0")])]
    );

    let result = parse("(print \"Test\")").unwrap();
    assert_eq!(result, vec![call(vec![name("print"), text("Test")])]);
}

#[test]
fn function_inside_function() {
    let result = parse("(+ 3 (- 6 5))").unwrap();
    assert_eq!(
        result,
        vec![call(vec![
            name("+"),
            num(3),
            call(vec![name("-"), num(6), num(5)]),
        ])]
    );

    let result = parse("(+ (- 6 5.0) (+ 3.0 4))").unwrap();
    assert_eq!(
        result,
        vec![call(vec![
            name("+"),
            call(vec![name("-"), num(6), float("5.0")]),
            call(vec![name("+"), float("3.0"), num(4)]),
        ])]
    );
}

#[test]
fn function_definition() {
    let result = parse(
        r#"(defun println ()
                                       (print " "))"#,
    )
    .unwrap();
    assert_eq!(
        result,
        vec![call(vec![
            name("defun"),
            name("println"),
            call(vec![]),
            call(vec![name("print"), text(" ")]),
        ])]
    );

    let result = parse(
        r#"(defun square (n)
                                       (print "squaring")
                                       (* n n))"#,
    )
    .unwrap();
    assert_eq!(
        result,
        vec![call(vec![
            name("defun"),
            name("square"),
            call(vec![name("n")]),
            call(vec![name("print"), text("squaring")]),
            call(vec![name("*"), name("n"), name("n")]),
        ])]
    );
}

#[test]
fn unterminated_call_is_positioned_at_the_opening_bracket() {
    let err = parse("(+ 1 2").unwrap_err();
    assert_eq!(err.position, 0);
    assert_eq!(err.description, "Function not closed".to_string());

    let err = parse("  (+ 1 2").unwrap_err();
    assert_eq!(err.position, 2);

    // The innermost unclosed bracket is reported.
    let err = parse("(+ 1 (,").unwrap_err();
    assert_eq!(err.position, 5);
}

#[test]
fn unexpected_symbol_is_a_positioned_error() {
    let err = parse("x").unwrap_err();
    assert_eq!(err.position, 0);
    assert_eq!(err.description, "Unexpected symbol: x".to_string());

    let err = parse("  7").unwrap_err();
    assert_eq!(err.position, 2);
}

#[test]
fn comments_and_whitespace_are_skipped() {
    let result = parse("; a comment\n(+ 1 2) ; tail\n").unwrap();
    assert_eq!(result, vec![call(vec![name("+"), num(1), num(2)])]);

    let result = parse("(+ 1 ; inside\n 2)").unwrap();
    assert_eq!(result, vec![call(vec![name("+"), num(1), num(2)])]);
}

#[test]
fn token_classification() {
    let result = parse("(f -5 +7 3.5 -0.25 true false xyz)").unwrap();
    assert_eq!(
        result,
        vec![call(vec![
            name("f"),
            num(-5),
            num(7),
            float("3.5"),
            float("-0.25"),
            LispValue::Boolean(true),
            LispValue::Boolean(false),
            name("xyz"),
        ])]
    );

    // Out of 64-bit range, and no decimal point: read as a bare name.
    let result = parse("(f 9223372036854775808)").unwrap();
    assert_eq!(result, vec![call(vec![name("f"), name("9223372036854775808")])]);

    let result = parse("(f 9223372036854775807 -9223372036854775808)").unwrap();
    assert_eq!(
        result,
        vec![call(vec![
            name("f"),
            num(i64::MAX),
            num(i64::MIN),
        ])]
    );
}

#[test]
fn strings_truncate_at_end_of_line_and_keep_escapes() {
    // An unterminated string is cut at the end of the line.
    let result = parse("(print \"ab\ncd)").unwrap();
    assert_eq!(
        result,
        vec![call(vec![name("print"), text("ab"), name("cd")])]
    );

    // A quote preceded by a backslash does not end the string.
    let result = parse("(print \"a\\\"b\")").unwrap();
    assert_eq!(result, vec![call(vec![name("print"), text("a\\\"b")])]);

    // The newline escape is kept literally by the parser.
    let result = parse("(print \"a\\nb\")").unwrap();
    assert_eq!(result, vec![call(vec![name("print"), text("a\\nb")])]);
}

#[test]
fn multiple_top_level_forms() {
    let result = parse("(a 1)(b 2)\n(c 3)").unwrap();
    assert_eq!(
        result,
        vec![
            call(vec![name("a"), num(1)]),
            call(vec![name("b"), num(2)]),
            call(vec![name("c"), num(3)]),
        ]
    );

    let result = parse("").unwrap();
    assert_eq!(result, Vec::<LispValue>::new());
}

#[test]
fn parse_and_print_renders_the_tree() {
    let report = parse_and_print("(+ 3 4.5 \"s\" true x (- 1))");
    assert_eq!(
        report,
        "( + int(3) float(4.5) \"s\" true x ( - int(1) ) )\n".to_string()
    );

    let report = parse_and_print("(+ 1");
    assert_eq!(report, "Function not closed\n".to_string());
}

#[test]
fn rendering_values() {
    let v = call(vec![name("print"), num(-7), float("2.5")]);
    assert_eq!(v.render(), "( print int(-7) float(2.5) )".to_string());
    assert_eq!(LispValue::Boolean(false).render(), "false".to_string());
    assert_eq!(text("hi").render(), "\"hi\"".to_string());
}
