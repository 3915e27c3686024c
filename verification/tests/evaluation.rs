use clisp::basic::{
    perform_add, perform_div, perform_equals, perform_grater_then, perform_less_then,
    perform_mul, perform_not_equals, perform_print, perform_println, perform_println_string,
    perform_sub, unescape,
};
use clisp::coerce::{
    convert_to_boolean_array, convert_to_float_array, convert_to_int_array,
    convert_to_string_array, get_args_unified_type, Type,
};
use clisp::eval::run;
use clisp::value::LispValue;

fn num(n: i64) -> LispValue {
    LispValue::Int(n)
}

fn float(t: &str) -> LispValue {
    LispValue::Float(t.to_string())
}

fn output(code: &str) -> String {
    run(code).unwrap()
}

#[test]
fn program_output() {
    assert_eq!(output("(defvar x 5)(defvar y (+ x 3))(print y)"), "8 ".to_string());
}

#[test]
fn arithmetic_programs() {
    assert_eq!(output("(print (+ 3 4 5))"), "12 ".to_string());
    assert_eq!(output("(print (- 10 1 2))"), "7 ".to_string());
    assert_eq!(output("(print (* 2 3 4))"), "24 ".to_string());
    assert_eq!(output("(print (/ 20 2 5))"), "2 ".to_string());
    assert_eq!(output("(print (+ 3 (- 6 5)))"), "4 ".to_string());
    assert_eq!(output("(print (+ -2 3))"), "1 ".to_string());
    // Truncating division, as the host integers divide.
    assert_eq!(output("(print (/ -7 2))"), "-3 ".to_string());
}

#[test]
fn spelled_aliases_name_the_matching_operators() {
    assert_eq!(output("(print (add 3 4))"), "7 ".to_string());
    assert_eq!(output("(print (sub 9 4))"), "5 ".to_string());
    assert_eq!(output("(print (mul 2 3))"), "6 ".to_string());
    assert_eq!(output("(print (div 10 2))"), "5 ".to_string());
}

#[test]
fn float_arithmetic_uses_decimal_texts() {
    assert_eq!(output("(print (+ 3.0 4))"), "7.0 ".to_string());
    assert_eq!(output("(print (- 6 5.0))"), "1.0 ".to_string());
    assert_eq!(output("(print (* 1.5 2))"), "3.0 ".to_string());
    assert_eq!(output("(print (/ 5.0 2))"), "2.5 ".to_string());
}

#[test]
fn division_by_zero_and_overflow_are_silent() {
    assert_eq!(output("(print (/ 1 0))"), "".to_string());
    assert_eq!(output("(print (+ 9223372036854775807 1))"), "".to_string());
    assert_eq!(output("(print (/ 1.5 0.0))"), "".to_string());
}

#[test]
fn distinctness_is_set_semantics_and_chains_are_ordered() {
    // Pairwise distinct but unordered: `/=` sees a set, `<` and `>` see a
    // sequence.
    assert_eq!(output("(print (/= 2 1 3))"), "true ".to_string());
    assert_eq!(output("(print (< 2 1 3))"), "false ".to_string());
    assert_eq!(output("(print (> 2 1 3))"), "false ".to_string());
    assert_eq!(output("(print (< 1 2 3))"), "true ".to_string());
    assert_eq!(output("(print (> 3 2 1))"), "true ".to_string());
    assert_eq!(output("(print (/= 1 2 1))"), "false ".to_string());
    assert_eq!(output("(print (= 2 2 2))"), "true ".to_string());
    assert_eq!(output("(print (= 2 2 3))"), "false ".to_string());
    assert_eq!(output("(print (>= 3 3 2))"), "false ".to_string());
    assert_eq!(output("(print (>= 3 3 3))"), "true ".to_string());
    assert_eq!(output("(print (<= 1 1 1))"), "true ".to_string());
}

#[test]
fn float_comparisons() {
    assert_eq!(output("(print (= 3.0 3.00))"), "true ".to_string());
    assert_eq!(output("(print (> 5.5 2.2))"), "true ".to_string());
    assert_eq!(output("(print (< 5.5 2.2))"), "false ".to_string());
    assert_eq!(output("(print (/= 3.0 4.0 5.0))"), "true ".to_string());
    assert_eq!(output("(print (/= 3.0 4.0 3.00))"), "false ".to_string());
}

#[test]
fn logical_operations() {
    assert_eq!(output("(print (and true true false))"), "false ".to_string());
    assert_eq!(output("(print (and true true))"), "true ".to_string());
    assert_eq!(output("(print (or false true))"), "true ".to_string());
    assert_eq!(output("(print (or false false))"), "false ".to_string());
    assert_eq!(output("(print (not false))"), "true ".to_string());
    assert_eq!(output("(print (not true))"), "false ".to_string());
    // `not` takes exactly one argument.
    assert_eq!(output("(print (not true false))"), "".to_string());
}

#[test]
fn printing_strings_rewrites_escapes() {
    assert_eq!(output("(print \"a\\nb\")"), "a\nb".to_string());
    assert_eq!(output("(print \"x\" \"y\")"), "xy".to_string());
    // A string anywhere makes the whole list print as text, unseparated.
    assert_eq!(output("(print \"n=\" 5)"), "n=5".to_string());
}

#[test]
fn custom_functions() {
    assert_eq!(
        output("(defun square (n) (* n n))(print (square 4))"),
        "16 ".to_string()
    );
    assert_eq!(
        output("(defun plus (a b) (+ a b))(print (plus 2 (plus 3 4)))"),
        "9 ".to_string()
    );
    // Arity mismatch: the invocation is a silent no-op.
    assert_eq!(
        output("(defun square (n) (* n n))(print (square 4 5))"),
        "".to_string()
    );
}

#[test]
fn child_scope_is_discarded_after_a_call() {
    // `z` is bound inside the function body; after the call returns it is
    // unreachable, so the final print produces nothing.
    assert_eq!(
        output("(defun f (n) (defvar z n) (print z))(f 7)(print z)"),
        "7 ".to_string()
    );
    // A formal parameter is equally unreachable afterwards.
    assert_eq!(
        output("(defun f (n) (print n))(f 3)(print n)"),
        "3 ".to_string()
    );
}

#[test]
fn defvar_copies_an_existing_binding() {
    assert_eq!(
        output("(defvar x 5)(defvar y x)(print y)"),
        "5 ".to_string()
    );
    // Copying an unbound name binds nothing.
    assert_eq!(output("(defvar y q)(print y)"), "".to_string());
}

#[test]
fn unbound_names_and_unknown_functions_are_silent() {
    assert_eq!(output("(frobnicate 1 2)(print 3)"), "3 ".to_string());
    assert_eq!(output("(print q)"), "".to_string());
}

#[test]
fn unbounded_recursion_is_cut_by_the_depth_guard() {
    assert_eq!(
        output("(defun f (n) (f n))(f 1)(print 2)"),
        "2 ".to_string()
    );
}

#[test]
fn no_result_arguments_are_removed_from_the_list() {
    // The inner call yields nothing, so addition sees only the integers.
    assert_eq!(output("(print (+ 1 (foo) 2))"), "3 ".to_string());
}

#[test]
fn unified_type_of_argument_lists() {
    assert_eq!(get_args_unified_type(&vec![num(1), num(2)]), Type::Int);
    assert_eq!(get_args_unified_type(&vec![num(1), float("2.0")]), Type::Float);
    assert_eq!(get_args_unified_type(&vec![float("2.0"), num(1)]), Type::Float);
    assert_eq!(
        get_args_unified_type(&vec![num(1), LispValue::Str("s".to_string())]),
        Type::Str
    );
    assert_eq!(
        get_args_unified_type(&vec![
            LispValue::Boolean(true),
            LispValue::Boolean(false),
        ]),
        Type::Boolean
    );
    assert_eq!(
        get_args_unified_type(&vec![LispValue::Boolean(true), num(1)]),
        Type::Str
    );
    assert_eq!(get_args_unified_type(&Vec::new()), Type::Unknown);
    // Names and calls pass the accumulator through.
    assert_eq!(
        get_args_unified_type(&vec![num(1), LispValue::Name("x".to_string())]),
        Type::Int
    );
}

#[test]
fn coercions_are_lossy_and_total() {
    let values = vec![num(3), float("2.5"), LispValue::Name("x".to_string())];
    assert_eq!(convert_to_int_array(values), vec![3i64]);

    let values = vec![num(3), float("2.5"), LispValue::Name("x".to_string())];
    assert_eq!(
        convert_to_float_array(values),
        vec!["3".to_string(), "2.5".to_string()]
    );

    let values = vec![LispValue::Boolean(true), num(1)];
    assert_eq!(convert_to_boolean_array(values), vec![true]);

    let values = vec![
        num(3),
        float("2.5"),
        LispValue::Boolean(false),
        LispValue::Str("s".to_string()),
        LispValue::Name("x".to_string()),
    ];
    assert_eq!(
        convert_to_string_array(values),
        vec![
            "3".to_string(),
            "2.5".to_string(),
            "false".to_string(),
            "s".to_string(),
        ]
    );
}

#[test]
fn integer_folds_and_chains() {
    assert_eq!(perform_add(&vec![1, 2, 3]), Some(6));
    assert_eq!(perform_sub(&vec![10, 1, 2]), Some(7));
    assert_eq!(perform_mul(&vec![2, 3, 4]), Some(24));
    assert_eq!(perform_div(&vec![20, 2, 5]), Some(2));
    assert_eq!(perform_add(&Vec::new()), Some(0));
    assert_eq!(perform_div(&vec![1, 0]), None);
    assert_eq!(perform_add(&vec![i64::MAX, 1]), None);

    assert!(perform_grater_then(&vec![3, 2, 1]));
    assert!(!perform_grater_then(&vec![3, 3, 1]));
    assert!(!perform_grater_then(&Vec::new()));
    assert!(perform_less_then(&vec![1, 2, 3]));
    assert!(!perform_less_then(&vec![2, 1, 3]));
    assert!(perform_equals(&vec![2, 2, 2]));
    assert!(!perform_equals(&Vec::new()));
    assert!(perform_not_equals(&vec![2, 1, 3]));
    assert!(!perform_not_equals(&vec![2, 1, 2]));
}

#[test]
fn parse_errors_are_surfaced_by_run() {
    let err = run("(+ 1 2").unwrap_err();
    assert_eq!(err.position, 0);
    let err = run("}").unwrap_err();
    assert_eq!(err.position, 0);
    assert_eq!(err.description, "Unexpected symbol: }".to_string());
}

#[test]
fn extreme_integers_render_exactly() {
    assert_eq!(
        output("(print -9223372036854775808 9223372036854775807)"),
        "-9223372036854775808 9223372036854775807 ".to_string()
    );
}

#[test]
fn line_oriented_renderers() {
    let texts = vec!["8".to_string(), "9".to_string()];
    assert_eq!(perform_print(&texts), "8 9 ".to_string());
    assert_eq!(perform_println(&texts), "8 \n9 \n".to_string());

    let strings = vec!["a\\nb".to_string(), "c".to_string()];
    assert_eq!(perform_println_string(&strings), "a\nbc\n".to_string());

    assert_eq!(unescape(&"x\\ny\\n".to_string()), "x\ny\n".to_string());
    assert_eq!(unescape(&"plain".to_string()), "plain".to_string());
}

#[test]
fn shadowing_inside_a_function_wins_over_the_enclosing_binding() {
    assert_eq!(
        output("(defvar n 1)(defun f (n) (print n))(f 2)(print n)"),
        "2 1 ".to_string()
    );
}
