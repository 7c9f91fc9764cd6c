use parenlang::errors::{LangError, OOBError, TypeError, UndefVarError};
use parenlang::tokens::Expr;
use parenlang::types::Type;
use parenlang::values::Value;

fn run(src: &str) -> Result<Value, LangError> {
    Expr::token_tree(src).exec()
}

fn type_error(expected: Type, found: Type, src: &str) -> LangError {
    LangError::TypeError(TypeError {
        expected,
        found,
        expression: src.to_string(),
    })
}

#[test]
fn arithmetic_on_negative_and_large_numbers() {
    assert_eq!(run("(+ -5 3)"), Ok(Value::Number(-2)));
    assert_eq!(run("(- 3 10)"), Ok(Value::Number(-7)));
    assert_eq!(run("(* -4 6)"), Ok(Value::Number(-24)));
    assert_eq!(run("(+ 2147483646 1)"), Ok(Value::Number(2147483647)));
    assert_eq!(run("(* 65536 32767)"), Ok(Value::Number(2147418112)));
}

#[test]
fn arithmetic_overflow_is_an_error() {
    assert_eq!(
        run("(+ 2147483647 1)"),
        Err(LangError::Overflow("(+ 2147483647 1)".to_string()))
    );
    assert_eq!(
        run("(- -2147483648 1)"),
        Err(LangError::Overflow("(- -2147483648 1)".to_string()))
    );
    assert_eq!(
        run("(* 65536 65536)"),
        Err(LangError::Overflow("(* 65536 65536)".to_string()))
    );
    assert_eq!(
        run("(/ -2147483648 -1)"),
        Err(LangError::Overflow("(/ -2147483648 -1)".to_string()))
    );
}

#[test]
fn division_by_zero_is_an_error() {
    assert_eq!(
        run("(/ 1 0)"),
        Err(LangError::DivisionByZero("(/ 1 0)".to_string()))
    );
    assert_eq!(
        run("(% 5 0)"),
        Err(LangError::DivisionByZero("(% 5 0)".to_string()))
    );
}

#[test]
fn division_rounds_toward_zero() {
    assert_eq!(run("(/ 7 2)"), Ok(Value::Number(3)));
    assert_eq!(run("(/ -7 2)"), Ok(Value::Number(-3)));
    assert_eq!(run("(/ 7 -2)"), Ok(Value::Number(-3)));
    assert_eq!(run("(% 7 3)"), Ok(Value::Number(1)));
    assert_eq!(run("(% -7 3)"), Ok(Value::Number(-1)));
    assert_eq!(run("(% 7 -3)"), Ok(Value::Number(1)));
    assert_eq!(run("(% -2147483648 -1)"), Ok(Value::Number(0)));
}

#[test]
fn comparisons() {
    assert_eq!(run("(!= 4 2)"), Ok(Value::Bool(true)));
    assert_eq!(run("(!= 4 4)"), Ok(Value::Bool(false)));
    assert_eq!(run("(> 4 2)"), Ok(Value::Bool(true)));
    assert_eq!(run("(>= 2 2)"), Ok(Value::Bool(true)));
    assert_eq!(run("(< 4 2)"), Ok(Value::Bool(false)));
    assert_eq!(run("(<= 5 2)"), Ok(Value::Bool(false)));
}

#[test]
fn boolean_connectives() {
    assert_eq!(run("(&& (= 1 1) (= 2 3))"), Ok(Value::Bool(false)));
    assert_eq!(run("(|| (= 1 1) (= 2 3))"), Ok(Value::Bool(true)));
    assert_eq!(
        run("(&& 1 (= 1 1))"),
        Err(type_error(Type::Bool, Type::Number, "(&& 1 (= 1 1))"))
    );
}

#[test]
fn operand_type_errors() {
    assert_eq!(
        run("(+ 1 \"a\")"),
        Err(type_error(Type::Number, Type::Str, "(+ 1 \"a\")"))
    );
    assert_eq!(
        run("(+ y 1)"),
        Err(type_error(Type::Number, Type::Var, "(+ y 1)"))
    );
    assert_eq!(
        run("(! 3)"),
        Err(type_error(Type::Bool, Type::Number, "(! 3)"))
    );
    assert_eq!(
        run("(if 1 2 3)"),
        Err(type_error(Type::Bool, Type::Number, "(if 1 2 3)"))
    );
    assert_eq!(
        run("(let 1 2)"),
        Err(type_error(Type::Var, Type::Number, "(let 1 2)"))
    );
}

#[test]
fn set_of_unbound_variable_fails() {
    assert_eq!(
        run("(set y 1)"),
        Err(LangError::UndefVarError(UndefVarError {
            name: "y".to_string(),
            expression: "(set y 1)".to_string(),
        }))
    );
}

#[test]
fn set_of_bound_variable_overwrites() {
    assert_eq!(run("((let y 1) (set y 7) y)"), Ok(Value::Number(7)));
}

#[test]
fn unbound_variable_reads_as_its_name() {
    assert_eq!(run("x"), Ok(Value::Var("x".to_string())));
}

#[test]
fn variable_bound_to_a_name_follows_it() {
    assert_eq!(run("((let x y) (let y 3) x)"), Ok(Value::Number(3)));
    assert_eq!(run("((let x x) x)"), Err(LangError::LimitReached));
}

#[test]
fn for_loop_keeps_last_assignment_and_restores_variable() {
    assert_eq!(
        run("((let acc 0) (for i 1 10 (set acc i)) acc)"),
        Ok(Value::Number(9))
    );
    assert_eq!(
        run("((let acc 0) (for i 1 10 (set acc i)) i)"),
        Ok(Value::Var("i".to_string()))
    );
    assert_eq!(
        run("((let i 42) (for i 1 3 (let j i)) i)"),
        Ok(Value::Number(42))
    );
}

#[test]
fn for_loop_with_empty_range_does_nothing() {
    assert_eq!(
        run("((let acc 0) (for i 5 5 (set acc i)) acc)"),
        Ok(Value::Number(0))
    );
}

#[test]
fn for_loop_bounds_must_be_numbers() {
    assert_eq!(
        run("(for i \"a\" 3 i)"),
        Err(type_error(Type::Number, Type::Str, "(for i \"a\" 3 i)"))
    );
}

#[test]
fn while_loop_runs_until_condition_fails() {
    assert_eq!(
        run("((let i 0) (while (< i 5) (set i (+ i 1))) i)"),
        Ok(Value::Number(5))
    );
}

#[test]
fn functions_are_called_with_arguments() {
    assert_eq!(
        run("((def f (x) (+ x 1)) (call f 5))"),
        Ok(Value::Number(6))
    );
    assert_eq!(
        run("((def f (x) (+ x 1)) (call f (call f 1)))"),
        Ok(Value::Number(3))
    );
}

#[test]
fn functions_with_several_parameters() {
    assert_eq!(
        run("((def sub (a b) (- a b)) (call sub 10 4))"),
        Ok(Value::Number(6))
    );
    assert_eq!(
        run("((def sub a b (- a b)) (call sub 10 4))"),
        Ok(Value::Number(6))
    );
}

#[test]
fn recursive_function() {
    assert_eq!(
        run("((def fact (n) (if (<= n 1) 1 (* n (call fact (- n 1))))) (call fact 5))"),
        Ok(Value::Number(120))
    );
}

#[test]
fn call_restores_parameter_bindings() {
    assert_eq!(
        run("((let x 10) (def f (x) (+ x 1)) (call f 5) x)"),
        Ok(Value::Number(10))
    );
    assert_eq!(
        run("((def f (x) (+ x 1)) (call f 5) x)"),
        Ok(Value::Var("x".to_string()))
    );
}

#[test]
fn call_of_undefined_function_fails() {
    assert_eq!(
        run("(call g 1)"),
        Err(LangError::UndefVarError(UndefVarError {
            name: "g".to_string(),
            expression: "(call g 1)".to_string(),
        }))
    );
}

#[test]
fn sequence_value_is_last_element() {
    assert_eq!(run("(1 2 3)"), Ok(Value::Number(3)));
    assert_eq!(run("((1))"), Ok(Value::Number(1)));
}

#[test]
fn enum_members_are_bound_to_qualified_names() {
    assert_eq!(
        run("((enum Color Red Green) Color.Green)"),
        Ok(Value::EnumElement("Color.Green".to_string()))
    );
    assert_eq!(
        run("(enum Color 3)"),
        Err(type_error(Type::Str, Type::Number, "(enum Color 3)"))
    );
}

#[test]
fn malformed_forms_are_parse_errors() {
    assert_eq!(run("(+ 1)"), Err(LangError::ParseError("(+ 1)".to_string())));
    assert_eq!(run("()"), Err(LangError::ParseError("()".to_string())));
    assert_eq!(run("(+ 1 2"), Err(LangError::ParseError("(+ 1 2".to_string())));
    assert_eq!(run("\"abc"), Err(LangError::ParseError("\"abc".to_string())));
}

#[test]
fn empty_source_is_empty() {
    assert_eq!(run(""), Ok(Value::Empty));
    assert_eq!(run("   \n "), Ok(Value::Empty));
}

#[test]
fn whitespace_is_normalised() {
    assert_eq!(run("  (+\n 1\t\t2)  "), Ok(Value::Number(3)));
    assert_eq!(
        run("(+ 1 x)"),
        Err(type_error(Type::Number, Type::Var, "(+ 1 x)"))
    );
    assert_eq!(
        run("(+  1\n x)"),
        Err(type_error(Type::Number, Type::Var, "(+ 1 x)"))
    );
}

#[test]
fn print_writes_values() {
    let (r, out) = Expr::token_tree("(print 1 \"a b\" (= 1 1) (= 1 2) -5 x)").run(Vec::new());
    assert_eq!(r, Ok(Value::Empty));
    assert_eq!(out, "1a btruefalse-5");
}

#[test]
fn input_reads_lines_in_order() {
    let lines = vec!["41".to_string(), "  hello  \n".to_string()];
    let (r, _) = Expr::token_tree("(+ (input) 1)").run(lines.clone());
    assert_eq!(r, Ok(Value::Number(42)));
    let (r, _) = Expr::token_tree("((input) (input))").run(lines);
    assert_eq!(r, Ok(Value::Str("hello".to_string())));
    assert_eq!(run("(input)"), Err(LangError::InputExhausted));
}

#[test]
fn leaves_round_trip() {
    assert_eq!(Expr::token_tree("42"), Expr::Number(42));
    assert_eq!(Expr::token_tree("-2147483648"), Expr::Number(-2147483648));
    assert_eq!(Expr::token_tree("+7"), Expr::Number(7));
    assert_eq!(
        Expr::token_tree("\"hello world\""),
        Expr::Str("hello world".to_string())
    );
    assert_eq!(Expr::token_tree("\"\""), Expr::Str(String::new()));
    assert_eq!(Expr::token_tree("true"), Expr::Var("true".to_string()));
    assert_eq!(
        Expr::token_tree("2147483648"),
        Expr::Var("2147483648".to_string())
    );
}

#[test]
fn literals_evaluate_to_themselves() {
    assert_eq!(Expr::Number(5).exec(), Ok(Value::Number(5)));
    assert_eq!(Expr::Bool(true).exec(), Ok(Value::Bool(true)));
    assert_eq!(
        Expr::Str("s".to_string()).exec(),
        Ok(Value::Str("s".to_string()))
    );
}

#[test]
fn parser_builds_nested_forms() {
    let e = Expr::token_tree("(print \"a b\" 3)");
    assert_eq!(
        e,
        Expr::Print(vec![Expr::Str("a b".to_string()), Expr::Number(3)])
    );
}

#[test]
fn error_constructors_keep_their_fields() {
    assert_eq!(
        LangError::new_type_error(Type::Bool, Type::Str, "(! \"a\")".to_string()),
        type_error(Type::Bool, Type::Str, "(! \"a\")")
    );
    assert_eq!(
        LangError::new_undefined_variable_error("v".to_string(), "(set v 1)".to_string()),
        LangError::UndefVarError(UndefVarError::new("v".to_string(), "(set v 1)".to_string()))
    );
    let e = OOBError::new(3, 5, "(get v 5)".to_string());
    assert_eq!(e.len, 3);
    assert_eq!(e.index, 5);
    assert_eq!(e.expression, "(get v 5)");
    let t = TypeError::new(Type::Number, Type::Bool, "(+ 1 (= 1 1))".to_string());
    assert_eq!(t.found, Type::Bool);
}

#[test]
fn short_argument_list_leaves_trailing_parameters_alone() {
    assert_eq!(
        run("((let y 3) (def f (x y) (+ x y)) (call f 1))"),
        Ok(Value::Number(4))
    );
    assert_eq!(
        run("((def f (x) x) (call f 1 2))"),
        Ok(Value::Number(1))
    );
}

#[test]
fn redefinition_replaces_a_function() {
    assert_eq!(
        run("((def f (x) 1) (def f (x) 2) (call f 0))"),
        Ok(Value::Number(2))
    );
}

#[test]
fn parentheses_inside_strings_do_not_nest() {
    let (r, out) = Expr::token_tree("(print \"a(b\" 1)").run(Vec::new());
    assert_eq!(r, Ok(Value::Empty));
    assert_eq!(out, "a(b1");
}

#[test]
fn errors_inside_a_call_still_restore_parameters() {
    assert_eq!(
        run("((let x 10) (def f (x) (+ x \"s\")) (call f 5))"),
        Err(type_error(Type::Number, Type::Str, "(+ x \"s\")"))
    );
}

#[test]
fn call_looks_up_the_function_before_evaluating_arguments() {
    let (r, out) = Expr::token_tree("(call g (print 5))").run(Vec::new());
    assert_eq!(
        r,
        Err(LangError::UndefVarError(UndefVarError {
            name: "g".to_string(),
            expression: "(call g (print 5))".to_string(),
        }))
    );
    assert_eq!(out, "");
}

#[test]
fn unicode_whitespace_is_whitespace() {
    assert_eq!(Expr::token_tree("\u{c}"), Expr::Empty);
    assert_eq!(Expr::token_tree("\u{c}x"), Expr::Var("x".to_string()));
    assert_eq!(Expr::token_tree("\u{3000}x\u{a0}\u{2028}"), Expr::Var("x".to_string()));
    assert_eq!(run("(+\u{a0}1\u{b}\u{85}2)"), Ok(Value::Number(3)));
    let (r, _) = Expr::token_tree("(input)").run(vec!["\u{a0}7\u{2003}".to_string()]);
    assert_eq!(r, Ok(Value::Number(7)));
}

#[test]
fn division_programs() {
    assert_eq!(run("(/ 4 2)"), Ok(Value::Number(2)));
    assert_eq!(
        run("(% -9 0)"),
        Err(LangError::DivisionByZero("(% -9 0)".to_string()))
    );
}
