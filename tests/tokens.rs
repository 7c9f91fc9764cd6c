use parenlang::tokens::Expr;
use parenlang::values::Value;

#[test]
fn test_add() {
    assert_eq!(Expr::token_tree("(+ 1 1)").exec().unwrap(), Value::Number(2));
}

#[test]
fn test_sub() {
    assert_eq!(Expr::token_tree("(- 1 1)").exec().unwrap(), Value::Number(0));
}

#[test]
fn test_mul() {
    assert_eq!(Expr::token_tree("(* 2 1)").exec().unwrap(), Value::Number(2));
}

#[test]
fn test_div() {
    assert_eq!(Expr::token_tree("(/ 4 2)").exec().unwrap(), Value::Number(2));
}

#[test]
fn test_equal_false() {
    assert_eq!(
        Expr::token_tree("(= 4 2)").exec().unwrap(),
        Value::Bool(false)
    );
}

#[test]
fn test_equal_true() {
    assert_eq!(
        Expr::token_tree("(= 4 4)").exec().unwrap(),
        Value::Bool(true)
    );
}

#[test]
fn test_not_false() {
    assert_eq!(
        Expr::token_tree("(! (= 4 4))").exec().unwrap(),
        Value::Bool(false)
    );
}

#[test]
fn test_not_true() {
    assert_eq!(
        Expr::token_tree("(! (= 4 2))").exec().unwrap(),
        Value::Bool(true)
    );
}

#[test]
fn test_if_true() {
    assert_eq!(
        Expr::token_tree("(if (= 2 2) 2 4)").exec().unwrap(),
        Value::Number(2)
    );
}

#[test]
fn test_if_false() {
    assert_eq!(
        Expr::token_tree("(if (= 1 2) 2 4)").exec().unwrap(),
        Value::Number(4)
    );
}

#[test]
fn test_let() {
    assert_eq!(
        Expr::token_tree("((let x 2) x)").exec().unwrap(),
        Value::Number(2)
    );
}

#[test]
fn test_for() {
    assert_eq!(
        Expr::token_tree("(for i 1 10 (i))").exec().unwrap(),
        Value::Empty
    );
}
