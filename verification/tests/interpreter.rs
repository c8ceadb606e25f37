use dex::ast::{BinaryOp, Span, UnaryOp};
use dex::interpreter::{
    binary_bools, binary_ints, binary_mismatch_message, binary_strs, int_op_allowed, unary_bool,
    unary_int, unary_mismatch_message, Interpreter, Scalar,
};

fn name(s: &str) -> String {
    s.to_string()
}

#[test]
fn new_interpreter_has_one_empty_scope() {
    let interp: Interpreter<i64> = Interpreter::empty();
    assert_eq!(interp.depth(), 1);
    assert_eq!(interp.lookup(&name("x")), None);
}

#[test]
fn define_then_lookup_gives_the_value() {
    let mut interp: Interpreter<i64> = Interpreter::empty();
    interp.define(name("x"), 10);
    assert_eq!(interp.lookup(&name("x")), Some(&10));
}

#[test]
fn define_keeps_other_names() {
    let mut interp: Interpreter<i64> = Interpreter::empty();
    interp.define(name("x"), 1);
    interp.define(name("y"), 2);
    assert_eq!(interp.lookup(&name("x")), Some(&1));
    assert_eq!(interp.lookup(&name("y")), Some(&2));
    assert_eq!(interp.lookup(&name("z")), None);
}

#[test]
fn define_again_replaces_in_the_same_scope() {
    let mut interp: Interpreter<i64> = Interpreter::empty();
    interp.define(name("x"), 1);
    interp.define(name("x"), 5);
    assert_eq!(interp.lookup(&name("x")), Some(&5));
    interp.push_scope();
    interp.pop_scope();
    assert_eq!(interp.lookup(&name("x")), Some(&5));
}

#[test]
fn inner_scope_shadows_and_pop_restores() {
    let mut interp: Interpreter<i64> = Interpreter::empty();
    interp.define(name("x"), 1);
    interp.push_scope();
    assert_eq!(interp.depth(), 2);
    assert_eq!(interp.lookup(&name("x")), Some(&1));
    interp.define(name("x"), 2);
    interp.define(name("y"), 3);
    assert_eq!(interp.lookup(&name("x")), Some(&2));
    interp.pop_scope();
    assert_eq!(interp.depth(), 1);
    assert_eq!(interp.lookup(&name("x")), Some(&1));
    assert_eq!(interp.lookup(&name("y")), None);
}

#[test]
fn assign_updates_the_innermost_binding() {
    let mut interp: Interpreter<i64> = Interpreter::empty();
    interp.define(name("x"), 1);
    interp.push_scope();
    interp.define(name("x"), 2);
    assert!(interp.assign(&name("x"), 20));
    assert_eq!(interp.lookup(&name("x")), Some(&20));
    interp.pop_scope();
    assert_eq!(interp.lookup(&name("x")), Some(&1));
}

#[test]
fn assign_reaches_outer_scopes() {
    let mut interp: Interpreter<i64> = Interpreter::empty();
    interp.define(name("total"), 0);
    interp.push_scope();
    interp.define(name("n"), 4);
    assert!(interp.assign(&name("total"), 4));
    interp.pop_scope();
    assert_eq!(interp.lookup(&name("total")), Some(&4));
    assert_eq!(interp.depth(), 1);
}

#[test]
fn assign_to_an_unbound_name_fails_and_changes_nothing() {
    let mut interp: Interpreter<i64> = Interpreter::empty();
    interp.define(name("x"), 1);
    assert!(!interp.assign(&name("y"), 2));
    assert_eq!(interp.lookup(&name("y")), None);
    assert_eq!(interp.lookup(&name("x")), Some(&1));
}

#[test]
fn error_carries_message_and_place() {
    let interp: Interpreter<i64> = Interpreter::empty();
    let e = interp.error("undefined variable 'q'", &Span { line: 3, column: 7 });
    assert_eq!(e.message(), "undefined variable 'q'");
    assert_eq!(e.line(), 3);
    assert_eq!(e.column(), 7);
}

#[test]
fn integer_arithmetic() {
    assert_eq!(binary_ints(BinaryOp::Add, 1, 2), Ok(Scalar::Int(3)));
    assert_eq!(binary_ints(BinaryOp::Minus, 1, 2), Ok(Scalar::Int(-1)));
    assert_eq!(binary_ints(BinaryOp::Multiply, -4, 6), Ok(Scalar::Int(-24)));
    assert_eq!(binary_ints(BinaryOp::Divide, 7, 2), Ok(Scalar::Int(3)));
    assert_eq!(binary_ints(BinaryOp::Divide, -7, 2), Ok(Scalar::Int(-3)));
    assert_eq!(binary_ints(BinaryOp::Divide, 7, -2), Ok(Scalar::Int(-3)));
    assert_eq!(binary_ints(BinaryOp::Divide, -7, -2), Ok(Scalar::Int(3)));
    assert_eq!(binary_ints(BinaryOp::Modulo, 7, 3), Ok(Scalar::Int(1)));
    assert_eq!(binary_ints(BinaryOp::Modulo, -7, 3), Ok(Scalar::Int(-1)));
    assert_eq!(binary_ints(BinaryOp::Modulo, 7, -3), Ok(Scalar::Int(1)));
    assert_eq!(binary_ints(BinaryOp::Modulo, 0, 5), Ok(Scalar::Int(0)));
}

#[test]
fn integer_division_by_zero_is_an_error() {
    assert!(int_op_allowed(BinaryOp::Divide, 5, 0));
    assert_eq!(binary_ints(BinaryOp::Divide, 5, 0), Err("division by zero".to_string()));
    assert_eq!(binary_ints(BinaryOp::Modulo, 5, 0), Err("division by zero".to_string()));
}

#[test]
fn integer_exponent() {
    assert_eq!(binary_ints(BinaryOp::Exponent, 2, 10), Ok(Scalar::Int(1024)));
    assert_eq!(binary_ints(BinaryOp::Exponent, 5, 0), Ok(Scalar::Int(1)));
    assert_eq!(binary_ints(BinaryOp::Exponent, 0, 0), Ok(Scalar::Int(1)));
    assert_eq!(binary_ints(BinaryOp::Exponent, 0, 3), Ok(Scalar::Int(0)));
    assert_eq!(binary_ints(BinaryOp::Exponent, -2, 3), Ok(Scalar::Int(-8)));
    assert_eq!(binary_ints(BinaryOp::Exponent, -2, 63), Ok(Scalar::Int(i64::MIN)));
    // The exponent is the low 32 bits of the right operand.
    assert_eq!(binary_ints(BinaryOp::Exponent, 1, -1), Ok(Scalar::Int(1)));
    assert_eq!(binary_ints(BinaryOp::Exponent, -1, -1), Ok(Scalar::Int(-1)));
    assert_eq!(binary_ints(BinaryOp::Exponent, -1, 4), Ok(Scalar::Int(1)));
    assert_eq!(binary_ints(BinaryOp::Exponent, 3, 4294967298), Ok(Scalar::Int(9)));
}

#[test]
fn integer_comparisons() {
    assert_eq!(binary_ints(BinaryOp::Equality, 3, 3), Ok(Scalar::Bool(true)));
    assert_eq!(binary_ints(BinaryOp::Nequality, 3, 3), Ok(Scalar::Bool(false)));
    assert_eq!(binary_ints(BinaryOp::Lesser, 2, 3), Ok(Scalar::Bool(true)));
    assert_eq!(binary_ints(BinaryOp::Greater, 2, 3), Ok(Scalar::Bool(false)));
    assert_eq!(binary_ints(BinaryOp::Leq, 3, 3), Ok(Scalar::Bool(true)));
    assert_eq!(binary_ints(BinaryOp::Geq, 2, 3), Ok(Scalar::Bool(false)));
}

#[test]
fn logical_operators_refuse_integers() {
    assert_eq!(binary_ints(BinaryOp::And, 1, 1), Err("type mismatch: &&".to_string()));
    assert_eq!(binary_ints(BinaryOp::Or, 0, 1), Err("type mismatch: ||".to_string()));
}

#[test]
fn integer_overflow_is_outside_the_defined_operands() {
    assert!(!int_op_allowed(BinaryOp::Add, i64::MAX, 1));
    assert!(int_op_allowed(BinaryOp::Add, i64::MAX, 0));
    assert!(!int_op_allowed(BinaryOp::Minus, i64::MIN, 1));
    assert!(!int_op_allowed(BinaryOp::Multiply, i64::MAX, 2));
    assert!(!int_op_allowed(BinaryOp::Divide, i64::MIN, -1));
    assert!(int_op_allowed(BinaryOp::Modulo, 5, 0));
    assert!(!int_op_allowed(BinaryOp::Modulo, i64::MIN, -1));
    assert!(!int_op_allowed(BinaryOp::Exponent, 2, 63));
    assert!(int_op_allowed(BinaryOp::Exponent, 2, 62));
    assert!(int_op_allowed(BinaryOp::Exponent, -2, 63));
    assert!(!int_op_allowed(BinaryOp::Exponent, 2, -1));
    assert!(int_op_allowed(BinaryOp::Equality, i64::MIN, i64::MAX));
}

#[test]
fn boolean_operators() {
    assert_eq!(binary_bools(BinaryOp::And, true, false), Ok(false));
    assert_eq!(binary_bools(BinaryOp::Or, true, false), Ok(true));
    assert_eq!(binary_bools(BinaryOp::Equality, false, false), Ok(true));
    assert_eq!(binary_bools(BinaryOp::Nequality, true, false), Err("type mismatch: !=".to_string()));
    assert_eq!(binary_bools(BinaryOp::Add, true, true), Err("type mismatch: +".to_string()));
    assert_eq!(binary_bools(BinaryOp::Lesser, true, true), Err("type mismatch: <".to_string()));
}

#[test]
fn string_operators() {
    assert_eq!(binary_strs(BinaryOp::Equality, &name("ab"), &name("ab")), Ok(true));
    assert_eq!(binary_strs(BinaryOp::Equality, &name("ab"), &name("ba")), Ok(false));
    assert_eq!(binary_strs(BinaryOp::Add, &name("a"), &name("b")), Err("type mismatch: +".to_string()));
    assert_eq!(binary_strs(BinaryOp::Nequality, &name("a"), &name("b")), Err("type mismatch: !=".to_string()));
}

#[test]
fn unary_operators() {
    assert_eq!(unary_int(UnaryOp::Neg, 5), Ok(-5));
    assert_eq!(unary_int(UnaryOp::Neg, i64::MAX), Ok(-i64::MAX));
    assert_eq!(unary_int(UnaryOp::Not, 5), Err("type mismatch: !".to_string()));
    assert_eq!(unary_bool(UnaryOp::Not, true), Ok(false));
    assert_eq!(unary_bool(UnaryOp::Neg, true), Err("type mismatch: -".to_string()));
}

#[test]
fn mismatch_messages() {
    assert_eq!(binary_mismatch_message(BinaryOp::Exponent), "type mismatch: ^");
    assert_eq!(binary_mismatch_message(BinaryOp::Geq), "type mismatch: >=");
    assert_eq!(binary_mismatch_message(BinaryOp::Leq), "type mismatch: <=");
    assert_eq!(binary_mismatch_message(BinaryOp::Modulo), "type mismatch: %");
    assert_eq!(unary_mismatch_message(UnaryOp::Neg), "type mismatch: -");
}
