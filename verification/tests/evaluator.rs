use dex::ast::{BinaryOp, Decl, SpannedDecl, SpannedStmt};
use dex::evaluator::{copy_value, Stop, Value};
use dex::interpreter::{binary_mismatch_message, Interpreter};
use dex::lexer::Lexer;
use dex::parser::Parser;

type Val<'a> = Value<'a, f64>;

fn float_of(text: &String) -> f64 {
    text.parse::<f64>().unwrap()
}

fn float_op<'a>(op: BinaryOp, a: f64, b: f64) -> Result<Val<'a>, String> {
    match op {
        BinaryOp::Add => Ok(Value::Flt(a + b)),
        BinaryOp::Multiply => Ok(Value::Flt(a * b)),
        BinaryOp::Lesser => Ok(Value::Bool(a < b)),
        _ => Err(binary_mismatch_message(op)),
    }
}

fn float_neg(a: f64) -> f64 {
    -a
}

fn float_show(a: f64) -> String {
    a.to_string()
}

fn emit(text: String) {
    println!("{}", text);
}

fn program(src: &str) -> Vec<SpannedDecl> {
    let mut lexer = Lexer::new(src.to_string());
    let tokens = lexer.tokenize();
    let mut parser = Parser::new(tokens);
    assert!(parser.ready());
    let (decls, errors) = parser.parse();
    assert!(errors.is_empty(), "unexpected errors: {:?}", errors);
    decls
}

fn body(decls: &[SpannedDecl]) -> &Vec<SpannedStmt> {
    match &decls[0].node {
        Decl::Func(f) => &f.body,
        other => panic!("expected a function, got {:?}", other),
    }
}

fn run<'a>(env: &mut Interpreter<Val<'a>>, stmts: &'a Vec<SpannedStmt>) -> Result<Val<'a>, Stop> {
    env.eval_block(stmts, 1000, &float_of, &float_op, &float_neg, &float_show, &emit)
}

fn error_message(r: Result<Val<'_>, Stop>) -> (String, usize, usize) {
    match r {
        Err(Stop::Error(e)) => (e.message().clone(), e.line(), e.column()),
        other => panic!("expected a runtime error, got {:?}", other),
    }
}

#[test]
fn block_value_is_the_last_expression() {
    let decls = program("@() main -> int {\n x = 2\n y = x * 5\n y + 1\n}");
    let mut env: Interpreter<Val> = Interpreter::new();
    assert!(matches!(run(&mut env, body(&decls)), Ok(Value::Int(11))));
    assert_eq!(env.depth(), 1);
}

#[test]
fn empty_block_is_abyss() {
    let decls = program("@() main -> abyss {\n}");
    let mut env: Interpreter<Val> = Interpreter::new();
    assert!(matches!(run(&mut env, body(&decls)), Ok(Value::Abyss)));
}

#[test]
fn ints_and_floats_do_not_mix() {
    let decls = program("@() main -> int {\n 1 + 2.0\n}");
    let mut env: Interpreter<Val> = Interpreter::new();
    assert_eq!(error_message(run(&mut env, body(&decls))), ("type mismatch: +".to_string(), 2, 2));
}

#[test]
fn floats_go_through_the_supplied_operations() {
    let decls = program("@() main -> flt {\n -1.5 + 2.0 * 2.0\n}");
    let mut env: Interpreter<Val> = Interpreter::new();
    match run(&mut env, body(&decls)) {
        Ok(Value::Flt(x)) => assert_eq!(x, 2.5),
        other => panic!("expected a float, got {:?}", other),
    }
}

#[test]
fn undefined_variable_is_reported_where_it_is_used() {
    let decls = program("@() main -> int {\n x = 1\n x + nope\n}");
    let mut env: Interpreter<Val> = Interpreter::new();
    assert_eq!(error_message(run(&mut env, body(&decls))), ("undefined variable 'nope'".to_string(), 3, 6));
}

#[test]
fn if_takes_the_branch_of_its_condition() {
    let decls = program("@() main -> int {\n x = 7\n if x > 5 { 1 } else { 2 }\n}");
    let mut env: Interpreter<Val> = Interpreter::new();
    assert!(matches!(run(&mut env, body(&decls)), Ok(Value::Int(1))));
    let decls = program("@() main -> int {\n if 3 { 1 }\n}");
    let mut env: Interpreter<Val> = Interpreter::new();
    assert_eq!(error_message(run(&mut env, body(&decls))).0, "condition must be a boolean");
}

#[test]
fn if_without_else_on_false_is_abyss() {
    let decls = program("@() main -> int {\n if false { 1 }\n}");
    let mut env: Interpreter<Val> = Interpreter::new();
    assert!(matches!(run(&mut env, body(&decls)), Ok(Value::Abyss)));
}

#[test]
fn loop_runs_its_body_in_a_scope_per_element() {
    let decls = program("@() main -> abyss {\n I (n in [1, 2, 3]) -> { k = n }\n}");
    let mut env: Interpreter<Val> = Interpreter::new();
    assert!(matches!(run(&mut env, body(&decls)), Ok(Value::Abyss)));
    assert_eq!(env.depth(), 1);
    assert!(env.lookup(&"k".to_string()).is_none());
    assert!(env.lookup(&"n".to_string()).is_none());
    let decls = program("@() main -> abyss {\n I (n in 5) -> { n }\n}");
    let mut env: Interpreter<Val> = Interpreter::new();
    assert_eq!(error_message(run(&mut env, body(&decls))).0, "can only loop over a list");
}

#[test]
fn lambdas_are_called_with_their_argument() {
    let decls = program("@() main -> int {\n double = n -> n * 2\n double(21)\n}");
    let mut env: Interpreter<Val> = Interpreter::new();
    assert!(matches!(run(&mut env, body(&decls)), Ok(Value::Int(42))));
    assert_eq!(env.depth(), 1);
}

#[test]
fn integer_overflow_halts_and_remainder_by_zero_is_an_error() {
    let decls = program("@() main -> int {\n 9223372036854775807 + 1\n}");
    let mut env: Interpreter<Val> = Interpreter::new();
    assert!(matches!(run(&mut env, body(&decls)), Err(Stop::Halt(_))));
    let decls = program("@() main -> int {\n 5 % 0\n}");
    let mut env: Interpreter<Val> = Interpreter::new();
    assert_eq!(error_message(run(&mut env, body(&decls))).0, "division by zero");
}

#[test]
fn evaluated_division_by_zero_is_an_error() {
    let decls = program("@() main -> int {\n 5 / 0\n}");
    let mut env: Interpreter<Val> = Interpreter::new();
    assert_eq!(error_message(run(&mut env, body(&decls))).0, "division by zero");
}

#[test]
fn depth_bound_stops_evaluation() {
    let decls = program("@() main -> int {\n 1 + 2\n}");
    let mut env: Interpreter<Val> = Interpreter::new();
    assert!(matches!(env.eval_block(body(&decls), 0, &float_of, &float_op, &float_neg, &float_show, &emit), Err(Stop::TooDeep)));
    assert!(matches!(env.eval_block(body(&decls), 2, &float_of, &float_op, &float_neg, &float_show, &emit), Err(Stop::TooDeep)));
    assert!(matches!(env.eval_block(body(&decls), 4, &float_of, &float_op, &float_neg, &float_show, &emit), Ok(Value::Int(3))));
}

#[test]
fn builtins_are_bound_at_start() {
    let env: Interpreter<Val> = Interpreter::new();
    assert_eq!(env.depth(), 1);
    for name in ["print", "filter", "map"] {
        match env.lookup(&name.to_string()) {
            Some(Value::Builtin(b)) => assert_eq!(b, name),
            other => panic!("expected the built-in {}, got {:?}", name, other),
        }
    }
    assert!(env.lookup(&"other".to_string()).is_none());
}

#[test]
fn copies_are_equal_in_content() {
    let v: Val = Value::List(vec![Value::Int(1), Value::Str("a".to_string()), Value::Flt(0.5)]);
    match copy_value(&v) {
        Value::List(items) => {
            assert_eq!(items.len(), 3);
            assert!(matches!(items[0], Value::Int(1)));
            assert!(matches!(&items[1], Value::Str(s) if s == "a"));
            assert!(matches!(items[2], Value::Flt(x) if x == 0.5));
        }
        other => panic!("expected a list, got {:?}", other),
    }
}

fn program_value<'a>(decls: &'a Vec<SpannedDecl>) -> Result<Val<'a>, Stop> {
    let mut env: Interpreter<Val> = Interpreter::new();
    env.interpret(decls, 1000, &float_of, &float_op, &float_neg, &float_show, &emit)
}

#[test]
fn strings_interpolate_their_placeholders() {
    let decls = program("@() main -> str {\n name = \"Aryan\"\n n = 3\n \"Hello {name}! {n} {nope2\"\n}");
    let mut env: Interpreter<Val> = Interpreter::new();
    match run(&mut env, body(&decls)) {
        Ok(Value::Str(s)) => assert_eq!(s, "Hello Aryan! 3 {nope2"),
        other => panic!("expected a string, got {:?}", other),
    }
    let decls = program("@() main -> str {\n \"hi {who}\"\n}");
    let mut env: Interpreter<Val> = Interpreter::new();
    assert_eq!(error_message(run(&mut env, body(&decls))).0, "undefined variable 'who'");
}

#[test]
fn pipelines_pass_the_left_value_first() {
    let decls = program("@() main -> [int] {\n [1, 2, 3, 4] >> filter(n -> n % 2 == 0) >> map(n -> n * 2)\n}");
    let mut env: Interpreter<Val> = Interpreter::new();
    match run(&mut env, body(&decls)) {
        Ok(Value::List(items)) => {
            assert_eq!(items.len(), 2);
            assert!(matches!(items[0], Value::Int(4)));
            assert!(matches!(items[1], Value::Int(8)));
        }
        other => panic!("expected a list, got {:?}", other),
    }
    let decls = program("@() main -> int {\n add = n -> n + 1\n 41 >> add()\n}");
    let mut env: Interpreter<Val> = Interpreter::new();
    assert!(matches!(run(&mut env, body(&decls)), Ok(Value::Int(42))));
    let decls = program("@() main -> int {\n 1 >> 2\n}");
    let mut env: Interpreter<Val> = Interpreter::new();
    assert_eq!(error_message(run(&mut env, body(&decls))).0, "the right side of a pipeline must be a call");
}

#[test]
fn builtins_check_their_arguments() {
    let decls = program("@() main -> int {\n filter(1, 2)\n}");
    let mut env: Interpreter<Val> = Interpreter::new();
    assert_eq!(error_message(run(&mut env, body(&decls))).0, "filter takes a list and a function");
    let decls = program("@() main -> int {\n filter([1], n -> n)\n}");
    let mut env: Interpreter<Val> = Interpreter::new();
    assert_eq!(error_message(run(&mut env, body(&decls))).0, "filter needs a function that gives a boolean");
    let decls = program("@() main -> abyss {\n print(\"x\", 1, true)\n}");
    let mut env: Interpreter<Val> = Interpreter::new();
    assert!(matches!(run(&mut env, body(&decls)), Ok(Value::Abyss)));
}

#[test]
fn programs_run_main() {
    let decls = program("@(x: int) double -> int {\n x * 2\n}\nbase = 20\n@() main -> int {\n double(base) + 2\n}");
    assert!(matches!(program_value(&decls), Ok(Value::Int(42))));
    let decls = program("x = 1");
    assert!(matches!(program_value(&decls), Ok(Value::Abyss)));
    let decls = program("@() main -> int {\n missing\n}");
    match program_value(&decls) {
        Err(Stop::Error(e)) => assert_eq!(e.message(), "undefined variable 'missing'"),
        other => panic!("expected an error, got {:?}", other),
    }
}

#[test]
fn lists_are_indexed_from_zero() {
    let decls = program("@() main -> int {\n list = [10, 20, 30]\n list[1] + list[0]\n}");
    let mut env: Interpreter<Val> = Interpreter::new();
    assert!(matches!(run(&mut env, body(&decls)), Ok(Value::Int(30))));
    let decls = program("@() main -> int {\n list = [10]\n list[3]\n}");
    let mut env: Interpreter<Val> = Interpreter::new();
    assert_eq!(error_message(run(&mut env, body(&decls))).0, "index out of range");
    let decls = program("@() main -> int {\n 5[0]\n}");
    let mut env: Interpreter<Val> = Interpreter::new();
    assert_eq!(error_message(run(&mut env, body(&decls))).0, "only a list can be indexed, by an integer");
}
