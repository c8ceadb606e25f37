//! Evaluation of programs, expressions, statements and blocks over the
//! interpreter's scopes, stated by spec functions over views (`eval_spec`,
//! `block_spec`, `stmt_spec`, `program_spec`). The float payload of values is
//! a type parameter: reading a float literal, applying a binary operator to
//! two floats, negating a float and showing a float as text are supplied by
//! the caller as functions of their arguments, and so is writing a line for
//! `print`. A depth bound makes every evaluation finish; running out of it
//! stops evaluation with `Stop::TooDeep`.

use vstd::prelude::*;

use crate::ast::{
    expr_view, names_view, pairs_view, params_view, sdecl_view, sdecls_view, sexpr_view, sexprs_view,
    sstmts_view, stmt_view, Decl, DeclV, ParamV, SDeclV, BinaryOp, Expr, ExprV, SExprV, SStmtV, Span,
    SpannedDecl, SpannedExpr, SpannedStmt, Stmt, StmtV, UnaryOp,
};
use crate::interpreter::{
    assign_in, binary_mismatch, binary_mismatch_message, binary_bools, binary_ints, binary_strs,
    bool_binary, bool_unary, define_all, define_in, distinct_names, frame_map, int_binary,
    int_op_allowed, int_op_defined, int_unary, lookup_in, str_binary, unary_bool, unary_int,
    unary_mismatch, unary_mismatch_message, Interpreter, InterpreterError, InterpreterErrorView,
    Scalar,
};
use crate::lexer::{find_char, is_digit};
use crate::literal::{all_digits, chars_of, decimal, digit_char, digit_value, digits_value, parse_i64, push_char, push_decimal_u64};

verus! {

/// A runtime value; `F` is the representation of floats.
#[verifier::reject_recursive_types(F)]
#[derive(Debug)]
pub enum Value<'a, F> {
    Int(i64),
    Flt(F),
    Str(String),
    Bool(bool),
    List(Vec<Value<'a, F>>),
    Mapping(Vec<(Value<'a, F>, Value<'a, F>)>),
    Abyss,
    Error(String),
    /// Parameter names and the body the function runs.
    Function(Vec<String>, Body<'a>),
    /// A function provided by the language, by its name.
    Builtin(String),
}

/// The mathematical content of a value.
#[verifier::reject_recursive_types(F)]
pub enum ValueV<F> {
    Int(i64),
    Flt(F),
    Str(Seq<char>),
    Bool(bool),
    List(Seq<ValueV<F>>),
    Mapping(Seq<(ValueV<F>, ValueV<F>)>),
    Abyss,
    Error(Seq<char>),
    Function(Seq<Seq<char>>, BodyV),
    Builtin(Seq<char>),
}

/// What a function runs: the expression of a lambda, or the block of a
/// declared function.
#[derive(Debug, Clone, Copy)]
pub enum Body<'a> {
    Expr(&'a SpannedExpr),
    Block(&'a Vec<SpannedStmt>),
}

pub enum BodyV {
    Expr(SExprV),
    Block(Seq<SStmtV>),
}

pub open spec fn body_view<'a>(b: Body<'a>) -> BodyV {
    match b {
        Body::Expr(e) => BodyV::Expr(sexpr_view(*e)),
        Body::Block(stmts) => BodyV::Block(sstmts_view(stmts@)),
    }
}

pub open spec fn value_view<'a, F>(v: Value<'a, F>) -> ValueV<F>
    decreases v,
{
    match v {
        Value::Int(n) => ValueV::Int(n),
        Value::Flt(f) => ValueV::Flt(f),
        Value::Str(s) => ValueV::Str(s@),
        Value::Bool(b) => ValueV::Bool(b),
        Value::List(items) => ValueV::List(values_view(items@)),
        Value::Mapping(entries) => ValueV::Mapping(entries_view(entries@)),
        Value::Abyss => ValueV::Abyss,
        Value::Error(m) => ValueV::Error(m@),
        Value::Function(params, body) => ValueV::Function(names_view(params@), body_view(body)),
        Value::Builtin(name) => ValueV::Builtin(name@),
    }
}

pub open spec fn values_view<'a, F>(s: Seq<Value<'a, F>>) -> Seq<ValueV<F>>
    decreases s,
{
    Seq::new(s.len(), |i: int| if 0 <= i < s.len() { value_view(s[i]) } else { ValueV::Abyss })
}

pub open spec fn entries_view<'a, F>(s: Seq<(Value<'a, F>, Value<'a, F>)>) -> Seq<(ValueV<F>, ValueV<F>)>
    decreases s,
{
    Seq::new(
        s.len(),
        |i: int|
            if 0 <= i < s.len() {
                (value_view(s[i].0), value_view(s[i].1))
            } else {
                (ValueV::Abyss, ValueV::Abyss)
            },
    )
}

/// Why an evaluation stopped without a value.
#[derive(Debug)]
pub enum Stop {
    /// A runtime error of the program being run.
    Error(InterpreterError),
    /// An operation the evaluation cannot carry out: an integer overflow, or
    /// a construct that is not evaluated.
    Halt(String),
    /// The depth bound ran out.
    TooDeep,
}

/// `undefined variable 'name'`
pub open spec fn undefined_variable(name: Seq<char>) -> Seq<char> {
    "undefined variable '"@ + name + seq!['\'']
}

/// The names bound in the global scope at start.
pub open spec fn builtin_names() -> Set<Seq<char>> {
    set!["print"@, "filter"@, "map"@]
}

fn undefined_message(name: &String) -> (m: String)
    ensures
        m@ == undefined_variable(name@),
{
    let mut m = String::from_str("undefined variable '");
    let chars = chars_of(name.as_str());
    let ghost prefix = m@;
    let mut i: usize = 0;
    while i < chars.len()
        invariant
            i <= chars@.len(),
            chars@ == name@,
            prefix == "undefined variable '"@,
            m@ == prefix + name@.take(i as int),
        decreases chars@.len() - i,
    {
        push_char(&mut m, chars[i]);
        i = i + 1;
        assert(name@.take(i as int) =~= name@.take(i - 1).push(chars@[i - 1]));
        assert(m@ =~= prefix + name@.take(i as int));
    }
    assert(name@.take(i as int) =~= name@);
    push_char(&mut m, '\'');
    assert(m@ =~= undefined_variable(name@));
    m
}

/// A copy of `v`.
pub fn copy_value<'a, F: Copy>(v: &Value<'a, F>) -> (r: Value<'a, F>)
    ensures
        value_view(r) == value_view(*v),
    decreases v,
{
    match v {
        Value::Int(n) => Value::Int(*n),
        Value::Flt(f) => Value::Flt(*f),
        Value::Str(s) => Value::Str(s.clone()),
        Value::Bool(b) => Value::Bool(*b),
        Value::List(items) => {
            let mut out: Vec<Value<'a, F>> = Vec::new();
            let mut i: usize = 0;
            while i < items.len()
                invariant
                    *v == Value::<'a, F>::List(*items),
                    i <= items@.len(),
                    out@.len() == i,
                    forall|j: int| 0 <= j < i ==> value_view(#[trigger] out@[j]) == value_view(items@[j]),
                decreases items@.len() - i,
            {
                proof {
                    vstd::std_specs::vec::axiom_vec_index_decreases(*items, i as int);
                    assert(decreases_to!(*v => (*v)->List_0));
                }
                let c = copy_value(&items[i]);
                out.push(c);
                i = i + 1;
            }
            let r = Value::List(out);
            assert(values_view(out@) =~= values_view(items@));
            r
        },
        Value::Mapping(entries) => {
            let mut out: Vec<(Value<'a, F>, Value<'a, F>)> = Vec::new();
            let mut i: usize = 0;
            while i < entries.len()
                invariant
                    *v == Value::<'a, F>::Mapping(*entries),
                    i <= entries@.len(),
                    out@.len() == i,
                    forall|j: int|
                        0 <= j < i ==> value_view((#[trigger] out@[j]).0) == value_view(entries@[j].0)
                            && value_view(out@[j].1) == value_view(entries@[j].1),
                decreases entries@.len() - i,
            {
                proof {
                    vstd::std_specs::vec::axiom_vec_index_decreases(*entries, i as int);
                    assert(decreases_to!(*v => (*v)->Mapping_0));
                    assert(decreases_to!(entries[i as int] => entries[i as int].0));
                }
                let k = copy_value(&entries[i].0);
                let w = copy_value(&entries[i].1);
                out.push((k, w));
                i = i + 1;
            }
            let r = Value::Mapping(out);
            assert(entries_view(out@) =~= entries_view(entries@));
            r
        },
        Value::Abyss => Value::Abyss,
        Value::Error(m) => Value::Error(m.clone()),
        Value::Function(params, body) => {
            let mut ps: Vec<String> = Vec::new();
            let mut i: usize = 0;
            while i < params.len()
                invariant
                    i <= params@.len(),
                    ps@ == params@.take(i as int),
                decreases params@.len() - i,
            {
                ps.push(params[i].clone());
                i = i + 1;
                assert(ps@ =~= params@.take(i as int));
            }
            assert(ps@ =~= params@);
            Value::Function(ps, *body)
        },
        Value::Builtin(name) => Value::Builtin(name.clone()),
    }
}



// ---------------------------------------------------------------------------
// What evaluation yields, as spec functions over views
// ---------------------------------------------------------------------------

/// The caller's float operations: reading a float literal, applying a binary
/// operator to two floats, negating a float.
pub struct FloatOps<FO, FB, FN, FS> {
    pub of: FO,
    pub op: FB,
    pub neg: FN,
    pub show: FS,
}

/// Why an evaluation stopped, as a view.
pub enum StopV {
    Error(InterpreterErrorView),
    Halt,
    TooDeep,
}

pub open spec fn stop_view(s: Stop) -> StopV {
    match s {
        Stop::Error(e) => StopV::Error(e@),
        Stop::Halt(_) => StopV::Halt,
        Stop::TooDeep => StopV::TooDeep,
    }
}

pub open spec fn result_view<'a, F>(r: Result<Value<'a, F>, Stop>) -> Result<ValueV<F>, StopV> {
    match r {
        Ok(v) => Ok(value_view(v)),
        Err(s) => Err(stop_view(s)),
    }
}

pub open spec fn stmt_result_view<'a, F>(r: Result<Option<Value<'a, F>>, Stop>) -> Result<Option<ValueV<F>>, StopV> {
    match r {
        Ok(Some(v)) => Ok(Some(value_view(v))),
        Ok(None) => Ok(None),
        Err(s) => Err(stop_view(s)),
    }
}

/// The runtime error `message` at `span`.
pub open spec fn runtime_error(message: Seq<char>, span: Span) -> StopV {
    StopV::Error(InterpreterErrorView { message, line: span.line, column: span.column })
}

/// The scopes with each value taken by its view.
pub open spec fn env_of<'a, F>(frames: Seq<Map<Seq<char>, Value<'a, F>>>) -> Seq<Map<Seq<char>, ValueV<F>>> {
    frames.map_values(|m: Map<Seq<char>, Value<'a, F>>| m.map_values(|v: Value<'a, F>| value_view(v)))
}

pub open spec fn float_outcome<'a, F>(r: Result<Value<'a, F>, String>) -> Result<ValueV<F>, Seq<char>> {
    match r {
        Ok(v) => Ok(value_view(v)),
        Err(m) => Err(m@),
    }
}

/// The caller's float operations accept every argument and give one result
/// for each.
pub open spec fn floats_fit<'a, F, FO, FB, FN, FS>(of: FO, op: FB, neg: FN, show: FS) -> bool where
    FO: Fn(&'a String) -> F,
    FB: Fn(BinaryOp, F, F) -> Result<Value<'a, F>, String>,
    FN: Fn(F) -> F,
    FS: Fn(F) -> String,
 {
    &&& forall|t: &'a String| call_requires(of, (t,))
    &&& forall|o: BinaryOp, a: F, b: F| call_requires(op, (o, a, b))
    &&& forall|a: F| call_requires(neg, (a,))
    &&& forall|a: F| call_requires(show, (a,))
    &&& forall|t1: &'a String, t2: &'a String, f1: F, f2: F|
        #![trigger call_ensures(of, (t1,), f1), call_ensures(of, (t2,), f2)]
        t1@ == t2@ && call_ensures(of, (t1,), f1) && call_ensures(of, (t2,), f2) ==> f1 == f2
    &&& forall|o: BinaryOp, a: F, b: F, r1: Result<Value<'a, F>, String>, r2: Result<Value<'a, F>, String>|
        #![trigger call_ensures(op, (o, a, b), r1), call_ensures(op, (o, a, b), r2)]
        call_ensures(op, (o, a, b), r1) && call_ensures(op, (o, a, b), r2) ==> float_outcome(r1)
            == float_outcome(r2)
    &&& forall|a: F, x1: F, x2: F|
        #![trigger call_ensures(neg, (a,), x1), call_ensures(neg, (a,), x2)]
        call_ensures(neg, (a,), x1) && call_ensures(neg, (a,), x2) ==> x1 == x2
    &&& forall|a: F, s1: String, s2: String|
        #![trigger call_ensures(show, (a,), s1), call_ensures(show, (a,), s2)]
        call_ensures(show, (a,), s1) && call_ensures(show, (a,), s2) ==> s1@ == s2@
}

/// The float that the literal text `t` stands for.
pub open spec fn float_of_text<'a, F, FO>(of: FO, t: Seq<char>) -> F where FO: Fn(&'a String) -> F {
    choose|f: F| #[trigger] reads_as(of, t, f)
}

/// `of` gives `f` for some text equal to `t`.
pub open spec fn reads_as<'a, F, FO>(of: FO, t: Seq<char>, f: F) -> bool where FO: Fn(&'a String) -> F {
    exists|s: &'a String| s@ == t && #[trigger] call_ensures(of, (s,), f)
}

/// A binary operator applied to two values at `span`.
pub open spec fn binary_spec<'a, F, FB>(fb: FB, op: BinaryOp, l: ValueV<F>, r: ValueV<F>, span: Span) -> Result<ValueV<F>, StopV> where
    FB: Fn(BinaryOp, F, F) -> Result<Value<'a, F>, String>,
 {
    match (l, r) {
        (ValueV::Int(a), ValueV::Int(b)) => if int_op_defined(op, a, b) {
            match int_binary(op, a, b) {
                Ok(Scalar::Int(n)) => Ok(ValueV::Int(n)),
                Ok(Scalar::Bool(x)) => Ok(ValueV::Bool(x)),
                Err(m) => Err(runtime_error(m, span)),
            }
        } else {
            Err(StopV::Halt)
        },
        (ValueV::Flt(a), ValueV::Flt(b)) => match float_outcome(
            choose|fr: Result<Value<'a, F>, String>| #[trigger] call_ensures(fb, (op, a, b), fr),
        ) {
            Ok(v) => Ok(v),
            Err(m) => Err(runtime_error(m, span)),
        },
        (ValueV::Bool(a), ValueV::Bool(b)) => match bool_binary(op, a, b) {
            Ok(x) => Ok(ValueV::Bool(x)),
            Err(m) => Err(runtime_error(m, span)),
        },
        (ValueV::Str(a), ValueV::Str(b)) => match str_binary(op, a, b) {
            Ok(x) => Ok(ValueV::Bool(x)),
            Err(m) => Err(runtime_error(m, span)),
        },
        _ => Err(runtime_error(binary_mismatch(op), span)),
    }
}

/// A unary operator applied to a value at `span`.
pub open spec fn unary_spec<F, FN>(fne: FN, op: UnaryOp, v: ValueV<F>, span: Span) -> Result<ValueV<F>, StopV> where
    FN: Fn(F) -> F,
 {
    match v {
        ValueV::Int(a) => if op == UnaryOp::Neg && a == i64::MIN {
            Err(StopV::Halt)
        } else {
            match int_unary(op, a) {
                Ok(n) => Ok(ValueV::Int(n)),
                Err(m) => Err(runtime_error(m, span)),
            }
        },
        ValueV::Bool(a) => match bool_unary(op, a) {
            Ok(x) => Ok(ValueV::Bool(x)),
            Err(m) => Err(runtime_error(m, span)),
        },
        ValueV::Flt(a) => if op == UnaryOp::Neg {
            Ok(ValueV::Flt(choose|x: F| #[trigger] call_ensures(fne, (a,), x)))
        } else {
            Err(runtime_error(unary_mismatch(op), span))
        },
        _ => Err(runtime_error(unary_mismatch(op), span)),
    }
}

/// `the right side of a pipeline must be a call`
pub open spec fn pipeline_target_message() -> Seq<char> {
    "the right side of a pipeline must be a call"@
}

/// Indexing a list with an integer: the element at that position, counting
/// from 0; a position outside the list, or other operands, are errors.
pub open spec fn index_spec<F>(target: ValueV<F>, index: ValueV<F>, span: Span) -> Result<ValueV<F>, StopV> {
    match (target, index) {
        (ValueV::List(items), ValueV::Int(i)) => if 0 <= i < items.len() {
            Ok(items[i as int])
        } else {
            Err(runtime_error("index out of range"@, span))
        },
        _ => Err(runtime_error("only a list can be indexed, by an integer"@, span)),
    }
}

/// Evaluating `e` in the scopes `env` with at most `depth` nested
/// evaluations: the outcome and the scopes afterwards.
pub open spec fn eval_spec<'a, F, FO, FB, FN, FS>(
    ops: FloatOps<FO, FB, FN, FS>,
    env: Seq<Map<Seq<char>, ValueV<F>>>,
    e: SExprV,
    depth: nat,
) -> (Result<ValueV<F>, StopV>, Seq<Map<Seq<char>, ValueV<F>>>) where
    FO: Fn(&'a String) -> F,
    FB: Fn(BinaryOp, F, F) -> Result<Value<'a, F>, String>,
    FN: Fn(F) -> F,
    FS: Fn(F) -> String,

    decreases depth, 3nat, 0nat,
{
    if depth == 0 {
        (Err(StopV::TooDeep), env)
    } else {
        let d = (depth - 1) as nat;
        match e.node {
            ExprV::Int(n) => (Ok(ValueV::Int(n)), env),
            ExprV::Flt(t) => (Ok(ValueV::Flt(float_of_text(ops.of, t))), env),
            ExprV::Str(t) => match interpolate_spec(ops.show, env, t, 0, e.span) {
                Ok(u) => (Ok(ValueV::Str(u)), env),
                Err(s) => (Err(s), env),
            },
            ExprV::Bool(b) => (Ok(ValueV::Bool(b)), env),
            ExprV::Identifier(n) => match lookup_in(env, n) {
                Some(v) => (Ok(v), env),
                None => (Err(runtime_error(undefined_variable(n), e.span)), env),
            },
            ExprV::Binary(l, op, r) => {
                let (o1, e1) = eval_spec(ops, env, *l, d);
                match o1 {
                    Err(s) => (Err(s), e1),
                    Ok(lv) => {
                        let (o2, e2) = eval_spec(ops, e1, *r, d);
                        match o2 {
                            Err(s) => (Err(s), e2),
                            Ok(rv) => (binary_spec(ops.op, op, lv, rv, e.span), e2),
                        }
                    },
                }
            },
            ExprV::Unary(op, x) => {
                let (o1, e1) = eval_spec(ops, env, *x, d);
                match o1 {
                    Err(s) => (Err(s), e1),
                    Ok(v) => (unary_spec(ops.neg, op, v, e.span), e1),
                }
            },
            ExprV::ListLiteral(items) => {
                let (o, e1) = eval_all_spec(ops, env, items, depth);
                match o {
                    Err(s) => (Err(s), e1),
                    Ok(vs) => (Ok(ValueV::List(vs)), e1),
                }
            },
            ExprV::MapLiteral(pairs) => {
                let (o, e1) = eval_pairs_spec(ops, env, pairs, depth);
                match o {
                    Err(s) => (Err(s), e1),
                    Ok(ps) => (Ok(ValueV::Mapping(ps)), e1),
                }
            },
            ExprV::Lambda(p, body) => (Ok(ValueV::Function(seq![p], BodyV::Expr(*body))), env),
            ExprV::If(c, then_block, else_block) => {
                let (o1, e1) = eval_spec(ops, env, *c, d);
                match o1 {
                    Err(s) => (Err(s), e1),
                    Ok(ValueV::Bool(true)) => block_spec(ops, e1, then_block, d),
                    Ok(ValueV::Bool(false)) => match else_block {
                        Some(b) => block_spec(ops, e1, b, d),
                        None => (Ok(ValueV::Abyss), e1),
                    },
                    Ok(_) => (Err(runtime_error("condition must be a boolean"@, e.span)), e1),
                }
            },
            ExprV::Loop(vars, iterable, body) => {
                let (o1, e1) = eval_spec(ops, env, *iterable, d);
                match o1 {
                    Err(s) => (Err(s), e1),
                    Ok(ValueV::List(elems)) => loop_spec(ops, e1, vars, elems, body, depth),
                    Ok(_) => (Err(runtime_error("can only loop over a list"@, e.span)), e1),
                }
            },
            ExprV::Assign(target, value) => {
                let (o1, e1) = eval_spec(ops, env, *value, d);
                match o1 {
                    Err(s) => (Err(s), e1),
                    Ok(v) => match target.node {
                        ExprV::Identifier(n) => match assign_in(e1, n, v) {
                            Some(e2) => (Ok(ValueV::Abyss), e2),
                            None => (Err(runtime_error(undefined_variable(n), e.span)), e1),
                        },
                        ExprV::FieldAccess(_, _) => (Err(StopV::Halt), e1),
                        _ => (Err(runtime_error("invalid assignment target"@, e.span)), e1),
                    },
                }
            },
            ExprV::Call(callee, args) => {
                let (o1, e1) = eval_spec(ops, env, *callee, d);
                match o1 {
                    Err(s) => (Err(s), e1),
                    Ok(ValueV::Function(params, body)) => {
                        let (o2, e2) = eval_all_spec(ops, e1, args, depth);
                        match o2 {
                            Err(s) => (Err(s), e2),
                            Ok(avs) => apply_spec(ops, e2, params, body, avs, depth),
                        }
                    },
                    Ok(ValueV::Builtin(n)) => {
                        let (o2, e2) = eval_all_spec(ops, e1, args, depth);
                        match o2 {
                            Err(s) => (Err(s), e2),
                            Ok(avs) => builtin_spec(ops, e2, n, avs, e.span, depth),
                        }
                    },
                    Ok(_) => (Err(StopV::Halt), e1),
                }
            },
            ExprV::Pipeline(left, right) => {
                let (o1, e1) = eval_spec(ops, env, *left, d);
                match o1 {
                    Err(s) => (Err(s), e1),
                    Ok(lv) => match right.node {
                        ExprV::Call(callee, args) => {
                            let (o2, e2) = eval_spec(ops, e1, *callee, d);
                            match o2 {
                                Err(s) => (Err(s), e2),
                                Ok(ValueV::Function(params, body)) => {
                                    let (o3, e3) = eval_all_spec(ops, e2, args, depth);
                                    match o3 {
                                        Err(s) => (Err(s), e3),
                                        Ok(avs) => apply_spec(ops, e3, params, body, seq![lv] + avs, depth),
                                    }
                                },
                                Ok(ValueV::Builtin(n)) => {
                                    let (o3, e3) = eval_all_spec(ops, e2, args, depth);
                                    match o3 {
                                        Err(s) => (Err(s), e3),
                                        Ok(avs) => builtin_spec(ops, e3, n, seq![lv] + avs, e.span, depth),
                                    }
                                },
                                Ok(_) => (Err(StopV::Halt), e2),
                            }
                        },
                        _ => (Err(runtime_error(pipeline_target_message(), e.span)), e1),
                    },
                }
            },
            ExprV::Index(target, index) => {
                let (o1, e1) = eval_spec(ops, env, *target, d);
                match o1 {
                    Err(s) => (Err(s), e1),
                    Ok(tv) => {
                        let (o2, e2) = eval_spec(ops, e1, *index, d);
                        match o2 {
                            Err(s) => (Err(s), e2),
                            Ok(iv) => (index_spec(tv, iv, e.span), e2),
                        }
                    },
                }
            },
            _ => (Err(StopV::Halt), env),
        }
    }
}

/// `filter takes a list and a function`
pub open spec fn filter_args_message() -> Seq<char> {
    "filter takes a list and a function"@
}

/// `map takes a list and a function`
pub open spec fn map_args_message() -> Seq<char> {
    "map takes a list and a function"@
}

/// `filter needs a function that gives a boolean`
pub open spec fn filter_bool_message() -> Seq<char> {
    "filter needs a function that gives a boolean"@
}

/// Calling the built-in `name` on `args` at `span`: `filter` keeps the
/// elements of a list on which a function gives `true`, `map` applies a
/// function to each element of a list, and `print` has no value.
pub open spec fn builtin_spec<'a, F, FO, FB, FN, FS>(
    ops: FloatOps<FO, FB, FN, FS>,
    env: Seq<Map<Seq<char>, ValueV<F>>>,
    name: Seq<char>,
    args: Seq<ValueV<F>>,
    span: Span,
    depth: nat,
) -> (Result<ValueV<F>, StopV>, Seq<Map<Seq<char>, ValueV<F>>>) where
    FO: Fn(&'a String) -> F,
    FB: Fn(BinaryOp, F, F) -> Result<Value<'a, F>, String>,
    FN: Fn(F) -> F,
    FS: Fn(F) -> String,

    decreases depth, 2nat, 0nat,
{
    if name == "filter"@ || name == "map"@ {
        let is_filter = name == "filter"@;
        if args.len() == 2 && args[0] is List && args[1] is Function {
            let xs = args[0]->List_0;
            let params = args[1]->Function_0;
            let body = args[1]->Function_1;
            let (o, e1) = if is_filter {
                filter_spec(ops, env, params, body, xs, span, depth)
            } else {
                map_spec(ops, env, params, body, xs, depth)
            };
            match o {
                Err(s) => (Err(s), e1),
                Ok(ys) => (Ok(ValueV::List(ys)), e1),
            }
        } else if is_filter {
            (Err(runtime_error(filter_args_message(), span)), env)
        } else {
            (Err(runtime_error(map_args_message(), span)), env)
        }
    } else if name == "print"@ {
        (Ok(ValueV::Abyss), env)
    } else {
        (Err(StopV::Halt), env)
    }
}

/// The elements of `xs` on which the function gives `true`.
pub open spec fn filter_spec<'a, F, FO, FB, FN, FS>(
    ops: FloatOps<FO, FB, FN, FS>,
    env: Seq<Map<Seq<char>, ValueV<F>>>,
    params: Seq<Seq<char>>,
    body: BodyV,
    xs: Seq<ValueV<F>>,
    span: Span,
    depth: nat,
) -> (Result<Seq<ValueV<F>>, StopV>, Seq<Map<Seq<char>, ValueV<F>>>) where
    FO: Fn(&'a String) -> F,
    FB: Fn(BinaryOp, F, F) -> Result<Value<'a, F>, String>,
    FN: Fn(F) -> F,
    FS: Fn(F) -> String,

    decreases depth, 1nat, xs.len(),
{
    if xs.len() == 0 {
        (Ok(Seq::empty()), env)
    } else {
        let (o1, e1) = filter_spec(ops, env, params, body, xs.drop_last(), span, depth);
        match o1 {
            Err(s) => (Err(s), e1),
            Ok(kept) => {
                let (o2, e2) = apply_spec(ops, e1, params, body, seq![xs.last()], depth);
                match o2 {
                    Err(s) => (Err(s), e2),
                    Ok(ValueV::Bool(true)) => (Ok(kept.push(xs.last())), e2),
                    Ok(ValueV::Bool(false)) => (Ok(kept), e2),
                    Ok(_) => (Err(runtime_error(filter_bool_message(), span)), e2),
                }
            },
        }
    }
}

/// The function applied to each element of `xs`.
pub open spec fn map_spec<'a, F, FO, FB, FN, FS>(
    ops: FloatOps<FO, FB, FN, FS>,
    env: Seq<Map<Seq<char>, ValueV<F>>>,
    params: Seq<Seq<char>>,
    body: BodyV,
    xs: Seq<ValueV<F>>,
    depth: nat,
) -> (Result<Seq<ValueV<F>>, StopV>, Seq<Map<Seq<char>, ValueV<F>>>) where
    FO: Fn(&'a String) -> F,
    FB: Fn(BinaryOp, F, F) -> Result<Value<'a, F>, String>,
    FN: Fn(F) -> F,
    FS: Fn(F) -> String,

    decreases depth, 1nat, xs.len(),
{
    if xs.len() == 0 {
        (Ok(Seq::empty()), env)
    } else {
        let (o1, e1) = map_spec(ops, env, params, body, xs.drop_last(), depth);
        match o1 {
            Err(s) => (Err(s), e1),
            Ok(ys) => {
                let (o2, e2) = apply_spec(ops, e1, params, body, seq![xs.last()], depth);
                match o2 {
                    Err(s) => (Err(s), e2),
                    Ok(y) => (Ok(ys.push(y)), e2),
                }
            },
        }
    }
}

/// Evaluating `items` one after another, each with at most `depth - 1`
/// nested evaluations.
pub open spec fn eval_all_spec<'a, F, FO, FB, FN, FS>(
    ops: FloatOps<FO, FB, FN, FS>,
    env: Seq<Map<Seq<char>, ValueV<F>>>,
    items: Seq<SExprV>,
    depth: nat,
) -> (Result<Seq<ValueV<F>>, StopV>, Seq<Map<Seq<char>, ValueV<F>>>) where
    FO: Fn(&'a String) -> F,
    FB: Fn(BinaryOp, F, F) -> Result<Value<'a, F>, String>,
    FN: Fn(F) -> F,
    FS: Fn(F) -> String,

    decreases depth, 1nat, items.len(),
{
    if depth == 0 {
        (Err(StopV::TooDeep), env)
    } else if items.len() == 0 {
        (Ok(Seq::empty()), env)
    } else {
        let (o1, e1) = eval_all_spec(ops, env, items.drop_last(), depth);
        match o1 {
            Err(s) => (Err(s), e1),
            Ok(vs) => {
                let (o2, e2) = eval_spec(ops, e1, items.last(), (depth - 1) as nat);
                match o2 {
                    Err(s) => (Err(s), e2),
                    Ok(v) => (Ok(vs.push(v)), e2),
                }
            },
        }
    }
}

/// Evaluating the keys and values of `pairs` in order.
pub open spec fn eval_pairs_spec<'a, F, FO, FB, FN, FS>(
    ops: FloatOps<FO, FB, FN, FS>,
    env: Seq<Map<Seq<char>, ValueV<F>>>,
    pairs: Seq<(SExprV, SExprV)>,
    depth: nat,
) -> (Result<Seq<(ValueV<F>, ValueV<F>)>, StopV>, Seq<Map<Seq<char>, ValueV<F>>>) where
    FO: Fn(&'a String) -> F,
    FB: Fn(BinaryOp, F, F) -> Result<Value<'a, F>, String>,
    FN: Fn(F) -> F,
    FS: Fn(F) -> String,

    decreases depth, 1nat, pairs.len(),
{
    if depth == 0 {
        (Err(StopV::TooDeep), env)
    } else if pairs.len() == 0 {
        (Ok(Seq::empty()), env)
    } else {
        let (o1, e1) = eval_pairs_spec(ops, env, pairs.drop_last(), depth);
        match o1 {
            Err(s) => (Err(s), e1),
            Ok(ps) => {
                let (ok, ek) = eval_spec(ops, e1, pairs.last().0, (depth - 1) as nat);
                match ok {
                    Err(s) => (Err(s), ek),
                    Ok(k) => {
                        let (ov, ev) = eval_spec(ops, ek, pairs.last().1, (depth - 1) as nat);
                        match ov {
                            Err(s) => (Err(s), ev),
                            Ok(v) => (Ok(ps.push((k, v))), ev),
                        }
                    },
                }
            },
        }
    }
}

/// Running the loop body once per element of `elems`, each time in a new
/// scope where the first loop variable is bound to the element.
pub open spec fn loop_spec<'a, F, FO, FB, FN, FS>(
    ops: FloatOps<FO, FB, FN, FS>,
    env: Seq<Map<Seq<char>, ValueV<F>>>,
    vars: Seq<Seq<char>>,
    elems: Seq<ValueV<F>>,
    body: Seq<SStmtV>,
    depth: nat,
) -> (Result<ValueV<F>, StopV>, Seq<Map<Seq<char>, ValueV<F>>>) where
    FO: Fn(&'a String) -> F,
    FB: Fn(BinaryOp, F, F) -> Result<Value<'a, F>, String>,
    FN: Fn(F) -> F,
    FS: Fn(F) -> String,

    decreases depth, 1nat, elems.len(),
{
    if depth == 0 {
        (Err(StopV::TooDeep), env)
    } else if elems.len() == 0 {
        (Ok(ValueV::Abyss), env)
    } else {
        let (o1, e1) = loop_spec(ops, env, vars, elems.drop_last(), body, depth);
        match o1 {
            Err(s) => (Err(s), e1),
            Ok(_) => if vars.len() == 0 {
                (Err(StopV::Halt), e1)
            } else {
                let inner = define_in(e1.push(Map::empty()), vars[0], elems.last());
                let (o2, e2) = block_spec(ops, inner, body, (depth - 1) as nat);
                match o2 {
                    Err(s) => (Err(s), e2.drop_last()),
                    Ok(_) => (Ok(ValueV::Abyss), e2.drop_last()),
                }
            },
        }
    }
}

/// Calling a function: in a new scope binding the parameters to the
/// arguments, pairwise, the body runs; the scope is left afterwards.
pub open spec fn apply_spec<'a, F, FO, FB, FN, FS>(
    ops: FloatOps<FO, FB, FN, FS>,
    env: Seq<Map<Seq<char>, ValueV<F>>>,
    params: Seq<Seq<char>>,
    body: BodyV,
    args: Seq<ValueV<F>>,
    depth: nat,
) -> (Result<ValueV<F>, StopV>, Seq<Map<Seq<char>, ValueV<F>>>) where
    FO: Fn(&'a String) -> F,
    FB: Fn(BinaryOp, F, F) -> Result<Value<'a, F>, String>,
    FN: Fn(F) -> F,
    FS: Fn(F) -> String,

    decreases depth, 1nat, 0nat,
{
    if depth == 0 {
        (Err(StopV::TooDeep), env)
    } else {
        let k = if params.len() < args.len() {
            params.len()
        } else {
            args.len()
        };
        let inner = define_all(env.push(Map::empty()), params.take(k as int), args.take(k as int));
        let (o, e2) = match body {
            BodyV::Expr(x) => eval_spec(ops, inner, x, (depth - 1) as nat),
            BodyV::Block(b) => block_spec(ops, inner, b, (depth - 1) as nat),
        };
        (o, e2.drop_last())
    }
}

/// Running the statements of a block in order: the value is that of the
/// last expression statement, `Abyss` when there is none.
pub open spec fn block_spec<'a, F, FO, FB, FN, FS>(
    ops: FloatOps<FO, FB, FN, FS>,
    env: Seq<Map<Seq<char>, ValueV<F>>>,
    stmts: Seq<SStmtV>,
    depth: nat,
) -> (Result<ValueV<F>, StopV>, Seq<Map<Seq<char>, ValueV<F>>>) where
    FO: Fn(&'a String) -> F,
    FB: Fn(BinaryOp, F, F) -> Result<Value<'a, F>, String>,
    FN: Fn(F) -> F,
    FS: Fn(F) -> String,

    decreases depth, 1nat, stmts.len(),
{
    if depth == 0 {
        (Err(StopV::TooDeep), env)
    } else if stmts.len() == 0 {
        (Ok(ValueV::Abyss), env)
    } else {
        let (o1, e1) = block_spec(ops, env, stmts.drop_last(), depth);
        match o1 {
            Err(s) => (Err(s), e1),
            Ok(last) => {
                let (o2, e2) = stmt_spec(ops, e1, stmts.last().node, (depth - 1) as nat);
                match o2 {
                    Err(s) => (Err(s), e2),
                    Ok(Some(v)) => (Ok(v), e2),
                    Ok(None) => (Ok(last), e2),
                }
            },
        }
    }
}

/// Running one statement: a binding defines its name in the innermost
/// scope and has no value; an expression statement has its value.
pub open spec fn stmt_spec<'a, F, FO, FB, FN, FS>(
    ops: FloatOps<FO, FB, FN, FS>,
    env: Seq<Map<Seq<char>, ValueV<F>>>,
    s: StmtV,
    depth: nat,
) -> (Result<Option<ValueV<F>>, StopV>, Seq<Map<Seq<char>, ValueV<F>>>) where
    FO: Fn(&'a String) -> F,
    FB: Fn(BinaryOp, F, F) -> Result<Value<'a, F>, String>,
    FN: Fn(F) -> F,
    FS: Fn(F) -> String,

    decreases depth, 1nat, 0nat,
{
    if depth == 0 {
        (Err(StopV::TooDeep), env)
    } else {
        match s {
            StmtV::Binding(b) => {
                let (o, e1) = eval_spec(ops, env, b.value, (depth - 1) as nat);
                match o {
                    Err(st) => (Err(st), e1),
                    Ok(v) => (Ok(None), define_in(e1, b.name, v)),
                }
            },
            StmtV::Expr(x) => {
                let (o, e1) = eval_spec(ops, env, x, (depth - 1) as nat);
                match o {
                    Err(st) => (Err(st), e1),
                    Ok(v) => (Ok(Some(v)), e1),
                }
            },
        }
    }
}


pub open spec fn float_ops<FO, FB, FN, FS>(of: FO, op: FB, neg: FN, show: FS) -> FloatOps<FO, FB, FN, FS> {
    FloatOps { of, op, neg, show }
}

pub open spec fn values_result_view<'a, F>(r: Result<Vec<Value<'a, F>>, Stop>) -> Result<Seq<ValueV<F>>, StopV> {
    match r {
        Ok(vs) => Ok(values_view(vs@)),
        Err(s) => Err(stop_view(s)),
    }
}

proof fn lemma_env_len<'a, F>(fr: Seq<Map<Seq<char>, Value<'a, F>>>)
    ensures
        env_of(fr).len() == fr.len(),
{
}

proof fn lemma_env_lookup<'a, F>(fr: Seq<Map<Seq<char>, Value<'a, F>>>, n: Seq<char>)
    ensures
        lookup_in(env_of(fr), n) == match lookup_in(fr, n) {
            Some(v) => Some(value_view(v)),
            None => None,
        },
    decreases fr.len(),
{
    if fr.len() > 0 {
        assert(env_of(fr).drop_last() =~= env_of(fr.drop_last()));
        lemma_env_lookup(fr.drop_last(), n);
    }
}

proof fn lemma_env_define<'a, F>(fr: Seq<Map<Seq<char>, Value<'a, F>>>, n: Seq<char>, v: Value<'a, F>)
    requires
        fr.len() >= 1,
    ensures
        env_of(define_in(fr, n, v)) == define_in(env_of(fr), n, value_view(v)),
{
    let a = env_of(define_in(fr, n, v));
    let b = define_in(env_of(fr), n, value_view(v));
    assert(a.last() =~= b.last());
    assert(a =~= b);
}

proof fn lemma_env_assign<'a, F>(fr: Seq<Map<Seq<char>, Value<'a, F>>>, n: Seq<char>, v: Value<'a, F>)
    ensures
        assign_in(env_of(fr), n, value_view(v)) == match assign_in(fr, n, v) {
            Some(f) => Some(env_of(f)),
            None => None,
        },
    decreases fr.len(),
{
    if fr.len() > 0 {
        assert(env_of(fr).drop_last() =~= env_of(fr.drop_last()));
        if fr.last().contains_key(n) {
            let f = fr.update(fr.len() - 1, fr.last().insert(n, v));
            let g = env_of(fr).update(fr.len() - 1, env_of(fr).last().insert(n, value_view(v)));
            assert(env_of(f).last() =~= g.last());
            assert(env_of(f) =~= g);
        } else {
            lemma_env_assign(fr.drop_last(), n, v);
            if let Some(g) = assign_in(fr.drop_last(), n, v) {
                assert(env_of(g.push(fr.last())) =~= env_of(g).push(env_of(fr).last()));
            }
        }
    }
}

proof fn lemma_env_push<'a, F>(fr: Seq<Map<Seq<char>, Value<'a, F>>>)
    ensures
        env_of(fr.push(Map::empty())) == env_of(fr).push(Map::empty()),
{
    assert(env_of(fr.push(Map::empty())).last() =~= Map::<Seq<char>, ValueV<F>>::empty());
    assert(env_of(fr.push(Map::empty())) =~= env_of(fr).push(Map::empty()));
}

proof fn lemma_env_pop<'a, F>(fr: Seq<Map<Seq<char>, Value<'a, F>>>)
    requires
        fr.len() >= 1,
    ensures
        env_of(fr.drop_last()) == env_of(fr).drop_last(),
{
    assert(env_of(fr.drop_last()) =~= env_of(fr).drop_last());
}

/// Once evaluating a prefix of `items` stops, evaluating any longer prefix
/// stops the same way.
proof fn lemma_all_stops<'a, F, FO, FB, FN, FS>(
    ops: FloatOps<FO, FB, FN, FS>,
    env: Seq<Map<Seq<char>, ValueV<F>>>,
    items: Seq<SExprV>,
    depth: nat,
    i: int,
    j: int,
) where
    FO: Fn(&'a String) -> F,
    FB: Fn(BinaryOp, F, F) -> Result<Value<'a, F>, String>,
    FN: Fn(F) -> F,
    FS: Fn(F) -> String,

    requires
        0 <= i <= j <= items.len(),
        eval_all_spec(ops, env, items.take(i), depth).0 is Err,
    ensures
        eval_all_spec(ops, env, items.take(j), depth) == eval_all_spec(ops, env, items.take(i), depth),
    decreases j - i,
{
    if j > i {
        lemma_all_stops(ops, env, items, depth, i, j - 1);
        assert(items.take(j).drop_last() =~= items.take(j - 1));
    }
}

proof fn lemma_pairs_stops<'a, F, FO, FB, FN, FS>(
    ops: FloatOps<FO, FB, FN, FS>,
    env: Seq<Map<Seq<char>, ValueV<F>>>,
    pairs: Seq<(SExprV, SExprV)>,
    depth: nat,
    i: int,
    j: int,
) where
    FO: Fn(&'a String) -> F,
    FB: Fn(BinaryOp, F, F) -> Result<Value<'a, F>, String>,
    FN: Fn(F) -> F,
    FS: Fn(F) -> String,

    requires
        0 <= i <= j <= pairs.len(),
        eval_pairs_spec(ops, env, pairs.take(i), depth).0 is Err,
    ensures
        eval_pairs_spec(ops, env, pairs.take(j), depth) == eval_pairs_spec(ops, env, pairs.take(i), depth),
    decreases j - i,
{
    if j > i {
        lemma_pairs_stops(ops, env, pairs, depth, i, j - 1);
        assert(pairs.take(j).drop_last() =~= pairs.take(j - 1));
    }
}

proof fn lemma_loop_stops<'a, F, FO, FB, FN, FS>(
    ops: FloatOps<FO, FB, FN, FS>,
    env: Seq<Map<Seq<char>, ValueV<F>>>,
    vars: Seq<Seq<char>>,
    elems: Seq<ValueV<F>>,
    body: Seq<SStmtV>,
    depth: nat,
    i: int,
    j: int,
) where
    FO: Fn(&'a String) -> F,
    FB: Fn(BinaryOp, F, F) -> Result<Value<'a, F>, String>,
    FN: Fn(F) -> F,
    FS: Fn(F) -> String,

    requires
        0 <= i <= j <= elems.len(),
        loop_spec(ops, env, vars, elems.take(i), body, depth).0 is Err,
    ensures
        loop_spec(ops, env, vars, elems.take(j), body, depth) == loop_spec(
            ops,
            env,
            vars,
            elems.take(i),
            body,
            depth,
        ),
    decreases j - i,
{
    if j > i {
        lemma_loop_stops(ops, env, vars, elems, body, depth, i, j - 1);
        assert(elems.take(j).drop_last() =~= elems.take(j - 1));
    }
}

proof fn lemma_block_stops<'a, F, FO, FB, FN, FS>(
    ops: FloatOps<FO, FB, FN, FS>,
    env: Seq<Map<Seq<char>, ValueV<F>>>,
    stmts: Seq<SStmtV>,
    depth: nat,
    i: int,
    j: int,
) where
    FO: Fn(&'a String) -> F,
    FB: Fn(BinaryOp, F, F) -> Result<Value<'a, F>, String>,
    FN: Fn(F) -> F,
    FS: Fn(F) -> String,

    requires
        0 <= i <= j <= stmts.len(),
        block_spec(ops, env, stmts.take(i), depth).0 is Err,
    ensures
        block_spec(ops, env, stmts.take(j), depth) == block_spec(ops, env, stmts.take(i), depth),
    decreases j - i,
{
    if j > i {
        lemma_block_stops(ops, env, stmts, depth, i, j - 1);
        assert(stmts.take(j).drop_last() =~= stmts.take(j - 1));
    }
}

/// `first` followed by the values of `rest`.
fn prepend<'a, F: Copy>(first: Value<'a, F>, rest: Vec<Value<'a, F>>) -> (r: Vec<Value<'a, F>>)
    ensures
        values_view(r@) == seq![value_view(first)] + values_view(rest@),
{
    let ghost fv = value_view(first);
    let ghost rv = values_view(rest@);
    let mut out: Vec<Value<'a, F>> = Vec::new();
    out.push(first);
    let mut j: usize = 0;
    assert(values_view(out@) =~= seq![fv] + rv.take(0));
    while j < rest.len()
        invariant
            j <= rest@.len(),
            rv == values_view(rest@),
            values_view(out@) == seq![fv] + rv.take(j as int),
        decreases rest@.len() - j,
    {
        let ghost before = values_view(out@);
        let c = copy_value(&rest[j]);
        out.push(c);
        assert(values_view(out@) =~= before.push(value_view(c)));
        assert(seq![fv] + rv.take(j + 1) =~= (seq![fv] + rv.take(j as int)).push(rv[j as int]));
        j = j + 1;
    }
    assert(rv.take(j as int) =~= rv);
    out
}

impl<'a, F> Interpreter<Value<'a, F>> {
    /// An interpreter whose global scope binds `print`, `filter` and `map` to
    /// the built-in functions of those names.
    pub fn new() -> (r: Self)
        ensures
            r.wf(),
            r.frames().len() == 1,
            r.frames()[0].dom() == builtin_names(),
            forall|n: Seq<char>|
                #[trigger] builtin_names().contains(n) ==> (lookup_in(r.frames(), n) matches Some(
                    Value::Builtin(b),
                ) && b@ == n),
    {
        let mut globals: Vec<(String, Value<'a, F>)> = Vec::new();
        globals.push((String::from_str("print"), Value::Builtin(String::from_str("print"))));
        globals.push((String::from_str("filter"), Value::Builtin(String::from_str("filter"))));
        globals.push((String::from_str("map"), Value::Builtin(String::from_str("map"))));
        proof {
            reveal_strlit("print");
            reveal_strlit("filter");
            reveal_strlit("map");
            assert(globals@[0].0@ == "print"@);
            assert(globals@[1].0@ == "filter"@);
            assert(globals@[2].0@ == "map"@);
            assert(globals@[0].0@ != globals@[1].0@);
            assert(globals@[0].0@ != globals@[2].0@);
            assert(globals@[1].0@ != globals@[2].0@);
            assert(distinct_names(globals@));
        }
        let r = Interpreter::with_globals(globals);
        proof {
            let g = globals@;
            reveal_with_fuel(frame_map, 4);
            assert(g.drop_last().drop_last().drop_last() =~= Seq::<(String, Value<'a, F>)>::empty());
            assert(g.drop_last().drop_last() =~= seq![g[0]]);
            assert(g.drop_last() =~= seq![g[0], g[1]]);
            assert(frame_map(g).dom() =~= builtin_names());
            assert(r.frames().drop_last() =~= Seq::<Map<Seq<char>, Value<'a, F>>>::empty());
        }
        r
    }
}

impl<'a, F: Copy> Interpreter<Value<'a, F>> {
    /// A binary operator applied to two values at `span`: integers,
    /// truth values and strings go by the operator tables, floats go to
    /// `float_op`, and operands of two different types are a mismatch.
    pub fn binary_value<FO, FB, FN, FS, FP>(
        &self,
        op: BinaryOp,
        left: Value<'a, F>,
        right: Value<'a, F>,
        span: &Span,
        float_of: &FO,
        float_op: &FB,
        float_neg: &FN,
        float_show: &FS,
        emit: &FP,
    ) -> (r: Result<Value<'a, F>, Stop>) where
        FO: Fn(&'a String) -> F,
        FB: Fn(BinaryOp, F, F) -> Result<Value<'a, F>, String>,
        FN: Fn(F) -> F,
        FS: Fn(F) -> String,
        FP: Fn(String),

        requires
            floats_fit(*float_of, *float_op, *float_neg, *float_show),
            forall|t: String| call_requires(*emit, (t,)),
        ensures
            result_view(r) == binary_spec(*float_op, op, value_view(left), value_view(right), *span),
    {
        match (left, right) {
            (Value::Int(a), Value::Int(b)) => {
                if !int_op_allowed(op, a, b) {
                    return Err(Stop::Halt(String::from_str("integer overflow")));
                }
                match binary_ints(op, a, b) {
                    Ok(Scalar::Int(n)) => Ok(Value::Int(n)),
                    Ok(Scalar::Bool(x)) => Ok(Value::Bool(x)),
                    Err(m) => Err(Stop::Error(self.error(m.as_str(), span))),
                }
            },
            (Value::Flt(a), Value::Flt(b)) => {
                let fr = (*float_op)(op, a, b);
                proof {
                    let cr = choose|fr: Result<Value<'a, F>, String>| #[trigger] call_ensures(*float_op, (op, a, b), fr);
                    assert(call_ensures(*float_op, (op, a, b), cr));
                    assert(float_outcome(cr) == float_outcome(fr));
                }
                match fr {
                    Ok(v) => Ok(v),
                    Err(m) => Err(Stop::Error(self.error(m.as_str(), span))),
                }
            },
            (Value::Bool(a), Value::Bool(b)) => match binary_bools(op, a, b) {
                Ok(x) => Ok(Value::Bool(x)),
                Err(m) => Err(Stop::Error(self.error(m.as_str(), span))),
            },
            (Value::Str(a), Value::Str(b)) => match binary_strs(op, &a, &b) {
                Ok(x) => Ok(Value::Bool(x)),
                Err(m) => Err(Stop::Error(self.error(m.as_str(), span))),
            },
            _ => {
                let m = binary_mismatch_message(op);
                Err(Stop::Error(self.error(m.as_str(), span)))
            },
        }
    }

    /// A unary operator applied to a value at `span`.
    pub fn unary_value<FO, FB, FN, FS, FP>(
        &self,
        op: UnaryOp,
        operand: Value<'a, F>,
        span: &Span,
        float_of: &FO,
        float_op: &FB,
        float_neg: &FN,
        float_show: &FS,
        emit: &FP,
    ) -> (r: Result<Value<'a, F>, Stop>) where
        FO: Fn(&'a String) -> F,
        FB: Fn(BinaryOp, F, F) -> Result<Value<'a, F>, String>,
        FN: Fn(F) -> F,
        FS: Fn(F) -> String,
        FP: Fn(String),

        requires
            floats_fit(*float_of, *float_op, *float_neg, *float_show),
            forall|t: String| call_requires(*emit, (t,)),
        ensures
            result_view(r) == unary_spec(*float_neg, op, value_view(operand), *span),
    {
        match operand {
            Value::Int(a) => {
                if op == UnaryOp::Neg && a == i64::MIN {
                    return Err(Stop::Halt(String::from_str("integer overflow in negation")));
                }
                match unary_int(op, a) {
                    Ok(n) => Ok(Value::Int(n)),
                    Err(m) => Err(Stop::Error(self.error(m.as_str(), span))),
                }
            },
            Value::Bool(a) => match unary_bool(op, a) {
                Ok(x) => Ok(Value::Bool(x)),
                Err(m) => Err(Stop::Error(self.error(m.as_str(), span))),
            },
            Value::Flt(a) => if op == UnaryOp::Neg {
                let x = (*float_neg)(a);
                proof {
                    let cx = choose|x: F| #[trigger] call_ensures(*float_neg, (a,), x);
                    assert(call_ensures(*float_neg, (a,), cx));
                    assert(cx == x);
                }
                Ok(Value::Flt(x))
            } else {
                let m = unary_mismatch_message(op);
                Err(Stop::Error(self.error(m.as_str(), span)))
            },
            _ => {
                let m = unary_mismatch_message(op);
                Err(Stop::Error(self.error(m.as_str(), span)))
            },
        }
    }

    /// Evaluates `items` one after another.
    pub fn eval_all<FO, FB, FN, FS, FP>(
        &mut self,
        items: &'a Vec<SpannedExpr>,
        depth: usize,
        float_of: &FO,
        float_op: &FB,
        float_neg: &FN,
        float_show: &FS,
        emit: &FP,
    ) -> (r: Result<Vec<Value<'a, F>>, Stop>) where
        FO: Fn(&'a String) -> F,
        FB: Fn(BinaryOp, F, F) -> Result<Value<'a, F>, String>,
        FN: Fn(F) -> F,
        FS: Fn(F) -> String,
        FP: Fn(String),

        requires
            old(self).wf(),
            floats_fit(*float_of, *float_op, *float_neg, *float_show),
            forall|t: String| call_requires(*emit, (t,)),
        ensures
            final(self).wf(),
            final(self).frames().len() == old(self).frames().len(),
            eval_all_spec(
                float_ops(*float_of, *float_op, *float_neg, *float_show),
                env_of(old(self).frames()),
                sexprs_view(items@),
                depth as nat,
            ) == (values_result_view(r), env_of(final(self).frames())),
        decreases depth, 1int,
    {
        let ghost ops = float_ops(*float_of, *float_op, *float_neg, *float_show);
        let ghost env0 = env_of(self.frames());
        let ghost iv = sexprs_view(items@);
        if depth == 0 {
            return Err(Stop::TooDeep);
        }
        let mut out: Vec<Value<'a, F>> = Vec::new();
        let mut i: usize = 0;
        assert(iv.take(0) =~= Seq::<SExprV>::empty());
        assert(values_view(out@) =~= Seq::<ValueV<F>>::empty());
        while i < items.len()
            invariant
                self.wf(),
                self.frames().len() == old(self).frames().len(),
                floats_fit(*float_of, *float_op, *float_neg, *float_show),
                forall|t: String| call_requires(*emit, (t,)),
                ops == float_ops(*float_of, *float_op, *float_neg, *float_show),
                env0 == env_of(old(self).frames()),
                iv == sexprs_view(items@),
                depth > 0,
                i <= items@.len(),
                eval_all_spec(ops, env0, iv.take(i as int), depth as nat) == (
                    Ok::<Seq<ValueV<F>>, StopV>(values_view(out@)),
                    env_of(self.frames()),
                ),
            decreases items@.len() - i,
        {
            let ghost before = values_view(out@);
            assert(iv.take(i + 1).drop_last() =~= iv.take(i as int));
            assert(iv.take(i + 1).last() == sexpr_view(items@[i as int]));
            match self.eval_expr(&items[i], depth - 1, float_of, float_op, float_neg, float_show, emit) {
                Ok(v) => {
                    out.push(v);
                    assert(values_view(out@) =~= before.push(value_view(v)));
                },
                Err(e) => {
                    proof {
                        lemma_all_stops(ops, env0, iv, depth as nat, i + 1, iv.len() as int);
                        assert(iv.take(iv.len() as int) =~= iv);
                    }
                    return Err(e);
                },
            }
            i = i + 1;
        }
        assert(iv.take(i as int) =~= iv);
        Ok(out)
    }

    /// Calls a function with parameters `params` and body `body` on `args`.
    pub fn apply<FO, FB, FN, FS, FP>(
        &mut self,
        params: &Vec<String>,
        body: Body<'a>,
        args: Vec<Value<'a, F>>,
        depth: usize,
        float_of: &FO,
        float_op: &FB,
        float_neg: &FN,
        float_show: &FS,
        emit: &FP,
    ) -> (r: Result<Value<'a, F>, Stop>) where
        FO: Fn(&'a String) -> F,
        FB: Fn(BinaryOp, F, F) -> Result<Value<'a, F>, String>,
        FN: Fn(F) -> F,
        FS: Fn(F) -> String,
        FP: Fn(String),

        requires
            old(self).wf(),
            floats_fit(*float_of, *float_op, *float_neg, *float_show),
            forall|t: String| call_requires(*emit, (t,)),
        ensures
            final(self).wf(),
            final(self).frames().len() == old(self).frames().len(),
            apply_spec(
                float_ops(*float_of, *float_op, *float_neg, *float_show),
                env_of(old(self).frames()),
                names_view(params@),
                body_view(body),
                values_view(args@),
                depth as nat,
            ) == (result_view(r), env_of(final(self).frames())),
        decreases depth, 1int,
    {
        let ghost ops = float_ops(*float_of, *float_op, *float_neg, *float_show);
        let ghost env0 = env_of(self.frames());
        let ghost pv = names_view(params@);
        let ghost av = values_view(args@);
        if depth == 0 {
            return Err(Stop::TooDeep);
        }
        proof {
            self.lemma_has_scope();
            lemma_env_push(self.frames());
        }
        self.push_scope();
        let mut j: usize = 0;
        assert(pv.take(0) =~= Seq::<Seq<char>>::empty());
        assert(av.take(0) =~= Seq::<ValueV<F>>::empty());
        while j < params.len() && j < args.len()
            invariant
                self.wf(),
                self.frames().len() == old(self).frames().len() + 1,
                pv == names_view(params@),
                av == values_view(args@),
                j <= params@.len(),
                j <= args@.len(),
                env_of(self.frames()) == define_all(env0.push(Map::empty()), pv.take(j as int), av.take(j as int)),
            decreases params@.len() - j,
        {
            let a = copy_value(&args[j]);
            proof {
                self.lemma_has_scope();
                lemma_env_define(self.frames(), params@[j as int]@, a);
                assert(pv.take(j + 1).drop_last() =~= pv.take(j as int));
                assert(av.take(j + 1).drop_last() =~= av.take(j as int));
            }
            self.define(params[j].clone(), a);
            j = j + 1;
        }
        let ghost k: int = if pv.len() < av.len() {
            pv.len() as int
        } else {
            av.len() as int
        };
        assert(j == k);
        let result = match body {
            Body::Expr(x) => self.eval_expr(x, depth - 1, float_of, float_op, float_neg, float_show, emit),
            Body::Block(b) => self.eval_block(b, depth - 1, float_of, float_op, float_neg, float_show, emit),
        };
        proof {
            lemma_env_pop(self.frames());
        }
        self.pop_scope();
        result
    }

    /// Evaluates `expr`, with at most `depth` nested evaluations. Scopes
    /// entered on the way are left again, whatever the outcome.
    #[verifier::rlimit(100)]
    #[verifier::spinoff_prover]
    pub fn eval_expr<FO, FB, FN, FS, FP>(
        &mut self,
        expr: &'a SpannedExpr,
        depth: usize,
        float_of: &FO,
        float_op: &FB,
        float_neg: &FN,
        float_show: &FS,
        emit: &FP,
    ) -> (r: Result<Value<'a, F>, Stop>) where
        FO: Fn(&'a String) -> F,
        FB: Fn(BinaryOp, F, F) -> Result<Value<'a, F>, String>,
        FN: Fn(F) -> F,
        FS: Fn(F) -> String,
        FP: Fn(String),

        requires
            old(self).wf(),
            floats_fit(*float_of, *float_op, *float_neg, *float_show),
            forall|t: String| call_requires(*emit, (t,)),
        ensures
            final(self).wf(),
            final(self).frames().len() == old(self).frames().len(),
            eval_spec(
                float_ops(*float_of, *float_op, *float_neg, *float_show),
                env_of(old(self).frames()),
                sexpr_view(*expr),
                depth as nat,
            ) == (result_view(r), env_of(final(self).frames())),
        decreases depth, 3int,
    {
        let ghost ops = float_ops(*float_of, *float_op, *float_neg, *float_show);
        let ghost env0 = env_of(self.frames());
        if depth == 0 {
            return Err(Stop::TooDeep);
        }
        let span = &expr.span;
        match &expr.node {
            Expr::Int(n) => Ok(Value::Int(*n)),
            Expr::Flt(text) => {
                let f = (*float_of)(text);
                proof {
                    assert(call_ensures(*float_of, (text,), f));
                    let cf = float_of_text(*float_of, text@);
                    assert(reads_as(*float_of, text@, f));
                    assert(reads_as(*float_of, text@, cf));
                    let s2 = choose|s: &'a String| s@ == text@ && #[trigger] call_ensures(*float_of, (s,), cf);
                    assert(cf == f);
                }
                Ok(Value::Flt(f))
            },
            Expr::Str(t) => match self.interpolate(t, span, float_show) {
                Ok(u) => Ok(Value::Str(u)),
                Err(e) => Err(e),
            },
            Expr::Bool(b) => Ok(Value::Bool(*b)),
            Expr::Identifier(name) => {
                proof {
                    lemma_env_lookup(self.frames(), name@);
                }
                match self.lookup(name) {
                    Some(v) => Ok(copy_value(v)),
                    None => {
                        let m = undefined_message(name);
                        Err(Stop::Error(self.error(m.as_str(), span)))
                    },
                }
            },
            Expr::Binary(left, op, right) => {
                let l = match self.eval_expr(left, depth - 1, float_of, float_op, float_neg, float_show, emit) {
                    Ok(v) => v,
                    Err(e) => return Err(e),
                };
                let r = match self.eval_expr(right, depth - 1, float_of, float_op, float_neg, float_show, emit) {
                    Ok(v) => v,
                    Err(e) => return Err(e),
                };
                self.binary_value(*op, l, r, span, float_of, float_op, float_neg, float_show, emit)
            },
            Expr::Unary(op, operand) => {
                let v = match self.eval_expr(operand, depth - 1, float_of, float_op, float_neg, float_show, emit) {
                    Ok(v) => v,
                    Err(e) => return Err(e),
                };
                self.unary_value(*op, v, span, float_of, float_op, float_neg, float_show, emit)
            },
            Expr::ListLiteral(items) => match self.eval_all(items, depth, float_of, float_op, float_neg, float_show, emit) {
                Ok(vs) => Ok(Value::List(vs)),
                Err(e) => Err(e),
            },
            Expr::MapLiteral(pairs) => {
                let ghost pv = pairs_view(pairs@);
                let mut map: Vec<(Value<'a, F>, Value<'a, F>)> = Vec::new();
                let mut i: usize = 0;
                assert(pv.take(0) =~= Seq::<(SExprV, SExprV)>::empty());
                assert(entries_view(map@) =~= Seq::<(ValueV<F>, ValueV<F>)>::empty());
                while i < pairs.len()
                    invariant
                        self.wf(),
                        self.frames().len() == old(self).frames().len(),
                        floats_fit(*float_of, *float_op, *float_neg, *float_show),
                        forall|t: String| call_requires(*emit, (t,)),
                        ops == float_ops(*float_of, *float_op, *float_neg, *float_show),
                        env0 == env_of(old(self).frames()),
                        pv == pairs_view(pairs@),
                        sexpr_view(*expr).node == ExprV::MapLiteral(pv),
                        depth > 0,
                        i <= pairs@.len(),
                        eval_pairs_spec(ops, env0, pv.take(i as int), depth as nat) == (
                            Ok::<Seq<(ValueV<F>, ValueV<F>)>, StopV>(entries_view(map@)),
                            env_of(self.frames()),
                        ),
                    decreases pairs@.len() - i,
                {
                    let ghost before = entries_view(map@);
                    assert(pv.take(i + 1).drop_last() =~= pv.take(i as int));
                    assert(pv.take(i + 1).last() == (sexpr_view(pairs@[i as int].0), sexpr_view(pairs@[i as int].1)));
                    let k = match self.eval_expr(&pairs[i].0, depth - 1, float_of, float_op, float_neg, float_show, emit) {
                        Ok(v) => v,
                        Err(e) => {
                            proof {
                                lemma_pairs_stops(ops, env0, pv, depth as nat, i + 1, pv.len() as int);
                                assert(pv.take(pv.len() as int) =~= pv);
                            }
                            return Err(e);
                        },
                    };
                    let v = match self.eval_expr(&pairs[i].1, depth - 1, float_of, float_op, float_neg, float_show, emit) {
                        Ok(v) => v,
                        Err(e) => {
                            proof {
                                lemma_pairs_stops(ops, env0, pv, depth as nat, i + 1, pv.len() as int);
                                assert(pv.take(pv.len() as int) =~= pv);
                            }
                            return Err(e);
                        },
                    };
                    let ghost kv = (value_view(k), value_view(v));
                    map.push((k, v));
                    assert(entries_view(map@) =~= before.push(kv));
                    i = i + 1;
                }
                assert(pv.take(i as int) =~= pv);
                Ok(Value::Mapping(map))
            },
            Expr::Lambda(param, body) => {
                let mut params: Vec<String> = Vec::new();
                params.push(param.clone());
                assert(names_view(params@) =~= seq![param@]);
                Ok(Value::Function(params, Body::Expr(&**body)))
            },
            Expr::If(cond, body, else_block) => {
                let c = match self.eval_expr(cond, depth - 1, float_of, float_op, float_neg, float_show, emit) {
                    Ok(v) => v,
                    Err(e) => return Err(e),
                };
                match c {
                    Value::Bool(true) => self.eval_block(body, depth - 1, float_of, float_op, float_neg, float_show, emit),
                    Value::Bool(false) => match else_block {
                        Some(block) => self.eval_block(block, depth - 1, float_of, float_op, float_neg, float_show, emit),
                        None => Ok(Value::Abyss),
                    },
                    _ => Err(Stop::Error(self.error("condition must be a boolean", span))),
                }
            },
            Expr::Loop(vars, iterable, body) => {
                let it = match self.eval_expr(iterable, depth - 1, float_of, float_op, float_neg, float_show, emit) {
                    Ok(v) => v,
                    Err(e) => return Err(e),
                };
                let ghost e1 = env_of(self.frames());
                let ghost vv = names_view(vars@);
                let ghost bv = sstmts_view(body@);
                match it {
                    Value::List(elements) => {
                        let ghost ev = values_view(elements@);
                        assert(eval_spec(ops, env0, sexpr_view(*expr), depth as nat) == loop_spec(
                            ops,
                            e1,
                            vv,
                            ev,
                            bv,
                            depth as nat,
                        ));
                        let mut i: usize = 0;
                        assert(ev.take(0) =~= Seq::<ValueV<F>>::empty());
                        while i < elements.len()
                            invariant
                                self.wf(),
                                self.frames().len() == old(self).frames().len(),
                                floats_fit(*float_of, *float_op, *float_neg, *float_show),
                                forall|t: String| call_requires(*emit, (t,)),
                                ops == float_ops(*float_of, *float_op, *float_neg, *float_show),
                                vv == names_view(vars@),
                                bv == sstmts_view(body@),
                                ev == values_view(elements@),
                                env0 == env_of(old(self).frames()),
                                eval_spec(ops, env0, sexpr_view(*expr), depth as nat) == loop_spec(
                                    ops,
                                    e1,
                                    vv,
                                    ev,
                                    bv,
                                    depth as nat,
                                ),
                                depth > 0,
                                i <= elements@.len(),
                                loop_spec(ops, e1, vv, ev.take(i as int), bv, depth as nat) == (
                                    Ok::<ValueV<F>, StopV>(ValueV::Abyss),
                                    env_of(self.frames()),
                                ),
                            decreases elements@.len() - i,
                        {
                            assert(ev.take(i + 1).drop_last() =~= ev.take(i as int));
                            assert(ev.take(i + 1).last() == value_view(elements@[i as int]));
                            if vars.len() == 0 {
                                proof {
                                    lemma_loop_stops(ops, e1, vv, ev, bv, depth as nat, i + 1, ev.len() as int);
                                    assert(ev.take(ev.len() as int) =~= ev);
                                }
                                return Err(Stop::Halt(String::from_str("a loop without a variable")));
                            }
                            let element = copy_value(&elements[i]);
                            proof {
                                self.lemma_has_scope();
                                lemma_env_push(self.frames());
                            }
                            self.push_scope();
                            proof {
                                self.lemma_has_scope();
                                lemma_env_define(self.frames(), vars@[0]@, element);
                            }
                            self.define(vars[0].clone(), element);
                            let result = self.eval_block(body, depth - 1, float_of, float_op, float_neg, float_show, emit);
                            proof {
                                lemma_env_pop(self.frames());
                            }
                            self.pop_scope();
                            match result {
                                Ok(_) => {},
                                Err(e) => {
                                    proof {
                                        lemma_loop_stops(ops, e1, vv, ev, bv, depth as nat, i + 1, ev.len() as int);
                                        assert(ev.take(ev.len() as int) =~= ev);
                                    }
                                    return Err(e);
                                },
                            }
                            i = i + 1;
                        }
                        assert(ev.take(i as int) =~= ev);
                        Ok(Value::Abyss)
                    },
                    _ => Err(Stop::Error(self.error("can only loop over a list", span))),
                }
            },
            Expr::Assign(target, value) => {
                let v = match self.eval_expr(value, depth - 1, float_of, float_op, float_neg, float_show, emit) {
                    Ok(v) => v,
                    Err(e) => return Err(e),
                };
                proof {
                    assert(sexpr_view(**target).node == expr_view(target.node));
                }
                match &target.node {
                    Expr::Identifier(name) => {
                        proof {
                            lemma_env_assign(self.frames(), name@, v);
                            crate::interpreter::law_assign_then_lookup(self.frames(), name@, v, name@);
                        }
                        if self.assign(name, v) {
                            Ok(Value::Abyss)
                        } else {
                            let m = undefined_message(name);
                            Err(Stop::Error(self.error(m.as_str(), span)))
                        }
                    },
                    Expr::FieldAccess(_, _) => Err(
                        Stop::Halt(String::from_str("assignment to a field is not supported")),
                    ),
                    _ => Err(Stop::Error(self.error("invalid assignment target", span))),
                }
            },
            Expr::Call(callee, call_args) => {
                let f = match self.eval_expr(callee, depth - 1, float_of, float_op, float_neg, float_show, emit) {
                    Ok(v) => v,
                    Err(e) => return Err(e),
                };
                match f {
                    Value::Function(params, body) => {
                        let args = match self.eval_all(call_args, depth, float_of, float_op, float_neg, float_show, emit) {
                            Ok(a) => a,
                            Err(e) => return Err(e),
                        };
                        self.apply(&params, body, args, depth, float_of, float_op, float_neg, float_show, emit)
                    },
                    Value::Builtin(bname) => {
                        let args = match self.eval_all(call_args, depth, float_of, float_op, float_neg, float_show, emit) {
                            Ok(a) => a,
                            Err(e) => return Err(e),
                        };
                        self.call_builtin(&bname, args, span, depth, float_of, float_op, float_neg, float_show, emit)
                    },
                    _ => Err(Stop::Halt(String::from_str("only functions can be called"))),
                }
            },
            Expr::Pipeline(left, right) => {
                let lv = match self.eval_expr(left, depth - 1, float_of, float_op, float_neg, float_show, emit) {
                    Ok(v) => v,
                    Err(e) => return Err(e),
                };
                proof {
                    assert(sexpr_view(**right).node == expr_view(right.node));
                }
                match &right.node {
                    Expr::Call(callee, call_args) => {
                        assert(expr_view(right.node) == ExprV::Call(
                            Box::new(sexpr_view(**callee)),
                            sexprs_view(call_args@),
                        ));
                        let f = match self.eval_expr(callee, depth - 1, float_of, float_op, float_neg, float_show, emit) {
                            Ok(v) => v,
                            Err(e) => return Err(e),
                        };
                        match f {
                            Value::Function(params, body) => {
                                let rest = match self.eval_all(call_args, depth, float_of, float_op, float_neg, float_show, emit) {
                                    Ok(a) => a,
                                    Err(e) => return Err(e),
                                };
                                let args = prepend(lv, rest);
                                self.apply(&params, body, args, depth, float_of, float_op, float_neg, float_show, emit)
                            },
                            Value::Builtin(bname) => {
                                let rest = match self.eval_all(call_args, depth, float_of, float_op, float_neg, float_show, emit) {
                                    Ok(a) => a,
                                    Err(e) => return Err(e),
                                };
                                let args = prepend(lv, rest);
                                self.call_builtin(&bname, args, span, depth, float_of, float_op, float_neg, float_show, emit)
                            },
                            _ => Err(Stop::Halt(String::from_str("only functions can be called"))),
                        }
                    },
                    _ => Err(Stop::Error(self.error("the right side of a pipeline must be a call", span))),
                }
            },
            Expr::Index(target, index) => {
                let t = match self.eval_expr(target, depth - 1, float_of, float_op, float_neg, float_show, emit) {
                    Ok(v) => v,
                    Err(e) => return Err(e),
                };
                let i = match self.eval_expr(index, depth - 1, float_of, float_op, float_neg, float_show, emit) {
                    Ok(v) => v,
                    Err(e) => return Err(e),
                };
                match (&t, &i) {
                    (Value::List(items), Value::Int(n)) => {
                        let n = *n;
                        if 0 <= n && (n as u128) < (items.len() as u128) {
                            assert(values_view(items@)[n as int] == value_view(items@[n as int]));
                            Ok(copy_value(&items[n as usize]))
                        } else {
                            Err(Stop::Error(self.error("index out of range", span)))
                        }
                    },
                    _ => Err(Stop::Error(self.error("only a list can be indexed, by an integer", span))),
                }
            },
            _ => Err(Stop::Halt(String::from_str("this expression is not evaluated"))),
        }
    }

    /// Evaluates the statements of a block in order; its value is that of
    /// the last expression statement, or `Abyss` when there is none.
    pub fn eval_block<FO, FB, FN, FS, FP>(
        &mut self,
        stmts: &'a Vec<SpannedStmt>,
        depth: usize,
        float_of: &FO,
        float_op: &FB,
        float_neg: &FN,
        float_show: &FS,
        emit: &FP,
    ) -> (r: Result<Value<'a, F>, Stop>) where
        FO: Fn(&'a String) -> F,
        FB: Fn(BinaryOp, F, F) -> Result<Value<'a, F>, String>,
        FN: Fn(F) -> F,
        FS: Fn(F) -> String,
        FP: Fn(String),

        requires
            old(self).wf(),
            floats_fit(*float_of, *float_op, *float_neg, *float_show),
            forall|t: String| call_requires(*emit, (t,)),
        ensures
            final(self).wf(),
            final(self).frames().len() == old(self).frames().len(),
            block_spec(
                float_ops(*float_of, *float_op, *float_neg, *float_show),
                env_of(old(self).frames()),
                sstmts_view(stmts@),
                depth as nat,
            ) == (result_view(r), env_of(final(self).frames())),
        decreases depth, 1int,
    {
        let ghost ops = float_ops(*float_of, *float_op, *float_neg, *float_show);
        let ghost env0 = env_of(self.frames());
        let ghost sv = sstmts_view(stmts@);
        if depth == 0 {
            return Err(Stop::TooDeep);
        }
        let mut last: Value<'a, F> = Value::Abyss;
        let mut i: usize = 0;
        assert(sv.take(0) =~= Seq::<SStmtV>::empty());
        while i < stmts.len()
            invariant
                self.wf(),
                self.frames().len() == old(self).frames().len(),
                floats_fit(*float_of, *float_op, *float_neg, *float_show),
                forall|t: String| call_requires(*emit, (t,)),
                ops == float_ops(*float_of, *float_op, *float_neg, *float_show),
                env0 == env_of(old(self).frames()),
                sv == sstmts_view(stmts@),
                depth > 0,
                i <= stmts@.len(),
                block_spec(ops, env0, sv.take(i as int), depth as nat) == (
                    Ok::<ValueV<F>, StopV>(value_view(last)),
                    env_of(self.frames()),
                ),
            decreases stmts@.len() - i,
        {
            assert(sv.take(i + 1).drop_last() =~= sv.take(i as int));
            assert(sv.take(i + 1).last().node == stmt_view(stmts@[i as int].node));
            match self.eval_stmt(&stmts[i].node, depth - 1, float_of, float_op, float_neg, float_show, emit) {
                Ok(Some(v)) => {
                    last = v;
                },
                Ok(None) => {},
                Err(e) => {
                    proof {
                        lemma_block_stops(ops, env0, sv, depth as nat, i + 1, sv.len() as int);
                        assert(sv.take(sv.len() as int) =~= sv);
                    }
                    return Err(e);
                },
            }
            i = i + 1;
        }
        assert(sv.take(i as int) =~= sv);
        Ok(last)
    }

    /// Evaluates one statement: a binding defines its name in the innermost
    /// scope and has no value; an expression statement has the value of its
    /// expression.
    pub fn eval_stmt<FO, FB, FN, FS, FP>(
        &mut self,
        stmt: &'a Stmt,
        depth: usize,
        float_of: &FO,
        float_op: &FB,
        float_neg: &FN,
        float_show: &FS,
        emit: &FP,
    ) -> (r: Result<Option<Value<'a, F>>, Stop>) where
        FO: Fn(&'a String) -> F,
        FB: Fn(BinaryOp, F, F) -> Result<Value<'a, F>, String>,
        FN: Fn(F) -> F,
        FS: Fn(F) -> String,
        FP: Fn(String),

        requires
            old(self).wf(),
            floats_fit(*float_of, *float_op, *float_neg, *float_show),
            forall|t: String| call_requires(*emit, (t,)),
        ensures
            final(self).wf(),
            final(self).frames().len() == old(self).frames().len(),
            stmt_spec(
                float_ops(*float_of, *float_op, *float_neg, *float_show),
                env_of(old(self).frames()),
                stmt_view(*stmt),
                depth as nat,
            ) == (stmt_result_view(r), env_of(final(self).frames())),
        decreases depth, 0int,
    {
        if depth == 0 {
            return Err(Stop::TooDeep);
        }
        match stmt {
            Stmt::Binding(binding) => {
                let v = match self.eval_expr(&binding.value, depth - 1, float_of, float_op, float_neg, float_show, emit) {
                    Ok(v) => v,
                    Err(e) => return Err(e),
                };
                proof {
                    self.lemma_has_scope();
                    lemma_env_define(self.frames(), binding.name@, v);
                }
                self.define(binding.name.clone(), v);
                Ok(None)
            },
            Stmt::Expr(e) => match self.eval_expr(e, depth - 1, float_of, float_op, float_neg, float_show, emit) {
                Ok(v) => Ok(Some(v)),
                Err(err) => Err(err),
            },
        }
    }
}


/// The names of a parameter list.
pub open spec fn param_names(ps: Seq<ParamV>) -> Seq<Seq<char>> {
    ps.map_values(|p: ParamV| p.name)
}

/// Running the top-level declarations in order: a function declaration
/// binds its name to the function, a binding binds its name to the value of
/// its expression, and a struct declaration halts.
pub open spec fn decls_spec<'a, F, FO, FB, FN, FS>(
    ops: FloatOps<FO, FB, FN, FS>,
    env: Seq<Map<Seq<char>, ValueV<F>>>,
    decls: Seq<SDeclV>,
    depth: nat,
) -> (Result<ValueV<F>, StopV>, Seq<Map<Seq<char>, ValueV<F>>>) where
    FO: Fn(&'a String) -> F,
    FB: Fn(BinaryOp, F, F) -> Result<Value<'a, F>, String>,
    FN: Fn(F) -> F,
    FS: Fn(F) -> String,

    decreases decls.len(),
{
    if depth == 0 {
        (Err(StopV::TooDeep), env)
    } else if decls.len() == 0 {
        (Ok(ValueV::Abyss), env)
    } else {
        let (o1, e1) = decls_spec(ops, env, decls.drop_last(), depth);
        match o1 {
            Err(s) => (Err(s), e1),
            Ok(_) => match decls.last().node {
                DeclV::Func(f) => (
                    Ok(ValueV::Abyss),
                    define_in(e1, f.name, ValueV::Function(param_names(f.params), BodyV::Block(f.body))),
                ),
                DeclV::Binding(b) => {
                    let (o2, e2) = eval_spec(ops, e1, b.value, (depth - 1) as nat);
                    match o2 {
                        Err(s) => (Err(s), e2),
                        Ok(v) => (Ok(ValueV::Abyss), define_in(e2, b.name, v)),
                    }
                },
                DeclV::Struct(_) => (Err(StopV::Halt), e1),
            },
        }
    }
}

/// Running a program: its declarations, then `main` called without
/// arguments when it is bound to a function; the value is `main`'s, or
/// `Abyss` when there is no `main`.
pub open spec fn program_spec<'a, F, FO, FB, FN, FS>(
    ops: FloatOps<FO, FB, FN, FS>,
    env: Seq<Map<Seq<char>, ValueV<F>>>,
    decls: Seq<SDeclV>,
    depth: nat,
) -> (Result<ValueV<F>, StopV>, Seq<Map<Seq<char>, ValueV<F>>>) where
    FO: Fn(&'a String) -> F,
    FB: Fn(BinaryOp, F, F) -> Result<Value<'a, F>, String>,
    FN: Fn(F) -> F,
    FS: Fn(F) -> String,
 {
    let (o, e) = decls_spec(ops, env, decls, depth);
    match o {
        Err(s) => (Err(s), e),
        Ok(_) => match lookup_in(e, "main"@) {
            Some(ValueV::Function(params, body)) => apply_spec(ops, e, params, body, Seq::empty(), depth),
            _ => (Ok(ValueV::Abyss), e),
        },
    }
}

proof fn lemma_decls_stops<'a, F, FO, FB, FN, FS>(
    ops: FloatOps<FO, FB, FN, FS>,
    env: Seq<Map<Seq<char>, ValueV<F>>>,
    decls: Seq<SDeclV>,
    depth: nat,
    i: int,
    j: int,
) where
    FO: Fn(&'a String) -> F,
    FB: Fn(BinaryOp, F, F) -> Result<Value<'a, F>, String>,
    FN: Fn(F) -> F,
    FS: Fn(F) -> String,

    requires
        0 <= i <= j <= decls.len(),
        decls_spec(ops, env, decls.take(i), depth).0 is Err,
    ensures
        decls_spec(ops, env, decls.take(j), depth) == decls_spec(ops, env, decls.take(i), depth),
    decreases j - i,
{
    if j > i {
        lemma_decls_stops(ops, env, decls, depth, i, j - 1);
        assert(decls.take(j).drop_last() =~= decls.take(j - 1));
    }
}

impl<'a, F: Copy> Interpreter<Value<'a, F>> {
    /// Runs a program given by its declarations, with at most `depth`
    /// nested evaluations.
    pub fn interpret<FO, FB, FN, FS, FP>(
        &mut self,
        decls: &'a Vec<SpannedDecl>,
        depth: usize,
        float_of: &FO,
        float_op: &FB,
        float_neg: &FN,
        float_show: &FS,
        emit: &FP,
    ) -> (r: Result<Value<'a, F>, Stop>) where
        FO: Fn(&'a String) -> F,
        FB: Fn(BinaryOp, F, F) -> Result<Value<'a, F>, String>,
        FN: Fn(F) -> F,
        FS: Fn(F) -> String,
        FP: Fn(String),

        requires
            old(self).wf(),
            floats_fit(*float_of, *float_op, *float_neg, *float_show),
            forall|t: String| call_requires(*emit, (t,)),
        ensures
            final(self).wf(),
            program_spec(
                float_ops(*float_of, *float_op, *float_neg, *float_show),
                env_of(old(self).frames()),
                sdecls_view(decls@),
                depth as nat,
            ) == (result_view(r), env_of(final(self).frames())),
    {
        let ghost ops = float_ops(*float_of, *float_op, *float_neg, *float_show);
        let ghost env0 = env_of(self.frames());
        let ghost dv = sdecls_view(decls@);
        if depth == 0 {
            return Err(Stop::TooDeep);
        }
        let mut i: usize = 0;
        assert(dv.take(0) =~= Seq::<SDeclV>::empty());
        while i < decls.len()
            invariant
                self.wf(),
                floats_fit(*float_of, *float_op, *float_neg, *float_show),
                forall|t: String| call_requires(*emit, (t,)),
                ops == float_ops(*float_of, *float_op, *float_neg, *float_show),
                env0 == env_of(old(self).frames()),
                dv == sdecls_view(decls@),
                depth > 0,
                i <= decls@.len(),
                decls_spec(ops, env0, dv.take(i as int), depth as nat) == (
                    Ok::<ValueV<F>, StopV>(ValueV::Abyss),
                    env_of(self.frames()),
                ),
            decreases decls@.len() - i,
        {
            assert(dv.take(i + 1).drop_last() =~= dv.take(i as int));
            assert(dv.take(i + 1).last() == sdecl_view(decls@[i as int]));
            match &decls[i].node {
                Decl::Func(f) => {
                    let mut names: Vec<String> = Vec::new();
                    let mut j: usize = 0;
                    while j < f.params.len()
                        invariant
                            j <= f.params@.len(),
                            names_view(names@) == param_names(params_view(f.params@)).take(j as int),
                        decreases f.params@.len() - j,
                    {
                        let ghost before = names_view(names@);
                        let ghost pn = param_names(params_view(f.params@));
                        names.push(f.params[j].name.clone());
                        assert(names_view(names@) =~= before.push(f.params@[j as int].name@));
                        assert(pn[j as int] == f.params@[j as int].name@);
                        assert(pn.take(j + 1) =~= pn.take(j as int).push(pn[j as int]));
                        j = j + 1;
                    }
                    assert(param_names(params_view(f.params@)).take(j as int) =~= param_names(params_view(f.params@)));
                    let value = Value::Function(names, Body::Block(&f.body));
                    proof {
                        self.lemma_has_scope();
                        lemma_env_define(self.frames(), f.name@, value);
                    }
                    self.define(f.name.clone(), value);
                },
                Decl::Binding(b) => {
                    let v = match self.eval_expr(&b.value, depth - 1, float_of, float_op, float_neg, float_show, emit) {
                        Ok(v) => v,
                        Err(e) => {
                            proof {
                                lemma_decls_stops(ops, env0, dv, depth as nat, i + 1, dv.len() as int);
                                assert(dv.take(dv.len() as int) =~= dv);
                            }
                            return Err(e);
                        },
                    };
                    proof {
                        self.lemma_has_scope();
                        lemma_env_define(self.frames(), b.name@, v);
                    }
                    self.define(b.name.clone(), v);
                },
                Decl::Struct(_) => {
                    proof {
                        lemma_decls_stops(ops, env0, dv, depth as nat, i + 1, dv.len() as int);
                        assert(dv.take(dv.len() as int) =~= dv);
                    }
                    return Err(Stop::Halt(String::from_str("struct declarations are not run")));
                },
            }
            i = i + 1;
        }
        assert(dv.take(i as int) =~= dv);
        let main_name = String::from_str("main");
        proof {
            lemma_env_lookup(self.frames(), main_name@);
        }
        let main = match self.lookup(&main_name) {
            Some(v) => copy_value(v),
            None => {
                return Ok(Value::Abyss);
            },
        };
        match main {
            Value::Function(params, body) => {
                let args: Vec<Value<'a, F>> = Vec::new();
                assert(values_view(args@) =~= Seq::<ValueV<F>>::empty());
                self.apply(&params, body, args, depth, float_of, float_op, float_neg, float_show, emit)
            },
            _ => Ok(Value::Abyss),
        }
    }
}


/// A character that may stand in the name of an interpolated variable.
pub open spec fn is_name_char(c: char) -> bool {
    ('a' <= c && c <= 'z') || ('A' <= c && c <= 'Z') || ('0' <= c && c <= '9') || c == '_'
}

/// The decimal text of `n`, with a leading `-` when it is negative.
pub open spec fn int_text(n: i64) -> Seq<char> {
    if n < 0 {
        seq!['-'] + decimal((-n) as nat)
    } else {
        decimal(n as nat)
    }
}

/// How a value shows inside an interpolated string.
pub open spec fn display_spec<F, FS>(show: FS, v: ValueV<F>) -> Seq<char> where FS: Fn(F) -> String {
    match v {
        ValueV::Int(n) => int_text(n),
        ValueV::Flt(f) => (choose|s: String| #[trigger] call_ensures(show, (f,), s))@,
        ValueV::Str(t) => t,
        ValueV::Bool(b) => if b {
            "true"@
        } else {
            "false"@
        },
        ValueV::List(_) => "<list>"@,
        ValueV::Mapping(_) => "<map>"@,
        ValueV::Abyss => "abyss"@,
        ValueV::Error(m) => m,
        ValueV::Function(_, _) => "<function>"@,
        ValueV::Builtin(n) => n,
    }
}

/// A placeholder `{name}` opens at `i` of `t`: a `{`, then one or more name
/// characters, then `}`.
pub open spec fn placeholder_at(t: Seq<char>, i: int) -> bool {
    let close = find_char(t, i + 1, '}');
    &&& 0 <= i < t.len()
    &&& t[i] == '{'
    &&& i + 1 < close < t.len()
    &&& forall|k: int| i + 1 <= k < close ==> #[trigger] is_name_char(t[k])
}

/// The text `t` from `i` on, with each placeholder `{name}` replaced by how
/// the value of `name` shows; an undefined name is an error at `span`.
pub open spec fn interpolate_spec<F, FS>(
    show: FS,
    env: Seq<Map<Seq<char>, ValueV<F>>>,
    t: Seq<char>,
    i: int,
    span: Span,
) -> Result<Seq<char>, StopV> where FS: Fn(F) -> String
    decreases t.len() - i,
{
    if i < 0 || i >= t.len() {
        Ok(Seq::empty())
    } else if placeholder_at(t, i) {
        let close = find_char(t, i + 1, '}');
        let name = t.subrange(i + 1, close);
        match lookup_in(env, name) {
            None => Err(runtime_error(undefined_variable(name), span)),
            Some(v) => match interpolate_spec(show, env, t, close + 1, span) {
                Ok(rest) => Ok(display_spec(show, v) + rest),
                Err(s) => Err(s),
            },
        }
    } else {
        match interpolate_spec(show, env, t, i + 1, span) {
            Ok(rest) => Ok(seq![t[i]] + rest),
            Err(s) => Err(s),
        }
    }
}

/// `if`: a condition that evaluates to `true` runs the first block and
/// only it, `false` runs the `else` block or gives `Abyss` without one, and
/// any other value is the error that the condition must be a boolean.
pub proof fn law_if_runs_one_branch<'a, F, FO, FB, FN, FS>(
    ops: FloatOps<FO, FB, FN, FS>,
    env: Seq<Map<Seq<char>, ValueV<F>>>,
    cond: SExprV,
    then_block: Seq<SStmtV>,
    else_block: Option<Seq<SStmtV>>,
    span: Span,
    depth: nat,
    c: ValueV<F>,
    e1: Seq<Map<Seq<char>, ValueV<F>>>,
) where
    FO: Fn(&'a String) -> F,
    FB: Fn(BinaryOp, F, F) -> Result<Value<'a, F>, String>,
    FN: Fn(F) -> F,
    FS: Fn(F) -> String,
    requires
        depth > 0,
        eval_spec(ops, env, cond, (depth - 1) as nat) == (Ok::<ValueV<F>, StopV>(c), e1),
    ensures
        ({
            let r = eval_spec(
                ops,
                env,
                SExprV { node: ExprV::If(Box::new(cond), then_block, else_block), span },
                depth,
            );
            &&& c == ValueV::<F>::Bool(true) ==> r == block_spec(ops, e1, then_block, (depth - 1) as nat)
            &&& c == ValueV::<F>::Bool(false) ==> r == match else_block {
                Some(b) => block_spec(ops, e1, b, (depth - 1) as nat),
                None => (Ok::<ValueV<F>, StopV>(ValueV::Abyss), e1),
            }
            &&& !(c is Bool) ==> r == (
                Err::<ValueV<F>, StopV>(runtime_error("condition must be a boolean"@, span)),
                e1,
            )
        }),
{
}

/// A block's value is that of its last expression statement: a block that
/// ends in an expression statement has that expression's value, a binding
/// at the end keeps the value before it, and an empty block is `Abyss`.
pub proof fn law_block_value_is_last_expression<'a, F, FO, FB, FN, FS>(
    ops: FloatOps<FO, FB, FN, FS>,
    env: Seq<Map<Seq<char>, ValueV<F>>>,
    stmts: Seq<SStmtV>,
    last: SStmtV,
    depth: nat,
    w: ValueV<F>,
    e1: Seq<Map<Seq<char>, ValueV<F>>>,
    v: ValueV<F>,
    e2: Seq<Map<Seq<char>, ValueV<F>>>,
) where
    FO: Fn(&'a String) -> F,
    FB: Fn(BinaryOp, F, F) -> Result<Value<'a, F>, String>,
    FN: Fn(F) -> F,
    FS: Fn(F) -> String,
    requires
        depth > 0,
        block_spec(ops, env, stmts, depth) == (Ok::<ValueV<F>, StopV>(w), e1),
    ensures
        block_spec(ops, env, Seq::<SStmtV>::empty(), depth) == (Ok::<ValueV<F>, StopV>(ValueV::Abyss), env),
        stmt_spec(ops, e1, last.node, (depth - 1) as nat) == (Ok::<Option<ValueV<F>>, StopV>(Some(v)), e2)
            ==> block_spec(ops, env, stmts.push(last), depth) == (Ok::<ValueV<F>, StopV>(v), e2),
        stmt_spec(ops, e1, last.node, (depth - 1) as nat) == (Ok::<Option<ValueV<F>>, StopV>(None), e2)
            ==> block_spec(ops, env, stmts.push(last), depth) == (Ok::<ValueV<F>, StopV>(w), e2),
{
    assert(stmts.push(last).drop_last() =~= stmts);
}

/// No implicit promotion between integers and floats: every binary
/// operator on an integer and a float, in either order, is the type
/// mismatch of that operator at the expression's place.
pub proof fn law_no_int_float_promotion<'a, F, FB>(fb: FB, op: BinaryOp, a: i64, f: F, span: Span) where
    FB: Fn(BinaryOp, F, F) -> Result<Value<'a, F>, String>,

    ensures
        binary_spec(fb, op, ValueV::Int(a), ValueV::Flt(f), span) == Err::<ValueV<F>, StopV>(
            runtime_error(binary_mismatch(op), span),
        ),
        binary_spec(fb, op, ValueV::Flt(f), ValueV::Int(a), span) == Err::<ValueV<F>, StopV>(
            runtime_error(binary_mismatch(op), span),
        ),
{
}

/// A binary expression evaluates its left operand, then its right one in
/// the scopes the left left behind, then applies the operator; on two
/// integers that is the integer operator, and where that overflows
/// evaluation halts.
pub proof fn law_binary_on_integers<'a, F, FO, FB, FN, FS>(
    ops: FloatOps<FO, FB, FN, FS>,
    env: Seq<Map<Seq<char>, ValueV<F>>>,
    l: SExprV,
    op: BinaryOp,
    r: SExprV,
    span: Span,
    depth: nat,
    a: i64,
    b: i64,
    e1: Seq<Map<Seq<char>, ValueV<F>>>,
    e2: Seq<Map<Seq<char>, ValueV<F>>>,
) where
    FO: Fn(&'a String) -> F,
    FB: Fn(BinaryOp, F, F) -> Result<Value<'a, F>, String>,
    FN: Fn(F) -> F,
    FS: Fn(F) -> String,
    requires
        depth > 0,
        eval_spec(ops, env, l, (depth - 1) as nat) == (Ok::<ValueV<F>, StopV>(ValueV::Int(a)), e1),
        eval_spec(ops, e1, r, (depth - 1) as nat) == (Ok::<ValueV<F>, StopV>(ValueV::Int(b)), e2),
    ensures
        ({
            let res = eval_spec(
                ops,
                env,
                SExprV { node: ExprV::Binary(Box::new(l), op, Box::new(r)), span },
                depth,
            );
            &&& res.1 == e2
            &&& int_op_defined(op, a, b) ==> res.0 == match int_binary(op, a, b) {
                Ok(Scalar::Int(n)) => Ok::<ValueV<F>, StopV>(ValueV::Int(n)),
                Ok(Scalar::Bool(x)) => Ok::<ValueV<F>, StopV>(ValueV::Bool(x)),
                Err(m) => Err::<ValueV<F>, StopV>(runtime_error(m, span)),
            }
            &&& !int_op_defined(op, a, b) ==> res.0 == Err::<ValueV<F>, StopV>(StopV::Halt)
        }),
{
}

/// A variable evaluates to the value of its innermost binding, and an
/// unbound one is the error naming it; neither changes the scopes. After
/// assigning `v` to a bound name, the name evaluates to `v`.
pub proof fn law_variables<'a, F, FO, FB, FN, FS>(
    ops: FloatOps<FO, FB, FN, FS>,
    env: Seq<Map<Seq<char>, ValueV<F>>>,
    name: Seq<char>,
    value: SExprV,
    span: Span,
    depth: nat,
    v: ValueV<F>,
    e1: Seq<Map<Seq<char>, ValueV<F>>>,
) where
    FO: Fn(&'a String) -> F,
    FB: Fn(BinaryOp, F, F) -> Result<Value<'a, F>, String>,
    FN: Fn(F) -> F,
    FS: Fn(F) -> String,
    requires
        depth > 0,
        eval_spec(ops, env, value, (depth - 1) as nat) == (Ok::<ValueV<F>, StopV>(v), e1),
    ensures
        eval_spec(ops, env, SExprV { node: ExprV::Identifier(name), span }, depth) == match lookup_in(env, name) {
            Some(w) => (Ok::<ValueV<F>, StopV>(w), env),
            None => (Err::<ValueV<F>, StopV>(runtime_error(undefined_variable(name), span)), env),
        },
        ({
            let id = SExprV { node: ExprV::Identifier(name), span };
            let after = eval_spec(ops, env, SExprV { node: ExprV::Assign(Box::new(id), Box::new(value)), span }, depth);
            &&& lookup_in(e1, name) is Some ==> after.0 == Ok::<ValueV<F>, StopV>(ValueV::Abyss)
                && eval_spec(ops, after.1, id, depth).0 == Ok::<ValueV<F>, StopV>(v)
            &&& lookup_in(e1, name) is None ==> after == (
                Err::<ValueV<F>, StopV>(runtime_error(undefined_variable(name), span)),
                e1,
            )
        }),
{
    crate::interpreter::law_assign_then_lookup(e1, name, v, name);
}

/// A string without `{` interpolates to itself.
pub proof fn law_plain_strings_stay<F, FS>(show: FS, env: Seq<Map<Seq<char>, ValueV<F>>>, t: Seq<char>, i: int, span: Span) where
    FS: Fn(F) -> String,

    requires
        0 <= i <= t.len(),
        forall|k: int| 0 <= k < t.len() ==> t[k] != '{',
    ensures
        interpolate_spec(show, env, t, i, span) == Ok::<Seq<char>, StopV>(t.subrange(i, t.len() as int)),
    decreases t.len() - i,
{
    if i < t.len() {
        law_plain_strings_stay(show, env, t, i + 1, span);
        assert(seq![t[i]] + t.subrange(i + 1, t.len() as int) =~= t.subrange(i, t.len() as int));
    } else {
        assert(t.subrange(i, t.len() as int) =~= Seq::<char>::empty());
    }
}


/// A call evaluates the callee, then the arguments in order, then runs the
/// function's body in a new scope binding each parameter to the argument at
/// its position; a pipeline `l >> f(args)` does the same with the value of
/// `l` put before the arguments, so that it binds the first parameter.
pub proof fn law_calls_and_pipelines<'a, F, FO, FB, FN, FS>(
    ops: FloatOps<FO, FB, FN, FS>,
    env: Seq<Map<Seq<char>, ValueV<F>>>,
    left: SExprV,
    callee: SExprV,
    args: Seq<SExprV>,
    span: Span,
    call_span: Span,
    depth: nat,
    lv: ValueV<F>,
    params: Seq<Seq<char>>,
    body: BodyV,
    avs: Seq<ValueV<F>>,
    e0: Seq<Map<Seq<char>, ValueV<F>>>,
    e1: Seq<Map<Seq<char>, ValueV<F>>>,
    e2: Seq<Map<Seq<char>, ValueV<F>>>,
) where
    FO: Fn(&'a String) -> F,
    FB: Fn(BinaryOp, F, F) -> Result<Value<'a, F>, String>,
    FN: Fn(F) -> F,
    FS: Fn(F) -> String,
    requires
        depth > 0,
        eval_spec(ops, env, callee, (depth - 1) as nat) == (
            Ok::<ValueV<F>, StopV>(ValueV::Function(params, body)),
            e1,
        ),
        eval_all_spec(ops, e1, args, depth) == (Ok::<Seq<ValueV<F>>, StopV>(avs), e2),
    ensures
        exists|scope: Map<Seq<char>, ValueV<F>>|
            #[trigger] binds_parameters(scope, params, avs) && eval_spec(
                ops,
                env,
                SExprV { node: ExprV::Call(Box::new(callee), args), span },
                depth,
            ) == run_body(ops, e2, scope, body, depth),
        eval_spec(ops, e0, left, (depth - 1) as nat) == (Ok::<ValueV<F>, StopV>(lv), env) ==> exists|
            scope: Map<Seq<char>, ValueV<F>>,
        |
            #[trigger] binds_parameters(scope, params, seq![lv] + avs) && eval_spec(
                ops,
                e0,
                SExprV {
                    node: ExprV::Pipeline(
                        Box::new(left),
                        Box::new(SExprV { node: ExprV::Call(Box::new(callee), args), span: call_span }),
                    ),
                    span,
                },
                depth,
            ) == run_body(ops, e2, scope, body, depth),
{
    law_call_binds_parameters(ops, e2, params, body, avs, depth);
    law_call_binds_parameters(ops, e2, params, body, seq![lv] + avs, depth);
}

/// A loop over an empty list runs nothing and gives `Abyss`; over one
/// element it runs the body once in a new scope where the loop variable is
/// bound to the element, and leaves that scope afterwards.
pub proof fn law_loop_binds_its_variable<'a, F, FO, FB, FN, FS>(
    ops: FloatOps<FO, FB, FN, FS>,
    env: Seq<Map<Seq<char>, ValueV<F>>>,
    vars: Seq<Seq<char>>,
    x: ValueV<F>,
    body: Seq<SStmtV>,
    depth: nat,
) where
    FO: Fn(&'a String) -> F,
    FB: Fn(BinaryOp, F, F) -> Result<Value<'a, F>, String>,
    FN: Fn(F) -> F,
    FS: Fn(F) -> String,
    requires
        depth > 0,
        vars.len() >= 1,
    ensures
        loop_spec(ops, env, vars, Seq::<ValueV<F>>::empty(), body, depth) == (
            Ok::<ValueV<F>, StopV>(ValueV::Abyss),
            env,
        ),
        ({
            let (o, e2) = block_spec(
                ops,
                env.push(Map::<Seq<char>, ValueV<F>>::empty().insert(vars[0], x)),
                body,
                (depth - 1) as nat,
            );
            loop_spec(ops, env, vars, seq![x], body, depth) == (
                match o {
                    Ok(_) => Ok::<ValueV<F>, StopV>(ValueV::Abyss),
                    Err(s) => Err(s),
                },
                e2.drop_last(),
            )
        }),
{
    assert(seq![x].drop_last() =~= Seq::<ValueV<F>>::empty());
    let f = env.push(Map::<Seq<char>, ValueV<F>>::empty());
    assert(define_in(f, vars[0], x) =~= env.push(Map::<Seq<char>, ValueV<F>>::empty().insert(vars[0], x)));
}


/// `-` negates an integer operand and `!` flips a truth value; `-` on a
/// truth value and `!` on an integer are mismatches at the expression.
pub proof fn law_unary_on_values<'a, F, FO, FB, FN, FS>(
    ops: FloatOps<FO, FB, FN, FS>,
    env: Seq<Map<Seq<char>, ValueV<F>>>,
    x: SExprV,
    span: Span,
    depth: nat,
    v: ValueV<F>,
    e1: Seq<Map<Seq<char>, ValueV<F>>>,
) where
    FO: Fn(&'a String) -> F,
    FB: Fn(BinaryOp, F, F) -> Result<Value<'a, F>, String>,
    FN: Fn(F) -> F,
    FS: Fn(F) -> String,
    requires
        depth > 0,
        eval_spec(ops, env, x, (depth - 1) as nat) == (Ok::<ValueV<F>, StopV>(v), e1),
    ensures
        ({
            let neg = eval_spec(ops, env, SExprV { node: ExprV::Unary(UnaryOp::Neg, Box::new(x)), span }, depth);
            let not = eval_spec(ops, env, SExprV { node: ExprV::Unary(UnaryOp::Not, Box::new(x)), span }, depth);
            &&& neg.1 == e1 && not.1 == e1
            &&& (v is Int && v->Int_0 != i64::MIN) ==> neg.0 == Ok::<ValueV<F>, StopV>(ValueV::Int((-v->Int_0) as i64))
            &&& v is Bool ==> not.0 == Ok::<ValueV<F>, StopV>(ValueV::Bool(!v->Bool_0))
            &&& v is Bool ==> neg.0 == Err::<ValueV<F>, StopV>(runtime_error("type mismatch: -"@, span))
            &&& v is Int ==> not.0 == Err::<ValueV<F>, StopV>(runtime_error("type mismatch: !"@, span))
        }),
{
}

/// A placeholder `{name}` that is the whole text shows the value of `name`;
/// when `name` is unbound it is the error naming it.
pub proof fn law_placeholder_shows_value<F, FS>(
    show: FS,
    env: Seq<Map<Seq<char>, ValueV<F>>>,
    name: Seq<char>,
    span: Span,
) where
    FS: Fn(F) -> String,

    requires
        name.len() >= 1,
        forall|k: int| 0 <= k < name.len() ==> is_name_char(#[trigger] name[k]),
    ensures
        ({
            let t = seq!['{'] + name + seq!['}'];
            interpolate_spec(show, env, t, 0, span) == match lookup_in(env, name) {
                Some(v) => Ok::<Seq<char>, StopV>(display_spec(show, v)),
                None => Err::<Seq<char>, StopV>(runtime_error(undefined_variable(name), span)),
            }
        }),
{
    let t = seq!['{'] + name + seq!['}'];
    let close = t.len() - 1;
    assert forall|k: int| 1 <= k < close implies t[k] != '}' by {
        assert(t[k] == name[k - 1]);
        assert(is_name_char(name[k - 1]));
    }
    lemma_find_char_first(t, 1, '}', close);
    assert(t.subrange(1, close) =~= name);
    assert forall|k: int| 1 <= k < close implies #[trigger] is_name_char(t[k]) by {
        assert(t[k] == name[k - 1]);
    }
    assert(placeholder_at(t, 0));
    assert(interpolate_spec(show, env, t, close + 1, span) == Ok::<Seq<char>, StopV>(Seq::<char>::empty()));
    if let Some(v) = lookup_in(env, name) {
        assert(display_spec(show, v) + Seq::<char>::empty() =~= display_spec(show, v));
    }
}

/// The first `ch` from `i` on is at `j` when it stands there and nowhere
/// between.
proof fn lemma_find_char_first(s: Seq<char>, i: int, ch: char, j: int)
    requires
        0 <= i <= j < s.len(),
        s[j] == ch,
        forall|k: int| i <= k < j ==> s[k] != ch,
    ensures
        find_char(s, i, ch) == j,
    decreases j - i,
{
    if i < j {
        lemma_find_char_first(s, i + 1, ch, j);
    }
}


/// Indexing: when the target evaluates to a list of `n` elements and the
/// index to an integer `i`, the result is the element at position `i` for
/// `0 <= i < n`, and an error exactly when `i` lies outside.
pub proof fn law_index_gives_element<'a, F, FO, FB, FN, FS>(
    ops: FloatOps<FO, FB, FN, FS>,
    env: Seq<Map<Seq<char>, ValueV<F>>>,
    target: SExprV,
    index: SExprV,
    span: Span,
    depth: nat,
    items: Seq<ValueV<F>>,
    i: i64,
    e1: Seq<Map<Seq<char>, ValueV<F>>>,
    e2: Seq<Map<Seq<char>, ValueV<F>>>,
) where
    FO: Fn(&'a String) -> F,
    FB: Fn(BinaryOp, F, F) -> Result<Value<'a, F>, String>,
    FN: Fn(F) -> F,
    FS: Fn(F) -> String,

    requires
        depth > 0,
        eval_spec(ops, env, target, (depth - 1) as nat) == (Ok::<ValueV<F>, StopV>(ValueV::List(items)), e1),
        eval_spec(ops, e1, index, (depth - 1) as nat) == (Ok::<ValueV<F>, StopV>(ValueV::Int(i)), e2),
    ensures
        ({
            let r = eval_spec(
                ops,
                env,
                SExprV { node: ExprV::Index(Box::new(target), Box::new(index)), span },
                depth,
            );
            &&& r.1 == e2
            &&& 0 <= i < items.len() ==> r.0 == Ok::<ValueV<F>, StopV>(items[i as int])
            &&& (i < 0 || i >= items.len()) ==> r.0 is Err
        }),
{
}

/// The last map of `define_all(f, ns, vs)`: each name of `ns` not repeated
/// later is bound to its value, other names keep what `f` had.
proof fn lemma_define_all<V>(f: Seq<Map<Seq<char>, V>>, ns: Seq<Seq<char>>, vs: Seq<V>)
    requires
        f.len() >= 1,
        ns.len() == vs.len(),
    ensures
        define_all(f, ns, vs).len() == f.len(),
        define_all(f, ns, vs).drop_last() == f.drop_last(),
        forall|i: int|
            0 <= i < ns.len() && (forall|j: int| i < j < ns.len() ==> ns[j] != ns[i]) ==> (#[trigger] define_all(
                f,
                ns,
                vs,
            ).last().contains_key(ns[i]) && define_all(f, ns, vs).last()[ns[i]] == vs[i]),
        forall|n: Seq<char>|
            #[trigger] define_all(f, ns, vs).last().contains_key(n) ==> f.last().contains_key(n) || exists|
                i: int,
            | 0 <= i < ns.len() && ns[i] == n,
    decreases ns.len(),
{
    if ns.len() > 0 {
        let pn = ns.drop_last();
        let pv = vs.drop_last();
        lemma_define_all(f, pn, pv);
        let g = define_all(f, pn, pv);
        let h = define_all(f, ns, vs);
        assert(h == define_in(g, ns.last(), vs.last()));
        assert(h.drop_last() =~= g.drop_last());
        assert forall|i: int|
            0 <= i < ns.len() && (forall|j: int| i < j < ns.len() ==> ns[j] != ns[i]) implies (#[trigger] h.last().contains_key(
            ns[i])) && h.last()[ns[i]] == vs[i] by {
            if i < ns.len() - 1 {
                assert(ns[ns.len() - 1] != ns[i]);
                assert(pn[i] == ns[i]);
                assert(forall|j: int| i < j < pn.len() ==> pn[j] != pn[i]);
            }
        }
        assert forall|n: Seq<char>| #[trigger] h.last().contains_key(n) implies f.last().contains_key(n)
            || exists|i: int| 0 <= i < ns.len() && ns[i] == n by {
            if n != ns.last() {
                assert(g.last().contains_key(n));
                if !f.last().contains_key(n) {
                    let i = choose|i: int| 0 <= i < pn.len() && pn[i] == n;
                    assert(ns[i] == n);
                }
            } else {
                assert(ns[ns.len() - 1] == n);
            }
        }
    }
}

/// `scope` binds each of the first `k` parameters, `k` being the fewer of
/// `params` and `args`, to the argument at its position (the last one for a
/// repeated name), and nothing else.
pub open spec fn binds_parameters<F>(scope: Map<Seq<char>, ValueV<F>>, params: Seq<Seq<char>>, args: Seq<ValueV<F>>) -> bool {
    let k = if params.len() < args.len() {
        params.len() as int
    } else {
        args.len() as int
    };
    &&& forall|i: int|
        0 <= i < k && (forall|j: int| i < j < k ==> params[j] != params[i]) ==> (
        #[trigger] scope.contains_key(params[i]) && scope[params[i]] == args[i])
    &&& forall|n: Seq<char>| #[trigger] scope.contains_key(n) ==> exists|i: int| 0 <= i < k && params[i] == n
}

/// Running a function body in a new innermost scope `scope` over `env`,
/// and leaving that scope afterwards.
pub open spec fn run_body<'a, F, FO, FB, FN, FS>(
    ops: FloatOps<FO, FB, FN, FS>,
    env: Seq<Map<Seq<char>, ValueV<F>>>,
    scope: Map<Seq<char>, ValueV<F>>,
    body: BodyV,
    depth: nat,
) -> (Result<ValueV<F>, StopV>, Seq<Map<Seq<char>, ValueV<F>>>) where
    FO: Fn(&'a String) -> F,
    FB: Fn(BinaryOp, F, F) -> Result<Value<'a, F>, String>,
    FN: Fn(F) -> F,
    FS: Fn(F) -> String,
 {
    let (o, e2) = match body {
        BodyV::Expr(x) => eval_spec(ops, env.push(scope), x, (depth - 1) as nat),
        BodyV::Block(b) => block_spec(ops, env.push(scope), b, (depth - 1) as nat),
    };
    (o, e2.drop_last())
}

/// Calling a function with parameters `params` on `args`: its body runs in
/// a new innermost scope that binds each of the first `k` parameters, `k`
/// being the fewer of parameters and arguments, to the argument at its
/// position (the last one for a repeated name) and binds nothing else;
/// that scope is left afterwards.
pub proof fn law_call_binds_parameters<'a, F, FO, FB, FN, FS>(
    ops: FloatOps<FO, FB, FN, FS>,
    env: Seq<Map<Seq<char>, ValueV<F>>>,
    params: Seq<Seq<char>>,
    body: BodyV,
    args: Seq<ValueV<F>>,
    depth: nat,
) where
    FO: Fn(&'a String) -> F,
    FB: Fn(BinaryOp, F, F) -> Result<Value<'a, F>, String>,
    FN: Fn(F) -> F,
    FS: Fn(F) -> String,

    requires
        depth > 0,
    ensures
        exists|scope: Map<Seq<char>, ValueV<F>>|
            #[trigger] binds_parameters(scope, params, args) && apply_spec(ops, env, params, body, args, depth)
                == run_body(ops, env, scope, body, depth),
{
    let k = if params.len() < args.len() {
        params.len() as int
    } else {
        args.len() as int
    };
    let f = env.push(Map::empty());
    let ns = params.take(k);
    let vs = args.take(k);
    lemma_define_all(f, ns, vs);
    let inner = define_all(f, ns, vs);
    let scope = inner.last();
    assert(inner =~= env.push(scope)) by {
        assert(f.drop_last() =~= env);
    }
    assert forall|i: int| 0 <= i < k && (forall|j: int| i < j < k ==> params[j] != params[i]) implies (
    #[trigger] scope.contains_key(params[i]) && scope[params[i]] == args[i]) by {
        assert(ns[i] == params[i]);
        assert(vs[i] == args[i]);
        assert(forall|j: int| i < j < ns.len() ==> ns[j] != ns[i]);
    }
    assert forall|n: Seq<char>| #[trigger] scope.contains_key(n) implies exists|i: int| 0 <= i < k && params[i] == n by {
        assert(!f.last().contains_key(n));
        let i = choose|i: int| 0 <= i < ns.len() && ns[i] == n;
        assert(params[i] == n);
    }
    assert(binds_parameters(scope, params, args));
    assert(apply_spec(ops, env, params, body, args, depth) == run_body(ops, env, scope, body, depth));
}

/// The decimal digits of `m` are digits, start with a digit, and spell `m`.
proof fn lemma_decimal_reads_back(m: nat)
    ensures
        decimal(m).len() >= 1,
        all_digits(decimal(m)),
        digits_value(decimal(m)) == m,
    decreases m,
{
    if m >= 10 {
        lemma_decimal_reads_back(m / 10);
        let d = decimal(m);
        assert(d.drop_last() =~= decimal(m / 10));
        assert(digit_value(d.last()) == m % 10);
        assert(digits_value(d) == (m / 10) * 10 + m % 10);
        assert((m / 10) * 10 + m % 10 == m);
        assert(forall|i: int| 0 <= i < d.len() ==> is_digit(#[trigger] d[i])) by {
            assert forall|i: int| 0 <= i < d.len() implies is_digit(#[trigger] d[i]) by {
                if i < d.len() - 1 {
                    assert(d[i] == decimal(m / 10)[i]);
                }
            }
        }
    } else {
        let d = decimal(m);
        assert(d =~= seq![digit_char(m as int)]);
        assert(d.drop_last() =~= Seq::<char>::empty());
        assert(digit_value(d.last()) == m);
        assert(digits_value(d.drop_last()) == 0);
        assert(digits_value(d) == m);
    }
}

/// An integer shown in an interpolated string reads back, as
/// `i64::from_str` reads it, as that same integer; so distinct integers
/// show differently.
pub proof fn law_integers_show_as_themselves<F, FS>(show: FS, n: i64) where FS: Fn(F) -> String
    ensures
        parse_i64(display_spec(show, ValueV::<F>::Int(n))) == Some(n),
{
    let t = display_spec(show, ValueV::<F>::Int(n));
    if n < 0 {
        let m = (-n) as nat;
        lemma_decimal_reads_back(m);
        assert(t.drop_first() =~= decimal(m));
        assert(t[0] == '-');
    } else {
        lemma_decimal_reads_back(n as nat);
        assert(is_digit(t[0]));
    }
}

/// Distinct integers show as distinct texts.
pub proof fn law_integers_show_apart<F, FS>(show: FS, a: i64, b: i64) where FS: Fn(F) -> String
    requires
        a != b,
    ensures
        display_spec(show, ValueV::<F>::Int(a)) != display_spec(show, ValueV::<F>::Int(b)),
{
    law_integers_show_as_themselves::<F, FS>(show, a);
    law_integers_show_as_themselves::<F, FS>(show, b);
}

fn push_all(out: &mut String, s: &String)
    ensures
        final(out)@ == old(out)@ + s@,
{
    let chars = chars_of(s.as_str());
    let mut i: usize = 0;
    while i < chars.len()
        invariant
            i <= chars@.len(),
            chars@ == s@,
            out@ == old(out)@ + s@.take(i as int),
        decreases chars@.len() - i,
    {
        push_char(out, chars[i]);
        i = i + 1;
        assert(s@.take(i as int) =~= s@.take(i - 1).push(chars@[i - 1]));
        assert(out@ =~= old(out)@ + s@.take(i as int));
    }
    assert(s@.take(i as int) =~= s@);
}

/// How `v` shows inside an interpolated string.
pub fn display<'a, F: Copy, FS>(v: &Value<'a, F>, float_show: &FS) -> (s: String) where
    FS: Fn(F) -> String,

    requires
        forall|a: F| call_requires(*float_show, (a,)),
        forall|a: F, s1: String, s2: String|
            #![trigger call_ensures(*float_show, (a,), s1), call_ensures(*float_show, (a,), s2)]
            call_ensures(*float_show, (a,), s1) && call_ensures(*float_show, (a,), s2) ==> s1@ == s2@,
    ensures
        s@ == display_spec(*float_show, value_view(*v)),
{
    match v {
        Value::Int(n) => {
            let mut s = String::new();
            if *n < 0 {
                push_char(&mut s, '-');
                let m: u64 = (-(*n as i128)) as u64;
                push_decimal_u64(&mut s, m);
                assert(s@ =~= int_text(*n));
            } else {
                push_decimal_u64(&mut s, *n as u64);
                assert(s@ =~= int_text(*n));
            }
            s
        },
        Value::Flt(f) => {
            let s = (*float_show)(*f);
            proof {
                let c = choose|s: String| #[trigger] call_ensures(*float_show, (*f,), s);
                assert(call_ensures(*float_show, (*f,), s));
                assert(c@ == s@);
            }
            s
        },
        Value::Str(t) => t.clone(),
        Value::Bool(b) => if *b {
            String::from_str("true")
        } else {
            String::from_str("false")
        },
        Value::List(_) => String::from_str("<list>"),
        Value::Mapping(_) => String::from_str("<map>"),
        Value::Abyss => String::from_str("abyss"),
        Value::Error(m) => m.clone(),
        Value::Function(_, _) => String::from_str("<function>"),
        Value::Builtin(n) => n.clone(),
    }
}

impl<'a, F: Copy> Interpreter<Value<'a, F>> {
    /// The string literal `text` with its placeholders `{name}` replaced by
    /// how the values of the names show.
    pub fn interpolate<FS>(&self, text: &String, span: &Span, float_show: &FS) -> (r: Result<String, Stop>) where
        FS: Fn(F) -> String,

        requires
            self.wf(),
            forall|a: F| call_requires(*float_show, (a,)),
            forall|a: F, s1: String, s2: String|
                #![trigger call_ensures(*float_show, (a,), s1), call_ensures(*float_show, (a,), s2)]
                call_ensures(*float_show, (a,), s1) && call_ensures(*float_show, (a,), s2) ==> s1@ == s2@,
        ensures
            match r {
                Ok(s) => interpolate_spec(*float_show, env_of(self.frames()), text@, 0, *span) == Ok::<
                    Seq<char>,
                    StopV,
                >(s@),
                Err(s) => interpolate_spec(*float_show, env_of(self.frames()), text@, 0, *span) == Err::<
                    Seq<char>,
                    StopV,
                >(stop_view(s)),
            },
    {
        let ghost env = env_of(self.frames());
        let ghost t = text@;
        let chars = chars_of(text.as_str());
        let mut out = String::new();
        let mut i: usize = 0;
        while i < chars.len()
            invariant
                self.wf(),
                env == env_of(self.frames()),
                chars@ == t,
                t == text@,
                i <= t.len(),
                forall|a: F| call_requires(*float_show, (a,)),
                forall|a: F, s1: String, s2: String|
                    #![trigger call_ensures(*float_show, (a,), s1), call_ensures(*float_show, (a,), s2)]
                    call_ensures(*float_show, (a,), s1) && call_ensures(*float_show, (a,), s2) ==> s1@ == s2@,
                interpolate_spec(*float_show, env, t, 0, *span) == match interpolate_spec(
                    *float_show,
                    env,
                    t,
                    i as int,
                    *span,
                ) {
                    Ok(rest) => Ok::<Seq<char>, StopV>(out@ + rest),
                    Err(s) => Err(s),
                },
            decreases t.len() - i,
        {
            let mut done = false;
            if chars[i] == '{' {
                let mut close = i + 1;
                while close < chars.len() && chars[close] != '}'
                    invariant
                        i + 1 <= close <= t.len(),
                        chars@ == t,
                        find_char(t, i + 1, '}') == find_char(t, close as int, '}'),
                    decreases t.len() - close,
                {
                    close = close + 1;
                }
                if close < chars.len() && close > i + 1 {
                    let mut k = i + 1;
                    let mut ok = true;
                    while k < close
                        invariant
                            i + 1 <= k <= close,
                            close < t.len(),
                            chars@ == t,
                            ok <==> forall|m: int| i + 1 <= m < k ==> #[trigger] is_name_char(t[m]),
                        decreases close - k,
                    {
                        let c = chars[k];
                        let good = ('a' <= c && c <= 'z') || ('A' <= c && c <= 'Z') || ('0' <= c && c <= '9')
                            || c == '_';
                        assert(good == is_name_char(t[k as int]));
                        if !good {
                            ok = false;
                        }
                        k = k + 1;
                    }
                    if ok {
                        let mut name = String::new();
                        let mut m = i + 1;
                        while m < close
                            invariant
                                i + 1 <= m <= close,
                                close < t.len(),
                                chars@ == t,
                                name@ == t.subrange(i + 1, m as int),
                            decreases close - m,
                        {
                            push_char(&mut name, chars[m]);
                            m = m + 1;
                            assert(name@ =~= t.subrange(i + 1, m as int));
                        }
                        assert(placeholder_at(t, i as int));
                        proof {
                            lemma_env_lookup(self.frames(), name@);
                        }
                        match self.lookup(&name) {
                            Some(v) => {
                                let shown = display(v, float_show);
                                let ghost before = out@;
                                push_all(&mut out, &shown);
                                proof {
                                    let next = interpolate_spec(*float_show, env, t, close + 1, *span);
                                    match next {
                                        Ok(rest) => {
                                            assert(before + (shown@ + rest) =~= out@ + rest);
                                        },
                                        Err(_) => {},
                                    }
                                }
                                i = close + 1;
                                done = true;
                            },
                            None => {
                                let msg = undefined_message(&name);
                                return Err(Stop::Error(self.error(msg.as_str(), span)));
                            },
                        }
                    } else {
                        assert(!placeholder_at(t, i as int));
                    }
                } else {
                    assert(!placeholder_at(t, i as int));
                }
            }
            if !done {
                assert(!placeholder_at(t, i as int));
                let ghost before = out@;
                push_char(&mut out, chars[i]);
                proof {
                    let next = interpolate_spec(*float_show, env, t, i + 1, *span);
                    match next {
                        Ok(rest) => {
                            assert(before + (seq![t[i as int]] + rest) =~= out@ + rest);
                        },
                        Err(_) => {},
                    }
                }
                i = i + 1;
            }
        }
        assert(out@ + Seq::<char>::empty() =~= out@);
        Ok(out)
    }
}


proof fn lemma_filter_stops<'a, F, FO, FB, FN, FS>(
    ops: FloatOps<FO, FB, FN, FS>,
    env: Seq<Map<Seq<char>, ValueV<F>>>,
    params: Seq<Seq<char>>,
    body: BodyV,
    xs: Seq<ValueV<F>>,
    span: Span,
    depth: nat,
    i: int,
    j: int,
) where
    FO: Fn(&'a String) -> F,
    FB: Fn(BinaryOp, F, F) -> Result<Value<'a, F>, String>,
    FN: Fn(F) -> F,
    FS: Fn(F) -> String,

    requires
        0 <= i <= j <= xs.len(),
        filter_spec(ops, env, params, body, xs.take(i), span, depth).0 is Err,
    ensures
        filter_spec(ops, env, params, body, xs.take(j), span, depth) == filter_spec(
            ops,
            env,
            params,
            body,
            xs.take(i),
            span,
            depth,
        ),
    decreases j - i,
{
    if j > i {
        lemma_filter_stops(ops, env, params, body, xs, span, depth, i, j - 1);
        assert(xs.take(j).drop_last() =~= xs.take(j - 1));
    }
}

proof fn lemma_map_stops<'a, F, FO, FB, FN, FS>(
    ops: FloatOps<FO, FB, FN, FS>,
    env: Seq<Map<Seq<char>, ValueV<F>>>,
    params: Seq<Seq<char>>,
    body: BodyV,
    xs: Seq<ValueV<F>>,
    depth: nat,
    i: int,
    j: int,
) where
    FO: Fn(&'a String) -> F,
    FB: Fn(BinaryOp, F, F) -> Result<Value<'a, F>, String>,
    FN: Fn(F) -> F,
    FS: Fn(F) -> String,

    requires
        0 <= i <= j <= xs.len(),
        map_spec(ops, env, params, body, xs.take(i), depth).0 is Err,
    ensures
        map_spec(ops, env, params, body, xs.take(j), depth) == map_spec(ops, env, params, body, xs.take(i), depth),
    decreases j - i,
{
    if j > i {
        lemma_map_stops(ops, env, params, body, xs, depth, i, j - 1);
        assert(xs.take(j).drop_last() =~= xs.take(j - 1));
    }
}

impl<'a, F: Copy> Interpreter<Value<'a, F>> {
    /// Calls the built-in function `name` on `args` at `span`.
    pub fn call_builtin<FO, FB, FN, FS, FP>(
        &mut self,
        name: &String,
        args: Vec<Value<'a, F>>,
        span: &Span,
        depth: usize,
        float_of: &FO,
        float_op: &FB,
        float_neg: &FN,
        float_show: &FS,
        emit: &FP,
    ) -> (r: Result<Value<'a, F>, Stop>) where
        FO: Fn(&'a String) -> F,
        FB: Fn(BinaryOp, F, F) -> Result<Value<'a, F>, String>,
        FN: Fn(F) -> F,
        FS: Fn(F) -> String,
        FP: Fn(String),

        requires
            old(self).wf(),
            floats_fit(*float_of, *float_op, *float_neg, *float_show),
            forall|t: String| call_requires(*emit, (t,)),
        ensures
            final(self).wf(),
            final(self).frames().len() == old(self).frames().len(),
            builtin_spec(
                float_ops(*float_of, *float_op, *float_neg, *float_show),
                env_of(old(self).frames()),
                name@,
                values_view(args@),
                *span,
                depth as nat,
            ) == (result_view(r), env_of(final(self).frames())),
        decreases depth, 2int,
    {
        let ghost ops = float_ops(*float_of, *float_op, *float_neg, *float_show);
        let ghost env0 = env_of(self.frames());
        let ghost av = values_view(args@);
        let filter_name = String::from_str("filter");
        let map_name = String::from_str("map");
        let print_name = String::from_str("print");
        let is_filter = *name == filter_name;
        let is_map = *name == map_name;
        if is_filter || is_map {
            if args.len() == 2 {
                match (&args[0], &args[1]) {
                    (Value::List(xs), Value::Function(params, body)) => {
                        let ghost xv = values_view(xs@);
                        let ghost pv = names_view(params@);
                        let ghost bv = body_view(*body);
                        assert(av[0] == ValueV::<F>::List(xv));
                        assert(av[1] == ValueV::<F>::Function(pv, bv));
                        let mut out: Vec<Value<'a, F>> = Vec::new();
                        let mut i: usize = 0;
                        assert(xv.take(0) =~= Seq::<ValueV<F>>::empty());
                        assert(values_view(out@) =~= Seq::<ValueV<F>>::empty());
                        while i < xs.len()
                            invariant
                                self.wf(),
                                self.frames().len() == old(self).frames().len(),
                                floats_fit(*float_of, *float_op, *float_neg, *float_show),
                                forall|t: String| call_requires(*emit, (t,)),
                                ops == float_ops(*float_of, *float_op, *float_neg, *float_show),
                                env0 == env_of(old(self).frames()),
                                xv == values_view(xs@),
                                pv == names_view(params@),
                                bv == body_view(*body),
                                av == values_view(args@),
                                av.len() == 2,
                                av[0] == ValueV::<F>::List(xv),
                                av[1] == ValueV::<F>::Function(pv, bv),
                                is_filter == (name@ == "filter"@),
                                is_filter || name@ == "map"@,
                                i <= xs@.len(),
                                is_filter ==> filter_spec(ops, env0, pv, bv, xv.take(i as int), *span, depth as nat)
                                    == (Ok::<Seq<ValueV<F>>, StopV>(values_view(out@)), env_of(self.frames())),
                                !is_filter ==> map_spec(ops, env0, pv, bv, xv.take(i as int), depth as nat) == (
                                    Ok::<Seq<ValueV<F>>, StopV>(values_view(out@)),
                                    env_of(self.frames()),
                                ),
                            decreases xs@.len() - i,
                        {
                            assert(xv.take(i + 1).drop_last() =~= xv.take(i as int));
                            assert(xv.take(i + 1).last() == value_view(xs@[i as int]));
                            let x = copy_value(&xs[i]);
                            let mut one: Vec<Value<'a, F>> = Vec::new();
                            one.push(x);
                            assert(values_view(one@) =~= seq![value_view(xs@[i as int])]);
                            let res = self.apply(params, *body, one, depth, float_of, float_op, float_neg, float_show, emit);
                            let ghost before = values_view(out@);
                            match res {
                                Ok(y) => {
                                    if is_filter {
                                        match y {
                                            Value::Bool(true) => {
                                                let keep = copy_value(&xs[i]);
                                                out.push(keep);
                                                assert(values_view(out@) =~= before.push(value_view(xs@[i as int])));
                                            },
                                            Value::Bool(false) => {},
                                            _ => {
                                                proof {
                                                    lemma_filter_stops(ops, env0, pv, bv, xv, *span, depth as nat, i + 1, xv.len() as int);
                                                    assert(xv.take(xv.len() as int) =~= xv);
                                                }
                                                return Err(Stop::Error(self.error("filter needs a function that gives a boolean", span)));
                                            },
                                        }
                                    } else {
                                        out.push(y);
                                        assert(values_view(out@) =~= before.push(value_view(y)));
                                    }
                                },
                                Err(e) => {
                                    proof {
                                        if is_filter {
                                            lemma_filter_stops(ops, env0, pv, bv, xv, *span, depth as nat, i + 1, xv.len() as int);
                                        } else {
                                            lemma_map_stops(ops, env0, pv, bv, xv, depth as nat, i + 1, xv.len() as int);
                                        }
                                        assert(xv.take(xv.len() as int) =~= xv);
                                    }
                                    return Err(e);
                                },
                            }
                            i = i + 1;
                        }
                        assert(xv.take(i as int) =~= xv);
                        Ok(Value::List(out))
                    },
                    _ => if is_filter {
                        Err(Stop::Error(self.error("filter takes a list and a function", span)))
                    } else {
                        Err(Stop::Error(self.error("map takes a list and a function", span)))
                    },
                }
            } else if is_filter {
                Err(Stop::Error(self.error("filter takes a list and a function", span)))
            } else {
                Err(Stop::Error(self.error("map takes a list and a function", span)))
            }
        } else if *name == print_name {
            let mut text = String::new();
            let mut i: usize = 0;
            while i < args.len()
                invariant
                    i <= args@.len(),
                    floats_fit(*float_of, *float_op, *float_neg, *float_show),
                decreases args@.len() - i,
            {
                if i > 0 {
                    push_char(&mut text, ' ');
                }
                let shown = display(&args[i], float_show);
                push_all(&mut text, &shown);
                i = i + 1;
            }
            (*emit)(text);
            Ok(Value::Abyss)
        } else {
            Err(Stop::Halt(String::from_str("unknown built-in function")))
        }
    }
}

} // verus!
