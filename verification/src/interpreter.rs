//! The interpreter's environment: a stack of scopes, each mapping names to
//! values. Entering a scope pushes an empty one, leaving it pops it, and a
//! name is looked up from the innermost scope outwards, so that inner
//! bindings shadow outer ones.

use vstd::prelude::*;
use vstd::string::*;

use crate::ast::{BinaryOp, Span, UnaryOp};

verus! {

/// The mathematical content of a runtime error.
pub struct InterpreterErrorView {
    pub message: Seq<char>,
    pub line: usize,
    pub column: usize,
}

/// A runtime error: what went wrong and where (1-indexed line and column).
#[derive(Debug)]
pub struct InterpreterError {
    message: String,
    line: usize,
    column: usize,
}

impl View for InterpreterError {
    type V = InterpreterErrorView;

    closed spec fn view(&self) -> InterpreterErrorView {
        InterpreterErrorView { message: self.message@, line: self.line, column: self.column }
    }
}

impl InterpreterError {
    /// What went wrong.
    pub fn message(&self) -> (r: &String)
        ensures
            r@ == self@.message,
    {
        &self.message
    }

    /// The line where it happened.
    pub fn line(&self) -> (r: usize)
        ensures
            r == self@.line,
    {
        self.line
    }

    /// The column where it happened.
    pub fn column(&self) -> (r: usize)
        ensures
            r == self@.column,
    {
        self.column
    }
}

/// An integer or a truth value: what an operator gives back on integers.
#[derive(Debug, Clone, Copy, PartialEq, Eq, Structural)]
pub enum Scalar {
    Int(i64),
    Bool(bool),
}

/// A result whose error is a message, with the message taken as text.
pub open spec fn outcome<T>(r: Result<T, String>) -> Result<T, Seq<char>> {
    match r {
        Ok(v) => Ok(v),
        Err(m) => Err(m@),
    }
}

/// The error for a binary operator applied to operands of the wrong types.
pub open spec fn binary_mismatch(op: BinaryOp) -> Seq<char> {
    match op {
        BinaryOp::Add => "type mismatch: +"@,
        BinaryOp::Minus => "type mismatch: -"@,
        BinaryOp::Multiply => "type mismatch: *"@,
        BinaryOp::Divide => "type mismatch: /"@,
        BinaryOp::Modulo => "type mismatch: %"@,
        BinaryOp::Exponent => "type mismatch: ^"@,
        BinaryOp::Equality => "type mismatch: =="@,
        BinaryOp::Nequality => "type mismatch: !="@,
        BinaryOp::Lesser => "type mismatch: <"@,
        BinaryOp::Greater => "type mismatch: >"@,
        BinaryOp::Geq => "type mismatch: >="@,
        BinaryOp::Leq => "type mismatch: <="@,
        BinaryOp::And => "type mismatch: &&"@,
        BinaryOp::Or => "type mismatch: ||"@,
    }
}

/// The error for a unary operator applied to an operand of the wrong type.
pub open spec fn unary_mismatch(op: UnaryOp) -> Seq<char> {
    match op {
        UnaryOp::Not => "type mismatch: !"@,
        UnaryOp::Neg => "type mismatch: -"@,
    }
}

/// The error for a division by zero.
pub open spec fn division_by_zero() -> Seq<char> {
    "division by zero"@
}

/// The absolute value of `x`.
pub open spec fn magnitude(x: int) -> int {
    if x < 0 {
        -x
    } else {
        x
    }
}

/// `base` multiplied by itself `exp` times.
pub open spec fn power(base: int, exp: nat) -> int
    decreases exp,
{
    if exp == 0 {
        1
    } else {
        base * power(base, (exp - 1) as nat)
    }
}

/// `a / b` rounded toward zero.
pub open spec fn quotient(a: int, b: int) -> int {
    if a == 0 {
        0
    } else if (a < 0) == (b < 0) {
        magnitude(a) / magnitude(b)
    } else {
        -(magnitude(a) / magnitude(b))
    }
}

/// What is left of `a` after taking `quotient(a, b)` times `b`: it has the
/// sign of `a`.
pub open spec fn remainder(a: int, b: int) -> int {
    if a == 0 {
        0
    } else if a < 0 {
        -(magnitude(a) % magnitude(b))
    } else {
        magnitude(a) % magnitude(b)
    }
}

/// The exponent that `^` raises to: the low 32 bits of the right operand.
pub open spec fn exponent_of(b: i64) -> nat {
    (b as u32) as nat
}

/// Whether `x` lies in the range of `i64`.
pub open spec fn fits_i64(x: int) -> bool {
    i64::MIN <= x <= i64::MAX
}

/// The operands on which a binary operator on integers has a result or a
/// runtime error: everywhere but where the arithmetic leaves the range of
/// `i64`.
pub open spec fn int_op_defined(op: BinaryOp, a: i64, b: i64) -> bool {
    match op {
        BinaryOp::Add => fits_i64(a + b),
        BinaryOp::Minus => fits_i64(a - b),
        BinaryOp::Multiply => fits_i64(a * b),
        BinaryOp::Divide => !(a == i64::MIN && b == -1),
        BinaryOp::Modulo => !(a == i64::MIN && b == -1),
        BinaryOp::Exponent => fits_i64(power(a as int, exponent_of(b))),
        _ => true,
    }
}

/// A binary operator applied to two integers.
pub open spec fn int_binary(op: BinaryOp, a: i64, b: i64) -> Result<Scalar, Seq<char>> {
    match op {
        BinaryOp::Add => Ok(Scalar::Int((a + b) as i64)),
        BinaryOp::Minus => Ok(Scalar::Int((a - b) as i64)),
        BinaryOp::Multiply => Ok(Scalar::Int((a * b) as i64)),
        BinaryOp::Divide => if b == 0 {
            Err(division_by_zero())
        } else {
            Ok(Scalar::Int(quotient(a as int, b as int) as i64))
        },
        BinaryOp::Modulo => if b == 0 {
            Err(division_by_zero())
        } else {
            Ok(Scalar::Int(remainder(a as int, b as int) as i64))
        },
        BinaryOp::Exponent => Ok(Scalar::Int(power(a as int, exponent_of(b)) as i64)),
        BinaryOp::Equality => Ok(Scalar::Bool(a == b)),
        BinaryOp::Nequality => Ok(Scalar::Bool(a != b)),
        BinaryOp::Lesser => Ok(Scalar::Bool(a < b)),
        BinaryOp::Greater => Ok(Scalar::Bool(a > b)),
        BinaryOp::Leq => Ok(Scalar::Bool(a <= b)),
        BinaryOp::Geq => Ok(Scalar::Bool(a >= b)),
        BinaryOp::And | BinaryOp::Or => Err(binary_mismatch(op)),
    }
}

/// A binary operator applied to two truth values: only `==`, `&&` and `||`
/// take them.
pub open spec fn bool_binary(op: BinaryOp, a: bool, b: bool) -> Result<bool, Seq<char>> {
    match op {
        BinaryOp::Equality => Ok(a == b),
        BinaryOp::And => Ok(a && b),
        BinaryOp::Or => Ok(a || b),
        _ => Err(binary_mismatch(op)),
    }
}

/// A binary operator applied to two strings: only `==` takes them.
pub open spec fn str_binary(op: BinaryOp, a: Seq<char>, b: Seq<char>) -> Result<bool, Seq<char>> {
    match op {
        BinaryOp::Equality => Ok(a == b),
        _ => Err(binary_mismatch(op)),
    }
}

/// A unary operator applied to an integer: only `-` takes one.
pub open spec fn int_unary(op: UnaryOp, a: i64) -> Result<i64, Seq<char>> {
    match op {
        UnaryOp::Neg => Ok((-a) as i64),
        UnaryOp::Not => Err(unary_mismatch(op)),
    }
}

/// A unary operator applied to a truth value: only `!` takes one.
pub open spec fn bool_unary(op: UnaryOp, a: bool) -> Result<bool, Seq<char>> {
    match op {
        UnaryOp::Not => Ok(!a),
        UnaryOp::Neg => Err(unary_mismatch(op)),
    }
}

/// Truth values: `&&` and `||` by their first operand, `==` as equality,
/// and every other binary operator a mismatch; `!` flips a truth value and
/// `-` is a mismatch on it.
pub proof fn law_truth_values(a: bool, b: bool, op: BinaryOp)
    ensures
        bool_binary(BinaryOp::And, true, b) == Ok::<bool, Seq<char>>(b),
        bool_binary(BinaryOp::And, false, b) == Ok::<bool, Seq<char>>(false),
        bool_binary(BinaryOp::Or, true, b) == Ok::<bool, Seq<char>>(true),
        bool_binary(BinaryOp::Or, false, b) == Ok::<bool, Seq<char>>(b),
        bool_binary(BinaryOp::And, a, b) == bool_binary(BinaryOp::And, b, a),
        bool_binary(BinaryOp::Or, a, b) == bool_binary(BinaryOp::Or, b, a),
        bool_binary(BinaryOp::Equality, a, a) == Ok::<bool, Seq<char>>(true),
        bool_binary(BinaryOp::Equality, a, b) == Ok::<bool, Seq<char>>(true) ==> a == b,
        bool_binary(BinaryOp::Equality, a, b) is Ok,
        op != BinaryOp::And && op != BinaryOp::Or && op != BinaryOp::Equality ==> bool_binary(op, a, b)
            == Err::<bool, Seq<char>>(binary_mismatch(op)),
        bool_unary(UnaryOp::Not, a) == Ok::<bool, Seq<char>>(!a),
        bool_unary(UnaryOp::Not, a) != Ok::<bool, Seq<char>>(a),
        bool_unary(UnaryOp::Neg, a) == Err::<bool, Seq<char>>(unary_mismatch(UnaryOp::Neg)),
{
}

/// Strings: `==` holds exactly on equal texts; every other binary operator
/// is a mismatch.
pub proof fn law_strings(s: Seq<char>, t: Seq<char>, op: BinaryOp)
    ensures
        str_binary(BinaryOp::Equality, s, s) == Ok::<bool, Seq<char>>(true),
        str_binary(BinaryOp::Equality, s, t) == Ok::<bool, Seq<char>>(true) <==> s == t,
        str_binary(BinaryOp::Equality, s, t) is Ok,
        op != BinaryOp::Equality ==> str_binary(op, s, t) == Err::<bool, Seq<char>>(binary_mismatch(op)),
{
}

/// Negating an integer twice gives it back, and an integer plus its
/// negation is 0; `!` is a mismatch on integers.
pub proof fn law_integer_negation(a: i64)
    ensures
        a != i64::MIN ==> (int_unary(UnaryOp::Neg, a) matches Ok(n) && int_unary(UnaryOp::Neg, n) == Ok::<
            i64,
            Seq<char>,
        >(a) && int_binary(BinaryOp::Add, a, n) == Ok::<Scalar, Seq<char>>(Scalar::Int(0))),
        int_unary(UnaryOp::Not, a) == Err::<i64, Seq<char>>(unary_mismatch(UnaryOp::Not)),
{
}


/// Whether an integer comparison or equality answers `true`.
pub open spec fn int_holds(op: BinaryOp, a: i64, b: i64) -> bool {
    int_binary(op, a, b) == Ok::<Scalar, Seq<char>>(Scalar::Bool(true))
}

/// Whether an integer comparison or equality answers `false`.
pub open spec fn int_fails(op: BinaryOp, a: i64, b: i64) -> bool {
    int_binary(op, a, b) == Ok::<Scalar, Seq<char>>(Scalar::Bool(false))
}

/// The comparisons on integers are the usual order: `<` is irreflexive and
/// transitive; of `a < b`, `a == b` and `a > b` exactly one holds; `a > b`
/// is `b < a`, `a <= b` is not `b < a`, `a >= b` is not `a < b`, `!=` is not
/// `==`, `==` holds exactly on equal integers, and each integer is below the
/// next one.
pub proof fn law_integer_order(a: i64, b: i64, c: i64)
    ensures
        int_fails(BinaryOp::Lesser, a, a),
        int_holds(BinaryOp::Lesser, a, b) || int_fails(BinaryOp::Lesser, a, b),
        int_holds(BinaryOp::Lesser, a, b) ==> int_fails(BinaryOp::Lesser, b, a),
        int_holds(BinaryOp::Lesser, a, b) && int_holds(BinaryOp::Lesser, b, c) ==> int_holds(
            BinaryOp::Lesser,
            a,
            c,
        ),
        int_holds(BinaryOp::Lesser, a, b) || int_holds(BinaryOp::Equality, a, b) || int_holds(
            BinaryOp::Greater,
            a,
            b,
        ),
        !(int_holds(BinaryOp::Lesser, a, b) && int_holds(BinaryOp::Equality, a, b)),
        !(int_holds(BinaryOp::Greater, a, b) && int_holds(BinaryOp::Equality, a, b)),
        !(int_holds(BinaryOp::Lesser, a, b) && int_holds(BinaryOp::Greater, a, b)),
        int_holds(BinaryOp::Greater, a, b) <==> int_holds(BinaryOp::Lesser, b, a),
        int_holds(BinaryOp::Leq, a, b) <==> int_fails(BinaryOp::Lesser, b, a),
        int_holds(BinaryOp::Geq, a, b) <==> int_fails(BinaryOp::Lesser, a, b),
        int_holds(BinaryOp::Nequality, a, b) <==> int_fails(BinaryOp::Equality, a, b),
        int_holds(BinaryOp::Equality, a, b) <==> a == b,
        a < i64::MAX ==> int_holds(BinaryOp::Lesser, a, (a + 1) as i64),
{
}

/// Integer arithmetic: `+` is commutative with 0 as identity and `-` undoes
/// it; `*` is commutative with 1 as identity and 0 as zero; `/` and `%`
/// divide with `a == b * q + r`, the remainder smaller than the divisor in
/// size and never of the other sign than `a`; dividing by zero is an error;
/// `^ 0` gives 1 and each further power multiplies by the base.
pub proof fn law_integer_arithmetic(a: i64, b: i64)
    ensures
        int_binary(BinaryOp::Add, a, 0) == Ok::<Scalar, Seq<char>>(Scalar::Int(a)),
        fits_i64(a + b) ==> int_binary(BinaryOp::Add, a, b) == int_binary(BinaryOp::Add, b, a),
        fits_i64(a + b) ==> int_binary(BinaryOp::Minus, (a + b) as i64, b) == Ok::<Scalar, Seq<char>>(
            Scalar::Int(a),
        ),
        int_binary(BinaryOp::Multiply, a, 1) == Ok::<Scalar, Seq<char>>(Scalar::Int(a)),
        int_binary(BinaryOp::Multiply, a, 0) == Ok::<Scalar, Seq<char>>(Scalar::Int(0)),
        fits_i64(a * b) ==> int_binary(BinaryOp::Multiply, a, b) == int_binary(BinaryOp::Multiply, b, a),
        int_binary(BinaryOp::Divide, a, 0) == Err::<Scalar, Seq<char>>(division_by_zero()),
        int_binary(BinaryOp::Modulo, a, 0) == Err::<Scalar, Seq<char>>(division_by_zero()),
        b != 0 && int_op_defined(BinaryOp::Divide, a, b) ==> (int_binary(BinaryOp::Divide, a, b) matches Ok(
            Scalar::Int(q),
        ) && int_binary(BinaryOp::Modulo, a, b) matches Ok(Scalar::Int(r)) && a == b * q + r && magnitude(
            r as int,
        ) < magnitude(b as int) && (r == 0 || (r < 0) == (a < 0))),
        int_binary(BinaryOp::Exponent, a, 0) == Ok::<Scalar, Seq<char>>(Scalar::Int(1)),
        0 <= b < u32::MAX && int_op_defined(BinaryOp::Exponent, a, b) && int_op_defined(
            BinaryOp::Exponent,
            a,
            (b + 1) as i64,
        ) ==> (int_binary(BinaryOp::Exponent, a, b) matches Ok(Scalar::Int(p)) && int_binary(
            BinaryOp::Exponent,
            a,
            (b + 1) as i64,
        ) == Ok::<Scalar, Seq<char>>(Scalar::Int((a * p) as i64))),
{
    if b != 0 && int_op_defined(BinaryOp::Divide, a, b) {
        let m = magnitude(a as int);
        let d = magnitude(b as int);
        let q0 = m / d;
        let r0 = m % d;
        assert(m == d * q0 + r0 && 0 <= r0 < d) by (nonlinear_arith)
            requires
                m >= 0,
                d > 0,
                q0 == m / d,
                r0 == m % d,
        ;
        lemma_quotient_fits(a, b);
        let q = quotient(a as int, b as int);
        let r = remainder(a as int, b as int);
        assert(a == b * q + r) by (nonlinear_arith)
            requires
                m == d * q0 + r0,
                m == magnitude(a as int),
                d == magnitude(b as int),
                q == (if a == 0 {
                    0
                } else if (a < 0) == (b < 0) {
                    q0
                } else {
                    -q0
                }),
                r == (if a == 0 {
                    0
                } else if a < 0 {
                    -r0
                } else {
                    r0
                }),
                magnitude(a as int) == (if a < 0 {
                    -a
                } else {
                    a as int
                }),
                magnitude(b as int) == (if b < 0 {
                    -b
                } else {
                    b as int
                }),
                b != 0,
        ;
        assert(fits_i64(r)) by {
            assert(r0 < d);
        }
    }
    if 0 <= b < u32::MAX {
        assert(exponent_of(b) == b);
        assert(exponent_of((b + 1) as i64) == b + 1);
    }
}

proof fn lemma_power_one(exp: nat)
    ensures
        power(1, exp) == 1,
    decreases exp,
{
    if exp > 0 {
        lemma_power_one((exp - 1) as nat);
    }
}

proof fn lemma_power_minus_one(exp: nat)
    ensures
        power(-1, exp) == if exp % 2 == 0 {
            1int
        } else {
            -1int
        },
    decreases exp,
{
    if exp > 0 {
        lemma_power_minus_one((exp - 1) as nat);
    }
}

/// For a base of magnitude at least two, each further factor at least
/// doubles the magnitude of a power.
proof fn lemma_power_grows(base: int, m: nat, n: nat)
    requires
        base <= -2 || base >= 2,
        m <= n,
    ensures
        magnitude(power(base, n)) >= magnitude(power(base, m)),
        m < n ==> magnitude(power(base, n)) >= 2 * magnitude(power(base, m)),
    decreases n,
{
    if m < n {
        let k = (n - 1) as nat;
        lemma_power_grows(base, m, k);
        let x = power(base, k);
        assert(magnitude(base * x) >= 2 * magnitude(x)) by (nonlinear_arith)
            requires
                base <= -2 || base >= 2,
        {
            if x >= 0 && base >= 2 {
                assert(base * x >= 2 * x);
            } else if x >= 0 {
                assert(base * x <= -2 * x);
            } else if base >= 2 {
                assert(base * x <= 2 * x);
            } else {
                assert(base * x >= -2 * x);
            }
        }
    }
}

/// A quotient leaves the range of `i64` only for the smallest `i64` divided
/// by minus one.
proof fn lemma_quotient_fits(a: i64, b: i64)
    requires
        b != 0,
        !(a == i64::MIN && b == -1),
    ensures
        fits_i64(quotient(a as int, b as int)),
{
    let m = magnitude(a as int);
    let d = magnitude(b as int);
    if d == 1 {
        assert(m / d == m) by (nonlinear_arith)
            requires
                d == 1,
        ;
    } else {
        assert(m / d * 2 <= m) by (nonlinear_arith)
            requires
                m >= 0,
                d >= 2,
        ;
    }
}

/// `base` to the power `exp`, or `None` where that leaves the range of `i64`.
fn checked_power(base: i64, exp: u32) -> (r: Option<i64>)
    ensures
        r == (if fits_i64(power(base as int, exp as nat)) {
            Some(power(base as int, exp as nat) as i64)
        } else {
            None
        }),
{
    if base == 0 {
        if exp == 0 {
            Some(1)
        } else {
            assert(power(0, exp as nat) == 0);
            Some(0)
        }
    } else if base == 1 {
        proof {
            lemma_power_one(exp as nat);
        }
        Some(1)
    } else if base == -1 {
        proof {
            lemma_power_minus_one(exp as nat);
        }
        if exp % 2 == 0 {
            Some(1)
        } else {
            Some(-1)
        }
    } else {
        let mut acc: i64 = 1;
        let mut i: u32 = 0;
        while i < exp
            invariant
                i <= exp,
                base <= -2 || base >= 2,
                acc as int == power(base as int, i as nat),
            decreases exp - i,
        {
            assert(power(base as int, (i + 1) as nat) == base * power(base as int, i as nat));
            assert(acc * base == base * acc) by (nonlinear_arith);
            match acc.checked_mul(base) {
                Some(next) => {
                    acc = next;
                    i = i + 1;
                },
                None => {
                    proof {
                        lemma_power_grows(base as int, (i + 1) as nat, exp as nat);
                    }
                    return None;
                },
            }
        }
        Some(acc)
    }
}

/// The message of the error for a binary operator applied to operands of
/// the wrong types.
pub fn binary_mismatch_message(op: BinaryOp) -> (m: String)
    ensures
        m@ == binary_mismatch(op),
{
    match op {
        BinaryOp::Add => String::from_str("type mismatch: +"),
        BinaryOp::Minus => String::from_str("type mismatch: -"),
        BinaryOp::Multiply => String::from_str("type mismatch: *"),
        BinaryOp::Divide => String::from_str("type mismatch: /"),
        BinaryOp::Modulo => String::from_str("type mismatch: %"),
        BinaryOp::Exponent => String::from_str("type mismatch: ^"),
        BinaryOp::Equality => String::from_str("type mismatch: =="),
        BinaryOp::Nequality => String::from_str("type mismatch: !="),
        BinaryOp::Lesser => String::from_str("type mismatch: <"),
        BinaryOp::Greater => String::from_str("type mismatch: >"),
        BinaryOp::Geq => String::from_str("type mismatch: >="),
        BinaryOp::Leq => String::from_str("type mismatch: <="),
        BinaryOp::And => String::from_str("type mismatch: &&"),
        BinaryOp::Or => String::from_str("type mismatch: ||"),
    }
}

/// The message of the error for a unary operator applied to an operand of
/// the wrong type.
pub fn unary_mismatch_message(op: UnaryOp) -> (m: String)
    ensures
        m@ == unary_mismatch(op),
{
    match op {
        UnaryOp::Not => String::from_str("type mismatch: !"),
        UnaryOp::Neg => String::from_str("type mismatch: -"),
    }
}

/// Whether `binary_ints` has a result on these operands; where it has
/// none, the arithmetic overflows.
pub fn int_op_allowed(op: BinaryOp, a: i64, b: i64) -> (r: bool)
    ensures
        r == int_op_defined(op, a, b),
{
    match op {
        BinaryOp::Add => a.checked_add(b).is_some(),
        BinaryOp::Minus => a.checked_sub(b).is_some(),
        BinaryOp::Multiply => a.checked_mul(b).is_some(),
        BinaryOp::Divide => !(a == i64::MIN && b == -1),
        BinaryOp::Modulo => !(a == i64::MIN && b == -1),
        BinaryOp::Exponent => checked_power(a, b as u32).is_some(),
        _ => true,
    }
}

/// A binary operator applied to two integers.
pub fn binary_ints(op: BinaryOp, a: i64, b: i64) -> (r: Result<Scalar, String>)
    requires
        int_op_defined(op, a, b),
    ensures
        outcome(r) == int_binary(op, a, b),
{
    match op {
        BinaryOp::Add => Ok(Scalar::Int(a + b)),
        BinaryOp::Minus => Ok(Scalar::Int(a - b)),
        BinaryOp::Multiply => Ok(Scalar::Int(a * b)),
        BinaryOp::Divide => if b == 0 {
            Err(String::from_str("division by zero"))
        } else {
            proof {
                lemma_quotient_fits(a, b);
            }
            Ok(Scalar::Int(a.checked_div(b).unwrap()))
        },
        BinaryOp::Modulo => if b == 0 {
            Err(String::from_str("division by zero"))
        } else {
            Ok(Scalar::Int(a.checked_rem(b).unwrap()))
        },
        BinaryOp::Exponent => Ok(Scalar::Int(checked_power(a, b as u32).unwrap())),
        BinaryOp::Equality => Ok(Scalar::Bool(a == b)),
        BinaryOp::Nequality => Ok(Scalar::Bool(a != b)),
        BinaryOp::Lesser => Ok(Scalar::Bool(a < b)),
        BinaryOp::Greater => Ok(Scalar::Bool(a > b)),
        BinaryOp::Leq => Ok(Scalar::Bool(a <= b)),
        BinaryOp::Geq => Ok(Scalar::Bool(a >= b)),
        BinaryOp::And | BinaryOp::Or => Err(binary_mismatch_message(op)),
    }
}

/// A binary operator applied to two truth values.
pub fn binary_bools(op: BinaryOp, a: bool, b: bool) -> (r: Result<bool, String>)
    ensures
        outcome(r) == bool_binary(op, a, b),
{
    match op {
        BinaryOp::Equality => Ok(a == b),
        BinaryOp::And => Ok(a && b),
        BinaryOp::Or => Ok(a || b),
        _ => Err(binary_mismatch_message(op)),
    }
}

/// A binary operator applied to two strings.
pub fn binary_strs(op: BinaryOp, a: &String, b: &String) -> (r: Result<bool, String>)
    ensures
        outcome(r) == str_binary(op, a@, b@),
{
    match op {
        BinaryOp::Equality => Ok(*a == *b),
        _ => Err(binary_mismatch_message(op)),
    }
}

/// A unary operator applied to an integer.
pub fn unary_int(op: UnaryOp, a: i64) -> (r: Result<i64, String>)
    requires
        op == UnaryOp::Neg ==> a != i64::MIN,
    ensures
        outcome(r) == int_unary(op, a),
{
    match op {
        UnaryOp::Neg => Ok(-a),
        UnaryOp::Not => Err(unary_mismatch_message(op)),
    }
}

/// A unary operator applied to a truth value.
pub fn unary_bool(op: UnaryOp, a: bool) -> (r: Result<bool, String>)
    ensures
        outcome(r) == bool_unary(op, a),
{
    match op {
        UnaryOp::Not => Ok(!a),
        UnaryOp::Neg => Err(unary_mismatch_message(op)),
    }
}

/// The names and values of one scope.
pub open spec fn frame_map<V>(entries: Seq<(String, V)>) -> Map<Seq<char>, V>
    decreases entries.len(),
{
    if entries.len() == 0 {
        Map::empty()
    } else {
        frame_map(entries.drop_last()).insert(entries.last().0@, entries.last().1)
    }
}

/// No name occurs twice in a scope.
pub open spec fn distinct_names<V>(entries: Seq<(String, V)>) -> bool {
    forall|i: int, j: int| 0 <= i < j < entries.len() ==> entries[i].0@ != entries[j].0@
}

/// The scopes as maps from names to values.
pub open spec fn frames_of<V>(scopes: Seq<Vec<(String, V)>>) -> Seq<Map<Seq<char>, V>> {
    Seq::new(scopes.len(), |i: int| frame_map(scopes[i]@))
}

/// The value of `name` in the innermost scope that binds it.
pub open spec fn lookup_in<V>(frames: Seq<Map<Seq<char>, V>>, name: Seq<char>) -> Option<V>
    decreases frames.len(),
{
    if frames.len() == 0 {
        None
    } else if frames.last().contains_key(name) {
        Some(frames.last()[name])
    } else {
        lookup_in(frames.drop_last(), name)
    }
}

/// Binding `name` to `value` in the innermost scope.
pub open spec fn define_in<V>(frames: Seq<Map<Seq<char>, V>>, name: Seq<char>, value: V) -> Seq<
    Map<Seq<char>, V>,
> {
    frames.update(frames.len() - 1, frames.last().insert(name, value))
}

/// Rebinding `name` in the innermost scope that binds it; `None` when no
/// scope does.
pub open spec fn assign_in<V>(frames: Seq<Map<Seq<char>, V>>, name: Seq<char>, value: V) -> Option<
    Seq<Map<Seq<char>, V>>,
>
    decreases frames.len(),
{
    if frames.len() == 0 {
        None
    } else if frames.last().contains_key(name) {
        Some(frames.update(frames.len() - 1, frames.last().insert(name, value)))
    } else {
        match assign_in(frames.drop_last(), name, value) {
            Some(f) => Some(f.push(frames.last())),
            None => None,
        }
    }
}

proof fn lemma_frame_map<V>(entries: Seq<(String, V)>)
    requires
        distinct_names(entries),
    ensures
        forall|i: int|
            0 <= i < entries.len() ==> #[trigger] frame_map(entries).contains_key(entries[i].0@)
                && frame_map(entries)[entries[i].0@] == entries[i].1,
        forall|k: Seq<char>|
            #[trigger] frame_map(entries).contains_key(k) ==> exists|i: int|
                0 <= i < entries.len() && entries[i].0@ == k,
    decreases entries.len(),
{
    if entries.len() > 0 {
        let init = entries.drop_last();
        assert(distinct_names(init));
        lemma_frame_map(init);
        assert forall|k: Seq<char>| #[trigger] frame_map(entries).contains_key(k) implies exists|i: int|
            0 <= i < entries.len() && entries[i].0@ == k by {
            if k != entries.last().0@ {
                assert(frame_map(init).contains_key(k));
                let i = choose|i: int| 0 <= i < init.len() && init[i].0@ == k;
                assert(entries[i].0@ == k);
            }
        }
        assert forall|i: int| 0 <= i < entries.len() implies #[trigger] frame_map(entries).contains_key(
            entries[i].0@,
        ) && frame_map(entries)[entries[i].0@] == entries[i].1 by {
            if i < entries.len() - 1 {
                assert(init[i] == entries[i]);
                assert(entries[i].0@ != entries[entries.len() - 1].0@);
                assert(frame_map(init).contains_key(init[i].0@));
            }
        }
    }
}

proof fn lemma_frame_map_replace<V>(entries: Seq<(String, V)>, i: int, e: (String, V))
    requires
        distinct_names(entries),
        0 <= i < entries.len(),
        entries[i].0@ == e.0@,
    ensures
        distinct_names(entries.update(i, e)),
        frame_map(entries.update(i, e)) == frame_map(entries).insert(e.0@, e.1),
{
    let new = entries.update(i, e);
    assert(distinct_names(new)) by {
        assert forall|a: int, b: int| 0 <= a < b < new.len() implies new[a].0@ != new[b].0@ by {
            assert(new[a].0@ == entries[a].0@);
            assert(new[b].0@ == entries[b].0@);
        }
    }
    lemma_frame_map(entries);
    lemma_frame_map(new);
    assert forall|k: Seq<char>| #[trigger] frame_map(new).contains_key(k) <==> frame_map(entries).insert(
        e.0@,
        e.1,
    ).contains_key(k) by {
        if frame_map(new).contains_key(k) {
            let j = choose|j: int| 0 <= j < new.len() && new[j].0@ == k;
            assert(entries[j].0@ == k);
        }
        if frame_map(entries).contains_key(k) {
            let j = choose|j: int| 0 <= j < entries.len() && entries[j].0@ == k;
            assert(new[j].0@ == k);
        }
    }
    assert forall|k: Seq<char>| #[trigger] frame_map(new).contains_key(k) implies frame_map(new)[k]
        == frame_map(entries).insert(e.0@, e.1)[k] by {
        let j = choose|j: int| 0 <= j < new.len() && new[j].0@ == k;
        if j != i {
            assert(entries[j] == new[j]);
        }
    }
    assert(frame_map(new) =~= frame_map(entries).insert(e.0@, e.1));
}

/// The index in `entries` of the entry named `name`.
fn find_entry<V>(entries: &Vec<(String, V)>, name: &String) -> (r: Option<usize>)
    ensures
        r matches Some(i) ==> i < entries@.len() && entries@[i as int].0@ == name@,
        r is None ==> forall|i: int| 0 <= i < entries@.len() ==> entries@[i].0@ != name@,
{
    let mut i: usize = 0;
    while i < entries.len()
        invariant
            i <= entries@.len(),
            forall|j: int| 0 <= j < i ==> entries@[j].0@ != name@,
        decreases entries@.len() - i,
    {
        if entries[i].0 == *name {
            return Some(i);
        }
        i = i + 1;
    }
    None
}

/// The scopes of a running program, innermost last.
pub struct Interpreter<V> {
    scopes: Vec<Vec<(String, V)>>,
}

impl<V> Interpreter<V> {
    /// The scopes as maps from names to values, innermost last.
    pub closed spec fn frames(&self) -> Seq<Map<Seq<char>, V>> {
        frames_of(self.scopes@)
    }

    /// There is a scope, and no scope binds a name twice.
    pub closed spec fn wf(&self) -> bool {
        &&& self.scopes@.len() >= 1
        &&& forall|i: int| 0 <= i < self.scopes@.len() ==> distinct_names(#[trigger] self.scopes@[i]@)
    }

    /// A well-formed interpreter has at least one scope.
    pub proof fn lemma_has_scope(&self)
        requires
            self.wf(),
        ensures
            self.frames().len() >= 1,
    {
    }

    /// An interpreter whose global scope binds the names of `globals` to
    /// their values.
    pub fn with_globals(globals: Vec<(String, V)>) -> (r: Self)
        requires
            distinct_names(globals@),
        ensures
            r.wf(),
            r.frames() == seq![frame_map(globals@)],
    {
        let mut scopes: Vec<Vec<(String, V)>> = Vec::new();
        scopes.push(globals);
        let r = Interpreter { scopes };
        assert(r.frames() =~= seq![frame_map(r.scopes@[0]@)]);
        r
    }

    /// A scope stack with one empty, global scope.
    pub fn empty() -> (r: Self)
        ensures
            r.wf(),
            r.frames() == seq![Map::<Seq<char>, V>::empty()],
    {
        let mut scopes: Vec<Vec<(String, V)>> = Vec::new();
        scopes.push(Vec::new());
        let r = Interpreter { scopes };
        assert(r.frames() =~= seq![Map::<Seq<char>, V>::empty()]);
        r
    }

    /// The number of scopes.
    pub fn depth(&self) -> (n: usize)
        ensures
            n == self.frames().len(),
    {
        self.scopes.len()
    }

    /// The value of `name` in the innermost scope that binds it.
    pub fn lookup(&self, name: &String) -> (r: Option<&V>)
        requires
            self.wf(),
        ensures
            r matches Some(v) ==> lookup_in(self.frames(), name@) == Some(*v),
            r is None ==> lookup_in(self.frames(), name@) is None,
    {
        let ghost fr = self.frames();
        let mut j = self.scopes.len();
        assert(fr.take(fr.len() as int) =~= fr);
        while j > 0
            invariant
                j <= self.scopes@.len(),
                self.wf(),
                fr == self.frames(),
                lookup_in(fr, name@) == lookup_in(fr.take(j as int), name@),
            decreases j,
        {
            j = j - 1;
            assert(fr.take(j + 1).drop_last() =~= fr.take(j as int));
            assert(fr.take(j + 1).last() == frame_map(self.scopes@[j as int]@));
            proof {
                lemma_frame_map(self.scopes@[j as int]@);
            }
            match find_entry(&self.scopes[j], name) {
                Some(i) => {
                    return Some(&self.scopes[j][i].1);
                },
                None => {
                    assert(!frame_map(self.scopes@[j as int]@).contains_key(name@));
                },
            }
        }
        None
    }

    /// Binds `name` to `value` in the innermost scope, replacing the
    /// binding of that name there if it has one.
    pub fn define(&mut self, name: String, value: V)
        requires
            old(self).wf(),
        ensures
            final(self).wf(),
            final(self).frames() == define_in(old(self).frames(), name@, value),
    {
        let j = self.scopes.len() - 1;
        let ghost old_top = self.scopes@[j as int]@;
        let ghost e = (name, value);
        proof {
            lemma_frame_map(old_top);
        }
        match find_entry(&self.scopes[j], &name) {
            Some(i) => {
                proof {
                    lemma_frame_map_replace(old_top, i as int, e);
                }
                self.scopes[j].set(i, (name, value));
            },
            None => {
                self.scopes[j].push((name, value));
                assert(self.scopes@[j as int]@.drop_last() =~= old_top);
                assert(distinct_names(self.scopes@[j as int]@));
            },
        }
        assert(self.frames() =~= define_in(old(self).frames(), e.0@, e.1));
    }

    /// Rebinds `name` to `value` in the innermost scope that binds it;
    /// false, with nothing changed, when no scope binds it.
    pub fn assign(&mut self, name: &String, value: V) -> (found: bool)
        requires
            old(self).wf(),
        ensures
            final(self).wf(),
            match assign_in(old(self).frames(), name@, value) {
                Some(f) => found && final(self).frames() == f,
                None => !found && final(self).frames() == old(self).frames(),
            },
    {
        let ghost fr = self.frames();
        let mut j = self.scopes.len();
        while j > 0
            invariant
                j <= self.scopes@.len(),
                self.scopes@ == old(self).scopes@,
                self.wf(),
                fr == self.frames(),
                forall|k: int| j <= k < fr.len() ==> !(#[trigger] fr[k]).contains_key(name@),
            decreases j,
        {
            j = j - 1;
            proof {
                lemma_frame_map(self.scopes@[j as int]@);
            }
            match find_entry(&self.scopes[j], name) {
                Some(i) => {
                    let ghost old_frame = self.scopes@[j as int]@;
                    let key = self.scopes[j][i].0.clone();
                    let ghost e = (key, value);
                    proof {
                        lemma_frame_map_replace(old_frame, i as int, e);
                        lemma_assign_at(fr, name@, value, j as int);
                    }
                    self.scopes[j].set(i, (key, value));
                    assert(self.frames() =~= fr.update(j as int, fr[j as int].insert(name@, e.1)));
                    return true;
                },
                None => {
                    assert(!frame_map(self.scopes@[j as int]@).contains_key(name@));
                },
            }
        }
        proof {
            lemma_assign_missing(fr, name@, value);
        }
        false
    }

    /// Enters a new, empty scope.
    pub fn push_scope(&mut self)
        requires
            old(self).wf(),
        ensures
            final(self).wf(),
            final(self).frames() == old(self).frames().push(Map::empty()),
    {
        self.scopes.push(Vec::new());
        assert(self.frames() =~= old(self).frames().push(Map::empty()));
    }

    /// Leaves the innermost scope, forgetting its bindings.
    pub fn pop_scope(&mut self)
        requires
            old(self).wf(),
            old(self).frames().len() > 1,
        ensures
            final(self).wf(),
            final(self).frames() == old(self).frames().drop_last(),
    {
        self.scopes.pop();
        assert(self.frames() =~= old(self).frames().drop_last());
    }

    /// A runtime error with `message` at `span`.
    pub fn error(&self, message: &str, span: &Span) -> (e: InterpreterError)
        ensures
            e@ == (InterpreterErrorView { message: message@, line: span.line, column: span.column }),
    {
        InterpreterError { message: String::from_str(message), line: span.line, column: span.column }
    }
}

/// A name just defined is found with the value it was given.
pub proof fn law_define_then_lookup<V>(frames: Seq<Map<Seq<char>, V>>, name: Seq<char>, value: V)
    requires
        frames.len() >= 1,
    ensures
        lookup_in(define_in(frames, name, value), name) == Some(value),
{
    let f = define_in(frames, name, value);
    assert(f.last() == frames.last().insert(name, value));
}

/// Defining a name leaves what every other name is bound to unchanged.
pub proof fn law_define_keeps_others<V>(
    frames: Seq<Map<Seq<char>, V>>,
    name: Seq<char>,
    value: V,
    other: Seq<char>,
)
    requires
        frames.len() >= 1,
        other != name,
    ensures
        lookup_in(define_in(frames, name, value), other) == lookup_in(frames, other),
{
    let f = define_in(frames, name, value);
    assert(f.drop_last() =~= frames.drop_last());
}

/// A name bound in the innermost scope shadows every outer binding of it;
/// a name it does not bind is looked up in the scopes around it.
pub proof fn law_inner_scope_shadows<V>(
    frames: Seq<Map<Seq<char>, V>>,
    inner: Map<Seq<char>, V>,
    name: Seq<char>,
)
    ensures
        lookup_in(frames.push(inner), name) == if inner.contains_key(name) {
            Some(inner[name])
        } else {
            lookup_in(frames, name)
        },
{
    assert(frames.push(inner).drop_last() =~= frames);
}

/// Entering a scope, defining names in it and leaving it again gives back
/// the scopes as they were.
pub proof fn law_scope_restores<V>(
    frames: Seq<Map<Seq<char>, V>>,
    names: Seq<Seq<char>>,
    values: Seq<V>,
)
    requires
        names.len() == values.len(),
    ensures
        define_all(frames.push(Map::empty()), names, values).drop_last() == frames,
        define_all(frames.push(Map::empty()), names, values).len() == frames.len() + 1,
    decreases names.len(),
{
    if names.len() > 0 {
        let n = names.len() - 1;
        law_scope_restores(frames, names.take(n), values.take(n));
        let before = define_all(frames.push(Map::empty()), names.take(n), values.take(n));
        assert(define_all(frames.push(Map::empty()), names, values) == define_in(
            before,
            names[n],
            values[n],
        )) by {
            assert(names.drop_last() =~= names.take(n));
            assert(values.drop_last() =~= values.take(n));
        }
        assert(define_in(before, names[n], values[n]).drop_last() =~= before.drop_last());
    } else {
        assert(frames.push(Map::empty()).drop_last() =~= frames);
    }
}

/// The scopes after defining `names[i]` to `values[i]`, one after another.
pub open spec fn define_all<V>(
    frames: Seq<Map<Seq<char>, V>>,
    names: Seq<Seq<char>>,
    values: Seq<V>,
) -> Seq<Map<Seq<char>, V>>
    decreases names.len(),
{
    if names.len() == 0 || values.len() == 0 {
        frames
    } else {
        define_in(
            define_all(frames, names.drop_last(), values.drop_last()),
            names.last(),
            values.last(),
        )
    }
}

/// Assigning succeeds exactly on the names that are bound; it keeps the
/// number of scopes, the name is then found with the new value, and every
/// other name keeps its value.
pub proof fn law_assign_then_lookup<V>(
    frames: Seq<Map<Seq<char>, V>>,
    name: Seq<char>,
    value: V,
    other: Seq<char>,
)
    ensures
        assign_in(frames, name, value) is Some <==> lookup_in(frames, name) is Some,
        assign_in(frames, name, value) matches Some(f) ==> {
            &&& f.len() == frames.len()
            &&& lookup_in(f, name) == Some(value)
            &&& (other != name ==> lookup_in(f, other) == lookup_in(frames, other))
        },
    decreases frames.len(),
{
    if frames.len() > 0 && !frames.last().contains_key(name) {
        law_assign_then_lookup(frames.drop_last(), name, value, other);
        if let Some(g) = assign_in(frames.drop_last(), name, value) {
            assert(g.push(frames.last()).drop_last() =~= g);
        }
    } else if frames.len() > 0 {
        let f = frames.update(frames.len() - 1, frames.last().insert(name, value));
        assert(f.drop_last() =~= frames.drop_last());
    }
}

/// Where scope `j` binds `name` and no scope inside it does, assigning
/// updates scope `j`.
proof fn lemma_assign_at<V>(frames: Seq<Map<Seq<char>, V>>, name: Seq<char>, value: V, j: int)
    requires
        0 <= j < frames.len(),
        frames[j].contains_key(name),
        forall|k: int| j < k < frames.len() ==> !(#[trigger] frames[k]).contains_key(name),
    ensures
        assign_in(frames, name, value) == Some(frames.update(j, frames[j].insert(name, value))),
    decreases frames.len(),
{
    if j < frames.len() - 1 {
        let init = frames.drop_last();
        lemma_assign_at(init, name, value, j);
        assert(init.update(j, init[j].insert(name, value)).push(frames.last()) =~= frames.update(
            j,
            frames[j].insert(name, value),
        ));
    }
}

proof fn lemma_assign_missing<V>(frames: Seq<Map<Seq<char>, V>>, name: Seq<char>, value: V)
    requires
        forall|k: int| 0 <= k < frames.len() ==> !(#[trigger] frames[k]).contains_key(name),
    ensures
        assign_in(frames, name, value) is None,
    decreases frames.len(),
{
    if frames.len() > 0 {
        let init = frames.drop_last();
        assert forall|k: int| 0 <= k < init.len() implies !(#[trigger] init[k]).contains_key(name) by {
            assert(init[k] == frames[k]);
        }
        lemma_assign_missing(init, name, value);
    }
}

} // verus!
