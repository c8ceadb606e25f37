//! What the parser yields on a sequence of tokens, stated as functions over
//! the tokens' views and a position. Each `Outcome` records the result
//! (a syntax tree view or an error) and the position the parser stands at
//! afterwards, also after an error, since recovery starts from there.

use vstd::prelude::*;

use crate::ast::{BinaryOp, BindingV, DeclV, ExprV, FuncDeclV, ParamV, SDeclV, SExprV, SStmtV, Span, StmtV, StructDeclV, TypeV, UnaryOp};
use crate::literal::{decimal, is_float_text, parse_i64};
use crate::token::{kind_name, TokenKind, TokenView};

verus! {

/// The mathematical content of a parse error.
pub struct ParserErrorView {
    pub message: Seq<char>,
    pub line: usize,
    pub column: usize,
}

/// A parse result and the position after it.
pub struct Outcome<T> {
    pub res: Result<T, ParserErrorView>,
    pub pos: int,
}

pub open spec fn done<T>(v: T, pos: int) -> Outcome<T> {
    Outcome { res: Ok(v), pos }
}

pub open spec fn fail<T>(e: ParserErrorView, pos: int) -> Outcome<T> {
    Outcome { res: Err(e), pos }
}

/// The outcome of a step that never happens: the parser always moves on
/// where this stands.
pub open spec fn stalled<T>(pos: int) -> Outcome<T> {
    fail(ParserErrorView { message: Seq::empty(), line: 0, column: 0 }, pos)
}

/// The kind of the token at `p`, `EOF` past the end.
pub open spec fn kind_at(toks: Seq<TokenView>, p: int) -> TokenKind {
    if 0 <= p < toks.len() {
        toks[p].kind
    } else {
        TokenKind::EOF
    }
}

pub open spec fn span_of(t: TokenView) -> Span {
    Span { line: t.line as usize, column: t.column as usize }
}

pub open spec fn error_at(message: Seq<char>, t: TokenView) -> ParserErrorView {
    ParserErrorView { message, line: t.line as usize, column: t.column as usize }
}

pub open spec fn location_text(t: TokenView) -> Seq<char> {
    " at line "@ + decimal(t.line as nat) + ", column "@ + decimal(t.column as nat)
}

/// `expected K but got K' ('v') at line L, column C`
pub open spec fn expected_message(k: TokenKind, t: TokenView) -> Seq<char> {
    "expected "@ + kind_name(k) + " but got "@ + kind_name(t.kind) + " ('"@ + t.value + "')"@
        + location_text(t)
}

/// `unexpected token 'v' at line L, column C`
pub open spec fn unexpected_message(t: TokenView) -> Seq<char> {
    "unexpected token '"@ + t.value + "'"@ + location_text(t)
}

/// `invalid integer 'v'`
pub open spec fn invalid_integer_message(t: TokenView) -> Seq<char> {
    "invalid integer '"@ + t.value + "'"@
}

/// `invalid float 'v'`
pub open spec fn invalid_float_message(t: TokenView) -> Seq<char> {
    "invalid float '"@ + t.value + "'"@
}

/// `expected type, got K`
pub open spec fn expected_type_message(t: TokenView) -> Seq<char> {
    "expected type, got "@ + kind_name(t.kind)
}

/// No `EOF` token stands from `p` up to, not including, `q`.
pub open spec fn eof_free(toks: Seq<TokenView>, p: int, q: int) -> bool {
    forall|k: int| p <= k < q ==> #[trigger] kind_at(toks, k) != TokenKind::EOF
}

/// A position at or after `p`, within the tokens.
pub open spec fn within(toks: Seq<TokenView>, p: int, q: int) -> bool {
    p <= q <= toks.len()
}

/// A position after `p`, within the tokens.
pub open spec fn moved(toks: Seq<TokenView>, p: int, q: int) -> bool {
    p < q <= toks.len()
}

/// Consuming a token of kind `k`.
pub open spec fn sp_expect(toks: Seq<TokenView>, p: int, k: TokenKind) -> Outcome<TokenView> {
    if kind_at(toks, p) == k {
        done(toks[p], p + 1)
    } else {
        fail(error_at(expected_message(k, toks[p]), toks[p]), p)
    }
}

// ---------------------------------------------------------------------------
// Types
// ---------------------------------------------------------------------------

/// A type, optionally followed by `| error`, which makes it a result type.
pub open spec fn sp_type(toks: Seq<TokenView>, p: int) -> Outcome<TypeV>
    decreases toks.len() - p, 1int,
{
    let base = sp_type_base(toks, p);
    match base.res {
        Err(e) => fail(e, base.pos),
        Ok(t) => if kind_at(toks, base.pos) == TokenKind::Pipe {
            let err = sp_expect(toks, base.pos + 1, TokenKind::Error);
            match err.res {
                Err(e) => fail(e, err.pos),
                Ok(_) => done(TypeV::Result(Box::new(t)), err.pos),
            }
        } else {
            done(t, base.pos)
        },
    }
}

/// A type without a `| error` after it.
pub open spec fn sp_type_base(toks: Seq<TokenView>, p: int) -> Outcome<TypeV>
    decreases toks.len() - p, 0int,
{
    let k = kind_at(toks, p);
    if k == TokenKind::IntType {
        done(TypeV::Int, p + 1)
    } else if k == TokenKind::FltType {
        done(TypeV::Flt, p + 1)
    } else if k == TokenKind::StrType {
        done(TypeV::Str, p + 1)
    } else if k == TokenKind::BoolType {
        done(TypeV::Bool, p + 1)
    } else if k == TokenKind::AbyssType {
        done(TypeV::Abyss, p + 1)
    } else if k == TokenKind::LeftBracket {
        let inner = sp_type(toks, p + 1);
        match inner.res {
            Err(e) => fail(e, inner.pos),
            Ok(t) => {
                let close = sp_expect(toks, inner.pos, TokenKind::RightBracket);
                match close.res {
                    Err(e) => fail(e, close.pos),
                    Ok(_) => done(TypeV::List(Box::new(t)), close.pos),
                }
            },
        }
    } else if k == TokenKind::LeftBrace {
        let key = sp_type(toks, p + 1);
        match key.res {
            Err(e) => fail(e, key.pos),
            Ok(kt) => {
                let colon = sp_expect(toks, key.pos, TokenKind::Colon);
                match colon.res {
                    Err(e) => fail(e, colon.pos),
                    Ok(_) => if moved(toks, p, colon.pos) {
                        let val = sp_type(toks, colon.pos);
                        match val.res {
                            Err(e) => fail(e, val.pos),
                            Ok(vt) => {
                                let close = sp_expect(toks, val.pos, TokenKind::RightBrace);
                                match close.res {
                                    Err(e) => fail(e, close.pos),
                                    Ok(_) => done(
                                        TypeV::Mapping(Box::new(kt), Box::new(vt)),
                                        close.pos,
                                    ),
                                }
                            },
                        }
                    } else {
                        stalled(colon.pos)
                    },
                }
            },
        }
    } else if k == TokenKind::Identifier {
        done(TypeV::Named(toks[p].value), p + 1)
    } else {
        fail(error_at(expected_type_message(toks[p]), toks[p]), p)
    }
}

// ---------------------------------------------------------------------------
// Expressions, statements and blocks
// ---------------------------------------------------------------------------

/// The binary operator that a token of kind `k` stands for at precedence
/// level `level`: 1 `||`, 2 `&&`, 3 comparisons, 4 `+ -`, 5 `* / %`.
pub open spec fn binop_at(level: int, k: TokenKind) -> Option<BinaryOp> {
    if level == 1 {
        if k == TokenKind::Or {
            Some(BinaryOp::Or)
        } else {
            None
        }
    } else if level == 2 {
        if k == TokenKind::And {
            Some(BinaryOp::And)
        } else {
            None
        }
    } else if level == 3 {
        if k == TokenKind::DoubleEquals {
            Some(BinaryOp::Equality)
        } else if k == TokenKind::LeftAngle {
            Some(BinaryOp::Lesser)
        } else if k == TokenKind::RightAngle {
            Some(BinaryOp::Greater)
        } else if k == TokenKind::GreaterEquals {
            Some(BinaryOp::Geq)
        } else if k == TokenKind::LessEqual {
            Some(BinaryOp::Leq)
        } else if k == TokenKind::NotEquals {
            Some(BinaryOp::Nequality)
        } else {
            None
        }
    } else if level == 4 {
        if k == TokenKind::Plus {
            Some(BinaryOp::Add)
        } else if k == TokenKind::Minus {
            Some(BinaryOp::Minus)
        } else {
            None
        }
    } else if level == 5 {
        if k == TokenKind::Star {
            Some(BinaryOp::Multiply)
        } else if k == TokenKind::Slash {
            Some(BinaryOp::Divide)
        } else if k == TokenKind::Percent {
            Some(BinaryOp::Modulo)
        } else {
            None
        }
    } else {
        None
    }
}

pub open spec fn binary_node(l: SExprV, op: BinaryOp, r: SExprV) -> SExprV {
    SExprV { node: ExprV::Binary(Box::new(l), op, Box::new(r)), span: l.span }
}

/// An expression: a pipeline.
pub open spec fn sp_expr(toks: Seq<TokenView>, p: int) -> Outcome<SExprV>
    decreases toks.len() - p, 32int,
{
    sp_pipeline(toks, p)
}

/// `or (>> or)*`, grouping to the left.
pub open spec fn sp_pipeline(toks: Seq<TokenView>, p: int) -> Outcome<SExprV>
    decreases toks.len() - p, 31int,
{
    let left = sp_binary(toks, p, 1);
    match left.res {
        Err(e) => fail(e, left.pos),
        Ok(l) => if within(toks, p, left.pos) {
            sp_pipeline_rest(toks, l, left.pos)
        } else {
            stalled(left.pos)
        },
    }
}

pub open spec fn sp_pipeline_rest(toks: Seq<TokenView>, left: SExprV, q: int) -> Outcome<SExprV>
    decreases toks.len() - q, 0int,
{
    if kind_at(toks, q) == TokenKind::PipeLine {
        let right = sp_binary(toks, q + 1, 1);
        match right.res {
            Err(e) => fail(e, right.pos),
            Ok(r) => if moved(toks, q, right.pos) {
                sp_pipeline_rest(
                    toks,
                    SExprV { node: ExprV::Pipeline(Box::new(left), Box::new(r)), span: left.span },
                    right.pos,
                )
            } else {
                stalled(right.pos)
            },
        }
    } else {
        done(left, q)
    }
}

/// The operand of a level: the next level, or a power after level 5.
pub open spec fn sp_operand(toks: Seq<TokenView>, p: int, level: int) -> Outcome<SExprV>
    decreases toks.len() - p, 29int - 2 * level,
{
    if 1 <= level < 5 {
        sp_binary(toks, p, level + 1)
    } else if level == 5 {
        sp_power(toks, p)
    } else {
        stalled(p)
    }
}

/// `operand (op operand)*` at precedence `level`, grouping to the left.
pub open spec fn sp_binary(toks: Seq<TokenView>, p: int, level: int) -> Outcome<SExprV>
    decreases toks.len() - p, 30int - 2 * level,
{
    if 1 <= level <= 5 {
        let left = sp_operand(toks, p, level);
        match left.res {
            Err(e) => fail(e, left.pos),
            Ok(l) => if within(toks, p, left.pos) {
                sp_binary_rest(toks, l, left.pos, level)
            } else {
                stalled(left.pos)
            },
        }
    } else {
        stalled(p)
    }
}

pub open spec fn sp_binary_rest(toks: Seq<TokenView>, left: SExprV, q: int, level: int) -> Outcome<SExprV>
    decreases toks.len() - q, 0int,
{
    match binop_at(level, kind_at(toks, q)) {
        None => done(left, q),
        Some(op) => {
            let right = sp_operand(toks, q + 1, level);
            match right.res {
                Err(e) => fail(e, right.pos),
                Ok(r) => if moved(toks, q, right.pos) {
                    sp_binary_rest(toks, binary_node(left, op, r), right.pos, level)
                } else {
                    stalled(right.pos)
                },
            }
        },
    }
}

/// `unary (^ power)?`, grouping to the right.
pub open spec fn sp_power(toks: Seq<TokenView>, p: int) -> Outcome<SExprV>
    decreases toks.len() - p, 6int,
{
    let left = sp_unary(toks, p);
    match left.res {
        Err(e) => fail(e, left.pos),
        Ok(l) => if kind_at(toks, left.pos) == TokenKind::Caret {
            if within(toks, p, left.pos) {
                let right = sp_power(toks, left.pos + 1);
                match right.res {
                    Err(e) => fail(e, right.pos),
                    Ok(r) => done(binary_node(l, BinaryOp::Exponent, r), right.pos),
                }
            } else {
                stalled(left.pos)
            }
        } else {
            done(l, left.pos)
        },
    }
}

/// `! unary | - unary | primary postfix*`
pub open spec fn sp_unary(toks: Seq<TokenView>, p: int) -> Outcome<SExprV>
    decreases toks.len() - p, 5int,
{
    let k = kind_at(toks, p);
    if k == TokenKind::Bang || k == TokenKind::Minus {
        let op = if k == TokenKind::Bang {
            UnaryOp::Not
        } else {
            UnaryOp::Neg
        };
        let x = sp_unary(toks, p + 1);
        match x.res {
            Err(e) => fail(e, x.pos),
            Ok(e) => done(SExprV { node: ExprV::Unary(op, Box::new(e)), span: span_of(toks[p]) }, x.pos),
        }
    } else {
        let prim = sp_primary(toks, p);
        match prim.res {
            Err(e) => fail(e, prim.pos),
            Ok(e) => if within(toks, p, prim.pos) {
                sp_postfix(toks, e, prim.pos)
            } else {
                stalled(prim.pos)
            },
        }
    }
}

/// Field accesses `.f`, method calls `:m(args)`, calls `(args)`, `?` and
/// indexing `[expr]` after `e`, which ends at `q`.
pub open spec fn sp_postfix(toks: Seq<TokenView>, e: SExprV, q: int) -> Outcome<SExprV>
    decreases toks.len() - q, 3int,
{
    let k = kind_at(toks, q);
    if k == TokenKind::Dot {
        let field = sp_expect(toks, q + 1, TokenKind::Identifier);
        match field.res {
            Err(err) => fail(err, field.pos),
            Ok(t) => sp_postfix(
                toks,
                SExprV { node: ExprV::FieldAccess(Box::new(e), t.value), span: e.span },
                field.pos,
            ),
        }
    } else if k == TokenKind::Colon && kind_at(toks, q + 1) == TokenKind::Identifier && kind_at(
        toks,
        q + 2,
    ) == TokenKind::LeftParen {
        let args = sp_args(toks, q + 2);
        match args.res {
            Err(err) => fail(err, args.pos),
            Ok(a) => if moved(toks, q, args.pos) {
                sp_postfix(
                    toks,
                    SExprV {
                        node: ExprV::MethodCall(Box::new(e), toks[q + 1].value, a),
                        span: e.span,
                    },
                    args.pos,
                )
            } else {
                stalled(args.pos)
            },
        }
    } else if k == TokenKind::LeftParen {
        let args = sp_args(toks, q);
        match args.res {
            Err(err) => fail(err, args.pos),
            Ok(a) => if moved(toks, q, args.pos) {
                sp_postfix(toks, SExprV { node: ExprV::Call(Box::new(e), a), span: e.span }, args.pos)
            } else {
                stalled(args.pos)
            },
        }
    } else if k == TokenKind::Question {
        sp_postfix(toks, SExprV { node: ExprV::Try(Box::new(e)), span: e.span }, q + 1)
    } else if k == TokenKind::LeftBracket {
        let index = sp_expr(toks, q + 1);
        match index.res {
            Err(err) => fail(err, index.pos),
            Ok(i) => {
                let close = sp_expect(toks, index.pos, TokenKind::RightBracket);
                match close.res {
                    Err(err) => fail(err, close.pos),
                    Ok(_) => if moved(toks, q, close.pos) {
                        sp_postfix(
                            toks,
                            SExprV { node: ExprV::Index(Box::new(e), Box::new(i)), span: e.span },
                            close.pos,
                        )
                    } else {
                        stalled(close.pos)
                    },
                }
            },
        }
    } else {
        done(e, q)
    }
}

/// `( (expr (, expr)*)? )`
pub open spec fn sp_args(toks: Seq<TokenView>, p: int) -> Outcome<Seq<SExprV>>
    decreases toks.len() - p, 2int,
{
    let open = sp_expect(toks, p, TokenKind::LeftParen);
    match open.res {
        Err(e) => fail(e, open.pos),
        Ok(_) => if kind_at(toks, p + 1) == TokenKind::RightParen {
            done(Seq::empty(), p + 2)
        } else {
            let items = sp_args_items(toks, p + 1, Seq::empty());
            match items.res {
                Err(e) => fail(e, items.pos),
                Ok(a) => {
                    let close = sp_expect(toks, items.pos, TokenKind::RightParen);
                    match close.res {
                        Err(e) => fail(e, close.pos),
                        Ok(_) => done(a, close.pos),
                    }
                },
            }
        },
    }
}

/// `expr (, expr)*`, appended to `acc`.
pub open spec fn sp_args_items(toks: Seq<TokenView>, q: int, acc: Seq<SExprV>) -> Outcome<Seq<SExprV>>
    decreases toks.len() - q, 34int,
{
    let item = sp_expr(toks, q);
    match item.res {
        Err(e) => fail(e, item.pos),
        Ok(x) => if kind_at(toks, item.pos) == TokenKind::Comma {
            if within(toks, q, item.pos) {
                sp_args_items(toks, item.pos + 1, acc.push(x))
            } else {
                stalled(item.pos)
            }
        } else {
            done(acc.push(x), item.pos)
        },
    }
}

/// `(expr (, expr)* ,?)?` up to `]`, appended to `acc`.
pub open spec fn sp_list_items(toks: Seq<TokenView>, q: int, acc: Seq<SExprV>) -> Outcome<Seq<SExprV>>
    decreases toks.len() - q, 34int,
{
    if kind_at(toks, q) == TokenKind::RightBracket {
        done(acc, q)
    } else {
        let item = sp_expr(toks, q);
        match item.res {
            Err(e) => fail(e, item.pos),
            Ok(x) => if kind_at(toks, item.pos) == TokenKind::Comma {
                if within(toks, q, item.pos) {
                    sp_list_items(toks, item.pos + 1, acc.push(x))
                } else {
                    stalled(item.pos)
                }
            } else {
                done(acc.push(x), item.pos)
            },
        }
    }
}

/// `(expr : expr (, expr : expr)* ,?)?` up to `}`, appended to `acc`.
pub open spec fn sp_map_items(toks: Seq<TokenView>, q: int, acc: Seq<(SExprV, SExprV)>) -> Outcome<
    Seq<(SExprV, SExprV)>,
>
    decreases toks.len() - q, 34int,
{
    if kind_at(toks, q) == TokenKind::RightBrace {
        done(acc, q)
    } else {
        let key = sp_expr(toks, q);
        match key.res {
            Err(e) => fail(e, key.pos),
            Ok(k) => {
                let colon = sp_expect(toks, key.pos, TokenKind::Colon);
                match colon.res {
                    Err(e) => fail(e, colon.pos),
                    Ok(_) => if within(toks, q, key.pos) {
                        let val = sp_expr(toks, colon.pos);
                        match val.res {
                            Err(e) => fail(e, val.pos),
                            Ok(v) => if kind_at(toks, val.pos) == TokenKind::Comma {
                                if within(toks, q, val.pos) {
                                    sp_map_items(toks, val.pos + 1, acc.push((k, v)))
                                } else {
                                    stalled(val.pos)
                                }
                            } else {
                                done(acc.push((k, v)), val.pos)
                            },
                        }
                    } else {
                        stalled(colon.pos)
                    },
                }
            },
        }
    }
}

/// `(name (, name)*)?` up to `in`, appended to `acc`.
pub open spec fn sp_loop_vars(toks: Seq<TokenView>, q: int, acc: Seq<Seq<char>>) -> Outcome<Seq<Seq<char>>>
    decreases toks.len() - q,
{
    if kind_at(toks, q) == TokenKind::In {
        done(acc, q)
    } else {
        let v = sp_expect(toks, q, TokenKind::Identifier);
        match v.res {
            Err(e) => fail(e, v.pos),
            Ok(t) => if kind_at(toks, q + 1) == TokenKind::Comma {
                sp_loop_vars(toks, q + 2, acc.push(t.value))
            } else {
                done(acc.push(t.value), q + 1)
            },
        }
    }
}

/// `if expr { stmts } (else { stmts })?`, the `if` at `p`.
pub open spec fn sp_if(toks: Seq<TokenView>, p: int) -> Outcome<SExprV>
    decreases toks.len() - p, 1int,
{
    let t = toks[p];
    let at = |node: ExprV| SExprV { node, span: span_of(t) };
    if moved(toks, p, p + 1) {
        let cond = sp_expr(toks, p + 1);
        match cond.res {
            Err(e) => fail(e, cond.pos),
            Ok(c) => if moved(toks, p, cond.pos) {
                let body = sp_block(toks, cond.pos);
                match body.res {
                    Err(e) => fail(e, body.pos),
                    Ok(b) => if kind_at(toks, body.pos) == TokenKind::Else {
                        if within(toks, p, body.pos) {
                            let els = sp_block(toks, body.pos + 1);
                            match els.res {
                                Err(e) => fail(e, els.pos),
                                Ok(eb) => done(at(ExprV::If(Box::new(c), b, Some(eb))), els.pos),
                            }
                        } else {
                            stalled(body.pos)
                        }
                    } else {
                        done(at(ExprV::If(Box::new(c), b, None)), body.pos)
                    },
                }
            } else {
                stalled(cond.pos)
            },
        }
    } else {
        stalled(p)
    }
}

/// `I ( names in expr ) -> { stmts }`, the `I` at `p`.
pub open spec fn sp_loop(toks: Seq<TokenView>, p: int) -> Outcome<SExprV>
    decreases toks.len() - p, 1int,
{
    let t = toks[p];
    let at = |node: ExprV| SExprV { node, span: span_of(t) };
    let open = sp_expect(toks, p + 1, TokenKind::LeftParen);
    match open.res {
        Err(e) => fail(e, open.pos),
        Ok(_) => {
            let vars = sp_loop_vars(toks, p + 2, Seq::empty());
            match vars.res {
                Err(e) => fail(e, vars.pos),
                Ok(vs) => {
                    let kw = sp_expect(toks, vars.pos, TokenKind::In);
                    match kw.res {
                        Err(e) => fail(e, kw.pos),
                        Ok(_) => if moved(toks, p, kw.pos) {
                            let iter = sp_expr(toks, kw.pos);
                            match iter.res {
                                Err(e) => fail(e, iter.pos),
                                Ok(it) => {
                                    let close = sp_expect(toks, iter.pos, TokenKind::RightParen);
                                    match close.res {
                                        Err(e) => fail(e, close.pos),
                                        Ok(_) => {
                                            let arrow = sp_expect(toks, close.pos, TokenKind::Arrow);
                                            match arrow.res {
                                                Err(e) => fail(e, arrow.pos),
                                                Ok(_) => if moved(toks, p, arrow.pos) {
                                                    let body = sp_block(toks, arrow.pos);
                                                    match body.res {
                                                        Err(e) => fail(e, body.pos),
                                                        Ok(b) => done(
                                                            at(ExprV::Loop(vs, Box::new(it), b)),
                                                            body.pos,
                                                        ),
                                                    }
                                                } else {
                                                    stalled(arrow.pos)
                                                },
                                            }
                                        },
                                    }
                                },
                            }
                        } else {
                            stalled(kw.pos)
                        },
                    }
                },
            }
        },
    }
}

/// A primary expression: a literal, a name, a lambda, a parenthesised
/// expression, `if`, a loop, a list or a map.
pub open spec fn sp_primary(toks: Seq<TokenView>, p: int) -> Outcome<SExprV>
    decreases toks.len() - p, 4int,
{
    let k = kind_at(toks, p);
    let t = toks[p];
    let at = |node: ExprV| SExprV { node, span: span_of(t) };
    if k == TokenKind::IntLiteral {
        match parse_i64(t.value) {
            Some(n) => done(at(ExprV::Int(n)), p + 1),
            None => fail(error_at(invalid_integer_message(t), t), p + 1),
        }
    } else if k == TokenKind::FltLiteral {
        if is_float_text(t.value) {
            done(at(ExprV::Flt(t.value)), p + 1)
        } else {
            fail(error_at(invalid_float_message(t), t), p + 1)
        }
    } else if k == TokenKind::StrLiteral {
        done(at(ExprV::Str(t.value)), p + 1)
    } else if k == TokenKind::Identifier {
        if kind_at(toks, p + 1) == TokenKind::Arrow {
            let body = sp_expr(toks, p + 2);
            match body.res {
                Err(e) => fail(e, body.pos),
                Ok(b) => done(at(ExprV::Lambda(t.value, Box::new(b))), body.pos),
            }
        } else {
            done(at(ExprV::Identifier(t.value)), p + 1)
        }
    } else if k == TokenKind::LeftParen {
        let inner = sp_expr(toks, p + 1);
        match inner.res {
            Err(e) => fail(e, inner.pos),
            Ok(x) => {
                let close = sp_expect(toks, inner.pos, TokenKind::RightParen);
                match close.res {
                    Err(e) => fail(e, close.pos),
                    Ok(_) => done(x, close.pos),
                }
            },
        }
    } else if k == TokenKind::True {
        done(at(ExprV::Bool(true)), p + 1)
    } else if k == TokenKind::False {
        done(at(ExprV::Bool(false)), p + 1)
    } else if k == TokenKind::If {
        sp_if(toks, p)
    } else if k == TokenKind::I {
        sp_loop(toks, p)
    } else if k == TokenKind::LeftBracket {
        let items = sp_list_items(toks, p + 1, Seq::empty());
        match items.res {
            Err(e) => fail(e, items.pos),
            Ok(xs) => {
                let close = sp_expect(toks, items.pos, TokenKind::RightBracket);
                match close.res {
                    Err(e) => fail(e, close.pos),
                    Ok(_) => done(at(ExprV::ListLiteral(xs)), close.pos),
                }
            },
        }
    } else if k == TokenKind::LeftBrace {
        let items = sp_map_items(toks, p + 1, Seq::empty());
        match items.res {
            Err(e) => fail(e, items.pos),
            Ok(ps) => {
                let close = sp_expect(toks, items.pos, TokenKind::RightBrace);
                match close.res {
                    Err(e) => fail(e, close.pos),
                    Ok(_) => done(at(ExprV::MapLiteral(ps)), close.pos),
                }
            },
        }
    } else {
        fail(error_at(unexpected_message(t), t), p)
    }
}

/// `{ stmt* }`
pub open spec fn sp_block(toks: Seq<TokenView>, p: int) -> Outcome<Seq<SStmtV>>
    decreases toks.len() - p, 0int,
{
    let open = sp_expect(toks, p, TokenKind::LeftBrace);
    match open.res {
        Err(e) => fail(e, open.pos),
        Ok(_) => {
            let items = sp_block_items(toks, p + 1, Seq::empty());
            match items.res {
                Err(e) => fail(e, items.pos),
                Ok(stmts) => {
                    let close = sp_expect(toks, items.pos, TokenKind::RightBrace);
                    match close.res {
                        Err(e) => fail(e, close.pos),
                        Ok(_) => done(stmts, close.pos),
                    }
                },
            }
        },
    }
}

/// Statements up to `}` or the end, appended to `acc`.
pub open spec fn sp_block_items(toks: Seq<TokenView>, q: int, acc: Seq<SStmtV>) -> Outcome<Seq<SStmtV>>
    decreases toks.len() - q, 35int,
{
    let k = kind_at(toks, q);
    if k == TokenKind::RightBrace || k == TokenKind::EOF {
        done(acc, q)
    } else {
        let s = sp_stmt(toks, q);
        match s.res {
            Err(e) => fail(e, s.pos),
            Ok(st) => if moved(toks, q, s.pos) {
                sp_block_items(toks, s.pos, acc.push(st))
            } else {
                stalled(s.pos)
            },
        }
    }
}

/// Whether the statement at `p` is a binding: `mut ...`, `name = ...` or
/// `name : ...` that is not a method call `name:m(`.
pub open spec fn starts_binding(toks: Seq<TokenView>, p: int) -> bool {
    kind_at(toks, p) == TokenKind::Mut || (kind_at(toks, p) == TokenKind::Identifier && (kind_at(
        toks,
        p + 1,
    ) == TokenKind::Equals || (kind_at(toks, p + 1) == TokenKind::Colon && !(kind_at(toks, p + 2)
        == TokenKind::Identifier && kind_at(toks, p + 3) == TokenKind::LeftParen))))
}

/// A statement: a binding, an expression, or an assignment `expr = expr`.
pub open spec fn sp_stmt(toks: Seq<TokenView>, p: int) -> Outcome<SStmtV>
    decreases toks.len() - p, 34int,
{
    if starts_binding(toks, p) {
        let b = sp_binding(toks, p);
        match b.res {
            Err(e) => fail(e, b.pos),
            Ok(bv) => done(SStmtV { node: StmtV::Binding(bv), span: span_of(toks[p]) }, b.pos),
        }
    } else {
        let target = sp_expr(toks, p);
        match target.res {
            Err(e) => fail(e, target.pos),
            Ok(x) => if kind_at(toks, target.pos) == TokenKind::Equals {
                if within(toks, p, target.pos) {
                    let value = sp_expr(toks, target.pos + 1);
                    match value.res {
                        Err(e) => fail(e, value.pos),
                        Ok(v) => done(
                            SStmtV {
                                node: StmtV::Expr(
                                    SExprV {
                                        node: ExprV::Assign(Box::new(x), Box::new(v)),
                                        span: x.span,
                                    },
                                ),
                                span: span_of(toks[p]),
                            },
                            value.pos,
                        ),
                    }
                } else {
                    stalled(target.pos)
                }
            } else {
                done(SStmtV { node: StmtV::Expr(x), span: span_of(toks[p]) }, target.pos)
            },
        }
    }
}

/// `mut? name (: type)? = expr`
pub open spec fn sp_binding(toks: Seq<TokenView>, p: int) -> Outcome<BindingV>
    decreases toks.len() - p, 33int,
{
    let mutable = kind_at(toks, p) == TokenKind::Mut;
    let q = if mutable {
        p + 1
    } else {
        p
    };
    let name = sp_expect(toks, q, TokenKind::Identifier);
    match name.res {
        Err(e) => fail(e, name.pos),
        Ok(n) => {
            let ann: Outcome<Option<TypeV>> = if kind_at(toks, q + 1) == TokenKind::Colon {
                let t = sp_type(toks, q + 2);
                match t.res {
                    Err(e) => fail(e, t.pos),
                    Ok(tv) => done(Some(tv), t.pos),
                }
            } else {
                done(None, q + 1)
            };
            match ann.res {
                Err(e) => fail(e, ann.pos),
                Ok(a) => {
                    let eq = sp_expect(toks, ann.pos, TokenKind::Equals);
                    match eq.res {
                        Err(e) => fail(e, eq.pos),
                        Ok(_) => if within(toks, p, ann.pos) {
                            let value = sp_expr(toks, eq.pos);
                            match value.res {
                                Err(e) => fail(e, value.pos),
                                Ok(v) => done(
                                    BindingV { mutable, name: n.value, type_ann: a, value: v },
                                    value.pos,
                                ),
                            }
                        } else {
                            stalled(eq.pos)
                        },
                    }
                },
            }
        },
    }
}

// ---------------------------------------------------------------------------
// Declarations and programs
// ---------------------------------------------------------------------------

/// `(name (: type)? (, name (: type)?)*)?` up to `)`, appended to `acc`.
pub open spec fn sp_params(toks: Seq<TokenView>, q: int, acc: Seq<ParamV>) -> Outcome<Seq<ParamV>>
    decreases toks.len() - q,
{
    if kind_at(toks, q) == TokenKind::RightParen {
        done(acc, q)
    } else {
        let name = sp_expect(toks, q, TokenKind::Identifier);
        match name.res {
            Err(e) => fail(e, name.pos),
            Ok(n) => {
                let ann: Outcome<TypeV> = if kind_at(toks, q + 1) == TokenKind::Colon {
                    sp_type(toks, q + 2)
                } else {
                    done(TypeV::Inferred, q + 1)
                };
                match ann.res {
                    Err(e) => fail(e, ann.pos),
                    Ok(t) => {
                        let acc2 = acc.push(ParamV { name: n.value, type_ann: t });
                        if kind_at(toks, ann.pos) == TokenKind::Comma {
                            if within(toks, q, ann.pos) {
                                sp_params(toks, ann.pos + 1, acc2)
                            } else {
                                stalled(ann.pos)
                            }
                        } else {
                            done(acc2, ann.pos)
                        }
                    },
                }
            },
        }
    }
}

/// `@ ( params ) name -> type { stmts }`
#[verifier::opaque]
pub open spec fn sp_func_decl(toks: Seq<TokenView>, p: int) -> Outcome<FuncDeclV> {
    let at = sp_expect(toks, p, TokenKind::At);
    match at.res {
        Err(e) => fail(e, at.pos),
        Ok(_) => {
            let open = sp_expect(toks, at.pos, TokenKind::LeftParen);
            match open.res {
                Err(e) => fail(e, open.pos),
                Ok(_) => {
                    let params = sp_params(toks, open.pos, Seq::empty());
                    match params.res {
                        Err(e) => fail(e, params.pos),
                        Ok(ps) => {
                            let close = sp_expect(toks, params.pos, TokenKind::RightParen);
                            match close.res {
                                Err(e) => fail(e, close.pos),
                                Ok(_) => {
                                    let name = sp_expect(toks, close.pos, TokenKind::Identifier);
                                    match name.res {
                                        Err(e) => fail(e, name.pos),
                                        Ok(n) => {
                                            let arrow = sp_expect(toks, name.pos, TokenKind::Arrow);
                                            match arrow.res {
                                                Err(e) => fail(e, arrow.pos),
                                                Ok(_) => {
                                                    let ret = sp_type(toks, arrow.pos);
                                                    match ret.res {
                                                        Err(e) => fail(e, ret.pos),
                                                        Ok(rt) => {
                                                            let body = sp_block(toks, ret.pos);
                                                            match body.res {
                                                                Err(e) => fail(e, body.pos),
                                                                Ok(b) => done(
                                                                    FuncDeclV {
                                                                        name: n.value,
                                                                        params: ps,
                                                                        return_type: rt,
                                                                        body: b,
                                                                    },
                                                                    body.pos,
                                                                ),
                                                            }
                                                        },
                                                    }
                                                },
                                            }
                                        },
                                    }
                                },
                            }
                        },
                    }
                },
            }
        },
    }
}

/// The fields and methods of a struct body up to `}`, appended to `vars`
/// and `methods`.
pub open spec fn sp_struct_body(
    toks: Seq<TokenView>,
    q: int,
    vars: Seq<ParamV>,
    methods: Seq<FuncDeclV>,
) -> Outcome<(Seq<ParamV>, Seq<FuncDeclV>)>
    decreases toks.len() - q,
{
    let k = kind_at(toks, q);
    if k == TokenKind::RightBrace {
        done((vars, methods), q)
    } else if k == TokenKind::At {
        let f = sp_func_decl(toks, q);
        match f.res {
            Err(e) => fail(e, f.pos),
            Ok(fd) => if moved(toks, q, f.pos) {
                sp_struct_body(toks, f.pos, vars, methods.push(fd))
            } else {
                stalled(f.pos)
            },
        }
    } else {
        let name = sp_expect(toks, q, TokenKind::Identifier);
        match name.res {
            Err(e) => fail(e, name.pos),
            Ok(n) => {
                let colon = sp_expect(toks, q + 1, TokenKind::Colon);
                match colon.res {
                    Err(e) => fail(e, colon.pos),
                    Ok(_) => {
                        let t = sp_type(toks, q + 2);
                        match t.res {
                            Err(e) => fail(e, t.pos),
                            Ok(tv) => {
                                let vars2 = vars.push(ParamV { name: n.value, type_ann: tv });
                                if kind_at(toks, t.pos) == TokenKind::Comma {
                                    if within(toks, q, t.pos) {
                                        sp_struct_body(toks, t.pos + 1, vars2, methods)
                                    } else {
                                        stalled(t.pos)
                                    }
                                } else if moved(toks, q, t.pos) {
                                    sp_struct_body(toks, t.pos, vars2, methods)
                                } else {
                                    stalled(t.pos)
                                }
                            },
                        }
                    },
                }
            },
        }
    }
}

/// `struct name { fields and methods }`
#[verifier::opaque]
pub open spec fn sp_struct_decl(toks: Seq<TokenView>, p: int) -> Outcome<StructDeclV> {
    let kw = sp_expect(toks, p, TokenKind::Struct);
    match kw.res {
        Err(e) => fail(e, kw.pos),
        Ok(_) => {
            let name = sp_expect(toks, kw.pos, TokenKind::Identifier);
            match name.res {
                Err(e) => fail(e, name.pos),
                Ok(n) => {
                    let open = sp_expect(toks, name.pos, TokenKind::LeftBrace);
                    match open.res {
                        Err(e) => fail(e, open.pos),
                        Ok(_) => {
                            let body = sp_struct_body(toks, open.pos, Seq::empty(), Seq::empty());
                            match body.res {
                                Err(e) => fail(e, body.pos),
                                Ok((vs, ms)) => {
                                    let close = sp_expect(toks, body.pos, TokenKind::RightBrace);
                                    match close.res {
                                        Err(e) => fail(e, close.pos),
                                        Ok(_) => done(
                                            StructDeclV { name: n.value, variables: vs, methods: ms },
                                            close.pos,
                                        ),
                                    }
                                },
                            }
                        },
                    }
                },
            }
        },
    }
}

/// A declaration: a function (`@`), a struct (`struct`) or a binding.
#[verifier::opaque]
pub open spec fn sp_decl(toks: Seq<TokenView>, p: int) -> Outcome<SDeclV> {
    let k = kind_at(toks, p);
    let span = span_of(toks[p]);
    if k == TokenKind::At {
        let f = sp_func_decl(toks, p);
        match f.res {
            Err(e) => fail(e, f.pos),
            Ok(fd) => done(SDeclV { node: DeclV::Func(fd), span }, f.pos),
        }
    } else if k == TokenKind::Struct {
        let s = sp_struct_decl(toks, p);
        match s.res {
            Err(e) => fail(e, s.pos),
            Ok(sd) => done(SDeclV { node: DeclV::Struct(sd), span }, s.pos),
        }
    } else {
        let b = sp_binding(toks, p);
        match b.res {
            Err(e) => fail(e, b.pos),
            Ok(bv) => done(SDeclV { node: DeclV::Binding(bv), span }, b.pos),
        }
    }
}

/// The first position at or after `q` holding `@`, `struct` or `EOF`,
/// where parsing resumes after an error.
pub open spec fn sp_sync(toks: Seq<TokenView>, q: int) -> int
    decreases toks.len() - q,
{
    let k = kind_at(toks, q);
    if q < 0 || q >= toks.len() || k == TokenKind::At || k == TokenKind::Struct || k == TokenKind::EOF {
        q
    } else {
        sp_sync(toks, q + 1)
    }
}

/// The declarations and errors of the program from `p` up to `EOF`: each
/// declaration that parses is kept; after each error, parsing resumes at
/// the next `@`, `struct` or `EOF`.
pub open spec fn sp_program(toks: Seq<TokenView>, p: int) -> (Seq<SDeclV>, Seq<ParserErrorView>)
    decreases toks.len() - p,
{
    if p < 0 || p >= toks.len() || kind_at(toks, p) == TokenKind::EOF {
        (Seq::empty(), Seq::empty())
    } else {
        let d = sp_decl(toks, p);
        match d.res {
            Ok(x) => if moved(toks, p, d.pos) {
                let rest = sp_program(toks, d.pos);
                (seq![x] + rest.0, rest.1)
            } else {
                (Seq::empty(), Seq::empty())
            },
            Err(e) => {
                let q = sp_sync(toks, d.pos);
                if moved(toks, p, q) {
                    let rest = sp_program(toks, q);
                    (rest.0, seq![e] + rest.1)
                } else {
                    (Seq::empty(), Seq::empty())
                }
            },
        }
    }
}


// ---------------------------------------------------------------------------
// Precedence and grouping of binary operators
// ---------------------------------------------------------------------------

/// The token of each binary operator below `^`.
pub open spec fn binary_token(k: TokenKind, op: BinaryOp) -> bool {
    ||| k == TokenKind::Or && op == BinaryOp::Or
    ||| k == TokenKind::And && op == BinaryOp::And
    ||| k == TokenKind::DoubleEquals && op == BinaryOp::Equality
    ||| k == TokenKind::NotEquals && op == BinaryOp::Nequality
    ||| k == TokenKind::LeftAngle && op == BinaryOp::Lesser
    ||| k == TokenKind::RightAngle && op == BinaryOp::Greater
    ||| k == TokenKind::LessEqual && op == BinaryOp::Leq
    ||| k == TokenKind::GreaterEquals && op == BinaryOp::Geq
    ||| k == TokenKind::Plus && op == BinaryOp::Add
    ||| k == TokenKind::Minus && op == BinaryOp::Minus
    ||| k == TokenKind::Star && op == BinaryOp::Multiply
    ||| k == TokenKind::Slash && op == BinaryOp::Divide
    ||| k == TokenKind::Percent && op == BinaryOp::Modulo
}

/// How tightly a binary operator binds, from the loosest: `||`, `&&`, the
/// comparisons, `+ -`, then `* / %`.
pub open spec fn precedence(op: BinaryOp) -> int {
    match op {
        BinaryOp::Or => 1,
        BinaryOp::And => 2,
        BinaryOp::Equality | BinaryOp::Nequality | BinaryOp::Lesser | BinaryOp::Greater | BinaryOp::Leq
        | BinaryOp::Geq => 3,
        BinaryOp::Add | BinaryOp::Minus => 4,
        BinaryOp::Multiply | BinaryOp::Divide | BinaryOp::Modulo => 5,
        BinaryOp::Exponent => 6,
    }
}

/// The name read from token `t`, as an expression.
pub open spec fn name_node(t: TokenView) -> SExprV {
    SExprV { node: ExprV::Identifier(t.value), span: span_of(t) }
}

/// `l op r`, placed where `l` starts.
pub open spec fn tree(l: SExprV, op: BinaryOp, r: SExprV) -> SExprV {
    SExprV { node: ExprV::Binary(Box::new(l), op, Box::new(r)), span: l.span }
}

/// A token after which a name ends: no arrow, postfix or `^`.
pub open spec fn ends_name(k: TokenKind) -> bool {
    k != TokenKind::Arrow && k != TokenKind::Dot && k != TokenKind::Colon && k != TokenKind::LeftParen
        && k != TokenKind::Question && k != TokenKind::LeftBracket && k != TokenKind::Caret
}

proof fn lemma_binary_token(k: TokenKind, op: BinaryOp, level: int)
    requires
        binary_token(k, op),
    ensures
        1 <= precedence(op) <= 5,
        binop_at(level, k) == if level == precedence(op) {
            Some(op)
        } else {
            None::<BinaryOp>
        },
        ends_name(k),
        k != TokenKind::PipeLine,
{
}

/// A name followed by a token that ends it, and that no level from
/// `level + 1` on takes, is a whole operand at `level`.
proof fn lemma_name_operand(toks: Seq<TokenView>, p: int, level: int)
    requires
        0 <= p,
        p + 1 < toks.len(),
        toks[p].kind == TokenKind::Identifier,
        ends_name(toks[p + 1].kind),
        1 <= level <= 5,
        forall|l: int| level < l <= 5 ==> #[trigger] binop_at(l, toks[p + 1].kind) is None,
    ensures
        sp_operand(toks, p, level) == done(name_node(toks[p]), p + 1),
    decreases 5 - level,
{
    assert(sp_unary(toks, p) == done(name_node(toks[p]), p + 1)) by {
        assert(sp_primary(toks, p) == done(name_node(toks[p]), p + 1));
        assert(sp_postfix(toks, name_node(toks[p]), p + 1) == done(name_node(toks[p]), p + 1));
    }
    if level == 5 {
        assert(sp_power(toks, p) == done(name_node(toks[p]), p + 1));
    } else {
        lemma_name_operand(toks, p, level + 1);
        assert(sp_binary_rest(toks, name_node(toks[p]), p + 1, level + 1) == done(name_node(toks[p]), p + 1));
    }
}

/// An operand at `level` that ends at `q` is the whole of `sp_binary` at
/// `level` when the token at `q` is not taken at `level`.
proof fn lemma_operand_whole(toks: Seq<TokenView>, p: int, q: int, e: SExprV, level: int)
    requires
        0 <= p < q <= toks.len(),
        1 <= level <= 5,
        sp_operand(toks, p, level) == done(e, q),
        binop_at(level, kind_at(toks, q)) is None,
    ensures
        sp_binary(toks, p, level) == done(e, q),
{
}

/// An expression that `sp_binary` reads at level `from` is read whole at
/// each lower level `to` whose operators do not stand after it.
proof fn lemma_lift(toks: Seq<TokenView>, p: int, q: int, e: SExprV, from: int, to: int)
    requires
        0 <= p < q <= toks.len(),
        1 <= to <= from <= 5,
        sp_binary(toks, p, from) == done(e, q),
        forall|l: int| to <= l < from ==> #[trigger] binop_at(l, kind_at(toks, q)) is None,
    ensures
        sp_binary(toks, p, to) == done(e, q),
    decreases from - to,
{
    if to < from {
        lemma_lift(toks, p, q, e, from, to + 1);
        assert(sp_operand(toks, p, to) == done(e, q));
        lemma_operand_whole(toks, p, q, e, to);
    }
}

/// The facts about `x k1 y k2 z EOF` that both groupings rest on.
pub open spec fn three_names(toks: Seq<TokenView>, k1: TokenKind, op1: BinaryOp, k2: TokenKind, op2: BinaryOp) -> bool {
    &&& toks.len() == 6
    &&& toks[0].kind == TokenKind::Identifier
    &&& toks[2].kind == TokenKind::Identifier
    &&& toks[4].kind == TokenKind::Identifier
    &&& toks[1].kind == k1
    &&& toks[3].kind == k2
    &&& toks[5].kind == TokenKind::EOF
    &&& binary_token(k1, op1)
    &&& binary_token(k2, op2)
}

proof fn lemma_three_names_facts(toks: Seq<TokenView>, k1: TokenKind, op1: BinaryOp, k2: TokenKind, op2: BinaryOp)
    requires
        three_names(toks, k1, op1, k2, op2),
    ensures
        kind_at(toks, 1) == k1,
        kind_at(toks, 3) == k2,
        kind_at(toks, 5) == TokenKind::EOF,
        forall|l: int| #[trigger] binop_at(l, k1) == (if l == precedence(op1) {
            Some(op1)
        } else {
            None::<BinaryOp>
        }),
        forall|l: int| #[trigger] binop_at(l, k2) == (if l == precedence(op2) {
            Some(op2)
        } else {
            None::<BinaryOp>
        }),
        forall|l: int| #[trigger] binop_at(l, TokenKind::EOF) is None,
        forall|l: int| 1 <= l <= 5 ==> #[trigger] sp_operand(toks, 4, l) == done(name_node(toks[4]), 5),
        1 <= precedence(op1) <= 5,
        1 <= precedence(op2) <= 5,
        ends_name(k1),
        ends_name(k2),
{
    assert forall|l: int| true implies #[trigger] binop_at(l, k1) == (if l == precedence(op1) {
        Some(op1)
    } else {
        None::<BinaryOp>
    }) by {
        lemma_binary_token(k1, op1, l);
    }
    assert forall|l: int| true implies #[trigger] binop_at(l, k2) == (if l == precedence(op2) {
        Some(op2)
    } else {
        None::<BinaryOp>
    }) by {
        lemma_binary_token(k2, op2, l);
    }
    lemma_binary_token(k1, op1, 0);
    lemma_binary_token(k2, op2, 0);
    assert forall|l: int| true implies #[trigger] binop_at(l, TokenKind::EOF) is None by {}
    assert forall|l: int| 1 <= l <= 5 implies #[trigger] sp_operand(toks, 4, l) == done(name_node(toks[4]), 5) by {
        lemma_name_operand(toks, 4, l);
    }
}

/// The whole expression is what `sp_binary` reads at level 1.
proof fn lemma_expr_of_level_one(toks: Seq<TokenView>, e: SExprV, n: int)
    requires
        0 < n < toks.len(),
        toks[n].kind == TokenKind::EOF,
        sp_binary(toks, 0, 1) == done(e, n),
    ensures
        sp_expr(toks, 0) == done(e, n),
{
    assert(kind_at(toks, n) == TokenKind::EOF);
    assert(sp_pipeline_rest(toks, e, n) == done(e, n));
}

#[verifier::rlimit(100)]
proof fn lemma_tighter_right(toks: Seq<TokenView>, k1: TokenKind, op1: BinaryOp, k2: TokenKind, op2: BinaryOp)
    requires
        three_names(toks, k1, op1, k2, op2),
        precedence(op1) < precedence(op2),
    ensures
        sp_expr(toks, 0) == done(
            tree(name_node(toks[0]), op1, tree(name_node(toks[2]), op2, name_node(toks[4]))),
            5,
        ),
{
    lemma_three_names_facts(toks, k1, op1, k2, op2);
    let l1 = precedence(op1);
    let l2 = precedence(op2);
    let x = name_node(toks[0]);
    let y = name_node(toks[2]);
    let z = name_node(toks[4]);
    let yz = tree(y, op2, z);
    let all = tree(x, op1, yz);
    lemma_name_operand(toks, 2, l2);
    assert(sp_operand(toks, 4, l2) == done(z, 5));
    assert(binop_at(l2, kind_at(toks, 3)) == Some(op2));
    assert(sp_binary_rest(toks, yz, 5, l2) == done(yz, 5));
    assert(sp_binary_rest(toks, y, 3, l2) == done(yz, 5));
    assert(sp_binary(toks, 2, l2) == done(yz, 5));
    lemma_lift(toks, 2, 5, yz, l2, l1 + 1);
    assert(sp_operand(toks, 2, l1) == done(yz, 5));
    lemma_name_operand(toks, 0, l1);
    assert(binop_at(l1, kind_at(toks, 1)) == Some(op1));
    assert(sp_binary_rest(toks, all, 5, l1) == done(all, 5));
    assert(sp_binary_rest(toks, x, 1, l1) == done(all, 5));
    assert(sp_binary(toks, 0, l1) == done(all, 5));
    lemma_lift(toks, 0, 5, all, l1, 1);
    lemma_expr_of_level_one(toks, all, 5);
}

#[verifier::rlimit(100)]
proof fn lemma_left_first(toks: Seq<TokenView>, k1: TokenKind, op1: BinaryOp, k2: TokenKind, op2: BinaryOp)
    requires
        three_names(toks, k1, op1, k2, op2),
        precedence(op1) >= precedence(op2),
    ensures
        sp_expr(toks, 0) == done(
            tree(tree(name_node(toks[0]), op1, name_node(toks[2])), op2, name_node(toks[4])),
            5,
        ),
{
    lemma_three_names_facts(toks, k1, op1, k2, op2);
    let l1 = precedence(op1);
    let l2 = precedence(op2);
    let x = name_node(toks[0]);
    let y = name_node(toks[2]);
    let z = name_node(toks[4]);
    let xy = tree(x, op1, y);
    let all = tree(xy, op2, z);
    lemma_name_operand(toks, 0, l1);
    lemma_name_operand(toks, 2, l1);
    assert(binop_at(l1, kind_at(toks, 1)) == Some(op1));
    assert(sp_operand(toks, 4, l2) == done(z, 5));
    assert(binop_at(l2, kind_at(toks, 3)) == Some(op2));
    assert(sp_binary_rest(toks, all, 5, l2) == done(all, 5));
    if l1 == l2 {
        assert(sp_binary_rest(toks, xy, 3, l1) == done(all, 5));
        assert(sp_binary_rest(toks, x, 1, l1) == done(all, 5));
    } else {
        assert(binop_at(l1, kind_at(toks, 3)) is None);
        assert(sp_binary_rest(toks, xy, 3, l1) == done(xy, 3));
        assert(sp_binary_rest(toks, x, 1, l1) == done(xy, 3));
        assert(sp_binary(toks, 0, l1) == done(xy, 3));
        lemma_lift(toks, 0, 3, xy, l1, l2 + 1);
        assert(sp_operand(toks, 0, l2) == done(xy, 3));
        assert(sp_binary_rest(toks, xy, 3, l2) == done(all, 5));
    }
    assert(sp_binary(toks, 0, l2) == done(all, 5));
    lemma_lift(toks, 0, 5, all, l2, 1);
    lemma_expr_of_level_one(toks, all, 5);
}

/// With `x`, `y` and `z` names and two binary operators between them, the
/// operator that binds more tightly takes its two neighbours first, and of
/// two operators that bind alike the left one does:
/// `x + y / z` is `x + (y / z)`, `x / y + z` is `(x / y) + z`, and
/// `x - y + z` is `(x - y) + z`.
pub proof fn law_operator_precedence(
    toks: Seq<TokenView>,
    k1: TokenKind,
    op1: BinaryOp,
    k2: TokenKind,
    op2: BinaryOp,
)
    requires
        three_names(toks, k1, op1, k2, op2),
    ensures
        precedence(op1) < precedence(op2) ==> sp_expr(toks, 0) == done(
            tree(name_node(toks[0]), op1, tree(name_node(toks[2]), op2, name_node(toks[4]))),
            5,
        ),
        precedence(op1) >= precedence(op2) ==> sp_expr(toks, 0) == done(
            tree(tree(name_node(toks[0]), op1, name_node(toks[2])), op2, name_node(toks[4])),
            5,
        ),
{
    if precedence(op1) < precedence(op2) {
        lemma_tighter_right(toks, k1, op1, k2, op2);
    } else {
        lemma_left_first(toks, k1, op1, k2, op2);
    }
}


/// The operator groups from the tightest: `* / %`, then `+ -`, then the
/// comparisons, then `&&`, then `||`. With names `x`, `y`, `z`, an operator of
/// a tighter group on the right takes `y` and `z` first (`x + y / z` is an
/// addition whose right operand is `y / z`), and one on the left takes `x`
/// and `y` first (`x / y - z` is a subtraction whose left operand is `x / y`).
pub proof fn law_operator_groups(
    toks: Seq<TokenView>,
    k1: TokenKind,
    op1: BinaryOp,
    k2: TokenKind,
    op2: BinaryOp,
)
    requires
        three_names(toks, k1, op1, k2, op2),
    ensures
        ({
            let x = name_node(toks[0]);
            let y = name_node(toks[2]);
            let z = name_node(toks[4]);
            let mul1 = op1 == BinaryOp::Multiply || op1 == BinaryOp::Divide || op1 == BinaryOp::Modulo;
            let mul2 = op2 == BinaryOp::Multiply || op2 == BinaryOp::Divide || op2 == BinaryOp::Modulo;
            let add1 = op1 == BinaryOp::Add || op1 == BinaryOp::Minus;
            let add2 = op2 == BinaryOp::Add || op2 == BinaryOp::Minus;
            let cmp1 = op1 == BinaryOp::Equality || op1 == BinaryOp::Nequality || op1 == BinaryOp::Lesser
                || op1 == BinaryOp::Greater || op1 == BinaryOp::Leq || op1 == BinaryOp::Geq;
            let cmp2 = op2 == BinaryOp::Equality || op2 == BinaryOp::Nequality || op2 == BinaryOp::Lesser
                || op2 == BinaryOp::Greater || op2 == BinaryOp::Leq || op2 == BinaryOp::Geq;
            let right = done(tree(x, op1, tree(y, op2, z)), 5);
            let left = done(tree(tree(x, op1, y), op2, z), 5);
            &&& add1 && mul2 ==> sp_expr(toks, 0) == right
            &&& mul1 && add2 ==> sp_expr(toks, 0) == left
            &&& cmp1 && (add2 || mul2) ==> sp_expr(toks, 0) == right
            &&& (add1 || mul1) && cmp2 ==> sp_expr(toks, 0) == left
            &&& op1 == BinaryOp::And && (cmp2 || add2 || mul2) ==> sp_expr(toks, 0) == right
            &&& (cmp1 || add1 || mul1) && op2 == BinaryOp::And ==> sp_expr(toks, 0) == left
            &&& op1 == BinaryOp::Or && op2 != BinaryOp::Or ==> sp_expr(toks, 0) == right
            &&& op2 == BinaryOp::Or ==> sp_expr(toks, 0) == left
            &&& (mul1 && mul2) || (add1 && add2) || (cmp1 && cmp2) ==> sp_expr(toks, 0) == left
        }),
{
    law_operator_precedence(toks, k1, op1, k2, op2);
}


/// A name is a whole unary expression when no postfix follows it.
proof fn lemma_name_unary(toks: Seq<TokenView>, p: int)
    requires
        0 <= p,
        p + 1 < toks.len(),
        toks[p].kind == TokenKind::Identifier,
        toks[p + 1].kind != TokenKind::Arrow,
        toks[p + 1].kind != TokenKind::Dot,
        toks[p + 1].kind != TokenKind::Colon,
        toks[p + 1].kind != TokenKind::LeftParen,
        toks[p + 1].kind != TokenKind::Question,
        toks[p + 1].kind != TokenKind::LeftBracket,
    ensures
        sp_unary(toks, p) == done(name_node(toks[p]), p + 1),
{
    assert(sp_primary(toks, p) == done(name_node(toks[p]), p + 1));
    assert(sp_postfix(toks, name_node(toks[p]), p + 1) == done(name_node(toks[p]), p + 1));
}

/// A power expression ending at `q` is a whole operand at `level` when no
/// operator of a higher level stands at `q`.
proof fn lemma_power_operand(toks: Seq<TokenView>, p: int, e: SExprV, q: int, level: int)
    requires
        0 <= p < q <= toks.len(),
        1 <= level <= 5,
        sp_power(toks, p) == done(e, q),
        forall|l: int| level < l <= 5 ==> #[trigger] binop_at(l, kind_at(toks, q)) is None,
    ensures
        sp_operand(toks, p, level) == done(e, q),
    decreases 5 - level,
{
    if level < 5 {
        lemma_power_operand(toks, p, e, q, level + 1);
        lemma_operand_whole(toks, p, q, e, level + 1);
    }
}

/// `^` binds more tightly than every other binary operator and groups to
/// the right, and `-` or `!` in front of a name binds more tightly still:
/// `x ^ y ^ z` is `x ^ (y ^ z)`, `x + y ^ z` is `x + (y ^ z)`,
/// `x ^ y + z` is `(x ^ y) + z`, and `- x + y` is `(- x) + y`.
pub proof fn law_power_and_unary(toks: Seq<TokenView>, k1: TokenKind, op1: BinaryOp)
    requires
        toks.len() == 6,
        toks[0].kind == TokenKind::Identifier,
        toks[2].kind == TokenKind::Identifier,
        toks[4].kind == TokenKind::Identifier,
        toks[5].kind == TokenKind::EOF,
        binary_token(k1, op1),
    ensures
        toks[1].kind == TokenKind::Caret && toks[3].kind == TokenKind::Caret ==> sp_expr(toks, 0) == done(
            tree(name_node(toks[0]), BinaryOp::Exponent, tree(name_node(toks[2]), BinaryOp::Exponent, name_node(toks[4]))),
            5,
        ),
        toks[1].kind == k1 && toks[3].kind == TokenKind::Caret ==> sp_expr(toks, 0) == done(
            tree(name_node(toks[0]), op1, tree(name_node(toks[2]), BinaryOp::Exponent, name_node(toks[4]))),
            5,
        ),
        toks[1].kind == TokenKind::Caret && toks[3].kind == k1 ==> sp_expr(toks, 0) == done(
            tree(tree(name_node(toks[0]), BinaryOp::Exponent, name_node(toks[2])), op1, name_node(toks[4])),
            5,
        ),
{
    let x = name_node(toks[0]);
    let y = name_node(toks[2]);
    let z = name_node(toks[4]);
    let l1 = precedence(op1);
    assert forall|l: int| true implies #[trigger] binop_at(l, k1) == (if l == l1 {
        Some(op1)
    } else {
        None::<BinaryOp>
    }) by {
        lemma_binary_token(k1, op1, l);
    }
    lemma_binary_token(k1, op1, 0);
    assert forall|l: int| true implies #[trigger] binop_at(l, TokenKind::EOF) is None by {}
    assert forall|l: int| true implies #[trigger] binop_at(l, TokenKind::Caret) is None by {}
    assert(kind_at(toks, 5) == TokenKind::EOF);
    lemma_name_unary(toks, 4);
    assert(sp_power(toks, 4) == done(z, 5));
    if toks[1].kind == TokenKind::Caret && toks[3].kind == TokenKind::Caret {
        lemma_name_unary(toks, 2);
        let yz = tree(y, BinaryOp::Exponent, z);
        assert(sp_power(toks, 2) == done(yz, 5));
        lemma_name_unary(toks, 0);
        let all = tree(x, BinaryOp::Exponent, yz);
        assert(sp_power(toks, 0) == done(all, 5));
        lemma_power_operand(toks, 0, all, 5, 1);
        lemma_operand_whole(toks, 0, 5, all, 1);
        lemma_expr_of_level_one(toks, all, 5);
    }
    if toks[1].kind == k1 && toks[3].kind == TokenKind::Caret {
        lemma_name_unary(toks, 2);
        let yz = tree(y, BinaryOp::Exponent, z);
        assert(sp_power(toks, 2) == done(yz, 5));
        lemma_power_operand(toks, 2, yz, 5, l1);
        lemma_name_operand(toks, 0, l1);
        assert(kind_at(toks, 1) == k1);
        let all = tree(x, op1, yz);
        assert(sp_binary_rest(toks, all, 5, l1) == done(all, 5));
        assert(sp_binary_rest(toks, x, 1, l1) == done(all, 5));
        assert(sp_binary(toks, 0, l1) == done(all, 5));
        lemma_lift(toks, 0, 5, all, l1, 1);
        lemma_expr_of_level_one(toks, all, 5);
    }
    if toks[1].kind == TokenKind::Caret && toks[3].kind == k1 {
        lemma_name_unary(toks, 2);
        assert(kind_at(toks, 3) == k1);
        assert(sp_power(toks, 2) == done(y, 3));
        lemma_name_unary(toks, 0);
        let xy = tree(x, BinaryOp::Exponent, y);
        assert(sp_power(toks, 0) == done(xy, 3));
        lemma_power_operand(toks, 0, xy, 3, l1);
        lemma_power_operand(toks, 4, z, 5, l1);
        let all = tree(xy, op1, z);
        assert(sp_binary_rest(toks, all, 5, l1) == done(all, 5));
        assert(sp_binary_rest(toks, xy, 3, l1) == done(all, 5));
        assert(sp_binary(toks, 0, l1) == done(all, 5));
        lemma_lift(toks, 0, 5, all, l1, 1);
        lemma_expr_of_level_one(toks, all, 5);
    }
}

/// `-` or `!` in front of a name binds more tightly than any binary
/// operator after it: `- x * y` is `(- x) * y` and `! a && b` is
/// `(! a) && b`.
pub proof fn law_unary_binds_tightest(toks: Seq<TokenView>, k1: TokenKind, op1: BinaryOp)
    requires
        toks.len() == 5,
        toks[0].kind == TokenKind::Minus || toks[0].kind == TokenKind::Bang,
        toks[1].kind == TokenKind::Identifier,
        toks[2].kind == k1,
        toks[3].kind == TokenKind::Identifier,
        toks[4].kind == TokenKind::EOF,
        binary_token(k1, op1),
    ensures
        sp_expr(toks, 0) == done(
            tree(
                SExprV {
                    node: ExprV::Unary(
                        if toks[0].kind == TokenKind::Minus {
                            UnaryOp::Neg
                        } else {
                            UnaryOp::Not
                        },
                        Box::new(name_node(toks[1])),
                    ),
                    span: span_of(toks[0]),
                },
                op1,
                name_node(toks[3]),
            ),
            4,
        ),
{
    let l1 = precedence(op1);
    assert forall|l: int| true implies #[trigger] binop_at(l, k1) == (if l == l1 {
        Some(op1)
    } else {
        None::<BinaryOp>
    }) by {
        lemma_binary_token(k1, op1, l);
    }
    lemma_binary_token(k1, op1, 0);
    assert forall|l: int| true implies #[trigger] binop_at(l, TokenKind::EOF) is None by {}
    assert(kind_at(toks, 4) == TokenKind::EOF);
    assert(kind_at(toks, 2) == k1);
    let uop = if toks[0].kind == TokenKind::Minus {
        UnaryOp::Neg
    } else {
        UnaryOp::Not
    };
    let u = SExprV { node: ExprV::Unary(uop, Box::new(name_node(toks[1]))), span: span_of(toks[0]) };
    lemma_name_unary(toks, 1);
    assert(sp_unary(toks, 0) == done(u, 2));
    assert(sp_power(toks, 0) == done(u, 2));
    lemma_power_operand(toks, 0, u, 2, l1);
    lemma_name_unary(toks, 3);
    assert(sp_power(toks, 3) == done(name_node(toks[3]), 4));
    lemma_power_operand(toks, 3, name_node(toks[3]), 4, l1);
    let all = tree(u, op1, name_node(toks[3]));
    assert(sp_binary_rest(toks, all, 4, l1) == done(all, 4));
    assert(sp_binary_rest(toks, u, 2, l1) == done(all, 4));
    assert(sp_binary(toks, 0, l1) == done(all, 4));
    lemma_lift(toks, 0, 4, all, l1, 1);
    lemma_expr_of_level_one(toks, all, 4);
}

} // verus!
