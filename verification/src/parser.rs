use vstd::prelude::*;
use vstd::string::*;

use crate::ast::{
    binding_view, params_view, sdecl_view, sdecls_view, sexpr_view, sexprs_view, pairs_view,
    sstmt_view, sstmts_view, type_view, func_view, funcs_view, names_view, BinaryOp, BindingDecl,
    Decl, Expr, FuncDecl, Param, Span, Spanned, SpannedDecl, SpannedExpr, SpannedStmt, Stmt,
    StructDecl, Type, UnaryOp, TypeV, DeclV, StructDeclV,
};
use crate::grammar::{
    binop_at, done, error_at, expected_message, expected_type_message, fail, invalid_float_message,
    invalid_integer_message, kind_at, location_text, moved, sp_args, sp_args_items, sp_binary,
    sp_binary_rest, sp_binding, sp_block, sp_block_items, sp_decl, sp_expect, sp_expr,
    sp_func_decl, sp_if, sp_list_items, sp_loop, sp_loop_vars, sp_map_items, sp_operand, sp_params, sp_pipeline,
    sp_pipeline_rest, sp_postfix, sp_power, sp_primary, sp_program, sp_stmt, sp_struct_body,
    eof_free, sp_struct_decl, sp_sync, sp_type, sp_type_base, sp_unary, span_of, starts_binding, unexpected_message,
    within, Outcome, ParserErrorView,
};
use crate::lexer::token_views;
use crate::literal::{is_float_literal, parse_int, push_decimal};
use crate::token::{Token, TokenKind, TokenView};

verus! {

/// A syntax error: what was wrong and where (1-indexed line and column).
#[derive(Debug)]
pub struct ParserError {
    message: String,
    line: usize,
    column: usize,
}

impl View for ParserError {
    type V = ParserErrorView;

    closed spec fn view(&self) -> ParserErrorView {
        ParserErrorView { message: self.message@, line: self.line, column: self.column }
    }
}

impl ParserError {
    /// What was wrong.
    pub fn message(&self) -> (r: &String)
        ensures
            r@ == self@.message,
    {
        &self.message
    }

    /// The line where it was found.
    pub fn line(&self) -> (r: usize)
        ensures
            r == self@.line,
    {
        self.line
    }

    /// The column where it was found.
    pub fn column(&self) -> (r: usize)
        ensures
            r == self@.column,
    {
        self.column
    }
}

pub open spec fn errors_view(s: Seq<ParserError>) -> Seq<ParserErrorView> {
    s.map_values(|e: ParserError| e@)
}

pub open spec fn err_view<T>(r: Result<T, ParserError>) -> ParserErrorView {
    r->Err_0@
}

pub open spec fn res_token(r: Result<Token, ParserError>) -> Result<TokenView, ParserErrorView> {
    match r {
        Ok(t) => Ok(t@),
        Err(e) => Err(e@),
    }
}

pub open spec fn res_type(r: Result<Type, ParserError>) -> Result<TypeV, ParserErrorView> {
    match r {
        Ok(t) => Ok(type_view(t)),
        Err(e) => Err(e@),
    }
}

pub open spec fn res_sexpr(r: Result<SpannedExpr, ParserError>) -> Result<crate::ast::SExprV, ParserErrorView> {
    match r {
        Ok(e) => Ok(sexpr_view(e)),
        Err(e) => Err(e@),
    }
}

pub open spec fn res_sexprs(r: Result<Vec<SpannedExpr>, ParserError>) -> Result<
    Seq<crate::ast::SExprV>,
    ParserErrorView,
> {
    match r {
        Ok(v) => Ok(sexprs_view(v@)),
        Err(e) => Err(e@),
    }
}

pub open spec fn res_pairs(r: Result<Vec<(SpannedExpr, SpannedExpr)>, ParserError>) -> Result<
    Seq<(crate::ast::SExprV, crate::ast::SExprV)>,
    ParserErrorView,
> {
    match r {
        Ok(v) => Ok(pairs_view(v@)),
        Err(e) => Err(e@),
    }
}

pub open spec fn res_names(r: Result<Vec<String>, ParserError>) -> Result<Seq<Seq<char>>, ParserErrorView> {
    match r {
        Ok(v) => Ok(names_view(v@)),
        Err(e) => Err(e@),
    }
}

pub open spec fn res_sstmt(r: Result<SpannedStmt, ParserError>) -> Result<crate::ast::SStmtV, ParserErrorView> {
    match r {
        Ok(s) => Ok(sstmt_view(s)),
        Err(e) => Err(e@),
    }
}

pub open spec fn res_sstmts(r: Result<Vec<SpannedStmt>, ParserError>) -> Result<
    Seq<crate::ast::SStmtV>,
    ParserErrorView,
> {
    match r {
        Ok(v) => Ok(sstmts_view(v@)),
        Err(e) => Err(e@),
    }
}

pub open spec fn res_binding(r: Result<BindingDecl, ParserError>) -> Result<crate::ast::BindingV, ParserErrorView> {
    match r {
        Ok(b) => Ok(binding_view(b)),
        Err(e) => Err(e@),
    }
}

pub open spec fn res_params(r: Result<Vec<Param>, ParserError>) -> Result<Seq<crate::ast::ParamV>, ParserErrorView> {
    match r {
        Ok(v) => Ok(params_view(v@)),
        Err(e) => Err(e@),
    }
}

pub open spec fn res_func(r: Result<FuncDecl, ParserError>) -> Result<crate::ast::FuncDeclV, ParserErrorView> {
    match r {
        Ok(f) => Ok(func_view(f)),
        Err(e) => Err(e@),
    }
}

pub open spec fn res_struct(r: Result<StructDecl, ParserError>) -> Result<StructDeclV, ParserErrorView> {
    match r {
        Ok(sd) => Ok(StructDeclV { name: sd.name@, variables: params_view(sd.variables@), methods: funcs_view(sd.methods@) }),
        Err(e) => Err(e@),
    }
}

pub open spec fn res_sdecl(r: Result<SpannedDecl, ParserError>) -> Result<crate::ast::SDeclV, ParserErrorView> {
    match r {
        Ok(d) => Ok(sdecl_view(d)),
        Err(e) => Err(e@),
    }
}

/// Where a token starts.
fn span_at(t: &Token) -> (s: Span)
    ensures
        s == span_of(t@),
{
    Span { line: t.line, column: t.column }
}

fn copy_token(t: &Token) -> (r: Token)
    ensures
        r@ == t@,
{
    Token { kind: t.kind, value: t.value.clone(), line: t.line, column: t.column }
}

/// ` at line L, column C` appended to `m`.
fn push_location(m: &mut String, t: &Token)
    ensures
        final(m)@ == old(m)@ + location_text(t@),
{
    m.append(" at line ");
    push_decimal(m, t.line);
    m.append(", column ");
    push_decimal(m, t.column);
    assert(final(m)@ =~= old(m)@ + location_text(t@));
}

fn error_expected(kind: TokenKind, t: &Token) -> (e: ParserError)
    ensures
        e@ == error_at(expected_message(kind, t@), t@),
{
    let mut m = String::from_str("expected ");
    m.append(kind.name());
    m.append(" but got ");
    m.append(t.kind.name());
    m.append(" ('");
    m.append(t.value.as_str());
    m.append("')");
    push_location(&mut m, t);
    ParserError { message: m, line: t.line, column: t.column }
}

fn error_unexpected(t: &Token) -> (e: ParserError)
    ensures
        e@ == error_at(unexpected_message(t@), t@),
{
    let mut m = String::from_str("unexpected token '");
    m.append(t.value.as_str());
    m.append("'");
    push_location(&mut m, t);
    ParserError { message: m, line: t.line, column: t.column }
}

fn error_invalid_integer(t: &Token) -> (e: ParserError)
    ensures
        e@ == error_at(invalid_integer_message(t@), t@),
{
    let mut m = String::from_str("invalid integer '");
    m.append(t.value.as_str());
    m.append("'");
    ParserError { message: m, line: t.line, column: t.column }
}

fn error_invalid_float(t: &Token) -> (e: ParserError)
    ensures
        e@ == error_at(invalid_float_message(t@), t@),
{
    let mut m = String::from_str("invalid float '");
    m.append(t.value.as_str());
    m.append("'");
    ParserError { message: m, line: t.line, column: t.column }
}

fn error_expected_type(t: &Token) -> (e: ParserError)
    ensures
        e@ == error_at(expected_type_message(t@), t@),
{
    let mut m = String::from_str("expected type, got ");
    m.append(t.kind.name());
    ParserError { message: m, line: t.line, column: t.column }
}

/// A recursive descent parser over a token sequence.
pub struct Parser {
    tokens: Vec<Token>,
    position: usize,
}

impl Parser {
    /// The tokens being parsed.
    pub closed spec fn toks(&self) -> Seq<TokenView> {
        token_views(self.tokens@)
    }

    /// The index of the next token.
    pub closed spec fn pos(&self) -> int {
        self.position as int
    }

    /// An `EOF` token stands at or after the position, so that reading
    /// never runs past the end of the tokens.
    pub closed spec fn wf(&self) -> bool {
        exists|k: int| self.position <= k < self.tokens@.len() && #[trigger] self.tokens@[k].kind == TokenKind::EOF
    }

    /// `after` has the same tokens as `self`, is still well formed, and has
    /// not moved back.
    closed spec fn went_on_to(&self, after: &Parser) -> bool {
        &&& after.tokens@ == self.tokens@
        &&& after.wf()
        &&& self.position <= after.position
        &&& eof_free(self.toks(), self.pos(), after.pos())
    }

    /// A parser at the first of `tokens`.
    pub fn new(tokens: Vec<Token>) -> (parser: Self)
        ensures
            parser.toks() == token_views(tokens@),
            parser.pos() == 0,
            (exists|k: int| 0 <= k < tokens@.len() && #[trigger] tokens@[k].kind == TokenKind::EOF)
                ==> parser.wf(),
    {
        Parser { tokens, position: 0 }
    }

    /// Whether an `EOF` token stands at or after the position, which
    /// `parse` needs.
    pub fn ready(&self) -> (b: bool)
        ensures
            b == self.wf(),
    {
        if self.position >= self.tokens.len() {
            return false;
        }
        let mut k = self.position;
        while k < self.tokens.len()
            invariant
                self.position <= k <= self.tokens@.len(),
                forall|j: int| self.position <= j < k ==> #[trigger] self.tokens@[j].kind != TokenKind::EOF,
            decreases self.tokens@.len() - k,
        {
            if self.tokens[k].kind == TokenKind::EOF {
                return true;
            }
            k = k + 1;
        }
        false
    }

    proof fn lemma_in_bounds(&self)
        requires
            self.wf(),
        ensures
            self.position < self.tokens@.len(),
            self.toks().len() == self.tokens@.len(),
            forall|i: int| 0 <= i < self.tokens@.len() ==> #[trigger] self.toks()[i] == self.tokens@[i]@,
    {
    }

    fn peek(&self) -> (t: &Token)
        requires
            self.wf(),
        ensures
            t@ == self.toks()[self.pos()],
            t.kind == kind_at(self.toks(), self.pos()),
    {
        proof {
            self.lemma_in_bounds();
        }
        &self.tokens[self.position]
    }

    fn advance(&mut self)
        requires
            old(self).wf(),
            kind_at(old(self).toks(), old(self).pos()) != TokenKind::EOF,
        ensures
            final(self).tokens@ == old(self).tokens@,
            final(self).wf(),
            final(self).position == old(self).position + 1,
            eof_free(old(self).toks(), old(self).pos(), final(self).pos()),
    {
        proof {
            self.lemma_in_bounds();
            let k = choose|k: int|
                self.position <= k < self.tokens@.len() && #[trigger] self.tokens@[k].kind == TokenKind::EOF;
            assert(self.toks()[self.pos()] == self.tokens@[self.pos()]@);
            assert(k != self.position);
            assert(self.position + 1 <= k);
            assert(self.position + 1 < self.tokens@.len());
            assert(self.tokens@.len() == self.tokens.len());
        }
        self.position = self.position + 1;
    }

    fn check(&self, kind: TokenKind) -> (b: bool)
        requires
            self.wf(),
        ensures
            b == (kind_at(self.toks(), self.pos()) == kind),
    {
        self.peek().kind == kind
    }

    fn peek_offset(&self, offset: usize) -> (k: TokenKind)
        requires
            self.wf(),
        ensures
            k == kind_at(self.toks(), self.pos() + offset),
    {
        proof {
            self.lemma_in_bounds();
        }
        if offset < self.tokens.len() - self.position {
            self.tokens[self.position + offset].kind
        } else {
            TokenKind::EOF
        }
    }

    /// Consumes a token of kind `kind`, or reports what stands there instead.
    /// Consuming the `EOF` token leaves the parser past the end.
    fn expect(&mut self, kind: TokenKind) -> (r: Result<Token, ParserError>)
        requires
            old(self).wf(),
        ensures
            final(self).tokens@ == old(self).tokens@,
            old(self).position <= final(self).position,
            kind != TokenKind::EOF || r is Err ==> old(self).went_on_to(final(self)),
            res_token(r) == sp_expect(old(self).toks(), old(self).pos(), kind).res,
            final(self).pos() == sp_expect(old(self).toks(), old(self).pos(), kind).pos,
    {
        proof {
            self.lemma_in_bounds();
        }
        let token = self.peek();
        if token.kind == kind {
            let t = copy_token(token);
            proof {
                if kind != TokenKind::EOF {
                    let k = choose|k: int|
                        self.position <= k < self.tokens@.len() && #[trigger] self.tokens@[k].kind
                            == TokenKind::EOF;
                    assert(self.tokens@[self.position as int]@ == self.toks()[self.pos()]);
                    assert(k != self.position);
                }
                assert(self.tokens@.len() == self.tokens.len());
            }
            self.position = self.position + 1;
            Ok(t)
        } else {
            Err(error_expected(kind, token))
        }
    }
}


impl Parser {
    /// `after` is where parsing an expression from `self` leads, with
    /// result `r`, as `o` says; a parsed expression takes up at least one
    /// token.
    closed spec fn expr_step(&self, after: &Parser, r: Result<SpannedExpr, ParserError>, o: Outcome<crate::ast::SExprV>) -> bool {
        &&& self.went_on_to(after)
        &&& res_sexpr(r) == o.res
        &&& after.pos() == o.pos
        &&& (r is Ok ==> self.position < after.position)
    }

    fn parse_expr(&mut self) -> (r: Result<SpannedExpr, ParserError>)
        requires
            old(self).wf(),
        ensures
            old(self).expr_step(final(self), r, sp_expr(old(self).toks(), old(self).pos())),
        decreases old(self).tokens@.len() - old(self).position, 32int,
    {
        self.parse_pipeline()
    }

    fn parse_pipeline(&mut self) -> (r: Result<SpannedExpr, ParserError>)
        requires
            old(self).wf(),
        ensures
            old(self).expr_step(final(self), r, sp_pipeline(old(self).toks(), old(self).pos())),
        decreases old(self).tokens@.len() - old(self).position, 31int,
    {
        let ghost t = self.toks();
        let ghost p = self.pos();
        let mut left = match self.parse_or() {
            Ok(e) => e,
            Err(e) => return Err(e),
        };
        proof {
            self.lemma_in_bounds();
        }
        while self.check(TokenKind::PipeLine)
            invariant
                self.wf(),
                self.tokens@ == old(self).tokens@,
                t == self.toks(),
                p == old(self).pos(),
                old(self).position < self.position,
                eof_free(t, p, self.pos()),
                sp_pipeline(t, p) == sp_pipeline_rest(t, sexpr_view(left), self.pos()),
            decreases self.tokens@.len() - self.position,
        {
            let ghost q = self.pos();
            self.advance();
            let right = match self.parse_or() {
                Ok(e) => e,
                Err(e) => return Err(e),
            };
            proof {
                self.lemma_in_bounds();
            }
            let span = left.span;
            left = Spanned { node: Expr::Pipeline(Box::new(left), Box::new(right)), span };
        }
        Ok(left)
    }

    /// The operand of precedence `level`.
    fn parse_operand(&mut self, level: u8) -> (r: Result<SpannedExpr, ParserError>)
        requires
            old(self).wf(),
            1 <= level <= 5,
        ensures
            old(self).expr_step(final(self), r, sp_operand(old(self).toks(), old(self).pos(), level as int)),
        decreases old(self).tokens@.len() - old(self).position, 29int - 2 * level,
    {
        if level == 1 {
            self.parse_and()
        } else if level == 2 {
            self.parse_comparison()
        } else if level == 3 {
            self.parse_addition()
        } else if level == 4 {
            self.parse_multiplication()
        } else {
            self.parse_power()
        }
    }

    /// The operators of precedence `level` and their right operands after
    /// `left`, grouping to the left.
    fn parse_binary_rest(&mut self, left: SpannedExpr, level: u8) -> (r: Result<SpannedExpr, ParserError>)
        requires
            old(self).wf(),
            1 <= level <= 5,
        ensures
            old(self).went_on_to(final(self)),
            res_sexpr(r) == sp_binary_rest(old(self).toks(), sexpr_view(left), old(self).pos(), level as int).res,
            final(self).pos() == sp_binary_rest(old(self).toks(), sexpr_view(left), old(self).pos(), level as int).pos,
        decreases old(self).tokens@.len() - old(self).position, 0int,
    {
        let ghost t = self.toks();
        let ghost p = self.pos();
        let ghost l0 = sexpr_view(left);
        let mut cur = left;
        loop
            invariant_except_break
                sp_binary_rest(t, l0, p, level as int) == sp_binary_rest(t, sexpr_view(cur), self.pos(), level as int),
            invariant
                self.wf(),
                self.tokens@ == old(self).tokens@,
                t == self.toks(),
                p == old(self).pos(),
                old(self).position <= self.position,
                eof_free(old(self).toks(), old(self).pos(), self.pos()),
                1 <= level <= 5,
                l0 == sexpr_view(left),
            ensures
                sp_binary_rest(t, l0, p, level as int) == done(sexpr_view(cur), self.pos()),
            decreases self.tokens@.len() - self.position,
        {
            let op = match binop_for(level, self.peek().kind) {
                Some(op) => op,
                None => break,
            };
            self.advance();
            let right = match self.parse_operand(level) {
                Ok(e) => e,
                Err(e) => return Err(e),
            };
            proof {
                self.lemma_in_bounds();
            }
            let span = cur.span;
            cur = Spanned { node: Expr::Binary(Box::new(cur), op, Box::new(right)), span };
        }
        Ok(cur)
    }

    fn parse_or(&mut self) -> (r: Result<SpannedExpr, ParserError>)
        requires
            old(self).wf(),
        ensures
            old(self).expr_step(final(self), r, sp_binary(old(self).toks(), old(self).pos(), 1)),
        decreases old(self).tokens@.len() - old(self).position, 28int,
    {
        let left = match self.parse_and() {
            Ok(e) => e,
            Err(e) => return Err(e),
        };
        self.parse_binary_rest(left, 1)
    }

    fn parse_and(&mut self) -> (r: Result<SpannedExpr, ParserError>)
        requires
            old(self).wf(),
        ensures
            old(self).expr_step(final(self), r, sp_binary(old(self).toks(), old(self).pos(), 2)),
        decreases old(self).tokens@.len() - old(self).position, 26int,
    {
        let left = match self.parse_comparison() {
            Ok(e) => e,
            Err(e) => return Err(e),
        };
        self.parse_binary_rest(left, 2)
    }

    fn parse_comparison(&mut self) -> (r: Result<SpannedExpr, ParserError>)
        requires
            old(self).wf(),
        ensures
            old(self).expr_step(final(self), r, sp_binary(old(self).toks(), old(self).pos(), 3)),
        decreases old(self).tokens@.len() - old(self).position, 24int,
    {
        let left = match self.parse_addition() {
            Ok(e) => e,
            Err(e) => return Err(e),
        };
        self.parse_binary_rest(left, 3)
    }

    fn parse_addition(&mut self) -> (r: Result<SpannedExpr, ParserError>)
        requires
            old(self).wf(),
        ensures
            old(self).expr_step(final(self), r, sp_binary(old(self).toks(), old(self).pos(), 4)),
        decreases old(self).tokens@.len() - old(self).position, 22int,
    {
        let left = match self.parse_multiplication() {
            Ok(e) => e,
            Err(e) => return Err(e),
        };
        self.parse_binary_rest(left, 4)
    }

    fn parse_multiplication(&mut self) -> (r: Result<SpannedExpr, ParserError>)
        requires
            old(self).wf(),
        ensures
            old(self).expr_step(final(self), r, sp_binary(old(self).toks(), old(self).pos(), 5)),
        decreases old(self).tokens@.len() - old(self).position, 20int,
    {
        let left = match self.parse_power() {
            Ok(e) => e,
            Err(e) => return Err(e),
        };
        self.parse_binary_rest(left, 5)
    }

    fn parse_power(&mut self) -> (r: Result<SpannedExpr, ParserError>)
        requires
            old(self).wf(),
        ensures
            old(self).expr_step(final(self), r, sp_power(old(self).toks(), old(self).pos())),
        decreases old(self).tokens@.len() - old(self).position, 6int,
    {
        let left = match self.parse_unary() {
            Ok(e) => e,
            Err(e) => return Err(e),
        };
        proof {
            self.lemma_in_bounds();
        }
        if self.check(TokenKind::Caret) {
            self.advance();
            let right = match self.parse_power() {
                Ok(e) => e,
                Err(e) => return Err(e),
            };
            let span = left.span;
            return Ok(Spanned { node: Expr::Binary(Box::new(left), BinaryOp::Exponent, Box::new(right)), span });
        }
        Ok(left)
    }

    fn parse_unary(&mut self) -> (r: Result<SpannedExpr, ParserError>)
        requires
            old(self).wf(),
        ensures
            old(self).expr_step(final(self), r, sp_unary(old(self).toks(), old(self).pos())),
        decreases old(self).tokens@.len() - old(self).position, 5int,
    {
        if self.check(TokenKind::Bang) {
            let span = span_at(self.peek());
            self.advance();
            let expr = match self.parse_unary() {
                Ok(e) => e,
                Err(e) => return Err(e),
            };
            Ok(Spanned { node: Expr::Unary(UnaryOp::Not, Box::new(expr)), span })
        } else if self.check(TokenKind::Minus) {
            let span = span_at(self.peek());
            self.advance();
            let expr = match self.parse_unary() {
                Ok(e) => e,
                Err(e) => return Err(e),
            };
            Ok(Spanned { node: Expr::Unary(UnaryOp::Neg, Box::new(expr)), span })
        } else {
            let expr = match self.parse_primary() {
                Ok(e) => e,
                Err(e) => return Err(e),
            };
            proof {
                self.lemma_in_bounds();
            }
            self.parse_postfix(expr)
        }
    }

    #[verifier::spinoff_prover]
    #[verifier::rlimit(60)]
    fn parse_postfix(&mut self, expr: SpannedExpr) -> (r: Result<SpannedExpr, ParserError>)
        requires
            old(self).wf(),
        ensures
            old(self).went_on_to(final(self)),
            res_sexpr(r) == sp_postfix(old(self).toks(), sexpr_view(expr), old(self).pos()).res,
            final(self).pos() == sp_postfix(old(self).toks(), sexpr_view(expr), old(self).pos()).pos,
        decreases old(self).tokens@.len() - old(self).position, 3int,
    {
        let ghost t = self.toks();
        let ghost p = self.pos();
        let ghost e0 = sexpr_view(expr);
        let mut cur = expr;
        loop
            invariant_except_break
                sp_postfix(t, e0, p) == sp_postfix(t, sexpr_view(cur), self.pos()),
            invariant
                self.wf(),
                self.tokens@ == old(self).tokens@,
                t == self.toks(),
                p == old(self).pos(),
                old(self).position <= self.position,
                eof_free(old(self).toks(), old(self).pos(), self.pos()),
                e0 == sexpr_view(expr),
            ensures
                sp_postfix(t, e0, p) == done(sexpr_view(cur), self.pos()),
            decreases self.tokens@.len() - self.position,
        {
            proof {
                self.lemma_in_bounds();
            }
            let span = cur.span;
            if self.check(TokenKind::Dot) {
                self.advance();
                let field_name = match self.expect(TokenKind::Identifier) {
                    Ok(tok) => tok.value,
                    Err(e) => return Err(e),
                };
                cur = Spanned { node: Expr::FieldAccess(Box::new(cur), field_name), span };
            } else if self.check(TokenKind::Colon) && self.peek_offset(1) == TokenKind::Identifier
                && self.peek_offset(2) == TokenKind::LeftParen {
                self.advance();
                let name = match self.expect(TokenKind::Identifier) {
                    Ok(tok) => tok.value,
                    Err(e) => return Err(e),
                };
                let args = match self.parse_args() {
                    Ok(a) => a,
                    Err(e) => return Err(e),
                };
                cur = Spanned { node: Expr::MethodCall(Box::new(cur), name, args), span };
            } else if self.check(TokenKind::LeftParen) {
                let args = match self.parse_args() {
                    Ok(a) => a,
                    Err(e) => return Err(e),
                };
                cur = Spanned { node: Expr::Call(Box::new(cur), args), span };
            } else if self.check(TokenKind::Question) {
                self.advance();
                cur = Spanned { node: Expr::Try(Box::new(cur)), span };
            } else if self.check(TokenKind::LeftBracket) {
                self.advance();
                let index = match self.parse_expr() {
                    Ok(i) => i,
                    Err(e) => return Err(e),
                };
                match self.expect(TokenKind::RightBracket) {
                    Ok(_) => {},
                    Err(e) => return Err(e),
                }
                cur = Spanned { node: Expr::Index(Box::new(cur), Box::new(index)), span };
            } else {
                break;
            }
        }
        Ok(cur)
    }

    fn parse_args(&mut self) -> (r: Result<Vec<SpannedExpr>, ParserError>)
        requires
            old(self).wf(),
        ensures
            old(self).went_on_to(final(self)),
            res_sexprs(r) == sp_args(old(self).toks(), old(self).pos()).res,
            final(self).pos() == sp_args(old(self).toks(), old(self).pos()).pos,
            r is Ok ==> old(self).position < final(self).position,
        decreases old(self).tokens@.len() - old(self).position, 2int,
    {
        match self.expect(TokenKind::LeftParen) {
            Ok(_) => {},
            Err(e) => return Err(e),
        }
        proof {
            self.lemma_in_bounds();
        }
        let args = if !self.check(TokenKind::RightParen) {
            match self.parse_arg_items() {
                Ok(a) => a,
                Err(e) => return Err(e),
            }
        } else {
            let empty: Vec<SpannedExpr> = Vec::new();
            assert(sexprs_view(empty@) =~= Seq::empty());
            empty
        };
        match self.expect(TokenKind::RightParen) {
            Ok(_) => {},
            Err(e) => return Err(e),
        }
        Ok(args)
    }
}

impl Parser {
    /// A type, with `| error` after it making it a result type.
    fn parse_type(&mut self) -> (r: Result<Type, ParserError>)
        requires
            old(self).wf(),
        ensures
            old(self).went_on_to(final(self)),
            res_type(r) == sp_type(old(self).toks(), old(self).pos()).res,
            final(self).pos() == sp_type(old(self).toks(), old(self).pos()).pos,
        decreases old(self).tokens@.len() - old(self).position, 1int,
    {
        let base = match self.parse_type_base() {
            Ok(t) => t,
            Err(e) => return Err(e),
        };
        proof {
            self.lemma_in_bounds();
        }
        if self.check(TokenKind::Pipe) {
            self.advance();
            match self.expect(TokenKind::Error) {
                Ok(_) => {},
                Err(e) => return Err(e),
            }
            Ok(Type::Result(Box::new(base)))
        } else {
            Ok(base)
        }
    }

    fn parse_type_base(&mut self) -> (r: Result<Type, ParserError>)
        requires
            old(self).wf(),
        ensures
            old(self).went_on_to(final(self)),
            res_type(r) == sp_type_base(old(self).toks(), old(self).pos()).res,
            final(self).pos() == sp_type_base(old(self).toks(), old(self).pos()).pos,
        decreases old(self).tokens@.len() - old(self).position, 0int,
    {
        proof {
            self.lemma_in_bounds();
        }
        let kind = self.peek().kind;
        match kind {
            TokenKind::IntType => {
                self.advance();
                Ok(Type::Int)
            },
            TokenKind::FltType => {
                self.advance();
                Ok(Type::Flt)
            },
            TokenKind::StrType => {
                self.advance();
                Ok(Type::Str)
            },
            TokenKind::BoolType => {
                self.advance();
                Ok(Type::Bool)
            },
            TokenKind::AbyssType => {
                self.advance();
                Ok(Type::Abyss)
            },
            TokenKind::LeftBracket => {
                self.advance();
                let inner = match self.parse_type() {
                    Ok(t) => t,
                    Err(e) => return Err(e),
                };
                match self.expect(TokenKind::RightBracket) {
                    Ok(_) => {},
                    Err(e) => return Err(e),
                }
                Ok(Type::List(Box::new(inner)))
            },
            TokenKind::LeftBrace => {
                self.advance();
                let key = match self.parse_type() {
                    Ok(t) => t,
                    Err(e) => return Err(e),
                };
                match self.expect(TokenKind::Colon) {
                    Ok(_) => {},
                    Err(e) => return Err(e),
                }
                proof {
                    self.lemma_in_bounds();
                }
                let val = match self.parse_type() {
                    Ok(t) => t,
                    Err(e) => return Err(e),
                };
                match self.expect(TokenKind::RightBrace) {
                    Ok(_) => {},
                    Err(e) => return Err(e),
                }
                Ok(Type::Mapping(Box::new(key), Box::new(val)))
            },
            TokenKind::Identifier => {
                let name = self.peek().value.clone();
                self.advance();
                Ok(Type::Named(name))
            },
            _ => Err(error_expected_type(self.peek())),
        }
    }

    /// `(name (, name)*)?` up to `in`.
    fn parse_loop_vars(&mut self) -> (r: Result<Vec<String>, ParserError>)
        requires
            old(self).wf(),
        ensures
            old(self).went_on_to(final(self)),
            res_names(r) == sp_loop_vars(old(self).toks(), old(self).pos(), Seq::empty()).res,
            final(self).pos() == sp_loop_vars(old(self).toks(), old(self).pos(), Seq::empty()).pos,
    {
        let ghost t = self.toks();
        let ghost p = self.pos();
        let mut vars: Vec<String> = Vec::new();
        assert(names_view(vars@) =~= Seq::empty());
        loop
            invariant_except_break
                sp_loop_vars(t, p, Seq::empty()) == sp_loop_vars(t, self.pos(), names_view(vars@)),
            invariant
                self.wf(),
                self.tokens@ == old(self).tokens@,
                t == self.toks(),
                p == old(self).pos(),
                old(self).position <= self.position,
                eof_free(old(self).toks(), old(self).pos(), self.pos()),
            ensures
                sp_loop_vars(t, p, Seq::empty()) == done(names_view(vars@), self.pos()),
            decreases self.tokens@.len() - self.position,
        {
            proof {
                self.lemma_in_bounds();
            }
            if self.check(TokenKind::In) {
                break;
            }
            let var = match self.expect(TokenKind::Identifier) {
                Ok(tok) => tok.value,
                Err(e) => return Err(e),
            };
            let ghost before = names_view(vars@);
            let ghost v = var@;
            vars.push(var);
            assert(names_view(vars@) =~= before.push(v));
            if self.check(TokenKind::Comma) {
                self.advance();
            } else {
                break;
            }
        }
        Ok(vars)
    }

    /// List elements up to `]`.
    fn parse_list_items(&mut self) -> (r: Result<Vec<SpannedExpr>, ParserError>)
        requires
            old(self).wf(),
        ensures
            old(self).went_on_to(final(self)),
            res_sexprs(r) == sp_list_items(old(self).toks(), old(self).pos(), Seq::empty()).res,
            final(self).pos() == sp_list_items(old(self).toks(), old(self).pos(), Seq::empty()).pos,
        decreases old(self).tokens@.len() - old(self).position, 34int,
    {
        let ghost t = self.toks();
        let ghost p = self.pos();
        let mut lmts: Vec<SpannedExpr> = Vec::new();
        assert(sexprs_view(lmts@) =~= Seq::empty());
        loop
            invariant_except_break
                sp_list_items(t, p, Seq::empty()) == sp_list_items(t, self.pos(), sexprs_view(lmts@)),
            invariant
                self.wf(),
                self.tokens@ == old(self).tokens@,
                t == self.toks(),
                p == old(self).pos(),
                old(self).position <= self.position,
                eof_free(old(self).toks(), old(self).pos(), self.pos()),
            ensures
                sp_list_items(t, p, Seq::empty()) == done(sexprs_view(lmts@), self.pos()),
            decreases self.tokens@.len() - self.position,
        {
            proof {
                self.lemma_in_bounds();
            }
            if self.check(TokenKind::RightBracket) {
                break;
            }
            let ghost before = sexprs_view(lmts@);
            let lmt = match self.parse_expr() {
                Ok(e) => e,
                Err(e) => return Err(e),
            };
            proof {
                self.lemma_in_bounds();
            }
            let ghost x = sexpr_view(lmt);
            lmts.push(lmt);
            assert(sexprs_view(lmts@) =~= before.push(x));
            if self.check(TokenKind::Comma) {
                self.advance();
            } else {
                break;
            }
        }
        Ok(lmts)
    }

    /// Map entries up to `}`.
    #[verifier::spinoff_prover]
    #[verifier::rlimit(60)]
    fn parse_map_items(&mut self) -> (r: Result<Vec<(SpannedExpr, SpannedExpr)>, ParserError>)
        requires
            old(self).wf(),
        ensures
            old(self).went_on_to(final(self)),
            res_pairs(r) == sp_map_items(old(self).toks(), old(self).pos(), Seq::empty()).res,
            final(self).pos() == sp_map_items(old(self).toks(), old(self).pos(), Seq::empty()).pos,
        decreases old(self).tokens@.len() - old(self).position, 34int,
    {
        let ghost t = self.toks();
        let ghost p = self.pos();
        let mut pairs: Vec<(SpannedExpr, SpannedExpr)> = Vec::new();
        assert(pairs_view(pairs@) =~= Seq::empty());
        loop
            invariant_except_break
                sp_map_items(t, p, Seq::empty()) == sp_map_items(t, self.pos(), pairs_view(pairs@)),
            invariant
                self.wf(),
                self.tokens@ == old(self).tokens@,
                t == self.toks(),
                p == old(self).pos(),
                old(self).position <= self.position,
                eof_free(old(self).toks(), old(self).pos(), self.pos()),
            ensures
                sp_map_items(t, p, Seq::empty()) == done(pairs_view(pairs@), self.pos()),
            decreases self.tokens@.len() - self.position,
        {
            proof {
                self.lemma_in_bounds();
            }
            if self.check(TokenKind::RightBrace) {
                break;
            }
            let ghost before = pairs_view(pairs@);
            let key = match self.parse_expr() {
                Ok(e) => e,
                Err(e) => return Err(e),
            };
            match self.expect(TokenKind::Colon) {
                Ok(_) => {},
                Err(e) => return Err(e),
            }
            proof {
                self.lemma_in_bounds();
            }
            let value = match self.parse_expr() {
                Ok(e) => e,
                Err(e) => return Err(e),
            };
            proof {
                self.lemma_in_bounds();
            }
            let ghost kv = (sexpr_view(key), sexpr_view(value));
            pairs.push((key, value));
            assert(pairs_view(pairs@) =~= before.push(kv));
            if self.check(TokenKind::Comma) {
                self.advance();
            } else {
                break;
            }
        }
        Ok(pairs)
    }

    #[verifier::spinoff_prover]
    #[verifier::rlimit(100)]
    fn parse_primary(&mut self) -> (r: Result<SpannedExpr, ParserError>)
        requires
            old(self).wf(),
        ensures
            old(self).expr_step(final(self), r, sp_primary(old(self).toks(), old(self).pos())),
        decreases old(self).tokens@.len() - old(self).position, 4int,
    {
        proof {
            self.lemma_in_bounds();
        }
        let kind = self.peek().kind;
        let span = span_at(self.peek());
        match kind {
            TokenKind::IntLiteral => {
                let token = copy_token(self.peek());
                self.advance();
                match parse_int(token.value.as_str()) {
                    Some(value) => Ok(Spanned { node: Expr::Int(value), span }),
                    None => Err(error_invalid_integer(&token)),
                }
            },
            TokenKind::FltLiteral => {
                let token = copy_token(self.peek());
                self.advance();
                if is_float_literal(token.value.as_str()) {
                    Ok(Spanned { node: Expr::Flt(token.value), span })
                } else {
                    Err(error_invalid_float(&token))
                }
            },
            TokenKind::StrLiteral => {
                let token = copy_token(self.peek());
                self.advance();
                Ok(Spanned { node: Expr::Str(token.value), span })
            },
            TokenKind::Identifier => {
                let token = copy_token(self.peek());
                self.advance();
                proof {
                    self.lemma_in_bounds();
                }
                if self.check(TokenKind::Arrow) {
                    self.advance();
                    let body = match self.parse_expr() {
                        Ok(e) => e,
                        Err(e) => return Err(e),
                    };
                    Ok(Spanned { node: Expr::Lambda(token.value, Box::new(body)), span })
                } else {
                    Ok(Spanned { node: Expr::Identifier(token.value), span })
                }
            },
            TokenKind::LeftParen => {
                self.advance();
                let expr = match self.parse_expr() {
                    Ok(e) => e,
                    Err(e) => return Err(e),
                };
                match self.expect(TokenKind::RightParen) {
                    Ok(_) => {},
                    Err(e) => return Err(e),
                }
                Ok(expr)
            },
            TokenKind::True => {
                self.advance();
                Ok(Spanned { node: Expr::Bool(true), span })
            },
            TokenKind::False => {
                self.advance();
                Ok(Spanned { node: Expr::Bool(false), span })
            },
            TokenKind::If => self.parse_if_expr(),
            TokenKind::I => self.parse_loop_expr(),
            TokenKind::LeftBracket => {
                self.advance();
                let lmts = match self.parse_list_items() {
                    Ok(v) => v,
                    Err(e) => return Err(e),
                };
                match self.expect(TokenKind::RightBracket) {
                    Ok(_) => {},
                    Err(e) => return Err(e),
                }
                Ok(Spanned { node: Expr::ListLiteral(lmts), span })
            },
            TokenKind::LeftBrace => {
                self.advance();
                let pairs = match self.parse_map_items() {
                    Ok(v) => v,
                    Err(e) => return Err(e),
                };
                match self.expect(TokenKind::RightBrace) {
                    Ok(_) => {},
                    Err(e) => return Err(e),
                }
                Ok(Spanned { node: Expr::MapLiteral(pairs), span })
            },
            _ => Err(error_unexpected(self.peek())),
        }
    }

    /// `if expr { stmts } (else { stmts })?`; the parser stands on `if`.
    #[verifier::spinoff_prover]
    #[verifier::rlimit(60)]
    fn parse_if_expr(&mut self) -> (r: Result<SpannedExpr, ParserError>)
        requires
            old(self).wf(),
            kind_at(old(self).toks(), old(self).pos()) == TokenKind::If,
        ensures
            old(self).expr_step(final(self), r, sp_if(old(self).toks(), old(self).pos())),
        decreases old(self).tokens@.len() - old(self).position, 1int,
    {
        proof {
            self.lemma_in_bounds();
        }
        let span = span_at(self.peek());
        self.advance();
        let condition = match self.parse_expr() {
            Ok(e) => e,
            Err(e) => return Err(e),
        };
        proof {
            self.lemma_in_bounds();
        }
        let body = match self.parse_block() {
            Ok(b) => b,
            Err(e) => return Err(e),
        };
        proof {
            self.lemma_in_bounds();
        }
        let else_block = if self.check(TokenKind::Else) {
            self.advance();
            match self.parse_block() {
                Ok(b) => Some(b),
                Err(e) => return Err(e),
            }
        } else {
            None
        };
        Ok(Spanned { node: Expr::If(Box::new(condition), body, else_block), span })
    }

    /// `I ( names in expr ) -> { stmts }`; the parser stands on `I`.
    #[verifier::spinoff_prover]
    #[verifier::rlimit(60)]
    fn parse_loop_expr(&mut self) -> (r: Result<SpannedExpr, ParserError>)
        requires
            old(self).wf(),
            kind_at(old(self).toks(), old(self).pos()) == TokenKind::I,
        ensures
            old(self).expr_step(final(self), r, sp_loop(old(self).toks(), old(self).pos())),
        decreases old(self).tokens@.len() - old(self).position, 1int,
    {
        proof {
            self.lemma_in_bounds();
        }
        let span = span_at(self.peek());
        self.advance();
        match self.expect(TokenKind::LeftParen) {
            Ok(_) => {},
            Err(e) => return Err(e),
        }
        let vars = match self.parse_loop_vars() {
            Ok(v) => v,
            Err(e) => return Err(e),
        };
        match self.expect(TokenKind::In) {
            Ok(_) => {},
            Err(e) => return Err(e),
        }
        proof {
            self.lemma_in_bounds();
        }
        let iter = match self.parse_expr() {
            Ok(e) => e,
            Err(e) => return Err(e),
        };
        match self.expect(TokenKind::RightParen) {
            Ok(_) => {},
            Err(e) => return Err(e),
        }
        match self.expect(TokenKind::Arrow) {
            Ok(_) => {},
            Err(e) => return Err(e),
        }
        proof {
            self.lemma_in_bounds();
        }
        let body = match self.parse_block() {
            Ok(b) => b,
            Err(e) => return Err(e),
        };
        Ok(Spanned { node: Expr::Loop(vars, Box::new(iter), body), span })
    }

    /// Arguments `expr (, expr)*` up to where no comma follows.
    fn parse_arg_items(&mut self) -> (r: Result<Vec<SpannedExpr>, ParserError>)
        requires
            old(self).wf(),
        ensures
            old(self).went_on_to(final(self)),
            res_sexprs(r) == sp_args_items(old(self).toks(), old(self).pos(), Seq::empty()).res,
            final(self).pos() == sp_args_items(old(self).toks(), old(self).pos(), Seq::empty()).pos,
        decreases old(self).tokens@.len() - old(self).position, 34int,
    {
        let ghost t = self.toks();
        let ghost p = self.pos();
        let mut args: Vec<SpannedExpr> = Vec::new();
        assert(sexprs_view(args@) =~= Seq::empty());
        loop
            invariant_except_break
                sp_args_items(t, p, Seq::empty()) == sp_args_items(t, self.pos(), sexprs_view(args@)),
            invariant
                self.wf(),
                self.tokens@ == old(self).tokens@,
                t == self.toks(),
                p == old(self).pos(),
                old(self).position <= self.position,
                eof_free(old(self).toks(), old(self).pos(), self.pos()),
            ensures
                sp_args_items(t, p, Seq::empty()) == done(sexprs_view(args@), self.pos()),
            decreases self.tokens@.len() - self.position,
        {
            let ghost before = sexprs_view(args@);
            let item = match self.parse_expr() {
                Ok(e) => e,
                Err(e) => return Err(e),
            };
            proof {
                self.lemma_in_bounds();
            }
            let ghost x = sexpr_view(item);
            args.push(item);
            assert(sexprs_view(args@) =~= before.push(x));
            if self.check(TokenKind::Comma) {
                self.advance();
            } else {
                break;
            }
        }
        Ok(args)
    }

    /// Statements up to `}` or the end.
    fn parse_block_items(&mut self) -> (r: Result<Vec<SpannedStmt>, ParserError>)
        requires
            old(self).wf(),
        ensures
            old(self).went_on_to(final(self)),
            res_sstmts(r) == sp_block_items(old(self).toks(), old(self).pos(), Seq::empty()).res,
            final(self).pos() == sp_block_items(old(self).toks(), old(self).pos(), Seq::empty()).pos,
        decreases old(self).tokens@.len() - old(self).position, 35int,
    {
        let ghost t = self.toks();
        let ghost p = self.pos();
        let mut stmts: Vec<SpannedStmt> = Vec::new();
        assert(sstmts_view(stmts@) =~= Seq::empty());
        proof {
            self.lemma_in_bounds();
        }
        while !self.check(TokenKind::RightBrace) && !self.check(TokenKind::EOF)
            invariant
                self.wf(),
                self.tokens@ == old(self).tokens@,
                t == self.toks(),
                p == old(self).pos(),
                old(self).position <= self.position,
                eof_free(old(self).toks(), old(self).pos(), self.pos()),
                sp_block_items(t, p, Seq::empty()) == sp_block_items(t, self.pos(), sstmts_view(stmts@)),
            decreases self.tokens@.len() - self.position,
        {
            let ghost before = sstmts_view(stmts@);
            let stmt = match self.parse_stmt() {
                Ok(s) => s,
                Err(e) => return Err(e),
            };
            proof {
                self.lemma_in_bounds();
            }
            let ghost x = sstmt_view(stmt);
            stmts.push(stmt);
            assert(sstmts_view(stmts@) =~= before.push(x));
        }
        Ok(stmts)
    }

    fn parse_block(&mut self) -> (r: Result<Vec<SpannedStmt>, ParserError>)
        requires
            old(self).wf(),
        ensures
            old(self).went_on_to(final(self)),
            res_sstmts(r) == sp_block(old(self).toks(), old(self).pos()).res,
            final(self).pos() == sp_block(old(self).toks(), old(self).pos()).pos,
        decreases old(self).tokens@.len() - old(self).position, 0int,
    {
        match self.expect(TokenKind::LeftBrace) {
            Ok(_) => {},
            Err(e) => return Err(e),
        }
        let stmts = match self.parse_block_items() {
            Ok(s) => s,
            Err(e) => return Err(e),
        };
        match self.expect(TokenKind::RightBrace) {
            Ok(_) => {},
            Err(e) => return Err(e),
        }
        Ok(stmts)
    }

    #[verifier::spinoff_prover]
    #[verifier::rlimit(60)]
    fn parse_stmt(&mut self) -> (r: Result<SpannedStmt, ParserError>)
        requires
            old(self).wf(),
        ensures
            old(self).went_on_to(final(self)),
            res_sstmt(r) == sp_stmt(old(self).toks(), old(self).pos()).res,
            final(self).pos() == sp_stmt(old(self).toks(), old(self).pos()).pos,
            r is Ok ==> old(self).position < final(self).position,
        decreases old(self).tokens@.len() - old(self).position, 34int,
    {
        proof {
            self.lemma_in_bounds();
        }
        let span = span_at(self.peek());
        let is_binding = if self.check(TokenKind::Mut) {
            true
        } else if self.check(TokenKind::Identifier) {
            let next = self.peek_offset(1);
            next == TokenKind::Equals || (next == TokenKind::Colon && !(self.peek_offset(2)
                == TokenKind::Identifier && self.peek_offset(3) == TokenKind::LeftParen))
        } else {
            false
        };
        if is_binding {
            return match self.parse_binding() {
                Ok(b) => Ok(Spanned { node: Stmt::Binding(b), span }),
                Err(e) => Err(e),
            };
        }
        let expr = match self.parse_expr() {
            Ok(e) => e,
            Err(e) => return Err(e),
        };
        proof {
            self.lemma_in_bounds();
        }
        if self.check(TokenKind::Equals) {
            self.advance();
            let value = match self.parse_expr() {
                Ok(e) => e,
                Err(e) => return Err(e),
            };
            let target_span = expr.span;
            Ok(
                Spanned {
                    node: Stmt::Expr(
                        Spanned { node: Expr::Assign(Box::new(expr), Box::new(value)), span: target_span },
                    ),
                    span,
                },
            )
        } else {
            Ok(Spanned { node: Stmt::Expr(expr), span })
        }
    }

    #[verifier::spinoff_prover]
    #[verifier::rlimit(60)]
    fn parse_binding(&mut self) -> (r: Result<BindingDecl, ParserError>)
        requires
            old(self).wf(),
        ensures
            old(self).went_on_to(final(self)),
            res_binding(r) == sp_binding(old(self).toks(), old(self).pos()).res,
            final(self).pos() == sp_binding(old(self).toks(), old(self).pos()).pos,
            r is Ok ==> old(self).position < final(self).position,
        decreases old(self).tokens@.len() - old(self).position, 33int,
    {
        proof {
            self.lemma_in_bounds();
        }
        let mutable = self.check(TokenKind::Mut);
        if mutable {
            self.advance();
        }
        let name = match self.expect(TokenKind::Identifier) {
            Ok(tok) => tok.value,
            Err(e) => return Err(e),
        };
        proof {
            self.lemma_in_bounds();
        }
        let type_ann = if self.check(TokenKind::Colon) {
            self.advance();
            match self.parse_type() {
                Ok(t) => Some(t),
                Err(e) => return Err(e),
            }
        } else {
            None
        };
        match self.expect(TokenKind::Equals) {
            Ok(_) => {},
            Err(e) => return Err(e),
        }
        proof {
            self.lemma_in_bounds();
        }
        let value = match self.parse_expr() {
            Ok(e) => e,
            Err(e) => return Err(e),
        };
        Ok(BindingDecl { mutable, name, type_ann, value })
    }
}

impl Parser {
    fn parse_params(&mut self) -> (r: Result<Vec<Param>, ParserError>)
        requires
            old(self).wf(),
        ensures
            old(self).went_on_to(final(self)),
            res_params(r) == sp_params(old(self).toks(), old(self).pos(), Seq::empty()).res,
            final(self).pos() == sp_params(old(self).toks(), old(self).pos(), Seq::empty()).pos,
    {
        let ghost t = self.toks();
        let ghost p = self.pos();
        let mut params: Vec<Param> = Vec::new();
        assert(params_view(params@) =~= Seq::empty());
        loop
            invariant_except_break
                sp_params(t, p, Seq::empty()) == sp_params(t, self.pos(), params_view(params@)),
            invariant
                self.wf(),
                self.tokens@ == old(self).tokens@,
                t == self.toks(),
                p == old(self).pos(),
                old(self).position <= self.position,
                eof_free(old(self).toks(), old(self).pos(), self.pos()),
            ensures
                sp_params(t, p, Seq::empty()) == done(params_view(params@), self.pos()),
            decreases self.tokens@.len() - self.position,
        {
            proof {
                self.lemma_in_bounds();
            }
            if self.peek().kind == TokenKind::RightParen {
                break;
            }
            let name = match self.expect(TokenKind::Identifier) {
                Ok(tok) => tok.value,
                Err(e) => return Err(e),
            };
            proof {
                self.lemma_in_bounds();
            }
            let type_ann;
            if self.check(TokenKind::Colon) {
                self.advance();
                type_ann = match self.parse_type() {
                    Ok(t) => t,
                    Err(e) => return Err(e),
                };
            } else {
                type_ann = Type::Inferred;
            }
            proof {
                self.lemma_in_bounds();
            }
            let ghost before = params_view(params@);
            let param = Param { name, type_ann };
            let ghost pv = crate::ast::param_view(param);
            params.push(param);
            assert(params_view(params@) =~= before.push(pv));
            if self.check(TokenKind::Comma) {
                self.advance();
            } else {
                break;
            }
        }
        Ok(params)
    }

    fn parse_func_decl(&mut self) -> (r: Result<FuncDecl, ParserError>)
        requires
            old(self).wf(),
        ensures
            old(self).went_on_to(final(self)),
            res_func(r) == sp_func_decl(old(self).toks(), old(self).pos()).res,
            final(self).pos() == sp_func_decl(old(self).toks(), old(self).pos()).pos,
            kind_at(old(self).toks(), old(self).pos()) == TokenKind::At ==> old(self).position
                < final(self).position,
    {
        proof {
            reveal(sp_func_decl);
        }
        match self.expect(TokenKind::At) {
            Ok(_) => {},
            Err(e) => return Err(e),
        }
        match self.expect(TokenKind::LeftParen) {
            Ok(_) => {},
            Err(e) => return Err(e),
        }
        let params = match self.parse_params() {
            Ok(ps) => ps,
            Err(e) => return Err(e),
        };
        match self.expect(TokenKind::RightParen) {
            Ok(_) => {},
            Err(e) => return Err(e),
        }
        let name = match self.expect(TokenKind::Identifier) {
            Ok(tok) => tok.value,
            Err(e) => return Err(e),
        };
        match self.expect(TokenKind::Arrow) {
            Ok(_) => {},
            Err(e) => return Err(e),
        }
        let return_type = match self.parse_type() {
            Ok(t) => t,
            Err(e) => return Err(e),
        };
        let body = match self.parse_block() {
            Ok(b) => b,
            Err(e) => return Err(e),
        };
        Ok(FuncDecl { name, params, return_type, body })
    }

    fn parse_struct_decl(&mut self) -> (r: Result<StructDecl, ParserError>)
        requires
            old(self).wf(),
        ensures
            old(self).went_on_to(final(self)),
            res_struct(r) == sp_struct_decl(old(self).toks(), old(self).pos()).res,
            final(self).pos() == sp_struct_decl(old(self).toks(), old(self).pos()).pos,
            kind_at(old(self).toks(), old(self).pos()) == TokenKind::Struct ==> old(self).position
                < final(self).position,
    {
        proof {
            reveal(sp_struct_decl);
        }
        match self.expect(TokenKind::Struct) {
            Ok(_) => {},
            Err(e) => return Err(e),
        }
        let name = match self.expect(TokenKind::Identifier) {
            Ok(tok) => tok.value,
            Err(e) => return Err(e),
        };
        match self.expect(TokenKind::LeftBrace) {
            Ok(_) => {},
            Err(e) => return Err(e),
        }
        let (variables, methods) = match self.parse_struct_body() {
            Ok(body) => body,
            Err(e) => return Err(e),
        };
        match self.expect(TokenKind::RightBrace) {
            Ok(_) => {},
            Err(e) => return Err(e),
        }
        Ok(StructDecl { name, variables, methods })
    }

    /// Fields and methods of a struct up to `}`.
    #[verifier::spinoff_prover]
    #[verifier::rlimit(60)]
    fn parse_struct_body(&mut self) -> (r: Result<(Vec<Param>, Vec<FuncDecl>), ParserError>)
        requires
            old(self).wf(),
        ensures
            old(self).went_on_to(final(self)),
            match r {
                Ok((vs, ms)) => sp_struct_body(old(self).toks(), old(self).pos(), Seq::empty(), Seq::empty())
                    == done((params_view(vs@), funcs_view(ms@)), final(self).pos()),
                Err(e) => sp_struct_body(old(self).toks(), old(self).pos(), Seq::empty(), Seq::empty())
                    == fail::<(Seq<crate::ast::ParamV>, Seq<crate::ast::FuncDeclV>)>(e@, final(self).pos()),
            },
    {
        let ghost t = self.toks();
        let ghost q0 = self.pos();
        let mut methods: Vec<FuncDecl> = Vec::new();
        let mut variables: Vec<Param> = Vec::new();
        assert(params_view(variables@) =~= Seq::empty());
        assert(funcs_view(methods@) =~= Seq::empty());
        loop
            invariant_except_break
                sp_struct_body(t, q0, Seq::empty(), Seq::empty()) == sp_struct_body(
                    t,
                    self.pos(),
                    params_view(variables@),
                    funcs_view(methods@),
                ),
            invariant
                self.wf(),
                self.tokens@ == old(self).tokens@,
                t == self.toks(),
                old(self).position == q0,
                q0 <= self.position,
                eof_free(old(self).toks(), old(self).pos(), self.pos()),
            ensures
                sp_struct_body(t, q0, Seq::empty(), Seq::empty()) == done(
                    (params_view(variables@), funcs_view(methods@)),
                    self.pos(),
                ),
            decreases self.tokens@.len() - self.position,
        {
            proof {
                self.lemma_in_bounds();
            }
            if self.peek().kind == TokenKind::RightBrace {
                break;
            }
            if self.peek().kind == TokenKind::At {
                let func = match self.parse_func_decl() {
                    Ok(f) => f,
                    Err(e) => return Err(e),
                };
                let ghost before = funcs_view(methods@);
                let ghost fv = func_view(func);
                methods.push(func);
                assert(funcs_view(methods@) =~= before.push(fv));
            } else {
                let field_name = match self.expect(TokenKind::Identifier) {
                    Ok(tok) => tok.value,
                    Err(e) => return Err(e),
                };
                match self.expect(TokenKind::Colon) {
                    Ok(_) => {},
                    Err(e) => return Err(e),
                }
                let field_type = match self.parse_type() {
                    Ok(ty) => ty,
                    Err(e) => return Err(e),
                };
                proof {
                    self.lemma_in_bounds();
                }
                let ghost before = params_view(variables@);
                let param = Param { name: field_name, type_ann: field_type };
                let ghost pv = crate::ast::param_view(param);
                variables.push(param);
                assert(params_view(variables@) =~= before.push(pv));
                if self.check(TokenKind::Comma) {
                    self.advance();
                }
            }
        }
        Ok((variables, methods))
    }

    fn parse_binding_decl(&mut self) -> (r: Result<BindingDecl, ParserError>)
        requires
            old(self).wf(),
        ensures
            old(self).went_on_to(final(self)),
            res_binding(r) == sp_binding(old(self).toks(), old(self).pos()).res,
            final(self).pos() == sp_binding(old(self).toks(), old(self).pos()).pos,
            r is Ok ==> old(self).position < final(self).position,
    {
        self.parse_binding()
    }

    #[verifier::spinoff_prover]
    #[verifier::rlimit(60)]
    fn parse_decl(&mut self) -> (r: Result<SpannedDecl, ParserError>)
        requires
            old(self).wf(),
        ensures
            old(self).went_on_to(final(self)),
            res_sdecl(r) == sp_decl(old(self).toks(), old(self).pos()).res,
            final(self).pos() == sp_decl(old(self).toks(), old(self).pos()).pos,
            kind_at(old(self).toks(), old(self).pos()) == TokenKind::At || kind_at(
                old(self).toks(),
                old(self).pos(),
            ) == TokenKind::Struct ==> old(self).position < final(self).position,
            r is Ok ==> old(self).position < final(self).position,
    {
        let ghost t = self.toks();
        let ghost p = self.pos();
        proof {
            self.lemma_in_bounds();
        }
        let span = span_at(self.peek());
        let kind = self.peek().kind;
        if kind == TokenKind::At {
            let f = self.parse_func_decl();
            proof {
                reveal(sp_decl);
            }
            match f {
                Ok(f) => Ok(Spanned { node: Decl::Func(f), span }),
                Err(e) => Err(e),
            }
        } else if kind == TokenKind::Struct {
            let sd = self.parse_struct_decl();
            proof {
                reveal(sp_decl);
            }
            match sd {
                Ok(sd) => Ok(Spanned { node: Decl::Struct(sd), span }),
                Err(e) => Err(e),
            }
        } else {
            let b = self.parse_binding_decl();
            proof {
                reveal(sp_decl);
            }
            match b {
                Ok(b) => Ok(Spanned { node: Decl::Binding(b), span }),
                Err(e) => Err(e),
            }
        }
    }

    /// Skips to the next `@`, `struct` or `EOF`.
    fn synchronize(&mut self)
        requires
            old(self).wf(),
        ensures
            old(self).went_on_to(final(self)),
            final(self).pos() == sp_sync(old(self).toks(), old(self).pos()),
    {
        let ghost t = self.toks();
        let ghost p = self.pos();
        proof {
            self.lemma_in_bounds();
        }
        while !(self.check(TokenKind::At) || self.check(TokenKind::Struct) || self.check(TokenKind::EOF))
            invariant
                self.wf(),
                self.tokens@ == old(self).tokens@,
                t == self.toks(),
                old(self).position <= self.position,
                eof_free(old(self).toks(), old(self).pos(), self.pos()),
                sp_sync(t, p) == sp_sync(t, self.pos()),
            decreases self.tokens@.len() - self.position,
        {
            self.advance();
            proof {
                self.lemma_in_bounds();
            }
        }
    }

    /// Parses declarations up to `EOF`. Each declaration that parses is
    /// kept; after each error, parsing resumes at the next `@`, `struct` or
    /// `EOF`, so that several errors are reported in one pass.
    #[verifier::spinoff_prover]
    #[verifier::rlimit(60)]
    pub fn parse(&mut self) -> (r: (Vec<SpannedDecl>, Vec<ParserError>))
        requires
            old(self).wf(),
        ensures
            final(self).wf(),
            final(self).toks() == old(self).toks(),
            sdecls_view(r.0@) == sp_program(old(self).toks(), old(self).pos()).0,
            errors_view(r.1@) == sp_program(old(self).toks(), old(self).pos()).1,
            kind_at(final(self).toks(), final(self).pos()) == TokenKind::EOF,
            old(self).pos() <= final(self).pos(),
            eof_free(old(self).toks(), old(self).pos(), final(self).pos()),
    {
        let ghost t = self.toks();
        let ghost p = self.pos();
        let mut decls: Vec<SpannedDecl> = Vec::new();
        let mut errors: Vec<ParserError> = Vec::new();
        assert(sdecls_view(decls@) =~= Seq::empty());
        assert(errors_view(errors@) =~= Seq::empty());
        proof {
            self.lemma_in_bounds();
        }
        while !self.check(TokenKind::EOF)
            invariant
                self.wf(),
                self.tokens@ == old(self).tokens@,
                t == self.toks(),
                p == old(self).pos(),
                p <= self.pos(),
                eof_free(t, p, self.pos()),
                sp_program(t, p) == (
                    sdecls_view(decls@) + sp_program(t, self.pos()).0,
                    errors_view(errors@) + sp_program(t, self.pos()).1,
                ),
            decreases self.tokens@.len() - self.position,
        {
            let ghost q = self.pos();
            let ghost dv = sdecls_view(decls@);
            let ghost ev = errors_view(errors@);
            match self.parse_decl() {
                Ok(decl) => {
                    let ghost x = sdecl_view(decl);
                    decls.push(decl);
                    assert(sdecls_view(decls@) =~= dv.push(x));
                    proof {
                        self.lemma_in_bounds();
                        assert(sp_program(t, q).0 =~= seq![x] + sp_program(t, self.pos()).0);
                        assert(dv + sp_program(t, q).0 =~= sdecls_view(decls@) + sp_program(t, self.pos()).0);
                    }
                },
                Err(e) => {
                    let ghost x = e@;
                    errors.push(e);
                    assert(errors_view(errors@) =~= ev.push(x));
                    let ghost d = self.pos();
                    self.synchronize();
                    proof {
                        self.lemma_in_bounds();
                        lemma_sync_moves(t, d);
                        assert(sp_program(t, q).1 =~= seq![x] + sp_program(t, self.pos()).1);
                        assert(ev + sp_program(t, q).1 =~= errors_view(errors@) + sp_program(t, self.pos()).1);
                    }
                },
            }
            proof {
                self.lemma_in_bounds();
            }
        }
        proof {
            assert(sdecls_view(decls@) =~= sdecls_view(decls@) + sp_program(t, self.pos()).0);
            assert(errors_view(errors@) =~= errors_view(errors@) + sp_program(t, self.pos()).1);
        }
        (decls, errors)
    }
}

/// Resuming after an error never moves back, and moves past a token that
/// is not `@`, `struct` or `EOF`.
proof fn lemma_sync_moves(toks: Seq<TokenView>, q: int)
    requires
        0 <= q,
    ensures
        q <= sp_sync(toks, q),
        kind_at(toks, q) != TokenKind::At && kind_at(toks, q) != TokenKind::Struct && kind_at(toks, q)
            != TokenKind::EOF ==> q < sp_sync(toks, q),
    decreases toks.len() - q,
{
    if q < toks.len() {
        lemma_sync_moves(toks, q + 1);
    }
}

/// The binary operator that a token of kind `k` stands for at `level`.
fn binop_for(level: u8, k: TokenKind) -> (r: Option<BinaryOp>)
    ensures
        r == binop_at(level as int, k),
{
    if level == 1 {
        if k == TokenKind::Or {
            Some(BinaryOp::Or)
        } else {
            None
        }
    } else if level == 2 {
        if k == TokenKind::And {
            Some(BinaryOp::And)
        } else {
            None
        }
    } else if level == 3 {
        match k {
            TokenKind::DoubleEquals => Some(BinaryOp::Equality),
            TokenKind::LeftAngle => Some(BinaryOp::Lesser),
            TokenKind::RightAngle => Some(BinaryOp::Greater),
            TokenKind::GreaterEquals => Some(BinaryOp::Geq),
            TokenKind::LessEqual => Some(BinaryOp::Leq),
            TokenKind::NotEquals => Some(BinaryOp::Nequality),
            _ => None,
        }
    } else if level == 4 {
        match k {
            TokenKind::Plus => Some(BinaryOp::Add),
            TokenKind::Minus => Some(BinaryOp::Minus),
            _ => None,
        }
    } else if level == 5 {
        match k {
            TokenKind::Star => Some(BinaryOp::Multiply),
            TokenKind::Slash => Some(BinaryOp::Divide),
            TokenKind::Percent => Some(BinaryOp::Modulo),
            _ => None,
        }
    } else {
        None
    }
}

} // verus!
