use dex::ast::{BinaryOp, Decl, Expr, SpannedDecl, SpannedExpr, Stmt, Type, UnaryOp};
use dex::lexer::Lexer;
use dex::parser::{Parser, ParserError};
use dex::token::{Token, TokenKind};

fn parse(src: &str) -> (Vec<SpannedDecl>, Vec<ParserError>) {
    let mut lexer = Lexer::new(src.to_string());
    let tokens = lexer.tokenize();
    let mut parser = Parser::new(tokens);
    assert!(parser.ready());
    parser.parse()
}

fn single_binding_value(src: &str) -> SpannedExpr {
    let (mut decls, errors) = parse(src);
    assert!(errors.is_empty(), "unexpected errors: {:?}", errors);
    assert_eq!(decls.len(), 1);
    match decls.remove(0).node {
        Decl::Binding(b) => b.value,
        other => panic!("expected a binding, got {:?}", other),
    }
}

fn ident(e: &SpannedExpr) -> &str {
    match &e.node {
        Expr::Identifier(n) => n.as_str(),
        other => panic!("expected an identifier, got {:?}", other),
    }
}

fn int_value(e: &SpannedExpr) -> i64 {
    match &e.node {
        Expr::Int(n) => *n,
        other => panic!("expected an integer, got {:?}", other),
    }
}

fn binary(e: &SpannedExpr) -> (&SpannedExpr, BinaryOp, &SpannedExpr) {
    match &e.node {
        Expr::Binary(l, op, r) => (l, *op, r),
        other => panic!("expected a binary expression, got {:?}", other),
    }
}

#[test]
fn multiplication_binds_tighter_than_addition() {
    let v = single_binding_value("x = 1 + 2 * 3");
    let (l, op, r) = binary(&v);
    assert_eq!(op, BinaryOp::Add);
    assert_eq!(int_value(l), 1);
    let (rl, rop, rr) = binary(r);
    assert_eq!((int_value(rl), rop, int_value(rr)), (2, BinaryOp::Multiply, 3));
}

#[test]
fn subtraction_groups_to_the_left() {
    let v = single_binding_value("x = 1 - 2 - 3");
    let (l, op, r) = binary(&v);
    assert_eq!(op, BinaryOp::Minus);
    assert_eq!(int_value(r), 3);
    let (ll, lop, lr) = binary(l);
    assert_eq!((int_value(ll), lop, int_value(lr)), (1, BinaryOp::Minus, 2));
}

#[test]
fn exponent_groups_to_the_right() {
    let v = single_binding_value("x = 2 ^ 3 ^ 2");
    let (l, op, r) = binary(&v);
    assert_eq!((int_value(l), op), (2, BinaryOp::Exponent));
    let (rl, rop, rr) = binary(r);
    assert_eq!((int_value(rl), rop, int_value(rr)), (3, BinaryOp::Exponent, 2));
}

#[test]
fn unary_binds_tighter_than_exponent() {
    let v = single_binding_value("x = -a ^ 2");
    let (l, op, r) = binary(&v);
    assert_eq!(op, BinaryOp::Exponent);
    assert_eq!(int_value(r), 2);
    match &l.node {
        Expr::Unary(UnaryOp::Neg, inner) => assert_eq!(ident(inner), "a"),
        other => panic!("expected a negation, got {:?}", other),
    }
    assert_eq!((l.span.line, l.span.column), (1, 5));
}

#[test]
fn logic_and_comparison_precedence() {
    let v = single_binding_value("x = a < b && c || !d");
    let (l, op, r) = binary(&v);
    assert_eq!(op, BinaryOp::Or);
    assert!(matches!(&r.node, Expr::Unary(UnaryOp::Not, _)));
    let (al, aop, ar) = binary(l);
    assert_eq!(aop, BinaryOp::And);
    assert_eq!(ident(ar), "c");
    let (cl, cop, cr) = binary(al);
    assert_eq!((ident(cl), cop, ident(cr)), ("a", BinaryOp::Lesser, "b"));
}

#[test]
fn every_comparison_operator() {
    let cases = [
        ("==", BinaryOp::Equality),
        ("!=", BinaryOp::Nequality),
        ("<", BinaryOp::Lesser),
        (">", BinaryOp::Greater),
        ("<=", BinaryOp::Leq),
        (">=", BinaryOp::Geq),
        ("%", BinaryOp::Modulo),
        ("/", BinaryOp::Divide),
    ];
    for (text, expected) in cases {
        let v = single_binding_value(&format!("x = a {} b", text));
        let (_, op, _) = binary(&v);
        assert_eq!(op, expected);
    }
}

#[test]
fn parentheses_override_precedence() {
    let v = single_binding_value("x = (1 + 2) * 3");
    let (l, op, _) = binary(&v);
    assert_eq!(op, BinaryOp::Multiply);
    let (_, lop, _) = binary(l);
    assert_eq!(lop, BinaryOp::Add);
}

#[test]
fn pipeline_with_lambdas() {
    let v = single_binding_value("r = list >> filter(n -> n % 2 == 0) >> map(n -> n * 2)");
    match &v.node {
        Expr::Pipeline(left, right) => {
            match &left.node {
                Expr::Pipeline(src, call) => {
                    assert_eq!(ident(src), "list");
                    match &call.node {
                        Expr::Call(callee, args) => {
                            assert_eq!(ident(callee), "filter");
                            assert_eq!(args.len(), 1);
                            assert!(matches!(&args[0].node, Expr::Lambda(p, _) if p == "n"));
                        }
                        other => panic!("expected a call, got {:?}", other),
                    }
                }
                other => panic!("expected a pipeline, got {:?}", other),
            }
            assert!(matches!(&right.node, Expr::Call(_, args) if args.len() == 1));
        }
        other => panic!("expected a pipeline, got {:?}", other),
    }
}

#[test]
fn postfix_chain() {
    let v = single_binding_value("d = p1:distance(p2).x?");
    match &v.node {
        Expr::Try(inner) => match &inner.node {
            Expr::FieldAccess(obj, field) => {
                assert_eq!(field, "x");
                match &obj.node {
                    Expr::MethodCall(recv, name, args) => {
                        assert_eq!(ident(recv), "p1");
                        assert_eq!(name, "distance");
                        assert_eq!(args.len(), 1);
                        assert_eq!(ident(&args[0]), "p2");
                    }
                    other => panic!("expected a method call, got {:?}", other),
                }
            }
            other => panic!("expected a field access, got {:?}", other),
        },
        other => panic!("expected a try, got {:?}", other),
    }
    assert_eq!((v.span.line, v.span.column), (1, 5));
}

#[test]
fn literals() {
    let v = single_binding_value("x = [1, 2.5, \"s\", true, false, {\"a\": 1, \"b\": 2}]");
    match &v.node {
        Expr::ListLiteral(items) => {
            assert_eq!(items.len(), 6);
            assert_eq!(int_value(&items[0]), 1);
            assert!(matches!(&items[1].node, Expr::Flt(t) if t == "2.5"));
            assert!(matches!(&items[2].node, Expr::Str(t) if t == "s"));
            assert!(matches!(&items[3].node, Expr::Bool(true)));
            assert!(matches!(&items[4].node, Expr::Bool(false)));
            assert!(matches!(&items[5].node, Expr::MapLiteral(ps) if ps.len() == 2));
        }
        other => panic!("expected a list, got {:?}", other),
    }
}

#[test]
fn empty_list_and_trailing_comma() {
    let v = single_binding_value("x = []");
    assert!(matches!(&v.node, Expr::ListLiteral(items) if items.is_empty()));
    let v = single_binding_value("x = [1, 2,]");
    assert!(matches!(&v.node, Expr::ListLiteral(items) if items.len() == 2));
}

#[test]
fn typed_and_mutable_bindings() {
    let (decls, errors) = parse("y: int = 5\nmut z = 15\nl: [int] = []\nm: {str: flt} = {}");
    assert!(errors.is_empty());
    assert_eq!(decls.len(), 4);
    match &decls[0].node {
        Decl::Binding(b) => {
            assert!(!b.mutable);
            assert_eq!(b.name, "y");
            assert!(matches!(b.type_ann, Some(Type::Int)));
        }
        other => panic!("expected a binding, got {:?}", other),
    }
    match &decls[1].node {
        Decl::Binding(b) => {
            assert!(b.mutable);
            assert!(b.type_ann.is_none());
            assert_eq!((decls[1].span.line, decls[1].span.column), (2, 1));
        }
        other => panic!("expected a binding, got {:?}", other),
    }
    assert!(matches!(&decls[2].node, Decl::Binding(b) if matches!(&b.type_ann, Some(Type::List(_)))));
    assert!(matches!(&decls[3].node, Decl::Binding(b) if matches!(&b.type_ann, Some(Type::Mapping(_, _)))));
}

#[test]
fn function_declaration() {
    let (decls, errors) = parse("@(x: int, y) add -> int {\n    x + y\n}");
    assert!(errors.is_empty());
    assert_eq!(decls.len(), 1);
    match &decls[0].node {
        Decl::Func(f) => {
            assert_eq!(f.name, "add");
            assert_eq!(f.params.len(), 2);
            assert_eq!(f.params[0].name, "x");
            assert!(matches!(f.params[0].type_ann, Type::Int));
            assert!(matches!(f.params[1].type_ann, Type::Inferred));
            assert!(matches!(f.return_type, Type::Int));
            assert_eq!(f.body.len(), 1);
            assert_eq!((f.body[0].span.line, f.body[0].span.column), (2, 5));
        }
        other => panic!("expected a function, got {:?}", other),
    }
}

#[test]
fn struct_with_fields_and_method() {
    let src = "struct Point {\n    x: flt, y: flt\n\n    @(self, other) distance -> flt {\n        dx = self.x - other.x\n        dy = self.y - other.y\n        (dx * dx + dy * dy) ^ 0.5\n    }\n}";
    let (decls, errors) = parse(src);
    assert!(errors.is_empty(), "{:?}", errors);
    match &decls[0].node {
        Decl::Struct(s) => {
            assert_eq!(s.name, "Point");
            assert_eq!(s.variables.len(), 2);
            assert!(matches!(s.variables[1].type_ann, Type::Flt));
            assert_eq!(s.methods.len(), 1);
            assert_eq!(s.methods[0].name, "distance");
            // No statement separator: the parenthesised line continues the
            // previous one as a call `other.y(...)`.
            assert_eq!(s.methods[0].body.len(), 2);
            assert!(matches!(&s.methods[0].body[0].node, Stmt::Binding(b) if b.name == "dx"));
            match &s.methods[0].body[1].node {
                Stmt::Binding(b) => {
                    assert_eq!(b.name, "dy");
                    let (_, op, r) = binary(&b.value);
                    assert_eq!(op, BinaryOp::Minus);
                    let (call, exp, _) = binary(r);
                    assert_eq!(exp, BinaryOp::Exponent);
                    assert!(matches!(&call.node, Expr::Call(_, args) if args.len() == 1));
                }
                other => panic!("expected a binding, got {:?}", other),
            }
        }
        other => panic!("expected a struct, got {:?}", other),
    }
}

#[test]
fn if_else_and_loop_in_a_body() {
    let src = "@(list: [int]) f -> abyss {\n if x > 5 { print(\"big\") } else { print(\"small\") }\n I (n in list) -> { print(n) }\n x = 1\n}";
    let (decls, errors) = parse(src);
    assert!(errors.is_empty(), "{:?}", errors);
    match &decls[0].node {
        Decl::Func(f) => {
            assert_eq!(f.body.len(), 3);
            match &f.body[0].node {
                Stmt::Expr(e) => {
                    assert!(matches!(&e.node, Expr::If(_, then, Some(els)) if then.len() == 1 && els.len() == 1))
                }
                other => panic!("expected an if, got {:?}", other),
            }
            match &f.body[1].node {
                Stmt::Expr(e) => {
                    assert!(matches!(&e.node, Expr::Loop(vars, _, body) if vars == &vec!["n".to_string()] && body.len() == 1));
                    assert_eq!((e.span.line, e.span.column), (3, 2));
                }
                other => panic!("expected a loop, got {:?}", other),
            }
            assert!(matches!(&f.body[2].node, Stmt::Binding(_)));
        }
        other => panic!("expected a function, got {:?}", other),
    }
}

#[test]
fn assignment_statement() {
    let (decls, errors) = parse("@() f -> abyss { self.x = 5 }");
    assert!(errors.is_empty());
    match &decls[0].node {
        Decl::Func(f) => match &f.body[0].node {
            Stmt::Expr(e) => assert!(matches!(&e.node, Expr::Assign(t, _) if matches!(&t.node, Expr::FieldAccess(_, n) if n == "x"))),
            other => panic!("expected an expression statement, got {:?}", other),
        },
        other => panic!("expected a function, got {:?}", other),
    }
}

#[test]
fn method_call_statement_is_not_a_binding() {
    let (decls, errors) = parse("@() f -> abyss { p:move() }");
    assert!(errors.is_empty());
    match &decls[0].node {
        Decl::Func(f) => {
            assert!(matches!(&f.body[0].node, Stmt::Expr(e) if matches!(&e.node, Expr::MethodCall(_, m, _) if m == "move")))
        }
        other => panic!("expected a function, got {:?}", other),
    }
}

#[test]
fn expected_token_error_message() {
    let (decls, errors) = parse("@(x int) f -> int { 1 }");
    assert!(decls.is_empty());
    assert_eq!(errors.len(), 1);
    assert_eq!(
        errors[0].message().as_str(),
        "expected RightParen but got IntType ('int') at line 1, column 5"
    );
    assert_eq!((errors[0].line(), errors[0].column()), (1, 5));
}

#[test]
fn recovery_collects_several_errors() {
    let (decls, errors) = parse("x = ;\n@() f -> int { 1 }\ny = )\nz = 2");
    assert_eq!(decls.len(), 1);
    assert!(matches!(&decls[0].node, Decl::Func(f) if f.name == "f"));
    assert_eq!(errors.len(), 2);
    assert_eq!(errors[0].message().as_str(), "unexpected token ';' at line 1, column 5");
    assert_eq!(errors[1].message().as_str(), "unexpected token ')' at line 3, column 5");
}

#[test]
fn invalid_integer_literal() {
    let (_, errors) = parse("x = 99999999999999999999");
    assert_eq!(errors.len(), 1);
    assert_eq!(errors[0].message().as_str(), "invalid integer '99999999999999999999'");
    assert_eq!((errors[0].line(), errors[0].column()), (1, 5));
}

#[test]
fn expected_type_error() {
    let (_, errors) = parse("x: 5 = 1");
    assert_eq!(errors.len(), 1);
    assert_eq!(errors[0].message().as_str(), "expected type, got IntLiteral");
}

#[test]
fn tokens_without_end_marker_are_not_ready() {
    let tokens = vec![Token { kind: TokenKind::Identifier, value: "x".to_string(), line: 1, column: 1 }];
    let parser = Parser::new(tokens);
    assert!(!parser.ready());
}

#[test]
fn hand_made_tokens_with_signed_and_float_values() {
    let tok = |kind, value: &str| Token { kind, value: value.to_string(), line: 1, column: 1 };
    let tokens = vec![
        tok(TokenKind::Identifier, "x"),
        tok(TokenKind::Equals, "="),
        tok(TokenKind::LeftBracket, "["),
        tok(TokenKind::IntLiteral, "-12"),
        tok(TokenKind::Comma, ","),
        tok(TokenKind::FltLiteral, "1e3"),
        tok(TokenKind::Comma, ","),
        tok(TokenKind::FltLiteral, "1.2.3"),
        tok(TokenKind::RightBracket, "]"),
        tok(TokenKind::EOF, ""),
    ];
    let mut parser = Parser::new(tokens);
    assert!(parser.ready());
    let (decls, errors) = parser.parse();
    assert!(decls.is_empty());
    assert_eq!(errors.len(), 1);
    assert_eq!(errors[0].message().as_str(), "invalid float '1.2.3'");
}

#[test]
fn readme_example_program_parses() {
    let src = "struct Vector {\n    x: flt, y: flt\n\n    @(self, other) add -> Vector {\n        Vector(self.x + other.x, self.y + other.y)\n    }\n\n    @(self) magnitude -> flt {\n        (self.x * self.x + self.y * self.y) ^ 0.5\n    }\n}\n\n@(numbers: [int]) process -> [int] {\n    numbers >> filter(n -> n % 2 == 0) >> map(n -> n * n)\n}\n\n@() main -> int {\n    v1 = Vector(3.0, 4.0)\n    v2 = Vector(1.0, 2.0)\n    v3 = v1:add(v2)\n    print(\"magnitude of v1: {v1:magnitude()}\")\n\n    numbers = [1, 2, 3, 4, 5, 6, 7, 8]\n    result = process(numbers)\n    print(\"even squares: {result}\")\n\n    greeting = \"Dex\"\n    print(\"Hello from {greeting}!\")\n}\n";
    let (decls, errors) = parse(src);
    assert!(errors.is_empty(), "{:?}", errors);
    assert_eq!(decls.len(), 3);
    assert!(matches!(&decls[2].node, Decl::Func(f) if f.name == "main" && f.body.len() == 9));
}

#[test]
fn result_type_is_parsed() {
    let (decls, errors) = parse("x: int | error = 1");
    assert!(errors.is_empty(), "unexpected errors: {:?}", errors);
    match &decls[0].node {
        Decl::Binding(b) => match &b.type_ann {
            Some(Type::Result(inner)) => assert!(matches!(**inner, Type::Int)),
            other => panic!("expected a result type, got {:?}", other),
        },
        other => panic!("expected a binding, got {:?}", other),
    }
    let (_, errors) = parse("x: int | 5 = 1");
    assert!(!errors.is_empty());
}

#[test]
fn list_indexing_is_parsed() {
    let e = single_binding_value("y = list[0]");
    match &e.node {
        Expr::Index(target, index) => {
            assert_eq!(ident(target), "list");
            assert!(matches!(index.node, Expr::Int(0)));
        }
        other => panic!("expected an index, got {:?}", other),
    }
    let e = single_binding_value("y = m[1][i + 1]");
    assert!(matches!(&e.node, Expr::Index(inner, _) if matches!(inner.node, Expr::Index(_, _))));
}
