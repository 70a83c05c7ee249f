use xiyi_compiler::ast::{
    AttributeArg, BinaryOp, CallArg, Expr, ExprKind, FnDef, IfKind, Item, Literal, Pattern, Stmt,
    Type, UnaryOp,
};
use xiyi_compiler::engine::pipeline::parse_source;
use xiyi_compiler::syntactic::Parser;

fn functions(source: &str) -> Vec<FnDef> {
    let p = parse_source(source).unwrap();
    p.items
        .into_iter()
        .map(|i| match i {
            Item::FnDef(f) => f,
            other => panic!("{:?}", other),
        })
        .collect()
}

fn function(source: &str) -> FnDef {
    functions(source).into_iter().next().unwrap()
}

fn body(stmts: &str) -> Vec<Stmt> {
    function(&format!("fn main() {{ {} }}", stmts)).body.stmts
}

fn expr(source: &str) -> Expr {
    match body(&format!("let x = {};", source)).into_iter().next().unwrap() {
        Stmt::Let(s) => *s.init,
        other => panic!("{:?}", other),
    }
}

fn refused(source: &str) -> String {
    parse_source(source).unwrap_err()
}

fn binary(e: &Expr) -> (BinaryOp, &Expr, &Expr) {
    match &e.kind {
        ExprKind::BinaryOp { op, left, right } => (*op, left, right),
        other => panic!("{:?}", other),
    }
}

fn has_value(e: &Expr, n: i32) -> bool {
    matches!(&e.kind, ExprKind::Literal(Literal::Int32(m)) if *m == n)
}

#[test]
fn a_function_with_parameters() {
    let f = function("fn add(a: i32, b: &mut bool) -> i64 { }");
    assert_eq!(f.name, "add");
    assert_eq!(f.params.len(), 2);
    assert_eq!(f.params[0].name, "a");
    assert!(matches!(f.params[0].ty, Type::I32));
    assert!(matches!(
        &f.params[1].ty,
        Type::Ref { mutable: true, inner } if matches!(**inner, Type::Bool)
    ));
    assert!(matches!(f.return_type, Some(Type::I64)));
    assert!(f.body.stmts.is_empty());
}

#[test]
fn products_bind_before_sums() {
    let e = expr("1 + 2 * 3");
    let (op, l, r) = binary(&e);
    assert_eq!(op, BinaryOp::Add);
    assert!(has_value(l, 1));
    let (op, l, r) = binary(r);
    assert_eq!(op, BinaryOp::Mul);
    assert!(has_value(l, 2) && has_value(r, 3));
}

#[test]
fn operators_group_from_the_left() {
    let e = expr("10 - 4 - 3");
    let (op, l, r) = binary(&e);
    assert_eq!(op, BinaryOp::Sub);
    assert!(has_value(r, 3));
    let (op, l, r) = binary(l);
    assert_eq!(op, BinaryOp::Sub);
    assert!(has_value(l, 10) && has_value(r, 4));
}

#[test]
fn parentheses_group() {
    let e = expr("(1 + 2) * 3");
    let (op, l, _) = binary(&e);
    assert_eq!(op, BinaryOp::Mul);
    assert_eq!(binary(l).0, BinaryOp::Add);
}

#[test]
fn comparisons_bind_after_arithmetic() {
    let e = expr("1 + 2 < 3 && 4 == 5");
    let (op, l, r) = binary(&e);
    assert_eq!(op, BinaryOp::And);
    assert_eq!(binary(l).0, BinaryOp::Lt);
    assert_eq!(binary(r).0, BinaryOp::Eq);
}

#[test]
fn unary_operators_and_casts() {
    let e = expr("!true");
    assert!(matches!(&e.kind, ExprKind::Unary { op: UnaryOp::Not, .. }));
    let e = expr("-x as i64");
    match &e.kind {
        ExprKind::Cast { expr, ty: Type::I64 } => {
            assert!(matches!(&expr.kind, ExprKind::Unary { op: UnaryOp::Neg, .. }));
        }
        other => panic!("{:?}", other),
    }
}

#[test]
fn literals() {
    assert!(has_value(&expr("0x10"), 16));
    assert!(matches!(&expr("7u8").kind, ExprKind::Literal(Literal::Uint8(7))));
    assert!(matches!(&expr("1.5").kind, ExprKind::Literal(Literal::Float(s)) if s == "1.5"));
    assert!(matches!(&expr("\"a\\nb\"").kind, ExprKind::Literal(Literal::Str(s)) if s == "a\nb"));
    assert!(matches!(&expr("false").kind, ExprKind::Literal(Literal::Bool(false))));
    assert_eq!(refused("fn main() { let x = 256u8; }"), "invalid integer literal 256u8");
}

#[test]
fn calls_and_fields() {
    match &expr("f(1, b: 2)").kind {
        ExprKind::Call { qualifier: None, func, args, is_method: false } => {
            assert_eq!(func, "f");
            assert!(matches!(&args[0], CallArg::Positional(_)));
            assert!(matches!(&args[1], CallArg::Named(n, _) if n == "b"));
        }
        other => panic!("{:?}", other),
    }
    match &expr("p.x").kind {
        ExprKind::FieldAccess { field_name, .. } => assert_eq!(field_name, "x"),
        other => panic!("{:?}", other),
    }
    match &expr("p.len(1)").kind {
        ExprKind::Call { func, args, is_method: true, .. } => {
            assert_eq!(func, "len");
            assert_eq!(args.len(), 2);
        }
        other => panic!("{:?}", other),
    }
    assert!(matches!(&expr("a[0]").kind, ExprKind::Index { .. }));
    assert!(matches!(&expr("[1, 2, 3]").kind, ExprKind::ArrayLiteral(l) if l.len() == 3));
}

#[test]
fn a_brace_behind_a_condition_starts_a_block() {
    match &expr("if a { 1 } else { 2 }").kind {
        ExprKind::If { kind: IfKind::Normal, cond, else_expr, .. } => {
            assert!(matches!(&cond.kind, ExprKind::Ident(n) if n == "a"));
            assert!(else_expr.is_some());
        }
        other => panic!("{:?}", other),
    }
    match &expr("P { x: 1 }").kind {
        ExprKind::StructInit { struct_name, fields } => {
            assert_eq!(struct_name, "P");
            assert_eq!(fields[0].0, "x");
        }
        other => panic!("{:?}", other),
    }
}

#[test]
fn arms_of_a_match() {
    match &expr("match n { 1 => 10, -2 => 20 true => 30, _ => 40 }").kind {
        ExprKind::Match(m) => {
            assert_eq!(m.arms.len(), 4);
            assert!(matches!(m.arms[0].pattern, Pattern::IntLiteral(1)));
            assert!(matches!(m.arms[1].pattern, Pattern::IntLiteral(-2)));
            assert!(matches!(m.arms[2].pattern, Pattern::BoolLiteral(true)));
            assert!(matches!(m.arms[3].pattern, Pattern::Wildcard));
        }
        other => panic!("{:?}", other),
    }
}

#[test]
fn statements() {
    let list = body("let a: i32 = 1; var b = 2; a = 3; b += 4; return a; while a { break; } loop { }");
    assert_eq!(list.len(), 7);
    assert!(matches!(&list[0], Stmt::Let(s) if !s.mutable && matches!(s.ty, Some(Type::I32))));
    assert!(matches!(&list[1], Stmt::Let(s) if s.mutable && s.ty.is_none()));
    assert!(matches!(&list[2], Stmt::Assign(_)));
    match &list[3] {
        Stmt::Assign(a) => assert_eq!(binary(&a.expr).0, BinaryOp::Add),
        other => panic!("{:?}", other),
    }
    assert!(matches!(&list[4], Stmt::Return(Some(_))));
    assert!(matches!(&list[5], Stmt::While(w) if matches!(w.body.stmts[0], Stmt::Break)));
    assert!(matches!(&list[6], Stmt::Loop(_)));
}

#[test]
fn loops_over_ranges() {
    match &body("for i in 0 .. n { }")[0] {
        Stmt::For(f) => {
            assert_eq!(f.var, "i");
            assert!(matches!(&f.iterable.kind, ExprKind::Range { .. }));
        }
        other => panic!("{:?}", other),
    }
}

#[test]
fn persistent_variables() {
    assert!(matches!(&body("persist let a = 1;")[0], Stmt::Let(s) if s.persist && !s.mutable));
    assert!(matches!(&body("persist var a = 1;")[0], Stmt::Let(s) if s.persist && s.mutable));
    assert_eq!(
        refused("fn main() { persist a = 1; }"),
        "Expected 'let' or 'var' after 'persist'"
    );
}

#[test]
fn attributes_stand_before_functions() {
    let f = function("#[effect(io, level = 3)] fn f() { }");
    assert_eq!(f.attributes.len(), 1);
    assert_eq!(f.attributes[0].name, "effect");
    assert!(matches!(&f.attributes[0].args[0], AttributeArg::Ident(s) if s == "io"));
    assert!(matches!(
        &f.attributes[0].args[1],
        AttributeArg::KeyValue(k, v) if k == "level" && matches!(**v, AttributeArg::Int(3))
    ));
}

#[test]
fn several_functions() {
    let all = functions("fn a() { } fn b() { }");
    let names: Vec<&str> = all.iter().map(|f| f.name.as_str()).collect();
    assert_eq!(names, vec!["a", "b"]);
}

#[test]
fn wrong_sources_are_refused() {
    assert_eq!(refused("fn"), "Expected identifier");
    assert_eq!(refused("1"), "Expected item");
    assert_eq!(refused("fn 1"), "Expected identifier");
    assert_eq!(refused("fn f() { let x: 1 = 2; }"), "Expected type");
    assert_eq!(refused("fn f() { let x = ; }"), "Expected expression");
    assert_eq!(refused("fn f( { }"), "Expected identifier");
    assert_eq!(refused("fn f() { match 1 { + => 2 } }"), "Expected pattern");
}

#[test]
fn a_parser_reads_to_the_end() {
    let mut parser = Parser::new("fn a() { } fn b() { }");
    assert!(parser.parse_program().is_ok());
    assert_eq!(parser.pos, parser.tokens.len());
    let parser = Parser::from_source("fn $");
    assert!(parser.is_err());
}

fn item(source: &str) -> Item {
    let mut items = parse_source(source).unwrap().items;
    assert_eq!(items.len(), 1);
    items.remove(0)
}

#[test]
fn structures_have_fields() {
    match item("pub struct Pair<T> { first: T, second: [bool; 2], }") {
        Item::StructDef(s) => {
            assert_eq!(s.name, "Pair");
            assert_eq!(s.generic_params[0].name, "T");
            assert_eq!(s.fields.len(), 2);
            assert!(matches!(&s.fields[0].ty, Type::Param(t) if t == "T"));
            assert!(matches!(s.fields[1].ty, Type::Array(..)));
        }
        other => panic!("{:?}", other),
    }
    assert_eq!(refused("struct S { a i32 }"), "Expected Colon, got I32");
    assert_eq!(refused("struct S { a: i32"), "Unexpected end of input");
}

#[test]
fn enumerations_have_variants() {
    match item("enum Shape { Dot, Circle(i32) }") {
        Item::EnumDef(e) => {
            assert_eq!(e.variants[0].name, "Dot");
            assert!(e.variants[0].ty.is_none());
            assert_eq!(e.variants[1].name, "Circle");
            assert!(matches!(e.variants[1].ty, Some(Type::I32)));
        }
        other => panic!("{:?}", other),
    }
}

#[test]
fn functions_of_a_type() {
    match item("implement Point { #[inline] fn a(&self) -> i32 { 1 } pub fn b() { } }") {
        Item::Implement(d) => {
            assert_eq!(d.target, "Point");
            assert_eq!(d.functions.len(), 2);
            assert_eq!(d.functions[0].attributes[0].name, "inline");
            assert_eq!(d.functions[1].name, "b");
        }
        other => panic!("{:?}", other),
    }
    match item("model Net { fn forward(&self) { } }") {
        Item::ModelDef(d) => assert_eq!((d.name.as_str(), d.functions.len()), ("Net", 1)),
        other => panic!("{:?}", other),
    }
    match item("interface Area { fn area(&self) -> i32; fn name(); }") {
        Item::Interface(d) => assert_eq!((d.name.as_str(), d.functions.len()), ("Area", 2)),
        other => panic!("{:?}", other),
    }
}

#[test]
fn constants_and_imports() {
    match item("const LIMIT: i32 = 3;") {
        Item::ConstDef(d) => {
            assert_eq!(d.name, "LIMIT");
            assert!(matches!(d.ty, Type::I32));
            assert!(has_value(&d.value, 3));
        }
        other => panic!("{:?}", other),
    }
    match item("use core::math::add;") {
        Item::Use(d) => assert_eq!(d.path, vec!["core", "math", "add"]),
        other => panic!("{:?}", other),
    }
    assert_eq!(refused("pub 1"), "Expected item");
}
