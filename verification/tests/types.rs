use xiyi_compiler::ast::Type;
use xiyi_compiler::engine::pipeline::parse_source;
use xiyi_compiler::hir::{HirExprKind, HirProgram, HirStmt};
use xiyi_compiler::semantic::{same_type, TypeChecker};

fn check(source: &str) -> Result<HirProgram, String> {
    let p = parse_source(source).unwrap();
    TypeChecker::new().check_program(&p)
}

fn fault(stmts: &str) -> String {
    check(&format!("fn main() -> i32 {{ {} }}", stmts)).unwrap_err()
}

#[test]
fn the_last_expression_is_returned() {
    let p = check("fn main() -> i32 { let x: i32 = 10; x + 1 }").unwrap();
    let f = &p.fns[0];
    assert!(matches!(f.return_type, Type::I32));
    assert_eq!(f.body.stmts.len(), 2);
    match &f.body.stmts[1] {
        HirStmt::Return { expr: Some(e) } => {
            assert!(matches!(e.ty, Type::I32));
            assert!(matches!(e.kind, HirExprKind::BinaryOp { .. }));
        }
        other => panic!("{:?}", other),
    }
}

#[test]
fn functions_without_a_type_return_nothing() {
    let p = check("fn main() { 1; return; }").unwrap();
    assert!(matches!(p.fns[0].return_type, Type::Unit));
    assert!(matches!(p.fns[0].body.stmts[0], HirStmt::Expr { .. }));
    assert!(matches!(p.fns[0].body.stmts[1], HirStmt::Return { expr: None }));
}

#[test]
fn parameters_and_inner_bindings_have_types() {
    assert!(check("fn f(a: bool) -> bool { !a }").is_ok());
    assert!(check("fn f(a: bool) -> i32 { let a = 1; a }").is_ok());
    assert!(check("fn f(a: i32) -> bool { a < 3 && true }").is_ok());
}

#[test]
fn wrong_types_are_refused() {
    assert_eq!(fault("let x: bool = 10; x"), "type mismatch in the definition of `x`");
    assert_eq!(fault("true"), "type mismatch in the value that is returned");
    assert_eq!(fault("return true;"), "type mismatch in the value that is returned");
    assert_eq!(fault("return;"), "type mismatch in the value that is returned");
    assert_eq!(fault("let x = 1;"), "function does not return a value");
    assert_eq!(fault("1 + true"), "operator does not take operands of these types");
    assert_eq!(fault("true + true"), "operator does not take operands of these types");
    assert_eq!(fault("!1"), "operator does not take an operand of this type");
    assert_eq!(fault("y"), "undefined variable `y`");
}

#[test]
fn branches_that_never_end_are_legal() {
    let p = check("fn main() -> i32 { if true { panic() } else { panic() } }").unwrap();
    match &p.fns[0].body.stmts[0] {
        HirStmt::Return { expr: Some(e) } => assert!(matches!(e.ty, Type::Never)),
        other => panic!("{:?}", other),
    }
    assert!(check("fn main() -> i32 { let x: i32 = 1 + panic(); x }").is_ok());
    assert!(check("fn f(a: i32) -> i32 { if a < 1 { return 0; } a }").is_ok());
    assert!(check("fn stop() -> never { panic() } fn main() -> bool { stop() }").is_ok());
}

#[test]
fn branches_are_joined() {
    let p = check("fn f(a: bool) -> i32 { let x = if a { 1 } else { panic() }; x }").unwrap();
    match &p.fns[0].body.stmts[0] {
        HirStmt::Let { init, .. } => assert!(matches!(init.ty, Type::I32)),
        other => panic!("{:?}", other),
    }
    assert_eq!(fault("if 1 { 1 } else { 2 }"), "condition is not of type bool");
    assert_eq!(
        fault("if true { 1 } else { false }"),
        "type mismatch in the value that is returned"
    );
    assert_eq!(fault("if true 1"), "branch without `else` has a value");
}

#[test]
fn calls_are_checked() {
    let two = |body: &str| check(&format!("fn f(a: i32, b: &bool) -> i32 {{ a }} fn main() -> i32 {{ {} }}", body));
    assert!(two("f(1, true)").is_ok());
    assert_eq!(two("f(1)").unwrap_err(), "wrong number of arguments for `f`");
    assert_eq!(two("f(true, true)").unwrap_err(), "argument of the wrong type for `f`");
    assert_eq!(two("g(1)").unwrap_err(), "undefined function `g`");
    assert_eq!(two("let x = 1; x.g()").unwrap_err(), "no type has the method `g`");
    let p = check("fn id<T>(x: T) -> T { x } fn main() -> bool { id(true) }").unwrap();
    match &p.fns[1].body.stmts[0] {
        HirStmt::Return { expr: Some(e) } => match &e.kind {
            HirExprKind::Call { generic_args, .. } => {
                assert_eq!(generic_args.len(), 1);
                assert!(matches!(generic_args[0], Type::Bool));
            }
            other => panic!("{:?}", other),
        },
        other => panic!("{:?}", other),
    }
    assert_eq!(
        check("fn make<T>() { } fn main() { make() }").unwrap_err(),
        "cannot infer the type `T`"
    );
}

#[test]
fn loops_and_assignments_are_checked() {
    assert!(check("fn f() -> i32 { var x = 0; while x < 3 { x = x + 1; } x }").is_ok());
    assert!(check("fn f() { loop { break; } }").is_ok());
    assert!(check("fn f() { for i in 0 .. 3 { let x: i32 = i; } }").is_ok());
    assert!(check("fn f(a: [bool; 2]) { for i in a { let x: bool = i; } }").is_ok());
    assert_eq!(fault("break; 1"), "`break` outside of a loop");
    assert_eq!(fault("while 1 { } 1"), "condition is not of type bool");
    assert_eq!(fault("var x = 1; x = true; 1"), "type mismatch in an assignment");
    assert_eq!(fault("for i in 1 { } 1"), "value has no elements");
    assert_eq!(fault("for i in 0 .. true { } 1"), "range is not of numbers of one type");
}

#[test]
fn casts_arrays_and_blocks_have_types() {
    assert!(check("fn f(a: i64) -> u8 { a as u8 }").is_ok());
    assert!(check("fn f() -> bool { let a = [true, false]; a[1] }").is_ok());
    assert!(check("fn f() -> i32 { { let x = 1; x } }").is_ok());
    assert!(check("fn f() -> i32 { unsafe { 1 } }").is_ok());
    assert_eq!(fault("true as str"), "value cannot be converted to this type");
    assert_eq!(fault("let a = [1, true]; 1"), "elements of different types");
    assert_eq!(fault("let a = [1]; a[true]"), "index is no integer");
    assert_eq!(fault("1[0]"), "value has no elements");
    assert_eq!(fault("{ let x = 1; } x"), "undefined variable `x`");
}

const SHAPES: &str = "
    struct Point { x: i32, y: i32 }
    enum Shape { Dot, Circle(i32), At(Point) }
    implement Point {
        fn sum(&self) -> i32 { self.x + self.y }
        pub fn origin() -> Self { Point { x: 0, y: 0 } }
    }
    const LIMIT: i32 = 3;
    interface Area { fn area(&self) -> i32; }
    use core::shapes;
";

fn with_shapes(source: &str) -> Result<HirProgram, String> {
    check(&format!("{} {}", SHAPES, source))
}

#[test]
fn definitions_are_declared() {
    let p = with_shapes("").unwrap();
    assert_eq!(p.structs.len(), 1);
    assert_eq!(p.structs[0].fields.len(), 2);
    assert_eq!(p.enums[0].variants.len(), 3);
    assert_eq!(p.constants, vec!["LIMIT"]);
    assert_eq!(p.impls[0].target, "Point");
    assert_eq!(p.impls[0].functions.len(), 2);
    assert!(matches!(p.impls[0].functions[1].return_type, Type::Struct(_)));
    assert_eq!(
        with_shapes("const BAD: bool = 1;").unwrap_err(),
        "type mismatch in the definition of `BAD`"
    );
}

#[test]
fn fields_and_methods_are_found() {
    assert!(with_shapes("fn f(p: Point) -> i32 { p.x + p.sum() }").is_ok());
    assert!(with_shapes("fn f() -> i32 { let p = Point::origin(); p.sum() }").is_ok());
    assert_eq!(
        with_shapes("fn f(p: Point) -> i32 { p.z }").unwrap_err(),
        "value has no field `z`"
    );
    assert_eq!(
        with_shapes("fn f() { let p = Point { x: 1, y: true }; }").unwrap_err(),
        "type mismatch in the field `y`"
    );
    assert_eq!(
        with_shapes("fn f() { let p = Point { z: 1 }; }").unwrap_err(),
        "struct `Point` has no field `z`"
    );
}

#[test]
fn variants_are_matched() {
    let source = "fn f(s: Shape) -> i32 {
        match s { Shape::Dot => 0, Shape::Circle(r) => r, _ => panic() }
    }";
    let p = with_shapes(source).unwrap();
    match &p.fns[0].params[0].ty {
        Type::Enum(name) => assert_eq!(name, "Shape"),
        other => panic!("{:?}", other),
    }
    assert!(with_shapes("fn f() -> Shape { Shape::Circle(1) }").is_ok());
    assert!(with_shapes("fn f() -> Shape { Circle(1) }").is_ok());
    assert!(with_shapes("fn f() -> Shape { Shape::Dot }").is_ok());
    let text = |s: &str| with_shapes(s).unwrap_err();
    assert_eq!(
        text("fn f() -> Shape { Shape::Circle(true) }"),
        "argument of the wrong type for `Circle`"
    );
    assert_eq!(text("fn f() -> Shape { Shape::Star }"), "unknown enum variant: Shape::Star");
    assert_eq!(
        text("fn f(s: Shape) -> i32 { match s { Shape::Star => 1, _ => 2 } }"),
        "pattern does not suit the value"
    );
    assert_eq!(
        text("fn f(s: Shape) -> i32 { match s { 1 => 1, _ => 2 } }"),
        "pattern does not suit the value"
    );
    assert!(with_shapes("fn f(p: Point) -> i32 { match p { Point { x, y } => x } }").is_ok());
    assert!(with_shapes("fn f(n: i32) -> bool { match n { 1 => true, _ => false } }").is_ok());
}

#[test]
fn a_range_stands_only_in_a_for() {
    assert_eq!(fault("0 .. 1; 1"), "type checking of this expression is not supported");
}

#[test]
fn types_are_compared_part_by_part() {
    let array = |n: &str| Type::Array(Box::new(Type::I32), n.to_string());
    assert!(same_type(&array("2"), &array("2")));
    assert!(!same_type(&array("2"), &array("3")));
    let tuple = |t: Type| Type::Tuple(vec![Type::Bool, t]);
    assert!(same_type(&tuple(Type::I8), &tuple(Type::I8)));
    assert!(!same_type(&tuple(Type::I8), &tuple(Type::U8)));
    assert!(!same_type(&Type::Tuple(vec![]), &Type::Tuple(vec![Type::I8])));
}
