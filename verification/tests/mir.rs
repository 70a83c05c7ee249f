use xiyi_compiler::ast::{BinaryOp, IfKind, Literal, Pattern, Type};
use xiyi_compiler::hir::{
    HirBlock, HirCallArg, HirEnum, HirExpr, HirExprKind, HirField, HirFn, HirImpl, HirMatchArm,
    HirModel, HirProgram, HirStmt, HirStruct, HirVariant, IntrinsicDecl, IntrinsicFn,
};
use xiyi_compiler::intrinsic::SharedContext;
use xiyi_compiler::mir::{
    LocalKind, MirBlock, MirFn, MirOperand, MirPlace, MirProgram, MirRvalue, MirStmt,
    MirTerminator, SsaLocal,
};
use xiyi_compiler::state::MirBuilder;

fn program(fns: Vec<HirFn>) -> HirProgram {
    HirProgram {
        structs: vec![],
        enums: vec![],
        fns,
        models: vec![],
        impls: vec![],
        intrinsics: vec![],
        constants: vec![],
    }
}

fn function(name: &str, params: Vec<HirField>, return_type: Type, stmts: Vec<HirStmt>) -> HirFn {
    HirFn {
        name: name.to_string(),
        generic_params: vec![],
        params,
        return_type,
        body: HirBlock { stmts },
        is_forward: false,
        effects: vec![],
    }
}

fn field(name: &str, ty: Type) -> HirField {
    HirField { name: name.to_string(), ty }
}

fn num(n: i32) -> HirExpr {
    HirExpr { kind: HirExprKind::Literal(Literal::Int32(n)), ty: Type::I32 }
}

fn truth(b: bool) -> HirExpr {
    HirExpr { kind: HirExprKind::Literal(Literal::Bool(b)), ty: Type::Bool }
}

fn var(name: &str, ty: Type) -> HirExpr {
    HirExpr { kind: HirExprKind::Ident(name.to_string()), ty }
}

fn add(a: HirExpr, b: HirExpr) -> HirExpr {
    HirExpr {
        kind: HirExprKind::BinaryOp { op: BinaryOp::Add, left: Box::new(a), right: Box::new(b) },
        ty: Type::I32,
    }
}

fn call(name: &str, args: Vec<HirExpr>, ty: Type) -> HirExpr {
    HirExpr {
        kind: HirExprKind::Call {
            qualifier: None,
            func: name.to_string(),
            generic_args: vec![],
            args: args.into_iter().map(HirCallArg::Positional).collect(),
            is_method: false,
        },
        ty,
    }
}

fn binding(name: &str, init: HirExpr) -> HirStmt {
    HirStmt::Let { name: name.to_string(), ty: None, init, mutable: false, persist: false }
}

fn give(e: HirExpr) -> HirStmt {
    HirStmt::Return { expr: Some(e) }
}

fn discard(e: HirExpr) -> HirStmt {
    HirStmt::Expr { expr: e }
}

fn choice(cond: HirExpr, a: HirExpr, b: Option<HirExpr>, ty: Type) -> HirExpr {
    HirExpr {
        kind: HirExprKind::If {
            kind: IfKind::Normal,
            cond: Box::new(cond),
            then_expr: Box::new(a),
            else_expr: b.map(Box::new),
        },
        ty,
    }
}

fn matching(cond: HirExpr, arms: Vec<(Pattern, HirExpr)>, ty: Type) -> HirExpr {
    HirExpr {
        kind: HirExprKind::Match {
            cond: Box::new(cond),
            arms: arms.into_iter().map(|(pattern, expr)| HirMatchArm { pattern, expr }).collect(),
        },
        ty,
    }
}

fn built(stmts: Vec<HirStmt>) -> MirFn {
    let p = MirBuilder::build(&program(vec![function("main", vec![], Type::I32, stmts)])).unwrap();
    p.fns.into_iter().next().unwrap()
}

fn refused(stmts: Vec<HirStmt>) -> String {
    MirBuilder::build(&program(vec![function("main", vec![], Type::I32, stmts)])).unwrap_err()
}

fn ssa(base_id: usize, version: u32) -> SsaLocal {
    SsaLocal { base_id, version }
}

fn assigned(s: &MirStmt) -> Option<SsaLocal> {
    match s {
        MirStmt::Assign { dest: MirPlace::Ssa(s), .. } => Some(*s),
        _ => None,
    }
}

fn dropped(b: &MirBlock) -> Vec<SsaLocal> {
    b.stmts
        .iter()
        .filter_map(|s| match s {
            MirStmt::Drop(MirPlace::Ssa(s)) => Some(*s),
            _ => None,
        })
        .collect()
}

fn targets(t: &MirTerminator) -> Vec<usize> {
    match t {
        MirTerminator::Goto(b) => vec![*b],
        MirTerminator::If { then_block, else_block, .. } => vec![*then_block, *else_block],
        MirTerminator::Switch { targets, default, .. } => {
            let mut all: Vec<usize> = targets.iter().map(|t| t.1).collect();
            all.push(*default);
            all
        }
        _ => vec![],
    }
}

fn place_locals(p: &MirPlace, out: &mut Vec<usize>) {
    match p {
        MirPlace::Ssa(s) => out.push(s.base_id),
        MirPlace::Static(_) => {}
        MirPlace::Field { base, .. } => place_locals(base, out),
        MirPlace::Index { base, index } => {
            place_locals(base, out);
            operand_locals(index, out);
        }
        MirPlace::EnumPayload { base, .. } => place_locals(base, out),
    }
}

fn operand_locals(op: &MirOperand, out: &mut Vec<usize>) {
    match op {
        MirOperand::Move(p) | MirOperand::Copy(p) => place_locals(p, out),
        MirOperand::Constant(_) => {}
    }
}

fn rvalue_locals(v: &MirRvalue, out: &mut Vec<usize>) {
    match v {
        MirRvalue::Use(op) | MirRvalue::UnaryOp(_, op) | MirRvalue::Cast(op, _) => {
            operand_locals(op, out)
        }
        MirRvalue::BinaryOp(_, l, r) => {
            operand_locals(l, out);
            operand_locals(r, out);
        }
        MirRvalue::Call { args, .. }
        | MirRvalue::EnumVariantConstruction { args, .. }
        | MirRvalue::ArrayLiteral(args) => args.iter().for_each(|a| operand_locals(a, out)),
        MirRvalue::MethodCall { receiver, args, .. } => {
            operand_locals(receiver, out);
            args.iter().for_each(|a| operand_locals(a, out));
        }
        MirRvalue::StructInit { fields, .. } => {
            fields.iter().for_each(|f| operand_locals(&f.1, out))
        }
        MirRvalue::Discriminant { value, .. } => operand_locals(value, out),
        MirRvalue::Phi { values } => values.iter().for_each(|v| operand_locals(&v.1, out)),
    }
}

fn block_locals(b: &MirBlock) -> Vec<usize> {
    let mut out = vec![];
    for s in &b.stmts {
        match s {
            MirStmt::Assign { dest, value } => {
                place_locals(dest, &mut out);
                rvalue_locals(value, &mut out);
            }
            MirStmt::ExprStmt(value) => rvalue_locals(value, &mut out),
            MirStmt::Drop(p) => place_locals(p, &mut out),
            MirStmt::EffectCheck { .. } => {}
        }
    }
    match &b.terminator {
        MirTerminator::Return(Some(op)) => operand_locals(op, &mut out),
        MirTerminator::If { cond, .. } => operand_locals(cond, &mut out),
        MirTerminator::Switch { discr, .. } => operand_locals(discr, &mut out),
        _ => {}
    }
    out
}

fn check_order(f: &MirFn) {
    let mut assigns = vec![];
    let mut drops = vec![];
    for b in &f.body.blocks {
        for t in targets(&b.terminator) {
            assert!(t < f.body.blocks.len());
        }
        for x in block_locals(b) {
            assert!(x < f.body.locals.len());
        }
        for s in &b.stmts {
            if let Some(x) = assigned(s) {
                assert!(!assigns.contains(&x));
                assigns.push(x);
            }
        }
        for x in dropped(b) {
            assert!(!drops.contains(&x));
            drops.push(x);
        }
    }
}

#[test]
fn a_variable_is_assigned_and_returned() {
    let f = built(vec![binding("x", num(10)), give(var("x", Type::I32))]);
    assert_eq!(f.body.locals.len(), 1);
    assert_eq!(f.body.locals[0].name, Some("x".to_string()));
    assert_eq!(f.body.locals[0].kind, LocalKind::Var);
    assert_eq!(f.body.blocks.len(), 1);
    let b = &f.body.blocks[0];
    assert_eq!(b.stmts.len(), 1);
    assert_eq!(assigned(&b.stmts[0]), Some(ssa(0, 1)));
    assert!(matches!(
        &b.terminator,
        MirTerminator::Return(Some(MirOperand::Move(MirPlace::Ssa(s)))) if *s == ssa(0, 1)
    ));
}

#[test]
fn a_variable_that_stays_is_dropped() {
    let f = built(vec![binding("x", num(10)), give(num(0))]);
    assert_eq!(dropped(&f.body.blocks[0]), vec![ssa(0, 1)]);
    let f = built(vec![binding("x", num(10))]);
    assert_eq!(dropped(&f.body.blocks[0]), vec![ssa(0, 1)]);
    assert!(matches!(f.body.blocks[0].terminator, MirTerminator::Return(None)));
}

#[test]
fn drops_run_backwards() {
    let f = built(vec![binding("a", num(1)), binding("b", num(2)), give(num(0))]);
    assert_eq!(dropped(&f.body.blocks[0]), vec![ssa(1, 1), ssa(0, 1)]);
}

#[test]
fn a_value_that_was_moved_is_not_dropped() {
    let f = built(vec![
        binding("a", num(1)),
        binding("b", var("a", Type::I32)),
        give(num(0)),
    ]);
    assert_eq!(dropped(&f.body.blocks[0]), vec![ssa(1, 1)]);
    check_order(&f);
}

#[test]
fn persistent_variables_are_not_dropped() {
    let f = built(vec![HirStmt::Let {
        name: "x".to_string(),
        ty: Some(Type::I32),
        init: num(1),
        mutable: true,
        persist: true,
    }]);
    assert_eq!(f.body.locals[0].kind, LocalKind::Persist);
    assert!(f.body.locals[0].mutable);
    assert_eq!(dropped(&f.body.blocks[0]), vec![]);
}

#[test]
fn parameters_are_locals() {
    let f = function(
        "id",
        vec![field("x", Type::I32)],
        Type::I32,
        vec![give(var("x", Type::I32))],
    );
    let p = MirBuilder::build(&program(vec![f])).unwrap();
    let f = &p.fns[0];
    assert_eq!(f.params.len(), 1);
    assert_eq!(f.body.locals[0].kind, LocalKind::Param);
    assert!(matches!(
        &f.body.blocks[0].terminator,
        MirTerminator::Return(Some(MirOperand::Move(MirPlace::Ssa(s)))) if *s == ssa(0, 0)
    ));
}

#[test]
fn operands_go_to_locals_of_their_own() {
    let f = built(vec![give(add(add(num(1), num(2)), num(3)))]);
    let b = &f.body.blocks[0];
    assert_eq!(f.body.locals.len(), 2);
    assert_eq!(f.body.locals[0].kind, LocalKind::Temp);
    assert_eq!(b.stmts.len(), 2);
    assert!(matches!(
        &b.stmts[1],
        MirStmt::Assign {
            value: MirRvalue::BinaryOp(
                BinaryOp::Add,
                MirOperand::Move(MirPlace::Ssa(_)),
                MirOperand::Constant(Literal::Int32(3))
            ),
            ..
        }
    ));
    check_order(&f);
}

#[test]
fn an_assignment_makes_a_new_version() {
    let f = built(vec![
        binding("x", num(1)),
        HirStmt::Assign { target: var("x", Type::I32), expr: num(2) },
        give(var("x", Type::I32)),
    ]);
    let b = &f.body.blocks[0];
    assert_eq!(assigned(&b.stmts[0]), Some(ssa(0, 1)));
    assert_eq!(assigned(&b.stmts[1]), Some(ssa(0, 2)));
    assert!(matches!(
        &b.terminator,
        MirTerminator::Return(Some(MirOperand::Move(MirPlace::Ssa(s)))) if *s == ssa(0, 2)
    ));
    check_order(&f);
}

#[test]
fn branches_join_in_a_phi() {
    let f = built(vec![give(choice(truth(true), num(1), Some(num(2)), Type::I32))]);
    assert_eq!(f.body.blocks.len(), 4);
    assert_eq!(targets(&f.body.blocks[0].terminator), vec![1, 2]);
    assert_eq!(targets(&f.body.blocks[1].terminator), vec![3]);
    assert_eq!(targets(&f.body.blocks[2].terminator), vec![3]);
    match &f.body.blocks[3].stmts[0] {
        MirStmt::Assign { dest: MirPlace::Ssa(d), value: MirRvalue::Phi { values } } => {
            assert_eq!(*d, ssa(0, 3));
            assert_eq!(values.iter().map(|v| v.0).collect::<Vec<_>>(), vec![1, 2]);
        }
        other => panic!("{:?}", other),
    }
    check_order(&f);
}

#[test]
fn a_missing_else_gives_the_empty_value() {
    let f = built(vec![discard(choice(truth(true), num(1), None, Type::Unit))]);
    assert!(matches!(
        &f.body.blocks[2].stmts[0],
        MirStmt::Assign {
            value: MirRvalue::Use(MirOperand::Constant(Literal::Unit)),
            ..
        }
    ));
}

#[test]
fn a_call_that_never_returns_ends_the_block() {
    let f = built(vec![discard(call("stop", vec![], Type::Never)), give(num(1))]);
    assert_eq!(f.body.blocks.len(), 1);
    assert_eq!(f.body.blocks[0].stmts.len(), 1);
    assert!(matches!(f.body.blocks[0].terminator, MirTerminator::Unreachable));
}

#[test]
fn a_branch_that_never_returns_joins_nothing() {
    let stop = call("stop", vec![], Type::Never);
    let f = built(vec![give(choice(truth(true), num(1), Some(stop), Type::I32))]);
    assert!(matches!(f.body.blocks[2].terminator, MirTerminator::Unreachable));
    match &f.body.blocks[3].stmts[0] {
        MirStmt::Assign { value: MirRvalue::Phi { values }, .. } => assert_eq!(values.len(), 1),
        other => panic!("{:?}", other),
    }
}

#[test]
fn branches_that_never_return_diverge_together() {
    let a = call("stop", vec![], Type::Never);
    let b = call("stop", vec![], Type::Never);
    let f = built(vec![
        discard(choice(truth(true), a, Some(b), Type::Never)),
        discard(call("later", vec![], Type::Unit)),
    ]);
    assert!(matches!(f.body.blocks[1].terminator, MirTerminator::Unreachable));
    assert!(matches!(f.body.blocks[2].terminator, MirTerminator::Unreachable));
    assert_eq!(f.body.blocks[2].stmts.len(), 1);
    assert_eq!(f.body.blocks[3].stmts.len(), 0);
}

#[test]
fn a_while_loop_tests_before_each_round() {
    let f = built(vec![
        HirStmt::While { cond: truth(true), body: HirBlock { stmts: vec![binding("x", num(1))] } },
        give(num(0)),
    ]);
    assert_eq!(f.body.blocks.len(), 4);
    assert_eq!(targets(&f.body.blocks[0].terminator), vec![1]);
    assert_eq!(targets(&f.body.blocks[1].terminator), vec![2, 3]);
    assert_eq!(targets(&f.body.blocks[2].terminator), vec![1]);
    assert_eq!(dropped(&f.body.blocks[2]), vec![ssa(0, 1)]);
    assert!(matches!(f.body.blocks[3].terminator, MirTerminator::Return(Some(_))));
}

#[test]
fn break_leaves_the_innermost_loop() {
    let inner = HirStmt::Loop {
        body: HirBlock { stmts: vec![binding("y", num(2)), HirStmt::Break] },
    };
    let f = built(vec![
        HirStmt::Loop {
            body: HirBlock { stmts: vec![binding("x", num(1)), inner, HirStmt::Break] },
        },
        give(num(0)),
    ]);
    let outer_end = targets(&f.body.blocks[0].terminator)[0] + 1;
    assert_eq!(outer_end, 2);
    assert_eq!(targets(&f.body.blocks[3].terminator), vec![4]);
    assert_eq!(dropped(&f.body.blocks[3]), vec![ssa(1, 1)]);
    assert_eq!(targets(&f.body.blocks[4].terminator), vec![2]);
    assert_eq!(dropped(&f.body.blocks[4]), vec![ssa(0, 1)]);
    check_order(&f);
}

#[test]
fn break_outside_of_a_loop_is_refused() {
    assert!(refused(vec![HirStmt::Break]).starts_with("internal error: HirStmt::Break"));
}

#[test]
fn a_loop_that_fails_is_left() {
    let p = program(vec![]);
    let shared = SharedContext::new(&p);
    let bad = || HirBlock { stmts: vec![give(var("nowhere", Type::I32))] };
    let mut b = MirBuilder::new(false);
    assert!(b.build_stmt(&HirStmt::Loop { body: bad() }, &shared).is_err());
    assert!(b.loop_stack.is_empty());
    let mut b = MirBuilder::new(false);
    assert!(b.build_stmt(&HirStmt::While { cond: truth(true), body: bad() }, &shared).is_err());
    assert!(b.loop_stack.is_empty());
}

#[test]
fn for_has_to_be_gone() {
    let e = refused(vec![HirStmt::For {
        var: "i".to_string(),
        iterable: num(1),
        body: HirBlock { stmts: vec![] },
    }]);
    assert!(e.starts_with("internal error: HirStmt::For"));
}

#[test]
fn what_cannot_be_lowered_is_refused() {
    let closure = HirExpr {
        kind: HirExprKind::Closure { param: "x".to_string(), body: Box::new(num(1)) },
        ty: Type::Unit,
    };
    assert!(refused(vec![discard(closure)]).starts_with("MIR lowering for Closure"));
    let range = HirExpr {
        kind: HirExprKind::Range { start: Box::new(num(1)), end: Box::new(num(2)) },
        ty: Type::Unit,
    };
    assert!(refused(vec![discard(range)]).starts_with("MIR lowering for bare Range"));
}

#[test]
fn unknown_variables_are_refused() {
    assert!(refused(vec![give(var("x", Type::I32))]).contains("x"));
}

#[test]
fn inner_names_hide_outer_ones() {
    let inner = HirExpr {
        kind: HirExprKind::Block(HirBlock { stmts: vec![binding("x", num(2))] }),
        ty: Type::Unit,
    };
    let f = built(vec![binding("x", num(1)), discard(inner), give(var("x", Type::I32))]);
    assert!(matches!(
        &f.body.blocks[0].terminator,
        MirTerminator::Return(Some(MirOperand::Move(MirPlace::Ssa(s)))) if *s == ssa(0, 1)
    ));
    assert_eq!(dropped(&f.body.blocks[0]), vec![ssa(1, 1)]);
}

fn shapes() -> HirProgram {
    let mut p = program(vec![]);
    p.enums.push(HirEnum {
        name: "Shape".to_string(),
        generic_params: vec![],
        variants: vec![
            HirVariant { name: "Dot".to_string(), ty: None },
            HirVariant { name: "Round".to_string(), ty: Some(Type::I32) },
        ],
    });
    p.structs.push(HirStruct {
        name: "Pair".to_string(),
        generic_params: vec![],
        fields: vec![field("a", Type::I32), field("b", Type::Bool)],
    });
    p
}

fn with_main(mut p: HirProgram, params: Vec<HirField>, stmts: Vec<HirStmt>) -> HirProgram {
    p.fns.push(function("main", params, Type::I32, stmts));
    p
}

fn shape() -> Type {
    Type::Enum("Shape".to_string())
}

fn variant(name: &str) -> Pattern {
    Pattern::EnumVariant { enum_name: "Shape".to_string(), variant_name: name.to_string() }
}

fn bound(name: &str, binding: &str) -> Pattern {
    Pattern::EnumVariantWithBinding {
        enum_name: "Shape".to_string(),
        variant_name: name.to_string(),
        binding: binding.to_string(),
    }
}

#[test]
fn a_match_on_variants_is_a_switch() {
    let e = matching(
        var("s", shape()),
        vec![(variant("Dot"), num(0)), (bound("Round", "r"), var("r", Type::I32))],
        Type::I32,
    );
    let p = with_main(shapes(), vec![field("s", shape())], vec![give(e)]);
    let out = MirBuilder::build(&p).unwrap();
    let f = &out.fns[0];
    match &f.body.blocks[0].terminator {
        MirTerminator::Switch { discr_ty: Type::I64, targets, default, .. } => {
            assert_eq!(targets.len(), 2);
            assert!(matches!(targets[0], (Literal::Int64(0), 2)));
            assert!(matches!(targets[1], (Literal::Int64(1), 3)));
            assert_eq!(*default, 4);
        }
        other => panic!("{:?}", other),
    }
    assert!(f.body.blocks[0].stmts.iter().any(|s| matches!(
        s,
        MirStmt::Assign { value: MirRvalue::Discriminant { .. }, .. }
    )));
    assert!(matches!(
        &f.body.blocks[3].stmts[0],
        MirStmt::Assign {
            value: MirRvalue::Use(MirOperand::Move(MirPlace::EnumPayload { .. })),
            ..
        }
    ));
    check_order(f);
    assert!(dropped(&f.body.blocks[1]).is_empty());
    assert_eq!(out.enums.len(), 1);
    assert_eq!(out.structs.len(), 1);
    assert_eq!(out.structs[0].fields.len(), 2);
}

#[test]
fn the_value_of_a_match_is_dropped_unless_it_was_taken_apart() {
    let e = matching(
        var("s", shape()),
        vec![(variant("Dot"), num(0)), (Pattern::Wildcard, num(1))],
        Type::I32,
    );
    let p = with_main(shapes(), vec![field("s", shape())], vec![give(e)]);
    let out = MirBuilder::build(&p).unwrap();
    let f = &out.fns[0];
    assert_eq!(dropped(&f.body.blocks[1]), vec![ssa(1, 1)]);
    assert!(matches!(f.body.blocks[1].terminator, MirTerminator::Return(Some(_))));
    check_order(f);
}

#[test]
fn variants_have_to_exist() {
    let e = matching(var("s", shape()), vec![(variant("Square"), num(0))], Type::I32);
    let p = with_main(shapes(), vec![field("s", shape())], vec![give(e)]);
    assert_eq!(MirBuilder::build(&p).unwrap_err(), "unknown enum variant: Shape::Square");
}

#[test]
fn a_variant_without_a_value_binds_none() {
    let e = matching(var("s", shape()), vec![(bound("Dot", "d"), num(0))], Type::I32);
    let p = with_main(shapes(), vec![field("s", shape())], vec![give(e)]);
    assert_eq!(
        MirBuilder::build(&p).unwrap_err(),
        "variant `Dot` has no payload but pattern binds `d`"
    );
}

#[test]
fn a_variant_by_its_bare_name_is_constructed() {
    let p = with_main(
        shapes(),
        vec![],
        vec![binding("s", call("Round", vec![num(3)], shape())), give(num(0))],
    );
    let out = MirBuilder::build(&p).unwrap();
    match &out.fns[0].body.blocks[0].stmts[0] {
        MirStmt::Assign {
            value: MirRvalue::EnumVariantConstruction { enum_name, variant_name, args, .. },
            ..
        } => {
            assert_eq!(enum_name, "Shape");
            assert_eq!(variant_name, "Round");
            assert_eq!(args.len(), 1);
        }
        other => panic!("{:?}", other),
    }
}

#[test]
fn a_match_on_numbers_needs_a_wildcard() {
    let arms = vec![(Pattern::IntLiteral(1), num(10)), (Pattern::Wildcard, num(20))];
    let f = built(vec![give(matching(num(5), arms, Type::I32))]);
    match &f.body.blocks[0].terminator {
        MirTerminator::Switch { discr_ty: Type::I32, targets, default, .. } => {
            assert!(matches!(targets[0], (Literal::Int32(1), 2)));
            assert_eq!(*default, 3);
        }
        other => panic!("{:?}", other),
    }
    check_order(&f);
    let arms = vec![(Pattern::IntLiteral(1), num(10))];
    assert!(refused(vec![give(matching(num(5), arms, Type::I32))]).contains("Wildcard"));
}

#[test]
fn patterns_have_to_suit_the_value() {
    let arms = vec![(variant("Dot"), num(10)), (Pattern::Wildcard, num(20))];
    let e = refused(vec![give(matching(num(5), arms, Type::I32))]);
    assert!(e.contains("EnumVariant { enum_name: \"Shape\", variant_name: \"Dot\" }"));
    let arms = vec![(Pattern::IntLiteral(300), num(1)), (Pattern::Wildcard, num(2))];
    let byte = HirExpr { kind: HirExprKind::Literal(Literal::Uint8(1)), ty: Type::U8 };
    assert!(refused(vec![give(matching(byte, arms, Type::I32))]).contains("300"));
}

#[test]
fn a_structure_is_taken_apart() {
    let pair = Type::Struct("Pair".to_string());
    let pattern = Pattern::Struct {
        name: "Pair".to_string(),
        fields: vec![("a".to_string(), "x".to_string())],
    };
    let e = matching(
        var("p", pair),
        vec![(pattern, var("x", Type::I32))],
        Type::I32,
    );
    let p = with_main(
        shapes(),
        vec![field("p", Type::Struct("Pair".to_string()))],
        vec![give(e)],
    );
    let out = MirBuilder::build(&p).unwrap();
    let f = &out.fns[0];
    assert_eq!(f.body.blocks.len(), 1);
    assert!(f.body.blocks[0].stmts.iter().any(|s| matches!(
        s,
        MirStmt::Assign {
            value: MirRvalue::Use(MirOperand::Move(MirPlace::Field { field, .. })),
            ..
        } if field == "a"
    )));
}

#[test]
fn a_structure_has_one_arm() {
    let pair = || Type::Struct("Pair".to_string());
    let e = matching(
        var("p", pair()),
        vec![(Pattern::Wildcard, num(1)), (Pattern::Wildcard, num(2))],
        Type::I32,
    );
    let p = with_main(shapes(), vec![field("p", pair())], vec![give(e)]);
    assert!(MirBuilder::build(&p).unwrap_err().contains("实际有 2 条"));
    let pattern = Pattern::Struct {
        name: "Pair".to_string(),
        fields: vec![("c".to_string(), "x".to_string())],
    };
    let e = matching(var("p", pair()), vec![(pattern, num(1))], Type::I32);
    let p = with_main(shapes(), vec![field("p", pair())], vec![give(e)]);
    assert_eq!(MirBuilder::build(&p).unwrap_err(), "struct `Pair` has no field `c`");
}

#[test]
fn tuples_and_arrays_are_taken_apart() {
    let tuple = Type::Tuple(vec![Type::I32, Type::Bool]);
    let e = matching(
        var("t", tuple),
        vec![(Pattern::Tuple(vec![None, Some("b".to_string())]), num(1))],
        Type::I32,
    );
    let p = with_main(
        shapes(),
        vec![field("t", Type::Tuple(vec![Type::I32, Type::Bool]))],
        vec![give(e)],
    );
    let out = MirBuilder::build(&p).unwrap();
    assert!(out.fns[0].body.blocks[0].stmts.iter().any(|s| matches!(
        s,
        MirStmt::Assign {
            value: MirRvalue::Use(MirOperand::Move(MirPlace::Field { field, .. })),
            ..
        } if field == "1"
    )));
    let array = || Type::Array(Box::new(Type::I32), "2".to_string());
    let e = matching(
        var("t", array()),
        vec![(Pattern::Array(vec![Some("a".to_string()), None]), num(1))],
        Type::I32,
    );
    let p = with_main(shapes(), vec![field("t", array())], vec![give(e)]);
    let out = MirBuilder::build(&p).unwrap();
    assert!(out.fns[0].body.blocks[0].stmts.iter().any(|s| matches!(
        s,
        MirStmt::Assign {
            value: MirRvalue::Use(MirOperand::Move(MirPlace::Index { .. })),
            ..
        }
    )));
}

fn builtin(name: &str, id: u32) -> IntrinsicDecl {
    IntrinsicDecl {
        name: name.to_string(),
        id: IntrinsicFn(id),
        unsafe_only: false,
        forward_only: false,
        never_returns: false,
    }
}

#[test]
fn built_in_functions_are_listed_once_in_order() {
    let mut p = program(vec![function(
        "main",
        vec![],
        Type::Unit,
        vec![
            discard(call("print", vec![num(1)], Type::Unit)),
            discard(call("abs", vec![num(1)], Type::I32)),
            discard(call("print", vec![num(2)], Type::Unit)),
            discard(call("own", vec![], Type::Unit)),
        ],
    )]);
    p.intrinsics = vec![builtin("abs", 3), builtin("print", 7), builtin("idle", 5)];
    let out: MirProgram = MirBuilder::build(&p).unwrap();
    assert_eq!(out.intrinsics_used, vec![IntrinsicFn(3), IntrinsicFn(7)]);
    let found = MirBuilder::collect_intrinsics_in_body(&out.fns[0].body);
    assert_eq!(found, vec![IntrinsicFn(7), IntrinsicFn(3), IntrinsicFn(7)]);
    match &out.fns[0].body.blocks[0].stmts[3] {
        MirStmt::ExprStmt(MirRvalue::Call { is_intrinsic, intrinsic_name, .. }) => {
            assert!(!*is_intrinsic);
            assert_eq!(*intrinsic_name, None);
        }
        other => panic!("{:?}", other),
    }
}

#[test]
fn some_built_in_functions_need_unsafe() {
    let mut p = program(vec![function(
        "main",
        vec![],
        Type::Unit,
        vec![discard(call("poke", vec![], Type::Unit))],
    )]);
    let mut d = builtin("poke", 1);
    d.unsafe_only = true;
    p.intrinsics = vec![d];
    assert_eq!(
        MirBuilder::build(&p).unwrap_err(),
        "intrinsic `poke` requires an unsafe block"
    );
    p.fns[0].body = HirBlock {
        stmts: vec![HirStmt::UnsafeBlock {
            body: HirBlock { stmts: vec![discard(call("poke", vec![], Type::Unit))] },
        }],
    };
    let out = MirBuilder::build(&p).unwrap();
    assert!(matches!(
        &out.fns[0].body.blocks[0].stmts[0],
        MirStmt::EffectCheck { effect } if effect == "unsafe"
    ));
}

#[test]
fn some_built_in_functions_need_forward() {
    let mut p = program(vec![function(
        "main",
        vec![],
        Type::Unit,
        vec![discard(call("grad", vec![], Type::Unit))],
    )]);
    let mut d = builtin("grad", 1);
    d.forward_only = true;
    p.intrinsics = vec![d];
    assert!(MirBuilder::build(&p).is_err());
    p.fns[0].is_forward = true;
    assert!(MirBuilder::build(&p).is_ok());
}

#[test]
fn constants_are_read_where_they_are() {
    let mut p = program(vec![function(
        "main",
        vec![],
        Type::Unit,
        vec![give(call("LIMIT", vec![], Type::I32))],
    )]);
    p.constants = vec!["LIMIT".to_string()];
    let out = MirBuilder::build(&p).unwrap();
    assert!(matches!(
        &out.fns[0].body.blocks[0].terminator,
        MirTerminator::Return(Some(MirOperand::Move(MirPlace::Static(name)))) if name == "LIMIT"
    ));
}

#[test]
fn functions_of_models_and_types_follow_the_free_ones() {
    let mut p = program(vec![function("a", vec![], Type::Unit, vec![])]);
    p.impls.push(HirImpl {
        target: "T".to_string(),
        functions: vec![function("c", vec![], Type::Unit, vec![])],
    });
    p.models.push(HirModel {
        name: "M".to_string(),
        functions: vec![function("b", vec![], Type::Unit, vec![])],
    });
    let out = MirBuilder::build(&p).unwrap();
    let names: Vec<&str> = out.fns.iter().map(|f| f.name.as_str()).collect();
    assert_eq!(names, vec!["a", "b", "c"]);
}

#[test]
fn method_calls_have_a_receiver() {
    let method = |args: Vec<HirExpr>| HirExpr {
        kind: HirExprKind::Call {
            qualifier: None,
            func: "len".to_string(),
            generic_args: vec![],
            args: args.into_iter().map(HirCallArg::Positional).collect(),
            is_method: true,
        },
        ty: Type::I32,
    };
    assert_eq!(refused(vec![discard(method(vec![]))]), "method call requires a receiver");
    let f = built(vec![discard(method(vec![num(1), num(2)]))]);
    match &f.body.blocks[0].stmts[0] {
        MirStmt::ExprStmt(MirRvalue::MethodCall { receiver, method, args, .. }) => {
            assert!(matches!(receiver, MirOperand::Constant(Literal::Int32(1))));
            assert_eq!(method, "len");
            assert_eq!(args.len(), 1);
        }
        other => panic!("{:?}", other),
    }
}
