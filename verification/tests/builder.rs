use boxlang_compiler::ast::{
    BinaryExpr, BinaryOp, Block, CallExpr, Expr, ForExpr, Function, Ident, IfExpr, LetStmt, Literal, MatchArm, MatchExpr,
    Pattern, RangeExpr, Stmt, Type, WhileExpr,
};
use boxlang_compiler::middle::mir::builder::MirBuilder;
use boxlang_compiler::middle::mir::{Rvalue, Statement, TerminatorKind};

fn func(params: Vec<(Ident, Type)>, stmts: Vec<Stmt>) -> Function {
    Function {
        name: Ident::new("test"),
        params,
        return_type: None,
        body: Block { stmts, span: 0..0 },
        is_async: false,
    }
}

fn lit_int(n: i64) -> Expr {
    Expr::Literal(Literal::Integer(n))
}

#[test]
fn test_build_simple_function() {
    let f = func(vec![], vec![]);
    let mut builder = MirBuilder::new(0, 0..0);
    let body = builder.build_function(&f);

    assert_eq!(body.local_decls.len(), 1); // Just return local
    assert_eq!(body.basic_blocks.len(), 1);
}

#[test]
fn test_empty_function_returns() {
    let f = func(vec![], vec![]);
    let mut builder = MirBuilder::default();
    let body = builder.build_function(&f);
    assert!(matches!(body.basic_blocks[0].terminator.as_ref().unwrap().kind, TerminatorKind::Return));
}

#[test]
fn test_params_name_argument_locals() {
    let f = func(vec![(Ident::new("a"), Type::Unit), (Ident::new("b"), Type::Never)], vec![]);
    let mut builder = MirBuilder::new(2, 0..0);
    let body = builder.build_function(&f);
    assert_eq!(body.local_decls.len(), 3);
    assert_eq!(body.local_decls[1].name.as_ref().unwrap().name, "a");
    assert_eq!(body.local_decls[2].name.as_ref().unwrap().name, "b");
    assert!(body.local_decls[1].is_arg && body.local_decls[2].is_arg);
    assert!(matches!(body.local_decls[2].ty, Type::Never));
}

#[test]
fn test_let_binary_lowers_to_assignments() {
    let init = Expr::Binary(BinaryExpr { op: BinaryOp::Add, left: Box::new(lit_int(1)), right: Box::new(lit_int(2)) });
    let f = func(vec![], vec![Stmt::Let(LetStmt { pattern: Pattern::Ident(Ident::new("x")), ty: None, init: Some(init) })]);
    let mut builder = MirBuilder::new(0, 0..0);
    let body = builder.build_function(&f);
    // _0 return, _1 x, _2 the sum.
    assert_eq!(body.local_decls.len(), 3);
    assert_eq!(body.local_decls[1].name.as_ref().unwrap().name, "x");
    let stmts = &body.basic_blocks[0].statements;
    assert_eq!(stmts.len(), 2);
    match &stmts[0] {
        Statement::Assign(p, Rvalue::BinaryOp(_, _, _)) => assert_eq!(p.local.0, 2),
        _ => panic!("expected the sum"),
    }
    match &stmts[1] {
        Statement::Assign(p, Rvalue::Use(_)) => assert_eq!(p.local.0, 1),
        _ => panic!("expected the binding"),
    }
}

#[test]
fn test_for_range_builds_three_blocks() {
    let range = Expr::Range(RangeExpr { start: Some(Box::new(lit_int(0))), end: Some(Box::new(lit_int(10))), inclusive: false });
    let body_block = Block { stmts: vec![], span: 0..0 };
    let for_expr = Expr::For(ForExpr { pattern: Pattern::Ident(Ident::new("k")), expr: Box::new(range), body: body_block });
    let f = func(vec![], vec![Stmt::Expr(for_expr)]);
    let mut builder = MirBuilder::new(0, 0..0);
    let body = builder.build_function(&f);
    assert_eq!(body.basic_blocks.len(), 4);
    assert_eq!(body.local_decls[1].name.as_ref().unwrap().name, "k");
    // Entry jumps to the condition block, which switches to the body or the end.
    assert!(matches!(body.basic_blocks[0].terminator.as_ref().unwrap().kind, TerminatorKind::Goto { target } if target.0 == 1));
    match &body.basic_blocks[1].terminator.as_ref().unwrap().kind {
        TerminatorKind::SwitchInt { targets, otherwise, .. } => {
            assert_eq!(targets.len(), 1);
            assert_eq!(targets[0].1 .0, 2);
            assert_eq!(otherwise.0, 3);
        }
        _ => panic!("expected a switch"),
    }
    assert!(matches!(body.basic_blocks[2].terminator.as_ref().unwrap().kind, TerminatorKind::Goto { target } if target.0 == 1));
    assert!(matches!(body.basic_blocks[3].terminator.as_ref().unwrap().kind, TerminatorKind::Return));
}

#[test]
fn test_while_and_if_blocks() {
    let w = Expr::While(WhileExpr { cond: Box::new(Expr::Literal(Literal::Bool(true))), body: Block { stmts: vec![], span: 0..0 } });
    let i = Expr::If(IfExpr { cond: Box::new(lit_int(1)), then_branch: Block { stmts: vec![], span: 0..0 }, else_branch: None });
    let f = func(vec![], vec![Stmt::Expr(w), Stmt::Expr(i)]);
    let mut builder = MirBuilder::new(0, 0..0);
    let body = builder.build_function(&f);
    assert_eq!(body.basic_blocks.len(), 7);
}

#[test]
fn test_call_and_match() {
    let call = Expr::Call(CallExpr { func: Box::new(Expr::Ident(Ident::new("f"))), args: vec![lit_int(3)] });
    let m = Expr::Match(MatchExpr {
        expr: Box::new(lit_int(2)),
        arms: vec![
            MatchArm { pattern: Pattern::Literal(Literal::Integer(2)), guard: None, body: lit_int(5) },
            MatchArm { pattern: Pattern::Wildcard, guard: None, body: lit_int(6) },
        ],
    });
    let f = func(vec![], vec![Stmt::Expr(call), Stmt::Expr(m)]);
    let mut builder = MirBuilder::new(0, 0..0);
    let body = builder.build_function(&f);
    // entry, after-call, end of match, two arms.
    assert_eq!(body.basic_blocks.len(), 5);
    assert!(matches!(body.basic_blocks[0].terminator.as_ref().unwrap().kind, TerminatorKind::Call { .. }));
    match &body.basic_blocks[1].terminator.as_ref().unwrap().kind {
        TerminatorKind::SwitchInt { targets, otherwise, .. } => {
            assert_eq!(targets.len(), 1);
            assert_eq!(targets[0].0, 2);
            assert_eq!(targets[0].1 .0, 3);
            assert_eq!(otherwise.0, 4);
        }
        _ => panic!("expected a switch"),
    }
}

#[test]
fn test_for_body_lets_are_lowered() {
    let inner = Stmt::Let(LetStmt {
        pattern: Pattern::Ident(Ident::new("acc")),
        ty: Some(Type::Unit),
        init: Some(lit_int(5)),
    });
    let body_block = Block { stmts: vec![inner], span: 0..0 };
    let iter = Expr::Ident(Ident::new("items"));
    let for_expr = Expr::For(ForExpr { pattern: Pattern::Ident(Ident::new("item")), expr: Box::new(iter), body: body_block });
    let f = func(vec![], vec![Stmt::Expr(for_expr)]);
    let mut builder = MirBuilder::new(0, 0..0);
    let body = builder.build_function(&f);
    let named: Vec<&str> = body.local_decls.iter().filter_map(|d| d.name.as_ref().map(|n| n.name.as_str())).collect();
    assert!(named.contains(&"acc"));
    let acc = body.local_decls.iter().find(|d| d.name.as_ref().map(|n| n.name == "acc").unwrap_or(false)).unwrap();
    assert!(matches!(acc.ty, Type::Unit));
}

#[test]
fn test_function_lets_get_their_locals() {
    let stmts = vec![
        Stmt::Let(LetStmt { pattern: Pattern::Ident(Ident::new("a")), ty: Some(Type::Never), init: None }),
        Stmt::Let(LetStmt { pattern: Pattern::Wildcard, ty: None, init: Some(lit_int(1)) }),
        Stmt::Let(LetStmt { pattern: Pattern::Ident(Ident::new("b")), ty: None, init: Some(lit_int(2)) }),
    ];
    let f = func(vec![], stmts);
    let mut builder = MirBuilder::new(0, 0..0);
    let body = builder.build_function(&f);
    assert_eq!(body.local_decls.len(), 4);
    assert_eq!(body.local_decls[1].name.as_ref().unwrap().name, "a");
    assert!(matches!(body.local_decls[1].ty, Type::Never));
    assert!(body.local_decls[2].name.is_none());
    assert_eq!(body.local_decls[3].name.as_ref().unwrap().name, "b");
}
