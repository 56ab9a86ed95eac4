use dusk::diag::Span;
use dusk::parser::ast::{
    collect_block, collect_expr, Arm, Bind, Block, Expr, ExprKind, Lambda, Let, Match, Param,
    Pattern, Stmt, Type,
};

fn e(kind: ExprKind) -> Expr {
    Expr { kind, span: Span { lo: 0, hi: 0 } }
}

fn id(n: &str) -> Expr {
    e(ExprKind::Ident(n.to_string()))
}

#[test]
fn reads_are_listed_in_walk_order_with_repeats() {
    let call = e(ExprKind::Call(Box::new(id("f")), vec![id("a"), id("b"), id("a")]));
    let mut used = Vec::new();
    let mut bound = Vec::new();
    collect_expr(&call, &mut used, &mut bound);
    assert_eq!(used, vec!["f", "a", "b", "a"]);
    assert!(bound.is_empty());
}

#[test]
fn lambda_params_and_lets_bind_names() {
    let body = Block {
        stmts: vec![
            Stmt::Let(Let {
                mutable: false,
                is_ref: false,
                infer: true,
                binds: vec![Bind { name: "t".to_string(), ty: None }],
                value: id("x"),
            }),
            Stmt::Return(Some(e(ExprKind::Tuple(vec![id("t"), id("y")])))),
        ],
    };
    let lam = e(ExprKind::Lambda(Lambda {
        params: vec![Param { using: false, name: "x".to_string(), ty: Type::Unit }],
        ret: Type::Unit,
        body,
    }));
    let mut used = Vec::new();
    let mut bound = Vec::new();
    collect_expr(&lam, &mut used, &mut bound);
    assert_eq!(used, vec!["x", "t", "y"]);
    let mut b = bound.clone();
    b.sort();
    assert_eq!(b, vec!["t", "x"]);
    // `y` is read but never bound: it is captured from the enclosing scope.
    assert!(!bound.iter().any(|n| n == "y"));
}

#[test]
fn match_patterns_bind_and_names_stay_unique() {
    let m = Match {
        scrut: Box::new(id("v")),
        arms: vec![
            Arm {
                pat: Pattern::Variant("Some".to_string(), vec!["x".to_string()]),
                body: Block { stmts: vec![Stmt::Expr(id("x"))] },
            },
            Arm { pat: Pattern::Ident("x".to_string()), body: Block { stmts: vec![Stmt::Expr(id("z"))] } },
            Arm { pat: Pattern::Wildcard, body: Block { stmts: vec![] } },
        ],
    };
    let blk = Block { stmts: vec![Stmt::Match(m)] };
    let mut used = Vec::new();
    let mut bound = Vec::new();
    collect_block(&blk, &mut used, &mut bound);
    assert_eq!(used, vec!["v", "x", "z"]);
    assert_eq!(bound, vec!["x"]);
}
