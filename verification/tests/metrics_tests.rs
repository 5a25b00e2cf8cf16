use happ::ast::Arm;
use happ::ast::BinOpKind;
use happ::ast::Block;
use happ::ast::Expr;
use happ::ast::FnDef;
use happ::ast::Item;
use happ::ast::SourceFile;
use happ::ast::Stmt;
use happ::cyclomatic_complexity::compute_impl_method_cc;
use happ::cyclomatic_complexity::compute_itemfn_cc;
use happ::loc::compute_file_loc;
use happ::loc::compute_impl_method_loc;
use happ::loc::compute_itemfn_loc;
use happ::loc::parse_loc_from_token_stream;
use happ::loc::Span;
use happ::loc::Token;

fn bx(e: Expr) -> Box<Expr> {
    Box::new(e)
}

fn fndef(stmts: Vec<Stmt>) -> FnDef {
    FnDef { body: Block { stmts } }
}

/// A comparison such as `i == 1`: a non-short-circuit binary operator.
fn cmp() -> Expr {
    Expr::Binary { op: BinOpKind::Other, left: bx(Expr::Leaf), right: bx(Expr::Leaf) }
}

/// A `println!(...)` call statement.
fn print_stmt() -> Stmt {
    Stmt::ExprStmt(Expr::MacroCall)
}

/// A `let i = 1;` binding.
fn let_stmt() -> Stmt {
    Stmt::Local(Some(Expr::Leaf))
}

/// The body `{ println!("hello"); }`.
fn print_block() -> Block {
    Block { stmts: vec![print_stmt()] }
}

#[test]
fn test_if_expr() {
    // fn test_cc() { let i = 1; if i == 1 { println!("hello"); } }
    let f = fndef(vec![
        let_stmt(),
        Stmt::ExprStmt(Expr::If { cond: bx(cmp()), then_branch: print_block(), else_branch: None }),
    ]);
    assert_eq!(compute_itemfn_cc(&f), 2);
}

#[test]
fn test_if_else_expr() {
    // fn test_cc() { let i = 1; if i == 1 { println!("hello"); } else { println!("hello"); } }
    let f = fndef(vec![
        let_stmt(),
        Stmt::ExprStmt(Expr::If {
            cond: bx(cmp()),
            then_branch: print_block(),
            else_branch: Some(bx(Expr::BlockExpr(print_block()))),
        }),
    ]);
    assert_eq!(compute_itemfn_cc(&f), 2);
}

#[test]
fn test_for_expr() {
    // fn test_cc() { let i = 1; for i in 0..10 { println!("hello"); } }
    let f = fndef(vec![
        let_stmt(),
        Stmt::ExprStmt(Expr::ForLoop {
            iter: bx(Expr::Other(vec![Expr::Leaf, Expr::Leaf])),
            body: print_block(),
        }),
    ]);
    assert_eq!(compute_itemfn_cc(&f), 2);
}

#[test]
fn test_while_expr() {
    // fn test_cc() { let i = 1; while true { println!("hello"); } }
    let f = fndef(vec![
        let_stmt(),
        Stmt::ExprStmt(Expr::While { cond: bx(Expr::Leaf), body: print_block() }),
    ]);
    assert_eq!(compute_itemfn_cc(&f), 2);
}

#[test]
fn test_match_expr() {
    // fn test_cc() {                                  // +1
    //     let i = 1;
    //     match i {                                   // +1
    //         1 => println!("hello"),
    //         2 => println!("hello"),
    //         n if n > 10 => println!("hello"),       // +1
    //         n if n == 1 => println!("hello"),       // +1
    //     }
    // }
    let plain_arm = || Arm { guard: None, body: bx(Expr::MacroCall) };
    let guarded_arm = || Arm { guard: Some(bx(cmp())), body: bx(Expr::MacroCall) };
    let f = fndef(vec![
        let_stmt(),
        Stmt::ExprStmt(Expr::Match {
            scrutinee: bx(Expr::Leaf),
            arms: vec![plain_arm(), plain_arm(), guarded_arm(), guarded_arm()],
        }),
    ]);
    assert_eq!(compute_itemfn_cc(&f), 4);
}

#[test]
fn test_nesting_if_expr() {
    // fn test_cc() {                       // +1
    //     let i = 1;
    //     if i == 1 {                      // +1
    //         if i > 0 {                   // +1
    //             println!("hello");
    //         }
    //     }
    // }
    let inner = Expr::If { cond: bx(cmp()), then_branch: print_block(), else_branch: None };
    let f = fndef(vec![
        let_stmt(),
        Stmt::ExprStmt(Expr::If {
            cond: bx(cmp()),
            then_branch: Block { stmts: vec![Stmt::ExprStmt(inner)] },
            else_branch: None,
        }),
    ]);
    assert_eq!(compute_itemfn_cc(&f), 3);
}

#[test]
fn test_or_and_expr() {
    // fn test_cc() {                                  // +1
    //     let i = 1;
    //     if i != 10 && i > 0 {                       // +2
    //         println!("hello");
    //     }
    // }
    let cond = Expr::Binary { op: BinOpKind::LogicalAnd, left: bx(cmp()), right: bx(cmp()) };
    let f = fndef(vec![
        let_stmt(),
        Stmt::ExprStmt(Expr::If { cond: bx(cond), then_branch: print_block(), else_branch: None }),
    ]);
    assert_eq!(compute_itemfn_cc(&f), 3);
}

#[test]
fn test_if_expr_lloc() {
    // fn test_cc() { let i = 1; } — one for the unit, one for the binding.
    let f = fndef(vec![let_stmt()]);
    let tokens = single_line_tokens();
    let v = compute_itemfn_loc(&f, &tokens);
    assert_eq!(v.lloc, 2);
}

/// The token stream of a one-line unit: a few leaves and a braced group,
/// all on line 1.
fn single_line_tokens() -> Vec<Token> {
    let sp = Span { start: 1, end: 1 };
    vec![
        Token::Leaf(sp),
        Token::Leaf(sp),
        Token::Group(sp, vec![Token::Leaf(sp), Token::Leaf(sp), Token::Leaf(sp)]),
    ]
}

#[test]
fn single_statement_single_line_counts() {
    // A unit body `{ let i = 1; }` on one source line: logical count 2,
    // source count 1, and at least one physical line.
    let f = fndef(vec![let_stmt()]);
    let tokens = single_line_tokens();
    let v = compute_itemfn_loc(&f, &tokens);
    assert_eq!(v.lloc, 2);
    assert_eq!(v.start, 1);
    assert_eq!(v.end, 1);
    assert_eq!(v.sloc(), 1);
    assert_eq!(v.ploc(), 1);
}

#[test]
fn empty_token_stream_has_empty_span() {
    let v = parse_loc_from_token_stream(&Vec::new());
    assert_eq!(v.start, 0);
    assert_eq!(v.end, 0);
    assert_eq!(v.ploc(), 0);
    assert_eq!(v.lloc, 0);
}

#[test]
fn group_delimiter_lines_count_as_code() {
    // A group spanning lines 1..=3 whose only leaf sits on line 2: the
    // delimiter lines 1 and 3 still count as code.
    let tokens = vec![Token::Group(
        Span { start: 1, end: 3 },
        vec![Token::Leaf(Span { start: 2, end: 2 })],
    )];
    let v = parse_loc_from_token_stream(&tokens);
    assert_eq!(v.start, 1);
    assert_eq!(v.end, 3);
    assert_eq!(v.sloc(), 3);
    assert_eq!(v.ploc(), 3);
}

#[test]
fn physical_lines_never_exceed_source_lines() {
    // Leaves on lines 1 and 4 of a unit spanning 1..=4: two physical
    // lines over four source lines.
    let tokens = vec![
        Token::Leaf(Span { start: 1, end: 1 }),
        Token::Leaf(Span { start: 4, end: 4 }),
    ];
    let v = parse_loc_from_token_stream(&tokens);
    assert_eq!(v.sloc(), 4);
    assert_eq!(v.ploc(), 2);
    assert!(v.ploc() <= v.sloc());
}

#[test]
fn method_metrics_match_function_metrics() {
    let f = fndef(vec![
        let_stmt(),
        Stmt::ExprStmt(Expr::If { cond: bx(cmp()), then_branch: print_block(), else_branch: None }),
    ]);
    assert_eq!(compute_impl_method_cc(&f), compute_itemfn_cc(&f));
    let tokens = single_line_tokens();
    let vf = compute_itemfn_loc(&f, &tokens);
    let vm = compute_impl_method_loc(&f, &tokens);
    assert_eq!(vf.lloc, vm.lloc);
    assert_eq!(vf.start, vm.start);
    assert_eq!(vf.end, vm.end);
}

#[test]
fn file_lloc_counts_items() {
    // A file holding one function `fn f() { let i = 1; }`: one for the
    // file unit itself, one for the item, one for the binding.
    let file = SourceFile { items: vec![Item::Fn(fndef(vec![let_stmt()]))] };
    let tokens = single_line_tokens();
    let v = compute_file_loc(&file, &tokens);
    assert_eq!(v.lloc, 3);
}

#[test]
fn branch_free_function_has_complexity_one() {
    // Bindings, calls and a macro invocation, but no branching construct.
    let f = fndef(vec![
        let_stmt(),
        Stmt::Local(None),
        Stmt::ExprStmt(Expr::Call { func: bx(Expr::Leaf), args: vec![Expr::Leaf, Expr::Leaf] }),
        print_stmt(),
    ]);
    assert_eq!(compute_itemfn_cc(&f), 1);
}

#[test]
fn complexity_invariant_under_sibling_reordering() {
    let if_stmt = || {
        Stmt::ExprStmt(Expr::If { cond: bx(cmp()), then_branch: print_block(), else_branch: None })
    };
    let a = fndef(vec![let_stmt(), if_stmt(), print_stmt()]);
    let b = fndef(vec![print_stmt(), if_stmt(), let_stmt()]);
    assert!(compute_itemfn_cc(&a) >= 1);
    assert_eq!(compute_itemfn_cc(&a), compute_itemfn_cc(&b));
}

#[test]
fn adding_if_adds_exactly_one() {
    let base = || vec![let_stmt(), print_stmt()];
    let c0 = compute_itemfn_cc(&fndef(base()));

    let mut with_if = base();
    with_if.push(Stmt::ExprStmt(Expr::If {
        cond: bx(cmp()),
        then_branch: print_block(),
        else_branch: None,
    }));
    assert_eq!(compute_itemfn_cc(&fndef(with_if)), c0 + 1);

    let mut with_if_else = base();
    with_if_else.push(Stmt::ExprStmt(Expr::If {
        cond: bx(cmp()),
        then_branch: print_block(),
        else_branch: Some(bx(Expr::BlockExpr(print_block()))),
    }));
    assert_eq!(compute_itemfn_cc(&fndef(with_if_else)), c0 + 1);
}

#[test]
fn single_arm_match_contributes_nothing() {
    let one_arm = fndef(vec![Stmt::ExprStmt(Expr::Match {
        scrutinee: bx(Expr::Leaf),
        arms: vec![Arm { guard: None, body: bx(Expr::MacroCall) }],
    })]);
    assert_eq!(compute_itemfn_cc(&one_arm), 1);

    let two_arms = fndef(vec![Stmt::ExprStmt(Expr::Match {
        scrutinee: bx(Expr::Leaf),
        arms: vec![
            Arm { guard: None, body: bx(Expr::MacroCall) },
            Arm { guard: None, body: bx(Expr::MacroCall) },
        ],
    })]);
    assert_eq!(compute_itemfn_cc(&two_arms), 2);
}

#[test]
fn each_short_circuit_operator_counts_once() {
    // if (a && b) || c { ... }: one for the if, one per operator.
    let and = Expr::Binary { op: BinOpKind::LogicalAnd, left: bx(cmp()), right: bx(cmp()) };
    let or = Expr::Binary { op: BinOpKind::LogicalOr, left: bx(and), right: bx(cmp()) };
    let f = fndef(vec![Stmt::ExprStmt(Expr::If {
        cond: bx(or),
        then_branch: print_block(),
        else_branch: None,
    })]);
    assert_eq!(compute_itemfn_cc(&f), 4);
}

#[test]
fn nested_loops_count_their_nested_branches() {
    // for _ in xs { if c { println!(); } } — the nested if counts.
    let f = fndef(vec![Stmt::ExprStmt(Expr::ForLoop {
        iter: bx(Expr::Leaf),
        body: Block {
            stmts: vec![Stmt::ExprStmt(Expr::If {
                cond: bx(cmp()),
                then_branch: print_block(),
                else_branch: None,
            })],
        },
    })]);
    assert_eq!(compute_itemfn_cc(&f), 3);
}

#[test]
fn call_on_binding_counts_twice_in_lloc() {
    // `let x = foo();` counts once for the binding and once for the call.
    let f = fndef(vec![Stmt::Local(Some(Expr::Call { func: bx(Expr::Leaf), args: vec![] }))]);
    let tokens = single_line_tokens();
    let v = compute_itemfn_loc(&f, &tokens);
    assert_eq!(v.lloc, 3);
}
