//! The complexity visitor.
//!
//! A unit's cyclomatic complexity is one for the entry path plus one per
//! decision point found anywhere in its subtree: each `if`, `for` loop,
//! `while` loop, multi-arm `match`, guarded match arm, and short-circuit
//! boolean operator. Every other node kind contributes nothing; children
//! are always traversed.
use vstd::prelude::*;

use crate::ast::Arm;
use crate::ast::BinOpKind;
use crate::ast::Block;
use crate::ast::Expr;
use crate::ast::FnDef;
use crate::ast::Item;
use crate::ast::Stmt;

verus! {

/// Complexity contributed by an optional sub-expression.
pub open spec fn cc_opt(o: Option<Box<Expr>>) -> nat
    decreases o,
{
    match o {
        Some(e) => cc_expr(*e),
        None => 0,
    }
}

/// Complexity contributed by one expression and its whole subtree.
pub open spec fn cc_expr(e: Expr) -> nat
    decreases e,
{
    match e {
        Expr::If { cond, then_branch, else_branch } => 1 + cc_expr(*cond) + cc_block(then_branch)
            + cc_opt(else_branch),
        Expr::While { cond, body } => 1 + cc_expr(*cond) + cc_block(body),
        Expr::ForLoop { iter, body } => 1 + cc_expr(*iter) + cc_block(body),
        Expr::Loop { body } => cc_block(body),
        Expr::Match { scrutinee, arms } => (if arms@.len() > 1 {
            1nat
        } else {
            0nat
        }) + cc_expr(*scrutinee) + cc_arms(arms@),
        Expr::Binary { op, left, right } => (match op {
            BinOpKind::LogicalAnd => 1nat,
            BinOpKind::LogicalOr => 1nat,
            BinOpKind::Other => 0nat,
        }) + cc_expr(*left) + cc_expr(*right),
        Expr::Assign { left, right } => cc_expr(*left) + cc_expr(*right),
        Expr::AssignOp { left, right } => cc_expr(*left) + cc_expr(*right),
        Expr::Call { func, args } => cc_expr(*func) + cc_exprs(args@),
        Expr::MethodCall { receiver, args } => cc_expr(*receiver) + cc_exprs(args@),
        Expr::MacroCall => 0,
        Expr::Continue => 0,
        Expr::Break(inner) => cc_opt(inner),
        Expr::Return(inner) => cc_opt(inner),
        Expr::Yield(inner) => cc_opt(inner),
        Expr::Await(inner) => cc_expr(*inner),
        Expr::LetCond(inner) => cc_expr(*inner),
        Expr::Unsafe(body) => cc_block(body),
        Expr::Try(inner) => cc_expr(*inner),
        Expr::Repeat { elem, len } => cc_expr(*elem) + cc_expr(*len),
        Expr::StructLit { fields } => cc_exprs(fields@),
        Expr::Field(base) => cc_expr(*base),
        Expr::BlockExpr(body) => cc_block(body),
        Expr::Leaf => 0,
        Expr::Other(children) => cc_exprs(children@),
    }
}

/// Complexity of a sequence of sibling expressions.
pub open spec fn cc_exprs(s: Seq<Expr>) -> nat
    decreases s,
{
    if s.len() == 0 {
        0
    } else {
        cc_expr(s.first()) + cc_exprs(s.drop_first())
    }
}

/// Complexity of one match arm: a guard is an independent branch.
pub open spec fn cc_arm(a: Arm) -> nat
    decreases a,
{
    (match a.guard {
        Some(g) => 1 + cc_expr(*g),
        None => 0nat,
    }) + cc_expr(*a.body)
}

/// Complexity of a sequence of match arms.
pub open spec fn cc_arms(s: Seq<Arm>) -> nat
    decreases s,
{
    if s.len() == 0 {
        0
    } else {
        cc_arm(s.first()) + cc_arms(s.drop_first())
    }
}

/// Complexity of one statement.
pub open spec fn cc_stmt(s: Stmt) -> nat
    decreases s,
{
    match s {
        Stmt::Local(init) => match init {
            Some(e) => cc_expr(e),
            None => 0,
        },
        Stmt::ItemStmt(it) => cc_item(it),
        Stmt::ExprStmt(e) => cc_expr(e),
    }
}

/// Complexity of a sequence of sibling statements.
pub open spec fn cc_stmts(s: Seq<Stmt>) -> nat
    decreases s,
{
    if s.len() == 0 {
        0
    } else {
        cc_stmt(s.first()) + cc_stmts(s.drop_first())
    }
}

/// Complexity of a block: the sum over its statements.
pub open spec fn cc_block(b: Block) -> nat
    decreases b,
{
    cc_stmts(b.stmts@)
}

/// Complexity of a nested item. A nested function or method opens an
/// entry path of its own, so it contributes one besides its body.
pub open spec fn cc_item(it: Item) -> nat
    decreases it,
{
    match it {
        Item::Fn(f) => 1 + cc_block(f.body),
        Item::Impl(methods) => cc_methods(methods@),
        Item::Mod(items) => cc_items(items@),
        Item::Other => 0,
    }
}

/// Complexity of a sequence of methods, one entry path each.
pub open spec fn cc_methods(s: Seq<FnDef>) -> nat
    decreases s,
{
    if s.len() == 0 {
        0
    } else {
        1 + cc_block(s.first().body) + cc_methods(s.drop_first())
    }
}

/// Complexity of a sequence of items.
pub open spec fn cc_items(s: Seq<Item>) -> nat
    decreases s,
{
    if s.len() == 0 {
        0
    } else {
        cc_item(s.first()) + cc_items(s.drop_first())
    }
}

/// The complexity of a whole function: its entry path plus its body.
pub open spec fn fn_cc(f: FnDef) -> nat {
    1 + cc_block(f.body)
}

fn cc_opt_exec(o: &Option<Box<Expr>>) -> (r: usize)
    requires
        cc_opt(*o) <= usize::MAX,
    ensures
        r as nat == cc_opt(*o),
    decreases *o,
{
    match o {
        Some(e) => {
            proof {
                assert(decreases_to!(*o => *e));
            }
            cc_expr_exec(e)
        },
        None => 0,
    }
}

fn cc_expr_exec(e: &Expr) -> (r: usize)
    requires
        cc_expr(*e) <= usize::MAX,
    ensures
        r as nat == cc_expr(*e),
    decreases *e,
{
    match e {
        Expr::If { cond, then_branch, else_branch } => {
            proof {
                assert(decreases_to!(*e => *cond));
                assert(decreases_to!(*e => *then_branch));
                assert(decreases_to!(*e => *else_branch));
            }
            let a = cc_expr_exec(cond);
            let b = cc_block_exec(then_branch);
            let c = cc_opt_exec(else_branch);
            1 + a + b + c
        },
        Expr::While { cond, body } => {
            proof {
                assert(decreases_to!(*e => *cond));
                assert(decreases_to!(*e => *body));
            }
            let a = cc_expr_exec(cond);
            let b = cc_block_exec(body);
            1 + a + b
        },
        Expr::ForLoop { iter, body } => {
            proof {
                assert(decreases_to!(*e => *iter));
                assert(decreases_to!(*e => *body));
            }
            let a = cc_expr_exec(iter);
            let b = cc_block_exec(body);
            1 + a + b
        },
        Expr::Loop { body } => {
            proof {
                assert(decreases_to!(*e => *body));
            }
            cc_block_exec(body)
        },
        Expr::Match { scrutinee, arms } => {
            proof {
                assert(decreases_to!(*e => *scrutinee));
                assert(decreases_to!(*e => *arms));
            }
            let a = cc_expr_exec(scrutinee);
            let b = cc_arms_exec(arms);
            if arms.len() > 1 {
                1 + a + b
            } else {
                a + b
            }
        },
        Expr::Binary { op, left, right } => {
            proof {
                assert(decreases_to!(*e => *left));
                assert(decreases_to!(*e => *right));
            }
            let a = cc_expr_exec(left);
            let b = cc_expr_exec(right);
            match op {
                BinOpKind::LogicalAnd => 1 + a + b,
                BinOpKind::LogicalOr => 1 + a + b,
                BinOpKind::Other => a + b,
            }
        },
        Expr::Assign { left, right } => {
            proof {
                assert(decreases_to!(*e => *left));
                assert(decreases_to!(*e => *right));
            }
            let a = cc_expr_exec(left);
            let b = cc_expr_exec(right);
            a + b
        },
        Expr::AssignOp { left, right } => {
            proof {
                assert(decreases_to!(*e => *left));
                assert(decreases_to!(*e => *right));
            }
            let a = cc_expr_exec(left);
            let b = cc_expr_exec(right);
            a + b
        },
        Expr::Call { func, args } => {
            proof {
                assert(decreases_to!(*e => *func));
                assert(decreases_to!(*e => *args));
            }
            let a = cc_expr_exec(func);
            let b = cc_exprs_exec(args);
            a + b
        },
        Expr::MethodCall { receiver, args } => {
            proof {
                assert(decreases_to!(*e => *receiver));
                assert(decreases_to!(*e => *args));
            }
            let a = cc_expr_exec(receiver);
            let b = cc_exprs_exec(args);
            a + b
        },
        Expr::MacroCall => 0,
        Expr::Continue => 0,
        Expr::Break(inner) => {
            proof {
                assert(decreases_to!(*e => *inner));
            }
            cc_opt_exec(inner)
        },
        Expr::Return(inner) => {
            proof {
                assert(decreases_to!(*e => *inner));
            }
            cc_opt_exec(inner)
        },
        Expr::Yield(inner) => {
            proof {
                assert(decreases_to!(*e => *inner));
            }
            cc_opt_exec(inner)
        },
        Expr::Await(inner) => {
            proof {
                assert(decreases_to!(*e => *inner));
            }
            cc_expr_exec(inner)
        },
        Expr::LetCond(inner) => {
            proof {
                assert(decreases_to!(*e => *inner));
            }
            cc_expr_exec(inner)
        },
        Expr::Unsafe(body) => {
            proof {
                assert(decreases_to!(*e => *body));
            }
            cc_block_exec(body)
        },
        Expr::Try(inner) => {
            proof {
                assert(decreases_to!(*e => *inner));
            }
            cc_expr_exec(inner)
        },
        Expr::Repeat { elem, len } => {
            proof {
                assert(decreases_to!(*e => *elem));
                assert(decreases_to!(*e => *len));
            }
            let a = cc_expr_exec(elem);
            let b = cc_expr_exec(len);
            a + b
        },
        Expr::StructLit { fields } => {
            proof {
                assert(decreases_to!(*e => *fields));
            }
            cc_exprs_exec(fields)
        },
        Expr::Field(base) => {
            proof {
                assert(decreases_to!(*e => *base));
            }
            cc_expr_exec(base)
        },
        Expr::BlockExpr(body) => {
            proof {
                assert(decreases_to!(*e => *body));
            }
            cc_block_exec(body)
        },
        Expr::Leaf => 0,
        Expr::Other(children) => {
            proof {
                assert(decreases_to!(*e => *children));
            }
            cc_exprs_exec(children)
        },
    }
}

fn cc_exprs_exec(v: &Vec<Expr>) -> (r: usize)
    requires
        cc_exprs(v@) <= usize::MAX,
    ensures
        r as nat == cc_exprs(v@),
    decreases *v,
{
    let mut total: usize = 0;
    let mut i: usize = 0;
    proof {
        assert(v@.skip(0) == v@);
    }
    while i < v.len()
        invariant
            0 <= i <= v@.len(),
            total as nat + cc_exprs(v@.skip(i as int)) == cc_exprs(v@),
            cc_exprs(v@) <= usize::MAX,
        decreases v@.len() - i,
    {
        proof {
            broadcast use vstd::std_specs::vec::axiom_vec_index_decreases;

            assert(decreases_to!(*v => v@[i as int]));
            assert(v@.skip(i as int).first() == v@[i as int]);
            assert(v@.skip(i as int).drop_first() == v@.skip(i as int + 1));
        }
        let c = cc_expr_exec(&v[i]);
        total = total + c;
        i = i + 1;
    }
    total
}

fn cc_arms_exec(v: &Vec<Arm>) -> (r: usize)
    requires
        cc_arms(v@) <= usize::MAX,
    ensures
        r as nat == cc_arms(v@),
    decreases *v,
{
    let mut total: usize = 0;
    let mut i: usize = 0;
    proof {
        assert(v@.skip(0) == v@);
    }
    while i < v.len()
        invariant
            0 <= i <= v@.len(),
            total as nat + cc_arms(v@.skip(i as int)) == cc_arms(v@),
            cc_arms(v@) <= usize::MAX,
        decreases v@.len() - i,
    {
        proof {
            broadcast use vstd::std_specs::vec::axiom_vec_index_decreases;

            assert(decreases_to!(*v => v@[i as int]));
            assert(v@.skip(i as int).first() == v@[i as int]);
            assert(v@.skip(i as int).drop_first() == v@.skip(i as int + 1));
            assert(cc_arms(v@.skip(i as int)) == cc_arm(v@[i as int]) + cc_arms(
                v@.skip(i as int + 1),
            ));
        }
        let a = &v[i];
        let g: usize = match &a.guard {
            Some(gexpr) => {
                proof {
                    assert(a.guard == Some(*gexpr));
                    assert(cc_arm(v@[i as int]) == 1 + cc_expr(**gexpr) + cc_expr(
                        *v@[i as int].body,
                    ));
                    assert(decreases_to!(v@[i as int] => v@[i as int].guard));
                    assert(decreases_to!(v@[i as int].guard => *gexpr));
                }
                let gc = cc_expr_exec(gexpr);
                1 + gc
            },
            None => 0,
        };
        proof {
            assert(decreases_to!(v@[i as int] => *a.body));
        }
        let b = cc_expr_exec(&a.body);
        total = total + g + b;
        i = i + 1;
    }
    total
}

fn cc_stmt_exec(s: &Stmt) -> (r: usize)
    requires
        cc_stmt(*s) <= usize::MAX,
    ensures
        r as nat == cc_stmt(*s),
    decreases *s,
{
    match s {
        Stmt::Local(init) => match init {
            Some(e) => {
                proof {
                    assert(decreases_to!(*s => *e));
                }
                cc_expr_exec(e)
            },
            None => 0,
        },
        Stmt::ItemStmt(it) => {
            proof {
                assert(decreases_to!(*s => *it));
            }
            cc_item_exec(it)
        },
        Stmt::ExprStmt(e) => {
            proof {
                assert(decreases_to!(*s => *e));
            }
            cc_expr_exec(e)
        },
    }
}

fn cc_block_exec(b: &Block) -> (r: usize)
    requires
        cc_block(*b) <= usize::MAX,
    ensures
        r as nat == cc_block(*b),
    decreases *b,
{
    let mut total: usize = 0;
    let mut i: usize = 0;
    proof {
        assert(b.stmts@.skip(0) == b.stmts@);
    }
    while i < b.stmts.len()
        invariant
            0 <= i <= b.stmts@.len(),
            total as nat + cc_stmts(b.stmts@.skip(i as int)) == cc_block(*b),
            cc_block(*b) <= usize::MAX,
        decreases b.stmts@.len() - i,
    {
        proof {
            broadcast use vstd::std_specs::vec::axiom_vec_index_decreases;

            assert(decreases_to!(*b => b.stmts));
            assert(decreases_to!(b.stmts => b.stmts@[i as int]));
            assert(b.stmts@.skip(i as int).first() == b.stmts@[i as int]);
            assert(b.stmts@.skip(i as int).drop_first() == b.stmts@.skip(i as int + 1));
        }
        let c = cc_stmt_exec(&b.stmts[i]);
        total = total + c;
        i = i + 1;
    }
    total
}

fn cc_item_exec(it: &Item) -> (r: usize)
    requires
        cc_item(*it) <= usize::MAX,
    ensures
        r as nat == cc_item(*it),
    decreases *it,
{
    match it {
        Item::Fn(f) => {
            proof {
                assert(decreases_to!(*it => *f));
                assert(decreases_to!(*f => f.body));
            }
            let c = cc_block_exec(&f.body);
            1 + c
        },
        Item::Impl(methods) => {
            proof {
                assert(decreases_to!(*it => *methods));
            }
            cc_methods_exec(methods)
        },
        Item::Mod(items) => {
            proof {
                assert(decreases_to!(*it => *items));
            }
            cc_items_exec(items)
        },
        Item::Other => 0,
    }
}

fn cc_methods_exec(v: &Vec<FnDef>) -> (r: usize)
    requires
        cc_methods(v@) <= usize::MAX,
    ensures
        r as nat == cc_methods(v@),
    decreases *v,
{
    let mut total: usize = 0;
    let mut i: usize = 0;
    proof {
        assert(v@.skip(0) == v@);
    }
    while i < v.len()
        invariant
            0 <= i <= v@.len(),
            total as nat + cc_methods(v@.skip(i as int)) == cc_methods(v@),
            cc_methods(v@) <= usize::MAX,
        decreases v@.len() - i,
    {
        proof {
            broadcast use vstd::std_specs::vec::axiom_vec_index_decreases;

            assert(decreases_to!(*v => v@[i as int]));
            assert(decreases_to!(v@[i as int] => v@[i as int].body));
            assert(v@.skip(i as int).first() == v@[i as int]);
            assert(v@.skip(i as int).drop_first() == v@.skip(i as int + 1));
        }
        let c = cc_block_exec(&v[i].body);
        total = total + 1 + c;
        i = i + 1;
    }
    total
}

fn cc_items_exec(v: &Vec<Item>) -> (r: usize)
    requires
        cc_items(v@) <= usize::MAX,
    ensures
        r as nat == cc_items(v@),
    decreases *v,
{
    let mut total: usize = 0;
    let mut i: usize = 0;
    proof {
        assert(v@.skip(0) == v@);
    }
    while i < v.len()
        invariant
            0 <= i <= v@.len(),
            total as nat + cc_items(v@.skip(i as int)) == cc_items(v@),
            cc_items(v@) <= usize::MAX,
        decreases v@.len() - i,
    {
        proof {
            broadcast use vstd::std_specs::vec::axiom_vec_index_decreases;

            assert(decreases_to!(*v => v@[i as int]));
            assert(v@.skip(i as int).first() == v@[i as int]);
            assert(v@.skip(i as int).drop_first() == v@.skip(i as int + 1));
        }
        let c = cc_item_exec(&v[i]);
        total = total + c;
        i = i + 1;
    }
    total
}

/// Cyclomatic complexity of a free function.
pub fn compute_itemfn_cc(itemfn: &FnDef) -> (r: usize)
    requires
        fn_cc(*itemfn) <= usize::MAX,
    ensures
        r as nat == fn_cc(*itemfn),
        r >= 1,
{
    let c = cc_block_exec(&itemfn.body);
    1 + c
}

/// Cyclomatic complexity of an inherent or trait method.
pub fn compute_impl_method_cc(impl_method: &FnDef) -> (r: usize)
    requires
        fn_cc(*impl_method) <= usize::MAX,
    ensures
        r as nat == fn_cc(*impl_method),
        r >= 1,
{
    let c = cc_block_exec(&impl_method.body);
    1 + c
}

/// Splitting a statement sequence at any position splits its complexity.
pub proof fn lemma_cc_stmts_remove(s: Seq<Stmt>, i: int)
    requires
        0 <= i < s.len(),
    ensures
        cc_stmts(s) == cc_stmt(s[i]) + cc_stmts(s.remove(i)),
    decreases s.len(),
{
    if i == 0 {
        assert(s.remove(0) =~= s.drop_first());
    } else {
        lemma_cc_stmts_remove(s.drop_first(), i - 1);
        assert(s.drop_first()[i - 1] == s[i]);
        assert(s.remove(i).drop_first() =~= s.drop_first().remove(i - 1));
        assert(s.remove(i).first() == s.first());
        assert(cc_stmts(s.remove(i)) == cc_stmt(s.first()) + cc_stmts(
            s.drop_first().remove(i - 1),
        ));
    }
}

/// One more statement at the end adds exactly its own complexity.
pub proof fn lemma_cc_stmts_push(s: Seq<Stmt>, x: Stmt)
    ensures
        cc_stmts(s.push(x)) == cc_stmts(s) + cc_stmt(x),
    decreases s.len(),
{
    if s.len() == 0 {
        assert(s.push(x).drop_first() =~= Seq::<Stmt>::empty());
        assert(s.push(x).first() == x);
        assert(cc_stmts(Seq::<Stmt>::empty()) == 0);
        assert(cc_stmts(s.push(x)) == cc_stmt(x) + cc_stmts(s.push(x).drop_first()));
    } else {
        lemma_cc_stmts_push(s.drop_first(), x);
        assert(s.push(x).drop_first() =~= s.drop_first().push(x));
        assert(s.push(x).first() == s.first());
        assert(cc_stmts(s.push(x)) == cc_stmt(s.first()) + cc_stmts(s.drop_first().push(x)));
    }
}

/// Complexity is invariant under re-ordering of sibling statements: two
/// sequences with the same statements in any order have the same score.
pub proof fn lemma_cc_reorder(s1: Seq<Stmt>, s2: Seq<Stmt>)
    requires
        s1.to_multiset() == s2.to_multiset(),
    ensures
        cc_stmts(s1) == cc_stmts(s2),
    decreases s2.len(),
{
    broadcast use vstd::seq_lib::group_to_multiset_ensures;
    broadcast use vstd::multiset::group_multiset_axioms;

    if s2.len() == 0 {
        assert(s1.len() == s1.to_multiset().len());
    } else {
        let x = s2.first();
        assert(s2.contains(x));
        assert(s2.to_multiset().count(x) > 0);
        assert(s1.to_multiset().count(x) > 0);
        assert(s1.contains(x));
        let i = choose|i: int| 0 <= i < s1.len() && s1[i] == x;
        lemma_cc_stmts_remove(s1, i);
        assert(s1.remove(i).to_multiset() == s1.to_multiset().remove(x));
        assert(s2.remove(0).to_multiset() == s2.to_multiset().remove(x));
        assert(s2.remove(0) =~= s2.drop_first());
        lemma_cc_reorder(s1.remove(i), s2.drop_first());
    }
}

/// Appending one `if` statement whose condition and branches hold no
/// further decision points raises a body's complexity by exactly one —
/// with or without an `else` branch: the `else` itself is free.
pub proof fn lemma_add_if(
    stmts: Seq<Stmt>,
    cond: Box<Expr>,
    then_branch: Block,
    else_branch: Option<Box<Expr>>,
)
    requires
        cc_expr(*cond) == 0,
        cc_block(then_branch) == 0,
        cc_opt(else_branch) == 0,
    ensures
        cc_stmts(stmts.push(Stmt::ExprStmt(Expr::If { cond, then_branch, else_branch })))
            == cc_stmts(stmts) + 1,
{
    lemma_cc_stmts_push(stmts, Stmt::ExprStmt(Expr::If { cond, then_branch, else_branch }));
}

/// How many arms of a match carry a guard.
pub open spec fn count_guarded(s: Seq<Arm>) -> nat
    decreases s.len(),
{
    if s.len() == 0 {
        0
    } else {
        (if s.first().guard is Some {
            1nat
        } else {
            0nat
        }) + count_guarded(s.drop_first())
    }
}

proof fn lemma_cc_arms_guards(s: Seq<Arm>)
    requires
        forall|i: int|
            0 <= i < s.len() ==> cc_expr(*#[trigger] s[i].body) == 0 && cc_guard(s[i]) == 0,
    ensures
        cc_arms(s) == count_guarded(s),
    decreases s.len(),
{
    if s.len() > 0 {
        assert(forall|i: int| 0 <= i < s.drop_first().len() ==> s.drop_first()[i] == s[i + 1]);
        lemma_cc_arms_guards(s.drop_first());
        assert(s[0] == s.first());
        assert(cc_expr(*s[0].body) == 0 && cc_guard(s[0]) == 0);
        match s.first().guard {
            Some(g) => {
                assert(cc_guard(s.first()) == cc_expr(*g));
                assert(cc_arm(s.first()) == 1 + cc_expr(*g) + cc_expr(*s.first().body));
            },
            None => {
                assert(cc_arm(s.first()) == cc_expr(*s.first().body));
            },
        }
    }
}

/// The complexity of an arm's guard condition, if it has one.
pub open spec fn cc_guard(a: Arm) -> nat {
    match a.guard {
        Some(g) => cc_expr(*g),
        None => 0,
    }
}

/// A `match` with a single arm contributes nothing itself; one with
/// more arms contributes exactly one, plus one per guarded arm — here
/// stated for a match whose scrutinee, guards and arm bodies hold no
/// further decision points.
pub proof fn lemma_match_contribution(scrutinee: Box<Expr>, arms: Vec<Arm>)
    requires
        cc_expr(*scrutinee) == 0,
        forall|i: int|
            0 <= i < arms@.len() ==> cc_expr(*#[trigger] arms@[i].body) == 0 && cc_guard(arms@[i])
                == 0,
    ensures
        arms@.len() == 1 ==> cc_expr(Expr::Match { scrutinee, arms }) == count_guarded(arms@),
        arms@.len() > 1 ==> cc_expr(Expr::Match { scrutinee, arms }) == 1 + count_guarded(arms@),
{
    lemma_cc_arms_guards(arms@);
}

/// A condition built only of leaves and binary operators.
pub open spec fn plain_cond(e: Expr) -> bool
    decreases e,
{
    match e {
        Expr::Binary { op: _, left, right } => plain_cond(*left) && plain_cond(*right),
        Expr::Field(base) => plain_cond(*base),
        Expr::Other(children) => plain_conds(children@),
        Expr::Leaf => true,
        _ => false,
    }
}

/// Whether every expression of a sequence is a plain condition.
pub open spec fn plain_conds(s: Seq<Expr>) -> bool
    decreases s,
{
    if s.len() == 0 {
        true
    } else {
        plain_cond(s.first()) && plain_conds(s.drop_first())
    }
}

/// How many short-circuit boolean operators a condition holds, at any
/// nesting depth.
pub open spec fn sc_count(e: Expr) -> nat
    decreases e,
{
    match e {
        Expr::Binary { op, left, right } => (match op {
            BinOpKind::LogicalAnd => 1nat,
            BinOpKind::LogicalOr => 1nat,
            BinOpKind::Other => 0nat,
        }) + sc_count(*left) + sc_count(*right),
        Expr::Field(base) => sc_count(*base),
        Expr::Other(children) => sc_counts(children@),
        _ => 0,
    }
}

/// The short-circuit operators of a sequence of conditions.
pub open spec fn sc_counts(s: Seq<Expr>) -> nat
    decreases s,
{
    if s.len() == 0 {
        0
    } else {
        sc_count(s.first()) + sc_counts(s.drop_first())
    }
}

/// In a plain condition, each short-circuit AND/OR contributes exactly
/// one to the complexity, however deeply it is nested.
pub proof fn lemma_sc_contribution(e: Expr)
    requires
        plain_cond(e),
    ensures
        cc_expr(e) == sc_count(e),
    decreases e,
{
    match e {
        Expr::Binary { op: _, left, right } => {
            lemma_sc_contribution(*left);
            lemma_sc_contribution(*right);
        },
        Expr::Field(base) => {
            lemma_sc_contribution(*base);
        },
        Expr::Other(children) => {
            lemma_sc_contribution_seq(children@);
        },
        _ => {},
    }
}

proof fn lemma_sc_contribution_seq(s: Seq<Expr>)
    requires
        plain_conds(s),
    ensures
        cc_exprs(s) == sc_counts(s),
    decreases s,
{
    if s.len() > 0 {
        lemma_sc_contribution(s.first());
        lemma_sc_contribution_seq(s.drop_first());
    }
}


/// Whether an optional sub-expression holds no branching construct.
pub open spec fn branch_free_opt(o: Option<Box<Expr>>) -> bool
    decreases o,
{
    match o {
        Some(e) => branch_free_expr(*e),
        None => true,
    }
}

/// Whether an expression holds no branching construct anywhere: no `if`,
/// no loop with a condition, no multi-arm `match`, no guard, no
/// short-circuit operator — and no nested function, which would open an
/// entry path of its own.
pub open spec fn branch_free_expr(e: Expr) -> bool
    decreases e,
{
    match e {
        Expr::If { cond: _, then_branch: _, else_branch: _ } => false,
        Expr::While { cond: _, body: _ } => false,
        Expr::ForLoop { iter: _, body: _ } => false,
        Expr::Loop { body } => branch_free_block(body),
        Expr::Match { scrutinee, arms } => arms@.len() <= 1 && branch_free_expr(*scrutinee)
            && branch_free_arms(arms@),
        Expr::Binary { op, left, right } => (op is Other) && branch_free_expr(*left)
            && branch_free_expr(*right),
        Expr::Assign { left, right } => branch_free_expr(*left) && branch_free_expr(*right),
        Expr::AssignOp { left, right } => branch_free_expr(*left) && branch_free_expr(*right),
        Expr::Call { func, args } => branch_free_expr(*func) && branch_free_exprs(args@),
        Expr::MethodCall { receiver, args } => branch_free_expr(*receiver) && branch_free_exprs(
            args@,
        ),
        Expr::MacroCall => true,
        Expr::Continue => true,
        Expr::Break(inner) => branch_free_opt(inner),
        Expr::Return(inner) => branch_free_opt(inner),
        Expr::Yield(inner) => branch_free_opt(inner),
        Expr::Await(inner) => branch_free_expr(*inner),
        Expr::LetCond(inner) => branch_free_expr(*inner),
        Expr::Unsafe(body) => branch_free_block(body),
        Expr::Try(inner) => branch_free_expr(*inner),
        Expr::Repeat { elem, len } => branch_free_expr(*elem) && branch_free_expr(*len),
        Expr::StructLit { fields } => branch_free_exprs(fields@),
        Expr::Field(base) => branch_free_expr(*base),
        Expr::BlockExpr(body) => branch_free_block(body),
        Expr::Leaf => true,
        Expr::Other(children) => branch_free_exprs(children@),
    }
}

/// Whether every expression of a sequence is branch-free.
pub open spec fn branch_free_exprs(s: Seq<Expr>) -> bool
    decreases s,
{
    if s.len() == 0 {
        true
    } else {
        branch_free_expr(s.first()) && branch_free_exprs(s.drop_first())
    }
}

/// Whether every arm of a sequence is guard-free with a branch-free body.
pub open spec fn branch_free_arms(s: Seq<Arm>) -> bool
    decreases s,
{
    if s.len() == 0 {
        true
    } else {
        (s.first().guard is None) && branch_free_expr(*s.first().body) && branch_free_arms(
            s.drop_first(),
        )
    }
}

/// Whether a statement holds no branching construct.
pub open spec fn branch_free_stmt(s: Stmt) -> bool
    decreases s,
{
    match s {
        Stmt::Local(init) => match init {
            Some(e) => branch_free_expr(e),
            None => true,
        },
        Stmt::ItemStmt(it) => branch_free_item(it),
        Stmt::ExprStmt(e) => branch_free_expr(e),
    }
}

/// Whether every statement of a sequence is branch-free.
pub open spec fn branch_free_stmts(s: Seq<Stmt>) -> bool
    decreases s,
{
    if s.len() == 0 {
        true
    } else {
        branch_free_stmt(s.first()) && branch_free_stmts(s.drop_first())
    }
}

/// Whether a block holds no branching construct.
pub open spec fn branch_free_block(b: Block) -> bool
    decreases b,
{
    branch_free_stmts(b.stmts@)
}

/// Whether an item holds no branching construct. A nested function or
/// method always counts one for its own entry path, so it is never
/// branch-free.
pub open spec fn branch_free_item(it: Item) -> bool
    decreases it,
{
    match it {
        Item::Fn(_) => false,
        Item::Impl(_) => false,
        Item::Mod(items) => branch_free_items(items@),
        Item::Other => true,
    }
}

/// Whether every item of a sequence is branch-free.
pub open spec fn branch_free_items(s: Seq<Item>) -> bool
    decreases s,
{
    if s.len() == 0 {
        true
    } else {
        branch_free_item(s.first()) && branch_free_items(s.drop_first())
    }
}

proof fn lemma_bf_opt(o: Option<Box<Expr>>)
    requires
        branch_free_opt(o),
    ensures
        cc_opt(o) == 0,
    decreases o,
{
    match o {
        Some(e) => lemma_bf_expr(*e),
        None => {},
    }
}

proof fn lemma_bf_expr(e: Expr)
    requires
        branch_free_expr(e),
    ensures
        cc_expr(e) == 0,
    decreases e,
{
    match e {
        Expr::Loop { body } => lemma_bf_block(body),
        Expr::Match { scrutinee, arms } => {
            lemma_bf_expr(*scrutinee);
            lemma_bf_arms(arms@);
        },
        Expr::Binary { op: _, left, right } => {
            lemma_bf_expr(*left);
            lemma_bf_expr(*right);
        },
        Expr::Assign { left, right } => {
            lemma_bf_expr(*left);
            lemma_bf_expr(*right);
        },
        Expr::AssignOp { left, right } => {
            lemma_bf_expr(*left);
            lemma_bf_expr(*right);
        },
        Expr::Call { func, args } => {
            lemma_bf_expr(*func);
            lemma_bf_exprs(args@);
        },
        Expr::MethodCall { receiver, args } => {
            lemma_bf_expr(*receiver);
            lemma_bf_exprs(args@);
        },
        Expr::Break(inner) => lemma_bf_opt(inner),
        Expr::Return(inner) => lemma_bf_opt(inner),
        Expr::Yield(inner) => lemma_bf_opt(inner),
        Expr::Await(inner) => lemma_bf_expr(*inner),
        Expr::LetCond(inner) => lemma_bf_expr(*inner),
        Expr::Unsafe(body) => lemma_bf_block(body),
        Expr::Try(inner) => lemma_bf_expr(*inner),
        Expr::Repeat { elem, len } => {
            lemma_bf_expr(*elem);
            lemma_bf_expr(*len);
        },
        Expr::StructLit { fields } => lemma_bf_exprs(fields@),
        Expr::Field(base) => lemma_bf_expr(*base),
        Expr::BlockExpr(body) => lemma_bf_block(body),
        Expr::Other(children) => lemma_bf_exprs(children@),
        _ => {},
    }
}

proof fn lemma_bf_exprs(s: Seq<Expr>)
    requires
        branch_free_exprs(s),
    ensures
        cc_exprs(s) == 0,
    decreases s,
{
    if s.len() > 0 {
        lemma_bf_expr(s.first());
        lemma_bf_exprs(s.drop_first());
    }
}

proof fn lemma_bf_arms(s: Seq<Arm>)
    requires
        branch_free_arms(s),
    ensures
        cc_arms(s) == 0,
    decreases s,
{
    if s.len() > 0 {
        lemma_bf_expr(*s.first().body);
        lemma_bf_arms(s.drop_first());
        assert(s.first().guard is None);
        assert(cc_arm(s.first()) == cc_expr(*s.first().body));
    }
}

proof fn lemma_bf_stmt(s: Stmt)
    requires
        branch_free_stmt(s),
    ensures
        cc_stmt(s) == 0,
    decreases s,
{
    match s {
        Stmt::Local(init) => match init {
            Some(e) => lemma_bf_expr(e),
            None => {},
        },
        Stmt::ItemStmt(it) => lemma_bf_item(it),
        Stmt::ExprStmt(e) => lemma_bf_expr(e),
    }
}

proof fn lemma_bf_stmts(s: Seq<Stmt>)
    requires
        branch_free_stmts(s),
    ensures
        cc_stmts(s) == 0,
    decreases s,
{
    if s.len() > 0 {
        lemma_bf_stmt(s.first());
        lemma_bf_stmts(s.drop_first());
    }
}

proof fn lemma_bf_block(b: Block)
    requires
        branch_free_block(b),
    ensures
        cc_block(b) == 0,
    decreases b,
{
    lemma_bf_stmts(b.stmts@);
}

proof fn lemma_bf_item(it: Item)
    requires
        branch_free_item(it),
    ensures
        cc_item(it) == 0,
    decreases it,
{
    match it {
        Item::Mod(items) => lemma_bf_items(items@),
        _ => {},
    }
}

proof fn lemma_bf_items(s: Seq<Item>)
    requires
        branch_free_items(s),
    ensures
        cc_items(s) == 0,
    decreases s,
{
    if s.len() > 0 {
        lemma_bf_item(s.first());
        lemma_bf_items(s.drop_first());
    }
}

/// A function with no branching construct has complexity exactly one:
/// its entry path alone.
pub proof fn lemma_branch_free_complexity(f: FnDef)
    requires
        branch_free_block(f.body),
    ensures
        fn_cc(f) == 1,
{
    lemma_bf_block(f.body);
}


/// One kind of decision point of the fixed rule table.
pub enum DecisionKind {
    IfBranch,
    ForBranch,
    WhileBranch,
    MultiMatch,
    GuardBranch,
    ShortCircuit,
    FnEntry,
}

/// How often one decision kind occurs in an optional sub-expression.
pub open spec fn decision_count_opt(o: Option<Box<Expr>>, k: DecisionKind) -> nat
    decreases o,
{
    match o {
        Some(e) => decision_count_expr(*e, k),
        None => 0,
    }
}

/// How often one decision kind occurs in an expression's whole subtree.
pub open spec fn decision_count_expr(e: Expr, k: DecisionKind) -> nat
    decreases e,
{
    match e {
        Expr::If { cond, then_branch, else_branch } => (if k is IfBranch {
            1nat
        } else {
            0nat
        }) + decision_count_expr(*cond, k) + decision_count_block(then_branch, k)
            + decision_count_opt(else_branch, k),
        Expr::While { cond, body } => (if k is WhileBranch {
            1nat
        } else {
            0nat
        }) + decision_count_expr(*cond, k) + decision_count_block(body, k),
        Expr::ForLoop { iter, body } => (if k is ForBranch {
            1nat
        } else {
            0nat
        }) + decision_count_expr(*iter, k) + decision_count_block(body, k),
        Expr::Loop { body } => decision_count_block(body, k),
        Expr::Match { scrutinee, arms } => (if k is MultiMatch && arms@.len() > 1 {
            1nat
        } else {
            0nat
        }) + decision_count_expr(*scrutinee, k) + decision_count_arms(arms@, k),
        Expr::Binary { op, left, right } => (if k is ShortCircuit && !(op is Other) {
            1nat
        } else {
            0nat
        }) + decision_count_expr(*left, k) + decision_count_expr(*right, k),
        Expr::Assign { left, right } => decision_count_expr(*left, k) + decision_count_expr(
            *right,
            k,
        ),
        Expr::AssignOp { left, right } => decision_count_expr(*left, k) + decision_count_expr(
            *right,
            k,
        ),
        Expr::Call { func, args } => decision_count_expr(*func, k) + decision_count_exprs(
            args@,
            k,
        ),
        Expr::MethodCall { receiver, args } => decision_count_expr(*receiver, k)
            + decision_count_exprs(args@, k),
        Expr::MacroCall => 0,
        Expr::Continue => 0,
        Expr::Break(inner) => decision_count_opt(inner, k),
        Expr::Return(inner) => decision_count_opt(inner, k),
        Expr::Yield(inner) => decision_count_opt(inner, k),
        Expr::Await(inner) => decision_count_expr(*inner, k),
        Expr::LetCond(inner) => decision_count_expr(*inner, k),
        Expr::Unsafe(body) => decision_count_block(body, k),
        Expr::Try(inner) => decision_count_expr(*inner, k),
        Expr::Repeat { elem, len } => decision_count_expr(*elem, k) + decision_count_expr(*len, k),
        Expr::StructLit { fields } => decision_count_exprs(fields@, k),
        Expr::Field(base) => decision_count_expr(*base, k),
        Expr::BlockExpr(body) => decision_count_block(body, k),
        Expr::Leaf => 0,
        Expr::Other(children) => decision_count_exprs(children@, k),
    }
}

/// How often one decision kind occurs in a sequence of expressions.
pub open spec fn decision_count_exprs(s: Seq<Expr>, k: DecisionKind) -> nat
    decreases s,
{
    if s.len() == 0 {
        0
    } else {
        decision_count_expr(s.first(), k) + decision_count_exprs(s.drop_first(), k)
    }
}

/// How often one decision kind occurs in a match arm.
pub open spec fn decision_count_arm(a: Arm, k: DecisionKind) -> nat
    decreases a,
{
    (if k is GuardBranch && a.guard is Some {
        1nat
    } else {
        0nat
    }) + (match a.guard {
        Some(g) => decision_count_expr(*g, k),
        None => 0nat,
    }) + decision_count_expr(*a.body, k)
}

/// How often one decision kind occurs in a sequence of match arms.
pub open spec fn decision_count_arms(s: Seq<Arm>, k: DecisionKind) -> nat
    decreases s,
{
    if s.len() == 0 {
        0
    } else {
        decision_count_arm(s.first(), k) + decision_count_arms(s.drop_first(), k)
    }
}

/// How often one decision kind occurs in a statement.
pub open spec fn decision_count_stmt(s: Stmt, k: DecisionKind) -> nat
    decreases s,
{
    match s {
        Stmt::Local(init) => match init {
            Some(e) => decision_count_expr(e, k),
            None => 0,
        },
        Stmt::ItemStmt(it) => decision_count_item(it, k),
        Stmt::ExprStmt(e) => decision_count_expr(e, k),
    }
}

/// How often one decision kind occurs in a sequence of statements.
pub open spec fn decision_count_stmts(s: Seq<Stmt>, k: DecisionKind) -> nat
    decreases s,
{
    if s.len() == 0 {
        0
    } else {
        decision_count_stmt(s.first(), k) + decision_count_stmts(s.drop_first(), k)
    }
}

/// How often one decision kind occurs in a block.
pub open spec fn decision_count_block(b: Block, k: DecisionKind) -> nat
    decreases b,
{
    decision_count_stmts(b.stmts@, k)
}

/// How often one decision kind occurs in an item. A nested function or
/// method is itself one entry-path occurrence.
pub open spec fn decision_count_item(it: Item, k: DecisionKind) -> nat
    decreases it,
{
    match it {
        Item::Fn(f) => (if k is FnEntry {
            1nat
        } else {
            0nat
        }) + decision_count_block(f.body, k),
        Item::Impl(methods) => decision_count_methods(methods@, k),
        Item::Mod(items) => decision_count_items(items@, k),
        Item::Other => 0,
    }
}

/// How often one decision kind occurs in a sequence of methods.
pub open spec fn decision_count_methods(s: Seq<FnDef>, k: DecisionKind) -> nat
    decreases s,
{
    if s.len() == 0 {
        0
    } else {
        (if k is FnEntry {
            1nat
        } else {
            0nat
        }) + decision_count_block(s.first().body, k) + decision_count_methods(s.drop_first(), k)
    }
}

/// How often one decision kind occurs in a sequence of items.
pub open spec fn decision_count_items(s: Seq<Item>, k: DecisionKind) -> nat
    decreases s,
{
    if s.len() == 0 {
        0
    } else {
        decision_count_item(s.first(), k) + decision_count_items(s.drop_first(), k)
    }
}

/// The decision points of a block, every kind of the rule table taken
/// together.
pub open spec fn decision_total_block(b: Block) -> nat {
    decision_count_block(b, DecisionKind::IfBranch) + decision_count_block(
        b,
        DecisionKind::ForBranch,
    ) + decision_count_block(b, DecisionKind::WhileBranch) + decision_count_block(
        b,
        DecisionKind::MultiMatch,
    ) + decision_count_block(b, DecisionKind::GuardBranch) + decision_count_block(
        b,
        DecisionKind::ShortCircuit,
    ) + decision_count_block(b, DecisionKind::FnEntry)
}

proof fn lemma_formula_opt(o: Option<Box<Expr>>)
    ensures
        cc_opt(o) == decision_count_opt(o, DecisionKind::IfBranch) + decision_count_opt(
            o,
            DecisionKind::ForBranch,
        ) + decision_count_opt(o, DecisionKind::WhileBranch) + decision_count_opt(
            o,
            DecisionKind::MultiMatch,
        ) + decision_count_opt(o, DecisionKind::GuardBranch) + decision_count_opt(
            o,
            DecisionKind::ShortCircuit,
        ) + decision_count_opt(o, DecisionKind::FnEntry),
    decreases o,
{
    match o {
        Some(e) => lemma_formula_expr(*e),
        None => {},
    }
}

proof fn lemma_formula_expr(e: Expr)
    ensures
        cc_expr(e) == decision_count_expr(e, DecisionKind::IfBranch) + decision_count_expr(
            e,
            DecisionKind::ForBranch,
        ) + decision_count_expr(e, DecisionKind::WhileBranch) + decision_count_expr(
            e,
            DecisionKind::MultiMatch,
        ) + decision_count_expr(e, DecisionKind::GuardBranch) + decision_count_expr(
            e,
            DecisionKind::ShortCircuit,
        ) + decision_count_expr(e, DecisionKind::FnEntry),
    decreases e,
{
    match e {
        Expr::If { cond, then_branch, else_branch } => {
            lemma_formula_expr(*cond);
            lemma_formula_block(then_branch);
            lemma_formula_opt(else_branch);
        },
        Expr::While { cond, body } => {
            lemma_formula_expr(*cond);
            lemma_formula_block(body);
        },
        Expr::ForLoop { iter, body } => {
            lemma_formula_expr(*iter);
            lemma_formula_block(body);
        },
        Expr::Loop { body } => {
            lemma_formula_block(body);
        },
        Expr::Match { scrutinee, arms } => {
            lemma_formula_expr(*scrutinee);
            lemma_formula_arms(arms@);
        },
        Expr::Binary { op: _, left, right } => {
            lemma_formula_expr(*left);
            lemma_formula_expr(*right);
        },
        Expr::Assign { left, right } => {
            lemma_formula_expr(*left);
            lemma_formula_expr(*right);
        },
        Expr::AssignOp { left, right } => {
            lemma_formula_expr(*left);
            lemma_formula_expr(*right);
        },
        Expr::Call { func, args } => {
            lemma_formula_expr(*func);
            lemma_formula_exprs(args@);
        },
        Expr::MethodCall { receiver, args } => {
            lemma_formula_expr(*receiver);
            lemma_formula_exprs(args@);
        },
        Expr::Break(inner) => {
            lemma_formula_opt(inner);
        },
        Expr::Return(inner) => {
            lemma_formula_opt(inner);
        },
        Expr::Yield(inner) => {
            lemma_formula_opt(inner);
        },
        Expr::Await(inner) => {
            lemma_formula_expr(*inner);
        },
        Expr::LetCond(inner) => {
            lemma_formula_expr(*inner);
        },
        Expr::Unsafe(body) => {
            lemma_formula_block(body);
        },
        Expr::Try(inner) => {
            lemma_formula_expr(*inner);
        },
        Expr::Repeat { elem, len } => {
            lemma_formula_expr(*elem);
            lemma_formula_expr(*len);
        },
        Expr::StructLit { fields } => {
            lemma_formula_exprs(fields@);
        },
        Expr::Field(base) => {
            lemma_formula_expr(*base);
        },
        Expr::BlockExpr(body) => {
            lemma_formula_block(body);
        },
        Expr::Other(children) => {
            lemma_formula_exprs(children@);
        },
        _ => {},
    }
}

proof fn lemma_formula_exprs(s: Seq<Expr>)
    ensures
        cc_exprs(s) == decision_count_exprs(s, DecisionKind::IfBranch) + decision_count_exprs(
            s,
            DecisionKind::ForBranch,
        ) + decision_count_exprs(s, DecisionKind::WhileBranch) + decision_count_exprs(
            s,
            DecisionKind::MultiMatch,
        ) + decision_count_exprs(s, DecisionKind::GuardBranch) + decision_count_exprs(
            s,
            DecisionKind::ShortCircuit,
        ) + decision_count_exprs(s, DecisionKind::FnEntry),
    decreases s,
{
    if s.len() > 0 {
        lemma_formula_expr(s.first());
        lemma_formula_exprs(s.drop_first());
    }
}

proof fn lemma_formula_arm(a: Arm)
    ensures
        cc_arm(a) == decision_count_arm(a, DecisionKind::IfBranch) + decision_count_arm(
            a,
            DecisionKind::ForBranch,
        ) + decision_count_arm(a, DecisionKind::WhileBranch) + decision_count_arm(
            a,
            DecisionKind::MultiMatch,
        ) + decision_count_arm(a, DecisionKind::GuardBranch) + decision_count_arm(
            a,
            DecisionKind::ShortCircuit,
        ) + decision_count_arm(a, DecisionKind::FnEntry),
    decreases a,
{
    match a.guard {
        Some(g) => {
            lemma_formula_expr(*g);
        },
        None => {},
    }
    lemma_formula_expr(*a.body);
}

proof fn lemma_formula_arms(s: Seq<Arm>)
    ensures
        cc_arms(s) == decision_count_arms(s, DecisionKind::IfBranch) + decision_count_arms(
            s,
            DecisionKind::ForBranch,
        ) + decision_count_arms(s, DecisionKind::WhileBranch) + decision_count_arms(
            s,
            DecisionKind::MultiMatch,
        ) + decision_count_arms(s, DecisionKind::GuardBranch) + decision_count_arms(
            s,
            DecisionKind::ShortCircuit,
        ) + decision_count_arms(s, DecisionKind::FnEntry),
    decreases s,
{
    if s.len() > 0 {
        lemma_formula_arm(s.first());
        lemma_formula_arms(s.drop_first());
    }
}

proof fn lemma_formula_stmt(s: Stmt)
    ensures
        cc_stmt(s) == decision_count_stmt(s, DecisionKind::IfBranch) + decision_count_stmt(
            s,
            DecisionKind::ForBranch,
        ) + decision_count_stmt(s, DecisionKind::WhileBranch) + decision_count_stmt(
            s,
            DecisionKind::MultiMatch,
        ) + decision_count_stmt(s, DecisionKind::GuardBranch) + decision_count_stmt(
            s,
            DecisionKind::ShortCircuit,
        ) + decision_count_stmt(s, DecisionKind::FnEntry),
    decreases s,
{
    match s {
        Stmt::Local(init) => match init {
            Some(e) => lemma_formula_expr(e),
            None => {},
        },
        Stmt::ItemStmt(it) => lemma_formula_item(it),
        Stmt::ExprStmt(e) => lemma_formula_expr(e),
    }
}

proof fn lemma_formula_stmts(s: Seq<Stmt>)
    ensures
        cc_stmts(s) == decision_count_stmts(s, DecisionKind::IfBranch) + decision_count_stmts(
            s,
            DecisionKind::ForBranch,
        ) + decision_count_stmts(s, DecisionKind::WhileBranch) + decision_count_stmts(
            s,
            DecisionKind::MultiMatch,
        ) + decision_count_stmts(s, DecisionKind::GuardBranch) + decision_count_stmts(
            s,
            DecisionKind::ShortCircuit,
        ) + decision_count_stmts(s, DecisionKind::FnEntry),
    decreases s,
{
    if s.len() > 0 {
        lemma_formula_stmt(s.first());
        lemma_formula_stmts(s.drop_first());
    }
}

proof fn lemma_formula_block(b: Block)
    ensures
        cc_block(b) == decision_total_block(b),
    decreases b,
{
    lemma_formula_stmts(b.stmts@);
}

proof fn lemma_formula_item(it: Item)
    ensures
        cc_item(it) == decision_count_item(it, DecisionKind::IfBranch) + decision_count_item(
            it,
            DecisionKind::ForBranch,
        ) + decision_count_item(it, DecisionKind::WhileBranch) + decision_count_item(
            it,
            DecisionKind::MultiMatch,
        ) + decision_count_item(it, DecisionKind::GuardBranch) + decision_count_item(
            it,
            DecisionKind::ShortCircuit,
        ) + decision_count_item(it, DecisionKind::FnEntry),
    decreases it,
{
    match it {
        Item::Fn(f) => lemma_formula_block(f.body),
        Item::Impl(methods) => lemma_formula_methods(methods@),
        Item::Mod(items) => lemma_formula_items(items@),
        Item::Other => {},
    }
}

proof fn lemma_formula_methods(s: Seq<FnDef>)
    ensures
        cc_methods(s) == decision_count_methods(s, DecisionKind::IfBranch)
            + decision_count_methods(s, DecisionKind::ForBranch) + decision_count_methods(
            s,
            DecisionKind::WhileBranch,
        ) + decision_count_methods(s, DecisionKind::MultiMatch) + decision_count_methods(
            s,
            DecisionKind::GuardBranch,
        ) + decision_count_methods(s, DecisionKind::ShortCircuit) + decision_count_methods(
            s,
            DecisionKind::FnEntry,
        ),
    decreases s,
{
    if s.len() > 0 {
        lemma_formula_block(s.first().body);
        lemma_formula_methods(s.drop_first());
    }
}

proof fn lemma_formula_items(s: Seq<Item>)
    ensures
        cc_items(s) == decision_count_items(s, DecisionKind::IfBranch) + decision_count_items(
            s,
            DecisionKind::ForBranch,
        ) + decision_count_items(s, DecisionKind::WhileBranch) + decision_count_items(
            s,
            DecisionKind::MultiMatch,
        ) + decision_count_items(s, DecisionKind::GuardBranch) + decision_count_items(
            s,
            DecisionKind::ShortCircuit,
        ) + decision_count_items(s, DecisionKind::FnEntry),
    decreases s,
{
    if s.len() > 0 {
        lemma_formula_item(s.first());
        lemma_formula_items(s.drop_first());
    }
}

/// The closed-form complexity of a function: one for its entry path,
/// plus one per `if`, `for` loop, `while` loop, multi-arm `match`,
/// guarded match arm, short-circuit boolean operator, and nested
/// function or method entry, each counted as plain occurrences over the
/// whole subtree — so each occurrence contributes exactly one, at any
/// nesting depth.
pub proof fn lemma_complexity_formula(f: FnDef)
    ensures
        fn_cc(f) == 1 + decision_count_block(f.body, DecisionKind::IfBranch)
            + decision_count_block(f.body, DecisionKind::ForBranch) + decision_count_block(
            f.body,
            DecisionKind::WhileBranch,
        ) + decision_count_block(f.body, DecisionKind::MultiMatch) + decision_count_block(
            f.body,
            DecisionKind::GuardBranch,
        ) + decision_count_block(f.body, DecisionKind::ShortCircuit) + decision_count_block(
            f.body,
            DecisionKind::FnEntry,
        ),
{
    lemma_formula_block(f.body);
}

} // verus!
