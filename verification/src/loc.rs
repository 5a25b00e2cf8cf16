//! The lines-of-code visitor.
//!
//! Three counts are produced for a unit:
//! - source lines: the whole span from the unit's first to its last line;
//! - physical lines: the distinct source lines touched by at least one
//!   leaf token, reconstructed from the unit's token stream;
//! - logical lines: a structural count, one per binding, nested item and
//!   statement-like expression.
use vstd::prelude::*;

use std::collections::HashSet;

use crate::ast::Arm;
use crate::ast::Block;
use crate::ast::Expr;
use crate::ast::FnDef;
use crate::ast::Item;
use crate::ast::SourceFile;
use crate::ast::Stmt;

verus! {

/// The source-line range a token occupies, in 1-based coordinates.
#[derive(Clone, Copy)]
pub struct Span {
    pub start: usize,
    pub end: usize,
}

/// One token of a unit's token stream: an atomic leaf, or a bracketed
/// group with its inner tokens.
pub enum Token {
    Leaf(Span),
    Group(Span, Vec<Token>),
}

/// The span carried by a token.
pub open spec fn token_span(t: Token) -> Span {
    match t {
        Token::Leaf(sp) => sp,
        Token::Group(sp, _) => sp,
    }
}

/// The source lines a token makes count as code: a leaf counts only the
/// line it starts on; a group counts its inner tokens' lines and also
/// the lines of its own delimiters, so a line holding only a brace still
/// counts.
pub open spec fn touched_lines(t: Token) -> Set<usize>
    decreases t,
{
    match t {
        Token::Leaf(sp) => Set::empty().insert(sp.start),
        Token::Group(sp, inner) => touched_lines_seq(inner@).insert(sp.start).insert(sp.end),
    }
}

/// The union of the touched lines of a token sequence.
pub open spec fn touched_lines_seq(s: Seq<Token>) -> Set<usize>
    decreases s,
{
    if s.len() == 0 {
        Set::empty()
    } else {
        touched_lines(s.first()).union(touched_lines_seq(s.drop_first()))
    }
}

/// The line the unit starts on: its first token's start, 0 if empty.
pub open spec fn stream_start(s: Seq<Token>) -> usize {
    if s.len() == 0 {
        0
    } else {
        token_span(s.first()).start
    }
}

/// The last line any token of the unit ends on, 0 if empty.
pub open spec fn stream_end(s: Seq<Token>) -> usize
    decreases s,
{
    if s.len() == 0 {
        0
    } else {
        let e = token_span(s.first()).end;
        let r = stream_end(s.drop_first());
        if e > r {
            e
        } else {
            r
        }
    }
}

/// The nesting depth of a token: groups nest, leaves do not. Serves as
/// the termination measure of the token-tree walk.
pub open spec fn token_height(t: Token) -> nat
    decreases t,
{
    match t {
        Token::Leaf(_) => 0,
        Token::Group(_, inner) => 1 + tokens_height(inner@),
    }
}

/// The largest nesting depth over a token sequence.
pub open spec fn tokens_height(s: Seq<Token>) -> nat
    decreases s,
{
    if s.len() == 0 {
        0
    } else {
        let h = token_height(s.first());
        let r = tokens_height(s.drop_first());
        if h > r {
            h
        } else {
            r
        }
    }
}

proof fn lemma_tokens_height_elem(s: Seq<Token>, i: int)
    requires
        0 <= i < s.len(),
    ensures
        token_height(s[i]) <= tokens_height(s),
    decreases s.len(),
{
    if i == 0 {
    } else {
        lemma_tokens_height_elem(s.drop_first(), i - 1);
        assert(s.drop_first()[i - 1] == s[i]);
    }
}

/// Logical lines contributed by an optional sub-expression.
pub open spec fn lloc_opt(o: Option<Box<Expr>>) -> nat
    decreases o,
{
    match o {
        Some(e) => lloc_expr(*e),
        None => 0,
    }
}

/// Logical lines contributed by one expression and its subtree: one for
/// the node itself when its kind is statement-like, plus its children.
/// A call on the right-hand side of a binding deliberately counts
/// besides the binding itself.
pub open spec fn lloc_expr(e: Expr) -> nat
    decreases e,
{
    match e {
        Expr::If { cond, then_branch, else_branch } => 1 + lloc_expr(*cond) + lloc_block(
            then_branch,
        ) + lloc_opt(else_branch),
        Expr::While { cond, body } => 1 + lloc_expr(*cond) + lloc_block(body),
        Expr::ForLoop { iter, body } => 1 + lloc_expr(*iter) + lloc_block(body),
        Expr::Loop { body } => 1 + lloc_block(body),
        Expr::Match { scrutinee, arms } => 1 + lloc_expr(*scrutinee) + lloc_arms(arms@),
        Expr::Binary { op: _, left, right } => lloc_expr(*left) + lloc_expr(*right),
        Expr::Assign { left, right } => 1 + lloc_expr(*left) + lloc_expr(*right),
        Expr::AssignOp { left, right } => 1 + lloc_expr(*left) + lloc_expr(*right),
        Expr::Call { func, args } => 1 + lloc_expr(*func) + lloc_exprs(args@),
        Expr::MethodCall { receiver, args } => 1 + lloc_expr(*receiver) + lloc_exprs(args@),
        Expr::MacroCall => 1,
        Expr::Continue => 1,
        Expr::Break(inner) => 1 + lloc_opt(inner),
        Expr::Return(inner) => 1 + lloc_opt(inner),
        Expr::Yield(inner) => 1 + lloc_opt(inner),
        Expr::Await(inner) => 1 + lloc_expr(*inner),
        Expr::LetCond(inner) => 1 + lloc_expr(*inner),
        Expr::Unsafe(body) => 1 + lloc_block(body),
        Expr::Try(inner) => 1 + lloc_expr(*inner),
        Expr::Repeat { elem, len } => 1 + lloc_expr(*elem) + lloc_expr(*len),
        Expr::StructLit { fields } => 1 + lloc_exprs(fields@),
        Expr::Field(base) => 1 + lloc_expr(*base),
        Expr::BlockExpr(body) => lloc_block(body),
        Expr::Leaf => 0,
        Expr::Other(children) => lloc_exprs(children@),
    }
}

/// Logical lines of a sequence of sibling expressions.
pub open spec fn lloc_exprs(s: Seq<Expr>) -> nat
    decreases s,
{
    if s.len() == 0 {
        0
    } else {
        lloc_expr(s.first()) + lloc_exprs(s.drop_first())
    }
}

/// Logical lines of one match arm: its guard and body; the arm itself
/// contributes nothing.
pub open spec fn lloc_arm(a: Arm) -> nat
    decreases a,
{
    lloc_opt(a.guard) + lloc_expr(*a.body)
}

/// Logical lines of a sequence of match arms.
pub open spec fn lloc_arms(s: Seq<Arm>) -> nat
    decreases s,
{
    if s.len() == 0 {
        0
    } else {
        lloc_arm(s.first()) + lloc_arms(s.drop_first())
    }
}

/// Logical lines of one statement: one per binding and one per nested
/// item statement, besides what the statement contains.
pub open spec fn lloc_stmt(s: Stmt) -> nat
    decreases s,
{
    match s {
        Stmt::Local(init) => 1 + match init {
            Some(e) => lloc_expr(e),
            None => 0nat,
        },
        Stmt::ItemStmt(it) => 1 + lloc_item(it),
        Stmt::ExprStmt(e) => lloc_expr(e),
    }
}

/// Logical lines of a sequence of sibling statements.
pub open spec fn lloc_stmts(s: Seq<Stmt>) -> nat
    decreases s,
{
    if s.len() == 0 {
        0
    } else {
        lloc_stmt(s.first()) + lloc_stmts(s.drop_first())
    }
}

/// Logical lines of a block.
pub open spec fn lloc_block(b: Block) -> nat
    decreases b,
{
    lloc_stmts(b.stmts@)
}

/// Logical lines of one item: one for the declaration itself, plus its
/// contents.
pub open spec fn lloc_item(it: Item) -> nat
    decreases it,
{
    match it {
        Item::Fn(f) => 1 + lloc_block(f.body),
        Item::Impl(methods) => 1 + lloc_methods(methods@),
        Item::Mod(items) => 1 + lloc_items(items@),
        Item::Other => 1,
    }
}

/// Logical lines of a sequence of methods; the enclosing `impl` already
/// counted, the methods only contribute their bodies.
pub open spec fn lloc_methods(s: Seq<FnDef>) -> nat
    decreases s,
{
    if s.len() == 0 {
        0
    } else {
        lloc_block(s.first().body) + lloc_methods(s.drop_first())
    }
}

/// Logical lines of a sequence of items.
pub open spec fn lloc_items(s: Seq<Item>) -> nat
    decreases s,
{
    if s.len() == 0 {
        0
    } else {
        lloc_item(s.first()) + lloc_items(s.drop_first())
    }
}

/// Logical lines of a whole function unit: one for the unit itself plus
/// its body.
pub open spec fn fn_lloc(f: FnDef) -> nat {
    1 + lloc_block(f.body)
}

/// The accumulated line counts of one analyzed unit.
pub struct LocVisitor {
    /// First source line of the unit; 0 for an empty unit.
    pub start: usize,
    /// Last source line of the unit; 0 for an empty unit.
    pub end: usize,
    /// The distinct source lines holding at least one leaf token.
    pub code_lines: HashSet<usize>,
    /// The logical line count.
    pub lloc: usize,
}

impl Default for LocVisitor {
    /// A fresh visitor: empty span, no lines, zero count.
    fn default() -> (r: Self)
        ensures
            r.start == 0,
            r.end == 0,
            r.code_lines@ == Set::<usize>::empty(),
            r.lloc == 0,
    {
        LocVisitor { start: 0, end: 0, code_lines: HashSet::new(), lloc: 0 }
    }
}

impl LocVisitor {
    /// Source lines of code: the length of the unit's line span.
    pub fn sloc(&self) -> (r: usize)
        requires
            self.start <= self.end,
            self.end - self.start + 1 <= usize::MAX,
        ensures
            r == self.end - self.start + 1,
    {
        self.end - self.start + 1
    }

    /// Physical lines of code: how many distinct lines hold code.
    pub fn ploc(&self) -> (r: usize)
        ensures
            r as nat == self.code_lines@.len(),
    {
        proof {
            broadcast use vstd::std_specs::hash::group_hash_axioms;

        }
        self.code_lines.len()
    }
}

/// Records into the visitor every line the token touches: inner tokens
/// of a group first, then the group's own delimiter lines; a leaf only
/// its start line.
pub fn parse_token_tree(node: &Token, loc_visitor: &mut LocVisitor)
    ensures
        final(loc_visitor).code_lines@ == old(loc_visitor).code_lines@.union(touched_lines(*node)),
        final(loc_visitor).start == old(loc_visitor).start,
        final(loc_visitor).end == old(loc_visitor).end,
        final(loc_visitor).lloc == old(loc_visitor).lloc,
    decreases token_height(*node),
{
    proof {
        broadcast use vstd::std_specs::hash::group_hash_axioms;

    }
    match node {
        Token::Leaf(sp) => {
            loc_visitor.code_lines.insert(sp.start);
            proof {
                assert(loc_visitor.code_lines@ =~= old(loc_visitor).code_lines@.union(
                    touched_lines(*node),
                ));
            }
        },
        Token::Group(sp, inner) => {
            let ghost entry = loc_visitor.code_lines@;
            let mut i: usize = 0;
            proof {
                assert(inner@.skip(0) == inner@);
                assert(entry.union(touched_lines_seq(inner@.skip(0))) == entry.union(
                    touched_lines_seq(inner@),
                ));
            }
            while i < inner.len()
                invariant
                    0 <= i <= inner@.len(),
                    loc_visitor.code_lines@.union(touched_lines_seq(inner@.skip(i as int)))
                        == entry.union(touched_lines_seq(inner@)),
                    loc_visitor.start == old(loc_visitor).start,
                    loc_visitor.end == old(loc_visitor).end,
                    loc_visitor.lloc == old(loc_visitor).lloc,
                    *node == Token::Group(*sp, *inner),
                decreases inner@.len() - i,
            {
                proof {
                    broadcast use vstd::std_specs::vec::axiom_vec_index_decreases;

                    lemma_tokens_height_elem(inner@, i as int);
                    assert(inner@.skip(i as int).first() == inner@[i as int]);
                    assert(inner@.skip(i as int).drop_first() == inner@.skip(i as int + 1));
                }
                let ghost before = loc_visitor.code_lines@;
                parse_token_tree(&inner[i], loc_visitor);
                proof {
                    assert(loc_visitor.code_lines@.union(touched_lines_seq(inner@.skip(i as int + 1)))
                        =~= before.union(touched_lines_seq(inner@.skip(i as int))));
                }
                i = i + 1;
            }
            proof {
                assert(touched_lines_seq(inner@.skip(inner@.len() as int)) == Set::<usize>::empty());
                assert(loc_visitor.code_lines@ =~= entry.union(touched_lines_seq(inner@)));
            }
            loc_visitor.code_lines.insert(sp.start);
            loc_visitor.code_lines.insert(sp.end);
            proof {
                assert(touched_lines(*node) == touched_lines_seq(inner@).insert(sp.start).insert(
                    sp.end,
                ));
                assert(loc_visitor.code_lines@ =~= entry.union(touched_lines(*node)));
            }
        },
    }
}

/// Scans a unit's token stream: sets the unit's line span and collects
/// its touched lines; the logical count stays zero.
pub fn parse_loc_from_token_stream(tokens: &Vec<Token>) -> (r: LocVisitor)
    ensures
        r.start == stream_start(tokens@),
        r.end == stream_end(tokens@),
        r.code_lines@ == touched_lines_seq(tokens@),
        r.lloc == 0,
{
    let mut loc_visitor = LocVisitor::default();
    if tokens.len() > 0 {
        loc_visitor.start = match &tokens[0] {
            Token::Leaf(sp) => sp.start,
            Token::Group(sp, _) => sp.start,
        };
        proof {
            assert(tokens@.first() == tokens@[0]);
        }
    }
    let mut i: usize = 0;
    proof {
        assert(tokens@.skip(0) == tokens@);
        assert(Set::<usize>::empty().union(touched_lines_seq(tokens@)) =~= touched_lines_seq(
            tokens@,
        ));
    }
    while i < tokens.len()
        invariant
            0 <= i <= tokens@.len(),
            loc_visitor.start == stream_start(tokens@),
            loc_visitor.lloc == 0,
            ({
                let e = loc_visitor.end;
                let rest = stream_end(tokens@.skip(i as int));
                (if e > rest {
                    e as nat
                } else {
                    rest as nat
                }) == stream_end(tokens@)
            }),
            loc_visitor.code_lines@.union(touched_lines_seq(tokens@.skip(i as int)))
                == touched_lines_seq(tokens@),
        decreases tokens@.len() - i,
    {
        proof {
            assert(tokens@.skip(i as int).first() == tokens@[i as int]);
            assert(tokens@.skip(i as int).drop_first() == tokens@.skip(i as int + 1));
        }
        let node_end = match &tokens[i] {
            Token::Leaf(sp) => sp.end,
            Token::Group(sp, _) => sp.end,
        };
        if loc_visitor.end < node_end {
            loc_visitor.end = node_end;
        }
        let ghost before = loc_visitor.code_lines@;
        parse_token_tree(&tokens[i], &mut loc_visitor);
        proof {
            assert(loc_visitor.code_lines@.union(touched_lines_seq(tokens@.skip(i as int + 1)))
                =~= before.union(touched_lines_seq(tokens@.skip(i as int))));
        }
        i = i + 1;
    }
    proof {
        assert(touched_lines_seq(tokens@.skip(tokens@.len() as int)) == Set::<usize>::empty());
        assert(loc_visitor.code_lines@.union(Set::<usize>::empty()) =~= loc_visitor.code_lines@);
    }
    loc_visitor
}

fn lloc_opt_exec(o: &Option<Box<Expr>>) -> (r: usize)
    requires
        lloc_opt(*o) <= usize::MAX,
    ensures
        r as nat == lloc_opt(*o),
    decreases *o,
{
    match o {
        Some(e) => {
            proof {
                assert(decreases_to!(*o => *e));
            }
            lloc_expr_exec(e)
        },
        None => 0,
    }
}

fn lloc_expr_exec(e: &Expr) -> (r: usize)
    requires
        lloc_expr(*e) <= usize::MAX,
    ensures
        r as nat == lloc_expr(*e),
    decreases *e,
{
    match e {
        Expr::If { cond, then_branch, else_branch } => {
            proof {
                assert(decreases_to!(*e => *cond));
                assert(decreases_to!(*e => *then_branch));
                assert(decreases_to!(*e => *else_branch));
            }
            let a = lloc_expr_exec(cond);
            let b = lloc_block_exec(then_branch);
            let c = lloc_opt_exec(else_branch);
            1 + a + b + c
        },
        Expr::While { cond, body } => {
            proof {
                assert(decreases_to!(*e => *cond));
                assert(decreases_to!(*e => *body));
            }
            let a = lloc_expr_exec(cond);
            let b = lloc_block_exec(body);
            1 + a + b
        },
        Expr::ForLoop { iter, body } => {
            proof {
                assert(decreases_to!(*e => *iter));
                assert(decreases_to!(*e => *body));
            }
            let a = lloc_expr_exec(iter);
            let b = lloc_block_exec(body);
            1 + a + b
        },
        Expr::Loop { body } => {
            proof {
                assert(decreases_to!(*e => *body));
            }
            let b = lloc_block_exec(body);
            1 + b
        },
        Expr::Match { scrutinee, arms } => {
            proof {
                assert(decreases_to!(*e => *scrutinee));
                assert(decreases_to!(*e => *arms));
            }
            let a = lloc_expr_exec(scrutinee);
            let b = lloc_arms_exec(arms);
            1 + a + b
        },
        Expr::Binary { op: _, left, right } => {
            proof {
                assert(decreases_to!(*e => *left));
                assert(decreases_to!(*e => *right));
            }
            let a = lloc_expr_exec(left);
            let b = lloc_expr_exec(right);
            a + b
        },
        Expr::Assign { left, right } => {
            proof {
                assert(decreases_to!(*e => *left));
                assert(decreases_to!(*e => *right));
            }
            let a = lloc_expr_exec(left);
            let b = lloc_expr_exec(right);
            1 + a + b
        },
        Expr::AssignOp { left, right } => {
            proof {
                assert(decreases_to!(*e => *left));
                assert(decreases_to!(*e => *right));
            }
            let a = lloc_expr_exec(left);
            let b = lloc_expr_exec(right);
            1 + a + b
        },
        Expr::Call { func, args } => {
            proof {
                assert(decreases_to!(*e => *func));
                assert(decreases_to!(*e => *args));
            }
            let a = lloc_expr_exec(func);
            let b = lloc_exprs_exec(args);
            1 + a + b
        },
        Expr::MethodCall { receiver, args } => {
            proof {
                assert(decreases_to!(*e => *receiver));
                assert(decreases_to!(*e => *args));
            }
            let a = lloc_expr_exec(receiver);
            let b = lloc_exprs_exec(args);
            1 + a + b
        },
        Expr::MacroCall => 1,
        Expr::Continue => 1,
        Expr::Break(inner) => {
            proof {
                assert(decreases_to!(*e => *inner));
            }
            let a = lloc_opt_exec(inner);
            1 + a
        },
        Expr::Return(inner) => {
            proof {
                assert(decreases_to!(*e => *inner));
            }
            let a = lloc_opt_exec(inner);
            1 + a
        },
        Expr::Yield(inner) => {
            proof {
                assert(decreases_to!(*e => *inner));
            }
            let a = lloc_opt_exec(inner);
            1 + a
        },
        Expr::Await(inner) => {
            proof {
                assert(decreases_to!(*e => *inner));
            }
            let a = lloc_expr_exec(inner);
            1 + a
        },
        Expr::LetCond(inner) => {
            proof {
                assert(decreases_to!(*e => *inner));
            }
            let a = lloc_expr_exec(inner);
            1 + a
        },
        Expr::Unsafe(body) => {
            proof {
                assert(decreases_to!(*e => *body));
            }
            let b = lloc_block_exec(body);
            1 + b
        },
        Expr::Try(inner) => {
            proof {
                assert(decreases_to!(*e => *inner));
            }
            let a = lloc_expr_exec(inner);
            1 + a
        },
        Expr::Repeat { elem, len } => {
            proof {
                assert(decreases_to!(*e => *elem));
                assert(decreases_to!(*e => *len));
            }
            let a = lloc_expr_exec(elem);
            let b = lloc_expr_exec(len);
            1 + a + b
        },
        Expr::StructLit { fields } => {
            proof {
                assert(decreases_to!(*e => *fields));
            }
            let b = lloc_exprs_exec(fields);
            1 + b
        },
        Expr::Field(base) => {
            proof {
                assert(decreases_to!(*e => *base));
            }
            let a = lloc_expr_exec(base);
            1 + a
        },
        Expr::BlockExpr(body) => {
            proof {
                assert(decreases_to!(*e => *body));
            }
            lloc_block_exec(body)
        },
        Expr::Leaf => 0,
        Expr::Other(children) => {
            proof {
                assert(decreases_to!(*e => *children));
            }
            lloc_exprs_exec(children)
        },
    }
}

fn lloc_exprs_exec(v: &Vec<Expr>) -> (r: usize)
    requires
        lloc_exprs(v@) <= usize::MAX,
    ensures
        r as nat == lloc_exprs(v@),
    decreases *v,
{
    let mut total: usize = 0;
    let mut i: usize = 0;
    proof {
        assert(v@.skip(0) == v@);
    }
    while i < v.len()
        invariant
            0 <= i <= v@.len(),
            total as nat + lloc_exprs(v@.skip(i as int)) == lloc_exprs(v@),
            lloc_exprs(v@) <= usize::MAX,
        decreases v@.len() - i,
    {
        proof {
            broadcast use vstd::std_specs::vec::axiom_vec_index_decreases;

            assert(decreases_to!(*v => v@[i as int]));
            assert(v@.skip(i as int).first() == v@[i as int]);
            assert(v@.skip(i as int).drop_first() == v@.skip(i as int + 1));
        }
        let c = lloc_expr_exec(&v[i]);
        total = total + c;
        i = i + 1;
    }
    total
}

fn lloc_arms_exec(v: &Vec<Arm>) -> (r: usize)
    requires
        lloc_arms(v@) <= usize::MAX,
    ensures
        r as nat == lloc_arms(v@),
    decreases *v,
{
    let mut total: usize = 0;
    let mut i: usize = 0;
    proof {
        assert(v@.skip(0) == v@);
    }
    while i < v.len()
        invariant
            0 <= i <= v@.len(),
            total as nat + lloc_arms(v@.skip(i as int)) == lloc_arms(v@),
            lloc_arms(v@) <= usize::MAX,
        decreases v@.len() - i,
    {
        proof {
            broadcast use vstd::std_specs::vec::axiom_vec_index_decreases;

            assert(decreases_to!(*v => v@[i as int]));
            assert(v@.skip(i as int).first() == v@[i as int]);
            assert(v@.skip(i as int).drop_first() == v@.skip(i as int + 1));
            assert(lloc_arms(v@.skip(i as int)) == lloc_arm(v@[i as int]) + lloc_arms(
                v@.skip(i as int + 1),
            ));
        }
        let a = &v[i];
        let g: usize = match &a.guard {
            Some(gexpr) => {
                proof {
                    assert(a.guard == Some(*gexpr));
                    assert(lloc_arm(v@[i as int]) == lloc_expr(**gexpr) + lloc_expr(
                        *v@[i as int].body,
                    ));
                    assert(decreases_to!(v@[i as int] => v@[i as int].guard));
                    assert(decreases_to!(v@[i as int].guard => *gexpr));
                }
                lloc_expr_exec(gexpr)
            },
            None => 0,
        };
        proof {
            assert(decreases_to!(v@[i as int] => *a.body));
        }
        let b = lloc_expr_exec(&a.body);
        total = total + g + b;
        i = i + 1;
    }
    total
}

fn lloc_stmt_exec(s: &Stmt) -> (r: usize)
    requires
        lloc_stmt(*s) <= usize::MAX,
    ensures
        r as nat == lloc_stmt(*s),
    decreases *s,
{
    match s {
        Stmt::Local(init) => match init {
            Some(e) => {
                proof {
                    assert(decreases_to!(*s => *e));
                }
                let a = lloc_expr_exec(e);
                1 + a
            },
            None => 1,
        },
        Stmt::ItemStmt(it) => {
            proof {
                assert(decreases_to!(*s => *it));
            }
            let a = lloc_item_exec(it);
            1 + a
        },
        Stmt::ExprStmt(e) => {
            proof {
                assert(decreases_to!(*s => *e));
            }
            lloc_expr_exec(e)
        },
    }
}

fn lloc_block_exec(b: &Block) -> (r: usize)
    requires
        lloc_block(*b) <= usize::MAX,
    ensures
        r as nat == lloc_block(*b),
    decreases *b,
{
    let mut total: usize = 0;
    let mut i: usize = 0;
    proof {
        assert(b.stmts@.skip(0) == b.stmts@);
    }
    while i < b.stmts.len()
        invariant
            0 <= i <= b.stmts@.len(),
            total as nat + lloc_stmts(b.stmts@.skip(i as int)) == lloc_block(*b),
            lloc_block(*b) <= usize::MAX,
        decreases b.stmts@.len() - i,
    {
        proof {
            broadcast use vstd::std_specs::vec::axiom_vec_index_decreases;

            assert(decreases_to!(*b => b.stmts));
            assert(decreases_to!(b.stmts => b.stmts@[i as int]));
            assert(b.stmts@.skip(i as int).first() == b.stmts@[i as int]);
            assert(b.stmts@.skip(i as int).drop_first() == b.stmts@.skip(i as int + 1));
        }
        let c = lloc_stmt_exec(&b.stmts[i]);
        total = total + c;
        i = i + 1;
    }
    total
}

fn lloc_item_exec(it: &Item) -> (r: usize)
    requires
        lloc_item(*it) <= usize::MAX,
    ensures
        r as nat == lloc_item(*it),
    decreases *it,
{
    match it {
        Item::Fn(f) => {
            proof {
                assert(decreases_to!(*it => *f));
                assert(decreases_to!(*f => f.body));
            }
            let c = lloc_block_exec(&f.body);
            1 + c
        },
        Item::Impl(methods) => {
            proof {
                assert(decreases_to!(*it => *methods));
            }
            let c = lloc_methods_exec(methods);
            1 + c
        },
        Item::Mod(items) => {
            proof {
                assert(decreases_to!(*it => *items));
            }
            let c = lloc_items_exec(items);
            1 + c
        },
        Item::Other => 1,
    }
}

fn lloc_methods_exec(v: &Vec<FnDef>) -> (r: usize)
    requires
        lloc_methods(v@) <= usize::MAX,
    ensures
        r as nat == lloc_methods(v@),
    decreases *v,
{
    let mut total: usize = 0;
    let mut i: usize = 0;
    proof {
        assert(v@.skip(0) == v@);
    }
    while i < v.len()
        invariant
            0 <= i <= v@.len(),
            total as nat + lloc_methods(v@.skip(i as int)) == lloc_methods(v@),
            lloc_methods(v@) <= usize::MAX,
        decreases v@.len() - i,
    {
        proof {
            broadcast use vstd::std_specs::vec::axiom_vec_index_decreases;

            assert(decreases_to!(*v => v@[i as int]));
            assert(decreases_to!(v@[i as int] => v@[i as int].body));
            assert(v@.skip(i as int).first() == v@[i as int]);
            assert(v@.skip(i as int).drop_first() == v@.skip(i as int + 1));
        }
        let c = lloc_block_exec(&v[i].body);
        total = total + c;
        i = i + 1;
    }
    total
}

fn lloc_items_exec(v: &Vec<Item>) -> (r: usize)
    requires
        lloc_items(v@) <= usize::MAX,
    ensures
        r as nat == lloc_items(v@),
    decreases *v,
{
    let mut total: usize = 0;
    let mut i: usize = 0;
    proof {
        assert(v@.skip(0) == v@);
    }
    while i < v.len()
        invariant
            0 <= i <= v@.len(),
            total as nat + lloc_items(v@.skip(i as int)) == lloc_items(v@),
            lloc_items(v@) <= usize::MAX,
        decreases v@.len() - i,
    {
        proof {
            broadcast use vstd::std_specs::vec::axiom_vec_index_decreases;

            assert(decreases_to!(*v => v@[i as int]));
            assert(v@.skip(i as int).first() == v@[i as int]);
            assert(v@.skip(i as int).drop_first() == v@.skip(i as int + 1));
        }
        let c = lloc_item_exec(&v[i]);
        total = total + c;
        i = i + 1;
    }
    total
}

/// All line counts for a whole parsed file and its token stream. Like
/// every unit, the file itself seeds the logical count with one.
pub fn compute_file_loc(ast_file: &SourceFile, tokens: &Vec<Token>) -> (r: LocVisitor)
    requires
        1 + lloc_items(ast_file.items@) <= usize::MAX,
    ensures
        r.start == stream_start(tokens@),
        r.end == stream_end(tokens@),
        r.code_lines@ == touched_lines_seq(tokens@),
        r.lloc as nat == 1 + lloc_items(ast_file.items@),
{
    let mut loc_visitor = parse_loc_from_token_stream(tokens);
    let c = lloc_items_exec(&ast_file.items);
    loc_visitor.lloc = 1 + c;
    loc_visitor
}

/// All line counts for a free function and its token stream.
pub fn compute_itemfn_loc(itemfn: &FnDef, tokens: &Vec<Token>) -> (r: LocVisitor)
    requires
        fn_lloc(*itemfn) <= usize::MAX,
    ensures
        r.start == stream_start(tokens@),
        r.end == stream_end(tokens@),
        r.code_lines@ == touched_lines_seq(tokens@),
        r.lloc as nat == fn_lloc(*itemfn),
{
    let mut loc_visitor = parse_loc_from_token_stream(tokens);
    let c = lloc_block_exec(&itemfn.body);
    loc_visitor.lloc = 1 + c;
    loc_visitor
}

/// All line counts for an inherent or trait method and its token stream.
pub fn compute_impl_method_loc(impl_method: &FnDef, tokens: &Vec<Token>) -> (r: LocVisitor)
    requires
        fn_lloc(*impl_method) <= usize::MAX,
    ensures
        r.start == stream_start(tokens@),
        r.end == stream_end(tokens@),
        r.code_lines@ == touched_lines_seq(tokens@),
        r.lloc as nat == fn_lloc(*impl_method),
{
    let mut loc_visitor = parse_loc_from_token_stream(tokens);
    let c = lloc_block_exec(&impl_method.body);
    loc_visitor.lloc = 1 + c;
    loc_visitor
}


/// Whether a span is well-formed: it ends no earlier than it starts.
pub open spec fn span_wf(sp: Span) -> bool {
    sp.start <= sp.end
}

/// Whether a token is well-formed: its span is, and a group's inner
/// tokens lie within the group's own span.
pub open spec fn token_wf(t: Token) -> bool
    decreases t,
{
    match t {
        Token::Leaf(sp) => span_wf(sp),
        Token::Group(sp, inner) => span_wf(sp) && tokens_wf(inner@) && (forall|i: int|
            0 <= i < inner@.len() ==> sp.start <= (#[trigger] token_span(inner@[i])).start
                && token_span(inner@[i]).end <= sp.end),
    }
}

/// Whether every token of a sequence is well-formed.
pub open spec fn tokens_wf(s: Seq<Token>) -> bool
    decreases s,
{
    if s.len() == 0 {
        true
    } else {
        token_wf(s.first()) && tokens_wf(s.drop_first())
    }
}

/// Whether a unit's token stream is well-formed: its tokens are, and
/// none starts before the first — token streams come in source order.
pub open spec fn stream_wf(s: Seq<Token>) -> bool {
    tokens_wf(s) && (forall|i: int|
        0 <= i < s.len() ==> stream_start(s) <= (#[trigger] token_span(s[i])).start)
}

proof fn lemma_tokens_wf_elem(s: Seq<Token>, i: int)
    requires
        tokens_wf(s),
        0 <= i < s.len(),
    ensures
        token_wf(s[i]),
    decreases s.len(),
{
    if i > 0 {
        lemma_tokens_wf_elem(s.drop_first(), i - 1);
        assert(s.drop_first()[i - 1] == s[i]);
    }
}

proof fn lemma_stream_end_bound(s: Seq<Token>, i: int)
    requires
        0 <= i < s.len(),
    ensures
        token_span(s[i]).end <= stream_end(s),
    decreases s.len(),
{
    if i > 0 {
        lemma_stream_end_bound(s.drop_first(), i - 1);
        assert(s.drop_first()[i - 1] == s[i]);
    }
}

proof fn lemma_touched_in_span(t: Token)
    requires
        token_wf(t),
    ensures
        forall|l: usize|
            touched_lines(t).contains(l) ==> token_span(t).start <= l <= token_span(t).end,
    decreases token_height(t), 0nat,
{
    broadcast use vstd::set::group_set_axioms;

    match t {
        Token::Leaf(_) => {},
        Token::Group(sp, inner) => {
            lemma_touched_seq_in_range(inner@, sp.start, sp.end);
            assert forall|l: usize| touched_lines(t).contains(l) implies token_span(t).start <= l
                <= token_span(t).end by {
                if l != sp.start && l != sp.end {
                    assert(touched_lines_seq(inner@).contains(l));
                }
            }
        },
    }
}

proof fn lemma_touched_seq_in_range(s: Seq<Token>, lo: usize, hi: usize)
    requires
        tokens_wf(s),
        forall|i: int|
            0 <= i < s.len() ==> lo <= (#[trigger] token_span(s[i])).start && token_span(
                s[i],
            ).end <= hi,
    ensures
        forall|l: usize| touched_lines_seq(s).contains(l) ==> lo <= l <= hi,
    decreases tokens_height(s), s.len(),
{
    broadcast use vstd::set::group_set_axioms;

    if s.len() > 0 {
        assert(token_height(s.first()) <= tokens_height(s));
        assert(tokens_height(s.drop_first()) <= tokens_height(s));
        lemma_touched_in_span(s.first());
        assert(forall|i: int| 0 <= i < s.drop_first().len() ==> s.drop_first()[i] == s[i + 1]);
        lemma_touched_seq_in_range(s.drop_first(), lo, hi);
        assert(token_span(s[0]).start <= token_span(s[0]).end) by {
            lemma_tokens_wf_elem(s, 0);
            match s[0] {
                Token::Leaf(_) => {},
                Token::Group(_, _) => {},
            }
        }
        assert forall|l: usize| touched_lines_seq(s).contains(l) implies lo <= l <= hi by {
            assert(s.first() == s[0]);
            if touched_lines(s.first()).contains(l) {
                assert(token_span(s[0]).start <= l <= token_span(s[0]).end);
            } else {
                assert(touched_lines_seq(s.drop_first()).contains(l));
            }
        }
    }
}

/// The set of source-line numbers from `lo` to `hi` inclusive.
pub open spec fn line_range(lo: usize, hi: usize) -> Set<usize> {
    Set::new(|x: usize| lo <= x <= hi)
}

proof fn lemma_line_range_card(lo: usize, hi: usize)
    requires
        lo <= hi,
    ensures
        line_range(lo, hi).finite(),
        line_range(lo, hi).len() == hi - lo + 1,
    decreases hi - lo,
{
    broadcast use vstd::set::group_set_axioms;

    if lo == hi {
        assert(line_range(lo, hi) =~= Set::<usize>::empty().insert(lo));
    } else {
        lemma_line_range_card(lo, (hi - 1) as usize);
        assert(line_range(lo, hi) =~= line_range(lo, (hi - 1) as usize).insert(hi));
        assert(!line_range(lo, (hi - 1) as usize).contains(hi));
    }
}

/// Physical lines never exceed source lines: every line a token touches
/// lies within the unit's own span, whose length is the source count.
pub proof fn lemma_ploc_le_sloc(tokens: Seq<Token>)
    requires
        stream_wf(tokens),
    ensures
        stream_start(tokens) <= stream_end(tokens),
        touched_lines_seq(tokens).finite(),
        touched_lines_seq(tokens).len() <= stream_end(tokens) - stream_start(tokens) + 1,
{
    broadcast use vstd::set::group_set_axioms;

    if tokens.len() == 0 {
        assert(touched_lines_seq(tokens) =~= Set::<usize>::empty());
    } else {
        let lo = stream_start(tokens);
        let hi = stream_end(tokens);
        lemma_tokens_wf_elem(tokens, 0);
        lemma_stream_end_bound(tokens, 0);
        assert(token_span(tokens[0]).start <= token_span(tokens[0]).end) by {
            match tokens[0] {
                Token::Leaf(_) => {},
                Token::Group(_, _) => {},
            }
        }
        assert(tokens.first() == tokens[0]);
        assert(lo <= hi);
        assert forall|i: int| 0 <= i < tokens.len() implies lo <= (#[trigger] token_span(
            tokens[i],
        )).start && token_span(tokens[i]).end <= hi by {
            lemma_stream_end_bound(tokens, i);
        }
        lemma_touched_seq_in_range(tokens, lo, hi);
        lemma_line_range_card(lo, hi);
        assert(touched_lines_seq(tokens).subset_of(line_range(lo, hi)));
        vstd::set_lib::lemma_len_subset(touched_lines_seq(tokens), line_range(lo, hi));
    }
}

/// When every source line of the unit's span holds at least one token,
/// the physical count equals the source count exactly.
pub proof fn lemma_ploc_eq_sloc(tokens: Seq<Token>)
    requires
        stream_wf(tokens),
        tokens.len() > 0,
        forall|l: usize|
            stream_start(tokens) <= l <= stream_end(tokens) ==> touched_lines_seq(
                tokens,
            ).contains(l),
    ensures
        touched_lines_seq(tokens).len() == stream_end(tokens) - stream_start(tokens) + 1,
{
    broadcast use vstd::set::group_set_axioms;

    let lo = stream_start(tokens);
    let hi = stream_end(tokens);
    lemma_ploc_le_sloc(tokens);
    assert forall|i: int| 0 <= i < tokens.len() implies lo <= (#[trigger] token_span(
        tokens[i],
    )).start && token_span(tokens[i]).end <= hi by {
        lemma_stream_end_bound(tokens, i);
    }
    lemma_touched_seq_in_range(tokens, lo, hi);
    assert(touched_lines_seq(tokens) =~= line_range(lo, hi));
    lemma_line_range_card(lo, hi);
}

} // verus!
