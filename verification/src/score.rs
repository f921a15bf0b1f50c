//! Structural complexity of statement blocks, and the unsafe-region scan.
//!
//! [`block_score`] gives the mathematical definition: each statement of a
//! block contributes one unit, control-flow statements additionally charge
//! one unit per branch slot and the score of every block they enclose, and
//! a bare nested block is transparent. [`score`] computes it. [`analyze`]
//! scans the top level of a function body for unsafe regions and scores
//! each region's body.

use vstd::prelude::*;
use crate::ast::{Block, Expression, Statement};

verus! {

/// The complexity score of a block: the sum of its statements' contributions.
pub open spec fn block_score(b: Block) -> int
    decreases b,
{
    stmts_score(b.stmts@)
}

/// The summed contributions of a sequence of statements.
pub open spec fn stmts_score(s: Seq<Statement>) -> int
    decreases s,
{
    if s.len() == 0 {
        0
    } else {
        stmt_score(s[0]) + stmts_score(s.subrange(1, s.len() as int))
    }
}

/// The contribution of one statement: a statement in expression position
/// is weighted by its expression's shape, everything else counts 1.
pub open spec fn stmt_score(st: Statement) -> int
    decreases st,
{
    match st {
        Statement::ExprStmt { expr, .. } => expr_stmt_score(expr),
        _ => 1,
    }
}

/// The contribution of an expression standing as a statement.
pub open spec fn expr_stmt_score(e: Expression) -> int
    decreases e,
{
    match e {
        Expression::Loop(body) => 1 + block_score(body),
        Expression::While(body) => 1 + block_score(body),
        Expression::ForLoop(body) => 1 + block_score(body),
        Expression::TryBlock(body) => 1 + block_score(body),
        Expression::UnsafeBlock(body) => 1 + block_score(body),
        Expression::BlockExpr(body) => block_score(body),
        Expression::If { then_block, else_branch } => {
            1 + block_score(then_block) + (match else_branch {
                Some(eb) => 1 + enclosed_block_score(*eb),
                None => 0,
            })
        },
        Expression::Match(arms) => 1 + arms_score(arms@),
        Expression::TryOperator(_) => 1,
        _ => 1,
    }
}

/// The score of the block an expression encloses, where the expression is
/// a bare block; 0 for every other shape. This is what an else-branch or
/// a match arm adds beyond its own branch slot.
pub open spec fn enclosed_block_score(e: Expression) -> int
    decreases e,
{
    match e {
        Expression::BlockExpr(body) => block_score(body),
        _ => 0,
    }
}

/// The summed contributions of a sequence of match arms: one unit per
/// arm, plus the score of an arm body that is a bare block.
pub open spec fn arms_score(arms: Seq<Expression>) -> int
    decreases arms,
{
    if arms.len() == 0 {
        0
    } else {
        1 + enclosed_block_score(arms[0]) + arms_score(arms.subrange(1, arms.len() as int))
    }
}

/// A block never scores below zero.
pub proof fn lemma_block_score_nonneg(b: Block)
    ensures
        block_score(b) >= 0,
    decreases b,
{
    lemma_stmts_score_nonneg(b.stmts@);
}

proof fn lemma_stmts_score_nonneg(s: Seq<Statement>)
    ensures
        stmts_score(s) >= 0,
    decreases s,
{
    if s.len() > 0 {
        lemma_stmt_score_nonneg(s[0]);
        lemma_stmts_score_nonneg(s.subrange(1, s.len() as int));
    }
}

proof fn lemma_stmt_score_nonneg(st: Statement)
    ensures
        stmt_score(st) >= 0,
    decreases st,
{
    match st {
        Statement::ExprStmt { expr, .. } => lemma_expr_stmt_score_nonneg(expr),
        _ => {},
    }
}

proof fn lemma_expr_stmt_score_nonneg(e: Expression)
    ensures
        expr_stmt_score(e) >= 0,
    decreases e,
{
    match e {
        Expression::Loop(body) => lemma_block_score_nonneg(body),
        Expression::While(body) => lemma_block_score_nonneg(body),
        Expression::ForLoop(body) => lemma_block_score_nonneg(body),
        Expression::TryBlock(body) => lemma_block_score_nonneg(body),
        Expression::UnsafeBlock(body) => lemma_block_score_nonneg(body),
        Expression::BlockExpr(body) => lemma_block_score_nonneg(body),
        Expression::If { then_block, else_branch } => {
            lemma_block_score_nonneg(then_block);
            match else_branch {
                Some(eb) => lemma_enclosed_block_score_nonneg(*eb),
                None => {},
            }
        },
        Expression::Match(arms) => lemma_arms_score_nonneg(arms@),
        _ => {},
    }
}

proof fn lemma_enclosed_block_score_nonneg(e: Expression)
    ensures
        enclosed_block_score(e) >= 0,
    decreases e,
{
    match e {
        Expression::BlockExpr(body) => lemma_block_score_nonneg(body),
        _ => {},
    }
}

proof fn lemma_arms_score_nonneg(arms: Seq<Expression>)
    ensures
        arms_score(arms) >= 0,
    decreases arms,
{
    if arms.len() > 0 {
        lemma_enclosed_block_score_nonneg(arms[0]);
        lemma_arms_score_nonneg(arms.subrange(1, arms.len() as int));
    }
}

/// Appending a statement adds exactly its contribution.
proof fn lemma_stmts_score_push(s: Seq<Statement>, x: Statement)
    ensures
        stmts_score(s.push(x)) == stmts_score(s) + stmt_score(x),
    decreases s,
{
    if s.len() == 0 {
        assert(s.push(x)[0] == x);
        assert(s.push(x).subrange(1, 1) =~= Seq::<Statement>::empty());
        assert(stmts_score(Seq::<Statement>::empty()) == 0);
        assert(stmts_score(s.push(x)) == stmt_score(x) + stmts_score(s.push(x).subrange(1, 1)));
    } else {
        assert(s.push(x)[0] == s[0]);
        assert(s.push(x).subrange(1, s.push(x).len() as int) =~= s.subrange(
            1,
            s.len() as int,
        ).push(x));
        lemma_stmts_score_push(s.subrange(1, s.len() as int), x);
        assert(stmts_score(s.push(x)) == stmt_score(s[0]) + stmts_score(
            s.push(x).subrange(1, s.push(x).len() as int),
        ));
        assert(stmts_score(s) == stmt_score(s[0]) + stmts_score(s.subrange(1, s.len() as int)));
    }
}

/// Appending an arm adds exactly its contribution.
proof fn lemma_arms_score_push(s: Seq<Expression>, x: Expression)
    ensures
        arms_score(s.push(x)) == arms_score(s) + 1 + enclosed_block_score(x),
    decreases s,
{
    if s.len() == 0 {
        assert(s.push(x)[0] == x);
        assert(s.push(x).subrange(1, 1) =~= Seq::<Expression>::empty());
        assert(arms_score(Seq::<Expression>::empty()) == 0);
        assert(arms_score(s.push(x)) == 1 + enclosed_block_score(x) + arms_score(
            s.push(x).subrange(1, 1),
        ));
    } else {
        assert(s.push(x)[0] == s[0]);
        assert(s.push(x).subrange(1, s.push(x).len() as int) =~= s.subrange(
            1,
            s.len() as int,
        ).push(x));
        lemma_arms_score_push(s.subrange(1, s.len() as int), x);
        assert(arms_score(s.push(x)) == 1 + enclosed_block_score(s[0]) + arms_score(
            s.push(x).subrange(1, s.push(x).len() as int),
        ));
        assert(arms_score(s) == 1 + enclosed_block_score(s[0]) + arms_score(
            s.subrange(1, s.len() as int),
        ));
    }
}

/// Computes [`block_score`] for a block whose score fits the machine.
pub fn score(block: &Block) -> (r: usize)
    requires
        block_score(*block) <= usize::MAX as int,
    ensures
        r as int == block_score(*block),
    decreases *block,
{
    let ghost all = block.stmts@;
    let mut total: usize = 0;
    let mut i: usize = 0;
    proof {
        assert(all.subrange(0, 0) =~= Seq::<Statement>::empty());
        assert(all.subrange(0, all.len() as int) =~= all);
    }
    while i < block.stmts.len()
        invariant
            i <= all.len(),
            block.stmts@ == all,
            block_score(*block) == stmts_score(all),
            stmts_score(all) <= usize::MAX as int,
            total as int == stmts_score(all.subrange(0, i as int)),
            stmts_score(all.subrange(0, i as int)) + stmts_score(
                all.subrange(i as int, all.len() as int),
            ) == stmts_score(all),
        decreases all.len() - i,
    {
        proof {
            let suf = all.subrange(i as int, all.len() as int);
            assert(suf[0] == all[i as int]);
            assert(suf.subrange(1, suf.len() as int) =~= all.subrange(
                i as int + 1,
                all.len() as int,
            ));
            lemma_stmts_score_nonneg(all.subrange(0, i as int));
            lemma_stmts_score_nonneg(all.subrange(i as int + 1, all.len() as int));
            lemma_stmt_score_nonneg(all[i as int]);
            assert(decreases_to!(*block => all[i as int]));
        }
        let add = score_stmt(&block.stmts[i]);
        proof {
            lemma_stmts_score_push(all.subrange(0, i as int), all[i as int]);
            assert(all.subrange(0, i as int + 1) =~= all.subrange(0, i as int).push(
                all[i as int],
            ));
        }
        total = total + add;
        i = i + 1;
    }
    total
}

fn score_stmt(st: &Statement) -> (r: usize)
    requires
        stmt_score(*st) <= usize::MAX as int,
    ensures
        r as int == stmt_score(*st),
    decreases *st,
{
    match st {
        Statement::ExprStmt { expr, .. } => score_expr_stmt(expr),
        _ => 1,
    }
}

fn score_expr_stmt(e: &Expression) -> (r: usize)
    requires
        expr_stmt_score(*e) <= usize::MAX as int,
    ensures
        r as int == expr_stmt_score(*e),
    decreases *e,
{
    match e {
        Expression::Loop(body) => {
            proof {
                lemma_block_score_nonneg(*body);
            }
            1 + score(body)
        },
        Expression::While(body) => {
            proof {
                lemma_block_score_nonneg(*body);
            }
            1 + score(body)
        },
        Expression::ForLoop(body) => {
            proof {
                lemma_block_score_nonneg(*body);
            }
            1 + score(body)
        },
        Expression::TryBlock(body) => {
            proof {
                lemma_block_score_nonneg(*body);
            }
            1 + score(body)
        },
        Expression::UnsafeBlock(body) => {
            proof {
                lemma_block_score_nonneg(*body);
            }
            1 + score(body)
        },
        Expression::BlockExpr(body) => score(body),
        Expression::If { then_block, else_branch } => {
            proof {
                lemma_block_score_nonneg(*then_block);
                match else_branch {
                    Some(eb) => lemma_enclosed_block_score_nonneg(**eb),
                    None => {},
                }
            }
            let mut r: usize = 1 + score(then_block);
            match else_branch {
                Some(eb) => {
                    r = r + 1 + score_enclosed(eb);
                },
                None => {},
            }
            r
        },
        Expression::Match(arms) => {
            let ghost aseq = arms@;
            let mut t: usize = 1;
            let mut i: usize = 0;
            proof {
                assert(aseq.subrange(0, 0) =~= Seq::<Expression>::empty());
                assert(aseq.subrange(0, aseq.len() as int) =~= aseq);
            }
            while i < arms.len()
                invariant
                    i <= aseq.len(),
                    arms@ == aseq,
                    *e is Match,
                    (*e)->Match_0@ == aseq,
                    expr_stmt_score(*e) == 1 + arms_score(aseq),
                    expr_stmt_score(*e) <= usize::MAX as int,
                    t as int == 1 + arms_score(aseq.subrange(0, i as int)),
                    arms_score(aseq.subrange(0, i as int)) + arms_score(
                        aseq.subrange(i as int, aseq.len() as int),
                    ) == arms_score(aseq),
                decreases aseq.len() - i,
            {
                proof {
                    let suf = aseq.subrange(i as int, aseq.len() as int);
                    assert(suf[0] == aseq[i as int]);
                    assert(suf.subrange(1, suf.len() as int) =~= aseq.subrange(
                        i as int + 1,
                        aseq.len() as int,
                    ));
                    lemma_arms_score_nonneg(aseq.subrange(0, i as int));
                    lemma_arms_score_nonneg(aseq.subrange(i as int + 1, aseq.len() as int));
                    lemma_enclosed_block_score_nonneg(aseq[i as int]);
                    assert((*e)->Match_0@ == aseq);
                    assert(decreases_to!(*e => (*e)->Match_0@[i as int]));
                }
                let add = score_enclosed(&arms[i]);
                proof {
                    lemma_arms_score_push(aseq.subrange(0, i as int), aseq[i as int]);
                    assert(aseq.subrange(0, i as int + 1) =~= aseq.subrange(0, i as int).push(
                        aseq[i as int],
                    ));
                }
                t = t + 1 + add;
                i = i + 1;
            }
            t
        },
        Expression::TryOperator(_) => 1,
        _ => 1,
    }
}

fn score_enclosed(e: &Expression) -> (r: usize)
    requires
        enclosed_block_score(*e) <= usize::MAX as int,
    ensures
        r as int == enclosed_block_score(*e),
    decreases *e,
{
    match e {
        Expression::BlockExpr(body) => score(body),
        _ => 0,
    }
}

/// Whether a statement is an unsafe region: an expression statement whose
/// expression is an unsafe block. The scan treats a trailing terminator as
/// irrelevant.
pub open spec fn is_unsafe_region(st: Statement) -> bool {
    st matches Statement::ExprStmt { expr: Expression::UnsafeBlock(_), .. }
}

/// The scores of the unsafe regions' bodies at the top level of a
/// statement sequence, in source order.
pub open spec fn region_scores(s: Seq<Statement>) -> Seq<int>
    decreases s,
{
    if s.len() == 0 {
        Seq::<int>::empty()
    } else {
        (match s[0] {
            Statement::ExprStmt { expr: Expression::UnsafeBlock(b), .. } => seq![block_score(b)],
            _ => Seq::<int>::empty(),
        }) + region_scores(s.subrange(1, s.len() as int))
    }
}

/// How many unsafe regions stand at the top level of a statement sequence.
pub open spec fn region_count(s: Seq<Statement>) -> int {
    region_scores(s).len() as int
}

/// The head statement contributes one region exactly when
/// [`is_unsafe_region`] holds of it; every other statement shape
/// contributes none.
pub proof fn lemma_region_count_unfolds(s: Seq<Statement>)
    requires
        s.len() > 0,
    ensures
        region_count(s) == (if is_unsafe_region(s[0]) {
            1int
        } else {
            0int
        }) + region_count(s.subrange(1, s.len() as int)),
{
}

/// Appending a statement appends its region score exactly when it is an
/// unsafe region.
proof fn lemma_region_scores_push(s: Seq<Statement>, x: Statement)
    ensures
        region_scores(s.push(x)) == region_scores(s) + (match x {
            Statement::ExprStmt { expr: Expression::UnsafeBlock(b), .. } => seq![block_score(b)],
            _ => Seq::<int>::empty(),
        }),
    decreases s,
{
    let ghost tail = (match x {
        Statement::ExprStmt { expr: Expression::UnsafeBlock(b), .. } => seq![block_score(b)],
        _ => Seq::<int>::empty(),
    });
    if s.len() == 0 {
        assert(s.push(x)[0] == x);
        assert(s.push(x).subrange(1, 1) =~= Seq::<Statement>::empty());
        assert(region_scores(Seq::<Statement>::empty()) == Seq::<int>::empty());
        assert(region_scores(s.push(x)) =~= region_scores(s) + tail);
    } else {
        assert(s.push(x)[0] == s[0]);
        assert(s.push(x).subrange(1, s.push(x).len() as int) =~= s.subrange(
            1,
            s.len() as int,
        ).push(x));
        lemma_region_scores_push(s.subrange(1, s.len() as int), x);
        assert(region_scores(s.push(x)) =~= region_scores(s) + tail);
    }
}

/// Scans the top level of a function body for unsafe regions: how many
/// there are, and the complexity score of each region's body in source
/// order. A statement is a region exactly when [`is_unsafe_region`] holds
/// of it; statements of every other shape are ignored by this pass.
pub fn analyze(body: &Block) -> (r: (usize, Vec<usize>))
    requires
        block_score(*body) <= usize::MAX as int,
    ensures
        r.0 as int == region_count(body.stmts@),
        r.1@.len() == r.0,
        r.1@.map_values(|x: usize| x as int) == region_scores(body.stmts@),
{
    let ghost all = body.stmts@;
    let mut count: usize = 0;
    let mut scores: Vec<usize> = Vec::new();
    let mut i: usize = 0;
    proof {
        assert(all.subrange(0, 0) =~= Seq::<Statement>::empty());
        assert(all.subrange(0, all.len() as int) =~= all);
    }
    while i < body.stmts.len()
        invariant
            i <= all.len(),
            body.stmts@ == all,
            block_score(*body) == stmts_score(all),
            stmts_score(all) <= usize::MAX as int,
            stmts_score(all.subrange(0, i as int)) + stmts_score(
                all.subrange(i as int, all.len() as int),
            ) == stmts_score(all),
            count <= i,
            scores@.len() == count,
            count as int == region_count(all.subrange(0, i as int)),
            scores@.map_values(|x: usize| x as int) == region_scores(all.subrange(0, i as int)),
        decreases all.len() - i,
    {
        proof {
            let suf = all.subrange(i as int, all.len() as int);
            assert(suf[0] == all[i as int]);
            assert(suf.subrange(1, suf.len() as int) =~= all.subrange(
                i as int + 1,
                all.len() as int,
            ));
            lemma_stmts_score_nonneg(all.subrange(0, i as int));
            lemma_stmts_score_nonneg(all.subrange(i as int + 1, all.len() as int));
            lemma_stmt_score_nonneg(all[i as int]);
        }
        match &body.stmts[i] {
            Statement::ExprStmt { expr: Expression::UnsafeBlock(b), .. } => {
                proof {
                    lemma_block_score_nonneg(*b);
                    assert(stmt_score(all[i as int]) == 1 + block_score(*b));
                }
                let sc = score(b);
                count = count + 1;
                scores.push(sc);
                proof {
                    assert(scores@.map_values(|x: usize| x as int) =~= scores@.subrange(
                        0,
                        scores@.len() - 1,
                    ).map_values(|x: usize| x as int).push(sc as int));
                }
            },
            _ => {},
        }
        proof {
            lemma_stmts_score_push(all.subrange(0, i as int), all[i as int]);
            lemma_region_scores_push(all.subrange(0, i as int), all[i as int]);
            assert(all.subrange(0, i as int + 1) =~= all.subrange(0, i as int).push(
                all[i as int],
            ));
        }
        i = i + 1;
    }
    (count, scores)
}

/// The statements whose bare nested blocks, at every depth reached through
/// further bare blocks, are all nonempty. An empty bare block is the one
/// statement shape that contributes nothing to a score.
pub open spec fn bare_blocks_nonempty(b: Block) -> bool
    decreases b,
{
    bare_blocks_nonempty_stmts(b.stmts@)
}

pub open spec fn bare_blocks_nonempty_stmts(s: Seq<Statement>) -> bool
    decreases s,
{
    if s.len() == 0 {
        true
    } else {
        bare_blocks_nonempty_stmt(s[0]) && bare_blocks_nonempty_stmts(
            s.subrange(1, s.len() as int),
        )
    }
}

pub open spec fn bare_blocks_nonempty_stmt(st: Statement) -> bool
    decreases st,
{
    match st {
        Statement::ExprStmt { expr: Expression::BlockExpr(b), .. } => b.stmts@.len() >= 1
            && bare_blocks_nonempty(b),
        _ => true,
    }
}

/// Every statement contributes at least one unit, so a block scores at
/// least its statement count — provided every bare nested block standing
/// as a statement is nonempty (a bare block is transparent, so an empty
/// one contributes nothing).
pub proof fn lemma_score_at_least_len(b: Block)
    requires
        bare_blocks_nonempty(b),
    ensures
        block_score(b) >= b.stmts@.len(),
    decreases b,
{
    lemma_stmts_score_at_least_len(b.stmts@);
}

proof fn lemma_stmts_score_at_least_len(s: Seq<Statement>)
    requires
        bare_blocks_nonempty_stmts(s),
    ensures
        stmts_score(s) >= s.len(),
    decreases s,
{
    if s.len() > 0 {
        lemma_stmt_score_at_least_one(s[0]);
        lemma_stmts_score_at_least_len(s.subrange(1, s.len() as int));
    }
}

proof fn lemma_stmt_score_at_least_one(st: Statement)
    requires
        bare_blocks_nonempty_stmt(st),
    ensures
        stmt_score(st) >= 1,
    decreases st,
{
    match st {
        Statement::ExprStmt { expr, .. } => {
            match expr {
                Expression::Loop(body) => lemma_block_score_nonneg(body),
                Expression::While(body) => lemma_block_score_nonneg(body),
                Expression::ForLoop(body) => lemma_block_score_nonneg(body),
                Expression::TryBlock(body) => lemma_block_score_nonneg(body),
                Expression::UnsafeBlock(body) => lemma_block_score_nonneg(body),
                Expression::BlockExpr(body) => {
                    lemma_score_at_least_len(body);
                },
                Expression::If { then_block, else_branch } => {
                    lemma_block_score_nonneg(then_block);
                    match else_branch {
                        Some(eb) => lemma_enclosed_block_score_nonneg(*eb),
                        None => {},
                    }
                },
                Expression::Match(arms) => lemma_arms_score_nonneg(arms@),
                _ => {},
            }
        },
        _ => {},
    }
}

/// Wrapping a block in a bare nested block leaves the score unchanged,
/// with or without a trailing terminator on the wrapping statement.
pub proof fn lemma_blockexpr_transparent(inner: Block, wrapped: Block, has_terminator: bool)
    requires
        wrapped.stmts@ == seq![
            Statement::ExprStmt {
                expr: Expression::BlockExpr(inner),
                has_terminator: has_terminator,
            },
        ],
    ensures
        block_score(wrapped) == block_score(inner),
{
    let st = Statement::ExprStmt {
        expr: Expression::BlockExpr(inner),
        has_terminator: has_terminator,
    };
    assert(wrapped.stmts@[0] == st);
    assert(wrapped.stmts@.subrange(1, 1) =~= Seq::<Statement>::empty());
    assert(stmts_score(Seq::<Statement>::empty()) == 0);
    assert(stmt_score(st) == block_score(inner));
}

/// The plain statements: those that no clause of the weighting rule
/// singles out, so that each contributes exactly one unit.
pub open spec fn stmt_is_plain(st: Statement) -> bool {
    match st {
        Statement::ExprStmt { expr, .. } => match expr {
            Expression::Loop(_) => false,
            Expression::While(_) => false,
            Expression::ForLoop(_) => false,
            Expression::TryBlock(_) => false,
            Expression::UnsafeBlock(_) => false,
            Expression::BlockExpr(_) => false,
            Expression::If { .. } => false,
            Expression::Match(_) => false,
            Expression::TryOperator(_) => false,
            _ => true,
        },
        _ => true,
    }
}

/// A block holding only plain statements — no control flow — scores
/// exactly its statement count.
pub proof fn lemma_plain_block_scores_len(b: Block)
    requires
        forall|i: int| 0 <= i < b.stmts@.len() ==> stmt_is_plain(#[trigger] b.stmts@[i]),
    ensures
        block_score(b) == b.stmts@.len(),
{
    lemma_plain_stmts_score(b.stmts@);
}

proof fn lemma_plain_stmts_score(s: Seq<Statement>)
    requires
        forall|i: int| 0 <= i < s.len() ==> stmt_is_plain(#[trigger] s[i]),
    ensures
        stmts_score(s) == s.len(),
    decreases s,
{
    if s.len() > 0 {
        assert(stmt_score(s[0]) == 1);
        assert(forall|i: int|
            0 <= i < s.len() - 1 ==> #[trigger] s.subrange(1, s.len() as int)[i] == s[i + 1]);
        lemma_plain_stmts_score(s.subrange(1, s.len() as int));
    }
}

} // verus!
