use fnscan::ast::{Block, Expression, Function, Statement};
use fnscan::emit::{decimal_string, unsafe_usage_line};
use fnscan::score::{analyze, score};

fn blk(stmts: Vec<Statement>) -> Block {
    Block { stmts }
}

fn estmt(e: Expression) -> Statement {
    Statement::ExprStmt { expr: e, has_terminator: false }
}

fn estmt_t(e: Expression) -> Statement {
    Statement::ExprStmt { expr: e, has_terminator: true }
}

fn plain() -> Statement {
    estmt_t(Expression::Call)
}

fn func(name: &str, body: Block) -> Function {
    Function { name: name.to_string(), params: vec![], return_type: None, body }
}

#[test]
fn empty_block_scores_zero() {
    assert_eq!(score(&blk(vec![])), 0);
}

#[test]
fn plain_statements_score_their_count() {
    let b = blk(vec![plain(), plain(), plain()]);
    assert_eq!(score(&b), 3);
}

#[test]
fn local_bindings_count_one_each() {
    let b = blk(vec![
        Statement::Local {
            name: Some("x".to_string()),
            annotation: None,
            init: Some(Expression::Literal(fnscan::ast::LitKind::Int)),
        },
        Statement::Local { name: None, annotation: None, init: None },
        Statement::Other,
    ]);
    assert_eq!(score(&b), 3);
}

#[test]
fn loop_adds_one_plus_body() {
    let b = blk(vec![estmt(Expression::Loop(blk(vec![plain(), plain()])))]);
    assert_eq!(score(&b), 3);
}

#[test]
fn while_and_for_and_try_block_add_one_plus_body() {
    let w = blk(vec![estmt(Expression::While(blk(vec![plain()])))]);
    let f = blk(vec![estmt(Expression::ForLoop(blk(vec![plain()])))]);
    let t = blk(vec![estmt(Expression::TryBlock(blk(vec![plain()])))]);
    assert_eq!(score(&w), 2);
    assert_eq!(score(&f), 2);
    assert_eq!(score(&t), 2);
}

#[test]
fn try_operator_counts_one_without_recursing() {
    let inner = Expression::Loop(blk(vec![plain(), plain()]));
    let b = blk(vec![estmt_t(Expression::TryOperator(Box::new(inner)))]);
    assert_eq!(score(&b), 1);
}

#[test]
fn nested_unsafe_adds_one_plus_body() {
    let b = blk(vec![estmt(Expression::UnsafeBlock(blk(vec![plain(), plain()])))]);
    assert_eq!(score(&b), 3);
}

#[test]
fn bare_block_is_transparent() {
    let inner = blk(vec![plain(), plain(), estmt(Expression::Loop(blk(vec![plain()])))]);
    let wrapped = blk(vec![estmt(Expression::BlockExpr(inner))]);
    let inner_again = blk(vec![plain(), plain(), estmt(Expression::Loop(blk(vec![plain()])))]);
    assert_eq!(score(&wrapped), score(&inner_again));
    assert_eq!(score(&wrapped), 4);
}

#[test]
fn empty_bare_block_contributes_nothing() {
    let b = blk(vec![estmt(Expression::BlockExpr(blk(vec![])))]);
    assert_eq!(score(&b), 0);
}

#[test]
fn if_with_block_else_charges_both_branches() {
    let e = Expression::If {
        then_block: blk(vec![plain()]),
        else_branch: Some(Box::new(Expression::BlockExpr(blk(vec![plain()])))),
    };
    assert_eq!(score(&blk(vec![estmt(e)])), 4);
}

#[test]
fn if_without_else_charges_then_only() {
    let e = Expression::If { then_block: blk(vec![plain(), plain()]), else_branch: None };
    assert_eq!(score(&blk(vec![estmt(e)])), 3);
}

#[test]
fn else_if_chain_charges_one_without_recursing() {
    let chain = Expression::If { then_block: blk(vec![plain()]), else_branch: None };
    let e = Expression::If {
        then_block: blk(vec![plain()]),
        else_branch: Some(Box::new(chain)),
    };
    assert_eq!(score(&blk(vec![estmt(e)])), 3);
}

#[test]
fn match_charges_one_per_arm_plus_block_arms() {
    let e = Expression::Match(vec![
        Expression::BlockExpr(blk(vec![plain()])),
        Expression::Call,
    ]);
    assert_eq!(score(&blk(vec![estmt(e)])), 4);
}

#[test]
fn score_at_least_statement_count() {
    let b = blk(vec![
        plain(),
        estmt(Expression::Loop(blk(vec![plain()]))),
        Statement::Other,
        estmt(Expression::Match(vec![Expression::Call])),
    ]);
    assert!(score(&b) >= 4);
}

#[test]
fn unsafe_region_of_plain_statements_scores_its_length() {
    let region = blk(vec![estmt(Expression::UnsafeBlock(blk(vec![
        plain(),
        plain(),
        plain(),
        plain(),
    ])))]);
    let (count, scores) = analyze(&region);
    assert_eq!(count, 1);
    assert_eq!(scores, vec![4]);
}

#[test]
fn scenario_unsafe_for_if_else() {
    let if_e = Expression::If {
        then_block: blk(vec![plain()]),
        else_branch: Some(Box::new(Expression::BlockExpr(blk(vec![plain()])))),
    };
    let for_e = Expression::ForLoop(blk(vec![estmt(if_e)]));
    let body = blk(vec![estmt(Expression::UnsafeBlock(blk(vec![estmt(for_e)])))]);
    let f = func("f", body);
    let (count, scores) = analyze(&f.body);
    assert_eq!(count, 1);
    assert_eq!(scores, vec![5]);
    assert_eq!(unsafe_usage_line(&f), "f;1;5");
}

#[test]
fn zero_regions_emit_bare_count() {
    let f = func("g", blk(vec![plain(), estmt(Expression::Loop(blk(vec![plain()])))]));
    let (count, scores) = analyze(&f.body);
    assert_eq!(count, 0);
    assert!(scores.is_empty());
    assert_eq!(unsafe_usage_line(&f), "g;0");
}

#[test]
fn two_regions_scored_independently_in_order() {
    let body = blk(vec![
        estmt(Expression::UnsafeBlock(blk(vec![plain(), plain(), plain()]))),
        plain(),
        estmt(Expression::UnsafeBlock(blk(vec![plain()]))),
    ]);
    let f = func("f", body);
    let (count, scores) = analyze(&f.body);
    assert_eq!(count, 2);
    assert_eq!(scores, vec![3, 1]);
    assert_eq!(unsafe_usage_line(&f), "f;2;3;1");
}

#[test]
fn region_with_terminator_is_still_a_region() {
    let body = blk(vec![estmt_t(Expression::UnsafeBlock(blk(vec![plain()])))]);
    let (count, scores) = analyze(&body);
    assert_eq!(count, 1);
    assert_eq!(scores, vec![1]);
}

#[test]
fn non_top_level_unsafe_is_not_a_region() {
    let body = blk(vec![estmt(Expression::Loop(blk(vec![estmt(
        Expression::UnsafeBlock(blk(vec![plain()])),
    )])))]);
    let (count, scores) = analyze(&body);
    assert_eq!(count, 0);
    assert!(scores.is_empty());
}

#[test]
fn multi_digit_scores_render_in_decimal() {
    let stmts: Vec<Statement> = (0..12).map(|_| plain()).collect();
    let body = blk(vec![estmt(Expression::UnsafeBlock(blk(stmts)))]);
    let f = func("f", body);
    assert_eq!(unsafe_usage_line(&f), "f;1;12");
}

#[test]
fn decimal_rendering_is_exact() {
    assert_eq!(decimal_string(0), "0");
    assert_eq!(decimal_string(9), "9");
    assert_eq!(decimal_string(10), "10");
    assert_eq!(decimal_string(905), "905");
    assert_eq!(decimal_string(usize::MAX), usize::MAX.to_string());
}
