use demon_bluff_logic_engine::expression::{testimony_exists_in_expression, Expression};
use demon_bluff_logic_engine::optimized_expression::OptimizedExpression;

fn leaf<T>(t: T) -> Box<Expression<T>> {
    Box::new(Expression::Leaf(t))
}

fn not<T>(e: Box<Expression<T>>) -> Box<Expression<T>> {
    Box::new(Expression::Not(e))
}

fn and<T>(l: Box<Expression<T>>, r: Box<Expression<T>>) -> Box<Expression<T>> {
    Box::new(Expression::And(l, r))
}

fn or<T>(l: Box<Expression<T>>, r: Box<Expression<T>>) -> Box<Expression<T>> {
    Box::new(Expression::Or(l, r))
}

fn eval<T: PartialEq>(e: &Expression<T>, env: &dyn Fn(&T) -> bool) -> bool {
    match e {
        Expression::Leaf(t) => env(t),
        Expression::Not(i) => !eval(i, env),
        Expression::And(l, r) => eval(l, env) && eval(r, env),
        Expression::Or(l, r) => eval(l, env) || eval(r, env),
    }
}

#[test]
fn test_some_expression() {
    let term_a = "a".to_owned();
    let term_b = "b".to_owned();
    let term_c = "c".to_owned();

    let expression = Expression::And(
        Box::new(Expression::Or(
            Box::new(Expression::Not(Box::new(Expression::Leaf(term_a.clone())))),
            Box::new(Expression::Not(Box::new(Expression::Leaf(term_b)))),
        )),
        Box::new(Expression::Or(
            Box::new(Expression::Not(Box::new(Expression::Leaf(term_c)))),
            Box::new(Expression::Not(Box::new(Expression::Leaf(term_a)))),
        )),
    );

    let optimized_expression = OptimizedExpression::new(&expression);
    drop(optimized_expression);
}

#[test]
fn variables_are_distinct_leaves_in_order() {
    let e = and(or(not(leaf("a")), not(leaf("b"))), or(not(leaf("c")), not(leaf("a"))));
    let o = OptimizedExpression::new(&*e);
    assert_eq!(o.variables(), &["a", "b", "c"]);
}

#[test]
fn and_needs_both_operands() {
    // A compiled `And` must look at its right operand, not only its left one.
    let e = and(leaf(0u32), leaf(1u32));
    let o = OptimizedExpression::new(&*e);
    assert_eq!(o.variables(), &[0, 1]);
    assert!(!o.satisfies(&[true, false]));
    assert!(!o.satisfies(&[false, true]));
    assert!(o.satisfies(&[true, true]));
    assert!(!o.satisfies(&[false, false]));
}

#[test]
fn or_needs_one_operand() {
    let e = or(leaf(0u32), leaf(1u32));
    let o = OptimizedExpression::new(&*e);
    assert!(o.satisfies(&[true, false]));
    assert!(o.satisfies(&[false, true]));
    assert!(!o.satisfies(&[false, false]));
}

#[test]
fn satisfies_matches_tree_evaluation_on_every_assignment() {
    let e = and(or(not(leaf("a")), not(leaf("b"))), or(not(leaf("c")), and(leaf("a"), not(leaf("d")))));
    let o = OptimizedExpression::new(&*e);
    let vars: Vec<&str> = o.variables().to_vec();
    assert_eq!(vars, vec!["a", "b", "c", "d"]);
    for bits in 0u32..16 {
        let assignment: Vec<bool> = (0..4).map(|i| bits & (1 << i) != 0).collect();
        let env = |t: &&str| assignment[vars.iter().position(|v| v == t).unwrap()];
        assert_eq!(o.satisfies(&assignment), eval(&*e, &env), "assignment {:?}", assignment);
    }
}

#[test]
fn single_leaf_and_negation() {
    let o = OptimizedExpression::new(&Expression::Leaf(7u8));
    assert!(o.satisfies(&[true]));
    assert!(!o.satisfies(&[false]));
    let n = OptimizedExpression::new(&*not(not(not(leaf(7u8)))));
    assert_eq!(n.variables(), &[7]);
    assert!(!n.satisfies(&[true]));
    assert!(n.satisfies(&[false]));
}

#[test]
fn finds_testimony_in_expression() {
    let e = and(or(not(leaf(1u32)), leaf(2u32)), not(leaf(3u32)));
    assert!(testimony_exists_in_expression(&*e, &1));
    assert!(testimony_exists_in_expression(&*e, &2));
    assert!(testimony_exists_in_expression(&*e, &3));
    assert!(!testimony_exists_in_expression(&*e, &4));
}
