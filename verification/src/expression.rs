use vstd::laws_eq::obeys_concrete_eq;
use vstd::prelude::*;

verus! {

/// A boolean expression over leaves of type `T` (for example, testimonies).
#[derive(Debug)]
pub enum Expression<T> {
    Leaf(T),
    Not(Box<Expression<T>>),
    And(Box<Expression<T>>, Box<Expression<T>>),
    Or(Box<Expression<T>>, Box<Expression<T>>),
}

impl<T> Expression<T> {
    /// Number of nodes of the expression tree.
    pub open spec fn size(self) -> nat
        decreases self,
    {
        match self {
            Expression::Leaf(_) => 1,
            Expression::Not(inner) => 1 + inner.size(),
            Expression::And(lhs, rhs) => 1 + lhs.size() + rhs.size(),
            Expression::Or(lhs, rhs) => 1 + lhs.size() + rhs.size(),
        }
    }

    /// The leaves of the expression, left to right.
    pub open spec fn leaves(self) -> Seq<T>
        decreases self,
    {
        match self {
            Expression::Leaf(t) => seq![t],
            Expression::Not(inner) => inner.leaves(),
            Expression::And(lhs, rhs) => lhs.leaves() + rhs.leaves(),
            Expression::Or(lhs, rhs) => lhs.leaves() + rhs.leaves(),
        }
    }

    /// Whether `t` is one of the leaves of the expression.
    pub open spec fn mentions(self, t: T) -> bool
        decreases self,
    {
        match self {
            Expression::Leaf(leaf) => leaf == t,
            Expression::Not(inner) => inner.mentions(t),
            Expression::And(lhs, rhs) => lhs.mentions(t) || rhs.mentions(t),
            Expression::Or(lhs, rhs) => lhs.mentions(t) || rhs.mentions(t),
        }
    }

    /// The truth value of the expression when each leaf `t` has the value `env(t)`.
    pub open spec fn evaluate(self, env: spec_fn(T) -> bool) -> bool
        decreases self,
    {
        match self {
            Expression::Leaf(t) => env(t),
            Expression::Not(inner) => !inner.evaluate(env),
            Expression::And(lhs, rhs) => lhs.evaluate(env) && rhs.evaluate(env),
            Expression::Or(lhs, rhs) => lhs.evaluate(env) || rhs.evaluate(env),
        }
    }
}

impl<T: Clone> Clone for Expression<T> {
    fn clone(&self) -> (result: Self)
        ensures
            crate::optimized_expression::clone_is_exact::<T>() ==> result == *self,
        decreases self,
    {
        match self {
            Expression::Leaf(t) => Expression::Leaf(t.clone()),
            Expression::Not(inner) => Expression::Not(Box::new((&**inner).clone())),
            Expression::And(lhs, rhs) => Expression::And(
                Box::new((&**lhs).clone()),
                Box::new((&**rhs).clone()),
            ),
            Expression::Or(lhs, rhs) => Expression::Or(
                Box::new((&**lhs).clone()),
                Box::new((&**rhs).clone()),
            ),
        }
    }
}

/// An expression mentions `t` exactly when `t` is among its leaves.
pub proof fn lemma_mentions_iff_leaf<T>(e: Expression<T>, t: T)
    ensures
        e.mentions(t) <==> e.leaves().contains(t),
    decreases e,
{
    match e {
        Expression::Leaf(leaf) => {
            assert(e.leaves()[0] == leaf);
        },
        Expression::Not(inner) => {
            lemma_mentions_iff_leaf(*inner, t);
        },
        Expression::And(lhs, rhs) => {
            lemma_mentions_iff_leaf(*lhs, t);
            lemma_mentions_iff_leaf(*rhs, t);
            lemma_contains_concat(lhs.leaves(), rhs.leaves(), t);
        },
        Expression::Or(lhs, rhs) => {
            lemma_mentions_iff_leaf(*lhs, t);
            lemma_mentions_iff_leaf(*rhs, t);
            lemma_contains_concat(lhs.leaves(), rhs.leaves(), t);
        },
    }
}

proof fn lemma_contains_concat<T>(a: Seq<T>, b: Seq<T>, t: T)
    ensures
        (a + b).contains(t) <==> a.contains(t) || b.contains(t),
{
    if a.contains(t) {
        let i = choose|i: int| 0 <= i < a.len() && a[i] == t;
        assert((a + b)[i] == t);
    }
    if b.contains(t) {
        let i = choose|i: int| 0 <= i < b.len() && b[i] == t;
        assert((a + b)[a.len() + i] == t);
    }
    if (a + b).contains(t) {
        let i = choose|i: int| 0 <= i < (a + b).len() && (a + b)[i] == t;
        if i < a.len() {
            assert(a[i] == t);
        } else {
            assert(b[i - a.len()] == t);
        }
    }
}

/// Whether `testimony` occurs as a leaf of `expression`.
pub fn testimony_exists_in_expression<T: PartialEq>(
    expression: &Expression<T>,
    testimony: &T,
) -> (result: bool)
    requires
        obeys_concrete_eq::<T>(),
    ensures
        result == expression.mentions(*testimony),
    decreases expression,
{
    match expression {
        Expression::Leaf(leaf) => {
            proof {
                reveal(obeys_concrete_eq);
            }
            leaf == testimony
        },
        Expression::Not(inner) => testimony_exists_in_expression(inner, testimony),
        Expression::And(lhs, rhs) | Expression::Or(lhs, rhs) => {
            testimony_exists_in_expression(lhs, testimony) || testimony_exists_in_expression(
                rhs,
                testimony,
            )
        },
    }
}

/// Whether a villager whose full testimony is `full_testimony` (if any) gave `testimony`.
pub fn assignment_applies<T: PartialEq>(
    full_testimony: &Option<Expression<T>>,
    testimony: &T,
) -> (result: bool)
    requires
        obeys_concrete_eq::<T>(),
    ensures
        result == match full_testimony {
            Some(e) => e.mentions(*testimony),
            None => false,
        },
{
    match full_testimony {
        Some(actual_testimony) => testimony_exists_in_expression(actual_testimony, testimony),
        None => false,
    }
}

} // verus!
