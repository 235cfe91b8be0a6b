use crate::expression::Expression;
use vstd::laws_eq::obeys_concrete_eq;
use vstd::prelude::*;

verus! {

/// One node of a compiled expression. The nodes of a subtree are stored in
/// pre-order: a `Not` node's operand starts right after it, an `And`/`Or`
/// node's left operand starts right after it and its right operand starts at
/// the index it carries.
pub enum ExpressionClause {
    Variable(usize),
    Not,
    And(usize),
    Or(usize),
}

/// An expression compiled into a flat array of clauses over a deduplicated
/// array of variables, so that it can be evaluated without recursion.
pub struct OptimizedExpression<T> {
    variables: Vec<T>,
    clauses: Vec<ExpressionClause>,
}

/// Cloning a `T` gives back an equal value.
pub open spec fn clone_is_exact<T: Clone>() -> bool {
    forall|a: T, b: T| call_ensures(T::clone, (&a,), b) ==> a == b
}

/// `acc` extended by `t` unless `t` is already in it.
pub open spec fn insert_new<T>(acc: Seq<T>, t: T) -> Seq<T> {
    if acc.contains(t) {
        acc
    } else {
        acc.push(t)
    }
}

/// `acc` extended, left to right, by the elements of `s` it does not hold yet.
pub open spec fn extend_distinct<T>(acc: Seq<T>, s: Seq<T>) -> Seq<T>
    decreases s.len(),
{
    if s.len() == 0 {
        acc
    } else {
        extend_distinct(insert_new(acc, s[0]), s.drop_first())
    }
}

/// The distinct leaves of `e` in the order of their first appearance.
pub open spec fn distinct_leaves<T>(e: Expression<T>) -> Seq<T> {
    extend_distinct(Seq::<T>::empty(), e.leaves())
}

/// The truth value of a leaf under `assignment`: the value at the leaf's
/// position among `variables`.
pub open spec fn assignment_env<T>(variables: Seq<T>, assignment: Seq<bool>) -> spec_fn(T) -> bool {
    |t: T| assignment[variables.index_of(t)]
}

/// The clauses that `e` compiles to when its root is stored at index `i`.
pub open spec fn compile<T>(e: Expression<T>, variables: Seq<T>, i: int) -> Seq<ExpressionClause>
    decreases e,
{
    match e {
        Expression::Leaf(v) => seq![ExpressionClause::Variable(variables.index_of(v) as usize)],
        Expression::Not(inner) => seq![ExpressionClause::Not] + compile(*inner, variables, i + 1),
        Expression::And(lhs, rhs) => seq![ExpressionClause::And((i + 1 + lhs.size()) as usize)]
            + compile(*lhs, variables, i + 1) + compile(*rhs, variables, i + 1 + lhs.size()),
        Expression::Or(lhs, rhs) => seq![ExpressionClause::Or((i + 1 + lhs.size()) as usize)]
            + compile(*lhs, variables, i + 1) + compile(*rhs, variables, i + 1 + lhs.size()),
    }
}

/// The clause at `i` only refers to variables below `num_variables` and to
/// clauses after itself.
pub open spec fn clause_ok(c: Seq<ExpressionClause>, num_variables: nat, i: int) -> bool {
    match c[i] {
        ExpressionClause::Variable(j) => j < num_variables,
        ExpressionClause::Not => i + 1 < c.len(),
        ExpressionClause::And(r) => i + 1 < r < c.len(),
        ExpressionClause::Or(r) => i + 1 < r < c.len(),
    }
}

pub open spec fn clauses_well_formed(c: Seq<ExpressionClause>, num_variables: nat) -> bool {
    &&& c.len() > 0
    &&& forall|i: int| 0 <= i < c.len() ==> #[trigger] clause_ok(c, num_variables, i)
}

/// The truth value of the subtree rooted at clause `i`.
pub open spec fn clause_value(c: Seq<ExpressionClause>, a: Seq<bool>, i: int) -> bool
    decreases c.len() - i,
{
    if 0 <= i < c.len() {
        match c[i] {
            ExpressionClause::Variable(j) => a[j as int],
            ExpressionClause::Not => !clause_value(c, a, i + 1),
            ExpressionClause::And(r) => if i < r < c.len() {
                clause_value(c, a, i + 1) && clause_value(c, a, r as int)
            } else {
                false
            },
            ExpressionClause::Or(r) => if i < r < c.len() {
                clause_value(c, a, i + 1) || clause_value(c, a, r as int)
            } else {
                false
            },
        }
    } else {
        false
    }
}

/// Number of clauses in the subtree rooted at clause `i`.
spec fn span(c: Seq<ExpressionClause>, i: int) -> nat
    decreases c.len() - i,
{
    if 0 <= i < c.len() {
        match c[i] {
            ExpressionClause::Variable(_) => 1,
            ExpressionClause::Not => 1 + span(c, i + 1),
            ExpressionClause::And(r) => if i < r < c.len() {
                1 + span(c, i + 1) + span(c, r as int)
            } else {
                1
            },
            ExpressionClause::Or(r) => if i < r < c.len() {
                1 + span(c, i + 1) + span(c, r as int)
            } else {
                1
            },
        }
    } else {
        1
    }
}

impl<T> OptimizedExpression<T> {
    #[verifier::type_invariant]
    spec fn well_formed(self) -> bool {
        clauses_well_formed(self.clauses@, self.variables@.len())
    }

    /// The deduplicated variables, indexed by `ExpressionClause::Variable`.
    pub closed spec fn spec_variables(self) -> Seq<T> {
        self.variables@
    }

    /// The truth value of the compiled expression when variable `j` has the value `a[j]`.
    pub closed spec fn spec_satisfies(self, a: Seq<bool>) -> bool {
        clause_value(self.clauses@, a, 0)
    }

    /// This is the compiled form of `e`.
    pub closed spec fn represents(self, e: Expression<T>) -> bool {
        &&& self.clauses@.len() <= usize::MAX
        &&& self.variables@.len() <= usize::MAX
        &&& self.variables@ == distinct_leaves(e)
        &&& self.clauses@ == compile(e, self.variables@, 0)
    }
}

/// A step of the evaluation of compiled clauses.
enum Frame {
    /// Evaluate the clause at the index and push its value.
    Eval(usize),
    /// Negate the value on top.
    NotOp,
    /// The left value is on top; evaluate the right clause at the index if needed.
    AndOp(usize),
    /// The left value is on top; evaluate the right clause at the index if needed.
    OrOp(usize),
}

/// The value stack that remains after running `frames` (top last) on `results`.
spec fn run(c: Seq<ExpressionClause>, a: Seq<bool>, frames: Seq<Frame>, results: Seq<bool>) -> Option<
    Seq<bool>,
>
    decreases frames.len(),
{
    if frames.len() == 0 {
        Some(results)
    } else {
        let rest = frames.drop_last();
        match frames.last() {
            Frame::Eval(i) => run(c, a, rest, results.push(clause_value(c, a, i as int))),
            Frame::NotOp => if results.len() == 0 {
                None
            } else {
                run(c, a, rest, results.drop_last().push(!results.last()))
            },
            Frame::AndOp(r) => if results.len() == 0 {
                None
            } else if results.last() {
                run(c, a, rest, results.drop_last().push(clause_value(c, a, r as int)))
            } else {
                run(c, a, rest, results.drop_last().push(false))
            },
            Frame::OrOp(r) => if results.len() == 0 {
                None
            } else if results.last() {
                run(c, a, rest, results.drop_last().push(true))
            } else {
                run(c, a, rest, results.drop_last().push(clause_value(c, a, r as int)))
            },
        }
    }
}

spec fn frame_weight(c: Seq<ExpressionClause>, f: Frame) -> nat {
    match f {
        Frame::Eval(i) => 2 * span(c, i as int),
        Frame::NotOp => 1,
        Frame::AndOp(r) => 2 * span(c, r as int) + 1,
        Frame::OrOp(r) => 2 * span(c, r as int) + 1,
    }
}

spec fn frames_weight(c: Seq<ExpressionClause>, frames: Seq<Frame>) -> nat
    decreases frames.len(),
{
    if frames.len() == 0 {
        0
    } else {
        frame_weight(c, frames.last()) + frames_weight(c, frames.drop_last())
    }
}

spec fn frame_in_range(c: Seq<ExpressionClause>, f: Frame) -> bool {
    match f {
        Frame::Eval(i) => i < c.len(),
        Frame::NotOp => true,
        Frame::AndOp(r) => r < c.len(),
        Frame::OrOp(r) => r < c.len(),
    }
}


/// Extending by a concatenation is extending by each part in turn.
pub proof fn lemma_extend_distinct_concat<T>(acc: Seq<T>, s1: Seq<T>, s2: Seq<T>)
    ensures
        extend_distinct(acc, s1 + s2) == extend_distinct(extend_distinct(acc, s1), s2),
    decreases s1.len(),
{
    if s1.len() == 0 {
        assert(s1 + s2 =~= s2);
    } else {
        assert((s1 + s2)[0] == s1[0]);
        assert((s1 + s2).drop_first() =~= s1.drop_first() + s2);
        lemma_extend_distinct_concat(insert_new(acc, s1[0]), s1.drop_first(), s2);
    }
}

proof fn lemma_extend_distinct_contains<T>(acc: Seq<T>, s: Seq<T>, x: T)
    ensures
        extend_distinct(acc, s).contains(x) <==> (acc.contains(x) || s.contains(x)),
    decreases s.len(),
{
    if s.len() > 0 {
        let acc2 = insert_new(acc, s[0]);
        lemma_extend_distinct_contains(acc2, s.drop_first(), x);
        if acc.contains(x) {
            let i = choose|i: int| 0 <= i < acc.len() && acc[i] == x;
            assert(acc2[i] == x);
        }
        if acc2.contains(x) && !acc.contains(x) {
            assert(x == s[0]);
        }
        if s.contains(x) {
            let i = choose|i: int| 0 <= i < s.len() && s[i] == x;
            if i > 0 {
                assert(s.drop_first()[i - 1] == x);
            } else if !acc.contains(x) {
                assert(acc2[acc.len() as int] == x);
            }
        }
        if s.drop_first().contains(x) {
            let i = choose|i: int| 0 <= i < s.drop_first().len() && s.drop_first()[i] == x;
            assert(s[i + 1] == x);
        }
    }
}

proof fn lemma_extend_distinct_no_duplicates<T>(acc: Seq<T>, s: Seq<T>)
    requires
        acc.no_duplicates(),
    ensures
        extend_distinct(acc, s).no_duplicates(),
    decreases s.len(),
{
    if s.len() > 0 {
        let acc2 = insert_new(acc, s[0]);
        assert(acc2.no_duplicates());
        lemma_extend_distinct_no_duplicates(acc2, s.drop_first());
    }
}

/// Every leaf of `e` is among its distinct leaves, and those hold no duplicates.
pub proof fn lemma_distinct_leaves<T>(e: Expression<T>)
    ensures
        distinct_leaves(e).no_duplicates(),
        forall|t: T| #[trigger] distinct_leaves(e).contains(t) <==> e.leaves().contains(t),
{
    lemma_extend_distinct_no_duplicates(Seq::<T>::empty(), e.leaves());
    assert forall|t: T| #[trigger] distinct_leaves(e).contains(t) <==> e.leaves().contains(t) by {
        lemma_extend_distinct_contains(Seq::<T>::empty(), e.leaves(), t);
    }
}

proof fn lemma_compile_len<T>(e: Expression<T>, variables: Seq<T>, i: int)
    ensures
        compile(e, variables, i).len() == e.size(),
    decreases e,
{
    match e {
        Expression::Leaf(_) => {},
        Expression::Not(inner) => {
            lemma_compile_len(*inner, variables, i + 1);
        },
        Expression::And(lhs, rhs) => {
            lemma_compile_len(*lhs, variables, i + 1);
            lemma_compile_len(*rhs, variables, i + 1 + lhs.size());
        },
        Expression::Or(lhs, rhs) => {
            lemma_compile_len(*lhs, variables, i + 1);
            lemma_compile_len(*rhs, variables, i + 1 + lhs.size());
        },
    }
}

/// The clauses `c[i .. i + size(e)]` are the compiled form of `e` rooted at `i`.
pub open spec fn segment_ok<T>(e: Expression<T>, i: int, c: Seq<ExpressionClause>, variables: Seq<T>) -> bool {
    &&& 0 <= i
    &&& i + e.size() <= c.len()
    &&& c.subrange(i, i + e.size()) == compile(e, variables, i)
}

proof fn lemma_segment_split<T>(e: Expression<T>, i: int, c: Seq<ExpressionClause>, variables: Seq<T>)
    requires
        segment_ok(e, i, c, variables),
    ensures
        c[i] == compile(e, variables, i)[0],
        match e {
            Expression::Leaf(_) => true,
            Expression::Not(inner) => segment_ok(*inner, i + 1, c, variables),
            Expression::And(lhs, rhs) => segment_ok(*lhs, i + 1, c, variables) && segment_ok(
                *rhs,
                i + 1 + lhs.size(),
                c,
                variables,
            ),
            Expression::Or(lhs, rhs) => segment_ok(*lhs, i + 1, c, variables) && segment_ok(
                *rhs,
                i + 1 + lhs.size(),
                c,
                variables,
            ),
        },
{
    assert(c.subrange(i, i + e.size())[0] == c[i]);
    match e {
        Expression::Leaf(_) => {},
        Expression::Not(inner) => {
            lemma_compile_len(*inner, variables, i + 1);
            let whole = compile(e, variables, i);
            assert(whole.subrange(1, whole.len() as int) =~= compile(*inner, variables, i + 1));
            assert(c.subrange(i + 1, i + 1 + inner.size()) =~= c.subrange(i, i + e.size()).subrange(
                1,
                e.size() as int,
            ));
        },
        Expression::And(lhs, rhs) => {
            lemma_compile_len(*lhs, variables, i + 1);
            lemma_compile_len(*rhs, variables, i + 1 + lhs.size());
            let whole = compile(e, variables, i);
            let sl = lhs.size() as int;
            assert(whole.subrange(1, 1 + sl) =~= compile(*lhs, variables, i + 1));
            assert(whole.subrange(1 + sl, whole.len() as int) =~= compile(*rhs, variables, i + 1 + sl));
            assert(c.subrange(i + 1, i + 1 + sl) =~= c.subrange(i, i + e.size()).subrange(1, 1 + sl));
            assert(c.subrange(i + 1 + sl, i + e.size()) =~= c.subrange(i, i + e.size()).subrange(
                1 + sl,
                e.size() as int,
            ));
        },
        Expression::Or(lhs, rhs) => {
            lemma_compile_len(*lhs, variables, i + 1);
            lemma_compile_len(*rhs, variables, i + 1 + lhs.size());
            let whole = compile(e, variables, i);
            let sl = lhs.size() as int;
            assert(whole.subrange(1, 1 + sl) =~= compile(*lhs, variables, i + 1));
            assert(whole.subrange(1 + sl, whole.len() as int) =~= compile(*rhs, variables, i + 1 + sl));
            assert(c.subrange(i + 1, i + 1 + sl) =~= c.subrange(i, i + e.size()).subrange(1, 1 + sl));
            assert(c.subrange(i + 1 + sl, i + e.size()) =~= c.subrange(i, i + e.size()).subrange(
                1 + sl,
                e.size() as int,
            ));
        },
    }
}

/// Compiled clauses are well formed.
proof fn lemma_segment_well_formed<T>(e: Expression<T>, i: int, c: Seq<ExpressionClause>, variables: Seq<T>)
    requires
        segment_ok(e, i, c, variables),
        c.len() <= usize::MAX,
        variables.len() <= usize::MAX,
        forall|t: T| #[trigger] e.leaves().contains(t) ==> variables.contains(t),
    ensures
        forall|k: int| i <= k < i + e.size() ==> #[trigger] clause_ok(c, variables.len(), k),
    decreases e,
{
    lemma_segment_split(e, i, c, variables);
    match e {
        Expression::Leaf(v) => {
            assert(e.leaves()[0] == v);
            assert(e.leaves().contains(v));
        },
        Expression::Not(inner) => {
            assert forall|t: T| #[trigger] inner.leaves().contains(t) implies variables.contains(t) by {
                assert(e.leaves() == inner.leaves());
            }
            lemma_segment_well_formed(*inner, i + 1, c, variables);
        },
        Expression::And(lhs, rhs) => {
            assert forall|t: T| #[trigger] lhs.leaves().contains(t) implies variables.contains(t) by {
                crate::expression::lemma_mentions_iff_leaf(e, t);
                crate::expression::lemma_mentions_iff_leaf(*lhs, t);
            }
            assert forall|t: T| #[trigger] rhs.leaves().contains(t) implies variables.contains(t) by {
                crate::expression::lemma_mentions_iff_leaf(e, t);
                crate::expression::lemma_mentions_iff_leaf(*rhs, t);
            }
            lemma_segment_well_formed(*lhs, i + 1, c, variables);
            lemma_segment_well_formed(*rhs, i + 1 + lhs.size(), c, variables);
        },
        Expression::Or(lhs, rhs) => {
            assert forall|t: T| #[trigger] lhs.leaves().contains(t) implies variables.contains(t) by {
                crate::expression::lemma_mentions_iff_leaf(e, t);
                crate::expression::lemma_mentions_iff_leaf(*lhs, t);
            }
            assert forall|t: T| #[trigger] rhs.leaves().contains(t) implies variables.contains(t) by {
                crate::expression::lemma_mentions_iff_leaf(e, t);
                crate::expression::lemma_mentions_iff_leaf(*rhs, t);
            }
            lemma_segment_well_formed(*lhs, i + 1, c, variables);
            lemma_segment_well_formed(*rhs, i + 1 + lhs.size(), c, variables);
        },
    }
}

/// Compiled clauses evaluate to the truth value of the expression.
proof fn lemma_segment_value<T>(
    e: Expression<T>,
    i: int,
    c: Seq<ExpressionClause>,
    variables: Seq<T>,
    a: Seq<bool>,
)
    requires
        segment_ok(e, i, c, variables),
        c.len() <= usize::MAX,
        variables.len() <= usize::MAX,
        variables.len() <= a.len(),
        forall|t: T| #[trigger] e.leaves().contains(t) ==> variables.contains(t),
    ensures
        clause_value(c, a, i) == e.evaluate(assignment_env(variables, a)),
    decreases e,
{
    lemma_segment_split(e, i, c, variables);
    match e {
        Expression::Leaf(v) => {
            assert(e.leaves()[0] == v);
            assert(e.leaves().contains(v));
            let j = variables.index_of(v);
            assert(0 <= j < variables.len() && variables[j] == v);
            assert(c[i] == ExpressionClause::Variable(j as usize));
            assert(clause_value(c, a, i) == a[j]);
            assert(e.evaluate(assignment_env(variables, a)) == assignment_env(variables, a)(v));
        },
        Expression::Not(inner) => {
            assert forall|t: T| #[trigger] inner.leaves().contains(t) implies variables.contains(t) by {
                assert(e.leaves() == inner.leaves());
            }
            lemma_segment_value(*inner, i + 1, c, variables, a);
        },
        Expression::And(lhs, rhs) => {
            assert forall|t: T| #[trigger] lhs.leaves().contains(t) implies variables.contains(t) by {
                crate::expression::lemma_mentions_iff_leaf(e, t);
                crate::expression::lemma_mentions_iff_leaf(*lhs, t);
            }
            assert forall|t: T| #[trigger] rhs.leaves().contains(t) implies variables.contains(t) by {
                crate::expression::lemma_mentions_iff_leaf(e, t);
                crate::expression::lemma_mentions_iff_leaf(*rhs, t);
            }
            lemma_segment_value(*lhs, i + 1, c, variables, a);
            lemma_segment_value(*rhs, i + 1 + lhs.size(), c, variables, a);
        },
        Expression::Or(lhs, rhs) => {
            assert forall|t: T| #[trigger] lhs.leaves().contains(t) implies variables.contains(t) by {
                crate::expression::lemma_mentions_iff_leaf(e, t);
                crate::expression::lemma_mentions_iff_leaf(*lhs, t);
            }
            assert forall|t: T| #[trigger] rhs.leaves().contains(t) implies variables.contains(t) by {
                crate::expression::lemma_mentions_iff_leaf(e, t);
                crate::expression::lemma_mentions_iff_leaf(*rhs, t);
            }
            lemma_segment_value(*lhs, i + 1, c, variables, a);
            lemma_segment_value(*rhs, i + 1 + lhs.size(), c, variables, a);
        },
    }
}


/// Leaves of the pending subtrees, the top of the stack (its last element) first.
spec fn stack_leaves<T>(st: Seq<&Expression<T>>) -> Seq<T>
    decreases st.len(),
{
    if st.len() == 0 {
        Seq::<T>::empty()
    } else {
        st.last().leaves() + stack_leaves(st.drop_last())
    }
}

/// Total number of nodes of the pending subtrees.
spec fn stack_size<T>(st: Seq<&Expression<T>>) -> nat
    decreases st.len(),
{
    if st.len() == 0 {
        0
    } else {
        st.last().size() + stack_size(st.drop_last())
    }
}

/// A build task: a subtree, the index of its root clause, and whether its left
/// operand has already been laid out.
type BuildTask<'a, T> = (&'a Expression<T>, usize, bool);

/// The pending build tasks (top last) lay out, from `pos` on, the rest of `target`.
spec fn tasks_ok<T>(st: Seq<BuildTask<T>>, pos: int, target: Seq<ExpressionClause>, variables: Seq<T>) -> bool
    decreases st.len(),
{
    if st.len() == 0 {
        pos == target.len()
    } else {
        let (e, j, visited) = st.last();
        if !visited {
            &&& j == pos
            &&& segment_ok(*e, j as int, target, variables)
            &&& tasks_ok(st.drop_last(), pos + e.size(), target, variables)
        } else {
            match *e {
                Expression::And(lhs, rhs) => {
                    &&& segment_ok(*e, j as int, target, variables)
                    &&& j + 1 + lhs.size() == pos
                    &&& tasks_ok(st.drop_last(), pos + rhs.size(), target, variables)
                },
                Expression::Or(lhs, rhs) => {
                    &&& segment_ok(*e, j as int, target, variables)
                    &&& j + 1 + lhs.size() == pos
                    &&& tasks_ok(st.drop_last(), pos + rhs.size(), target, variables)
                },
                _ => false,
            }
        }
    }
}

/// The clause at `k` is written when a task that waits on it is resumed.
spec fn pending<T>(st: Seq<BuildTask<T>>, k: int) -> bool {
    exists|idx: int| 0 <= idx < st.len() && (#[trigger] st[idx]).2 && st[idx].1 == k
}

spec fn task_weight<T>(t: BuildTask<T>) -> nat {
    if !t.2 {
        2 * t.0.size()
    } else {
        match *t.0 {
            Expression::And(_, rhs) => 2 * rhs.size() + 1,
            Expression::Or(_, rhs) => 2 * rhs.size() + 1,
            _ => 1,
        }
    }
}

spec fn tasks_weight<T>(st: Seq<BuildTask<T>>) -> nat
    decreases st.len(),
{
    if st.len() == 0 {
        0
    } else {
        task_weight(st.last()) + tasks_weight(st.drop_last())
    }
}

/// The first index at which `item` occurs in `items`.
fn position_of<T: PartialEq>(items: &Vec<T>, item: &T) -> (result: Option<usize>)
    requires
        obeys_concrete_eq::<T>(),
    ensures
        match result {
            Some(j) => j < items.len() && items@[j as int] == *item && forall|k: int|
                0 <= k < j ==> items@[k] != *item,
            None => !items@.contains(*item),
        },
{
    proof {
        reveal(obeys_concrete_eq);
    }
    let mut i: usize = 0;
    while i < items.len()
        invariant
            obeys_concrete_eq::<T>(),
            i <= items.len(),
            forall|k: int| 0 <= k < i ==> items@[k] != *item,
        decreases items.len() - i,
    {
        proof {
            reveal(obeys_concrete_eq);
        }
        if items[i] == *item {
            return Some(i);
        }
        i = i + 1;
    }
    None
}

/// Counts the nodes of `root` and appends to `variables` each leaf it does not hold yet,
/// in pre-order.
fn count_clauses_and_gather_variables<T: PartialEq + Clone>(
    root: &Expression<T>,
    variables: &mut Vec<T>,
) -> (count: usize)
    requires
        obeys_concrete_eq::<T>(),
        clone_is_exact::<T>(),
        root.size() <= usize::MAX,
    ensures
        count == root.size(),
        final(variables)@ == extend_distinct(old(variables)@, root.leaves()),
{
    let ghost goal = extend_distinct(old(variables)@, root.leaves());
    let mut remaining_visit_stack: Vec<&Expression<T>> = Vec::new();
    remaining_visit_stack.push(root);
    proof {
        reveal_with_fuel(stack_leaves, 2);
        reveal_with_fuel(stack_size, 2);
        assert(root.leaves() + Seq::<T>::empty() =~= root.leaves());
    }
    let mut count: usize = 0;
    while remaining_visit_stack.len() > 0
        invariant
            obeys_concrete_eq::<T>(),
            clone_is_exact::<T>(),
            root.size() <= usize::MAX,
            count + stack_size(remaining_visit_stack@) == root.size(),
            extend_distinct(variables@, stack_leaves(remaining_visit_stack@)) == goal,
        decreases stack_size(remaining_visit_stack@),
    {
        let ghost before = remaining_visit_stack@;
        let expression = remaining_visit_stack.pop().unwrap();
        let ghost rest = remaining_visit_stack@;
        assert(rest == before.drop_last());
        assert(stack_leaves(before) == expression.leaves() + stack_leaves(rest));
        assert(stack_size(before) == expression.size() + stack_size(rest));
        count = count + 1;
        match expression {
            Expression::Leaf(variable) => {
                let ghost acc = variables@;
                let ghost l = seq![*variable] + stack_leaves(rest);
                assert(l[0] == *variable);
                assert(l.drop_first() =~= stack_leaves(rest));
                match position_of(variables, variable) {
                    None => {
                        let copy = variable.clone();
                        variables.push(copy);
                    },
                    Some(_) => {},
                }
                assert(variables@ == insert_new(acc, *variable));
            },
            Expression::Not(inner) => {
                remaining_visit_stack.push(inner);
                proof {
                    let s1 = rest.push(&**inner);
                    assert(s1.drop_last() == rest);
                    assert(stack_leaves(s1) == inner.leaves() + stack_leaves(rest));
                }
            },
            Expression::And(lhs, rhs) | Expression::Or(lhs, rhs) => {
                remaining_visit_stack.push(rhs);
                remaining_visit_stack.push(lhs);
                proof {
                    let s1 = rest.push(&**rhs);
                    let s2 = s1.push(&**lhs);
                    assert(s1.drop_last() == rest);
                    assert(s2.drop_last() == s1);
                    assert(s2.last() == &**lhs);
                    assert(s1.last() == &**rhs);
                    assert(stack_leaves(s1) == rhs.leaves() + stack_leaves(rest));
                    assert(stack_leaves(s2) == lhs.leaves() + stack_leaves(s1));
                    assert(stack_size(s1) == rhs.size() + stack_size(rest));
                    assert(stack_size(s2) == lhs.size() + stack_size(s1));
                    assert(stack_leaves(s2) =~= expression.leaves() + stack_leaves(rest));
                    assert(stack_size(s2) == lhs.size() + rhs.size() + stack_size(rest));
                }
            },
        }
    }
    count
}


/// Every leaf of `e` is among `variables`.
pub open spec fn leaves_in<T>(e: Expression<T>, variables: Seq<T>) -> bool {
    forall|t: T| #[trigger] e.leaves().contains(t) ==> variables.contains(t)
}

proof fn lemma_leaves_in_children<T>(e: Expression<T>, variables: Seq<T>)
    requires
        leaves_in(e, variables),
    ensures
        match e {
            Expression::Leaf(v) => e.leaves() == seq![v] && variables.contains(v),
            Expression::Not(inner) => leaves_in(*inner, variables),
            Expression::And(lhs, rhs) => leaves_in(*lhs, variables) && leaves_in(*rhs, variables),
            Expression::Or(lhs, rhs) => leaves_in(*lhs, variables) && leaves_in(*rhs, variables),
        },
{
    match e {
        Expression::Leaf(v) => {
            assert(e.leaves()[0] == v);
            assert(e.leaves().contains(v));
        },
        Expression::Not(inner) => {
            assert(e.leaves() == inner.leaves());
            assert forall|t: T| #[trigger] inner.leaves().contains(t) implies variables.contains(t) by {
                assert(e.leaves().contains(t));
            }
        },
        Expression::And(lhs, rhs) => {
            assert forall|t: T| #[trigger] lhs.leaves().contains(t) implies variables.contains(t) by {
                crate::expression::lemma_mentions_iff_leaf(e, t);
                crate::expression::lemma_mentions_iff_leaf(*lhs, t);
            }
            assert forall|t: T| #[trigger] rhs.leaves().contains(t) implies variables.contains(t) by {
                crate::expression::lemma_mentions_iff_leaf(e, t);
                crate::expression::lemma_mentions_iff_leaf(*rhs, t);
            }
        },
        Expression::Or(lhs, rhs) => {
            assert forall|t: T| #[trigger] lhs.leaves().contains(t) implies variables.contains(t) by {
                crate::expression::lemma_mentions_iff_leaf(e, t);
                crate::expression::lemma_mentions_iff_leaf(*lhs, t);
            }
            assert forall|t: T| #[trigger] rhs.leaves().contains(t) implies variables.contains(t) by {
                crate::expression::lemma_mentions_iff_leaf(e, t);
                crate::expression::lemma_mentions_iff_leaf(*rhs, t);
            }
        },
    }
}

proof fn lemma_size_positive<T>(e: Expression<T>)
    ensures
        e.size() >= 1,
{
}

proof fn lemma_pending_push<T>(st: Seq<BuildTask<T>>, t: BuildTask<T>, k: int)
    ensures
        pending(st.push(t), k) <==> (pending(st, k) || (t.2 && t.1 == k)),
{
    let s2 = st.push(t);
    if pending(st, k) {
        let idx = choose|idx: int| 0 <= idx < st.len() && (#[trigger] st[idx]).2 && st[idx].1 == k;
        assert(s2[idx] == st[idx]);
    }
    if t.2 && t.1 == k {
        assert(s2[st.len() as int] == t);
    }
    if pending(s2, k) {
        let idx = choose|idx: int| 0 <= idx < s2.len() && (#[trigger] s2[idx]).2 && s2[idx].1 == k;
        if idx < st.len() {
            assert(s2[idx] == st[idx]);
        }
    }
}

/// Lays out the clauses of `root` in pre-order and returns the index of the last one.
fn build_expression<T: PartialEq>(
    clauses: &mut Vec<ExpressionClause>,
    variables: &Vec<T>,
    root: &Expression<T>,
) -> (rightmost_used_index: usize)
    requires
        obeys_concrete_eq::<T>(),
        old(clauses).len() == root.size(),
        variables@.no_duplicates(),
        leaves_in(*root, variables@),
    ensures
        final(clauses)@ == compile(*root, variables@, 0),
        rightmost_used_index + 1 == root.size(),
{
    let ghost vars = variables@;
    let ghost target = compile(*root, vars, 0);
    proof {
        lemma_compile_len(*root, vars, 0);
        assert(target.subrange(0, root.size() as int) =~= target);
    }
    let clause_count = clauses.len();
    let mut visit_stack: Vec<BuildTask<T>> = Vec::new();
    let root_index: usize = 0;
    visit_stack.push((root, root_index, false));
    let mut last_used_index = root_index;
    let ghost mut next: int = 0;
    proof {
        let s0 = Seq::<BuildTask<T>>::empty();
        assert(visit_stack@.drop_last() =~= s0);
        assert(tasks_ok(s0, root.size() as int, target, vars));
        assert(tasks_weight(s0) == 0);
    }
    while visit_stack.len() > 0
        invariant
            obeys_concrete_eq::<T>(),
            vars == variables@,
            vars.no_duplicates(),
            target == compile(*root, vars, 0),
            target.len() == clauses@.len(),
            clause_count == clauses@.len(),
            0 <= next <= target.len(),
            tasks_ok(visit_stack@, next, target, vars),
            forall|idx: int|
                0 <= idx < visit_stack@.len() ==> leaves_in(*(#[trigger] visit_stack@[idx]).0, vars),
            forall|k: int|
                0 <= k < next && !pending(visit_stack@, k) ==> clauses@[k] == #[trigger] target[k],
            (visit_stack@.len() > 0 && !visit_stack@.last().2) || last_used_index + 1 == next,
        decreases tasks_weight(visit_stack@),
    {
        let ghost before = visit_stack@;
        let ghost old_clauses = clauses@;
        let (expression, our_expression_index, visited) = visit_stack.pop().unwrap();
        let ghost rest = visit_stack@;
        let ghost top = (expression, our_expression_index, visited);
        proof {
            assert(rest == before.drop_last());
            assert(top == before.last());
            assert(before == rest.push(top));
            assert(leaves_in(*expression, vars)) by {
                assert(before[before.len() - 1] == top);
            }
            assert forall|idx: int| 0 <= idx < rest.len() implies leaves_in(*(#[trigger] rest[idx]).0, vars) by {
                assert(rest[idx] == before[idx]);
            }
            assert forall|k: int| #![trigger pending(before, k)] true implies (pending(before, k) <==> (pending(rest, k) || (visited && our_expression_index == k))) by {
                lemma_pending_push(rest, top, k);
            }
            assert(tasks_weight(before) == task_weight(top) + tasks_weight(rest));
            lemma_segment_split(*expression, our_expression_index as int, target, vars);
            lemma_size_positive(*expression);
            lemma_leaves_in_children(*expression, vars);
        }
        match (expression, visited) {
            (Expression::Leaf(variable), _) => {
                let position = position_of(variables, variable);
                let variable_index = position.unwrap();
                proof {
                    let j = vars.index_of(*variable);
                    assert(0 <= j < vars.len() && vars[j] == *variable);
                    assert(variable_index == j);
                }
                clauses.set(our_expression_index, ExpressionClause::Variable(variable_index));
                last_used_index = our_expression_index;
                proof {
                    next = next + 1;
                    assert forall|k: int| 0 <= k < next && !pending(visit_stack@, k) implies clauses@[k] == #[trigger] target[k] by {
                        if k != our_expression_index {
                            assert(!pending(before, k));
                        }
                    }
                }
            },
            (Expression::Not(inner), _) => {
                clauses.set(our_expression_index, ExpressionClause::Not);
                visit_stack.push((inner, our_expression_index + 1, false));
                proof {
                    let t = (&**inner, (our_expression_index + 1) as usize, false);
                    let s1 = rest.push(t);
                    assert(visit_stack@ == s1);
                    assert(s1.drop_last() == rest);
                    assert(s1.last() == t);
                    next = next + 1;
                    assert(tasks_ok(s1, next, target, vars));
                    assert(tasks_weight(s1) == task_weight(t) + tasks_weight(rest));
                    assert forall|idx: int| 0 <= idx < s1.len() implies leaves_in(*(#[trigger] s1[idx]).0, vars) by {
                        if idx < rest.len() {
                            assert(s1[idx] == rest[idx]);
                        }
                    }
                    assert forall|k: int| 0 <= k < next && !pending(s1, k) implies clauses@[k] == #[trigger] target[k] by {
                        lemma_pending_push(rest, t, k);
                        if k != our_expression_index {
                            assert(!pending(before, k));
                        }
                    }
                }
            },
            (Expression::And(lhs, _), false) | (Expression::Or(lhs, _), false) => {
                visit_stack.push((expression, our_expression_index, true));
                visit_stack.push((lhs, our_expression_index + 1, false));
                proof {
                    let t1 = (expression, our_expression_index, true);
                    let t2 = (&**lhs, (our_expression_index + 1) as usize, false);
                    let s1 = rest.push(t1);
                    let s2 = s1.push(t2);
                    assert(visit_stack@ == s2);
                    assert(s1.drop_last() == rest);
                    assert(s2.drop_last() == s1);
                    assert(s1.last() == t1);
                    assert(s2.last() == t2);
                    next = next + 1;
                    assert(tasks_ok(s1, next + lhs.size(), target, vars));
                    assert(tasks_ok(s2, next, target, vars));
                    assert(tasks_weight(s1) == task_weight(t1) + tasks_weight(rest));
                    assert(tasks_weight(s2) == task_weight(t2) + tasks_weight(s1));
                    assert forall|idx: int| 0 <= idx < s2.len() implies leaves_in(*(#[trigger] s2[idx]).0, vars) by {
                        if idx < rest.len() {
                            assert(s2[idx] == rest[idx]);
                        } else if idx == rest.len() {
                            assert(s2[idx] == t1);
                        } else {
                            assert(s2[idx] == t2);
                        }
                    }
                    assert forall|k: int| 0 <= k < next && !pending(s2, k) implies clauses@[k] == #[trigger] target[k] by {
                        lemma_pending_push(rest, t1, k);
                        lemma_pending_push(s1, t2, k);
                        assert(!pending(before, k));
                    }
                }
            },
            (Expression::And(lhs, rhs), true) => {
                visit_stack.push((rhs, last_used_index + 1, false));
                clauses.set(our_expression_index, ExpressionClause::And(last_used_index + 1));
                proof {
                    let t = (&**rhs, (last_used_index + 1) as usize, false);
                    let s1 = rest.push(t);
                    assert(visit_stack@ == s1);
                    assert(s1.drop_last() == rest);
                    assert(s1.last() == t);
                    assert(tasks_ok(s1, next, target, vars));
                    assert(tasks_weight(s1) == task_weight(t) + tasks_weight(rest));
                    assert forall|idx: int| 0 <= idx < s1.len() implies leaves_in(*(#[trigger] s1[idx]).0, vars) by {
                        if idx < rest.len() {
                            assert(s1[idx] == rest[idx]);
                        }
                    }
                    assert forall|k: int| 0 <= k < next && !pending(s1, k) implies clauses@[k] == #[trigger] target[k] by {
                        lemma_pending_push(rest, t, k);
                        if k != our_expression_index {
                            assert(!pending(before, k));
                        }
                    }
                }
            },
            (Expression::Or(lhs, rhs), true) => {
                visit_stack.push((rhs, last_used_index + 1, false));
                clauses.set(our_expression_index, ExpressionClause::Or(last_used_index + 1));
                proof {
                    let t = (&**rhs, (last_used_index + 1) as usize, false);
                    let s1 = rest.push(t);
                    assert(visit_stack@ == s1);
                    assert(s1.drop_last() == rest);
                    assert(s1.last() == t);
                    assert(tasks_ok(s1, next, target, vars));
                    assert(tasks_weight(s1) == task_weight(t) + tasks_weight(rest));
                    assert forall|idx: int| 0 <= idx < s1.len() implies leaves_in(*(#[trigger] s1[idx]).0, vars) by {
                        if idx < rest.len() {
                            assert(s1[idx] == rest[idx]);
                        }
                    }
                    assert forall|k: int| 0 <= k < next && !pending(s1, k) implies clauses@[k] == #[trigger] target[k] by {
                        lemma_pending_push(rest, t, k);
                        if k != our_expression_index {
                            assert(!pending(before, k));
                        }
                    }
                }
            },
        }
    }
    proof {
        assert(clauses@ =~= target);
    }
    last_used_index
}

impl<T: PartialEq + Clone> OptimizedExpression<T> {
    /// Compiles `expression`.
    pub fn new(expression: &Expression<T>) -> (result: Self)
        requires
            obeys_concrete_eq::<T>(),
            clone_is_exact::<T>(),
            expression.size() <= usize::MAX,
        ensures
            result.represents(*expression),
    {
        let mut variables_builder: Vec<T> = Vec::new();
        let clause_count = count_clauses_and_gather_variables(expression, &mut variables_builder);
        proof {
            assert(variables_builder@ == distinct_leaves(*expression));
            lemma_distinct_leaves(*expression);
        }
        let mut clauses: Vec<ExpressionClause> = Vec::with_capacity(clause_count);
        let mut filled: usize = 0;
        while filled < clause_count
            invariant
                filled <= clause_count,
                clauses@.len() == filled,
            decreases clause_count - filled,
        {
            clauses.push(ExpressionClause::Variable(0));
            filled = filled + 1;
        }
        let rightmost_used_index = build_expression(&mut clauses, &variables_builder, expression);
        let num_variables = variables_builder.len();
        let num_clauses = clauses.len();
        proof {
            let c = clauses@;
            let vars = variables_builder@;
            lemma_compile_len(*expression, vars, 0);
            assert(c.subrange(0, expression.size() as int) =~= c);
            lemma_segment_well_formed(*expression, 0, c, vars);
            assert(clauses_well_formed(c, vars.len()));
            assert(c.len() - 1 == rightmost_used_index);
        }
        OptimizedExpression { variables: variables_builder, clauses }
    }

    /// Evaluates the compiled expression; variable `j` has the value `assignment[j]`.
    pub fn satisfies(&self, assignment: &[bool]) -> (result: bool)
        requires
            self.spec_variables().len() <= assignment@.len(),
        ensures
            result == self.spec_satisfies(assignment@),
    {
        proof {
            use_type_invariant(self);
        }
        let ghost c = self.clauses@;
        let ghost a = assignment@;
        let clause_count = self.clauses.len();
        let mut visit_stack: Vec<Frame> = Vec::new();
        let mut results_stack: Vec<bool> = Vec::new();
        visit_stack.push(Frame::Eval(0));
        proof {
            reveal_with_fuel(run, 2);
        }
        while visit_stack.len() > 0
            invariant
                c == self.clauses@,
                clause_count == c.len(),
                a == assignment@,
                clauses_well_formed(c, self.variables@.len()),
                self.variables@.len() <= a.len(),
                forall|k: int| 0 <= k < visit_stack@.len() ==> frame_in_range(c, #[trigger] visit_stack@[k]),
                run(c, a, visit_stack@, results_stack@) == Some(seq![clause_value(c, a, 0)]),
            decreases frames_weight(c, visit_stack@),
        {
            let ghost before_frames = visit_stack@;
            let ghost before_results = results_stack@;
            let frame = visit_stack.pop().unwrap();
            let ghost rest = visit_stack@;
            assert(rest == before_frames.drop_last());
            assert(frame == before_frames.last());
            assert(frames_weight(c, before_frames) == frame_weight(c, frame) + frames_weight(c, rest));
            match frame {
                Frame::Eval(clause_index) => {
                    assert(clause_ok(c, self.variables@.len(), clause_index as int));
                    match &self.clauses[clause_index] {
                        ExpressionClause::Variable(variable_index) => {
                            results_stack.push(assignment[*variable_index]);
                        },
                        ExpressionClause::Not => {
                            assert(c[clause_index as int] == ExpressionClause::Not);
                            assert(clause_index + 1 < c.len());
                            visit_stack.push(Frame::NotOp);
                            visit_stack.push(Frame::Eval(clause_index + 1));
                            proof {
                                let s1 = rest.push(Frame::NotOp);
                                let s2 = s1.push(Frame::Eval((clause_index + 1) as usize));
                                assert(visit_stack@ == s2);
                                assert(s2.drop_last() == s1);
                                assert(s1.drop_last() == rest);
                                let v = clause_value(c, a, clause_index + 1);
                                assert(before_results.push(v).drop_last() == before_results);
                                assert(run(c, a, s2, before_results) == run(c, a, s1, before_results.push(v)));
                                assert(frames_weight(c, s2) == frame_weight(c, Frame::Eval((clause_index + 1) as usize)) + frames_weight(c, s1));
                                assert(frames_weight(c, s1) == 1 + frames_weight(c, rest));
                            }
                        },
                        ExpressionClause::And(rhs_clause_index) => {
                            visit_stack.push(Frame::AndOp(*rhs_clause_index));
                            visit_stack.push(Frame::Eval(clause_index + 1));
                            proof {
                                let s1 = rest.push(Frame::AndOp(*rhs_clause_index));
                                let s2 = s1.push(Frame::Eval((clause_index + 1) as usize));
                                assert(visit_stack@ == s2);
                                assert(s2.drop_last() == s1);
                                assert(s1.drop_last() == rest);
                                let v = clause_value(c, a, clause_index + 1);
                                assert(before_results.push(v).drop_last() == before_results);
                                assert(run(c, a, s2, before_results) == run(c, a, s1, before_results.push(v)));
                                assert(frames_weight(c, s2) == frame_weight(c, Frame::Eval((clause_index + 1) as usize)) + frames_weight(c, s1));
                                assert(frames_weight(c, s1) == frame_weight(c, Frame::AndOp(*rhs_clause_index)) + frames_weight(c, rest));
                            }
                        },
                        ExpressionClause::Or(rhs_clause_index) => {
                            visit_stack.push(Frame::OrOp(*rhs_clause_index));
                            visit_stack.push(Frame::Eval(clause_index + 1));
                            proof {
                                let s1 = rest.push(Frame::OrOp(*rhs_clause_index));
                                let s2 = s1.push(Frame::Eval((clause_index + 1) as usize));
                                assert(visit_stack@ == s2);
                                assert(s2.drop_last() == s1);
                                assert(s1.drop_last() == rest);
                                let v = clause_value(c, a, clause_index + 1);
                                assert(before_results.push(v).drop_last() == before_results);
                                assert(run(c, a, s2, before_results) == run(c, a, s1, before_results.push(v)));
                                assert(frames_weight(c, s2) == frame_weight(c, Frame::Eval((clause_index + 1) as usize)) + frames_weight(c, s1));
                                assert(frames_weight(c, s1) == frame_weight(c, Frame::OrOp(*rhs_clause_index)) + frames_weight(c, rest));
                            }
                        },
                    }
                },
                Frame::NotOp => {
                    let result = !results_stack.pop().unwrap();
                    results_stack.push(result);
                },
                Frame::AndOp(rhs_clause_index) => {
                    let lhs_result = results_stack.pop().unwrap();
                    if lhs_result {
                        visit_stack.push(Frame::Eval(rhs_clause_index));
                        proof {
                            let s1 = rest.push(Frame::Eval(rhs_clause_index));
                            assert(s1.drop_last() == rest);
                            assert(frames_weight(c, s1) == frame_weight(c, Frame::Eval(rhs_clause_index)) + frames_weight(c, rest));
                        }
                    } else {
                        results_stack.push(false);
                    }
                },
                Frame::OrOp(rhs_clause_index) => {
                    let lhs_result = results_stack.pop().unwrap();
                    if lhs_result {
                        results_stack.push(true);
                    } else {
                        visit_stack.push(Frame::Eval(rhs_clause_index));
                        proof {
                            let s1 = rest.push(Frame::Eval(rhs_clause_index));
                            assert(s1.drop_last() == rest);
                            assert(frames_weight(c, s1) == frame_weight(c, Frame::Eval(rhs_clause_index)) + frames_weight(c, rest));
                        }
                    }
                },
            }
        }
        assert(results_stack@ == seq![clause_value(c, a, 0)]);
        results_stack.pop().unwrap()
    }

    /// The deduplicated variables of the expression, in order of first appearance.
    pub fn variables(&self) -> (result: &[T])
        ensures
            result@ == self.spec_variables(),
    {
        self.variables.as_slice()
    }
}

/// Evaluating a compiled expression gives the truth value of the expression,
/// each leaf taking the value assigned to its position among the variables.
pub proof fn lemma_satisfies_is_evaluation<T>(
    compiled: OptimizedExpression<T>,
    e: Expression<T>,
    a: Seq<bool>,
)
    requires
        compiled.represents(e),
        compiled.spec_variables().len() <= a.len(),
    ensures
        compiled.spec_satisfies(a) == e.evaluate(assignment_env(compiled.spec_variables(), a)),
{
    let vars = compiled.variables@;
    let c = compiled.clauses@;
    lemma_distinct_leaves(e);
    lemma_compile_len(e, vars, 0);
    assert(c.subrange(0, e.size() as int) =~= c);
    lemma_segment_value(e, 0, c, vars, a);
}

/// The variables of a compiled expression are its leaves in the order of their
/// first appearance, left to right, each listed once.
pub proof fn lemma_variables_in_first_appearance_order<T>(compiled: OptimizedExpression<T>, e: Expression<T>)
    requires
        compiled.represents(e),
    ensures
        compiled.spec_variables() == distinct_leaves(e),
{
}

/// The variables of a compiled expression are its leaves, each exactly once.
pub proof fn lemma_variables_are_distinct_leaves<T>(compiled: OptimizedExpression<T>, e: Expression<T>)
    requires
        compiled.represents(e),
    ensures
        compiled.spec_variables().no_duplicates(),
        forall|t: T| #[trigger] compiled.spec_variables().contains(t) <==> e.mentions(t),
{
    lemma_distinct_leaves(e);
    assert forall|t: T| #[trigger] compiled.spec_variables().contains(t) <==> e.mentions(t) by {
        crate::expression::lemma_mentions_iff_leaf(e, t);
    }
}

} // verus!
