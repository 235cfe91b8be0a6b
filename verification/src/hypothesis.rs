use crate::hypotheses::HypothesisBuilderType;
use crate::optimized_expression::insert_new;
use crate::villager::VillagerIndex;
use vstd::prelude::*;

verus! {

/// A reference to a hypothesis in the graph: its position among the registrations.
#[derive(Debug, PartialEq, Eq, Structural, Hash)]
pub struct HypothesisReference(usize);

impl HypothesisReference {
    pub closed spec fn spec_index(self) -> usize {
        self.0
    }

    /// A copy of the reference.
    pub fn clone(&self) -> (result: Self)
        ensures
            result == *self,
    {
        HypothesisReference(self.0)
    }

    /// The position of the referenced hypothesis among the registrations.
    pub fn index(&self) -> (result: usize)
        ensures
            result == self.spec_index(),
    {
        self.0
    }
}

/// How deep in the evaluation stack a hypothesis is evaluated, and which one.
#[derive(Debug)]
pub struct Depth {
    depth: usize,
    reference: HypothesisReference,
}

impl Depth {
    pub closed spec fn spec_depth(self) -> usize {
        self.depth
    }

    pub closed spec fn spec_reference(self) -> HypothesisReference {
        self.reference
    }

    /// Number of hypotheses below the current one on the evaluation stack.
    pub fn depth(&self) -> (result: usize)
        ensures
            result == self.spec_depth(),
    {
        self.depth
    }

    /// The hypothesis being evaluated.
    pub fn reference(&self) -> (result: &HypothesisReference)
        ensures
            *result == self.spec_reference(),
    {
        &self.reference
    }
}

/// A cycle of hypotheses that depend on each other, starting at the one whose
/// evaluation was re-entered.
#[derive(Debug, PartialEq, Eq, Hash)]
pub struct Cycle {
    order_from_root: Vec<HypothesisReference>,
}

impl Cycle {
    pub closed spec fn spec_order(self) -> Seq<HypothesisReference> {
        self.order_from_root@
    }

    /// The hypotheses of the cycle, starting at the re-entered one.
    pub fn order_from_root(&self) -> (result: &[HypothesisReference])
        ensures
            result@ == self.spec_order(),
    {
        self.order_from_root.as_slice()
    }
}

/// A boolean combination of hypotheses.
#[derive(Debug)]
pub enum HypothesisExpression {
    Unary(HypothesisReference),
    Not(HypothesisReference),
    And((HypothesisReference, HypothesisReference)),
    Or((HypothesisReference, HypothesisReference)),
}

/// The chain of hypotheses being evaluated, from the root to the current one.
pub struct StackData {
    reference_stack: Vec<HypothesisReference>,
}

/// What follows the first occurrence of `r` in `s`, or `None` when `s` does not hold `r`.
pub open spec fn after_first(s: Seq<HypothesisReference>, r: HypothesisReference) -> Option<Seq<HypothesisReference>>
    decreases s.len(),
{
    if s.len() == 0 {
        None
    } else {
        match after_first(s.drop_last(), r) {
            Some(tail) => Some(tail.push(s.last())),
            None => if s.last() == r {
                Some(Seq::empty())
            } else {
                None
            },
        }
    }
}

/// The cycle closed by re-entering `locked`: `locked`, then what the stack holds
/// after the first occurrence of `locked` (nothing if it does not hold it).
pub open spec fn cycle_order(s: Seq<HypothesisReference>, locked: HypothesisReference) -> Seq<HypothesisReference> {
    match after_first(s, locked) {
        Some(tail) => seq![locked] + tail,
        None => seq![locked],
    }
}

impl StackData {
    pub closed spec fn spec_stack(self) -> Seq<HypothesisReference> {
        self.reference_stack@
    }

    /// A stack that holds the root only.
    pub fn new(root_reference: &HypothesisReference) -> (result: Self)
        ensures
            result.spec_stack() == seq![*root_reference],
    {
        let mut reference_stack = Vec::new();
        reference_stack.push(root_reference.clone());
        StackData { reference_stack }
    }

    /// The cycle closed by re-entering `locked_reference`.
    pub fn into_cycle(&self, locked_reference: &HypothesisReference) -> (result: Cycle)
        ensures
            result.spec_order() == cycle_order(self.spec_stack(), *locked_reference),
    {
        let mut order_from_root: Vec<HypothesisReference> = Vec::new();
        order_from_root.push(locked_reference.clone());
        let mut adding = false;
        let ghost s = self.reference_stack@;
        let mut i: usize = 0;
        while i < self.reference_stack.len()
            invariant
                s == self.reference_stack@,
                i <= s.len(),
                order_from_root@ == cycle_order(s.subrange(0, i as int), *locked_reference),
                adding <==> after_first(s.subrange(0, i as int), *locked_reference) is Some,
            decreases s.len() - i,
        {
            let trace_reference = &self.reference_stack[i];
            proof {
                let prefix2 = s.subrange(0, i + 1);
                assert(prefix2.drop_last() =~= s.subrange(0, i as int));
                assert(prefix2.last() == *trace_reference);
            }
            if adding {
                order_from_root.push(trace_reference.clone());
                proof {
                    let t = after_first(s.subrange(0, i as int), *locked_reference)->Some_0;
                    assert(seq![*locked_reference] + t.push(*trace_reference) =~= (seq![*locked_reference] + t).push(*trace_reference));
                }
            } else if trace_reference.0 == locked_reference.0 {
                adding = true;
                proof {
                    assert(seq![*locked_reference] + Seq::<HypothesisReference>::empty() =~= seq![*locked_reference]);
                }
            }
            i = i + 1;
        }
        proof {
            assert(s.subrange(0, s.len() as int) =~= s);
        }
        Cycle { order_from_root }
    }

    /// A copy of the stack.
    pub fn share(&self) -> (result: Self)
        ensures
            result.spec_stack() == self.spec_stack(),
    {
        let mut reference_stack: Vec<HypothesisReference> = Vec::with_capacity(self.reference_stack.len());
        let mut i: usize = 0;
        while i < self.reference_stack.len()
            invariant
                i <= self.reference_stack@.len(),
                reference_stack@ == self.reference_stack@.subrange(0, i as int),
            decreases self.reference_stack.len() - i,
        {
            reference_stack.push(self.reference_stack[i].clone());
            i = i + 1;
            proof {
                assert(reference_stack@ =~= self.reference_stack@.subrange(0, i as int));
            }
        }
        proof {
            assert(reference_stack@ =~= self.reference_stack@);
        }
        StackData { reference_stack }
    }

    /// The stack with `new_reference` evaluated on top of it.
    pub fn push(&self, new_reference: HypothesisReference) -> (result: Self)
        ensures
            result.spec_stack() == self.spec_stack().push(new_reference),
    {
        let mut shared = self.share();
        shared.reference_stack.push(new_reference);
        shared
    }

    /// The hypothesis being evaluated.
    pub fn current_reference(&self) -> (result: &HypothesisReference)
        requires
            self.spec_stack().len() > 0,
        ensures
            *result == self.spec_stack().last(),
    {
        let last = self.reference_stack.len() - 1;
        &self.reference_stack[last]
    }

    /// How deep the current hypothesis is, and which one it is.
    pub fn depth(&self) -> (result: Depth)
        requires
            self.spec_stack().len() > 0,
        ensures
            result.spec_depth() == self.spec_stack().len() - 1,
            result.spec_reference() == self.spec_stack().last(),
    {
        let reference = self.current_reference().clone();
        Depth { depth: self.reference_stack.len() - 1, reference }
    }
}

/// The hypotheses registered so far; registering an equal builder twice gives the
/// same reference.
pub struct HypothesisRegistrar {
    registrations: Vec<HypothesisBuilderType>,
    desires: Vec<DesireType>,
}

/// Something a hypothesis wants to happen.
#[derive(Debug, Clone, Copy, PartialEq, Eq, Structural)]
pub enum DesireType {
    /// Obtain the testimony of the villager.
    GetTestimony(VillagerIndex),
}

/// A reference to a desire producer: its position among the registered desires.
#[derive(Debug, PartialEq, Eq, Structural, Hash)]
pub struct DesireProducerReference(usize);

impl DesireProducerReference {
    pub closed spec fn spec_index(self) -> usize {
        self.0
    }

    /// The position of the referenced desire among the registered ones.
    pub fn index(&self) -> (result: usize)
        ensures
            result == self.spec_index(),
    {
        self.0
    }
}

/// The reference designates `desire` in `desires`.
pub open spec fn designates_desire(desires: Seq<DesireType>, reference: DesireProducerReference, desire: DesireType) -> bool {
    reference.spec_index() < desires.len() && desires[reference.spec_index() as int] == desire
}

impl HypothesisRegistrar {
    pub closed spec fn spec_registrations(self) -> Seq<HypothesisBuilderType> {
        self.registrations@
    }

    pub closed spec fn spec_desires(self) -> Seq<DesireType> {
        self.desires@
    }

    /// A registrar without registrations.
    pub fn new() -> (result: Self)
        ensures
            result.spec_registrations() == Seq::<HypothesisBuilderType>::empty(),
            result.spec_desires() == Seq::<DesireType>::empty(),
    {
        HypothesisRegistrar { registrations: Vec::new(), desires: Vec::new() }
    }

    /// The registered builders, in order of registration.
    pub fn registrations(&self) -> (result: &[HypothesisBuilderType])
        ensures
            result@ == self.spec_registrations(),
    {
        self.registrations.as_slice()
    }

    /// Registers `hypothesis` unless an equal one is registered, and returns the
    /// reference to the first equal registration.
    pub fn register(&mut self, hypothesis: HypothesisBuilderType) -> (result: HypothesisReference)
        ensures
            final(self).spec_registrations() == insert_new(old(self).spec_registrations(), hypothesis),
            final(self).spec_desires() == old(self).spec_desires(),
            result.spec_index() < final(self).spec_registrations().len(),
            final(self).spec_registrations()[result.spec_index() as int] == hypothesis,
            forall|k: int| 0 <= k < result.spec_index() ==> final(self).spec_registrations()[k] != hypothesis,
    {
        let mut index: usize = 0;
        while index < self.registrations.len()
            invariant
                index <= self.registrations@.len(),
                forall|k: int| 0 <= k < index ==> self.registrations@[k] != hypothesis,
            decreases self.registrations.len() - index,
        {
            if hypothesis == self.registrations[index] {
                proof {
                    assert(self.registrations@.contains(hypothesis));
                }
                return HypothesisReference(index);
            }
            index = index + 1;
        }
        let reference = HypothesisReference(self.registrations.len());
        self.registrations.push(hypothesis);
        reference
    }

    /// The registered desires, in order of registration.
    pub fn desires(&self) -> (result: &[DesireType])
        ensures
            result@ == self.spec_desires(),
    {
        self.desires.as_slice()
    }

    /// Registers `desire` unless an equal one is registered, and returns the
    /// reference to the first equal registration.
    pub fn register_desire_producer(&mut self, desire: DesireType) -> (result: DesireProducerReference)
        ensures
            final(self).spec_desires() == insert_new(old(self).spec_desires(), desire),
            final(self).spec_registrations() == old(self).spec_registrations(),
            designates_desire(final(self).spec_desires(), result, desire),
    {
        let mut index: usize = 0;
        while index < self.desires.len()
            invariant
                index <= self.desires@.len(),
                forall|k: int| 0 <= k < index ==> self.desires@[k] != desire,
            decreases self.desires.len() - index,
        {
            if desire == self.desires[index] {
                proof {
                    assert(self.desires@.contains(desire));
                }
                return DesireProducerReference(index);
            }
            index = index + 1;
        }
        let reference = DesireProducerReference(self.desires.len());
        self.desires.push(desire);
        reference
    }
}

/// Registering what is already registered changes nothing and gives the same reference.
pub proof fn lemma_register_idempotent(registrations: Seq<HypothesisBuilderType>, hypothesis: HypothesisBuilderType)
    ensures
        insert_new(insert_new(registrations, hypothesis), hypothesis) == insert_new(registrations, hypothesis),
        insert_new(registrations, hypothesis).contains(hypothesis),
{
    if !registrations.contains(hypothesis) {
        assert(registrations.push(hypothesis)[registrations.len() as int] == hypothesis);
    }
}

/// The character of the decimal digit `d`.
pub open spec fn digit_char(d: int) -> char {
    if d == 0 {
        '0'
    } else if d == 1 {
        '1'
    } else if d == 2 {
        '2'
    } else if d == 3 {
        '3'
    } else if d == 4 {
        '4'
    } else if d == 5 {
        '5'
    } else if d == 6 {
        '6'
    } else if d == 7 {
        '7'
    } else if d == 8 {
        '8'
    } else {
        '9'
    }
}

/// The decimal digits of `n`, most significant first.
pub open spec fn decimal(n: nat) -> Seq<char>
    decreases n,
{
    if n < 10 {
        seq![digit_char(n as int)]
    } else {
        decimal(n / 10).push(digit_char((n % 10) as int))
    }
}

/// `s` with zeros in front, up to `width` characters.
pub open spec fn zero_padded(s: Seq<char>, width: nat) -> Seq<char> {
    if s.len() >= width {
        s
    } else {
        Seq::new((width - s.len()) as nat, |i: int| '0') + s
    }
}

/// How the hypothesis at position `index` is written: `H-` and its number
/// counted from one, in five digits at least.
pub open spec fn reference_label(index: nat) -> Seq<char> {
    seq!['H', '-'] + zero_padded(decimal(index + 1), 5)
}

/// How a hypothesis `depth` levels down the evaluation stack is written.
pub open spec fn depth_label(depth: nat, index: nat) -> Seq<char> {
    Seq::new(2 * depth, |i: int| ' ') + seq!['-', ' ', '['] + reference_label(index) + seq![']']
}

/// How a cycle is written: its references joined by ` -> `.
pub open spec fn cycle_label(order: Seq<HypothesisReference>) -> Seq<char>
    decreases order.len(),
{
    if order.len() == 0 {
        Seq::empty()
    } else if order.len() == 1 {
        reference_label(order[0].spec_index() as nat)
    } else {
        cycle_label(order.drop_last()) + seq![' ', '-', '>', ' '] + reference_label(
            order.last().spec_index() as nat,
        )
    }
}

/// Builds a `String` with std's `String::from_iter`; the contract claims what
/// std documents of it: the text holds exactly the characters of `chars`, in order.
#[verifier::external_body]
fn string_from_chars(chars: Vec<char>) -> (result: String)
    ensures
        result@ == chars@,
{
    String::from_iter(chars)
}

fn digit(d: usize) -> (result: char)
    requires
        d < 10,
    ensures
        result == digit_char(d as int),
{
    match d {
        0 => '0',
        1 => '1',
        2 => '2',
        3 => '3',
        4 => '4',
        5 => '5',
        6 => '6',
        7 => '7',
        8 => '8',
        _ => '9',
    }
}

fn push_decimal(n: usize, out: &mut Vec<char>)
    ensures
        final(out)@ == old(out)@ + decimal(n as nat),
    decreases n,
{
    if n >= 10 {
        push_decimal(n / 10, out);
    }
    out.push(digit(n % 10));
}

fn push_reference_label(index: usize, out: &mut Vec<char>)
    requires
        index < usize::MAX,
    ensures
        final(out)@ == old(out)@ + reference_label(index as nat),
{
    let mut digits: Vec<char> = Vec::new();
    push_decimal(index + 1, &mut digits);
    assert(digits@ =~= decimal((index + 1) as nat));
    out.push('H');
    out.push('-');
    let ghost start = out@;
    let mut pad: usize = 0;
    if digits.len() < 5 {
        let missing = 5 - digits.len();
        while pad < missing
            invariant
                pad <= missing,
                out@ == start + Seq::new(pad as nat, |i: int| '0'),
            decreases missing - pad,
        {
            out.push('0');
            pad = pad + 1;
            assert(out@ =~= start + Seq::new(pad as nat, |i: int| '0'));
        }
    }
    let mut i: usize = 0;
    let ghost padded = out@;
    while i < digits.len()
        invariant
            i <= digits@.len(),
            out@ == padded + digits@.subrange(0, i as int),
        decreases digits@.len() - i,
    {
        out.push(digits[i]);
        i = i + 1;
        assert(out@ =~= padded + digits@.subrange(0, i as int));
    }
    assert(digits@.subrange(0, digits@.len() as int) =~= digits@);
    assert(out@ =~= old(out)@ + reference_label(index as nat));
}

impl HypothesisReference {
    /// How the reference is written, `H-` and its number counted from one.
    pub fn label(&self) -> (result: String)
        requires
            self.spec_index() < usize::MAX,
        ensures
            result@ == reference_label(self.spec_index() as nat),
    {
        let mut out: Vec<char> = Vec::new();
        push_reference_label(self.0, &mut out);
        assert(out@ =~= reference_label(self.spec_index() as nat));
        string_from_chars(out)
    }
}

impl Depth {
    /// How the evaluation depth is written: two spaces per level, then the reference.
    pub fn label(&self) -> (result: String)
        requires
            self.spec_reference().spec_index() < usize::MAX,
            2 * self.spec_depth() <= usize::MAX,
        ensures
            result@ == depth_label(self.spec_depth() as nat, self.spec_reference().spec_index() as nat),
    {
        let mut out: Vec<char> = Vec::new();
        let mut i: usize = 0;
        while i < self.depth
            invariant
                i <= self.depth,
                out@ == Seq::new(2 * (i as nat), |k: int| ' '),
            decreases self.depth - i,
        {
            out.push(' ');
            out.push(' ');
            i = i + 1;
            assert(out@ =~= Seq::new(2 * (i as nat), |k: int| ' '));
        }
        out.push('-');
        out.push(' ');
        out.push('[');
        push_reference_label(self.reference.0, &mut out);
        out.push(']');
        assert(out@ =~= depth_label(self.spec_depth() as nat, self.spec_reference().spec_index() as nat));
        string_from_chars(out)
    }
}

impl Cycle {
    /// How the cycle is written: its references joined by ` -> `.
    pub fn label(&self) -> (result: String)
        requires
            forall|k: int| 0 <= k < self.spec_order().len() ==> (#[trigger] self.spec_order()[k]).spec_index() < usize::MAX,
        ensures
            result@ == cycle_label(self.spec_order()),
    {
        let mut out: Vec<char> = Vec::new();
        let mut i: usize = 0;
        while i < self.order_from_root.len()
            invariant
                i <= self.order_from_root@.len(),
                forall|k: int| 0 <= k < self.spec_order().len() ==> (#[trigger] self.spec_order()[k]).spec_index() < usize::MAX,
                out@ == cycle_label(self.order_from_root@.subrange(0, i as int)),
            decreases self.order_from_root@.len() - i,
        {
            let ghost prefix = self.order_from_root@.subrange(0, i + 1);
            assert(prefix.drop_last() =~= self.order_from_root@.subrange(0, i as int));
            if i > 0 {
                out.push(' ');
                out.push('-');
                out.push('>');
                out.push(' ');
            }
            assert(self.spec_order()[i as int].spec_index() < usize::MAX);
            push_reference_label(self.order_from_root[i].0, &mut out);
            i = i + 1;
            assert(out@ =~= cycle_label(self.order_from_root@.subrange(0, i as int)));
        }
        assert(self.order_from_root@.subrange(0, self.order_from_root@.len() as int) =~= self.order_from_root@);
        string_from_chars(out)
    }
}

impl StackData {
    /// Whether `reference` is being evaluated somewhere on the stack.
    pub fn holds(&self, reference: &HypothesisReference) -> (result: bool)
        ensures
            result == self.spec_stack().contains(*reference),
    {
        let mut i: usize = 0;
        while i < self.reference_stack.len()
            invariant
                i <= self.reference_stack@.len(),
                forall|k: int| 0 <= k < i ==> self.reference_stack@[k] != *reference,
            decreases self.reference_stack@.len() - i,
        {
            if self.reference_stack[i] == *reference {
                assert(self.reference_stack@[i as int] == *reference);
                return true;
            }
            i = i + 1;
        }
        false
    }
}

/// What is known of a hypothesis's result in one iteration of the evaluation.
#[derive(Debug, Clone, Copy, PartialEq, Eq, Structural)]
pub enum ResultStatus {
    /// Not evaluated.
    Unknown,
    /// Evaluated, and may still change.
    Pending,
    /// Evaluated for good.
    Conclusive,
}

/// How the evaluation of a hypothesis obtains the result of one it depends on.
#[derive(Debug)]
pub enum SubEvaluation {
    /// Evaluate it now, on top of the stack.
    Enter,
    /// Reuse a result already known: of this iteration, or of the previous one
    /// when `previous`; made conclusive when `conclusive`.
    Reuse { previous: bool, conclusive: bool },
    /// It is being evaluated further down the stack: record this cycle and reuse
    /// its result of the previous iteration.
    Cycle(Cycle),
}

/// The evaluation of one hypothesis: the stack that led to it, where a cycle is
/// being broken, and the dependencies found so far (by hypothesis position).
pub struct HypothesisEvaluator {
    pub stack: StackData,
    pub break_at: Option<HypothesisReference>,
    pub dependencies: Vec<Vec<HypothesisReference>>,
}

/// Asking for `target` from the top of `stack` breaks the cycle at `break_at`.
pub open spec fn breaks_cycle(stack: Seq<HypothesisReference>, break_at: Option<HypothesisReference>) -> bool {
    break_at == Some(stack.last())
}

/// The result of `target` is taken from the previous iteration: when breaking a
/// cycle without a result of this iteration, when the previous iteration
/// concluded it, and when re-entering it would close a cycle.
pub open spec fn reuses_previous(
    stack: Seq<HypothesisReference>,
    break_at: Option<HypothesisReference>,
    target: HypothesisReference,
    current: Seq<ResultStatus>,
    previous: Option<Seq<ResultStatus>>,
) -> bool {
    let t = target.spec_index() as int;
    current[t] == ResultStatus::Unknown && (breaks_cycle(stack, break_at) || (previous matches Some(p)
        && p[t] == ResultStatus::Conclusive) || stack.contains(target))
}

impl HypothesisEvaluator {
    /// Records that the current hypothesis depends on `target`, and says how to
    /// obtain `target`'s result, given what this iteration (`current`) and the
    /// previous one (`previous`, if any) know of each hypothesis.
    ///
    /// When a cycle is being broken at the current hypothesis, the known result is
    /// reused as conclusive. Otherwise a result of this iteration is reused, then
    /// a conclusive one of the previous iteration; a hypothesis not on the stack
    /// is entered; one on the stack closes a cycle.
    pub fn sub_evaluate(
        &mut self,
        target: &HypothesisReference,
        current: &Vec<ResultStatus>,
        previous: Option<&Vec<ResultStatus>>,
    ) -> (result: SubEvaluation)
        requires
            old(self).stack.spec_stack().len() > 0,
            old(self).stack.spec_stack().last().spec_index() < old(self).dependencies@.len(),
            target.spec_index() < current@.len(),
            previous matches Some(p) ==> target.spec_index() < p@.len(),
            reuses_previous(
                old(self).stack.spec_stack(),
                old(self).break_at,
                *target,
                current@,
                match previous { Some(p) => Some(p@), None => None },
            ) ==> (previous matches Some(p) && p@[target.spec_index() as int] != ResultStatus::Unknown),
        ensures
            final(self).stack == old(self).stack,
            final(self).break_at == old(self).break_at,
            ({
                let from = old(self).stack.spec_stack().last().spec_index() as int;
                &&& final(self).dependencies@.len() == old(self).dependencies@.len()
                &&& forall|k: int| 0 <= k < old(self).dependencies@.len() && k != from
                    ==> #[trigger] final(self).dependencies@[k] == old(self).dependencies@[k]
                &&& final(self).dependencies@[from]@ == insert_new(old(self).dependencies@[from]@, *target)
            }),
            ({
                let s = old(self).stack.spec_stack();
                let t = target.spec_index() as int;
                let known = current@[t] != ResultStatus::Unknown;
                let prev_conclusive = previous matches Some(p) && p@[t] == ResultStatus::Conclusive;
                &&& breaks_cycle(s, old(self).break_at) ==> result == (SubEvaluation::Reuse {
                    previous: !known,
                    conclusive: true,
                })
                &&& !breaks_cycle(s, old(self).break_at) && known ==> result == (SubEvaluation::Reuse {
                    previous: false,
                    conclusive: false,
                })
                &&& !breaks_cycle(s, old(self).break_at) && !known && prev_conclusive ==> result == (
                SubEvaluation::Reuse { previous: true, conclusive: false })
                &&& !breaks_cycle(s, old(self).break_at) && !known && !prev_conclusive && !s.contains(*target)
                    ==> result is Enter
                &&& !breaks_cycle(s, old(self).break_at) && !known && !prev_conclusive && s.contains(*target)
                    ==> (result matches SubEvaluation::Cycle(c) && c.spec_order() == cycle_order(s, *target))
            }),
    {
        let from = self.stack.current_reference().index();
        let ghost before = self.dependencies@[from as int]@;
        let mut list: Vec<HypothesisReference> = Vec::new();
        let mut present = false;
        let mut i: usize = 0;
        while i < self.dependencies[from].len()
            invariant
                from < self.dependencies@.len(),
                before == self.dependencies@[from as int]@,
                i <= before.len(),
                list@ == before.subrange(0, i as int),
                present <==> exists|k: int| 0 <= k < i && before[k] == *target,
            decreases before.len() - i,
        {
            let r = self.dependencies[from][i].clone();
            if r == *target {
                present = true;
            }
            list.push(r);
            assert(list@ =~= before.subrange(0, i + 1));
            i = i + 1;
        }
        assert(list@ =~= before);
        if !present {
            list.push(target.clone());
        }
        assert(list@ == insert_new(before, *target));
        self.dependencies.set(from, list);
        let t = target.index();
        let breaking = match &self.break_at {
            Some(b) => *b == *self.stack.current_reference(),
            None => false,
        };
        let known = current[t] != ResultStatus::Unknown;
        if breaking {
            return SubEvaluation::Reuse { previous: !known, conclusive: true };
        }
        if known {
            return SubEvaluation::Reuse { previous: false, conclusive: false };
        }
        let prev_conclusive = match previous {
            Some(p) => p[t] == ResultStatus::Conclusive,
            None => false,
        };
        if prev_conclusive {
            return SubEvaluation::Reuse { previous: true, conclusive: false };
        }
        if self.stack.holds(target) {
            SubEvaluation::Cycle(self.stack.into_cycle(target))
        } else {
            SubEvaluation::Enter
        }
    }
}

} // verus!
