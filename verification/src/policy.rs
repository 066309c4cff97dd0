//! Policy evaluation primitives; rules are kept inline in a bounded array.
use vstd::prelude::*;

use core::marker::PhantomData;

use crate::bounded::BoundedArray;
use crate::verdict::{
    join, join_all, lemma_join_all_contradicted, lemma_join_all_same_verdicts, Verdict,
};

verus! {

/// `outcomes` holds, for each rule in `rules`, a verdict that the rule may
/// return on `input`.
pub open spec fn outcomes_of<T, R: Fn(&T) -> Verdict>(
    rules: Seq<R>,
    input: &T,
    outcomes: Seq<Verdict>,
) -> bool {
    &&& outcomes.len() == rules.len()
    &&& forall|i: int|
        0 <= i < outcomes.len() ==> call_ensures(#[trigger] rules[i], (input,), outcomes[i])
}

/// `r` is the join, in order, of one outcome of every rule in `rules` on
/// `input`.
pub open spec fn evaluates_to<T, R: Fn(&T) -> Verdict>(rules: Seq<R>, input: &T, r: Verdict) -> bool {
    exists|outcomes: Seq<Verdict>| #[trigger] outcomes_of(rules, input, outcomes) && r == join_all(outcomes)
}

/// The rule `f` has at most one possible verdict on `input`.
pub open spec fn deterministic_on<T, R: Fn(&T) -> Verdict>(f: R, input: &T) -> bool {
    forall|a: Verdict, b: Verdict|
        call_ensures(f, (input,), a) && call_ensures(f, (input,), b) ==> a == b
}

/// A bounded collection of rules evaluated in insertion order.
///
/// A rule is any copyable callable `R` that maps a `&T` to a [`Verdict`]
/// (a plain `fn(&T) -> Verdict` is the usual choice). The policy holds at
/// most `MAX_RULES` rules; its view `self@` is the sequence of rules in the
/// order they were added.
#[derive(Debug, PartialEq, Eq)]
pub struct Policy<T, R: Copy, const MAX_RULES: usize> {
    rules: BoundedArray<Option<R>, MAX_RULES>,
    input: PhantomData<T>,
}

impl<T, R: Copy, const MAX_RULES: usize> View for Policy<T, R, MAX_RULES> {
    type V = Seq<R>;

    closed spec fn view(&self) -> Seq<R> {
        self.rules@.map_values(|slot: Option<R>| slot->Some_0)
    }
}

impl<T, R: Copy, const MAX_RULES: usize> Clone for Policy<T, R, MAX_RULES> {
    /// Copies the rule table.
    fn clone(&self) -> (r: Self)
        ensures
            r == *self,
    {
        proof {
            use_type_invariant(self);
        }
        Policy { rules: self.rules.clone(), input: PhantomData }
    }
}

impl<T, R: Copy, const MAX_RULES: usize> Policy<T, R, MAX_RULES> {
    /// Every stored slot holds a rule.
    #[verifier::type_invariant]
    spec fn slots_filled(self) -> bool {
        forall|i: int| 0 <= i < self.rules@.len() ==> (#[trigger] self.rules@[i]) is Some
    }

    /// Creates an empty policy.
    pub fn new() -> (r: Self)
        ensures
            r@ == Seq::<R>::empty(),
    {
        let r = Policy { rules: BoundedArray::new(None), input: PhantomData };
        assert(r@ =~= Seq::<R>::empty());
        r
    }

    /// Creates a policy containing every rule in `rules`, in order.
    pub fn from_rules(rules: BoundedArray<R, MAX_RULES>) -> (r: Self)
        ensures
            r@ == rules@,
            r@.len() <= MAX_RULES,
    {
        let source = rules.as_slice();
        let n = rules.len();
        let mut slots: BoundedArray<Option<R>, MAX_RULES> = BoundedArray::new(None);
        let mut i: usize = 0;
        while i < n
            invariant
                n == source@.len(),
                n <= MAX_RULES,
                source@ == rules@,
                i <= n,
                slots@.len() == i,
                forall|j: int| 0 <= j < i ==> #[trigger] slots@[j] == Some(source@[j]),
            decreases n - i,
        {
            let _ = slots.push(Some(source[i]));
            i = i + 1;
        }
        let r = Policy { rules: slots, input: PhantomData };
        assert(r@ =~= rules@);
        r
    }

    /// Adds a rule, returning it unchanged if the policy is already full.
    pub fn add_rule(&mut self, rule: R) -> (r: Result<(), R>)
        ensures
            final(self)@.len() <= MAX_RULES,
            old(self)@.len() < MAX_RULES ==> r == Ok::<(), R>(()) && final(self)@ == old(self)@.push(
                rule,
            ),
            old(self)@.len() >= MAX_RULES ==> r == Err::<(), R>(rule) && *final(self) == *old(
                self,
            ),
    {
        proof {
            use_type_invariant(&*self);
        }
        let mut rules = self.rules.clone();
        let ghost before = rules@;
        match rules.push(Some(rule)) {
            Ok(()) => {
                assert(rules@.map_values(|slot: Option<R>| slot->Some_0) =~= before.map_values(
                    |slot: Option<R>| slot->Some_0,
                ).push(rule));
                self.rules = rules;
                Ok(())
            },
            Err(_) => Err(rule),
        }
    }

    /// Number of rules in the policy.
    pub fn len(&self) -> (r: usize)
        ensures
            r == self@.len(),
            r <= MAX_RULES,
    {
        self.rules.len()
    }

    /// Maximum number of rules supported by this policy.
    pub fn capacity(&self) -> (r: usize)
        ensures
            r == MAX_RULES,
    {
        self.rules.capacity()
    }

    /// Whether the policy has no rules.
    pub fn is_empty(&self) -> (r: bool)
        ensures
            r == (self@.len() == 0),
    {
        self.rules.is_empty()
    }

    /// Whether the policy cannot accept another rule.
    pub fn is_full(&self) -> (r: bool)
        ensures
            r == (self@.len() == MAX_RULES),
    {
        self.rules.is_full()
    }

    /// The rule at `index` in insertion order, if there is one; reads it
    /// without allocating.
    pub fn rule(&self, index: usize) -> (r: Option<R>)
        ensures
            r == (if index < self@.len() {
                Some(self@[index as int])
            } else {
                None
            }),
    {
        proof {
            use_type_invariant(self);
        }
        match self.rules.get(index) {
            Some(slot) => slot,
            None => None,
        }
    }

    /// Copies the rules, in insertion order, into a new vector
    /// (use [`Policy::rule`] to read one rule without allocating).
    pub fn rules(&self) -> (r: Vec<R>)
        ensures
            r@ == self@,
    {
        proof {
            use_type_invariant(self);
        }
        let slots = self.rules.as_slice();
        let mut out: Vec<R> = Vec::new();
        let mut i: usize = 0;
        while i < slots.len()
            invariant
                slots@ == self.rules@,
                forall|j: int| 0 <= j < slots@.len() ==> (#[trigger] slots@[j]) is Some,
                i <= slots@.len(),
                out@ =~= self@.take(i as int),
            decreases slots@.len() - i,
        {
            if let Some(rule) = slots[i] {
                out.push(rule);
            }
            i = i + 1;
        }
        assert(self@.take(i as int) =~= self@);
        out
    }

    /// Evaluates all rules on `input` in insertion order and joins their
    /// verdicts, starting from `Unknown`.
    ///
    /// An empty policy is conservative and produces `Unknown`. A
    /// `Contradicted` verdict from any rule is retained and cannot be hidden
    /// by later rules.
    pub fn evaluate(&self, input: &T) -> (r: Verdict) where R: Fn(&T) -> Verdict
        requires
            forall|i: int| 0 <= i < self@.len() ==> call_requires(#[trigger] self@[i], (input,)),
        ensures
            evaluates_to(self@, input, r),
    {
        proof {
            use_type_invariant(self);
        }
        let slots = self.rules.as_slice();
        let mut result = Verdict::Unknown;
        let ghost mut outcomes: Seq<Verdict> = Seq::empty();
        let mut i: usize = 0;
        while i < slots.len()
            invariant
                slots@ == self.rules@,
                forall|j: int| 0 <= j < slots@.len() ==> (#[trigger] slots@[j]) is Some,
                forall|j: int| 0 <= j < self@.len() ==> call_requires(#[trigger] self@[j], (input,)),
                i <= slots@.len(),
                outcomes.len() == i,
                forall|j: int|
                    0 <= j < i ==> call_ensures(#[trigger] self@[j], (input,), outcomes[j]),
                result == join_all(outcomes),
            decreases slots@.len() - i,
        {
            if let Some(rule) = slots[i] {
                assert(self@[i as int] == rule);
                let v = rule(input);
                proof {
                    assert(outcomes.push(v).drop_last() =~= outcomes);
                    outcomes = outcomes.push(v);
                }
                result = result.merge(v);
            }
            i = i + 1;
        }
        assert(outcomes_of(self@, input, outcomes));
        result
    }
}

impl<T, R: Copy, const MAX_RULES: usize> Default for Policy<T, R, MAX_RULES> {
    /// An empty policy.
    fn default() -> (r: Self)
        ensures
            r@ == Seq::<R>::empty(),
    {
        Self::new()
    }
}

/// Stateless policy evaluator suitable for embedded and other `no_std`
/// environments.
pub struct PolicyEngine;

impl PolicyEngine {
    /// Evaluates a policy without allocating or retaining input state.
    pub fn evaluate<T, R: Copy, const MAX_RULES: usize>(
        policy: &Policy<T, R, MAX_RULES>,
        input: &T,
    ) -> (r: Verdict) where R: Fn(&T) -> Verdict
        requires
            forall|i: int|
                0 <= i < policy@.len() ==> call_requires(#[trigger] policy@[i], (input,)),
        ensures
            evaluates_to(policy@, input, r),
    {
        policy.evaluate(input)
    }
}

/// Every verdict among the outcomes `o1` of `rules1` is also among the
/// outcomes `o2` of `rules2`, when each rule of `rules1` occurs in `rules2`
/// and has at most one verdict on `input`.
proof fn lemma_outcomes_covered<T, R: Fn(&T) -> Verdict>(
    rules1: Seq<R>,
    rules2: Seq<R>,
    input: &T,
    o1: Seq<Verdict>,
    o2: Seq<Verdict>,
)
    requires
        forall|f: R| rules1.contains(f) ==> rules2.contains(f),
        forall|i: int| 0 <= i < rules1.len() ==> deterministic_on(#[trigger] rules1[i], input),
        outcomes_of(rules1, input, o1),
        outcomes_of(rules2, input, o2),
    ensures
        forall|v: Verdict| o1.contains(v) ==> o2.contains(v),
{
    assert forall|v: Verdict| o1.contains(v) implies o2.contains(v) by {
        let i = choose|i: int| 0 <= i < o1.len() && o1[i] == v;
        let f = rules1[i];
        assert(rules1.contains(f));
        let j = choose|j: int| 0 <= j < rules2.len() && rules2[j] == f;
        assert(call_ensures(rules2[j], (input,), o2[j]));
        assert(call_ensures(rules1[i], (input,), o1[i]));
        assert(deterministic_on(rules1[i], input));
        assert(o2[j] == v);
    }
}

/// Rule order never alters the verdict. Two policies that hold the same
/// rules, in any order, evaluate an input to the same verdict, provided each
/// rule has at most one verdict on that input.
pub proof fn lemma_rule_order_irrelevant<T, R: Copy + Fn(&T) -> Verdict, const N: usize, const M: usize>(
    p: Policy<T, R, N>,
    q: Policy<T, R, M>,
    input: &T,
    r1: Verdict,
    r2: Verdict,
)
    requires
        forall|f: R| p@.contains(f) <==> q@.contains(f),
        forall|i: int| 0 <= i < p@.len() ==> deterministic_on(#[trigger] p@[i], input),
        evaluates_to(p@, input, r1),
        evaluates_to(q@, input, r2),
    ensures
        r1 == r2,
{
    let o1 = choose|o: Seq<Verdict>| #[trigger] outcomes_of(p@, input, o) && r1 == join_all(o);
    let o2 = choose|o: Seq<Verdict>| #[trigger] outcomes_of(q@, input, o) && r2 == join_all(o);
    assert forall|i: int| 0 <= i < q@.len() implies deterministic_on(#[trigger] q@[i], input) by {
        assert(q@.contains(q@[i]));
        let k = choose|k: int| 0 <= k < p@.len() && p@[k] == q@[i];
        assert(deterministic_on(p@[k], input));
    }
    lemma_outcomes_covered(p@, q@, input, o1, o2);
    lemma_outcomes_covered(q@, p@, input, o2, o1);
    lemma_join_all_same_verdicts(o1, o2);
}

/// Evaluating after a successful `add_rule(f)` gives the earlier verdict
/// merged with the verdict of `f`, provided each rule has at most one
/// verdict on the input.
pub proof fn lemma_evaluate_after_add_rule<T, R: Copy + Fn(&T) -> Verdict, const N: usize>(
    before: Policy<T, R, N>,
    after: Policy<T, R, N>,
    f: R,
    input: &T,
    v: Verdict,
    r_before: Verdict,
    r_after: Verdict,
)
    requires
        after@ == before@.push(f),
        forall|i: int| 0 <= i < after@.len() ==> deterministic_on(#[trigger] after@[i], input),
        call_ensures(f, (input,), v),
        evaluates_to(before@, input, r_before),
        evaluates_to(after@, input, r_after),
    ensures
        r_after == join(r_before, v),
{
    let o1 = choose|o: Seq<Verdict>|
        #[trigger] outcomes_of(before@, input, o) && r_before == join_all(o);
    let o2 = choose|o: Seq<Verdict>|
        #[trigger] outcomes_of(after@, input, o) && r_after == join_all(o);
    let n = before@.len() as int;
    assert forall|i: int| 0 <= i < n implies o2[i] == o1[i] by {
        assert(after@[i] == before@[i]);
        assert(call_ensures(after@[i], (input,), o2[i]));
        assert(call_ensures(before@[i], (input,), o1[i]));
        assert(deterministic_on(after@[i], input));
    }
    assert(o2.drop_last() =~= o1);
    assert(after@[n] == f);
    assert(call_ensures(after@[n], (input,), o2[n]));
    assert(deterministic_on(after@[n], input));
}

/// On an input where each rule has at most one verdict, a policy evaluates
/// to a single verdict; so `PolicyEngine::evaluate` and `Policy::evaluate`,
/// whose contracts both state `evaluates_to`, return the same verdict.
pub proof fn lemma_engine_agrees_with_policy<T, R: Copy + Fn(&T) -> Verdict, const N: usize>(
    policy: Policy<T, R, N>,
    input: &T,
    engine_result: Verdict,
    policy_result: Verdict,
)
    requires
        forall|i: int| 0 <= i < policy@.len() ==> deterministic_on(#[trigger] policy@[i], input),
        evaluates_to(policy@, input, engine_result),
        evaluates_to(policy@, input, policy_result),
    ensures
        engine_result == policy_result,
{
    lemma_rule_order_irrelevant(policy, policy, input, engine_result, policy_result);
}

/// A rule that returns `Contradicted` decides the policy's verdict, and no other
/// rule, before or after it, can hide the contradiction.
pub proof fn lemma_contradicting_rule_decides<T, R: Copy + Fn(&T) -> Verdict, const N: usize>(
    policy: Policy<T, R, N>,
    input: &T,
    i: int,
    r: Verdict,
)
    requires
        0 <= i < policy@.len(),
        deterministic_on(policy@[i], input),
        call_ensures(policy@[i], (input,), Verdict::Contradicted),
        evaluates_to(policy@, input, r),
    ensures
        r == Verdict::Contradicted,
{
    let o = choose|o: Seq<Verdict>| #[trigger] outcomes_of(policy@, input, o) && r == join_all(o);
    assert(call_ensures(policy@[i], (input,), o[i]));
    assert(o[i] == Verdict::Contradicted);
    assert(o.contains(Verdict::Contradicted));
    lemma_join_all_contradicted(o);
}

} // verus!
