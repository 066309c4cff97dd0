use vstd::prelude::*;

verus! {

/// Five-state epistemic verdict.
///
/// The five values are ordered as below, and `merge` takes the least upper bound:
///
/// ```text
///              Contradicted
///             /            \
///        Verified        Unverified
///             \            /
///          PartiallyVerified
///                  |
///               Unknown
/// ```
#[derive(Clone, Copy, Debug, PartialEq, Eq, Structural)]
pub enum Verdict {
    Unverified,
    PartiallyVerified,
    Verified,
    Unknown,
    Contradicted,
}

/// The order of the diamond lattice: `a` lies at or below `b`.
pub open spec fn lattice_le(a: Verdict, b: Verdict) -> bool {
    ||| a == b
    ||| a is Unknown
    ||| b is Contradicted
    ||| (a is PartiallyVerified && (b is Verified || b is Unverified))
}

/// The join of two verdicts, case by case.
pub open spec fn join(a: Verdict, b: Verdict) -> Verdict {
    match (a, b) {
        (Verdict::Contradicted, _) => Verdict::Contradicted,
        (_, Verdict::Contradicted) => Verdict::Contradicted,
        (Verdict::Unknown, x) => x,
        (x, Verdict::Unknown) => x,
        (Verdict::Verified, Verdict::Unverified) => Verdict::Contradicted,
        (Verdict::Unverified, Verdict::Verified) => Verdict::Contradicted,
        (Verdict::PartiallyVerified, x) => x,
        (x, Verdict::PartiallyVerified) => x,
        (x, _) => x,
    }
}

/// The running join of a sequence of verdicts, folded from the left and
/// starting at `Unknown`.
pub open spec fn join_all(s: Seq<Verdict>) -> Verdict
    decreases s.len(),
{
    if s.len() == 0 {
        Verdict::Unknown
    } else {
        join(join_all(s.drop_last()), s.last())
    }
}

/// The join of a sequence stated by which verdicts occur in it.
pub open spec fn join_of_occurring(s: Seq<Verdict>) -> Verdict {
    if s.contains(Verdict::Contradicted) || (s.contains(Verdict::Verified) && s.contains(
        Verdict::Unverified,
    )) {
        Verdict::Contradicted
    } else if s.contains(Verdict::Verified) {
        Verdict::Verified
    } else if s.contains(Verdict::Unverified) {
        Verdict::Unverified
    } else if s.contains(Verdict::PartiallyVerified) {
        Verdict::PartiallyVerified
    } else {
        Verdict::Unknown
    }
}

impl Verdict {
    /// Join of two verdicts in the diamond lattice.
    pub fn merge(self, other: Self) -> (r: Self)
        ensures
            r == join(self, other),
    {
        match (self, other) {
            (Verdict::Contradicted, _) | (_, Verdict::Contradicted) => Verdict::Contradicted,
            (Verdict::Unknown, x) | (x, Verdict::Unknown) => x,
            (Verdict::Verified, Verdict::Verified) => Verdict::Verified,
            (Verdict::Unverified, Verdict::Unverified) => Verdict::Unverified,
            (Verdict::PartiallyVerified, Verdict::PartiallyVerified) => Verdict::PartiallyVerified,
            (Verdict::Verified, Verdict::PartiallyVerified)
            | (Verdict::PartiallyVerified, Verdict::Verified) => Verdict::Verified,
            (Verdict::Unverified, Verdict::PartiallyVerified)
            | (Verdict::PartiallyVerified, Verdict::Unverified) => Verdict::Unverified,
            (Verdict::Verified, Verdict::Unverified)
            | (Verdict::Unverified, Verdict::Verified) => Verdict::Contradicted,
        }
    }

    /// Joins all `verdicts` from left to right, starting at `Unknown`.
    pub fn merge_all(verdicts: &[Verdict]) -> (r: Verdict)
        ensures
            r == join_all(verdicts@),
    {
        let mut result = Verdict::Unknown;
        let mut i: usize = 0;
        while i < verdicts.len()
            invariant
                i <= verdicts@.len(),
                result == join_all(verdicts@.take(i as int)),
            decreases verdicts@.len() - i,
        {
            assert(verdicts@.take(i + 1).drop_last() =~= verdicts@.take(i as int));
            result = result.merge(verdicts[i]);
            i = i + 1;
        }
        assert(verdicts@.take(i as int) =~= verdicts@);
        result
    }
}

/// `merge` is commutative.
pub proof fn lemma_merge_commutative(a: Verdict, b: Verdict)
    ensures
        join(a, b) == join(b, a),
{
}

/// `merge` is associative.
pub proof fn lemma_merge_associative(a: Verdict, b: Verdict, c: Verdict)
    ensures
        join(join(a, b), c) == join(a, join(b, c)),
{
}

/// `merge` is idempotent.
pub proof fn lemma_merge_idempotent(a: Verdict)
    ensures
        join(a, a) == a,
{
}

/// `Unknown` is the identity of `merge`.
pub proof fn lemma_merge_identity(a: Verdict)
    ensures
        join(Verdict::Unknown, a) == a,
        join(a, Verdict::Unknown) == a,
{
}

/// `Contradicted` absorbs all others, so a merge never leaves it.
pub proof fn lemma_merge_absorbing(a: Verdict)
    ensures
        join(Verdict::Contradicted, a) == Verdict::Contradicted,
        join(a, Verdict::Contradicted) == Verdict::Contradicted,
{
}

/// The diamond order is a partial order.
pub proof fn lemma_lattice_order(a: Verdict, b: Verdict, c: Verdict)
    ensures
        lattice_le(a, a),
        lattice_le(a, b) && lattice_le(b, a) ==> a == b,
        lattice_le(a, b) && lattice_le(b, c) ==> lattice_le(a, c),
{
}

/// `merge` is the least upper bound in the diamond order.
pub proof fn lemma_merge_is_least_upper_bound(a: Verdict, b: Verdict, c: Verdict)
    ensures
        lattice_le(a, join(a, b)),
        lattice_le(b, join(a, b)),
        lattice_le(a, c) && lattice_le(b, c) ==> lattice_le(join(a, b), c),
{
}

/// The running join of a sequence depends only on which verdicts occur in it.
pub proof fn lemma_join_all_occurring(s: Seq<Verdict>)
    ensures
        join_all(s) == join_of_occurring(s),
    decreases s.len(),
{
    if s.len() > 0 {
        let p = s.drop_last();
        lemma_join_all_occurring(p);
        assert(s =~= p.push(s.last()));
        assert forall|v: Verdict| s.contains(v) <==> (p.contains(v) || v == s.last()) by {
            if s.contains(v) {
                let k = choose|k: int| 0 <= k < s.len() && s[k] == v;
                if k < s.len() - 1 {
                    assert(p[k] == v);
                }
            }
            if p.contains(v) {
                let k = choose|k: int| 0 <= k < p.len() && p[k] == v;
                assert(s[k] == v);
            }
            if v == s.last() {
                assert(s[s.len() - 1] == v);
            }
        }
    }
}

/// Folding `merge` over two sequences that hold the same verdicts, in any
/// order and with any repetition, gives the same result.
pub proof fn lemma_join_all_same_verdicts(s1: Seq<Verdict>, s2: Seq<Verdict>)
    requires
        forall|v: Verdict| s1.contains(v) <==> s2.contains(v),
    ensures
        join_all(s1) == join_all(s2),
{
    lemma_join_all_occurring(s1);
    lemma_join_all_occurring(s2);
}

/// Folding a longer sequence merges the fold of the prefix with the rest.
pub proof fn lemma_join_all_concat(s1: Seq<Verdict>, s2: Seq<Verdict>)
    ensures
        join_all(s1 + s2) == join(join_all(s1), join_all(s2)),
    decreases s2.len(),
{
    if s2.len() == 0 {
        assert(s1 + s2 =~= s1);
    } else {
        let p = s2.drop_last();
        lemma_join_all_concat(s1, p);
        assert((s1 + s2).drop_last() =~= s1 + p);
        lemma_merge_associative(join_all(s1), join_all(p), s2.last());
    }
}

/// A `Contradicted` anywhere in a sequence makes its running join
/// `Contradicted`.
pub proof fn lemma_join_all_contradicted(s: Seq<Verdict>)
    requires
        s.contains(Verdict::Contradicted),
    ensures
        join_all(s) == Verdict::Contradicted,
{
    lemma_join_all_occurring(s);
}

/// The running join of a sequence is the least upper bound of its verdicts.
pub proof fn lemma_join_all_least_upper_bound(s: Seq<Verdict>, c: Verdict)
    ensures
        forall|i: int| 0 <= i < s.len() ==> lattice_le(#[trigger] s[i], join_all(s)),
        (forall|i: int| 0 <= i < s.len() ==> lattice_le(#[trigger] s[i], c)) ==> lattice_le(
            join_all(s),
            c,
        ),
    decreases s.len(),
{
    if s.len() > 0 {
        let p = s.drop_last();
        lemma_join_all_least_upper_bound(p, c);
        lemma_merge_is_least_upper_bound(join_all(p), s.last(), c);
        assert forall|i: int| 0 <= i < s.len() implies lattice_le(#[trigger] s[i], join_all(s)) by {
            if i < s.len() - 1 {
                assert(s[i] == p[i]);
                lemma_lattice_order(s[i], join_all(p), join_all(s));
            }
        }
        if forall|i: int| 0 <= i < s.len() ==> lattice_le(#[trigger] s[i], c) {
            assert forall|i: int| 0 <= i < p.len() implies lattice_le(#[trigger] p[i], c) by {
                assert(p[i] == s[i]);
            }
            assert(lattice_le(s[s.len() - 1], c));
        }
    }
}

} // verus!
