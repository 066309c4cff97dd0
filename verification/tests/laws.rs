use verdict_kernel::Verdict::{Contradicted, PartiallyVerified, Unknown, Unverified, Verified};
use verdict_kernel::{BoundedArray, EvidenceLog, Policy, PolicyEngine, Verdict, EVIDENCE_LOG_CAPACITY};

type Rule<T> = fn(&T) -> Verdict;

const EVERY: [Verdict; 5] = [Unverified, PartiallyVerified, Verified, Unknown, Contradicted];

fn below(a: Verdict, b: Verdict) -> bool {
    a == b
        || a == Unknown
        || b == Contradicted
        || (a == PartiallyVerified && (b == Verified || b == Unverified))
}

fn allow_positive(value: &i32) -> Verdict {
    if *value > 0 {
        Verified
    } else {
        Unverified
    }
}

fn deny_negative(value: &i32) -> Verdict {
    if *value < 0 {
        Contradicted
    } else {
        Unknown
    }
}

fn partially_verified(_: &i32) -> Verdict {
    PartiallyVerified
}

#[test]
fn merge_table_values() {
    assert_eq!(Verified.merge(Unverified), Contradicted);
    assert_eq!(Unverified.merge(Verified), Contradicted);
    assert_eq!(PartiallyVerified.merge(Verified), Verified);
    assert_eq!(Unverified.merge(PartiallyVerified), Unverified);
    assert_eq!(Unknown.merge(PartiallyVerified), PartiallyVerified);
    assert_eq!(Unknown.merge(Unknown), Unknown);
    assert_eq!(Contradicted.merge(Unknown), Contradicted);
}

#[test]
fn merge_identity_idempotence_absorption() {
    for &a in &EVERY {
        assert_eq!(Unknown.merge(a), a);
        assert_eq!(a.merge(Unknown), a);
        assert_eq!(a.merge(a), a);
        assert_eq!(Contradicted.merge(a), Contradicted);
        assert_eq!(a.merge(Contradicted), Contradicted);
    }
}

#[test]
fn merge_is_least_upper_bound() {
    for &a in &EVERY {
        for &b in &EVERY {
            let j = a.merge(b);
            assert!(below(a, j));
            assert!(below(b, j));
            for &c in &EVERY {
                if below(a, c) && below(b, c) {
                    assert!(below(j, c));
                }
            }
        }
    }
}

#[test]
fn merge_all_values() {
    assert_eq!(Verdict::merge_all(&[]), Unknown);
    assert_eq!(Verdict::merge_all(&[PartiallyVerified]), PartiallyVerified);
    assert_eq!(Verdict::merge_all(&[Verified, PartiallyVerified]), Verified);
    assert_eq!(Verdict::merge_all(&[Unknown, Unverified, PartiallyVerified]), Unverified);
    assert_eq!(Verdict::merge_all(&[Verified, Unknown, Unverified]), Contradicted);
    assert_eq!(Verdict::merge_all(&[Contradicted, Verified, Verified]), Contradicted);
}

#[test]
fn merge_all_depends_only_on_occurring_verdicts() {
    for &a in &EVERY {
        for &b in &EVERY {
            for &c in &EVERY {
                let expected = Verdict::merge_all(&[a, b, c]);
                assert_eq!(Verdict::merge_all(&[c, b, a]), expected);
                assert_eq!(Verdict::merge_all(&[b, a, c, a]), expected);
                assert_eq!(a.merge(b).merge(c), expected);
                assert_eq!(Verdict::merge_all(&[a, b]).merge(Verdict::merge_all(&[c])), expected);
            }
        }
    }
}

#[test]
fn bounded_array_from_array_is_full() {
    let values = BoundedArray::<u8, 3>::from_array([4, 5, 6]);
    assert_eq!(values.len(), 3);
    assert!(values.is_full());
    assert!(!values.is_empty());
    assert_eq!(values.as_slice(), &[4, 5, 6]);
    assert_eq!(values.get(2), Some(6));
    assert_eq!(values.get(3), None);
    let mut copy = values.clone();
    assert_eq!(copy.push(1), Err(1));
    assert_eq!(copy, values);
}

#[test]
fn bounded_array_zero_capacity() {
    let mut values = BoundedArray::<u32, 0>::new(9);
    assert!(values.is_empty());
    assert!(values.is_full());
    assert_eq!(values.push(3), Err(3));
    assert_eq!(values.as_slice(), &[] as &[u32]);
    assert_eq!(values.get(0), None);
}

#[test]
fn evidence_log_state_is_join_of_entries() {
    let mut log = EvidenceLog::default();
    assert_eq!(log.len(), 0);
    assert_eq!(log.append(PartiallyVerified), Ok(PartiallyVerified));
    assert_eq!(log.append(Unknown), Ok(PartiallyVerified));
    assert_eq!(log.append(Unverified), Ok(Unverified));
    assert_eq!(log.append(Verified), Ok(Contradicted));
    assert_eq!(log.append(Unknown), Ok(Contradicted));
    assert_eq!(log.len(), 5);
    assert_eq!(log.state(), Verdict::merge_all(log.entries()));
    assert_eq!(log.entries(), &[PartiallyVerified, Unknown, Unverified, Verified, Unknown]);
}

#[test]
fn evidence_log_full_append_changes_nothing() {
    let mut log = EvidenceLog::new();
    for _ in 0..EVIDENCE_LOG_CAPACITY {
        assert_eq!(log.append(Unverified), Ok(Unverified));
    }
    let before = log.clone();
    assert_eq!(log.append(Verified), Err(Verified));
    assert_eq!(log, before);
    assert_eq!(log.state(), Unverified);
    assert_eq!(log.entries().len(), EVIDENCE_LOG_CAPACITY);
}

#[test]
fn policy_from_rules_keeps_order() {
    let rules: BoundedArray<Rule<i32>, 2> =
        BoundedArray::from_array([deny_negative as Rule<i32>, allow_positive as Rule<i32>]);
    let policy = Policy::<i32, Rule<i32>, 2>::from_rules(rules);
    assert_eq!(policy.len(), 2);
    assert!(policy.is_full());
    assert_eq!(policy.capacity(), 2);
    let listed = policy.rules();
    assert_eq!(listed.len(), 2);
    assert_eq!(listed[0](&-3), Contradicted);
    assert_eq!(listed[1](&3), Verified);
    assert_eq!(policy.evaluate(&-3), Contradicted);
    assert_eq!(policy.evaluate(&3), Verified);
}

#[test]
fn policy_rule_order_does_not_change_verdict() {
    let rules: [Rule<i32>; 3] = [deny_negative, allow_positive, partially_verified];
    for input in [-2, 0, 5] {
        let mut forward = Policy::<i32, Rule<i32>, 3>::default();
        let mut backward = Policy::<i32, Rule<i32>, 3>::new();
        for i in 0..3 {
            assert_eq!(forward.add_rule(rules[i]), Ok(()));
            assert_eq!(backward.add_rule(rules[2 - i]), Ok(()));
        }
        assert_eq!(forward.evaluate(&input), backward.evaluate(&input));
        assert_eq!(
            PolicyEngine::evaluate(&forward, &input),
            Verdict::merge_all(&[deny_negative(&input), allow_positive(&input), partially_verified(&input)])
        );
    }
}

#[test]
fn policy_full_returns_rule() {
    let mut policy = Policy::<i32, Rule<i32>, 1>::new();
    assert_eq!(policy.capacity(), 1);
    assert_eq!(policy.add_rule(partially_verified), Ok(()));
    let copy = policy.clone();
    let back = policy.add_rule(deny_negative);
    assert!(back.is_err());
    assert_eq!(back.unwrap_err()(&-1), Contradicted);
    assert_eq!(policy.len(), copy.len());
    assert_eq!(policy.evaluate(&-1), PartiallyVerified);
    assert_eq!(policy.rules().len(), 1);
}

#[test]
fn policy_rule_reads_by_index() {
    let mut policy = Policy::<i32, Rule<i32>, 3>::new();
    assert!(policy.rule(0).is_none());
    assert_eq!(policy.add_rule(deny_negative), Ok(()));
    assert_eq!(policy.add_rule(allow_positive), Ok(()));
    assert_eq!(policy.rule(0).unwrap()(&-1), Contradicted);
    assert_eq!(policy.rule(1).unwrap()(&1), Verified);
    assert!(policy.rule(2).is_none());
    assert!(policy.rule(7).is_none());
}

#[test]
fn policy_evaluate_after_add_rule_merges_new_verdict() {
    let rules: [Rule<i32>; 3] = [partially_verified, allow_positive, deny_negative];
    for input in [-6, 0, 8] {
        let mut policy = Policy::<i32, Rule<i32>, 3>::new();
        for rule in rules {
            let before = policy.evaluate(&input);
            assert_eq!(policy.add_rule(rule), Ok(()));
            assert_eq!(policy.evaluate(&input), before.merge(rule(&input)));
            assert_eq!(PolicyEngine::evaluate(&policy, &input), policy.evaluate(&input));
        }
    }
}
