//! How one classification is scored, and the counts over a list of results.

use vstd::prelude::*;
use crate::dataset::{State, TestResult};

verus! {

/// Where a classification falls in the confusion matrix, with `vuln` as the
/// positive label.
#[derive(Debug, Clone, Copy, PartialEq, Eq, Structural)]
pub enum Outcome {
    TruePositive,
    TrueNegative,
    FalsePositive,
    FalseNegative,
    /// The analysis or the ground truth is `unknown`.
    Unknown,
}

/// The outcome of labelling a binary `result` when it truly is `ground_truth`.
pub open spec fn outcome(ground_truth: State, result: State) -> Outcome {
    match (result, ground_truth) {
        (State::Vuln, State::Vuln) => Outcome::TruePositive,
        (State::Patch, State::Patch) => Outcome::TrueNegative,
        (State::Vuln, State::Patch) => Outcome::FalsePositive,
        (State::Patch, State::Vuln) => Outcome::FalseNegative,
        _ => Outcome::Unknown,
    }
}

/// The outcome of one test result.
pub open spec fn outcome_of(r: TestResult) -> Outcome {
    outcome(r.test.ground_truth, r.result)
}

/// The predicate "this result has outcome `o`".
pub open spec fn has_outcome(o: Outcome) -> spec_fn(TestResult) -> bool {
    |r: TestResult| outcome_of(r) == o
}

/// How many of the results have outcome `o`.
pub open spec fn count_outcome(s: Seq<TestResult>, o: Outcome) -> nat {
    s.filter(has_outcome(o)).len()
}

/// Appending a result adds one to the count of its own outcome only.
pub proof fn lemma_count_push(s: Seq<TestResult>, r: TestResult, o: Outcome)
    ensures
        count_outcome(s.push(r), o) == count_outcome(s, o) + if outcome_of(r) == o { 1nat } else { 0nat },
{
    s.lemma_filter_push(r, has_outcome(o));
}

/// Every result has exactly one outcome, so the five counts add up to the
/// number of results.
pub proof fn outcomes_partition_results(s: Seq<TestResult>)
    ensures
        count_outcome(s, Outcome::TruePositive) + count_outcome(s, Outcome::TrueNegative)
            + count_outcome(s, Outcome::FalsePositive) + count_outcome(s, Outcome::FalseNegative)
            + count_outcome(s, Outcome::Unknown) == s.len(),
    decreases s.len(),
{
    if s.len() == 0 {
        reveal(Seq::filter);
    } else {
        let t = s.drop_last();
        outcomes_partition_results(t);
        assert(t.push(s.last()) =~= s);
        lemma_count_push(t, s.last(), Outcome::TruePositive);
        lemma_count_push(t, s.last(), Outcome::TrueNegative);
        lemma_count_push(t, s.last(), Outcome::FalsePositive);
        lemma_count_push(t, s.last(), Outcome::FalseNegative);
        lemma_count_push(t, s.last(), Outcome::Unknown);
    }
}

/// The counts `(tp, tn, fp, fn, unknown)` over `results`, with `vuln` as the
/// positive label; a result counts as unknown when either its label or its
/// ground truth is `unknown`.
pub fn tp_tn_fp_fn(results: &[TestResult]) -> (r: (usize, usize, usize, usize, usize))
    ensures
        r.0 == count_outcome(results@, Outcome::TruePositive),
        r.1 == count_outcome(results@, Outcome::TrueNegative),
        r.2 == count_outcome(results@, Outcome::FalsePositive),
        r.3 == count_outcome(results@, Outcome::FalseNegative),
        r.4 == count_outcome(results@, Outcome::Unknown),
        r.0 == results@.filter(labelled(State::Vuln, State::Vuln)).len(),
        r.1 == results@.filter(labelled(State::Patch, State::Patch)).len(),
        r.2 == results@.filter(labelled(State::Patch, State::Vuln)).len(),
        r.3 == results@.filter(labelled(State::Vuln, State::Patch)).len(),
        r.4 == results@.filter(unknown_side()).len(),
{
    let mut tp: usize = 0;
    let mut tn: usize = 0;
    let mut fp: usize = 0;
    let mut fn_: usize = 0;
    let mut unknown: usize = 0;
    let n = results.len();
    let mut i: usize = 0;
    proof {
        assert(results@.subrange(0, 0) =~= Seq::<TestResult>::empty());
        reveal(Seq::filter);
    }
    while i < n
        invariant
            n == results@.len(),
            i <= n,
            tp == count_outcome(results@.subrange(0, i as int), Outcome::TruePositive),
            tn == count_outcome(results@.subrange(0, i as int), Outcome::TrueNegative),
            fp == count_outcome(results@.subrange(0, i as int), Outcome::FalsePositive),
            fn_ == count_outcome(results@.subrange(0, i as int), Outcome::FalseNegative),
            unknown == count_outcome(results@.subrange(0, i as int), Outcome::Unknown),
        decreases n - i,
    {
        let r = &results[i];
        let ghost pre = results@.subrange(0, i as int);
        proof {
            assert(results@.subrange(0, i + 1) =~= pre.push(results@[i as int]));
            outcomes_partition_results(pre);
            lemma_count_push(pre, results@[i as int], Outcome::TruePositive);
            lemma_count_push(pre, results@[i as int], Outcome::TrueNegative);
            lemma_count_push(pre, results@[i as int], Outcome::FalsePositive);
            lemma_count_push(pre, results@[i as int], Outcome::FalseNegative);
            lemma_count_push(pre, results@[i as int], Outcome::Unknown);
        }
        match (r.result, r.test.ground_truth) {
            (State::Vuln, State::Vuln) => tp += 1,
            (State::Patch, State::Patch) => tn += 1,
            (State::Vuln, State::Patch) => fp += 1,
            (State::Patch, State::Vuln) => fn_ += 1,
            (State::Unknown, _) => unknown += 1,
            (_, State::Unknown) => unknown += 1,
        }
        i = i + 1;
    }
    proof {
        assert(results@.subrange(0, n as int) =~= results@);
        counts_by_label(results@);
    }
    (tp, tn, fp, fn_, unknown)
}


/// Where each pair of ground truth and label falls: only the four pairs of
/// `vuln` and `patch` reach the confusion matrix proper, and a binary the
/// analysis labelled `unknown`, or whose ground truth is `unknown`, counts
/// as unknown whatever the other side is.
pub proof fn outcome_table(ground_truth: State, result: State)
    ensures
        (outcome(ground_truth, result) == Outcome::TruePositive) <==> (ground_truth == State::Vuln && result == State::Vuln),
        (outcome(ground_truth, result) == Outcome::TrueNegative) <==> (ground_truth == State::Patch && result == State::Patch),
        (outcome(ground_truth, result) == Outcome::FalsePositive) <==> (ground_truth == State::Patch && result == State::Vuln),
        (outcome(ground_truth, result) == Outcome::FalseNegative) <==> (ground_truth == State::Vuln && result == State::Patch),
        (outcome(ground_truth, result) == Outcome::Unknown) <==> (ground_truth == State::Unknown || result == State::Unknown),
        outcome(ground_truth, State::Unknown) == Outcome::Unknown,
        outcome(State::Unknown, result) == Outcome::Unknown,
{
}

/// The predicate "the label or the ground truth of this result is `unknown`".
pub open spec fn unknown_side() -> spec_fn(TestResult) -> bool {
    |r: TestResult| r.result == State::Unknown || r.test.ground_truth == State::Unknown
}

/// The predicate "this result has ground truth `gt` and label `label`".
pub open spec fn labelled(gt: State, label: State) -> spec_fn(TestResult) -> bool {
    |r: TestResult| r.test.ground_truth == gt && r.result == label
}

/// The counts over a list of results, read off the labels directly: true
/// positives are the vulnerable binaries labelled `vuln`, true negatives the
/// patched ones labelled `patch`, false positives the patched ones labelled
/// `vuln`, false negatives the vulnerable ones labelled `patch`, and unknown
/// every result whose label or ground truth is `unknown`.
pub proof fn counts_by_label(s: Seq<TestResult>)
    ensures
        count_outcome(s, Outcome::TruePositive) == s.filter(labelled(State::Vuln, State::Vuln)).len(),
        count_outcome(s, Outcome::TrueNegative) == s.filter(labelled(State::Patch, State::Patch)).len(),
        count_outcome(s, Outcome::FalsePositive) == s.filter(labelled(State::Patch, State::Vuln)).len(),
        count_outcome(s, Outcome::FalseNegative) == s.filter(labelled(State::Vuln, State::Patch)).len(),
        count_outcome(s, Outcome::Unknown) == s.filter(unknown_side()).len(),
{
    assert(has_outcome(Outcome::TruePositive) =~= labelled(State::Vuln, State::Vuln));
    assert(has_outcome(Outcome::TrueNegative) =~= labelled(State::Patch, State::Patch));
    assert(has_outcome(Outcome::FalsePositive) =~= labelled(State::Patch, State::Vuln));
    assert(has_outcome(Outcome::FalseNegative) =~= labelled(State::Vuln, State::Patch));
    assert(has_outcome(Outcome::Unknown) =~= unknown_side());
}

}
