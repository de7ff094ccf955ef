//! The decisions of an evaluation run: which CVEs and test cases are run,
//! where their bitcode lives, and how the results are tallied.

use vstd::prelude::*;
use vstd::string::*;
use vstd::utf8::*;
use crate::config::Config;
use crate::dataset::{State, TestCase, TestResult, Cve};
use crate::text::{has_infix, str_contains, byte_prefix, str_eq, split_fields};
use crate::dataset::name_fields;
use crate::seqs::{sum_to, lemma_sum_to_congruent, lemma_sum_to_add, lemma_sum_to_single, lemma_filter_none};
use crate::metric::{Outcome, outcome, outcome_of, count_outcome, lemma_count_push, outcomes_partition_results};
use crate::order::{lex_lt, keys_sorted, find_slot, lemma_insert_keeps_sorted, lemma_sorted_keys_distinct, lemma_lex_lt_irreflexive};

verus! {

/// Confusion-matrix counts, with `vuln` as the positive label.
#[derive(Debug, Clone, Copy)]
pub struct Confusion {
    pub tp: usize,
    pub fp: usize,
    pub fn_count: usize,
    pub tn: usize,
    pub unknown: usize,
}

impl Default for Confusion {
    fn default() -> (c: Self)
        ensures
            c.tp == 0 && c.fp == 0 && c.fn_count == 0 && c.tn == 0 && c.unknown == 0,
    {
        Confusion { tp: 0, fp: 0, fn_count: 0, tn: 0, unknown: 0 }
    }
}

impl Confusion {
    /// The count kept for outcome `o`.
    pub open spec fn count(self, o: Outcome) -> nat {
        match o {
            Outcome::TruePositive => self.tp as nat,
            Outcome::FalsePositive => self.fp as nat,
            Outcome::FalseNegative => self.fn_count as nat,
            Outcome::TrueNegative => self.tn as nat,
            Outcome::Unknown => self.unknown as nat,
        }
    }

    /// The counts are exactly those of the results `s`.
    pub open spec fn tallies(self, s: Seq<TestResult>) -> bool {
        forall|o: Outcome| #[trigger] self.count(o) == count_outcome(s, o)
    }

    /// The sum of all five counts.
    pub open spec fn sum(self) -> nat {
        (self.tp + self.fp + self.fn_count + self.tn + self.unknown) as nat
    }

    /// The number of classified results, or `None` when it does not fit in
    /// a `usize`.
    pub fn total(&self) -> (r: Option<usize>)
        ensures
            r == (if self.sum() <= usize::MAX { Some(self.sum() as usize) } else { None::<usize> }),
    {
        match self.tp.checked_add(self.fp) {
            None => None,
            Some(a) => match a.checked_add(self.fn_count) {
                None => None,
                Some(b) => match b.checked_add(self.tn) {
                    None => None,
                    Some(c) => c.checked_add(self.unknown),
                },
            },
        }
    }
}

/// Counts one classification: the count of its outcome goes up by one and
/// the others stay.
pub fn update_confusion(confusion: &mut Confusion, ground_truth: State, result: State)
    requires
        old(confusion).count(outcome(ground_truth, result)) < usize::MAX,
    ensures
        forall|o: Outcome| #[trigger] final(confusion).count(o) == old(confusion).count(o) + if o == outcome(ground_truth, result) { 1nat } else { 0nat },
        final(confusion).tp == old(confusion).tp + if ground_truth == State::Vuln && result == State::Vuln { 1int } else { 0int },
        final(confusion).tn == old(confusion).tn + if ground_truth == State::Patch && result == State::Patch { 1int } else { 0int },
        final(confusion).fp == old(confusion).fp + if ground_truth == State::Patch && result == State::Vuln { 1int } else { 0int },
        final(confusion).fn_count == old(confusion).fn_count + if ground_truth == State::Vuln && result == State::Patch { 1int } else { 0int },
        final(confusion).unknown == old(confusion).unknown + if ground_truth == State::Unknown || result == State::Unknown { 1int } else { 0int },
{
    match (ground_truth, result) {
        (State::Vuln, State::Vuln) => confusion.tp += 1,
        (State::Patch, State::Vuln) => confusion.fp += 1,
        (State::Vuln, State::Patch) => confusion.fn_count += 1,
        (State::Patch, State::Patch) => confusion.tn += 1,
        _ => confusion.unknown += 1,
    }
}

/// The predicate "this result is for a test case of CVE `key`".
pub open spec fn result_of_cve(key: Seq<char>) -> spec_fn(TestResult) -> bool {
    |r: TestResult| r.test.cve@ == key
}

/// The results of `s` whose test case belongs to CVE `key`, in order.
pub open spec fn results_of_cve(s: Seq<TestResult>, key: Seq<char>) -> Seq<TestResult> {
    s.filter(result_of_cve(key))
}

/// `table` lists, in increasing order of CVE id, every CVE of `s` once, each
/// with the confusion counts of exactly its results.
pub open spec fn tallied_by_cve(table: Seq<(String, Confusion)>, s: Seq<TestResult>) -> bool {
    &&& keys_sorted(table)
    &&& forall|i: int| 0 <= i < table.len() ==> (#[trigger] table[i]).1.tallies(results_of_cve(s, table[i].0@))
    &&& forall|i: int| 0 <= i < table.len() ==> results_of_cve(s, (#[trigger] table[i]).0@).len() > 0
    &&& forall|j: int| 0 <= j < s.len() ==> exists|i: int| 0 <= i < table.len() && (#[trigger] table[i]).0@ == (#[trigger] s[j]).test.cve@
}

/// No count of the results of `s` reaches the number of results.
proof fn lemma_count_bounded(s: Seq<TestResult>, o: Outcome)
    ensures
        count_outcome(s, o) <= s.len(),
{
    outcomes_partition_results(s);
}

/// A confusion that tallies `s` tallies `s` with `r` appended once `r` is counted.
proof fn lemma_tally_push(c0: Confusion, c1: Confusion, s: Seq<TestResult>, r: TestResult)
    requires
        c0.tallies(s),
        forall|o: Outcome| #[trigger] c1.count(o) == c0.count(o) + if o == outcome_of(r) { 1nat } else { 0nat },
    ensures
        c1.tallies(s.push(r)),
{
    assert forall|o: Outcome| #[trigger] c1.count(o) == count_outcome(s.push(r), o) by {
        lemma_count_push(s, r, o);
        assert(c0.count(o) == count_outcome(s, o));
    }
}

/// Appending a result of a CVE that already has a row.
proof fn lemma_tally_existing(
    table: Seq<(String, Confusion)>,
    s: Seq<TestResult>,
    r: TestResult,
    p: int,
    e: (String, Confusion),
)
    requires
        tallied_by_cve(table, s),
        0 <= p < table.len(),
        table[p].0@ == r.test.cve@,
        e.0@ == r.test.cve@,
        forall|o: Outcome| #[trigger] e.1.count(o) == table[p].1.count(o) + if o == outcome_of(r) { 1nat } else { 0nat },
    ensures
        tallied_by_cve(table.update(p, e), s.push(r)),
{
    let t = table.update(p, e);
    let s2 = s.push(r);
    assert(keys_sorted(t)) by {
        assert forall|i: int, j: int| 0 <= i < j < t.len() implies lex_lt(#[trigger] t[i].0@, #[trigger] t[j].0@) by {
            assert(t[i].0@ == table[i].0@ && t[j].0@ == table[j].0@);
        }
    }
    assert forall|i: int| 0 <= i < t.len() implies (#[trigger] t[i]).1.tallies(results_of_cve(s2, t[i].0@)) && results_of_cve(s2, t[i].0@).len() > 0 by {
        s.lemma_filter_push(r, result_of_cve(t[i].0@));
        if i == p {
            lemma_tally_push(table[p].1, e.1, results_of_cve(s, t[i].0@), r);
        } else {
            lemma_sorted_keys_distinct(table, i, p);
            assert(t[i] == table[i]);
        }
    }
    assert forall|j: int| 0 <= j < s2.len() implies exists|i: int| 0 <= i < t.len() && (#[trigger] t[i]).0@ == (#[trigger] s2[j]).test.cve@ by {
        if j == s.len() {
            assert(t[p].0@ == s2[j].test.cve@);
        } else {
            assert(s2[j] == s[j]);
            let i = choose|i: int| 0 <= i < table.len() && (#[trigger] table[i]).0@ == s[j].test.cve@;
            assert(t[i].0@ == table[i].0@);
        }
    }
}

/// Appending a result of a CVE that has no row yet, inserted where its id
/// belongs.
proof fn lemma_tally_new(
    table: Seq<(String, Confusion)>,
    s: Seq<TestResult>,
    r: TestResult,
    p: int,
    e: (String, Confusion),
)
    requires
        tallied_by_cve(table, s),
        0 <= p <= table.len(),
        forall|i: int| 0 <= i < p ==> lex_lt(#[trigger] table[i].0@, r.test.cve@),
        forall|i: int| p <= i < table.len() ==> lex_lt(r.test.cve@, #[trigger] table[i].0@),
        e.0@ == r.test.cve@,
        forall|o: Outcome| #[trigger] e.1.count(o) == if o == outcome_of(r) { 1nat } else { 0nat },
    ensures
        tallied_by_cve(table.insert(p, e), s.push(r)),
{
    let t = table.insert(p, e);
    let s2 = s.push(r);
    lemma_insert_keeps_sorted(table, p, e);
    assert forall|i: int| 0 <= i < table.len() implies (#[trigger] table[i]).0@ != r.test.cve@ by {
        lemma_lex_lt_irreflexive(r.test.cve@);
    }
    assert forall|i: int| 0 <= i < t.len() implies (#[trigger] t[i]).1.tallies(results_of_cve(s2, t[i].0@)) && results_of_cve(s2, t[i].0@).len() > 0 by {
        s.lemma_filter_push(r, result_of_cve(t[i].0@));
        if i == p {
            assert forall|j: int| 0 <= j < s.len() implies !result_of_cve(r.test.cve@)(#[trigger] s[j]) by {
                let q = choose|q: int| 0 <= q < table.len() && (#[trigger] table[q]).0@ == s[j].test.cve@;
            }
            lemma_filter_none(s, result_of_cve(r.test.cve@));
            let zero = Confusion { tp: 0, fp: 0, fn_count: 0, tn: 0, unknown: 0 };
            assert forall|o: Outcome| #[trigger] zero.count(o) == count_outcome(Seq::<TestResult>::empty(), o) by {
                reveal(Seq::filter);
            }
            lemma_tally_push(zero, e.1, Seq::<TestResult>::empty(), r);
            assert(Seq::<TestResult>::empty().push(r) == results_of_cve(s2, t[i].0@));
        } else {
            let q = if i < p { i } else { i - 1 };
            assert(t[i] == table[q]);
        }
    }
    assert forall|j: int| 0 <= j < s2.len() implies exists|i: int| 0 <= i < t.len() && (#[trigger] t[i]).0@ == (#[trigger] s2[j]).test.cve@ by {
        if j == s.len() {
            assert(t[p].0@ == s2[j].test.cve@);
        } else {
            assert(s2[j] == s[j]);
            let q = choose|q: int| 0 <= q < table.len() && (#[trigger] table[q]).0@ == s[j].test.cve@;
            if q < p {
                assert(t[q] == table[q]);
            } else {
                assert(t[q + 1] == table[q]);
            }
        }
    }
}

/// The confusion counts of all results, and those of each CVE in increasing
/// order of CVE id.
pub fn summarize_by_cve(results: &[TestResult]) -> (r: (Confusion, Vec<(String, Confusion)>))
    ensures
        r.0.tallies(results@),
        tallied_by_cve(r.1@, results@),
{
    let mut overall = Confusion::default();
    let mut by_cve: Vec<(String, Confusion)> = Vec::new();
    let n = results.len();
    let mut i: usize = 0;
    proof {
        assert(results@.subrange(0, 0) =~= Seq::<TestResult>::empty());
        assert forall|o: Outcome| #[trigger] overall.count(o) == count_outcome(Seq::<TestResult>::empty(), o) by {
            reveal(Seq::filter);
        }
    }
    while i < n
        invariant
            n == results@.len(),
            i <= n,
            overall.tallies(results@.subrange(0, i as int)),
            tallied_by_cve(by_cve@, results@.subrange(0, i as int)),
        decreases n - i,
    {
        let r = &results[i];
        let ghost pre = results@.subrange(0, i as int);
        proof {
            assert(results@.subrange(0, i + 1) =~= pre.push(*r));
            lemma_count_bounded(pre, outcome_of(*r));
        }
        let ghost before = overall;
        update_confusion(&mut overall, r.test.ground_truth, r.result);
        proof {
            lemma_tally_push(before, overall, pre, *r);
        }
        let (p, found) = find_slot(&by_cve, &r.test.cve);
        let ghost orig = by_cve@;
        if found {
            let (key, mut c) = by_cve.remove(p);
            let ghost c0 = c;
            proof {
                let sub = results_of_cve(pre, orig[p as int].0@);
                lemma_count_bounded(sub, outcome_of(*r));
                pre.lemma_filter_len(result_of_cve(orig[p as int].0@));
                assert(c0.count(outcome_of(*r)) == count_outcome(sub, outcome_of(*r)));
            }
            update_confusion(&mut c, r.test.ground_truth, r.result);
            by_cve.insert(p, (key, c));
            proof {
                assert(by_cve@ =~= orig.update(p as int, (key, c)));
                lemma_tally_existing(orig, pre, *r, p as int, (key, c));
            }
        } else {
            let key = r.test.cve.clone();
            let mut c = Confusion::default();
            update_confusion(&mut c, r.test.ground_truth, r.result);
            proof {
                lemma_tally_new(orig, pre, *r, p as int, (key, c));
            }
            by_cve.insert(p, (key, c));
        }
        i = i + 1;
    }
    proof {
        assert(results@.subrange(0, n as int) =~= results@);
    }
    (overall, by_cve)
}


/// `<bitcode dir>/<project>/<file>.bc`: the bitcode of a test binary.
pub fn target_bitcode_path(cfg: &Config, testcase: &TestCase) -> (r: String)
    ensures
        r@ == cfg.bitcode_dir@ + "/"@ + testcase.project.label() + "/"@ + testcase.file@ + ".bc"@,
{
    let mut r = String::from_str(cfg.bitcode_dir.as_str());
    r.append("/");
    r.append(testcase.project.as_str());
    r.append("/");
    r.append(testcase.file.as_str());
    r.append(".bc");
    r
}

/// The first six bytes of the CVE's fix commit, as characters.
pub open spec fn commit_prefix(cve: Cve) -> Seq<char> {
    decode_utf8(encode_utf8(cve.commit@).subrange(0, 6))
}

/// `<diff dir>/<CVE id>_<first six bytes of the commit>.diff`: the source
/// diff of a CVE. The commit must be cut at a character boundary there.
pub fn source_diff_path(cfg: &Config, cve: &Cve) -> (r: String)
    requires
        is_char_boundary(encode_utf8(cve.commit@), 6),
    ensures
        r@ == cfg.diff_dir@ + "/"@ + cve.id@ + "_"@ + commit_prefix(*cve) + ".diff"@,
{
    let mut r = String::from_str(cfg.diff_dir.as_str());
    r.append("/");
    r.append(cve.id.as_str());
    r.append("_");
    r.append(byte_prefix(cve.commit.as_str(), 6));
    r.append(".diff");
    r
}

/// `<bitcode dir>/<project>`: where a CVE's reference bitcode lives.
pub open spec fn project_dir(cfg: Config, cve: Cve) -> Seq<char> {
    cfg.bitcode_dir@ + "/"@ + cve.project.label()
}

/// The candidate `(vuln, patch)` reference bitcode pairs of a CVE, in the
/// order they are tried: `<id>_vuln.bc`/`<id>_patch.bc`, then
/// `<id>_<commit>_vuln.bc`/`<id>_<commit>_patch.bc`.
pub open spec fn reference_candidate(cfg: Config, cve: Cve, i: int) -> (Seq<char>, Seq<char>) {
    if i == 0 {
        (
            project_dir(cfg, cve) + "/"@ + cve.id@ + "_vuln.bc"@,
            project_dir(cfg, cve) + "/"@ + cve.id@ + "_patch.bc"@,
        )
    } else {
        (
            project_dir(cfg, cve) + "/"@ + cve.id@ + "_"@ + cve.commit@ + "_vuln.bc"@,
            project_dir(cfg, cve) + "/"@ + cve.id@ + "_"@ + cve.commit@ + "_patch.bc"@,
        )
    }
}

/// `<project dir>/<id><middle><suffix>`
fn reference_path(cfg: &Config, cve: &Cve, with_commit: bool, suffix: &str) -> (r: String)
    ensures
        r@ == project_dir(*cfg, *cve) + "/"@ + cve.id@ + (if with_commit { "_"@ + cve.commit@ } else { Seq::<char>::empty() }) + suffix@,
{
    let mut r = String::from_str(cfg.bitcode_dir.as_str());
    r.append("/");
    r.append(cve.project.as_str());
    r.append("/");
    r.append(cve.id.as_str());
    if with_commit {
        r.append("_");
        r.append(cve.commit.as_str());
    }
    r.append(suffix);
    proof {
        if !with_commit {
            assert(project_dir(*cfg, *cve) + "/"@ + cve.id@ + Seq::<char>::empty() =~= project_dir(*cfg, *cve) + "/"@ + cve.id@);
        }
    }
    r
}

/// The candidate reference bitcode pairs of a CVE, in the order they are tried.
pub fn reference_bitcode_candidates(cfg: &Config, cve: &Cve) -> (r: Vec<(String, String)>)
    ensures
        r@.len() == 2,
        forall|i: int| 0 <= i < 2 ==> (#[trigger] r@[i]).0@ == reference_candidate(*cfg, *cve, i).0
            && r@[i].1@ == reference_candidate(*cfg, *cve, i).1,
{
    let mut r: Vec<(String, String)> = Vec::new();
    r.push((reference_path(cfg, cve, false, "_vuln.bc"), reference_path(cfg, cve, false, "_patch.bc")));
    r.push((reference_path(cfg, cve, true, "_vuln.bc"), reference_path(cfg, cve, true, "_patch.bc")));
    proof {
        let a = project_dir(*cfg, *cve) + "/"@ + cve.id@;
        assert(a + ("_"@ + cve.commit@) + "_vuln.bc"@ =~= a + "_"@ + cve.commit@ + "_vuln.bc"@);
        assert(a + ("_"@ + cve.commit@) + "_patch.bc"@ =~= a + "_"@ + cve.commit@ + "_patch.bc"@);
    }
    r
}

/// Candidate `i` was found on disk: `present` says so at index `i`.
pub open spec fn present_at(present: Seq<bool>, i: int) -> bool {
    0 <= i < present.len() && present[i]
}

/// The reference bitcode pair of a CVE: the first candidate whose two files
/// both exist (`present[i]` tells whether they do for candidate `i`), or the
/// first candidate when neither pair is complete.
pub fn resolve_reference_bitcode_paths(cfg: &Config, cve: &Cve, present: &[bool]) -> (r: (String, String))
    ensures
        ({
            let chosen = if !present_at(present@, 0) && present_at(present@, 1) { 1int } else { 0int };
            r.0@ == reference_candidate(*cfg, *cve, chosen).0 && r.1@ == reference_candidate(*cfg, *cve, chosen).1
        }),
{
    let mut candidates = reference_bitcode_candidates(cfg, cve);
    let second = candidates.pop().unwrap();
    let first = candidates.pop().unwrap();
    if present.len() > 0 && present[0] {
        return first;
    }
    if present.len() > 1 && present[1] {
        return second;
    }
    first
}

/// The predicate "this test binary's file name contains `case`", true of
/// every test case when there is no `case`.
pub open spec fn file_matches(case: Option<Seq<char>>) -> spec_fn(TestCase) -> bool {
    |t: TestCase| match case {
        None => true,
        Some(c) => has_infix(t.file@, c),
    }
}

/// The view of an optional string.
pub open spec fn opt_view(o: Option<String>) -> Option<Seq<char>> {
    match o {
        None => None,
        Some(s) => Some(s@),
    }
}

/// The test cases to run for one CVE: those whose file name contains `case`
/// (all when there is none), at most `number` of them (all when there is no
/// limit), in their original order.
pub fn select_tests(tests: Vec<TestCase>, number: Option<usize>, case: &Option<String>) -> (r: Vec<TestCase>)
    ensures
        ({
            let matching = tests@.filter(file_matches(opt_view(*case)));
            let limit = match number { Some(n) => n as int, None => tests@.len() as int };
            r@ == if limit < matching.len() { matching.subrange(0, limit) } else { matching }
        }),
{
    let ghost all = tests@;
    let ghost pred = file_matches(opt_view(*case));
    let limit = match number {
        Some(n) => n,
        None => tests.len(),
    };
    let mut rest = tests;
    let mut kept: Vec<TestCase> = Vec::new();
    proof {
        assert(all.subrange(all.len() as int, all.len() as int) =~= Seq::<TestCase>::empty());
        reveal(Seq::filter);
        assert(rest@ =~= all.subrange(0, all.len() as int));
    }
    while rest.len() > 0
        invariant
            rest@.len() <= all.len(),
            rest@ == all.subrange(0, rest@.len() as int),
            pred == file_matches(opt_view(*case)),
            kept@ == all.subrange(rest@.len() as int, all.len() as int).filter(pred),
        decreases rest@.len(),
    {
        let ghost k = rest@.len() as int;
        let t = rest.pop().unwrap();
        proof {
            assert(t == all[k - 1]);
            assert(rest@ =~= all.subrange(0, k - 1));
            assert(all.subrange(k - 1, all.len() as int) =~= seq![t] + all.subrange(k, all.len() as int));
            all.subrange(k, all.len() as int).lemma_filter_prepend(t, pred);
        }
        let keep = match case {
            None => true,
            Some(c) => str_contains(t.file.as_str(), c.as_str()),
        };
        if keep {
            let ghost before = kept@;
            kept.insert(0, t);
            proof {
                assert(kept@ =~= seq![t] + before);
            }
        } else {
            proof {
                assert(Seq::<TestCase>::empty() + kept@ =~= kept@);
            }
        }
    }
    proof {
        assert(all.subrange(0, all.len() as int) =~= all);
    }
    kept.truncate(limit);
    kept
}

/// Whether the CVE with id `cve` is run: its id must not contain the
/// `exclude` pattern, and must contain the `pattern` when one is given.
pub fn cve_selected(cve: &str, pattern: &Option<String>, exclude: &Option<String>) -> (r: bool)
    ensures
        r == ((match opt_view(*exclude) { Some(e) => !has_infix(cve@, e), None => true })
            && (match opt_view(*pattern) { Some(p) => has_infix(cve@, p), None => true })),
{
    if let Some(e) = exclude {
        if str_contains(cve, e.as_str()) {
            return false;
        }
    }
    match pattern {
        None => true,
        Some(p) => str_contains(cve, p.as_str()),
    }
}

/// The predicate "the analysis could not classify this binary".
pub open spec fn is_unknown_result() -> spec_fn(TestResult) -> bool {
    |r: TestResult| r.result == State::Unknown
}

/// How many results the analysis left `unknown`.
pub fn count_unknown(results: &[TestResult]) -> (r: usize)
    ensures
        r == results@.filter(is_unknown_result()).len(),
{
    let n = results.len();
    let mut count: usize = 0;
    let mut i: usize = 0;
    proof {
        assert(results@.subrange(0, 0) =~= Seq::<TestResult>::empty());
        reveal(Seq::filter);
    }
    while i < n
        invariant
            n == results@.len(),
            i <= n,
            count == results@.subrange(0, i as int).filter(is_unknown_result()).len(),
            count <= i,
        decreases n - i,
    {
        proof {
            assert(results@.subrange(0, i + 1) =~= results@.subrange(0, i as int).push(results@[i as int]));
            results@.subrange(0, i as int).lemma_filter_push(results@[i as int], is_unknown_result());
        }
        match results[i].result {
            State::Unknown => count += 1,
            _ => {},
        }
        i = i + 1;
    }
    proof {
        assert(results@.subrange(0, n as int) =~= results@);
    }
    count
}


/// One line of the per-test detailed report.
pub struct DetailedResultRow {
    pub project: String,
    pub cve: String,
    pub commit: String,
    pub file: String,
    pub ground_truth: State,
    pub result: State,
    pub correct: bool,
}

/// The detailed report line of one result; it is correct when the label
/// equals the ground truth.
pub fn detailed_row(r: &TestResult) -> (row: DetailedResultRow)
    ensures
        row.project@ == r.test.project.label(),
        row.cve@ == r.test.cve@,
        row.commit@ == r.test.commit@,
        row.file@ == r.test.file@,
        row.ground_truth == r.test.ground_truth,
        row.result == r.result,
        row.correct == (r.test.ground_truth == r.result),
{
    DetailedResultRow {
        project: r.test.project.to_string(),
        cve: r.test.cve.clone(),
        commit: r.test.commit.clone(),
        file: r.test.file.clone(),
        ground_truth: r.test.ground_truth,
        result: r.result,
        correct: r.test.ground_truth == r.result,
    }
}

/// The compilers the dataset was built with, in report order.
pub open spec fn compilers() -> Seq<Seq<char>> {
    seq!["gcc"@, "clang"@]
}

/// The optimisation levels the dataset was built with, in report order.
pub open spec fn opt_levels() -> Seq<Seq<char>> {
    seq!["O0"@, "O1"@, "O2"@, "O3"@]
}

/// The test binary was built with compiler `c` at optimisation level `o`,
/// as its file name tells.
pub open spec fn built_with(r: TestResult, c: Seq<char>, o: Seq<char>) -> bool {
    &&& r.test.has_compiler_opt()
    &&& name_fields(r.test.file@).last() == c
    &&& name_fields(r.test.file@)[name_fields(r.test.file@).len() - 3] == o
}

/// The compiler and level of report group `g` (`0 <= g < 8`): compilers
/// outer, levels inner.
pub open spec fn group_compiler(g: int) -> Seq<char> {
    compilers()[g / 4]
}

/// The optimisation level of report group `g`.
pub open spec fn group_opt(g: int) -> Seq<char> {
    opt_levels()[g % 4]
}

/// Every test binary names one of the known compilers and levels.
pub open spec fn all_builds_known(s: Seq<TestResult>) -> bool {
    forall|i: int| 0 <= i < s.len() ==> exists|g: int| 0 <= g < 8 && built_with(#[trigger] s[i], group_compiler(g), group_opt(g))
}

/// The positions, in increasing order, of the results built with `c` at `o`.
pub open spec fn positions_built_with(s: Seq<TestResult>, c: Seq<char>, o: Seq<char>) -> Seq<int>
    decreases s.len(),
{
    if s.len() == 0 {
        Seq::empty()
    } else {
        let front = positions_built_with(s.drop_last(), c, o);
        if built_with(s.last(), c, o) { front.push(s.len() - 1) } else { front }
    }
}

/// The compiler names differ, and so do the level names.
proof fn lemma_report_names_distinct()
    ensures
        forall|a: int, b: int| 0 <= a < 2 && 0 <= b < 2 && a != b ==> compilers()[a] != compilers()[b],
        forall|a: int, b: int| 0 <= a < 4 && 0 <= b < 4 && a != b ==> opt_levels()[a] != opt_levels()[b],
{
    reveal_strlit("gcc");
    reveal_strlit("clang");
    reveal_strlit("O0");
    reveal_strlit("O1");
    reveal_strlit("O2");
    reveal_strlit("O3");
    assert("gcc"@.len() != "clang"@.len());
    assert("O0"@[1] != "O1"@[1]);
    assert("O0"@[1] != "O2"@[1]);
    assert("O0"@[1] != "O3"@[1]);
    assert("O1"@[1] != "O2"@[1]);
    assert("O1"@[1] != "O3"@[1]);
    assert("O2"@[1] != "O3"@[1]);
}

/// The index of `name` in `names`, if it is there.
fn index_of_name(name: &String, names: &Vec<&str>) -> (r: Option<usize>)
    ensures
        r matches Some(k) ==> k < names@.len() && names@[k as int]@ == name@,
        r is None ==> forall|k: int| 0 <= k < names@.len() ==> (#[trigger] names@[k])@ != name@,
{
    let n = names.len();
    let mut k: usize = 0;
    while k < n
        invariant
            n == names@.len(),
            k <= n,
            forall|j: int| 0 <= j < k ==> (#[trigger] names@[j])@ != name@,
        decreases n - k,
    {
        if str_eq(name.as_str(), names[k]) {
            return Some(k);
        }
        k = k + 1;
    }
    None
}

/// The results grouped by how their binary was built: for each compiler
/// (gcc, clang) and level (O0 to O3), the positions of its results in
/// `results`. `None` when a file name does not name a known compiler and
/// level.
pub fn group_by_compiler_opt(results: &[TestResult]) -> (r: Option<Vec<(String, String, Vec<usize>)>>)
    ensures
        r is Some <==> all_builds_known(results@),
        r matches Some(groups) ==> groups@.len() == 8 && forall|g: int| 0 <= g < 8 ==> {
            &&& (#[trigger] groups@[g]).0@ == group_compiler(g)
            &&& groups@[g].1@ == group_opt(g)
            &&& groups@[g].2@.map_values(|p: usize| p as int) == positions_built_with(results@, group_compiler(g), group_opt(g))
        },
{
    let mut compiler_names: Vec<&str> = Vec::new();
    compiler_names.push("gcc");
    compiler_names.push("clang");
    let mut opt_names: Vec<&str> = Vec::new();
    opt_names.push("O0");
    opt_names.push("O1");
    opt_names.push("O2");
    opt_names.push("O3");
    let mut members: Vec<Vec<usize>> = Vec::new();
    let mut g: usize = 0;
    while g < 8
        invariant
            g <= 8,
            members@.len() == g,
            forall|h: int| 0 <= h < g ==> (#[trigger] members@[h])@ == Seq::<usize>::empty(),
        decreases 8 - g,
    {
        members.push(Vec::new());
        g = g + 1;
    }
    let n = results.len();
    let mut i: usize = 0;
    proof {
        assert(results@.subrange(0, 0) =~= Seq::<TestResult>::empty());
        assert forall|h: int| 0 <= h < 8 implies (#[trigger] members@[h])@.map_values(|p: usize| p as int)
            == positions_built_with(Seq::<TestResult>::empty(), group_compiler(h), group_opt(h)) by {
            assert(members@[h]@.map_values(|p: usize| p as int) =~= Seq::<int>::empty());
        }
    }
    while i < n
        invariant
            n == results@.len(),
            i <= n,
            members@.len() == 8,
            compiler_names@.len() == 2,
            opt_names@.len() == 4,
            forall|c: int| 0 <= c < 2 ==> (#[trigger] compiler_names@[c])@ == compilers()[c],
            forall|o: int| 0 <= o < 4 ==> (#[trigger] opt_names@[o])@ == opt_levels()[o],
            all_builds_known(results@.subrange(0, i as int)),
            forall|h: int| 0 <= h < 8 ==> (#[trigger] members@[h])@.map_values(|p: usize| p as int)
                == positions_built_with(results@.subrange(0, i as int), group_compiler(h), group_opt(h)),
        decreases n - i,
    {
        let r = &results[i];
        let ghost pre = results@.subrange(0, i as int);
        let ghost post = results@.subrange(0, i + 1);
        proof {
            assert(post =~= pre.push(*r));
            assert(post.drop_last() =~= pre);
        }
        let fields = split_fields(r.test.file.as_str(), '_');
        if fields.len() < 3 {
            proof {
                assert(fields@.map_values(|x: String| x@).len() == fields@.len());
                assert(!built_with(results@[i as int], group_compiler(0), group_opt(0)));
                assert(!all_builds_known(results@)) by {
                    if all_builds_known(results@) {
                        let g = choose|g: int| 0 <= g < 8 && built_with(results@[i as int], group_compiler(g), group_opt(g));
                    }
                }
            }
            return None;
        }
        let (compiler, opt) = r.compiler_opt();
        let c = index_of_name(&compiler, &compiler_names);
        let o = index_of_name(&opt, &opt_names);
        if c.is_none() || o.is_none() {
            proof {
                assert(!all_builds_known(results@)) by {
                    if all_builds_known(results@) {
                        let g = choose|g: int| 0 <= g < 8 && built_with(results@[i as int], group_compiler(g), group_opt(g));
                        assert(compiler_names@[g / 4]@ == compilers()[g / 4]);
                        assert(opt_names@[g % 4]@ == opt_levels()[g % 4]);
                    }
                }
            }
            return None;
        }
        let c = c.unwrap();
        let o = o.unwrap();
        let k = c * 4 + o;
        let ghost before = members@;
        let mut list = members.remove(k);
        let ghost old_list = list@;
        list.push(i);
        members.insert(k, list);
        proof {
            assert(members@ =~= before.update(k as int, list));
            assert(built_with(*r, group_compiler(k as int), group_opt(k as int)));
            assert(list@.map_values(|p: usize| p as int) =~= old_list.map_values(|p: usize| p as int).push(i as int));
            assert forall|h: int| 0 <= h < 8 implies (#[trigger] members@[h])@.map_values(|p: usize| p as int)
                == positions_built_with(post, group_compiler(h), group_opt(h)) by {
                if h != k {
                    assert(members@[h] == before[h]);
                    lemma_report_names_distinct();
                    assert(!built_with(*r, group_compiler(h), group_opt(h)));
                }
            }
            assert forall|j: int| 0 <= j < post.len() implies exists|g: int| 0 <= g < 8 && built_with(#[trigger] post[j], group_compiler(g), group_opt(g)) by {
                if j < i {
                    assert(post[j] == pre[j]);
                } else {
                    assert(built_with(post[j], group_compiler(k as int), group_opt(k as int)));
                }
            }
        }
        i = i + 1;
    }
    proof {
        assert(results@.subrange(0, n as int) =~= results@);
    }
    let mut groups: Vec<(String, String, Vec<usize>)> = Vec::new();
    let mut h: usize = 0;
    while h < 8
        invariant
            h <= 8,
            members@.len() + h == 8,
            groups@.len() == h,
            compiler_names@.len() == 2,
            opt_names@.len() == 4,
            forall|c: int| 0 <= c < 2 ==> (#[trigger] compiler_names@[c])@ == compilers()[c],
            forall|o: int| 0 <= o < 4 ==> (#[trigger] opt_names@[o])@ == opt_levels()[o],
            forall|q: int| 0 <= q < members@.len() ==> (#[trigger] members@[q])@.map_values(|p: usize| p as int)
                == positions_built_with(results@, group_compiler(q + h), group_opt(q + h)),
            forall|g: int| 0 <= g < h ==> {
                &&& (#[trigger] groups@[g]).0@ == group_compiler(g)
                &&& groups@[g].1@ == group_opt(g)
                &&& groups@[g].2@.map_values(|p: usize| p as int) == positions_built_with(results@, group_compiler(g), group_opt(g))
            },
        decreases 8 - h,
    {
        let ghost before = members@;
        let list = members.remove(0);
        proof {
            assert forall|q: int| 0 <= q < members@.len() implies (#[trigger] members@[q])@.map_values(|p: usize| p as int)
                == positions_built_with(results@, group_compiler(q + h + 1), group_opt(q + h + 1)) by {
                assert(members@[q] == before[q + 1]);
            }
        }
        let entry = (String::from_str(compiler_names[h / 4]), String::from_str(opt_names[h % 4]), list);
        groups.push(entry);
        h = h + 1;
    }
    Some(groups)
}


/// The per-CVE counts of outcome `o`, one summand per row of `table`.
pub open spec fn row_counts(table: Seq<(String, Confusion)>, s: Seq<TestResult>, o: Outcome) -> spec_fn(int) -> nat {
    |i: int| count_outcome(results_of_cve(s, table[i].0@), o)
}

/// Splitting results by CVE splits the count of every outcome: when every
/// result's CVE is a row key and keys are distinct, the per-row counts add
/// up to the overall count.
proof fn lemma_split_counts(table: Seq<(String, Confusion)>, s: Seq<TestResult>, o: Outcome)
    requires
        keys_sorted(table),
        forall|j: int| 0 <= j < s.len() ==> exists|i: int| 0 <= i < table.len() && (#[trigger] table[i]).0@ == (#[trigger] s[j]).test.cve@,
    ensures
        sum_to(table.len() as int, row_counts(table, s, o)) == count_outcome(s, o),
    decreases s.len(),
{
    let n = table.len() as int;
    if s.len() == 0 {
        assert forall|i: int| 0 <= i < n implies #[trigger] row_counts(table, s, o)(i) == 0 by {
            reveal(Seq::filter);
        }
        lemma_sum_to_single(n, row_counts(table, s, o), -1, 0);
        reveal(Seq::filter);
    } else {
        let t = s.drop_last();
        let r = s.last();
        assert(t.push(r) =~= s);
        assert forall|j: int| 0 <= j < t.len() implies exists|i: int| 0 <= i < table.len() && (#[trigger] table[i]).0@ == (#[trigger] t[j]).test.cve@ by {
            assert(t[j] == s[j]);
        }
        lemma_split_counts(table, t, o);
        let k = choose|i: int| 0 <= i < table.len() && (#[trigger] table[i]).0@ == s[s.len() - 1].test.cve@;
        let extra = |i: int| if i == k && outcome_of(r) == o { 1nat } else { 0nat };
        assert forall|i: int| 0 <= i < n implies #[trigger] row_counts(table, s, o)(i) == row_counts(table, t, o)(i) + extra(i) by {
            t.lemma_filter_push(r, result_of_cve(table[i].0@));
            lemma_count_push(results_of_cve(t, table[i].0@), r, o);
            if i != k {
                lemma_sorted_keys_distinct(table, i, k);
            }
        }
        lemma_sum_to_add(n, row_counts(table, t, o), extra, row_counts(table, s, o));
        lemma_sum_to_single(n, extra, k, if outcome_of(r) == o { 1nat } else { 0nat });
        lemma_count_push(t, r, o);
    }
}

/// The per-CVE rows of a summary add up to the overall counts: for every
/// outcome, the counts of the CVEs sum to the count over all results.
pub proof fn per_cve_counts_add_up(table: Seq<(String, Confusion)>, s: Seq<TestResult>, o: Outcome)
    requires
        tallied_by_cve(table, s),
    ensures
        sum_to(table.len() as int, |i: int| table[i].1.count(o)) == count_outcome(s, o),
{
    assert forall|i: int| 0 <= i < table.len() implies (|i: int| table[i].1.count(o))(i) == #[trigger] row_counts(table, s, o)(i) by {
        assert(table[i].1.tallies(results_of_cve(s, table[i].0@)));
    }
    lemma_sum_to_congruent(table.len() as int, |i: int| table[i].1.count(o), row_counts(table, s, o));
    lemma_split_counts(table, s, o);
}


/// A binary is built with at most one of the eight compiler and level pairs.
proof fn lemma_one_build(r: TestResult, g1: int, g2: int)
    requires
        0 <= g1 < 8,
        0 <= g2 < 8,
        built_with(r, group_compiler(g1), group_opt(g1)),
        built_with(r, group_compiler(g2), group_opt(g2)),
    ensures
        g1 == g2,
{
    lemma_report_names_distinct();
    assert(g1 / 4 == g2 / 4);
    assert(g1 % 4 == g2 % 4);
}

/// The group sizes by compiler and level, one summand per group.
pub open spec fn build_group_sizes(s: Seq<TestResult>) -> spec_fn(int) -> nat {
    |g: int| positions_built_with(s, group_compiler(g), group_opt(g)).len()
}

/// Grouping by compiler and level loses and duplicates nothing: when every
/// binary names a known compiler and level, the eight groups together hold
/// every result once.
pub proof fn build_groups_partition_results(s: Seq<TestResult>)
    requires
        all_builds_known(s),
    ensures
        sum_to(8, build_group_sizes(s)) == s.len(),
    decreases s.len(),
{
    if s.len() == 0 {
        lemma_sum_to_single(8, build_group_sizes(s), -1, 0);
    } else {
        let t = s.drop_last();
        let r = s.last();
        assert(all_builds_known(t)) by {
            assert forall|i: int| 0 <= i < t.len() implies exists|g: int| 0 <= g < 8 && built_with(#[trigger] t[i], group_compiler(g), group_opt(g)) by {
                assert(t[i] == s[i]);
            }
        }
        build_groups_partition_results(t);
        let k = choose|g: int| 0 <= g < 8 && built_with(s[s.len() - 1], group_compiler(g), group_opt(g));
        let extra = |g: int| if g == k { 1nat } else { 0nat };
        assert forall|g: int| 0 <= g < 8 implies #[trigger] build_group_sizes(s)(g) == build_group_sizes(t)(g) + extra(g) by {
            if g != k && built_with(r, group_compiler(g), group_opt(g)) {
                lemma_one_build(r, g, k);
            }
        }
        lemma_sum_to_add(8, build_group_sizes(t), extra, build_group_sizes(s));
        lemma_sum_to_single(8, extra, k, 1);
    }
}


/// The report groups are gcc then clang, each at O0, O1, O2 and O3 in that
/// order.
pub proof fn report_groups_named()
    ensures
        group_compiler(0) == "gcc"@ && group_opt(0) == "O0"@,
        group_compiler(1) == "gcc"@ && group_opt(1) == "O1"@,
        group_compiler(2) == "gcc"@ && group_opt(2) == "O2"@,
        group_compiler(3) == "gcc"@ && group_opt(3) == "O3"@,
        group_compiler(4) == "clang"@ && group_opt(4) == "O0"@,
        group_compiler(5) == "clang"@ && group_opt(5) == "O1"@,
        group_compiler(6) == "clang"@ && group_opt(6) == "O2"@,
        group_compiler(7) == "clang"@ && group_opt(7) == "O3"@,
{
}

/// The compiler named by a binary's file name is gcc or clang and its level
/// is O0, O1, O2 or O3.
pub open spec fn names_known_build(r: TestResult) -> bool {
    let fields = name_fields(r.test.file@);
    &&& r.test.has_compiler_opt()
    &&& (fields.last() == "gcc"@ || fields.last() == "clang"@)
    &&& (fields[fields.len() - 3] == "O0"@ || fields[fields.len() - 3] == "O1"@
        || fields[fields.len() - 3] == "O2"@ || fields[fields.len() - 3] == "O3"@)
}

/// Grouping by compiler and level accepts exactly the binaries whose file
/// name ends in gcc or clang with O0, O1, O2 or O3 third from the end.
pub proof fn known_builds_are_grouped(s: Seq<TestResult>)
    ensures
        all_builds_known(s) <==> forall|i: int| 0 <= i < s.len() ==> names_known_build(#[trigger] s[i]),
{
    report_groups_named();
    assert forall|i: int| 0 <= i < s.len() implies (names_known_build(#[trigger] s[i])
        <==> exists|g: int| 0 <= g < 8 && built_with(s[i], group_compiler(g), group_opt(g))) by {
        let r = s[i];
        if names_known_build(r) {
            let fields = name_fields(r.test.file@);
            let c: int = if fields.last() == "gcc"@ { 0 } else { 1 };
            let o: int = if fields[fields.len() - 3] == "O0"@ { 0 } else if fields[fields.len() - 3] == "O1"@ { 1 }
                else if fields[fields.len() - 3] == "O2"@ { 2 } else { 3 };
            assert(built_with(r, group_compiler(4 * c + o), group_opt(4 * c + o)));
        }
        if exists|g: int| 0 <= g < 8 && built_with(s[i], group_compiler(g), group_opt(g)) {
            let g = choose|g: int| 0 <= g < 8 && built_with(s[i], group_compiler(g), group_opt(g));
            assert(0 <= g < 8);
        }
    }
}

/// The results labelled neither `vuln` nor `patch` are exactly those counted
/// as unknown: the unknown, `vuln` and `patch` labels split the results.
pub proof fn unknown_labels_split_results(s: Seq<TestResult>)
    ensures
        s.filter(is_unknown_result()).len()
            + s.filter(|r: TestResult| r.result == State::Vuln).len()
            + s.filter(|r: TestResult| r.result == State::Patch).len() == s.len(),
        forall|r: TestResult| #[trigger] is_unknown_result()(r) <==> r.result == State::Unknown,
    decreases s.len(),
{
    reveal(Seq::filter);
    if s.len() > 0 {
        unknown_labels_split_results(s.drop_last());
    }
}

}
