use react::dataset::{Project, State, TestCase, TestResult};
use react::metric::tp_tn_fp_fn;

fn result(gt: State, r: State) -> TestResult {
    TestResult {
        test: TestCase {
            file: "x_1_O0_x86_gcc".to_string(),
            cve: "CVE-1".to_string(),
            commit: "c".to_string(),
            ground_truth: gt,
            project: Project::Curl,
        },
        result: r,
    }
}

#[test]
fn counts_each_outcome() {
    let results = vec![
        result(State::Vuln, State::Vuln),
        result(State::Vuln, State::Vuln),
        result(State::Patch, State::Patch),
        result(State::Patch, State::Vuln),
        result(State::Vuln, State::Patch),
        result(State::Vuln, State::Unknown),
        result(State::Unknown, State::Patch),
    ];
    assert_eq!(tp_tn_fp_fn(&results), (2, 1, 1, 1, 2));
}

#[test]
fn counts_add_up_to_number_of_results() {
    let results = vec![
        result(State::Patch, State::Unknown),
        result(State::Unknown, State::Unknown),
        result(State::Patch, State::Vuln),
    ];
    let (tp, tn, fp, fn_, unknown) = tp_tn_fp_fn(&results);
    assert_eq!(tp + tn + fp + fn_ + unknown, results.len());
}

#[test]
fn no_results_no_counts() {
    assert_eq!(tp_tn_fp_fn(&[]), (0, 0, 0, 0, 0));
}
