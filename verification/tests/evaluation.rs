use react::config::Config;
use react::dataset::{Cve, Project, State, TestCase, TestResult};
use react::evaluation::{
    count_unknown, cve_selected, detailed_row, group_by_compiler_opt, reference_bitcode_candidates,
    resolve_reference_bitcode_paths, select_tests, source_diff_path, summarize_by_cve,
    target_bitcode_path, update_confusion, Confusion,
};
use react::metric::tp_tn_fp_fn;

fn case(file: &str, cve: &str, gt: State) -> TestCase {
    TestCase {
        file: file.to_string(),
        cve: cve.to_string(),
        commit: "c0ffee".to_string(),
        ground_truth: gt,
        project: Project::LibXml2,
    }
}

fn result(file: &str, cve: &str, gt: State, r: State) -> TestResult {
    TestResult { test: case(file, cve, gt), result: r }
}

fn the_cve() -> Cve {
    Cve {
        id: "CVE-2020-22019".to_string(),
        func: None,
        vuln: "4.4".to_string(),
        patch: "4.4.1".to_string(),
        file: "ffmpeg".to_string(),
        commit: "cea03683b93c1569b33611d71233235933b3cbce".to_string(),
        project: Project::FFmpeg,
    }
}

#[test]
fn update_confusion_counts_each_outcome() {
    let mut c = Confusion::default();
    update_confusion(&mut c, State::Vuln, State::Vuln);
    update_confusion(&mut c, State::Patch, State::Vuln);
    update_confusion(&mut c, State::Vuln, State::Patch);
    update_confusion(&mut c, State::Patch, State::Patch);
    update_confusion(&mut c, State::Patch, State::Patch);
    update_confusion(&mut c, State::Unknown, State::Vuln);
    update_confusion(&mut c, State::Vuln, State::Unknown);
    assert_eq!((c.tp, c.fp, c.fn_count, c.tn, c.unknown), (1, 1, 1, 2, 2));
    assert_eq!(c.total(), Some(7));
}

#[test]
fn confusion_total_reports_overflow() {
    let c = Confusion { tp: usize::MAX, fp: 1, fn_count: 0, tn: 0, unknown: 0 };
    assert_eq!(c.total(), None);
}

#[test]
fn summary_by_cve_adds_up_to_overall() {
    let results = vec![
        result("a_1_O0_x86_gcc", "CVE-B", State::Vuln, State::Vuln),
        result("a_1_O0_x86_gcc", "CVE-A", State::Patch, State::Vuln),
        result("a_1_O0_x86_gcc", "CVE-B", State::Patch, State::Patch),
        result("a_1_O0_x86_gcc", "CVE-A", State::Vuln, State::Unknown),
    ];
    let (overall, by_cve) = summarize_by_cve(&results);
    assert_eq!((overall.tp, overall.fp, overall.fn_count, overall.tn, overall.unknown), (1, 1, 0, 1, 1));
    let (tp, tn, fp, fn_, unknown) = tp_tn_fp_fn(&results);
    assert_eq!((tp, tn, fp, fn_, unknown), (overall.tp, overall.tn, overall.fp, overall.fn_count, overall.unknown));
    assert_eq!(by_cve.len(), 2);
    assert_eq!(by_cve[0].0, "CVE-A");
    assert_eq!(by_cve[1].0, "CVE-B");
    assert_eq!((by_cve[0].1.fp, by_cve[0].1.unknown, by_cve[0].1.tp), (1, 1, 0));
    assert_eq!((by_cve[1].1.tp, by_cve[1].1.tn), (1, 1));
    let sum: usize = by_cve.iter().map(|(_, c)| c.total().unwrap()).sum();
    assert_eq!(sum, overall.total().unwrap());
}

#[test]
fn paths_of_target_and_diff() {
    let cfg = Config::new("dataset");
    let t = case("libxml2_v2.10.0_O3_x86_gcc", "CVE-1", State::Vuln);
    assert_eq!(target_bitcode_path(&cfg, &t), "dataset/bitcodes/libxml2/libxml2_v2.10.0_O3_x86_gcc.bc");
    assert_eq!(source_diff_path(&cfg, &the_cve()), "dataset/diff/CVE-2020-22019_cea036.diff");
}

#[test]
fn reference_bitcode_resolution() {
    let cfg = Config::new("d");
    let cve = the_cve();
    let plain = (
        "d/bitcodes/ffmpeg/CVE-2020-22019_vuln.bc".to_string(),
        "d/bitcodes/ffmpeg/CVE-2020-22019_patch.bc".to_string(),
    );
    let with_commit = (
        "d/bitcodes/ffmpeg/CVE-2020-22019_cea03683b93c1569b33611d71233235933b3cbce_vuln.bc".to_string(),
        "d/bitcodes/ffmpeg/CVE-2020-22019_cea03683b93c1569b33611d71233235933b3cbce_patch.bc".to_string(),
    );
    assert_eq!(reference_bitcode_candidates(&cfg, &cve), vec![plain.clone(), with_commit.clone()]);
    assert_eq!(resolve_reference_bitcode_paths(&cfg, &cve, &[true, true]), plain);
    assert_eq!(resolve_reference_bitcode_paths(&cfg, &cve, &[false, true]), with_commit);
    assert_eq!(resolve_reference_bitcode_paths(&cfg, &cve, &[false, false]), plain);
    assert_eq!(resolve_reference_bitcode_paths(&cfg, &cve, &[]), plain);
}

#[test]
fn selecting_tests_filters_then_limits() {
    let tests = vec![
        case("a_O0_gcc", "C", State::Vuln),
        case("b_O1_clang", "C", State::Vuln),
        case("c_O2_gcc", "C", State::Vuln),
        case("d_O3_gcc", "C", State::Vuln),
    ];
    let picked = select_tests(tests.clone(), Some(2), &Some("gcc".to_string()));
    let files: Vec<&str> = picked.iter().map(|t| t.file.as_str()).collect();
    assert_eq!(files, vec!["a_O0_gcc", "c_O2_gcc"]);
    assert_eq!(select_tests(tests.clone(), None, &None).len(), 4);
    assert_eq!(select_tests(tests.clone(), Some(0), &None).len(), 0);
    assert_eq!(select_tests(tests, Some(9), &Some("clang".to_string())).len(), 1);
}

#[test]
fn selecting_cves_by_pattern() {
    let pat = Some("2021".to_string());
    let ex = Some("3711".to_string());
    assert!(cve_selected("CVE-2021-1", &pat, &None));
    assert!(!cve_selected("CVE-2020-1", &pat, &None));
    assert!(!cve_selected("CVE-2021-3711", &pat, &ex));
    assert!(cve_selected("CVE-2019-1", &None, &ex));
    assert!(cve_selected("anything", &None, &None));
}

#[test]
fn counting_unknown_results() {
    let results = vec![
        result("x", "C", State::Vuln, State::Unknown),
        result("x", "C", State::Unknown, State::Vuln),
        result("x", "C", State::Patch, State::Unknown),
    ];
    assert_eq!(count_unknown(&results), 2);
}

#[test]
fn detailed_row_marks_correct_labels() {
    let r = result("libxml2_v2_O0_x86_gcc", "CVE-9", State::Vuln, State::Vuln);
    let row = detailed_row(&r);
    assert_eq!(row.project, "libxml2");
    assert_eq!(row.cve, "CVE-9");
    assert_eq!(row.commit, "c0ffee");
    assert_eq!(row.file, "libxml2_v2_O0_x86_gcc");
    assert!(row.correct);
    let wrong = detailed_row(&result("f", "CVE-9", State::Vuln, State::Patch));
    assert!(!wrong.correct);
}

#[test]
fn grouping_by_compiler_and_level() {
    let results = vec![
        result("p_1_O0_x86_gcc", "C", State::Vuln, State::Vuln),
        result("p_1_O3_x86_clang", "C", State::Vuln, State::Vuln),
        result("p_2_O0_x86_gcc", "C", State::Vuln, State::Vuln),
    ];
    let groups = group_by_compiler_opt(&results).unwrap();
    assert_eq!(groups.len(), 8);
    assert_eq!((groups[0].0.as_str(), groups[0].1.as_str()), ("gcc", "O0"));
    assert_eq!(groups[0].2, vec![0, 2]);
    assert_eq!((groups[7].0.as_str(), groups[7].1.as_str()), ("clang", "O3"));
    assert_eq!(groups[7].2, vec![1]);
    let total: usize = groups.iter().map(|g| g.2.len()).sum();
    assert_eq!(total, 3);
}

#[test]
fn unknown_builds_are_refused() {
    let odd = vec![result("p_1_O9_x86_gcc", "C", State::Vuln, State::Vuln)];
    assert!(group_by_compiler_opt(&odd).is_none());
    let short = vec![result("p_gcc", "C", State::Vuln, State::Vuln)];
    assert!(group_by_compiler_opt(&short).is_none());
}
