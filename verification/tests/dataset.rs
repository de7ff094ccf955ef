use react::config::Config;
use react::dataset::{group_by_cve, Cve, CveIndex, Project, State, TestCase, TestResult};

fn case(file: &str, cve: &str, gt: State) -> TestCase {
    TestCase {
        file: file.to_string(),
        cve: cve.to_string(),
        commit: "abc".to_string(),
        ground_truth: gt,
        project: Project::Tcpdump,
    }
}

fn cve(id: &str, commit: &str) -> Cve {
    Cve {
        id: id.to_string(),
        func: None,
        vuln: "1.0".to_string(),
        patch: "1.1".to_string(),
        file: "tcpdump".to_string(),
        commit: commit.to_string(),
        project: Project::Tcpdump,
    }
}

#[test]
fn config_paths_lie_under_dataset() {
    let cfg = Config::new("/data/set");
    assert_eq!(cfg.dataset_dir, "/data/set");
    assert_eq!(cfg.cve_info, "/data/set/CVE_info.jsonl");
    assert_eq!(cfg.test, "/data/set/test.jsonl");
    assert_eq!(cfg.diff_dir, "/data/set/diff");
    assert_eq!(cfg.bitcode_dir, "/data/set/bitcodes");
    assert_eq!(cfg.binaries_dir, "/data/set/binary");
}

#[test]
fn project_and_state_names() {
    assert_eq!(Project::FFmpeg.to_string(), "ffmpeg");
    assert_eq!(Project::OpenSSL.to_string(), "openssl");
    assert_eq!(Project::LibXml2.to_string(), "libxml2");
    assert_eq!(Project::ImageMagick.to_string(), "image-magick");
    assert_eq!(Project::OpenJDK.to_string(), "openjdk");
    assert_eq!(Project::Yasm.as_str(), "yasm");
    assert_eq!(State::Patch.to_string(), "patch");
    assert_eq!(State::Vuln.to_string(), "vuln");
    assert_eq!(State::Unknown.to_string(), "unknown");
}

#[test]
fn test_case_and_result_text() {
    let t = case("tcpdump_4.9_O0_x86_gcc", "CVE-1", State::Vuln);
    assert_eq!(t.to_string(), "[CVE-1 tcpdump_4.9_O0_x86_gcc vuln]");
    let r = TestResult { test: t, result: State::Unknown };
    assert_eq!(r.to_string(), "[CVE-1 tcpdump_4.9_O0_x86_gcc vuln] unknown");
}

#[test]
fn compiler_and_level_from_file_name() {
    let t = case("tcpdump_tcpdump-4.9.3_O0_x86_clang", "CVE-1", State::Patch);
    assert_eq!(t.compiler_opt(), ("clang".to_string(), "O0".to_string()));
    let t = case("libxml2_v2.10.0_O3_x86_gcc", "CVE-1", State::Patch);
    let r = TestResult { test: t, result: State::Vuln };
    assert_eq!(r.compiler_opt(), ("gcc".to_string(), "O3".to_string()));
    let t = case("a__b", "CVE-1", State::Patch);
    assert_eq!(t.compiler_opt(), ("b".to_string(), "a".to_string()));
}

#[test]
fn grouping_sorts_cves_and_keeps_order() {
    let tests = vec![
        case("f1", "CVE-2021-3", State::Vuln),
        case("f2", "CVE-2020-1", State::Patch),
        case("f3", "CVE-2021-3", State::Patch),
        case("f4", "CVE-2020-10", State::Vuln),
        case("f5", "CVE-2020-1", State::Vuln),
    ];
    let groups = group_by_cve(tests);
    let keys: Vec<&str> = groups.iter().map(|g| g.0.as_str()).collect();
    assert_eq!(keys, vec!["CVE-2020-1", "CVE-2020-10", "CVE-2021-3"]);
    let files: Vec<Vec<&str>> = groups
        .iter()
        .map(|g| g.1.iter().map(|t| t.file.as_str()).collect())
        .collect();
    assert_eq!(files, vec![vec!["f2", "f5"], vec!["f4"], vec!["f1", "f3"]]);
    let total: usize = groups.iter().map(|g| g.1.len()).sum();
    assert_eq!(total, 5);
}

#[test]
fn grouping_nothing_gives_no_groups() {
    assert!(group_by_cve(Vec::new()).is_empty());
}

#[test]
fn index_keeps_last_record_of_an_id() {
    let index = CveIndex::from_cves(vec![
        cve("CVE-1", "aaaaaaa"),
        cve("CVE-2", "bbbbbbb"),
        cve("CVE-1", "ccccccc"),
    ]);
    assert_eq!(index.len(), 2);
    assert_eq!(index.get("CVE-1").unwrap().commit, "ccccccc");
    assert_eq!(index.get("CVE-2").unwrap().commit, "bbbbbbb");
    assert!(index.get("CVE-3").is_none());
    assert_eq!(index.records().len(), 2);
}
