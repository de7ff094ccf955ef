use react::config::Config;
use react::dataset::{Cve, Project, State};
use react::scripts::{prepare_dirs, TargetOs};

fn ffmpeg_cve() -> Cve {
    Cve {
        id: "CVE-2020-22019".to_string(),
        func: Some("ff_vmafmotion_init".to_string()),
        vuln: "4.4".to_string(),
        patch: "4.4.1".to_string(),
        file: "ffmpeg".to_string(),
        commit: "cea03683b93c1569b33611d71233235933b3cbce".to_string(),
        project: Project::FFmpeg,
    }
}

fn openssl_cve() -> Cve {
    Cve {
        id: "CVE-2021-3711".to_string(),
        commit: "f6b9b7e".to_string(),
        vuln: "1.1.1".to_string(),
        project: Project::OpenSSL,
        func: Some("EVP_DigestSignInit".to_string()),
        patch: "openssl-1.1.1k".to_string(),
        file: "libssl".to_string(),
    }
}

fn libxml2_cve() -> Cve {
    Cve {
        id: "CVE-2022-40303".to_string(),
        func: None,
        vuln: "2.10.2".to_string(),
        patch: "2.10.3".to_string(),
        file: "libxml2".to_string(),
        commit: "c846986".to_string(),
        project: Project::LibXml2,
    }
}

#[test]
fn test_ffmpeg_script() {
    let cve = ffmpeg_cve();
    let commit = cve.checkout_script(&State::Vuln);
    assert_eq!(
        commit,
        "git checkout cea03683b93c1569b33611d71233235933b3cbce~1"
    );
    let commit = cve.checkout_script(&State::Patch);
    assert_eq!(
        commit,
        "git checkout cea03683b93c1569b33611d71233235933b3cbce"
    );
    let configure = cve.configure_script();
    assert_eq!(configure, "./configure --disable-optimizations --cc=gclang");
}

#[test]
fn test_openssl_script() {
    let cve = openssl_cve();
    let configure = cve.configure_script();
    assert_eq!(configure, "CC=gclang ./config --debug");
}

#[test]
fn openssl_3_uses_capital_configure() {
    let mut cve = openssl_cve();
    cve.vuln = "3.0.0".to_string();
    assert_eq!(cve.configure_script(), "CC=gclang ./Configure --debug");
}

#[test]
fn other_projects_configure_without_optimisation() {
    let mut cve = ffmpeg_cve();
    cve.project = Project::Curl;
    assert_eq!(cve.configure_script(), "./configure CC=gclang CFLAGS=\"-O0 -g\"");
}

#[test]
fn build_and_clean_scripts() {
    let cve = ffmpeg_cve();
    assert_eq!(cve.build_script(), "make -j 8");
    assert_eq!(cve.clean_script(), "git clean -f");
}

#[test]
fn vuln_checkout_is_parent_of_patch_checkout() {
    let cve = openssl_cve();
    let vuln = cve.checkout_script(&State::Vuln);
    let patch = cve.checkout_script(&State::Patch);
    assert_eq!(vuln, format!("{}~1", patch));
}

#[test]
fn repo_and_bitcode_names() {
    let cfg = Config::new("data");
    let cve = ffmpeg_cve();
    assert_eq!(cve.repo_path(&cfg), "data/repos/ffmpeg");
    assert_eq!(cve.file_name_in_bitcode(&State::Vuln), "CVE-2020-22019_vuln");
    assert_eq!(cve.file_name_in_bitcode(&State::Unknown), "CVE-2020-22019_unknown");
}

#[test]
fn file_names_in_repo_by_os() {
    let ffmpeg = ffmpeg_cve();
    assert_eq!(ffmpeg.file_name_in_repo("ffmpeg", TargetOs::Linux), "ffmpeg_g");
    let openssl = openssl_cve();
    assert_eq!(openssl.file_name_in_repo("libssl", TargetOs::Linux), "libssl.so.1.1");
    assert_eq!(openssl.file_name_in_repo("libssl", TargetOs::MacOs), "libssl.1.1.dylib");
    assert_eq!(openssl.file_name_in_repo("libssl", TargetOs::Other), "libssl");
    let mut openssl3 = openssl_cve();
    openssl3.vuln = "3.0.1".to_string();
    assert_eq!(openssl3.file_name_in_repo("libcrypto", TargetOs::Linux), "libcrypto.so3");
    assert_eq!(openssl3.file_name_in_repo("libcrypto", TargetOs::MacOs), "libcrypto.3.dylib");
    let xml = libxml2_cve();
    assert_eq!(xml.file_name_in_repo("libxml2", TargetOs::Linux), "./.libs/libxml2.so.2");
    assert_eq!(xml.file_name_in_repo("libxml2", TargetOs::MacOs), "./.libs/libxml2.dylib.2");
    assert_eq!(xml.file_name_in_repo("libxml2", TargetOs::Other), "libxml2");
    let mut tcpdump = ffmpeg_cve();
    tcpdump.project = Project::Tcpdump;
    assert_eq!(tcpdump.file_name_in_repo("tcpdump", TargetOs::Linux), "tcpdump");
}

#[test]
fn generated_files_per_project() {
    assert_eq!(openssl_cve().generate_files(), vec!["libssl", "libcrypto"]);
    assert_eq!(ffmpeg_cve().generate_files(), vec!["ffmpeg"]);
    let mut other = ffmpeg_cve();
    other.project = Project::Git;
    other.file = "git-daemon".to_string();
    assert_eq!(other.generate_files(), vec!["git-daemon"]);
}

#[test]
fn extract_script_uses_matching_library() {
    let cfg = Config::new("data");
    let mut cve = openssl_cve();
    cve.file = "libcrypto".to_string();
    assert_eq!(
        cve.extract_script(&State::Patch, &cfg, TargetOs::Linux),
        "get-bc libcrypto.so.1.1 -o data/bitcodes/openssl/CVE-2021-3711_patch"
    );
}

#[test]
fn compile_runs_six_commands_in_order() {
    let cfg = Config::new("data");
    let cve = ffmpeg_cve();
    let cmds = cve.compile_commands(State::Vuln, &cfg, TargetOs::Linux);
    assert_eq!(
        cmds,
        vec![
            "git clean -f".to_string(),
            "git checkout cea03683b93c1569b33611d71233235933b3cbce~1".to_string(),
            "./configure --disable-optimizations --cc=gclang".to_string(),
            "make -j 8".to_string(),
            "get-bc ffmpeg_g -o data/bitcodes/ffmpeg/CVE-2020-22019_vuln".to_string(),
            "git clean -f".to_string(),
        ]
    );
}

#[test]
fn prepared_directories() {
    let cfg = Config::new("ds");
    assert_eq!(
        prepare_dirs(&cfg),
        vec![
            "ds".to_string(),
            "ds/bitcodes".to_string(),
            "ds/bitcodes/ffmpeg".to_string(),
            "ds/bitcodes/openssl".to_string(),
            "ds/bitcodes/libxml2".to_string(),
            "ds/bitcodes/tcpdump".to_string(),
        ]
    );
}
