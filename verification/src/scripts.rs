//! The shell commands that build the reference bitcode of a CVE.

use vstd::prelude::*;
use vstd::string::*;
use vstd::utf8::*;
use crate::config::{Config, path_join};
use crate::dataset::{Cve, Project, State};
use crate::text::{has_prefix, str_starts_with, byte_prefix};

verus! {

/// The operating system the tools run on; it decides the names of the
/// shared libraries a build produces.
#[derive(Debug, Clone, Copy, PartialEq, Eq, Structural)]
pub enum TargetOs {
    Linux,
    MacOs,
    Other,
}

/// The first of `names` that `name` starts with, searching from the front.
pub open spec fn first_prefix_of(names: Seq<Seq<char>>, name: Seq<char>) -> Option<Seq<char>>
    decreases names.len(),
{
    if names.len() == 0 {
        None
    } else if has_prefix(name, names[0]) {
        Some(names[0])
    } else {
        first_prefix_of(names.drop_first(), name)
    }
}

/// The directories a bitcode build needs, in the order they are created:
/// the dataset, its bitcode directory, and one directory per built project.
pub open spec fn prepared_dirs(cfg: Config) -> Seq<Seq<char>> {
    seq![
        cfg.dataset_dir@,
        cfg.bitcode_dir@,
        cfg.bitcode_dir@ + "/"@ + Project::FFmpeg.label(),
        cfg.bitcode_dir@ + "/"@ + Project::OpenSSL.label(),
        cfg.bitcode_dir@ + "/"@ + Project::LibXml2.label(),
        cfg.bitcode_dir@ + "/"@ + Project::Tcpdump.label(),
    ]
}

/// The directories to create before building, in order.
pub fn prepare_dirs(cfg: &Config) -> (r: Vec<String>)
    ensures
        r@.map_values(|s: String| s@) == prepared_dirs(*cfg),
{
    let mut r: Vec<String> = Vec::new();
    r.push(cfg.dataset_dir.clone());
    r.push(cfg.bitcode_dir.clone());
    r.push(path_join(cfg.bitcode_dir.as_str(), Project::FFmpeg.as_str()));
    r.push(path_join(cfg.bitcode_dir.as_str(), Project::OpenSSL.as_str()));
    r.push(path_join(cfg.bitcode_dir.as_str(), Project::LibXml2.as_str()));
    r.push(path_join(cfg.bitcode_dir.as_str(), Project::Tcpdump.as_str()));
    proof {
        assert(r@.map_values(|s: String| s@) =~= prepared_dirs(*cfg));
    }
    r
}

impl Cve {
    /// `<dataset>/repos/<project>`: the project's source checkout.
    pub fn repo_path(&self, cfg: &Config) -> (r: String)
        ensures
            r@ == cfg.dataset_dir@ + "/repos/"@ + self.project.label(),
    {
        let mut r = String::from_str(cfg.dataset_dir.as_str());
        r.append("/repos/");
        r.append(self.project.as_str());
        r
    }

    /// The leading character of the vulnerable version, cut at its first byte.
    pub open spec fn version_lead(self) -> Seq<char> {
        decode_utf8(encode_utf8(self.vuln@).subrange(0, 1))
    }

    /// The repository file name can be formed: for libxml2 on Linux or
    /// macOS the vulnerable version's first byte must be a whole character.
    pub open spec fn repo_name_defined(self, os: TargetOs) -> bool {
        self.project == Project::LibXml2 && os != TargetOs::Other ==> is_char_boundary(encode_utf8(self.vuln@), 1)
    }

    /// Where a build leaves the binary `file` inside the checkout.
    pub open spec fn repo_file_name(self, file: Seq<char>, os: TargetOs) -> Seq<char> {
        match self.project {
            Project::FFmpeg => file + "_g"@,
            Project::OpenSSL => match os {
                TargetOs::Linux => if has_prefix(self.vuln@, "1"@) { file + ".so.1.1"@ } else { file + ".so3"@ },
                TargetOs::MacOs => if has_prefix(self.vuln@, "1"@) { file + ".1.1.dylib"@ } else { file + ".3.dylib"@ },
                TargetOs::Other => file,
            },
            Project::LibXml2 => match os {
                TargetOs::Linux => "./.libs/"@ + file + ".so."@ + self.version_lead(),
                TargetOs::MacOs => "./.libs/"@ + file + ".dylib."@ + self.version_lead(),
                TargetOs::Other => file,
            },
            _ => file,
        }
    }

    /// Where a build leaves the binary `file` inside the checkout.
    pub fn file_name_in_repo(&self, file: &str, os: TargetOs) -> (r: String)
        requires
            self.repo_name_defined(os),
        ensures
            r@ == self.repo_file_name(file@, os),
    {
        match self.project {
            Project::FFmpeg => {
                let mut r = String::from_str(file);
                r.append("_g");
                r
            },
            Project::OpenSSL => {
                let old_line = str_starts_with(self.vuln.as_str(), "1");
                let suffix = match os {
                    TargetOs::Linux => if old_line { ".so.1.1" } else { ".so3" },
                    TargetOs::MacOs => if old_line { ".1.1.dylib" } else { ".3.dylib" },
                    TargetOs::Other => "",
                };
                let mut r = String::from_str(file);
                r.append(suffix);
                proof {
                    if os == TargetOs::Other {
                        reveal_strlit("");
                        assert(file@ + ""@ =~= file@);
                    }
                }
                r
            },
            Project::LibXml2 => match os {
                TargetOs::Other => String::from_str(file),
                _ => {
                    let mut r = String::from_str("./.libs/");
                    r.append(file);
                    match os {
                        TargetOs::Linux => r.append(".so."),
                        _ => r.append(".dylib."),
                    }
                    r.append(byte_prefix(self.vuln.as_str(), 1));
                    r
                },
            },
            _ => String::from_str(file),
        }
    }

    /// `<id>_<state>`: the name of the reference bitcode of one side.
    pub open spec fn bitcode_file_name(self, state: State) -> Seq<char> {
        self.id@ + "_"@ + state.label()
    }

    /// `<id>_<state>`: the name of the reference bitcode of one side.
    pub fn file_name_in_bitcode(&self, state: &State) -> (r: String)
        ensures
            r@ == self.bitcode_file_name(*state),
    {
        let mut r = String::from_str(self.id.as_str());
        r.append("_");
        r.append(state.as_str());
        r
    }

    /// The binaries a build of the project produces.
    pub open spec fn generated_files(self) -> Seq<Seq<char>> {
        match self.project {
            Project::FFmpeg => seq!["ffmpeg"@],
            Project::OpenSSL => seq!["libssl"@, "libcrypto"@],
            Project::Tcpdump => seq!["tcpdump"@],
            Project::LibXml2 => seq!["libxml2"@],
            _ => seq![self.file@],
        }
    }

    /// The binaries a build of the project produces.
    pub fn generate_files(&self) -> (r: Vec<&str>)
        ensures
            r@.map_values(|s: &str| s@) == self.generated_files(),
    {
        let mut r: Vec<&str> = Vec::new();
        match self.project {
            Project::FFmpeg => r.push("ffmpeg"),
            Project::OpenSSL => {
                r.push("libssl");
                r.push("libcrypto");
            },
            Project::Tcpdump => r.push("tcpdump"),
            Project::LibXml2 => r.push("libxml2"),
            _ => r.push(self.file.as_str()),
        }
        proof {
            assert(r@.map_values(|s: &str| s@) =~= self.generated_files());
        }
        r
    }

    /// The commit that holds one side: the fix commit for `patch`, its
    /// parent for `vuln`.
    pub open spec fn side_commit(self, state: State) -> Seq<char> {
        if state == State::Vuln { self.commit@ + "~1"@ } else { self.commit@ }
    }

    /// `git checkout <commit>` for the patched side, `<commit>~1` for the
    /// vulnerable side.
    pub fn checkout_script(&self, state: &State) -> (r: String)
        requires
            *state != State::Unknown,
        ensures
            r@ == "git checkout "@ + self.side_commit(*state),
    {
        let mut r = String::from_str("git checkout ");
        r.append(self.commit.as_str());
        match state {
            State::Vuln => r.append("~1"),
            _ => {},
        }
        r
    }

    /// The configure command of the project's build.
    pub open spec fn configure_command(self) -> Seq<char> {
        match self.project {
            Project::FFmpeg => "./configure --disable-optimizations --cc=gclang"@,
            Project::OpenSSL => if has_prefix(self.vuln@, "1.1.1"@) {
                "CC=gclang ./config --debug"@
            } else {
                "CC=gclang ./Configure --debug"@
            },
            _ => "./configure CC=gclang CFLAGS=\"-O0 -g\""@,
        }
    }

    /// The configure command of the project's build.
    pub fn configure_script(&self) -> (r: String)
        ensures
            r@ == self.configure_command(),
    {
        match self.project {
            Project::FFmpeg => String::from_str("./configure --disable-optimizations --cc=gclang"),
            Project::OpenSSL => {
                if str_starts_with(self.vuln.as_str(), "1.1.1") {
                    String::from_str("CC=gclang ./config --debug")
                } else {
                    String::from_str("CC=gclang ./Configure --debug")
                }
            },
            _ => String::from_str("./configure CC=gclang CFLAGS=\"-O0 -g\""),
        }
    }

    /// `make -j 8`
    pub fn build_script(&self) -> (r: String)
        ensures
            r@ == "make -j 8"@,
    {
        String::from_str("make -j 8")
    }

    /// `git clean -f`
    pub fn clean_script(&self) -> (r: String)
        ensures
            r@ == "git clean -f"@,
    {
        String::from_str("git clean -f")
    }

    /// The produced binary that the CVE's file belongs to: the first one
    /// whose name starts the CVE's file name.
    pub open spec fn extracted_file(self) -> Option<Seq<char>> {
        first_prefix_of(self.generated_files(), self.file@)
    }

    /// The bitcode extraction can be formed.
    pub open spec fn can_extract(self, os: TargetOs) -> bool {
        self.extracted_file() is Some && self.repo_name_defined(os)
    }

    /// `get-bc <binary in repo> -o <bitcode dir>/<project>/<id>_<state>`
    pub open spec fn extract_command(self, state: State, cfg: Config, os: TargetOs) -> Seq<char> {
        "get-bc "@ + self.repo_file_name(self.extracted_file()->0, os) + " -o "@ + cfg.bitcode_dir@
            + "/"@ + self.project.label() + "/"@ + self.bitcode_file_name(state)
    }

    /// The command that pulls the bitcode of one side out of the build.
    pub fn extract_script(&self, state: &State, cfg: &Config, os: TargetOs) -> (r: String)
        requires
            self.can_extract(os),
        ensures
            r@ == self.extract_command(*state, *cfg, os),
    {
        let files = self.generate_files();
        let ghost names = files@.map_values(|s: &str| s@);
        let n = files.len();
        let mut i: usize = 0;
        proof {
            assert(names.skip(0) =~= names);
        }
        while i < n
            invariant
                n == files@.len(),
                names == files@.map_values(|s: &str| s@),
                names == self.generated_files(),
                i <= n,
                first_prefix_of(names, self.file@) == first_prefix_of(names.skip(i as int), self.file@),
                self.can_extract(os),
            decreases n - i,
        {
            let f = files[i];
            proof {
                assert(names.skip(i as int)[0] == f@);
            }
            if str_starts_with(self.file.as_str(), f) {
                let mut r = String::from_str("get-bc ");
                let in_repo = self.file_name_in_repo(f, os);
                r.append(in_repo.as_str());
                r.append(" -o ");
                r.append(cfg.bitcode_dir.as_str());
                r.append("/");
                r.append(self.project.as_str());
                r.append("/");
                let in_bitcode = self.file_name_in_bitcode(state);
                r.append(in_bitcode.as_str());
                return r;
            }
            proof {
                assert(names.skip(i as int).drop_first() =~= names.skip(i + 1));
            }
            i = i + 1;
        }
        proof {
            assert(names.skip(n as int) =~= Seq::<Seq<char>>::empty());
        }
        String::new()
    }

    /// The commands that build one side and extract its bitcode, in order:
    /// clean, checkout, configure, build, extract, clean.
    pub open spec fn build_commands(self, state: State, cfg: Config, os: TargetOs) -> Seq<Seq<char>> {
        seq![
            "git clean -f"@,
            "git checkout "@ + self.side_commit(state),
            self.configure_command(),
            "make -j 8"@,
            self.extract_command(state, cfg, os),
            "git clean -f"@,
        ]
    }

    /// The commands that build one side and extract its bitcode, in order.
    pub fn compile_commands(&self, state: State, cfg: &Config, os: TargetOs) -> (r: Vec<String>)
        requires
            state != State::Unknown,
            self.can_extract(os),
        ensures
            r@.map_values(|s: String| s@) == self.build_commands(state, *cfg, os),
    {
        let mut r: Vec<String> = Vec::new();
        r.push(self.clean_script());
        r.push(self.checkout_script(&state));
        r.push(self.configure_script());
        r.push(self.build_script());
        r.push(self.extract_script(&state, cfg, os));
        r.push(self.clean_script());
        proof {
            assert(r@.map_values(|s: String| s@) =~= self.build_commands(state, *cfg, os));
        }
        r
    }
}


/// The vulnerable side is checked out as the parent of the commit that the
/// patched side is checked out at.
pub proof fn vuln_checkout_is_parent(cve: Cve)
    ensures
        "git checkout "@ + cve.side_commit(State::Vuln) == ("git checkout "@ + cve.side_commit(State::Patch)) + "~1"@,
{
    assert("git checkout "@ + cve.side_commit(State::Vuln) =~= ("git checkout "@ + cve.side_commit(State::Patch)) + "~1"@);
}


/// A name is a prefix of itself.
proof fn lemma_prefix_of_itself(s: Seq<char>)
    ensures
        has_prefix(s, s),
{
    assert(s.subrange(0, s.len() as int) =~= s);
}

/// What a project's build produces: for ffmpeg, tcpdump and libxml2 the one
/// binary named like the project itself, for OpenSSL its two libraries, and
/// for any other project the CVE's own file. A CVE whose file is one of
/// these binaries extracts that binary.
pub proof fn produced_binaries(cve: Cve)
    ensures
        cve.project == Project::FFmpeg || cve.project == Project::Tcpdump || cve.project == Project::LibXml2
            ==> cve.generated_files() == seq![cve.project.label()],
        cve.project == Project::OpenSSL ==> cve.generated_files() == seq!["libssl"@, "libcrypto"@],
        cve.project != Project::FFmpeg && cve.project != Project::Tcpdump && cve.project != Project::LibXml2
            && cve.project != Project::OpenSSL ==> cve.generated_files() == seq![cve.file@],
        cve.generated_files().contains(cve.file@) ==> cve.extracted_file() == Some(cve.file@),
{
    let fs = cve.generated_files();
    reveal_with_fuel(first_prefix_of, 3);
    if fs.contains(cve.file@) {
        lemma_prefix_of_itself(cve.file@);
        let k = choose|k: int| 0 <= k < fs.len() && fs[k] == cve.file@;
        if k == 0 {
            assert(fs[0] == cve.file@);
        }
        if cve.project == Project::OpenSSL && cve.file@ == "libcrypto"@ {
            reveal_strlit("libssl");
            reveal_strlit("libcrypto");
            assert(!has_prefix("libcrypto"@, "libssl"@)) by {
                assert("libcrypto"@.subrange(0, 6)[3] != "libssl"@[3]);
            }
            assert(fs.drop_first() =~= seq!["libcrypto"@]);
            assert(fs.drop_first()[0] == cve.file@);
        }
    }
}

}
