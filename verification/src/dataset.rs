//! The records of the evaluation dataset: projects, labels, test cases,
//! results and CVE descriptions, with their textual forms.

use vstd::prelude::*;
use vstd::string::*;
use crate::text::{split_on, split_fields, str_eq};
use crate::seqs::{lemma_filter_none, sum_to, lemma_sum_to_congruent, lemma_sum_to_add, lemma_sum_to_single};
use crate::order::{lex_lt, keys_sorted, find_slot, lemma_insert_keeps_sorted, lemma_sorted_keys_distinct, lemma_lex_lt_irreflexive};

verus! {

/// The open-source project a CVE or a test binary belongs to.
#[derive(Debug, Clone, Copy, PartialEq, Eq, Structural, Hash)]
pub enum Project {
    FFmpeg,
    OpenSSL,
    Tcpdump,
    LibXml2,
    Assimp,
    Binutils,
    Curl,
    Dbus,
    Elfutils,
    Exiv2,
    Expat,
    Freetype,
    Ghostscript,
    Git,
    Glib,
    Gnuplot,
    Gnutls,
    Gzip,
    ImageMagick,
    Jasper,
    Krb5,
    Lcms,
    Libarchive,
    Libdwarf,
    Libgd,
    Libpng,
    Libtiff,
    Libx11,
    Matio,
    Mbedtls,
    Mysql,
    Ncurses,
    Opencv,
    OpenJDK,
    Openjpeg,
    Openssh,
    Pcre2,
    Perl,
    Poppler,
    Postgresql,
    Ruby,
    Emacs,
    Sqlite,
    Yasm,
}

impl Project {
    /// The project's name as it appears in paths and reports.
    pub open spec fn label(self) -> Seq<char> {
        match self {
            Project::FFmpeg => "ffmpeg"@,
            Project::OpenSSL => "openssl"@,
            Project::Tcpdump => "tcpdump"@,
            Project::LibXml2 => "libxml2"@,
            Project::Assimp => "assimp"@,
            Project::Binutils => "binutils"@,
            Project::Curl => "curl"@,
            Project::Dbus => "dbus"@,
            Project::Elfutils => "elfutils"@,
            Project::Exiv2 => "exiv2"@,
            Project::Expat => "expat"@,
            Project::Freetype => "freetype"@,
            Project::Ghostscript => "ghostscript"@,
            Project::Git => "git"@,
            Project::Glib => "glib"@,
            Project::Gnuplot => "gnuplot"@,
            Project::Gnutls => "gnutls"@,
            Project::Gzip => "gzip"@,
            Project::ImageMagick => "image-magick"@,
            Project::Jasper => "jasper"@,
            Project::Krb5 => "krb5"@,
            Project::Lcms => "lcms"@,
            Project::Libarchive => "libarchive"@,
            Project::Libdwarf => "libdwarf"@,
            Project::Libgd => "libgd"@,
            Project::Libpng => "libpng"@,
            Project::Libtiff => "libtiff"@,
            Project::Libx11 => "libx11"@,
            Project::Matio => "matio"@,
            Project::Mbedtls => "mbedtls"@,
            Project::Mysql => "mysql"@,
            Project::Ncurses => "ncurses"@,
            Project::Opencv => "opencv"@,
            Project::OpenJDK => "openjdk"@,
            Project::Openjpeg => "openjpeg"@,
            Project::Openssh => "openssh"@,
            Project::Pcre2 => "pcre2"@,
            Project::Perl => "perl"@,
            Project::Poppler => "poppler"@,
            Project::Postgresql => "postgresql"@,
            Project::Ruby => "ruby"@,
            Project::Emacs => "emacs"@,
            Project::Sqlite => "sqlite"@,
            Project::Yasm => "yasm"@,
        }
    }

    /// The project's name as it appears in paths and reports.
    pub fn as_str(&self) -> (r: &'static str)
        ensures
            r@ == self.label(),
    {
        match self {
            Project::FFmpeg => "ffmpeg",
            Project::OpenSSL => "openssl",
            Project::Tcpdump => "tcpdump",
            Project::LibXml2 => "libxml2",
            Project::Assimp => "assimp",
            Project::Binutils => "binutils",
            Project::Curl => "curl",
            Project::Dbus => "dbus",
            Project::Elfutils => "elfutils",
            Project::Exiv2 => "exiv2",
            Project::Expat => "expat",
            Project::Freetype => "freetype",
            Project::Ghostscript => "ghostscript",
            Project::Git => "git",
            Project::Glib => "glib",
            Project::Gnuplot => "gnuplot",
            Project::Gnutls => "gnutls",
            Project::Gzip => "gzip",
            Project::ImageMagick => "image-magick",
            Project::Jasper => "jasper",
            Project::Krb5 => "krb5",
            Project::Lcms => "lcms",
            Project::Libarchive => "libarchive",
            Project::Libdwarf => "libdwarf",
            Project::Libgd => "libgd",
            Project::Libpng => "libpng",
            Project::Libtiff => "libtiff",
            Project::Libx11 => "libx11",
            Project::Matio => "matio",
            Project::Mbedtls => "mbedtls",
            Project::Mysql => "mysql",
            Project::Ncurses => "ncurses",
            Project::Opencv => "opencv",
            Project::OpenJDK => "openjdk",
            Project::Openjpeg => "openjpeg",
            Project::Openssh => "openssh",
            Project::Pcre2 => "pcre2",
            Project::Perl => "perl",
            Project::Poppler => "poppler",
            Project::Postgresql => "postgresql",
            Project::Ruby => "ruby",
            Project::Emacs => "emacs",
            Project::Sqlite => "sqlite",
            Project::Yasm => "yasm",
        }
    }

    /// The project's name as an owned string.
    pub fn to_string(&self) -> (r: String)
        ensures
            r@ == self.label(),
    {
        String::from_str(self.as_str())
    }
}

/// Whether a binary holds the vulnerable or the patched code, or whether
/// the analysis could not tell.
#[derive(Debug, Clone, Copy, PartialEq, Eq, Structural, Hash)]
pub enum State {
    Patch,
    Vuln,
    /// Analysis inconclusive: no distinguishing features found.
    Unknown,
}

impl State {
    /// The state's name as it appears in paths and reports.
    pub open spec fn label(self) -> Seq<char> {
        match self {
            State::Patch => "patch"@,
            State::Vuln => "vuln"@,
            State::Unknown => "unknown"@,
        }
    }

    /// The state's name as it appears in paths and reports.
    pub fn as_str(&self) -> (r: &'static str)
        ensures
            r@ == self.label(),
    {
        match self {
            State::Patch => "patch",
            State::Vuln => "vuln",
            State::Unknown => "unknown",
        }
    }

    /// The state's name as an owned string.
    pub fn to_string(&self) -> (r: String)
        ensures
            r@ == self.label(),
    {
        String::from_str(self.as_str())
    }
}

/// One target binary to classify, with the label it should receive.
#[derive(Debug, Clone, PartialEq, Eq, Hash)]
pub struct TestCase {
    pub file: String,
    pub cve: String,
    pub commit: String,
    pub ground_truth: State,
    pub project: Project,
}

/// The underscore-separated fields of a test binary's file name.
pub open spec fn name_fields(file: Seq<char>) -> Seq<Seq<char>> {
    split_on(file, '_')
}

impl TestCase {
    /// `[<cve> <file> <ground truth>]`
    pub open spec fn text(self) -> Seq<char> {
        "["@ + self.cve@ + " "@ + self.file@ + " "@ + self.ground_truth.label() + "]"@
    }

    /// The test case as it is printed: `[<cve> <file> <ground truth>]`.
    pub fn to_string(&self) -> (r: String)
        ensures
            r@ == self.text(),
    {
        let mut r = String::from_str("[");
        r.append(self.cve.as_str());
        r.append(" ");
        r.append(self.file.as_str());
        r.append(" ");
        r.append(self.ground_truth.as_str());
        r.append("]");
        r
    }

    /// The file name holds at least three underscore-separated fields.
    pub open spec fn has_compiler_opt(self) -> bool {
        name_fields(self.file@).len() >= 3
    }

    /// The compiler (last field) and the optimisation level (third field from
    /// the end) named by the file name, e.g.
    /// `tcpdump_tcpdump-4.9.3_O0_x86_clang` gives `(clang, O0)`.
    pub fn compiler_opt(&self) -> (r: (String, String))
        requires
            self.has_compiler_opt(),
        ensures
            r.0@ == name_fields(self.file@).last(),
            r.1@ == name_fields(self.file@)[name_fields(self.file@).len() - 3],
    {
        let parts = split_fields(self.file.as_str(), '_');
        let n = parts.len();
        proof {
            assert(parts@.map_values(|x: String| x@).len() == n);
            assert(parts@.map_values(|x: String| x@)[n - 1] == parts@[n - 1]@);
            assert(parts@.map_values(|x: String| x@)[n - 3] == parts@[n - 3]@);
        }
        let compiler = parts[n - 1].clone();
        let opt = parts[n - 3].clone();
        (compiler, opt)
    }
}

/// The label the analysis gave one test case.
#[derive(Debug, Clone, PartialEq, Eq)]
pub struct TestResult {
    pub test: TestCase,
    pub result: State,
}

impl TestResult {
    /// `<test case> <result>`
    pub open spec fn text(self) -> Seq<char> {
        self.test.text() + " "@ + self.result.label()
    }

    /// The result as it is printed: `<test case> <result>`.
    pub fn to_string(&self) -> (r: String)
        ensures
            r@ == self.text(),
    {
        let mut r = self.test.to_string();
        r.append(" ");
        r.append(self.result.as_str());
        r
    }

    /// The compiler and optimisation level of the tested binary.
    pub fn compiler_opt(&self) -> (r: (String, String))
        requires
            self.test.has_compiler_opt(),
        ensures
            r.0@ == name_fields(self.test.file@).last(),
            r.1@ == name_fields(self.test.file@)[name_fields(self.test.file@).len() - 3],
    {
        self.test.compiler_opt()
    }
}

/// What the dataset records of one CVE.
#[derive(Debug, Clone, PartialEq, Eq)]
pub struct Cve {
    pub id: String,
    pub func: Option<String>,
    pub vuln: String,
    pub patch: String,
    pub file: String,
    pub commit: String,
    pub project: Project,
}


/// The CVE records keyed by id; a later record with the same id replaces an
/// earlier one.
pub open spec fn cve_map(s: Seq<Cve>) -> Map<Seq<char>, Cve>
    decreases s.len(),
{
    if s.len() == 0 {
        Map::empty()
    } else {
        cve_map(s.drop_last()).insert(s.last().id@, s.last())
    }
}

/// No two records of `s` share an id.
pub open spec fn ids_distinct(s: Seq<Cve>) -> bool {
    forall|i: int, j: int| 0 <= i < s.len() && 0 <= j < s.len() && i != j ==> #[trigger] s[i].id@ != #[trigger] s[j].id@
}

/// When ids are distinct, the map holds exactly the records of `s`.
pub proof fn lemma_cve_map_distinct(s: Seq<Cve>)
    requires
        ids_distinct(s),
    ensures
        forall|i: int| 0 <= i < s.len() ==> #[trigger] cve_map(s).contains_key(s[i].id@) && cve_map(s)[s[i].id@] == s[i],
        forall|k: Seq<char>| #[trigger] cve_map(s).contains_key(k) ==> exists|i: int| 0 <= i < s.len() && s[i].id@ == k,
        cve_map(s).len() == s.len(),
        cve_map(s).dom().finite(),
    decreases s.len(),
{
    if s.len() > 0 {
        let t = s.drop_last();
        assert(ids_distinct(t)) by {
            assert forall|i: int, j: int| 0 <= i < t.len() && 0 <= j < t.len() && i != j implies #[trigger] t[i].id@ != #[trigger] t[j].id@ by {
                assert(t[i] == s[i] && t[j] == s[j]);
            }
        }
        lemma_cve_map_distinct(t);
        assert(!cve_map(t).contains_key(s.last().id@)) by {
            if cve_map(t).contains_key(s.last().id@) {
                let i = choose|i: int| 0 <= i < t.len() && t[i].id@ == s.last().id@;
                assert(s[i].id@ == s[s.len() - 1].id@);
            }
        }
        assert forall|i: int| 0 <= i < s.len() implies #[trigger] cve_map(s).contains_key(s[i].id@) && cve_map(s)[s[i].id@] == s[i] by {
            if i < s.len() - 1 {
                assert(t[i] == s[i]);
                assert(s[i].id@ != s[s.len() - 1].id@);
            }
        }
        assert forall|k: Seq<char>| #[trigger] cve_map(s).contains_key(k) implies exists|i: int| 0 <= i < s.len() && s[i].id@ == k by {
            if k != s.last().id@ {
                let i = choose|i: int| 0 <= i < t.len() && t[i].id@ == k;
                assert(s[i] == t[i]);
            } else {
                assert(s[s.len() - 1].id@ == k);
            }
        }
    } else {
        assert(cve_map(s) =~= Map::empty());
    }
}

/// Replacing the record that holds an id keeps the map in step.
proof fn lemma_cve_map_update(s: Seq<Cve>, j: int, v: Cve)
    requires
        ids_distinct(s),
        0 <= j < s.len(),
        s[j].id@ == v.id@,
    ensures
        ids_distinct(s.update(j, v)),
        cve_map(s.update(j, v)) == cve_map(s).insert(v.id@, v),
{
    let u = s.update(j, v);
    assert(ids_distinct(u)) by {
        assert forall|a: int, b: int| 0 <= a < u.len() && 0 <= b < u.len() && a != b implies #[trigger] u[a].id@ != #[trigger] u[b].id@ by {
            assert(u[a].id@ == s[a].id@ && u[b].id@ == s[b].id@);
        }
    }
    lemma_cve_map_distinct(s);
    lemma_cve_map_distinct(u);
    let m1 = cve_map(u);
    let m2 = cve_map(s).insert(v.id@, v);
    assert forall|k: Seq<char>| #[trigger] m1.contains_key(k) <==> m2.contains_key(k) by {
        if m1.contains_key(k) {
            let i = choose|i: int| 0 <= i < u.len() && u[i].id@ == k;
            assert(s[i].id@ == k);
        }
        if m2.contains_key(k) && k != v.id@ {
            let i = choose|i: int| 0 <= i < s.len() && s[i].id@ == k;
            assert(u[i].id@ == k);
        }
        if k == v.id@ {
            assert(u[j].id@ == k);
        }
    }
    assert forall|k: Seq<char>| #[trigger] m1.contains_key(k) implies m1[k] == m2[k] by {
        let i = choose|i: int| 0 <= i < u.len() && u[i].id@ == k;
        if i != j {
            assert(u[i] == s[i]);
            assert(s[i].id@ != s[j].id@);
        }
    }
    assert(m1 =~= m2);
}

/// The position of the record with id `id` in `entries`, if any.
fn position_of_id(entries: &Vec<Cve>, id: &str) -> (r: Option<usize>)
    ensures
        r matches Some(j) ==> j < entries@.len() && entries@[j as int].id@ == id@,
        r is None ==> forall|i: int| 0 <= i < entries@.len() ==> #[trigger] entries@[i].id@ != id@,
{
    let n = entries.len();
    let mut j: usize = 0;
    while j < n
        invariant
            n == entries@.len(),
            j <= n,
            forall|i: int| 0 <= i < j ==> #[trigger] entries@[i].id@ != id@,
        decreases n - j,
    {
        if str_eq(entries[j].id.as_str(), id) {
            return Some(j);
        }
        j = j + 1;
    }
    None
}

/// CVE records indexed by their id.
pub struct CveIndex {
    entries: Vec<Cve>,
}

impl View for CveIndex {
    type V = Map<Seq<char>, Cve>;

    closed spec fn view(&self) -> Map<Seq<char>, Cve> {
        cve_map(self.entries@)
    }
}

impl CveIndex {
    #[verifier::type_invariant]
    closed spec fn well_formed(self) -> bool {
        ids_distinct(self.entries@)
    }

    /// Indexes `values` by id; of several records with one id the last is kept.
    pub fn from_cves(values: Vec<Cve>) -> (index: Self)
        ensures
            index@ == cve_map(values@),
    {
        let ghost all = values@;
        let total = values.len();
        let mut rest = values;
        let mut entries: Vec<Cve> = Vec::new();
        let mut k: usize = 0;
        while rest.len() > 0
            invariant
                k <= all.len(),
                total == all.len(),
                rest@ == all.subrange(k as int, all.len() as int),
                ids_distinct(entries@),
                cve_map(entries@) == cve_map(all.subrange(0, k as int)),
            decreases rest@.len(),
        {
            let v = rest.remove(0);
            proof {
                assert(all.subrange(0, k + 1).drop_last() =~= all.subrange(0, k as int));
                assert(all.subrange(0, k + 1).last() == v);
                assert(rest@ =~= all.subrange(k + 1, all.len() as int));
            }
            let pos = position_of_id(&entries, v.id.as_str());
            if let Some(j) = pos {
                let ghost prev = entries@;
                proof {
                    lemma_cve_map_update(prev, j as int, v);
                }
                let _replaced = entries.remove(j);
                entries.insert(j, v);
                proof {
                    assert(entries@ =~= prev.update(j as int, v));
                }
            } else {
                let ghost prev = entries@;
                proof {
                    assert(prev.push(v).drop_last() =~= prev);
                }
                entries.push(v);
                proof {
                    assert forall|a: int, b: int| 0 <= a < entries@.len() && 0 <= b < entries@.len() && a != b implies #[trigger] entries@[a].id@ != #[trigger] entries@[b].id@ by {
                        if a < prev.len() && b < prev.len() {
                            assert(entries@[a] == prev[a] && entries@[b] == prev[b]);
                        } else if a < prev.len() {
                            assert(entries@[a] == prev[a]);
                        } else {
                            assert(entries@[b] == prev[b]);
                        }
                    }
                }
            }
            k = k + 1;
        }
        proof {
            assert(all.subrange(0, all.len() as int) =~= all);
        }
        CveIndex { entries }
    }

    /// The record with id `id`, if any.
    pub fn get(&self, id: &str) -> (r: Option<&Cve>)
        ensures
            r is Some <==> self@.contains_key(id@),
            r matches Some(c) ==> *c == self@[id@],
    {
        proof {
            use_type_invariant(self);
            lemma_cve_map_distinct(self.entries@);
        }
        match position_of_id(&self.entries, id) {
            Some(i) => {
                proof {
                    assert(cve_map(self.entries@).contains_key(self.entries@[i as int].id@));
                }
                Some(&self.entries[i])
            },
            None => {
                proof {
                    if cve_map(self.entries@).contains_key(id@) {
                        let j = choose|j: int| 0 <= j < self.entries@.len() && self.entries@[j].id@ == id@;
                        assert(self.entries@[j].id@ != id@);
                    }
                }
                None
            },
        }
    }

    /// How many distinct ids are indexed.
    pub fn len(&self) -> (r: usize)
        ensures
            r == self@.len(),
    {
        proof {
            use_type_invariant(self);
            lemma_cve_map_distinct(self.entries@);
        }
        self.entries.len()
    }

    /// The indexed records, one per id.
    pub fn records(&self) -> (r: &Vec<Cve>)
        ensures
            ids_distinct(r@),
            cve_map(r@) == self@,
    {
        proof {
            use_type_invariant(self);
        }
        &self.entries
    }
}


/// The predicate "this test case belongs to CVE `key`".
pub open spec fn same_cve(key: Seq<char>) -> spec_fn(TestCase) -> bool {
    |t: TestCase| t.cve@ == key
}

/// The test cases of `s` that belong to CVE `key`, in their original order.
pub open spec fn of_cve(s: Seq<TestCase>, key: Seq<char>) -> Seq<TestCase> {
    s.filter(same_cve(key))
}

/// `groups` lists, in increasing order of CVE id, every CVE of `s` once,
/// each with exactly its test cases of `s` in their original order.
pub open spec fn grouped_by_cve(groups: Seq<(String, Vec<TestCase>)>, s: Seq<TestCase>) -> bool {
    &&& keys_sorted(groups)
    &&& forall|i: int| 0 <= i < groups.len() ==> (#[trigger] groups[i]).1@ == of_cve(s, groups[i].0@)
    &&& forall|i: int| 0 <= i < groups.len() ==> (#[trigger] groups[i]).1@.len() > 0
    &&& forall|j: int| 0 <= j < s.len() ==> exists|i: int| 0 <= i < groups.len() && (#[trigger] groups[i]).0@ == (#[trigger] s[j]).cve@
}

/// Prepending a test case of a CVE that already has a group.
proof fn lemma_group_existing(
    groups: Seq<(String, Vec<TestCase>)>,
    s: Seq<TestCase>,
    t: TestCase,
    p: int,
    e: (String, Vec<TestCase>),
)
    requires
        grouped_by_cve(groups, s),
        0 <= p < groups.len(),
        groups[p].0@ == t.cve@,
        e.0@ == t.cve@,
        e.1@ == seq![t] + groups[p].1@,
    ensures
        grouped_by_cve(groups.update(p, e), seq![t] + s),
{
    let g = groups.update(p, e);
    let s2 = seq![t] + s;
    assert(keys_sorted(g)) by {
        assert forall|i: int, j: int| 0 <= i < j < g.len() implies lex_lt(#[trigger] g[i].0@, #[trigger] g[j].0@) by {
            assert(g[i].0@ == groups[i].0@ && g[j].0@ == groups[j].0@);
        }
    }
    assert forall|i: int| 0 <= i < g.len() implies (#[trigger] g[i]).1@ == of_cve(s2, g[i].0@) && g[i].1@.len() > 0 by {
        s.lemma_filter_prepend(t, same_cve(g[i].0@));
        if i != p {
            lemma_sorted_keys_distinct(groups, i, p);
            assert(g[i] == groups[i]);
            assert(Seq::<TestCase>::empty() + of_cve(s, g[i].0@) =~= of_cve(s, g[i].0@));
        }
    }
    assert forall|j: int| 0 <= j < s2.len() implies exists|i: int| 0 <= i < g.len() && (#[trigger] g[i]).0@ == (#[trigger] s2[j]).cve@ by {
        if j == 0 {
            assert(g[p].0@ == s2[0].cve@);
        } else {
            assert(s2[j] == s[j - 1]);
            let i = choose|i: int| 0 <= i < groups.len() && (#[trigger] groups[i]).0@ == s[j - 1].cve@;
            assert(g[i].0@ == groups[i].0@);
        }
    }
}

/// Prepending a test case of a CVE that has no group yet, inserted where its
/// id belongs.
proof fn lemma_group_new(
    groups: Seq<(String, Vec<TestCase>)>,
    s: Seq<TestCase>,
    t: TestCase,
    p: int,
    e: (String, Vec<TestCase>),
)
    requires
        grouped_by_cve(groups, s),
        0 <= p <= groups.len(),
        forall|i: int| 0 <= i < p ==> lex_lt(#[trigger] groups[i].0@, t.cve@),
        forall|i: int| p <= i < groups.len() ==> lex_lt(t.cve@, #[trigger] groups[i].0@),
        e.0@ == t.cve@,
        e.1@ == seq![t],
    ensures
        grouped_by_cve(groups.insert(p, e), seq![t] + s),
{
    let g = groups.insert(p, e);
    let s2 = seq![t] + s;
    lemma_insert_keeps_sorted(groups, p, e);
    assert forall|i: int| 0 <= i < groups.len() implies (#[trigger] groups[i]).0@ != t.cve@ by {
        lemma_lex_lt_irreflexive(t.cve@);
    }
    assert forall|i: int| 0 <= i < g.len() implies (#[trigger] g[i]).1@ == of_cve(s2, g[i].0@) && g[i].1@.len() > 0 by {
        s.lemma_filter_prepend(t, same_cve(g[i].0@));
        if i == p {
            assert forall|j: int| 0 <= j < s.len() implies !same_cve(t.cve@)(#[trigger] s[j]) by {
                let q = choose|q: int| 0 <= q < groups.len() && (#[trigger] groups[q]).0@ == s[j].cve@;
            }
            lemma_filter_none(s, same_cve(t.cve@));
            assert(seq![t] + Seq::<TestCase>::empty() =~= seq![t]);
        } else {
            let q = if i < p { i } else { i - 1 };
            assert(g[i] == groups[q]);
            assert(Seq::<TestCase>::empty() + of_cve(s, g[i].0@) =~= of_cve(s, g[i].0@));
        }
    }
    assert forall|j: int| 0 <= j < s2.len() implies exists|i: int| 0 <= i < g.len() && (#[trigger] g[i]).0@ == (#[trigger] s2[j]).cve@ by {
        if j == 0 {
            assert(g[p].0@ == s2[0].cve@);
        } else {
            assert(s2[j] == s[j - 1]);
            let q = choose|q: int| 0 <= q < groups.len() && (#[trigger] groups[q]).0@ == s[j - 1].cve@;
            if q < p {
                assert(g[q] == groups[q]);
            } else {
                assert(g[q + 1] == groups[q]);
            }
        }
    }
}

/// Groups test cases by CVE: one group per CVE id, in increasing order of id,
/// each holding that CVE's test cases in their original order.
pub fn group_by_cve(testcases: Vec<TestCase>) -> (groups: Vec<(String, Vec<TestCase>)>)
    ensures
        grouped_by_cve(groups@, testcases@),
{
    let ghost all = testcases@;
    let mut rest = testcases;
    let mut groups: Vec<(String, Vec<TestCase>)> = Vec::new();
    proof {
        assert(all.subrange(all.len() as int, all.len() as int) =~= Seq::<TestCase>::empty());
        assert(rest@ =~= all.subrange(0, all.len() as int));
    }
    while rest.len() > 0
        invariant
            rest@.len() <= all.len(),
            rest@ == all.subrange(0, rest@.len() as int),
            grouped_by_cve(groups@, all.subrange(rest@.len() as int, all.len() as int)),
        decreases rest@.len(),
    {
        let ghost k = rest@.len() as int;
        let t = rest.pop().unwrap();
        proof {
            assert(t == all[k - 1]);
            assert(rest@ =~= all.subrange(0, k - 1));
            assert(all.subrange(k - 1, all.len() as int) =~= seq![t] + all.subrange(k, all.len() as int));
        }
        let (p, found) = find_slot(&groups, &t.cve);
        let ghost orig = groups@;
        let ghost suffix = all.subrange(k, all.len() as int);
        if found {
            let (key, mut members) = groups.remove(p);
            let ghost old_members = members@;
            members.insert(0, t);
            proof {
                assert(members@ =~= seq![t] + old_members);
            }
            let ghost before = groups@;
            groups.insert(p, (key, members));
            proof {
                assert(groups@ =~= orig.update(p as int, (key, members)));
                lemma_group_existing(orig, suffix, t, p as int, (key, members));
            }
        } else {
            let key = t.cve.clone();
            let mut members: Vec<TestCase> = Vec::new();
            members.push(t);
            proof {
                assert(members@ =~= seq![t]);
                lemma_group_new(orig, suffix, t, p as int, (key, members));
            }
            groups.insert(p, (key, members));
        }
    }
    proof {
        assert(all.subrange(0, all.len() as int) =~= all);
    }
    groups
}


/// Indexing keeps, for each id, the last record that carries it.
pub proof fn last_record_wins(s: Seq<Cve>, i: int)
    requires
        0 <= i < s.len(),
        forall|j: int| i < j < s.len() ==> (#[trigger] s[j]).id@ != s[i].id@,
    ensures
        cve_map(s).contains_key(s[i].id@),
        cve_map(s)[s[i].id@] == s[i],
    decreases s.len(),
{
    if i < s.len() - 1 {
        let t = s.drop_last();
        assert forall|j: int| i < j < t.len() implies (#[trigger] t[j]).id@ != t[i].id@ by {
            assert(t[j] == s[j]);
        }
        last_record_wins(t, i);
        assert(s[s.len() - 1].id@ != s[i].id@);
    }
}

/// Indexing holds exactly the ids that some record carries.
pub proof fn indexed_ids(s: Seq<Cve>, k: Seq<char>)
    ensures
        cve_map(s).contains_key(k) <==> exists|i: int| 0 <= i < s.len() && (#[trigger] s[i]).id@ == k,
    decreases s.len(),
{
    if s.len() > 0 {
        let t = s.drop_last();
        indexed_ids(t, k);
        if exists|i: int| 0 <= i < t.len() && (#[trigger] t[i]).id@ == k {
            let i = choose|i: int| 0 <= i < t.len() && (#[trigger] t[i]).id@ == k;
            assert(s[i] == t[i]);
        }
        if exists|i: int| 0 <= i < s.len() && (#[trigger] s[i]).id@ == k {
            let i = choose|i: int| 0 <= i < s.len() && (#[trigger] s[i]).id@ == k;
            if i < s.len() - 1 {
                assert(t[i] == s[i]);
            }
        }
    }
}

/// The sizes of the groups, one summand per group.
pub open spec fn group_sizes(groups: Seq<(String, Vec<TestCase>)>, s: Seq<TestCase>) -> spec_fn(int) -> nat {
    |i: int| of_cve(s, groups[i].0@).len()
}

/// When every test case's CVE is a key and keys are distinct, the filtered
/// groups together hold every test case once.
proof fn lemma_split_sizes(groups: Seq<(String, Vec<TestCase>)>, s: Seq<TestCase>)
    requires
        keys_sorted(groups),
        forall|j: int| 0 <= j < s.len() ==> exists|i: int| 0 <= i < groups.len() && (#[trigger] groups[i]).0@ == (#[trigger] s[j]).cve@,
    ensures
        sum_to(groups.len() as int, group_sizes(groups, s)) == s.len(),
    decreases s.len(),
{
    let n = groups.len() as int;
    reveal(Seq::filter);
    if s.len() == 0 {
        lemma_sum_to_single(n, group_sizes(groups, s), -1, 0);
    } else {
        let t = s.drop_last();
        let x = s.last();
        assert(t.push(x) =~= s);
        assert forall|j: int| 0 <= j < t.len() implies exists|i: int| 0 <= i < groups.len() && (#[trigger] groups[i]).0@ == (#[trigger] t[j]).cve@ by {
            assert(t[j] == s[j]);
        }
        lemma_split_sizes(groups, t);
        let k = choose|i: int| 0 <= i < groups.len() && (#[trigger] groups[i]).0@ == s[s.len() - 1].cve@;
        let extra = |i: int| if i == k { 1nat } else { 0nat };
        assert forall|i: int| 0 <= i < n implies #[trigger] group_sizes(groups, s)(i) == group_sizes(groups, t)(i) + extra(i) by {
            t.lemma_filter_push(x, same_cve(groups[i].0@));
            if i != k {
                lemma_sorted_keys_distinct(groups, i, k);
            }
        }
        lemma_sum_to_add(n, group_sizes(groups, t), extra, group_sizes(groups, s));
        lemma_sum_to_single(n, extra, k, 1);
    }
}

/// Grouping by CVE loses and duplicates nothing: the group sizes add up to
/// the number of test cases.
pub proof fn groups_partition_tests(groups: Seq<(String, Vec<TestCase>)>, s: Seq<TestCase>)
    requires
        grouped_by_cve(groups, s),
    ensures
        sum_to(groups.len() as int, |i: int| groups[i].1@.len()) == s.len(),
{
    assert forall|i: int| 0 <= i < groups.len() implies (|i: int| groups[i].1@.len())(i) == #[trigger] group_sizes(groups, s)(i) by {
        assert(groups[i].1@ == of_cve(s, groups[i].0@));
    }
    lemma_sum_to_congruent(groups.len() as int, |i: int| groups[i].1@.len(), group_sizes(groups, s));
    lemma_split_sizes(groups, s);
}


/// A character with upper-case ASCII letters turned to lower case.
pub open spec fn ascii_lower_char(c: char) -> char {
    if 'A' <= c && c <= 'Z' { ((c as u32) + 32) as char } else { c }
}

/// A string with upper-case ASCII letters turned to lower case.
pub open spec fn ascii_lower(s: Seq<char>) -> Seq<char> {
    Seq::new(s.len(), |i: int| ascii_lower_char(s[i]))
}

impl Project {
    /// The name of the variant, as written in the enum.
    pub open spec fn variant_name(self) -> Seq<char> {
        match self {
            Project::FFmpeg => "FFmpeg"@,
            Project::OpenSSL => "OpenSSL"@,
            Project::Tcpdump => "Tcpdump"@,
            Project::LibXml2 => "LibXml2"@,
            Project::Assimp => "Assimp"@,
            Project::Binutils => "Binutils"@,
            Project::Curl => "Curl"@,
            Project::Dbus => "Dbus"@,
            Project::Elfutils => "Elfutils"@,
            Project::Exiv2 => "Exiv2"@,
            Project::Expat => "Expat"@,
            Project::Freetype => "Freetype"@,
            Project::Ghostscript => "Ghostscript"@,
            Project::Git => "Git"@,
            Project::Glib => "Glib"@,
            Project::Gnuplot => "Gnuplot"@,
            Project::Gnutls => "Gnutls"@,
            Project::Gzip => "Gzip"@,
            Project::ImageMagick => "ImageMagick"@,
            Project::Jasper => "Jasper"@,
            Project::Krb5 => "Krb5"@,
            Project::Lcms => "Lcms"@,
            Project::Libarchive => "Libarchive"@,
            Project::Libdwarf => "Libdwarf"@,
            Project::Libgd => "Libgd"@,
            Project::Libpng => "Libpng"@,
            Project::Libtiff => "Libtiff"@,
            Project::Libx11 => "Libx11"@,
            Project::Matio => "Matio"@,
            Project::Mbedtls => "Mbedtls"@,
            Project::Mysql => "Mysql"@,
            Project::Ncurses => "Ncurses"@,
            Project::Opencv => "Opencv"@,
            Project::OpenJDK => "OpenJDK"@,
            Project::Openjpeg => "Openjpeg"@,
            Project::Openssh => "Openssh"@,
            Project::Pcre2 => "Pcre2"@,
            Project::Perl => "Perl"@,
            Project::Poppler => "Poppler"@,
            Project::Postgresql => "Postgresql"@,
            Project::Ruby => "Ruby"@,
            Project::Emacs => "Emacs"@,
            Project::Sqlite => "Sqlite"@,
            Project::Yasm => "Yasm"@,
        }
    }
}

/// A project's name in paths and reports is its variant name in lower case,
/// except that ImageMagick is written `image-magick`.
pub proof fn label_is_lowercase_name(p: Project)
    ensures
        p != Project::ImageMagick ==> p.label() == ascii_lower(p.variant_name()),
        p == Project::ImageMagick ==> p.label() == "image-magick"@,
{
    match p {
        Project::FFmpeg => {
            reveal_strlit("FFmpeg");
            reveal_strlit("ffmpeg");
            assert(ascii_lower("FFmpeg"@) =~= "ffmpeg"@);
        },
        Project::OpenSSL => {
            reveal_strlit("OpenSSL");
            reveal_strlit("openssl");
            assert(ascii_lower("OpenSSL"@) =~= "openssl"@);
        },
        Project::Tcpdump => {
            reveal_strlit("Tcpdump");
            reveal_strlit("tcpdump");
            assert(ascii_lower("Tcpdump"@) =~= "tcpdump"@);
        },
        Project::LibXml2 => {
            reveal_strlit("LibXml2");
            reveal_strlit("libxml2");
            assert(ascii_lower("LibXml2"@) =~= "libxml2"@);
        },
        Project::Assimp => {
            reveal_strlit("Assimp");
            reveal_strlit("assimp");
            assert(ascii_lower("Assimp"@) =~= "assimp"@);
        },
        Project::Binutils => {
            reveal_strlit("Binutils");
            reveal_strlit("binutils");
            assert(ascii_lower("Binutils"@) =~= "binutils"@);
        },
        Project::Curl => {
            reveal_strlit("Curl");
            reveal_strlit("curl");
            assert(ascii_lower("Curl"@) =~= "curl"@);
        },
        Project::Dbus => {
            reveal_strlit("Dbus");
            reveal_strlit("dbus");
            assert(ascii_lower("Dbus"@) =~= "dbus"@);
        },
        Project::Elfutils => {
            reveal_strlit("Elfutils");
            reveal_strlit("elfutils");
            assert(ascii_lower("Elfutils"@) =~= "elfutils"@);
        },
        Project::Exiv2 => {
            reveal_strlit("Exiv2");
            reveal_strlit("exiv2");
            assert(ascii_lower("Exiv2"@) =~= "exiv2"@);
        },
        Project::Expat => {
            reveal_strlit("Expat");
            reveal_strlit("expat");
            assert(ascii_lower("Expat"@) =~= "expat"@);
        },
        Project::Freetype => {
            reveal_strlit("Freetype");
            reveal_strlit("freetype");
            assert(ascii_lower("Freetype"@) =~= "freetype"@);
        },
        Project::Ghostscript => {
            reveal_strlit("Ghostscript");
            reveal_strlit("ghostscript");
            assert(ascii_lower("Ghostscript"@) =~= "ghostscript"@);
        },
        Project::Git => {
            reveal_strlit("Git");
            reveal_strlit("git");
            assert(ascii_lower("Git"@) =~= "git"@);
        },
        Project::Glib => {
            reveal_strlit("Glib");
            reveal_strlit("glib");
            assert(ascii_lower("Glib"@) =~= "glib"@);
        },
        Project::Gnuplot => {
            reveal_strlit("Gnuplot");
            reveal_strlit("gnuplot");
            assert(ascii_lower("Gnuplot"@) =~= "gnuplot"@);
        },
        Project::Gnutls => {
            reveal_strlit("Gnutls");
            reveal_strlit("gnutls");
            assert(ascii_lower("Gnutls"@) =~= "gnutls"@);
        },
        Project::Gzip => {
            reveal_strlit("Gzip");
            reveal_strlit("gzip");
            assert(ascii_lower("Gzip"@) =~= "gzip"@);
        },
        Project::Jasper => {
            reveal_strlit("Jasper");
            reveal_strlit("jasper");
            assert(ascii_lower("Jasper"@) =~= "jasper"@);
        },
        Project::Krb5 => {
            reveal_strlit("Krb5");
            reveal_strlit("krb5");
            assert(ascii_lower("Krb5"@) =~= "krb5"@);
        },
        Project::Lcms => {
            reveal_strlit("Lcms");
            reveal_strlit("lcms");
            assert(ascii_lower("Lcms"@) =~= "lcms"@);
        },
        Project::Libarchive => {
            reveal_strlit("Libarchive");
            reveal_strlit("libarchive");
            assert(ascii_lower("Libarchive"@) =~= "libarchive"@);
        },
        Project::Libdwarf => {
            reveal_strlit("Libdwarf");
            reveal_strlit("libdwarf");
            assert(ascii_lower("Libdwarf"@) =~= "libdwarf"@);
        },
        Project::Libgd => {
            reveal_strlit("Libgd");
            reveal_strlit("libgd");
            assert(ascii_lower("Libgd"@) =~= "libgd"@);
        },
        Project::Libpng => {
            reveal_strlit("Libpng");
            reveal_strlit("libpng");
            assert(ascii_lower("Libpng"@) =~= "libpng"@);
        },
        Project::Libtiff => {
            reveal_strlit("Libtiff");
            reveal_strlit("libtiff");
            assert(ascii_lower("Libtiff"@) =~= "libtiff"@);
        },
        Project::Libx11 => {
            reveal_strlit("Libx11");
            reveal_strlit("libx11");
            assert(ascii_lower("Libx11"@) =~= "libx11"@);
        },
        Project::Matio => {
            reveal_strlit("Matio");
            reveal_strlit("matio");
            assert(ascii_lower("Matio"@) =~= "matio"@);
        },
        Project::Mbedtls => {
            reveal_strlit("Mbedtls");
            reveal_strlit("mbedtls");
            assert(ascii_lower("Mbedtls"@) =~= "mbedtls"@);
        },
        Project::Mysql => {
            reveal_strlit("Mysql");
            reveal_strlit("mysql");
            assert(ascii_lower("Mysql"@) =~= "mysql"@);
        },
        Project::Ncurses => {
            reveal_strlit("Ncurses");
            reveal_strlit("ncurses");
            assert(ascii_lower("Ncurses"@) =~= "ncurses"@);
        },
        Project::Opencv => {
            reveal_strlit("Opencv");
            reveal_strlit("opencv");
            assert(ascii_lower("Opencv"@) =~= "opencv"@);
        },
        Project::OpenJDK => {
            reveal_strlit("OpenJDK");
            reveal_strlit("openjdk");
            assert(ascii_lower("OpenJDK"@) =~= "openjdk"@);
        },
        Project::Openjpeg => {
            reveal_strlit("Openjpeg");
            reveal_strlit("openjpeg");
            assert(ascii_lower("Openjpeg"@) =~= "openjpeg"@);
        },
        Project::Openssh => {
            reveal_strlit("Openssh");
            reveal_strlit("openssh");
            assert(ascii_lower("Openssh"@) =~= "openssh"@);
        },
        Project::Pcre2 => {
            reveal_strlit("Pcre2");
            reveal_strlit("pcre2");
            assert(ascii_lower("Pcre2"@) =~= "pcre2"@);
        },
        Project::Perl => {
            reveal_strlit("Perl");
            reveal_strlit("perl");
            assert(ascii_lower("Perl"@) =~= "perl"@);
        },
        Project::Poppler => {
            reveal_strlit("Poppler");
            reveal_strlit("poppler");
            assert(ascii_lower("Poppler"@) =~= "poppler"@);
        },
        Project::Postgresql => {
            reveal_strlit("Postgresql");
            reveal_strlit("postgresql");
            assert(ascii_lower("Postgresql"@) =~= "postgresql"@);
        },
        Project::Ruby => {
            reveal_strlit("Ruby");
            reveal_strlit("ruby");
            assert(ascii_lower("Ruby"@) =~= "ruby"@);
        },
        Project::Emacs => {
            reveal_strlit("Emacs");
            reveal_strlit("emacs");
            assert(ascii_lower("Emacs"@) =~= "emacs"@);
        },
        Project::Sqlite => {
            reveal_strlit("Sqlite");
            reveal_strlit("sqlite");
            assert(ascii_lower("Sqlite"@) =~= "sqlite"@);
        },
        Project::Yasm => {
            reveal_strlit("Yasm");
            reveal_strlit("yasm");
            assert(ascii_lower("Yasm"@) =~= "yasm"@);
        },
        Project::ImageMagick => {},
    }
}


impl State {
    /// The name of the variant, as written in the enum.
    pub open spec fn variant_name(self) -> Seq<char> {
        match self {
            State::Patch => "Patch"@,
            State::Vuln => "Vuln"@,
            State::Unknown => "Unknown"@,
        }
    }
}

/// A state's name in paths and reports is its variant name in lower case.
pub proof fn state_label_is_lowercase_name(s: State)
    ensures
        s.label() == ascii_lower(s.variant_name()),
{
    match s {
        State::Patch => {
            reveal_strlit("Patch");
            reveal_strlit("patch");
            assert(ascii_lower("Patch"@) =~= "patch"@);
        },
        State::Vuln => {
            reveal_strlit("Vuln");
            reveal_strlit("vuln");
            assert(ascii_lower("Vuln"@) =~= "vuln"@);
        },
        State::Unknown => {
            reveal_strlit("Unknown");
            reveal_strlit("unknown");
            assert(ascii_lower("Unknown"@) =~= "unknown"@);
        },
    }
}

}
