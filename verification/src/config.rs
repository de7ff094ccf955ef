//! The layout of a dataset directory.

use vstd::prelude::*;
use vstd::string::*;

verus! {

/// The paths of the files and directories that make up a dataset.
pub struct Config {
    pub dataset_dir: String,
    pub cve_info: String,
    pub test: String,
    pub diff_dir: String,
    pub bitcode_dir: String,
    pub binaries_dir: String,
}

/// `<base>/<name>`
pub fn path_join(base: &str, name: &str) -> (r: String)
    ensures
        r@ == base@ + "/"@ + name@,
{
    let mut r = String::from_str(base);
    r.append("/");
    r.append(name);
    r
}

impl Config {
    /// Every path of the layout lies directly under the dataset directory.
    pub open spec fn lays_out(self, dataset_dir: Seq<char>) -> bool {
        &&& self.dataset_dir@ == dataset_dir
        &&& self.cve_info@ == dataset_dir + "/"@ + "CVE_info.jsonl"@
        &&& self.test@ == dataset_dir + "/"@ + "test.jsonl"@
        &&& self.diff_dir@ == dataset_dir + "/"@ + "diff"@
        &&& self.bitcode_dir@ == dataset_dir + "/"@ + "bitcodes"@
        &&& self.binaries_dir@ == dataset_dir + "/"@ + "binary"@
    }

    /// The layout of the dataset rooted at `dataset_dir`.
    pub fn new(dataset_dir: &str) -> (cfg: Self)
        ensures
            cfg.lays_out(dataset_dir@),
    {
        Config {
            cve_info: path_join(dataset_dir, "CVE_info.jsonl"),
            test: path_join(dataset_dir, "test.jsonl"),
            diff_dir: path_join(dataset_dir, "diff"),
            bitcode_dir: path_join(dataset_dir, "bitcodes"),
            binaries_dir: path_join(dataset_dir, "binary"),
            dataset_dir: String::from_str(dataset_dir),
        }
    }
}

}
