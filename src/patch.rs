//! Release packaging: textual patches of a manifest and the names of the
//! artifacts that a build for a target produces.
use crate::text::{contains_str, occurs, replace_str, replaced};
use vstd::prelude::*;
use vstd::string::*;

verus! {

/// A file's contents together with the edits made to them so far.
pub struct Patch {
    pub path: String,
    pub original_contents: String,
    pub contents: String,
}

impl Patch {
    pub fn new(path: String, contents: String) -> (r: Patch)
        ensures
            r.path@ == path@,
            r.original_contents@ == contents@,
            r.contents@ == contents@,
    {
        let original_contents = contents.clone();
        Patch { path, original_contents, contents }
    }

    /// Replaces every occurrence of `from`, which must occur.
    pub fn replace(&mut self, from: &str, to: &str) -> (r: &mut Patch)
        requires
            occurs(old(self).contents@, from@),
        ensures
            r.contents@ == replaced(old(self).contents@, from@, to@),
            r.path@ == old(self).path@,
            r.original_contents@ == old(self).original_contents@,
            *final(self) == *final(r),
    {
        self.contents = replace_str(self.contents.as_str(), from, to);
        self
    }

    /// Whether `from` occurs in the current contents.
    pub fn contains(&self, from: &str) -> (r: bool)
        ensures
            r == occurs(self.contents@, from@),
    {
        contains_str(self.contents.as_str(), from)
    }
}

/// The suffix of executables on the target: `.exe` for Windows targets.
pub open spec fn exe_suffix_of(target: Seq<char>) -> Seq<char> {
    if occurs(target, "-windows-"@) {
        ".exe"@
    } else {
        ""@
    }
}

pub fn exe_suffix(target: &str) -> (r: &'static str)
    ensures
        r@ == exe_suffix_of(target@),
{
    if contains_str(target, "-windows-") {
        ".exe"
    } else {
        ""
    }
}

/// The file name of the server executable built for the target.
pub fn server_file_name(target: &str) -> (r: String)
    ensures
        r@ == "rust-analyzer"@ + exe_suffix_of(target@),
{
    String::from_str("rust-analyzer").concat(exe_suffix(target))
}

/// The name under which the server built for the target is published.
pub fn artifact_name(target: &str) -> (r: String)
    ensures
        r@ == "rust-analyzer-"@ + target@ + exe_suffix_of(target@),
{
    String::from_str("rust-analyzer-").concat(target).concat(exe_suffix(target))
}

} // verus!
