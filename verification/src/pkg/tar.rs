//! Plain `.tar.gz` archives.
use vstd::prelude::*;

verus! {

/// Simple `.tar.gz` packager.
pub struct TarGzPackager;

impl TarGzPackager {
    /// The archive's file name: `{name}-{version}.tar.gz`.
    pub fn file_name(&self, name: &str, version: &str) -> (r: String)
        ensures
            r@ == name@ + "-"@ + version@ + ".tar.gz"@,
    {
        let mut r = String::from_str(name);
        r.append("-");
        r.append(version);
        r.append(".tar.gz");
        r
    }
}

} // verus!
