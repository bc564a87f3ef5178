//! Command-line options of the generator, as plain values.

use vstd::prelude::*;
use vstd::string::StringExecFns;

verus! {

/// Where the generator reads the source site and writes the build.
#[derive(Clone, Debug)]
pub struct Args {
    /// Source site directory.
    pub site: String,
    /// Output build directory.
    pub output: String,
}

impl Default for Args {
    /// The conventional directory layout: `./site` in, `./output` out.
    fn default() -> (r: Self)
        ensures
            r.site@ == "./site"@,
            r.output@ == "./output"@,
    {
        Args { site: String::from_str("./site"), output: String::from_str("./output") }
    }
}

} // verus!
