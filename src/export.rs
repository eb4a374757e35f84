//! Other export formats write below the same output directory.

use vstd::prelude::*;

verus! {

/// Writes exports below `output_dir`.
pub struct Exporter {
    pub output_dir: String,
}

impl Exporter {
    pub fn new(output_dir: &str) -> (r: Exporter)
        ensures
            r.output_dir@ == output_dir@,
    {
        Exporter { output_dir: String::from_str(output_dir) }
    }
}

} // verus!
