//! The commands of the program, and which output formats a build asks for.

use vstd::prelude::*;
use crate::text::{chars_of, occurs_at, occurs_at_exec};

verus! {

/// What the program is asked to do.
pub enum Commands {
    /// Build the static site from `source` into `output`.
    Build { source: String, output: String, format: String, config: Option<String> },
    /// Serve a live preview of `source` on `port`.
    Dev { source: String, port: u16, config: Option<String> },
    /// Lay out a new project in `dir`.
    Init { dir: String },
}

/// The parsed command line.
pub struct Cli {
    pub command: Commands,
}

/// `p` occurs somewhere in `s`.
pub open spec fn contains(s: Seq<char>, p: Seq<char>) -> bool {
    exists|i: int| occurs_at(s, i, p)
}

/// Which outputs a format selector asks for: each name that occurs in it.
pub struct Formats {
    pub html: bool,
    pub pdf: bool,
    pub man: bool,
}

fn contains_exec(s: &Vec<char>, p: &Vec<char>) -> (r: bool)
    ensures
        r == contains(s@, p@),
{
    let mut i: usize = 0;
    while i < s.len()
        invariant
            i <= s.len(),
            forall|j: int| 0 <= j < i ==> !occurs_at(s@, j, p@),
        decreases s.len() - i,
    {
        if occurs_at_exec(s, i, p) {
            return true;
        }
        i = i + 1;
    }
    assert forall|j: int| !occurs_at(s@, j, p@) by {
        if 0 <= j < i {
        }
    }
    false
}

impl Formats {
    /// The outputs named in `selector` (`html`, `pdf`, `man`, in any mix,
    /// such as `html,pdf`).
    pub fn select(selector: &str) -> (r: Formats)
        ensures
            r.html == contains(selector@, "html"@),
            r.pdf == contains(selector@, "pdf"@),
            r.man == contains(selector@, "man"@),
    {
        let s = chars_of(selector);
        Formats {
            html: contains_exec(&s, &chars_of("html")),
            pdf: contains_exec(&s, &chars_of("pdf")),
            man: contains_exec(&s, &chars_of("man")),
        }
    }
}

} // verus!
