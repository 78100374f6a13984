//! The input of one run: where to read, where to write, and which
//! version-control states are tolerated.

use vstd::prelude::*;

verus! {

/// What a run works on. `source` is the file or directory to split; when
/// `out` is absent the output goes next to the source.
#[derive(Debug, Clone)]
pub struct Input {
    pub source: String,
    /// If None, same dir as `source` will be used
    pub out: Option<String>,
    pub allow_git_staged: bool,
    pub allow_git_dirty: bool,
}

impl Input {
    /// Where the output goes: the chosen output path, or the source path
    /// when none was chosen.
    pub fn effective_out(&self) -> (r: &String)
        ensures
            match self.out {
                Some(ref o) => r == o,
                None => r == &self.source,
            },
    {
        match &self.out {
            Some(o) => o,
            None => &self.source,
        }
    }
}

/// What a node of the scanned tree offers once it is laid out: writing
/// itself beneath a target path. The surrounding application implements
/// this for its filesystem nodes.
pub trait FileWritable {
    fn write_to(&self, path: &str) -> Result<(), crate::error::Error>;
}

} // verus!
