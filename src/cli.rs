//! The command line front end.
use vstd::prelude::*;

verus! {

/// The command line front end; what it runs lives with the program.
pub struct Cli {}

impl Cli {
    pub fn new() -> Self {
        Self {}
    }
}

} // verus!
