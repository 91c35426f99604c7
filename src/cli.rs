//! The command line of the generator, as plain values.

use vstd::prelude::*;

verus! {

/// A parsed command line.
#[derive(Debug)]
pub struct Cli {
    pub command: Commands,
}

/// The subcommands.
#[derive(Debug)]
pub enum Commands {
    /// Generate bindings, reading the given configuration file.
    Generate { config: String, verbose: bool },
    /// Write a default configuration file, overwriting only when forced.
    Init { output: String, force: bool },
}

} // verus!
