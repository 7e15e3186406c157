//! The settings of one run.

use vstd::prelude::*;
use vstd::string::*;

verus! {

/// What to analyze and how.
#[derive(Clone, Debug, PartialEq, Eq)]
pub struct Arguments {
    /// The filepath to the trace file
    pub input: String,
    /// If the input file should be normalized
    pub normalize: bool,
    /// If a graphical representation should be constructed (only suitable for small traces)
    pub graph: bool,
    /// Analyze trace via lock dependencies (only suitable for small traces)
    pub lock_dependencies: bool,
    /// If each violation should be logged individually (only suitable for small traces)
    pub verbose: bool,
}

impl Arguments {
    /// The settings of a run on the trace file `input`.
    pub fn new(
        input: &str,
        normalize: bool,
        graph: bool,
        lock_dependencies: bool,
        verbose: bool,
    ) -> (arguments: Self)
        ensures
            arguments.input@ == input@,
            arguments.normalize == normalize,
            arguments.graph == graph,
            arguments.lock_dependencies == lock_dependencies,
            arguments.verbose == verbose,
    {
        Self { input: String::from_str(input), normalize, graph, lock_dependencies, verbose }
    }
}

} // verus!
