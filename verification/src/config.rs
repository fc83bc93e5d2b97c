use vstd::prelude::*;

verus! {

/// What the command-line front end is asked to do with a program.
#[derive(Clone, Copy, Debug, PartialEq, Eq, Structural)]
pub enum ExecutionMode {
    /// Simulate the provided program.
    Simulate,
    /// Compile the provided program to a native binary (not implemented).
    NativeCompile,
}

/// The command-line front end's configuration: the source file to run and
/// the mode to run it in.
#[derive(Debug)]
pub struct Config {
    pub source_file: String,
    pub execution_mode: ExecutionMode,
}

impl Config {
    pub fn new(source_file: String, execution_mode: ExecutionMode) -> (r: Config)
        ensures
            r.source_file@ == source_file@,
            r.execution_mode == execution_mode,
    {
        Config { source_file, execution_mode }
    }
}

} // verus!
