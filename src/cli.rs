//! The errors that keep a run of the interpreter from starting.
use vstd::prelude::*;

use crate::opcodes::CompileError;

verus! {

/// Why a run of the interpreter could not start.
#[derive(Debug)]
pub enum CliError {
    /// The source file could not be read; the text says why.
    Io(String),
    /// The source did not compile.
    Compile(CompileError),
    /// No source file was named.
    MissingArgument,
}

impl From<CompileError> for CliError {
    fn from(err: CompileError) -> (r: CliError)
        ensures
            r == CliError::Compile(err),
    {
        CliError::Compile(err)
    }
}

impl vstd::std_specs::convert::FromSpecImpl<CompileError> for CliError {
    open spec fn obeys_from_spec() -> bool {
        true
    }

    open spec fn from_spec(err: CompileError) -> CliError {
        CliError::Compile(err)
    }
}

} // verus!
