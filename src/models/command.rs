use crate::parser::RustType;
use vstd::prelude::*;

verus! {

/// An exported command: its signature and where it was found.
#[derive(Debug)]
pub struct TauriCommand {
    /// Name of the command (the function name).
    pub name: String,
    /// Arguments passed from the client, in order.
    pub args: Vec<CommandArg>,
    /// Return type (`None` for functions that return nothing).
    pub return_type: Option<RustType>,
    /// File in which the command is declared.
    pub source_file: String,
    /// Argument naming policy given on the command attribute, if any.
    pub rename_all: Option<String>,
}

/// One argument of a command.
#[derive(Debug)]
pub struct CommandArg {
    pub name: String,
    pub ty: RustType,
}

} // verus!
