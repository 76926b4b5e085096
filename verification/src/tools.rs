//! The tool registry: the errors a tool can raise, the registry entry that
//! pairs a tool's definition with its implementation kind, and the shared
//! view of untyped arguments.

use vstd::prelude::*;

pub mod browse;
pub mod echo;
pub mod fetch;
pub mod memory;
pub mod web;
pub mod web_browser;

use crate::json::{view_of, Json, JsonVal};
use crate::schema::Tool;

verus! {

/// Errors raised while bridging untyped arguments to a tool and back.
#[derive(Clone, Debug)]
pub enum ToolError {
    /// The arguments did not match the tool's expected shape.
    ArgumentParse(String),
    /// The tool itself failed.
    Execution(String),
    /// The result could not be rendered.
    ResultSerialize(String),
    /// Anything else.
    Custom(String),
}

/// How a registered tool is run: by the dispatcher itself, over the
/// in-memory store, or outside the library (the caller performs the work
/// and hands the outcome back).
#[derive(Clone, Copy, Debug)]
pub enum ToolKind {
    Echo,
    Memory,
    External,
}

/// One registry entry: a tool's declared definition and its kind.
#[derive(Clone, Debug)]
pub struct ToolEntry {
    pub def: Tool,
    pub kind: ToolKind,
}

/// The model of an optional argument object.
pub open spec fn args_view(args: Option<&Json>) -> Option<JsonVal> {
    match args {
        Some(j) => Some(view_of(*j)),
        None => None,
    }
}

} // verus!
