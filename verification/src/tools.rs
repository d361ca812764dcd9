//! The tools whose dependencies are wanted.

use vstd::prelude::*;
use vstd::string::*;

verus! {

/// Mathematical value of a [`Tool`].
pub struct ToolView {
    pub name: Seq<char>,
    pub version: Seq<char>,
}

/// A top-level package, named with the version it is pinned to.
#[derive(Debug, Clone)]
pub struct Tool {
    pub name: String,
    pub version: String,
}

impl View for Tool {
    type V = ToolView;

    open spec fn view(&self) -> ToolView {
        ToolView { name: self.name@, version: self.version@ }
    }
}

/// The values of a sequence of tools, in the same order.
pub open spec fn tool_views(tools: Seq<Tool>) -> Seq<ToolView> {
    Seq::new(tools.len(), |i: int| tools[i]@)
}

/// The list of tools as the input file gives it.
#[derive(Debug, Clone)]
pub struct ToolsList {
    pub tools: Vec<Tool>,
}

impl View for ToolsList {
    type V = Seq<ToolView>;

    open spec fn view(&self) -> Seq<ToolView> {
        tool_views(self.tools@)
    }
}

impl Tool {
    /// Builds a tool from a name and a version, both copied.
    pub fn new(name: &str, version: &str) -> (tool: Tool)
        ensures
            tool@.name == name@,
            tool@.version == version@,
    {
        Tool { name: String::from_str(name), version: String::from_str(version) }
    }
}

} // verus!
