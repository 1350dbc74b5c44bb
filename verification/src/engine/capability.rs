//! The unifying extensibility seam.
//!
//! Everything that gives the agent tools or context — builtin tools, MCP servers, skill sets, the
//! sub-agent registry — implements [`CapabilitySource`]. The agent loop stays ignorant of where a
//! tool came from: it sees only the assembled registry and system prompt. Adding a new capability is
//! one more implementor, nothing in the loop changes.

use super::types::{ToolSpec, ToolView};
use crate::text;
use vstd::prelude::*;

verus! {

/// A source of tools and context.
pub trait CapabilitySource {
    /// What the source's tools are advertised as.
    spec fn offered(&self) -> Seq<ToolView>;

    /// What the source adds to the system prompt, if anything.
    spec fn fragment(&self) -> Option<Seq<char>>;

    /// Tools this source contributes to the shared registry.
    fn tools(&self) -> (r: Vec<ToolSpec>)
        ensures
            text::views(r@) == self.offered(),
    ;

    /// An optional fragment appended to the system prompt (e.g. skill listings, resource hints).
    fn prompt_fragment(&self) -> (r: Option<String>)
        ensures
            text::opt_view(r) == self.fragment(),
    ;
}

} // verus!
