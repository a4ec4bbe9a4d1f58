//! Tools: how they are described, and what is kept of their calls.

use vstd::prelude::*;

verus! {

/// Provider-neutral tool schema.
#[derive(Debug, Clone)]
pub struct ToolDefinition {
    pub name: String,
    pub description: String,
    /// The schema of the parameters, as JSON text.
    pub parameters: String,
}

/// A change of one file by a tool call.
#[derive(Debug, Clone)]
pub struct ToolDiffRecord {
    pub path: String,
    pub change_type: String,
    pub diff: String,
}

impl Default for ToolDiffRecord {
    fn default() -> (r: Self)
        ensures
            r.path@.len() == 0 && r.change_type@.len() == 0 && r.diff@.len() == 0,
    {
        ToolDiffRecord { path: String::new(), change_type: String::new(), diff: String::new() }
    }
}

/// A summary of a tool call executed within a task.
#[derive(Debug, Clone)]
pub struct ToolCallRecord {
    pub tool_name: String,
    pub action: String,
    /// The arguments, as JSON text.
    pub arguments_json: Option<String>,
    pub paths_read: Vec<String>,
    pub paths_written: Vec<String>,
    pub success: bool,
    pub summary: Option<String>,
    pub diffs: Vec<ToolDiffRecord>,
}

impl Default for ToolCallRecord {
    fn default() -> (r: Self)
        ensures
            r.tool_name@.len() == 0 && r.action@.len() == 0,
            r.arguments_json is None && r.summary is None,
            r.paths_read@.len() == 0 && r.paths_written@.len() == 0 && r.diffs@.len() == 0,
            !r.success,
    {
        ToolCallRecord {
            tool_name: String::new(),
            action: String::new(),
            arguments_json: None,
            paths_read: Vec::new(),
            paths_written: Vec::new(),
            success: false,
            summary: None,
            diffs: Vec::new(),
        }
    }
}

/// Causal identifiers attached to a tool invocation. They are owned by the
/// runtime, never taken from a model.
#[derive(Debug, Clone, PartialEq, Eq)]
pub struct AiOperationContext {
    pub operation_id: String,
    pub session_id: Option<String>,
    pub run_id: Option<String>,
    pub tool_invocation_id: String,
    pub intent_id: Option<String>,
    pub repo_id: Option<String>,
    /// Earlier successful operations of this batch of changes. A later commit
    /// takes this set, never a scan of the repository or the run.
    pub pending_operation_ids: Vec<String>,
}

} // verus!
