//! The vocabulary of the metadata that comes with an approval request.

use vstd::prelude::*;

verus! {

/// What kind of approval is asked for.
pub const APPROVAL_KIND_KEY: &'static str = "codex_approval_kind";

/// The approval of a tool call of an MCP server.
pub const APPROVAL_KIND_MCP_TOOL_CALL: &'static str = "mcp_tool_call";

/// The connector that the tool belongs to.
pub const CONNECTOR_ID_KEY: &'static str = "connector_id";

/// The name of the tool.
pub const TOOL_NAME_KEY: &'static str = "tool_name";

/// The arguments of the tool call.
pub const TOOL_PARAMS_KEY: &'static str = "tool_params";

/// In a request, how long an approval may be remembered; in a response, how
/// long it is.
pub const PERSIST_KEY: &'static str = "persist";

/// Remembered until the session ends.
pub const PERSIST_SESSION: &'static str = "session";

/// Remembered for good.
pub const PERSIST_ALWAYS: &'static str = "always";

/// The words of the protocol.
pub proof fn law_vocabulary()
    ensures
        APPROVAL_KIND_KEY@ == "codex_approval_kind"@,
        APPROVAL_KIND_MCP_TOOL_CALL@ == "mcp_tool_call"@,
        CONNECTOR_ID_KEY@ == "connector_id"@,
        TOOL_NAME_KEY@ == "tool_name"@,
        TOOL_PARAMS_KEY@ == "tool_params"@,
        PERSIST_KEY@ == "persist"@,
        PERSIST_SESSION@ == "session"@,
        PERSIST_ALWAYS@ == "always"@,
{
}

} // verus!
