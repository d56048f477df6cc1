//! Data model of the application around the engine: workspaces, chats,
//! messages, connections, hub resources and prompts.  Plain records; the
//! storage and transport shells convert to and from their own serialized
//! copies.

use vstd::prelude::*;

verus! {

/// One workspace.
pub struct Workspace {
    pub id: String,
    pub name: String,
    pub created_at: i64,
}

/// One chat inside a workspace.
pub struct Chat {
    pub id: String,
    pub workspace_id: String,
    pub title: String,
    pub last_message: Option<String>,
    pub created_at: i64,
    pub updated_at: i64,
}

/// One message of a chat; the role is `user` or `assistant`.
pub struct Message {
    pub id: String,
    pub chat_id: String,
    pub role: String,
    pub content: String,
    pub timestamp: i64,
}

/// Settings of one workspace.
pub struct WorkspaceSettings {
    pub workspace_id: String,
    pub llm_connection_id: Option<String>,
    pub system_message: Option<String>,
    pub mcp_connection_ids: Option<String>,
    pub created_at: i64,
    pub updated_at: i64,
}

/// One configured language-model connection.
pub struct LLMConnection {
    pub id: String,
    pub name: String,
    pub base_url: String,
    pub provider: String,
    pub api_key: String,
    pub models_json: Option<String>,
    pub created_at: i64,
    pub updated_at: i64,
}

/// One configured tool-server connection.
pub struct MCPServerConnection {
    pub id: String,
    pub name: String,
    pub url: String,
    pub kind: String,
    pub headers: String,
    pub created_at: i64,
    pub updated_at: i64,
}

/// What sending a message returns: the id under which the reply accumulates.
pub struct SendMessageResult {
    pub assistant_message_id: String,
}

/// The hub's index document.
pub struct HubIndex {
    pub version: String,
    pub last_updated: String,
    pub hub_name: String,
    pub resources: HubResources,
}

/// Resources the hub offers.
pub struct HubResources {
    pub prompts: Vec<HubPrompt>,
}

/// One prompt listed by the hub.
pub struct HubPrompt {
    pub id: String,
    pub name: String,
    pub description: String,
    pub icon: String,
    pub path: String,
}

/// One stored prompt.
pub struct Prompt {
    pub id: String,
    pub name: String,
    pub content: String,
    pub created_at: i64,
    pub updated_at: i64,
}

/// A prompt file split into its parts.
pub struct ParsedPromptTemplate {
    pub title: String,
    pub description: String,
    pub content: String,
    pub variables: Vec<String>,
}

/// What installing a prompt from the hub needs.
pub struct InstallPromptFromHubPayload {
    pub prompt_id: String,
    pub name: String,
    pub path: String,
}

} // verus!
