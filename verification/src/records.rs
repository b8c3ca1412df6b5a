//! Recorded thread items, as far as the history tools read them.

use vstd::prelude::*;

use crate::json::Json;
use crate::json::JsonView;

verus! {

/// One part of a message.
#[derive(Debug)]
pub enum ContentItem {
    InputText { text: String },
    OutputText { text: String },
    InputImage,
    InputAudio,
}

/// One part of a message between agents.
#[derive(Debug)]
pub enum AgentMessageInputContent {
    InputText { text: String },
    EncryptedContent { encrypted_content: String },
}

/// One part of a tool's output.
#[derive(Debug)]
pub enum FunctionCallOutputContentItem {
    InputText { text: String },
    /// The detail is kept as it was given, null where there was none.
    InputImage { image_url: String, detail: Json },
    InputAudio,
    EncryptedContent { encrypted_content: String },
}

/// What a part of a tool's output holds.
#[verifier::ext_equal]
pub enum OutputItemView {
    InputText { text: Seq<char> },
    InputImage { image_url: Seq<char>, detail: JsonView },
    InputAudio,
    EncryptedContent { encrypted_content: Seq<char> },
}

impl View for FunctionCallOutputContentItem {
    type V = OutputItemView;

    open spec fn view(&self) -> OutputItemView {
        match self {
            FunctionCallOutputContentItem::InputText { text } => OutputItemView::InputText { text: text@ },
            FunctionCallOutputContentItem::InputImage { image_url, detail } => OutputItemView::InputImage {
                image_url: image_url@,
                detail: detail@,
            },
            FunctionCallOutputContentItem::InputAudio => OutputItemView::InputAudio,
            FunctionCallOutputContentItem::EncryptedContent { encrypted_content } => {
                OutputItemView::EncryptedContent { encrypted_content: encrypted_content@ }
            },
        }
    }
}

/// What the parts of a tool's output hold.
pub open spec fn output_items_view(items: Seq<FunctionCallOutputContentItem>) -> Seq<OutputItemView> {
    items.map_values(|item: FunctionCallOutputContentItem| item@)
}

/// A tool's output.
#[derive(Debug)]
pub enum FunctionCallOutputBody {
    Text(String),
    ContentItems(Vec<FunctionCallOutputContentItem>),
}

/// What a tool's output holds.
#[verifier::ext_equal]
pub enum OutputBodyView {
    Text(Seq<char>),
    ContentItems(Seq<OutputItemView>),
}

impl View for FunctionCallOutputBody {
    type V = OutputBodyView;

    open spec fn view(&self) -> OutputBodyView {
        match self {
            FunctionCallOutputBody::Text(text) => OutputBodyView::Text(text@),
            FunctionCallOutputBody::ContentItems(items) => OutputBodyView::ContentItems(
                output_items_view(items@),
            ),
        }
    }
}

/// An item of the conversation.
#[allow(inconsistent_fields)]
#[derive(Debug)]
pub enum ResponseItem {
    Message { role: String, content: Vec<ContentItem> },
    AgentMessage { content: Vec<AgentMessageInputContent> },
    FunctionCall {
        name: String,
        namespace: Option<String>,
        arguments: String,
        has_encrypted_arguments: bool,
        call_id: String,
    },
    FunctionCallOutput {
        call_id: Option<String>,
        name: Option<String>,
        namespace: Option<String>,
        output: FunctionCallOutputBody,
    },
    CustomToolCall { call_id: String, name: String, namespace: Option<String>, input: String },
    CustomToolCallOutput { call_id: String, name: Option<String>, output: FunctionCallOutputBody },
    LocalShellCall { call_id: Option<String>, command: Vec<String> },
    ToolSearchCall { call_id: Option<String>, arguments: Json },
    ToolSearchOutput { call_id: Option<String> },
    AdditionalTools,
    Reasoning,
    WebSearchCall,
    ImageGenerationCall,
    Compaction,
    CompactionTrigger,
    ContextCompaction,
    Other,
}

/// Which store serves the history and note tools of a thread.
#[derive(Clone, Copy, Debug, PartialEq, Eq, Structural)]
pub enum ContextManagementBackend {
    Codex,
    Local,
}

/// What started a session.
#[derive(Clone, Copy, Debug, PartialEq, Eq, Structural)]
pub enum SessionSource {
    /// A person or a client.
    Root,
    /// A thread that spawned an agent of its own.
    SpawnedChild,
    /// The host itself: reviews, compaction, memory work and the like.
    InternalAgent,
}

/// What an agent works for that another session started.
#[derive(Debug)]
pub enum SubAgentSource {
    Review,
    Compact,
    /// A thread that spawned an agent of its own.
    ThreadSpawn,
    MemoryConsolidation,
    /// Anything else, by its name.
    Other(String),
}

/// What the host itself started a session for.
#[derive(Debug)]
pub enum InternalSessionSource {
    Guardian,
    MemoryConsolidation,
}

/// What started a session, as the host tells it.
#[derive(Debug)]
pub enum HostSource {
    Cli,
    Exec,
    /// Any other client, by its name.
    Client(String),
    SubAgent(SubAgentSource),
    Internal(InternalSessionSource),
}

/// What started a session: of the agents that other sessions start, those that a thread spawned are
/// threads of their own, and all others are agents of the host.
pub open spec fn source_of(source: HostSource) -> SessionSource {
    match source {
        HostSource::SubAgent(SubAgentSource::ThreadSpawn) => SessionSource::SpawnedChild,
        HostSource::SubAgent(_) => SessionSource::InternalAgent,
        HostSource::Internal(_) => SessionSource::InternalAgent,
        _ => SessionSource::Root,
    }
}

/// What started a session.
pub fn session_source(source: &HostSource) -> (found: SessionSource)
    ensures
        found == source_of(*source),
{
    match source {
        HostSource::Cli => SessionSource::Root,
        HostSource::Exec => SessionSource::Root,
        HostSource::Client(_) => SessionSource::Root,
        HostSource::SubAgent(SubAgentSource::ThreadSpawn) => SessionSource::SpawnedChild,
        HostSource::SubAgent(_) => SessionSource::InternalAgent,
        HostSource::Internal(_) => SessionSource::InternalAgent,
    }
}

/// First record of a thread.
#[derive(Debug)]
pub struct SessionMeta {
    pub id: String,
    /// Where inherited history ends.
    pub history_base_end_ordinal: Option<u64>,
    pub forked_from_id: Option<String>,
    pub forked_from_ordinal_exclusive: Option<u64>,
    pub subagent_history_start_ordinal: Option<u64>,
    pub context_window_id: Option<String>,
    pub context_management_backend: Option<ContextManagementBackend>,
    pub source: SessionSource,
}

/// A boundary at which earlier items left the model's context.
#[derive(Debug)]
pub struct CompactedItem {
    pub window_number: Option<u64>,
    pub window_id: Option<String>,
    pub replacement_history: Option<Vec<ResponseItem>>,
}

/// What one record of a thread holds.
#[derive(Debug)]
pub enum RolloutItem {
    SessionMeta(SessionMeta),
    ResponseItem(ResponseItem),
    /// The text of a user message without the prefix that the client puts before it.
    UserMessage { text: String },
    AgentMessage { message: String },
    InterAgentCommunication { content: String, is_encrypted: bool },
    Compacted(CompactedItem),
    InterAgentCommunicationMetadata,
    TurnContext,
    TokenUsageRecord,
    WorldState,
    SecurityRiskScore,
    RealtimeItem,
    OtherEvent,
}

/// One record of a thread.
#[derive(Debug)]
pub struct RolloutLine {
    pub timestamp: String,
    pub ordinal: Option<u64>,
    pub item: RolloutItem,
}

} // verus!
