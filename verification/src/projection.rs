//! Projection of recorded thread items to readable text.

use vstd::prelude::*;

use crate::json::json_text;
use crate::limits::MAX_HISTORY_TOOL_CALLS;
use crate::records::AgentMessageInputContent;
use crate::records::ContentItem;
use crate::records::FunctionCallOutputBody;
use crate::records::FunctionCallOutputContentItem;
use crate::records::ResponseItem;
use crate::records::RolloutItem;
use crate::text::blank;
use crate::text::copy_opt;
use crate::text::is_blank;
use crate::text::join;
use crate::text::joined;
use crate::text::opt_view;
use crate::text::same_text;
use crate::text::texts_view;

verus! {

/// Name of the tool that a recorded call went to.
#[derive(Debug)]
pub struct ToolCallRef {
    pub namespace: Option<String>,
    pub name: Option<String>,
}

/// What a `ToolCallRef` holds.
#[verifier::ext_equal]
pub struct ToolCallView {
    pub namespace: Option<Seq<char>>,
    pub name: Option<Seq<char>>,
}

impl View for ToolCallRef {
    type V = ToolCallView;

    open spec fn view(&self) -> ToolCallView {
        ToolCallView { namespace: opt_view(self.namespace), name: opt_view(self.name) }
    }
}

/// The tool calls that a scan has met, by call ID. No call ID occurs twice.
#[derive(Debug)]
pub struct ToolCalls {
    entries: Vec<(String, ToolCallRef)>,
}

/// What a row of calls holds by call ID.
pub open spec fn calls_view(entries: Seq<(String, ToolCallRef)>) -> Map<Seq<char>, ToolCallView>
    decreases entries.len(),
{
    if entries.len() == 0 {
        Map::empty()
    } else {
        calls_view(entries.drop_last()).insert(entries.last().0@, entries.last().1@)
    }
}

/// A row of calls without repeated call IDs holds one call per entry.
proof fn lemma_calls_view(entries: Seq<(String, ToolCallRef)>)
    requires
        forall|i: int, j: int| 0 <= i < j < entries.len() ==> entries[i].0@ != entries[j].0@,
    ensures
        calls_view(entries).dom().finite(),
        calls_view(entries).dom().len() == entries.len(),
        forall|i: int|
            0 <= i < entries.len() ==> calls_view(entries).contains_key(#[trigger] entries[i].0@)
                && calls_view(entries)[entries[i].0@] == entries[i].1@,
        forall|key: Seq<char>| #[trigger]
            calls_view(entries).contains_key(key) ==> exists|i: int|
                0 <= i < entries.len() && #[trigger] entries[i].0@ == key,
    decreases entries.len(),
{
    if entries.len() > 0 {
        let rest = entries.drop_last();
        lemma_calls_view(rest);
        assert(!calls_view(rest).contains_key(entries.last().0@)) by {
            if calls_view(rest).contains_key(entries.last().0@) {
                let i = choose|i: int| 0 <= i < rest.len() && #[trigger] rest[i].0@ == entries.last().0@;
                assert(entries[i].0@ == rest[i].0@);
            }
        }
        assert forall|i: int| 0 <= i < entries.len() implies calls_view(entries).contains_key(
            #[trigger] entries[i].0@,
        ) && calls_view(entries)[entries[i].0@] == entries[i].1@ by {
            if i < rest.len() {
                assert(entries[i] == rest[i]);
            }
        }
        assert forall|key: Seq<char>| #[trigger] calls_view(entries).contains_key(key) implies exists|i: int|
            0 <= i < entries.len() && #[trigger] entries[i].0@ == key by {
            if calls_view(rest).contains_key(key) {
                let i = choose|i: int| 0 <= i < rest.len() && #[trigger] rest[i].0@ == key;
                assert(entries[i].0@ == key);
            } else {
                assert(entries[entries.len() - 1].0@ == key);
            }
        }
    }
}

/// Replacing one call sets its call ID alone.
proof fn lemma_calls_update(entries: Seq<(String, ToolCallRef)>, index: int, entry: (String, ToolCallRef))
    requires
        0 <= index < entries.len(),
        entry.0@ == entries[index].0@,
        forall|i: int, j: int| 0 <= i < j < entries.len() ==> entries[i].0@ != entries[j].0@,
    ensures
        calls_view(entries.update(index, entry)) == calls_view(entries).insert(entry.0@, entry.1@),
    decreases entries.len(),
{
    let updated = entries.update(index, entry);
    if index < entries.len() - 1 {
        lemma_calls_update(entries.drop_last(), index, entry);
        assert(updated.drop_last() =~= entries.drop_last().update(index, entry));
        assert(calls_view(updated) =~= calls_view(entries).insert(entry.0@, entry.1@));
    } else {
        assert(updated.drop_last() =~= entries.drop_last());
        assert(calls_view(updated) =~= calls_view(entries).insert(entry.0@, entry.1@));
    }
}

impl View for ToolCalls {
    type V = Map<Seq<char>, ToolCallView>;

    closed spec fn view(&self) -> Map<Seq<char>, ToolCallView> {
        calls_view(self.entries@)
    }
}

impl ToolCalls {
    /// No call ID occurs twice.
    pub closed spec fn wf(self) -> bool {
        forall|i: int, j: int|
            0 <= i < j < self.entries@.len() ==> self.entries@[i].0@ != self.entries@[j].0@
    }

    /// No calls yet.
    pub fn new() -> (calls: ToolCalls)
        ensures
            calls.wf(),
            calls@ == Map::<Seq<char>, ToolCallView>::empty(),
    {
        ToolCalls { entries: Vec::new() }
    }

    /// Number of calls.
    pub fn len(&self) -> (count: usize)
        requires
            self.wf(),
        ensures
            self@.dom().finite(),
            count == self@.dom().len(),
    {
        proof {
            lemma_calls_view(self.entries@);
        }
        self.entries.len()
    }

    /// Where the call with the given ID stands.
    fn position(&self, call_id: &str) -> (found: Option<usize>)
        requires
            self.wf(),
        ensures
            match found {
                Some(index) => index < self.entries@.len() && self.entries@[index as int].0@ == call_id@,
                None => !self@.contains_key(call_id@),
            },
    {
        let mut index: usize = 0;
        while index < self.entries.len()
            invariant
                self.wf(),
                index <= self.entries@.len(),
                forall|i: int| 0 <= i < index ==> self.entries@[i].0@ != call_id@,
            decreases self.entries@.len() - index,
        {
            if same_text(self.entries[index].0.as_str(), call_id) {
                return Some(index);
            }
            index = index + 1;
        }
        proof {
            lemma_calls_view(self.entries@);
        }
        None
    }

    /// The call with the given ID.
    pub fn get(&self, call_id: &str) -> (found: Option<&ToolCallRef>)
        requires
            self.wf(),
        ensures
            match found {
                Some(call) => self@.contains_key(call_id@) && self@[call_id@] == call@,
                None => !self@.contains_key(call_id@),
            },
    {
        match self.position(call_id) {
            Some(index) => {
                proof {
                    lemma_calls_view(self.entries@);
                }
                Some(&self.entries[index].1)
            },
            None => None,
        }
    }

    /// Sets the call with the given ID.
    pub fn insert(&mut self, call_id: &str, call: ToolCallRef)
        requires
            old(self).wf(),
        ensures
            final(self).wf(),
            final(self)@ == old(self)@.insert(call_id@, call@),
    {
        let entry = (call_id.to_owned(), call);
        match self.position(call_id) {
            Some(index) => {
                proof {
                    lemma_calls_update(self.entries@, index as int, entry);
                }
                self.entries[index] = entry;
            },
            None => {
                proof {
                    lemma_calls_view(self.entries@);
                    assert(self.entries@.push(entry).drop_last() =~= self.entries@);
                }
                self.entries.push(entry);
            },
        }
    }
}

/// The calls after one more was met; a scan that knows too many keeps what it has.
pub open spec fn remembered(
    calls: Map<Seq<char>, ToolCallView>,
    call_id: Seq<char>,
    namespace: Option<Seq<char>>,
    name: Seq<char>,
) -> Map<Seq<char>, ToolCallView> {
    if calls.dom().len() < MAX_HISTORY_TOOL_CALLS {
        calls.insert(call_id, ToolCallView { namespace, name: Some(name) })
    } else {
        calls
    }
}

/// Remembers the tool that a call went to, so that its output can be named.
pub fn remember_call(tool_calls: &mut ToolCalls, call_id: &str, namespace: &Option<String>, name: &str)
    requires
        old(tool_calls).wf(),
    ensures
        final(tool_calls).wf(),
        final(tool_calls)@ == remembered(old(tool_calls)@, call_id@, opt_view(*namespace), name@),
{
    if tool_calls.len() < MAX_HISTORY_TOOL_CALLS {
        let call = ToolCallRef { namespace: copy_opt(namespace), name: Some(name.to_owned()) };
        tool_calls.insert(call_id, call);
    }
}

/// One recorded item as the history tools show it.
#[derive(Debug)]
pub struct ProjectedItem {
    pub role: String,
    pub kind: String,
    pub tool_namespace: Option<String>,
    pub tool_name: Option<String>,
    pub call_id: Option<String>,
    pub content: Option<String>,
    pub agent_message_encrypted_parts: Vec<String>,
    pub content_truncated: bool,
    pub opaque: bool,
    pub unavailable_reason: Option<String>,
}

/// What a `ProjectedItem` holds.
#[verifier::ext_equal]
pub struct ProjectedView {
    pub role: Seq<char>,
    pub kind: Seq<char>,
    pub tool_namespace: Option<Seq<char>>,
    pub tool_name: Option<Seq<char>>,
    pub call_id: Option<Seq<char>>,
    pub content: Option<Seq<char>>,
    pub agent_message_encrypted_parts: Seq<Seq<char>>,
    pub content_truncated: bool,
    pub opaque: bool,
    pub unavailable_reason: Option<Seq<char>>,
}

impl View for ProjectedItem {
    type V = ProjectedView;

    open spec fn view(&self) -> ProjectedView {
        ProjectedView {
            role: self.role@,
            kind: self.kind@,
            tool_namespace: opt_view(self.tool_namespace),
            tool_name: opt_view(self.tool_name),
            call_id: opt_view(self.call_id),
            content: opt_view(self.content),
            agent_message_encrypted_parts: texts_view(self.agent_message_encrypted_parts@),
            content_truncated: self.content_truncated,
            opaque: self.opaque,
            unavailable_reason: opt_view(self.unavailable_reason),
        }
    }
}

impl ProjectedView {
    /// A readable item.
    pub open spec fn readable(role: Seq<char>, kind: Seq<char>, content: Seq<char>) -> ProjectedView {
        ProjectedView {
            role,
            kind,
            tool_namespace: None,
            tool_name: None,
            call_id: None,
            content: Some(content),
            agent_message_encrypted_parts: Seq::empty(),
            content_truncated: false,
            opaque: false,
            unavailable_reason: None,
        }
    }

    /// An item without readable text.
    pub open spec fn unreadable(role: Seq<char>, kind: Seq<char>, reason: Seq<char>) -> ProjectedView {
        ProjectedView {
            role,
            kind,
            tool_namespace: None,
            tool_name: None,
            call_id: None,
            content: None,
            agent_message_encrypted_parts: Seq::empty(),
            content_truncated: false,
            opaque: true,
            unavailable_reason: Some(reason),
        }
    }

    /// The item with the tool that it belongs to.
    pub open spec fn of_tool(
        self,
        namespace: Option<Seq<char>>,
        name: Option<Seq<char>>,
        call_id: Option<Seq<char>>,
    ) -> ProjectedView {
        ProjectedView { tool_namespace: namespace, tool_name: name, call_id, ..self }
    }

    /// The readable item with parts that are not shown.
    pub open spec fn partly_opaque(self, reason: Seq<char>) -> ProjectedView {
        ProjectedView { opaque: true, unavailable_reason: Some(reason), ..self }
    }
}

impl ProjectedItem {
    /// A readable item.
    pub fn text(role: &str, kind: &str, content: &str) -> (item: ProjectedItem)
        ensures
            item@ == ProjectedView::readable(role@, kind@, content@),
    {
        let parts: Vec<String> = Vec::new();
        assert(texts_view(parts@) =~= Seq::empty());
        ProjectedItem {
            role: role.to_owned(),
            kind: kind.to_owned(),
            tool_namespace: None,
            tool_name: None,
            call_id: None,
            content: Some(content.to_owned()),
            agent_message_encrypted_parts: parts,
            content_truncated: false,
            opaque: false,
            unavailable_reason: None,
        }
    }

    /// An item without readable text.
    pub fn opaque(role: &str, kind: &str, reason: &str) -> (item: ProjectedItem)
        ensures
            item@ == ProjectedView::unreadable(role@, kind@, reason@),
    {
        let parts: Vec<String> = Vec::new();
        assert(texts_view(parts@) =~= Seq::empty());
        ProjectedItem {
            role: role.to_owned(),
            kind: kind.to_owned(),
            tool_namespace: None,
            tool_name: None,
            call_id: None,
            content: None,
            agent_message_encrypted_parts: parts,
            content_truncated: false,
            opaque: true,
            unavailable_reason: Some(reason.to_owned()),
        }
    }

    /// The item with the tool that it belongs to.
    pub fn with_tool(self, namespace: Option<String>, name: Option<String>, call_id: Option<String>) -> (item:
        ProjectedItem)
        ensures
            item@ == self@.of_tool(opt_view(namespace), opt_view(name), opt_view(call_id)),
    {
        ProjectedItem { tool_namespace: namespace, tool_name: name, call_id, ..self }
    }

    /// The readable item with parts that are not shown.
    pub fn with_opaque_parts(self, reason: &str) -> (item: ProjectedItem)
        ensures
            item@ == self@.partly_opaque(reason@),
    {
        ProjectedItem { opaque: true, unavailable_reason: Some(reason.to_owned()), ..self }
    }
}

/// The texts among the parts of a message.
pub open spec fn message_texts(content: Seq<ContentItem>) -> Seq<Seq<char>>
    decreases content.len(),
{
    if content.len() == 0 {
        Seq::empty()
    } else {
        match content.last() {
            ContentItem::InputText { text } => message_texts(content.drop_last()).push(text@),
            ContentItem::OutputText { text } => message_texts(content.drop_last()).push(text@),
            _ => message_texts(content.drop_last()),
        }
    }
}

/// Some part of a message is no text.
pub open spec fn message_has_opaque(content: Seq<ContentItem>) -> bool {
    exists|i: int|
        0 <= i < content.len() && (#[trigger] content[i] is InputImage || content[i] is InputAudio)
}

/// The texts among the parts of an agent message.
pub open spec fn agent_texts(content: Seq<AgentMessageInputContent>) -> Seq<Seq<char>>
    decreases content.len(),
{
    if content.len() == 0 {
        Seq::empty()
    } else {
        match content.last() {
            AgentMessageInputContent::InputText { text } => agent_texts(content.drop_last()).push(text@),
            AgentMessageInputContent::EncryptedContent { .. } => agent_texts(content.drop_last()),
        }
    }
}

/// The encrypted parts of an agent message.
pub open spec fn agent_secrets(content: Seq<AgentMessageInputContent>) -> Seq<Seq<char>>
    decreases content.len(),
{
    if content.len() == 0 {
        Seq::empty()
    } else {
        match content.last() {
            AgentMessageInputContent::InputText { .. } => agent_secrets(content.drop_last()),
            AgentMessageInputContent::EncryptedContent { encrypted_content } => agent_secrets(
                content.drop_last(),
            ).push(encrypted_content@),
        }
    }
}

/// The texts among the parts of a tool's output.
pub open spec fn output_texts(items: Seq<FunctionCallOutputContentItem>) -> Seq<Seq<char>>
    decreases items.len(),
{
    if items.len() == 0 {
        Seq::empty()
    } else {
        match items.last() {
            FunctionCallOutputContentItem::InputText { text } => output_texts(items.drop_last()).push(text@),
            _ => output_texts(items.drop_last()),
        }
    }
}

/// Some part of a tool's output is no text.
pub open spec fn output_has_opaque(items: Seq<FunctionCallOutputContentItem>) -> bool {
    exists|i: int| 0 <= i < items.len() && !(#[trigger] items[i] is InputText)
}

/// A text that is joined from parts: readable unless blank, partly opaque where other parts stand
/// beside it.
pub open spec fn joined_item(
    role: Seq<char>,
    kind: Seq<char>,
    text: Seq<char>,
    has_opaque_parts: bool,
    blank_reason: Seq<char>,
    mixed_reason: Seq<char>,
) -> ProjectedView {
    if blank(text) {
        ProjectedView::unreadable(role, kind, blank_reason)
    } else if has_opaque_parts {
        ProjectedView::readable(role, kind, text).partly_opaque(mixed_reason)
    } else {
        ProjectedView::readable(role, kind, text)
    }
}

/// The first of two optional texts that is there.
pub open spec fn or_else(first: Option<Seq<char>>, second: Option<Seq<char>>) -> Option<Seq<char>> {
    match first {
        Some(text) => Some(text),
        None => second,
    }
}

/// The projection of a tool's output without the tool's name.
pub open spec fn output_item(kind: Seq<char>, output: FunctionCallOutputBody) -> ProjectedView {
    match output {
        FunctionCallOutputBody::Text(text) => ProjectedView::readable("tool"@, kind, text@),
        FunctionCallOutputBody::ContentItems(items) => joined_item(
            "tool"@,
            kind,
            joined(output_texts(items@), "\n"@),
            output_has_opaque(items@),
            "encrypted_or_non_text_output"@,
            "mixed_text_and_non_text_output"@,
        ),
    }
}

/// The call that an output belongs to, as far as it is known.
pub open spec fn known_call(
    calls: Map<Seq<char>, ToolCallView>,
    call_id: Option<Seq<char>>,
) -> ToolCallView {
    match call_id {
        Some(id) => if calls.contains_key(id) {
            calls[id]
        } else {
            ToolCallView { namespace: None, name: None }
        },
        None => ToolCallView { namespace: None, name: None },
    }
}

/// The projection of a tool's output: its own names count before those of the call.
pub open spec fn tool_output_item(
    kind: Seq<char>,
    call_id: Option<Seq<char>>,
    name: Option<Seq<char>>,
    namespace: Option<Seq<char>>,
    output: FunctionCallOutputBody,
    calls: Map<Seq<char>, ToolCallView>,
) -> ProjectedView {
    output_item(kind, output).of_tool(
        or_else(namespace, known_call(calls, call_id).namespace),
        or_else(name, known_call(calls, call_id).name),
        call_id,
    )
}

/// The calls that are known once an item was met.
pub open spec fn calls_after(
    item: ResponseItem,
    calls: Map<Seq<char>, ToolCallView>,
) -> Map<Seq<char>, ToolCallView> {
    match item {
        ResponseItem::FunctionCall { name, namespace, call_id, .. } => remembered(
            calls,
            call_id@,
            opt_view(namespace),
            name@,
        ),
        ResponseItem::CustomToolCall { call_id, name, namespace, .. } => remembered(
            calls,
            call_id@,
            opt_view(namespace),
            name@,
        ),
        _ => calls,
    }
}

/// The projection of an item of the conversation, given the calls that came before it.
pub open spec fn projected_response(
    item: ResponseItem,
    calls: Map<Seq<char>, ToolCallView>,
) -> ProjectedView {
    match item {
        ResponseItem::Message { role, content } => joined_item(
            role@,
            "message"@,
            joined(message_texts(content@), "\n"@),
            message_has_opaque(content@),
            "non_text_content"@,
            "mixed_text_and_non_text_content"@,
        ),
        ResponseItem::AgentMessage { content } => ProjectedView {
            agent_message_encrypted_parts: agent_secrets(content@),
            ..joined_item(
                "assistant"@,
                "agent_message"@,
                joined(agent_texts(content@), "\n"@),
                agent_secrets(content@).len() > 0,
                "encrypted_or_non_text"@,
                "mixed_text_and_encrypted_content"@,
            )
        },
        ResponseItem::FunctionCall { name, namespace, arguments, has_encrypted_arguments, call_id } => (
        if has_encrypted_arguments {
            ProjectedView::unreadable("tool"@, "function_call"@, "encrypted_arguments"@)
        } else {
            ProjectedView::readable("tool"@, "function_call"@, arguments@)
        }).of_tool(opt_view(namespace), Some(name@), Some(call_id@)),
        ResponseItem::FunctionCallOutput { call_id, name, namespace, output } => tool_output_item(
            "function_call_output"@,
            opt_view(call_id),
            opt_view(name),
            opt_view(namespace),
            output,
            calls,
        ),
        ResponseItem::CustomToolCall { call_id, name, namespace, input } => ProjectedView::readable(
            "tool"@,
            "custom_tool_call"@,
            input@,
        ).of_tool(opt_view(namespace), Some(name@), Some(call_id@)),
        ResponseItem::CustomToolCallOutput { call_id, name, output } => tool_output_item(
            "custom_tool_call_output"@,
            Some(call_id@),
            opt_view(name),
            None,
            output,
            calls,
        ),
        ResponseItem::LocalShellCall { call_id, command } => ProjectedView::readable(
            "tool"@,
            "local_shell_call"@,
            joined(texts_view(command@), " "@),
        ).of_tool(None, Some("local_shell"@), opt_view(call_id)),
        ResponseItem::ToolSearchCall { call_id, arguments } => ProjectedView::readable(
            "tool"@,
            "tool_search_call"@,
            json_text(arguments@),
        ).of_tool(None, Some("tool_search"@), opt_view(call_id)),
        ResponseItem::ToolSearchOutput { call_id } => ProjectedView::unreadable(
            "tool"@,
            "tool_search_output"@,
            "non_text_tool_output"@,
        ).of_tool(None, Some("tool_search"@), opt_view(call_id)),
        ResponseItem::AdditionalTools => ProjectedView::unreadable(
            "system"@,
            "additional_tools"@,
            "non_text_record"@,
        ),
        ResponseItem::Reasoning => ProjectedView::unreadable(
            "assistant"@,
            "reasoning"@,
            "encrypted_or_hidden_reasoning"@,
        ),
        ResponseItem::WebSearchCall => ProjectedView::unreadable(
            "tool"@,
            "web_search_call"@,
            "non_text_tool_call"@,
        ),
        ResponseItem::ImageGenerationCall => ProjectedView::unreadable(
            "tool"@,
            "image_generation_call"@,
            "non_text_tool_output"@,
        ),
        ResponseItem::Compaction => ProjectedView::unreadable(
            "system"@,
            "response_compaction"@,
            "encrypted_compaction"@,
        ),
        ResponseItem::CompactionTrigger => ProjectedView::unreadable(
            "system"@,
            "compaction_trigger"@,
            "control_record"@,
        ),
        ResponseItem::ContextCompaction => ProjectedView::unreadable(
            "system"@,
            "context_compaction"@,
            "encrypted_compaction"@,
        ),
        ResponseItem::Other => ProjectedView::unreadable("system"@, "unknown"@, "unknown_record"@),
    }
}

/// The projection of a record, for the records that show one.
pub open spec fn projected_record(
    item: RolloutItem,
    calls: Map<Seq<char>, ToolCallView>,
) -> Option<ProjectedView> {
    match item {
        RolloutItem::ResponseItem(response) => Some(projected_response(response, calls)),
        RolloutItem::UserMessage { text } => Some(
            if text@.len() == 0 {
                ProjectedView::unreadable("user"@, "user_message"@, "empty_or_non_text"@)
            } else {
                ProjectedView::readable("user"@, "user_message"@, text@)
            },
        ),
        RolloutItem::AgentMessage { message } => Some(
            if blank(message@) {
                ProjectedView::unreadable("assistant"@, "agent_message"@, "empty_or_non_text"@)
            } else {
                ProjectedView::readable("assistant"@, "agent_message"@, message@)
            },
        ),
        RolloutItem::InterAgentCommunication { content, is_encrypted } => Some(
            if is_encrypted {
                ProjectedView::unreadable("assistant"@, "inter_agent_message"@, "encrypted_content"@)
            } else if blank(content@) {
                ProjectedView::unreadable("assistant"@, "inter_agent_message"@, "empty_or_non_text"@)
            } else {
                ProjectedView::readable("assistant"@, "inter_agent_message"@, content@)
            },
        ),
        _ => None,
    }
}

/// The calls that are known once a record was met.
pub open spec fn calls_after_record(
    item: RolloutItem,
    calls: Map<Seq<char>, ToolCallView>,
) -> Map<Seq<char>, ToolCallView> {
    match item {
        RolloutItem::ResponseItem(response) => calls_after(response, calls),
        _ => calls,
    }
}

/// What an optional projection holds.
pub open spec fn opt_item_view(item: Option<ProjectedItem>) -> Option<ProjectedView> {
    match item {
        Some(item) => Some(item@),
        None => None,
    }
}

/// One more text in a row of texts.
proof fn lemma_texts_push(texts: Seq<String>, text: String)
    ensures
        texts_view(texts.push(text)) == texts_view(texts).push(text@),
{
    assert(texts_view(texts.push(text)) =~= texts_view(texts).push(text@));
}

/// The readable text of a message, none where it is blank, and whether other parts stand beside it.
fn content_text(content: &Vec<ContentItem>) -> (found: (Option<String>, bool))
    ensures
        found.1 == message_has_opaque(content@),
        opt_view(found.0) == (if blank(joined(message_texts(content@), "\n"@)) {
            None
        } else {
            Some(joined(message_texts(content@), "\n"@))
        }),
{
    let mut texts: Vec<String> = Vec::new();
    let mut has_opaque_parts = false;
    let mut index: usize = 0;
    assert(texts_view(texts@) =~= message_texts(content@.take(0)));
    while index < content.len()
        invariant
            index <= content@.len(),
            texts_view(texts@) == message_texts(content@.take(index as int)),
            has_opaque_parts == message_has_opaque(content@.take(index as int)),
        decreases content@.len() - index,
    {
        let ghost before = content@.take(index as int);
        let ghost after = content@.take(index + 1);
        proof {
            assert(after.drop_last() =~= before);
            assert(after.last() == content@[index as int]);
            assert forall|i: int| 0 <= i < before.len() implies before[i] == after[i] by {}
        }
        match &content[index] {
            ContentItem::InputText { text } => {
                proof {
                    lemma_texts_push(texts@, *text);
                }
                texts.push(text.clone());
            },
            ContentItem::OutputText { text } => {
                proof {
                    lemma_texts_push(texts@, *text);
                }
                texts.push(text.clone());
            },
            _ => {
                assert(after[index as int] is InputImage || after[index as int] is InputAudio);
                has_opaque_parts = true;
            },
        }
        proof {
            if message_has_opaque(before) {
                let i = choose|i: int|
                    0 <= i < before.len() && (#[trigger] before[i] is InputImage || before[i] is InputAudio);
                assert(after[i] is InputImage || after[i] is InputAudio);
            }
            if message_has_opaque(after) && (content@[index as int] is InputText || content@[index as int]
                is OutputText) {
                let i = choose|i: int|
                    0 <= i < after.len() && (#[trigger] after[i] is InputImage || after[i] is InputAudio);
                assert(before[i] is InputImage || before[i] is InputAudio);
            }
        }
        index = index + 1;
    }
    assert(content@.take(index as int) =~= content@);
    let text = join(&texts, "\n");
    if is_blank(text.as_str()) {
        (None, has_opaque_parts)
    } else {
        (Some(text), has_opaque_parts)
    }
}

/// The projection of an agent message with its encrypted parts.
fn project_agent_message(content: &Vec<AgentMessageInputContent>) -> (item: ProjectedItem)
    ensures
        item@ == projected_response(ResponseItem::AgentMessage { content: *content }, Map::empty()),
{
    let mut texts: Vec<String> = Vec::new();
    let mut secrets: Vec<String> = Vec::new();
    let mut index: usize = 0;
    assert(texts_view(texts@) =~= agent_texts(content@.take(0)));
    assert(texts_view(secrets@) =~= agent_secrets(content@.take(0)));
    while index < content.len()
        invariant
            index <= content@.len(),
            texts_view(texts@) == agent_texts(content@.take(index as int)),
            texts_view(secrets@) == agent_secrets(content@.take(index as int)),
        decreases content@.len() - index,
    {
        assert(content@.take(index + 1).drop_last() =~= content@.take(index as int));
        match &content[index] {
            AgentMessageInputContent::InputText { text } => {
                proof {
                    lemma_texts_push(texts@, *text);
                }
                texts.push(text.clone());
            },
            AgentMessageInputContent::EncryptedContent { encrypted_content } => {
                proof {
                    lemma_texts_push(secrets@, *encrypted_content);
                }
                secrets.push(encrypted_content.clone());
            },
        }
        index = index + 1;
    }
    assert(content@.take(index as int) =~= content@);
    let text = join(&texts, "\n");
    let item = if is_blank(text.as_str()) {
        ProjectedItem::opaque("assistant", "agent_message", "encrypted_or_non_text")
    } else if secrets.len() > 0 {
        ProjectedItem::text("assistant", "agent_message", text.as_str()).with_opaque_parts(
            "mixed_text_and_encrypted_content",
        )
    } else {
        ProjectedItem::text("assistant", "agent_message", text.as_str())
    };
    ProjectedItem { agent_message_encrypted_parts: secrets, ..item }
}

/// The projection of a tool's output without the tool's name.
fn project_output(kind: &str, output: &FunctionCallOutputBody) -> (item: ProjectedItem)
    ensures
        item@ == output_item(kind@, *output),
{
    match output {
        FunctionCallOutputBody::Text(text) => ProjectedItem::text("tool", kind, text.as_str()),
        FunctionCallOutputBody::ContentItems(items) => {
            let mut texts: Vec<String> = Vec::new();
            let mut has_opaque_parts = false;
            let mut index: usize = 0;
            assert(texts_view(texts@) =~= output_texts(items@.take(0)));
            while index < items.len()
                invariant
                    index <= items@.len(),
                    texts_view(texts@) == output_texts(items@.take(index as int)),
                    has_opaque_parts == output_has_opaque(items@.take(index as int)),
                decreases items@.len() - index,
            {
                let ghost before = items@.take(index as int);
                let ghost after = items@.take(index + 1);
                proof {
                    assert(after.drop_last() =~= before);
                    assert(after.last() == items@[index as int]);
                }
                match &items[index] {
                    FunctionCallOutputContentItem::InputText { text } => {
                        proof {
                            lemma_texts_push(texts@, *text);
                        }
                        texts.push(text.clone());
                    },
                    _ => {
                        assert(!(after[index as int] is InputText));
                        has_opaque_parts = true;
                    },
                }
                proof {
                    if output_has_opaque(before) {
                        let i = choose|i: int| 0 <= i < before.len() && !(#[trigger] before[i] is InputText);
                        assert(!(after[i] is InputText));
                    }
                    if output_has_opaque(after) && items@[index as int] is InputText {
                        let i = choose|i: int| 0 <= i < after.len() && !(#[trigger] after[i] is InputText);
                        assert(!(before[i] is InputText));
                    }
                }
                index = index + 1;
            }
            assert(items@.take(index as int) =~= items@);
            let text = join(&texts, "\n");
            if is_blank(text.as_str()) {
                ProjectedItem::opaque("tool", kind, "encrypted_or_non_text_output")
            } else if has_opaque_parts {
                ProjectedItem::text("tool", kind, text.as_str()).with_opaque_parts(
                    "mixed_text_and_non_text_output",
                )
            } else {
                ProjectedItem::text("tool", kind, text.as_str())
            }
        },
    }
}

/// The projection of a tool's output: its own names count before those of the call.
pub fn project_tool_output(
    kind: &str,
    call_id: Option<String>,
    explicit_name: Option<String>,
    explicit_namespace: Option<String>,
    output: &FunctionCallOutputBody,
    tool_calls: &ToolCalls,
) -> (item: ProjectedItem)
    requires
        tool_calls.wf(),
    ensures
        item@ == tool_output_item(
            kind@,
            opt_view(call_id),
            opt_view(explicit_name),
            opt_view(explicit_namespace),
            *output,
            tool_calls@,
        ),
{
    let known = match &call_id {
        Some(id) => tool_calls.get(id.as_str()),
        None => None,
    };
    let name = match explicit_name {
        Some(name) => Some(name),
        None => match known {
            Some(call) => copy_opt(&call.name),
            None => None,
        },
    };
    let namespace = match explicit_namespace {
        Some(namespace) => Some(namespace),
        None => match known {
            Some(call) => copy_opt(&call.namespace),
            None => None,
        },
    };
    project_output(kind, output).with_tool(namespace, name, call_id)
}

/// The projection of an item of the conversation. Tool calls are remembered, so that their outputs
/// can be named.
pub fn project_response_item(item: &ResponseItem, tool_calls: &mut ToolCalls) -> (projection: ProjectedItem)
    requires
        old(tool_calls).wf(),
    ensures
        final(tool_calls).wf(),
        final(tool_calls)@ == calls_after(*item, old(tool_calls)@),
        projection@ == projected_response(*item, old(tool_calls)@),
{
    match item {
        ResponseItem::Message { role, content } => {
            let (text, has_opaque_parts) = content_text(content);
            match text {
                Some(text) => {
                    let projection = ProjectedItem::text(role.as_str(), "message", text.as_str());
                    if has_opaque_parts {
                        projection.with_opaque_parts("mixed_text_and_non_text_content")
                    } else {
                        projection
                    }
                },
                None => ProjectedItem::opaque(role.as_str(), "message", "non_text_content"),
            }
        },
        ResponseItem::AgentMessage { content } => project_agent_message(content),
        ResponseItem::FunctionCall { name, namespace, arguments, has_encrypted_arguments, call_id } => {
            remember_call(tool_calls, call_id.as_str(), namespace, name.as_str());
            let projection = if *has_encrypted_arguments {
                ProjectedItem::opaque("tool", "function_call", "encrypted_arguments")
            } else {
                ProjectedItem::text("tool", "function_call", arguments.as_str())
            };
            projection.with_tool(copy_opt(namespace), Some(name.clone()), Some(call_id.clone()))
        },
        ResponseItem::FunctionCallOutput { call_id, name, namespace, output } => project_tool_output(
            "function_call_output",
            copy_opt(call_id),
            copy_opt(name),
            copy_opt(namespace),
            output,
            tool_calls,
        ),
        ResponseItem::CustomToolCall { call_id, name, namespace, input } => {
            remember_call(tool_calls, call_id.as_str(), namespace, name.as_str());
            ProjectedItem::text("tool", "custom_tool_call", input.as_str()).with_tool(
                copy_opt(namespace),
                Some(name.clone()),
                Some(call_id.clone()),
            )
        },
        ResponseItem::CustomToolCallOutput { call_id, name, output } => project_tool_output(
            "custom_tool_call_output",
            Some(call_id.clone()),
            copy_opt(name),
            None,
            output,
            tool_calls,
        ),
        ResponseItem::LocalShellCall { call_id, command } => {
            let text = join(command, " ");
            ProjectedItem::text("tool", "local_shell_call", text.as_str()).with_tool(
                None,
                Some("local_shell".to_owned()),
                copy_opt(call_id),
            )
        },
        ResponseItem::ToolSearchCall { call_id, arguments } => {
            let text = arguments.to_text();
            ProjectedItem::text("tool", "tool_search_call", text.as_str()).with_tool(
                None,
                Some("tool_search".to_owned()),
                copy_opt(call_id),
            )
        },
        ResponseItem::ToolSearchOutput { call_id } => ProjectedItem::opaque(
            "tool",
            "tool_search_output",
            "non_text_tool_output",
        ).with_tool(None, Some("tool_search".to_owned()), copy_opt(call_id)),
        ResponseItem::AdditionalTools => ProjectedItem::opaque(
            "system",
            "additional_tools",
            "non_text_record",
        ),
        ResponseItem::Reasoning => ProjectedItem::opaque(
            "assistant",
            "reasoning",
            "encrypted_or_hidden_reasoning",
        ),
        ResponseItem::WebSearchCall => ProjectedItem::opaque(
            "tool",
            "web_search_call",
            "non_text_tool_call",
        ),
        ResponseItem::ImageGenerationCall => ProjectedItem::opaque(
            "tool",
            "image_generation_call",
            "non_text_tool_output",
        ),
        ResponseItem::Compaction => ProjectedItem::opaque(
            "system",
            "response_compaction",
            "encrypted_compaction",
        ),
        ResponseItem::CompactionTrigger => ProjectedItem::opaque(
            "system",
            "compaction_trigger",
            "control_record",
        ),
        ResponseItem::ContextCompaction => ProjectedItem::opaque(
            "system",
            "context_compaction",
            "encrypted_compaction",
        ),
        ResponseItem::Other => ProjectedItem::opaque("system", "unknown", "unknown_record"),
    }
}

/// The projection of a message between agents.
pub fn project_inter_agent_message(content: &str, is_encrypted: bool) -> (item: ProjectedItem)
    ensures
        item@ == (if is_encrypted {
            ProjectedView::unreadable("assistant"@, "inter_agent_message"@, "encrypted_content"@)
        } else if blank(content@) {
            ProjectedView::unreadable("assistant"@, "inter_agent_message"@, "empty_or_non_text"@)
        } else {
            ProjectedView::readable("assistant"@, "inter_agent_message"@, content@)
        }),
{
    if is_encrypted {
        return ProjectedItem::opaque("assistant", "inter_agent_message", "encrypted_content");
    }
    if is_blank(content) {
        ProjectedItem::opaque("assistant", "inter_agent_message", "empty_or_non_text")
    } else {
        ProjectedItem::text("assistant", "inter_agent_message", content)
    }
}

/// The projection of a record, for the records that show one.
pub fn project_rollout_item(item: &RolloutItem, tool_calls: &mut ToolCalls) -> (projection: Option<
    ProjectedItem,
>)
    requires
        old(tool_calls).wf(),
    ensures
        final(tool_calls).wf(),
        final(tool_calls)@ == calls_after_record(*item, old(tool_calls)@),
        opt_item_view(projection) == projected_record(*item, old(tool_calls)@),
{
    match item {
        RolloutItem::ResponseItem(response) => Some(project_response_item(response, tool_calls)),
        RolloutItem::UserMessage { text } => {
            if text.as_str().is_empty() {
                Some(ProjectedItem::opaque("user", "user_message", "empty_or_non_text"))
            } else {
                Some(ProjectedItem::text("user", "user_message", text.as_str()))
            }
        },
        RolloutItem::AgentMessage { message } => {
            if is_blank(message.as_str()) {
                Some(ProjectedItem::opaque("assistant", "agent_message", "empty_or_non_text"))
            } else {
                Some(ProjectedItem::text("assistant", "agent_message", message.as_str()))
            }
        },
        RolloutItem::InterAgentCommunication { content, is_encrypted } => Some(
            project_inter_agent_message(content.as_str(), *is_encrypted),
        ),
        _ => None,
    }
}

/// A projection says what it does not show: it is opaque where and only where it gives a reason, and
/// it is opaque wherever it has no text.
pub open spec fn explains_itself(item: ProjectedView) -> bool {
    &&& item.opaque == (item.unavailable_reason is Some)
    &&& item.content is None ==> item.opaque
    &&& !item.content_truncated
}

/// Every projection says what it does not show, and none cuts the text of a record.
pub proof fn law_projection_explains_itself(item: RolloutItem, calls: Map<Seq<char>, ToolCallView>)
    ensures
        projected_record(item, calls) matches Some(projection) ==> explains_itself(projection),
{
}

/// As for records, for the items of a replacement history.
pub proof fn law_response_explains_itself(item: ResponseItem, calls: Map<Seq<char>, ToolCallView>)
    ensures
        explains_itself(projected_response(item, calls)),
{
}

/// Encrypted parts are kept of agent messages alone, in their order.
pub proof fn law_only_agent_messages_keep_secrets(item: ResponseItem, calls: Map<Seq<char>, ToolCallView>)
    ensures
        projected_response(item, calls).agent_message_encrypted_parts == (match item {
            ResponseItem::AgentMessage { content } => agent_secrets(content@),
            _ => Seq::empty(),
        }),
{
}

/// A plain text output is kept whole, under the name of the call that it answers.
pub proof fn law_text_output_is_kept_whole(
    call_id: String,
    text: String,
    calls: Map<Seq<char>, ToolCallView>,
)
    requires
        calls.contains_key(call_id@),
    ensures
        ({
            let item = ResponseItem::FunctionCallOutput {
                call_id: Some(call_id),
                name: None,
                namespace: None,
                output: FunctionCallOutputBody::Text(text),
            };
            &&& projected_response(item, calls).content == Some(text@)
            &&& projected_response(item, calls).tool_name == calls[call_id@].name
            &&& projected_response(item, calls).tool_namespace == calls[call_id@].namespace
        }),
{
}

} // verus!
