//! What the projection of a record shows, stated over the record itself.

use vstd::prelude::*;

use crate::json::json_text;
use crate::projection::agent_texts;
use crate::projection::calls_after;
use crate::projection::message_texts;
use crate::projection::output_texts;
use crate::projection::projected_record;
use crate::projection::projected_response;
use crate::projection::ProjectedView;
use crate::projection::ToolCallView;
use crate::records::AgentMessageInputContent;
use crate::records::ContentItem;
use crate::records::FunctionCallOutputBody;
use crate::records::FunctionCallOutputContentItem;
use crate::records::ResponseItem;
use crate::records::RolloutItem;
use crate::text::blank;
use crate::text::joined;
use crate::text::law_joined_holds_parts;
use crate::text::law_joining;
use crate::text::occurs;
use crate::text::opt_view;
use crate::text::texts_view;
use crate::text::white_space;

verus! {

/// A call of a function shows exactly its recorded arguments, under its tool and its call ID. Encrypted
/// arguments are not shown, and said to be there.
pub proof fn law_function_call_shows_arguments(
    name: String,
    namespace: Option<String>,
    arguments: String,
    has_encrypted_arguments: bool,
    call_id: String,
    calls: Map<Seq<char>, ToolCallView>,
)
    ensures
        ({
            let shown = projected_response(
                ResponseItem::FunctionCall { name, namespace, arguments, has_encrypted_arguments, call_id },
                calls,
            );
            &&& !has_encrypted_arguments ==> shown.content == Some(arguments@) && !shown.opaque
            &&& has_encrypted_arguments ==> shown.content is None && shown.opaque
            &&& shown.role == "tool"@
            &&& shown.kind == "function_call"@
            &&& shown.tool_name == Some(name@)
            &&& shown.call_id == Some(call_id@)
            &&& match namespace {
                Some(namespace) => shown.tool_namespace == Some(namespace@),
                None => shown.tool_namespace is None,
            }
        }),
{
}

/// A call of a custom tool shows exactly its recorded input, under its tool and its call ID.
pub proof fn law_custom_call_shows_input(
    call_id: String,
    name: String,
    namespace: Option<String>,
    input: String,
    calls: Map<Seq<char>, ToolCallView>,
)
    ensures
        ({
            let shown = projected_response(ResponseItem::CustomToolCall { call_id, name, namespace, input }, calls);
            &&& shown.content == Some(input@)
            &&& !shown.opaque
            &&& shown.role == "tool"@
            &&& shown.kind == "custom_tool_call"@
            &&& shown.tool_name == Some(name@)
            &&& shown.call_id == Some(call_id@)
            &&& match namespace {
                Some(namespace) => shown.tool_namespace == Some(namespace@),
                None => shown.tool_namespace is None,
            }
        }),
{
}

/// A shell call shows its command: every word of it, a space between each two, and nothing else.
pub proof fn law_shell_call_shows_command(
    call_id: Option<String>,
    command: Vec<String>,
    longer: Vec<String>,
    word: String,
    calls: Map<Seq<char>, ToolCallView>,
)
    requires
        longer@ == command@.push(word),
    ensures
        ({
            let shown = projected_response(ResponseItem::LocalShellCall { call_id, command }, calls);
            let further = projected_response(ResponseItem::LocalShellCall { call_id, command: longer }, calls);
            &&& shown.content is Some
            &&& further.content is Some
            &&& command@.len() == 0 ==> shown.content->0.len() == 0 && further.content->0 == word@
            &&& command@.len() > 0 ==> further.content->0 == shown.content->0 + seq![' '] + word@
            &&& !shown.opaque
            &&& shown.role == "tool"@
            &&& shown.tool_name == Some("local_shell"@)
            &&& match call_id {
                Some(call_id) => shown.call_id == Some(call_id@),
                None => shown.call_id is None,
            }
        }),
{
    reveal_strlit(" ");
    assert(" "@ =~= seq![' ']);
    assert(texts_view(longer@) =~= texts_view(command@).push(word@));
    law_joining(texts_view(command@), word@, " "@);
    if command@.len() == 0 {
        assert(texts_view(command@) =~= Seq::empty());
        assert(texts_view(longer@) =~= seq![word@]);
    }
}

/// A search for tools shows the text of its arguments.
pub proof fn law_tool_search_shows_arguments(
    call_id: Option<String>,
    arguments: crate::json::Json,
    calls: Map<Seq<char>, ToolCallView>,
)
    ensures
        projected_response(ResponseItem::ToolSearchCall { call_id, arguments }, calls).content == Some(
            json_text(arguments@),
        ),
        projected_response(ResponseItem::ToolSearchCall { call_id, arguments }, calls).tool_name == Some(
            "tool_search"@,
        ),
        projected_response(ResponseItem::ToolSearchOutput { call_id }, calls).content is None,
        projected_response(ResponseItem::ToolSearchOutput { call_id }, calls).opaque,
{
}

/// A user message shows exactly its text.
pub proof fn law_user_message_shows_text(text: String, calls: Map<Seq<char>, ToolCallView>)
    ensures
        projected_record(RolloutItem::UserMessage { text }, calls) matches Some(shown) && {
            &&& text@.len() > 0 ==> shown.content == Some(text@) && !shown.opaque
            &&& text@.len() == 0 ==> shown.content is None && shown.opaque
            &&& shown.role == "user"@
        },
{
}

/// A message of the agent, and one between agents that is not encrypted, show exactly their text, unless
/// it is nothing but white space.
pub proof fn law_agent_text_is_shown(text: String, calls: Map<Seq<char>, ToolCallView>)
    ensures
        projected_record(RolloutItem::AgentMessage { message: text }, calls) matches Some(shown) && {
            &&& shown.role == "assistant"@
            &&& (exists|i: int| 0 <= i < text@.len() && !white_space(#[trigger] text@[i])) ==> shown.content
                == Some(text@) && !shown.opaque
            &&& (forall|i: int| 0 <= i < text@.len() ==> white_space(#[trigger] text@[i])) ==> shown.content is None
                && shown.opaque
        },
        projected_record(
            RolloutItem::InterAgentCommunication { content: text, is_encrypted: false },
            calls,
        ) matches Some(shown) && {
            &&& shown.role == "assistant"@
            &&& (exists|i: int| 0 <= i < text@.len() && !white_space(#[trigger] text@[i])) ==> shown.content
                == Some(text@) && !shown.opaque
            &&& (forall|i: int| 0 <= i < text@.len() ==> white_space(#[trigger] text@[i])) ==> shown.content is None
                && shown.opaque
        },
        projected_record(
            RolloutItem::InterAgentCommunication { content: text, is_encrypted: true },
            calls,
        ) matches Some(shown) && shown.content is None && shown.opaque,
{
}

/// An item of the conversation shows as a record what it shows in a replacement history; records that only
/// steer the host show nothing.
pub proof fn law_records_that_show(item: ResponseItem, calls: Map<Seq<char>, ToolCallView>)
    ensures
        projected_record(RolloutItem::ResponseItem(item), calls) == Some(projected_response(item, calls)),
        projected_record(RolloutItem::TurnContext, calls) is None,
        projected_record(RolloutItem::WorldState, calls) is None,
        projected_record(RolloutItem::TokenUsageRecord, calls) is None,
        projected_record(RolloutItem::SecurityRiskScore, calls) is None,
        projected_record(RolloutItem::RealtimeItem, calls) is None,
        projected_record(RolloutItem::InterAgentCommunicationMetadata, calls) is None,
        projected_record(RolloutItem::OtherEvent, calls) is None,
{
}

/// Hidden and non-text items show no text and say why.
pub proof fn law_hidden_items_show_nothing(item: ResponseItem, calls: Map<Seq<char>, ToolCallView>)
    requires
        item is Reasoning || item is WebSearchCall || item is ImageGenerationCall || item is Compaction
            || item is CompactionTrigger || item is ContextCompaction || item is AdditionalTools || item is Other
            || item is ToolSearchOutput,
    ensures
        projected_response(item, calls).content is None,
        projected_response(item, calls).opaque,
        projected_response(item, calls).unavailable_reason is Some,
        projected_response(item, calls).agent_message_encrypted_parts.len() == 0,
{
}

/// The text in a part of a message.
pub open spec fn message_part_text(part: ContentItem) -> Option<Seq<char>> {
    match part {
        ContentItem::InputText { text } => Some(text@),
        ContentItem::OutputText { text } => Some(text@),
        ContentItem::InputImage => None,
        ContentItem::InputAudio => None,
    }
}

/// The text in a part of an agent message.
pub open spec fn agent_part_text(part: AgentMessageInputContent) -> Option<Seq<char>> {
    match part {
        AgentMessageInputContent::InputText { text } => Some(text@),
        AgentMessageInputContent::EncryptedContent { .. } => None,
    }
}

/// The text in a part of a tool's output.
pub open spec fn output_part_text(part: FunctionCallOutputContentItem) -> Option<Seq<char>> {
    match part {
        FunctionCallOutputContentItem::InputText { text } => Some(text@),
        FunctionCallOutputContentItem::InputImage { .. } => None,
        FunctionCallOutputContentItem::InputAudio => None,
        FunctionCallOutputContentItem::EncryptedContent { .. } => None,
    }
}

/// `shown` is what is shown of a row of parts, and `further` of the row with one more part: a part that is
/// no text changes no text but makes the item opaque, a text part comes behind the texts before it.
pub open spec fn grows_by(shown: ProjectedView, further: ProjectedView, part: Option<Seq<char>>, first: bool) -> bool {
    &&& further.role == shown.role
    &&& match part {
        None => further.content == shown.content && further.opaque,
        Some(text) => {
            &&& first ==> (further.content == if forall|i: int| 0 <= i < text.len() ==> white_space(#[trigger] text[i]) {
                None
            } else {
                Some(text)
            })
            &&& !first && shown.content is Some ==> further.content == Some(shown.content->0 + seq!['\n'] + text)
            &&& further.content matches Some(whole) ==> occurs(whole, text)
            &&& further.content is None ==> forall|i: int| 0 <= i < text.len() ==> white_space(#[trigger] text[i])
        },
    }
}

/// One more text behind texts.
proof fn lemma_one_more_text(texts: Seq<Seq<char>>, text: Seq<char>)
    ensures
        texts.len() == 0 ==> joined(texts.push(text), "\n"@) == text,
        texts.len() > 0 ==> joined(texts.push(text), "\n"@) == joined(texts, "\n"@) + seq!['\n'] + text,
        occurs(joined(texts.push(text), "\n"@), text),
        blank(joined(texts.push(text), "\n"@)) ==> blank(text),
        blank(joined(texts.push(text), "\n"@)) ==> blank(joined(texts, "\n"@)),
{
    reveal_strlit("\n");
    assert("\n"@ =~= seq!['\n']);
    law_joining(texts, text, "\n"@);
    law_joined_holds_parts(texts.push(text), "\n"@, texts.len() as int);
    let whole = joined(texts.push(text), "\n"@);
    if texts.len() == 0 {
        assert(texts.push(text) =~= seq![text]);
    } else if blank(whole) {
        let before = joined(texts, "\n"@);
        assert forall|i: int| 0 <= i < text.len() implies white_space(#[trigger] text[i]) by {
            assert(whole[before.len() + 1 + i] == text[i]);
        }
        assert forall|i: int| 0 <= i < before.len() implies white_space(#[trigger] before[i]) by {
            assert(whole[i] == before[i]);
        }
    }
    if texts.len() > 0 && !blank(joined(texts, "\n"@)) {
        let before = joined(texts, "\n"@);
        let i = choose|i: int| 0 <= i < before.len() && !white_space(#[trigger] before[i]);
        assert(whole[i] == before[i]);
    }
}

/// A message shows the texts among its parts in their order, a line feed between each two, and is opaque
/// where another part stands among them.
pub proof fn law_message_shows_its_texts(
    role: String,
    content: Vec<ContentItem>,
    part: ContentItem,
    longer: Vec<ContentItem>,
    calls: Map<Seq<char>, ToolCallView>,
)
    requires
        longer@ == content@.push(part),
    ensures
        ({
            let shown = projected_response(ResponseItem::Message { role, content }, calls);
            let further = projected_response(ResponseItem::Message { role, content: longer }, calls);
            &&& shown.role == role@
            &&& content@.len() == 0 ==> shown.content is None
            &&& shown.opaque <==> shown.content is None || exists|i: int|
                0 <= i < content@.len() && message_part_text(#[trigger] content@[i]) is None
            &&& grows_by(
                shown,
                further,
                message_part_text(part),
                forall|i: int| 0 <= i < content@.len() ==> message_part_text(#[trigger] content@[i]) is None,
            )
        }),
{
    assert(longer@.drop_last() =~= content@);
    assert(longer@.last() == part);
    lemma_message_texts(content@);
    if let Some(text) = message_part_text(part) {
        lemma_one_more_text(message_texts(content@), text);
    } else {
        assert(longer@[content@.len() as int] == part);
    }
}

/// A message has texts where and only where a part of it is one.
proof fn lemma_message_texts(content: Seq<ContentItem>)
    ensures
        message_texts(content).len() == 0 <==> forall|i: int|
            0 <= i < content.len() ==> message_part_text(#[trigger] content[i]) is None,
    decreases content.len(),
{
    if content.len() > 0 {
        lemma_message_texts(content.drop_last());
        let last = content.len() - 1;
        assert(content.last() == content[last]);
        assert forall|i: int| 0 <= i < last implies #[trigger] content[i] == content.drop_last()[i] by {}
        if message_part_text(content[last]) is None {
            if message_texts(content).len() == 0 {
                assert forall|i: int| 0 <= i < content.len() implies message_part_text(#[trigger] content[i]) is None by {
                    if i < last {
                        assert(message_part_text(content.drop_last()[i]) is None);
                    }
                }
            } else {
                let i = choose|i: int|
                    0 <= i < content.drop_last().len() && !(message_part_text(
                        #[trigger] content.drop_last()[i],
                    ) is None);
                assert(!(message_part_text(content[i]) is None));
            }
        }
    }
}

/// A message to an agent shows the texts among its parts in their order, keeps its encrypted parts apart,
/// and is opaque where it has such.
pub proof fn law_agent_message_shows_its_texts(
    content: Vec<AgentMessageInputContent>,
    part: AgentMessageInputContent,
    longer: Vec<AgentMessageInputContent>,
    calls: Map<Seq<char>, ToolCallView>,
)
    requires
        longer@ == content@.push(part),
    ensures
        ({
            let shown = projected_response(ResponseItem::AgentMessage { content }, calls);
            let further = projected_response(ResponseItem::AgentMessage { content: longer }, calls);
            &&& shown.role == "assistant"@
            &&& content@.len() == 0 ==> shown.content is None && shown.agent_message_encrypted_parts.len() == 0
            &&& grows_by(
                shown,
                further,
                agent_part_text(part),
                forall|i: int| 0 <= i < content@.len() ==> agent_part_text(#[trigger] content@[i]) is None,
            )
            &&& match part {
                AgentMessageInputContent::EncryptedContent { encrypted_content } =>
                    further.agent_message_encrypted_parts == shown.agent_message_encrypted_parts.push(
                        encrypted_content@,
                    ),
                AgentMessageInputContent::InputText { .. } => further.agent_message_encrypted_parts
                    == shown.agent_message_encrypted_parts,
            }
            &&& shown.opaque <==> shown.content is None || shown.agent_message_encrypted_parts.len() > 0
        }),
{
    assert(longer@.drop_last() =~= content@);
    assert(longer@.last() == part);
    lemma_agent_texts(content@);
    if let Some(text) = agent_part_text(part) {
        lemma_one_more_text(agent_texts(content@), text);
    }
}

/// An agent message has texts where and only where a part of it is one.
proof fn lemma_agent_texts(content: Seq<AgentMessageInputContent>)
    ensures
        agent_texts(content).len() == 0 <==> forall|i: int|
            0 <= i < content.len() ==> agent_part_text(#[trigger] content[i]) is None,
    decreases content.len(),
{
    if content.len() > 0 {
        lemma_agent_texts(content.drop_last());
        let last = content.len() - 1;
        assert(content.last() == content[last]);
        if agent_part_text(content[last]) is None {
            if agent_texts(content).len() == 0 {
                assert forall|i: int| 0 <= i < content.len() implies agent_part_text(#[trigger] content[i]) is None by {
                    if i < last {
                        assert(agent_part_text(content.drop_last()[i]) is None);
                    }
                }
            } else {
                let i = choose|i: int|
                    0 <= i < content.drop_last().len() && !(agent_part_text(
                        #[trigger] content.drop_last()[i],
                    ) is None);
                assert(!(agent_part_text(content[i]) is None));
            }
        }
    }
}

/// What a tool put out is shown whole where it is a text, whatever calls are known, and of an output in
/// parts the texts are shown in their order.
pub proof fn law_tool_output_shows_its_texts(
    call_id: Option<String>,
    name: Option<String>,
    namespace: Option<String>,
    text: String,
    items: Vec<FunctionCallOutputContentItem>,
    part: FunctionCallOutputContentItem,
    longer: Vec<FunctionCallOutputContentItem>,
    calls: Map<Seq<char>, ToolCallView>,
)
    requires
        longer@ == items@.push(part),
    ensures
        ({
            let plain = projected_response(
                ResponseItem::FunctionCallOutput {
                    call_id,
                    name,
                    namespace,
                    output: FunctionCallOutputBody::Text(text),
                },
                calls,
            );
            let shown = projected_response(
                ResponseItem::FunctionCallOutput {
                    call_id,
                    name,
                    namespace,
                    output: FunctionCallOutputBody::ContentItems(items),
                },
                calls,
            );
            let further = projected_response(
                ResponseItem::FunctionCallOutput {
                    call_id,
                    name,
                    namespace,
                    output: FunctionCallOutputBody::ContentItems(longer),
                },
                calls,
            );
            &&& plain.content == Some(text@)
            &&& !plain.opaque
            &&& plain.role == "tool"@
            &&& plain.kind == "function_call_output"@
            &&& shown.role == "tool"@
            &&& shown.kind == "function_call_output"@
            &&& items@.len() == 0 ==> shown.content is None
            &&& grows_by(
                shown,
                further,
                output_part_text(part),
                forall|i: int| 0 <= i < items@.len() ==> output_part_text(#[trigger] items@[i]) is None,
            )
            &&& shown.opaque <==> shown.content is None || exists|i: int|
                0 <= i < items@.len() && output_part_text(#[trigger] items@[i]) is None
        }),
{
    assert(longer@.drop_last() =~= items@);
    assert(longer@.last() == part);
    lemma_output_texts(items@);
    if let Some(text) = output_part_text(part) {
        lemma_one_more_text(output_texts(items@), text);
    } else {
        assert(longer@[items@.len() as int] == part);
    }
}

/// An output has texts where and only where a part of it is one.
proof fn lemma_output_texts(items: Seq<FunctionCallOutputContentItem>)
    ensures
        output_texts(items).len() == 0 <==> forall|i: int|
            0 <= i < items.len() ==> output_part_text(#[trigger] items[i]) is None,
    decreases items.len(),
{
    if items.len() > 0 {
        lemma_output_texts(items.drop_last());
        let last = items.len() - 1;
        assert(items.last() == items[last]);
        if output_part_text(items[last]) is None {
            if output_texts(items).len() == 0 {
                assert forall|i: int| 0 <= i < items.len() implies output_part_text(#[trigger] items[i]) is None by {
                    if i < last {
                        assert(output_part_text(items.drop_last()[i]) is None);
                    }
                }
            } else {
                let i = choose|i: int|
                    0 <= i < items.drop_last().len() && !(output_part_text(#[trigger] items.drop_last()[i]) is None);
                assert(!(output_part_text(items[i]) is None));
            }
        }
    }
}

/// The output of a custom tool shows what the same output of a function shows, under its own kind and call.
pub proof fn law_custom_output_shows_the_same(
    call_id: String,
    name: Option<String>,
    output: FunctionCallOutputBody,
    calls: Map<Seq<char>, ToolCallView>,
)
    ensures
        ({
            let custom = projected_response(ResponseItem::CustomToolCallOutput { call_id, name, output }, calls);
            let function = projected_response(
                ResponseItem::FunctionCallOutput { call_id: Some(call_id), name, namespace: None, output },
                calls,
            );
            &&& custom.content == function.content
            &&& custom.opaque == function.opaque
            &&& custom.role == function.role
            &&& custom.kind == "custom_tool_call_output"@
            &&& custom.tool_name == function.tool_name
            &&& custom.tool_namespace == function.tool_namespace
            &&& custom.call_id == Some(call_id@)
        }),
{
}

/// An output is named after the call that it answers: after a call of either kind an output with its call
/// ID and no name of its own carries the call's tool and namespace, and one with names of its own carries
/// those. An output of an unknown call without names carries none.
pub proof fn law_outputs_are_named_after_calls(
    tool: String,
    namespace: Option<String>,
    arguments: String,
    call_id: String,
    name: Option<String>,
    own_namespace: Option<String>,
    output: FunctionCallOutputBody,
    calls: Map<Seq<char>, ToolCallView>,
)
    requires
        calls.dom().len() < 10_000,
    ensures
        ({
            let function = ResponseItem::FunctionCall {
                name: tool,
                namespace,
                arguments,
                has_encrypted_arguments: false,
                call_id,
            };
            let custom = ResponseItem::CustomToolCall { call_id, name: tool, namespace, input: arguments };
            let answer = ResponseItem::FunctionCallOutput { call_id: Some(call_id), name, namespace: own_namespace, output };
            let after_function = projected_response(answer, calls_after(function, calls));
            let after_custom = projected_response(answer, calls_after(custom, calls));
            let unknown = projected_response(answer, calls.remove(call_id@));
            &&& after_function == after_custom
            &&& after_function.call_id == Some(call_id@)
            &&& after_function.tool_name == Some(
                match name {
                    Some(name) => name@,
                    None => tool@,
                },
            )
            &&& after_function.tool_namespace == (match own_namespace {
                Some(own) => Some(own@),
                None => match namespace {
                    Some(namespace) => Some(namespace@),
                    None => None,
                },
            })
            &&& name is None ==> unknown.tool_name is None
            &&& name matches Some(name) ==> unknown.tool_name == Some(name@)
        }),
{
}

/// Only calls are remembered: no other item changes what outputs are named after, and a call leaves the
/// names of all other calls as they were.
pub proof fn law_only_calls_are_remembered(
    item: ResponseItem,
    calls: Map<Seq<char>, ToolCallView>,
    other: Seq<char>,
)
    ensures
        !(item is FunctionCall) && !(item is CustomToolCall) ==> calls_after(item, calls) == calls,
        (item matches ResponseItem::FunctionCall { call_id, .. } ==> call_id@ != other) && (
        item matches ResponseItem::CustomToolCall { call_id, .. } ==> call_id@ != other) ==> {
            &&& calls_after(item, calls).contains_key(other) == calls.contains_key(other)
            &&& calls.contains_key(other) ==> calls_after(item, calls)[other] == calls[other]
        },
{
}

/// The role and the kind that an item goes by.
pub open spec fn goes_by(shown: ProjectedView, role: Seq<char>, kind: Seq<char>) -> bool {
    shown.role == role && shown.kind == kind
}

/// Why nothing of an item is shown.
pub open spec fn hides_for(shown: ProjectedView, reason: Seq<char>) -> bool {
    shown.content is None && shown.opaque && shown.unavailable_reason == Some(reason)
}

/// Every item of the conversation goes by its own role and kind; one of which nothing or not all is shown
/// says why.
pub proof fn law_items_say_what_they_are(item: ResponseItem, calls: Map<Seq<char>, ToolCallView>)
    ensures
        ({
            let shown = projected_response(item, calls);
            &&& shown.opaque <==> shown.unavailable_reason is Some
            &&& !shown.content_truncated
            &&& !(item is AgentMessage) ==> shown.agent_message_encrypted_parts.len() == 0
            &&& match item {
                ResponseItem::Message { role, .. } => {
                    &&& goes_by(shown, role@, "message"@)
                    &&& shown.content is None ==> hides_for(shown, "non_text_content"@)
                    &&& shown.content is Some && shown.opaque ==> shown.unavailable_reason == Some(
                        "mixed_text_and_non_text_content"@,
                    )
                },
                ResponseItem::AgentMessage { .. } => {
                    &&& goes_by(shown, "assistant"@, "agent_message"@)
                    &&& shown.content is None ==> hides_for(shown, "encrypted_or_non_text"@)
                    &&& shown.content is Some && shown.opaque ==> shown.unavailable_reason == Some(
                        "mixed_text_and_encrypted_content"@,
                    )
                },
                ResponseItem::FunctionCall { .. } => {
                    &&& goes_by(shown, "tool"@, "function_call"@)
                    &&& shown.content is None ==> hides_for(shown, "encrypted_arguments"@)
                },
                ResponseItem::FunctionCallOutput { .. } => {
                    &&& goes_by(shown, "tool"@, "function_call_output"@)
                    &&& shown.content is None ==> hides_for(shown, "encrypted_or_non_text_output"@)
                    &&& shown.content is Some && shown.opaque ==> shown.unavailable_reason == Some(
                        "mixed_text_and_non_text_output"@,
                    )
                },
                ResponseItem::CustomToolCall { .. } => goes_by(shown, "tool"@, "custom_tool_call"@),
                ResponseItem::CustomToolCallOutput { .. } => {
                    &&& goes_by(shown, "tool"@, "custom_tool_call_output"@)
                    &&& shown.content is None ==> hides_for(shown, "encrypted_or_non_text_output"@)
                    &&& shown.content is Some && shown.opaque ==> shown.unavailable_reason == Some(
                        "mixed_text_and_non_text_output"@,
                    )
                },
                ResponseItem::LocalShellCall { .. } => goes_by(shown, "tool"@, "local_shell_call"@),
                ResponseItem::ToolSearchCall { call_id, .. } => goes_by(shown, "tool"@, "tool_search_call"@)
                    && shown.call_id == opt_view(call_id),
                ResponseItem::ToolSearchOutput { call_id } => goes_by(shown, "tool"@, "tool_search_output"@)
                    && hides_for(shown, "non_text_tool_output"@) && shown.call_id == opt_view(call_id)
                    && shown.tool_name == Some("tool_search"@),
                ResponseItem::AdditionalTools => goes_by(shown, "system"@, "additional_tools"@) && hides_for(
                    shown,
                    "non_text_record"@,
                ),
                ResponseItem::Reasoning => goes_by(shown, "assistant"@, "reasoning"@) && hides_for(
                    shown,
                    "encrypted_or_hidden_reasoning"@,
                ),
                ResponseItem::WebSearchCall => goes_by(shown, "tool"@, "web_search_call"@) && hides_for(
                    shown,
                    "non_text_tool_call"@,
                ),
                ResponseItem::ImageGenerationCall => goes_by(shown, "tool"@, "image_generation_call"@) && hides_for(
                    shown,
                    "non_text_tool_output"@,
                ),
                ResponseItem::Compaction => goes_by(shown, "system"@, "response_compaction"@) && hides_for(
                    shown,
                    "encrypted_compaction"@,
                ),
                ResponseItem::CompactionTrigger => goes_by(shown, "system"@, "compaction_trigger"@) && hides_for(
                    shown,
                    "control_record"@,
                ),
                ResponseItem::ContextCompaction => goes_by(shown, "system"@, "context_compaction"@) && hides_for(
                    shown,
                    "encrypted_compaction"@,
                ),
                ResponseItem::Other => goes_by(shown, "system"@, "unknown"@) && hides_for(shown, "unknown_record"@),
            }
            &&& !(item is FunctionCall || item is FunctionCallOutput || item is CustomToolCall
                || item is CustomToolCallOutput || item is LocalShellCall || item is ToolSearchCall
                || item is ToolSearchOutput) ==> shown.tool_name is None && shown.tool_namespace is None
                && shown.call_id is None
        }),
{
}

/// The messages that are recorded beside the conversation go by their own roles and kinds.
pub proof fn law_messages_say_what_they_are(text: String, is_encrypted: bool, calls: Map<Seq<char>, ToolCallView>)
    ensures
        projected_record(RolloutItem::UserMessage { text }, calls) matches Some(shown) && {
            &&& goes_by(shown, "user"@, "user_message"@)
            &&& shown.content is None ==> hides_for(shown, "empty_or_non_text"@)
            &&& shown.call_id is None && shown.tool_name is None
        },
        projected_record(RolloutItem::AgentMessage { message: text }, calls) matches Some(shown) && {
            &&& goes_by(shown, "assistant"@, "agent_message"@)
            &&& shown.content is None ==> hides_for(shown, "empty_or_non_text"@)
            &&& shown.agent_message_encrypted_parts.len() == 0
        },
        projected_record(RolloutItem::InterAgentCommunication { content: text, is_encrypted }, calls) matches Some(shown)
            && {
            &&& goes_by(shown, "assistant"@, "inter_agent_message"@)
            &&& is_encrypted ==> hides_for(shown, "encrypted_content"@)
            &&& !is_encrypted && shown.content is None ==> hides_for(shown, "empty_or_non_text"@)
        },
{
}

/// Of 10,000 calls that are known no other is remembered, and none is forgotten.
pub proof fn law_calls_are_remembered_up_to_a_limit(item: ResponseItem, calls: Map<Seq<char>, ToolCallView>)
    requires
        calls.dom().len() >= 10_000,
    ensures
        calls_after(item, calls) == calls,
{
}

} // verus!
