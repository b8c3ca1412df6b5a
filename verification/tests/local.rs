use std::collections::BTreeMap;

use history_notes::history::check_scan;
use history_notes::history::LocalHistoryNotesResult;
use history_notes::history::ScanFailure;
use history_notes::json::Json;
use history_notes::limits::MAX_HISTORY_RESULT_BYTES;
use history_notes::limits::MAX_NOTE_CALL_TEXT_BYTES;
use history_notes::local::answer_history;
use history_notes::local::LocalHistoryNotesStore;
use history_notes::local::LocalPlan;
use history_notes::note_storage::NoteError;
use history_notes::notes::append_file;
use history_notes::notes::append_text;
use history_notes::notes::read_file;
use history_notes::notes::write_file;
use history_notes::records::AgentMessageInputContent;
use history_notes::records::CompactedItem;
use history_notes::records::ContentItem;
use history_notes::records::FunctionCallOutputBody;
use history_notes::records::FunctionCallOutputContentItem;
use history_notes::records::ResponseItem;
use history_notes::records::RolloutItem;
use history_notes::records::RolloutLine;
use history_notes::records::SessionMeta;
use history_notes::records::SessionSource;
use history_notes::scanner::ScanResult;
use history_notes::scanner::ScannerState;
use serde_json::Value;

const ID: &str = "thread-1";

/// The tools of a thread, with its records and its notes in memory.
struct Tools {
    store: LocalHistoryNotesStore,
    records: fn(&[Item]) -> Vec<RolloutItem>,
    items: Vec<Item>,
    notes: BTreeMap<String, String>,
}

/// What a record holds, in a form that can be copied.
#[derive(Clone, Debug)]
enum Item {
    Message(&'static str, String),
    Agent(Vec<String>),
    Output(String),
    Reasoning,
    Compacted(u64),
    Forked,
}

fn to_records(items: &[Item]) -> Vec<RolloutItem> {
    items
        .iter()
        .map(|item| match item {
            Item::Message(role, text) => RolloutItem::ResponseItem(ResponseItem::Message {
                role: role.to_string(),
                content: vec![ContentItem::InputText { text: text.clone() }],
            }),
            Item::Agent(parts) => {
                let mut content =
                    vec![AgentMessageInputContent::InputText { text: "synthetic parent metadata".to_string() }];
                content.extend(parts.iter().map(|part| AgentMessageInputContent::EncryptedContent {
                    encrypted_content: part.clone(),
                }));
                RolloutItem::ResponseItem(ResponseItem::AgentMessage { content })
            }
            Item::Output(text) => RolloutItem::ResponseItem(ResponseItem::FunctionCallOutput {
                call_id: Some("call".to_string()),
                name: Some("tool".to_string()),
                namespace: None,
                output: FunctionCallOutputBody::Text(text.clone()),
            }),
            Item::Reasoning => RolloutItem::ResponseItem(ResponseItem::Reasoning),
            Item::Compacted(number) => RolloutItem::Compacted(CompactedItem {
                window_number: Some(*number),
                window_id: Some(format!("window-{number}")),
                replacement_history: None,
            }),
            Item::Forked => RolloutItem::SessionMeta(meta(true)),
        })
        .collect()
}

fn meta(forked: bool) -> SessionMeta {
    SessionMeta {
        id: ID.to_string(),
        history_base_end_ordinal: None,
        forked_from_id: forked.then_some("other".to_string()),
        forked_from_ordinal_exclusive: None,
        subagent_history_start_ordinal: None,
        context_window_id: Some("synthetic-window".to_string()),
        context_management_backend: None,
        source: SessionSource::Root,
    }
}

fn line(ordinal: u64, item: RolloutItem) -> RolloutLine {
    RolloutLine { timestamp: "2026-09-09T00:00:00Z".to_string(), ordinal: Some(ordinal), item }
}

impl Tools {
    fn new(agent: &str) -> Tools {
        Tools {
            store: LocalHistoryNotesStore::new(ID, agent),
            records: to_records,
            items: Vec::new(),
            notes: BTreeMap::new(),
        }
    }

    fn scan(&self) -> ScanResult {
        let mut state = ScannerState::new(ID, 0);
        let forked = self.items.iter().any(|item| matches!(item, Item::Forked));
        state.on_decoded(Ok(line(0, RolloutItem::SessionMeta(meta(forked)))));
        for (index, item) in (self.records)(&self.items).into_iter().enumerate() {
            if !matches!(item, RolloutItem::SessionMeta(_)) {
                state.on_decoded(Ok(line(index as u64 + 1, item)));
            }
        }
        state.finish().unwrap()
    }

    fn call(&mut self, endpoint: &str, fields: &[(&str, Value)]) -> LocalHistoryNotesResult {
        let arguments = arguments(fields);
        let answer = match self.store.call(endpoint, &arguments).unwrap() {
            LocalPlan::Answer(answer) => answer,
            LocalPlan::History(request) => return answer_history(&request, Ok(self.scan())),
            LocalPlan::WriteFile(request) => {
                self.notes.insert(request.path.clone(), request.text.clone());
                write_file(&request, Ok(()))
            }
            LocalPlan::AppendFile(request) => {
                let existing = Ok(self.notes.get(&request.path).cloned());
                match append_text(&request, existing) {
                    Ok(combined) => {
                        self.notes.insert(request.path.clone(), combined.clone());
                        append_file(&request, &combined, Ok(()))
                    }
                    Err(answer) => answer,
                }
            }
            LocalPlan::ReadFile(path) => {
                let contents = self.notes.get(&path).cloned().ok_or(NoteError::NotFound);
                read_file(&arguments, &path, contents)
            }
            LocalPlan::ListFiles(_) | LocalPlan::SearchNotes(_) => panic!("not used here"),
        };
        LocalHistoryNotesResult::Json(answer)
    }
}

fn arguments(fields: &[(&str, Value)]) -> Json {
    Json::Object(fields.iter().map(|(name, value)| (name.to_string(), Json::from_value(value))).collect())
}

fn text(value: &str) -> Value {
    Value::String(value.to_string())
}

fn parsed(value: &str) -> Value {
    serde_json::from_str(value).unwrap()
}

fn json_result(result: LocalHistoryNotesResult) -> Value {
    match result {
        LocalHistoryNotesResult::Json(value) => value.to_value(),
        LocalHistoryNotesResult::AgentMessageReplay(_) => panic!("expected JSON"),
    }
}

#[test]
fn rejects_foreign_agent_before_reading_or_writing() {
    let mut tools = Tools::new("/root");
    let result = tools.call(
        "alpha/notes/v2/write_file",
        &[("agent_name", text("/root/other")), ("path", text("secret.md")), ("text", text("foreign"))],
    );
    assert_eq!(
        json_result(result),
        parsed(
            "{\"status\": \"unavailable\", \"reason\": \"cross_thread_history_is_not_available\",\
             \"scope\": {\"thread_id\": \"thread-1\", \"agent_name\": \"/root\"}}"
        )
    );
    assert!(tools.notes.is_empty());
    for own in [Value::Null, text("/root")] {
        let written = tools.call(
            "alpha/notes/v2/write_file",
            &[("agent_name", own), ("path", text("own.md")), ("text", text("x"))],
        );
        assert_eq!(json_result(written)["status"], "ok");
    }
}

#[test]
fn limits_each_plaintext_mutation_but_allows_larger_aggregate_notes() {
    let mut tools = Tools::new("/root");
    let chunk = "x".repeat(MAX_NOTE_CALL_TEXT_BYTES);
    for endpoint in ["alpha/notes/v2/write_file", "alpha/notes/v2/append_to_file"] {
        let result = tools.call(endpoint, &[("path", text("progress.md")), ("text", text(&chunk))]);
        assert_eq!(json_result(result)["status"], "ok");
    }
    let before = json_result(tools.call("alpha/notes/v2/read_file", &[("path", text("progress.md"))]));
    assert_eq!(before["text"].as_str().unwrap().len(), 2 * MAX_NOTE_CALL_TEXT_BYTES);
    for endpoint in ["alpha/notes/v2/write_file", "alpha/notes/v2/append_to_file"] {
        for long in ["x".repeat(MAX_NOTE_CALL_TEXT_BYTES + 1), "\u{1}".repeat(700)] {
            let rejected = tools.call(endpoint, &[("path", text("progress.md")), ("text", text(&long))]);
            assert_eq!(json_result(rejected)["status"], "invalid_argument");
        }
    }
    let after = json_result(tools.call("alpha/notes/v2/read_file", &[("path", text("progress.md"))]));
    assert_eq!(after, before);
}

#[test]
fn fresh_child_replays_only_exact_native_agent_messages_with_atomic_bounds() {
    let mut tools = Tools::new("/root/child");
    let fixed = "[{\"encrypted_content\":\"\",\"type\":\"encrypted_content\"}]".len();
    let bound = MAX_HISTORY_RESULT_BYTES;
    let cases = vec![
        (vec!["x".repeat(bound - fixed)], true),
        (vec!["x".repeat(bound - fixed + 1)], false),
        (vec!["ciphertext-first".to_string(), "ciphertext-second".to_string()], true),
        (vec!["\"".repeat(bound / 2)], false),
    ];
    for (encrypted, accepted) in cases {
        tools.items.push(Item::Agent(encrypted.clone()));
        let listed = json_result(tools.call(
            "alpha/history/v2/list_items",
            &[("role", text("assistant")), ("recent_first", Value::Bool(true)), ("limit", Value::from(1))],
        ));
        assert_eq!(listed["status"], "ok");
        let item = &listed["items"][0];
        assert_eq!(item["encrypted_agent_message_replay"], true);
        assert_eq!(item["truncated_content"], "synthetic parent metadata");
        assert!(!listed.to_string().contains(&encrypted[0]));
        let read = [
            ("item_id", item["item_id"].clone()),
            ("window_id", item["window_id"].clone()),
            ("limit_chars", Value::from(1)),
        ];
        let result = tools.call("alpha/history/v2/read_item", &read);
        if accepted {
            let LocalHistoryNotesResult::AgentMessageReplay(parts) = result else {
                panic!("expected the encrypted parts")
            };
            let parts: Vec<String> = parts
                .into_iter()
                .map(|part| match part {
                    FunctionCallOutputContentItem::EncryptedContent { encrypted_content } => encrypted_content,
                    _ => panic!("expected an encrypted part"),
                })
                .collect();
            assert_eq!(parts, encrypted);
        } else {
            assert_eq!(
                json_result(result),
                parsed("{\"status\":\"unavailable\",\"reason\":\"encrypted_item_exceeds_replay_limit\"}")
            );
        }
        for (field, value, expected) in [
            ("offset_chars", Value::from(1), "invalid_argument"),
            ("item_id", text("foreign-item"), "unavailable"),
            ("window_id", text("foreign-window"), "unavailable"),
            ("agent_name", text("/root/sibling"), "unavailable"),
        ] {
            let mut invalid: Vec<(&str, Value)> =
                read.iter().filter(|(name, _)| *name != field).cloned().collect();
            invalid.push((field, value));
            let answer = json_result(tools.call("alpha/history/v2/read_item", &invalid));
            assert_eq!(answer["status"], expected);
        }
    }
    let hidden = json_result(
        tools.call("alpha/history/v2/search_contents", &[("query", text("ciphertext-first"))]),
    );
    assert_eq!(hidden["items"], parsed("[]"));
}

#[test]
fn calls_are_routed() {
    let mut tools = Tools::new("/root");
    let error = tools.store.call("alpha/other", &arguments(&[])).unwrap_err();
    assert_eq!(error, "unsupported local history-notes endpoint: alpha/other");
    for endpoint in ["alpha/notes/v2/list_files_by_prefix", "alpha/notes/v2/search_contents"] {
        let plan = tools.store.call(endpoint, &arguments(&[("query", text("x"))])).unwrap();
        assert!(matches!(plan, LocalPlan::ListFiles(_) | LocalPlan::SearchNotes(_)));
    }
    let missing = json_result(tools.call("alpha/notes/v2/read_file", &[("path", text("none.md"))]));
    assert_eq!(missing["reason"], "not_found");
    let large = tools.call("alpha/history/v2/list_items", &[("padding", text(&"x".repeat(4_000)))]);
    assert_eq!(json_result(large)["reason"], "local call JSON exceeds 4000 UTF-8 bytes");
    assert_eq!(tools.store.notes().thread_id, ID);
}

#[test]
fn windows_are_listed_in_pages() {
    let mut tools = Tools::new("/root");
    for number in 1..4 {
        tools.items.push(Item::Message("user", format!("question {number}")));
        tools.items.push(Item::Compacted(number));
    }
    let first = json_result(tools.call("alpha/history/v2/list_windows", &[("limit", Value::from(3))]));
    assert_eq!(first["windows"].as_array().unwrap().len(), 3);
    assert_eq!(first["next_cursor"], "3");
    assert_eq!(first["truncated"], true);
    assert_eq!(
        first["windows"][0],
        parsed(
            "{\"window_id\":\"thread-1:0\",\"window_number\":0,\"context_window_id\":\"synthetic-window\",\
             \"item_count\":1,\"readable_item_count\":1,\"opaque_item_count\":0}"
        )
    );
    let second = json_result(
        tools.call("alpha/history/v2/list_windows", &[("cursor", text("3")), ("limit", Value::from(3))]),
    );
    assert_eq!(second["windows"].as_array().unwrap().len(), 1);
    assert_eq!(second["windows"][0]["window_id"], "thread-1:3");
    assert_eq!(second["next_cursor"], Value::Null);
    assert_eq!(second["scan_complete"], true);
    let latest = json_result(
        tools.call("alpha/history/v2/list_windows", &[("recent_first", Value::Bool(true))]),
    );
    assert_eq!(latest["windows"][0]["window_id"], "thread-1:3");
    let beyond = json_result(tools.call("alpha/history/v2/list_windows", &[("cursor", text("9"))]));
    assert_eq!(beyond["windows"], parsed("[]"));
    let wrong = json_result(tools.call("alpha/history/v2/list_windows", &[("cursor", text("x"))]));
    assert_eq!(wrong["field"], "cursor");
}

#[test]
fn items_are_filtered_and_cut() {
    let mut tools = Tools::new("/root");
    tools.items.push(Item::Message("user", "a".repeat(2_000)));
    tools.items.push(Item::Output("stderr".to_string()));
    tools.items.push(Item::Reasoning);
    let listed = json_result(tools.call("alpha/history/v2/list_items", &[("role", text("user"))]));
    let item = &listed["items"][0];
    assert_eq!(item["truncated_content"].as_str().unwrap().len(), 768);
    assert_eq!(item["truncated"], true);
    assert_eq!(item["offset_chars"], 0);
    assert_eq!(item["item_id"], "ordinal:1");
    assert_eq!(item["source"], parsed("{\"ordinal\":1,\"physical_record\":0,\"replacement_index\":null}"));
    assert_eq!(item.get("encrypted_agent_message_replay"), None);
    let tool = json_result(tools.call("alpha/history/v2/list_items", &[("tool_name", text("tool"))]));
    assert_eq!(tool["items"].as_array().unwrap().len(), 1);
    assert_eq!(tool["items"][0]["truncated_content"], "stderr");
    let none = json_result(tools.call("alpha/history/v2/list_items", &[("tool_namespace", text("ns"))]));
    assert_eq!(none["items"], parsed("[]"));
    let elsewhere = json_result(tools.call("alpha/history/v2/list_items", &[("window_id", text("thread-1:9"))]));
    assert_eq!(elsewhere["items"], parsed("[]"));
    let opaque = json_result(
        tools.call("alpha/history/v2/list_items", &[("recent_first", Value::Bool(true)), ("limit", Value::from(1))]),
    );
    assert_eq!(opaque["items"][0]["opaque"], true);
    assert_eq!(opaque["items"][0].get("truncated_content"), None);
}

#[test]
fn pages_of_items_tile_within_the_limit() {
    let mut tools = Tools::new("/root");
    for index in 0..30 {
        tools.items.push(Item::Message("user", format!("{index}:{}", "\n".repeat(500))));
    }
    let mut cursor = text("0");
    let mut seen = Vec::new();
    loop {
        let page = json_result(tools.call(
            "alpha/history/v2/list_items",
            &[("cursor", cursor.clone()), ("limit", Value::from(20))],
        ));
        assert!(page.to_string().len() <= MAX_HISTORY_RESULT_BYTES);
        for item in page["items"].as_array().unwrap() {
            seen.push(item["item_id"].as_str().unwrap().to_string());
        }
        cursor = page["next_cursor"].clone();
        if cursor.is_null() {
            break;
        }
    }
    let expected: Vec<String> = (1..31).map(|ordinal| format!("ordinal:{ordinal}")).collect();
    assert_eq!(seen, expected);
}

#[test]
fn an_item_that_is_too_large_is_named() {
    let mut tools = Tools::new("/root");
    tools.items.push(Item::Message("user", "\u{1}".repeat(4_000)));
    let page = json_result(tools.call(
        "alpha/history/v2/list_items",
        &[("max_chars_per_item", Value::from(4_000))],
    ));
    assert_eq!(page["items"], parsed("[]"));
    assert_eq!(page["next_cursor"], Value::Null);
    assert_eq!(page["reason"], "item_exceeds_output_limit; reduce max_chars_per_item");
    assert_eq!(page["truncated"], true);
}

#[test]
fn searches_show_their_match() {
    let mut tools = Tools::new("/root");
    tools.items.push(Item::Message("user", "é".repeat(1_000) + "needle" + &"z".repeat(1_000)));
    tools.items.push(Item::Message("user", "hay".to_string()));
    let found = json_result(tools.call("alpha/history/v2/search_contents", &[("query", text("needle"))]));
    let items = found["items"].as_array().unwrap();
    assert_eq!(items.len(), 1);
    assert_eq!(items[0]["offset_chars"], 872);
    let shown = items[0]["truncated_content"].as_str().unwrap();
    assert_eq!(shown.chars().count(), 768);
    assert!(shown.contains("needle"));
    for (query, reason) in [
        (Value::Null, "must be a string"),
        (text(""), "must be non-empty and at most 1000 characters"),
        (text(&"q".repeat(1_001)), "must be non-empty and at most 1000 characters"),
    ] {
        let refused = json_result(tools.call("alpha/history/v2/search_contents", &[("query", query)]));
        assert_eq!(refused["reason"], reason);
    }
}

#[test]
fn long_items_are_read_in_ranges() {
    let mut tools = Tools::new("/root");
    let original = "原\u{1}x".repeat(9_000);
    tools.items.push(Item::Output(original.clone()));
    tools.items.push(Item::Reasoning);
    let mut offset = 0;
    let mut read = String::new();
    loop {
        let part = json_result(tools.call(
            "alpha/history/v2/read_item",
            &[
                ("item_id", text("ordinal:1")),
                ("window_id", text("thread-1:0")),
                ("offset_chars", Value::from(offset)),
                ("limit_chars", Value::from(20_000)),
            ],
        ));
        assert_eq!(part["status"], "ok");
        assert!(part.to_string().len() <= MAX_HISTORY_RESULT_BYTES);
        read += part["content"].as_str().unwrap();
        offset = part["next_offset_chars"].as_u64().unwrap();
        if part["truncated"] == false {
            break;
        }
    }
    assert_eq!(read, original);

    let opaque = json_result(tools.call(
        "alpha/history/v2/read_item",
        &[("item_id", text("ordinal:2")), ("window_id", text("thread-1:0"))],
    ));
    assert_eq!(opaque["status"], "unavailable");
    assert_eq!(opaque.get("content"), None);
    let missing = json_result(tools.call(
        "alpha/history/v2/read_item",
        &[("item_id", text("ordinal:9")), ("window_id", text("thread-1:0"))],
    ));
    assert_eq!(missing["reason"], "item_not_found_in_scanned_history");
    assert_eq!(missing["scan_complete"], true);
}

#[test]
fn read_arguments_are_checked() {
    let mut tools = Tools::new("/root");
    let item = ("item_id", text("ordinal:1"));
    let window = ("window_id", text("thread-1:0"));
    let mut reason = |fields: &[(&str, Value)]| {
        json_result(tools.call("alpha/history/v2/read_item", fields))["reason"].clone()
    };
    assert_eq!(reason(&[]), "must be a returned item ID");
    assert_eq!(reason(&[item.clone()]), "must be a returned window ID");
    let negative = ("offset_chars", Value::from(-1));
    assert_eq!(reason(&[item.clone(), window.clone(), negative]), "must be a non-negative integer");
    let none = ("limit_chars", Value::from(0));
    assert_eq!(reason(&[item, window, none]), "must be greater than zero");
}

#[test]
fn metadata_that_leave_no_room_are_reported() {
    let mut state = ScannerState::new(ID, 0);
    state.on_decoded(Ok(line(0, RolloutItem::SessionMeta(meta(false)))));
    let message = ResponseItem::Message {
        role: "r".repeat(9_000),
        content: vec![ContentItem::OutputText { text: "x".to_string() }],
    };
    state.on_decoded(Ok(line(1, RolloutItem::ResponseItem(message))));
    let scan = state.finish().unwrap();
    let store = LocalHistoryNotesStore::new(ID, "/root");
    let fields = [("item_id", text("ordinal:1")), ("window_id", text("thread-1:0"))];
    let plan = store.call("alpha/history/v2/read_item", &arguments(&fields)).unwrap();
    let LocalPlan::History(request) = plan else { panic!("expected a scan") };
    let answer = json_result(answer_history(&request, Ok(scan)));
    assert_eq!(
        answer,
        parsed("{\"status\":\"unavailable\",\"reason\":\"item_metadata_exceeds_output_limit\"}")
    );
}

#[test]
fn scans_that_cannot_be_shown_say_why() {
    let reason = |failure| check_scan(Err(failure)).unwrap_err().to_value()["reason"].clone();
    assert_eq!(reason(ScanFailure::UnsupportedThreadStore), "unsupported_thread_store");
    assert_eq!(reason(ScanFailure::ThreadFlushFailed), "thread_flush_failed");
    assert_eq!(reason(ScanFailure::ActiveRolloutUnavailable), "active_rollout_unavailable");
    assert_eq!(reason(ScanFailure::Scan("broken".to_string())), "broken");
    let mut tools = Tools::new("/root");
    tools.items.push(Item::Forked);
    let inherited = json_result(tools.call("alpha/history/v2/list_windows", &[]));
    assert_eq!(
        inherited,
        parsed("{\"status\":\"unavailable\",\"reason\":\"inherited_history_unavailable\"}")
    );
}
