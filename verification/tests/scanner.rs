use history_notes::limits::MAX_HISTORY_RECORD_BYTES;
use history_notes::limits::MAX_HISTORY_REPLACEMENT_ITEMS;
use history_notes::limits::MAX_HISTORY_SCAN_RECORDS;
use history_notes::limits::MAX_HISTORY_SCAN_WINDOWS;
use history_notes::projection::ProjectedItem;
use history_notes::records::AgentMessageInputContent;
use history_notes::records::CompactedItem;
use history_notes::records::ContentItem;
use history_notes::records::FunctionCallOutputBody;
use history_notes::records::FunctionCallOutputContentItem;
use history_notes::records::ResponseItem;
use history_notes::records::RolloutItem;
use history_notes::records::RolloutLine;
use history_notes::records::SessionMeta;
use history_notes::records::SessionSource;
use history_notes::scanner::lineage_ordinal_floor;
use history_notes::scanner::window_id;
use history_notes::scanner::open_failure;
use history_notes::scanner::ReadOutcome;
use history_notes::scanner::RecordStep;
use history_notes::scanner::ScanResult;
use history_notes::scanner::ScannerState;
use history_notes::scanner::SourceRef;
use serde_json::Value;

const ID: &str = "thread-1";

fn quoted(text: &str) -> String {
    Value::String(text.to_string()).to_string()
}

fn record(ordinal: u64, kind: &str, payload: &str) -> String {
    format!(
        "{{\"timestamp\":\"2026-09-09T00:00:00Z\",\"ordinal\":{ordinal},\"type\":{},\"payload\":{payload}}}\n",
        quoted(kind)
    )
}

fn header(thread_id: &str) -> String {
    record(0, "session_meta", &format!("{{\"id\":{}}}", quoted(thread_id)))
}

fn text_of(value: &Value) -> Option<String> {
    value.as_str().map(str::to_string)
}

fn output_body(value: &Value) -> FunctionCallOutputBody {
    if let Some(text) = value.as_str() {
        return FunctionCallOutputBody::Text(text.to_string());
    }
    let items = value.as_array().cloned().unwrap_or_default();
    FunctionCallOutputBody::ContentItems(
        items
            .iter()
            .map(|item| match item["type"].as_str() {
                Some("encrypted_content") => FunctionCallOutputContentItem::EncryptedContent {
                    encrypted_content: item["encrypted_content"].as_str().unwrap().to_string(),
                },
                _ => FunctionCallOutputContentItem::InputText {
                    text: item["text"].as_str().unwrap_or("").to_string(),
                },
            })
            .collect(),
    )
}

fn response_item(payload: &Value) -> ResponseItem {
    match payload["type"].as_str().unwrap() {
        "message" => ResponseItem::Message {
            role: text_of(&payload["role"]).unwrap(),
            content: payload["content"]
                .as_array()
                .unwrap()
                .iter()
                .map(|part| {
                    let text = part["text"].as_str().unwrap().to_string();
                    if part["type"] == "input_text" {
                        ContentItem::InputText { text }
                    } else {
                        ContentItem::OutputText { text }
                    }
                })
                .collect(),
        },
        "agent_message" => ResponseItem::AgentMessage {
            content: payload["content"]
                .as_array()
                .unwrap()
                .iter()
                .map(|part| {
                    if part["type"] == "input_text" {
                        AgentMessageInputContent::InputText { text: text_of(&part["text"]).unwrap() }
                    } else {
                        AgentMessageInputContent::EncryptedContent {
                            encrypted_content: text_of(&part["encrypted_content"]).unwrap(),
                        }
                    }
                })
                .collect(),
        },
        "function_call" => ResponseItem::FunctionCall {
            name: text_of(&payload["name"]).unwrap(),
            namespace: text_of(&payload["namespace"]),
            arguments: text_of(&payload["arguments"]).unwrap(),
            has_encrypted_arguments: payload.get("encrypted_function_args").is_some(),
            call_id: text_of(&payload["call_id"]).unwrap(),
        },
        "function_call_output" => ResponseItem::FunctionCallOutput {
            call_id: text_of(&payload["call_id"]),
            name: None,
            namespace: None,
            output: output_body(&payload["output"]),
        },
        "reasoning" => ResponseItem::Reasoning,
        "compaction" => ResponseItem::Compaction,
        _ => ResponseItem::Other,
    }
}

fn decode(value: &Value) -> Result<RolloutLine, String> {
    let payload = &value["payload"];
    let item = match value["type"].as_str() {
        Some("session_meta") => RolloutItem::SessionMeta(SessionMeta {
            id: text_of(&payload["id"]).unwrap(),
            history_base_end_ordinal: payload["history_base"]["end_ordinal_exclusive"].as_u64(),
            forked_from_id: text_of(&payload["forked_from_id"]),
            forked_from_ordinal_exclusive: payload["forked_from_ordinal_exclusive"].as_u64(),
            subagent_history_start_ordinal: payload["subagent_history_start_ordinal"].as_u64(),
            context_window_id: text_of(&payload["context_window"]["window_id"]),
            context_management_backend: None,
            source: SessionSource::Root,
        }),
        Some("response_item") => RolloutItem::ResponseItem(response_item(payload)),
        Some("compacted") => RolloutItem::Compacted(CompactedItem {
            window_number: payload["window_number"].as_u64(),
            window_id: text_of(&payload["window_id"]),
            replacement_history: payload["replacement_history"]
                .as_array()
                .map(|items| items.iter().map(response_item).collect()),
        }),
        Some("turn_context") => RolloutItem::TurnContext,
        Some("other_event") => RolloutItem::OtherEvent,
        _ => return Err("unknown record".to_string()),
    };
    Ok(RolloutLine {
        timestamp: text_of(&value["timestamp"]).unwrap_or_default(),
        ordinal: value["ordinal"].as_u64(),
        item,
    })
}

fn scan_prefix(text: &str, snapshot_len: u64, thread_id: &str) -> Result<ScanResult, String> {
    let bytes = text.as_bytes();
    let mut state = ScannerState::new(thread_id, snapshot_len);
    let end = bytes.len().min(state.byte_limit() as usize);
    let mut start = 0;
    while state.may_read() {
        let limit = end.min(start + MAX_HISTORY_RECORD_BYTES as usize + 1);
        let stop = bytes[start..limit]
            .iter()
            .position(|byte| *byte == b'\n')
            .map_or(limit, |at| start + at + 1);
        let line = bytes[start..stop].to_vec();
        start = stop;
        let mut step = state.on_read(ReadOutcome::Bytes(line));
        if let RecordStep::Decode(value) = step {
            step = state.on_decoded(decode(&value));
        }
        match step {
            RecordStep::Next => {}
            RecordStep::Stop => break,
            RecordStep::Fail(reason) => return Err(reason),
            RecordStep::Decode(_) => unreachable!(),
        }
    }
    state.finish()
}

fn scan(text: &str, thread_id: &str) -> Result<ScanResult, String> {
    scan_prefix(text, text.len() as u64, thread_id)
}

#[test]
fn fresh_child_parent_identity_does_not_imply_inherited_history() {
    let own_output = record(
        1,
        "response_item",
        "{\"type\":\"function_call_output\",\"call_id\":\"child-call\",\"output\":\"child-only-error\"}",
    );
    let text = record(0, "session_meta", "{\"id\":\"thread-1\",\"parent_thread_id\":\"parent\"}") + &own_output;
    let result = scan(&text, ID).unwrap();
    assert!(result.info.complete);
    assert!(!result.info.lineage_unavailable);
    assert_eq!(result.entries[0].projection.content.as_deref(), Some("child-only-error"));
    assert!(scan(&text, "another").is_err());

    for field in [
        "\"history_base\":{\"thread_id\":\"other\",\"end_ordinal_exclusive\":7,\"end_byte_offset\":0}",
        "\"forked_from_id\":\"other\"",
        "\"forked_from_ordinal_exclusive\":7",
        "\"subagent_history_start_ordinal\":7",
    ] {
        let meta = format!("{{\"id\":\"thread-1\",\"parent_thread_id\":\"parent\",{field}}}");
        let text = record(0, "session_meta", &meta) + &own_output;
        assert!(scan(&text, ID).unwrap().info.lineage_unavailable);
    }
}

#[test]
fn originals_keep_ordinals_and_windows_across_compaction() {
    let text = header(ID)
        + &record(
            1,
            "response_item",
            "{\"type\":\"message\",\"role\":\"user\",\"content\":[{\"type\":\"input_text\",\"text\":\"原始约束\"}]}",
        )
        + &record(
            2,
            "response_item",
            "{\"type\":\"function_call\",\"name\":\"exec_command\",\"namespace\":\"functions\",\"call_id\":\"call-1\",\"arguments\":\"{}\"}",
        )
        + &record(
            3,
            "response_item",
            "{\"type\":\"function_call_output\",\"call_id\":\"call-1\",\"output\":\"exact stderr: diagnostic-42\"}",
        )
        + &record(
            4,
            "compacted",
            "{\"message\":\"\",\"window_number\":1,\"window_id\":\"window-1\",\"first_window_id\":\"window-0\",\"previous_window_id\":\"window-0\"}",
        )
        + &record(
            5,
            "response_item",
            "{\"type\":\"message\",\"role\":\"assistant\",\"content\":[{\"type\":\"output_text\",\"text\":\"continued\"}]}",
        );
    let result = scan(&text, ID).unwrap();
    assert!(result.info.complete);
    let original = result.entries.iter().find(|entry| entry.item_id == "ordinal:3").unwrap();
    assert_eq!(original.projection.content.as_deref(), Some("exact stderr: diagnostic-42"));
    assert_eq!(original.projection.tool_name.as_deref(), Some("exec_command"));
    assert_eq!(original.window_id, format!("{ID}:0"));
    assert_eq!(result.entries.last().unwrap().window_id, format!("{ID}:1"));
    assert!(scan(&text, "another").is_err());
    assert_eq!(result.windows.len(), 2);
    assert_eq!(result.windows[0].item_count, 3);
    assert_eq!(result.windows[0].readable_item_count, 3);
    assert_eq!(result.windows[1].item_count, 2);
    assert_eq!(result.windows[1].opaque_item_count, 1);
    assert_eq!(result.windows[1].context_window_id.as_deref(), Some("window-1"));
}

#[test]
fn opaque_and_corrupt_records_are_distinct_from_empty_search() {
    let text = header(ID)
        + &record(
            1,
            "response_item",
            "{\"type\":\"function_call_output\",\"call_id\":\"opaque\",\"output\":[{\"type\":\"encrypted_content\",\"encrypted_content\":\"unreadable\"}]}",
        )
        + "malformed completed record\n";
    let result = scan(&text, ID).unwrap();
    assert!(!result.info.complete);
    assert!(result.info.corrupt);
    assert_eq!(result.info.opaque_records, 1);
    assert_eq!(result.entries[0].projection.content, None);
}

#[test]
fn retains_long_original_text_for_ranged_reads() {
    let original = "x".repeat(25_000) + " recoverable-tail";
    let text = header(ID)
        + &record(
            1,
            "response_item",
            &format!(
                "{{\"type\":\"function_call_output\",\"call_id\":\"long-output\",\"output\":{}}}",
                quoted(&original)
            ),
        );
    let result = scan(&text, ID).unwrap();
    assert_eq!(result.entries[0].projection.content.as_deref(), Some(original.as_str()));
}

#[test]
fn unfinished_tail_is_partial_but_not_a_corrupt_completed_record() {
    let result = scan(&(header(ID) + "{\"type\":"), ID).unwrap();
    assert!(!result.info.complete);
    assert!(!result.info.corrupt);
    assert!(result.info.truncated);
}

#[test]
fn oversized_record_stops_with_explicit_incomplete_scan() {
    let large = "x".repeat(MAX_HISTORY_RECORD_BYTES as usize + 1);
    let text = header(ID)
        + &record(
            1,
            "response_item",
            &format!("{{\"type\":\"function_call_output\",\"call_id\":\"oversized\",\"output\":{}}}", quoted(&large)),
        );
    let result = scan(&text, ID).unwrap();
    assert!(!result.info.complete);
    assert!(result.info.truncated);
    assert!(!result.info.corrupt);
    assert!(result.entries.is_empty());
    assert!(!result.info.errors.is_empty());
    assert_eq!(result.info.errors[0], "rollout record exceeds the bounded reader limit");
}

#[test]
fn encrypted_projection_only_replays_native_agent_messages_and_keeps_replacement_identity() {
    let mixed = "{\"type\":\"agent_message\",\"author\":\"/root\",\"recipient\":\"/root/child\",\"content\":[\
        {\"type\":\"input_text\",\"text\":\"parent metadata\"},\
        {\"type\":\"encrypted_content\",\"encrypted_content\":\"native-first\"},\
        {\"type\":\"encrypted_content\",\"encrypted_content\":\"native-second\"}]}";
    let hidden = [
        "{\"type\":\"reasoning\",\"summary\":[],\"encrypted_content\":\"hidden-reasoning\"}",
        "{\"type\":\"function_call\",\"name\":\"opaque\",\"call_id\":\"opaque-call\",\"arguments\":\"{}\",\"encrypted_function_args\":[\"hidden-args\"]}",
        "{\"type\":\"function_call_output\",\"call_id\":\"opaque-call\",\"output\":[{\"type\":\"encrypted_content\",\"encrypted_content\":\"hidden-output\"}]}",
        "{\"type\":\"compaction\",\"encrypted_content\":\"hidden-compaction\"}",
    ];
    let mut text = header(ID) + &record(1, "response_item", mixed);
    for (index, item) in hidden.iter().enumerate() {
        text += &record(index as u64 + 2, "response_item", item);
    }
    text += &record(
        6,
        "compacted",
        &format!("{{\"message\":\"\",\"replacement_history\":[{mixed}],\"window_number\":1}}"),
    );
    let scan = scan(&text, ID).unwrap();
    assert!(scan.info.complete, "{:?}", scan.info.errors);
    let replayable: Vec<_> = scan
        .entries
        .iter()
        .filter(|entry| !entry.projection.agent_message_encrypted_parts.is_empty())
        .collect();
    assert_eq!(replayable.len(), 2);
    for entry in &replayable {
        assert_eq!(entry.projection.agent_message_encrypted_parts, vec!["native-first", "native-second"]);
        assert_eq!(entry.projection.content.as_deref(), Some("parent metadata"));
    }
    assert_eq!(replayable[0].item_id, "ordinal:1");
    assert_eq!(replayable[1].item_id, "ordinal:6:replacement:0");
    assert_eq!(replayable[1].source.replacement_index, Some(0));
    assert_ne!(replayable[0].window_id, replayable[1].window_id);
}

#[test]
fn identity_is_checked_before_anything_else() {
    assert_eq!(scan("", ID).unwrap_err(), "rollout has no session metadata");
    assert_eq!(
        scan(&header("other"), ID).unwrap_err(),
        "rollout identity mismatch: expected thread thread-1, found other"
    );
    assert_eq!(
        scan(&record(0, "turn_context", "{}"), ID).unwrap_err(),
        "rollout does not start with session metadata"
    );
    assert!(scan("nonsense\n", ID).unwrap_err().starts_with("rollout identity record is malformed: "));
    assert_eq!(
        scan(&record(0, "mystery", "{}"), ID).unwrap_err(),
        "rollout identity record is malformed: unknown record"
    );
}

#[test]
fn later_trouble_is_noted_and_ends_the_scan() {
    let undecodable = scan(&(header(ID) + &record(1, "mystery", "{}") + &header(ID)), ID).unwrap();
    assert!(undecodable.info.corrupt);
    assert_eq!(undecodable.info.errors, vec!["undecodable rollout record 1: unknown record"]);
    assert_eq!(undecodable.info.records_scanned, 2);

    let duplicate = scan(&(header(ID) + "  \t\r\n" + &header(ID)), ID).unwrap();
    assert!(!duplicate.info.corrupt);
    assert!(!duplicate.info.complete);
    assert_eq!(duplicate.info.errors, vec!["duplicate session metadata at record 2"]);

    let shortened = scan_prefix(&header(ID), 10_000, ID).unwrap();
    assert!(shortened.info.truncated);
    assert_eq!(shortened.info.errors, vec!["rollout scan byte limit reached or snapshot shortened"]);

    let mut state = ScannerState::new(ID, 0);
    let step = state.on_read(ReadOutcome::Failed("gone".to_string()));
    assert!(matches!(step, RecordStep::Stop));
    let mut state = ScannerState::new(ID, header(ID).len() as u64);
    let step = state.on_read(ReadOutcome::Bytes(header(ID).into_bytes()));
    let RecordStep::Decode(value) = step else { panic!("expected a record") };
    state.on_decoded(decode(&value));
    state.on_read(ReadOutcome::Failed("gone".to_string()));
    let failed = state.finish().unwrap();
    assert!(failed.info.corrupt);
    assert_eq!(failed.info.errors, vec!["rollout read failed: gone"]);
}

#[test]
fn compactions_are_checked() {
    let unnumbered = scan(&(header(ID) + &record(1, "compacted", "{}")), ID).unwrap();
    assert!(unnumbered.info.corrupt);
    assert_eq!(unnumbered.info.opaque_records, 1);
    assert_eq!(unnumbered.info.errors, vec!["compaction at record 1 has no window number"]);

    let backwards = scan(
        &(header(ID)
            + &record(1, "compacted", "{\"window_number\":3}")
            + &record(2, "compacted", "{\"window_number\":2}")),
        ID,
    )
    .unwrap();
    assert!(backwards.info.corrupt);
    assert_eq!(backwards.info.errors, vec!["compaction window moved backwards from 3 to 2"]);
    let numbers: Vec<u64> = backwards.windows.iter().map(|window| window.window_number).collect();
    assert_eq!(numbers, vec![0, 3]);

    let items = vec!["{\"type\":\"reasoning\"}"; MAX_HISTORY_REPLACEMENT_ITEMS + 1].join(",");
    let long = scan(
        &(header(ID)
            + &record(1, "compacted", &format!("{{\"window_number\":1,\"replacement_history\":[{items}]}}"))),
        ID,
    )
    .unwrap();
    assert!(long.info.truncated);
    assert_eq!(long.entries.len(), MAX_HISTORY_REPLACEMENT_ITEMS + 1);
    assert_eq!(long.info.errors, vec!["compaction replacement history exceeded 256 items"]);
}

#[test]
fn inherited_records_are_passed_over() {
    let meta = "{\"id\":\"thread-1\",\"forked_from_ordinal_exclusive\":3,\"subagent_history_start_ordinal\":2}";
    let text = record(0, "session_meta", meta)
        + &record(2, "response_item", "{\"type\":\"reasoning\"}")
        + &record(2, "compacted", "{\"window_number\":1}")
        + &record(3, "response_item", "{\"type\":\"reasoning\"}")
        + &record(4, "other_event", "{}")
        + &record(5, "turn_context", "{}");
    let result = scan(&text, ID).unwrap();
    assert_eq!(result.info.inherited_records_skipped, 2);
    assert_eq!(result.entries.len(), 1);
    assert_eq!(result.entries[0].item_id, "ordinal:3");
    assert_eq!(result.info.opaque_records, 2);
}

#[test]
fn the_latest_of_the_inherited_positions_counts() {
    let mut meta = SessionMeta {
        id: ID.to_string(),
        history_base_end_ordinal: None,
        forked_from_id: None,
        forked_from_ordinal_exclusive: None,
        subagent_history_start_ordinal: None,
        context_window_id: None,
        context_management_backend: None,
        source: SessionSource::Root,
    };
    assert_eq!(lineage_ordinal_floor(&meta), None);
    meta.subagent_history_start_ordinal = Some(4);
    assert_eq!(lineage_ordinal_floor(&meta), Some(4));
    meta.history_base_end_ordinal = Some(9);
    meta.forked_from_ordinal_exclusive = Some(7);
    assert_eq!(lineage_ordinal_floor(&meta), Some(9));
}

#[test]
fn references_name_their_place() {
    let by_ordinal = SourceRef { ordinal: Some(12), physical_record: 3, replacement_index: None };
    let by_record = SourceRef { ordinal: None, physical_record: 3, replacement_index: None };
    let replaced = SourceRef { ordinal: Some(12), physical_record: 3, replacement_index: Some(0) };
    assert_eq!(by_ordinal.item_id(), "ordinal:12");
    assert_eq!(by_record.item_id(), "record:3");
    assert_eq!(replaced.item_id(), "ordinal:12:replacement:0");
    assert_eq!(window_id("t", 10), "t:10");
}

#[test]
fn scans_keep_to_their_bounds() {
    let mut state = ScannerState::new(ID, 0);
    for index in 0..MAX_HISTORY_SCAN_RECORDS + 1 {
        let source = SourceRef { ordinal: None, physical_record: index, replacement_index: None };
        state.push_entry("now", source, ProjectedItem::text("user", "message", "hi"));
    }
    for index in 0..20 {
        state.add_error(&"é".repeat(300 + index));
    }
    let identified = state.on_decoded(decode(&serde_json::from_str(&header(ID)).unwrap()));
    assert!(matches!(identified, RecordStep::Next));
    let result = state.finish().unwrap();
    assert_eq!(result.entries.len(), MAX_HISTORY_SCAN_RECORDS);
    assert!(result.info.truncated);
    assert_eq!(result.info.errors.len(), 8);
    assert!(result.info.errors.iter().all(|error| error.chars().count() == 256));
    assert_eq!(result.windows[0].item_count, MAX_HISTORY_SCAN_RECORDS);

    let mut state = ScannerState::new(ID, 0);
    for number in (0..MAX_HISTORY_SCAN_WINDOWS as u64).rev() {
        assert!(state.ensure_window(number, None));
    }
    assert!(!state.ensure_window(9_999, None));
    assert!(state.ensure_window(5, Some("known".to_string())));
    state.on_decoded(decode(&serde_json::from_str(&header(ID)).unwrap()));
    let result = state.finish().unwrap();
    assert!(result.info.truncated);
    assert!(result.windows.windows(2).all(|pair| pair[0].window_number < pair[1].window_number));
    assert_eq!(result.windows[5].context_window_id.as_deref(), Some("known"));
}

#[test]
fn reading_stops_at_the_limit_on_records() {
    let mut text = header(ID);
    for ordinal in 1..MAX_HISTORY_SCAN_RECORDS as u64 + 1 {
        text += &record(ordinal, "turn_context", "{}");
    }
    let result = scan(&text, ID).unwrap();
    assert_eq!(result.info.records_scanned, MAX_HISTORY_SCAN_RECORDS);
    assert!(result.info.truncated);
    assert!(!result.info.complete);
}

#[test]
fn scans_read_no_more_than_their_limit() {
    assert_eq!(ScannerState::new(ID, 10).byte_limit(), 10);
    assert_eq!(ScannerState::new(ID, u64::MAX).byte_limit(), 64 * 1024 * 1024);
    assert_eq!(open_failure("no such file"), "cannot open active rollout: no such file");
}

#[test]
fn entries_are_in_the_order_of_their_records() {
    let item = "{\"type\":\"function_call_output\",\"call_id\":\"c\",\"output\":\"x\"}";
    let text = header(ID)
        + &record(9, "response_item", item)
        + "\n"
        + &record(
            3,
            "compacted",
            &format!("{{\"window_number\":1,\"replacement_history\":[{item},{item}]}}"),
        )
        + &record(1, "response_item", item)
        + "malformed\n";
    let result = scan(&text, ID).unwrap();
    let places: Vec<_> = result
        .entries
        .iter()
        .map(|entry| (entry.source.physical_record, entry.source.replacement_index, entry.window_number))
        .collect();
    assert_eq!(places, vec![(1, None, 0), (3, None, 1), (3, Some(0), 1), (3, Some(1), 1), (4, None, 1)]);
    assert!(!result.info.complete && result.info.corrupt);
    assert_eq!(result.info.errors.len(), 1);
    assert_eq!(result.info.records_scanned, 5);
}
