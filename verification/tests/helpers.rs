use std::cmp::Ordering;
use std::time::Duration;
use std::time::UNIX_EPOCH;

use history_notes::json::reads_back;
use history_notes::json::parse_record;
use history_notes::json::serialized_len;
use history_notes::json::Json;
use history_notes::limits::bounded_usize;
use history_notes::limits::byte_index_at_char;
use history_notes::limits::char_count;
use history_notes::limits::char_slice;
use history_notes::limits::cursor;
use history_notes::note_helpers::bound_array_field;
use history_notes::note_helpers::bounded_text;
use history_notes::note_helpers::check_path;
use history_notes::note_helpers::compare_files;
use history_notes::note_helpers::sort_files;
use history_notes::note_helpers::timestamp;
use history_notes::note_helpers::validated_relative_path;
use history_notes::note_helpers::virtual_path;
use history_notes::note_helpers::FileOrder;
use history_notes::note_helpers::PathComponent;
use history_notes::note_storage::IoFailure;
use history_notes::note_storage::IoKind;
use history_notes::note_storage::NoteError;
use history_notes::note_storage::NoteFile;
use history_notes::projection::project_response_item;
use history_notes::projection::project_rollout_item;
use history_notes::projection::remember_call;
use history_notes::projection::ProjectedItem;
use history_notes::projection::ToolCalls;
use history_notes::records::ContentItem;
use history_notes::records::FunctionCallOutputBody;
use history_notes::records::FunctionCallOutputContentItem;
use history_notes::records::ResponseItem;
use history_notes::records::RolloutItem;
use history_notes::text::comes_before;
use history_notes::text::find;
use history_notes::text::is_blank;
use history_notes::text::join;
use history_notes::text::lines;
use history_notes::text::split;

fn object(fields: Vec<(&str, Json)>) -> Json {
    Json::Object(fields.into_iter().map(|(name, value)| (name.to_string(), value)).collect())
}

#[test]
fn counts_are_bounded() {
    let arguments = object(vec![
        ("limit", Json::unsigned(7)),
        ("large", Json::unsigned(700)),
        ("zero", Json::unsigned(0)),
        ("text", Json::text("7")),
    ]);
    assert_eq!(bounded_usize(&arguments, "limit", 20, 100).unwrap(), 7);
    assert_eq!(bounded_usize(&arguments, "large", 20, 100).unwrap(), 100);
    assert_eq!(bounded_usize(&arguments, "absent", 20, 10).unwrap(), 10);
    assert_eq!(
        bounded_usize(&arguments, "zero", 20, 100).unwrap_err().to_text(),
        "{\"field\":\"zero\",\"reason\":\"must be greater than zero\",\"status\":\"invalid_argument\"}"
    );
    assert_eq!(
        bounded_usize(&arguments, "text", 20, 100).unwrap_err().to_text(),
        "{\"field\":\"text\",\"reason\":\"must be a non-negative integer\",\"status\":\"invalid_argument\"}"
    );
}

#[test]
fn cursors_are_decimal_positions() {
    let at = |text: &str| cursor(&object(vec![("cursor", Json::text(text))]));
    assert_eq!(at("0").unwrap(), 0);
    assert_eq!(at("+12").unwrap(), 12);
    assert_eq!(at("18446744073709551615").unwrap(), usize::MAX);
    for wrong in ["", "+", "-1", "1x", "18446744073709551616", " 1"] {
        assert!(at(wrong).is_err(), "{wrong}");
    }
    assert_eq!(cursor(&object(vec![("cursor", Json::unsigned(3))])).unwrap(), 0);
}

#[test]
fn characters_are_counted_and_cut() {
    let text = "aé原😀b";
    assert_eq!(char_count(text), 5);
    assert_eq!(byte_index_at_char(text, 0), Some(0));
    assert_eq!(byte_index_at_char(text, 2), Some(3));
    assert_eq!(byte_index_at_char(text, 4), Some(10));
    assert_eq!(byte_index_at_char(text, 5), Some(11));
    assert_eq!(byte_index_at_char(text, 6), None);
    assert_eq!(char_slice(text, 1, 2), ("é原", 2, true));
    assert_eq!(char_slice(text, 3, 9), ("😀b", 2, false));
    assert_eq!(char_slice(text, 9, 9), ("", 0, false));
    let (first, count, _) = char_slice(text, 0, 3);
    let (second, _, _) = char_slice(text, count, 3);
    assert_eq!(first.to_string() + second, text);
}

#[test]
fn texts_are_split_and_joined() {
    assert_eq!(lines("a\r\nb\n\nc"), vec!["a", "b", "", "c"]);
    assert_eq!(lines("a\n"), vec!["a"]);
    assert_eq!(lines("a\r"), vec!["a\r"]);
    assert!(lines("").is_empty());
    assert_eq!(split("a//b", '/'), vec!["a", "", "b"]);
    assert_eq!(split("", '/'), vec![""]);
    assert_eq!(join(&split("x/y/z", '/'), "/"), "x/y/z");
    assert_eq!(join(&lines("one\ntwo"), "\n"), "one\ntwo");
}

#[test]
fn texts_are_searched_and_ordered() {
    assert_eq!(find("xxaab", "aa"), Some(2));
    assert_eq!(find("éa", "a"), Some(1));
    assert_eq!(find("abc", ""), Some(0));
    assert_eq!(find("abc", "d"), None);
    assert!(is_blank(" \u{3000}\t"));
    assert!(!is_blank(" x"));
    assert!(!is_blank("\u{200b}"));
    assert!(comes_before("a", "b"));
    assert!(comes_before("a", "aa"));
    assert!(comes_before("z", "é"));
    assert!(!comes_before("a", "a"));
}

#[test]
fn paths_are_checked() {
    let reason = |path: &str| {
        validated_relative_path(path, "path", false).unwrap_err().to_value()["reason"].as_str().unwrap().to_string()
    };
    assert_eq!(validated_relative_path("a/b.md", "path", false).unwrap(), "a/b.md");
    assert_eq!(validated_relative_path("", "path", true).unwrap(), "");
    assert_eq!(reason(""), "must be a non-empty string");
    assert_eq!(reason(&"x".repeat(1_025)), "contains an unsafe path");
    assert_eq!(reason("a\0b"), "contains an unsafe path");
    assert_eq!(reason("a\\b"), "contains an unsafe path");
    assert_eq!(reason("a/../b"), "contains an unsafe path component");
    assert_eq!(reason("/a"), "contains an unsafe path component");
    assert_eq!(reason("a/"), "contains an unsafe path component");
    assert_eq!(reason(&vec!["x"; 65].join("/")), "contains an unsafe path component");
    assert!(validated_relative_path(&vec!["x"; 64].join("/"), "path", false).is_ok());
    for path in ["notes/10:30.md", "10:30.md", "a/b:c/d"] {
        assert_eq!(validated_relative_path(path, "path", false).unwrap(), path);
        let names = path.split('/').map(|name| PathComponent::Normal(name.to_string())).collect();
        assert_eq!(virtual_path(&names).unwrap(), path);
    }
    let drive = vec![PathComponent::Prefix, PathComponent::Normal("a".to_string())];
    let refused = check_path("c:a", "path", false, &drive).unwrap_err();
    assert_eq!(refused.to_value()["reason"], "must be a safe relative path");
}

#[test]
fn only_names_make_a_path() {
    let names = vec![PathComponent::Normal("a".to_string()), PathComponent::Normal("b".to_string())];
    assert_eq!(virtual_path(&names).unwrap(), "a/b");
    for special in [PathComponent::RootDir, PathComponent::CurDir, PathComponent::ParentDir, PathComponent::Prefix] {
        let failure = virtual_path(&vec![special]).unwrap_err();
        assert_eq!(failure.kind, IoKind::InvalidInput);
        assert_eq!(failure.message, "unsafe note path");
    }
}

#[test]
fn times_are_whole_seconds() {
    assert_eq!(timestamp(Some(UNIX_EPOCH + Duration::from_millis(5_900))), 5);
    assert_eq!(timestamp(Some(UNIX_EPOCH - Duration::from_secs(5))), 0);
    assert_eq!(timestamp(None), 0);
}

fn file(path: &str, created_at: u64, updated_at: u64) -> NoteFile {
    NoteFile { path: path.to_string(), handle: 0, bytes: 0, lines: None, created_at, updated_at }
}

#[test]
fn files_are_compared_by_time_and_name() {
    let a = file("a", 5, 1);
    let b = file("b", 5, 2);
    assert_eq!(compare_files(&a, &b, FileOrder::Name, false), Ordering::Less);
    assert_eq!(compare_files(&a, &b, FileOrder::CreatedAt, false), Ordering::Less);
    assert_eq!(compare_files(&b, &a, FileOrder::UpdatedAt, false), Ordering::Greater);
    assert_eq!(compare_files(&a, &b, FileOrder::UpdatedAt, true), Ordering::Greater);
    assert_eq!(compare_files(&a, &a, FileOrder::Name, true), Ordering::Equal);
    let listed = sort_files(vec![file("b", 2, 0), file("c", 1, 0), file("a", 2, 0)], FileOrder::CreatedAt, true);
    let names: Vec<&str> = listed.iter().map(|file| file.path.as_str()).collect();
    assert_eq!(names, vec!["b", "a", "c"]);
}

#[test]
fn texts_are_cut_at_characters() {
    assert_eq!(bounded_text("short", 5), ("short".to_string(), false));
    assert_eq!(bounded_text("ééééééééé", 17), ("éé\n[truncated]".to_string(), true));
    assert_eq!(bounded_text("0123456789abcdef", 13), ("0\n[truncated]".to_string(), true));
    assert_eq!(bounded_text("0123456789abcdef", 3), ("\n[truncated]".to_string(), true));
}

#[test]
fn arrays_are_cut_to_what_fits() {
    let items = (0..100).map(|_| Json::Text("x".repeat(200))).collect();
    let mut answer = object(vec![("items", Json::Array(items)), ("truncated", Json::Bool(false))]);
    bound_array_field(&mut answer, "items");
    assert!(serialized_len(&answer) <= 8_000);
    assert!(serialized_len(&answer) > 7_700);
    assert_eq!(answer.to_value()["truncated"], true);

    let mut hopeless = object(vec![("items", Json::array()), ("text", Json::Text("x".repeat(9_000)))]);
    bound_array_field(&mut hopeless, "items");
    assert_eq!(hopeless.to_text(), "{\"items\":[],\"status\":\"ok\",\"truncated\":true}");

    let mut small = object(vec![("items", Json::array())]);
    bound_array_field(&mut small, "items");
    assert_eq!(small.to_text(), "{\"items\":[]}");
}

#[test]
fn failures_are_told_apart() {
    let error = |kind| NoteError::from_io(&IoFailure::new(kind, "failed"));
    assert_eq!(error(IoKind::NotFound), NoteError::NotFound);
    assert_eq!(error(IoKind::InvalidInput), NoteError::UnsafePath);
    assert_eq!(error(IoKind::PermissionDenied), NoteError::UnsafePath);
    assert_eq!(error(IoKind::AlreadyExists), NoteError::Io);
    assert_eq!(error(IoKind::Other), NoteError::Io);
}

#[test]
fn values_are_written_and_read_back() {
    let value = object(vec![
        ("b", Json::unsigned(12)),
        ("a", Json::Array(vec![Json::Null, Json::Bool(true), Json::text("\u{1}\"é\n")])),
    ]);
    let text = value.to_text();
    assert_eq!(text, "{\"a\":[null,true,\"\\u0001\\\"é\\n\"],\"b\":12}");
    assert_eq!(serialized_len(&value), text.len());
    assert!(reads_back(text.as_bytes(), &value));
    assert!(!reads_back(b"{\"b\":12}", &value));
    assert!(!reads_back(b"nonsense", &value));
    assert_eq!(value.duplicate().to_text(), text);
    assert_eq!(value.without("a").to_text(), "{\"b\":12}");
    assert_eq!(parse_record(b" [1] ").unwrap().to_string(), "[1]");
    assert!(parse_record(b"[1").is_err());
}

#[test]
fn values_are_looked_into() {
    let mut value = object(vec![("n", Json::unsigned(3)), ("n", Json::unsigned(4)), ("t", Json::text("x"))]);
    assert_eq!(value.get("n").unwrap().as_u64(), Some(4));
    assert_eq!(value.get("n").unwrap().as_i64(), Some(4));
    assert_eq!(Json::unsigned(u64::MAX).as_i64(), None);
    assert_eq!(Json::Number(serde_json::Number::from(-3)).as_i64(), Some(-3));
    assert_eq!(Json::Number(serde_json::Number::from(-3)).as_u64(), None);
    assert_eq!(value.text_at("t"), Some("x"));
    assert_eq!(value.text_at("n"), None);
    assert!(!value.flag_at("t"));
    assert!(!value.push_item("t", Json::Null));
    value.set("list", Json::array());
    assert!(value.push_item("list", Json::Null));
    assert!(value.pop_item("list"));
    assert!(!value.pop_item("list"));
    assert!(Json::Null.get("x").is_none());
    assert_eq!(value.to_text(), "{\"list\":[],\"n\":4,\"t\":\"x\"}");
}

#[test]
fn outputs_are_named_after_their_calls() {
    let mut calls = ToolCalls::new();
    remember_call(&mut calls, "c1", &Some("ns".to_string()), "tool");
    let output = ResponseItem::FunctionCallOutput {
        call_id: Some("c1".to_string()),
        name: None,
        namespace: None,
        output: FunctionCallOutputBody::ContentItems(vec![
            FunctionCallOutputContentItem::InputText { text: "one".to_string() },
            FunctionCallOutputContentItem::EncryptedContent { encrypted_content: "secret".to_string() },
            FunctionCallOutputContentItem::InputText { text: "two".to_string() },
        ]),
    };
    let item = project_response_item(&output, &mut calls);
    assert_eq!(item.tool_name.as_deref(), Some("tool"));
    assert_eq!(item.tool_namespace.as_deref(), Some("ns"));
    assert_eq!(item.content.as_deref(), Some("one\ntwo"));
    assert!(item.opaque);
    assert!(item.agent_message_encrypted_parts.is_empty());
    assert_eq!(calls.len(), 1);
}

#[test]
fn projections_explain_what_they_leave_out() {
    let mut calls = ToolCalls::new();
    let message = |content| ResponseItem::Message { role: "user".to_string(), content };
    let text = || ContentItem::InputText { text: "hello".to_string() };
    let plain = project_response_item(&message(vec![text()]), &mut calls);
    assert_eq!(plain.content.as_deref(), Some("hello"));
    assert!(!plain.opaque);
    let mixed = project_response_item(&message(vec![text(), ContentItem::InputImage]), &mut calls);
    assert_eq!(mixed.unavailable_reason.as_deref(), Some("mixed_text_and_non_text_content"));
    assert!(mixed.opaque);
    let hidden = project_response_item(&message(vec![ContentItem::InputAudio]), &mut calls);
    assert_eq!(hidden.content, None);
    assert_eq!(hidden.unavailable_reason.as_deref(), Some("non_text_content"));
    let blank = project_rollout_item(&RolloutItem::AgentMessage { message: " \n".to_string() }, &mut calls).unwrap();
    assert_eq!(blank.unavailable_reason.as_deref(), Some("empty_or_non_text"));
    let encrypted = RolloutItem::InterAgentCommunication { content: "x".to_string(), is_encrypted: true };
    let encrypted = project_rollout_item(&encrypted, &mut calls).unwrap();
    assert_eq!(encrypted.unavailable_reason.as_deref(), Some("encrypted_content"));
    assert!(project_rollout_item(&RolloutItem::TurnContext, &mut calls).is_none());
    let tool = ProjectedItem::text("tool", "kind", "text")
        .with_tool(None, Some("name".to_string()), Some("id".to_string()))
        .with_opaque_parts("partly");
    assert_eq!(tool.tool_name.as_deref(), Some("name"));
    assert_eq!(tool.unavailable_reason.as_deref(), Some("partly"));
    assert_eq!(ProjectedItem::opaque("r", "k", "why").content, None);
}

#[test]
fn values_come_and_go_unchanged() {
    let text = "{\"a\":[1,-2,2.5,\"\\u0001\",null,{\"b\":[]}],\"c\":{},\"d\":true}";
    let value: serde_json::Value = serde_json::from_str(text).unwrap();
    let json = Json::from_value(&value);
    assert_eq!(json.to_value(), value);
    assert_eq!(json.to_text(), text);
    assert_eq!(json.get("a").and_then(Json::as_array).unwrap()[1].as_i64(), Some(-2));
    assert_eq!(serialized_len(&json), text.len());
}
