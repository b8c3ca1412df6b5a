use history_notes::backend::bound_local;
use history_notes::backend::codex_request;
use history_notes::backend::operation_error;
use history_notes::backend::parse_response;
use history_notes::backend::HistoryNotesBackend;
use history_notes::backend::OperationFailure;
use history_notes::backend::Route;
use history_notes::history::LocalHistoryNotesResult;
use history_notes::json::Json;
use history_notes::privacy::hook_input;
use history_notes::privacy::log_payload;
use history_notes::privacy::ToolInvocation;
use history_notes::records::ContextManagementBackend;
use history_notes::records::FunctionCallOutputBody;
use history_notes::records::FunctionCallOutputContentItem;
use history_notes::tool_output::image_details;
use history_notes::tool_output::HistoryNotesToolOutput;

fn object(fields: Vec<(&str, Json)>) -> Json {
    Json::Object(fields.into_iter().map(|(name, value)| (name.to_string(), value)).collect())
}

#[test]
fn calls_go_to_their_backend() {
    let local = HistoryNotesBackend::local();
    let remote = HistoryNotesBackend::new();
    assert!(local.is_local());
    assert!(!remote.is_local());
    let none = object(vec![]);
    assert_eq!(local.route("alpha/notes/v2/thread_hint", &none), Ok(Route::ThreadHint));
    assert_eq!(local.route("alpha/notes/v2/read_file", &none), Ok(Route::Local));
    assert_eq!(remote.route("alpha/notes/v2/thread_hint", &none), Ok(Route::Remote));
    for backend in [local, remote] {
        assert_eq!(
            backend.route("alpha/notes/v2/read_file", &Json::Null),
            Err("History tool arguments must be a JSON object".to_string())
        );
    }
}

#[test]
fn local_results_are_bounded() {
    let fits = LocalHistoryNotesResult::Json(Json::Text("x".repeat(7_998)));
    assert!(bound_local(fits).is_ok());
    let large = LocalHistoryNotesResult::Json(Json::Text("x".repeat(7_999)));
    assert_eq!(
        bound_local(large).unwrap_err(),
        "Local context result exceeds the output limit; request a smaller range."
    );
    let replay = LocalHistoryNotesResult::AgentMessageReplay(Vec::new());
    assert!(bound_local(replay).is_ok());
}

#[test]
fn remote_calls_carry_their_context() {
    let arguments = || object(vec![("query", Json::text("x")), ("context", Json::Null)]);
    let policy = Some("{\"mode\":\"bytes\",\"limit\":10}".to_string());
    let request =
        codex_request("alpha/notes/v2/write_file", "session", "/root", arguments(), policy.clone()).unwrap();
    assert_eq!(request.path, "alpha/notes/v2/write_file");
    assert_eq!(
        request.body.to_text(),
        "{\"context\":{\"current_agent_name\":\"/root\",\"session_id\":\"session\"},\"query\":\"x\"}"
    );
    assert_eq!(request.timeout_seconds, 35);
    assert_eq!(request.headers.len(), 2);
    assert_eq!(request.headers[0].0, "x-openai-tool-output-truncation-policy");
    assert_eq!(request.headers[0].1.as_bytes(), b"{\"mode\":\"bytes\",\"limit\":10}");
    assert_eq!(request.headers[1].0, "x-openai-encrypted-tool-arguments");
    assert_eq!(request.headers[1].1, "true");
    let plain = codex_request("alpha/notes/v2/read_file", "s", "a", arguments(), policy).unwrap();
    assert_eq!(plain.headers.len(), 1);
    for path in ["alpha/history/v2/search_contents", "alpha/notes/v2/search_contents", "alpha/notes/v2/append_to_file"] {
        let request = codex_request(path, "s", "a", arguments(), Some("p".to_string())).unwrap();
        assert_eq!(request.headers.len(), 2);
    }
}

#[test]
fn remote_failures_are_named() {
    let none = || object(vec![]);
    assert_eq!(
        codex_request("p", "s", "a", Json::Null, None).unwrap_err(),
        "History tool arguments must be a JSON object"
    );
    assert_eq!(
        codex_request("p", "s", "a", none(), None).unwrap_err(),
        "Unable to perform operation: Could not encode the output truncation policy."
    );
    for refused in ["a\nb", "\u{7f}"] {
        assert_eq!(
            codex_request("p", "s", "a", none(), Some(refused.to_string())).unwrap_err(),
            "Unable to perform operation: Could not construct the output truncation policy header."
        );
    }
    let accepted = codex_request("p", "s", "a", none(), Some("a\té".to_string())).unwrap();
    assert_eq!(accepted.headers[0].1.as_bytes(), "a\té".as_bytes());
    for (failure, text) in [
        (OperationFailure::Provider, "Could not resolve the backend provider."),
        (OperationFailure::Authentication, "Could not resolve backend authentication."),
        (OperationFailure::ApplyAuthentication, "Could not apply backend authentication."),
        (OperationFailure::Request, "The backend request failed."),
    ] {
        assert_eq!(operation_error(failure), format!("Unable to perform operation: {text}"));
    }
    assert_eq!(parse_response(b"{\"a\":1}").unwrap().to_string(), "{\"a\":1}");
    assert_eq!(
        parse_response(b"<html>").unwrap_err(),
        "Unable to perform operation: The backend returned invalid JSON."
    );
}

fn invocation(backend: ContextManagementBackend, enabled: bool, namespace: Option<&str>) -> ToolInvocation {
    ToolInvocation {
        context_management_backend: backend,
        context_management_enabled: enabled,
        namespace: namespace.map(str::to_string),
        log_text: "secret arguments".to_string(),
    }
}

#[test]
fn observers_see_nothing_of_local_calls() {
    for namespace in ["history", "notes", "local_history", "local_notes"] {
        let call = invocation(ContextManagementBackend::Local, true, Some(namespace));
        assert_eq!(hook_input(&call).unwrap().to_text(), "{\"local_context_private\":true}");
        assert_eq!(log_payload(&call), "{\"local_context_private\":true}");
    }
    for call in [
        invocation(ContextManagementBackend::Codex, true, Some("history")),
        invocation(ContextManagementBackend::Local, false, Some("history")),
        invocation(ContextManagementBackend::Local, true, Some("functions")),
        invocation(ContextManagementBackend::Local, true, None),
    ] {
        assert!(hook_input(&call).is_none());
        assert_eq!(log_payload(&call), "secret arguments");
    }
}

#[test]
fn outputs_are_text_or_encrypted() {
    let plain = HistoryNotesToolOutput::new(&object(vec![("a", Json::unsigned(1))]), &vec![]).unwrap();
    assert!(matches!(&plain.output, FunctionCallOutputBody::Text(text) if text == "{\"a\":1}"));
    assert_eq!(plain.observer_result().to_text(), "{\"a\":1}");
    assert!(plain.post_tool_use_input().is_none());
    let encrypted = object(vec![("encrypted_output", Json::text("cipher"))]);
    let encrypted = HistoryNotesToolOutput::new(&encrypted, &vec![]).unwrap();
    let FunctionCallOutputBody::ContentItems(items) = encrypted.to_response_output() else {
        panic!("expected parts")
    };
    assert_eq!(items.len(), 1);
    assert!(matches!(&items[0], FunctionCallOutputContentItem::EncryptedContent { encrypted_content } if encrypted_content == "cipher"));
    assert_eq!(
        HistoryNotesToolOutput::code_mode_result().as_str(),
        Some("History tools are unavailable in code mode.")
    );
}

fn image(data: Json, mime_type: Json) -> Json {
    object(vec![("data", data), ("mime_type", mime_type), ("detail", Json::text("high"))])
}

#[test]
fn images_are_attached_for_the_model_alone() {
    let images = Json::Array(vec![image(Json::text("AAAA"), Json::text("image/png"))]);
    let result = object(vec![("a", Json::unsigned(1)), ("images", images)]);
    assert_eq!(image_details(&result)[0].as_str(), Some("high"));
    let mut output = HistoryNotesToolOutput::new(&result, &vec![true]).unwrap();
    let FunctionCallOutputBody::ContentItems(items) = output.to_response_output() else {
        panic!("expected parts")
    };
    assert!(matches!(&items[0], FunctionCallOutputContentItem::InputText { text } if text == "{\"a\":1}"));
    assert!(matches!(&items[1], FunctionCallOutputContentItem::InputImage { image_url, .. } if image_url == "data:image/png;base64,AAAA"));
    assert_eq!(output.post_tool_use_response().unwrap().to_text(), "{\"a\":1}");
    output.redact_observers = true;
    assert_eq!(output.observer_result().to_text(), "{\"local_context_private\":true}");
    assert!(output.post_tool_use_input().is_some());
}

#[test]
fn images_are_checked() {
    let with_images = |images: Json| object(vec![("images", images)]);
    for (images, known) in [
        (Json::text("none"), vec![]),
        (Json::Array(vec![image(Json::Null, Json::text("image/png"))]), vec![true]),
        (Json::Array(vec![image(Json::text("A"), Json::Null)]), vec![true]),
        (Json::Array(vec![image(Json::text("A"), Json::text("image/png"))]), vec![false]),
    ] {
        let error = HistoryNotesToolOutput::new(&with_images(images), &known).unwrap_err();
        assert_eq!(error, "History backend returned invalid image content.");
    }
    let none = HistoryNotesToolOutput::new(&with_images(Json::array()), &vec![]).unwrap();
    let FunctionCallOutputBody::ContentItems(items) = none.output else { panic!("expected parts") };
    assert_eq!(items.len(), 1);
}
