use std::collections::BTreeMap;

use history_notes::context::activate;
use history_notes::context::directories_of;
use history_notes::context::enabled;
use history_notes::context::manifest_text;
use history_notes::context::is_record_of;
use history_notes::context::parse_store_dir;
use history_notes::context::prepare;
use history_notes::context::resolve_resumed_backend;
use history_notes::context::Config;
use history_notes::context::HostReplies;
use history_notes::context::InitialHistory;
use history_notes::context::Preparation;
use history_notes::context::PrepareAction;
use history_notes::context::PrepareReply;
use history_notes::context::PrepareStage;
use history_notes::context::StoreRoot;
use history_notes::context::TokenBudget;
use history_notes::note_storage::IoFailure;
use history_notes::note_storage::IoKind;
use history_notes::note_storage::PathStatus;
use history_notes::records::session_source;
use history_notes::records::ContextManagementBackend;
use history_notes::records::HostSource;
use history_notes::records::InternalSessionSource;
use history_notes::records::RolloutItem;
use history_notes::records::SessionMeta;
use history_notes::records::SessionSource;
use history_notes::records::SubAgentSource;

fn local_config() -> Config {
    Config {
        context_management_backend: ContextManagementBackend::Local,
        context_management: true,
        token_budget_feature: false,
        token_budget: None,
        ephemeral: false,
        store_root: StoreRoot::Home,
    }
}

fn settings(additional: &str) -> toml::Value {
    let text = format!(
        "[features.context_management]\nexperimental_mode = true\nbackend = 'local'\n{additional}"
    );
    toml::from_str(&text).expect("settings")
}

fn spawned_child_source() -> HostSource {
    HostSource::SubAgent(SubAgentSource::ThreadSpawn)
}

fn internal_sources() -> Vec<HostSource> {
    vec![
        HostSource::SubAgent(SubAgentSource::Review),
        HostSource::SubAgent(SubAgentSource::Compact),
        HostSource::SubAgent(SubAgentSource::Other("fixture".to_string())),
        HostSource::SubAgent(SubAgentSource::MemoryConsolidation),
        HostSource::Internal(InternalSessionSource::Guardian),
        HostSource::Internal(InternalSessionSource::MemoryConsolidation),
    ]
}

fn replies(permitted: bool, resolved: Option<TokenBudget>) -> HostReplies {
    HostReplies {
        management_disabled: Ok(()),
        budget_disabled: Ok(()),
        permitted: Ok(permitted),
        resolved: Ok(resolved),
    }
}

fn start(config: &mut Config, source: SessionSource) -> Result<(), String> {
    activate(config, source, &settings(""), replies(true, None))
}

fn resumed_history(thread_id: &str, backend: Option<ContextManagementBackend>) -> InitialHistory {
    InitialHistory::Resumed(vec![RolloutItem::SessionMeta(meta(thread_id, backend, SessionSource::Root))])
}

fn meta(thread_id: &str, backend: Option<ContextManagementBackend>, source: SessionSource) -> SessionMeta {
    SessionMeta {
        id: thread_id.to_string(),
        history_base_end_ordinal: None,
        forked_from_id: None,
        forked_from_ordinal_exclusive: None,
        subagent_history_start_ordinal: None,
        context_window_id: None,
        context_management_backend: backend,
        source,
    }
}

/// A disk in memory: directories, links, and files with their bytes.
#[derive(Debug, Default)]
struct Disk {
    nodes: BTreeMap<Vec<String>, Option<Vec<u8>>>,
    links: Vec<Vec<String>>,
}

impl Disk {
    fn status(&self, path: &Vec<String>) -> PathStatus {
        if self.links.contains(path) {
            return PathStatus::Symlink;
        }
        match self.nodes.get(path) {
            Some(None) => PathStatus::Directory,
            Some(Some(bytes)) => PathStatus::File { bytes: bytes.len() as u64 },
            None => PathStatus::Failed(IoFailure::new(IoKind::NotFound, "no such file")),
        }
    }
}

fn base(config: &Config, home: &str) -> Vec<String> {
    match config.store_root {
        StoreRoot::Home => vec![home.to_string()],
        StoreRoot::Explicit(_) => Vec::new(),
    }
}

fn manifest_path(config: &Config, home: &str, thread_id: &str) -> Vec<String> {
    let mut path = base(config, home);
    path.extend(directories_of(&config.store_root, thread_id).pop().unwrap());
    path.push("backend.json".to_string());
    path
}

fn prepare_in(
    disk: &mut Disk,
    home: &str,
    config: &Config,
    history: &InitialHistory,
    thread_id: &str,
) -> Result<(), IoFailure> {
    let directories: Vec<Vec<String>> = directories_of(&config.store_root, thread_id)
        .into_iter()
        .map(|names| {
            let mut path = base(config, home);
            path.extend(names);
            path
        })
        .collect();
    let manifest = manifest_path(config, home, thread_id);
    let (mut state, mut action) = prepare(config, history, thread_id);
    loop {
        let reply = match action {
            PrepareAction::Finish(outcome) => return outcome,
            PrepareAction::InspectDirectory(index) => PrepareReply::Status(disk.status(&directories[index])),
            PrepareAction::CreateDirectory(index) => {
                disk.nodes.insert(directories[index].clone(), None);
                PrepareReply::Done
            }
            PrepareAction::InspectManifest => PrepareReply::Status(disk.status(&manifest)),
            PrepareAction::ReadManifest => PrepareReply::Bytes(disk.nodes[&manifest].clone().unwrap()),
            PrepareAction::WriteManifest(text) => {
                disk.nodes.insert(manifest.clone(), Some(text.into_bytes()));
                PrepareReply::Done
            }
        };
        (state, action) = state.unwrap().next(reply);
    }
}

#[test]
fn local_context_activates_without_official_auth_for_fresh_children() {
    let mut config = local_config();
    start(&mut config, session_source(&HostSource::Cli)).unwrap();
    assert!(enabled(&config));
    assert!(config.token_budget_feature);
    assert!(config.token_budget.as_ref().unwrap().use_history_notes_extension);

    start(&mut config, session_source(&spawned_child_source())).unwrap();
    assert!(enabled(&config));
    assert!(config.token_budget_feature);
    assert!(config.token_budget.is_some());
}

#[test]
fn resumed_children_use_their_own_recorded_backend() {
    let mut disk = Disk::default();
    let mut config = local_config();
    start(&mut config, session_source(&HostSource::Cli)).unwrap();
    assert!(enabled(&config));
    assert!(config.token_budget_feature);
    assert!(config.token_budget.is_some());
    let thread_id = "child";
    let child = session_source(&spawned_child_source());

    let historical = resumed_history(thread_id, None);
    let _ = resolve_resumed_backend(&mut config, &historical, child).unwrap();
    assert_eq!(config.context_management_backend, ContextManagementBackend::Codex);
    assert!(!config.context_management);
    assert!(!config.token_budget_feature);
    assert!(config.token_budget.is_none());

    let local = resumed_history(thread_id, Some(ContextManagementBackend::Local));
    let _ = resolve_resumed_backend(&mut config, &local, child).unwrap();
    assert_eq!(config.context_management_backend, ContextManagementBackend::Local);
    assert!(config.context_management);
    start(&mut config, child).unwrap();
    assert!(config.token_budget_feature);
    assert!(config.token_budget.is_some());
    assert!(prepare_in(&mut disk, "home", &config, &local, thread_id).is_err());
    prepare_in(&mut disk, "home", &config, &InitialHistory::New, thread_id).unwrap();
    prepare_in(&mut disk, "home", &config, &local, thread_id).unwrap();

    let codex = resumed_history(thread_id, Some(ContextManagementBackend::Codex));
    let _ = resolve_resumed_backend(&mut config, &codex, child).unwrap();
    assert_eq!(config.context_management_backend, ContextManagementBackend::Codex);
    assert!(!config.context_management);
    assert!(!config.token_budget_feature);
    assert!(config.token_budget.is_none());
    assert!(prepare_in(&mut disk, "home", &config, &codex, thread_id).is_err());
}

#[test]
fn local_context_excludes_internal_sources_and_rejects_recorded_local_recovery() {
    for source in internal_sources() {
        let source = session_source(&source);
        let mut disk = Disk::default();
        let mut config = local_config();
        start(&mut config, session_source(&HostSource::Cli)).unwrap();
        start(&mut config, source).unwrap();
        assert_eq!(config.context_management_backend, ContextManagementBackend::Codex);
        assert!(!config.context_management);
        assert!(!config.token_budget_feature);
        assert!(config.token_budget.is_none());
        let thread_id = "internal";
        prepare_in(&mut disk, "home", &config, &InitialHistory::New, thread_id).unwrap();
        assert!(disk.nodes.is_empty());
        let local = resumed_history(thread_id, Some(ContextManagementBackend::Local));
        assert!(resolve_resumed_backend(&mut config, &local, source).is_err());
        let recorded_internal = InitialHistory::Resumed(vec![RolloutItem::SessionMeta(meta(
            thread_id,
            Some(ContextManagementBackend::Local),
            source,
        ))]);
        assert!(resolve_resumed_backend(&mut config, &recorded_internal, SessionSource::Root).is_err());
        assert!(resolve_resumed_backend(&mut config, &recorded_internal, SessionSource::SpawnedChild).is_err());
    }
}

#[test]
fn resumed_official_children_preserve_existing_experimental_activation_state() {
    for backend in [None, Some(ContextManagementBackend::Codex)] {
        for source in [spawned_child_source(), HostSource::SubAgent(SubAgentSource::Review)] {
            let source = session_source(&source);
            let mut config = local_config();
            start(&mut config, session_source(&HostSource::Cli)).unwrap();
            config.context_management_backend = ContextManagementBackend::Codex;
            let original_budget = format!("{:?}", config.token_budget);
            let history = resumed_history("thread", backend);
            assert_eq!(resolve_resumed_backend(&mut config, &history, source).unwrap(), None);
            assert_eq!(config.context_management_backend, ContextManagementBackend::Codex);
            assert!(config.context_management);
            assert!(config.token_budget_feature);
            assert_eq!(format!("{:?}", config.token_budget), original_budget);
        }
    }
}

#[test]
fn historical_root_keeps_m6_config_and_marker_compatibility() {
    let mut disk = Disk::default();
    let mut config = local_config();
    let thread_id = "root";
    prepare_in(&mut disk, "home", &config, &InitialHistory::New, thread_id).unwrap();
    let historical = resumed_history(thread_id, None);
    let _ = resolve_resumed_backend(&mut config, &historical, SessionSource::Root).unwrap();
    assert_eq!(config.context_management_backend, ContextManagementBackend::Local);
    prepare_in(&mut disk, "home", &config, &historical, thread_id).unwrap();
}

#[test]
fn local_context_rejects_explicit_low_level_conflicts() {
    for setting in ["enabled = false", "use_history_notes_extension = false"] {
        let mut config = local_config();
        let effective = settings(&format!("\n[features.token_budget]\n{setting}\n"));
        let error = activate(&mut config, SessionSource::Root, &effective, replies(true, None)).unwrap_err();
        assert!(error.contains("conflicts"));
    }
    for (text, conflicts) in [
        ("[features]\ntoken_budget = false", true),
        ("[features]\ntoken_budget = true", false),
        ("[features.token_budget]\nenabled = true", false),
        ("[features.token_budget]\nenabled = 'no'", false),
        ("features = 3", false),
    ] {
        let effective: toml::Value = toml::from_str(text).unwrap();
        let outcome = activate(&mut local_config(), SessionSource::Root, &effective, replies(true, None));
        assert_eq!(outcome.is_err(), conflicts, "{text}");
    }
}

#[test]
fn local_context_resume_requires_same_persisted_backend_and_thread() {
    let mut disk = Disk::default();
    let mut config = local_config();
    let thread_id = "thread";
    let resumed = resumed_history(thread_id, Some(ContextManagementBackend::Local));
    assert!(prepare_in(&mut disk, "home", &config, &resumed, thread_id).is_err());
    prepare_in(&mut disk, "home", &config, &InitialHistory::New, thread_id).unwrap();
    prepare_in(&mut disk, "home", &config, &resumed, thread_id).unwrap();
    assert!(prepare_in(&mut disk, "home", &config, &resumed, "other").is_err());
    config.context_management_backend = ContextManagementBackend::Codex;
    assert!(prepare_in(&mut disk, "home", &config, &resumed, thread_id).is_err());
}

#[test]
fn local_context_rejects_invalid_manifest_and_ephemeral_threads() {
    let mut disk = Disk::default();
    let mut config = local_config();
    config.ephemeral = true;
    assert!(start(&mut config, session_source(&HostSource::Cli)).is_err());
    config.ephemeral = false;
    let thread_id = "thread";
    prepare_in(&mut disk, "home", &config, &InitialHistory::New, thread_id).unwrap();
    let manifest = manifest_path(&config, "home", thread_id);
    assert_eq!(manifest[1], "context-management-local");
    disk.nodes.insert(manifest.clone(), Some(b"{\"version\":999}".to_vec()));
    let resumed = resumed_history(thread_id, Some(ContextManagementBackend::Local));
    let error = prepare_in(&mut disk, "home", &config, &resumed, thread_id).unwrap_err();
    assert_eq!(error.message, "incompatible local context record");
    disk.nodes.insert(manifest.clone(), Some(vec![b' '; 1_025]));
    let error = prepare_in(&mut disk, "home", &config, &resumed, thread_id).unwrap_err();
    assert_eq!(error.message, "invalid local context record");
    disk.nodes.insert(manifest.clone(), None);
    let error = prepare_in(&mut disk, "home", &config, &resumed, thread_id).unwrap_err();
    assert_eq!(error.message, "invalid local context record");
    disk.nodes.remove(&manifest);
    let error = prepare_in(&mut disk, "home", &config, &resumed, thread_id).unwrap_err();
    assert_eq!(error.kind, IoKind::NotFound);
    let forked = InitialHistory::Forked(Vec::new());
    assert!(prepare_in(&mut disk, "home", &config, &forked, "new").is_err());
    let mut inherited = meta("new", None, SessionSource::Root);
    inherited.forked_from_id = Some("other".to_string());
    let inherited = InitialHistory::Resumed(vec![RolloutItem::SessionMeta(inherited)]);
    let error = prepare_in(&mut disk, "home", &config, &inherited, "new").unwrap_err();
    assert_eq!(error.message, "local context does not support inherited fork history");
}

#[test]
fn local_context_explicit_store_survives_different_homes() {
    let mut disk = Disk::default();
    let names = parse_store_dir("/durable/state/local").unwrap();
    disk.nodes.insert(names[..1].to_vec(), None);
    let first = Config { store_root: StoreRoot::Explicit(names.clone()), ..local_config() };
    let second = Config { store_root: StoreRoot::Explicit(names.clone()), ..local_config() };
    let thread_id = "thread";
    prepare_in(&mut disk, "first", &first, &InitialHistory::New, thread_id).unwrap();
    let resumed = resumed_history(thread_id, Some(ContextManagementBackend::Local));
    prepare_in(&mut disk, "second", &second, &resumed, thread_id).unwrap();
    let manifest = manifest_path(&second, "second", thread_id);
    assert_eq!(manifest, vec!["durable", "state", "local", "thread", "backend.json"]);
    assert!(disk.nodes.get(&manifest).unwrap().is_some());
    assert!(!disk.nodes.keys().any(|path| path.contains(&"context-management-local".to_string())));

    let wrong_store = local_config();
    assert!(prepare_in(&mut disk, "second", &wrong_store, &resumed, thread_id).is_err());
    assert!(!disk.nodes.keys().any(|path| path.contains(&"context-management-local".to_string())));
}

#[test]
fn local_context_rejects_nonabsolute_or_unnormalized_store_config() {
    for path in ["relative/state", "/home/user/../state", "/home/user/./state", "/home//state", "/", ""] {
        let error = parse_store_dir(path).unwrap_err();
        assert!(error.contains("local_store_dir"));
    }
    assert_eq!(parse_store_dir("/home/state").unwrap(), vec!["home", "state"]);
}

#[test]
fn local_context_rejects_symlinked_explicit_store_ancestor() {
    let mut disk = Disk::default();
    let names = parse_store_dir("/home/alias/state").unwrap();
    disk.nodes.insert(names[..1].to_vec(), None);
    disk.links.push(names[..2].to_vec());
    let config = Config { store_root: StoreRoot::Explicit(names), ..local_config() };
    let error = prepare_in(&mut disk, "home", &config, &InitialHistory::New, "thread").unwrap_err();
    assert_eq!(error.message, "invalid local context directory");
    assert_eq!(disk.nodes.len(), 1);
}

#[test]
fn activation_keeps_a_known_budget() {
    let mut config = local_config();
    let resolved = TokenBudget {
        use_history_notes_extension: false,
        auto_compact_fallback_prompt: Some("Write notes and start a new context.".to_string()),
        auto_compact_fallback_buffer_tokens: Some(4_000),
    };
    activate(&mut config, SessionSource::Root, &settings(""), replies(true, Some(resolved))).unwrap();
    let budget = config.token_budget.as_ref().unwrap();
    assert!(budget.use_history_notes_extension);
    assert_eq!(budget.auto_compact_fallback_buffer_tokens, Some(4_000));
    start(&mut config, session_source(&HostSource::Cli)).unwrap();
    assert_eq!(config.token_budget.as_ref().unwrap().auto_compact_fallback_buffer_tokens, Some(4_000));

    let mut denied = local_config();
    let error = activate(&mut denied, SessionSource::Root, &settings(""), replies(false, None)).unwrap_err();
    assert_eq!(error, "local context requires token-budget permission");
    assert!(denied.token_budget.is_none());
    let mut official = local_config();
    official.context_management_backend = ContextManagementBackend::Codex;
    start(&mut official, SessionSource::Root).unwrap();
    assert!(official.token_budget.is_none());
}

#[test]
fn records_name_their_thread() {
    let text = manifest_text("t-1");
    assert_eq!(text, "{\"backend\":\"local\",\"thread_id\":\"t-1\",\"version\":1}");
    let bytes = text.into_bytes();
    assert!(is_record_of(&bytes, "t-1"));
    assert!(!is_record_of(&bytes, "t-2"));
    let spaced = b" {\"version\": 1, \"backend\": \"local\", \"thread_id\": \"t-1\"} ".to_vec();
    assert!(is_record_of(&spaced, "t-1"));
    let long = manifest_text(&"t".repeat(2_000)).into_bytes();
    assert!(!is_record_of(&long, &"t".repeat(2_000)));
}

#[test]
fn failures_and_stray_replies_end_a_preparation() {
    let state = |stage| Preparation {
        local: true,
        resumed: false,
        thread_id: "t".to_string(),
        directory_count: 2,
        stage,
    };
    let (next, action) = state(PrepareStage::Creation(1)).next(PrepareReply::Done);
    assert!(next.is_some());
    assert!(matches!(action, PrepareAction::WriteManifest(_)));
    let failure = IoFailure::new(IoKind::AlreadyExists, "exists");
    let (_, action) = state(PrepareStage::ManifestWrite).next(PrepareReply::Failed(failure));
    let PrepareAction::Finish(Err(failure)) = action else { panic!("expected a failure") };
    assert_eq!(failure.message, "exists");
    let (_, action) = state(PrepareStage::ManifestStatus).next(PrepareReply::Done);
    let PrepareAction::Finish(Err(failure)) = action else { panic!("expected a failure") };
    assert_eq!(failure.message, "unexpected reply");
}

#[test]
fn replies_of_the_host_decide_on_activation() {
    let mut config = local_config();
    let refusal = HostReplies { permitted: Err("refused".to_string()), ..replies(true, None) };
    let error = activate(&mut config, SessionSource::Root, &settings(""), refusal).unwrap_err();
    assert_eq!(error, "refused");
    assert!(!config.token_budget_feature);

    let refusal = HostReplies { resolved: Err("unreadable".to_string()), ..replies(true, None) };
    let error = activate(&mut config, SessionSource::Root, &settings(""), refusal).unwrap_err();
    assert_eq!(error, "unreadable");
    assert!(config.token_budget.is_none());

    let refusal = HostReplies { management_disabled: Err("refused".to_string()), ..replies(true, None) };
    let error = activate(&mut config, SessionSource::InternalAgent, &settings(""), refusal).unwrap_err();
    assert_eq!(error, "refused");
    assert!(enabled(&config));

    let refusal = HostReplies { budget_disabled: Err("kept".to_string()), ..replies(true, None) };
    let error = activate(&mut config, SessionSource::InternalAgent, &settings(""), refusal).unwrap_err();
    assert_eq!(error, "kept");
    assert!(!config.context_management);
    assert_eq!(config.context_management_backend, ContextManagementBackend::Local);
}

#[test]
fn sources_are_told_apart() {
    for source in [HostSource::Cli, HostSource::Exec, HostSource::Client("editor".to_string())] {
        assert_eq!(session_source(&source), SessionSource::Root);
    }
    assert_eq!(session_source(&spawned_child_source()), SessionSource::SpawnedChild);
    for source in internal_sources() {
        assert_eq!(session_source(&source), SessionSource::InternalAgent);
    }
}
