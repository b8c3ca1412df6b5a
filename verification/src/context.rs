//! Activation of the local context backend, and the record that ties a thread to it.

use vstd::prelude::*;
use vstd::string::*;
use vstd::utf8::*;

use crate::json::json_size;
use crate::json::json_text;
use crate::json::nesting_limit;
use crate::json::plain_within;
use crate::json::reads_as;
use crate::json::reads_back;
use crate::json::unsigned_view;
use crate::json::Json;
use crate::json::JsonView;
use crate::note_helpers::is_ordinary_row;
use crate::note_helpers::ordinary_names;
use crate::note_storage::IoFailure;
use crate::note_storage::IoFailureView;
use crate::note_storage::IoKind;
use crate::note_storage::PathStatus;
use crate::records::ContextManagementBackend;
use crate::records::RolloutItem;
use crate::records::SessionMeta;
use crate::records::SessionSource;
use crate::text::copy_opt;
use crate::text::opt_view;
use crate::text::pieces;
use crate::text::split;
use crate::text::texts_view;
use crate::text::utf8_len;

verus! {

/// The largest record of a thread's backend, in bytes.
pub const MANIFEST_LIMIT: usize = 1024;

/// A value of `toml`.
#[verifier::external_type_specification]
#[verifier::external_body]
pub struct ExTomlValue(toml::Value);

/// What a settings value holds, as far as activation reads it.
#[verifier::ext_equal]
pub enum TomlView {
    Boolean(bool),
    Table(Map<Seq<char>, TomlView>),
    Other,
}

/// What a value of `toml` holds.
pub uninterp spec fn toml_holds(value: toml::Value) -> TomlView;

/// The value under a key of a table.
pub open spec fn setting(value: TomlView, key: Seq<char>) -> Option<TomlView> {
    match value {
        TomlView::Table(entries) => if entries.contains_key(key) {
            Some(entries[key])
        } else {
            None
        },
        _ => None,
    }
}

/// The boolean that a value is.
pub open spec fn setting_bool(value: TomlView) -> Option<bool> {
    match value {
        TomlView::Boolean(flag) => Some(flag),
        _ => None,
    }
}

/// `toml::Value::get` with a text gives the value under that key of a table, and nothing where there is
/// none or the value is no table.
#[verifier::external_body]
fn toml_get<'a>(value: &'a toml::Value, key: &str) -> (found: Option<&'a toml::Value>)
    ensures
        match found {
            Some(found) => setting(toml_holds(*value), key@) == Some(toml_holds(*found)),
            None => setting(toml_holds(*value), key@) is None,
        },
{
    value.get(key)
}

/// `toml::Value::as_bool` gives the boolean that a value is.
#[verifier::external_body]
fn toml_as_bool(value: &toml::Value) -> (flag: Option<bool>)
    ensures
        flag == setting_bool(toml_holds(*value)),
{
    value.as_bool()
}

/// The setting under a key is switched off.
pub open spec fn switched_off_in(value: TomlView, key: Seq<char>) -> bool {
    setting(value, key) matches Some(found) && setting_bool(found) == Some(false)
}

/// The settings switch the token budget or its history and notes off.
pub open spec fn budget_conflict(effective: TomlView) -> bool {
    match setting(effective, "features"@) {
        Some(features) => match setting(features, "token_budget"@) {
            Some(settings) => {
                ||| setting_bool(settings) == Some(false)
                ||| switched_off_in(settings, "enabled"@)
                ||| switched_off_in(settings, "use_history_notes_extension"@)
            },
            None => false,
        },
        None => false,
    }
}

/// Whether the setting under a key is switched off.
fn is_switched_off(value: &toml::Value, key: &str) -> (off: bool)
    ensures
        off == switched_off_in(toml_holds(*value), key@),
{
    match toml_get(value, key) {
        Some(found) => match toml_as_bool(found) {
            Some(flag) => !flag,
            None => false,
        },
        None => false,
    }
}

/// Whether the settings switch the token budget or its history and notes off.
pub fn conflicts_with_budget(effective: &toml::Value) -> (conflict: bool)
    ensures
        conflict == budget_conflict(toml_holds(*effective)),
{
    let settings = match toml_get(effective, "features") {
        Some(features) => toml_get(features, "token_budget"),
        None => None,
    };
    match settings {
        Some(settings) => {
            let off: bool = match toml_as_bool(settings) {
                Some(flag) => !flag,
                None => false,
            };
            off || is_switched_off(settings, "enabled") || is_switched_off(
                settings,
                "use_history_notes_extension",
            )
        },
        None => false,
    }
}

/// The budget of a thread's context.
#[derive(Debug)]
pub struct TokenBudget {
    pub use_history_notes_extension: bool,
    pub auto_compact_fallback_prompt: Option<String>,
    pub auto_compact_fallback_buffer_tokens: Option<u64>,
}

/// What a `TokenBudget` holds.
#[verifier::ext_equal]
pub struct TokenBudgetView {
    pub use_history_notes_extension: bool,
    pub auto_compact_fallback_prompt: Option<Seq<char>>,
    pub auto_compact_fallback_buffer_tokens: Option<u64>,
}

impl View for TokenBudget {
    type V = TokenBudgetView;

    open spec fn view(&self) -> TokenBudgetView {
        TokenBudgetView {
            use_history_notes_extension: self.use_history_notes_extension,
            auto_compact_fallback_prompt: opt_view(self.auto_compact_fallback_prompt),
            auto_compact_fallback_buffer_tokens: self.auto_compact_fallback_buffer_tokens,
        }
    }
}

/// What an optional budget holds.
pub open spec fn budget_view(budget: Option<TokenBudget>) -> Option<TokenBudgetView> {
    match budget {
        Some(budget) => Some(budget@),
        None => None,
    }
}

/// Where the local store of notes and records lies.
#[derive(Debug)]
pub enum StoreRoot {
    /// In a directory of its own below the home.
    Home,
    /// At the given names below the root of the file system.
    Explicit(Vec<String>),
}

/// What a `StoreRoot` holds.
#[verifier::ext_equal]
pub enum StoreRootView {
    Home,
    Explicit(Seq<Seq<char>>),
}

impl View for StoreRoot {
    type V = StoreRootView;

    open spec fn view(&self) -> StoreRootView {
        match self {
            StoreRoot::Home => StoreRootView::Home,
            StoreRoot::Explicit(names) => StoreRootView::Explicit(texts_view(names@)),
        }
    }
}

/// A session's configuration, as far as the local backend reads and changes it.
#[derive(Debug)]
pub struct Config {
    pub context_management_backend: ContextManagementBackend,
    pub context_management: bool,
    pub token_budget_feature: bool,
    pub token_budget: Option<TokenBudget>,
    pub ephemeral: bool,
    pub store_root: StoreRoot,
}

/// What a `Config` holds.
#[verifier::ext_equal]
pub struct ConfigView {
    pub context_management_backend: ContextManagementBackend,
    pub context_management: bool,
    pub token_budget_feature: bool,
    pub token_budget: Option<TokenBudgetView>,
    pub ephemeral: bool,
    pub store_root: StoreRootView,
}

impl View for Config {
    type V = ConfigView;

    open spec fn view(&self) -> ConfigView {
        ConfigView {
            context_management_backend: self.context_management_backend,
            context_management: self.context_management,
            token_budget_feature: self.token_budget_feature,
            token_budget: budget_view(self.token_budget),
            ephemeral: self.ephemeral,
            store_root: self.store_root@,
        }
    }
}

impl ConfigView {
    /// The local backend is chosen and its feature is on.
    pub open spec fn is_local(self) -> bool {
        self.context_management_backend == ContextManagementBackend::Local && self.context_management
    }

    /// The configuration without the local backend.
    pub open spec fn switched_off(self) -> ConfigView {
        ConfigView {
            context_management_backend: ContextManagementBackend::Codex,
            context_management: false,
            token_budget_feature: false,
            token_budget: None,
            ..self
        }
    }

    /// The configuration with the budget that the local backend needs.
    pub open spec fn switched_on(self, resolved: Option<TokenBudgetView>) -> ConfigView {
        let known = match self.token_budget {
            Some(budget) => Some(budget),
            None => resolved,
        };
        let budget = match known {
            Some(budget) => budget,
            None => default_budget(),
        };
        ConfigView {
            token_budget_feature: true,
            token_budget: Some(TokenBudgetView { use_history_notes_extension: true, ..budget }),
            ..self
        }
    }
}

/// A budget of which nothing is said.
pub open spec fn default_budget() -> TokenBudgetView {
    TokenBudgetView {
        use_history_notes_extension: false,
        auto_compact_fallback_prompt: None,
        auto_compact_fallback_buffer_tokens: None,
    }
}

/// Whether the local backend is chosen and its feature is on.
pub fn enabled(config: &Config) -> (local: bool)
    ensures
        local == config@.is_local(),
{
    match config.context_management_backend {
        ContextManagementBackend::Local => config.context_management,
        ContextManagementBackend::Codex => false,
    }
}

/// What an outcome without a value holds.
pub open spec fn unit_outcome(outcome: Result<(), String>) -> Result<(), Seq<char>> {
    match outcome {
        Ok(()) => Ok(()),
        Err(reason) => Err(reason@),
    }
}

/// What the host says to the features and settings that a session starts with.
#[derive(Debug)]
pub struct HostReplies {
    /// Whether the backend's feature could be switched off, or why not.
    pub management_disabled: Result<(), String>,
    /// Whether the budget could be switched off, or why not.
    pub budget_disabled: Result<(), String>,
    /// Whether the budget is on once it was switched on, or why it could not be.
    pub permitted: Result<bool, String>,
    /// The budget that the settings give, or why they cannot be read.
    pub resolved: Result<Option<TokenBudget>, String>,
}

/// What `HostReplies` hold.
#[verifier::ext_equal]
pub struct HostRepliesView {
    pub management_disabled: Result<(), Seq<char>>,
    pub budget_disabled: Result<(), Seq<char>>,
    pub permitted: Result<bool, Seq<char>>,
    pub resolved: Result<Option<TokenBudgetView>, Seq<char>>,
}

impl View for HostReplies {
    type V = HostRepliesView;

    open spec fn view(&self) -> HostRepliesView {
        HostRepliesView {
            management_disabled: unit_outcome(self.management_disabled),
            budget_disabled: unit_outcome(self.budget_disabled),
            permitted: match self.permitted {
                Ok(permitted) => Ok(permitted),
                Err(reason) => Err(reason@),
            },
            resolved: match self.resolved {
                Ok(budget) => Ok(budget_view(budget)),
                Err(reason) => Err(reason@),
            },
        }
    }
}

/// The configuration of a session once it starts, and whether it can.
pub open spec fn activated(
    config: ConfigView,
    source: SessionSource,
    effective: TomlView,
    replies: HostRepliesView,
) -> (ConfigView, Result<(), Seq<char>>) {
    if !config.is_local() {
        (config, Ok(()))
    } else if source == SessionSource::InternalAgent {
        match (replies.management_disabled, replies.budget_disabled) {
            (Err(reason), _) => (config, Err(reason)),
            (Ok(()), Err(reason)) => (ConfigView { context_management: false, ..config }, Err(reason)),
            (Ok(()), Ok(())) => (config.switched_off(), Ok(())),
        }
    } else if config.ephemeral {
        (config, Err("local context requires a persistent thread"@))
    } else if budget_conflict(effective) {
        (
            config,
            Err("local context conflicts with explicitly disabled token-budget or history-notes settings"@),
        )
    } else {
        match replies.permitted {
            Err(reason) => (config, Err(reason)),
            Ok(permitted) => if !permitted {
                (config, Err("local context requires token-budget permission"@))
            } else if config.token_budget is Some {
                (config.switched_on(None), Ok(()))
            } else {
                match replies.resolved {
                    Err(reason) => (ConfigView { token_budget_feature: true, ..config }, Err(reason)),
                    Ok(resolved) => (config.switched_on(resolved), Ok(())),
                }
            },
        }
    }
}

/// Prepares the configuration of a session that starts: with the local backend a thread of its own gets
/// the budget that the backend needs, and an agent of the host goes without.
pub fn activate(config: &mut Config, source: SessionSource, effective: &toml::Value, replies: HostReplies) -> (outcome:
    Result<(), String>)
    ensures
        (final(config)@, unit_outcome(outcome)) == activated(
            old(config)@,
            source,
            toml_holds(*effective),
            replies@,
        ),
{
    if !enabled(config) {
        return Ok(());
    }
    if let SessionSource::InternalAgent = source {
        if let Err(reason) = replies.management_disabled {
            return Err(reason);
        }
        if let Err(reason) = replies.budget_disabled {
            config.context_management = false;
            return Err(reason);
        }
        switch_off(config);
        return Ok(());
    }
    if config.ephemeral {
        return Err("local context requires a persistent thread".to_owned());
    }
    if conflicts_with_budget(effective) {
        return Err(
            "local context conflicts with explicitly disabled token-budget or history-notes settings".to_owned(),
        );
    }
    let permitted: bool = match replies.permitted {
        Ok(permitted) => permitted,
        Err(reason) => {
            return Err(reason);
        },
    };
    if !permitted {
        return Err("local context requires token-budget permission".to_owned());
    }
    config.token_budget_feature = true;
    if config.token_budget.is_none() {
        match replies.resolved {
            Ok(resolved) => {
                config.token_budget = resolved;
            },
            Err(reason) => {
                return Err(reason);
            },
        }
    }
    let mut prompt: Option<String> = None;
    let mut buffer: Option<u64> = None;
    if let Some(budget) = &config.token_budget {
        prompt = copy_opt(&budget.auto_compact_fallback_prompt);
        buffer = budget.auto_compact_fallback_buffer_tokens;
    }
    config.token_budget = Some(
        TokenBudget {
            use_history_notes_extension: true,
            auto_compact_fallback_prompt: prompt,
            auto_compact_fallback_buffer_tokens: buffer,
        },
    );
    Ok(())
}

/// Leaves the local backend.
fn switch_off(config: &mut Config)
    ensures
        final(config)@ == old(config)@.switched_off(),
{
    config.context_management_backend = ContextManagementBackend::Codex;
    config.context_management = false;
    config.token_budget_feature = false;
    config.token_budget = None;
}

/// What a session starts with.
#[derive(Debug)]
pub enum InitialHistory {
    New,
    /// The records of another thread.
    Forked(Vec<RolloutItem>),
    /// The records of the thread itself.
    Resumed(Vec<RolloutItem>),
}

/// The records that a session starts with.
pub open spec fn records_of(history: InitialHistory) -> Seq<RolloutItem> {
    match history {
        InitialHistory::New => Seq::empty(),
        InitialHistory::Forked(items) => items@,
        InitialHistory::Resumed(items) => items@,
    }
}

/// The first session metadata of a row of records.
pub open spec fn first_meta(items: Seq<RolloutItem>) -> Option<SessionMeta>
    decreases items.len(),
{
    if items.len() == 0 {
        None
    } else {
        match items[0] {
            RolloutItem::SessionMeta(meta) => Some(meta),
            _ => first_meta(items.drop_first()),
        }
    }
}

/// The first session metadata of a row of records.
fn find_meta(items: &Vec<RolloutItem>) -> (found: Option<&SessionMeta>)
    ensures
        match found {
            Some(meta) => first_meta(items@) == Some(*meta),
            None => first_meta(items@) is None,
        },
{
    let mut index: usize = 0;
    assert(items@.skip(0) =~= items@);
    while index < items.len()
        invariant
            index <= items@.len(),
            first_meta(items@) == first_meta(items@.skip(index as int)),
        decreases items@.len() - index,
    {
        assert(items@.skip(index as int)[0] == items@[index as int]);
        if let RolloutItem::SessionMeta(meta) = &items[index] {
            return Some(meta);
        }
        assert(items@.skip(index as int).drop_first() =~= items@.skip(index + 1));
        index = index + 1;
    }
    None
}

/// The backend that a thread's own metadata record.
pub open spec fn recorded_backend(meta: Option<SessionMeta>) -> Option<ContextManagementBackend> {
    match meta {
        Some(meta) => meta.context_management_backend,
        None => None,
    }
}

/// The metadata are of an agent of the host.
pub open spec fn recorded_internal(meta: Option<SessionMeta>) -> bool {
    meta matches Some(meta) && meta.source == SessionSource::InternalAgent
}

/// The configuration of a thread that is resumed, and the backend that its record decides on; none where
/// the configuration stays as it is. A thread that an agent runs goes on with its own recorded backend.
pub open spec fn resumed_config(
    config: ConfigView,
    history: InitialHistory,
    source: SessionSource,
) -> Result<(ConfigView, Option<ContextManagementBackend>), Seq<char>> {
    match history {
        InitialHistory::Resumed(items) => {
            let meta = first_meta(items@);
            if recorded_backend(meta) == Some(ContextManagementBackend::Local) {
                if source == SessionSource::InternalAgent || recorded_internal(meta) {
                    Err("local context recovery is not available to internal agents"@)
                } else if source == SessionSource::SpawnedChild {
                    Ok(
                        (
                            ConfigView {
                                context_management_backend: ContextManagementBackend::Local,
                                context_management: true,
                                ..config
                            },
                            Some(ContextManagementBackend::Local),
                        ),
                    )
                } else {
                    Ok((config, None))
                }
            } else if source != SessionSource::Root && config.context_management_backend
                == ContextManagementBackend::Local {
                Ok((config.switched_off(), Some(ContextManagementBackend::Codex)))
            } else {
                Ok((config, None))
            }
        },
        _ => Ok((config, None)),
    }
}

/// Lets the record of a thread that is resumed decide on its backend.
pub fn resolve_resumed_backend(config: &mut Config, history: &InitialHistory, source: SessionSource) -> (outcome:
    Result<Option<ContextManagementBackend>, String>)
    ensures
        match resumed_config(old(config)@, *history, source) {
            Ok((after, backend)) => outcome matches Ok(found) && found == backend && final(config)@ == after,
            Err(reason) => outcome matches Err(error) && error@ == reason && final(config)@ == old(config)@,
        },
{
    let items = match history {
        InitialHistory::Resumed(items) => items,
        _ => {
            return Ok(None);
        },
    };
    let meta = find_meta(items);
    let recorded_local: bool = match meta {
        Some(meta) => match meta.context_management_backend {
            Some(ContextManagementBackend::Local) => true,
            _ => false,
        },
        None => false,
    };
    let of_host: bool = match meta {
        Some(meta) => match meta.source {
            SessionSource::InternalAgent => true,
            _ => false,
        },
        None => false,
    };
    if recorded_local {
        return match source {
            SessionSource::InternalAgent => Err(
                "local context recovery is not available to internal agents".to_owned(),
            ),
            SessionSource::SpawnedChild => {
                if of_host {
                    Err("local context recovery is not available to internal agents".to_owned())
                } else {
                    config.context_management_backend = ContextManagementBackend::Local;
                    config.context_management = true;
                    Ok(Some(ContextManagementBackend::Local))
                }
            },
            SessionSource::Root => {
                if of_host {
                    Err("local context recovery is not available to internal agents".to_owned())
                } else {
                    Ok(None)
                }
            },
        };
    }
    let of_agent: bool = match source {
        SessionSource::Root => false,
        _ => true,
    };
    let chosen_local: bool = match config.context_management_backend {
        ContextManagementBackend::Local => true,
        ContextManagementBackend::Codex => false,
    };
    if of_agent && chosen_local {
        switch_off(config);
        return Ok(Some(ContextManagementBackend::Codex));
    }
    Ok(None)
}

/// An agent of the host never runs with the local backend: it goes without, or does not start because the
/// host cannot switch the backend or the budget off.
pub proof fn law_internal_agents_go_without(config: ConfigView, effective: TomlView, replies: HostRepliesView)
    ensures
        ({
            let (after, outcome) = activated(config, SessionSource::InternalAgent, effective, replies);
            &&& outcome is Ok ==> !after.is_local()
            &&& outcome is Err ==> replies.management_disabled is Err || replies.budget_disabled is Err
        }),
{
}

/// A thread of a person and one that was spawned start alike.
pub proof fn law_children_activate_like_roots(config: ConfigView, effective: TomlView, replies: HostRepliesView)
    ensures
        activated(config, SessionSource::SpawnedChild, effective, replies) == activated(
            config,
            SessionSource::Root,
            effective,
            replies,
        ),
{
}

/// A session that starts with the local backend has the budget with its history and notes; starting it
/// once more changes nothing.
pub proof fn law_activation_is_stable(
    config: ConfigView,
    source: SessionSource,
    effective: TomlView,
    replies: HostRepliesView,
)
    requires
        activated(config, source, effective, replies).1 is Ok,
    ensures
        ({
            let after = activated(config, source, effective, replies).0;
            &&& after.is_local() ==> after.token_budget_feature && (after.token_budget matches Some(budget)
                && budget.use_history_notes_extension)
            &&& activated(after, source, effective, replies).1 is Ok
            &&& activated(after, source, effective, replies).0 == after
        }),
{
}

/// Why a store directory is refused.
pub open spec fn store_dir_refusal() -> Seq<char> {
    "features.context_management.local_store_dir must be an absolute, normalized path"@
}

/// The names of a directory below the root of the file system: the path is absolute and each of its names
/// means itself.
pub open spec fn store_names(path: Seq<char>) -> Result<Seq<Seq<char>>, Seq<char>> {
    if path.len() > 0 && path[0] == '/' && ordinary_names(pieces(path.skip(1), '/')) {
        Ok(pieces(path.skip(1), '/'))
    } else {
        Err(store_dir_refusal())
    }
}

/// What an outcome with names holds.
pub open spec fn names_outcome(outcome: Result<Vec<String>, String>) -> Result<Seq<Seq<char>>, Seq<char>> {
    match outcome {
        Ok(names) => Ok(texts_view(names@)),
        Err(error) => Err(error@),
    }
}

/// The names of a directory below the root of the file system.
pub fn parse_store_dir(path: &str) -> (outcome: Result<Vec<String>, String>)
    ensures
        names_outcome(outcome) == store_names(path@),
{
    let count: usize = path.unicode_len();
    if count > 0 && path.get_char(0) == '/' {
        let rest = path.substring_char(1, count);
        assert(rest@ =~= path@.skip(1));
        let names = split(rest, '/');
        if is_ordinary_row(&names) {
            return Ok(names);
        }
    }
    Err("features.context_management.local_store_dir must be an absolute, normalized path".to_owned())
}

/// The directories that must be real ones, from the topmost down, each by its names below the home or, for
/// an explicit store, below the root of the file system.
pub open spec fn store_directories(root: StoreRootView, thread_id: Seq<char>) -> Seq<Seq<Seq<char>>> {
    match root {
        StoreRootView::Home => seq![
            seq!["context-management-local"@],
            seq!["context-management-local"@, thread_id],
        ],
        StoreRootView::Explicit(names) => Seq::new(names.len(), |i: int| names.take(i + 1)).push(
            names.push(thread_id),
        ),
    }
}

/// What rows of names hold.
pub open spec fn rows_view(rows: Seq<Vec<String>>) -> Seq<Seq<Seq<char>>> {
    rows.map_values(|row: Vec<String>| texts_view(row@))
}

/// The first names of a row.
fn first_names(names: &Vec<String>, count: usize) -> (first: Vec<String>)
    requires
        count <= names@.len(),
    ensures
        texts_view(first@) == texts_view(names@).take(count as int),
{
    let mut first: Vec<String> = Vec::new();
    let mut index: usize = 0;
    while index < count
        invariant
            index <= count <= names@.len(),
            first@.len() == index,
            forall|i: int| 0 <= i < index ==> (#[trigger] first@[i])@ == names@[i]@,
        decreases count - index,
    {
        first.push(names[index].clone());
        index = index + 1;
    }
    assert(texts_view(first@) =~= texts_view(names@).take(count as int));
    first
}

/// The directories that must be real ones.
pub fn directories_of(root: &StoreRoot, thread_id: &str) -> (rows: Vec<Vec<String>>)
    ensures
        rows_view(rows@) == store_directories(root@, thread_id@),
{
    let mut rows: Vec<Vec<String>> = Vec::new();
    match root {
        StoreRoot::Home => {
            let mut first: Vec<String> = Vec::new();
            first.push("context-management-local".to_owned());
            assert(texts_view(first@) =~= seq!["context-management-local"@]);
            let mut second: Vec<String> = Vec::new();
            second.push("context-management-local".to_owned());
            second.push(thread_id.to_owned());
            assert(texts_view(second@) =~= seq!["context-management-local"@, thread_id@]);
            rows.push(first);
            rows.push(second);
            assert(rows_view(rows@) =~= store_directories(root@, thread_id@));
        },
        StoreRoot::Explicit(names) => {
            let ghost views = texts_view(names@);
            let mut count: usize = 0;
            while count < names.len()
                invariant
                    count <= names@.len(),
                    views == texts_view(names@),
                    views.len() == names@.len(),
                    rows@.len() == count,
                    forall|i: int| 0 <= i < count ==> texts_view((#[trigger] rows@[i])@) == views.take(i + 1),
                decreases names@.len() - count,
            {
                rows.push(first_names(names, count + 1));
                count = count + 1;
            }
            let mut last = first_names(names, names.len());
            let ghost before = last@;
            last.push(thread_id.to_owned());
            assert(views.take(views.len() as int) =~= views);
            assert(texts_view(last@) =~= views.push(thread_id@));
            rows.push(last);
            assert(rows_view(rows@) =~= store_directories(root@, thread_id@));
        },
    }
    rows
}

/// The record of a thread's backend.
pub open spec fn manifest_view(thread_id: Seq<char>) -> JsonView {
    JsonView::Object(
        map![
            "version"@ => unsigned_view(1),
            "backend"@ => JsonView::Text("local"@),
            "thread_id"@ => JsonView::Text(thread_id),
        ],
    )
}

/// The record of a thread's backend.
fn manifest(thread_id: &str) -> (value: Json)
    ensures
        value@ == manifest_view(thread_id@),
        plain_within(value@, nesting_limit()),
{
    let mut value = Json::object();
    value.set("version", Json::unsigned(1));
    value.set("backend", Json::text("local"));
    value.set("thread_id", Json::text(thread_id));
    proof {
        reveal_with_fuel(plain_within, 2);
    }
    value
}

/// The bytes are the record of the thread.
pub open spec fn records_thread(bytes: Seq<u8>, thread_id: Seq<char>) -> bool {
    bytes.len() <= MANIFEST_LIMIT && reads_as(bytes, manifest_view(thread_id))
}

/// The text of the record of a thread's backend. Its bytes are that thread's record and no other's, as
/// long as they are not too many.
pub fn manifest_text(thread_id: &str) -> (text: String)
    ensures
        text@ == json_text(manifest_view(thread_id@)),
        utf8_len(text@) == json_size(manifest_view(thread_id@)),
        utf8_len(text@) <= MANIFEST_LIMIT ==> records_thread(encode_utf8(text@), thread_id@),
        forall|other: Seq<char>|
            #[trigger] records_thread(encode_utf8(text@), other) ==> other == thread_id@,
{
    let value = manifest(thread_id);
    let text = value.to_text();
    proof {
        assert forall|other: Seq<char>| #[trigger] records_thread(encode_utf8(text@), other) implies other
            == thread_id@ by {
            lemma_manifest_tells_thread(other, thread_id@);
        }
    }
    text
}

/// Records of different threads differ.
proof fn lemma_manifest_tells_thread(left: Seq<char>, right: Seq<char>)
    requires
        manifest_view(left) == manifest_view(right),
    ensures
        left == right,
{
    assert(manifest_view(left)->Object_0["thread_id"@] == JsonView::Text(left));
    assert(manifest_view(right)->Object_0["thread_id"@] == JsonView::Text(right));
}

/// Whether the bytes are the record of the thread.
pub fn is_record_of(bytes: &Vec<u8>, thread_id: &str) -> (same: bool)
    ensures
        same == records_thread(bytes@, thread_id@),
{
    if bytes.len() > MANIFEST_LIMIT {
        return false;
    }
    reads_back(bytes.as_slice(), &manifest(thread_id))
}

/// A failure of the local backend itself.
pub open spec fn refused(message: Seq<char>) -> IoFailureView {
    IoFailureView { kind: IoKind::Other, message }
}

/// The history holds records of another thread.
pub open spec fn inherits(history: InitialHistory) -> bool {
    ||| history is Forked
    ||| exists|i: int|
        0 <= i < records_of(history).len() && (#[trigger] records_of(history)[i] matches RolloutItem::SessionMeta(
            meta,
        ) && (meta.history_base_end_ordinal is Some || meta.forked_from_id is Some))
}

/// Whether one of the records tells of another thread's history.
fn has_inherited(items: &Vec<RolloutItem>) -> (found: bool)
    ensures
        found == exists|i: int|
            0 <= i < items@.len() && (#[trigger] items@[i] matches RolloutItem::SessionMeta(meta) && (
            meta.history_base_end_ordinal is Some || meta.forked_from_id is Some)),
{
    let mut index: usize = 0;
    while index < items.len()
        invariant
            index <= items@.len(),
            forall|i: int|
                0 <= i < index ==> !(#[trigger] items@[i] matches RolloutItem::SessionMeta(meta) && (
                meta.history_base_end_ordinal is Some || meta.forked_from_id is Some)),
        decreases items@.len() - index,
    {
        if let RolloutItem::SessionMeta(meta) = &items[index] {
            if meta.history_base_end_ordinal.is_some() || meta.forked_from_id.is_some() {
                return true;
            }
        }
        index = index + 1;
    }
    false
}

/// Whether the history holds records of another thread.
fn is_inherited(history: &InitialHistory) -> (found: bool)
    ensures
        found == inherits(*history),
{
    match history {
        InitialHistory::New => false,
        InitialHistory::Forked(_) => true,
        InitialHistory::Resumed(items) => has_inherited(items),
    }
}

/// What comes next when a thread is tied to the local backend.
#[derive(Debug)]
pub enum PrepareAction {
    /// Look at the directory with this number.
    InspectDirectory(usize),
    /// Make the directory with this number, for its owner alone.
    CreateDirectory(usize),
    /// Look at the record.
    InspectManifest,
    /// Read the record, at most one byte more than the limit.
    ReadManifest,
    /// Write this text to a new record, for its owner alone, and have it on disk.
    WriteManifest(String),
    /// The preparation is over.
    Finish(Result<(), IoFailure>),
}

/// What a `PrepareAction` holds.
#[verifier::ext_equal]
pub enum PrepareActionView {
    InspectDirectory(usize),
    CreateDirectory(usize),
    InspectManifest,
    ReadManifest,
    WriteManifest(Seq<char>),
    Finish(Result<(), IoFailureView>),
}

impl View for PrepareAction {
    type V = PrepareActionView;

    open spec fn view(&self) -> PrepareActionView {
        match self {
            PrepareAction::InspectDirectory(index) => PrepareActionView::InspectDirectory(*index),
            PrepareAction::CreateDirectory(index) => PrepareActionView::CreateDirectory(*index),
            PrepareAction::InspectManifest => PrepareActionView::InspectManifest,
            PrepareAction::ReadManifest => PrepareActionView::ReadManifest,
            PrepareAction::WriteManifest(text) => PrepareActionView::WriteManifest(text@),
            PrepareAction::Finish(outcome) => PrepareActionView::Finish(
                crate::note_storage::done_outcome(*outcome),
            ),
        }
    }
}

/// What came of an action.
#[derive(Debug)]
pub enum PrepareReply {
    Status(PathStatus),
    Done,
    Bytes(Vec<u8>),
    Failed(IoFailure),
}

/// What a preparation waits for.
#[derive(Clone, Copy, Debug, PartialEq, Eq, Structural)]
pub enum PrepareStage {
    Directory(usize),
    Creation(usize),
    ManifestStatus,
    ManifestContents,
    ManifestWrite,
}

/// How far a thread is tied to the local backend.
#[derive(Debug)]
pub struct Preparation {
    pub local: bool,
    pub resumed: bool,
    pub thread_id: String,
    pub directory_count: usize,
    pub stage: PrepareStage,
}

/// What a `Preparation` holds.
#[verifier::ext_equal]
pub struct PreparationView {
    pub local: bool,
    pub resumed: bool,
    pub thread_id: Seq<char>,
    pub directory_count: usize,
    pub stage: PrepareStage,
}

impl View for Preparation {
    type V = PreparationView;

    open spec fn view(&self) -> PreparationView {
        PreparationView {
            local: self.local,
            resumed: self.resumed,
            thread_id: self.thread_id@,
            directory_count: self.directory_count,
            stage: self.stage,
        }
    }
}

/// What a preparation and its next action hold.
pub open spec fn preparation_view(step: (Option<Preparation>, PrepareAction)) -> (
    Option<PreparationView>,
    PrepareActionView,
) {
    match step.0 {
        Some(state) => (Some(state@), step.1@),
        None => (None, step.1@),
    }
}

/// A preparation that is over.
pub open spec fn prepared(outcome: Result<(), IoFailureView>) -> (Option<PreparationView>, PrepareActionView) {
    (None, PrepareActionView::Finish(outcome))
}

/// How a preparation starts. A thread that is neither local nor resumed needs none; a local thread with
/// inherited history is refused.
pub open spec fn prepare_start(config: ConfigView, history: InitialHistory, thread_id: Seq<char>) -> (
    Option<PreparationView>,
    PrepareActionView,
) {
    let local = config.is_local();
    let resumed = history is Resumed;
    if !local && !resumed {
        prepared(Ok(()))
    } else if local && inherits(history) {
        prepared(Err(refused("local context does not support inherited fork history"@)))
    } else {
        (
            Some(
                PreparationView {
                    local,
                    resumed,
                    thread_id,
                    directory_count: store_directories(config.store_root, thread_id).len() as usize,
                    stage: PrepareStage::Directory(0),
                },
            ),
            PrepareActionView::InspectDirectory(0),
        )
    }
}

impl PreparationView {
    /// The preparation waits for something else.
    pub open spec fn waiting(self, stage: PrepareStage, action: PrepareActionView) -> (
        Option<PreparationView>,
        PrepareActionView,
    ) {
        (Some(PreparationView { stage, ..self }), action)
    }

    /// The directory with the given number is there: the next one follows, and behind the last the record,
    /// which a new thread writes and a resumed one shows.
    pub open spec fn past_directory(self, index: usize) -> (Option<PreparationView>, PrepareActionView) {
        if index + 1 < self.directory_count {
            let next = (index + 1) as usize;
            self.waiting(PrepareStage::Directory(next), PrepareActionView::InspectDirectory(next))
        } else if self.resumed {
            self.waiting(PrepareStage::ManifestStatus, PrepareActionView::InspectManifest)
        } else {
            self.waiting(
                PrepareStage::ManifestWrite,
                PrepareActionView::WriteManifest(json_text(manifest_view(self.thread_id))),
            )
        }
    }

    /// The status of a directory decides.
    pub open spec fn on_directory(self, index: usize, status: PathStatus) -> (
        Option<PreparationView>,
        PrepareActionView,
    ) {
        match status {
            PathStatus::Directory => self.past_directory(index),
            PathStatus::Failed(failure) => if failure.kind == IoKind::NotFound {
                if self.local && self.resumed {
                    prepared(Err(refused("thread has no compatible local context record"@)))
                } else if !self.local {
                    prepared(Ok(()))
                } else {
                    self.waiting(
                        PrepareStage::Creation(index),
                        PrepareActionView::CreateDirectory(index),
                    )
                }
            } else {
                prepared(Err(failure@))
            },
            _ => prepared(Err(refused("invalid local context directory"@))),
        }
    }

    /// The status of the record decides.
    pub open spec fn on_manifest(self, status: PathStatus) -> (Option<PreparationView>, PrepareActionView) {
        match status {
            PathStatus::Failed(failure) => if failure.kind == IoKind::NotFound && !self.local {
                prepared(Ok(()))
            } else {
                prepared(Err(failure@))
            },
            _ => if !self.local {
                prepared(Err(refused("resume requires the recorded local context backend"@)))
            } else {
                match status {
                    PathStatus::File { bytes } => if bytes > MANIFEST_LIMIT {
                        prepared(Err(refused("invalid local context record"@)))
                    } else {
                        self.waiting(PrepareStage::ManifestContents, PrepareActionView::ReadManifest)
                    },
                    _ => prepared(Err(refused("invalid local context record"@))),
                }
            },
        }
    }

    /// How a preparation goes on. A reply that does not belong to what it waits for ends it.
    pub open spec fn next(self, reply: PrepareReply) -> (Option<PreparationView>, PrepareActionView) {
        match (self.stage, reply) {
            (_, PrepareReply::Failed(failure)) => prepared(Err(failure@)),
            (PrepareStage::Directory(index), PrepareReply::Status(status)) => self.on_directory(index, status),
            (PrepareStage::Creation(index), PrepareReply::Done) => self.past_directory(index),
            (PrepareStage::ManifestStatus, PrepareReply::Status(status)) => self.on_manifest(status),
            (PrepareStage::ManifestContents, PrepareReply::Bytes(bytes)) => if records_thread(
                bytes@,
                self.thread_id,
            ) {
                prepared(Ok(()))
            } else {
                prepared(Err(refused("incompatible local context record"@)))
            },
            (PrepareStage::ManifestWrite, PrepareReply::Done) => prepared(Ok(())),
            _ => prepared(Err(refused("unexpected reply"@))),
        }
    }
}

/// A preparation that is over for a reason of its own.
fn refuse(message: &str) -> (step: (Option<Preparation>, PrepareAction))
    ensures
        preparation_view(step) == prepared(Err(refused(message@))),
{
    (None, PrepareAction::Finish(Err(IoFailure::new(IoKind::Other, message))))
}

/// Starts to tie a new thread to the local backend, or to check that a resumed one is tied to it. Only
/// the host's own thread ID is taken, never an argument of a tool.
pub fn prepare(config: &Config, history: &InitialHistory, thread_id: &str) -> (step: (
    Option<Preparation>,
    PrepareAction,
))
    ensures
        preparation_view(step) == prepare_start(config@, *history, thread_id@),
{
    let local: bool = enabled(config);
    let resumed: bool = match history {
        InitialHistory::Resumed(_) => true,
        _ => false,
    };
    if !local && !resumed {
        return (None, PrepareAction::Finish(Ok(())));
    }
    if local && is_inherited(history) {
        return refuse("local context does not support inherited fork history");
    }
    let rows = directories_of(&config.store_root, thread_id);
    assert(rows_view(rows@).len() == rows@.len());
    let state = Preparation {
        local,
        resumed,
        thread_id: thread_id.to_owned(),
        directory_count: rows.len(),
        stage: PrepareStage::Directory(0),
    };
    (Some(state), PrepareAction::InspectDirectory(0))
}

impl Preparation {
    /// The preparation waits for something else.
    fn wait(self, stage: PrepareStage, action: PrepareAction) -> (step: (Option<Preparation>, PrepareAction))
        ensures
            preparation_view(step) == self@.waiting(stage, action@),
    {
        (Some(Preparation { stage, ..self }), action)
    }

    /// The directory with the given number is there.
    fn go_past(self, index: usize) -> (step: (Option<Preparation>, PrepareAction))
        ensures
            preparation_view(step) == self@.past_directory(index),
    {
        if index < self.directory_count && index + 1 < self.directory_count {
            let next: usize = index + 1;
            self.wait(PrepareStage::Directory(next), PrepareAction::InspectDirectory(next))
        } else if self.resumed {
            self.wait(PrepareStage::ManifestStatus, PrepareAction::InspectManifest)
        } else {
            let text = manifest_text(self.thread_id.as_str());
            self.wait(PrepareStage::ManifestWrite, PrepareAction::WriteManifest(text))
        }
    }

    /// The status of a directory decides.
    fn take_directory(self, index: usize, status: PathStatus) -> (step: (Option<Preparation>, PrepareAction))
        ensures
            preparation_view(step) == self@.on_directory(index, status),
    {
        match status {
            PathStatus::Directory => self.go_past(index),
            PathStatus::Failed(failure) => {
                let gone: bool = match failure.kind {
                    IoKind::NotFound => true,
                    _ => false,
                };
                if !gone {
                    return (None, PrepareAction::Finish(Err(failure)));
                }
                if self.local && self.resumed {
                    refuse("thread has no compatible local context record")
                } else if !self.local {
                    (None, PrepareAction::Finish(Ok(())))
                } else {
                    self.wait(PrepareStage::Creation(index), PrepareAction::CreateDirectory(index))
                }
            },
            _ => refuse("invalid local context directory"),
        }
    }

    /// The status of the record decides.
    fn take_manifest(self, status: PathStatus) -> (step: (Option<Preparation>, PrepareAction))
        ensures
            preparation_view(step) == self@.on_manifest(status),
    {
        match status {
            PathStatus::Failed(failure) => {
                let gone: bool = match failure.kind {
                    IoKind::NotFound => true,
                    _ => false,
                };
                if gone && !self.local {
                    (None, PrepareAction::Finish(Ok(())))
                } else {
                    (None, PrepareAction::Finish(Err(failure)))
                }
            },
            other => {
                if !self.local {
                    return refuse("resume requires the recorded local context backend");
                }
                match other {
                    PathStatus::File { bytes } => {
                        if bytes > MANIFEST_LIMIT as u64 {
                            refuse("invalid local context record")
                        } else {
                            self.wait(PrepareStage::ManifestContents, PrepareAction::ReadManifest)
                        }
                    },
                    _ => refuse("invalid local context record"),
                }
            },
        }
    }

    /// Goes on once an action is over.
    pub fn next(self, reply: PrepareReply) -> (step: (Option<Preparation>, PrepareAction))
        ensures
            preparation_view(step) == self@.next(reply),
    {
        match reply {
            PrepareReply::Failed(failure) => (None, PrepareAction::Finish(Err(failure))),
            PrepareReply::Status(status) => match self.stage {
                PrepareStage::Directory(index) => self.take_directory(index, status),
                PrepareStage::ManifestStatus => self.take_manifest(status),
                _ => refuse("unexpected reply"),
            },
            PrepareReply::Done => match self.stage {
                PrepareStage::Creation(index) => self.go_past(index),
                PrepareStage::ManifestWrite => (None, PrepareAction::Finish(Ok(()))),
                _ => refuse("unexpected reply"),
            },
            PrepareReply::Bytes(bytes) => match self.stage {
                PrepareStage::ManifestContents => {
                    if is_record_of(&bytes, self.thread_id.as_str()) {
                        (None, PrepareAction::Finish(Ok(())))
                    } else {
                        refuse("incompatible local context record")
                    }
                },
                _ => refuse("unexpected reply"),
            },
        }
    }
}

impl PreparationView {
    /// What holds of every preparation: the directory that it is at is one of its own; one of a thread
    /// that is not resumed is of a local thread and never looks at a record; one of a resumed thread
    /// neither makes a directory nor writes a record.
    pub open spec fn inv(self) -> bool {
        &&& self.stage matches PrepareStage::Directory(index) ==> index < self.directory_count
        &&& self.stage matches PrepareStage::Creation(index) ==> index < self.directory_count
        &&& !self.resumed ==> self.local && !(self.stage is ManifestStatus) && !(self.stage is ManifestContents)
        &&& self.resumed ==> !(self.stage is Creation) && !(self.stage is ManifestWrite)
        &&& self.stage is ManifestContents ==> self.local
    }

    /// `later` is a preparation of the same thread in the same mode.
    pub open spec fn kept_by(self, later: PreparationView) -> bool {
        &&& later.local == self.local
        &&& later.resumed == self.resumed
        &&& later.thread_id == self.thread_id
        &&& later.directory_count == self.directory_count
    }
}

/// A preparation starts well, and every reply keeps what holds of it.
pub proof fn law_preparation_holds(
    config: ConfigView,
    history: InitialHistory,
    thread_id: Seq<char>,
    state: PreparationView,
    reply: PrepareReply,
)
    requires
        store_directories(config.store_root, thread_id).len() <= usize::MAX,
    ensures
        prepare_start(config, history, thread_id).0 matches Some(first) ==> first.inv() && first.thread_id
            == thread_id,
        state.inv() ==> (state.next(reply).0 matches Some(after) ==> after.inv() && state.kept_by(after)),
        state.inv() ==> (state.next(reply).1 matches PrepareActionView::InspectDirectory(index) ==> index
            < state.directory_count),
        state.inv() ==> (state.next(reply).1 matches PrepareActionView::CreateDirectory(index) ==> index
            < state.directory_count),
{
}

/// A local thread that is resumed is accepted only by its own record: no other reply ends its preparation
/// well.
pub proof fn law_resume_needs_own_record(state: PreparationView, reply: PrepareReply)
    requires
        state.inv(),
        state.local,
        state.resumed,
        state.next(reply).1 matches PrepareActionView::Finish(outcome) && outcome is Ok,
    ensures
        state.stage == PrepareStage::ManifestContents,
        reply matches PrepareReply::Bytes(bytes) && records_thread(bytes@, state.thread_id),
{
}

/// A thread that is not resumed is accepted only once its record was written.
pub proof fn law_new_thread_is_recorded(state: PreparationView, reply: PrepareReply)
    requires
        state.inv(),
        !state.resumed,
        state.next(reply).1 matches PrepareActionView::Finish(outcome) && outcome is Ok,
    ensures
        state.stage == PrepareStage::ManifestWrite,
        reply is Done,
{
}

/// A thread that is resumed makes no directory and writes no record.
pub proof fn law_resume_writes_nothing(state: PreparationView, reply: PrepareReply)
    requires
        state.resumed,
    ensures
        !(state.next(reply).1 is CreateDirectory),
        !(state.next(reply).1 is WriteManifest),
{
}

/// Nothing but real directories lies on the way to a thread's record: any other thing ends the
/// preparation.
pub proof fn law_only_directories_are_passed(state: PreparationView, index: usize, status: PathStatus)
    requires
        state.stage == PrepareStage::Directory(index),
        status is Symlink || status is File || status is Other,
    ensures
        state.next(PrepareReply::Status(status)).1 matches PrepareActionView::Finish(outcome) && outcome is Err,
{
}

/// A thread that is not local is not resumed where a record of the local backend lies.
pub proof fn law_recorded_threads_need_the_backend(state: PreparationView, bytes: u64)
    requires
        !state.local,
        state.stage == PrepareStage::ManifestStatus,
    ensures
        state.next(PrepareReply::Status(PathStatus::File { bytes })).1 matches PrepareActionView::Finish(outcome)
            && outcome is Err,
{
}

} // verus!
