//! What activation, resuming and preparation come to, stated over the configuration, the records and what
//! lies on the disk.

use vstd::prelude::*;

use crate::context::activated;
use crate::context::budget_conflict;
use crate::context::first_meta;
use crate::context::prepare_start;
use crate::context::resumed_config;
use crate::context::store_directories;
use crate::context::store_names;
use crate::context::ConfigView;
use crate::context::HostRepliesView;
use crate::context::InitialHistory;
use crate::context::PreparationView;
use crate::context::PrepareActionView;
use crate::context::PrepareReply;
use crate::context::PrepareStage;
use crate::context::StoreRootView;
use crate::context::TokenBudgetView;
use crate::context::TomlView;
use crate::json::json_parsed;
use crate::json::json_text;
use crate::json::JsonView;
use crate::json::NumberView;
use crate::note_storage::IoFailureView;
use crate::note_storage::IoKind;
use crate::note_storage::PathStatus;
use crate::records::ContextManagementBackend;
use crate::records::RolloutItem;
use crate::records::SessionMeta;
use crate::records::SessionSource;
use crate::text::joined;
use crate::text::law_pieces_join;
use crate::text::pieces;

verus! {

/// What lies on the disk where a thread's record belongs: the directories on the way from the topmost down,
/// and the record with its contents.
pub struct Disk {
    pub directories: Seq<PathStatus>,
    pub record: PathStatus,
    pub contents: Vec<u8>,
}

/// What the disk replies to an action. What is to be made can be made.
pub open spec fn reply_of(disk: Disk, action: PrepareActionView) -> PrepareReply {
    match action {
        PrepareActionView::InspectDirectory(index) => PrepareReply::Status(disk.directories[index as int]),
        PrepareActionView::InspectManifest => PrepareReply::Status(disk.record),
        PrepareActionView::ReadManifest => PrepareReply::Bytes(disk.contents),
        _ => PrepareReply::Done,
    }
}

/// What a preparation comes to on a disk within a number of replies; none where it is not over by then.
pub open spec fn comes_to(
    disk: Disk,
    step: (Option<PreparationView>, PrepareActionView),
    replies: nat,
) -> Option<Result<(), IoFailureView>>
    decreases replies,
{
    match step {
        (_, PrepareActionView::Finish(outcome)) => Some(outcome),
        (Some(state), action) => if replies == 0 {
            None
        } else {
            comes_to(disk, state.next(reply_of(disk, action)), (replies - 1) as nat)
        },
        _ => None,
    }
}

/// Nothing stands there.
pub open spec fn absent(status: PathStatus) -> bool {
    status matches PathStatus::Failed(failure) && failure.kind == IoKind::NotFound
}

/// Directories are passed one by one.
proof fn lemma_passes(disk: Disk, state: PreparationView, index: usize, stop: int, replies: nat)
    requires
        state.stage == PrepareStage::Directory(index),
        index <= stop < state.directory_count,
        state.directory_count == disk.directories.len(),
        forall|i: int| index <= i < stop ==> #[trigger] disk.directories[i] is Directory,
        replies >= stop - index,
    ensures
        comes_to(disk, (Some(state), PrepareActionView::InspectDirectory(index)), replies) == comes_to(
            disk,
            (
                Some(PreparationView { stage: PrepareStage::Directory(stop as usize), ..state }),
                PrepareActionView::InspectDirectory(stop as usize),
            ),
            (replies - (stop - index)) as nat,
        ),
    decreases stop - index,
{
    if index < stop {
        assert(disk.directories[index as int] is Directory);
        let next = (index + 1) as usize;
        let after = PreparationView { stage: PrepareStage::Directory(next), ..state };
        assert(state.next(reply_of(disk, PrepareActionView::InspectDirectory(index))) == (
            Some(after),
            PrepareActionView::InspectDirectory(next),
        ));
        lemma_passes(disk, after, next, stop, (replies - 1) as nat);
    }
}

/// A thread that is resumed without the local backend is accepted wherever no record of that backend lies:
/// where one of the directories on the way, or the record itself, is not there.
pub proof fn law_resume_without_record_is_accepted(
    config: ConfigView,
    history: InitialHistory,
    thread_id: Seq<char>,
    disk: Disk,
    stop: int,
    replies: nat,
)
    requires
        !(config.context_management_backend == ContextManagementBackend::Local && config.context_management),
        history is Resumed,
        0 < disk.directories.len() == store_directories(config.store_root, thread_id).len() <= usize::MAX,
        0 <= stop <= disk.directories.len(),
        forall|i: int| 0 <= i < stop ==> #[trigger] disk.directories[i] is Directory,
        stop < disk.directories.len() ==> absent(disk.directories[stop]),
        stop == disk.directories.len() ==> absent(disk.record),
        replies >= disk.directories.len() + 1,
    ensures
        comes_to(disk, prepare_start(config, history, thread_id), replies) == Some(Ok::<_, IoFailureView>(())),
{
    reveal_with_fuel(comes_to, 3);
    let state = prepare_start(config, history, thread_id).0->0;
    let last = if stop == disk.directories.len() {
        stop - 1
    } else {
        stop
    };
    lemma_passes(disk, state, 0, last, replies);
}

/// A thread that is resumed without the local backend is refused where anything lies at its record, and
/// where it cannot be seen that nothing lies there.
pub proof fn law_resume_without_backend_is_refused(
    config: ConfigView,
    history: InitialHistory,
    thread_id: Seq<char>,
    disk: Disk,
    stop: int,
    replies: nat,
)
    requires
        !(config.context_management_backend == ContextManagementBackend::Local && config.context_management),
        history is Resumed,
        0 < disk.directories.len() == store_directories(config.store_root, thread_id).len() <= usize::MAX,
        0 <= stop <= disk.directories.len(),
        forall|i: int| 0 <= i < stop ==> #[trigger] disk.directories[i] is Directory,
        stop < disk.directories.len() ==> !absent(disk.directories[stop]) && !(disk.directories[stop] is Directory),
        stop == disk.directories.len() ==> !absent(disk.record),
        replies >= disk.directories.len() + 1,
    ensures
        comes_to(disk, prepare_start(config, history, thread_id), replies) matches Some(outcome) && outcome is Err,
{
    reveal_with_fuel(comes_to, 3);
    let state = prepare_start(config, history, thread_id).0->0;
    let last = if stop == disk.directories.len() {
        stop - 1
    } else {
        stop
    };
    lemma_passes(disk, state, 0, last, replies);
}

/// One of the records tells that the thread goes on with another thread's history.
pub open spec fn tells_of_inheritance(items: Seq<RolloutItem>) -> bool {
    exists|i: int|
        0 <= i < items.len() && (#[trigger] items[i] matches RolloutItem::SessionMeta(meta) && (
        meta.history_base_end_ordinal is Some || meta.forked_from_id is Some))
}

/// A local thread with a history of its own is resumed exactly where all the directories are real ones and
/// its record is a file of at most 1,024 bytes that holds its own ID under the backend's name.
pub proof fn law_local_resume_needs_all(
    config: ConfigView,
    items: Vec<RolloutItem>,
    thread_id: Seq<char>,
    disk: Disk,
    replies: nat,
)
    requires
        config.context_management_backend == ContextManagementBackend::Local && config.context_management,
        !tells_of_inheritance(items@),
        0 < disk.directories.len() == store_directories(config.store_root, thread_id).len() <= usize::MAX,
        replies >= disk.directories.len() + 2,
    ensures
        ({
            let accepted = {
                &&& forall|i: int| 0 <= i < disk.directories.len() ==> #[trigger] disk.directories[i] is Directory
                &&& disk.record matches PathStatus::File { bytes } && bytes <= 1024
                &&& disk.contents@.len() <= 1024
                &&& json_parsed(disk.contents@) == Ok::<_, Seq<char>>(
                    JsonView::Object(
                        map![
                            "version"@ => JsonView::Number(NumberView::Unsigned(1)),
                            "backend"@ => JsonView::Text("local"@),
                            "thread_id"@ => JsonView::Text(thread_id),
                        ],
                    ),
                )
            };
            let outcome = comes_to(disk, prepare_start(config, InitialHistory::Resumed(items), thread_id), replies);
            &&& accepted ==> outcome == Some(Ok::<_, IoFailureView>(()))
            &&& !accepted ==> (outcome matches Some(outcome) && outcome is Err)
        }),
{
    reveal_with_fuel(comes_to, 4);
    let history = InitialHistory::Resumed(items);
    assert(!crate::context::inherits(history));
    let state = prepare_start(config, history, thread_id).0->0;
    let count = disk.directories.len();
    if forall|i: int| 0 <= i < count ==> #[trigger] disk.directories[i] is Directory {
        lemma_passes(disk, state, 0, count - 1, replies);
        assert(disk.directories[count - 1] is Directory);
    } else {
        let stop = lemma_first_other(disk.directories);
        lemma_passes(disk, state, 0, stop, replies);
    }
}

/// The first that is no directory.
proof fn lemma_first_other(directories: Seq<PathStatus>) -> (stop: int)
    requires
        exists|i: int| 0 <= i < directories.len() && !(#[trigger] directories[i] is Directory),
    ensures
        0 <= stop < directories.len(),
        !(directories[stop] is Directory),
        forall|i: int| 0 <= i < stop ==> #[trigger] directories[i] is Directory,
    decreases directories.len(),
{
    if directories[0] is Directory {
        let rest = directories.drop_first();
        let other = choose|i: int| 0 <= i < directories.len() && !(#[trigger] directories[i] is Directory);
        assert(rest[other - 1] == directories[other]);
        let stop = lemma_first_other(rest) + 1;
        assert(rest[stop - 1] == directories[stop]);
        assert forall|i: int| 0 <= i < stop implies #[trigger] directories[i] is Directory by {
            if i > 0 {
                assert(rest[i - 1] == directories[i]);
            }
        }
        stop
    } else {
        0
    }
}

/// A new local thread is accepted where each of the directories is a real one or not there yet, and refused
/// where anything else is in the way.
pub proof fn law_new_local_thread_makes_its_way(
    config: ConfigView,
    thread_id: Seq<char>,
    disk: Disk,
    replies: nat,
)
    requires
        config.context_management_backend == ContextManagementBackend::Local && config.context_management,
        0 < disk.directories.len() == store_directories(config.store_root, thread_id).len() <= usize::MAX,
        replies >= 2 * disk.directories.len() + 1,
    ensures
        ({
            let open = forall|i: int|
                0 <= i < disk.directories.len() ==> (#[trigger] disk.directories[i] is Directory || absent(
                    disk.directories[i],
                ));
            let outcome = comes_to(disk, prepare_start(config, InitialHistory::New, thread_id), replies);
            &&& open ==> outcome == Some(Ok::<_, IoFailureView>(()))
            &&& !open ==> (outcome matches Some(outcome) && outcome is Err)
        }),
{
    assert(!crate::context::inherits(InitialHistory::New));
    let state = prepare_start(config, InitialHistory::New, thread_id).0->0;
    lemma_makes_way(disk, state, 0, replies);
}

/// The rest of the way of a new thread.
proof fn lemma_makes_way(disk: Disk, state: PreparationView, index: usize, replies: nat)
    requires
        state.stage == PrepareStage::Directory(index),
        index < state.directory_count,
        state.directory_count == disk.directories.len(),
        state.local,
        !state.resumed,
        replies >= 2 * (state.directory_count - index) + 1,
    ensures
        ({
            let open = forall|i: int|
                index <= i < disk.directories.len() ==> (#[trigger] disk.directories[i] is Directory || absent(
                    disk.directories[i],
                ));
            let outcome = comes_to(disk, (Some(state), PrepareActionView::InspectDirectory(index)), replies);
            &&& open ==> outcome == Some(Ok::<_, IoFailureView>(()))
            &&& !open ==> (outcome matches Some(outcome) && outcome is Err)
        }),
    decreases state.directory_count - index,
{
    reveal_with_fuel(comes_to, 4);
    let status = disk.directories[index as int];
    if status is Directory || absent(status) {
        if index + 1 < state.directory_count {
            let next = (index + 1) as usize;
            let after = PreparationView { stage: PrepareStage::Directory(next), ..state };
            let left = if status is Directory {
                (replies - 1) as nat
            } else {
                (replies - 2) as nat
            };
            assert(PreparationView {
                stage: PrepareStage::Directory(next),
                ..(PreparationView { stage: PrepareStage::Creation(index), ..state })
            } == after);
            lemma_makes_way(disk, after, next, left);
        }
    }
}

/// What a preparation changes on the disk: it makes only a directory that it was just told is not there,
/// and it writes only the record of its own thread, of a new one, once the last directory is there.
pub proof fn law_preparation_changes_only_its_own(state: PreparationView, reply: PrepareReply)
    ensures
        state.next(reply).1 matches PrepareActionView::CreateDirectory(index) ==> {
            &&& state.stage == PrepareStage::Directory(index)
            &&& reply matches PrepareReply::Status(status) && absent(status)
            &&& state.local && !state.resumed
        },
        state.next(reply).1 matches PrepareActionView::WriteManifest(text) ==> {
            &&& text == json_text(
                JsonView::Object(
                    map![
                        "version"@ => JsonView::Number(NumberView::Unsigned(1)),
                        "backend"@ => JsonView::Text("local"@),
                        "thread_id"@ => JsonView::Text(state.thread_id),
                    ],
                ),
            )
            &&& !state.resumed
            &&& match state.stage {
                PrepareStage::Directory(index) => index + 1 >= state.directory_count && reply
                    == PrepareReply::Status(PathStatus::Directory),
                PrepareStage::Creation(index) => index + 1 >= state.directory_count && reply is Done,
                _ => false,
            }
        },
{
}

/// Whatever fails ends the preparation with that failure, unless all that is missing is a path.
pub proof fn law_preparation_hands_failures_on(state: PreparationView, reply: PrepareReply)
    ensures
        reply matches PrepareReply::Failed(failure) ==> state.next(reply).1 == PrepareActionView::Finish(
            Err(IoFailureView { kind: failure.kind, message: failure.message@ }),
        ),
        state.stage is Directory || state.stage is ManifestStatus ==> (reply matches PrepareReply::Status(
            PathStatus::Failed(failure),
        ) ==> (failure.kind != IoKind::NotFound ==> state.next(reply).1 == PrepareActionView::Finish(
            Err(IoFailureView { kind: failure.kind, message: failure.message@ }),
        ))),
{
}

/// Which threads are prepared at all: one without the local backend that is not resumed starts at once, and
/// a local one with another thread's history does not start. Every other has its topmost directory looked
/// at first.
pub proof fn law_which_threads_are_prepared(config: ConfigView, history: InitialHistory, thread_id: Seq<char>)
    ensures
        ({
            let local = config.context_management_backend == ContextManagementBackend::Local
                && config.context_management;
            let inherited = match history {
                InitialHistory::New => false,
                InitialHistory::Forked(_) => true,
                InitialHistory::Resumed(items) => tells_of_inheritance(items@),
            };
            match prepare_start(config, history, thread_id) {
                (None, PrepareActionView::Finish(Ok(()))) => !local && !(history is Resumed),
                (None, PrepareActionView::Finish(Err(failure))) => local && inherited && failure.message
                    == "local context does not support inherited fork history"@,
                (Some(state), PrepareActionView::InspectDirectory(index)) => {
                    &&& index == 0
                    &&& state.thread_id == thread_id
                    &&& state.local == local
                    &&& state.resumed <==> history is Resumed
                    &&& local ==> !inherited
                    &&& local || history is Resumed
                },
                _ => false,
            }
        }),
{
    if let InitialHistory::Resumed(items) = history {
        assert(crate::context::records_of(history) == items@);
    }
}

/// The directories of a thread lie one in the other from the topmost down, the last one is named by the
/// thread's ID, and only that one: the way to it is the same for every thread of the store.
pub proof fn law_threads_have_their_own_directory(root: StoreRootView, thread_id: Seq<char>, index: int)
    requires
        0 <= index < store_directories(root, thread_id).len(),
    ensures
        ({
            let rows = store_directories(root, thread_id);
            let way = match root {
                StoreRootView::Home => seq!["context-management-local"@],
                StoreRootView::Explicit(names) => names,
            };
            &&& rows.len() == way.len() + 1
            &&& rows[index].len() == index + 1
            &&& forall|i: int|
                0 <= i <= index ==> #[trigger] rows[index][i] == (if i < way.len() {
                    way[i]
                } else {
                    thread_id
                })
        }),
{
}

/// A store directory is taken exactly where the path is a slash and then names with a slash between each
/// two, none of them empty, "." or "..", and it leads where the path says.
pub proof fn law_store_dir_is_absolute_and_normal(path: Seq<char>)
    ensures
        match store_names(path) {
            Ok(names) => {
                &&& names.len() > 0
                &&& path == "/"@ + joined(names, "/"@)
                &&& forall|i: int|
                    0 <= i < names.len() ==> (#[trigger] names[i]).len() > 0 && names[i] != "."@ && names[i] != ".."@
            },
            Err(message) => {
                &&& message == "features.context_management.local_store_dir must be an absolute, normalized path"@
                &&& path.len() == 0 || path[0] != '/' || exists|i: int|
                    0 <= i < pieces(path.skip(1), '/').len() && ((
                    #[trigger] pieces(path.skip(1), '/')[i]).len() == 0 || pieces(path.skip(1), '/')[i] == "."@
                        || pieces(path.skip(1), '/')[i] == ".."@)
            },
        },
{
    reveal_strlit("/");
    assert("/"@ =~= seq!['/']);
    if path.len() > 0 && path[0] == '/' {
        law_pieces_join(path.skip(1), '/');
        assert(path =~= "/"@ + path.skip(1));
    }
}

/// The settings stand in the way where `features.token_budget` is false, or where its `enabled` or its
/// `use_history_notes_extension` is false; nothing else does.
pub proof fn law_disabled_budget_conflicts(
    settings: TomlView,
    tables: Map<Seq<char>, TomlView>,
    features: Map<Seq<char>, TomlView>,
    budget: Map<Seq<char>, TomlView>,
)
    requires
        settings == TomlView::Table(tables),
    ensures
        !tables.contains_key("features"@) ==> !budget_conflict(settings),
        tables.contains_key("features"@) && tables["features"@] == TomlView::Table(features) ==> {
            &&& !features.contains_key("token_budget"@) ==> !budget_conflict(settings)
            &&& features.contains_key("token_budget"@) && features["token_budget"@] == TomlView::Boolean(false)
                ==> budget_conflict(settings)
            &&& features.contains_key("token_budget"@) && features["token_budget"@] == TomlView::Boolean(true)
                ==> !budget_conflict(settings)
            &&& features.contains_key("token_budget"@) && features["token_budget"@] == TomlView::Table(budget) ==> (
            budget_conflict(settings) <==> (budget.contains_key("enabled"@) && budget["enabled"@]
                == TomlView::Boolean(false)) || (budget.contains_key("use_history_notes_extension"@)
                && budget["use_history_notes_extension"@] == TomlView::Boolean(false)))
        },
{
}

/// A session without the local backend starts as it is. One of a person or of a spawned agent with it must
/// be persistent, must not have the budget switched off, and must be permitted the budget. One of an agent of
/// the host has the backend and the budget switched off, as far as the host can.
pub proof fn law_activation_conditions(
    config: ConfigView,
    source: SessionSource,
    effective: TomlView,
    replies: HostRepliesView,
)
    ensures
        ({
            let (after, outcome) = activated(config, source, effective, replies);
            let local = config.context_management_backend == ContextManagementBackend::Local
                && config.context_management;
            &&& !local ==> outcome is Ok && after == config
            &&& local && source != SessionSource::InternalAgent ==> {
                &&& config.ephemeral ==> outcome == Err::<(), _>("local context requires a persistent thread"@)
                &&& !config.ephemeral && budget_conflict(effective) ==> outcome == Err::<(), _>(
                    "local context conflicts with explicitly disabled token-budget or history-notes settings"@,
                )
                &&& !config.ephemeral && !budget_conflict(effective) && replies.permitted == Ok::<_, Seq<char>>(false)
                    ==> outcome == Err::<(), _>("local context requires token-budget permission"@)
                &&& !config.ephemeral && !budget_conflict(effective) && replies.permitted == Ok::<_, Seq<char>>(true)
                    && (config.token_budget is Some || replies.resolved is Ok) ==> outcome is Ok
                &&& config.ephemeral || budget_conflict(effective) || replies.permitted is Err || replies.permitted
                    == Ok::<_, Seq<char>>(false) ==> after == config
                &&& !config.ephemeral && !budget_conflict(effective) ==> (replies.permitted matches Err(reason)
                    ==> outcome == Err::<(), _>(reason))
                &&& !config.ephemeral && !budget_conflict(effective) && replies.permitted == Ok::<_, Seq<char>>(true)
                    && config.token_budget is None ==> (replies.resolved matches Err(reason) ==> outcome == Err::<(), _>(
                    reason,
                ) && after.token_budget_feature && after.context_management)
                &&& outcome is Ok ==> {
                    let before = match (config.token_budget, replies.resolved) {
                        (Some(budget), _) => budget,
                        (None, Ok(Some(budget))) => budget,
                        _ => TokenBudgetView {
                            use_history_notes_extension: false,
                            auto_compact_fallback_prompt: None,
                            auto_compact_fallback_buffer_tokens: None,
                        },
                    };
                    &&& !config.ephemeral && !budget_conflict(effective) && replies.permitted == Ok::<_, Seq<char>>(true)
                    &&& after.token_budget_feature
                    &&& after.token_budget matches Some(budget) && budget.use_history_notes_extension
                        && budget.auto_compact_fallback_prompt == before.auto_compact_fallback_prompt
                        && budget.auto_compact_fallback_buffer_tokens == before.auto_compact_fallback_buffer_tokens
                    &&& after.context_management && after.context_management_backend
                        == ContextManagementBackend::Local
                }
            }
            &&& local && source == SessionSource::InternalAgent ==> {
                &&& replies.management_disabled is Err ==> outcome is Err && after == config
                &&& replies.management_disabled is Ok && replies.budget_disabled is Err ==> outcome is Err
                    && !after.context_management && after.token_budget_feature == config.token_budget_feature
                &&& replies.management_disabled is Ok && replies.budget_disabled is Ok ==> outcome is Ok
                    && !after.context_management && !after.token_budget_feature && after.token_budget is None
                    && after.context_management_backend == ContextManagementBackend::Codex
            }
            &&& after.ephemeral == config.ephemeral && after.store_root == config.store_root
            &&& outcome is Err ==> after.token_budget == config.token_budget && after.context_management_backend
                == config.context_management_backend
        }),
{
}

/// The first metadata of a thread's records are its own.
proof fn lemma_first_meta(items: Seq<RolloutItem>, index: int)
    requires
        0 <= index <= items.len(),
        forall|i: int| 0 <= i < index ==> !(#[trigger] items[i] is SessionMeta),
    ensures
        index < items.len() && items[index] is SessionMeta ==> first_meta(items) == Some(items[index]->SessionMeta_0),
        index == items.len() ==> first_meta(items) is None,
    decreases items.len(),
{
    if index > 0 {
        assert(!(items[0] is SessionMeta));
        assert forall|i: int| 0 <= i < index - 1 implies !(#[trigger] items.drop_first()[i] is SessionMeta) by {
            assert(items.drop_first()[i] == items[i + 1]);
        }
        lemma_first_meta(items.drop_first(), index - 1);
    }
}

/// The first metadata in the records of a resumed thread decide on its backend. A thread recorded with the
/// local backend is never resumed by an agent of the host, nor is one of such an agent; a spawned agent goes
/// on with it. A thread recorded without it goes on without, if an agent runs it. A person's own choice
/// stays.
pub proof fn law_records_decide_on_resume(
    config: ConfigView,
    items: Vec<RolloutItem>,
    index: int,
    meta: SessionMeta,
    source: SessionSource,
)
    requires
        0 <= index < items@.len(),
        items@[index] == RolloutItem::SessionMeta(meta),
        forall|i: int| 0 <= i < index ==> !(#[trigger] items@[i] is SessionMeta),
    ensures
        ({
            let outcome = resumed_config(config, InitialHistory::Resumed(items), source);
            let recorded_local = meta.context_management_backend == Some(ContextManagementBackend::Local);
            &&& outcome is Err <==> recorded_local && (source == SessionSource::InternalAgent || meta.source
                == SessionSource::InternalAgent)
            &&& outcome matches Err(message) ==> message == "local context recovery is not available to internal agents"@
            &&& outcome matches Ok((after, decided)) ==> {
                &&& recorded_local && source == SessionSource::SpawnedChild ==> {
                    &&& decided == Some(ContextManagementBackend::Local)
                    &&& after.context_management && after.context_management_backend
                        == ContextManagementBackend::Local
                    &&& after.token_budget == config.token_budget && after.token_budget_feature
                        == config.token_budget_feature
                }
                &&& !recorded_local && source != SessionSource::Root && config.context_management_backend
                    == ContextManagementBackend::Local ==> {
                    &&& decided == Some(ContextManagementBackend::Codex)
                    &&& !after.context_management && after.context_management_backend
                        == ContextManagementBackend::Codex
                    &&& !after.token_budget_feature && after.token_budget is None
                }
                &&& source == SessionSource::Root || (!recorded_local && config.context_management_backend
                    != ContextManagementBackend::Local) ==> after == config && decided is None
                &&& after.ephemeral == config.ephemeral && after.store_root == config.store_root
            }
        }),
{
    lemma_first_meta(items@, index);
}

/// A thread that is not resumed, and one whose records have no metadata and that a person runs, keeps its
/// configuration.
pub proof fn law_without_records_nothing_is_decided(config: ConfigView, history: InitialHistory, source: SessionSource)
    requires
        history matches InitialHistory::Resumed(items) ==> source == SessionSource::Root && forall|i: int|
            0 <= i < items@.len() ==> !(#[trigger] items@[i] is SessionMeta),
    ensures
        resumed_config(config, history, source) == Ok::<_, Seq<char>>((config, None::<ContextManagementBackend>)),
{
    if let InitialHistory::Resumed(items) = history {
        lemma_first_meta(items@, items@.len() as int);
    }
}

} // verus!
