//! What the note store decides about files: which paths are safe, what may be read or written, and
//! which files a scan takes in.

use vstd::prelude::*;
use vstd::string::*;
use vstd::utf8::*;

use crate::limits::MAX_NOTE_BYTES;
use crate::limits::MAX_NOTE_SCAN_FILES;
use crate::note_helpers::seconds_or_zero;
use crate::note_helpers::timestamp;
use crate::note_helpers::virtual_path;
use crate::note_helpers::virtual_text;
use crate::note_helpers::PathComponent;
use crate::text::decimal;
use crate::text::decimal_text;
use crate::text::lines;
use crate::text::lines_of;

verus! {

/// What kind of failure the file system reports, as far as the note store tells them apart.
#[derive(Clone, Copy, Debug, PartialEq, Eq, Structural)]
pub enum IoKind {
    NotFound,
    InvalidInput,
    PermissionDenied,
    AlreadyExists,
    Other,
}

/// A failure that the file system reports.
#[derive(Debug)]
pub struct IoFailure {
    pub kind: IoKind,
    pub message: String,
}

/// What an `IoFailure` holds.
#[verifier::ext_equal]
pub struct IoFailureView {
    pub kind: IoKind,
    pub message: Seq<char>,
}

impl View for IoFailure {
    type V = IoFailureView;

    open spec fn view(&self) -> IoFailureView {
        IoFailureView { kind: self.kind, message: self.message@ }
    }
}

impl IoFailure {
    /// A failure of the given kind.
    pub fn new(kind: IoKind, message: &str) -> (failure: IoFailure)
        ensures
            failure@ == (IoFailureView { kind, message: message@ }),
    {
        IoFailure { kind, message: message.to_owned() }
    }

    /// The same failure again.
    fn copy(&self) -> (failure: IoFailure)
        ensures
            failure@ == self@,
    {
        IoFailure { kind: self.kind, message: self.message.clone() }
    }
}

/// What the file system says of a path, links not followed.
#[derive(Debug)]
pub enum PathStatus {
    Symlink,
    Directory,
    File { bytes: u64 },
    /// Neither a link, a directory nor a plain file.
    Other,
    Failed(IoFailure),
}

/// Nothing stands at the path.
pub open spec fn missing(status: PathStatus) -> bool {
    status matches PathStatus::Failed(failure) && failure.kind == IoKind::NotFound
}

/// Why a note cannot be used.
#[derive(Clone, Copy, Debug, PartialEq, Eq, Structural)]
pub enum NoteError {
    NotFound,
    UnsafePath,
    NotAFile,
    TooLarge,
    NonUtf8,
    Io,
}

/// What a failure of the given kind means for a note.
pub open spec fn note_error_of(kind: IoKind) -> NoteError {
    match kind {
        IoKind::NotFound => NoteError::NotFound,
        IoKind::InvalidInput => NoteError::UnsafePath,
        IoKind::PermissionDenied => NoteError::UnsafePath,
        IoKind::AlreadyExists => NoteError::Io,
        IoKind::Other => NoteError::Io,
    }
}

/// The word for an error.
pub open spec fn reason_of(error: NoteError) -> Seq<char> {
    match error {
        NoteError::NotFound => "not_found"@,
        NoteError::UnsafePath => "unsafe_path"@,
        NoteError::NotAFile => "not_a_file"@,
        NoteError::TooLarge => "too_large"@,
        NoteError::NonUtf8 => "non_utf8"@,
        NoteError::Io => "io_error"@,
    }
}

impl NoteError {
    /// What a failure means for a note.
    pub fn from_io(error: &IoFailure) -> (note_error: NoteError)
        ensures
            note_error == note_error_of(error.kind),
    {
        match error.kind {
            IoKind::NotFound => NoteError::NotFound,
            IoKind::InvalidInput => NoteError::UnsafePath,
            IoKind::PermissionDenied => NoteError::UnsafePath,
            _ => NoteError::Io,
        }
    }

    /// The word for the error.
    pub fn reason(self) -> (reason: &'static str)
        ensures
            reason@ == reason_of(self),
    {
        match self {
            NoteError::NotFound => "not_found",
            NoteError::UnsafePath => "unsafe_path",
            NoteError::NotAFile => "not_a_file",
            NoteError::TooLarge => "too_large",
            NoteError::NonUtf8 => "non_utf8",
            NoteError::Io => "io_error",
        }
    }
}

/// Whether nothing stands at the path.
fn is_missing(failure: &IoFailure) -> (result: bool)
    ensures
        result == (failure.kind == IoKind::NotFound),
{
    match failure.kind {
        IoKind::NotFound => true,
        _ => false,
    }
}

/// The path leads to something, through no link. `statuses` are those of its ancestors from the root
/// down and its own; the first that is missing, a link or a failure decides.
pub open spec fn path_safety(statuses: Seq<PathStatus>) -> Result<bool, NoteError>
    decreases statuses.len(),
{
    if statuses.len() == 0 {
        Ok(true)
    } else {
        match statuses[0] {
            PathStatus::Symlink => Err(NoteError::UnsafePath),
            PathStatus::Failed(failure) => if failure.kind == IoKind::NotFound {
                Ok(false)
            } else {
                Err(note_error_of(failure.kind))
            },
            _ => path_safety(statuses.drop_first()),
        }
    }
}

/// Whether the path leads to something, through no link.
pub fn existing_path_is_safe(statuses: &Vec<PathStatus>) -> (outcome: Result<bool, NoteError>)
    ensures
        outcome == path_safety(statuses@),
{
    let mut index: usize = 0;
    assert(statuses@.skip(0) =~= statuses@);
    while index < statuses.len()
        invariant
            index <= statuses@.len(),
            path_safety(statuses@) == path_safety(statuses@.skip(index as int)),
        decreases statuses@.len() - index,
    {
        assert(statuses@.skip(index as int).drop_first() =~= statuses@.skip(index + 1));
        match &statuses[index] {
            PathStatus::Symlink => {
                return Err(NoteError::UnsafePath);
            },
            PathStatus::Failed(failure) => {
                if is_missing(failure) {
                    return Ok(false);
                }
                return Err(NoteError::from_io(failure));
            },
            _ => {},
        }
        index = index + 1;
    }
    Ok(true)
}

/// The path leads to a directory, through directories alone. The first status that says otherwise
/// decides.
pub open spec fn directory_safety(statuses: Seq<PathStatus>) -> Result<bool, Seq<char>>
    decreases statuses.len(),
{
    if statuses.len() == 0 {
        Ok(true)
    } else {
        match statuses[0] {
            PathStatus::Directory => directory_safety(statuses.drop_first()),
            PathStatus::Symlink => Err("note directory contains a symlink"@),
            PathStatus::Failed(failure) => if failure.kind == IoKind::NotFound {
                Ok(false)
            } else {
                Err(failure.message@)
            },
            _ => Err("note path is not a directory"@),
        }
    }
}

/// What an outcome with a text for its error holds.
pub open spec fn safety_outcome(outcome: Result<bool, String>) -> Result<bool, Seq<char>> {
    match outcome {
        Ok(safe) => Ok(safe),
        Err(error) => Err(error@),
    }
}

/// Whether the path leads to a directory, through directories alone.
pub fn existing_directory_is_safe(statuses: &Vec<PathStatus>) -> (outcome: Result<bool, String>)
    ensures
        safety_outcome(outcome) == directory_safety(statuses@),
{
    let mut index: usize = 0;
    assert(statuses@.skip(0) =~= statuses@);
    while index < statuses.len()
        invariant
            index <= statuses@.len(),
            directory_safety(statuses@) == directory_safety(statuses@.skip(index as int)),
        decreases statuses@.len() - index,
    {
        assert(statuses@.skip(index as int).drop_first() =~= statuses@.skip(index + 1));
        match &statuses[index] {
            PathStatus::Directory => {},
            PathStatus::Symlink => {
                return Err("note directory contains a symlink".to_owned());
            },
            PathStatus::Failed(failure) => {
                if is_missing(failure) {
                    return Ok(false);
                }
                return Err(failure.message.clone());
            },
            _ => {
                return Err("note path is not a directory".to_owned());
            },
        }
        index = index + 1;
    }
    Ok(true)
}

/// What is done with one directory on the way to a note.
#[derive(Clone, Copy, Debug, PartialEq, Eq, Structural)]
pub enum ChainStep {
    /// It is there.
    Keep,
    /// It is to be made.
    Create,
}

/// What is done with one directory on the way to a note.
pub open spec fn chain_step(status: PathStatus) -> Result<ChainStep, IoFailureView> {
    match status {
        PathStatus::Directory => Ok(ChainStep::Keep),
        PathStatus::Symlink => Err(
            IoFailureView {
                kind: IoKind::PermissionDenied,
                message: "note directory contains a symlink"@,
            },
        ),
        PathStatus::Failed(failure) => if failure.kind == IoKind::NotFound {
            Ok(ChainStep::Create)
        } else {
            Err(failure@)
        },
        _ => Err(
            IoFailureView {
                kind: IoKind::AlreadyExists,
                message: "note directory component is not a directory"@,
            },
        ),
    }
}

/// What an outcome with a failure holds.
pub open spec fn chain_outcome(outcome: Result<ChainStep, IoFailure>) -> Result<ChainStep, IoFailureView> {
    match outcome {
        Ok(step) => Ok(step),
        Err(failure) => Err(failure@),
    }
}

/// What is done with one directory on the way to a note. The directories are taken from the root
/// down.
pub fn ensure_directory(status: &PathStatus) -> (outcome: Result<ChainStep, IoFailure>)
    ensures
        chain_outcome(outcome) == chain_step(*status),
{
    match status {
        PathStatus::Directory => Ok(ChainStep::Keep),
        PathStatus::Symlink => Err(
            IoFailure::new(IoKind::PermissionDenied, "note directory contains a symlink"),
        ),
        PathStatus::Failed(failure) => {
            if is_missing(failure) {
                Ok(ChainStep::Create)
            } else {
                Err(failure.copy())
            }
        },
        _ => Err(
            IoFailure::new(IoKind::AlreadyExists, "note directory component is not a directory"),
        ),
    }
}

/// A note can be read: its path is safe and it is a plain file of a bounded size. False where there
/// is none.
pub open spec fn note_presence(walk: Seq<PathStatus>, own: PathStatus) -> Result<bool, NoteError> {
    match path_safety(walk) {
        Err(error) => Err(error),
        Ok(false) => Ok(false),
        Ok(true) => match own {
            PathStatus::Failed(failure) => if failure.kind == IoKind::NotFound {
                Ok(false)
            } else {
                Err(note_error_of(failure.kind))
            },
            PathStatus::Symlink => Err(NoteError::UnsafePath),
            PathStatus::File { bytes } => if bytes > MAX_NOTE_BYTES {
                Err(NoteError::TooLarge)
            } else {
                Ok(true)
            },
            _ => Err(NoteError::NotAFile),
        },
    }
}

/// Whether a note can be read. `walk` are the statuses of its ancestors and its own, `own` is the
/// status of its path at the time of reading.
pub fn check_note(walk: &Vec<PathStatus>, own: &PathStatus) -> (outcome: Result<bool, NoteError>)
    ensures
        outcome == note_presence(walk@, *own),
{
    match existing_path_is_safe(walk) {
        Err(error) => Err(error),
        Ok(safe) => {
            if !safe {
                return Ok(false);
            }
            match own {
                PathStatus::Failed(failure) => {
                    if is_missing(failure) {
                        Ok(false)
                    } else {
                        Err(NoteError::from_io(failure))
                    }
                },
                PathStatus::Symlink => Err(NoteError::UnsafePath),
                PathStatus::File { bytes } => {
                    if *bytes > MAX_NOTE_BYTES as u64 {
                        Err(NoteError::TooLarge)
                    } else {
                        Ok(true)
                    }
                },
                _ => Err(NoteError::NotAFile),
            }
        },
    }
}

/// `String::from_utf8` gives the text that the bytes encode, and nothing where they are not UTF-8.
#[verifier::external_body]
fn text_from_utf8(bytes: Vec<u8>) -> (text: Option<String>)
    ensures
        match text {
            Some(text) => valid_utf8(bytes@) && text@ == decode_utf8(bytes@),
            None => !valid_utf8(bytes@),
        },
{
    String::from_utf8(bytes).ok()
}

/// The text of a note that was read.
pub open spec fn decoded_note(contents: Result<Vec<u8>, IoFailure>) -> Result<Seq<char>, NoteError> {
    match contents {
        Err(failure) => Err(note_error_of(failure.kind)),
        Ok(bytes) => if bytes@.len() > MAX_NOTE_BYTES {
            Err(NoteError::TooLarge)
        } else if valid_utf8(bytes@) {
            Ok(decode_utf8(bytes@))
        } else {
            Err(NoteError::NonUtf8)
        },
    }
}

/// What an outcome with a text holds.
pub open spec fn text_outcome(outcome: Result<String, NoteError>) -> Result<Seq<char>, NoteError> {
    match outcome {
        Ok(text) => Ok(text@),
        Err(error) => Err(error),
    }
}

/// The text of a note that was read, with one byte more than the limit where there are so many.
pub fn decode_note(contents: Result<Vec<u8>, IoFailure>) -> (outcome: Result<String, NoteError>)
    ensures
        text_outcome(outcome) == decoded_note(contents),
{
    match contents {
        Err(failure) => Err(NoteError::from_io(&failure)),
        Ok(bytes) => {
            if bytes.len() > MAX_NOTE_BYTES {
                return Err(NoteError::TooLarge);
            }
            match text_from_utf8(bytes) {
                Some(text) => Ok(text),
                None => Err(NoteError::NonUtf8),
            }
        },
    }
}

/// What the file system says of a note that is to be read.
#[derive(Debug)]
pub struct NoteRead {
    /// The statuses of the note's ancestors from the root down, and its own.
    pub walk: Vec<PathStatus>,
    /// The status of the note at the time of reading.
    pub own: PathStatus,
    /// Its bytes, at most one more than the limit. Not looked at where the note cannot be read.
    pub contents: Result<Vec<u8>, IoFailure>,
}

/// The text of a note, none where there is no note.
pub open spec fn present_note(read: NoteRead) -> Result<Option<Seq<char>>, NoteError> {
    match note_presence(read.walk@, read.own) {
        Err(error) => Err(error),
        Ok(false) => Ok(None),
        Ok(true) => match decoded_note(read.contents) {
            Ok(text) => Ok(Some(text)),
            Err(error) => Err(error),
        },
    }
}

/// What an outcome with an optional text holds.
pub open spec fn present_outcome(outcome: Result<Option<String>, NoteError>) -> Result<
    Option<Seq<char>>,
    NoteError,
> {
    match outcome {
        Ok(text) => Ok(crate::text::opt_view(text)),
        Err(error) => Err(error),
    }
}

/// The text of a note.
pub open spec fn needed_note(read: NoteRead) -> Result<Seq<char>, NoteError> {
    match present_note(read) {
        Ok(Some(text)) => Ok(text),
        Ok(None) => Err(NoteError::NotFound),
        Err(error) => Err(error),
    }
}

/// The text of a note, none where there is no note.
pub fn read_note_if_present(read: NoteRead) -> (outcome: Result<Option<String>, NoteError>)
    ensures
        present_outcome(outcome) == present_note(read),
{
    match check_note(&read.walk, &read.own) {
        Err(error) => Err(error),
        Ok(readable) => {
            if !readable {
                return Ok(None);
            }
            match decode_note(read.contents) {
                Ok(text) => Ok(Some(text)),
                Err(error) => Err(error),
            }
        },
    }
}

/// A note may be written: it is not too large.
pub open spec fn write_admitted(size: nat) -> Result<(), IoFailureView> {
    if size > MAX_NOTE_BYTES {
        Err(IoFailureView { kind: IoKind::InvalidInput, message: "note exceeds byte limit"@ })
    } else {
        Ok(())
    }
}

/// A note may take the place of what stands at its path: nothing, or a plain file.
pub open spec fn target_admitted(status: PathStatus) -> Result<(), IoFailureView> {
    match status {
        PathStatus::Failed(_) => Ok(()),
        PathStatus::File { .. } => Ok(()),
        PathStatus::Symlink => Err(
            IoFailureView { kind: IoKind::InvalidInput, message: "note path is a symlink"@ },
        ),
        _ => Err(IoFailureView { kind: IoKind::InvalidInput, message: "note path is not a file"@ }),
    }
}

/// What an outcome without a value holds.
pub open spec fn done_outcome(outcome: Result<(), IoFailure>) -> Result<(), IoFailureView> {
    match outcome {
        Ok(()) => Ok(()),
        Err(failure) => Err(failure@),
    }
}

/// Whether a note of this size may be written.
pub fn check_write(bytes: &[u8]) -> (outcome: Result<(), IoFailure>)
    ensures
        done_outcome(outcome) == write_admitted(bytes@.len()),
{
    if bytes.len() > MAX_NOTE_BYTES {
        return Err(IoFailure::new(IoKind::InvalidInput, "note exceeds byte limit"));
    }
    Ok(())
}

/// Whether a note may take the place of what stands at its path.
pub fn check_target(status: &PathStatus) -> (outcome: Result<(), IoFailure>)
    ensures
        done_outcome(outcome) == target_admitted(*status),
{
    match status {
        PathStatus::Failed(_) => Ok(()),
        PathStatus::File { .. } => Ok(()),
        PathStatus::Symlink => Err(IoFailure::new(IoKind::InvalidInput, "note path is a symlink")),
        _ => Err(IoFailure::new(IoKind::InvalidInput, "note path is not a file")),
    }
}

/// The name under which a note is written before it takes its place.
pub open spec fn temporary_name_of(file_name: Option<Seq<char>>, process: u32, counter: u64) -> Seq<char> {
    "."@ + (match file_name {
        Some(name) => name,
        None => "note"@,
    }) + ".codex-tmp-"@ + decimal(process as nat) + "-"@ + decimal(counter as nat)
}

/// The name under which a note is written before it takes its place.
pub fn temporary_name(file_name: &Option<String>, process: u32, counter: u64) -> (name: String)
    ensures
        name@ == temporary_name_of(crate::text::opt_view(*file_name), process, counter),
{
    let mut name = ".".to_owned();
    match file_name {
        Some(file_name) => name.append(file_name.as_str()),
        None => name.append("note"),
    }
    name.append(".codex-tmp-");
    name.append(decimal_text(process as u64).as_str());
    name.append("-");
    name.append(decimal_text(counter).as_str());
    name
}

/// What comes next when a note is written.
#[derive(Debug)]
pub enum WriteAction {
    /// Make the directories down to the notes of the thread.
    MakeRoot,
    /// Make the directories down to the note.
    MakeParent,
    /// Look at what stands at the note's path.
    Inspect,
    /// Write all bytes to a new temporary file beside the note, and have them on disk.
    WriteTemporary,
    /// Let the temporary file take the note's place.
    Rename,
    /// Remove the temporary file, whatever comes of it.
    RemoveTemporary,
    /// The write is over.
    Finish(Result<(), IoFailure>),
}

/// What came of an action.
#[derive(Debug)]
pub enum WriteEvent {
    Done,
    Status(PathStatus),
    Failed(IoFailure),
}

/// What a `WriteAction` holds.
#[verifier::ext_equal]
pub enum WriteActionView {
    MakeRoot,
    MakeParent,
    Inspect,
    WriteTemporary,
    Rename,
    RemoveTemporary,
    Finish(Result<(), IoFailureView>),
}

impl View for WriteAction {
    type V = WriteActionView;

    open spec fn view(&self) -> WriteActionView {
        match self {
            WriteAction::MakeRoot => WriteActionView::MakeRoot,
            WriteAction::MakeParent => WriteActionView::MakeParent,
            WriteAction::Inspect => WriteActionView::Inspect,
            WriteAction::WriteTemporary => WriteActionView::WriteTemporary,
            WriteAction::Rename => WriteActionView::Rename,
            WriteAction::RemoveTemporary => WriteActionView::RemoveTemporary,
            WriteAction::Finish(outcome) => WriteActionView::Finish(done_outcome(*outcome)),
        }
    }
}

/// How far a write has come: the action whose outcome it waits for, and the failure that it ends with.
#[derive(Debug)]
pub enum AtomicWrite {
    MakingRoot { has_parent: bool },
    MakingParent,
    Inspecting,
    Writing,
    Renaming,
    Removing(IoFailure),
}

/// What an `AtomicWrite` holds.
#[verifier::ext_equal]
pub enum AtomicWriteView {
    MakingRoot { has_parent: bool },
    MakingParent,
    Inspecting,
    Writing,
    Renaming,
    Removing(IoFailureView),
}

impl View for AtomicWrite {
    type V = AtomicWriteView;

    open spec fn view(&self) -> AtomicWriteView {
        match self {
            AtomicWrite::MakingRoot { has_parent } => AtomicWriteView::MakingRoot { has_parent: *has_parent },
            AtomicWrite::MakingParent => AtomicWriteView::MakingParent,
            AtomicWrite::Inspecting => AtomicWriteView::Inspecting,
            AtomicWrite::Writing => AtomicWriteView::Writing,
            AtomicWrite::Renaming => AtomicWriteView::Renaming,
            AtomicWrite::Removing(failure) => AtomicWriteView::Removing(failure@),
        }
    }
}

/// A write that is over.
pub open spec fn finished(outcome: Result<(), IoFailureView>) -> (Option<AtomicWriteView>, WriteActionView) {
    (None, WriteActionView::Finish(outcome))
}

/// A write that waits for the outcome of an action.
pub open spec fn waiting(state: AtomicWriteView, action: WriteActionView) -> (
    Option<AtomicWriteView>,
    WriteActionView,
) {
    (Some(state), action)
}

/// What a write and its next action hold.
pub open spec fn write_view(write: (Option<AtomicWrite>, WriteAction)) -> (
    Option<AtomicWriteView>,
    WriteActionView,
) {
    match write.0 {
        Some(state) => (Some(state@), write.1@),
        None => (None, write.1@),
    }
}

/// How a write of `size` bytes starts.
pub open spec fn write_start(size: nat, has_parent: bool) -> (Option<AtomicWriteView>, WriteActionView) {
    match write_admitted(size) {
        Err(failure) => finished(Err(failure)),
        Ok(()) => waiting(AtomicWriteView::MakingRoot { has_parent }, WriteActionView::MakeRoot),
    }
}

/// What an event says of an action that has no result: a status does not belong to one.
pub open spec fn done_in(event: WriteEvent) -> Result<(), IoFailureView> {
    match event {
        WriteEvent::Done => Ok(()),
        WriteEvent::Status(_) => Err(stray_event()),
        WriteEvent::Failed(failure) => Err(failure@),
    }
}

/// The failure of a write that an event reached which does not belong to its action.
pub open spec fn stray_event() -> IoFailureView {
    IoFailureView { kind: IoKind::Other, message: "unexpected event"@ }
}

/// How a write goes on once an action is over. An event that does not belong to the action is a failure.
pub open spec fn write_next(state: AtomicWriteView, event: WriteEvent) -> (
    Option<AtomicWriteView>,
    WriteActionView,
) {
    match state {
        AtomicWriteView::MakingRoot { has_parent } => match done_in(event) {
            Err(failure) => finished(Err(failure)),
            Ok(()) => if has_parent {
                waiting(AtomicWriteView::MakingParent, WriteActionView::MakeParent)
            } else {
                finished(
                    Err(IoFailureView { kind: IoKind::InvalidInput, message: "note has no parent"@ }),
                )
            },
        },
        AtomicWriteView::MakingParent => match done_in(event) {
            Err(failure) => finished(Err(failure)),
            Ok(()) => waiting(AtomicWriteView::Inspecting, WriteActionView::Inspect),
        },
        AtomicWriteView::Inspecting => match event {
            WriteEvent::Status(status) => match target_admitted(status) {
                Err(failure) => finished(Err(failure)),
                Ok(()) => waiting(AtomicWriteView::Writing, WriteActionView::WriteTemporary),
            },
            WriteEvent::Done => finished(Err(stray_event())),
            WriteEvent::Failed(failure) => finished(Err(failure@)),
        },
        AtomicWriteView::Writing => match done_in(event) {
            Err(failure) => waiting(AtomicWriteView::Removing(failure), WriteActionView::RemoveTemporary),
            Ok(()) => waiting(AtomicWriteView::Renaming, WriteActionView::Rename),
        },
        AtomicWriteView::Renaming => match done_in(event) {
            Err(failure) => waiting(AtomicWriteView::Removing(failure), WriteActionView::RemoveTemporary),
            Ok(()) => finished(Ok(())),
        },
        AtomicWriteView::Removing(failure) => finished(Err(failure)),
    }
}

/// What an event says of an action that has no result.
fn done_of(event: WriteEvent) -> (outcome: Result<(), IoFailure>)
    ensures
        done_outcome(outcome) == done_in(event),
{
    match event {
        WriteEvent::Done => Ok(()),
        WriteEvent::Status(_) => Err(IoFailure::new(IoKind::Other, "unexpected event")),
        WriteEvent::Failed(failure) => Err(failure),
    }
}

impl AtomicWrite {
    /// Starts to write the bytes of a note.
    pub fn start(bytes: &[u8], has_parent: bool) -> (started: (Option<AtomicWrite>, WriteAction))
        ensures
            write_view(started) == write_start(bytes@.len(), has_parent),
    {
        match check_write(bytes) {
            Err(failure) => (None, WriteAction::Finish(Err(failure))),
            Ok(()) => (Some(AtomicWrite::MakingRoot { has_parent }), WriteAction::MakeRoot),
        }
    }

    /// Goes on once an action is over.
    pub fn next(self, event: WriteEvent) -> (next: (Option<AtomicWrite>, WriteAction))
        ensures
            write_view(next) == write_next(self@, event),
    {
        match self {
            AtomicWrite::MakingRoot { has_parent } => match done_of(event) {
                Err(failure) => (None, WriteAction::Finish(Err(failure))),
                Ok(()) => {
                    if has_parent {
                        (Some(AtomicWrite::MakingParent), WriteAction::MakeParent)
                    } else {
                        let failure = IoFailure::new(IoKind::InvalidInput, "note has no parent");
                        (None, WriteAction::Finish(Err(failure)))
                    }
                },
            },
            AtomicWrite::MakingParent => match done_of(event) {
                Err(failure) => (None, WriteAction::Finish(Err(failure))),
                Ok(()) => (Some(AtomicWrite::Inspecting), WriteAction::Inspect),
            },
            AtomicWrite::Inspecting => match event {
                WriteEvent::Status(status) => match check_target(&status) {
                    Err(failure) => (None, WriteAction::Finish(Err(failure))),
                    Ok(()) => (Some(AtomicWrite::Writing), WriteAction::WriteTemporary),
                },
                WriteEvent::Done => {
                    let failure = IoFailure::new(IoKind::Other, "unexpected event");
                    (None, WriteAction::Finish(Err(failure)))
                },
                WriteEvent::Failed(failure) => (None, WriteAction::Finish(Err(failure))),
            },
            AtomicWrite::Writing => match done_of(event) {
                Err(failure) => (Some(AtomicWrite::Removing(failure)), WriteAction::RemoveTemporary),
                Ok(()) => (Some(AtomicWrite::Renaming), WriteAction::Rename),
            },
            AtomicWrite::Renaming => match done_of(event) {
                Err(failure) => (Some(AtomicWrite::Removing(failure)), WriteAction::RemoveTemporary),
                Ok(()) => (None, WriteAction::Finish(Ok(()))),
            },
            AtomicWrite::Removing(failure) => (None, WriteAction::Finish(Err(failure))),
        }
    }
}

/// A note is replaced only once its temporary file is whole and on disk: no other event leads to the
/// rename.
pub proof fn law_rename_follows_whole_write(state: AtomicWriteView, event: WriteEvent)
    requires
        write_next(state, event).1 is Rename,
    ensures
        state is Writing,
        event is Done,
{
}

/// A write that failed once its temporary file may be there removes that file and reports the failure.
pub proof fn law_failed_write_cleans_up(state: AtomicWriteView, event: WriteEvent, then: WriteEvent)
    requires
        state is Writing || state is Renaming,
        !(event is Done),
    ensures
        write_next(state, event).1 is RemoveTemporary,
        write_next(state, event).0 is Some,
        write_next(write_next(state, event).0->0, then).1 == WriteActionView::Finish(Err(done_in(event)->Err_0)),
{
}

/// A temporary file is written only where the note's place was looked at and is free for it.
pub proof fn law_write_follows_inspection(state: AtomicWriteView, event: WriteEvent)
    requires
        write_next(state, event).1 is WriteTemporary,
    ensures
        state is Inspecting,
        event matches WriteEvent::Status(status) && target_admitted(status) is Ok,
{
}

/// A write succeeds only by its rename.
pub proof fn law_success_follows_rename(state: AtomicWriteView, event: WriteEvent)
    requires
        write_next(state, event).1 == WriteActionView::Finish(Ok(())),
    ensures
        state is Renaming,
        event is Done,
{
}

/// A note that is too large touches nothing.
pub proof fn law_oversized_write_touches_nothing(size: nat, has_parent: bool)
    requires
        size > MAX_NOTE_BYTES,
    ensures
        write_start(size, has_parent).1 is Finish,
{
}

/// A note file that a scan found.
#[derive(Debug)]
pub struct NoteFile {
    /// The path below the notes of the thread, with `/` between its components.
    pub path: String,
    /// The number under which the file can be read.
    pub handle: usize,
    pub bytes: u64,
    pub lines: Option<usize>,
    pub created_at: u64,
    pub updated_at: u64,
}

/// What a `NoteFile` holds.
#[verifier::ext_equal]
pub struct NoteFileView {
    pub path: Seq<char>,
    pub handle: usize,
    pub bytes: u64,
    pub lines: Option<usize>,
    pub created_at: u64,
    pub updated_at: u64,
}

impl View for NoteFile {
    type V = NoteFileView;

    open spec fn view(&self) -> NoteFileView {
        NoteFileView {
            path: self.path@,
            handle: self.handle,
            bytes: self.bytes,
            lines: self.lines,
            created_at: self.created_at,
            updated_at: self.updated_at,
        }
    }
}

/// What a row of files holds.
pub open spec fn files_view(files: Seq<NoteFile>) -> Seq<NoteFileView> {
    files.map_values(|file: NoteFile| file@)
}

/// The number of lines of a note: none where it is too large or cannot be read as text.
pub open spec fn line_count_of(size: Option<u64>, contents: Option<Seq<u8>>) -> Option<nat> {
    match (size, contents) {
        (Some(size), Some(bytes)) => if size <= MAX_NOTE_BYTES && valid_utf8(bytes) {
            Some(lines_of(decode_utf8(bytes)).len())
        } else {
            None
        },
        _ => None,
    }
}

/// The bytes that there are.
pub open spec fn bytes_view(bytes: Option<Vec<u8>>) -> Option<Seq<u8>> {
    match bytes {
        Some(bytes) => Some(bytes@),
        None => None,
    }
}

/// The number of lines of a note. The contents are not looked at where the size is not known or too
/// large.
pub fn note_line_count(size: Option<u64>, contents: Option<Vec<u8>>) -> (count: Option<usize>)
    ensures
        match count {
            Some(count) => line_count_of(size, bytes_view(contents)) == Some(count as nat),
            None => line_count_of(size, bytes_view(contents)) is None,
        },
{
    let size: u64 = match size {
        Some(size) => size,
        None => {
            return None;
        },
    };
    if size > MAX_NOTE_BYTES as u64 {
        return None;
    }
    match contents {
        Some(bytes) => match text_from_utf8(bytes) {
            Some(text) => {
                let found = lines(text.as_str());
                assert(crate::text::texts_view(found@).len() == found@.len());
                Some(found.len())
            },
            None => None,
        },
        None => None,
    }
}

/// What stands in a directory.
#[derive(Clone, Copy, Debug, PartialEq, Eq, Structural)]
pub enum EntryKind {
    Symlink,
    Directory,
    File,
    Other,
}

/// What a scan does with an entry.
#[derive(Clone, Copy, Debug, PartialEq, Eq, Structural)]
pub enum EntryAction {
    /// Go on with the next entry.
    Skip,
    /// Scan the directory, then go on.
    Descend,
    /// Look at the file and take it in.
    TakeIn,
}

/// What is known of a file that a scan takes in.
#[derive(Debug)]
pub struct FoundFile {
    /// The components of its path below the notes of the thread.
    pub components: Vec<PathComponent>,
    pub handle: usize,
    pub bytes: u64,
    pub lines: Option<usize>,
    pub created: Option<std::time::SystemTime>,
    pub modified: Option<std::time::SystemTime>,
}

/// The files that a scan of the thread's notes found, and whether some were left out.
#[derive(Debug)]
pub struct FileScan {
    pub files: Vec<NoteFile>,
    pub truncated: bool,
}

/// What a `FileScan` holds.
#[verifier::ext_equal]
pub struct FileScanView {
    pub files: Seq<NoteFileView>,
    pub truncated: bool,
}

impl View for FileScan {
    type V = FileScanView;

    open spec fn view(&self) -> FileScanView {
        FileScanView { files: files_view(self.files@), truncated: self.truncated }
    }
}

impl FileScanView {
    /// The scan once another directory or entry is asked for: it stops at the limit on files.
    pub open spec fn asked(self) -> FileScanView {
        if self.files.len() >= MAX_NOTE_SCAN_FILES {
            FileScanView { truncated: true, ..self }
        } else {
            self
        }
    }

    /// The scan after an entry, and what is done with it. Links are left out.
    pub open spec fn met(self, kind: EntryKind) -> (FileScanView, EntryAction) {
        match kind {
            EntryKind::Symlink => (FileScanView { truncated: true, ..self }, EntryAction::Skip),
            EntryKind::Directory => (self, EntryAction::Descend),
            EntryKind::File => (self, EntryAction::TakeIn),
            EntryKind::Other => (self, EntryAction::Skip),
        }
    }

    /// The scan with one more file.
    pub open spec fn with_file(self, path: Seq<char>, found: FoundFile) -> FileScanView {
        FileScanView {
            files: self.files.push(
                NoteFileView {
                    path,
                    handle: found.handle,
                    bytes: found.bytes,
                    lines: found.lines,
                    created_at: seconds_or_zero(found.created),
                    updated_at: seconds_or_zero(found.modified),
                },
            ),
            ..self
        }
    }
}

/// Whether a directory that was asked for can be scanned: not where it is gone.
pub open spec fn listing_outcome(failure: Option<IoFailure>) -> Result<bool, Seq<char>> {
    match failure {
        None => Ok(true),
        Some(failure) => if failure.kind == IoKind::NotFound {
            Ok(false)
        } else {
            Err(failure.message@)
        },
    }
}

impl FileScan {
    /// A scan that has found nothing yet.
    pub fn new() -> (scan: FileScan)
        ensures
            scan@ == (FileScanView { files: Seq::empty(), truncated: false }),
    {
        let scan = FileScan { files: Vec::new(), truncated: false };
        assert(scan@.files =~= Seq::<NoteFileView>::empty());
        scan
    }

    /// Whether another directory or entry may be looked at.
    pub fn has_room(&mut self) -> (room: bool)
        ensures
            room == (old(self)@.files.len() < MAX_NOTE_SCAN_FILES),
            final(self)@ == old(self)@.asked(),
    {
        if self.files.len() >= MAX_NOTE_SCAN_FILES {
            self.truncated = true;
            return false;
        }
        true
    }

    /// Whether a directory can be scanned, given the failure to list it.
    pub fn on_listing(failure: Option<IoFailure>) -> (outcome: Result<bool, String>)
        ensures
            safety_outcome(outcome) == listing_outcome(failure),
    {
        match failure {
            None => Ok(true),
            Some(failure) => {
                if is_missing(&failure) {
                    Ok(false)
                } else {
                    Err(failure.message)
                }
            },
        }
    }

    /// What is done with an entry.
    pub fn on_entry(&mut self, kind: EntryKind) -> (action: EntryAction)
        ensures
            (final(self)@, action) == old(self)@.met(kind),
    {
        match kind {
            EntryKind::Symlink => {
                self.truncated = true;
                EntryAction::Skip
            },
            EntryKind::Directory => EntryAction::Descend,
            EntryKind::File => EntryAction::TakeIn,
            EntryKind::Other => EntryAction::Skip,
        }
    }

    /// Takes a file in, unless its path is not a plain one.
    pub fn take_in(&mut self, found: FoundFile) -> (outcome: Result<(), String>)
        ensures
            match virtual_text(found.components@) {
                Some(path) => outcome is Ok && final(self)@ == old(self)@.with_file(path, found),
                None => outcome matches Err(error) && error@ == "unsafe note path"@ && final(self)@ == old(
                    self,
                )@,
            },
    {
        let path = match virtual_path(&found.components) {
            Ok(path) => path,
            Err(failure) => {
                return Err(failure.message);
            },
        };
        let file = NoteFile {
            path,
            handle: found.handle,
            bytes: found.bytes,
            lines: found.lines,
            created_at: timestamp(found.created),
            updated_at: timestamp(found.modified),
        };
        self.files.push(file);
        assert(self@.files =~= old(self)@.files.push(file@));
        Ok(())
    }
}

/// A scan that asks before every entry takes in no more files than the limit.
pub proof fn law_file_scan_is_bounded(scan: FileScanView, path: Seq<char>, found: FoundFile)
    requires
        scan.files.len() < MAX_NOTE_SCAN_FILES,
    ensures
        scan.asked() == scan,
        scan.with_file(path, found).files.len() <= MAX_NOTE_SCAN_FILES,
{
}

/// Links are never taken in or followed, and a scan that met one says that something was left out.
pub proof fn law_links_are_left_out(scan: FileScanView)
    ensures
        scan.met(EntryKind::Symlink).1 == EntryAction::Skip,
        scan.met(EntryKind::Symlink).0.truncated,
        scan.met(EntryKind::Symlink).0.files == scan.files,
{
}

/// A path that runs through a link is neither read nor listed, wherever the link stands.
pub proof fn law_links_are_refused(statuses: Seq<PathStatus>, index: int)
    requires
        0 <= index < statuses.len(),
        statuses[index] is Symlink,
    ensures
        path_safety(statuses) matches Ok(safe) ==> !safe,
        directory_safety(statuses) matches Ok(safe) ==> !safe,
    decreases statuses.len(),
{
    if index > 0 {
        let rest = statuses.drop_first();
        assert(rest[index - 1] == statuses[index]);
        law_links_are_refused(rest, index - 1);
    }
}

} // verus!
