//! What may be read and written on the disk, stated over what lies there.

use vstd::prelude::*;
use vstd::utf8::*;

use crate::note_helpers::seconds_after_epoch;
use crate::note_helpers::virtual_text;
use crate::note_helpers::PathComponent;
use crate::note_storage::chain_step;
use crate::note_storage::directory_safety;
use crate::note_storage::line_count_of;
use crate::note_storage::listing_outcome;
use crate::note_storage::needed_note;
use crate::note_storage::note_presence;
use crate::note_storage::path_safety;
use crate::note_storage::present_note;
use crate::note_storage::temporary_name_of;
use crate::note_storage::write_next;
use crate::note_storage::write_start;
use crate::note_storage::AtomicWriteView;
use crate::note_storage::ChainStep;
use crate::note_storage::EntryAction;
use crate::note_storage::EntryKind;
use crate::note_storage::FileScanView;
use crate::note_storage::FoundFile;
use crate::note_storage::IoFailure;
use crate::note_storage::IoFailureView;
use crate::note_storage::IoKind;
use crate::note_storage::NoteError;
use crate::note_storage::NoteRead;
use crate::note_storage::PathStatus;
use crate::note_storage::WriteActionView;
use crate::note_storage::WriteEvent;
use crate::scanner::lemma_digits_end;
use crate::text::decimal;
use crate::text::joined;
use crate::text::lemma_decimal;
use crate::text::lines_of;

verus! {

/// What a failure means for a note: it is not there, its path is not safe, or something else went wrong.
pub open spec fn is_meaning(error: NoteError, kind: IoKind) -> bool {
    match kind {
        IoKind::NotFound => error == NoteError::NotFound,
        IoKind::InvalidInput => error == NoteError::UnsafePath,
        IoKind::PermissionDenied => error == NoteError::UnsafePath,
        IoKind::AlreadyExists => error == NoteError::Io,
        IoKind::Other => error == NoteError::Io,
    }
}

/// A path on which neither a link nor a failure stands is safe.
pub proof fn law_plain_paths_are_safe(statuses: Seq<PathStatus>)
    requires
        forall|i: int|
            0 <= i < statuses.len() ==> !(#[trigger] statuses[i] is Symlink) && !(statuses[i] is Failed),
    ensures
        path_safety(statuses) == Ok::<_, NoteError>(true),
    decreases statuses.len(),
{
    if statuses.len() > 0 {
        let rest = statuses.drop_first();
        assert forall|i: int| 0 <= i < rest.len() implies !(#[trigger] rest[i] is Symlink) && !(rest[i] is Failed) by {
            assert(rest[i] == statuses[i + 1]);
        }
        assert(!(statuses[0] is Symlink) && !(statuses[0] is Failed));
        law_plain_paths_are_safe(rest);
    }
}

/// The first link or failure on a path decides: a link makes it unsafe, where nothing stands there is no
/// note, and any other failure is an error.
pub proof fn law_first_trouble_decides(statuses: Seq<PathStatus>, index: int)
    requires
        0 <= index < statuses.len(),
        forall|i: int| 0 <= i < index ==> !(#[trigger] statuses[i] is Symlink) && !(statuses[i] is Failed),
        statuses[index] is Symlink || statuses[index] is Failed,
    ensures
        match statuses[index] {
            PathStatus::Failed(failure) => {
                &&& failure.kind == IoKind::NotFound ==> path_safety(statuses) == Ok::<_, NoteError>(false)
                &&& failure.kind != IoKind::NotFound ==> (path_safety(statuses) matches Err(error) && is_meaning(
                    error,
                    failure.kind,
                ))
            },
            _ => path_safety(statuses) matches Err(error) && error == NoteError::UnsafePath,
        },
    decreases statuses.len(),
{
    if index > 0 {
        let rest = statuses.drop_first();
        assert(rest[index - 1] == statuses[index]);
        assert forall|i: int| 0 <= i < index - 1 implies !(#[trigger] rest[i] is Symlink) && !(rest[i] is Failed) by {
            assert(rest[i] == statuses[i + 1]);
        }
        assert(!(statuses[0] is Symlink) && !(statuses[0] is Failed));
        law_first_trouble_decides(rest, index - 1);
    }
}

/// A directory can be scanned where it and all above it are directories; the first thing on the way that is
/// none decides otherwise, and where nothing stands there is nothing to scan.
pub proof fn law_directories_are_scanned(statuses: Seq<PathStatus>, index: int)
    requires
        0 <= index <= statuses.len(),
        forall|i: int| 0 <= i < index ==> #[trigger] statuses[i] is Directory,
        index < statuses.len() ==> !(statuses[index] is Directory),
    ensures
        index == statuses.len() ==> directory_safety(statuses) == Ok::<_, Seq<char>>(true),
        index < statuses.len() ==> match statuses[index] {
            PathStatus::Failed(failure) => if failure.kind == IoKind::NotFound {
                directory_safety(statuses) == Ok::<_, Seq<char>>(false)
            } else {
                directory_safety(statuses) == Err::<bool, _>(failure.message@)
            },
            PathStatus::Symlink => directory_safety(statuses) == Err::<bool, _>("note directory contains a symlink"@),
            _ => directory_safety(statuses) == Err::<bool, _>("note path is not a directory"@),
        },
    decreases statuses.len(),
{
    if index > 0 {
        let rest = statuses.drop_first();
        assert(statuses[0] is Directory);
        if index < statuses.len() {
            assert(rest[index - 1] == statuses[index]);
        }
        assert forall|i: int| 0 <= i < index - 1 implies #[trigger] rest[i] is Directory by {
            assert(rest[i] == statuses[i + 1]);
        }
        law_directories_are_scanned(rest, index - 1);
    }
}

/// On the way to a note that is written, a directory stays, a missing one is made, and anything else is a
/// failure.
pub proof fn law_way_to_a_note(status: PathStatus)
    ensures
        chain_step(status) == Ok::<_, IoFailureView>(ChainStep::Keep) <==> status is Directory,
        chain_step(status) == Ok::<_, IoFailureView>(ChainStep::Create) <==> (status matches PathStatus::Failed(failure)
            && failure.kind == IoKind::NotFound),
        status matches PathStatus::Failed(failure) ==> (failure.kind != IoKind::NotFound ==> (chain_step(status) matches Err(
            error,
        ) && error.kind == failure.kind && error.message == failure.message@)),
        status is Symlink ==> (chain_step(status) matches Err(error) && error.kind == IoKind::PermissionDenied
            && error.message == "note directory contains a symlink"@),
        status is File || status is Other ==> (chain_step(status) matches Err(error) && error.kind
            == IoKind::AlreadyExists && error.message == "note directory component is not a directory"@),
{
}

/// A note on a safe path is there where it is a plain file of at most 1,000,000 bytes, and missing where
/// nothing stands; a larger one, a link and any other thing are refused.
pub proof fn law_which_notes_are_there(walk: Seq<PathStatus>, own: PathStatus)
    requires
        path_safety(walk) == Ok::<_, NoteError>(true),
    ensures
        match own {
            PathStatus::File { bytes } => if bytes <= 1_000_000 {
                note_presence(walk, own) == Ok::<_, NoteError>(true)
            } else {
                note_presence(walk, own) == Err::<bool, _>(NoteError::TooLarge)
            },
            PathStatus::Symlink => note_presence(walk, own) == Err::<bool, _>(NoteError::UnsafePath),
            PathStatus::Failed(failure) => if failure.kind == IoKind::NotFound {
                note_presence(walk, own) == Ok::<_, NoteError>(false)
            } else {
                note_presence(walk, own) matches Err(error) && is_meaning(error, failure.kind)
            },
            _ => note_presence(walk, own) == Err::<bool, _>(NoteError::NotAFile),
        },
{
}

/// A note on a path that is not safe is not read, whatever stands at its end; where the path leads nowhere
/// there is no note.
pub proof fn law_unsafe_notes_are_not_read(read: NoteRead)
    requires
        path_safety(read.walk@) != Ok::<_, NoteError>(true),
    ensures
        path_safety(read.walk@) matches Err(error) ==> needed_note(read) == Err::<Seq<char>, _>(error)
            && present_note(read) == Err::<Option<Seq<char>>, _>(error),
        path_safety(read.walk@) matches Ok(found) ==> !found && needed_note(read) == Err::<Seq<char>, _>(
            NoteError::NotFound,
        ) && present_note(read) == Ok::<_, NoteError>(None::<Seq<char>>),
{
}

/// Reading a note that is there gives the text that its bytes encode, and no other; bytes that are no UTF-8,
/// more than 1,000,000 of them and a failed read are errors of their own.
pub proof fn law_note_text_is_what_the_bytes_say(read: NoteRead, text: Seq<char>)
    requires
        note_presence(read.walk@, read.own) == Ok::<_, NoteError>(true),
    ensures
        match read.contents {
            Ok(bytes) => {
                &&& bytes@ == encode_utf8(text) && bytes@.len() <= 1_000_000 ==> needed_note(read) == Ok::<_, NoteError>(
                    text,
                ) && present_note(read) == Ok::<_, NoteError>(Some(text))
                &&& bytes@.len() > 1_000_000 ==> needed_note(read) == Err::<Seq<char>, _>(NoteError::TooLarge)
                &&& bytes@.len() <= 1_000_000 && !valid_utf8(bytes@) ==> needed_note(read) == Err::<Seq<char>, _>(
                    NoteError::NonUtf8,
                )
            },
            Err(failure) => needed_note(read) matches Err(error) && is_meaning(error, failure.kind),
        },
{
    encode_utf8_valid_utf8(text);
    encode_utf8_decode_utf8(text);
}

/// A write of at most 1,000,000 bytes goes its way step by step where every action succeeds and its place is
/// free or taken by a plain file: the directories, a look at the place, the whole text beside it, and only
/// then the exchange, with which it succeeds.
pub proof fn law_write_goes_its_way(size: nat, status: PathStatus)
    requires
        size <= 1_000_000,
        status is File || status is Failed,
    ensures
        ({
            let (first, a) = write_start(size, true);
            let (second, b) = write_next(first->0, WriteEvent::Done);
            let (third, c) = write_next(second->0, WriteEvent::Done);
            let (fourth, d) = write_next(third->0, WriteEvent::Status(status));
            let (fifth, e) = write_next(fourth->0, WriteEvent::Done);
            let (sixth, f) = write_next(fifth->0, WriteEvent::Done);
            &&& first is Some && a is MakeRoot
            &&& second is Some && b is MakeParent
            &&& third is Some && c is Inspect
            &&& fourth is Some && d is WriteTemporary
            &&& fifth is Some && e is Rename
            &&& sixth is None && f == WriteActionView::Finish(Ok(()))
        }),
{
}

/// Nothing is written where a link, a directory or another thing stands at the note's place, nor where an
/// action before fails; the failure is handed on.
pub proof fn law_write_stops_at_trouble(state: AtomicWriteView, status: PathStatus, failure: IoFailure)
    ensures
        state is Inspecting && (status is Symlink || status is Directory || status is Other) ==> (write_next(
            state,
            WriteEvent::Status(status),
        ).1 matches WriteActionView::Finish(outcome) && (outcome matches Err(error) && error.kind
            == IoKind::InvalidInput && error.message == (if status is Symlink {
            "note path is a symlink"@
        } else {
            "note path is not a file"@
        }))),
        state is MakingRoot || state is MakingParent || state is Inspecting ==> write_next(
            state,
            WriteEvent::Failed(failure),
        ).1 == WriteActionView::Finish(Err(IoFailureView { kind: failure.kind, message: failure.message@ })),
        state is Writing || state is Renaming ==> {
            let (then, action) = write_next(state, WriteEvent::Failed(failure));
            &&& action is RemoveTemporary
            &&& then matches Some(removing) && forall|event: WriteEvent|
                (#[trigger] write_next(removing, event)).1 == WriteActionView::Finish(
                    Err(IoFailureView { kind: failure.kind, message: failure.message@ }),
                )
        },
{
}

/// A note without a place to stand in, and one of more than 1,000,000 bytes, are not written.
pub proof fn law_write_needs_room_and_place(size: nat, has_parent: bool)
    ensures
        size > 1_000_000 ==> (write_start(size, has_parent).1 matches WriteActionView::Finish(outcome) && (
        outcome matches Err(error) && error.kind == IoKind::InvalidInput && error.message == "note exceeds byte limit"@)),
        size <= 1_000_000 && !has_parent ==> (write_next(write_start(size, has_parent).0->0, WriteEvent::Done).1 matches WriteActionView::Finish(
            outcome,
        ) && (outcome matches Err(error) && error.kind == IoKind::InvalidInput && error.message
            == "note has no parent"@)),
{
}

/// The temporary name of a note is hidden, carries the note's own name, and differs from every other
/// temporary name of the note, of this process and of others.
pub proof fn law_temporary_names_differ(name: Seq<char>, process: u32, counter: u64, other_process: u32, other: u64)
    ensures
        ({
            let temporary = temporary_name_of(Some(name), process, counter);
            &&& temporary.len() > name.len() + 1
            &&& temporary[0] == '.'
            &&& temporary.subrange(1, name.len() as int + 1) == name
            &&& name == "note"@ ==> temporary_name_of(None, process, counter) == temporary
            &&& temporary == temporary_name_of(Some(name), other_process, other) ==> process == other_process && counter
                == other
        }),
{
    reveal_strlit(".");
    reveal_strlit("-");
    reveal_strlit(".codex-tmp-");
    let head = "."@ + name + ".codex-tmp-"@;
    let left = decimal(process as nat) + ("-"@ + decimal(counter as nat));
    let right = decimal(other_process as nat) + ("-"@ + decimal(other as nat));
    let temporary = temporary_name_of(Some(name), process, counter);
    let second = temporary_name_of(Some(name), other_process, other);
    lemma_decimal(process as nat);
    lemma_decimal(counter as nat);
    lemma_decimal(other_process as nat);
    lemma_decimal(other as nat);
    assert(temporary =~= head + left);
    assert(second =~= head + right);
    assert(temporary.subrange(1, name.len() as int + 1) =~= name);
    if temporary == second {
        assert(left =~= temporary.skip(head.len() as int));
        assert(right =~= second.skip(head.len() as int));
        assert(("-"@ + decimal(counter as nat))[0] == '-');
        assert(("-"@ + decimal(other as nat))[0] == '-');
        lemma_digits_end(
            decimal(process as nat),
            decimal(other_process as nat),
            "-"@ + decimal(counter as nat),
            "-"@ + decimal(other as nat),
        );
        assert(("-"@ + decimal(counter as nat)).skip(1) =~= decimal(counter as nat));
        assert(("-"@ + decimal(other as nat)).skip(1) =~= decimal(other as nat));
    }
}

/// The lines of a note of at most 1,000,000 bytes are those of its text; of a larger one, and of one that is
/// no text, none are counted.
pub proof fn law_lines_of_a_note(size: u64, text: Seq<char>, bytes: Seq<u8>)
    ensures
        size <= 1_000_000 ==> line_count_of(Some(size), Some(encode_utf8(text))) == Some(lines_of(text).len()),
        size > 1_000_000 ==> line_count_of(Some(size), Some(bytes)) is None,
        !valid_utf8(bytes) ==> line_count_of(Some(size), Some(bytes)) is None,
        line_count_of(None, Some(bytes)) is None,
        line_count_of(Some(size), None) is None,
{
    encode_utf8_valid_utf8(text);
    encode_utf8_decode_utf8(text);
}

/// A scan of the notes takes in every plain file, goes down into every directory, and passes over anything
/// else; it stops at 256 files and says so.
pub proof fn law_scan_takes_in_files(scan: FileScanView)
    ensures
        scan.met(EntryKind::File) == (scan, EntryAction::TakeIn),
        scan.met(EntryKind::Directory) == (scan, EntryAction::Descend),
        scan.met(EntryKind::Other) == (scan, EntryAction::Skip),
        scan.files.len() >= 256 ==> scan.asked().truncated && scan.asked().files == scan.files,
        scan.files.len() < 256 ==> scan.asked() == scan,
{
}

/// A file that a scan takes in keeps its size, its lines and its times, the start of the epoch for one that
/// is not known or lies before it, and stands behind those found before.
pub proof fn law_scan_keeps_what_it_finds(scan: FileScanView, path: Seq<char>, found: FoundFile)
    ensures
        ({
            let after = scan.with_file(path, found);
            let file = after.files.last();
            &&& after.files.len() == scan.files.len() + 1
            &&& after.files.drop_last() == scan.files
            &&& after.truncated == scan.truncated
            &&& file.path == path
            &&& file.handle == found.handle
            &&& file.bytes == found.bytes
            &&& file.lines == found.lines
            &&& match found.created {
                Some(time) => match seconds_after_epoch(time) {
                    Some(seconds) => file.created_at == seconds,
                    None => file.created_at == 0,
                },
                None => file.created_at == 0,
            }
            &&& match found.modified {
                Some(time) => match seconds_after_epoch(time) {
                    Some(seconds) => file.updated_at == seconds,
                    None => file.updated_at == 0,
                },
                None => file.updated_at == 0,
            }
        }),
{
    assert(scan.with_file(path, found).files.drop_last() =~= scan.files);
}

/// The path of a file that was found is its names with a slash between each two; one with any other part is
/// refused.
pub proof fn law_found_paths_are_their_names(components: Seq<PathComponent>, names: Seq<Seq<char>>)
    requires
        names.len() == components.len(),
    ensures
        (forall|i: int|
            0 <= i < components.len() ==> (#[trigger] components[i] matches PathComponent::Normal(name) && name@
                == names[i])) ==> virtual_text(components) == Some(joined(names, "/"@)),
        (exists|i: int| 0 <= i < components.len() && !(#[trigger] components[i] is Normal)) ==> virtual_text(
            components,
        ) is None,
{
    if forall|i: int|
        0 <= i < components.len() ==> (#[trigger] components[i] matches PathComponent::Normal(name) && name@
            == names[i]) {
        assert(components.map_values(|component: PathComponent| component->Normal_0@) =~= names);
    }
}

/// A directory that is gone has nothing to list; any other failure to list it is handed on.
pub proof fn law_gone_directories_are_empty(failure: IoFailure)
    ensures
        listing_outcome(None) == Ok::<_, Seq<char>>(true),
        failure.kind == IoKind::NotFound ==> listing_outcome(Some(failure)) == Ok::<_, Seq<char>>(false),
        failure.kind != IoKind::NotFound ==> listing_outcome(Some(failure)) == Err::<bool, _>(failure.message@),
{
}

} // verus!
