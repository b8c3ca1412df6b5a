use std::cell::RefCell;
use std::collections::BTreeMap;
use std::rc::Rc;
use std::time::Duration;
use std::time::UNIX_EPOCH;

use history_notes::json::Json;
use history_notes::limits::MAX_NOTE_BYTES;
use history_notes::limits::MAX_NOTE_FILES;
use history_notes::limits::MAX_NOTE_RESULT_BYTES;
use history_notes::limits::MAX_NOTE_SCAN_FILES;
use history_notes::limits::MAX_THREAD_HINT_BYTES;
use history_notes::limits::MAX_THREAD_HINT_FILES;
use history_notes::note_helpers::PathComponent;
use history_notes::note_storage::check_note;
use history_notes::note_storage::ensure_directory;
use history_notes::note_storage::existing_directory_is_safe;
use history_notes::note_storage::note_line_count;
use history_notes::note_storage::read_note_if_present;
use history_notes::note_storage::temporary_name;
use history_notes::note_storage::AtomicWrite;
use history_notes::note_storage::ChainStep;
use history_notes::note_storage::EntryAction;
use history_notes::note_storage::EntryKind;
use history_notes::note_storage::FileScan;
use history_notes::note_storage::FoundFile;
use history_notes::note_storage::IoFailure;
use history_notes::note_storage::IoKind;
use history_notes::note_storage::NoteError;
use history_notes::note_storage::NoteRead;
use history_notes::note_storage::PathStatus;
use history_notes::note_storage::WriteAction;
use history_notes::note_storage::WriteEvent;
use history_notes::notes::append_file;
use history_notes::notes::append_text;
use history_notes::notes::list_files;
use history_notes::notes::plan_list;
use history_notes::notes::plan_read_file;
use history_notes::notes::plan_search;
use history_notes::notes::plan_write;
use history_notes::notes::read_file;
use history_notes::notes::search_contents;
use history_notes::notes::search_targets;
use history_notes::notes::thread_hint;
use history_notes::notes::write_file;
use history_notes::notes::LocalNoteStore;
use history_notes::notes::NoteListing;
use serde_json::Value;

/// What stands at a path of the disk in memory.
#[derive(Clone, Debug)]
enum Node {
    Directory,
    File { bytes: Vec<u8>, created: u64, updated: u64 },
    Symlink,
}

/// A disk in memory. Paths are rows of names.
#[derive(Debug, Default)]
struct Disk {
    nodes: BTreeMap<Vec<String>, Node>,
    clock: u64,
    counter: u64,
    broken: Option<String>,
}

impl Disk {
    fn status(&self, path: &[String]) -> PathStatus {
        match self.nodes.get(path) {
            Some(Node::Directory) => PathStatus::Directory,
            Some(Node::File { bytes, .. }) => PathStatus::File { bytes: bytes.len() as u64 },
            Some(Node::Symlink) => PathStatus::Symlink,
            None => PathStatus::Failed(IoFailure::new(IoKind::NotFound, "no such file")),
        }
    }

    fn walk(&self, path: &[String]) -> Vec<PathStatus> {
        (1..=path.len()).map(|count| self.status(&path[..count])).collect()
    }

    fn make_chain(&mut self, path: &[String]) -> WriteEvent {
        for count in 1..=path.len() {
            match ensure_directory(&self.status(&path[..count])) {
                Ok(ChainStep::Keep) => {}
                Ok(ChainStep::Create) => {
                    self.nodes.insert(path[..count].to_vec(), Node::Directory);
                }
                Err(failure) => return WriteEvent::Failed(failure),
            }
        }
        WriteEvent::Done
    }

    fn atomic_write(&mut self, root: &[String], path: &[String], bytes: &[u8]) -> Result<(), IoFailure> {
        let parent = &path[..path.len() - 1];
        self.counter += 1;
        let mut temporary = parent.to_vec();
        temporary.push(temporary_name(&path.last().cloned(), 7, self.counter));
        let (mut state, mut action) = AtomicWrite::start(bytes, true);
        loop {
            let event = match action {
                WriteAction::Finish(outcome) => return outcome,
                WriteAction::MakeRoot => self.make_chain(root),
                WriteAction::MakeParent => self.make_chain(parent),
                WriteAction::Inspect => WriteEvent::Status(self.status(path)),
                WriteAction::WriteTemporary => {
                    self.clock += 1;
                    let node = Node::File { bytes: bytes.to_vec(), created: self.clock, updated: self.clock };
                    self.nodes.insert(temporary.clone(), node);
                    match self.broken.take() {
                        Some(message) => WriteEvent::Failed(IoFailure::new(IoKind::Other, &message)),
                        None => WriteEvent::Done,
                    }
                }
                WriteAction::Rename => {
                    let mut node = self.nodes.remove(&temporary).unwrap();
                    if let (Node::File { created, .. }, Some(Node::File { created: first, .. })) =
                        (&mut node, self.nodes.get(path))
                    {
                        *created = *first;
                    }
                    self.nodes.insert(path.to_vec(), node);
                    WriteEvent::Done
                }
                WriteAction::RemoveTemporary => {
                    self.nodes.remove(&temporary);
                    WriteEvent::Done
                }
            };
            (state, action) = state.unwrap().next(event);
        }
    }

    fn read(&self, path: &[String]) -> NoteRead {
        let contents = match self.nodes.get(path) {
            Some(Node::File { bytes, .. }) => Ok(bytes.clone()),
            _ => Err(IoFailure::new(IoKind::NotFound, "no such file")),
        };
        NoteRead { walk: self.walk(path), own: self.status(path), contents }
    }

    fn collect(&self, root: &[String], directory: &[String], scan: &mut FileScan) -> Result<(), String> {
        if !scan.has_room() {
            return Ok(());
        }
        if !FileScan::on_listing(None)? {
            return Ok(());
        }
        for (path, node) in &self.nodes {
            if path.len() != directory.len() + 1 || !path.starts_with(directory) {
                continue;
            }
            if !scan.has_room() {
                break;
            }
            let kind = match node {
                Node::Directory => EntryKind::Directory,
                Node::File { .. } => EntryKind::File,
                Node::Symlink => EntryKind::Symlink,
            };
            match scan.on_entry(kind) {
                EntryAction::Skip => {}
                EntryAction::Descend => self.collect(root, path, scan)?,
                EntryAction::TakeIn => {
                    let Node::File { bytes, created, updated } = node else { unreachable!() };
                    scan.take_in(FoundFile {
                        components: path[root.len()..].iter().cloned().map(PathComponent::Normal).collect(),
                        handle: self.nodes.keys().position(|known| known == path).unwrap(),
                        bytes: bytes.len() as u64,
                        lines: note_line_count(Some(bytes.len() as u64), Some(bytes.clone())),
                        created: Some(UNIX_EPOCH + Duration::from_secs(*created)),
                        modified: Some(UNIX_EPOCH + Duration::from_secs(*updated)),
                    })?;
                }
            }
        }
        Ok(())
    }
}

/// The notes of a thread on a disk in memory.
struct Notes {
    disk: Rc<RefCell<Disk>>,
    store: LocalNoteStore,
}

fn notes_on(disk: &Rc<RefCell<Disk>>, thread: u32) -> Notes {
    Notes { disk: Rc::clone(disk), store: LocalNoteStore::new(&format!("thread-{thread}")) }
}

fn notes(thread: u32) -> Notes {
    notes_on(&Rc::default(), thread)
}

fn parsed(text: &str) -> Value {
    serde_json::from_str(text).unwrap()
}

fn arguments(fields: &[(&str, Value)]) -> Json {
    Json::Object(fields.iter().map(|(name, value)| (name.to_string(), Json::from_value(value))).collect())
}

fn text(value: &str) -> Value {
    Value::String(value.to_string())
}

impl Notes {
    fn write_file(&self, arguments: &Json) -> Value {
        let request = match plan_write(arguments) {
            Ok(request) => request,
            Err(answer) => return answer.to_value(),
        };
        let path = self.store.location(&request.path);
        let outcome =
            self.disk.borrow_mut().atomic_write(&self.store.directory(), &path, request.text.as_bytes());
        write_file(&request, outcome).to_value()
    }

    fn append_file(&self, arguments: &Json) -> Value {
        let request = match plan_write(arguments) {
            Ok(request) => request,
            Err(answer) => return answer.to_value(),
        };
        let path = self.store.location(&request.path);
        let existing = read_note_if_present(self.disk.borrow().read(&path));
        let combined = match append_text(&request, existing) {
            Ok(combined) => combined,
            Err(answer) => return answer.to_value(),
        };
        let outcome = self.disk.borrow_mut().atomic_write(&self.store.directory(), &path, combined.as_bytes());
        append_file(&request, &combined, outcome).to_value()
    }

    fn read_file(&self, arguments: &Json) -> Value {
        let path = match plan_read_file(arguments) {
            Ok(path) => path,
            Err(answer) => return answer.to_value(),
        };
        let read = self.disk.borrow().read(&self.store.location(&path));
        read_file(arguments, &path, self.store.read_note(read)).to_value()
    }

    fn listing(&self) -> NoteListing {
        let disk = self.disk.borrow();
        let directory = self.store.directory();
        match existing_directory_is_safe(&disk.walk(&directory)) {
            Err(_) => NoteListing::Unsafe,
            Ok(false) => NoteListing::Missing,
            Ok(true) => {
                let mut scan = FileScan::new();
                match disk.collect(&directory, &directory, &mut scan) {
                    Ok(()) => NoteListing::Found(scan),
                    Err(_) => NoteListing::Failed,
                }
            }
        }
    }

    fn list_files(&self, arguments: &Json) -> Value {
        match plan_list(arguments) {
            Ok(request) => list_files(&request, self.listing()).to_value(),
            Err(answer) => answer.to_value(),
        }
    }

    fn search_contents(&self, arguments: &Json) -> Value {
        let request = match plan_search(arguments) {
            Ok(request) => request,
            Err(answer) => return answer.to_value(),
        };
        let targets = match search_targets(&request, self.listing()) {
            Ok(targets) => targets,
            Err(answer) => return answer.to_value(),
        };
        let disk = self.disk.borrow();
        let paths: Vec<Vec<String>> = disk.nodes.keys().cloned().collect();
        let contents =
            targets.files.iter().map(|file| self.store.read_note(disk.read(&paths[file.handle]))).collect();
        search_contents(&request, &targets, &contents).to_value()
    }

    fn thread_hint(&self) -> Value {
        let index = self.store.read_note(self.disk.borrow().read(&self.store.location("INDEX.md")));
        let scan = match self.listing() {
            NoteListing::Found(scan) => scan,
            _ => FileScan::new(),
        };
        thread_hint(index, scan).to_value()
    }
}

#[test]
fn writes_appends_reads_after_restart_and_lists_files() {
    let disk = Rc::default();
    let first = notes_on(&disk, 1);
    assert_eq!(
        first.write_file(&arguments(&[("path", text("INDEX.md")), ("text", text("Goal\nNext"))])),
        parsed("{\"status\": \"ok\", \"path\": \"INDEX.md\", \"bytes\": 9}")
    );
    assert_eq!(
        first.append_file(&arguments(&[("path", text("INDEX.md")), ("text", text("\nDone"))])),
        parsed("{\"status\": \"ok\", \"path\": \"INDEX.md\", \"bytes\": 14, \"appended_bytes\": 5}")
    );
    assert_eq!(
        first.write_file(&arguments(&[
            ("path", text("progress/checkpoint.md")),
            ("text", text("durable checkpoint"))
        ])),
        parsed("{\"status\": \"ok\", \"path\": \"progress/checkpoint.md\", \"bytes\": 18}")
    );

    let restarted = notes_on(&disk, 1);
    let read = restarted.read_file(&arguments(&[("path", text("INDEX.md"))]));
    assert_eq!(read["status"], "ok");
    assert_eq!(read["text"], "Goal\nNext\nDone");
    assert_eq!(read["line_count"], 3);

    let listed = restarted.list_files(&arguments(&[("file_order_by", text("name"))]));
    assert_eq!(listed["status"], "ok");
    assert_eq!(
        listed["files"]
            .as_array()
            .expect("file list")
            .iter()
            .map(|file| file["path"].as_str().expect("path"))
            .collect::<Vec<_>>(),
        vec!["INDEX.md", "progress/checkpoint.md"]
    );
}

#[test]
fn reads_line_ranges_and_searches_literal_matches() {
    let notes = notes(2);
    notes.write_file(&arguments(&[
        ("path", text("notes.md")),
        ("text", text("first\nsecond target\nthird target")),
    ]));

    let selected = notes.read_file(&arguments(&[
        ("path", text("notes.md")),
        ("start_line", Value::from(2)),
        ("stop_line", Value::from(-1)),
    ]));
    assert_eq!(selected["text"], "second target\nthird target");
    assert_eq!(selected["start_line"], 2);
    assert_eq!(selected["stop_line"], 3);

    let searched = notes.search_contents(&arguments(&[("query", text("target"))]));
    assert_eq!(searched["status"], "ok");
    assert_eq!(searched["files_scanned"], 1);
    assert_eq!(searched["files_with_matches"], 1);
    assert_eq!(searched["matches"][0]["line"], 2);
    assert_eq!(searched["matches"][1]["line"], 3);
}

#[test]
fn list_prefix_matches_partial_file_names() {
    let notes = notes(20);
    notes.write_file(&arguments(&[("path", text("INDEX.md")), ("text", text("checkpoint"))]));
    let result = notes.list_files(&arguments(&[("prefix", text("IND"))]));
    assert_eq!(result["files"][0]["path"], "INDEX.md");
}

#[test]
fn search_prefix_matches_partial_and_full_file_names() {
    let notes = notes(21);
    notes.write_file(&arguments(&[("path", text("progress/checkpoint.md")), ("text", text("target"))]));
    notes.write_file(&arguments(&[("path", text("unrelated.md")), ("text", text("target"))]));
    for prefix in ["pro", "progress/checkpoint.md"] {
        let result =
            notes.search_contents(&arguments(&[("query", text("target")), ("path_prefix", text(prefix))]));
        assert_eq!(result["files_with_matches"], 1);
        assert_eq!(result["matches"][0]["path"], "progress/checkpoint.md");
    }
}

#[test]
fn keeps_note_results_and_hints_bounded() {
    let notes = notes(3);
    let long_line = "target ".repeat(2_000);
    notes.write_file(&arguments(&[("path", text("INDEX.md")), ("text", text(&long_line))]));
    for index in 0..MAX_THREAD_HINT_FILES + 3 {
        notes.write_file(&arguments(&[
            ("path", text(&format!("progress/{index}.md"))),
            ("text", text("checkpoint")),
        ]));
    }

    let searched = notes.search_contents(&arguments(&[("query", text("target")), ("max_files", Value::from(20))]));
    assert!(serde_json::to_vec(&searched).expect("serialize search").len() <= MAX_NOTE_RESULT_BYTES);
    assert_eq!(searched["truncated"], true);

    let hint = notes.thread_hint();
    let text = hint["text"].as_str().expect("hint text");
    assert!(text.len() <= MAX_THREAD_HINT_BYTES);
    assert!(text.contains("INDEX.md"));
    assert!(text.contains("truncated"));
}

#[test]
fn isolates_threads_and_rejects_unsafe_paths() {
    let disk = Rc::default();
    let first = notes_on(&disk, 4);
    let second = notes_on(&disk, 5);
    first.write_file(&arguments(&[("path", text("private.md")), ("text", text("thread one"))]));

    let missing = second.read_file(&arguments(&[("path", text("private.md"))]));
    assert_eq!(missing["status"], "unavailable");
    assert_eq!(missing["reason"], "not_found");

    for path in ["../escape.md", "/tmp/escape.md", "./dot.md", "nested/./dot.md", "a//b.md", "a\\b.md"] {
        let result = first.write_file(&arguments(&[("path", text(path)), ("text", text("nope"))]));
        assert_eq!(result["status"], "invalid_argument", "path={path}");
    }
}

#[test]
fn rejects_oversized_replacement_without_destroying_existing_note() {
    let notes = notes(6);
    notes.write_file(&arguments(&[("path", text("stable.md")), ("text", text("keep me"))]));

    let oversized = "x".repeat(MAX_NOTE_BYTES + 1);
    let result = notes.write_file(&arguments(&[("path", text("stable.md")), ("text", text(&oversized))]));
    assert_eq!(result["status"], "invalid_argument");
    assert_eq!(result["reason"], "note exceeds the maximum UTF-8 byte size");

    let read = notes.read_file(&arguments(&[("path", text("stable.md"))]));
    assert_eq!(read["text"], "keep me");
}

#[test]
fn refuses_symlinked_note_paths() {
    let notes = notes(7);
    notes.write_file(&arguments(&[("path", text("visible.md")), ("text", text("inside"))]));
    let link = notes.store.location("link.md");
    notes.disk.borrow_mut().nodes.insert(link.clone(), Node::Symlink);

    let read = notes.read_file(&arguments(&[("path", text("link.md"))]));
    assert_eq!(read["status"], "unavailable");
    assert_eq!(read["reason"], "unsafe_path");
    let write = notes.write_file(&arguments(&[("path", text("link.md")), ("text", text("overwrite"))]));
    assert_eq!(write["status"], "unavailable");
    assert!(matches!(notes.disk.borrow().nodes.get(&link), Some(Node::Symlink)));
    let listed = notes.list_files(&arguments(&[]));
    assert_eq!(listed["truncated"], true);
    assert_eq!(listed["files"].as_array().unwrap().len(), 1);
}

#[test]
fn links_on_the_way_are_refused_too() {
    let notes = notes(8);
    let directory = notes.store.directory();
    notes.disk.borrow_mut().nodes.insert(directory[..1].to_vec(), Node::Symlink);
    assert_eq!(notes.list_files(&arguments(&[]))["reason"], "unsafe_path");
    assert_eq!(notes.search_contents(&arguments(&[("query", text("x"))]))["reason"], "unsafe_path");
    assert_eq!(notes.read_file(&arguments(&[("path", text("a.md"))]))["reason"], "unsafe_path");
    let written = notes.write_file(&arguments(&[("path", text("a.md")), ("text", text("x"))]));
    assert_eq!(written["reason"], "unsafe_path");
}

#[test]
fn a_failed_write_leaves_the_note_and_no_temporary_file() {
    let notes = notes(9);
    notes.write_file(&arguments(&[("path", text("a.md")), ("text", text("first"))]));
    let before = notes.disk.borrow().nodes.len();
    notes.disk.borrow_mut().broken = Some("disk full".to_string());
    let written = notes.write_file(&arguments(&[("path", text("a.md")), ("text", text("second"))]));
    assert_eq!(written, parsed("{\"status\":\"unavailable\",\"path\":\"a.md\",\"reason\":\"io_error\"}"));
    assert_eq!(notes.disk.borrow().nodes.len(), before);
    assert_eq!(notes.read_file(&arguments(&[("path", text("a.md"))]))["text"], "first");
}

#[test]
fn without_notes_nothing_is_listed_or_found() {
    let notes = notes(10);
    assert_eq!(
        notes.list_files(&arguments(&[("prefix", text("a"))])),
        parsed("{\"status\":\"ok\",\"prefix\":\"a\",\"files\":[],\"truncated\":false}")
    );
    assert_eq!(
        notes.search_contents(&arguments(&[("query", text("x"))])),
        parsed("{\"status\":\"ok\",\"matches\":[],\"files_scanned\":0,\"truncated\":false}")
    );
    let hint = notes.thread_hint();
    assert_eq!(hint["text"], "Local notes progress:\n(INDEX.md is not present)\nFiles:\n");
}

#[test]
fn hints_name_the_latest_files() {
    let notes = notes(11);
    notes.write_file(&arguments(&[("path", text("INDEX.md")), ("text", text("Goal"))]));
    notes.write_file(&arguments(&[("path", text("b.md")), ("text", text("22"))]));
    notes.write_file(&arguments(&[("path", text("a.md")), ("text", text("1"))]));
    assert_eq!(
        notes.thread_hint()["text"],
        "Local notes progress:\nGoal\nFiles:\n- a.md (1 bytes)\n- b.md (2 bytes)\n- INDEX.md (4 bytes)\n"
    );
}

#[test]
fn an_unreadable_index_is_named_in_the_hint() {
    let hint = thread_hint(Err(NoteError::NonUtf8), FileScan { files: Vec::new(), truncated: true }).to_value();
    assert_eq!(
        hint["text"],
        "Local notes progress:\n(INDEX.md unavailable: non_utf8)\nFiles:\n[file inventory truncated]\n"
    );
}

#[test]
fn lists_are_ordered_and_cut() {
    let notes = notes(12);
    for name in ["b", "c", "a"] {
        notes.write_file(&arguments(&[("path", text(name)), ("text", text("one\ntwo"))]));
    }
    let names = |listed: &Value| -> Vec<String> {
        listed["files"].as_array().unwrap().iter().map(|file| file["path"].as_str().unwrap().to_string()).collect()
    };
    assert_eq!(names(&notes.list_files(&arguments(&[]))), vec!["a", "b", "c"]);
    let created = notes.list_files(&arguments(&[("file_order_by", text("created_at"))]));
    assert_eq!(names(&created), vec!["b", "c", "a"]);
    assert_eq!(created["files"][0]["lines"], 2);
    assert_eq!(created["files"][0]["bytes"], 7);
    assert_eq!(created["files"][0]["created_at"], 1);
    let latest = notes.list_files(&arguments(&[
        ("file_order_by", text("updated_at")),
        ("file_order", text("descending")),
        ("max_results", Value::from(2)),
    ]));
    assert_eq!(names(&latest), vec!["a", "c"]);
    assert_eq!(latest["truncated"], true);
    let wrong = notes.list_files(&arguments(&[("file_order_by", text("size"))]));
    assert_eq!(wrong["field"], "file_order_by");
    let wrong = notes.list_files(&arguments(&[("file_order", text("up"))]));
    assert_eq!(wrong["reason"], "must be ascending or descending");
    let wrong = notes.list_files(&arguments(&[("prefix", Value::from(3))]));
    assert_eq!(wrong["reason"], "must be a string or null");
}

#[test]
fn long_lists_stay_within_the_limit() {
    let notes = notes(13);
    for index in 0..MAX_NOTE_FILES {
        let name = format!("{index:03}-{}", "n".repeat(200));
        notes.write_file(&arguments(&[("path", text(&name)), ("text", text("x"))]));
    }
    let listed = notes.list_files(&arguments(&[]));
    assert!(listed.to_string().len() <= MAX_NOTE_RESULT_BYTES);
    assert_eq!(listed["truncated"], true);
    assert!(listed["files"].as_array().unwrap().len() > 20);
}

#[test]
fn scans_take_in_a_bounded_number_of_files() {
    let notes = notes(14);
    for index in 0..MAX_NOTE_SCAN_FILES + 2 {
        notes.write_file(&arguments(&[("path", text(&format!("{index}.md"))), ("text", text("x"))]));
    }
    let NoteListing::Found(scan) = notes.listing() else { panic!("expected files") };
    assert_eq!(scan.files.len(), MAX_NOTE_SCAN_FILES);
    assert!(scan.truncated);
}

#[test]
fn searches_say_what_they_leave_out() {
    let notes = notes(15);
    notes.write_file(&arguments(&[("path", text("a.md")), ("text", text(&"hit\n".repeat(30)))]));
    let searched = notes.search_contents(&arguments(&[("query", text("hit"))]));
    assert_eq!(searched["matches"].as_array().unwrap().len(), 10);
    assert_eq!(searched["truncated"], true);
    let few = notes.search_contents(&arguments(&[
        ("query", text("hit")),
        ("max_matches_per_file", Value::from(2)),
        ("max_files", Value::from(1)),
    ]));
    assert_eq!(few["matches"].as_array().unwrap().len(), 2);

    let path = notes.store.location("bad.md");
    let node = Node::File { bytes: vec![0xff, 0xfe], created: 90, updated: 90 };
    notes.disk.borrow_mut().nodes.insert(path, node);
    let searched = notes.search_contents(&arguments(&[("query", text("nothing"))]));
    assert_eq!(
        searched,
        parsed(
            "{\"status\":\"ok\",\"matches\":[],\"files_scanned\":2,\"files_with_matches\":0,\
             \"errors\":[{\"path\":\"bad.md\",\"reason\":\"non_utf8\"}],\"truncated\":true}"
        )
    );
    let whole = notes.search_contents(&arguments(&[("query", text("hit")), ("path_prefix", text("z"))]));
    assert_eq!(whole["truncated"], false);
}

#[test]
fn search_arguments_are_checked() {
    let notes = notes(16);
    let reason = |fields: &[(&str, Value)]| notes.search_contents(&arguments(fields))["reason"].clone();
    assert_eq!(reason(&[]), "must be a non-empty string");
    assert_eq!(reason(&[("query", text(""))]), "must not be empty");
    assert_eq!(reason(&[("query", text(&"q".repeat(1_001)))]), "exceeds the maximum query length");
    assert_eq!(
        reason(&[("query", text("q")), ("max_files", Value::from(0))]),
        "must be greater than zero"
    );
    assert_eq!(
        reason(&[("query", text("q")), ("max_matches_per_file", text("x"))]),
        "must be a non-negative integer"
    );
}

#[test]
fn write_arguments_are_checked() {
    let notes = notes(17);
    let reason = |fields: &[(&str, Value)]| notes.write_file(&arguments(fields))["reason"].clone();
    assert_eq!(reason(&[]), "must be a non-empty string");
    assert_eq!(reason(&[("path", text("a"))]), "must be a string");
    assert_eq!(reason(&[("path", text("")), ("text", text("x"))]), "must be a non-empty string");
    let appended = notes.append_file(&arguments(&[("path", text("a")), ("text", text("x"))]));
    assert_eq!(appended["bytes"], 1);
    let read = notes.read_file(&arguments(&[("path", Value::Null)]));
    assert_eq!(read["reason"], "must be a non-empty string");
}

#[test]
fn appends_stop_at_the_limit_on_notes() {
    let notes = notes(18);
    let half = "x".repeat(MAX_NOTE_BYTES / 2);
    for _ in 0..2 {
        let appended = notes.append_file(&arguments(&[("path", text("a")), ("text", text(&half))]));
        assert_eq!(appended["status"], "ok");
    }
    let refused = notes.append_file(&arguments(&[("path", text("a")), ("text", text("x"))]));
    assert_eq!(refused["max_bytes"], MAX_NOTE_BYTES);
    assert_eq!(refused["field"], "text");
}

#[test]
fn reading_a_long_note_keeps_its_longest_beginning() {
    let notes = notes(19);
    let long = "\u{1}é".repeat(5_000);
    notes.write_file(&arguments(&[("path", text("a")), ("text", text(&long))]));
    let read = notes.read_file(&arguments(&[("path", text("a"))]));
    let size = read.to_string().len();
    assert!(size <= MAX_NOTE_RESULT_BYTES);
    assert!(size > MAX_NOTE_RESULT_BYTES - 10);
    assert_eq!(read["truncated"], true);
    assert!(long.starts_with(read["text"].as_str().unwrap()));
}

#[test]
fn line_arguments_are_checked() {
    let notes = notes(22);
    notes.write_file(&arguments(&[("path", text("a")), ("text", text("1\r\n2\n3\n"))]));
    notes.write_file(&arguments(&[("path", text("empty")), ("text", text(""))]));
    let read = |start: Value, stop: Value| {
        notes.read_file(&arguments(&[("path", text("a")), ("start_line", start), ("stop_line", stop)]))
    };
    let whole = read(Value::Null, Value::Null);
    assert_eq!(whole["text"], "1\n2\n3");
    assert_eq!(whole["bytes"], 7);
    assert_eq!(read(Value::from(-2), Value::from(-1))["text"], "2\n3");
    assert_eq!(read(Value::from(0), Value::Null)["reason"], "must not be zero");
    assert_eq!(read(text("1"), Value::Null)["reason"], "must be an integer or null");
    assert_eq!(read(Value::from(4), Value::Null)["reason"], "is outside the file");
    assert_eq!(read(Value::from(-4), Value::Null)["reason"], "is outside the file");
    assert_eq!(read(Value::from(3), Value::from(2))["reason"], "must not be after stop_line");
    let empty = notes.read_file(&arguments(&[("path", text("empty")), ("start_line", Value::from(7))]));
    assert_eq!(empty["line_count"], 0);
    assert_eq!(empty["start_line"], 0);
}

#[test]
fn notes_that_cannot_be_read_say_why() {
    let walk = vec![PathStatus::Directory];
    let failed = |kind| PathStatus::Failed(IoFailure::new(kind, "failed"));
    assert_eq!(check_note(&walk, &failed(IoKind::NotFound)), Ok(false));
    assert_eq!(check_note(&walk, &failed(IoKind::PermissionDenied)), Err(NoteError::UnsafePath));
    assert_eq!(check_note(&walk, &failed(IoKind::InvalidInput)), Err(NoteError::UnsafePath));
    assert_eq!(check_note(&walk, &failed(IoKind::Other)), Err(NoteError::Io));
    assert_eq!(check_note(&walk, &PathStatus::Directory), Err(NoteError::NotAFile));
    assert_eq!(check_note(&walk, &PathStatus::Symlink), Err(NoteError::UnsafePath));
    assert_eq!(check_note(&walk, &PathStatus::File { bytes: 1_000_001 }), Err(NoteError::TooLarge));
    assert_eq!(check_note(&walk, &PathStatus::File { bytes: 1_000_000 }), Ok(true));
    assert_eq!(check_note(&vec![failed(IoKind::AlreadyExists)], &PathStatus::Other), Err(NoteError::Io));
    for (error, reason) in [
        (NoteError::NotFound, "not_found"),
        (NoteError::UnsafePath, "unsafe_path"),
        (NoteError::NotAFile, "not_a_file"),
        (NoteError::TooLarge, "too_large"),
        (NoteError::NonUtf8, "non_utf8"),
        (NoteError::Io, "io_error"),
    ] {
        assert_eq!(error.reason(), reason);
    }
}

#[test]
fn grown_notes_are_too_large_to_read() {
    let read = NoteRead {
        walk: vec![PathStatus::File { bytes: 4 }],
        own: PathStatus::File { bytes: 4 },
        contents: Ok(vec![b'x'; MAX_NOTE_BYTES + 1]),
    };
    assert_eq!(LocalNoteStore::new("t").read_note(read), Err(NoteError::TooLarge));
}

#[test]
fn directories_on_the_way_are_checked() {
    let status = ensure_directory(&PathStatus::Symlink).unwrap_err();
    assert_eq!(status.kind, IoKind::PermissionDenied);
    assert_eq!(status.message, "note directory contains a symlink");
    let status = ensure_directory(&PathStatus::Other).unwrap_err();
    assert_eq!(status.kind, IoKind::AlreadyExists);
    let unsafe_directory = existing_directory_is_safe(&vec![PathStatus::File { bytes: 1 }]);
    assert_eq!(unsafe_directory, Err("note path is not a directory".to_string()));
    let failed = FileScan::on_listing(Some(IoFailure::new(IoKind::Other, "unreadable")));
    assert_eq!(failed, Err("unreadable".to_string()));
    assert_eq!(FileScan::on_listing(Some(IoFailure::new(IoKind::NotFound, "gone"))), Ok(false));
}

#[test]
fn line_counts_are_known_of_small_texts() {
    assert_eq!(note_line_count(Some(3), Some(b"a\nb".to_vec())), Some(2));
    assert_eq!(note_line_count(Some(1), Some(vec![0xff])), None);
    assert_eq!(note_line_count(None, Some(b"a".to_vec())), None);
    assert_eq!(note_line_count(Some(1_000_001), None), None);
}

#[test]
fn temporary_names_stand_beside_the_note() {
    assert_eq!(temporary_name(&Some("a.md".to_string()), 12, 3), ".a.md.codex-tmp-12-3");
    assert_eq!(temporary_name(&None, 1, 0), ".note.codex-tmp-1-0");
}

#[test]
fn stray_events_fail_a_write() {
    let failure = |state: AtomicWrite, event: WriteEvent| match state.next(event) {
        (None, WriteAction::Finish(Err(failure))) => failure.message,
        (Some(AtomicWrite::Removing(failure)), WriteAction::RemoveTemporary) => failure.message,
        _ => panic!("expected a failure"),
    };
    let status = || WriteEvent::Status(PathStatus::Directory);
    assert_eq!(failure(AtomicWrite::MakingRoot { has_parent: true }, status()), "unexpected event");
    assert_eq!(failure(AtomicWrite::MakingParent, status()), "unexpected event");
    assert_eq!(failure(AtomicWrite::Inspecting, WriteEvent::Done), "unexpected event");
    assert_eq!(failure(AtomicWrite::Inspecting, status()), "note path is not a file");
    assert_eq!(failure(AtomicWrite::Writing, status()), "unexpected event");
    assert_eq!(failure(AtomicWrite::Renaming, status()), "unexpected event");
    let lost = WriteEvent::Failed(IoFailure::new(IoKind::Other, "lost"));
    assert_eq!(failure(AtomicWrite::Inspecting, lost), "lost");
}
