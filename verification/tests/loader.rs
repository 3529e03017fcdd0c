use pyfreeze::capture::graph_walker::{walk_sys_modules, ObservedModule};
use pyfreeze::capture::{capture, source_paths, CaptureConfig};
use pyfreeze::error::{FreezeError, IoFailure, IoKind};
use pyfreeze::loader::fds::{
    begin_restore, continue_restore, FdAction, FdReply, FdState, FdStep,
};
use pyfreeze::loader::{
    check_snapshot, fallback, opening_failed, outcome, restore, restore_module, tally, ModuleStep,
    RestoreOutcome, RestoreTally,
};
use pyfreeze::snapshot::format::{
    CaptureStrategy, FdEntry, FdKind, FdTable, ModuleEntry, ModuleTable,
};
use pyfreeze::snapshot::hash::SourceFile;
use pyfreeze::snapshot::{SnapshotReader, SnapshotWriter};

fn sources(text: &[u8]) -> Vec<SourceFile> {
    vec![
        SourceFile { path: "/a.py".into(), contents: Some(text.to_vec()) },
        SourceFile { path: "/b.py".into(), contents: Some(b"b".to_vec()) },
    ]
}

fn captured() -> Vec<u8> {
    captured_on("x86_64-linux")
}

fn captured_on(triple: &str) -> Vec<u8> {
    let module = |name: &str, file: Option<&str>, pickled: Option<&[u8]>| ObservedModule {
        name: Some(name.to_string()),
        file: file.map(|f| f.to_string()),
        contents: None,
        pickled: pickled.map(|p| p.to_vec()),
    };
    let modules = [
        module("sys", None, None),
        module("a", Some("/a.py"), Some(b"AAA")),
        module("b", Some("/b.py"), None),
    ];
    let (table, blobs) = walk_sys_modules(&modules).unwrap();
    capture(
        &CaptureConfig::new("p".into(), "generic".into()),
        table,
        &blobs,
        FdTable { entries: vec![] },
        &sources(b"a"),
        "cpython 3.12.3",
        triple,
        1,
    )
    .unwrap()
    .image
}

fn entry(strategy: CaptureStrategy, offset: Option<u64>, len: Option<u64>) -> ModuleEntry {
    ModuleEntry {
        name: "m".into(),
        capture_strategy: strategy,
        blob_offset: offset,
        blob_len: len,
        source_path: None,
        source_hash: None,
    }
}

#[test]
fn missing_snapshot_is_no_error() {
    let io = |kind: IoKind| FreezeError::Io(IoFailure { kind, message: "x".into() });
    assert!(matches!(opening_failed(io(IoKind::NotFound)), Ok(false)));
    assert!(matches!(opening_failed(io(IoKind::Other)), Err(FreezeError::Io(_))));
    assert!(matches!(
        opening_failed(FreezeError::CorruptSnapshot { reason: "r".into() }),
        Err(FreezeError::CorruptSnapshot { reason }) if reason == "r"
    ));
}

#[test]
fn captured_snapshot_is_restored() {
    let image = captured();
    let reader = SnapshotReader::open(&image).unwrap();
    let steps = restore(&reader, "cpython 3.12.3", "x86_64-linux", &sources(b"a"))
        .unwrap()
        .unwrap();
    assert_eq!(
        steps,
        vec![
            ModuleStep::ReImport,
            ModuleStep::Unpickle { offset: 0, len: 3 },
            ModuleStep::ReImport,
        ]
    );
    assert_eq!(reader.pickle_blob(0, 3), b"AAA");
}

#[test]
fn snapshot_is_fresh_whatever_the_order_of_the_sources() {
    let image = captured();
    let reader = SnapshotReader::open(&image).unwrap();
    let mut now = sources(b"a");
    now.reverse();
    assert!(matches!(
        check_snapshot(&reader.header.metadata, "cpython 3.12.3", "x86_64-linux", &now),
        Ok(true)
    ));
}

#[test]
fn captured_snapshot_is_restored_by_another_patch_level() {
    let image = captured();
    let reader = SnapshotReader::open(&image).unwrap();
    for now in ["cpython 3.12.4", "cpython 3.12.0", "cpython 3.12.3"] {
        assert!(restore(&reader, now, "x86_64-linux", &sources(b"a")).unwrap().is_some());
    }
}

#[test]
fn captured_snapshot_is_restored_on_the_machine_that_made_it() {
    for triple in ["aarch64-macos", "x86_64-windows", "x86_64-linux"] {
        let image = captured_on(triple);
        let reader = SnapshotReader::open(&image).unwrap();
        assert_eq!(reader.header.metadata.target_triple, triple);
        assert!(restore(&reader, "cpython 3.12.3", triple, &sources(b"a")).unwrap().is_some());
    }
}

#[test]
fn captured_file_names_the_files_to_look_at() {
    let image = captured();
    let reader = SnapshotReader::open(&image).unwrap();
    assert_eq!(source_paths(&reader.module_table), vec!["/a.py", "/b.py"]);
}

#[test]
fn stale_snapshot_is_not_restored() {
    let image = captured();
    let reader = SnapshotReader::open(&image).unwrap();
    let r = restore(&reader, "cpython 3.12.3", "x86_64-linux", &sources(b"changed"));
    assert!(matches!(r, Ok(None)));
    assert!(matches!(
        check_snapshot(
            &reader.header.metadata,
            "cpython 3.12.3",
            "x86_64-linux",
            &sources(b"changed")
        ),
        Ok(false)
    ));
    // So is the name of the interpreter.
    assert!(matches!(
        restore(&reader, "pypy 3.12.3", "x86_64-linux", &sources(b"a")),
        Ok(None)
    ));
}

#[test]
fn incompatible_snapshot_is_an_error() {
    let image = captured();
    let reader = SnapshotReader::open(&image).unwrap();
    assert!(matches!(
        restore(&reader, "cpython 3.13.0", "x86_64-linux", &sources(b"a")),
        Err(FreezeError::VersionMismatch { .. })
    ));
    assert!(matches!(
        restore(&reader, "cpython 3.12.3", "x86_64-darwin", &sources(b"a")),
        Err(FreezeError::VersionMismatch { .. })
    ));
    assert!(matches!(
        check_snapshot(
            &reader.header.metadata,
            "cpython 3.12.3",
            "x86_64-linux",
            &sources(b"a")
        ),
        Ok(true)
    ));
}

#[test]
fn strategies_decide_the_step() {
    let mut writer = SnapshotWriter::new(
        "p".into(),
        SnapshotReader::open(&captured()).unwrap().header,
    );
    writer.add_pickle_blob(b"blob");
    let (_, image) = writer.commit().unwrap();
    let reader = SnapshotReader::open(&image).unwrap();
    let step = |e: ModuleEntry| restore_module(&reader, &e);

    assert!(matches!(
        step(entry(CaptureStrategy::PickledDict, Some(1), Some(3))),
        Ok(ModuleStep::Unpickle { offset: 1, len: 3 })
    ));
    assert!(matches!(
        step(entry(CaptureStrategy::ReImport, None, None)),
        Ok(ModuleStep::ReImport)
    ));
    assert!(matches!(
        step(entry(CaptureStrategy::PickledObject, Some(0), Some(9))),
        Ok(ModuleStep::ReImport)
    ));
    assert!(matches!(
        step(entry(CaptureStrategy::Plugin { plugin_id: "x".into() }, None, None)),
        Ok(ModuleStep::ReImport)
    ));
    assert!(matches!(
        step(entry(CaptureStrategy::Skipped { reason: "x".into() }, None, None)),
        Ok(ModuleStep::Skip)
    ));
    for e in [
        entry(CaptureStrategy::PickledDict, Some(1), Some(4)),
        entry(CaptureStrategy::PickledDict, None, Some(1)),
        entry(CaptureStrategy::PickledDict, Some(1), None),
        entry(CaptureStrategy::PickledDict, Some(u64::MAX), Some(1)),
    ] {
        match step(e) {
            Err(FreezeError::CorruptSnapshot { reason }) => {
                assert_eq!(reason, "pickle blob of module 'm' out of bounds");
            }
            other => panic!("expected CorruptSnapshot, got {:?}", other),
        }
    }
}

#[test]
fn snapshot_without_its_blobs_is_corrupt() {
    let image = captured();
    let reader = SnapshotReader::open(&image[..image.len() - 1]).unwrap();
    match restore(&reader, "cpython 3.12.3", "x86_64-linux", &sources(b"a")) {
        Err(FreezeError::CorruptSnapshot { reason }) => {
            assert_eq!(reason, "pickle blob of module 'a' out of bounds");
        }
        other => panic!("expected CorruptSnapshot, got {:?}", other),
    }
}

#[test]
fn outcomes_are_counted() {
    let unpickle = ModuleStep::Unpickle { offset: 0, len: 0 };
    assert_eq!(outcome(unpickle, true), RestoreOutcome::Restored);
    assert_eq!(outcome(unpickle, false), RestoreOutcome::ReImported);
    assert_eq!(outcome(ModuleStep::ReImport, true), RestoreOutcome::ReImported);
    assert_eq!(outcome(ModuleStep::ReImport, false), RestoreOutcome::ReImported);
    assert_eq!(outcome(ModuleStep::Skip, true), RestoreOutcome::Skipped);
    assert_eq!(fallback(true), None);
    assert_eq!(fallback(false), Some(ModuleStep::ReImport));
    assert_eq!(
        tally(&[
            RestoreOutcome::Restored,
            RestoreOutcome::Skipped,
            RestoreOutcome::ReImported,
            RestoreOutcome::Restored,
        ]),
        RestoreTally { restored: 2, reimported: 1, skipped: 1 }
    );
}

#[test]
fn module_table_of_a_reader_is_searched_by_name() {
    let image = captured();
    let reader = SnapshotReader::open(&image).unwrap();
    assert_eq!(reader.module_table.get("a").unwrap().source_path.as_deref(), Some("/a.py"));
    assert!(reader.module_table.get("nobody").is_none());
    assert_eq!(ModuleTable::new().entries.len(), 0);
}

// ── File descriptors ────────────────────────────────────────────────────────

fn file(fd: i32) -> FdEntry {
    FdEntry {
        fd,
        kind: FdKind::RegularFile { path: "/log".into(), offset: 77, flags: 2, mode: 0o644 },
    }
}

fn pipe(data: &[u8]) -> FdEntry {
    FdEntry { fd: 6, kind: FdKind::Pipe { buffered_data: data.to_vec() } }
}

fn state_of(step: FdStep) -> FdState {
    match step {
        FdStep::Act { state, .. } => state,
        other => panic!("expected a request, got {:?}", other),
    }
}

#[test]
fn file_is_opened_and_moved_to_its_descriptor() {
    let e = file(5);
    match begin_restore(&e) {
        FdStep::Act {
            state: FdState::Opening,
            action: FdAction::Open { path: "/log", flags: 2, mode: 0o644 },
        } => {}
        other => panic!("unexpected {:?}", other),
    }
    match continue_restore(&e, FdState::Opening, FdReply::Opened(9)) {
        FdStep::Act {
            state: FdState::Seeking { new_fd: 9 },
            action: FdAction::Seek { fd: 9, offset: 77 },
        } => {}
        other => panic!("unexpected {:?}", other),
    }
    match continue_restore(&e, FdState::Seeking { new_fd: 9 }, FdReply::Done) {
        FdStep::Act {
            state: FdState::Duplicating { from: 9 },
            action: FdAction::Duplicate { from: 9, to: 5 },
        } => {}
        other => panic!("unexpected {:?}", other),
    }
    match continue_restore(&e, FdState::Duplicating { from: 9 }, FdReply::Done) {
        FdStep::Act { state: FdState::Closing, action: FdAction::Close { fd: 9 } } => {}
        other => panic!("unexpected {:?}", other),
    }
    assert!(matches!(
        continue_restore(&e, FdState::Closing, FdReply::Failed("EIO".into())),
        FdStep::Finished(Ok(()))
    ));
}

#[test]
fn file_that_opens_in_place_stays_there() {
    let e = file(5);
    assert!(matches!(
        continue_restore(&e, FdState::Seeking { new_fd: 5 }, FdReply::Done),
        FdStep::Finished(Ok(()))
    ));
}

#[test]
fn failed_request_is_reported() {
    let e = file(5);
    for state in [
        FdState::Opening,
        FdState::Seeking { new_fd: 9 },
        FdState::Duplicating { from: 9 },
        FdState::Writing { read_fd: 8, write_fd: 9 },
    ] {
        match continue_restore(&e, state, FdReply::Failed("ENOENT".into())) {
            FdStep::Finished(Err(FreezeError::FdRestoreFailure { fd: 5, reason })) => {
                assert_eq!(reason, "ENOENT");
            }
            other => panic!("unexpected {:?}", other),
        }
    }
    match continue_restore(&pipe(b"x"), FdState::MakingPipe, FdReply::Failed("EMFILE".into())) {
        FdStep::Finished(Err(FreezeError::FdRestoreFailure { fd: 6, reason })) => {
            assert_eq!(reason, "EMFILE");
        }
        other => panic!("unexpected {:?}", other),
    }
}

#[test]
fn pipe_is_refilled() {
    let e = pipe(b"data");
    assert!(matches!(
        begin_restore(&e),
        FdStep::Act { state: FdState::MakingPipe, action: FdAction::MakePipe }
    ));
    match continue_restore(&e, FdState::MakingPipe, FdReply::Piped { read_fd: 8, write_fd: 9 }) {
        FdStep::Act {
            state: FdState::Writing { read_fd: 8, write_fd: 9 },
            action: FdAction::Write { fd: 9, data },
        } => assert_eq!(data, b"data"),
        other => panic!("unexpected {:?}", other),
    }
    match continue_restore(&e, FdState::Writing { read_fd: 8, write_fd: 9 }, FdReply::Done) {
        FdStep::Act {
            state: FdState::ClosingWriteEnd { read_fd: 8 },
            action: FdAction::Close { fd: 9 },
        } => {}
        other => panic!("unexpected {:?}", other),
    }
    match continue_restore(
        &e,
        FdState::ClosingWriteEnd { read_fd: 8 },
        FdReply::Failed("EIO".into()),
    ) {
        FdStep::Act {
            state: FdState::Duplicating { from: 8 },
            action: FdAction::Duplicate { from: 8, to: 6 },
        } => {}
        other => panic!("unexpected {:?}", other),
    }
}

#[test]
fn pipe_that_opens_in_place_stays_there() {
    let e = pipe(b"data");
    assert!(matches!(
        continue_restore(&e, FdState::ClosingWriteEnd { read_fd: 6 }, FdReply::Done),
        FdStep::Finished(Ok(()))
    ));
}

#[test]
fn other_descriptors_are_left_alone_or_closed() {
    for kind in [
        FdKind::Stdio,
        FdKind::TcpSocket { peer_addr: "a".into(), is_tls: false },
        FdKind::UnixSocket { path: "p".into() },
        FdKind::Pipe { buffered_data: vec![] },
    ] {
        let e = FdEntry { fd: 7, kind };
        assert!(matches!(begin_restore(&e), FdStep::Finished(Ok(()))));
    }
    let e = FdEntry { fd: 7, kind: FdKind::Unknown { description: "?".into() } };
    assert!(matches!(
        begin_restore(&e),
        FdStep::Act { state: FdState::Closing, action: FdAction::Close { fd: 7 } }
    ));
}

#[test]
fn at_most_five_requests_are_made() {
    let e = pipe(b"data");
    let mut made = 1;
    let mut state = state_of(begin_restore(&e));
    loop {
        let reply = if state == FdState::MakingPipe {
            FdReply::Piped { read_fd: 8, write_fd: 9 }
        } else {
            FdReply::Done
        };
        match continue_restore(&e, state, reply) {
            FdStep::Act { state: next, .. } => {
                made += 1;
                state = next;
            }
            FdStep::Finished(r) => {
                assert!(r.is_ok());
                break;
            }
        }
    }
    assert_eq!(made, 5);
}
