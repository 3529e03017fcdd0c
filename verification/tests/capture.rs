use pyfreeze::capture::fd_capture::{
    capture_fd_table, classify_fd, classify_fd_unix, classify_fd_windows, classify_pipe,
    classify_regular_file, classify_socket, drain_pipe, drained_pipe, enumerate_lsof_fds,
    enumerate_open_fds, Classified, FileType,
};
use pyfreeze::capture::graph_walker::{
    capture_module, filter_dict, needs_pickle, walk_sys_modules, wants_key, DictItem,
    ObservedModule,
};
use pyfreeze::capture::{
    assemble, capture, elapsed_ms, get_runtime_identity, source_paths, CaptureConfig,
};
use pyfreeze::error::FreezeError;
use pyfreeze::snapshot::format::{CaptureStrategy, FdEntry, FdKind, FdTable, ModuleEntry, ModuleTable};
use pyfreeze::snapshot::hash::{compute_source_hash, SourceFile};
use pyfreeze::snapshot::metadata::MetadataBuilder;
use pyfreeze::snapshot::SnapshotReader;

fn module(name: &str, file: Option<&str>, pickled: Option<&[u8]>) -> ObservedModule {
    ObservedModule {
        name: Some(name.to_string()),
        file: file.map(|f| f.to_string()),
        contents: None,
        pickled: pickled.map(|p| p.to_vec()),
    }
}

fn strings(names: &[&str]) -> Vec<String> {
    names.iter().map(|n| n.to_string()).collect()
}

fn failure(e: FreezeError) -> (i32, String) {
    match e {
        FreezeError::FdCaptureFailure { fd, reason } => (fd, reason),
        other => panic!("expected FdCaptureFailure, got {:?}", other),
    }
}

// ── Modules ─────────────────────────────────────────────────────────────────

#[test]
fn some_modules_are_always_imported_again() {
    for name in [
        "sys", "builtins", "__main__", "_thread", "_warnings", "gc", "marshal", "imp", "importlib",
        "_frozen_importlib", "_frozen_importlib_external", "zipimport", "_abc", "_io", "_decimal",
        "_datetime", "_csv", "_json", "_pickle", "_frozen", "_frozen_anything",
    ] {
        assert!(!needs_pickle(name, Some("/lib/x.py")), "{}", name);
    }
    for name in ["", "sys2", "sy", "_froze", "x_frozen", "importlib.util", "json", "django"] {
        assert!(needs_pickle(name, Some("/lib/x.py")), "{}", name);
        assert!(!needs_pickle(name, None), "{}", name);
    }
}

#[test]
fn a_pickled_module_goes_behind_the_blobs() {
    let mut blobs: Vec<u8> = b"before".to_vec();
    let m = ObservedModule {
        name: Some("app".to_string()),
        file: Some("/app.py".to_string()),
        contents: Some(b"x = 1\n".to_vec()),
        pickled: Some(b"PICKLE".to_vec()),
    };
    let e = capture_module(&m, &mut blobs);
    assert_eq!(blobs, b"beforePICKLE".to_vec());
    assert_eq!(e.name, "app");
    assert_eq!(e.capture_strategy, CaptureStrategy::PickledDict);
    assert_eq!(e.blob_offset, Some(6));
    assert_eq!(e.blob_len, Some(6));
    assert_eq!(e.source_path.as_deref(), Some("/app.py"));
    assert_eq!(
        e.source_hash.as_deref(),
        Some("9e26bf369911c45c243c684147b23fc9e1dcfcf257d299a1c632016a6fcd33f4")
    );
}

#[test]
fn a_module_that_cannot_be_pickled_is_imported_again() {
    let mut blobs: Vec<u8> = Vec::new();
    let m = ObservedModule {
        name: None,
        file: Some("/gone.py".to_string()),
        contents: None,
        pickled: None,
    };
    let e = capture_module(&m, &mut blobs);
    assert!(blobs.is_empty());
    assert_eq!(e.name, "<unknown>");
    assert_eq!(e.capture_strategy, CaptureStrategy::ReImport);
    assert_eq!(e.blob_offset, None);
    assert_eq!(e.blob_len, None);
    assert_eq!(e.source_path.as_deref(), Some("/gone.py"));
    assert_eq!(e.source_hash, None);
}

#[test]
fn an_always_imported_module_keeps_its_path_and_no_hash() {
    let mut blobs: Vec<u8> = Vec::new();
    let m = ObservedModule {
        name: Some("importlib".to_string()),
        file: Some("/importlib.py".to_string()),
        contents: Some(b"x".to_vec()),
        pickled: Some(b"ignored".to_vec()),
    };
    let e = capture_module(&m, &mut blobs);
    assert!(blobs.is_empty());
    assert_eq!(e.capture_strategy, CaptureStrategy::ReImport);
    assert_eq!(e.source_path.as_deref(), Some("/importlib.py"));
    assert_eq!(e.source_hash, None);
}

#[test]
fn walk_keeps_the_order_of_the_modules() {
    let modules = [
        module("sys", None, None),
        module("a", Some("/a.py"), Some(b"AAA")),
        module("b", Some("/b.py"), None),
        module("c", Some("/c.py"), Some(b"CC")),
    ];
    let (table, blobs) = walk_sys_modules(&modules).unwrap();
    assert_eq!(blobs, b"AAACC".to_vec());
    let names: Vec<&str> = table.entries.iter().map(|e| e.name.as_str()).collect();
    assert_eq!(names, vec!["sys", "a", "b", "c"]);
    assert_eq!(table.get("c").unwrap().blob_offset, Some(3));
    assert_eq!(table.get("c").unwrap().blob_len, Some(2));
    assert_eq!(table.get("b").unwrap().capture_strategy, CaptureStrategy::ReImport);
    assert_eq!(source_paths(&table), strings(&["/a.py", "/b.py", "/c.py"]));
}

#[test]
fn some_keys_are_never_kept() {
    for key in ["__builtins__", "__loader__", "__spec__", "__cached__", "__doc__"] {
        assert!(!wants_key(Some(key)));
    }
    assert!(wants_key(Some("__name__")));
    assert!(wants_key(Some("")));
    assert!(!wants_key(None));
}

#[test]
fn dict_is_filtered_in_order() {
    let item = |key: Option<&str>, picklable: bool| DictItem {
        key: key.map(|k| k.to_string()),
        picklable,
    };
    let items = [
        item(Some("a"), true),
        item(Some("__doc__"), true),
        item(None, true),
        item(Some("lock"), false),
        item(Some("b"), true),
    ];
    assert_eq!(filter_dict(&items), vec![0, 4]);
    assert_eq!(filter_dict(&[]), Vec::<usize>::new());
}

// ── File descriptors ────────────────────────────────────────────────────────

#[test]
fn descriptors_are_enumerated_in_order() {
    assert_eq!(
        enumerate_open_fds(
            &strings(&["10", "3", "x", "", "0", "255", "3", "-1", "+4", "2147483648"]),
            99
        ),
        vec![-1, 0, 3, 3, 4, 10, 255]
    );
    assert_eq!(
        enumerate_open_fds(
            &strings(&["-2147483648", "2147483647", "-2147483649", "--1", "-", "-+1"]),
            99
        ),
        vec![i32::MIN, i32::MAX]
    );
}

#[test]
fn descriptor_of_the_listing_is_left_out() {
    assert_eq!(enumerate_open_fds(&strings(&["0", "1", "2", "7", "3"]), 7), vec![0, 1, 2, 3]);
    assert_eq!(enumerate_open_fds(&strings(&["7"]), 7), Vec::<i32>::new());
}

#[test]
fn descriptors_are_found_in_a_field_listing() {
    assert_eq!(
        enumerate_lsof_fds(&strings(&["p1234", "fcwd", "f12", "ftxt", "f0", "12", "f", "g3"])),
        vec![0, 12]
    );
}

#[test]
fn standard_streams_are_left_alone() {
    for fd in [-1, 0, 1, 2] {
        let e = classify_fd(fd).unwrap();
        assert_eq!(e.fd, fd);
        assert!(matches!(e.kind, FdKind::Stdio));
    }
    assert!(classify_fd(3).is_none());
}

#[test]
fn file_types_are_told_apart() {
    assert!(matches!(classify_fd_unix(5, Ok(0o100644)), Ok(FileType::Regular)));
    assert!(matches!(classify_fd_unix(5, Ok(0o140777)), Ok(FileType::Socket)));
    assert!(matches!(classify_fd_unix(5, Ok(0o010600)), Ok(FileType::Pipe)));
    for mode in [0o020620u32, 0o040755, 0o060660, 0o120777, 0o000644] {
        match classify_fd_unix(5, Ok(mode)) {
            Ok(FileType::Other(FdEntry { fd: 5, kind: FdKind::Unknown { description } })) => {
                assert_eq!(description, format!("unsupported st_mode 0o{:o}", mode));
            }
            other => panic!("expected an unknown descriptor, got {:?}", other),
        }
    }
    let e = classify_fd_unix(5, Err("EBADF".to_string())).unwrap_err();
    assert_eq!(failure(e), (5, "EBADF".to_string()));
}

#[test]
fn regular_files_are_recorded() {
    let e = classify_regular_file(7, Ok(1024), Ok(2), Some("/tmp/log".to_string())).unwrap();
    assert_eq!(e.fd, 7);
    match e.kind {
        FdKind::RegularFile { path, offset, flags, mode } => {
            assert_eq!(path, "/tmp/log");
            assert_eq!((offset, flags, mode), (1024, 2, 0o644));
        }
        other => panic!("expected RegularFile, got {:?}", other),
    }
    let e = classify_regular_file(7, Ok(0), Ok(0), None).unwrap();
    assert!(matches!(e.kind, FdKind::RegularFile { path, .. } if path == "<unknown>"));

    let e = classify_regular_file(7, Err("seek".into()), Err("flags".into()), None).unwrap_err();
    assert_eq!(failure(e), (7, "seek".to_string()));
    let e = classify_regular_file(7, Ok(1), Err("flags".into()), None).unwrap_err();
    assert_eq!(failure(e), (7, "flags".to_string()));
}

#[test]
fn sockets_are_recorded() {
    let e = classify_socket(8, Some("1.2.3.4:5".into()), Err("x".into())).unwrap();
    assert!(matches!(e.kind, FdKind::TcpSocket { peer_addr, is_tls: false } if peer_addr == "1.2.3.4:5"));
    // A client on a Unix-domain socket has no path of its own, but its peer has one.
    let e = classify_socket(8, Some("/run/pg".into()), Ok(None)).unwrap();
    assert!(matches!(e.kind, FdKind::UnixSocket { path } if path == "/run/pg"));
    let e = classify_socket(8, Some("x".into()), Ok(Some("/run/s".into()))).unwrap();
    assert!(matches!(e.kind, FdKind::UnixSocket { path } if path == "/run/s"));
    let e = classify_socket(8, None, Ok(Some("/run/s".into()))).unwrap();
    assert!(matches!(e.kind, FdKind::UnixSocket { path } if path == "/run/s"));
    let e = classify_socket(8, None, Ok(None)).unwrap();
    assert!(matches!(e.kind, FdKind::UnixSocket { path } if path == "<unnamed>"));
    let e = classify_socket(8, None, Err("EINVAL".into())).unwrap_err();
    assert_eq!(failure(e), (8, "socket with no peer/name: EINVAL".to_string()));
}

#[test]
fn pipes_are_drained_at_their_read_end() {
    assert!(classify_pipe(9, Ok(0)).unwrap().is_none());
    assert!(classify_pipe(9, Ok(2)).unwrap().is_none());
    let e = classify_pipe(9, Ok(1)).unwrap().unwrap();
    assert!(matches!(e.kind, FdKind::Unknown { description } if description == "write-end pipe (cannot buffer)"));
    let e = classify_pipe(9, Err("EBADF".into())).unwrap_err();
    assert_eq!(failure(e), (9, "EBADF".to_string()));

    let mut buffered: Vec<u8> = Vec::new();
    assert!(drain_pipe(&mut buffered, Some(b"one ")));
    assert!(drain_pipe(&mut buffered, Some(b"two")));
    assert!(!drain_pipe(&mut buffered, Some(b"")));
    assert!(!drain_pipe(&mut buffered, None));
    assert_eq!(buffered, b"one two".to_vec());
    let e = drained_pipe(9, buffered);
    assert_eq!(e.fd, 9);
    assert!(matches!(e.kind, FdKind::Pipe { buffered_data } if buffered_data == b"one two"));
}

#[test]
fn windows_descriptors_are_not_looked_at() {
    let e = classify_fd_windows(4);
    assert_eq!(e.fd, 4);
    assert!(matches!(e.kind, FdKind::Unknown { description }
        if description == "windows fd classification not yet implemented"));
}

#[test]
fn every_descriptor_has_an_entry() {
    let table = capture_fd_table(vec![
        Classified { fd: 0, outcome: Ok(FdEntry { fd: 0, kind: FdKind::Stdio }) },
        Classified {
            fd: 5,
            outcome: Err(FreezeError::FdCaptureFailure { fd: 5, reason: "EBADF".into() }),
        },
    ])
    .unwrap();
    assert_eq!(table.entries.len(), 2);
    assert!(matches!(table.entries[0].kind, FdKind::Stdio));
    assert_eq!(table.entries[1].fd, 5);
    assert!(matches!(&table.entries[1].kind, FdKind::Unknown { description }
        if description == "failed to capture file descriptor 5: EBADF"));
}

// ── The snapshot ────────────────────────────────────────────────────────────

#[test]
fn runtime_identity_is_spelled_out() {
    assert_eq!(
        get_runtime_identity("cpython", 3, 12, 3, "x86_64", "linux"),
        ("cpython 3.12.3".to_string(), "x86_64-linux".to_string())
    );
    assert_eq!(get_runtime_identity("cpython", 3, 12, 3, "x86_64", "win32").1, "x86_64-windows");
    assert_eq!(get_runtime_identity("cpython", 3, 12, 3, "aarch64", "darwin").1, "aarch64-macos");
}

#[test]
fn import_phase_is_measured_in_milliseconds() {
    assert_eq!(elapsed_ms(1_000_000, 4_999_999), 3);
    assert_eq!(elapsed_ms(5, 4), 0);
    assert_eq!(elapsed_ms(0, u64::MAX), 18446744073709);
}

#[test]
fn capture_writes_what_was_walked() {
    let modules = [
        module("sys", None, None),
        module("a", Some("/a.py"), Some(b"AAA")),
        module("c", Some("/c.py"), Some(b"CC")),
    ];
    let (table, blobs) = walk_sys_modules(&modules).unwrap();
    let sources = [
        SourceFile { path: "/a.py".into(), contents: Some(b"a".to_vec()) },
        SourceFile { path: "/c.py".into(), contents: None },
    ];
    let config = CaptureConfig::new("/cache/x.pyfreeze".to_string(), "django".to_string());
    let captured = capture(
        &config,
        table,
        &blobs,
        FdTable { entries: vec![FdEntry { fd: 1, kind: FdKind::Stdio }] },
        &sources,
        "cpython 3.12.3",
        "x86_64-linux",
        250,
    )
    .unwrap();
    assert_eq!(captured.path, "/cache/x.pyfreeze");
    assert_eq!(captured.metadata.framework, "django");
    assert_eq!(captured.metadata.import_phase_ms, 250);
    assert_eq!(captured.metadata.python_impl_version, "cpython 3.12.3");
    assert_eq!(captured.metadata.target_triple, "x86_64-linux");
    assert_eq!(
        captured.metadata.source_hash,
        compute_source_hash(&sources, "cpython 3.12", "x86_64-linux").unwrap()
    );

    let reader = SnapshotReader::open(&captured.image).unwrap();
    assert_eq!(reader.header.metadata.captured_at, captured.metadata.captured_at);
    assert_eq!(reader.header.metadata.source_hash, captured.metadata.source_hash);
    assert_eq!(reader.module_table.entries.len(), 3);
    assert_eq!(reader.fd_table.entries.len(), 1);
    let c = reader.module_table.get("c").unwrap();
    assert_eq!(reader.pickle_blob(c.blob_offset.unwrap(), c.blob_len.unwrap()), b"CC");
}

#[test]
fn blobs_are_put_in_the_order_of_the_entries() {
    let blob = |name: &str, offset: u64, len: u64| ModuleEntry {
        name: name.to_string(),
        capture_strategy: CaptureStrategy::PickledDict,
        blob_offset: Some(offset),
        blob_len: Some(len),
        source_path: None,
        source_hash: None,
    };
    let mut table = ModuleTable::new();
    table.add(blob("late", 6, 4));
    table.add(blob("early", 0, 5));
    table.add(ModuleEntry { blob_len: None, ..blob("half", 3, 0) });
    let config = CaptureConfig::new("p".to_string(), "generic".to_string());
    let meta = MetadataBuilder::new("t").build_at("now".to_string());
    let (path, image) =
        assemble(&config, meta, table, b"early-late", FdTable { entries: vec![] }).unwrap();
    assert_eq!(path, "p");
    assert!(image.ends_with(b"lateearly"));
    let reader = SnapshotReader::open(&image).unwrap();
    let late = reader.module_table.get("late").unwrap();
    assert_eq!((late.blob_offset, late.blob_len), (Some(0), Some(4)));
    let early = reader.module_table.get("early").unwrap();
    assert_eq!((early.blob_offset, early.blob_len), (Some(4), Some(5)));
    assert_eq!(reader.pickle_blob(4, 5), b"early");
    let half = reader.module_table.get("half").unwrap();
    assert_eq!((half.blob_offset, half.blob_len), (Some(3), None));
}
