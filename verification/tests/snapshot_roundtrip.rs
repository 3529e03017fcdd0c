use pyfreeze::error::FreezeError;
use pyfreeze::snapshot::format::{
    CaptureStrategy, FdEntry, FdKind, FdTable, ModuleEntry, ModuleTable, NameIndex,
    SnapshotHeader, SnapshotMetadata, FORMAT_VERSION, MAGIC,
};
use pyfreeze::snapshot::codec::{
    put_fd_table, put_header, put_table, read_fd_table, read_header, read_table,
};
use pyfreeze::snapshot::metadata::MetadataBuilder;
use pyfreeze::snapshot::{default_cache_base_windows, default_cache_dir, join_path};
use pyfreeze::snapshot::{SnapshotReader, SnapshotWriter};

fn make_test_header(source_hash: &str) -> SnapshotHeader {
    let meta = MetadataBuilder::new("x86_64-linux")
        .source_hash(source_hash)
        .python_impl_version("CPython 3.12.3")
        .framework("test")
        .import_phase_ms(42)
        .build();

    SnapshotHeader {
        metadata: meta,
        module_table_offset: 0,
        fd_table_offset: 0,
        pickle_blob_offset: 0,
    }
}

fn fixed_header() -> SnapshotHeader {
    SnapshotHeader {
        metadata: SnapshotMetadata {
            source_hash: "hash".to_string(),
            python_impl_version: "CPython 3.12.3".to_string(),
            target_triple: "x86_64-linux".to_string(),
            captured_at: "2024-01-02T03:04:05+00:00".to_string(),
            framework: "d\u{e9}mo".to_string(),
            import_phase_ms: 1234567890123,
        },
        module_table_offset: 0,
        fd_table_offset: 0,
        pickle_blob_offset: 0,
    }
}

fn entry(name: &str, strategy: CaptureStrategy, blob: Option<(u64, u64)>) -> ModuleEntry {
    ModuleEntry {
        name: name.to_string(),
        capture_strategy: strategy,
        blob_offset: blob.map(|b| b.0),
        blob_len: blob.map(|b| b.1),
        source_path: None,
        source_hash: None,
    }
}

fn reason_of(image: &[u8]) -> String {
    match SnapshotReader::open(image) {
        Err(FreezeError::CorruptSnapshot { reason }) => reason,
        Err(other) => panic!("expected CorruptSnapshot, got {:?}", other),
        Ok(_) => panic!("expected CorruptSnapshot, got a reader"),
    }
}

#[test]
fn empty_snapshot_roundtrip() {
    let path = "empty.pyfreeze";
    let header = make_test_header("abc123");
    let writer = SnapshotWriter::new(path.to_string(), header);
    let (written, image) = writer.commit().unwrap();
    assert_eq!(written, path);

    let reader = SnapshotReader::open(&image).unwrap();
    assert_eq!(reader.header.metadata.source_hash, "abc123");
    assert_eq!(reader.header.metadata.framework, "test");
    assert_eq!(reader.module_table.entries.len(), 0);
    assert_eq!(reader.fd_table.entries.len(), 0);
}

#[test]
fn modules_and_blobs_roundtrip() {
    let blob_a = b"pickle_data_for_module_a";
    let blob_b = b"longer_pickle_data_for_module_b_which_is_larger";

    let header = make_test_header("deadbeef");
    let mut writer = SnapshotWriter::new("modules.pyfreeze".to_string(), header);

    let (off_a, len_a) = writer.add_pickle_blob(blob_a);
    let (off_b, len_b) = writer.add_pickle_blob(blob_b);

    let mut table = ModuleTable::new();
    table.add(ModuleEntry {
        name: "module_a".into(),
        capture_strategy: CaptureStrategy::PickledDict,
        blob_offset: Some(off_a),
        blob_len: Some(len_a),
        source_path: Some("/app/module_a.py".into()),
        source_hash: Some("hash_a".into()),
    });
    table.add(ModuleEntry {
        name: "module_b".into(),
        capture_strategy: CaptureStrategy::PickledDict,
        blob_offset: Some(off_b),
        blob_len: Some(len_b),
        source_path: None,
        source_hash: None,
    });
    table.add(ModuleEntry {
        name: "builtins".into(),
        capture_strategy: CaptureStrategy::ReImport,
        blob_offset: None,
        blob_len: None,
        source_path: None,
        source_hash: None,
    });

    writer.set_module_table(table);
    let (_, image) = writer.commit().unwrap();

    // ── Read back ────────────────────────────────────────────────────────
    let reader = SnapshotReader::open(&image).unwrap();

    assert_eq!(reader.module_table.entries.len(), 3);

    let entry_a = reader.module_table.get("module_a").unwrap();
    assert_eq!(entry_a.capture_strategy, CaptureStrategy::PickledDict);
    let data_a = reader.pickle_blob(entry_a.blob_offset.unwrap(), entry_a.blob_len.unwrap());
    assert_eq!(data_a, blob_a);
    assert_eq!(entry_a.source_path.as_deref(), Some("/app/module_a.py"));
    assert_eq!(entry_a.source_hash.as_deref(), Some("hash_a"));

    let entry_b = reader.module_table.get("module_b").unwrap();
    let data_b = reader.pickle_blob(entry_b.blob_offset.unwrap(), entry_b.blob_len.unwrap());
    assert_eq!(data_b, blob_b);

    let entry_builtin = reader.module_table.get("builtins").unwrap();
    assert_eq!(entry_builtin.capture_strategy, CaptureStrategy::ReImport);
}

#[test]
fn fd_table_roundtrip() {
    let header = make_test_header("fd_test");
    let mut writer = SnapshotWriter::new("fds.pyfreeze".to_string(), header);

    let fd_table = FdTable {
        entries: vec![
            FdEntry { fd: 0, kind: FdKind::Stdio },
            FdEntry {
                fd: 3,
                kind: FdKind::RegularFile {
                    path: "/app/logfile.log".into(),
                    offset: 1024,
                    flags: 2, // O_RDWR
                    mode: 0o644,
                },
            },
            FdEntry {
                fd: 4,
                kind: FdKind::TcpSocket { peer_addr: "127.0.0.1:5432".into(), is_tls: false },
            },
            FdEntry { fd: 5, kind: FdKind::Pipe { buffered_data: b"hello from pipe".to_vec() } },
        ],
    };

    writer.set_fd_table(fd_table);
    let (_, image) = writer.commit().unwrap();

    let reader = SnapshotReader::open(&image).unwrap();
    assert_eq!(reader.fd_table.entries.len(), 4);

    // Verify the TCP socket entry.
    let tcp = &reader.fd_table.entries[2];
    assert_eq!(tcp.fd, 4);
    if let FdKind::TcpSocket { peer_addr, is_tls } = &tcp.kind {
        assert_eq!(peer_addr, "127.0.0.1:5432");
        assert!(!is_tls);
    } else {
        panic!("expected TcpSocket, got {:?}", tcp.kind);
    }

    // Verify buffered pipe data.
    let pipe = &reader.fd_table.entries[3];
    if let FdKind::Pipe { buffered_data } = &pipe.kind {
        assert_eq!(buffered_data, b"hello from pipe");
    } else {
        panic!("expected Pipe, got {:?}", pipe.kind);
    }

    if let FdKind::RegularFile { path, offset, flags, mode } = &reader.fd_table.entries[1].kind {
        assert_eq!(path, "/app/logfile.log");
        assert_eq!((*offset, *flags, *mode), (1024, 2, 0o644));
    } else {
        panic!("expected RegularFile");
    }
}

#[test]
fn corrupt_magic_rejected() {
    let result = SnapshotReader::open(b"NOTMAGIC not a valid snapshot file at all");
    assert!(matches!(result, Err(FreezeError::CorruptSnapshot { .. })));
}

// ── The bytes of a file ─────────────────────────────────────────────────────

#[test]
fn file_is_laid_out_as_bincode_does_it() {
    let mut writer = SnapshotWriter::new("p".to_string(), fixed_header());
    writer.add_pickle_blob(b"abc");
    writer.add_pickle_blob(b"");
    let mut table = ModuleTable::new();
    table.add(ModuleEntry {
        name: "m".into(),
        capture_strategy: CaptureStrategy::PickledDict,
        blob_offset: Some(0),
        blob_len: Some(3),
        source_path: Some("/m.py".into()),
        source_hash: None,
    });
    table.add(entry("n", CaptureStrategy::Skipped { reason: "why".into() }, None));
    writer.set_module_table(table);
    writer.set_fd_table(FdTable {
        entries: vec![
            FdEntry {
                fd: -7,
                kind: FdKind::RegularFile {
                    path: "f".into(),
                    offset: 1 << 40,
                    flags: -1,
                    mode: 0o644,
                },
            },
            FdEntry { fd: 9, kind: FdKind::Stdio },
        ],
    });
    let (_, image) = writer.commit().unwrap();

    // A struct is its fields, an enum its number and its fields, a map its pairs.
    let m = fixed_header().metadata;
    let meta = (
        m.source_hash,
        m.python_impl_version,
        m.target_triple,
        m.captured_at,
        m.framework,
        m.import_phase_ms,
    );
    let header_len = bincode::serialize(&(meta.clone(), 0u64, 0u64, 0u64)).unwrap().len();
    let entries = (
        2u64,
        ("m", 0u32, Some(0u64), Some(3u64), Some("/m.py"), None::<String>),
        ("n", 4u32, "why", None::<u64>, None::<u64>, None::<String>, None::<String>),
    );
    let index = vec![("m", 0u64), ("n", 1u64)];
    let tables = bincode::serialize(&(entries, index)).unwrap();
    let fds = bincode::serialize(&(
        2u64,
        (-7i32, 0u32, "f", 1u64 << 40, -1i32, 0o644u32),
        (9i32, 4u32),
    ))
    .unwrap();
    let at = 16 + header_len;
    let header = bincode::serialize(&(
        meta,
        at as u64,
        (at + tables.len()) as u64,
        (at + tables.len() + fds.len()) as u64,
    ))
    .unwrap();

    let mut expected: Vec<u8> = MAGIC.to_vec();
    expected.extend_from_slice(&FORMAT_VERSION.to_le_bytes());
    expected.extend_from_slice(&(header_len as u32).to_le_bytes());
    expected.extend_from_slice(&header);
    expected.extend_from_slice(&tables);
    expected.extend_from_slice(&fds);
    expected.extend_from_slice(b"abc");
    assert_eq!(image, expected);
}

#[test]
fn enums_of_bincode_are_numbered_in_32_bits() {
    assert_eq!(bincode::serialize(&Err::<u8, u8>(5)).unwrap(), vec![1, 0, 0, 0, 5]);
    assert_eq!(
        bincode::serialize(&std::ops::Bound::Excluded(7u8)).unwrap(),
        vec![2, 0, 0, 0, 7]
    );
}

#[test]
fn name_index_is_read_by_bincode_as_a_map() {
    let mut table = ModuleTable::new();
    table.add(entry("x", CaptureStrategy::ReImport, None));
    table.add(entry("y", CaptureStrategy::PickledObject, None));
    let mut bytes: Vec<u8> = Vec::new();
    put_table(&mut bytes, &table).unwrap();
    // Behind the two entries of 17 bytes each stands the map.
    let map: std::collections::HashMap<String, usize> =
        bincode::deserialize(&bytes[8 + 2 * 17..]).unwrap();
    assert_eq!(map.len(), 2);
    assert_eq!(map["x"], 0);
    assert_eq!(map["y"], 1);
}

#[test]
fn every_strategy_and_kind_comes_back() {
    let mut writer = SnapshotWriter::new("p".to_string(), fixed_header());
    let mut table = ModuleTable::new();
    table.add(entry("a", CaptureStrategy::PickledDict, Some((5, 6))));
    table.add(entry("b", CaptureStrategy::PickledObject, None));
    table.add(entry("c", CaptureStrategy::ReImport, None));
    table.add(entry("d", CaptureStrategy::Plugin { plugin_id: "torch".into() }, None));
    table.add(entry("e", CaptureStrategy::Skipped { reason: "GPU \u{1f980}".into() }, None));
    writer.set_module_table(table);
    writer.set_fd_table(FdTable {
        entries: vec![
            FdEntry { fd: 1, kind: FdKind::Stdio },
            FdEntry { fd: 2, kind: FdKind::UnixSocket { path: "/run/s".into() } },
            FdEntry {
                fd: i32::MIN,
                kind: FdKind::TcpSocket { peer_addr: "[::1]:1".into(), is_tls: true },
            },
            FdEntry { fd: i32::MAX, kind: FdKind::Unknown { description: "?".into() } },
            FdEntry { fd: 6, kind: FdKind::Pipe { buffered_data: vec![] } },
        ],
    });
    let (_, image) = writer.commit().unwrap();
    let reader = SnapshotReader::open(&image).unwrap();

    let m = &reader.header.metadata;
    assert_eq!(m.source_hash, "hash");
    assert_eq!(m.python_impl_version, "CPython 3.12.3");
    assert_eq!(m.target_triple, "x86_64-linux");
    assert_eq!(m.captured_at, "2024-01-02T03:04:05+00:00");
    assert_eq!(m.framework, "d\u{e9}mo");
    assert_eq!(m.import_phase_ms, 1234567890123);

    let s: Vec<CaptureStrategy> =
        reader.module_table.entries.iter().map(|e| e.capture_strategy.clone()).collect();
    assert_eq!(
        s,
        vec![
            CaptureStrategy::PickledDict,
            CaptureStrategy::PickledObject,
            CaptureStrategy::ReImport,
            CaptureStrategy::Plugin { plugin_id: "torch".into() },
            CaptureStrategy::Skipped { reason: "GPU \u{1f980}".into() },
        ]
    );
    assert_eq!(reader.module_table.entries[0].blob_offset, Some(5));
    assert_eq!(reader.module_table.entries[0].blob_len, Some(6));
    assert_eq!(reader.module_table.entries[1].blob_offset, None);

    let e = &reader.fd_table.entries;
    assert!(matches!(&e[0].kind, FdKind::Stdio));
    assert!(matches!(&e[1].kind, FdKind::UnixSocket { path } if path == "/run/s"));
    assert_eq!(e[2].fd, i32::MIN);
    assert!(matches!(&e[2].kind, FdKind::TcpSocket { peer_addr, is_tls: true } if peer_addr == "[::1]:1"));
    assert_eq!(e[3].fd, i32::MAX);
    assert!(matches!(&e[3].kind, FdKind::Unknown { description } if description == "?"));
    assert!(matches!(&e[4].kind, FdKind::Pipe { buffered_data } if buffered_data.is_empty()));
}

// ── Corrupt files ───────────────────────────────────────────────────────────

fn small_image() -> Vec<u8> {
    let mut writer = SnapshotWriter::new("p".to_string(), fixed_header());
    let mut table = ModuleTable::new();
    table.add(entry("m", CaptureStrategy::ReImport, None));
    writer.set_module_table(table);
    writer.set_fd_table(FdTable { entries: vec![FdEntry { fd: 1, kind: FdKind::Stdio }] });
    writer.add_pickle_blob(b"blob");
    writer.commit().unwrap().1
}

#[test]
fn short_file_is_too_small() {
    assert_eq!(reason_of(b""), "file too small");
    assert_eq!(reason_of(&small_image()[..15]), "file too small");
}

#[test]
fn other_magic_is_named() {
    let mut image = small_image();
    image[7] = 9;
    assert_eq!(reason_of(&image), "magic bytes mismatch");
}

#[test]
fn other_format_version_is_named() {
    let mut image = small_image();
    image[8] = 2;
    assert_eq!(reason_of(&image), "format version 2 != expected 1");
    image[11] = 255;
    assert_eq!(reason_of(&image), "format version 4278190082 != expected 1");
}

#[test]
fn header_beyond_the_end_is_corrupt() {
    let image = small_image();
    assert_eq!(reason_of(&image[..20]), "header out of bounds");
}

#[test]
fn header_that_is_cut_short_is_corrupt() {
    let mut image = small_image();
    image[12] = 4;
    image[13] = 0;
    assert_eq!(reason_of(&image), "io error: unexpected end of file");
}

#[test]
fn tables_out_of_place_are_corrupt() {
    let image = small_image();
    let (h, m, f) = {
        let reader = SnapshotReader::open(&image).unwrap();
        (
            reader.header.module_table_offset as usize,
            reader.header.fd_table_offset as usize,
            reader.header.pickle_blob_offset as usize,
        )
    };
    assert_eq!(f, image.len() - 4);
    // The offsets stand at the end of the header.
    let mut broken = image.clone();
    broken[h - 16] = 255;
    broken[h - 15] = 255;
    assert_eq!(reason_of(&broken), "module table out of bounds");
    let mut broken = image.clone();
    broken[h - 8] = 0;
    broken[h - 7] = 0;
    assert_eq!(reason_of(&broken), "fd table out of bounds");
    let mut broken = image.clone();
    broken[h] = 99;
    assert!(SnapshotReader::open(&broken).is_err());
    let mut broken = image.clone();
    broken[m] = 2;
    assert!(SnapshotReader::open(&broken).is_err());
    let mut broken = image.clone();
    broken[m + 12] = 77;
    assert!(matches!(
        SnapshotReader::open(&broken),
        Err(FreezeError::CorruptSnapshot { .. })
    ));
}

#[test]
fn every_cut_file_is_corrupt_or_loses_blobs_only() {
    let image = small_image();
    let blobs_at = SnapshotReader::open(&image).unwrap().header.pickle_blob_offset as usize;
    for n in 0..image.len() {
        match SnapshotReader::open(&image[..n]) {
            Ok(reader) => {
                assert!(n >= blobs_at);
                assert!(!reader.has_blob(0, 4));
            }
            Err(FreezeError::CorruptSnapshot { .. }) => assert!(n < blobs_at),
            Err(other) => panic!("expected CorruptSnapshot, got {:?}", other),
        }
    }
}

#[test]
fn blobs_are_found_where_they_were_put() {
    let mut writer = SnapshotWriter::new("p".to_string(), fixed_header());
    assert_eq!(writer.add_pickle_blob(b"first"), (0, 5));
    assert_eq!(writer.add_pickle_blob(b""), (5, 0));
    assert_eq!(writer.add_pickle_blob(b"second"), (5, 6));
    let (_, image) = writer.commit().unwrap();
    let reader = SnapshotReader::open(&image).unwrap();
    assert_eq!(reader.pickle_blob(0, 5), b"first");
    assert_eq!(reader.pickle_blob(5, 0), b"");
    assert_eq!(reader.pickle_blob(5, 6), b"second");
    assert!(reader.has_blob(0, 11));
    assert!(!reader.has_blob(0, 12));
    assert!(!reader.has_blob(12, 0));
    assert!(!reader.has_blob(u64::MAX, 1));
    assert!(!reader.has_blob(1, u64::MAX));
}

// ── The module table ────────────────────────────────────────────────────────

#[test]
fn a_name_leads_to_its_last_entry() {
    let mut table = ModuleTable::new();
    assert!(table.get("a").is_none());
    table.add(entry("a", CaptureStrategy::ReImport, None));
    table.add(entry("b", CaptureStrategy::ReImport, None));
    table.add(entry("a", CaptureStrategy::PickledDict, Some((1, 2))));
    assert_eq!(table.entries.len(), 3);
    assert_eq!(table.get("a").unwrap().capture_strategy, CaptureStrategy::PickledDict);
    assert_eq!(table.get("b").unwrap().capture_strategy, CaptureStrategy::ReImport);
    assert!(table.get("c").is_none());
}

#[test]
fn name_index_remembers_the_order() {
    let mut index = NameIndex::new();
    index.insert("b".to_string(), 0);
    index.insert("a".to_string(), 1);
    index.insert("b".to_string(), 2);
    assert_eq!(index.len(), 2);
    assert_eq!(index.pair(0), ("b", 2));
    assert_eq!(index.pair(1), ("a", 1));
    assert_eq!(index.get("b"), Some(2));
    assert_eq!(index.get("z"), None);
}

// ── Where snapshots are kept ────────────────────────────────────────────────

#[test]
fn cache_directories() {
    assert_eq!(default_cache_dir(Some("/x"), Some("/home/u")), "/x/pyfreeze");
    assert_eq!(default_cache_dir(Some("/x/"), None), "/x/pyfreeze");
    assert_eq!(default_cache_dir(None, Some("/home/u")), "/home/u/.cache/pyfreeze");
    assert_eq!(default_cache_dir(None, None), "/tmp/.cache/pyfreeze");
    assert_eq!(default_cache_dir(Some(""), None), "pyfreeze");
    assert_eq!(default_cache_base_windows(Some("D:\\c")), "D:\\c");
    assert_eq!(default_cache_base_windows(None), "C:\\Temp");
}

#[test]
fn paths_are_joined_as_std_does_it() {
    for dir in ["", "/", "a", "a/", "/a/b", "/a//", "."] {
        let joined = std::path::Path::new(dir).join("n");
        assert_eq!(join_path(dir, "n"), joined.to_string_lossy());
    }
}

// ── Sections on their own ───────────────────────────────────────────────────

#[test]
fn sections_are_read_where_they_stand() {
    let mut table = ModuleTable::new();
    table.add(entry("m", CaptureStrategy::ReImport, Some((7, 8))));
    let fds = FdTable { entries: vec![FdEntry { fd: 3, kind: FdKind::Stdio }] };

    let mut bytes: Vec<u8> = b"before".to_vec();
    put_header(&mut bytes, &fixed_header()).unwrap();
    let table_at = bytes.len();
    put_table(&mut bytes, &table).unwrap();
    let fds_at = bytes.len();
    put_fd_table(&mut bytes, &fds).unwrap();
    let end = bytes.len();
    bytes.extend_from_slice(b"after");

    let (header, next) = read_header(&bytes, 6).unwrap();
    assert_eq!(next, table_at);
    assert_eq!(header.metadata.framework, "d\u{e9}mo");
    let (read, next) = read_table(&bytes, table_at).unwrap();
    assert_eq!(next, fds_at);
    assert_eq!(read.get("m").unwrap().blob_len, Some(8));
    let (read, next) = read_fd_table(&bytes, fds_at).unwrap();
    assert_eq!(next, end);
    assert_eq!(read.entries.len(), 1);

    assert!(read_header(&bytes[..table_at - 1], 6).is_err());
    assert!(read_table(&bytes[..fds_at - 1], table_at).is_err());
    assert!(read_fd_table(&bytes[..end - 1], fds_at).is_err());
}

#[test]
fn unknown_variants_are_refused() {
    // One descriptor, and the kind of it is the seventh of six.
    let bytes = bincode::serialize(&(1u64, 3i32, 6u32)).unwrap();
    assert_eq!(
        read_fd_table(&bytes, 0).unwrap_err(),
        "invalid value: integer `6`, expected variant index 0 <= i < 6"
    );
    // A flag that is neither 0 nor 1, and a text that is not UTF-8.
    let bytes = bincode::serialize(&(1u64, 3i32, 1u32, "a", 2u8)).unwrap();
    assert_eq!(
        read_fd_table(&bytes, 0).unwrap_err(),
        bincode::deserialize::<bool>(&[2]).unwrap_err().to_string()
    );
    let bytes = bincode::serialize(&(1u64, 3i32, 2u32, 1u64, 0xFFu8)).unwrap();
    assert_eq!(
        read_fd_table(&bytes, 0).unwrap_err(),
        bincode::deserialize::<String>(&bytes[16..]).unwrap_err().to_string()
    );
    // A module whose strategy is the sixth of five, and one whose offset is neither there nor
    // not there.
    let bytes = bincode::serialize(&(1u64, "m", 5u32)).unwrap();
    assert_eq!(
        read_table(&bytes, 0).err().unwrap(),
        "invalid value: integer `5`, expected variant index 0 <= i < 5"
    );
    let bytes = bincode::serialize(&(1u64, "m", 2u32, 7u8)).unwrap();
    assert_eq!(
        read_table(&bytes, 0).err().unwrap(),
        bincode::deserialize::<Option<u64>>(&[7]).unwrap_err().to_string()
    );
}

#[test]
fn what_is_cut_short_gives_the_reason_of_bincode() {
    type Header = (String, String, String, String, String, u64, u64, u64, u64);
    type Table = (u64, String, u32, Option<u64>, Option<u64>, Option<String>, Option<String>, u64);
    type Fds = (u64, i32, u32, String, bool);

    let mut bytes = Vec::new();
    put_header(&mut bytes, &fixed_header()).unwrap();
    for n in 0..bytes.len() {
        assert_eq!(
            read_header(&bytes[..n], 0).unwrap_err(),
            bincode::deserialize::<Header>(&bytes[..n]).unwrap_err().to_string()
        );
    }
    let bytes = bincode::serialize(&(
        1u64,
        "m",
        2u32,
        None::<u64>,
        Some(5u64),
        Some("p"),
        None::<String>,
        0u64,
    ))
    .unwrap();
    assert!(read_table(&bytes, 0).is_ok());
    for n in 0..bytes.len() {
        assert_eq!(
            read_table(&bytes[..n], 0).err().unwrap(),
            bincode::deserialize::<Table>(&bytes[..n]).unwrap_err().to_string()
        );
    }
    let bytes = bincode::serialize(&(1u64, 3i32, 1u32, "1.2.3.4:5", true)).unwrap();
    assert!(read_fd_table(&bytes, 0).is_ok());
    for n in 0..bytes.len() {
        assert_eq!(
            read_fd_table(&bytes[..n], 0).unwrap_err(),
            bincode::deserialize::<Fds>(&bytes[..n]).unwrap_err().to_string()
        );
    }
}

#[test]
fn a_copy_of_a_table_holds_the_same() {
    let mut table = ModuleTable::new();
    table.add(entry("b", CaptureStrategy::PickledDict, Some((1, 2))));
    table.add(entry("a", CaptureStrategy::Skipped { reason: "r".into() }, None));
    table.add(entry("b", CaptureStrategy::Plugin { plugin_id: "p".into() }, None));
    let copy = table.clone();
    let (mut one, mut two) = (Vec::new(), Vec::new());
    put_table(&mut one, &table).unwrap();
    put_table(&mut two, &copy).unwrap();
    assert_eq!(one, two);
    assert_eq!(copy.name_index.len(), 2);
    assert_eq!(copy.name_index.pair(0), ("b", 2));
    assert_eq!(copy.get("a").unwrap().capture_strategy, table.entries[1].capture_strategy);
}
