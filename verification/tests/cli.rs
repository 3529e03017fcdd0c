use pyfreeze::cli::{
    build_hook_code, cmd_benchmark, cmd_info, cmd_invalidate, cmd_run, derive_snapshot_name, derive_snapshot_path,
    exit_code, find_python, hook_code, launch_failure, snapshot_file_name, Removal,
};
use pyfreeze::error::FreezeError;
use pyfreeze::snapshot::format::{
    CaptureStrategy, FdEntry, FdKind, FdTable, ModuleEntry, ModuleTable, SnapshotHeader,
};
use pyfreeze::snapshot::metadata::MetadataBuilder;
use pyfreeze::snapshot::{SnapshotReader, SnapshotWriter};

fn strings(names: &[&str]) -> Vec<String> {
    names.iter().map(|n| n.to_string()).collect()
}

#[test]
fn snapshot_path_is_derived_from_the_run() {
    assert_eq!(
        derive_snapshot_path("/cache/pyfreeze", &strings(&["manage.py", "runserver"]), "django"),
        "/cache/pyfreeze/5a909fe867d51b1f.pyfreeze"
    );
    assert_eq!(derive_snapshot_path("", &[], "generic"), "3e0615dbb965f7c1.pyfreeze");
    assert_eq!(derive_snapshot_name(&[], "generic"), "3e0615dbb965f7c1.pyfreeze");
}

#[test]
fn file_name_is_the_start_of_the_digest() {
    assert_eq!(
        snapshot_file_name(&[0x00, 0x0f, 0xf0, 0xff, 1, 2, 3, 0xab, 0xcd]),
        "000ff0ff010203ab.pyfreeze"
    );
}

#[test]
fn hook_is_exact() {
    let expected = r#"
import sys, os
# Insert pyfreeze Python package (installed alongside the binary).
sys.path.insert(0, os.path.join(os.path.dirname(os.path.abspath(__file__)), '..', 'python'))
import pyfreeze
pyfreeze.bootstrap(
    snapshot_path="/a \"b\"\\c.pyfreeze",
    framework="django",
    rebuild=True,
    argv=sys.argv[1:],
)
"#;
    assert_eq!(build_hook_code("/a \"b\"\\c.pyfreeze", "django", true), expected);
    assert!(hook_code("P", "F", false).contains("snapshot_path=P,\n    framework=F,\n    rebuild=False,"));
}

#[test]
fn python_is_found() {
    assert_eq!(find_python(true, true), "python3");
    assert_eq!(find_python(true, false), "python3");
    assert_eq!(find_python(false, true), "python");
    assert_eq!(find_python(false, false), "python3");
}

#[test]
fn run_needs_something_to_run() {
    let report = cmd_run(&[], None, "generic", false, "/c", "python3".into()).unwrap_err();
    assert_eq!(report.text, "error: no Python script or module specified\n");
    assert!(report.to_stderr);
    assert_eq!(report.code, 2);
}

#[test]
fn run_launches_the_hook() {
    let args = strings(&["manage.py", "runserver"]);
    let launch = cmd_run(&args, None, "django", false, "/c", "python3".into()).unwrap();
    assert_eq!(launch.python, "python3");
    assert_eq!(launch.snapshot, "/c/5a909fe867d51b1f.pyfreeze");
    assert_eq!(launch.framework, "django");
    assert_eq!(
        launch.arguments,
        vec![
            "-c".to_string(),
            build_hook_code("/c/5a909fe867d51b1f.pyfreeze", "django", false),
            "manage.py".to_string(),
            "runserver".to_string(),
        ]
    );
    let launch =
        cmd_run(&args, Some("/my.pyfreeze".into()), "django", true, "/c", "python".into()).unwrap();
    assert_eq!(launch.snapshot, "/my.pyfreeze");
    assert_eq!(launch.arguments[1], build_hook_code("/my.pyfreeze", "django", true));
}

#[test]
fn exit_codes_are_passed_on() {
    assert_eq!(exit_code(Some(0)), 0);
    assert_eq!(exit_code(Some(42)), 42);
    assert_eq!(exit_code(None), 1);
    let report = launch_failure("python3", "No such file or directory");
    assert_eq!(
        report.text,
        "error: could not launch Python (python3): No such file or directory\n"
    );
    assert!(report.to_stderr);
    assert_eq!(report.code, 1);
}

#[test]
fn info_is_exact() {
    let meta = MetadataBuilder::new("x86_64-linux")
        .source_hash("cafe")
        .python_impl_version("cpython 3.12.3")
        .framework("flask")
        .import_phase_ms(380)
        .build_at("2024-01-02T03:04:05+00:00".to_string());
    let header = SnapshotHeader {
        metadata: meta,
        module_table_offset: 0,
        fd_table_offset: 0,
        pickle_blob_offset: 0,
    };
    let mut writer = SnapshotWriter::new("p".into(), header);
    let mut table = ModuleTable::new();
    for (name, strategy) in [
        ("a", CaptureStrategy::PickledDict),
        ("b", CaptureStrategy::PickledDict),
        ("c", CaptureStrategy::ReImport),
        ("d", CaptureStrategy::PickledObject),
    ] {
        table.add(ModuleEntry {
            name: name.to_string(),
            capture_strategy: strategy,
            blob_offset: None,
            blob_len: None,
            source_path: None,
            source_hash: None,
        });
    }
    writer.set_module_table(table);
    writer.set_fd_table(FdTable { entries: vec![FdEntry { fd: 0, kind: FdKind::Stdio }] });
    let (_, image) = writer.commit().unwrap();
    let reader = SnapshotReader::open(&image).unwrap();
    let report = cmd_info("/x.pyfreeze", Ok(&reader));
    assert_eq!(
        report.text,
        "PyFreeze Snapshot
  Path          : /x.pyfreeze
  Python        : cpython 3.12.3
  Target        : x86_64-linux
  Framework     : flask
  Captured at   : 2024-01-02T03:04:05+00:00
  Import phase  : 380ms
  Source hash   : cafe
  Modules total : 4
    ├─ pickled   : 2
    └─ re-import : 1
  FDs captured  : 1
"
    );
    assert!(!report.to_stderr);
    assert_eq!(report.code, 0);
}

#[test]
fn info_of_a_broken_snapshot() {
    let report = cmd_info("/x", Err(FreezeError::CorruptSnapshot { reason: "file too small".into() }));
    assert_eq!(
        report.text,
        "error reading snapshot: snapshot file is corrupt: file too small\n"
    );
    assert!(report.to_stderr);
    assert_eq!(report.code, 1);
}

#[test]
fn invalidation_is_reported() {
    let r = cmd_invalidate("/x", Removal::Deleted);
    assert_eq!((r.text.as_str(), r.to_stderr, r.code), ("Snapshot deleted: /x\n", false, 0));
    let r = cmd_invalidate("/x", Removal::Missing);
    assert_eq!((r.text.as_str(), r.to_stderr, r.code), ("No snapshot found at /x\n", true, 1));
    let r = cmd_invalidate("/x", Removal::Failed("denied".into()));
    assert_eq!((r.text.as_str(), r.to_stderr, r.code), ("Error deleting snapshot: denied\n", true, 1));
}

#[test]
fn benchmark_is_exact() {
    let report = cmd_benchmark(380, 22, &format!("{:>6.1}", 380f64 / 22f64));
    assert_eq!(
        report.text,
        "┌─────────────────────────────────────┐
│        PyFreeze Benchmark            │
├─────────────────────────────────────┤
│  Cold start :    380 ms             │
│  Warm start :     22 ms             │
│  Speedup    :   17.3x              │
└─────────────────────────────────────┘
"
    );
    assert_eq!(report.code, 0);
    let report = cmd_benchmark(123456, 12345678, "x");
    assert!(report.text.contains("Cold start : 123456 ms"));
    assert!(report.text.contains("Warm start : 12345678 ms"));
}
