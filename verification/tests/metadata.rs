use pyfreeze::error::FreezeError;
use pyfreeze::snapshot::metadata::{
    current_target_triple, os_name, parse_major_minor, sidecar_name, strip_patch,
    validate_runtime_compatibility, MetadataBuilder,
};

#[test]
fn parse_versions() {
    assert_eq!(parse_major_minor("CPython 3.12.3"), Some((3, 12)));
    assert_eq!(parse_major_minor("3.11.9"), Some((3, 11)));
    assert_eq!(parse_major_minor("garbage"), None);
}

#[test]
fn runtime_mismatch_rejected() {
    let meta = MetadataBuilder::new("x86_64-linux")
        .python_impl_version("CPython 3.11.9")
        .source_hash("abc")
        .build();

    let result = validate_runtime_compatibility(&meta, "CPython 3.12.3", "x86_64-linux");
    assert!(matches!(result, Err(FreezeError::VersionMismatch { .. })));
}

#[test]
fn version_mismatch_is_detected() {
    let meta = MetadataBuilder::new("x86_64-linux")
        .python_impl_version("CPython 3.11.9")
        .source_hash("x")
        .framework("test")
        .build();

    let result = validate_runtime_compatibility(&meta, "CPython 3.12.3", "x86_64-linux");
    assert!(matches!(result, Err(FreezeError::VersionMismatch { .. })));
}

#[test]
fn odd_version_texts() {
    assert_eq!(parse_major_minor(""), None);
    assert_eq!(parse_major_minor("   "), None);
    assert_eq!(parse_major_minor("3"), None);
    assert_eq!(parse_major_minor("3."), None);
    assert_eq!(parse_major_minor(".12"), None);
    assert_eq!(parse_major_minor("3.12"), Some((3, 12)));
    assert_eq!(parse_major_minor("3.12.rc1.x"), Some((3, 12)));
    assert_eq!(parse_major_minor("3.12rc1"), None);
    assert_eq!(parse_major_minor("  PyPy\t3.10.1  \n"), Some((3, 10)));
    assert_eq!(parse_major_minor("a\u{3000}4.5"), Some((4, 5)));
    assert_eq!(parse_major_minor("3.12 beta"), None);
    assert_eq!(parse_major_minor("+3.+12.0"), Some((3, 12)));
    assert_eq!(parse_major_minor("+.1"), None);
    assert_eq!(parse_major_minor("-3.1"), None);
    assert_eq!(parse_major_minor("003.010"), Some((3, 10)));
    assert_eq!(
        parse_major_minor("18446744073709551615.0"),
        Some((18446744073709551615, 0))
    );
    assert_eq!(parse_major_minor("18446744073709551616.0"), None);
    assert_eq!(parse_major_minor("99999999999999999999999.0"), None);
}

#[test]
fn every_white_space_ends_a_word() {
    for c in [
        '\u{9}', '\u{a}', '\u{b}', '\u{c}', '\u{d}', ' ', '\u{85}', '\u{a0}', '\u{1680}',
        '\u{2000}', '\u{200a}', '\u{2028}', '\u{2029}', '\u{202f}', '\u{205f}', '\u{3000}',
    ] {
        assert!(c.is_whitespace());
        assert_eq!(parse_major_minor(&format!("x{}3.12", c)), Some((3, 12)));
    }
    for c in ['\u{8}', '\u{e}', '\u{200b}', '\u{feff}', '\u{180e}', 'x'] {
        assert!(!c.is_whitespace());
        assert_eq!(parse_major_minor(&format!("x{}3.12", c)), None);
    }
}

#[test]
fn patch_level_may_differ() {
    let meta = MetadataBuilder::new("x86_64-linux").python_impl_version("CPython 3.12.3").build();
    assert!(validate_runtime_compatibility(&meta, "cpython 3.12.99", "x86_64-linux").is_ok());
}

#[test]
fn other_target_comes_first() {
    let meta = MetadataBuilder::new("x86_64-linux").python_impl_version("CPython 3.11.9").build();
    match validate_runtime_compatibility(&meta, "CPython 3.12.3", "aarch64-linux") {
        Err(FreezeError::VersionMismatch { snapshot_ver, current_ver }) => {
            assert_eq!(snapshot_ver, "x86_64-linux");
            assert_eq!(current_ver, "aarch64-linux");
        }
        other => panic!("expected VersionMismatch, got {:?}", other),
    }
}

#[test]
fn other_version_is_named() {
    let meta = MetadataBuilder::new("x86_64-linux").python_impl_version("CPython 3.11.9").build();
    match validate_runtime_compatibility(&meta, "CPython 2.11.9", "x86_64-linux") {
        Err(FreezeError::VersionMismatch { snapshot_ver, current_ver }) => {
            assert_eq!(snapshot_ver, "CPython 3.11.9");
            assert_eq!(current_ver, "CPython 2.11.9");
        }
        other => panic!("expected VersionMismatch, got {:?}", other),
    }
}

#[test]
fn unreadable_version_is_rejected() {
    let meta = MetadataBuilder::new("t").python_impl_version("garbage").build();
    assert!(matches!(
        validate_runtime_compatibility(&meta, "garbage", "t"),
        Err(FreezeError::VersionMismatch { .. })
    ));
}

#[test]
fn old_version_is_unsupported() {
    let meta = MetadataBuilder::new("t").python_impl_version("CPython 3.9.1").build();
    match validate_runtime_compatibility(&meta, "CPython 3.9.7", "t") {
        Err(FreezeError::UnsupportedPythonVersion { version }) => {
            assert_eq!(version, "CPython 3.9.1");
        }
        other => panic!("expected UnsupportedPythonVersion, got {:?}", other),
    }
    let meta = MetadataBuilder::new("t").python_impl_version("CPython 3.10.0").build();
    assert!(validate_runtime_compatibility(&meta, "CPython 3.10.0", "t").is_ok());
}

#[test]
fn builder_gathers_everything() {
    let meta = MetadataBuilder::new("x86_64-linux")
        .source_hash("h")
        .python_impl_version("v")
        .framework("flask")
        .import_phase_ms(7)
        .build_at("2024-01-02T03:04:05+00:00".to_string());
    assert_eq!(meta.source_hash, "h");
    assert_eq!(meta.python_impl_version, "v");
    assert_eq!(meta.target_triple, "x86_64-linux");
    assert_eq!(meta.captured_at, "2024-01-02T03:04:05+00:00");
    assert_eq!(meta.framework, "flask");
    assert_eq!(meta.import_phase_ms, 7);
}

#[test]
fn builder_defaults() {
    let meta = MetadataBuilder::new("t").build();
    assert_eq!(meta.source_hash, "");
    assert_eq!(meta.python_impl_version, "");
    assert_eq!(meta.framework, "generic");
    assert_eq!(meta.import_phase_ms, 0);
    let copy = meta.clone();
    assert_eq!(copy.captured_at, meta.captured_at);
}

#[test]
fn capture_time_is_a_timestamp_in_utc() {
    let meta = MetadataBuilder::new("t").build();
    let stamp = chrono::DateTime::parse_from_rfc3339(&meta.captured_at).unwrap();
    assert_eq!(stamp.offset().local_minus_utc(), 0);
    assert!(meta.captured_at.ends_with("+00:00"));
}

#[test]
fn sidecar_names() {
    assert_eq!(sidecar_name(Some("myapp.pyfreeze")), "myapp.pyfreeze.meta.json");
    assert_eq!(sidecar_name(None), "snapshot.meta.json");
}

#[test]
fn target_of_architecture_and_system() {
    assert_eq!(current_target_triple("x86_64", "linux"), "x86_64-linux");
}

#[test]
fn platforms_are_named_by_their_operating_system() {
    for (platform, os) in [
        ("linux", "linux"),
        ("win32", "windows"),
        ("darwin", "macos"),
        ("freebsd13", "freebsd"),
        ("openbsd7", "openbsd"),
        ("win64", "win"),
        ("2b", "2b"),
        ("12", ""),
        ("", ""),
    ] {
        assert_eq!(os_name(platform), os);
    }
}

#[test]
fn other_major_versions() {
    let check = |v: &str| {
        let meta = MetadataBuilder::new("x86_64-linux").python_impl_version(v).build();
        validate_runtime_compatibility(&meta, v, "x86_64-linux")
    };
    match check("CPython 2.12.0") {
        Err(FreezeError::UnsupportedPythonVersion { version }) => {
            assert_eq!(version, "CPython 2.12.0");
        }
        other => panic!("expected UnsupportedPythonVersion, got {:?}", other),
    }
    assert!(matches!(
        check("CPython 0.99.0"),
        Err(FreezeError::UnsupportedPythonVersion { .. })
    ));
    assert!(check("CPython 4.0.0").is_ok());
    assert!(check("CPython 3.14.0").is_ok());
}

#[test]
fn patch_level_is_stripped() {
    for (version, expected) in [
        ("CPython 3.12.3", "CPython 3.12"),
        ("cpython 3.12.3rc1", "cpython 3.12"),
        ("3.11.9", "3.11"),
        ("3.11", "3.11"),
        ("3.12.4.5", "3.12"),
        ("a.b.c 3.12.3", "a.b.c 3.12"),
        ("a.b.c 3.12.3 \t", "a.b.c 3.12"),
        ("pypy\u{e9} 3.10.1", "pypy\u{e9} 3.10"),
        ("..", "."),
        ("garbage", "garbage"),
        ("", ""),
        ("  ", "  "),
    ] {
        assert_eq!(strip_patch(version), expected);
        assert_eq!(parse_major_minor(&strip_patch(version)), parse_major_minor(version));
    }
}

#[test]
fn capture_time_has_the_shape_of_rfc_3339() {
    let stamp = MetadataBuilder::new("t").build().captured_at;
    assert!(stamp.is_ascii());
    assert!(stamp.len() >= 25 && stamp.len() <= 38);
    let c: Vec<char> = stamp.chars().collect();
    assert_eq!((c[4], c[7], c[10], c[13], c[16]), ('-', '-', 'T', ':', ':'));
    assert!(c[..4].iter().all(|d| d.is_ascii_digit()));
    let fraction = &stamp[19..stamp.len() - 6];
    assert!([0, 4, 7, 10].contains(&fraction.len()));
    assert!(fraction.is_empty() || fraction.starts_with('.'));
}
