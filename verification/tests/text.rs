use pyfreeze::error::{FreezeError, IoFailure, IoKind};
use pyfreeze::text::{
    append_decimal, append_octal, append_signed, bytes_equal, bytes_ordered, chars_of,
    parse_number, parse_signed, starts_with, str_equal,
};

#[test]
fn numbers_are_written() {
    for n in [0u64, 9, 10, 1234567890, u64::MAX] {
        let mut out = "n=".to_string();
        append_decimal(&mut out, n);
        assert_eq!(out, format!("n={}", n));
        let mut out = String::new();
        append_octal(&mut out, n);
        assert_eq!(out, format!("{:o}", n));
    }
    for i in [0i32, -1, 7, i32::MIN, i32::MAX] {
        let mut out = String::new();
        append_signed(&mut out, i);
        assert_eq!(out, i.to_string());
    }
}

#[test]
fn numbers_are_read_as_std_does_it() {
    for s in [
        "", "0", "12", "+5", "-5", "+", "-", "++1", "+-1", "1 ", " 1", "1_000", "\u{661}",
        "18446744073709551615", "18446744073709551616", "0000000000000000000000000000007",
        "2147483647", "2147483648", "-2147483648", "-2147483649", "-0", "4294967296",
    ] {
        let chars = chars_of(s);
        assert_eq!(parse_number(&chars), s.parse::<u64>().ok(), "{}", s);
        assert_eq!(parse_signed(&chars), s.parse::<i32>().ok(), "{}", s);
    }
}

#[test]
fn texts_are_compared() {
    assert!(str_equal("a\u{e9}", "a\u{e9}"));
    assert!(!str_equal("a", "b"));
    assert!(!str_equal("a", "ab"));
    assert!(bytes_equal(b"", b""));
    assert!(starts_with("_frozen_x", "_frozen"));
    assert!(starts_with("x", ""));
    assert!(!starts_with("_froze", "_frozen"));
    assert!(!starts_with("x_frozen", "_frozen"));
    for a in ["", "a", "ab", "b", "\u{e9}", "a\u{0}"] {
        for b in ["", "a", "ab", "b", "\u{e9}", "a\u{0}"] {
            assert_eq!(bytes_ordered(a.as_bytes(), b.as_bytes()), a <= b);
        }
    }
}

#[test]
fn errors_describe_themselves() {
    let cases = [
        (
            FreezeError::Io(IoFailure { kind: IoKind::Other, message: "denied".into() }),
            "I/O error: denied",
        ),
        (
            FreezeError::StaleSnapshot { expected: "a".into(), actual: "b".into() },
            "snapshot is stale — source hash mismatch (expected a, got b)",
        ),
        (
            FreezeError::VersionMismatch { snapshot_ver: "a".into(), current_ver: "b".into() },
            "snapshot version mismatch: snapshot was built with a, current is b",
        ),
        (
            FreezeError::CorruptSnapshot { reason: "r".into() },
            "snapshot file is corrupt: r",
        ),
        (
            FreezeError::CaptureFailure { module: "m".into(), reason: "r".into() },
            "failed to capture module 'm': r",
        ),
        (
            FreezeError::FdCaptureFailure { fd: -3, reason: "r".into() },
            "failed to capture file descriptor -3: r",
        ),
        (
            FreezeError::RestoreFailure { module: "m".into(), reason: "r".into() },
            "failed to restore module 'm': r",
        ),
        (
            FreezeError::FdRestoreFailure { fd: 12, reason: "r".into() },
            "failed to restore file descriptor 12: r",
        ),
        (FreezeError::Python("p".into()), "Python error: p"),
        (FreezeError::Serialization("s".into()), "serialization error: s"),
        (FreezeError::UnsupportedPlatform("u".into()), "unsupported platform: u"),
        (
            FreezeError::UnsupportedPythonVersion { version: "3.9".into() },
            "unsupported Python version: 3.9 (need CPython 3.10+)",
        ),
    ];
    for (e, expected) in cases {
        assert_eq!(e.message(), expected);
    }
}

#[test]
fn bincode_errors_become_serialization_errors() {
    let e = bincode::deserialize::<u64>(&[1, 2]).unwrap_err();
    let text = e.to_string();
    match FreezeError::from(e) {
        FreezeError::Serialization(given) => assert_eq!(given, text),
        other => panic!("expected Serialization, got {:?}", other),
    }
}
