use pyfreeze::error::FreezeError;
use pyfreeze::snapshot::hash::{
    compare_hashes, compute_source_hash, hash_contents, quick_integrity_check, source_preimage,
    verify_snapshot_hash, SourceFile,
};
use std::io::{Read, Seek, SeekFrom, Write};
use tempfile::NamedTempFile;

fn on_disk(f: &mut NamedTempFile) -> SourceFile {
    let mut contents: Vec<u8> = Vec::new();
    f.seek(SeekFrom::Start(0)).unwrap();
    f.read_to_end(&mut contents).unwrap();
    SourceFile {
        path: f.path().to_string_lossy().into_owned(),
        contents: Some(contents),
    }
}

fn source(path: &str, contents: &[u8]) -> SourceFile {
    SourceFile { path: path.to_string(), contents: Some(contents.to_vec()) }
}

fn missing(path: &str) -> SourceFile {
    SourceFile { path: path.to_string(), contents: None }
}

#[test]
fn same_content_same_hash() {
    let mut f1 = NamedTempFile::new().unwrap();
    let mut f2 = NamedTempFile::new().unwrap();
    f1.write_all(b"print('hello')").unwrap();
    f2.write_all(b"print('hello')").unwrap();

    let h1 = compute_source_hash(&[on_disk(&mut f1)], "CPython 3.12.3", "x86_64-linux").unwrap();
    let h2 = compute_source_hash(&[on_disk(&mut f2)], "CPython 3.12.3", "x86_64-linux").unwrap();

    assert_eq!(h1, h2);
}

#[test]
fn changed_content_different_hash() {
    let mut f = NamedTempFile::new().unwrap();
    f.write_all(b"x = 1").unwrap();

    let h1 = compute_source_hash(&[on_disk(&mut f)], "CPython 3.12.3", "x86_64-linux").unwrap();

    // Overwrite the file.
    f.as_file().set_len(0).unwrap();
    f.seek(SeekFrom::Start(0)).unwrap();
    f.write_all(b"x = 2").unwrap();

    let h2 = compute_source_hash(&[on_disk(&mut f)], "CPython 3.12.3", "x86_64-linux").unwrap();

    assert_ne!(h1, h2);
}

#[test]
fn version_difference_produces_different_hash() {
    let mut f = NamedTempFile::new().unwrap();
    f.write_all(b"pass").unwrap();

    let h1 = compute_source_hash(&[on_disk(&mut f)], "CPython 3.11.9", "x86_64-linux").unwrap();
    let h2 = compute_source_hash(&[on_disk(&mut f)], "CPython 3.12.3", "x86_64-linux").unwrap();

    assert_ne!(h1, h2);
}

#[test]
fn source_hash_detects_file_change() {
    let mut f = NamedTempFile::new().unwrap();
    f.write_all(b"import os").unwrap();

    let h1 = compute_source_hash(&[on_disk(&mut f)], "CPython 3.12.3", "x86_64-linux").unwrap();

    // Change the file content.
    f.as_file().set_len(0).unwrap();
    f.seek(SeekFrom::Start(0)).unwrap();
    f.write_all(b"import sys").unwrap();

    let h2 = compute_source_hash(&[on_disk(&mut f)], "CPython 3.12.3", "x86_64-linux").unwrap();
    assert_ne!(h1, h2, "hash must change when file content changes");
}

#[test]
fn hash_of_one_file_is_exact() {
    let h = compute_source_hash(
        &[source("a.py", b"print('hello')")],
        "CPython 3.12.3",
        "x86_64-linux",
    )
    .unwrap();
    assert_eq!(h, "c561e1c61f1dc0072047ca73f4266aeae5cae7a671376501e65f5b287ac77a14");
}

#[test]
fn hash_of_nothing_is_that_of_two_zero_bytes() {
    let h = compute_source_hash(&[], "", "").unwrap();
    assert_eq!(h, "96a296d224f285c67bee93c30f8a309157f0daa35dc5b87e410b78630a09cfc7");
}

#[test]
fn files_are_hashed_in_the_order_of_their_paths() {
    let files = [missing("b.py"), source("c.py", b"two"), source("a.py", b"one")];
    let data = source_preimage(&files, "CPython 3.12.3", "x86_64-linux");
    assert_eq!(
        data,
        b"CPython 3.12.3\x00x86_64-linux\x003:one\xff<missing>\xff3:two\xff".to_vec()
    );
    let h = compute_source_hash(&files, "CPython 3.12.3", "x86_64-linux").unwrap();
    assert_eq!(h, "04187c8a4953a99fab8d1b656a9d1b50299bfc0cb87bb0e8e9f1faf98762a36a");
}

#[test]
fn paths_are_ordered_by_their_bytes() {
    let files = [
        source("b", b"4"),
        source("a/b", b"3"),
        source("a", b"1"),
        source("Z", b"0"),
        source("a.py", b"2"),
        source("\u{e9}", b"5"),
    ];
    assert_eq!(
        source_preimage(&files, "", ""),
        b"\x00\x001:0\xff1:1\xff1:2\xff1:3\xff1:4\xff1:5\xff".to_vec()
    );
}

#[test]
fn many_files_are_ordered() {
    // 37 and 100 have no common divisor, so that every number below 100 comes up once.
    let scrambled: Vec<SourceFile> = (0..100)
        .map(|i| i * 37 % 100)
        .map(|i| source(&format!("{:02}.py", i), format!("{}", i).as_bytes()))
        .collect();
    let mut expected = vec![0u8, 0];
    for i in 0..100 {
        let content = format!("{}", i);
        expected.extend_from_slice(format!("{}:{}", content.len(), content).as_bytes());
        expected.push(0xFF);
    }
    assert_eq!(source_preimage(&scrambled, "", ""), expected);
}

#[test]
fn one_path_twice_is_ordered_by_content() {
    let a = [source("p", b"y"), missing("p"), source("p", b"x"), source("p", b"")];
    let b = [source("p", b""), source("p", b"x"), source("p", b"y"), missing("p")];
    assert_eq!(source_preimage(&a, "", ""), source_preimage(&b, "", ""));
    assert_eq!(
        source_preimage(&a, "", ""),
        b"\x00\x00<missing>\xff0:\xff1:x\xff1:y\xff".to_vec()
    );
}

#[test]
fn order_of_the_files_does_not_matter() {
    let one = [source("a", b"1"), source("b", b"2"), missing("c")];
    let two = [missing("c"), source("b", b"2"), source("a", b"1")];
    assert_eq!(
        compute_source_hash(&one, "v", "t").unwrap(),
        compute_source_hash(&two, "v", "t").unwrap()
    );
}

#[test]
fn a_file_that_disappears_changes_the_hash() {
    let then = [source("a", b"1"), source("b", b"2")];
    let now = [source("a", b"1"), missing("b")];
    assert_ne!(
        compute_source_hash(&then, "v", "t").unwrap(),
        compute_source_hash(&now, "v", "t").unwrap()
    );
}

#[test]
fn no_content_passes_for_a_missing_file() {
    for content in [&b"<missing>"[..], b"<missing>\xff", b"", b"9:<missing>"] {
        let then = [source("a", b"1"), source("b", content)];
        let now = [source("a", b"1"), missing("b")];
        assert_ne!(source_preimage(&then, "v", "t"), source_preimage(&now, "v", "t"));
        assert_ne!(
            compute_source_hash(&then, "v", "t").unwrap(),
            compute_source_hash(&now, "v", "t").unwrap()
        );
    }
}

#[test]
fn target_difference_produces_different_hash() {
    let files = [source("a", b"1")];
    assert_ne!(
        compute_source_hash(&files, "CPython 3.12.3", "x86_64-linux").unwrap(),
        compute_source_hash(&files, "CPython 3.12.3", "aarch64-linux").unwrap()
    );
}

#[test]
fn what_ends_the_version_does_not_begin_the_target() {
    let files = [source("a", b"1")];
    assert_ne!(source_preimage(&files, "ab", "c"), source_preimage(&files, "a", "bc"));
}

#[test]
fn digest_of_a_byte_string() {
    assert_eq!(
        hash_contents(b"abc"),
        "ba7816bf8f01cfea414140de5dae2223b00361a396177a9cb410ff61f20015ad"
    );
}

#[test]
fn recorded_hash_is_verified() {
    let files = [source("a.py", b"print('hello')")];
    let expected = "c561e1c61f1dc0072047ca73f4266aeae5cae7a671376501e65f5b287ac77a14";
    assert!(verify_snapshot_hash(expected, &files, "CPython 3.12.3", "x86_64-linux").is_ok());

    match verify_snapshot_hash("deadbeef", &files, "CPython 3.12.3", "x86_64-linux") {
        Err(FreezeError::StaleSnapshot { expected: e, actual }) => {
            assert_eq!(e, "deadbeef");
            assert_eq!(actual, expected);
        }
        other => panic!("expected StaleSnapshot, got {:?}", other),
    }
}

#[test]
fn hashes_are_compared_as_they_are() {
    assert!(compare_hashes("ab", "ab".to_string()).is_ok());
    match compare_hashes("ab", "aB".to_string()) {
        Err(FreezeError::StaleSnapshot { expected, actual }) => {
            assert_eq!(expected, "ab");
            assert_eq!(actual, "aB");
        }
        other => panic!("expected StaleSnapshot, got {:?}", other),
    }
}

#[test]
fn magic_is_recognized() {
    assert!(quick_integrity_check(&[0x50, 0x59, 0x46, 0x52, 0x5A, 0x00, 0x01, 0x00]));
    assert!(!quick_integrity_check(&[0x50, 0x59, 0x46, 0x52, 0x5A, 0x00, 0x01, 0x01]));
    assert!(!quick_integrity_check(b"NOTMAGIC"));
}

#[test]
fn bytes_that_move_from_one_file_to_another_are_seen() {
    let then = [source("a", &[1, 255]), source("b", &[2])];
    let now = [source("a", &[1]), source("b", &[255, 2])];
    assert_ne!(source_preimage(&then, "v", "t"), source_preimage(&now, "v", "t"));
    assert_ne!(
        compute_source_hash(&then, "v", "t").unwrap(),
        compute_source_hash(&now, "v", "t").unwrap()
    );
}

#[test]
fn a_change_is_seen_where_a_path_stands_twice() {
    let files = |text: &[u8]| {
        [source("/posixpath.py", text), source("/a.py", b"a"), source("/posixpath.py", text)]
    };
    assert_ne!(
        compute_source_hash(&files(b"x"), "v", "t").unwrap(),
        compute_source_hash(&files(b"y"), "v", "t").unwrap()
    );
}

#[test]
fn hash_is_64_lower_case_digits() {
    let h = compute_source_hash(&[source("a", b"1")], "v", "t").unwrap();
    assert_eq!(h.len(), 64);
    assert!(h.chars().all(|c| c.is_ascii_digit() || ('a'..='f').contains(&c)));
}
