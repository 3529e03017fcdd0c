//! The error of every fallible function of the library.

use crate::text;
use vstd::prelude::*;
use vstd::string::*;

verus! {

/// Why a file operation failed, as far as the library tells the cases apart.
#[derive(Debug, Clone, Copy, PartialEq, Eq, Structural)]
pub enum IoKind {
    /// The file does not exist.
    NotFound,
    /// Any other reason.
    Other,
}

/// A failed file operation.
#[derive(Debug)]
pub struct IoFailure {
    pub kind: IoKind,
    /// What the operating system said.
    pub message: String,
}

#[derive(Debug)]
pub enum FreezeError {
    /// A file operation failed.
    Io(IoFailure),
    /// The sources changed since the snapshot was taken.
    StaleSnapshot { expected: String, actual: String },
    /// The snapshot was taken by another runtime.
    VersionMismatch { snapshot_ver: String, current_ver: String },
    /// The snapshot file cannot be understood.
    CorruptSnapshot { reason: String },
    /// A module could not be captured.
    CaptureFailure { module: String, reason: String },
    /// A file descriptor could not be captured.
    FdCaptureFailure { fd: i32, reason: String },
    /// A module could not be restored.
    RestoreFailure { module: String, reason: String },
    /// A file descriptor could not be restored.
    FdRestoreFailure { fd: i32, reason: String },
    /// The interpreter raised an exception; its text.
    Python(String),
    /// A value could not be serialized.
    Serialization(String),
    /// The platform is not supported.
    UnsupportedPlatform(String),
    /// The interpreter is too old.
    UnsupportedPythonVersion { version: String },
}

/// The text that describes an error to a person.
pub open spec fn error_message(e: FreezeError) -> Seq<char> {
    match e {
        FreezeError::Io(f) => "I/O error: "@ + f.message@,
        FreezeError::StaleSnapshot { expected, actual } =>
            "snapshot is stale — source hash mismatch (expected "@ + expected@ + ", got "@ + actual@
                + ")"@,
        FreezeError::VersionMismatch { snapshot_ver, current_ver } =>
            "snapshot version mismatch: snapshot was built with "@ + snapshot_ver@
                + ", current is "@ + current_ver@,
        FreezeError::CorruptSnapshot { reason } => "snapshot file is corrupt: "@ + reason@,
        FreezeError::CaptureFailure { module, reason } => "failed to capture module '"@ + module@
            + "': "@ + reason@,
        FreezeError::FdCaptureFailure { fd, reason } => "failed to capture file descriptor "@
            + text::signed_decimal(fd as int) + ": "@ + reason@,
        FreezeError::RestoreFailure { module, reason } => "failed to restore module '"@ + module@
            + "': "@ + reason@,
        FreezeError::FdRestoreFailure { fd, reason } => "failed to restore file descriptor "@
            + text::signed_decimal(fd as int) + ": "@ + reason@,
        FreezeError::Python(m) => "Python error: "@ + m@,
        FreezeError::Serialization(m) => "serialization error: "@ + m@,
        FreezeError::UnsupportedPlatform(m) => "unsupported platform: "@ + m@,
        FreezeError::UnsupportedPythonVersion { version } => "unsupported Python version: "@
            + version@ + " (need CPython 3.10+)"@,
    }
}

impl FreezeError {
    /// The text that describes the error to a person.
    pub fn message(&self) -> (r: String)
        ensures
            r@ == error_message(*self),
    {
        let mut out = String::new();
        match self {
            FreezeError::Io(f) => {
                out.append("I/O error: ");
                out.append(f.message.as_str());
            },
            FreezeError::StaleSnapshot { expected, actual } => {
                out.append("snapshot is stale — source hash mismatch (expected ");
                out.append(expected.as_str());
                out.append(", got ");
                out.append(actual.as_str());
                out.append(")");
            },
            FreezeError::VersionMismatch { snapshot_ver, current_ver } => {
                out.append("snapshot version mismatch: snapshot was built with ");
                out.append(snapshot_ver.as_str());
                out.append(", current is ");
                out.append(current_ver.as_str());
            },
            FreezeError::CorruptSnapshot { reason } => {
                out.append("snapshot file is corrupt: ");
                out.append(reason.as_str());
            },
            FreezeError::CaptureFailure { module, reason } => {
                out.append("failed to capture module '");
                out.append(module.as_str());
                out.append("': ");
                out.append(reason.as_str());
            },
            FreezeError::FdCaptureFailure { fd, reason } => {
                out.append("failed to capture file descriptor ");
                text::append_signed(&mut out, *fd);
                out.append(": ");
                out.append(reason.as_str());
            },
            FreezeError::RestoreFailure { module, reason } => {
                out.append("failed to restore module '");
                out.append(module.as_str());
                out.append("': ");
                out.append(reason.as_str());
            },
            FreezeError::FdRestoreFailure { fd, reason } => {
                out.append("failed to restore file descriptor ");
                text::append_signed(&mut out, *fd);
                out.append(": ");
                out.append(reason.as_str());
            },
            FreezeError::Python(m) => {
                out.append("Python error: ");
                out.append(m.as_str());
            },
            FreezeError::Serialization(m) => {
                out.append("serialization error: ");
                out.append(m.as_str());
            },
            FreezeError::UnsupportedPlatform(m) => {
                out.append("unsupported platform: ");
                out.append(m.as_str());
            },
            FreezeError::UnsupportedPythonVersion { version } => {
                out.append("unsupported Python version: ");
                out.append(version.as_str());
                out.append(" (need CPython 3.10+)");
            },
        }
        assert(out@ =~= error_message(*self));
        out
    }
}

impl From<Box<bincode::ErrorKind>> for FreezeError {
    fn from(e: Box<bincode::ErrorKind>) -> (r: FreezeError)
        ensures
            r is Serialization,
    {
        FreezeError::Serialization(crate::snapshot::wire::error_text(&e))
    }
}

impl vstd::std_specs::convert::FromSpecImpl<Box<bincode::ErrorKind>> for FreezeError {
    open spec fn obeys_from_spec() -> bool {
        false
    }

    open spec fn from_spec(e: Box<bincode::ErrorKind>) -> FreezeError {
        arbitrary()
    }
}

// ─── Laws ───────────────────────────────────────────────────────────────────

/// Whether a text ends with another.
pub open spec fn ends_with(s: Seq<char>, end: Seq<char>) -> bool {
    s.len() >= end.len() && s.skip(s.len() - end.len()) == end
}

proof fn lemma_ends(before: Seq<char>, end: Seq<char>)
    ensures
        ends_with(before + end, end),
{
    let s = before + end;
    assert(s.skip(s.len() - end.len()) =~= end);
}

/// The message of an error gives what the error holds, to the last character: the reason behind
/// everything else, and before it the descriptor, the module or the version that it is about.
pub proof fn law_message_gives_what_the_error_holds(e: &FreezeError, r: String)
    requires
        call_ensures(FreezeError::message, (e,), r),
    ensures
        match *e {
            FreezeError::Io(f) => ends_with(r@, ": "@ + f.message@),
            FreezeError::StaleSnapshot { expected, actual } => ends_with(
                r@,
                "(expected "@ + expected@ + ", got "@ + actual@ + ")"@,
            ),
            FreezeError::VersionMismatch { snapshot_ver, current_ver } => ends_with(
                r@,
                "built with "@ + snapshot_ver@ + ", current is "@ + current_ver@,
            ),
            FreezeError::CorruptSnapshot { reason } => ends_with(r@, ": "@ + reason@),
            FreezeError::CaptureFailure { module, reason } => ends_with(
                r@,
                "module '"@ + module@ + "': "@ + reason@,
            ),
            FreezeError::FdCaptureFailure { fd, reason } => ends_with(
                r@,
                "descriptor "@ + text::signed_decimal(fd as int) + ": "@ + reason@,
            ),
            FreezeError::RestoreFailure { module, reason } => ends_with(
                r@,
                "module '"@ + module@ + "': "@ + reason@,
            ),
            FreezeError::FdRestoreFailure { fd, reason } => ends_with(
                r@,
                "descriptor "@ + text::signed_decimal(fd as int) + ": "@ + reason@,
            ),
            FreezeError::Python(m) => ends_with(r@, ": "@ + m@),
            FreezeError::Serialization(m) => ends_with(r@, ": "@ + m@),
            FreezeError::UnsupportedPlatform(m) => ends_with(r@, ": "@ + m@),
            FreezeError::UnsupportedPythonVersion { version } => ends_with(
                r@,
                ": "@ + version@ + " (need CPython 3.10+)"@,
            ),
        },
{
    reveal_strlit(": ");
    match *e {
        FreezeError::Io(f) => {
            reveal_strlit("I/O error: ");
            assert("I/O error: "@ =~= "I/O error: "@.take(9) + ": "@);
            assert(r@ =~= "I/O error: "@.take(9) + (": "@ + f.message@));
            lemma_ends("I/O error: "@.take(9), ": "@ + f.message@);
        },
        FreezeError::StaleSnapshot { expected, actual } => {
            let label = "snapshot is stale — source hash mismatch (expected "@;
            reveal_strlit("snapshot is stale — source hash mismatch (expected ");
            reveal_strlit("(expected ");
            let front = label.take(label.len() - "(expected "@.len());
            let end = "(expected "@ + expected@ + ", got "@ + actual@ + ")"@;
            assert(label =~= front + "(expected "@);
            assert(r@ =~= front + end);
            lemma_ends(front, end);
        },
        FreezeError::VersionMismatch { snapshot_ver, current_ver } => {
            let label = "snapshot version mismatch: snapshot was built with "@;
            reveal_strlit("snapshot version mismatch: snapshot was built with ");
            reveal_strlit("built with ");
            let front = label.take(label.len() - "built with "@.len());
            let end = "built with "@ + snapshot_ver@ + ", current is "@ + current_ver@;
            assert(label =~= front + "built with "@);
            assert(r@ =~= front + end);
            lemma_ends(front, end);
        },
        FreezeError::CorruptSnapshot { reason } => {
            let label = "snapshot file is corrupt: "@;
            reveal_strlit("snapshot file is corrupt: ");
            let front = label.take(label.len() - 2);
            assert(label =~= front + ": "@);
            assert(r@ =~= front + (": "@ + reason@));
            lemma_ends(front, ": "@ + reason@);
        },
        FreezeError::CaptureFailure { module, reason } => {
            let label = "failed to capture module '"@;
            reveal_strlit("failed to capture module '");
            reveal_strlit("module '");
            let front = label.take(label.len() - "module '"@.len());
            let end = "module '"@ + module@ + "': "@ + reason@;
            assert(label =~= front + "module '"@);
            assert(r@ =~= front + end);
            lemma_ends(front, end);
        },
        FreezeError::FdCaptureFailure { fd, reason } => {
            let label = "failed to capture file descriptor "@;
            reveal_strlit("failed to capture file descriptor ");
            reveal_strlit("descriptor ");
            let front = label.take(label.len() - "descriptor "@.len());
            let end = "descriptor "@ + text::signed_decimal(fd as int) + ": "@ + reason@;
            assert(label =~= front + "descriptor "@);
            assert(r@ =~= front + end);
            lemma_ends(front, end);
        },
        FreezeError::RestoreFailure { module, reason } => {
            let label = "failed to restore module '"@;
            reveal_strlit("failed to restore module '");
            reveal_strlit("module '");
            let front = label.take(label.len() - "module '"@.len());
            let end = "module '"@ + module@ + "': "@ + reason@;
            assert(label =~= front + "module '"@);
            assert(r@ =~= front + end);
            lemma_ends(front, end);
        },
        FreezeError::FdRestoreFailure { fd, reason } => {
            let label = "failed to restore file descriptor "@;
            reveal_strlit("failed to restore file descriptor ");
            reveal_strlit("descriptor ");
            let front = label.take(label.len() - "descriptor "@.len());
            let end = "descriptor "@ + text::signed_decimal(fd as int) + ": "@ + reason@;
            assert(label =~= front + "descriptor "@);
            assert(r@ =~= front + end);
            lemma_ends(front, end);
        },
        FreezeError::Python(m) => {
            let label = "Python error: "@;
            reveal_strlit("Python error: ");
            let front = label.take(label.len() - 2);
            assert(label =~= front + ": "@);
            assert(r@ =~= front + (": "@ + m@));
            lemma_ends(front, ": "@ + m@);
        },
        FreezeError::Serialization(m) => {
            let label = "serialization error: "@;
            reveal_strlit("serialization error: ");
            let front = label.take(label.len() - 2);
            assert(label =~= front + ": "@);
            assert(r@ =~= front + (": "@ + m@));
            lemma_ends(front, ": "@ + m@);
        },
        FreezeError::UnsupportedPlatform(m) => {
            let label = "unsupported platform: "@;
            reveal_strlit("unsupported platform: ");
            let front = label.take(label.len() - 2);
            assert(label =~= front + ": "@);
            assert(r@ =~= front + (": "@ + m@));
            lemma_ends(front, ": "@ + m@);
        },
        FreezeError::UnsupportedPythonVersion { version } => {
            let label = "unsupported Python version: "@;
            reveal_strlit("unsupported Python version: ");
            let front = label.take(label.len() - 2);
            let end = ": "@ + version@ + " (need CPython 3.10+)"@;
            assert(label =~= front + ": "@);
            assert(r@ =~= front + end);
            lemma_ends(front, end);
        },
    }
}

} // verus!
