//! Deciding how each open file descriptor is captured.
//!
//! - A regular file is opened again: its path, offset and flags are recorded.
//! - A connected socket leaves the address of its peer, for the framework to reconnect.
//! - A Unix-domain socket leaves its path.
//! - The read end of a pipe is drained into a buffer.
//! - Descriptors 0, 1 and 2 are inherited from the shell and left alone.
//! - Of anything else a description is recorded, and it is closed on restore.
//!
//! The kernel is asked by the program around this library; what it says comes in here.

use crate::error::FreezeError;
use crate::snapshot::format::{FdEntry, FdEntryView, FdKind, FdKindView, FdTable};
use crate::text;
use vstd::prelude::*;
use vstd::relations::*;
use vstd::slice::slice_subrange;
use vstd::string::*;

verus! {

// ─── Enumeration ────────────────────────────────────────────────────────────

/// The descriptors that a list of names gives. A name that is no number gives none.
pub open spec fn listed_fds(names: Seq<Seq<char>>) -> Seq<i32>
    decreases names.len(),
{
    if names.len() == 0 {
        Seq::empty()
    } else {
        let before = listed_fds(names.drop_last());
        match text::signed_number(names.last()) {
            Some(fd) => before.push(fd),
            None => before,
        }
    }
}

/// The name that a line of a field listing gives: what stands behind the letter `f`. Other
/// lines give the empty name, which is no number.
pub open spec fn field_name(line: Seq<char>) -> Seq<char> {
    if line.len() > 0 && line[0] == 'f' {
        line.drop_first()
    } else {
        Seq::empty()
    }
}

/// The order of descriptors, as a relation.
pub open spec fn fd_order() -> spec_fn(i32, i32) -> bool {
    |a: i32, b: i32| a <= b
}

/// Puts a descriptor into a sorted list.
fn insert_fd(fds: &mut Vec<i32>, fd: i32)
    requires
        sorted_by(old(fds)@, fd_order()),
    ensures
        sorted_by(final(fds)@, fd_order()),
        final(fds)@.to_multiset() == old(fds)@.to_multiset().insert(fd),
{
    let ghost before = fds@;
    let ghost leq = fd_order();
    let mut j: usize = fds.len();
    while j > 0 && fds[j - 1] > fd
        invariant
            j <= fds@.len(),
            fds@ == before,
            forall|k: int| j <= k < before.len() ==> fd <= #[trigger] before[k],
        decreases j,
    {
        j -= 1;
    }
    fds.insert(j, fd);
    proof {
        vstd::seq_lib::to_multiset_insert(before, j as int, fd);
        assert forall|a: int, b: int| 0 <= a < b < fds@.len() implies #[trigger] leq(
            fds@[a],
            fds@[b],
        ) by {
            let x = if a < j { a } else { a - 1 };
            let y = if b < j { b } else { b - 1 };
            if a != j && b != j {
                assert(leq(before[x], before[y]));
            } else if b == j && a < j - 1 {
                assert(leq(before[a], before[j - 1]));
            }
        }
    }
}

/// Sorts descriptors.
fn sort_fds(found: &[i32]) -> (r: Vec<i32>)
    ensures
        r@ == found@.sort_by(fd_order()),
{
    let ghost leq = fd_order();
    let mut fds: Vec<i32> = Vec::new();
    let mut i: usize = 0;
    assert(fds@ =~= found@.take(0));
    while i < found.len()
        invariant
            i <= found@.len(),
            sorted_by(fds@, fd_order()),
            fds@.to_multiset() == found@.take(i as int).to_multiset(),
        decreases found@.len() - i,
    {
        proof {
            assert(found@.take(i + 1) =~= found@.take(i as int).push(found@[i as int]));
            vstd::seq_lib::to_multiset_build(found@.take(i as int), found@[i as int]);
        }
        insert_fd(&mut fds, found[i]);
        i += 1;
    }
    proof {
        assert(found@.take(i as int) =~= found@);
        assert(total_ordering(leq));
        found@.lemma_sort_by_ensures(leq);
        vstd::seq_lib::lemma_sorted_unique(fds@, found@.sort_by(leq), leq);
    }
    fds
}

/// The open descriptors, in ascending order, from the names of the entries of a directory
/// that has one for each. The directory itself was opened as the descriptor `listing` to be
/// read, which is left out.
pub fn enumerate_open_fds(names: &[String], listing: i32) -> (r: Vec<i32>)
    ensures
        r@ == listed_fds(text::text_views(names@)).filter(|fd: i32| fd != listing).sort_by(
            fd_order(),
        ),
{
    let ghost views = text::text_views(names@);
    let ghost keep = |fd: i32| fd != listing;
    let mut found: Vec<i32> = Vec::new();
    let mut i: usize = 0;
    assert(views.take(0) =~= Seq::empty());
    assert(listed_fds(views.take(0)).filter(keep) =~= Seq::empty()) by {
        reveal(Seq::filter);
    }
    while i < names.len()
        invariant
            i <= names@.len(),
            views == text::text_views(names@),
            keep == (|fd: i32| fd != listing),
            found@ == listed_fds(views.take(i as int)).filter(keep),
        decreases names@.len() - i,
    {
        let chars = text::chars_of(names[i].as_str());
        let ghost before = listed_fds(views.take(i as int));
        proof {
            assert(views.take(i + 1).drop_last() =~= views.take(i as int));
            assert(views.take(i + 1).last() == chars@);
        }
        if let Some(fd) = text::parse_signed(chars.as_slice()) {
            proof {
                lemma_filter_push(before, fd, keep);
            }
            if fd != listing {
                found.push(fd);
            }
        }
        i += 1;
    }
    assert(views.take(i as int) =~= views);
    sort_fds(found.as_slice())
}

proof fn lemma_filter_push(s: Seq<i32>, x: i32, keep: spec_fn(i32) -> bool)
    ensures
        s.push(x).filter(keep) == if keep(x) {
            s.filter(keep).push(x)
        } else {
            s.filter(keep)
        },
{
    reveal(Seq::filter);
    assert(s.push(x).drop_last() =~= s);
}

/// The open descriptors, in ascending order, from the lines that `lsof -F f` prints.
pub fn enumerate_lsof_fds(lines: &[String]) -> (r: Vec<i32>)
    ensures
        r@ == listed_fds(
            lines@.map_values(|line: String| field_name(line@)),
        ).sort_by(fd_order()),
{
    let ghost views = lines@.map_values(|line: String| field_name(line@));
    let mut found: Vec<i32> = Vec::new();
    let mut i: usize = 0;
    assert(views.take(0) =~= Seq::empty());
    assert(found@ =~= listed_fds(views.take(0)));
    while i < lines.len()
        invariant
            i <= lines@.len(),
            views == lines@.map_values(|line: String| field_name(line@)),
            found@ == listed_fds(views.take(i as int)),
        decreases lines@.len() - i,
    {
        let chars = text::chars_of(lines[i].as_str());
        proof {
            assert(views.take(i + 1).drop_last() =~= views.take(i as int));
            assert(views.take(i + 1).last() == field_name(chars@));
        }
        if chars.len() > 0 && chars[0] == 'f' {
            let name = slice_subrange(chars.as_slice(), 1, chars.len());
            assert(name@ =~= field_name(chars@));
            if let Some(fd) = text::parse_signed(name) {
                found.push(fd);
            }
        }
        i += 1;
    }
    assert(views.take(i as int) =~= views);
    sort_fds(found.as_slice())
}

// ─── Classification ─────────────────────────────────────────────────────────

/// The bits of `st_mode` that give the type of a file.
pub const S_IFMT: u32 = 0o170000;

pub const S_IFREG: u32 = 0o100000;

pub const S_IFSOCK: u32 = 0o140000;

pub const S_IFIFO: u32 = 0o010000;

/// The bit of the status flags that says that a descriptor is open for writing only.
pub const O_WRONLY: i32 = 1;

/// The mode with which a file is created where it is gone on restore.
pub const REOPEN_MODE: u32 = 0o644;

/// What an error says that comes of a descriptor that could not be captured.
pub open spec fn is_fd_failure(e: FreezeError, fd: i32, reason: Seq<char>) -> bool {
    e matches FreezeError::FdCaptureFailure { fd: given, reason: text } && given == fd && text@
        == reason
}

/// The entry of a standard stream. Other descriptors have to be looked at.
pub fn classify_fd(fd: i32) -> (r: Option<FdEntry>)
    ensures
        match r {
            Some(e) => fd <= 2 && e@ == (FdEntryView { fd, kind: FdKindView::Stdio }),
            None => fd > 2,
        },
{
    if fd <= 2 {
        Some(FdEntry { fd, kind: FdKind::Stdio })
    } else {
        None
    }
}

/// What a descriptor turned out to be.
#[derive(Debug)]
pub enum FileType {
    Regular,
    Socket,
    Pipe,
    /// Something that is not looked at any further.
    Other(FdEntry),
}

/// Tells the type of a descriptor from its `st_mode`, or from why that could not be had.
pub fn classify_fd_unix(fd: i32, st_mode: Result<u32, String>) -> (r: Result<
    FileType,
    FreezeError,
>)
    ensures
        match st_mode {
            Ok(mode) => match r {
                Ok(FileType::Regular) => mode & S_IFMT == S_IFREG,
                Ok(FileType::Socket) => mode & S_IFMT == S_IFSOCK,
                Ok(FileType::Pipe) => mode & S_IFMT == S_IFIFO,
                Ok(FileType::Other(e)) => {
                    &&& mode & S_IFMT != S_IFREG
                    &&& mode & S_IFMT != S_IFSOCK
                    &&& mode & S_IFMT != S_IFIFO
                    &&& e@ == (FdEntryView {
                        fd,
                        kind: FdKindView::Unknown {
                            description: "unsupported st_mode 0o"@ + text::octal(mode as nat),
                        },
                    })
                },
                Err(_) => false,
            },
            Err(reason) => r is Err && is_fd_failure(r->Err_0, fd, reason@),
        },
{
    let mode = match st_mode {
        Ok(mode) => mode,
        Err(reason) => return Err(FreezeError::FdCaptureFailure { fd, reason }),
    };
    let file_type = mode & S_IFMT;
    if file_type == S_IFREG {
        Ok(FileType::Regular)
    } else if file_type == S_IFSOCK {
        Ok(FileType::Socket)
    } else if file_type == S_IFIFO {
        Ok(FileType::Pipe)
    } else {
        let mut description = "unsupported st_mode 0o".to_owned();
        text::append_octal(&mut description, mode as u64);
        Ok(FileType::Other(FdEntry { fd, kind: FdKind::Unknown { description } }))
    }
}

/// The entry of a regular file, from its offset, its status flags and the target of the
/// link that leads to it. The first of offset and flags that could not be had decides.
pub fn classify_regular_file(
    fd: i32,
    offset: Result<i64, String>,
    flags: Result<i32, String>,
    link: Option<String>,
) -> (r: Result<FdEntry, FreezeError>)
    ensures
        match (offset, flags) {
            (Err(reason), _) => r is Err && is_fd_failure(r->Err_0, fd, reason@),
            (Ok(_), Err(reason)) => r is Err && is_fd_failure(r->Err_0, fd, reason@),
            (Ok(offset), Ok(flags)) => r is Ok && r->Ok_0@ == (FdEntryView {
                fd,
                kind: FdKindView::RegularFile {
                    path: match link {
                        Some(path) => path@,
                        None => "<unknown>"@,
                    },
                    offset: offset as u64,
                    flags,
                    mode: REOPEN_MODE,
                },
            }),
        },
{
    let offset = match offset {
        Ok(offset) => #[verifier::truncate]
        (offset as u64),
        Err(reason) => return Err(FreezeError::FdCaptureFailure { fd, reason }),
    };
    let flags = match flags {
        Ok(flags) => flags,
        Err(reason) => return Err(FreezeError::FdCaptureFailure { fd, reason }),
    };
    let path = match link {
        Some(path) => path,
        None => "<unknown>".to_owned(),
    };
    Ok(FdEntry { fd, kind: FdKind::RegularFile { path, offset, flags, mode: REOPEN_MODE } })
}

/// The entry of a socket, from the address of its peer, if it has one, and its name as a
/// Unix-domain socket: the path, if it has one, or why the socket has no such name. A socket
/// with such a name is a Unix-domain socket, connected or not; a client, which mostly has no
/// path of its own, is recorded with that of its peer.
pub fn classify_socket(fd: i32, peer: Option<String>, name: Result<Option<String>, String>) -> (r:
    Result<FdEntry, FreezeError>)
    ensures
        match (peer, name) {
            (_, Ok(Some(path))) => r is Ok && r->Ok_0@ == (FdEntryView {
                fd,
                kind: FdKindView::UnixSocket { path: path@ },
            }),
            (Some(addr), Ok(None)) => r is Ok && r->Ok_0@ == (FdEntryView {
                fd,
                kind: FdKindView::UnixSocket { path: addr@ },
            }),
            (None, Ok(None)) => r is Ok && r->Ok_0@ == (FdEntryView {
                fd,
                kind: FdKindView::UnixSocket { path: "<unnamed>"@ },
            }),
            (Some(addr), Err(_)) => r is Ok && r->Ok_0@ == (FdEntryView {
                fd,
                kind: FdKindView::TcpSocket { peer_addr: addr@, is_tls: false },
            }),
            (None, Err(reason)) => r is Err && is_fd_failure(
                r->Err_0,
                fd,
                "socket with no peer/name: "@ + reason@,
            ),
        },
{
    match (peer, name) {
        (_, Ok(Some(path))) => Ok(FdEntry { fd, kind: FdKind::UnixSocket { path } }),
        (Some(addr), Ok(None)) => Ok(FdEntry { fd, kind: FdKind::UnixSocket { path: addr } }),
        (None, Ok(None)) => Ok(
            FdEntry { fd, kind: FdKind::UnixSocket { path: "<unnamed>".to_owned() } },
        ),
        (Some(peer_addr), Err(_)) => Ok(
            FdEntry { fd, kind: FdKind::TcpSocket { peer_addr, is_tls: false } },
        ),
        (None, Err(e)) => {
            let mut reason = "socket with no peer/name: ".to_owned();
            reason.append(e.as_str());
            Err(FreezeError::FdCaptureFailure { fd, reason })
        },
    }
}

/// The entry of the write end of a pipe, told from its status flags, or nothing where it is
/// the read end, which has to be drained.
pub fn classify_pipe(fd: i32, flags: Result<i32, String>) -> (r: Result<
    Option<FdEntry>,
    FreezeError,
>)
    ensures
        match flags {
            Ok(flags) => match r {
                Ok(Some(e)) => flags & O_WRONLY != 0 && e@ == (FdEntryView {
                    fd,
                    kind: FdKindView::Unknown {
                        description: "write-end pipe (cannot buffer)"@,
                    },
                }),
                Ok(None) => flags & O_WRONLY == 0,
                Err(_) => false,
            },
            Err(reason) => r is Err && is_fd_failure(r->Err_0, fd, reason@),
        },
{
    match flags {
        Ok(flags) => if flags & O_WRONLY != 0 {
            let description = "write-end pipe (cannot buffer)".to_owned();
            Ok(Some(FdEntry { fd, kind: FdKind::Unknown { description } }))
        } else {
            Ok(None)
        },
        Err(reason) => Err(FreezeError::FdCaptureFailure { fd, reason }),
    }
}

/// Takes in what a read from a pipe gave, nothing where it failed, and says whether to read
/// on: until the pipe is at its end or has nothing more to give.
pub fn drain_pipe(buffered: &mut Vec<u8>, chunk: Option<&[u8]>) -> (r: bool)
    ensures
        match chunk {
            Some(bytes) => r == (bytes@.len() > 0) && final(buffered)@ == old(buffered)@ + bytes@,
            None => !r && final(buffered)@ == old(buffered)@,
        },
{
    match chunk {
        Some(bytes) => {
            buffered.extend_from_slice(bytes);
            assert(buffered@ =~= old(buffered)@ + bytes@);
            bytes.len() > 0
        },
        None => false,
    }
}

/// The entry of the read end of a pipe that gave `buffered_data`.
pub fn drained_pipe(fd: i32, buffered_data: Vec<u8>) -> (r: FdEntry)
    ensures
        r@ == (FdEntryView { fd, kind: FdKindView::Pipe { buffered_data: buffered_data@ } }),
{
    FdEntry { fd, kind: FdKind::Pipe { buffered_data } }
}

/// The entry of a descriptor on Windows, where none is looked at but the standard streams.
pub fn classify_fd_windows(fd: i32) -> (r: FdEntry)
    ensures
        r@ == (FdEntryView {
            fd,
            kind: FdKindView::Unknown {
                description: "windows fd classification not yet implemented"@,
            },
        }),
{
    FdEntry {
        fd,
        kind: FdKind::Unknown {
            description: "windows fd classification not yet implemented".to_owned(),
        },
    }
}

// ─── The table ──────────────────────────────────────────────────────────────

/// A descriptor and what came of looking at it.
pub struct Classified {
    pub fd: i32,
    pub outcome: Result<FdEntry, FreezeError>,
}

/// The entry of a descriptor. One that could not be classified is recorded with the reason.
pub open spec fn recorded_fd(c: Classified) -> FdEntryView {
    match c.outcome {
        Ok(e) => e@,
        Err(e) => FdEntryView {
            fd: c.fd,
            kind: FdKindView::Unknown { description: crate::error::error_message(e) },
        },
    }
}

/// The table of the descriptors that were looked at: one entry for each, in their order.
pub fn capture_fd_table(classified: Vec<Classified>) -> (r: Result<FdTable, FreezeError>)
    ensures
        r is Ok,
        r->Ok_0@ == classified@.map_values(|c: Classified| recorded_fd(c)),
        forall|i: int|
            0 <= i < classified@.len() && (#[trigger] classified@[i]).outcome is Ok
                ==> r->Ok_0.entries@[i] == classified@[i].outcome->Ok_0,
{
    let mut entries: Vec<FdEntry> = Vec::new();
    let ghost all = classified@;
    let ghost expected = all.map_values(|c: Classified| recorded_fd(c));
    for c in it: classified.into_iter()
        invariant
            it.seq() == all,
            expected == all.map_values(|c: Classified| recorded_fd(c)),
            entries@.len() == it.index(),
            forall|k: int| 0 <= k < entries@.len() ==> (#[trigger] entries@[k])@ == expected[k],
            forall|k: int|
                0 <= k < entries@.len() && (#[trigger] all[k]).outcome is Ok ==> entries@[k]
                    == all[k].outcome->Ok_0,
    {
        let entry = match c.outcome {
            Ok(entry) => entry,
            Err(e) => FdEntry { fd: c.fd, kind: FdKind::Unknown { description: e.message() } },
        };
        entries.push(entry);
    }
    let table = FdTable { entries };
    assert(table@ =~= expected);
    Ok(table)
}

// ─── Laws ───────────────────────────────────────────────────────────────────

/// The enumerated descriptors ascend, they are those of the listing but for the one that it
/// was read through, and they ascend strictly where the listing names none twice.
pub proof fn law_enumeration_ascends(names: Seq<Seq<char>>, listing: i32)
    ensures
        ({
            let found = listed_fds(names);
            let fds = found.filter(|fd: i32| fd != listing).sort_by(fd_order());
            &&& forall|a: int, b: int|
                0 <= a < b < fds.len() ==> #[trigger] fds[a] <= #[trigger] fds[b]
            &&& forall|fd: i32| #[trigger]
                fds.contains(fd) <==> found.contains(fd) && fd != listing
            &&& found.no_duplicates() ==> forall|a: int, b: int|
                0 <= a < b < fds.len() ==> #[trigger] fds[a] < #[trigger] fds[b]
        }),
{
    let leq = fd_order();
    let keep = |fd: i32| fd != listing;
    let found = listed_fds(names);
    let kept = found.filter(keep);
    let fds = kept.sort_by(leq);
    assert(total_ordering(leq));
    kept.lemma_sort_by_ensures(leq);
    assert forall|a: int, b: int| 0 <= a < b < fds.len() implies #[trigger] fds[a]
        <= #[trigger] fds[b] by {
        assert(leq(fds[a], fds[b]));
    }
    assert forall|fd: i32| #[trigger] fds.contains(fd) <==> found.contains(fd) && fd
        != listing by {
        vstd::seq_lib::to_multiset_contains(fds, fd);
        vstd::seq_lib::to_multiset_contains(kept, fd);
        lemma_filter_contains(found, keep, fd);
    }
    if found.no_duplicates() {
        lemma_filter_distinct(found, keep);
        kept.lemma_multiset_has_no_duplicates();
        fds.lemma_multiset_has_no_duplicates_conv();
        assert forall|a: int, b: int| 0 <= a < b < fds.len() implies #[trigger] fds[a]
            < #[trigger] fds[b] by {
            assert(fds[a] != fds[b]);
        }
    }
}

proof fn lemma_filter_contains(s: Seq<i32>, keep: spec_fn(i32) -> bool, x: i32)
    ensures
        s.filter(keep).contains(x) <==> s.contains(x) && keep(x),
    decreases s.len(),
{
    reveal(Seq::filter);
    if s.len() > 0 {
        let d = s.drop_last();
        lemma_filter_contains(d, keep, x);
        assert(s =~= d.push(s.last()));
        assert(s.contains(x) <==> d.contains(x) || s.last() == x) by {
            if s.contains(x) {
                let i = choose|i: int| 0 <= i < s.len() && s[i] == x;
                if i < d.len() {
                    assert(d[i] == x);
                }
            }
            if d.contains(x) {
                let i = choose|i: int| 0 <= i < d.len() && d[i] == x;
                assert(s[i] == x);
            }
            assert(s[s.len() - 1] == s.last());
        }
        let f = d.filter(keep);
        if keep(s.last()) {
            let g = f.push(s.last());
            assert(g.contains(x) <==> f.contains(x) || s.last() == x) by {
                if g.contains(x) {
                    let i = choose|i: int| 0 <= i < g.len() && g[i] == x;
                    if i < f.len() {
                        assert(f[i] == x);
                    }
                }
                if f.contains(x) {
                    let i = choose|i: int| 0 <= i < f.len() && f[i] == x;
                    assert(g[i] == x);
                }
                assert(g[f.len() as int] == s.last());
            }
        }
    }
}

proof fn lemma_filter_distinct(s: Seq<i32>, keep: spec_fn(i32) -> bool)
    requires
        s.no_duplicates(),
    ensures
        s.filter(keep).no_duplicates(),
    decreases s.len(),
{
    reveal(Seq::filter);
    if s.len() > 0 {
        let d = s.drop_last();
        lemma_filter_distinct(d, keep);
        lemma_filter_contains(d, keep, s.last());
        assert(!d.contains(s.last()));
    }
}

/// A descriptor that was classified stands in the table unchanged: the same number, and of the
/// same kind with the same path, offset, flags, mode, address or bytes. One that could not be
/// classified stands there with the reason.
pub proof fn law_classified_descriptor_stands_unchanged(c: Classified)
    ensures
        match c.outcome {
            Ok(e) => recorded_fd(c).fd == e.fd && match e.kind {
                FdKind::RegularFile { path, offset, flags, mode } => recorded_fd(c).kind == (
                FdKindView::RegularFile { path: path@, offset, flags, mode }),
                FdKind::TcpSocket { peer_addr, is_tls } => recorded_fd(c).kind == (
                FdKindView::TcpSocket { peer_addr: peer_addr@, is_tls }),
                FdKind::UnixSocket { path } => recorded_fd(c).kind == (FdKindView::UnixSocket {
                    path: path@,
                }),
                FdKind::Pipe { buffered_data } => recorded_fd(c).kind == (FdKindView::Pipe {
                    buffered_data: buffered_data@,
                }),
                FdKind::Stdio => recorded_fd(c).kind == FdKindView::Stdio,
                FdKind::Unknown { description } => recorded_fd(c).kind == (FdKindView::Unknown {
                    description: description@,
                }),
            },
            Err(e) => recorded_fd(c).fd == c.fd && recorded_fd(c).kind == (FdKindView::Unknown {
                description: crate::error::error_message(e),
            }),
        },
{
}

/// `capture_fd_table` gives one entry for each descriptor that was looked at, in their order:
/// the very entry where it was classified, and one of an unknown kind where it was not.
pub proof fn law_table_holds_what_was_classified(
    classified: Vec<Classified>,
    r: Result<FdTable, FreezeError>,
)
    requires
        call_ensures(capture_fd_table, (classified,), r),
    ensures
        r is Ok,
        r->Ok_0.entries@.len() == classified@.len(),
        forall|i: int|
            #![trigger r->Ok_0.entries@[i]]
            #![trigger classified@[i]]
            0 <= i < classified@.len() ==> match classified@[i].outcome {
                Ok(e) => r->Ok_0.entries@[i] == e && r->Ok_0@[i].fd == e.fd,
                Err(_) => r->Ok_0.entries@[i].fd == classified@[i].fd
                    && r->Ok_0.entries@[i].kind is Unknown,
            },
{
    let t = r->Ok_0;
    assert(t@.len() == classified@.len());
    assert forall|i: int|
        #![trigger r->Ok_0.entries@[i]]
        #![trigger classified@[i]]
        0 <= i < classified@.len() implies match classified@[i].outcome {
        Ok(e) => r->Ok_0.entries@[i] == e && r->Ok_0@[i].fd == e.fd,
        Err(_) => r->Ok_0.entries@[i].fd == classified@[i].fd
            && r->Ok_0.entries@[i].kind is Unknown,
    } by {
        assert(t@[i] == t.entries@[i]@);
        assert(t@[i] == recorded_fd(classified@[i]));
        law_classified_descriptor_stands_unchanged(classified@[i]);
    }
}

/// An error of capturing a descriptor names the descriptor and gives the reason.
pub proof fn law_failure_names_the_descriptor(e: FreezeError, fd: i32, reason: Seq<char>)
    ensures
        is_fd_failure(e, fd, reason) <==> e is FdCaptureFailure && e->FdCaptureFailure_fd == fd
            && e->FdCaptureFailure_reason@ == reason,
{
}

/// A regular file is recorded with the offset at which it stands, the flags with which it is
/// open and the path that leads to it.
pub proof fn law_open_file_is_recorded(
    fd: i32,
    offset: i64,
    flags: i32,
    path: String,
    r: Result<FdEntry, FreezeError>,
)
    requires
        call_ensures(
            classify_regular_file,
            (fd, Ok::<i64, String>(offset), Ok::<i32, String>(flags), Some(path)),
            r,
        ),
        offset >= 0,
    ensures
        r is Ok,
        r->Ok_0.fd == fd,
        r->Ok_0.kind is RegularFile,
        r->Ok_0.kind->RegularFile_path@ == path@,
        r->Ok_0.kind->RegularFile_offset == offset,
        r->Ok_0.kind->RegularFile_flags == flags,
        r->Ok_0.kind->RegularFile_mode == 0o644,
{
    let k = r->Ok_0.kind;
    match k {
        FdKind::RegularFile { path: p, offset: o, flags: f, mode: m } => {
            assert(k@ == (FdKindView::RegularFile { path: p@, offset: o, flags: f, mode: m }));
        },
        _ => {},
    }
}

/// Which of offset and flags could not be had decides what is reported, the offset first.
pub proof fn law_file_that_cannot_be_looked_at(
    fd: i32,
    offset: Result<i64, String>,
    flags: Result<i32, String>,
    link: Option<String>,
    r: Result<FdEntry, FreezeError>,
)
    requires
        call_ensures(classify_regular_file, (fd, offset, flags, link), r),
    ensures
        r is Ok <==> offset is Ok && flags is Ok,
        r is Err ==> r->Err_0 is FdCaptureFailure && r->Err_0->FdCaptureFailure_fd == fd
            && r->Err_0->FdCaptureFailure_reason@ == if offset is Err {
            offset->Err_0@
        } else {
            flags->Err_0@
        },
{
}

/// The type of a descriptor is told from the upper digits of its mode alone: 10 in octal is a
/// regular file, 14 a socket, 01 a pipe; the permissions below them do not matter.
pub proof fn law_type_is_told_from_the_upper_digits(
    fd: i32,
    mode: u32,
    r: Result<FileType, FreezeError>,
)
    requires
        call_ensures(classify_fd_unix, (fd, Ok::<u32, String>(mode)), r),
    ensures
        r is Ok,
        r->Ok_0 is Regular <==> mode / 0o10000 % 16 == 0o10,
        r->Ok_0 is Socket <==> mode / 0o10000 % 16 == 0o14,
        r->Ok_0 is Pipe <==> mode / 0o10000 % 16 == 0o01,
        r->Ok_0 is Other ==> r->Ok_0->Other_0.fd == fd && r->Ok_0->Other_0.kind is Unknown
            && r->Ok_0->Other_0.kind->Unknown_description@ == "unsupported st_mode 0o"@
            + text::octal(mode as nat),
{
    assert(mode & 0o170000 == 0o100000 <==> mode / 0o10000 % 16 == 0o10) by (bit_vector);
    assert(mode & 0o170000 == 0o140000 <==> mode / 0o10000 % 16 == 0o14) by (bit_vector);
    assert(mode & 0o170000 == 0o010000 <==> mode / 0o10000 % 16 == 0o01) by (bit_vector);
    match r {
        Ok(FileType::Other(e)) => {
            assert(e@.kind == e.kind@);
            match e.kind {
                FdKind::Unknown { description } => {
                    assert(e.kind@ == (FdKindView::Unknown { description: description@ }));
                },
                _ => {},
            }
        },
        _ => {},
    }
}

/// A pipe is drained exactly where its lowest status flag is not set; the other end is recorded
/// as one that cannot be buffered.
pub proof fn law_write_end_is_told_by_its_lowest_flag(
    fd: i32,
    flags: i32,
    r: Result<Option<FdEntry>, FreezeError>,
)
    requires
        call_ensures(classify_pipe, (fd, Ok::<i32, String>(flags)), r),
        flags >= 0,
    ensures
        r is Ok,
        r->Ok_0 is None <==> flags % 2 == 0,
        r->Ok_0 is Some ==> r->Ok_0->Some_0.fd == fd && r->Ok_0->Some_0.kind is Unknown,
{
    assert(flags >= 0 ==> (flags & 1 == 0 <==> flags % 2 == 0)) by (bit_vector);
    match r {
        Ok(Some(e)) => {
            assert(e@.kind == e.kind@);
        },
        _ => {},
    }
}

/// A socket that has a name as a Unix-domain socket is one, with its own path before that of
/// its peer; any other that has a peer is a TCP socket; and one that has neither cannot be
/// captured.
pub proof fn law_socket_is_told_by_its_name(
    fd: i32,
    peer: Option<String>,
    name: Result<Option<String>, String>,
    r: Result<FdEntry, FreezeError>,
)
    requires
        call_ensures(classify_socket, (fd, peer, name), r),
    ensures
        r is Err <==> peer is None && name is Err,
        r is Ok ==> r->Ok_0@.fd == fd,
        r is Ok && name is Ok ==> {
            let path = match (name->Ok_0, peer) {
                (Some(own), _) => own@,
                (None, Some(other)) => other@,
                (None, None) => "<unnamed>"@,
            };
            r->Ok_0@.kind == (FdKindView::UnixSocket { path })
        },
        r is Ok && name is Err ==> r->Ok_0@.kind == (FdKindView::TcpSocket {
            peer_addr: peer->Some_0@,
            is_tls: false,
        }),
        r is Err ==> r->Err_0 is FdCaptureFailure && r->Err_0->FdCaptureFailure_fd == fd
            && r->Err_0->FdCaptureFailure_reason@ == "socket with no peer/name: "@
            + name->Err_0@,
{
}

/// Draining takes in every chunk, in their order, and ends at an empty or failed read.
pub proof fn law_drained_bytes_are_those_that_were_read(
    buffered: &mut Vec<u8>,
    chunk: Option<&[u8]>,
    r: bool,
)
    requires
        call_ensures(drain_pipe, (buffered, chunk), r),
    ensures
        chunk is Some ==> final(buffered)@ == old(buffered)@ + chunk->Some_0@,
        chunk is None ==> final(buffered)@ == old(buffered)@,
        r <==> chunk is Some && chunk->Some_0@.len() > 0,
{
}

/// A descriptor whose number stands in a list of names is listed, whatever the number.
pub proof fn law_numbered_name_is_listed(names: Seq<Seq<char>>, k: int, fd: i32)
    requires
        0 <= k < names.len(),
        fd >= 0,
        names[k] == text::decimal(fd as nat),
    ensures
        listed_fds(names).contains(fd),
    decreases names.len(),
{
    let front = names.drop_last();
    let (before, all) = (listed_fds(front), listed_fds(names));
    if k < front.len() {
        law_numbered_name_is_listed(front, k, fd);
        let j = choose|j: int| 0 <= j < before.len() && before[j] == fd;
        assert(all[j] == fd);
    } else {
        text::law_signed_number_of_decimal(fd as int);
        assert(all[before.len() as int] == fd);
    }
}

/// Whatever is listed is the number of one of the names.
pub proof fn law_listed_descriptor_has_a_name(names: Seq<Seq<char>>, fd: i32)
    requires
        listed_fds(names).contains(fd),
    ensures
        exists|k: int|
            0 <= k < names.len() && text::signed_number(#[trigger] names[k]) == Some(fd),
    decreases names.len(),
{
    let all = listed_fds(names);
    let j = choose|j: int| 0 <= j < all.len() && all[j] == fd;
    if names.len() > 0 {
        let front = names.drop_last();
        let before = listed_fds(front);
        if j < before.len() {
            assert(before[j] == fd);
            law_listed_descriptor_has_a_name(front, fd);
            let k = choose|k: int|
                0 <= k < front.len() && text::signed_number(#[trigger] front[k]) == Some(fd);
            assert(names[k] == front[k]);
        } else {
            assert(text::signed_number(names[names.len() - 1]) == Some(fd));
        }
    }
}

/// As many descriptors are listed as there are names that are numbers.
pub proof fn law_each_number_is_listed_once(names: Seq<Seq<char>>)
    ensures
        listed_fds(names) == names.filter(
            |n: Seq<char>| text::signed_number(n) is Some,
        ).map_values(|n: Seq<char>| text::signed_number(n)->Some_0),
    decreases names.len(),
{
    let numbered = |n: Seq<char>| text::signed_number(n) is Some;
    let number = |n: Seq<char>| text::signed_number(n)->Some_0;
    reveal(Seq::filter);
    if names.len() == 0 {
        assert(names.filter(numbered).map_values(number) =~= Seq::empty());
    } else {
        let front = names.drop_last();
        law_each_number_is_listed_once(front);
        let kept = front.filter(numbered);
        if numbered(names.last()) {
            assert(kept.push(names.last()).map_values(number) =~= kept.map_values(number).push(
                number(names.last()),
            ));
        }
    }
}

/// `enumerate_open_fds` gives every descriptor that has an entry in the directory but for the
/// one through which the directory was read, in ascending order.
pub proof fn law_every_open_descriptor_is_enumerated(
    names: &[String],
    listing: i32,
    r: Vec<i32>,
)
    requires
        call_ensures(enumerate_open_fds, (names, listing), r),
    ensures
        forall|k: int, fd: i32|
            0 <= k < names@.len() && fd >= 0 && fd != listing && (#[trigger] names@[k])@
                == text::decimal(fd as nat) ==> #[trigger] r@.contains(fd),
        forall|a: int, b: int| 0 <= a < b < r@.len() ==> #[trigger] r@[a] <= #[trigger] r@[b],
        !r@.contains(listing),
        forall|fd: i32| #[trigger]
            r@.contains(fd) ==> exists|k: int|
                0 <= k < names@.len() && text::signed_number((#[trigger] names@[k])@) == Some(fd),
{
    let views = text::text_views(names@);
    law_enumeration_ascends(views, listing);
    assert forall|k: int, fd: i32|
        0 <= k < names@.len() && fd >= 0 && fd != listing && (#[trigger] names@[k])@
            == text::decimal(fd as nat) implies #[trigger] r@.contains(fd) by {
        assert(views[k] == names@[k]@);
        law_numbered_name_is_listed(views, k, fd);
    }
    assert forall|fd: i32| #[trigger] r@.contains(fd) implies exists|k: int|
        0 <= k < names@.len() && text::signed_number((#[trigger] names@[k])@) == Some(fd) by {
        law_listed_descriptor_has_a_name(views, fd);
        let k = choose|k: int|
            0 <= k < views.len() && text::signed_number(#[trigger] views[k]) == Some(fd);
        assert(text::signed_number(names@[k]@) == Some(fd));
    }
}

/// `enumerate_lsof_fds` gives every descriptor that has a line of its own: the letter `f` and
/// its number.
pub proof fn law_every_listed_line_is_enumerated(lines: &[String], r: Vec<i32>)
    requires
        call_ensures(enumerate_lsof_fds, (lines,), r),
    ensures
        forall|k: int, fd: i32|
            0 <= k < lines@.len() && fd >= 0 && (#[trigger] lines@[k])@ == seq!['f']
                + text::decimal(fd as nat) ==> #[trigger] r@.contains(fd),
        forall|a: int, b: int| 0 <= a < b < r@.len() ==> #[trigger] r@[a] <= #[trigger] r@[b],
        forall|fd: i32| #[trigger]
            r@.contains(fd) ==> exists|k: int|
                0 <= k < lines@.len() && (#[trigger] lines@[k])@.len() > 0 && lines@[k]@[0] == 'f'
                    && text::signed_number(lines@[k]@.skip(1)) == Some(fd),
{
    let views = lines@.map_values(|line: String| field_name(line@));
    let leq = fd_order();
    let found = listed_fds(views);
    assert(total_ordering(leq));
    found.lemma_sort_by_ensures(leq);
    assert forall|a: int, b: int| 0 <= a < b < r@.len() implies #[trigger] r@[a]
        <= #[trigger] r@[b] by {
        assert(leq(r@[a], r@[b]));
    }
    assert forall|k: int, fd: i32|
        0 <= k < lines@.len() && fd >= 0 && (#[trigger] lines@[k])@ == seq!['f'] + text::decimal(
            fd as nat,
        ) implies #[trigger] r@.contains(fd) by {
        assert(views[k] =~= text::decimal(fd as nat));
        law_numbered_name_is_listed(views, k, fd);
        vstd::seq_lib::to_multiset_contains(r@, fd);
        vstd::seq_lib::to_multiset_contains(found, fd);
    }
    assert forall|fd: i32| #[trigger] r@.contains(fd) implies exists|k: int|
        0 <= k < lines@.len() && (#[trigger] lines@[k])@.len() > 0 && lines@[k]@[0] == 'f'
            && text::signed_number(lines@[k]@.skip(1)) == Some(fd) by {
        vstd::seq_lib::to_multiset_contains(r@, fd);
        vstd::seq_lib::to_multiset_contains(found, fd);
        law_listed_descriptor_has_a_name(views, fd);
        let k = choose|k: int|
            0 <= k < views.len() && text::signed_number(#[trigger] views[k]) == Some(fd);
        let line = lines@[k]@;
        assert(views[k] == field_name(line));
        text::law_empty_text_is_no_number();
        assert(line.skip(1) =~= line.drop_first());
        assert(text::signed_number(lines@[k]@.skip(1)) == Some(fd));
    }
}

/// The three standard streams, and nothing else, are known without a look.
pub proof fn law_standard_streams_are_known(fd: i32, r: Option<FdEntry>)
    requires
        call_ensures(classify_fd, (fd,), r),
    ensures
        r is Some <==> fd <= 2,
        r is Some ==> r->Some_0.fd == fd && r->Some_0.kind is Stdio,
{
    if r is Some {
        assert(r->Some_0@.kind == r->Some_0.kind@);
    }
}

/// A pipe that was drained is recorded with the bytes that it gave, all of them.
pub proof fn law_drained_pipe_holds_its_bytes(fd: i32, buffered_data: Vec<u8>, r: FdEntry)
    requires
        call_ensures(drained_pipe, (fd, buffered_data), r),
    ensures
        r.fd == fd,
        r.kind is Pipe,
        r.kind->Pipe_buffered_data@ == buffered_data@,
{
    assert(r@.kind == r.kind@);
    match r.kind {
        FdKind::Pipe { buffered_data: b } => {
            assert(r.kind@ == (FdKindView::Pipe { buffered_data: b@ }));
        },
        _ => {},
    }
}

} // verus!
