//! Putting file descriptors back.
//!
//! The kernel is asked by the program around this library, one request at a time:
//! `begin_restore` gives the first request, and `continue_restore` takes what came of a
//! request and gives the next one, until the descriptor is done.

use crate::error::FreezeError;
use crate::snapshot::format::{FdEntry, FdEntryView, FdKind, FdKindView};
use vstd::prelude::*;
use vstd::string::*;

verus! {

/// A request to the kernel.
#[derive(Debug)]
pub enum FdAction<'a> {
    /// Open a file.
    Open { path: &'a str, flags: i32, mode: u32 },
    /// Set the offset of a descriptor, from the start of its file.
    Seek { fd: i32, offset: i64 },
    /// Make `to` refer to what `from` refers to, closing what it referred to before.
    Duplicate { from: i32, to: i32 },
    /// Make a pipe.
    MakePipe,
    /// Write to a descriptor.
    Write { fd: i32, data: &'a [u8] },
    /// Close a descriptor.
    Close { fd: i32 },
}

/// What came of a request.
#[derive(Debug)]
pub enum FdReply {
    /// The file was opened as this descriptor.
    Opened(i32),
    /// The pipe was made, with these two ends.
    Piped { read_fd: i32, write_fd: i32 },
    /// The request was carried out.
    Done,
    /// It failed, for this reason.
    Failed(String),
}

/// Which request is being carried out.
#[derive(Debug, Clone, Copy, PartialEq, Eq, Structural)]
pub enum FdState {
    Opening,
    Seeking { new_fd: i32 },
    /// Duplicating `from` onto the descriptor.
    Duplicating { from: i32 },
    MakingPipe,
    Writing { read_fd: i32, write_fd: i32 },
    ClosingWriteEnd { read_fd: i32 },
    /// Closing a descriptor that is not needed any more, which is the last thing.
    Closing,
}

/// What to do next.
#[derive(Debug)]
pub enum FdStep<'a> {
    /// Carry out a request and go on from there.
    Act { state: FdState, action: FdAction<'a> },
    /// The descriptor is done.
    Finished(Result<(), FreezeError>),
}

pub enum ActionView {
    Open { path: Seq<char>, flags: i32, mode: u32 },
    Seek { fd: i32, offset: i64 },
    Duplicate { from: i32, to: i32 },
    MakePipe,
    Write { fd: i32, data: Seq<u8> },
    Close { fd: i32 },
}

pub enum ReplyView {
    Opened(i32),
    Piped { read_fd: i32, write_fd: i32 },
    Done,
    Failed(Seq<char>),
}

pub enum StepView {
    Act { state: FdState, action: ActionView },
    Restored,
    Failed { fd: i32, reason: Seq<char> },
}

impl<'a> View for FdAction<'a> {
    type V = ActionView;

    open spec fn view(&self) -> ActionView {
        match self {
            FdAction::Open { path, flags, mode } => ActionView::Open {
                path: path@,
                flags: *flags,
                mode: *mode,
            },
            FdAction::Seek { fd, offset } => ActionView::Seek { fd: *fd, offset: *offset },
            FdAction::Duplicate { from, to } => ActionView::Duplicate { from: *from, to: *to },
            FdAction::MakePipe => ActionView::MakePipe,
            FdAction::Write { fd, data } => ActionView::Write { fd: *fd, data: data@ },
            FdAction::Close { fd } => ActionView::Close { fd: *fd },
        }
    }
}

impl View for FdReply {
    type V = ReplyView;

    open spec fn view(&self) -> ReplyView {
        match self {
            FdReply::Opened(fd) => ReplyView::Opened(*fd),
            FdReply::Piped { read_fd, write_fd } => ReplyView::Piped {
                read_fd: *read_fd,
                write_fd: *write_fd,
            },
            FdReply::Done => ReplyView::Done,
            FdReply::Failed(reason) => ReplyView::Failed(reason@),
        }
    }
}

/// Whether a step is the one that a view shows. The only error is that a descriptor could
/// not be restored.
pub open spec fn shows(step: FdStep, view: StepView) -> bool {
    match step {
        FdStep::Act { state, action } => view == StepView::Act { state, action: action@ },
        FdStep::Finished(Ok(())) => view == StepView::Restored,
        FdStep::Finished(Err(FreezeError::FdRestoreFailure { fd, reason })) => view
            == StepView::Failed { fd, reason: reason@ },
        FdStep::Finished(Err(_)) => false,
    }
}

/// The first step for a descriptor. The standard streams are inherited, sockets are left to
/// the framework to reconnect, an empty pipe stays as it is, and what is not known is closed.
pub open spec fn first_step(e: FdEntryView) -> StepView {
    match e.kind {
        FdKindView::Stdio => StepView::Restored,
        FdKindView::RegularFile { path, offset, flags, mode } => StepView::Act {
            state: FdState::Opening,
            action: ActionView::Open { path, flags, mode },
        },
        FdKindView::TcpSocket { .. } => StepView::Restored,
        FdKindView::UnixSocket { .. } => StepView::Restored,
        FdKindView::Pipe { buffered_data } => if buffered_data.len() == 0 {
            StepView::Restored
        } else {
            StepView::Act { state: FdState::MakingPipe, action: ActionView::MakePipe }
        },
        FdKindView::Unknown { .. } => StepView::Act {
            state: FdState::Closing,
            action: ActionView::Close { fd: e.fd },
        },
    }
}

/// Whether a reply answers the request that is being carried out for a descriptor.
pub open spec fn answers(e: FdEntryView, state: FdState, reply: ReplyView) -> bool {
    match state {
        FdState::Opening => e.kind is RegularFile && (reply is Opened || reply is Failed),
        FdState::MakingPipe => e.kind is Pipe && (reply is Piped || reply is Failed),
        _ => reply is Done || reply is Failed,
    }
}

/// The step that follows a reply. A request that fails ends it, but for closing what is not
/// needed any more.
pub open spec fn next_step(e: FdEntryView, state: FdState, reply: ReplyView) -> StepView {
    match (state, reply) {
        (FdState::Closing, _) => StepView::Restored,
        (FdState::ClosingWriteEnd { read_fd }, _) => if read_fd != e.fd {
            StepView::Act {
                state: FdState::Duplicating { from: read_fd },
                action: ActionView::Duplicate { from: read_fd, to: e.fd },
            }
        } else {
            StepView::Restored
        },
        (_, ReplyView::Failed(reason)) => StepView::Failed { fd: e.fd, reason },
        (FdState::Opening, ReplyView::Opened(new_fd)) => StepView::Act {
            state: FdState::Seeking { new_fd },
            action: ActionView::Seek {
                fd: new_fd,
                offset: e.kind->RegularFile_offset as i64,
            },
        },
        (FdState::Seeking { new_fd }, _) => if new_fd != e.fd {
            StepView::Act {
                state: FdState::Duplicating { from: new_fd },
                action: ActionView::Duplicate { from: new_fd, to: e.fd },
            }
        } else {
            StepView::Restored
        },
        (FdState::Duplicating { from }, _) => StepView::Act {
            state: FdState::Closing,
            action: ActionView::Close { fd: from },
        },
        (FdState::MakingPipe, ReplyView::Piped { read_fd, write_fd }) => StepView::Act {
            state: FdState::Writing { read_fd, write_fd },
            action: ActionView::Write {
                fd: write_fd,
                data: e.kind->Pipe_buffered_data,
            },
        },
        (FdState::Writing { read_fd, write_fd }, _) => StepView::Act {
            state: FdState::ClosingWriteEnd { read_fd },
            action: ActionView::Close { fd: write_fd },
        },
        _ => StepView::Restored,
    }
}

/// The first request for putting a descriptor back.
pub fn begin_restore(entry: &FdEntry) -> (r: FdStep<'_>)
    ensures
        shows(r, first_step(entry@)),
{
    match &entry.kind {
        FdKind::Stdio => FdStep::Finished(Ok(())),
        FdKind::RegularFile { path, offset: _, flags, mode } => FdStep::Act {
            state: FdState::Opening,
            action: FdAction::Open { path: path.as_str(), flags: *flags, mode: *mode },
        },
        FdKind::TcpSocket { peer_addr: _, is_tls: _ } => FdStep::Finished(Ok(())),
        FdKind::UnixSocket { path: _ } => FdStep::Finished(Ok(())),
        FdKind::Pipe { buffered_data } => if buffered_data.len() == 0 {
            FdStep::Finished(Ok(()))
        } else {
            FdStep::Act { state: FdState::MakingPipe, action: FdAction::MakePipe }
        },
        FdKind::Unknown { description: _ } => FdStep::Act {
            state: FdState::Closing,
            action: FdAction::Close { fd: entry.fd },
        },
    }
}

fn give_up<'a>(fd: i32, reason: String) -> (r: FdStep<'a>)
    ensures
        shows(r, StepView::Failed { fd, reason: reason@ }),
{
    FdStep::Finished(Err(FreezeError::FdRestoreFailure { fd, reason }))
}

/// The request that follows a reply.
pub fn continue_restore(entry: &FdEntry, state: FdState, reply: FdReply) -> (r: FdStep<'_>)
    requires
        answers(entry@, state, reply@),
    ensures
        shows(r, next_step(entry@, state, reply@)),
{
    let fd = entry.fd;
    match state {
        FdState::Closing => FdStep::Finished(Ok(())),
        FdState::ClosingWriteEnd { read_fd } => if read_fd != fd {
            FdStep::Act {
                state: FdState::Duplicating { from: read_fd },
                action: FdAction::Duplicate { from: read_fd, to: fd },
            }
        } else {
            FdStep::Finished(Ok(()))
        },
        FdState::Opening => match (reply, &entry.kind) {
            (FdReply::Failed(reason), _) => give_up(fd, reason),
            (
                FdReply::Opened(new_fd),
                FdKind::RegularFile { path: _, offset, flags: _, mode: _ },
            ) => FdStep::Act {
                state: FdState::Seeking { new_fd },
                action: FdAction::Seek {
                    fd: new_fd,
                    offset: #[verifier::truncate]
                    (*offset as i64),
                },
            },
            _ => FdStep::Finished(Ok(())),
        },
        FdState::Seeking { new_fd } => match reply {
            FdReply::Failed(reason) => give_up(fd, reason),
            _ => if new_fd != fd {
                FdStep::Act {
                    state: FdState::Duplicating { from: new_fd },
                    action: FdAction::Duplicate { from: new_fd, to: fd },
                }
            } else {
                FdStep::Finished(Ok(()))
            },
        },
        FdState::Duplicating { from } => match reply {
            FdReply::Failed(reason) => give_up(fd, reason),
            _ => FdStep::Act { state: FdState::Closing, action: FdAction::Close { fd: from } },
        },
        FdState::MakingPipe => match (reply, &entry.kind) {
            (FdReply::Failed(reason), _) => give_up(fd, reason),
            (FdReply::Piped { read_fd, write_fd }, FdKind::Pipe { buffered_data }) => FdStep::Act {
                state: FdState::Writing { read_fd, write_fd },
                action: FdAction::Write { fd: write_fd, data: buffered_data.as_slice() },
            },
            _ => FdStep::Finished(Ok(())),
        },
        FdState::Writing { read_fd, write_fd } => match reply {
            FdReply::Failed(reason) => give_up(fd, reason),
            _ => FdStep::Act {
                state: FdState::ClosingWriteEnd { read_fd },
                action: FdAction::Close { fd: write_fd },
            },
        },
    }
}

// ─── Laws ───────────────────────────────────────────────────────────────────

/// How many requests can still follow.
pub open spec fn rank(step: StepView) -> nat {
    match step {
        StepView::Act { state, .. } => match state {
            FdState::Closing => 1,
            FdState::Duplicating { .. } => 2,
            FdState::ClosingWriteEnd { .. } => 3,
            FdState::Seeking { .. } => 3,
            FdState::Writing { .. } => 4,
            FdState::Opening => 4,
            FdState::MakingPipe => 5,
        },
        _ => 0,
    }
}

/// Every reply brings a descriptor nearer to its end, so that at most five requests are made
/// for it.
pub proof fn law_restore_ends(e: FdEntryView, state: FdState, action: ActionView, reply: ReplyView)
    requires
        answers(e, state, reply),
    ensures
        rank(next_step(e, state, reply)) < rank(StepView::Act { state, action }),
        rank(first_step(e)) <= 5,
{
}

/// What a descriptor refers to.
pub enum Referent {
    /// A file that was opened with these flags and this mode, at this offset.
    File { path: Seq<char>, offset: i64, flags: i32, mode: u32 },
    /// The read end of a pipe that holds these bytes.
    ReadEnd { data: Seq<u8> },
    WriteEnd,
    Something,
}

/// The descriptors of a process after a request was carried out, and the reply. An opened
/// file becomes the descriptor `n.0`, a new pipe the descriptors `n.0` and `n.1`.
pub open spec fn carried_out(
    table: Map<i32, Referent>,
    action: ActionView,
    n: (i32, i32),
) -> (Map<i32, Referent>, ReplyView) {
    match action {
        ActionView::Open { path, flags, mode } => (
            table.insert(n.0, Referent::File { path, offset: 0, flags, mode }),
            ReplyView::Opened(n.0),
        ),
        ActionView::Seek { fd, offset } => (
            match table[fd] {
                Referent::File { path, offset: _, flags, mode } => table.insert(
                    fd,
                    Referent::File { path, offset, flags, mode },
                ),
                _ => table,
            },
            ReplyView::Done,
        ),
        ActionView::Duplicate { from, to } => (table.insert(to, table[from]), ReplyView::Done),
        ActionView::MakePipe => (
            table.insert(n.0, Referent::ReadEnd { data: Seq::empty() }).insert(
                n.1,
                Referent::WriteEnd,
            ),
            ReplyView::Piped { read_fd: n.0, write_fd: n.1 },
        ),
        ActionView::Write { fd, data } => (
            match (table[fd], table[n.0]) {
                (Referent::WriteEnd, Referent::ReadEnd { data: held }) => table.insert(
                    n.0,
                    Referent::ReadEnd { data: held + data },
                ),
                _ => table,
            },
            ReplyView::Done,
        ),
        ActionView::Close { fd } => (table.remove(fd), ReplyView::Done),
    }
}

/// The descriptors of a process after a descriptor was put back by a kernel that carries out
/// every request.
pub open spec fn put_back(
    e: FdEntryView,
    step: StepView,
    table: Map<i32, Referent>,
    n: (i32, i32),
) -> Map<i32, Referent>
    decreases rank(step),
{
    match step {
        StepView::Act { state, action } => {
            let (after, reply) = carried_out(table, action, n);
            let next = next_step(e, state, reply);
            if rank(next) < rank(step) {
                put_back(e, next, after, n)
            } else {
                after
            }
        },
        _ => table,
    }
}

/// Putting a regular file back leaves its descriptor with the file at its offset, opened with
/// exactly its flags and its mode, and every other descriptor as it was.
pub proof fn law_file_is_put_back(e: FdEntryView, table: Map<i32, Referent>, new_fd: i32)
    requires
        e.kind is RegularFile,
        e.kind->RegularFile_offset <= i64::MAX,
        !table.contains_key(new_fd),
    ensures
        put_back(e, first_step(e), table, (new_fd, new_fd)) == table.insert(
            e.fd,
            Referent::File {
                path: e.kind->RegularFile_path,
                offset: e.kind->RegularFile_offset as i64,
                flags: e.kind->RegularFile_flags,
                mode: e.kind->RegularFile_mode,
            },
        ),
{
    reveal_with_fuel(put_back, 6);
    let after = put_back(e, first_step(e), table, (new_fd, new_fd));
    assert(after =~= table.insert(
        e.fd,
        Referent::File {
            path: e.kind->RegularFile_path,
            offset: e.kind->RegularFile_offset as i64,
            flags: e.kind->RegularFile_flags,
            mode: e.kind->RegularFile_mode,
        },
    ));
}

/// Putting a pipe back leaves its descriptor with the read end of a pipe that holds the
/// buffered bytes, and every other descriptor as it was, whichever free descriptors the new
/// pipe gets.
pub proof fn law_pipe_is_put_back(e: FdEntryView, table: Map<i32, Referent>, n: (i32, i32))
    requires
        e.kind is Pipe,
        e.kind->Pipe_buffered_data.len() > 0,
        n.0 != n.1,
        !table.contains_key(n.0),
        !table.contains_key(n.1),
    ensures
        put_back(e, first_step(e), table, n) == table.insert(
            e.fd,
            Referent::ReadEnd { data: e.kind->Pipe_buffered_data },
        ),
{
    reveal_with_fuel(put_back, 7);
    let data = e.kind->Pipe_buffered_data;
    assert(Seq::<u8>::empty() + data =~= data);
    assert(put_back(e, first_step(e), table, n) =~= table.insert(
        e.fd,
        Referent::ReadEnd { data },
    ));
}

/// The standard streams, sockets and empty pipes are left alone, and a descriptor of which
/// nothing is known is closed.
pub proof fn law_other_descriptors(e: FdEntryView, table: Map<i32, Referent>, n: (i32, i32))
    ensures
        e.kind is Stdio || e.kind is TcpSocket || e.kind is UnixSocket ==> put_back(
            e,
            first_step(e),
            table,
            n,
        ) == table,
        e.kind is Pipe && e.kind->Pipe_buffered_data.len() == 0 ==> put_back(
            e,
            first_step(e),
            table,
            n,
        ) == table,
        e.kind is Unknown ==> put_back(e, first_step(e), table, n) == table.remove(e.fd),
{
    reveal_with_fuel(put_back, 3);
}

/// A request that fails ends putting a descriptor back, with the reason of the failure, but for
/// closing what is not needed any more: there a failure changes nothing.
pub proof fn law_failure_ends_it(e: FdEntryView, state: FdState, reason: Seq<char>)
    requires
        answers(e, state, ReplyView::Failed(reason)),
    ensures
        !(state is Closing || state is ClosingWriteEnd) ==> next_step(
            e,
            state,
            ReplyView::Failed(reason),
        ) == (StepView::Failed { fd: e.fd, reason }),
        state is Closing || state is ClosingWriteEnd ==> next_step(
            e,
            state,
            ReplyView::Failed(reason),
        ) == next_step(e, state, ReplyView::Done),
{
}

/// Nothing is reported as failed unless a request failed.
pub proof fn law_nothing_fails_by_itself(e: FdEntryView, state: FdState, reply: ReplyView)
    requires
        answers(e, state, reply),
        reply !is Failed,
    ensures
        first_step(e) !is Failed,
        next_step(e, state, reply) !is Failed,
{
}

/// A view that shows a step tells all of it: the state, and the request with its path, flags,
/// mode, offset, descriptors and bytes; or how it ended.
pub proof fn law_view_tells_the_step(step: FdStep, view: StepView)
    requires
        shows(step, view),
    ensures
        match step {
            FdStep::Act { state, action } => view is Act && view->state == state && match action {
                FdAction::Open { path, flags, mode } => view->action == (ActionView::Open {
                    path: path@,
                    flags,
                    mode,
                }),
                FdAction::Seek { fd, offset } => view->action == (ActionView::Seek { fd, offset }),
                FdAction::Duplicate { from, to } => view->action == (ActionView::Duplicate {
                    from,
                    to,
                }),
                FdAction::MakePipe => view->action == ActionView::MakePipe,
                FdAction::Write { fd, data } => view->action == (ActionView::Write {
                    fd,
                    data: data@,
                }),
                FdAction::Close { fd } => view->action == (ActionView::Close { fd }),
            },
            FdStep::Finished(Ok(())) => view is Restored,
            FdStep::Finished(Err(e)) => view is Failed && e is FdRestoreFailure
                && e->FdRestoreFailure_fd == view->fd && e->FdRestoreFailure_reason@
                == view->reason,
        },
{
}

/// The first request for a regular file is to open it by its path with exactly its flags and
/// its mode; a pipe that holds something is made anew; what is not known is closed; and nothing
/// is asked for the rest.
pub proof fn law_first_request_opens_the_file(entry: &FdEntry, r: FdStep)
    requires
        call_ensures(begin_restore, (entry,), r),
    ensures
        match entry.kind {
            FdKind::RegularFile { path, offset: _, flags, mode } => r is Act
                && r->action is Open && r->action->Open_path@ == path@ && r->action->Open_flags
                == flags && r->action->Open_mode == mode,
            FdKind::Pipe { buffered_data } => if buffered_data@.len() > 0 {
                r is Act && r->action is MakePipe
            } else {
                r is Finished && r->Finished_0 is Ok
            },
            FdKind::Unknown { .. } => r is Act && r->action is Close && r->action->Close_fd
                == entry.fd,
            _ => r is Finished && r->Finished_0 is Ok,
        },
{
    law_view_tells_the_step(r, first_step(entry@));
}

/// A file that was opened is put at the recorded offset, and a pipe that was made is given the
/// recorded bytes.
pub proof fn law_recorded_offset_and_bytes_are_used(
    entry: &FdEntry,
    state: FdState,
    reply: FdReply,
    r: FdStep,
)
    requires
        call_ensures(continue_restore, (entry, state, reply), r),
        answers(entry@, state, reply@),
    ensures
        state is Opening && reply is Opened && entry.kind->RegularFile_offset <= i64::MAX ==> {
            &&& r is Act
            &&& r->action is Seek
            &&& r->action->Seek_fd == reply->Opened_0
            &&& r->action->Seek_offset == entry.kind->RegularFile_offset
        },
        state is MakingPipe && reply is Piped ==> {
            &&& r is Act
            &&& r->action is Write
            &&& r->action->Write_fd == reply->write_fd
            &&& r->action->Write_data@ == entry.kind->Pipe_buffered_data@
        },
        reply is Failed && !(state is Closing || state is ClosingWriteEnd) ==> {
            &&& r is Finished
            &&& r->Finished_0 is Err
            &&& r->Finished_0->Err_0 is FdRestoreFailure
            &&& r->Finished_0->Err_0->FdRestoreFailure_fd == entry.fd
            &&& r->Finished_0->Err_0->FdRestoreFailure_reason@ == reply->Failed_0@
        },
{
    law_view_tells_the_step(r, next_step(entry@, state, reply@));
    if reply is Failed {
        law_failure_ends_it(entry@, state, reply->Failed_0@);
    }
}

/// A reply answers a request exactly where it is a failure or what that request brings: a
/// descriptor for a file that was to be opened, two for a pipe, and for every other that it was
/// carried out.
pub proof fn law_every_outcome_is_an_answer(e: FdEntryView, state: FdState, reply: ReplyView)
    ensures
        state is Opening && e.kind is RegularFile ==> (answers(e, state, reply) <==> reply is Opened
            || reply is Failed),
        state is MakingPipe && e.kind is Pipe ==> (answers(e, state, reply) <==> reply is Piped
            || reply is Failed),
        !(state is Opening || state is MakingPipe) ==> (answers(e, state, reply) <==> reply is Done
            || reply is Failed),
{
}

/// What a kernel replies to the request of a step answers it, so that putting a descriptor back
/// can always go on.
pub proof fn law_restore_can_go_on(
    e: FdEntryView,
    state: FdState,
    reply: ReplyView,
    table: Map<i32, Referent>,
    n: (i32, i32),
)
    requires
        answers(e, state, reply),
    ensures
        first_step(e) is Act ==> answers(
            e,
            first_step(e)->state,
            carried_out(table, first_step(e)->action, n).1,
        ),
        next_step(e, state, reply) is Act ==> answers(
            e,
            next_step(e, state, reply)->state,
            carried_out(table, next_step(e, state, reply)->action, n).1,
        ),
{
}

} // verus!
