//! Deciding what is restored from a snapshot.
//!
//! A snapshot is restored when it fits the interpreter and its sources have not changed. A
//! module that was pickled is unpickled into a new module object, one that was skipped stays
//! out, and every other one is imported again. Then the file descriptors are put back.

pub mod fds;
pub mod laws;

use crate::error::{FreezeError, IoKind};
use crate::snapshot::format::{CaptureStrategy, EntryView, MetadataView, ModuleEntry, StrategyView};
use crate::snapshot::hash::{verify_snapshot_hash, SourceFile};
use crate::snapshot::metadata::{strip_patch, validate_runtime_compatibility};
use crate::snapshot::{hash, metadata, SnapshotReader};
use vstd::prelude::*;
use vstd::string::*;

verus! {

// ─── Whether to restore ─────────────────────────────────────────────────────

/// What it means that a snapshot could not be opened: one that does not exist is not an
/// error, there is just nothing to restore.
pub fn opening_failed(e: FreezeError) -> (r: Result<bool, FreezeError>)
    ensures
        match e {
            FreezeError::Io(f) if f.kind == IoKind::NotFound => r == Ok::<bool, FreezeError>(
                false,
            ),
            _ => r == Err::<bool, FreezeError>(e),
        },
{
    match e {
        FreezeError::Io(f) => if f.kind == IoKind::NotFound {
            Ok(false)
        } else {
            Err(FreezeError::Io(f))
        },
        other => Err(other),
    }
}

/// Whether the sources of a snapshot are those that it was taken from, by an interpreter that
/// differs in the patch level at most.
pub open spec fn fresh(
    meta: MetadataView,
    sources: Seq<hash::SourceView>,
    py_ver: Seq<char>,
    triple: Seq<char>,
) -> bool {
    meta.source_hash == hash::source_hash(sources, metadata::without_patch(py_ver), triple)
}

/// Checks a snapshot against the interpreter and the current sources. One that does not fit
/// the interpreter is an error; one that is stale is not to be restored.
pub fn check_snapshot(
    meta: &crate::snapshot::format::SnapshotMetadata,
    py_ver: &str,
    triple: &str,
    sources: &[SourceFile],
) -> (r: Result<bool, FreezeError>)
    ensures
        match r {
            Ok(b) => metadata::compatible(meta@, py_ver@, triple@) && b == fresh(
                meta@,
                hash::source_views(sources@),
                py_ver@,
                triple@,
            ),
            Err(e) => !metadata::compatible(meta@, py_ver@, triple@) && metadata::incompatibility(
                e,
                meta@,
                py_ver@,
                triple@,
            ),
        },
{
    // Runtime compatibility.
    if let Err(e) = validate_runtime_compatibility(meta, py_ver, triple) {
        return Err(e);
    }

    // Staleness.
    let version = strip_patch(py_ver);
    match verify_snapshot_hash(meta.source_hash.as_str(), sources, version.as_str(), triple) {
        Ok(()) => Ok(true),
        Err(FreezeError::StaleSnapshot { expected: _, actual: _ }) => Ok(false),
        Err(e) => Err(e),
    }
}

// ─── Modules ────────────────────────────────────────────────────────────────

/// How a module is restored.
#[derive(Debug, Clone, Copy, PartialEq, Eq, Structural)]
pub enum ModuleStep {
    /// Unpickle the blob at this place into a new module object.
    Unpickle { offset: u64, len: u64 },
    /// Import it again.
    ReImport,
    /// Leave it out.
    Skip,
}

/// How the module of an entry is restored.
pub open spec fn step_of(e: EntryView) -> ModuleStep {
    match e.capture_strategy {
        StrategyView::PickledDict => ModuleStep::Unpickle {
            offset: e.blob_offset->Some_0,
            len: e.blob_len->Some_0,
        },
        StrategyView::Skipped { .. } => ModuleStep::Skip,
        _ => ModuleStep::ReImport,
    }
}

/// Whether an entry that was pickled has its blob in the file.
pub open spec fn blob_in_place(reader: SnapshotReader, e: EntryView) -> bool {
    e.capture_strategy is PickledDict ==> {
        &&& e.blob_offset is Some
        &&& e.blob_len is Some
        &&& reader.holds_blob(e.blob_offset->Some_0, e.blob_len->Some_0)
    }
}

/// The reason given where a blob is not in the file.
pub open spec fn lost_blob_reason(name: Seq<char>) -> Seq<char> {
    "pickle blob of module '"@ + name + "' out of bounds"@
}

/// Decides how a module is restored. A pickled module whose blob is not in the file shows
/// that the file is corrupt.
pub fn restore_module(reader: &SnapshotReader, entry: &ModuleEntry) -> (r: Result<
    ModuleStep,
    FreezeError,
>)
    ensures
        match r {
            Ok(step) => blob_in_place(*reader, entry@) && step == step_of(entry@),
            Err(FreezeError::CorruptSnapshot { reason }) => !blob_in_place(*reader, entry@)
                && reason@ == lost_blob_reason(entry.name@),
            Err(_) => false,
        },
{
    match &entry.capture_strategy {
        CaptureStrategy::PickledDict => {
            if let (Some(offset), Some(len)) = (entry.blob_offset, entry.blob_len) {
                if reader.has_blob(offset, len) {
                    return Ok(ModuleStep::Unpickle { offset, len });
                }
            }
            let mut reason = "pickle blob of module '".to_owned();
            reason.append(entry.name.as_str());
            reason.append("' out of bounds");
            Err(FreezeError::CorruptSnapshot { reason })
        },
        CaptureStrategy::ReImport => Ok(ModuleStep::ReImport),
        // Neither plugins nor whole module objects are restored yet.
        CaptureStrategy::Plugin { plugin_id: _ } => Ok(ModuleStep::ReImport),
        CaptureStrategy::PickledObject => Ok(ModuleStep::ReImport),
        CaptureStrategy::Skipped { reason: _ } => Ok(ModuleStep::Skip),
    }
}

/// Whether every pickled module of a snapshot has its blob in the file.
pub open spec fn blobs_in_place(reader: SnapshotReader) -> bool {
    forall|i: int|
        0 <= i < reader.module_table@.entries.len() ==> blob_in_place(
            reader,
            #[trigger] reader.module_table@.entries[i],
        )
}

/// How the modules of a snapshot are restored, one step for each, in their order.
pub open spec fn module_steps(reader: SnapshotReader) -> Seq<ModuleStep> {
    reader.module_table@.entries.map_values(|e: EntryView| step_of(e))
}

/// Decides what is restored into the interpreter of version `py_ver` on `triple`, where the
/// source files of the snapshot are `sources` now.
///
/// Nothing, where the snapshot is stale; an error, where it does not fit the interpreter or
/// is corrupt.
pub fn restore(
    reader: &SnapshotReader,
    py_ver: &str,
    triple: &str,
    sources: &[SourceFile],
) -> (r: Result<Option<Vec<ModuleStep>>, FreezeError>)
    requires
        hash::paths_of(hash::source_views(sources@)) == crate::capture::source_paths_of(
            reader.module_table@.entries,
        ),
    ensures
        ({
            let meta = reader.header@.metadata;
            let unchanged = fresh(meta, hash::source_views(sources@), py_ver@, triple@);
            match r {
                Ok(Some(steps)) => {
                    &&& metadata::compatible(meta, py_ver@, triple@)
                    &&& unchanged
                    &&& blobs_in_place(*reader)
                    &&& steps@ == module_steps(*reader)
                },
                Ok(None) => metadata::compatible(meta, py_ver@, triple@) && !unchanged,
                Err(FreezeError::CorruptSnapshot { reason }) => {
                    &&& metadata::compatible(meta, py_ver@, triple@)
                    &&& unchanged
                    &&& exists|i: int|
                        {
                            &&& first_lost_blob(*reader, i)
                            &&& reason@ == lost_blob_reason(
                                #[trigger] reader.module_table@.entries[i].name,
                            )
                        }
                },
                Err(e) => {
                    &&& !metadata::compatible(meta, py_ver@, triple@)
                    &&& metadata::incompatibility(e, meta, py_ver@, triple@)
                },
            }
        }),
{
    match check_snapshot(&reader.header.metadata, py_ver, triple, sources) {
        Ok(true) => {},
        Ok(false) => return Ok(None),
        Err(e) => return Err(e),
    }
    let ghost entries = reader.module_table@.entries;
    let mut steps: Vec<ModuleStep> = Vec::new();
    let mut i: usize = 0;
    while i < reader.module_table.entries.len()
        invariant
            i <= reader.module_table.entries@.len(),
            entries == reader.module_table@.entries,
            metadata::compatible(reader.header@.metadata, py_ver@, triple@),
            fresh(reader.header@.metadata, hash::source_views(sources@), py_ver@, triple@),
            steps@.len() == i,
            forall|k: int| 0 <= k < i ==> blob_in_place(*reader, #[trigger] entries[k]),
            forall|k: int| 0 <= k < i ==> #[trigger] steps@[k] == step_of(entries[k]),
        decreases reader.module_table.entries@.len() - i,
    {
        let entry = &reader.module_table.entries[i];
        assert(entries[i as int] == entry@);
        match restore_module(reader, entry) {
            Ok(step) => steps.push(step),
            Err(e) => {
                assert(first_lost_blob(*reader, i as int));
                assert(reader.module_table@.entries[i as int].name == entry.name@);
                return Err(e);
            },
        }
        i += 1;
    }
    assert(steps@ =~= module_steps(*reader));
    Ok(Some(steps))
}

/// Whether the `i`-th entry is the first one whose blob is not in the file.
pub open spec fn first_lost_blob(reader: SnapshotReader, i: int) -> bool {
    let entries = reader.module_table@.entries;
    &&& 0 <= i < entries.len()
    &&& !blob_in_place(reader, entries[i])
    &&& forall|k: int| 0 <= k < i ==> blob_in_place(reader, #[trigger] entries[k])
}

// ─── What came of it ────────────────────────────────────────────────────────

/// What became of a module.
#[derive(Debug, Clone, Copy, PartialEq, Eq, Structural)]
pub enum RestoreOutcome {
    Restored,
    ReImported,
    Skipped,
}

/// What became of a module whose step worked or failed. One that could not be restored is
/// imported again.
pub open spec fn outcome_of(step: ModuleStep, worked: bool) -> RestoreOutcome {
    match step {
        ModuleStep::Unpickle { .. } => if worked {
            RestoreOutcome::Restored
        } else {
            RestoreOutcome::ReImported
        },
        ModuleStep::ReImport => RestoreOutcome::ReImported,
        ModuleStep::Skip => RestoreOutcome::Skipped,
    }
}

/// What became of a module whose step worked or failed.
pub fn outcome(step: ModuleStep, worked: bool) -> (r: RestoreOutcome)
    ensures
        r == outcome_of(step, worked),
{
    match step {
        ModuleStep::Unpickle { .. } => if worked {
            RestoreOutcome::Restored
        } else {
            RestoreOutcome::ReImported
        },
        ModuleStep::ReImport => RestoreOutcome::ReImported,
        ModuleStep::Skip => RestoreOutcome::Skipped,
    }
}

/// What is done for a module after a step that worked or failed: nothing more where it
/// worked, and importing it again where it failed.
pub fn fallback(worked: bool) -> (r: Option<ModuleStep>)
    ensures
        r == if worked {
            None::<ModuleStep>
        } else {
            Some(ModuleStep::ReImport)
        },
{
    if worked {
        None
    } else {
        Some(ModuleStep::ReImport)
    }
}

/// How many modules were restored, imported again and skipped.
#[derive(Debug, Clone, Copy, PartialEq, Eq, Structural)]
pub struct RestoreTally {
    pub restored: usize,
    pub reimported: usize,
    pub skipped: usize,
}

/// How often an outcome occurs in a list.
pub open spec fn occurrences(outcomes: Seq<RestoreOutcome>, o: RestoreOutcome) -> nat
    decreases outcomes.len(),
{
    if outcomes.len() == 0 {
        0
    } else {
        occurrences(outcomes.drop_last(), o) + if outcomes.last() == o {
            1nat
        } else {
            0nat
        }
    }
}

/// Counts what became of the modules.
pub fn tally(outcomes: &[RestoreOutcome]) -> (r: RestoreTally)
    ensures
        r.restored == occurrences(outcomes@, RestoreOutcome::Restored),
        r.reimported == occurrences(outcomes@, RestoreOutcome::ReImported),
        r.skipped == occurrences(outcomes@, RestoreOutcome::Skipped),
        r.restored + r.reimported + r.skipped == outcomes@.len(),
{
    let mut r = RestoreTally { restored: 0, reimported: 0, skipped: 0 };
    let mut i: usize = 0;
    assert(outcomes@.take(0) =~= Seq::empty());
    while i < outcomes.len()
        invariant
            i <= outcomes@.len(),
            r.restored == occurrences(outcomes@.take(i as int), RestoreOutcome::Restored),
            r.reimported == occurrences(outcomes@.take(i as int), RestoreOutcome::ReImported),
            r.skipped == occurrences(outcomes@.take(i as int), RestoreOutcome::Skipped),
            r.restored + r.reimported + r.skipped == i,
        decreases outcomes@.len() - i,
    {
        assert(outcomes@.take(i + 1).drop_last() =~= outcomes@.take(i as int));
        match outcomes[i] {
            RestoreOutcome::Restored => r.restored += 1,
            RestoreOutcome::ReImported => r.reimported += 1,
            RestoreOutcome::Skipped => r.skipped += 1,
        }
        i += 1;
    }
    assert(outcomes@.take(i as int) =~= outcomes@);
    r
}

} // verus!
