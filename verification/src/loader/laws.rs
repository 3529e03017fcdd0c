//! What holds of capturing and restoring together.

use super::fds::Referent;
use super::{ModuleStep, RestoreOutcome, RestoreTally};
use crate::capture::fd_capture::Classified;
use crate::capture::graph_walker::ObservedView;
use crate::capture::CaptureConfig;
use crate::error::{FreezeError, IoKind};
use crate::snapshot::format::{
    FdEntry, FdEntryView, FdKindView, FdTable, HeaderView, MetadataView, ModuleEntry,
    SnapshotMetadata, TableView,
};
use crate::snapshot::hash::SourceFile;
use crate::snapshot::{hash, metadata, SnapshotReader};
use vstd::prelude::*;

verus! {

/// Whether a reader is what opening a file gives.
pub open spec fn opened_from(reader: SnapshotReader, image: Seq<u8>) -> bool {
    &&& reader.image@ == image
    &&& crate::snapshot::read_image(image) == Ok::<
        (HeaderView, TableView, Seq<FdEntryView>),
        crate::snapshot::Fault,
    >((reader.header@, reader.module_table@, reader.fd_table@))
}

/// A snapshot is fresh as long as the files that it was taken from hold what they held, in
/// whatever order they are given, whatever the patch level of the interpreter.
pub proof fn law_unchanged_sources_are_fresh(
    meta: MetadataView,
    then: Seq<hash::SourceView>,
    now: Seq<hash::SourceView>,
    ver_then: Seq<char>,
    ver_now: Seq<char>,
    triple: Seq<char>,
)
    requires
        meta.source_hash == hash::source_hash(then, metadata::without_patch(ver_then), triple),
        metadata::without_patch(ver_then) == metadata::without_patch(ver_now),
        then.to_multiset() == now.to_multiset(),
    ensures
        super::fresh(meta, now, ver_now, triple),
{
    hash::law_order_does_not_matter(then, now, metadata::without_patch(ver_now), triple);
}

/// A snapshot passes for fresh after any of its source files has changed, one or several,
/// only where SHA-256 gives two different byte strings the same digest.
pub proof fn law_only_a_collision_hides_a_change(
    meta: MetadataView,
    then: Seq<hash::SourceView>,
    now: Seq<hash::SourceView>,
    i: int,
    ver_then: Seq<char>,
    ver_now: Seq<char>,
    triple: Seq<char>,
)
    requires
        meta.source_hash == hash::source_hash(then, metadata::without_patch(ver_then), triple),
        metadata::without_patch(ver_then) == metadata::without_patch(ver_now),
        hash::paths_of(then) == hash::paths_of(now),
        hash::one_content_per_path(then),
        hash::one_content_per_path(now),
        0 <= i < then.len(),
        then[i].contents != now[i].contents,
    ensures
        ({
            let version = metadata::without_patch(ver_now);
            let (a, b) = (
                hash::preimage(then, version, triple),
                hash::preimage(now, version, triple),
            );
            super::fresh(meta, now, ver_now, triple) ==> a != b && hash::sha256(a)
                == hash::sha256(b)
        }),
{
    let version = metadata::without_patch(ver_now);
    hash::law_changed_file_is_seen(then, now, i, version, triple);
    if super::fresh(meta, now, ver_now, triple) {
        hash::law_hex_is_injective(
            hash::sha256(hash::preimage(then, version, triple)),
            hash::sha256(hash::preimage(now, version, triple)),
        );
    }
}

/// Interpreters of another major or minor version hash other bytes, whatever the files, so that
/// a snapshot of the one never passes for fresh with the other but for a collision of SHA-256.
///
/// Neither the versions nor the targets may hold a zero character, which is what ends them.
pub proof fn law_other_minor_version_is_told_apart(
    a: Seq<hash::SourceView>,
    b: Seq<hash::SourceView>,
    ver_a: Seq<char>,
    ver_b: Seq<char>,
    triple_a: Seq<char>,
    triple_b: Seq<char>,
)
    requires
        metadata::major_minor(ver_a) != metadata::major_minor(ver_b),
        !ver_a.contains('\0'),
        !ver_b.contains('\0'),
        !triple_a.contains('\0'),
        !triple_b.contains('\0'),
    ensures
        hash::preimage(a, metadata::without_patch(ver_a), triple_a) != hash::preimage(
            b,
            metadata::without_patch(ver_b),
            triple_b,
        ),
{
    let (x, y) = (metadata::without_patch(ver_a), metadata::without_patch(ver_b));
    metadata::law_minor_version_is_kept(ver_a);
    metadata::law_minor_version_is_kept(ver_b);
    metadata::lemma_without_patch_is_a_prefix(ver_a);
    metadata::lemma_without_patch_is_a_prefix(ver_b);
    assert(!x.contains('\0')) by {
        if x.contains('\0') {
            let i = choose|i: int| 0 <= i < x.len() && x[i] == '\0';
            assert(ver_a[i] == '\0');
        }
    }
    assert(!y.contains('\0')) by {
        if y.contains('\0') {
            let i = choose|i: int| 0 <= i < y.len() && y[i] == '\0';
            assert(ver_b[i] == '\0');
        }
    }
    hash::law_runtime_is_told_apart(a, b, x, triple_a, y, triple_b);
}

/// What was captured of the modules is restored on the same machine, by an interpreter of the
/// same major and minor version, whatever its patch level, as long as the sources are what
/// they were: the snapshot fits and is fresh, no blob is missing, and for each module there is
/// one step, in their order, and an entry under the name of the module. A module whose pickle
/// was captured is unpickled from those very bytes; every other one is imported again. The files
/// to look at are those of the capture.
///
/// The interpreter must be supported.
pub proof fn law_captured_modules_are_restored(
    config: CaptureConfig,
    modules: Seq<ObservedView>,
    fds: Seq<FdEntryView>,
    sources: Seq<hash::SourceView>,
    impl_name: Seq<char>,
    version: (u32, u32),
    patch_then: u32,
    patch_now: u32,
    triple: Seq<char>,
    elapsed_ms: u64,
    captured_at: Seq<char>,
    reader: SnapshotReader,
)
    requires
        version.0 > 3 || (version.0 == 3 && version.1 >= 10),
        ({
            let then = metadata::version_text(impl_name, version.0, version.1, patch_then);
            let meta = metadata::built(
                crate::capture::capture_builder(config, sources, then, triple, elapsed_ms),
                captured_at,
            );
            let (t, blobs) = crate::capture::graph_walker::walked(modules);
            &&& crate::capture::within_limits(meta, t, fds, blobs)
            &&& blobs.len() <= u64::MAX
            &&& hash::paths_of(sources) == crate::capture::source_paths_of(t.entries)
            &&& opened_from(reader, crate::capture::captured_image(meta, t, fds, blobs))
        }),
    ensures
        ({
            let now = metadata::version_text(impl_name, version.0, version.1, patch_now);
            let meta = reader.header@.metadata;
            &&& metadata::compatible(meta, now, triple)
            &&& super::fresh(meta, sources, now, triple)
            &&& hash::paths_of(sources) == crate::capture::source_paths_of(
                reader.module_table@.entries,
            )
            &&& super::blobs_in_place(reader)
            &&& super::module_steps(reader).len() == modules.len()
            &&& reader.fd_table@ == fds
            &&& meta.python_impl_version == metadata::version_text(
                impl_name,
                version.0,
                version.1,
                patch_then,
            )
            &&& meta.target_triple == triple
            &&& meta.framework == config.framework@
            &&& meta.import_phase_ms == elapsed_ms
            &&& forall|i: int|
                0 <= i < modules.len() ==> restored_as_captured(
                    reader,
                    modules[i],
                    #[trigger] super::module_steps(reader)[i],
                )
            &&& forall|i: int|
                0 <= i < modules.len() ==> {
                    let m = modules[i];
                    let e = #[trigger] reader.module_table@.entries[i];
                    let step = super::module_steps(reader)[i];
                    let base = reader.header.pickle_blob_offset as int;
                    &&& m.name is Some ==> Some(e.name) == m.name
                    &&& m.name is None ==> e.name == "<unknown>"@
                    &&& e.source_path == m.file
                    &&& step is Unpickle <==> m.pickled is Some && m.file is Some
                        && !crate::capture::graph_walker::always_reimport(e.name)
                    &&& step is Unpickle ==> base + step->offset + step->len <= reader.image@.len()
                        && m.pickled == Some(
                        reader.image@.subrange(
                            base + step->offset,
                            base + step->offset + step->len,
                        ),
                    )
                    &&& step !is Unpickle ==> step is ReImport
                }
        }),
{
    let then = metadata::version_text(impl_name, version.0, version.1, patch_then);
    let now = metadata::version_text(impl_name, version.0, version.1, patch_now);
    let meta = metadata::built(
        crate::capture::capture_builder(config, sources, then, triple, elapsed_ms),
        captured_at,
    );
    let (t, blobs) = crate::capture::graph_walker::walked(modules);
    crate::capture::graph_walker::lemma_walked_len(modules);
    crate::capture::graph_walker::law_walked_table_coherent(modules);
    crate::capture::laws::law_walked_table_can_be_captured(modules);
    crate::capture::laws::law_captured_file_is_read(meta, t, fds, blobs);
    metadata::law_version_text_is_read(impl_name, version.0, version.1, patch_then);
    metadata::law_version_text_is_read(impl_name, version.0, version.1, patch_now);
    law_unchanged_sources_are_fresh(meta, sources, sources, then, now, triple);
    let entries = reader.module_table@.entries;
    assert forall|k: int| 0 <= k < entries.len() implies super::blob_in_place(
        reader,
        #[trigger] entries[k],
    ) by {
        crate::capture::graph_walker::law_walk_records_every_module(modules, k);
    }
    assert forall|i: int| 0 <= i < modules.len() implies restored_as_captured(
        reader,
        modules[i],
        #[trigger] super::module_steps(reader)[i],
    ) by {
        crate::capture::graph_walker::law_walk_records_every_module(modules, i);
        assert(super::module_steps(reader)[i] == super::step_of(entries[i]));
    }
    assert forall|i: int| 0 <= i < modules.len() implies {
        let m = modules[i];
        let e = #[trigger] reader.module_table@.entries[i];
        let step = super::module_steps(reader)[i];
        let base = reader.header.pickle_blob_offset as int;
        &&& m.name is Some ==> Some(e.name) == m.name
        &&& m.name is None ==> e.name == "<unknown>"@
        &&& e.source_path == m.file
        &&& step is Unpickle <==> m.pickled is Some && m.file is Some
            && !crate::capture::graph_walker::always_reimport(e.name)
        &&& step is Unpickle ==> base + step->offset + step->len <= reader.image@.len() && m.pickled
            == Some(
            reader.image@.subrange(base + step->offset, base + step->offset + step->len),
        )
        &&& step !is Unpickle ==> step is ReImport
    } by {
        crate::capture::graph_walker::law_module_is_recorded_as_it_is(modules, i);
        assert(super::module_steps(reader)[i] == super::step_of(entries[i]));
        assert(restored_as_captured(reader, modules[i], super::module_steps(reader)[i]));
    }
}

/// Whether a step restores what was captured of a module.
pub open spec fn restored_as_captured(
    reader: SnapshotReader,
    m: ObservedView,
    step: ModuleStep,
) -> bool {
    let pickled = m.pickled is Some && crate::capture::graph_walker::worth_pickling(
        crate::capture::graph_walker::recorded_name(m),
        m.file,
    );
    match step {
        ModuleStep::Unpickle { offset, len } => {
            &&& pickled
            &&& reader.holds_blob(offset, len)
            &&& m.pickled == Some(reader.blob(offset, len))
        },
        ModuleStep::ReImport => !pickled,
        ModuleStep::Skip => false,
    }
}

/// A snapshot is fresh exactly where the digest of what is hashed now is the one that it
/// records.
pub proof fn law_fresh_means_the_same_digest(
    meta: MetadataView,
    sources: Seq<hash::SourceView>,
    py_ver: Seq<char>,
    triple: Seq<char>,
)
    ensures
        super::fresh(meta, sources, py_ver, triple) <==> meta.source_hash == hash::hex_text(
            hash::sha256(hash::preimage(sources, metadata::without_patch(py_ver), triple)),
        ),
{
}

/// Once the file of any captured module has changed on the disk, or is gone, the snapshot that
/// was taken before is not fresh any more, whatever the patch level of the interpreter; only two
/// byte strings with the same SHA-256 digest could hide it.
pub proof fn law_changed_module_makes_the_snapshot_stale(
    config: CaptureConfig,
    modules: Seq<ObservedView>,
    i: int,
    path: Seq<char>,
    fds: Seq<FdEntryView>,
    then: spec_fn(Seq<char>) -> Option<Seq<u8>>,
    now: spec_fn(Seq<char>) -> Option<Seq<u8>>,
    ver_then: Seq<char>,
    ver_now: Seq<char>,
    triple: Seq<char>,
    elapsed_ms: u64,
    captured_at: Seq<char>,
    reader: SnapshotReader,
)
    requires
        0 <= i < modules.len() <= usize::MAX,
        modules[i].file == Some(path),
        then(path) != now(path),
        metadata::without_patch(ver_then) == metadata::without_patch(ver_now),
        ({
            let (t, blobs) = crate::capture::graph_walker::walked(modules);
            let paths = crate::capture::source_paths_of(t.entries);
            let meta = metadata::built(
                crate::capture::capture_builder(
                    config,
                    crate::capture::laws::as_on_disk(paths, then),
                    ver_then,
                    triple,
                    elapsed_ms,
                ),
                captured_at,
            );
            &&& blobs.len() <= u64::MAX
            &&& crate::capture::within_limits(meta, t, fds, blobs)
            &&& opened_from(reader, crate::capture::captured_image(meta, t, fds, blobs))
        }),
    ensures
        ({
            let paths = crate::capture::source_paths_of(reader.module_table@.entries);
            let version = metadata::without_patch(ver_now);
            let (a, b) = (
                hash::preimage(crate::capture::laws::as_on_disk(paths, then), version, triple),
                hash::preimage(crate::capture::laws::as_on_disk(paths, now), version, triple),
            );
            &&& a != b
            &&& super::fresh(
                reader.header@.metadata,
                crate::capture::laws::as_on_disk(paths, now),
                ver_now,
                triple,
            ) ==> hash::sha256(a) == hash::sha256(b)
        }),
{
    let (t, blobs) = crate::capture::graph_walker::walked(modules);
    let paths = crate::capture::source_paths_of(t.entries);
    let version = metadata::without_patch(ver_now);
    let sources = crate::capture::laws::as_on_disk(paths, then);
    let meta = metadata::built(
        crate::capture::capture_builder(config, sources, ver_then, triple, elapsed_ms),
        captured_at,
    );
    crate::capture::graph_walker::law_walked_table_coherent(modules);
    crate::capture::laws::law_walked_table_can_be_captured(modules);
    crate::capture::laws::law_captured_file_is_read(meta, t, fds, blobs);
    crate::capture::laws::law_changed_file_of_a_module_is_seen(
        modules,
        i,
        path,
        then,
        now,
        version,
        triple,
    );
    let (a, b) = (
        hash::preimage(sources, version, triple),
        hash::preimage(crate::capture::laws::as_on_disk(paths, now), version, triple),
    );
    if super::fresh(
        reader.header@.metadata,
        crate::capture::laws::as_on_disk(paths, now),
        ver_now,
        triple,
    ) {
        hash::law_hex_is_injective(hash::sha256(a), hash::sha256(b));
    }
}

/// A file that is open when a snapshot is taken is put back: its descriptor leads to the same
/// path, at the same offset, opened with the same flags, and every other descriptor is left as
/// it was.
pub proof fn law_open_file_comes_back(
    fd: i32,
    path: String,
    offset: i64,
    flags: i32,
    outcome: Result<FdEntry, FreezeError>,
    classified: Vec<Classified>,
    i: int,
    r: Result<FdTable, FreezeError>,
    table: Map<i32, Referent>,
    new_fd: i32,
)
    requires
        offset >= 0,
        call_ensures(
            crate::capture::fd_capture::classify_regular_file,
            (fd, Ok::<i64, String>(offset), Ok::<i32, String>(flags), Some(path)),
            outcome,
        ),
        0 <= i < classified@.len(),
        classified@[i].outcome == outcome,
        call_ensures(crate::capture::fd_capture::capture_fd_table, (classified,), r),
        !table.contains_key(new_fd),
    ensures
        super::fds::put_back(
            r->Ok_0@[i],
            super::fds::first_step(r->Ok_0@[i]),
            table,
            (new_fd, new_fd),
        ) == table.insert(fd, Referent::File { path: path@, offset, flags, mode: 0o644 }),
{
    crate::capture::fd_capture::law_open_file_is_recorded(fd, offset, flags, path, outcome);
    crate::capture::fd_capture::law_table_holds_what_was_classified(classified, r);
    let e = r->Ok_0@[i];
    assert(r->Ok_0.entries@[i] == outcome->Ok_0);
    assert(e == outcome->Ok_0@);
    assert(e.kind == (FdKindView::RegularFile {
        path: path@,
        offset: offset as u64,
        flags,
        mode: 0o644,
    }));
    super::fds::law_file_is_put_back(e, table, new_fd);
}

/// A module is unpickled from the place that its entry gives exactly where its `__dict__` was
/// pickled; it is left out exactly where it was skipped; every other one is imported again.
pub proof fn law_step_follows_the_strategy(reader: SnapshotReader, i: int)
    requires
        0 <= i < reader.module_table@.entries.len(),
    ensures
        ({
            let e = reader.module_table@.entries[i];
            let steps = super::module_steps(reader);
            &&& steps.len() == reader.module_table@.entries.len()
            &&& steps[i] is Unpickle <==> e.capture_strategy is PickledDict
            &&& steps[i] is Unpickle ==> steps[i]->offset == e.blob_offset->Some_0 && steps[i]->len
                == e.blob_len->Some_0
            &&& steps[i] is Skip <==> e.capture_strategy is Skipped
        }),
{
}

/// `restore_module` unpickles a blob only where the file holds all of it, and finds the file
/// corrupt, naming the module, where it does not.
pub proof fn law_blob_is_used_only_where_it_is(
    reader: &SnapshotReader,
    entry: &ModuleEntry,
    r: Result<ModuleStep, FreezeError>,
)
    requires
        call_ensures(super::restore_module, (reader, entry), r),
    ensures
        ({
            let held = entry.blob_offset is Some && entry.blob_len is Some
                && reader.header.pickle_blob_offset + entry.blob_offset->Some_0
                + entry.blob_len->Some_0 <= reader.image@.len();
            &&& r is Ok <==> (entry.capture_strategy is PickledDict ==> held)
            &&& r is Ok && entry.capture_strategy is PickledDict ==> r->Ok_0 is Unpickle
                && r->Ok_0->offset == entry.blob_offset->Some_0 && r->Ok_0->len
                == entry.blob_len->Some_0
            &&& r is Ok && entry.capture_strategy is Skipped ==> r->Ok_0 is Skip
            &&& r is Ok && !(entry.capture_strategy is PickledDict
                || entry.capture_strategy is Skipped) ==> r->Ok_0 is ReImport
            &&& r is Err ==> r->Err_0 is CorruptSnapshot && r->Err_0->CorruptSnapshot_reason@
                == "pickle blob of module '"@ + entry.name@ + "' out of bounds"@
        }),
{
    let s = entry.capture_strategy;
    assert(entry@.capture_strategy == s@);
    match s {
        crate::snapshot::format::CaptureStrategy::PickledDict => {},
        crate::snapshot::format::CaptureStrategy::Skipped { .. } => {},
        _ => {},
    }
}

/// `restore` gives steps exactly where the snapshot fits the interpreter, its digest is that of
/// the sources as they are, and no blob is missing; there is one step for each module, in their
/// order.
pub proof fn law_restore_needs_a_fresh_snapshot(
    reader: &SnapshotReader,
    py_ver: &str,
    triple: &str,
    sources: &[SourceFile],
    r: Result<Option<Vec<ModuleStep>>, FreezeError>,
)
    requires
        call_ensures(super::restore, (reader, py_ver, triple, sources), r),
        hash::paths_of(hash::source_views(sources@)) == crate::capture::source_paths_of(
            reader.module_table@.entries,
        ),
    ensures
        ({
            let meta = reader.header@.metadata;
            let digest = hash::hex_text(
                hash::sha256(
                    hash::preimage(
                        hash::source_views(sources@),
                        metadata::without_patch(py_ver@),
                        triple@,
                    ),
                ),
            );
            &&& r is Ok ==> metadata::compatible(meta, py_ver@, triple@)
            &&& r is Ok && r->Ok_0 is Some ==> meta.source_hash == digest
            &&& r is Ok && r->Ok_0 is None ==> meta.source_hash != digest
            &&& metadata::compatible(meta, py_ver@, triple@) && meta.source_hash != digest ==> r
                is Ok && r->Ok_0 is None
            &&& r is Ok && r->Ok_0 is Some ==> r->Ok_0->Some_0@.len()
                == reader.module_table@.entries.len()
            &&& r is Ok && r->Ok_0 is Some ==> forall|i: int|
                #![trigger r->Ok_0->Some_0@[i]]
                0 <= i < reader.module_table@.entries.len() ==> {
                    let step = r->Ok_0->Some_0@[i];
                    let e = reader.module_table@.entries[i];
                    &&& step is Unpickle <==> e.capture_strategy is PickledDict
                    &&& step is Unpickle ==> Some(step->offset) == e.blob_offset && Some(step->len)
                        == e.blob_len && reader.header.pickle_blob_offset + step->offset + step->len
                        <= reader.image@.len()
                    &&& step is Skip <==> e.capture_strategy is Skipped
                }
            &&& r is Err && r->Err_0 is CorruptSnapshot ==> exists|i: int|
                0 <= i < reader.module_table@.entries.len() && {
                    let e = #[trigger] reader.module_table@.entries[i];
                    &&& e.capture_strategy is PickledDict
                    &&& !(e.blob_offset is Some && e.blob_len is Some
                        && reader.header.pickle_blob_offset + e.blob_offset->Some_0
                        + e.blob_len->Some_0 <= reader.image@.len())
                    &&& r->Err_0->CorruptSnapshot_reason@ == "pickle blob of module '"@ + e.name
                        + "' out of bounds"@
                }
        }),
{
    let meta = reader.header@.metadata;
    law_fresh_means_the_same_digest(meta, hash::source_views(sources@), py_ver@, triple@);
    if r is Ok && r->Ok_0 is Some {
        assert forall|i: int|
            #![trigger r->Ok_0->Some_0@[i]]
            0 <= i < reader.module_table@.entries.len() implies {
            let step = r->Ok_0->Some_0@[i];
            let e = reader.module_table@.entries[i];
            &&& step is Unpickle <==> e.capture_strategy is PickledDict
            &&& step is Unpickle ==> Some(step->offset) == e.blob_offset && Some(step->len)
                == e.blob_len && reader.header.pickle_blob_offset + step->offset + step->len
                <= reader.image@.len()
            &&& step is Skip <==> e.capture_strategy is Skipped
        } by {
            law_step_follows_the_strategy(*reader, i);
            assert(super::blob_in_place(*reader, reader.module_table@.entries[i]));
        }
    }
}

/// A snapshot that does not exist is no error: there is nothing to restore. Every other failure
/// is handed on as it is.
pub proof fn law_only_a_missing_file_is_no_error(e: FreezeError, r: Result<bool, FreezeError>)
    requires
        call_ensures(super::opening_failed, (e,), r),
    ensures
        r is Ok <==> e is Io && e->Io_0.kind == IoKind::NotFound,
        r is Ok ==> !r->Ok_0,
        r is Err ==> r->Err_0 == e,
{
}

/// Each outcome is counted once: the tally gives, for each of the three, the number of modules
/// that it became.
pub proof fn law_tally_counts_each_outcome(outcomes: &[RestoreOutcome], r: RestoreTally)
    requires
        call_ensures(super::tally, (outcomes,), r),
    ensures
        r.restored == outcomes@.filter(|o: RestoreOutcome| o is Restored).len(),
        r.reimported == outcomes@.filter(|o: RestoreOutcome| o is ReImported).len(),
        r.skipped == outcomes@.filter(|o: RestoreOutcome| o is Skipped).len(),
        r.restored + r.reimported + r.skipped == outcomes@.len(),
{
    lemma_occurrences(outcomes@);
}

proof fn lemma_occurrences(s: Seq<RestoreOutcome>)
    ensures
        super::occurrences(s, RestoreOutcome::Restored) == s.filter(
            |o: RestoreOutcome| o is Restored,
        ).len(),
        super::occurrences(s, RestoreOutcome::ReImported) == s.filter(
            |o: RestoreOutcome| o is ReImported,
        ).len(),
        super::occurrences(s, RestoreOutcome::Skipped) == s.filter(
            |o: RestoreOutcome| o is Skipped,
        ).len(),
    decreases s.len(),
{
    reveal(Seq::filter);
    if s.len() > 0 {
        lemma_occurrences(s.drop_last());
    }
}

/// A module counts as restored exactly where it was unpickled and that worked, as skipped
/// exactly where it was left out, and otherwise as imported again; and it is imported again
/// exactly where its step failed.
pub proof fn law_outcome_tells_what_was_done(
    step: ModuleStep,
    worked: bool,
    r: RestoreOutcome,
    next: Option<ModuleStep>,
)
    requires
        call_ensures(super::outcome, (step, worked), r),
        call_ensures(super::fallback, (worked,), next),
    ensures
        r is Restored <==> step is Unpickle && worked,
        r is Skipped <==> step is Skip,
        next is Some <==> !worked,
        next is Some ==> next->Some_0 is ReImport,
{
}

/// `check_snapshot` finds an error exactly where the snapshot does not fit the interpreter, and
/// otherwise says whether the digest that it records is that of the sources as they are.
pub proof fn law_stale_snapshot_is_no_error(
    meta: &SnapshotMetadata,
    py_ver: &str,
    triple: &str,
    sources: &[SourceFile],
    r: Result<bool, FreezeError>,
)
    requires
        call_ensures(super::check_snapshot, (meta, py_ver, triple, sources), r),
    ensures
        r is Ok <==> metadata::compatible(meta@, py_ver@, triple@),
        r is Ok ==> r->Ok_0 == (meta.source_hash@ == hash::hex_text(
            hash::sha256(
                hash::preimage(
                    hash::source_views(sources@),
                    metadata::without_patch(py_ver@),
                    triple@,
                ),
            ),
        )),
{
    law_fresh_means_the_same_digest(meta@, hash::source_views(sources@), py_ver@, triple@);
}

/// A pipe that is drained when a snapshot is taken is put back with the bytes that it gave.
pub proof fn law_drained_pipe_comes_back(
    fd: i32,
    data: Vec<u8>,
    entry: FdEntry,
    classified: Vec<Classified>,
    i: int,
    r: Result<FdTable, FreezeError>,
    table: Map<i32, Referent>,
    n: (i32, i32),
)
    requires
        data@.len() > 0,
        call_ensures(crate::capture::fd_capture::drained_pipe, (fd, data), entry),
        0 <= i < classified@.len(),
        classified@[i].outcome == Ok::<FdEntry, FreezeError>(entry),
        call_ensures(crate::capture::fd_capture::capture_fd_table, (classified,), r),
        n.0 != n.1,
        !table.contains_key(n.0),
        !table.contains_key(n.1),
    ensures
        super::fds::put_back(r->Ok_0@[i], super::fds::first_step(r->Ok_0@[i]), table, n)
            == table.insert(fd, Referent::ReadEnd { data: data@ }),
{
    crate::capture::fd_capture::law_drained_pipe_holds_its_bytes(fd, data, entry);
    crate::capture::fd_capture::law_table_holds_what_was_classified(classified, r);
    let e = r->Ok_0@[i];
    assert(e == r->Ok_0.entries@[i]@);
    assert(e.kind == entry.kind@);
    assert(e.kind == (FdKindView::Pipe { buffered_data: data@ }));
    super::fds::law_pipe_is_put_back(e, table, n);
}

/// What opening a file gives is opened from that file.
pub proof fn law_reader_is_opened_from_its_file(
    image: &[u8],
    r: Result<SnapshotReader, FreezeError>,
)
    requires
        call_ensures(SnapshotReader::open, (image,), r),
        r is Ok,
    ensures
        opened_from(r->Ok_0, image@),
{
}

} // verus!
