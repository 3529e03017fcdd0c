//! What holds of capturing.

use super::{CaptureConfig, Captured};
use crate::error::FreezeError;
use crate::snapshot::format::{
    EntryView, FdEntryView, FdTable, MetadataView, ModuleTable, TableView,
};
use crate::snapshot::hash::SourceFile;
use crate::snapshot::{hash, metadata, SnapshotReader};
use crate::text;
use vstd::prelude::*;
use vstd::utf8::*;

verus! {

/// Rebasing changes nothing of an entry but where its blob stands, and there the same bytes
/// stand.
pub proof fn law_rebased_entry_has_its_blob(entries: Seq<EntryView>, blobs: Seq<u8>, i: int)
    requires
        0 <= i < entries.len(),
        super::blobs_in_range(entries, blobs.len() as int),
        super::rebased(entries, blobs).1.len() <= u64::MAX,
    ensures
        ({
            let (es, bs) = super::rebased(entries, blobs);
            &&& es.len() == entries.len()
            &&& es[i] == EntryView { blob_offset: es[i].blob_offset, ..entries[i] }
            &&& super::has_blob(es[i]) <==> super::has_blob(entries[i])
            &&& !super::has_blob(entries[i]) ==> es[i] == entries[i]
            &&& super::has_blob(entries[i]) ==> {
                &&& es[i].blob_offset->Some_0 + es[i].blob_len->Some_0 <= bs.len()
                &&& super::blob_of(es[i], bs) == super::blob_of(entries[i], blobs)
            }
        }),
    decreases entries.len(),
{
    let front = entries.drop_last();
    let last = entries.last();
    let (fs, gs) = super::rebased(front, blobs);
    let (es, bs) = super::rebased(entries, blobs);
    lemma_rebased_len(front, blobs);
    if super::has_blob(last) {
        assert(super::has_blob(entries[entries.len() - 1]));
        assert(super::blob_of(last, blobs).len() == last.blob_len->Some_0);
    }
    assert(forall|k: int| 0 <= k < front.len() ==> front[k] == entries[k]);
    if i < front.len() {
        law_rebased_entry_has_its_blob(front, blobs, i);
        assert(es[i] == fs[i]);
        if super::has_blob(entries[i]) {
            assert(super::blob_of(es[i], bs) =~= super::blob_of(fs[i], gs));
        }
    } else if super::has_blob(last) {
        assert(super::blob_of(es[i], bs) =~= super::blob_of(last, blobs));
    }
}

pub proof fn lemma_rebased_len(entries: Seq<EntryView>, blobs: Seq<u8>)
    ensures
        super::rebased(entries, blobs).0.len() == entries.len(),
    decreases entries.len(),
{
    if entries.len() > 0 {
        lemma_rebased_len(entries.drop_last(), blobs);
    }
}

/// A table that a walk gave has its blobs in range, so that it can be captured.
pub proof fn law_walked_table_can_be_captured(modules: Seq<super::graph_walker::ObservedView>)
    requires
        super::graph_walker::walked(modules).1.len() <= u64::MAX,
    ensures
        ({
            let (t, blobs) = super::graph_walker::walked(modules);
            super::blobs_in_range(t.entries, blobs.len() as int)
        }),
{
    let (t, blobs) = super::graph_walker::walked(modules);
    assert forall|i: int|
        0 <= i < t.entries.len() && super::has_blob(
            #[trigger] t.entries[i],
        ) implies t.entries[i].blob_offset->Some_0 + t.entries[i].blob_len->Some_0
        <= blobs.len() by {
        super::graph_walker::lemma_walked_len(modules);
        super::graph_walker::law_walk_records_every_module(modules, i);
    }
}

/// Rebasing looks only at the bytes that the entries point to.
proof fn lemma_rebased_extends(entries: Seq<EntryView>, blobs: Seq<u8>, more: Seq<u8>)
    requires
        super::blobs_in_range(entries, blobs.len() as int),
    ensures
        super::rebased(entries, blobs + more) == super::rebased(entries, blobs),
    decreases entries.len(),
{
    if entries.len() > 0 {
        let front = entries.drop_last();
        let last = entries.last();
        assert(forall|k: int| 0 <= k < front.len() ==> front[k] == entries[k]);
        lemma_rebased_extends(front, blobs, more);
        if super::has_blob(last) {
            assert(super::has_blob(entries[entries.len() - 1]));
            assert(super::blob_of(last, blobs + more) =~= super::blob_of(last, blobs));
        }
    }
}

/// What a walk over the modules gave is captured as it is: the entries keep their offsets,
/// and the blob section holds the blobs of the walk.
pub proof fn law_walk_is_captured_unchanged(modules: Seq<super::graph_walker::ObservedView>)
    requires
        super::graph_walker::walked(modules).1.len() <= u64::MAX,
    ensures
        ({
            let (t, blobs) = super::graph_walker::walked(modules);
            super::rebased(t.entries, blobs) == (t.entries, blobs) && super::rebased_table(t, blobs) == t
        }),
    decreases modules.len(),
{
    if modules.len() > 0 {
        let front = modules.drop_last();
        let (ft, fb) = super::graph_walker::walked(front);
        let (t, blobs) = super::graph_walker::walked(modules);
        let own = super::graph_walker::captured_blob(modules.last());
        let e = super::graph_walker::captured_entry(modules.last(), fb.len() as u64);
        law_walk_is_captured_unchanged(front);
        law_walked_table_can_be_captured(front);
        lemma_rebased_extends(ft.entries, fb, own);
        assert(t.entries.drop_last() =~= ft.entries);
        assert(t.entries.last() == e);
        if super::has_blob(e) {
            assert(super::blob_of(e, blobs) =~= own);
            assert(EntryView { blob_offset: Some(fb.len() as u64), ..e } == e);
        } else {
            assert(blobs =~= fb);
        }
        assert(t.entries =~= ft.entries.push(e));
    }
}

/// The blobs of rebased entries stand one behind the other from the start of the section:
/// each entry's blob begins where those of the entries before it end, and nothing follows the
/// last.
pub proof fn law_rebased_blobs_are_contiguous(entries: Seq<EntryView>, blobs: Seq<u8>, i: int)
    requires
        0 <= i < entries.len(),
        super::blobs_in_range(entries, blobs.len() as int),
        super::rebased(entries, blobs).1.len() <= u64::MAX,
    ensures
        super::rebased(entries, blobs).1.len() == super::blob_total(entries),
        super::has_blob(entries[i]) ==> super::rebased(entries, blobs).0[i].blob_offset == Some(
            super::blob_total(entries.take(i)) as u64,
        ) && super::blob_total(entries.take(i)) <= u64::MAX,
        super::blob_total(entries.take(i + 1)) == super::blob_total(entries.take(i)) + (
        if super::has_blob(entries[i]) {
            entries[i].blob_len->Some_0 as nat
        } else {
            0nat
        }),
    decreases entries.len(),
{
    let front = entries.drop_last();
    let last = entries.last();
    lemma_rebased_len(front, blobs);
    lemma_blob_total(front, blobs);
    lemma_blob_total(entries, blobs);
    assert(entries.take(i + 1).drop_last() =~= entries.take(i));
    assert(entries.take(i + 1).last() == entries[i]);
    assert(forall|k: int| 0 <= k < front.len() ==> front[k] == entries[k]);
    if i < front.len() {
        law_rebased_blobs_are_contiguous(front, blobs, i);
        assert(front.take(i) =~= entries.take(i));
        assert(super::rebased(entries, blobs).0[i] == super::rebased(front, blobs).0[i]);
    } else {
        assert(entries.take(i) =~= front);
    }
}

proof fn lemma_blob_total(entries: Seq<EntryView>, blobs: Seq<u8>)
    requires
        super::blobs_in_range(entries, blobs.len() as int),
    ensures
        super::rebased(entries, blobs).1.len() == super::blob_total(entries),
    decreases entries.len(),
{
    if entries.len() > 0 {
        let front = entries.drop_last();
        assert(forall|k: int| 0 <= k < front.len() ==> front[k] == entries[k]);
        lemma_blob_total(front, blobs);
        if super::has_blob(entries.last()) {
            assert(super::has_blob(entries[entries.len() - 1]));
        }
    }
}

/// Rebasing keeps the source files.
proof fn lemma_rebased_paths(entries: Seq<EntryView>, blobs: Seq<u8>)
    ensures
        super::source_paths_of(super::rebased(entries, blobs).0) == super::source_paths_of(entries),
    decreases entries.len(),
{
    if entries.len() > 0 {
        let front = entries.drop_last();
        let es = super::rebased(entries, blobs).0;
        lemma_rebased_paths(front, blobs);
        lemma_rebased_len(front, blobs);
        assert(es.drop_last() =~= super::rebased(front, blobs).0);
        assert(es.last().source_path == entries.last().source_path);
    }
}

/// A captured file can be opened, and holds the metadata, the modules and the descriptors
/// that were captured; each entry leads to the blob that it led to, and the blobs stand one
/// behind the other.
pub proof fn law_captured_file_is_read(
    meta: MetadataView,
    t: TableView,
    fds: Seq<FdEntryView>,
    blobs: Seq<u8>,
)
    requires
        super::within_limits(meta, t, fds, blobs),
        crate::snapshot::format::distinct_names(t.name_index),
        super::blobs_in_range(t.entries, blobs.len() as int),
    ensures
        super::reads_back(super::captured_image(meta, t, fds, blobs), meta, t, fds, blobs),
{
    let u = super::unplaced_header(meta);
    let rt = super::rebased_table(t, blobs);
    let rb = super::rebased(t.entries, blobs).1;
    let image = super::captured_image(meta, t, fds, blobs);
    let h = crate::snapshot::placed_header(u, rt, fds);
    let p = h.pickle_blob_offset as int;
    lemma_rebased_len(t.entries, blobs);
    lemma_rebased_paths(t.entries, blobs);
    crate::snapshot::laws::law_read_gives_back_what_was_written(u, rt, fds, rb);
    crate::snapshot::laws::lemma_image_len(u, rt, fds, rb);
    assert(image.skip(p) == rb);
    assert forall|i: int| 0 <= i < t.entries.len() implies super::entry_kept(
        image,
        h,
        #[trigger] rt.entries[i],
        t.entries[i],
        blobs,
        super::blob_total(t.entries.take(i)),
    ) by {
        law_rebased_entry_has_its_blob(t.entries, blobs, i);
        law_rebased_blobs_are_contiguous(t.entries, blobs, i);
        let e = rt.entries[i];
        if super::has_blob(e) {
            let a = e.blob_offset->Some_0 as int;
            let n = e.blob_len->Some_0 as int;
            assert(image.subrange(p + a, p + a + n) =~= image.skip(p).subrange(a, a + n));
        }
    }
}

// ─── Source files ───────────────────────────────────────────────────────────

/// The listed source files are one for each module that has one, in the order of the modules,
/// whatever else is recorded of a module.
pub proof fn law_listed_files_are_those_of_the_modules(entries: Seq<EntryView>)
    ensures
        super::source_paths_of(entries) == entries.filter(
            |e: EntryView| e.source_path is Some,
        ).map_values(|e: EntryView| e.source_path->Some_0),
    decreases entries.len(),
{
    let has_file = |e: EntryView| e.source_path is Some;
    let file = |e: EntryView| e.source_path->Some_0;
    reveal(Seq::filter);
    if entries.len() == 0 {
        assert(entries.filter(has_file).map_values(file) =~= Seq::empty());
    } else {
        let front = entries.drop_last();
        law_listed_files_are_those_of_the_modules(front);
        let kept = front.filter(has_file);
        if entries.last().source_path is Some {
            assert(kept.push(entries.last()).map_values(file) =~= kept.map_values(file).push(
                file(entries.last()),
            ));
        }
    }
}

/// The source file of every module is listed.
pub proof fn law_file_of_every_module_is_listed(entries: Seq<EntryView>, i: int, path: Seq<char>)
    requires
        0 <= i < entries.len(),
        entries[i].source_path == Some(path),
    ensures
        super::source_paths_of(entries).contains(path),
    decreases entries.len(),
{
    let front = entries.drop_last();
    let (before, all) = (super::source_paths_of(front), super::source_paths_of(entries));
    if i < front.len() {
        law_file_of_every_module_is_listed(front, i, path);
        let k = choose|k: int| 0 <= k < before.len() && before[k] == path;
        assert(all[k] == path);
    } else {
        assert(all[before.len() as int] == path);
    }
}

/// What `source_paths` gives holds the file of every module of the table, and as many files as
/// there are modules that have one.
pub proof fn law_source_paths_lists_every_file(table: &ModuleTable, r: Vec<String>)
    requires
        call_ensures(super::source_paths, (table,), r),
    ensures
        text::text_views(r@) == table@.entries.filter(
            |e: EntryView| e.source_path is Some,
        ).map_values(|e: EntryView| e.source_path->Some_0),
        forall|i: int|
            0 <= i < table.entries@.len() && (#[trigger] table.entries@[i]).source_path is Some
                ==> exists|k: int|
                0 <= k < r@.len() && (#[trigger] r@[k])@ == table.entries@[i].source_path->Some_0@,
{
    let entries = table@.entries;
    law_listed_files_are_those_of_the_modules(entries);
    assert forall|i: int|
        0 <= i < table.entries@.len() && (
        #[trigger] table.entries@[i]).source_path is Some implies exists|k: int|
        0 <= k < r@.len() && (#[trigger] r@[k])@ == table.entries@[i].source_path->Some_0@ by {
        let path = table.entries@[i].source_path->Some_0@;
        assert(entries[i].source_path == Some(path));
        law_file_of_every_module_is_listed(entries, i, path);
        let k = choose|k: int| 0 <= k < text::text_views(r@).len() && text::text_views(r@)[k] == path;
        assert(r@[k]@ == path);
    }
}

/// Files as a disk holds them.
pub open spec fn as_on_disk(
    paths: Seq<Seq<char>>,
    disk: spec_fn(Seq<char>) -> Option<Seq<u8>>,
) -> Seq<hash::SourceView> {
    paths.map_values(|p: Seq<char>| hash::SourceView { path: p, contents: disk(p) })
}

/// If the file of any module of a table changes on the disk, or disappears, or appears, what
/// is hashed from the listed files changes.
pub proof fn law_changed_file_of_an_entry_is_seen(
    entries: Seq<EntryView>,
    i: int,
    path: Seq<char>,
    then: spec_fn(Seq<char>) -> Option<Seq<u8>>,
    now: spec_fn(Seq<char>) -> Option<Seq<u8>>,
    python_version: Seq<char>,
    target_triple: Seq<char>,
)
    requires
        0 <= i < entries.len(),
        entries[i].source_path == Some(path),
        then(path) != now(path),
    ensures
        hash::preimage(
            as_on_disk(super::source_paths_of(entries), then),
            python_version,
            target_triple,
        ) != hash::preimage(
            as_on_disk(super::source_paths_of(entries), now),
            python_version,
            target_triple,
        ),
{
    let paths = super::source_paths_of(entries);
    let (a, b) = (as_on_disk(paths, then), as_on_disk(paths, now));
    law_file_of_every_module_is_listed(entries, i, path);
    let k = choose|k: int| 0 <= k < paths.len() && paths[k] == path;
    assert(hash::paths_of(a) =~= paths);
    assert(hash::paths_of(b) =~= paths);
    hash::law_changed_file_is_seen(a, b, k, python_version, target_triple);
}

/// If the file of any module that was walked changes on the disk, what is hashed from the
/// listed files changes.
pub proof fn law_changed_file_of_a_module_is_seen(
    modules: Seq<super::graph_walker::ObservedView>,
    i: int,
    path: Seq<char>,
    then: spec_fn(Seq<char>) -> Option<Seq<u8>>,
    now: spec_fn(Seq<char>) -> Option<Seq<u8>>,
    python_version: Seq<char>,
    target_triple: Seq<char>,
)
    requires
        0 <= i < modules.len(),
        modules[i].file == Some(path),
        then(path) != now(path),
        super::graph_walker::walked(modules).1.len() <= u64::MAX,
    ensures
        ({
            let paths = super::source_paths_of(super::graph_walker::walked(modules).0.entries);
            hash::preimage(as_on_disk(paths, then), python_version, target_triple)
                != hash::preimage(as_on_disk(paths, now), python_version, target_triple)
        }),
{
    super::graph_walker::law_module_is_recorded_as_it_is(modules, i);
    law_changed_file_of_an_entry_is_seen(
        super::graph_walker::walked(modules).0.entries,
        i,
        path,
        then,
        now,
        python_version,
        target_triple,
    );
}

// ─── The snapshot ───────────────────────────────────────────────────────────

/// What a capture records of the run is what it was given: the path, the framework, the version
/// and the target of the interpreter, the time of the import phase, and the digest of the
/// sources and of the interpreter without its patch level.
pub proof fn law_capture_records_what_it_was_given(
    config: &CaptureConfig,
    module_table: ModuleTable,
    pickle_blobs: &[u8],
    fd_table: FdTable,
    sources: &[SourceFile],
    python_version: &str,
    target_triple: &str,
    elapsed_ms: u64,
    r: Result<Captured, FreezeError>,
)
    requires
        call_ensures(
            super::capture,
            (
                config,
                module_table,
                pickle_blobs,
                fd_table,
                sources,
                python_version,
                target_triple,
                elapsed_ms,
            ),
            r,
        ),
        super::blobs_in_range(module_table@.entries, pickle_blobs@.len() as int),
        hash::paths_of(hash::source_views(sources@)) == super::source_paths_of(
            module_table@.entries,
        ),
    ensures
        r is Ok,
        r->Ok_0.path@ == config.snapshot_path@,
        r->Ok_0.metadata.framework@ == config.framework@,
        r->Ok_0.metadata.python_impl_version@ == python_version@,
        r->Ok_0.metadata.target_triple@ == target_triple@,
        r->Ok_0.metadata.import_phase_ms == elapsed_ms,
        r->Ok_0.metadata.source_hash@ == hash::hex_text(
            hash::sha256(
                hash::preimage(
                    hash::source_views(sources@),
                    metadata::without_patch(python_version@),
                    target_triple@,
                ),
            ),
        ),
{
}

/// A file that was captured is opened again, and holds the metadata, the descriptors, and every
/// module in its place: all that was recorded of it but where its blob stands, and there the
/// bytes that its entry led to.
///
/// The length of the header stands in 32 bits, so the framework, the version and the target must
/// leave room for the rest of it, which takes at most 174 bytes.
pub proof fn law_captured_file_holds_everything(
    config: &CaptureConfig,
    module_table: ModuleTable,
    pickle_blobs: &[u8],
    fd_table: FdTable,
    sources: &[SourceFile],
    python_version: &str,
    target_triple: &str,
    elapsed_ms: u64,
    r: Result<Captured, FreezeError>,
    image: &[u8],
    opened: Result<SnapshotReader, FreezeError>,
    i: int,
)
    requires
        call_ensures(
            super::capture,
            (
                config,
                module_table,
                pickle_blobs,
                fd_table,
                sources,
                python_version,
                target_triple,
                elapsed_ms,
            ),
            r,
        ),
        super::blobs_in_range(module_table@.entries, pickle_blobs@.len() as int),
        hash::paths_of(hash::source_views(sources@)) == super::source_paths_of(
            module_table@.entries,
        ),
        encode_utf8(config.framework@).len() + encode_utf8(python_version@).len() + encode_utf8(
            target_triple@,
        ).len() <= 0xFFFF_FFFF - 174,
        r is Ok ==> image@ == r->Ok_0.image@,
        call_ensures(SnapshotReader::open, (image,), opened),
        0 <= i < module_table@.entries.len(),
    ensures
        opened is Ok,
        opened->Ok_0.header@.metadata == r->Ok_0.metadata@,
        opened->Ok_0.fd_table@ == fd_table@,
        opened->Ok_0.module_table@.entries.len() == module_table@.entries.len(),
        opened->Ok_0.module_table@.name_index == module_table@.name_index,
        ({
            let e = opened->Ok_0.module_table@.entries[i];
            let o = module_table@.entries[i];
            let base = opened->Ok_0.header.pickle_blob_offset as int;
            &&& e.name == o.name
            &&& e.capture_strategy == o.capture_strategy
            &&& e.source_path == o.source_path
            &&& e.source_hash == o.source_hash
            &&& e.blob_len == o.blob_len
            &&& e.blob_offset is Some <==> o.blob_offset is Some
            &&& o.blob_offset is Some && o.blob_len is Some ==> {
                let (a, b) = (base + e.blob_offset->Some_0, o.blob_offset->Some_0 as int);
                let n = o.blob_len->Some_0 as int;
                a + n <= image@.len() && image@.subrange(a, a + n) == pickle_blobs@.subrange(
                    b,
                    b + n,
                )
            }
        }),
{
    let t = module_table@;
    let rt = super::rebased_table(t, pickle_blobs@);
    assert(super::entry_kept(
        image@,
        opened->Ok_0.header@,
        rt.entries[i],
        t.entries[i],
        pickle_blobs@,
        super::blob_total(t.entries.take(i)),
    ));
}

/// The identity of an interpreter spells its name and all three numbers of its version out, and
/// its target is the architecture and the operating system.
pub proof fn law_identity_is_spelled_out(
    impl_name: &str,
    major: u32,
    minor: u32,
    micro: u32,
    arch: &str,
    platform: &str,
    r: (String, String),
)
    requires
        call_ensures(
            super::get_runtime_identity,
            (impl_name, major, minor, micro, arch, platform),
            r,
        ),
    ensures
        r.0@ == impl_name@ + seq![' '] + text::decimal(major as nat) + seq!['.'] + text::decimal(
            minor as nat,
        ) + seq!['.'] + text::decimal(micro as nat),
        r.1@ == arch@ + seq!['-'] + metadata::os_of(platform@),
{
    metadata::law_version_text_tells_the_version(
        impl_name@,
        (major, minor, micro),
        (major, minor, micro),
    );
    reveal_strlit("-");
    assert("-"@ =~= seq!['-']);
}

/// The import phase is measured in whole milliseconds, rounded down; a clock that went
/// backwards gives none.
pub proof fn law_import_phase_is_measured(start_time_ns: u64, now_ns: u64, r: u64)
    requires
        call_ensures(super::elapsed_ms, (start_time_ns, now_ns), r),
    ensures
        now_ns >= start_time_ns ==> r * 1_000_000 <= now_ns - start_time_ns < (r + 1) * 1_000_000,
        now_ns < start_time_ns ==> r == 0,
{
}

} // verus!
