//! Assembling a snapshot: the module graph, the file descriptors and the metadata.

pub mod fd_capture;
pub mod graph_walker;
pub mod laws;

use crate::error::FreezeError;
use crate::snapshot::format::{
    EntryView, FdEntryView, FdTable, HeaderView, MetadataView, ModuleTable,
    SnapshotHeader, SnapshotMetadata, TableView,
};
use crate::snapshot::hash::{compute_source_hash, SourceFile};
use crate::snapshot::metadata::{BuilderView, MetadataBuilder};
use crate::snapshot::{codec, hash, metadata, SnapshotWriter};
use crate::text;
use vstd::prelude::*;
use vstd::slice::slice_subrange;
use vstd::string::*;
use vstd::utf8::*;

verus! {

// ─── CaptureConfig ──────────────────────────────────────────────────────────

/// Where a snapshot goes, and for which framework it is taken.
#[derive(Debug)]
pub struct CaptureConfig {
    /// Where to write the snapshot file.
    pub snapshot_path: String,
    /// "django", "flask" or "generic".
    pub framework: String,
}

impl CaptureConfig {
    pub fn new(snapshot_path: String, framework: String) -> (r: CaptureConfig)
        ensures
            r.snapshot_path == snapshot_path,
            r.framework == framework,
    {
        CaptureConfig { snapshot_path, framework }
    }
}

// ─── Source files ───────────────────────────────────────────────────────────

/// The source files of a list of modules, in the order of the modules.
pub open spec fn source_paths_of(entries: Seq<EntryView>) -> Seq<Seq<char>>
    decreases entries.len(),
{
    if entries.len() == 0 {
        Seq::empty()
    } else {
        let before = source_paths_of(entries.drop_last());
        match entries.last().source_path {
            Some(path) => before.push(path),
            None => before,
        }
    }
}

/// The source files of the modules of a table: what the source hash covers.
pub fn source_paths(table: &ModuleTable) -> (r: Vec<String>)
    ensures
        text::text_views(r@) == source_paths_of(table@.entries),
{
    let ghost entries = table@.entries;
    let mut out: Vec<String> = Vec::new();
    let mut i: usize = 0;
    assert(entries.take(0) =~= Seq::empty());
    assert(text::text_views(out@) =~= Seq::empty());
    while i < table.entries.len()
        invariant
            i <= table.entries@.len(),
            entries == table@.entries,
            text::text_views(out@) == source_paths_of(entries.take(i as int)),
        decreases table.entries@.len() - i,
    {
        let ghost before = out@;
        let entry = &table.entries[i];
        proof {
            assert(entries.take(i + 1).drop_last() =~= entries.take(i as int));
            assert(entries.take(i + 1).last() == entry@);
        }
        if let Some(path) = &entry.source_path {
            out.push(path.clone());
            assert(text::text_views(out@) =~= text::text_views(before).push(path@));
        }
        i += 1;
    }
    assert(entries.take(i as int) =~= entries);
    out
}

// ─── Runtime identity ───────────────────────────────────────────────────────

/// The version text and the target of an interpreter: "cpython 3.12.3" and "x86_64-linux".
/// The platform is given as `sys.platform` names it.
pub fn get_runtime_identity(
    impl_name: &str,
    major: u32,
    minor: u32,
    micro: u32,
    arch: &str,
    platform: &str,
) -> (r: (String, String))
    ensures
        r.0@ == metadata::version_text(impl_name@, major, minor, micro),
        r.1@ == metadata::triple_of(arch@, metadata::os_of(platform@)),
{
    let mut version = impl_name.to_owned();
    version.append(" ");
    text::append_decimal(&mut version, major as u64);
    version.append(".");
    text::append_decimal(&mut version, minor as u64);
    version.append(".");
    text::append_decimal(&mut version, micro as u64);
    let os = metadata::os_name(platform);
    (version, metadata::current_target_triple(arch, os.as_str()))
}

// ─── Blobs ──────────────────────────────────────────────────────────────────

/// Whether an entry points to a blob.
pub open spec fn has_blob(e: EntryView) -> bool {
    e.blob_offset is Some && e.blob_len is Some
}

/// Whether the blobs that the entries point to lie in a section of length `len`.
pub open spec fn blobs_in_range(entries: Seq<EntryView>, len: int) -> bool {
    forall|i: int|
        0 <= i < entries.len() && has_blob(#[trigger] entries[i]) ==> entries[i].blob_offset->Some_0
            + entries[i].blob_len->Some_0 <= len
}

/// The bytes that an entry points to.
pub open spec fn blob_of(e: EntryView, blobs: Seq<u8>) -> Seq<u8> {
    let start = e.blob_offset->Some_0 as int;
    blobs.subrange(start, start + e.blob_len->Some_0)
}

/// The entries and blobs after the blob of each entry, in the order of the entries, was
/// appended to a section that was empty.
pub open spec fn rebased(entries: Seq<EntryView>, blobs: Seq<u8>) -> (Seq<EntryView>, Seq<u8>)
    decreases entries.len(),
{
    if entries.len() == 0 {
        (Seq::empty(), Seq::empty())
    } else {
        let (es, bs) = rebased(entries.drop_last(), blobs);
        let e = entries.last();
        if has_blob(e) {
            (
                es.push(EntryView { blob_offset: Some(bs.len() as u64), ..e }),
                bs + blob_of(e, blobs),
            )
        } else {
            (es.push(e), bs)
        }
    }
}

/// The table whose entries are rebased.
pub open spec fn rebased_table(t: TableView, blobs: Seq<u8>) -> TableView {
    TableView { entries: rebased(t.entries, blobs).0, name_index: t.name_index }
}

/// Appends the blob of each entry to the blob section of `writer`, and points the entry to
/// where it stands there.
fn rebase_blobs(writer: &mut SnapshotWriter, table: &mut ModuleTable, pickle_blobs: &[u8])
    requires
        old(writer)@.pickle_blobs.len() == 0,
        blobs_in_range(old(table)@.entries, pickle_blobs@.len() as int),
    ensures
        final(table)@ == rebased_table(old(table)@, pickle_blobs@),
        final(writer)@ == (crate::snapshot::WriterView {
            pickle_blobs: rebased(old(table)@.entries, pickle_blobs@).1,
            ..old(writer)@
        }),
{
    let ghost entries = table@.entries;
    let ghost blobs = pickle_blobs@;
    let ghost index = table.name_index;
    let ghost start = writer@;
    let total: usize = pickle_blobs.len();
    let n: usize = table.entries.len();
    let mut i: usize = 0;
    assert(entries.take(0) =~= Seq::empty());
    assert(entries.skip(0) =~= entries);
    assert(writer@.pickle_blobs =~= Seq::empty());
    assert(table@.entries =~= rebased(entries.take(0), blobs).0 + entries.skip(0));
    while i < n
        invariant
            i <= n,
            n == entries.len(),
            n == table.entries@.len(),
            total == pickle_blobs@.len(),
            blobs == pickle_blobs@,
            blobs_in_range(entries, total as int),
            rebased(entries.take(i as int), blobs).0.len() == i,
            table@.entries == rebased(entries.take(i as int), blobs).0 + entries.skip(i as int),
            table.name_index == index,
            writer@ == (crate::snapshot::WriterView {
                pickle_blobs: rebased(entries.take(i as int), blobs).1,
                ..start
            }),
        decreases n - i,
    {
        let ghost done = rebased(entries.take(i as int), blobs).0;
        let ghost before = table.entries@;
        proof {
            assert(entries.take(i + 1).drop_last() =~= entries.take(i as int));
            assert(entries.take(i + 1).last() == entries[i as int]);
            assert(table@.entries[i as int] == entries[i as int]);
            assert(before[i as int]@ == entries[i as int]);
        }
        let (offset, len) = (table.entries[i].blob_offset, table.entries[i].blob_len);
        if let (Some(old_off), Some(len)) = (offset, len) {
            assert(has_blob(entries[i as int]));
            let from = old_off as usize;
            let to: usize = from + len as usize;
            let (new_off, _) = writer.add_pickle_blob(slice_subrange(pickle_blobs, from, to));
            table.entries[i].blob_offset = Some(new_off);
            assert(table.entries@[i as int]@ == (EntryView {
                blob_offset: Some(new_off),
                ..entries[i as int]
            }));
        }
        proof {
            assert forall|k: int| 0 <= k < n implies table@.entries[k] == (rebased(
                entries.take(i + 1),
                blobs,
            ).0 + entries.skip(i + 1))[k] by {
                if k != i {
                    assert(table.entries@[k] == before[k]);
                    assert(before[k]@ == (done + entries.skip(i as int))[k]);
                }
            }
            assert(table@.entries =~= rebased(entries.take(i + 1), blobs).0 + entries.skip(i + 1));
        }
        i += 1;
    }
    assert(entries.take(i as int) =~= entries);
    assert(table@.entries =~= rebased(entries, blobs).0);
}

// ─── capture() ──────────────────────────────────────────────────────────────

/// A header whose offsets are not known yet.
pub open spec fn unplaced_header(meta: MetadataView) -> HeaderView {
    HeaderView {
        metadata: meta,
        module_table_offset: 0,
        fd_table_offset: 0,
        pickle_blob_offset: 0,
    }
}

/// The file of a snapshot with this metadata, these modules, descriptors and blobs.
pub open spec fn captured_image(
    meta: MetadataView,
    t: TableView,
    fds: Seq<FdEntryView>,
    blobs: Seq<u8>,
) -> Seq<u8> {
    crate::snapshot::snapshot_image(
        unplaced_header(meta),
        rebased_table(t, blobs),
        fds,
        rebased(t.entries, blobs).1,
    )
}

/// Whether a file of these parts is within the limits of the format and of the machine: the
/// length of the header fits into 32 bits, everything else into memory.
pub open spec fn within_limits(
    meta: MetadataView,
    t: TableView,
    fds: Seq<FdEntryView>,
    blobs: Seq<u8>,
) -> bool {
    &&& codec::header_bytes(unplaced_header(meta)).len() <= u32::MAX
    &&& t.entries.len() <= usize::MAX
    &&& t.name_index.len() <= usize::MAX
    &&& fds.len() <= usize::MAX
    &&& captured_image(meta, t, fds, blobs).len() <= usize::MAX
}

/// The bytes of the blobs that a list of entries points to.
pub open spec fn blob_total(entries: Seq<EntryView>) -> nat
    decreases entries.len(),
{
    if entries.len() == 0 {
        0
    } else {
        blob_total(entries.drop_last()) + if has_blob(entries.last()) {
            entries.last().blob_len->Some_0 as nat
        } else {
            0nat
        }
    }
}

/// Whether an entry `e` of a file is the entry `o` that was captured: nothing of it changed
/// but where its blob stands, behind `before` bytes of other blobs, and there the same bytes
/// stand.
pub open spec fn entry_kept(
    image: Seq<u8>,
    h: HeaderView,
    e: EntryView,
    o: EntryView,
    blobs: Seq<u8>,
    before: nat,
) -> bool {
    let start = h.pickle_blob_offset + e.blob_offset->Some_0;
    &&& e == EntryView { blob_offset: e.blob_offset, ..o }
    &&& has_blob(e) <==> has_blob(o)
    &&& !has_blob(o) ==> e == o
    &&& has_blob(o) ==> {
        &&& e.blob_offset->Some_0 == before
        &&& start + e.blob_len->Some_0 <= image.len()
        &&& image.subrange(start, start + e.blob_len->Some_0) == blob_of(o, blobs)
    }
}

/// Whether a file can be opened and holds what was captured: the metadata, the modules in
/// their order, each with its blob, the blobs one behind the other, and the descriptors.
pub open spec fn reads_back(
    image: Seq<u8>,
    meta: MetadataView,
    t: TableView,
    fds: Seq<FdEntryView>,
    blobs: Seq<u8>,
) -> bool {
    let rt = rebased_table(t, blobs);
    let h = crate::snapshot::placed_header(unplaced_header(meta), rt, fds);
    &&& crate::snapshot::read_image(image) == Ok::<
        (HeaderView, TableView, Seq<FdEntryView>),
        crate::snapshot::Fault,
    >((h, rt, fds))
    &&& h.metadata == meta
    &&& rt.entries.len() == t.entries.len()
    &&& source_paths_of(rt.entries) == source_paths_of(t.entries)
    &&& forall|i: int|
        0 <= i < t.entries.len() ==> entry_kept(
            image,
            h,
            #[trigger] rt.entries[i],
            t.entries[i],
            blobs,
            blob_total(t.entries.take(i)),
        )
}

/// Lays a snapshot out as a file: the path to write to, and the bytes to write there.
pub fn assemble(
    config: &CaptureConfig,
    meta: SnapshotMetadata,
    module_table: ModuleTable,
    pickle_blobs: &[u8],
    fd_table: FdTable,
) -> (r: Result<(String, Vec<u8>), FreezeError>)
    requires
        blobs_in_range(module_table@.entries, pickle_blobs@.len() as int),
    ensures
        r is Ok,
        r->Ok_0.0@ == config.snapshot_path@,
        r->Ok_0.1@ == captured_image(meta@, module_table@, fd_table@, pickle_blobs@),
        codec::header_bytes(unplaced_header(meta@)).len() <= u32::MAX ==> within_limits(
            meta@,
            module_table@,
            fd_table@,
            pickle_blobs@,
        ) && reads_back(r->Ok_0.1@, meta@, module_table@, fd_table@, pickle_blobs@),
{
    let ghost t = module_table@;
    let ghost fds = fd_table@;
    let entries: usize = module_table.entries.len();
    let names: usize = module_table.name_index.len();
    let descriptors: usize = fd_table.entries.len();
    assert(t.entries.len() == entries && t.name_index.len() == names && fds.len() == descriptors);
    let header = SnapshotHeader {
        metadata: meta,
        // The offsets are known when everything is laid out.
        module_table_offset: 0,
        fd_table_offset: 0,
        pickle_blob_offset: 0,
    };
    let mut writer = SnapshotWriter::new(config.snapshot_path.clone(), header);
    let mut adjusted_module_table = module_table;
    rebase_blobs(&mut writer, &mut adjusted_module_table, pickle_blobs);
    writer.set_module_table(adjusted_module_table);
    writer.set_fd_table(fd_table);
    match writer.commit() {
        Ok((path, image)) => {
            let size: usize = image.len();
            proof {
                assert(image@.len() == size);
                if codec::header_bytes(unplaced_header(meta@)).len() <= u32::MAX {
                    laws::law_captured_file_is_read(meta@, t, fds, pickle_blobs@);
                }
            }
            Ok((path, image))
        },
        Err(e) => Err(e),
    }
}

/// A snapshot that is ready to be written.
#[derive(Debug)]
pub struct Captured {
    /// Where it goes.
    pub path: String,
    /// The bytes of the file.
    pub image: Vec<u8>,
    /// What the file beside it tells.
    pub metadata: SnapshotMetadata,
}

/// What the metadata of a snapshot says, but for the time. The patch level of the interpreter
/// does not go into the hash: another one may restore the snapshot.
pub open spec fn capture_builder(
    config: CaptureConfig,
    sources: Seq<hash::SourceView>,
    python_version: Seq<char>,
    target_triple: Seq<char>,
    elapsed_ms: u64,
) -> BuilderView {
    BuilderView {
        source_hash: hash::source_hash(
            sources,
            metadata::without_patch(python_version),
            target_triple,
        ),
        python_impl_ver: python_version,
        target_triple,
        framework: config.framework@,
        import_phase_ms: elapsed_ms,
    }
}

/// Whether the texts that a capture is given leave room for the rest of the header, whose
/// length stands in 32 bits.
pub open spec fn header_has_room(
    config: CaptureConfig,
    python_version: Seq<char>,
    target_triple: Seq<char>,
) -> bool {
    encode_utf8(config.framework@).len() + encode_utf8(python_version).len() + encode_utf8(
        target_triple,
    ).len() <= u32::MAX - 174
}

/// Captures a snapshot: from what the walk over the modules gave, the table of the
/// descriptors, the source files of the modules as they are now, the identity of the
/// interpreter, and the time that the import phase took.
pub fn capture(
    config: &CaptureConfig,
    module_table: ModuleTable,
    pickle_blobs: &[u8],
    fd_table: FdTable,
    sources: &[SourceFile],
    python_version: &str,
    target_triple: &str,
    elapsed_ms: u64,
) -> (r: Result<Captured, FreezeError>)
    requires
        blobs_in_range(module_table@.entries, pickle_blobs@.len() as int),
        hash::paths_of(hash::source_views(sources@)) == source_paths_of(module_table@.entries),
    ensures
        r is Ok,
        r->Ok_0.path@ == config.snapshot_path@,
        metadata::is_timestamp(r->Ok_0.metadata@.captured_at),
        r->Ok_0.metadata@ == metadata::built(
            capture_builder(
                *config,
                hash::source_views(sources@),
                python_version@,
                target_triple@,
                elapsed_ms,
            ),
            r->Ok_0.metadata@.captured_at,
        ),
        r->Ok_0.image@ == captured_image(
            r->Ok_0.metadata@,
            module_table@,
            fd_table@,
            pickle_blobs@,
        ),
        header_has_room(*config, python_version@, target_triple@) ==> within_limits(
            r->Ok_0.metadata@,
            module_table@,
            fd_table@,
            pickle_blobs@,
        ) && reads_back(
            r->Ok_0.image@,
            r->Ok_0.metadata@,
            module_table@,
            fd_table@,
            pickle_blobs@,
        ),
{
    let version = metadata::strip_patch(python_version);
    let source_hash = match compute_source_hash(sources, version.as_str(), target_triple) {
        Ok(h) => h,
        Err(e) => return Err(e),
    };
    let meta = MetadataBuilder::new(target_triple).source_hash(
        source_hash.as_str(),
    ).python_impl_version(python_version).framework(config.framework.as_str()).import_phase_ms(
        elapsed_ms,
    ).build();
    proof {
        hash::lemma_hex_is_ascii(source_hash@);
        crate::snapshot::laws::lemma_header_size(unplaced_header(meta@));
        metadata::lemma_timestamp(meta@.captured_at);
        is_ascii_chars_encode_utf8(meta@.captured_at);
        is_ascii_chars_encode_utf8(source_hash@);
    }
    match assemble(config, meta.clone(), module_table, pickle_blobs, fd_table) {
        Ok((path, image)) => Ok(Captured { path, image, metadata: meta }),
        Err(e) => Err(e),
    }
}

/// The length of the import phase in milliseconds, from two readings of a clock that counts
/// nanoseconds. A clock that went backwards counts as one that stood still.
pub fn elapsed_ms(start_time_ns: u64, now_ns: u64) -> (r: u64)
    ensures
        r == if now_ns >= start_time_ns {
            (now_ns - start_time_ns) / 1_000_000
        } else {
            0
        },
{
    now_ns.saturating_sub(start_time_ns) / 1_000_000
}

} // verus!
