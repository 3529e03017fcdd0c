//! What holds of writing and reading together.

use super::format::{
    FdEntryView, FdTable, HeaderView, ModuleTable, SnapshotHeader, TableView, FORMAT_VERSION, MAGIC,
};
use super::metadata::BuilderView;
use super::wire::Taken;
use super::{codec, metadata, wire, SnapshotReader, SnapshotWriter};
use crate::error::FreezeError;
use crate::text;
use vstd::prelude::*;
use vstd::utf8::*;

verus! {

/// Where the parts of a concatenation stand.
proof fn lemma_cut(
    m: Seq<u8>,
    v: Seq<u8>,
    l: Seq<u8>,
    hb: Seq<u8>,
    tb: Seq<u8>,
    fb: Seq<u8>,
    blobs: Seq<u8>,
)
    requires
        m.len() == 8,
        v.len() == 4,
        l.len() == 4,
    ensures
        ({
            let s = m + v + l + hb + tb + fb + blobs;
            let a = (16 + hb.len()) as int;
            let b = (a + tb.len()) as int;
            let c = (b + fb.len()) as int;
            &&& s.len() == c + blobs.len()
            &&& s.take(8) == m
            &&& s.subrange(8, 12) == v
            &&& s.subrange(12, 16) == l
            &&& s.subrange(16, a) == hb
            &&& s.subrange(a, b) == tb
            &&& s.subrange(b, c) == fb
            &&& s.skip(c) == blobs
        }),
{
    let s = m + v + l + hb + tb + fb + blobs;
    let a = (16 + hb.len()) as int;
    let b = (a + tb.len()) as int;
    let c = (b + fb.len()) as int;
    assert(s.take(8) =~= m);
    assert(s.subrange(8, 12) =~= v);
    assert(s.subrange(12, 16) =~= l);
    assert(s.subrange(16, a) =~= hb);
    assert(s.subrange(a, b) =~= tb);
    assert(s.subrange(b, c) =~= fb);
    assert(s.skip(c) =~= blobs);
}

/// A section that holds the encoding of a header, a table or an fd table and nothing else
/// is read as that.
proof fn lemma_whole_sections(h: HeaderView, t: TableView, fds: Seq<FdEntryView>)
    requires
        codec::header_bytes(h).len() <= u64::MAX,
        codec::table_bytes(t).len() <= u64::MAX,
        codec::fd_table_bytes(fds).len() <= u64::MAX,
        crate::snapshot::format::distinct_names(t.name_index),
        t.entries.len() <= usize::MAX,
        t.name_index.len() <= usize::MAX,
        fds.len() <= usize::MAX,
    ensures
        codec::take_header(codec::header_bytes(h)) == Taken::Got(h, Seq::<u8>::empty()),
        codec::take_table(codec::table_bytes(t)) == Taken::Got(t, Seq::<u8>::empty()),
        codec::take_fd_table(codec::fd_table_bytes(fds)) == Taken::Got(fds, Seq::<u8>::empty()),
{
    let hb = codec::header_bytes(h);
    let tb = codec::table_bytes(t);
    let fb = codec::fd_table_bytes(fds);
    assert(hb + Seq::empty() =~= hb);
    assert(tb + Seq::empty() =~= tb);
    assert(fb + Seq::empty() =~= fb);
    codec::lemma_take_header(h, Seq::empty());
    codec::lemma_take_table(t, Seq::empty());
    codec::lemma_take_fd_table(fds, Seq::empty());
}

/// The length of a file, and where its blobs begin.
pub proof fn lemma_image_len(
    h: HeaderView,
    t: TableView,
    fds: Seq<FdEntryView>,
    blobs: Seq<u8>,
)
    ensures
        super::snapshot_image(h, t, fds, blobs).len() == super::blobs_start(h, t, fds)
            + blobs.len(),
{
    let placed = super::placed_header(h, t, fds);
    super::lemma_header_len(h, placed);
    wire::lemma_le_bytes_len(FORMAT_VERSION as nat, 4);
    wire::lemma_le_bytes_len(codec::header_bytes(h).len() as u32 as nat, 4);
}

/// The length of an encoded header: that of its five texts in UTF-8, and 72.
pub proof fn lemma_header_size(h: HeaderView)
    ensures
        codec::header_bytes(h).len() == 72 + encode_utf8(h.metadata.source_hash).len()
            + encode_utf8(h.metadata.python_impl_version).len() + encode_utf8(
            h.metadata.target_triple,
        ).len() + encode_utf8(h.metadata.captured_at).len() + encode_utf8(
            h.metadata.framework,
        ).len(),
{
    let m = h.metadata;
    wire::lemma_le_bytes_len(encode_utf8(m.source_hash).len(), 8);
    wire::lemma_le_bytes_len(encode_utf8(m.python_impl_version).len(), 8);
    wire::lemma_le_bytes_len(encode_utf8(m.target_triple).len(), 8);
    wire::lemma_le_bytes_len(encode_utf8(m.captured_at).len(), 8);
    wire::lemma_le_bytes_len(encode_utf8(m.framework).len(), 8);
    wire::lemma_le_bytes_len(m.import_phase_ms as nat, 8);
    wire::lemma_le_bytes_len(h.module_table_offset as nat, 8);
    wire::lemma_le_bytes_len(h.fd_table_offset as nat, 8);
    wire::lemma_le_bytes_len(h.pickle_blob_offset as nat, 8);
}

/// The texts of a builder, in UTF-8, leave room for the rest of a header, whose length stands
/// in 32 bits.
pub open spec fn builder_has_room(b: BuilderView) -> bool {
    encode_utf8(b.source_hash).len() + encode_utf8(b.python_impl_ver).len() + encode_utf8(
        b.target_triple,
    ).len() + encode_utf8(b.framework).len() <= u32::MAX - 110
}

/// A file whose metadata was built at some point of time can be opened, and what was written
/// is read back from it.
pub proof fn law_file_of_built_metadata_is_read(
    b: BuilderView,
    captured_at: Seq<char>,
    h: HeaderView,
    t: TableView,
    fds: Seq<FdEntryView>,
    blobs: Seq<u8>,
)
    requires
        builder_has_room(b),
        metadata::is_timestamp(captured_at),
        h.metadata == metadata::built(b, captured_at),
        crate::snapshot::format::distinct_names(t.name_index),
        t.entries.len() <= usize::MAX,
        t.name_index.len() <= usize::MAX,
        fds.len() <= usize::MAX,
        super::snapshot_image(h, t, fds, blobs).len() <= usize::MAX,
    ensures
        super::read_image(super::snapshot_image(h, t, fds, blobs)) == Ok::<
            (HeaderView, TableView, Seq<FdEntryView>),
            super::Fault,
        >((super::placed_header(h, t, fds), t, fds)),
        super::placed_header(h, t, fds).metadata == metadata::built(b, captured_at),
{
    lemma_header_size(h);
    metadata::lemma_timestamp(captured_at);
    is_ascii_chars_encode_utf8(captured_at);
    law_read_gives_back_what_was_written(h, t, fds, blobs);
}

/// Reading what was written gives back the header, with the offsets of the sections in it,
/// and both tables; and the blobs are what stands from the blob offset on.
///
/// The length of the header stands in 32 bits, so a header that takes more than that is
/// left out.
pub proof fn law_read_gives_back_what_was_written(
    h: HeaderView,
    t: TableView,
    fds: Seq<FdEntryView>,
    blobs: Seq<u8>,
)
    requires
        codec::header_bytes(h).len() <= u32::MAX,
        crate::snapshot::format::distinct_names(t.name_index),
        t.entries.len() <= usize::MAX,
        t.name_index.len() <= usize::MAX,
        fds.len() <= usize::MAX,
        super::snapshot_image(h, t, fds, blobs).len() <= usize::MAX,
    ensures
        super::read_image(super::snapshot_image(h, t, fds, blobs)) == Ok::<
            (HeaderView, TableView, Seq<FdEntryView>),
            super::Fault,
        >((super::placed_header(h, t, fds), t, fds)),
        super::snapshot_image(h, t, fds, blobs).skip(
            super::placed_header(h, t, fds).pickle_blob_offset as int,
        ) == blobs,
{
    let placed = super::placed_header(h, t, fds);
    let hb = codec::header_bytes(placed);
    let tb = codec::table_bytes(t);
    let fb = codec::fd_table_bytes(fds);
    let s = super::snapshot_image(h, t, fds, blobs);
    let n = codec::header_bytes(h).len();
    super::lemma_header_len(h, placed);
    wire::lemma_le_bytes_len(FORMAT_VERSION as nat, 4);
    wire::lemma_le_bytes_len(n, 4);
    wire::lemma_pow256();
    wire::lemma_le_value_of_bytes(FORMAT_VERSION as nat, 4);
    wire::lemma_le_value_of_bytes(n, 4);
    lemma_cut(
        MAGIC@,
        wire::u32_bytes(FORMAT_VERSION),
        wire::u32_bytes(n as u32),
        hb,
        tb,
        fb,
        blobs,
    );
    lemma_whole_sections(placed, t, fds);
}

/// A blob that was appended when the blob section held `before`, and behind which `after`
/// was appended later, is found in the file at the offset and length that the appending
/// gave.
pub proof fn law_blob_is_found_where_it_was_put(
    h: HeaderView,
    t: TableView,
    fds: Seq<FdEntryView>,
    before: Seq<u8>,
    data: Seq<u8>,
    after: Seq<u8>,
)
    requires
        super::snapshot_image(h, t, fds, before + data + after).len() <= usize::MAX,
    ensures
        ({
            let s = super::snapshot_image(h, t, fds, before + data + after);
            let start = super::placed_header(h, t, fds).pickle_blob_offset + before.len();
            &&& start + data.len() <= s.len()
            &&& s.subrange(start, start + data.len()) == data
        }),
{
    let placed = super::placed_header(h, t, fds);
    let s = super::snapshot_image(h, t, fds, before + data + after);
    let start = super::blobs_start(h, t, fds) + before.len();
    super::lemma_header_len(h, placed);
    wire::lemma_le_bytes_len(FORMAT_VERSION as nat, 4);
    wire::lemma_le_bytes_len(codec::header_bytes(h).len() as u32 as nat, 4);
    assert(s.subrange(start, start + data.len()) =~= data);
}

/// A written file begins with the magic bytes.
pub proof fn law_written_file_has_magic(
    h: HeaderView,
    t: TableView,
    fds: Seq<FdEntryView>,
    blobs: Seq<u8>,
)
    ensures
        super::snapshot_image(h, t, fds, blobs).take(8) == MAGIC@,
{
    assert(super::snapshot_image(h, t, fds, blobs).take(8) =~= MAGIC@);
}

/// What a writer lays out is opened again: the metadata, the modules, the descriptors and the
/// blobs are those that the writer was given, and the path is its own.
///
/// The length of the header stands in 32 bits, so a header that takes more than that is
/// left out.
pub proof fn law_written_file_is_opened_again(
    writer: SnapshotWriter,
    written: Result<(String, Vec<u8>), FreezeError>,
    image: &[u8],
    opened: Result<SnapshotReader, FreezeError>,
)
    requires
        call_ensures(SnapshotWriter::commit, (writer,), written),
        call_ensures(SnapshotReader::open, (image,), opened),
        written is Ok ==> image@ == written->Ok_0.1@,
        image@.len() <= usize::MAX,
        codec::header_bytes(writer@.header).len() <= u32::MAX,
        crate::snapshot::format::distinct_names(writer@.module_table.name_index),
        writer@.module_table.entries.len() <= usize::MAX,
        writer@.module_table.name_index.len() <= usize::MAX,
        writer@.fd_table.len() <= usize::MAX,
    ensures
        written is Ok,
        written->Ok_0.0@ == writer@.path,
        opened is Ok,
        opened->Ok_0.header@.metadata == writer@.header.metadata,
        opened->Ok_0.module_table@ == writer@.module_table,
        opened->Ok_0.fd_table@ == writer@.fd_table,
        opened->Ok_0.image@ == image@,
        image@.skip(opened->Ok_0.header.pickle_blob_offset as int) == writer@.pickle_blobs,
{
    law_read_gives_back_what_was_written(
        writer@.header,
        writer@.module_table,
        writer@.fd_table,
        writer@.pickle_blobs,
    );
}

/// Four bytes with the lowest first.
proof fn lemma_four_bytes(s: Seq<u8>)
    requires
        s.len() == 4,
    ensures
        wire::le_value(s) == s[0] + 0x100 * s[1] + 0x1_0000 * s[2] + 0x100_0000 * s[3],
{
    reveal_with_fuel(wire::le_value, 5);
    let a = s.drop_first();
    let b = a.drop_first();
    let c = b.drop_first();
    assert(c.drop_first().len() == 0);
    assert(a[0] == s[1] && b[0] == s[2] && c[0] == s[3]);
}

/// The first thing that is wrong with a file is what it is refused for: its size, the magic
/// bytes, the version of the format, the length of the header.
pub proof fn law_file_is_refused_for_what_is_wrong(
    image: &[u8],
    r: Result<SnapshotReader, FreezeError>,
)
    requires
        call_ensures(SnapshotReader::open, (image,), r),
    ensures
        r is Err ==> r->Err_0 is CorruptSnapshot,
        image@.len() < 16 ==> r is Err && r->Err_0->CorruptSnapshot_reason@ == "file too small"@,
        image@.len() >= 16 ==> {
            let s = image@;
            let magic = seq![0x50u8, 0x59, 0x46, 0x52, 0x5A, 0x00, 0x01, 0x00];
            let version = s[8] + 0x100 * s[9] + 0x1_0000 * s[10] + 0x100_0000 * s[11];
            let header_len = s[12] + 0x100 * s[13] + 0x1_0000 * s[14] + 0x100_0000 * s[15];
            &&& s.take(8) != magic ==> r is Err && r->Err_0->CorruptSnapshot_reason@
                == "magic bytes mismatch"@
            &&& s.take(8) == magic && version != 1 ==> r is Err
                && r->Err_0->CorruptSnapshot_reason@ == "format version "@ + text::decimal(
                version as nat,
            ) + " != expected "@ + text::decimal(1)
            &&& s.take(8) == magic && version == 1 && s.len() < 16 + header_len ==> r is Err
                && r->Err_0->CorruptSnapshot_reason@ == "header out of bounds"@
        },
{
    let s = image@;
    if s.len() >= 16 {
        assert(MAGIC@ =~= seq![0x50u8, 0x59, 0x46, 0x52, 0x5A, 0x00, 0x01, 0x00]);
        lemma_four_bytes(s.subrange(8, 12));
        lemma_four_bytes(s.subrange(12, 16));
    }
}

/// A file that is opened has its sections one behind the other within it, and is kept as it is.
pub proof fn law_opened_file_has_its_sections_in_place(
    image: &[u8],
    r: Result<SnapshotReader, FreezeError>,
)
    requires
        call_ensures(SnapshotReader::open, (image,), r),
        r is Ok,
    ensures
        r->Ok_0.image@ == image@,
        image@.len() >= 16,
        image@.take(8) == seq![0x50u8, 0x59, 0x46, 0x52, 0x5A, 0x00, 0x01, 0x00],
        r->Ok_0.header.module_table_offset <= r->Ok_0.header.fd_table_offset
            <= r->Ok_0.header.pickle_blob_offset <= image@.len(),
{
    assert(MAGIC@ =~= seq![0x50u8, 0x59, 0x46, 0x52, 0x5A, 0x00, 0x01, 0x00]);
}

/// A header is found where the prefix says, and the two tables where the header says.
pub proof fn law_sections_are_read_where_they_stand(s: Seq<u8>)
    requires
        super::read_image(s) is Ok,
    ensures
        ({
            let (h, t, fds) = super::read_image(s)->Ok_0;
            let n = s[12] + 0x100 * s[13] + 0x1_0000 * s[14] + 0x100_0000 * s[15];
            &&& codec::take_header(s.subrange(16, 16 + n)) is Got
            &&& codec::take_header(s.subrange(16, 16 + n))->Got_0 == h
            &&& codec::take_table(
                s.subrange(h.module_table_offset as int, h.fd_table_offset as int),
            ) is Got
            &&& codec::take_table(
                s.subrange(h.module_table_offset as int, h.fd_table_offset as int),
            )->Got_0 == t
            &&& codec::take_fd_table(
                s.subrange(h.fd_table_offset as int, h.pickle_blob_offset as int),
            ) is Got
            &&& codec::take_fd_table(
                s.subrange(h.fd_table_offset as int, h.pickle_blob_offset as int),
            )->Got_0 == fds
        }),
{
    lemma_four_bytes(s.subrange(12, 16));
}

/// A blob is there exactly where its last byte is within the file, and what is handed out is
/// the bytes at its place.
pub proof fn law_blob_is_cut_out_of_the_file(
    reader: &SnapshotReader,
    offset: u64,
    len: u64,
    held: bool,
    blob: &[u8],
)
    requires
        call_ensures(SnapshotReader::has_blob, (reader, offset, len), held),
        held ==> call_ensures(SnapshotReader::pickle_blob, (reader, offset, len), blob),
    ensures
        held <==> reader.header.pickle_blob_offset + offset + len <= reader.image@.len(),
        held ==> blob@.len() == len && forall|i: int|
            0 <= i < len ==> #[trigger] blob@[i] == reader.image@[reader.header.pickle_blob_offset
                + offset + i],
{
}

/// A path within a directory is the directory, a slash where there is none yet, and the name.
pub proof fn law_path_lies_in_its_directory(dir: &str, name: &str, r: String)
    requires
        call_ensures(super::join_path, (dir, name), r),
    ensures
        r@.take(dir@.len() as int) == dir@,
        r@.skip(r@.len() - name@.len()) == name@,
        dir@.len() == 0 || dir@.last() == '/' ==> r@.len() == dir@.len() + name@.len(),
        dir@.len() > 0 && dir@.last() != '/' ==> r@.len() == dir@.len() + 1 + name@.len()
            && r@[dir@.len() as int] == '/',
{
    reveal_strlit("/");
    assert(r@.take(dir@.len() as int) =~= dir@);
    assert(r@.skip(r@.len() - name@.len()) =~= name@);
}

/// The cache directory is `pyfreeze` within the directory that `XDG_CACHE_HOME` gives, whatever
/// the home directory; where it gives none, within `.cache` of the home directory; and where
/// there is no home directory either, within that of `/tmp`.
pub proof fn law_cache_directory_is_found(
    xdg_cache_home: Option<&str>,
    home: Option<&str>,
    r: String,
    base: Seq<char>,
)
    requires
        call_ensures(super::default_cache_dir, (xdg_cache_home, home), r),
        base == match home {
            Some(dir) => dir@,
            None => "/tmp"@,
        },
    ensures
        xdg_cache_home is Some ==> r@ == super::joined_path(
            xdg_cache_home->Some_0@,
            "pyfreeze"@,
        ),
        xdg_cache_home is None ==> r@ == super::joined_path(
            super::joined_path(base, ".cache"@),
            "pyfreeze"@,
        ),
{
}

/// A file whose prefix is in order is opened exactly where its header can be taken, its sections
/// stand one behind the other within it, and both tables can be taken; otherwise it is refused
/// for the first of these that does not hold.
pub proof fn law_file_in_order_is_opened(
    image: &[u8],
    r: Result<SnapshotReader, FreezeError>,
    h: HeaderView,
    rest: Seq<u8>,
)
    requires
        call_ensures(SnapshotReader::open, (image,), r),
        ({
            let s = image@;
            let n = s[12] + 0x100 * s[13] + 0x1_0000 * s[14] + 0x100_0000 * s[15];
            &&& s.len() >= 16 + n
            &&& s.take(8) == seq![0x50u8, 0x59, 0x46, 0x52, 0x5A, 0x00, 0x01, 0x00]
            &&& s[8] == 1 && s[9] == 0 && s[10] == 0 && s[11] == 0
            &&& codec::take_header(s.subrange(16, 16 + n)) == Taken::Got(h, rest)
        }),
    ensures
        ({
            let s = image@;
            let (a, b, c) = (
                h.module_table_offset as int,
                h.fd_table_offset as int,
                h.pickle_blob_offset as int,
            );
            let table = codec::take_table(s.subrange(a, b));
            let fds = codec::take_fd_table(s.subrange(b, c));
            &&& r is Ok <==> a <= b <= c <= s.len() && table is Got && fds is Got
            &&& r is Ok ==> r->Ok_0.header@ == h && r->Ok_0.module_table@ == table->Got_0
                && r->Ok_0.fd_table@ == fds->Got_0
            &&& !(a <= b <= s.len()) ==> r->Err_0->CorruptSnapshot_reason@
                == "module table out of bounds"@
            &&& a <= b <= s.len() && table is Failed ==> r->Err_0->CorruptSnapshot_reason@
                == table->Failed_0
            &&& a <= b <= s.len() && table is Got && !(b <= c <= s.len())
                ==> r->Err_0->CorruptSnapshot_reason@ == "fd table out of bounds"@
            &&& a <= b <= c <= s.len() && table is Got && fds is Failed
                ==> r->Err_0->CorruptSnapshot_reason@ == fds->Failed_0
        }),
{
    let s = image@;
    assert(MAGIC@ =~= seq![0x50u8, 0x59, 0x46, 0x52, 0x5A, 0x00, 0x01, 0x00]);
    lemma_four_bytes(s.subrange(8, 12));
    lemma_four_bytes(s.subrange(12, 16));
}

/// A file whose header cannot be taken is refused for the reason of that.
pub proof fn law_undecodable_header_is_refused(
    image: &[u8],
    r: Result<SnapshotReader, FreezeError>,
    reason: Seq<char>,
)
    requires
        call_ensures(SnapshotReader::open, (image,), r),
        ({
            let s = image@;
            let n = s[12] + 0x100 * s[13] + 0x1_0000 * s[14] + 0x100_0000 * s[15];
            &&& s.len() >= 16 + n
            &&& s.take(8) == seq![0x50u8, 0x59, 0x46, 0x52, 0x5A, 0x00, 0x01, 0x00]
            &&& s[8] == 1 && s[9] == 0 && s[10] == 0 && s[11] == 0
            &&& codec::take_header(s.subrange(16, 16 + n)) == Taken::<HeaderView>::Failed(reason)
        }),
    ensures
        r is Err,
        r->Err_0->CorruptSnapshot_reason@ == reason,
{
    let s = image@;
    assert(MAGIC@ =~= seq![0x50u8, 0x59, 0x46, 0x52, 0x5A, 0x00, 0x01, 0x00]);
    lemma_four_bytes(s.subrange(8, 12));
    lemma_four_bytes(s.subrange(12, 16));
}

/// A writer keeps what it is given: a blob goes behind the blobs before it, at the offset and
/// with the length that it is told; a table takes the place of the one before; and nothing else
/// changes.
pub proof fn law_writer_keeps_what_it_is_given(
    writer: &mut SnapshotWriter,
    data: &[u8],
    r: (u64, u64),
)
    requires
        call_ensures(SnapshotWriter::add_pickle_blob, (writer, data), r),
        old(writer)@.pickle_blobs.len() + data@.len() <= u64::MAX,
    ensures
        final(writer)@.pickle_blobs.subrange(r.0 as int, r.0 + r.1) == data@,
        final(writer)@.pickle_blobs.take(r.0 as int) == old(writer)@.pickle_blobs,
        final(writer)@.pickle_blobs.len() == r.0 + r.1,
        final(writer)@.path == old(writer)@.path,
        final(writer)@.header == old(writer)@.header,
        final(writer)@.module_table == old(writer)@.module_table,
        final(writer)@.fd_table == old(writer)@.fd_table,
{
    let blobs = final(writer)@.pickle_blobs;
    assert(blobs.subrange(r.0 as int, r.0 + r.1) =~= data@);
    assert(blobs.take(r.0 as int) =~= old(writer)@.pickle_blobs);
}

/// A new writer has the path and the header that it is given, and nothing else.
pub proof fn law_new_writer_is_empty(path: String, header: SnapshotHeader, r: SnapshotWriter)
    requires
        call_ensures(SnapshotWriter::new, (path, header), r),
    ensures
        r@.path == path@,
        r@.header == header@,
        r@.module_table.entries.len() == 0,
        r@.module_table.name_index.len() == 0,
        r@.fd_table.len() == 0,
        r@.pickle_blobs.len() == 0,
{
}

/// The tables of a writer are those that it was given last.
pub proof fn law_writer_takes_its_tables(
    writer: &mut SnapshotWriter,
    other: &mut SnapshotWriter,
    modules: ModuleTable,
    fds: FdTable,
)
    requires
        call_ensures(SnapshotWriter::set_module_table, (writer, modules), ()),
        call_ensures(SnapshotWriter::set_fd_table, (other, fds), ()),
    ensures
        final(writer)@.module_table == modules@,
        final(writer)@.fd_table == old(writer)@.fd_table,
        final(writer)@.pickle_blobs == old(writer)@.pickle_blobs,
        final(writer)@.header == old(writer)@.header,
        final(writer)@.path == old(writer)@.path,
        final(other)@.fd_table == fds@,
        final(other)@.module_table == old(other)@.module_table,
        final(other)@.pickle_blobs == old(other)@.pickle_blobs,
        final(other)@.header == old(other)@.header,
        final(other)@.path == old(other)@.path,
{
}

} // verus!
