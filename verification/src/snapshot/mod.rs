//! Reading and writing snapshot files.

pub mod codec;
pub mod format;
pub mod hash;
pub mod laws;
pub mod metadata;
pub mod wire;

use crate::error::FreezeError;
use crate::snapshot::format::{
    FdEntryView, FdTable, HeaderView, ModuleTable, SnapshotHeader, TableView, FORMAT_VERSION, MAGIC,
};
use crate::snapshot::wire::Taken;
use crate::text;
use vstd::prelude::*;
use vstd::slice::slice_subrange;
use vstd::string::*;

verus! {

// ─── Where snapshots are kept ───────────────────────────────────────────────

/// A name within a directory.
pub open spec fn joined_path(dir: Seq<char>, name: Seq<char>) -> Seq<char> {
    if dir.len() == 0 || dir.last() == '/' {
        dir + name
    } else {
        dir + "/"@ + name
    }
}

/// The path of `name` within the directory `dir`.
pub fn join_path(dir: &str, name: &str) -> (r: String)
    ensures
        r@ == joined_path(dir@, name@),
{
    let chars = text::chars_of(dir);
    let mut out = dir.to_owned();
    if chars.len() > 0 && chars[chars.len() - 1] != '/' {
        out.append("/");
    }
    out.append(name);
    out
}

/// The cache directory: within that of the user, or of the home directory, or of `/tmp`.
pub open spec fn cache_dir_of(xdg_cache_home: Option<Seq<char>>, home: Option<Seq<char>>) -> Seq<
    char,
> {
    let base = match (xdg_cache_home, home) {
        (Some(dir), _) => dir,
        (None, Some(dir)) => joined_path(dir, ".cache"@),
        (None, None) => joined_path("/tmp"@, ".cache"@),
    };
    joined_path(base, "pyfreeze"@)
}

/// The cache directory, from the values of `XDG_CACHE_HOME` and `HOME`.
pub fn default_cache_dir(xdg_cache_home: Option<&str>, home: Option<&str>) -> (r: String)
    ensures
        r@ == cache_dir_of(
            match xdg_cache_home {
                Some(dir) => Some(dir@),
                None => None,
            },
            match home {
                Some(dir) => Some(dir@),
                None => None,
            },
        ),
{
    let base = match (xdg_cache_home, home) {
        (Some(dir), _) => dir.to_owned(),
        (None, Some(dir)) => join_path(dir, ".cache"),
        (None, None) => join_path("/tmp", ".cache"),
    };
    join_path(base.as_str(), "pyfreeze")
}

/// The directory on Windows within which the cache directory lies, from the value of
/// `LOCALAPPDATA`.
pub fn default_cache_base_windows(local_app_data: Option<&str>) -> (r: String)
    ensures
        r@ == match local_app_data {
            Some(dir) => dir@,
            None => "C:\\Temp"@,
        },
{
    match local_app_data {
        Some(dir) => dir.to_owned(),
        None => "C:\\Temp".to_owned(),
    }
}

// ─── The file ───────────────────────────────────────────────────────────────

/// The length of what stands before the header: magic, version and header length.
pub const PREFIX_LEN: usize = 16;

/// Where the module table begins.
pub open spec fn module_table_start(h: HeaderView) -> int {
    PREFIX_LEN + codec::header_bytes(h).len()
}

/// Where the fd table begins.
pub open spec fn fd_table_start(h: HeaderView, t: TableView) -> int {
    module_table_start(h) + codec::table_bytes(t).len()
}

/// Where the pickle blobs begin.
pub open spec fn blobs_start(h: HeaderView, t: TableView, fds: Seq<FdEntryView>) -> int {
    fd_table_start(h, t) + codec::fd_table_bytes(fds).len()
}

/// The header with the offsets at which the sections of the file begin.
pub open spec fn placed_header(h: HeaderView, t: TableView, fds: Seq<FdEntryView>) -> HeaderView {
    HeaderView {
        metadata: h.metadata,
        module_table_offset: module_table_start(h) as u64,
        fd_table_offset: fd_table_start(h, t) as u64,
        pickle_blob_offset: blobs_start(h, t, fds) as u64,
    }
}

/// The bytes of the file that holds a header, two tables and the blobs. The length of the
/// header stands in 32 bits.
pub open spec fn snapshot_image(
    h: HeaderView,
    t: TableView,
    fds: Seq<FdEntryView>,
    blobs: Seq<u8>,
) -> Seq<u8> {
    MAGIC@ + wire::u32_bytes(FORMAT_VERSION) + wire::u32_bytes(
        codec::header_bytes(h).len() as u32,
    ) + codec::header_bytes(placed_header(h, t, fds)) + codec::table_bytes(t)
        + codec::fd_table_bytes(fds) + blobs
}

/// The length of an encoded header does not depend on its offsets.
pub proof fn lemma_header_len(a: HeaderView, b: HeaderView)
    requires
        a.metadata == b.metadata,
    ensures
        codec::header_bytes(a).len() == codec::header_bytes(b).len(),
{
    wire::lemma_le_bytes_len(a.module_table_offset as nat, 8);
    wire::lemma_le_bytes_len(a.fd_table_offset as nat, 8);
    wire::lemma_le_bytes_len(a.pickle_blob_offset as nat, 8);
    wire::lemma_le_bytes_len(b.module_table_offset as nat, 8);
    wire::lemma_le_bytes_len(b.fd_table_offset as nat, 8);
    wire::lemma_le_bytes_len(b.pickle_blob_offset as nat, 8);
}

/// What stands before a header of `header_len` bytes.
fn file_prefix(header_len: usize) -> (r: Vec<u8>)
    ensures
        r@ == MAGIC@ + wire::u32_bytes(FORMAT_VERSION) + wire::u32_bytes(header_len as u32),
        r@.len() == PREFIX_LEN,
{
    let mut out: Vec<u8> = Vec::new();
    let magic = MAGIC;
    out.extend_from_slice(magic.as_slice());
    assert(out@ =~= MAGIC@);
    wire::push_le_u32(&mut out, FORMAT_VERSION);
    wire::push_le_u32(
        &mut out,
        #[verifier::truncate]
        (header_len as u32),
    );
    proof {
        wire::lemma_le_bytes_len(FORMAT_VERSION as nat, 4);
        wire::lemma_le_bytes_len(header_len as u32 as nat, 4);
    }
    out
}

/// Puts `data` over what stands at `at`.
fn overwrite(out: &mut Vec<u8>, at: usize, data: &[u8])
    requires
        at + data@.len() <= old(out)@.len(),
    ensures
        final(out)@ == old(out)@.take(at as int) + data@ + old(out)@.skip(at + data@.len()),
{
    let ghost before = out@;
    let total: usize = out.len();
    let mut k: usize = 0;
    while k < data.len()
        invariant
            k <= data@.len(),
            at + data@.len() <= total,
            total == before.len(),
            out@ == before.take(at as int) + data@.take(k as int) + before.skip(at + k),
        decreases data@.len() - k,
    {
        out[at + k] = data[k];
        assert(out@ =~= before.take(at as int) + data@.take(k + 1) + before.skip(at + k + 1));
        k += 1;
    }
    assert(data@.take(k as int) =~= data@);
}

// ─── SnapshotWriter ─────────────────────────────────────────────────────────

/// Gathers the parts of a snapshot and lays them out as a file.
pub struct SnapshotWriter {
    path: String,
    module_table: ModuleTable,
    fd_table: FdTable,
    pickle_blobs: Vec<u8>,
    header: SnapshotHeader,
}

pub struct WriterView {
    pub path: Seq<char>,
    pub header: HeaderView,
    pub module_table: TableView,
    pub fd_table: Seq<FdEntryView>,
    pub pickle_blobs: Seq<u8>,
}

impl View for SnapshotWriter {
    type V = WriterView;

    closed spec fn view(&self) -> WriterView {
        WriterView {
            path: self.path@,
            header: self.header@,
            module_table: self.module_table@,
            fd_table: self.fd_table@,
            pickle_blobs: self.pickle_blobs@,
        }
    }
}

impl SnapshotWriter {
    pub fn new(path: String, header: SnapshotHeader) -> (r: SnapshotWriter)
        ensures
            r@ == (WriterView {
                path: path@,
                header: header@,
                module_table: crate::snapshot::format::empty_table(),
                fd_table: Seq::empty(),
                pickle_blobs: Seq::empty(),
            }),
    {
        let r = SnapshotWriter {
            path,
            module_table: ModuleTable::new(),
            fd_table: FdTable { entries: Vec::new() },
            pickle_blobs: Vec::new(),
            header,
        };
        assert(r@.fd_table =~= Seq::empty());
        r
    }

    /// Appends a raw pickle blob and returns its offset and length within the blob section.
    pub fn add_pickle_blob(&mut self, data: &[u8]) -> (r: (u64, u64))
        ensures
            r.0 == old(self)@.pickle_blobs.len(),
            r.1 == data@.len(),
            final(self)@ == (WriterView {
                pickle_blobs: old(self)@.pickle_blobs + data@,
                ..old(self)@
            }),
    {
        let offset = self.pickle_blobs.len() as u64;
        self.pickle_blobs.extend_from_slice(data);
        assert(self.pickle_blobs@ =~= old(self)@.pickle_blobs + data@);
        (offset, data.len() as u64)
    }

    pub fn set_module_table(&mut self, table: ModuleTable)
        ensures
            final(self)@ == (WriterView { module_table: table@, ..old(self)@ }),
    {
        self.module_table = table;
    }

    pub fn set_fd_table(&mut self, table: FdTable)
        ensures
            final(self)@ == (WriterView { fd_table: table@, ..old(self)@ }),
    {
        self.fd_table = table;
    }

    /// Lays everything out: the path to write to, and the bytes to write there.
    #[verifier::rlimit(30)]
    pub fn commit(self) -> (r: Result<(String, Vec<u8>), FreezeError>)
        ensures
            r is Ok,
            r->Ok_0.0@ == self@.path,
            r->Ok_0.1@ == snapshot_image(
                self@.header,
                self@.module_table,
                self@.fd_table,
                self@.pickle_blobs,
            ),
    {
        let ghost h = self@.header;
        let ghost t = self@.module_table;
        let ghost fds = self@.fd_table;
        let mut header = self.header;
        let mut pickle_blobs = self.pickle_blobs;

        // 1. Magic, format version and the header with its length. The offsets in the header
        //    are not known yet.
        let mut header_bytes: Vec<u8> = Vec::new();
        codec::put_header(&mut header_bytes, &header)?;
        let ghost first = header_bytes@;
        assert(first =~= codec::header_bytes(h));
        let header_len: usize = header_bytes.len();
        let mut image = file_prefix(header_len);
        let ghost prefix = image@;
        image.append(&mut header_bytes);

        // 2. Module table.
        let module_table_offset = image.len() as u64;
        codec::put_table(&mut image, &self.module_table)?;

        // 3. Fd table.
        let fd_table_offset = image.len() as u64;
        codec::put_fd_table(&mut image, &self.fd_table)?;

        // 4. Pickle blobs.
        let pickle_blob_offset = image.len() as u64;
        let ghost blobs = pickle_blobs@;
        image.append(&mut pickle_blobs);

        // 5. Write the offsets into the header.
        header.module_table_offset = module_table_offset;
        header.fd_table_offset = fd_table_offset;
        header.pickle_blob_offset = pickle_blob_offset;
        let mut placed: Vec<u8> = Vec::new();
        codec::put_header(&mut placed, &header)?;
        let ghost rest = codec::table_bytes(t) + codec::fd_table_bytes(fds) + blobs;
        proof {
            assert(image@ =~= prefix + first + rest);
            assert(header@ == placed_header(h, t, fds));
            assert(placed@ =~= codec::header_bytes(header@));
            lemma_header_len(h, header@);
        }
        overwrite(&mut image, PREFIX_LEN, placed.as_slice());
        assert(image@ =~= prefix + placed@ + rest);
        assert(image@ =~= snapshot_image(h, t, fds, blobs));
        Ok((self.path, image))
    }
}

// ─── SnapshotReader ─────────────────────────────────────────────────────────

/// What can be wrong with a file.
pub enum Fault {
    TooSmall,
    Magic,
    Version { found: u32 },
    HeaderBounds,
    Header { reason: Seq<char> },
    ModuleTableBounds,
    ModuleTable { reason: Seq<char> },
    FdTableBounds,
    FdTable { reason: Seq<char> },
}

/// The reason given for a fault. Where a section lies in the file and cannot be decoded, it is
/// that of the decoder.
pub open spec fn fault_reason(f: Fault) -> Seq<char> {
    match f {
        Fault::TooSmall => "file too small"@,
        Fault::Magic => "magic bytes mismatch"@,
        Fault::Version { found } => "format version "@ + text::decimal(found as nat)
            + " != expected "@ + text::decimal(FORMAT_VERSION as nat),
        Fault::HeaderBounds => "header out of bounds"@,
        Fault::Header { reason } => reason,
        Fault::ModuleTableBounds => "module table out of bounds"@,
        Fault::ModuleTable { reason } => reason,
        Fault::FdTableBounds => "fd table out of bounds"@,
        Fault::FdTable { reason } => reason,
    }
}

/// The header length that a file gives.
pub open spec fn header_len_of(s: Seq<u8>) -> nat {
    wire::le_value(s.subrange(12, 16))
}

/// What a file holds, or the first thing that is wrong with it.
pub open spec fn read_image(s: Seq<u8>) -> Result<
    (HeaderView, TableView, Seq<FdEntryView>),
    Fault,
> {
    let version = wire::le_value(s.subrange(8, 12));
    let header_end = PREFIX_LEN + header_len_of(s);
    if s.len() < PREFIX_LEN {
        Err(Fault::TooSmall)
    } else if s.take(8) != MAGIC@ {
        Err(Fault::Magic)
    } else if version != FORMAT_VERSION {
        Err(Fault::Version { found: version as u32 })
    } else if s.len() < header_end {
        Err(Fault::HeaderBounds)
    } else {
        match codec::take_header(s.subrange(PREFIX_LEN as int, header_end)) {
            Taken::Failed(reason) => Err(Fault::Header { reason }),
            Taken::Got(h, _) => read_sections(s, h),
        }
    }
}

/// What the sections hold that a header points to, or the first thing that is wrong.
pub open spec fn read_sections(s: Seq<u8>, h: HeaderView) -> Result<
    (HeaderView, TableView, Seq<FdEntryView>),
    Fault,
> {
    if !(h.module_table_offset <= h.fd_table_offset <= s.len()) {
        Err(Fault::ModuleTableBounds)
    } else {
        match codec::take_table(
            s.subrange(h.module_table_offset as int, h.fd_table_offset as int),
        ) {
            Taken::Failed(reason) => Err(Fault::ModuleTable { reason }),
            Taken::Got(t, _) => if !(h.fd_table_offset <= h.pickle_blob_offset <= s.len()) {
                Err(Fault::FdTableBounds)
            } else {
                match codec::take_fd_table(
                    s.subrange(h.fd_table_offset as int, h.pickle_blob_offset as int),
                ) {
                    Taken::Failed(reason) => Err(Fault::FdTable { reason }),
                    Taken::Got(fds, _) => Ok((h, t, fds)),
                }
            },
        }
    }
}

/// A snapshot file, taken apart. The blobs stay where they are in the file.
pub struct SnapshotReader<'a> {
    pub header: SnapshotHeader,
    pub module_table: ModuleTable,
    pub fd_table: FdTable,
    /// The bytes of the whole file.
    pub image: &'a [u8],
}

fn corrupt(reason: String) -> (r: FreezeError)
    ensures
        r matches FreezeError::CorruptSnapshot { reason: given } && given == reason,
{
    FreezeError::CorruptSnapshot { reason }
}

/// Whether the bytes of a section can be cut out of a file of length `len`.
fn section_bounds(start: u64, end: u64, len: usize) -> (r: Option<(usize, usize)>)
    ensures
        match r {
            Some((a, b)) => a == start && b == end && start <= end <= len,
            None => !(start <= end <= len),
        },
{
    if start <= end && end <= len as u64 {
        Some((start as usize, end as usize))
    } else {
        None
    }
}

impl<'a> SnapshotReader<'a> {
    /// Takes a file apart.
    pub fn open(image: &'a [u8]) -> (r: Result<SnapshotReader<'a>, FreezeError>)
        ensures
            match read_image(image@) {
                Ok((h, t, fds)) => {
                    &&& r matches Ok(reader)
                    &&& reader.header@ == h
                    &&& reader.module_table@ == t
                    &&& reader.fd_table@ == fds
                    &&& reader.image@ == image@
                },
                Err(fault) => {
                    &&& r matches Err(FreezeError::CorruptSnapshot { reason })
                    &&& reason@ == fault_reason(fault)
                },
            },
    {
        if image.len() < PREFIX_LEN {
            return Err(corrupt("file too small".to_owned()));
        }
        let magic = MAGIC;
        let found_magic = slice_subrange(image, 0, 8);
        assert(found_magic@ =~= image@.take(8));
        if !text::bytes_equal(found_magic, magic.as_slice()) {
            return Err(corrupt("magic bytes mismatch".to_owned()));
        }

        // Format version.
        let fmt_ver = wire::le_u32_at(image, 8);
        if fmt_ver != FORMAT_VERSION {
            let mut reason = "format version ".to_owned();
            text::append_decimal(&mut reason, fmt_ver as u64);
            reason.append(" != expected ");
            text::append_decimal(&mut reason, FORMAT_VERSION as u64);
            return Err(corrupt(reason));
        }

        // Header.
        let header_len = wire::le_u32_at(image, 12);
        if image.len() - PREFIX_LEN < header_len as usize {
            return Err(corrupt("header out of bounds".to_owned()));
        }
        let header_slice = slice_subrange(image, PREFIX_LEN, PREFIX_LEN + header_len as usize);
        assert(header_slice@.skip(0) =~= header_slice@);
        let header = match codec::read_header(header_slice, 0) {
            Ok((header, _)) => header,
            Err(reason) => return Err(corrupt(reason)),
        };

        Self::open_sections(image, header)
    }

    /// Reads the sections that a header points to.
    fn open_sections(image: &'a [u8], header: SnapshotHeader) -> (r: Result<
        SnapshotReader<'a>,
        FreezeError,
    >)
        ensures
            match read_sections(image@, header@) {
                Ok((h, t, fds)) => {
                    &&& r matches Ok(reader)
                    &&& reader.header@ == h
                    &&& reader.module_table@ == t
                    &&& reader.fd_table@ == fds
                    &&& reader.image@ == image@
                },
                Err(fault) => {
                    &&& r matches Err(FreezeError::CorruptSnapshot { reason })
                    &&& reason@ == fault_reason(fault)
                },
            },
    {
        // Module table.
        let module_slice = match section_bounds(
            header.module_table_offset,
            header.fd_table_offset,
            image.len(),
        ) {
            Some((a, b)) => slice_subrange(image, a, b),
            None => return Err(corrupt("module table out of bounds".to_owned())),
        };
        assert(module_slice@.skip(0) =~= module_slice@);
        let module_table = match codec::read_table(module_slice, 0) {
            Ok((table, _)) => table,
            Err(reason) => return Err(corrupt(reason)),
        };

        // Fd table.
        let fd_slice = match section_bounds(
            header.fd_table_offset,
            header.pickle_blob_offset,
            image.len(),
        ) {
            Some((a, b)) => slice_subrange(image, a, b),
            None => return Err(corrupt("fd table out of bounds".to_owned())),
        };
        assert(fd_slice@.skip(0) =~= fd_slice@);
        let fd_table = match codec::read_fd_table(fd_slice, 0) {
            Ok((table, _)) => table,
            Err(reason) => return Err(corrupt(reason)),
        };

        Ok(SnapshotReader { header, module_table, fd_table, image })
    }

    /// Whether the file holds a blob of `len` bytes at `offset` of the blob section.
    pub open spec fn holds_blob(&self, offset: u64, len: u64) -> bool {
        self.header.pickle_blob_offset + offset + len <= self.image@.len()
    }

    /// The bytes of the blob section from `offset` on, `len` of them.
    pub open spec fn blob(&self, offset: u64, len: u64) -> Seq<u8> {
        let start = self.header.pickle_blob_offset + offset;
        self.image@.subrange(start, start + len)
    }

    /// Whether the file holds a blob of `len` bytes at `offset` of the blob section.
    pub fn has_blob(&self, offset: u64, len: u64) -> (r: bool)
        ensures
            r == self.holds_blob(offset, len),
    {
        let total = self.image.len() as u64;
        let base = self.header.pickle_blob_offset;
        base <= total && offset <= total - base && len <= total - base - offset
    }

    /// The raw pickle blob of a module entry.
    pub fn pickle_blob(&self, offset: u64, len: u64) -> (r: &[u8])
        requires
            self.holds_blob(offset, len),
        ensures
            r@ == self.blob(offset, len),
    {
        let total: usize = self.image.len();
        assert(self.header.pickle_blob_offset + offset + len <= total);
        let base = self.header.pickle_blob_offset as usize;
        let start: usize = base + offset as usize;
        let end: usize = start + len as usize;
        slice_subrange(self.image, start, end)
    }
}

} // verus!
