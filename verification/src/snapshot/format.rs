//! What a snapshot holds.
//!
//! ```text
//! ┌───────────────────────────────────────────────────────────┐
//! │  MAGIC (8 bytes)  │  VERSION (4 bytes)  │  HEADER_LEN (4) │
//! ├───────────────────────────────────────────────────────────┤
//! │  SnapshotHeader                                           │
//! ├───────────────────────────────────────────────────────────┤
//! │  ModuleTable                                              │
//! ├───────────────────────────────────────────────────────────┤
//! │  FdTable                                                  │
//! ├───────────────────────────────────────────────────────────┤
//! │  Pickle blobs (raw bytes, indexed by ModuleEntry)         │
//! └───────────────────────────────────────────────────────────┘
//! ```

use vstd::hash_map::StringHashMap;
use vstd::prelude::*;

verus! {

/// The bytes at the start of every snapshot file.
pub const MAGIC: [u8; 8] = [0x50, 0x59, 0x46, 0x52, 0x5A, 0x00, 0x01, 0x00];

/// Raised whenever the on-disk format changes in a breaking way.
pub const FORMAT_VERSION: u32 = 1;

/// The text of an optional string.
pub open spec fn text_of(o: Option<String>) -> Option<Seq<char>> {
    match o {
        Some(s) => Some(s@),
        None => None,
    }
}

// ─── Header ─────────────────────────────────────────────────────────────────

#[derive(Debug, Clone)]
pub struct SnapshotHeader {
    pub metadata: SnapshotMetadata,
    /// Byte offset of the module table from the start of the file.
    pub module_table_offset: u64,
    /// Byte offset of the fd table from the start of the file.
    pub fd_table_offset: u64,
    /// Byte offset of the raw pickle blob section.
    pub pickle_blob_offset: u64,
}

#[derive(Debug)]
pub struct SnapshotMetadata {
    /// SHA-256 hex digest over the source files that were imported. If any file on disk
    /// changes, this does not match any more and the snapshot is stale.
    pub source_hash: String,
    /// For example "CPython 3.12.3".
    pub python_impl_version: String,
    /// For example "x86_64-linux", "aarch64-linux" or "x86_64-windows".
    pub target_triple: String,
    /// When the snapshot was captured (ISO-8601, UTC).
    pub captured_at: String,
    /// Which framework triggered the capture: "django", "flask" or "generic".
    pub framework: String,
    /// Wall-clock time of the import phase that was captured, in milliseconds.
    pub import_phase_ms: u64,
}

pub struct HeaderView {
    pub metadata: MetadataView,
    pub module_table_offset: u64,
    pub fd_table_offset: u64,
    pub pickle_blob_offset: u64,
}

pub struct MetadataView {
    pub source_hash: Seq<char>,
    pub python_impl_version: Seq<char>,
    pub target_triple: Seq<char>,
    pub captured_at: Seq<char>,
    pub framework: Seq<char>,
    pub import_phase_ms: u64,
}

impl View for SnapshotMetadata {
    type V = MetadataView;

    open spec fn view(&self) -> MetadataView {
        MetadataView {
            source_hash: self.source_hash@,
            python_impl_version: self.python_impl_version@,
            target_triple: self.target_triple@,
            captured_at: self.captured_at@,
            framework: self.framework@,
            import_phase_ms: self.import_phase_ms,
        }
    }
}

impl Clone for SnapshotMetadata {
    fn clone(&self) -> (r: SnapshotMetadata)
        ensures
            r@ == self@,
    {
        SnapshotMetadata {
            source_hash: self.source_hash.clone(),
            python_impl_version: self.python_impl_version.clone(),
            target_triple: self.target_triple.clone(),
            captured_at: self.captured_at.clone(),
            framework: self.framework.clone(),
            import_phase_ms: self.import_phase_ms,
        }
    }
}

impl View for SnapshotHeader {
    type V = HeaderView;

    open spec fn view(&self) -> HeaderView {
        HeaderView {
            metadata: self.metadata@,
            module_table_offset: self.module_table_offset,
            fd_table_offset: self.fd_table_offset,
            pickle_blob_offset: self.pickle_blob_offset,
        }
    }
}

// ─── Module table ───────────────────────────────────────────────────────────

/// How the state of a module was captured.
#[derive(Debug, PartialEq)]
pub enum CaptureStrategy {
    /// The module's `__dict__` was serialized with pickle.
    PickledDict,
    /// The entire module object was pickled (for `.pyd` / `.so` shims).
    PickledObject,
    /// The module has no state worth keeping: re-import it from disk.
    ReImport,
    /// The module holds opaque buffers that a plugin has to handle.
    Plugin { plugin_id: String },
    /// The module could not be captured safely.
    Skipped { reason: String },
}

/// The captured state of one Python module.
#[derive(Debug)]
pub struct ModuleEntry {
    /// Fully-qualified module name, such as "django.db.models".
    pub name: String,
    /// How the module's `__dict__` was captured.
    pub capture_strategy: CaptureStrategy,
    /// Byte offset inside the pickle blob section, where there is a blob.
    pub blob_offset: Option<u64>,
    /// Length of the pickle blob in bytes.
    pub blob_len: Option<u64>,
    /// Absolute path on disk at capture time.
    pub source_path: Option<String>,
    /// SHA-256 of the module's source file at capture time.
    pub source_hash: Option<String>,
}

pub enum StrategyView {
    PickledDict,
    PickledObject,
    ReImport,
    Plugin { plugin_id: Seq<char> },
    Skipped { reason: Seq<char> },
}

pub struct EntryView {
    pub name: Seq<char>,
    pub capture_strategy: StrategyView,
    pub blob_offset: Option<u64>,
    pub blob_len: Option<u64>,
    pub source_path: Option<Seq<char>>,
    pub source_hash: Option<Seq<char>>,
}

impl View for CaptureStrategy {
    type V = StrategyView;

    open spec fn view(&self) -> StrategyView {
        match self {
            CaptureStrategy::PickledDict => StrategyView::PickledDict,
            CaptureStrategy::PickledObject => StrategyView::PickledObject,
            CaptureStrategy::ReImport => StrategyView::ReImport,
            CaptureStrategy::Plugin { plugin_id } => StrategyView::Plugin {
                plugin_id: plugin_id@,
            },
            CaptureStrategy::Skipped { reason } => StrategyView::Skipped { reason: reason@ },
        }
    }
}

impl View for ModuleEntry {
    type V = EntryView;

    open spec fn view(&self) -> EntryView {
        EntryView {
            name: self.name@,
            capture_strategy: self.capture_strategy@,
            blob_offset: self.blob_offset,
            blob_len: self.blob_len,
            source_path: text_of(self.source_path),
            source_hash: text_of(self.source_hash),
        }
    }
}

impl Clone for CaptureStrategy {
    fn clone(&self) -> (r: CaptureStrategy)
        ensures
            r@ == self@,
    {
        match self {
            CaptureStrategy::PickledDict => CaptureStrategy::PickledDict,
            CaptureStrategy::PickledObject => CaptureStrategy::PickledObject,
            CaptureStrategy::ReImport => CaptureStrategy::ReImport,
            CaptureStrategy::Plugin { plugin_id } => CaptureStrategy::Plugin {
                plugin_id: plugin_id.clone(),
            },
            CaptureStrategy::Skipped { reason } => CaptureStrategy::Skipped {
                reason: reason.clone(),
            },
        }
    }
}

impl Clone for ModuleEntry {
    fn clone(&self) -> (r: ModuleEntry)
        ensures
            r@ == self@,
    {
        ModuleEntry {
            name: self.name.clone(),
            capture_strategy: self.capture_strategy.clone(),
            blob_offset: self.blob_offset,
            blob_len: self.blob_len,
            source_path: self.source_path.clone(),
            source_hash: self.source_hash.clone(),
        }
    }
}

/// The entries of a list, each by what it holds.
pub open spec fn entry_views(entries: Seq<ModuleEntry>) -> Seq<EntryView> {
    entries.map_values(|e: ModuleEntry| e@)
}

/// The position of `name` in a list of pairs, if it stands there.
pub open spec fn pair_position(pairs: Seq<(Seq<char>, usize)>, name: Seq<char>) -> Option<int>
    decreases pairs.len(),
{
    if pairs.len() == 0 {
        None
    } else if pairs.last().0 == name {
        Some(pairs.len() - 1)
    } else {
        pair_position(pairs.drop_last(), name)
    }
}

/// A list of pairs after `name` was given the value `value`: in place where the name is
/// known, at the end where it is new.
pub open spec fn pairs_insert(
    pairs: Seq<(Seq<char>, usize)>,
    name: Seq<char>,
    value: usize,
) -> Seq<(Seq<char>, usize)> {
    match pair_position(pairs, name) {
        Some(i) => pairs.update(i, (name, value)),
        None => pairs.push((name, value)),
    }
}

/// The value of `name` in a list of pairs, if it stands there.
pub open spec fn pairs_get(pairs: Seq<(Seq<char>, usize)>, name: Seq<char>) -> Option<usize> {
    match pair_position(pairs, name) {
        Some(i) => Some(pairs[i].1),
        None => None,
    }
}

/// `pair_position` finds a place where the name stands, and fails only where it stands
/// nowhere.
pub proof fn lemma_pair_position(pairs: Seq<(Seq<char>, usize)>, name: Seq<char>)
    ensures
        match pair_position(pairs, name) {
            Some(i) => 0 <= i < pairs.len() && pairs[i].0 == name,
            None => forall|i: int| 0 <= i < pairs.len() ==> (#[trigger] pairs[i]).0 != name,
        },
    decreases pairs.len(),
{
    if pairs.len() > 0 && pairs.last().0 != name {
        lemma_pair_position(pairs.drop_last(), name);
        assert forall|i: int|
            0 <= i < pairs.len() && pair_position(pairs, name) is None implies (
        #[trigger] pairs[i]).0 != name by {
            if i < pairs.len() - 1 {
                assert(pairs.drop_last()[i] == pairs[i]);
            }
        }
    }
}

/// No name occurs twice in a list of pairs.
pub open spec fn distinct_names(pairs: Seq<(Seq<char>, usize)>) -> bool {
    forall|i: int, j: int|
        0 <= i < pairs.len() && 0 <= j < pairs.len() && i != j ==> (#[trigger] pairs[i]).0 != (
        #[trigger] pairs[j]).0
}

/// A map from module names to positions that remembers the order in which the names came.
pub struct NameIndex {
    names: Vec<String>,
    positions: StringHashMap<usize>,
}

impl View for NameIndex {
    type V = Seq<(Seq<char>, usize)>;

    closed spec fn view(&self) -> Seq<(Seq<char>, usize)> {
        Seq::new(
            self.names@.len(),
            |i: int| (self.names@[i]@, self.positions@[self.names@[i]@]),
        )
    }
}

impl NameIndex {
    /// The names are distinct, and they are the keys of the map.
    spec fn agree(names: Seq<String>, positions: Map<Seq<char>, usize>) -> bool {
        &&& forall|i: int, j: int|
            0 <= i < names.len() && 0 <= j < names.len() && i != j ==> (#[trigger] names[i])@ != (
            #[trigger] names[j])@
        &&& forall|i: int|
            0 <= i < names.len() ==> positions.contains_key((#[trigger] names[i])@)
        &&& forall|k: Seq<char>| #[trigger]
            positions.contains_key(k) ==> exists|i: int|
                0 <= i < names.len() && (#[trigger] names[i])@ == k
    }

    #[verifier::type_invariant]
    spec fn inv(self) -> bool {
        Self::agree(self.names@, self.positions@)
    }

    pub fn new() -> (r: NameIndex)
        ensures
            r@ == Seq::<(Seq<char>, usize)>::empty(),
    {
        let r = NameIndex { names: Vec::new(), positions: StringHashMap::new() };
        assert(r@ =~= Seq::<(Seq<char>, usize)>::empty());
        r
    }

    /// The number of names.
    pub fn len(&self) -> (r: usize)
        ensures
            r == self@.len(),
            distinct_names(self@),
    {
        proof {
            use_type_invariant(self);
            assert forall|i: int, j: int|
                0 <= i < self@.len() && 0 <= j < self@.len() && i != j implies (
            #[trigger] self@[i]).0 != (#[trigger] self@[j]).0 by {
                assert(self.names@[i]@ != self.names@[j]@);
            }
        }
        self.names.len()
    }

    /// The `i`-th name, in the order in which they came, and its position.
    pub fn pair(&self, i: usize) -> (r: (&str, usize))
        requires
            i < self@.len(),
        ensures
            (r.0@, r.1) == self@[i as int],
    {
        proof {
            use_type_invariant(self);
        }
        let name = self.names[i].as_str();
        match self.positions.get(name) {
            Some(p) => (name, *p),
            None => (name, 0),
        }
    }

    /// The position of `name`, if it is known.
    pub fn get(&self, name: &str) -> (r: Option<usize>)
        ensures
            r == pairs_get(self@, name@),
    {
        proof {
            use_type_invariant(self);
            lemma_pair_position(self@, name@);
            if pair_position(self@, name@) is None && self.positions@.contains_key(name@) {
                let i = choose|i: int|
                    0 <= i < self.names@.len() && (#[trigger] self.names@[i])@ == name@;
                assert(self@[i].0 == name@);
            }
        }
        match self.positions.get(name) {
            Some(p) => Some(*p),
            None => None,
        }
    }

    /// Gives `name` the position `position`. A known name keeps its place in the order.
    pub fn insert(&mut self, name: String, position: usize)
        ensures
            final(self)@ == pairs_insert(old(self)@, name@, position),
    {
        let mut taken = NameIndex::new();
        core::mem::swap(self, &mut taken);
        proof {
            use_type_invariant(&taken);
        }
        let ghost before = taken;
        let NameIndex { names: mut names, positions: mut positions } = taken;
        proof {
            lemma_pair_position(before@, name@);
        }
        let ghost n = before.names@.len() as int;
        if positions.contains_key(name.as_str()) {
            let ghost key = name@;
            positions.insert(name, position);
            proof {
                let i = choose|i: int|
                    0 <= i < before.names@.len() && (#[trigger] before.names@[i])@ == key;
                assert(before@[i].0 == key);
                assert forall|k: Seq<char>| #[trigger]
                    positions@.contains_key(k) implies exists|i: int|
                    0 <= i < names@.len() && (#[trigger] names@[i])@ == k by {
                    assert(before.positions@.contains_key(k));
                }
            }
        } else {
            proof {
                assert forall|i: int| 0 <= i < n implies (#[trigger] before.names@[i])@
                    != name@ by {
                    assert(before.positions@.contains_key(before.names@[i]@));
                }
            }
            names.push(name.clone());
            positions.insert(name, position);
            proof {
                assert forall|i: int, j: int|
                    0 <= i < names@.len() && 0 <= j < names@.len() && i != j implies (
                #[trigger] names@[i])@ != (#[trigger] names@[j])@ by {
                    if i < n {
                        assert(names@[i] == before.names@[i]);
                    }
                    if j < n {
                        assert(names@[j] == before.names@[j]);
                    }
                }
                assert forall|i: int| 0 <= i < names@.len() implies positions@.contains_key(
                    (#[trigger] names@[i])@,
                ) by {
                    if i < n {
                        assert(names@[i] == before.names@[i]);
                    }
                }
                assert forall|k: Seq<char>| #[trigger]
                    positions@.contains_key(k) implies exists|i: int|
                    0 <= i < names@.len() && (#[trigger] names@[i])@ == k by {
                    if k == name@ {
                        assert(names@[n]@ == k);
                    } else {
                        assert(before.positions@.contains_key(k));
                        let i = choose|i: int|
                            0 <= i < before.names@.len() && (#[trigger] before.names@[i])@ == k;
                        assert(names@[i]@ == k);
                    }
                }
                if pair_position(before@, name@) is Some {
                    let i = pair_position(before@, name@)->Some_0;
                    assert(before.names@[i]@ == name@);
                }
            }
        }
        assert(Self::agree(names@, positions@));
        *self = NameIndex { names, positions };
        assert(self@ =~= pairs_insert(before@, name@, position));
    }
}

impl Clone for NameIndex {
    fn clone(&self) -> (r: NameIndex)
        ensures
            r@ == self@,
    {
        let mut out = NameIndex::new();
        let n: usize = self.len();
        let mut i: usize = 0;
        while i < n
            invariant
                i <= n,
                n == self@.len(),
                distinct_names(self@),
                out@ == self@.take(i as int),
            decreases n - i,
        {
            let (name, position) = self.pair(i);
            proof {
                lemma_pair_position(out@, name@);
                assert(self@.take(i + 1) =~= self@.take(i as int).push(self@[i as int]));
                assert forall|j: int| 0 <= j < i implies (#[trigger] out@[j]).0 != name@ by {
                    assert(out@[j] == self@[j]);
                    assert(self@[j].0 != self@[i as int].0);
                }
            }
            out.insert(name.to_owned(), position);
            i += 1;
        }
        assert(self@.take(i as int) =~= self@);
        out
    }
}

/// The modules of a snapshot.
pub struct ModuleTable {
    /// In import order, which matters for some frameworks.
    pub entries: Vec<ModuleEntry>,
    /// Maps a module name to its position in `entries`.
    pub name_index: NameIndex,
}

pub struct TableView {
    pub entries: Seq<EntryView>,
    pub name_index: Seq<(Seq<char>, usize)>,
}

impl View for ModuleTable {
    type V = TableView;

    open spec fn view(&self) -> TableView {
        TableView { entries: entry_views(self.entries@), name_index: self.name_index@ }
    }
}

impl Clone for ModuleTable {
    fn clone(&self) -> (r: ModuleTable)
        ensures
            r@ == self@,
    {
        let mut entries: Vec<ModuleEntry> = Vec::new();
        let mut i: usize = 0;
        while i < self.entries.len()
            invariant
                i <= self.entries@.len(),
                entry_views(entries@) == entry_views(self.entries@).take(i as int),
            decreases self.entries@.len() - i,
        {
            let ghost before = entries@;
            let entry = self.entries[i].clone();
            entries.push(entry);
            assert(entry_views(entries@) =~= entry_views(before).push(entry@));
            assert(entry_views(entries@) =~= entry_views(self.entries@).take(i + 1));
            i += 1;
        }
        assert(entry_views(entries@) =~= entry_views(self.entries@));
        ModuleTable { entries, name_index: self.name_index.clone() }
    }
}

/// The table without modules.
pub open spec fn empty_table() -> TableView {
    TableView { entries: Seq::empty(), name_index: Seq::empty() }
}

/// A table after `entry` was added: it stands at the end, and its name leads to it.
pub open spec fn table_add(t: TableView, entry: EntryView) -> TableView {
    TableView {
        entries: t.entries.push(entry),
        name_index: pairs_insert(t.name_index, entry.name, t.entries.len() as usize),
    }
}

/// The entry that `name` leads to, if any.
pub open spec fn table_get(t: TableView, name: Seq<char>) -> Option<EntryView> {
    match pairs_get(t.name_index, name) {
        Some(i) => Some(t.entries[i as int]),
        None => None,
    }
}

impl ModuleTable {
    pub fn new() -> (r: ModuleTable)
        ensures
            r@ == empty_table(),
    {
        let r = ModuleTable { entries: Vec::new(), name_index: NameIndex::new() };
        assert(r@.entries =~= Seq::empty());
        r
    }

    /// Appends an entry. Its name leads to it from now on.
    pub fn add(&mut self, entry: ModuleEntry)
        ensures
            final(self)@ == table_add(old(self)@, entry@),
            final(self).entries@ == old(self).entries@.push(entry),
    {
        let idx: usize = self.entries.len();
        self.name_index.insert(entry.name.clone(), idx);
        self.entries.push(entry);
        assert(self@.entries =~= old(self)@.entries.push(entry@));
    }

    /// The entry that `name` leads to.
    pub fn get(&self, name: &str) -> (r: Option<&ModuleEntry>)
        requires
            pairs_get(self@.name_index, name@) matches Some(i) ==> i < self@.entries.len(),
        ensures
            match r {
                Some(e) => table_get(self@, name@) == Some(e@) && e == self.entries@[pairs_get(
                    self@.name_index,
                    name@,
                )->Some_0 as int],
                None => table_get(self@, name@) is None,
            },
    {
        match self.name_index.get(name) {
            Some(i) => Some(&self.entries[i]),
            None => None,
        }
    }
}

/// The index of a table agrees with its entries: each name of the index leads to the last
/// entry of that name, and each entry's name is in the index.
pub open spec fn table_coherent(t: TableView) -> bool {
    &&& distinct_names(t.name_index)
    &&& forall|k: int|
        0 <= k < t.name_index.len() ==> {
            &&& (#[trigger] t.name_index[k]).1 < t.entries.len()
            &&& t.entries[t.name_index[k].1 as int].name == t.name_index[k].0
            &&& forall|j: int|
                t.name_index[k].1 < j < t.entries.len() ==> (#[trigger] t.entries[j]).name
                    != t.name_index[k].0
        }
    &&& forall|j: int|
        0 <= j < t.entries.len() ==> pair_position(
            t.name_index,
            (#[trigger] t.entries[j]).name,
        ) is Some
}

/// After an insertion the name has the new value, and every other name what it had.
pub proof fn lemma_pairs_insert(
    pairs: Seq<(Seq<char>, usize)>,
    name: Seq<char>,
    value: usize,
    other: Seq<char>,
)
    requires
        distinct_names(pairs),
    ensures
        distinct_names(pairs_insert(pairs, name, value)),
        pairs_get(pairs_insert(pairs, name, value), name) == Some(value),
        other != name ==> pairs_get(pairs_insert(pairs, name, value), other) == pairs_get(
            pairs,
            other,
        ),
{
    let after = pairs_insert(pairs, name, value);
    lemma_pair_position(pairs, name);
    lemma_pair_position(pairs, other);
    lemma_pair_position(after, name);
    lemma_pair_position(after, other);
    match pair_position(pairs, name) {
        Some(i) => {
            assert(after[i] == (name, value));
            assert(forall|j: int| 0 <= j < pairs.len() && j != i ==> after[j] == pairs[j]);
        },
        None => {
            assert(after[pairs.len() as int] == (name, value));
            assert(forall|j: int| 0 <= j < pairs.len() ==> after[j] == pairs[j]);
        },
    }
    if other != name {
        match (pair_position(pairs, other), pair_position(after, other)) {
            (Some(i), Some(j)) => {
                assert(after[i].0 == other);
                assert(i == j);
            },
            (Some(i), None) => {
                assert(after[i].0 == other);
            },
            (None, Some(j)) => {
                assert(pairs[j].0 == other);
            },
            (None, None) => {},
        }
    }
}

/// The empty table is coherent.
pub proof fn law_empty_table_coherent()
    ensures
        table_coherent(empty_table()),
{
}

/// Adding an entry keeps a table coherent.
pub proof fn law_add_keeps_coherent(t: TableView, entry: EntryView)
    requires
        table_coherent(t),
        t.entries.len() < usize::MAX,
    ensures
        table_coherent(table_add(t, entry)),
{
    let after = table_add(t, entry);
    let n = t.entries.len() as usize;
    lemma_pair_position(t.name_index, entry.name);
    lemma_pairs_insert(t.name_index, entry.name, n, entry.name);
    assert forall|k: int| 0 <= k < after.name_index.len() implies {
        &&& (#[trigger] after.name_index[k]).1 < after.entries.len()
        &&& after.entries[after.name_index[k].1 as int].name == after.name_index[k].0
        &&& forall|j: int|
            after.name_index[k].1 < j < after.entries.len() ==> (#[trigger] after.entries[j]).name
                != after.name_index[k].0
    } by {
        if after.name_index[k].0 == entry.name {
            match pair_position(t.name_index, entry.name) {
                Some(i) => {
                    assert(after.name_index[i].0 == entry.name);
                    assert(k == i);
                },
                None => {
                    if k < t.name_index.len() {
                        assert(after.name_index[k] == t.name_index[k]);
                    }
                },
            }
        } else {
            assert(after.name_index[k] == t.name_index[k]);
            assert forall|j: int|
                after.name_index[k].1 < j < after.entries.len() implies (
            #[trigger] after.entries[j]).name != after.name_index[k].0 by {
                if j < n {
                    assert(after.entries[j] == t.entries[j]);
                }
            }
        }
    }
    assert forall|j: int| 0 <= j < after.entries.len() implies pair_position(
        after.name_index,
        (#[trigger] after.entries[j]).name,
    ) is Some by {
        let name = after.entries[j].name;
        lemma_pairs_insert(t.name_index, entry.name, n, name);
        if j < n {
            assert(after.entries[j] == t.entries[j]);
        }
    }
}

/// After an entry was added, its name leads to it, and every other name leads where it led
/// before.
pub proof fn law_get_after_add(t: TableView, entry: EntryView, other: Seq<char>)
    requires
        table_coherent(t),
        t.entries.len() < usize::MAX,
    ensures
        table_get(table_add(t, entry), entry.name) == Some(entry),
        other != entry.name ==> table_get(table_add(t, entry), other) == table_get(t, other),
{
    lemma_pairs_insert(t.name_index, entry.name, t.entries.len() as usize, other);
    lemma_pair_position(t.name_index, other);
}

/// In a coherent table a name leads to the last entry that bears it, and to nothing exactly
/// where no entry bears it.
pub proof fn law_get_finds_last(t: TableView, name: Seq<char>)
    requires
        table_coherent(t),
    ensures
        match table_get(t, name) {
            Some(e) => exists|i: int|
                0 <= i < t.entries.len() && #[trigger] t.entries[i] == e && e.name == name
                    && forall|j: int| i < j < t.entries.len() ==> (#[trigger] t.entries[j]).name
                    != name,
            None => forall|i: int|
                0 <= i < t.entries.len() ==> (#[trigger] t.entries[i]).name != name,
        },
        pairs_get(t.name_index, name) matches Some(i) ==> i < t.entries.len(),
{
    lemma_pair_position(t.name_index, name);
    if let Some(k) = pair_position(t.name_index, name) {
        let i = t.name_index[k].1 as int;
        assert(t.entries[i] == table_get(t, name)->Some_0);
    }
}

// ─── File-descriptor table ──────────────────────────────────────────────────

/// How to reconstruct a file descriptor.
#[derive(Debug, Clone)]
pub enum FdKind {
    /// A regular file that can be re-opened at a known offset.
    RegularFile { path: String, offset: u64, flags: i32, mode: u32 },
    /// A socket whose framework reconnects on first use.
    TcpSocket { peer_addr: String, is_tls: bool },
    /// A Unix-domain socket.
    UnixSocket { path: String },
    /// A pipe that was drained into a buffer.
    Pipe { buffered_data: Vec<u8> },
    /// stdin, stdout or stderr: inherited from the shell.
    Stdio,
    /// Anything that cannot be handled.
    Unknown { description: String },
}

#[derive(Debug, Clone)]
pub struct FdEntry {
    /// The file descriptor.
    pub fd: i32,
    /// How to reconstruct it.
    pub kind: FdKind,
}

#[derive(Debug, Clone)]
pub struct FdTable {
    pub entries: Vec<FdEntry>,
}

pub enum FdKindView {
    RegularFile { path: Seq<char>, offset: u64, flags: i32, mode: u32 },
    TcpSocket { peer_addr: Seq<char>, is_tls: bool },
    UnixSocket { path: Seq<char> },
    Pipe { buffered_data: Seq<u8> },
    Stdio,
    Unknown { description: Seq<char> },
}

pub struct FdEntryView {
    pub fd: i32,
    pub kind: FdKindView,
}

impl View for FdKind {
    type V = FdKindView;

    open spec fn view(&self) -> FdKindView {
        match self {
            FdKind::RegularFile { path, offset, flags, mode } => FdKindView::RegularFile {
                path: path@,
                offset: *offset,
                flags: *flags,
                mode: *mode,
            },
            FdKind::TcpSocket { peer_addr, is_tls } => FdKindView::TcpSocket {
                peer_addr: peer_addr@,
                is_tls: *is_tls,
            },
            FdKind::UnixSocket { path } => FdKindView::UnixSocket { path: path@ },
            FdKind::Pipe { buffered_data } => FdKindView::Pipe { buffered_data: buffered_data@ },
            FdKind::Stdio => FdKindView::Stdio,
            FdKind::Unknown { description } => FdKindView::Unknown { description: description@ },
        }
    }
}

impl View for FdEntry {
    type V = FdEntryView;

    open spec fn view(&self) -> FdEntryView {
        FdEntryView { fd: self.fd, kind: self.kind@ }
    }
}

impl View for FdTable {
    type V = Seq<FdEntryView>;

    open spec fn view(&self) -> Seq<FdEntryView> {
        self.entries@.map_values(|e: FdEntry| e@)
    }
}

// ─── Laws ───────────────────────────────────────────────────────────────────

/// A view of a module's entry tells everything that the entry holds.
pub proof fn law_view_tells_the_entry(a: ModuleEntry, b: ModuleEntry)
    requires
        a@ == b@,
    ensures
        a.name@ == b.name@,
        a.blob_offset == b.blob_offset,
        a.blob_len == b.blob_len,
        a.source_path is Some <==> b.source_path is Some,
        a.source_path is Some ==> a.source_path->Some_0@ == b.source_path->Some_0@,
        a.source_hash is Some <==> b.source_hash is Some,
        a.source_hash is Some ==> a.source_hash->Some_0@ == b.source_hash->Some_0@,
        match (a.capture_strategy, b.capture_strategy) {
            (CaptureStrategy::PickledDict, CaptureStrategy::PickledDict) => true,
            (CaptureStrategy::PickledObject, CaptureStrategy::PickledObject) => true,
            (CaptureStrategy::ReImport, CaptureStrategy::ReImport) => true,
            (
                CaptureStrategy::Plugin { plugin_id: x },
                CaptureStrategy::Plugin { plugin_id: y },
            ) => x@ == y@,
            (
                CaptureStrategy::Skipped { reason: x },
                CaptureStrategy::Skipped { reason: y },
            ) => x@ == y@,
            _ => false,
        },
{
    assert(a.capture_strategy@ == b.capture_strategy@);
}

/// A view of a descriptor's entry tells everything that the entry holds.
pub proof fn law_view_tells_the_descriptor(a: FdEntry, b: FdEntry)
    requires
        a@ == b@,
    ensures
        a.fd == b.fd,
        match (a.kind, b.kind) {
            (
                FdKind::RegularFile { path: p, offset: o, flags: f, mode: m },
                FdKind::RegularFile { path: q, offset: u, flags: g, mode: n },
            ) => p@ == q@ && o == u && f == g && m == n,
            (
                FdKind::TcpSocket { peer_addr: p, is_tls: s },
                FdKind::TcpSocket { peer_addr: q, is_tls: t },
            ) => p@ == q@ && s == t,
            (FdKind::UnixSocket { path: p }, FdKind::UnixSocket { path: q }) => p@ == q@,
            (FdKind::Pipe { buffered_data: p }, FdKind::Pipe { buffered_data: q }) => p@ == q@,
            (FdKind::Stdio, FdKind::Stdio) => true,
            (FdKind::Unknown { description: p }, FdKind::Unknown { description: q }) => p@ == q@,
            _ => false,
        },
{
    assert(a.kind@ == b.kind@);
}

/// A view of a header tells everything that the header holds.
pub proof fn law_view_tells_the_header(a: SnapshotHeader, b: SnapshotHeader)
    requires
        a@ == b@,
    ensures
        a.module_table_offset == b.module_table_offset,
        a.fd_table_offset == b.fd_table_offset,
        a.pickle_blob_offset == b.pickle_blob_offset,
        a.metadata.source_hash@ == b.metadata.source_hash@,
        a.metadata.python_impl_version@ == b.metadata.python_impl_version@,
        a.metadata.target_triple@ == b.metadata.target_triple@,
        a.metadata.captured_at@ == b.metadata.captured_at@,
        a.metadata.framework@ == b.metadata.framework@,
        a.metadata.import_phase_ms == b.metadata.import_phase_ms,
{
    assert(a.metadata@ == b.metadata@);
}

/// Adding an entry leaves the entries before it as they were, and puts it at the end.
pub proof fn law_added_entry_stands_at_the_end(t: TableView, entry: EntryView)
    ensures
        table_add(t, entry).entries.len() == t.entries.len() + 1,
        table_add(t, entry).entries.last() == entry,
        forall|i: int|
            0 <= i < t.entries.len() ==> #[trigger] table_add(t, entry).entries[i] == t.entries[i],
{
}

/// What is found in a table under a name bears that name, and no later entry does.
pub proof fn law_found_entry_bears_its_name<'a>(
    table: &'a ModuleTable,
    name: &str,
    r: Option<&'a ModuleEntry>,
)
    requires
        table_coherent(table@),
        call_ensures(ModuleTable::get, (table, name), r),
    ensures
        r is Some <==> exists|i: int|
            0 <= i < table.entries@.len() && (#[trigger] table.entries@[i]).name@ == name@,
        r is Some ==> exists|i: int|
            0 <= i < table.entries@.len() && #[trigger] table.entries@[i] == *r->Some_0
                && table.entries@[i].name@ == name@ && forall|j: int|
                i < j < table.entries@.len() ==> (#[trigger] table.entries@[j]).name@ != name@,
{
    let t = table@;
    law_get_finds_last(t, name@);
    lemma_pair_position(t.name_index, name@);
    assert(forall|i: int| 0 <= i < table.entries@.len() ==> t.entries[i] == table.entries@[i]@);
    if r is Some {
        let i = pairs_get(t.name_index, name@)->Some_0 as int;
        assert(table.entries@[i] == *r->Some_0);
        assert(t.entries[i].name == name@);
        assert forall|j: int| i < j < table.entries@.len() implies (
        #[trigger] table.entries@[j]).name@ != name@ by {
            assert(t.entries[j].name != name@);
        }
    } else {
        assert forall|i: int| 0 <= i < table.entries@.len() implies (
        #[trigger] table.entries@[i]).name@ != name@ by {
            assert(t.entries[i].name != name@);
        }
    }
}

} // verus!
