//! Deciding how each module of the interpreter is captured.
//!
//! The interpreter is asked by the program around this library: for the name and the source
//! file of each module, and, where a module is to be pickled, for the pickle of its
//! `__dict__`. What cannot be pickled is imported again on restore.

use crate::error::FreezeError;
use crate::snapshot::format::{
    CaptureStrategy, EntryView, ModuleEntry, ModuleTable, StrategyView, TableView,
};
use crate::snapshot::hash;
use crate::text;
use vstd::prelude::*;
use vstd::string::*;

verus! {

// ─── Modules ────────────────────────────────────────────────────────────────

/// Built-in and frozen modules, and extensions with complex initialization: importing them
/// again is always safe and free.
pub open spec fn always_reimport(name: Seq<char>) -> bool {
    ||| name == "sys"@
    ||| name == "builtins"@
    ||| name == "__main__"@
    ||| name == "_thread"@
    ||| name == "_warnings"@
    ||| name == "gc"@
    ||| name == "marshal"@
    ||| name == "imp"@
    ||| name == "importlib"@
    ||| name == "_frozen_importlib"@
    ||| name == "_frozen_importlib_external"@
    ||| name == "zipimport"@
    ||| name == "_abc"@
    ||| name == "_io"@
    ||| name == "_decimal"@
    ||| name == "_datetime"@
    ||| name == "_csv"@
    ||| name == "_json"@
    ||| name == "_pickle"@
    ||| "_frozen"@.is_prefix_of(name)
}

fn is_always_reimport(name: &str) -> (r: bool)
    ensures
        r == always_reimport(name@),
{
    text::str_equal(name, "sys") || text::str_equal(name, "builtins") || text::str_equal(
        name,
        "__main__",
    ) || text::str_equal(name, "_thread") || text::str_equal(name, "_warnings")
        || text::str_equal(name, "gc") || text::str_equal(name, "marshal") || text::str_equal(
        name,
        "imp",
    ) || text::str_equal(name, "importlib") || text::str_equal(name, "_frozen_importlib")
        || text::str_equal(name, "_frozen_importlib_external") || text::str_equal(
        name,
        "zipimport",
    ) || text::str_equal(name, "_abc") || text::str_equal(name, "_io") || text::str_equal(
        name,
        "_decimal",
    ) || text::str_equal(name, "_datetime") || text::str_equal(name, "_csv") || text::str_equal(
        name,
        "_json",
    ) || text::str_equal(name, "_pickle") || text::starts_with(name, "_frozen")
}

/// Whether a module is worth pickling: one that is not imported again in any case, and that
/// comes from a file.
pub open spec fn worth_pickling(name: Seq<char>, file: Option<Seq<char>>) -> bool {
    !always_reimport(name) && file is Some
}

/// Whether the module `name`, whose `__file__` is `file`, is to be pickled.
pub fn needs_pickle(name: &str, file: Option<&str>) -> (r: bool)
    ensures
        r == worth_pickling(
            name@,
            match file {
                Some(f) => Some(f@),
                None => None,
            },
        ),
{
    !is_always_reimport(name) && file.is_some()
}

/// A module as the interpreter shows it.
#[derive(Debug)]
pub struct ObservedModule {
    /// Its key in `sys.modules`, where that is a text.
    pub name: Option<String>,
    /// Its `__file__`, where it has one.
    pub file: Option<String>,
    /// What that file holds, where it can be read.
    pub contents: Option<Vec<u8>>,
    /// The pickle of its `__dict__`, where pickling it worked.
    pub pickled: Option<Vec<u8>>,
}

pub struct ObservedView {
    pub name: Option<Seq<char>>,
    pub file: Option<Seq<char>>,
    pub contents: Option<Seq<u8>>,
    pub pickled: Option<Seq<u8>>,
}

impl View for ObservedModule {
    type V = ObservedView;

    open spec fn view(&self) -> ObservedView {
        ObservedView {
            name: crate::snapshot::format::text_of(self.name),
            file: crate::snapshot::format::text_of(self.file),
            contents: hash::bytes_of(self.contents),
            pickled: hash::bytes_of(self.pickled),
        }
    }
}

pub open spec fn observed_views(modules: Seq<ObservedModule>) -> Seq<ObservedView> {
    modules.map_values(|m: ObservedModule| m@)
}

/// The name under which a module is recorded.
pub open spec fn recorded_name(m: ObservedView) -> Seq<char> {
    match m.name {
        Some(name) => name,
        None => "<unknown>"@,
    }
}

/// What of a module goes into the blob section.
pub open spec fn captured_blob(m: ObservedView) -> Seq<u8> {
    match m.pickled {
        Some(bytes) if worth_pickling(recorded_name(m), m.file) => bytes,
        _ => Seq::empty(),
    }
}

/// The entry of a module, where `offset` bytes of blobs stand before its own.
pub open spec fn captured_entry(m: ObservedView, offset: u64) -> EntryView {
    let name = recorded_name(m);
    if !worth_pickling(name, m.file) {
        EntryView {
            name,
            capture_strategy: StrategyView::ReImport,
            blob_offset: None,
            blob_len: None,
            source_path: m.file,
            source_hash: None,
        }
    } else {
        let source_hash = match m.contents {
            Some(c) => Some(hash::hex_text(hash::sha256(c))),
            None => None,
        };
        match m.pickled {
            Some(bytes) => EntryView {
                name,
                capture_strategy: StrategyView::PickledDict,
                blob_offset: Some(offset),
                blob_len: Some(bytes.len() as u64),
                source_path: m.file,
                source_hash,
            },
            None => EntryView {
                name,
                capture_strategy: StrategyView::ReImport,
                blob_offset: None,
                blob_len: None,
                source_path: m.file,
                source_hash,
            },
        }
    }
}

/// The table and the blobs of a list of modules.
pub open spec fn walked(modules: Seq<ObservedView>) -> (TableView, Seq<u8>)
    decreases modules.len(),
{
    if modules.len() == 0 {
        (crate::snapshot::format::empty_table(), Seq::empty())
    } else {
        let (table, blobs) = walked(modules.drop_last());
        let m = modules.last();
        (
            crate::snapshot::format::table_add(table, captured_entry(m, blobs.len() as u64)),
            blobs + captured_blob(m),
        )
    }
}

fn copy_text(o: &Option<String>) -> (r: Option<String>)
    ensures
        crate::snapshot::format::text_of(r) == crate::snapshot::format::text_of(*o),
{
    match o {
        Some(s) => Some(s.clone()),
        None => None,
    }
}

/// The entry of a module. Its pickle, if it has one, goes to the end of `blob_buf`.
pub fn capture_module(module: &ObservedModule, blob_buf: &mut Vec<u8>) -> (r: ModuleEntry)
    ensures
        r@ == captured_entry(module@, old(blob_buf)@.len() as u64),
        final(blob_buf)@ == old(blob_buf)@ + captured_blob(module@),
{
    let name = match &module.name {
        Some(name) => name.clone(),
        None => "<unknown>".to_owned(),
    };
    let source_path = copy_text(&module.file);
    let file = match &module.file {
        Some(f) => Some(f.as_str()),
        None => None,
    };
    if !needs_pickle(name.as_str(), file) {
        assert(blob_buf@ =~= old(blob_buf)@ + captured_blob(module@));
        return ModuleEntry {
            name,
            capture_strategy: CaptureStrategy::ReImport,
            blob_offset: None,
            blob_len: None,
            source_path,
            source_hash: None,
        };
    }
    let source_hash = match &module.contents {
        Some(contents) => Some(hash::hash_contents(contents.as_slice())),
        None => None,
    };
    match &module.pickled {
        Some(bytes) => {
            let offset = blob_buf.len() as u64;
            let len = bytes.len() as u64;
            blob_buf.extend_from_slice(bytes.as_slice());
            assert(blob_buf@ =~= old(blob_buf)@ + captured_blob(module@));
            ModuleEntry {
                name,
                capture_strategy: CaptureStrategy::PickledDict,
                blob_offset: Some(offset),
                blob_len: Some(len),
                source_path,
                source_hash,
            }
        },
        None => {
            assert(blob_buf@ =~= old(blob_buf)@ + captured_blob(module@));
            ModuleEntry {
                name,
                capture_strategy: CaptureStrategy::ReImport,
                blob_offset: None,
                blob_len: None,
                source_path,
                source_hash,
            }
        },
    }
}

/// The module table of the modules in `sys.modules`, and the blobs that its entries point
/// into.
pub fn walk_sys_modules(modules: &[ObservedModule]) -> (r: Result<
    (ModuleTable, Vec<u8>),
    FreezeError,
>)
    ensures
        r is Ok,
        (r->Ok_0.0@, r->Ok_0.1@) == walked(observed_views(modules@)),
        crate::capture::blobs_in_range(r->Ok_0.0@.entries, r->Ok_0.1@.len() as int),
{
    let ghost views = observed_views(modules@);
    let mut table = ModuleTable::new();
    let mut blob_buf: Vec<u8> = Vec::new();
    let mut i: usize = 0;
    assert(views.take(0) =~= Seq::empty());
    assert(blob_buf@ =~= Seq::empty());
    while i < modules.len()
        invariant
            i <= modules@.len(),
            views == observed_views(modules@),
            (table@, blob_buf@) == walked(views.take(i as int)),
        decreases modules@.len() - i,
    {
        proof {
            assert(views.take(i + 1).drop_last() =~= views.take(i as int));
            assert(views.take(i + 1).last() == modules@[i as int]@);
        }
        let entry = capture_module(&modules[i], &mut blob_buf);
        table.add(entry);
        i += 1;
    }
    let total: usize = blob_buf.len();
    proof {
        assert(views.take(i as int) =~= views);
        assert(blob_buf@.len() == total);
        crate::capture::laws::law_walked_table_can_be_captured(views);
    }
    Ok((table, blob_buf))
}

// ─── The items of a module ──────────────────────────────────────────────────

/// What is never kept of a module's `__dict__`.
pub open spec fn skipped_key(key: Seq<char>) -> bool {
    ||| key == "__builtins__"@
    ||| key == "__loader__"@
    ||| key == "__spec__"@
    ||| key == "__cached__"@
    ||| key == "__doc__"@
}

/// Whether the item of a module's `__dict__` under a key, a text or not, is to be kept if it
/// can be pickled.
pub open spec fn wanted_key(key: Option<Seq<char>>) -> bool {
    match key {
        Some(k) => !skipped_key(k),
        None => false,
    }
}

/// Whether it is worth finding out if the item under `key` can be pickled.
pub fn wants_key(key: Option<&str>) -> (r: bool)
    ensures
        r == wanted_key(
            match key {
                Some(k) => Some(k@),
                None => None,
            },
        ),
{
    match key {
        Some(k) => !(text::str_equal(k, "__builtins__") || text::str_equal(k, "__loader__")
            || text::str_equal(k, "__spec__") || text::str_equal(k, "__cached__")
            || text::str_equal(k, "__doc__")),
        None => false,
    }
}

/// An item of a module's `__dict__`.
#[derive(Debug)]
pub struct DictItem {
    /// Its key, where that is a text.
    pub key: Option<String>,
    /// Whether its value can be pickled.
    pub picklable: bool,
}

/// Whether an item is kept.
pub open spec fn kept(item: DictItem) -> bool {
    wanted_key(crate::snapshot::format::text_of(item.key)) && item.picklable
}

/// The positions of the items that are kept, in their order.
pub open spec fn kept_positions(items: Seq<DictItem>) -> Seq<usize>
    decreases items.len(),
{
    if items.len() == 0 {
        Seq::empty()
    } else {
        let before = kept_positions(items.drop_last());
        if kept(items.last()) {
            before.push((items.len() - 1) as usize)
        } else {
            before
        }
    }
}

/// Picks the items of a module's `__dict__` that go into its pickle.
pub fn filter_dict(items: &[DictItem]) -> (r: Vec<usize>)
    ensures
        r@ == kept_positions(items@),
{
    let mut out: Vec<usize> = Vec::new();
    let mut i: usize = 0;
    assert(items@.take(0) =~= Seq::empty());
    assert(out@ =~= Seq::empty());
    while i < items.len()
        invariant
            i <= items@.len(),
            out@ == kept_positions(items@.take(i as int)),
        decreases items@.len() - i,
    {
        assert(items@.take(i + 1).drop_last() =~= items@.take(i as int));
        let item = &items[i];
        let key = match &item.key {
            Some(k) => Some(k.as_str()),
            None => None,
        };
        if wants_key(key) && item.picklable {
            out.push(i);
        }
        i += 1;
    }
    assert(items@.take(i as int) =~= items@);
    out
}

// ─── Laws ───────────────────────────────────────────────────────────────────

/// Every module has one entry, in the order of the modules, and an entry that was pickled
/// points to the pickle of its module in the blobs.
pub proof fn law_walk_records_every_module(modules: Seq<ObservedView>, i: int)
    requires
        0 <= i < modules.len(),
        walked(modules).1.len() <= u64::MAX,
    ensures
        ({
            let (table, blobs) = walked(modules);
            let e = table.entries[i];
            &&& table.entries.len() == modules.len()
            &&& e == captured_entry(modules[i], walked(modules.take(i)).1.len() as u64)
            &&& e.blob_offset is Some <==> e.capture_strategy is PickledDict
            &&& e.blob_len is Some <==> e.capture_strategy is PickledDict
            &&& e.capture_strategy is PickledDict ==> {
                let at = e.blob_offset->Some_0 as int;
                &&& at + e.blob_len->Some_0 <= blobs.len()
                &&& modules[i].pickled == Some(blobs.subrange(at, at + e.blob_len->Some_0))
            }
        }),
    decreases modules.len(),
{
    let front = modules.drop_last();
    let (table, blobs) = walked(front);
    let n = front.len() as int;
    lemma_walked_len(front);
    assert(walked(modules).1 == blobs + captured_blob(modules.last()));
    if i < n {
        law_walk_records_every_module(front, i);
        assert(front.take(i) =~= modules.take(i));
        let e = table.entries[i];
        assert(walked(modules).0.entries[i] == e);
        if e.capture_strategy is PickledDict {
            let at = e.blob_offset->Some_0 as int;
            let end = at + e.blob_len->Some_0;
            assert(walked(modules).1.subrange(at, end) =~= blobs.subrange(at, end));
        }
    } else {
        assert(modules.take(i) =~= front);
        let bytes = captured_blob(modules[i]);
        assert(walked(modules).1.subrange(
            blobs.len() as int,
            (blobs.len() + bytes.len()) as int,
        ) =~= bytes);
    }
}

pub proof fn lemma_walked_len(modules: Seq<ObservedView>)
    ensures
        walked(modules).0.entries.len() == modules.len(),
    decreases modules.len(),
{
    if modules.len() > 0 {
        lemma_walked_len(modules.drop_last());
    }
}

/// The table of the modules is coherent: each name leads to the last module of that name.
pub proof fn law_walked_table_coherent(modules: Seq<ObservedView>)
    requires
        modules.len() <= usize::MAX,
    ensures
        crate::snapshot::format::table_coherent(walked(modules).0),
    decreases modules.len(),
{
    if modules.len() == 0 {
        crate::snapshot::format::law_empty_table_coherent();
    } else {
        let front = modules.drop_last();
        law_walked_table_coherent(front);
        lemma_walked_len(front);
        crate::snapshot::format::law_add_keeps_coherent(
            walked(front).0,
            captured_entry(modules.last(), walked(front).1.len() as u64),
        );
    }
}

/// An item is kept exactly where its key is a text that is not skipped and its value can be
/// pickled, and the kept items stand in their order.
pub proof fn law_filter_keeps_order(items: Seq<DictItem>)
    requires
        items.len() <= usize::MAX,
    ensures
        forall|k: int|
            0 <= k < kept_positions(items).len() ==> {
                &&& (#[trigger] kept_positions(items)[k]) < items.len()
                &&& kept(items[kept_positions(items)[k] as int])
            },
        forall|a: int, b: int|
            0 <= a < b < kept_positions(items).len() ==> (#[trigger] kept_positions(items)[a]) < (
            #[trigger] kept_positions(items)[b]),
        forall|i: int|
            0 <= i < items.len() && kept(#[trigger] items[i]) ==> kept_positions(items).contains(
                i as usize,
            ),
    decreases items.len(),
{
    if items.len() > 0 {
        let front = items.drop_last();
        let before = kept_positions(front);
        law_filter_keeps_order(front);
        assert(forall|j: int| 0 <= j < front.len() ==> front[j] == items[j]);
        assert forall|i: int|
            0 <= i < items.len() && kept(#[trigger] items[i]) implies kept_positions(
            items,
        ).contains(i as usize) by {
            if i < front.len() {
                assert(kept(front[i]));
                let k = choose|k: int| 0 <= k < before.len() && before[k] == i as usize;
                assert(kept_positions(items)[k] == i as usize);
            } else {
                assert(kept_positions(items)[before.len() as int] == i as usize);
            }
        }
        assert forall|k: int| 0 <= k < kept_positions(items).len() implies {
            &&& (#[trigger] kept_positions(items)[k]) < items.len()
            &&& kept(items[kept_positions(items)[k] as int])
        } by {
            if k < before.len() {
                assert(kept_positions(items)[k] == before[k]);
            }
        }
        assert forall|a: int, b: int| 0 <= a < b < kept_positions(items).len() implies (
        #[trigger] kept_positions(items)[a]) < (#[trigger] kept_positions(items)[b]) by {
            assert(kept_positions(items)[a] == before[a]);
            if b < before.len() {
                assert(kept_positions(items)[b] == before[b]);
            }
        }
    }
}

/// Exactly these modules are imported again in any case: those of the list, and those whose
/// name begins with `_frozen`.
pub proof fn law_what_is_always_imported_again(name: Seq<char>)
    ensures
        always_reimport(name) <==> {
            ||| seq![
                "sys"@,
                "builtins"@,
                "__main__"@,
                "_thread"@,
                "_warnings"@,
                "gc"@,
                "marshal"@,
                "imp"@,
                "importlib"@,
                "zipimport"@,
                "_abc"@,
                "_io"@,
                "_decimal"@,
                "_datetime"@,
                "_csv"@,
                "_json"@,
                "_pickle"@,
            ].contains(name)
            ||| name.len() >= 7 && name.take(7) == "_frozen"@
        },
{
    let list = seq![
        "sys"@,
        "builtins"@,
        "__main__"@,
        "_thread"@,
        "_warnings"@,
        "gc"@,
        "marshal"@,
        "imp"@,
        "importlib"@,
        "zipimport"@,
        "_abc"@,
        "_io"@,
        "_decimal"@,
        "_datetime"@,
        "_csv"@,
        "_json"@,
        "_pickle"@,
    ];
    reveal_strlit("_frozen");
    reveal_strlit("_frozen_importlib");
    reveal_strlit("_frozen_importlib_external");
    assert("_frozen_importlib"@.take(7) =~= "_frozen"@);
    assert("_frozen_importlib_external"@.take(7) =~= "_frozen"@);
    if always_reimport(name) {
        if "_frozen"@.is_prefix_of(name) {
            assert(name.take(7) =~= "_frozen"@);
        } else if !(name.len() >= 7 && name.take(7) == "_frozen"@) {
            assert(list[0] == "sys"@);
            assert(list[1] == "builtins"@);
            assert(list[2] == "__main__"@);
            assert(list[3] == "_thread"@);
            assert(list[4] == "_warnings"@);
            assert(list[5] == "gc"@);
            assert(list[6] == "marshal"@);
            assert(list[7] == "imp"@);
            assert(list[8] == "importlib"@);
            assert(list[9] == "zipimport"@);
            assert(list[10] == "_abc"@);
            assert(list[11] == "_io"@);
            assert(list[12] == "_decimal"@);
            assert(list[13] == "_datetime"@);
            assert(list[14] == "_csv"@);
            assert(list[15] == "_json"@);
            assert(list[16] == "_pickle"@);
        }
    }
    if name.len() >= 7 && name.take(7) == "_frozen"@ {
        assert("_frozen"@.is_prefix_of(name));
    }
}

/// A module is recorded as it is: under its own name, with its own file, pickled exactly where
/// it comes from a file, is not imported again in any case, and could be pickled.
pub proof fn law_module_is_recorded_as_it_is(modules: Seq<ObservedView>, i: int)
    requires
        0 <= i < modules.len(),
        walked(modules).1.len() <= u64::MAX,
    ensures
        ({
            let m = modules[i];
            let (table, blobs) = walked(modules);
            let e = table.entries[i];
            &&& table.entries.len() == modules.len()
            &&& m.name is Some ==> Some(e.name) == m.name
            &&& m.name is None ==> e.name == "<unknown>"@
            &&& e.source_path == m.file
            &&& e.capture_strategy is PickledDict <==> m.pickled is Some && m.file is Some
                && !always_reimport(e.name)
            &&& e.capture_strategy is PickledDict || e.capture_strategy is ReImport
            &&& e.source_hash is Some <==> m.contents is Some && m.file is Some
                && !always_reimport(e.name)
            &&& e.source_hash is Some ==> e.source_hash == Some(
                hash::hex_text(hash::sha256(m.contents->Some_0)),
            )
            &&& e.capture_strategy is PickledDict ==> {
                let at = e.blob_offset->Some_0 as int;
                &&& e.blob_len == Some(m.pickled->Some_0.len() as u64)
                &&& at + m.pickled->Some_0.len() <= blobs.len()
                &&& blobs.subrange(at, at + m.pickled->Some_0.len()) == m.pickled->Some_0
            }
            &&& e.capture_strategy is ReImport ==> e.blob_offset is None && e.blob_len is None
        }),
{
    law_walk_records_every_module(modules, i);
}

/// Looking a name up in the table gives the last module of `sys.modules` that has that key. A
/// module whose key is no text is recorded as `<unknown>`.
pub proof fn law_lookup_gives_the_last_module_of_a_name(
    modules: Seq<ObservedView>,
    i: int,
    name: Seq<char>,
)
    requires
        0 <= i < modules.len() <= usize::MAX,
        walked(modules).1.len() <= u64::MAX,
        modules[i].name == Some(name),
        forall|j: int| i < j < modules.len() ==> (#[trigger] modules[j]).name != Some(name),
        name == "<unknown>"@ ==> forall|j: int|
            i < j < modules.len() ==> (#[trigger] modules[j]).name is Some,
    ensures
        crate::snapshot::format::table_get(walked(modules).0, name) == Some(
            walked(modules).0.entries[i],
        ),
{
    let t = walked(modules).0;
    lemma_walked_len(modules);
    law_walked_table_coherent(modules);
    law_module_is_recorded_as_it_is(modules, i);
    crate::snapshot::format::law_get_finds_last(t, name);
    assert(t.entries[i].name == name);
    assert forall|j: int| i < j < t.entries.len() implies (#[trigger] t.entries[j]).name
        != name by {
        law_module_is_recorded_as_it_is(modules, j);
        assert(modules[j].name != Some(name));
    }
}

/// What `capture_module` gives bears the name of the module and leads to its file and its
/// pickle, which is what it puts behind the blobs.
pub proof fn law_captured_module_is_the_observed_one(
    module: &ObservedModule,
    blob_buf: &mut Vec<u8>,
    r: ModuleEntry,
)
    requires
        call_ensures(capture_module, (module, blob_buf), r),
        old(blob_buf)@.len() <= u64::MAX,
    ensures
        module.name is Some ==> r.name@ == module.name->Some_0@,
        module.name is None ==> r.name@ == "<unknown>"@,
        module.file is Some <==> r.source_path is Some,
        module.file is Some ==> r.source_path->Some_0@ == module.file->Some_0@,
        r.capture_strategy is PickledDict || r.capture_strategy is ReImport,
        r.capture_strategy is PickledDict <==> module.pickled is Some && module.file is Some
            && !always_reimport(r.name@),
        r.capture_strategy is PickledDict ==> r.blob_offset == Some(old(blob_buf)@.len() as u64)
            && r.blob_len == Some(module.pickled->Some_0@.len() as u64) && final(blob_buf)@
            == old(blob_buf)@ + module.pickled->Some_0@,
        r.capture_strategy is ReImport ==> r.blob_offset is None && r.blob_len is None
            && final(blob_buf)@ == old(blob_buf)@,
        r.source_hash is Some <==> module.contents is Some && module.file is Some
            && !always_reimport(r.name@),
        r.source_hash is Some ==> r.source_hash->Some_0@ == hash::hex_text(
            hash::sha256(module.contents->Some_0@),
        ),
{
    assert(old(blob_buf)@ + Seq::<u8>::empty() =~= old(blob_buf)@);
}

/// `walk_sys_modules` gives one entry for each module, in their order, under its own name and
/// with its own file.
pub proof fn law_walk_gives_one_entry_for_each_module(
    modules: &[ObservedModule],
    r: Result<(ModuleTable, Vec<u8>), FreezeError>,
)
    requires
        call_ensures(walk_sys_modules, (modules,), r),
        r is Ok ==> r->Ok_0.1@.len() <= u64::MAX,
    ensures
        r is Ok,
        r->Ok_0.0.entries@.len() == modules@.len(),
        forall|i: int|
            0 <= i < modules@.len() ==> {
                let (m, e) = (modules@[i], #[trigger] r->Ok_0.0.entries@[i]);
                let at = e.blob_offset->Some_0 as int;
                &&& m.name is Some ==> e.name@ == m.name->Some_0@
                &&& m.name is None ==> e.name@ == "<unknown>"@
                &&& m.file is Some <==> e.source_path is Some
                &&& m.file is Some ==> e.source_path->Some_0@ == m.file->Some_0@
                &&& e.capture_strategy is PickledDict <==> m.pickled is Some && m.file is Some
                    && !always_reimport(e.name@)
                &&& e.capture_strategy is PickledDict ==> e.blob_offset is Some && at
                    + m.pickled->Some_0@.len() <= r->Ok_0.1@.len() && r->Ok_0.1@.subrange(
                    at,
                    at + m.pickled->Some_0@.len(),
                ) == m.pickled->Some_0@
            },
{
    let views = observed_views(modules@);
    let t = r->Ok_0.0@;
    assert forall|i: int| 0 <= i < modules@.len() implies {
        let (m, e) = (modules@[i], #[trigger] r->Ok_0.0.entries@[i]);
        let at = e.blob_offset->Some_0 as int;
        &&& m.name is Some ==> e.name@ == m.name->Some_0@
        &&& m.name is None ==> e.name@ == "<unknown>"@
        &&& m.file is Some <==> e.source_path is Some
        &&& m.file is Some ==> e.source_path->Some_0@ == m.file->Some_0@
        &&& e.capture_strategy is PickledDict <==> m.pickled is Some && m.file is Some
            && !always_reimport(e.name@)
        &&& e.capture_strategy is PickledDict ==> e.blob_offset is Some && at
            + m.pickled->Some_0@.len() <= r->Ok_0.1@.len() && r->Ok_0.1@.subrange(
            at,
            at + m.pickled->Some_0@.len(),
        ) == m.pickled->Some_0@
    } by {
        law_module_is_recorded_as_it_is(views, i);
        law_walk_records_every_module(views, i);
        assert(views[i] == modules@[i]@);
        assert(t.entries[i] == r->Ok_0.0.entries@[i]@);
    }
    lemma_walked_len(views);
}

/// Whether a module is to be pickled does not depend on anything but that it has a file and is
/// not imported again in any case.
pub proof fn law_module_with_a_file_is_pickled(name: &str, file: Option<&str>, r: bool)
    requires
        call_ensures(needs_pickle, (name, file), r),
    ensures
        r <==> file is Some && !always_reimport(name@),
{
}

/// Exactly five keys of a module's `__dict__` are never kept.
pub proof fn law_what_is_never_kept(key: Seq<char>)
    ensures
        skipped_key(key) <==> seq![
            "__builtins__"@,
            "__loader__"@,
            "__spec__"@,
            "__cached__"@,
            "__doc__"@,
        ].contains(key),
{
    let list = seq!["__builtins__"@, "__loader__"@, "__spec__"@, "__cached__"@, "__doc__"@];
    assert(list[0] == "__builtins__"@);
    assert(list[1] == "__loader__"@);
    assert(list[2] == "__spec__"@);
    assert(list[3] == "__cached__"@);
    assert(list[4] == "__doc__"@);
}

/// A key is worth a look exactly where it is a text that is not one of those that are never
/// kept.
pub proof fn law_every_other_key_is_wanted(key: Option<&str>, r: bool)
    requires
        call_ensures(wants_key, (key,), r),
    ensures
        r <==> key is Some && !skipped_key(key->Some_0@),
{
}

/// `filter_dict` picks exactly the items whose key is a text that is not one of those that are
/// never kept and whose value can be pickled, each once, in their order.
pub proof fn law_filter_picks_what_can_be_kept(items: &[DictItem], r: Vec<usize>)
    requires
        call_ensures(filter_dict, (items,), r),
        items@.len() <= usize::MAX,
    ensures
        forall|a: int, b: int| 0 <= a < b < r@.len() ==> #[trigger] r@[a] < #[trigger] r@[b],
        forall|k: int| 0 <= k < r@.len() ==> #[trigger] r@[k] < items@.len(),
        forall|i: usize|
            i < items@.len() ==> (#[trigger] r@.contains(i) <==> {
                &&& items@[i as int].picklable
                &&& items@[i as int].key is Some
                &&& !skipped_key(items@[i as int].key->Some_0@)
            }),
{
    law_filter_keeps_order(items@);
    assert forall|i: usize| i < items@.len() implies (#[trigger] r@.contains(i) <==> {
        &&& items@[i as int].picklable
        &&& items@[i as int].key is Some
        &&& !skipped_key(items@[i as int].key->Some_0@)
    }) by {
        if r@.contains(i) {
            let k = choose|k: int| 0 <= k < r@.len() && r@[k] == i;
            assert(kept(items@[kept_positions(items@)[k] as int]));
        }
        if kept(items@[i as int]) {
            assert(kept_positions(items@).contains(i as int as usize));
        }
    }
}

} // verus!
