//! The layout of the sections of a snapshot.
//!
//! The header, the module table and the fd table are laid out field by field, with no
//! padding: the fields of a struct in order; the variants of an enum as their index in a
//! `u32` and then their fields; a list, or a map, as its length in a `u64` and then its
//! items. The scalars are those of `wire`.

use super::format::{
    CaptureStrategy, FdEntry, FdKind, FdTable, ModuleEntry, ModuleTable, NameIndex, SnapshotHeader,
    SnapshotMetadata,
};
use super::format::{EntryView, FdEntryView, FdKindView, HeaderView, MetadataView, StrategyView, TableView};
use super::wire;
use super::wire::Taken;
use crate::error::FreezeError;
use crate::text;
use vstd::prelude::*;
use vstd::string::*;

verus! {

// ─── What the bytes of each section are ─────────────────────────────────────

pub open spec fn opt_u64_bytes(v: Option<u64>) -> Seq<u8> {
    match v {
        None => wire::presence_bytes(false),
        Some(x) => wire::presence_bytes(true) + wire::u64_bytes(x),
    }
}

pub open spec fn opt_text_bytes(v: Option<Seq<char>>) -> Seq<u8> {
    match v {
        None => wire::presence_bytes(false),
        Some(x) => wire::presence_bytes(true) + wire::text_bytes(x),
    }
}

pub open spec fn metadata_bytes(m: MetadataView) -> Seq<u8> {
    wire::text_bytes(m.source_hash) + wire::text_bytes(m.python_impl_version) + wire::text_bytes(
        m.target_triple,
    ) + wire::text_bytes(m.captured_at) + wire::text_bytes(m.framework) + wire::u64_bytes(
        m.import_phase_ms,
    )
}

pub open spec fn header_bytes(h: HeaderView) -> Seq<u8> {
    metadata_bytes(h.metadata) + wire::u64_bytes(h.module_table_offset) + wire::u64_bytes(
        h.fd_table_offset,
    ) + wire::u64_bytes(h.pickle_blob_offset)
}

pub open spec fn strategy_bytes(s: StrategyView) -> Seq<u8> {
    match s {
        StrategyView::PickledDict => wire::u32_bytes(0),
        StrategyView::PickledObject => wire::u32_bytes(1),
        StrategyView::ReImport => wire::u32_bytes(2),
        StrategyView::Plugin { plugin_id } => wire::u32_bytes(3) + wire::text_bytes(plugin_id),
        StrategyView::Skipped { reason } => wire::u32_bytes(4) + wire::text_bytes(reason),
    }
}

pub open spec fn entry_bytes(e: EntryView) -> Seq<u8> {
    wire::text_bytes(e.name) + strategy_bytes(e.capture_strategy) + opt_u64_bytes(e.blob_offset)
        + opt_u64_bytes(e.blob_len) + opt_text_bytes(e.source_path) + opt_text_bytes(e.source_hash)
}

pub open spec fn entries_bytes(s: Seq<EntryView>) -> Seq<u8>
    decreases s.len(),
{
    if s.len() == 0 {
        Seq::empty()
    } else {
        entry_bytes(s[0]) + entries_bytes(s.drop_first())
    }
}

pub open spec fn pair_bytes(p: (Seq<char>, usize)) -> Seq<u8> {
    wire::text_bytes(p.0) + wire::u64_bytes(p.1 as u64)
}

pub open spec fn pairs_bytes(s: Seq<(Seq<char>, usize)>) -> Seq<u8>
    decreases s.len(),
{
    if s.len() == 0 {
        Seq::empty()
    } else {
        pair_bytes(s[0]) + pairs_bytes(s.drop_first())
    }
}

pub open spec fn table_bytes(t: TableView) -> Seq<u8> {
    wire::le_bytes(t.entries.len(), 8) + entries_bytes(t.entries) + wire::le_bytes(
        t.name_index.len(),
        8,
    ) + pairs_bytes(t.name_index)
}

pub open spec fn fd_kind_bytes(k: FdKindView) -> Seq<u8> {
    match k {
        FdKindView::RegularFile { path, offset, flags, mode } => wire::u32_bytes(0)
            + wire::text_bytes(path) + wire::u64_bytes(offset) + wire::i32_bytes(flags)
            + wire::u32_bytes(mode),
        FdKindView::TcpSocket { peer_addr, is_tls } => wire::u32_bytes(1) + wire::text_bytes(
            peer_addr,
        ) + wire::bool_bytes(is_tls),
        FdKindView::UnixSocket { path } => wire::u32_bytes(2) + wire::text_bytes(path),
        FdKindView::Pipe { buffered_data } => wire::u32_bytes(3) + wire::blob_bytes(buffered_data),
        FdKindView::Stdio => wire::u32_bytes(4),
        FdKindView::Unknown { description } => wire::u32_bytes(5) + wire::text_bytes(description),
    }
}

pub open spec fn fd_entry_bytes(e: FdEntryView) -> Seq<u8> {
    wire::i32_bytes(e.fd) + fd_kind_bytes(e.kind)
}

pub open spec fn fd_entries_bytes(s: Seq<FdEntryView>) -> Seq<u8>
    decreases s.len(),
{
    if s.len() == 0 {
        Seq::empty()
    } else {
        fd_entry_bytes(s[0]) + fd_entries_bytes(s.drop_first())
    }
}

pub open spec fn fd_table_bytes(t: Seq<FdEntryView>) -> Seq<u8> {
    wire::le_bytes(t.len(), 8) + fd_entries_bytes(t)
}

// ─── What is taken off the front of a byte sequence ─────────────────────────

/// The reason why the index of a variant is not accepted.
pub open spec fn variant_error(tag: u32, variants: u64) -> Seq<char> {
    "invalid value: integer `"@ + text::decimal(tag as nat)
        + "`, expected variant index 0 <= i < "@ + text::decimal(variants as nat)
}

/// The reason why a position is not accepted that does not fit into a `usize`.
pub open spec fn index_error(v: u64) -> Seq<char> {
    "invalid value: integer `"@ + text::decimal(v as nat) + "`, expected usize"@
}

/// The reason why the length of a list is not accepted that does not fit into a `usize`.
pub open spec fn size_error(n: u64) -> Seq<char> {
    "Invalid size "@ + text::decimal(n as nat) + ": sizes must fit in a usize (0 to "@
        + text::decimal(usize::MAX as nat) + ")"@
}

/// The length of a list.
pub open spec fn take_len(s: Seq<u8>) -> Taken<usize> {
    match wire::take_u64(s) {
        Taken::Failed(e) => Taken::Failed(e),
        Taken::Got(n, rest) => if n > usize::MAX {
            Taken::Failed(size_error(n))
        } else {
            Taken::Got(n as usize, rest)
        },
    }
}

pub open spec fn take_opt_u64(s: Seq<u8>) -> Taken<Option<u64>> {
    match wire::take_presence(s) {
        Taken::Failed(e) => Taken::Failed(e),
        Taken::Got(false, rest) => Taken::Got(None, rest),
        Taken::Got(true, rest) => match wire::take_u64(rest) {
            Taken::Failed(e) => Taken::Failed(e),
            Taken::Got(v, rest) => Taken::Got(Some(v), rest),
        },
    }
}

pub open spec fn take_opt_text(s: Seq<u8>) -> Taken<Option<Seq<char>>> {
    match wire::take_presence(s) {
        Taken::Failed(e) => Taken::Failed(e),
        Taken::Got(false, rest) => Taken::Got(None, rest),
        Taken::Got(true, rest) => match wire::take_text(rest) {
            Taken::Failed(e) => Taken::Failed(e),
            Taken::Got(v, rest) => Taken::Got(Some(v), rest),
        },
    }
}

pub open spec fn take_metadata(s: Seq<u8>) -> Taken<MetadataView> {
    match wire::take_text(s) {
        Taken::Failed(e) => Taken::Failed(e),
        Taken::Got(source_hash, rest) => match wire::take_text(rest) {
            Taken::Failed(e) => Taken::Failed(e),
            Taken::Got(python_impl_version, rest) => match wire::take_text(rest) {
                Taken::Failed(e) => Taken::Failed(e),
                Taken::Got(target_triple, rest) => match wire::take_text(rest) {
                    Taken::Failed(e) => Taken::Failed(e),
                    Taken::Got(captured_at, rest) => match wire::take_text(rest) {
                        Taken::Failed(e) => Taken::Failed(e),
                        Taken::Got(framework, rest) => match wire::take_u64(rest) {
                            Taken::Failed(e) => Taken::Failed(e),
                            Taken::Got(import_phase_ms, rest) => Taken::Got(MetadataView {
                                        source_hash,
                                        python_impl_version,
                                        target_triple,
                                        captured_at,
                                        framework,
                                        import_phase_ms,
                                    }, rest),
                        },
                    },
                },
            },
        },
    }
}

pub open spec fn take_header(s: Seq<u8>) -> Taken<HeaderView> {
    match take_metadata(s) {
        Taken::Failed(e) => Taken::Failed(e),
        Taken::Got(metadata, rest) => match wire::take_u64(rest) {
            Taken::Failed(e) => Taken::Failed(e),
            Taken::Got(module_table_offset, rest) => match wire::take_u64(rest) {
                Taken::Failed(e) => Taken::Failed(e),
                Taken::Got(fd_table_offset, rest) => match wire::take_u64(rest) {
                    Taken::Failed(e) => Taken::Failed(e),
                    Taken::Got(pickle_blob_offset, rest) => Taken::Got(HeaderView {
                                metadata,
                                module_table_offset,
                                fd_table_offset,
                                pickle_blob_offset,
                            }, rest),
                },
            },
        },
    }
}

pub open spec fn take_strategy(s: Seq<u8>) -> Taken<StrategyView> {
    match wire::take_u32(s) {
        Taken::Failed(e) => Taken::Failed(e),
        Taken::Got(tag, rest) => if tag == 0 {
            Taken::Got(StrategyView::PickledDict, rest)
        } else if tag == 1 {
            Taken::Got(StrategyView::PickledObject, rest)
        } else if tag == 2 {
            Taken::Got(StrategyView::ReImport, rest)
        } else if tag == 3 {
            match wire::take_text(rest) {
                Taken::Failed(e) => Taken::Failed(e),
                Taken::Got(plugin_id, rest) => Taken::Got(StrategyView::Plugin { plugin_id }, rest),
            }
        } else if tag == 4 {
            match wire::take_text(rest) {
                Taken::Failed(e) => Taken::Failed(e),
                Taken::Got(reason, rest) => Taken::Got(StrategyView::Skipped { reason }, rest),
            }
        } else {
            Taken::Failed(variant_error(tag, 5))
        },
    }
}

pub open spec fn take_entry(s: Seq<u8>) -> Taken<EntryView> {
    match wire::take_text(s) {
        Taken::Failed(e) => Taken::Failed(e),
        Taken::Got(name, rest) => match take_strategy(rest) {
            Taken::Failed(e) => Taken::Failed(e),
            Taken::Got(capture_strategy, rest) => match take_opt_u64(rest) {
                Taken::Failed(e) => Taken::Failed(e),
                Taken::Got(blob_offset, rest) => match take_opt_u64(rest) {
                    Taken::Failed(e) => Taken::Failed(e),
                    Taken::Got(blob_len, rest) => match take_opt_text(rest) {
                        Taken::Failed(e) => Taken::Failed(e),
                        Taken::Got(source_path, rest) => match take_opt_text(rest) {
                            Taken::Failed(e) => Taken::Failed(e),
                            Taken::Got(source_hash, rest) => Taken::Got(EntryView {
                                        name,
                                        capture_strategy,
                                        blob_offset,
                                        blob_len,
                                        source_path,
                                        source_hash,
                                    }, rest),
                        },
                    },
                },
            },
        },
    }
}

/// `n` items, one behind the other.
pub open spec fn take_entries(n: nat, s: Seq<u8>) -> Taken<Seq<EntryView>>
    decreases n,
{
    if n == 0 {
        Taken::Got(Seq::empty(), s)
    } else {
        match take_entry(s) {
            Taken::Failed(e) => Taken::Failed(e),
            Taken::Got(first, rest) => match take_entries((n - 1) as nat, rest) {
                Taken::Failed(e) => Taken::Failed(e),
                Taken::Got(others, rest) => Taken::Got(seq![first] + others, rest),
            },
        }
    }
}

pub open spec fn take_pair(s: Seq<u8>) -> Taken<(Seq<char>, usize)> {
    match wire::take_text(s) {
        Taken::Failed(e) => Taken::Failed(e),
        Taken::Got(name, rest) => match wire::take_u64(rest) {
            Taken::Failed(e) => Taken::Failed(e),
            Taken::Got(v, rest) => if v > usize::MAX {
                Taken::Failed(index_error(v))
            } else {
                Taken::Got((name, v as usize), rest)
            },
        },
    }
}

/// `n` items, one behind the other.
pub open spec fn take_pairs(n: nat, s: Seq<u8>) -> Taken<Seq<(Seq<char>, usize)>>
    decreases n,
{
    if n == 0 {
        Taken::Got(Seq::empty(), s)
    } else {
        match take_pair(s) {
            Taken::Failed(e) => Taken::Failed(e),
            Taken::Got(first, rest) => match take_pairs((n - 1) as nat, rest) {
                Taken::Failed(e) => Taken::Failed(e),
                Taken::Got(others, rest) => Taken::Got(seq![first] + others, rest),
            },
        }
    }
}

/// The index that results from inserting the pairs one after the other.
pub open spec fn collect_pairs(s: Seq<(Seq<char>, usize)>) -> Seq<(Seq<char>, usize)>
    decreases s.len(),
{
    if s.len() == 0 {
        Seq::empty()
    } else {
        crate::snapshot::format::pairs_insert(collect_pairs(s.drop_last()), s.last().0, s.last().1)
    }
}

pub open spec fn take_table(s: Seq<u8>) -> Taken<TableView> {
    match take_len(s) {
        Taken::Failed(e) => Taken::Failed(e),
        Taken::Got(n, rest) => match take_entries(n as nat, rest) {
            Taken::Failed(e) => Taken::Failed(e),
            Taken::Got(entries, rest) => match take_len(rest) {
                Taken::Failed(e) => Taken::Failed(e),
                Taken::Got(m, rest) => match take_pairs(m as nat, rest) {
                    Taken::Failed(e) => Taken::Failed(e),
                    Taken::Got(pairs, rest) => Taken::Got(TableView { entries, name_index: collect_pairs(pairs) }, rest),
                },
            },
        },
    }
}

pub open spec fn take_fd_kind(s: Seq<u8>) -> Taken<FdKindView> {
    match wire::take_u32(s) {
        Taken::Failed(e) => Taken::Failed(e),
        Taken::Got(tag, rest) => if tag == 0 {
            match wire::take_text(rest) {
                Taken::Failed(e) => Taken::Failed(e),
                Taken::Got(path, rest) => match wire::take_u64(rest) {
                    Taken::Failed(e) => Taken::Failed(e),
                    Taken::Got(offset, rest) => match wire::take_i32(rest) {
                        Taken::Failed(e) => Taken::Failed(e),
                        Taken::Got(flags, rest) => match wire::take_u32(rest) {
                            Taken::Failed(e) => Taken::Failed(e),
                            Taken::Got(mode, rest) => Taken::Got(FdKindView::RegularFile { path, offset, flags, mode }, rest),
                        },
                    },
                },
            }
        } else if tag == 1 {
            match wire::take_text(rest) {
                Taken::Failed(e) => Taken::Failed(e),
                Taken::Got(peer_addr, rest) => match wire::take_bool(rest) {
                    Taken::Failed(e) => Taken::Failed(e),
                    Taken::Got(is_tls, rest) => Taken::Got(FdKindView::TcpSocket { peer_addr, is_tls }, rest),
                },
            }
        } else if tag == 2 {
            match wire::take_text(rest) {
                Taken::Failed(e) => Taken::Failed(e),
                Taken::Got(path, rest) => Taken::Got(FdKindView::UnixSocket { path }, rest),
            }
        } else if tag == 3 {
            match wire::take_blob(rest) {
                Taken::Failed(e) => Taken::Failed(e),
                Taken::Got(buffered_data, rest) => Taken::Got(FdKindView::Pipe { buffered_data }, rest),
            }
        } else if tag == 4 {
            Taken::Got(FdKindView::Stdio, rest)
        } else if tag == 5 {
            match wire::take_text(rest) {
                Taken::Failed(e) => Taken::Failed(e),
                Taken::Got(description, rest) => Taken::Got(FdKindView::Unknown { description }, rest),
            }
        } else {
            Taken::Failed(variant_error(tag, 6))
        },
    }
}

pub open spec fn take_fd_entry(s: Seq<u8>) -> Taken<FdEntryView> {
    match wire::take_i32(s) {
        Taken::Failed(e) => Taken::Failed(e),
        Taken::Got(fd, rest) => match take_fd_kind(rest) {
            Taken::Failed(e) => Taken::Failed(e),
            Taken::Got(kind, rest) => Taken::Got(FdEntryView { fd, kind }, rest),
        },
    }
}

/// `n` items, one behind the other.
pub open spec fn take_fd_entries(n: nat, s: Seq<u8>) -> Taken<Seq<FdEntryView>>
    decreases n,
{
    if n == 0 {
        Taken::Got(Seq::empty(), s)
    } else {
        match take_fd_entry(s) {
            Taken::Failed(e) => Taken::Failed(e),
            Taken::Got(first, rest) => match take_fd_entries((n - 1) as nat, rest) {
                Taken::Failed(e) => Taken::Failed(e),
                Taken::Got(others, rest) => Taken::Got(seq![first] + others, rest),
            },
        }
    }
}

pub open spec fn take_fd_table(s: Seq<u8>) -> Taken<Seq<FdEntryView>> {
    match take_len(s) {
        Taken::Failed(e) => Taken::Failed(e),
        Taken::Got(n, rest) => take_fd_entries(n as nat, rest),
    }
}

// ─── Taking back what was put ───────────────────────────────────────────────

/// Taking an optional number off the front of what begins with its encoding gives it back.
pub proof fn lemma_take_opt_u64(v: Option<u64>, tail: Seq<u8>)
    ensures
        take_opt_u64(opt_u64_bytes(v) + tail) == Taken::Got(v, tail),
{
    match v {
        None => {
            wire::lemma_take_presence(false, tail);
        },
        Some(x) => {
            assert(opt_u64_bytes(v) + tail =~= wire::presence_bytes(true) + (wire::u64_bytes(x)
                + tail));
            wire::lemma_take_presence(true, wire::u64_bytes(x) + tail);
            wire::lemma_take_u64(x, tail);
        },
    }
}

/// Taking an optional text off the front of what begins with its encoding gives it back.
pub proof fn lemma_take_opt_text(v: Option<Seq<char>>, tail: Seq<u8>)
    requires
        opt_text_bytes(v).len() <= u64::MAX,
    ensures
        take_opt_text(opt_text_bytes(v) + tail) == Taken::Got(v, tail),
{
    match v {
        None => {
            wire::lemma_take_presence(false, tail);
        },
        Some(x) => {
            assert(opt_text_bytes(v) + tail =~= wire::presence_bytes(true) + (wire::text_bytes(x)
                + tail));
            wire::lemma_take_presence(true, wire::text_bytes(x) + tail);
            wire::lemma_take_text(x, tail);
        },
    }
}

/// Taking the metadata off the front of what begins with its encoding gives it back.
pub proof fn lemma_take_metadata(m: MetadataView, tail: Seq<u8>)
    requires
        metadata_bytes(m).len() <= u64::MAX,
    ensures
        take_metadata(metadata_bytes(m) + tail) == Taken::Got(m, tail),
{
    let t5 = wire::u64_bytes(m.import_phase_ms) + tail;
    let t4 = wire::text_bytes(m.framework) + t5;
    let t3 = wire::text_bytes(m.captured_at) + t4;
    let t2 = wire::text_bytes(m.target_triple) + t3;
    let t1 = wire::text_bytes(m.python_impl_version) + t2;
    let t0 = wire::text_bytes(m.source_hash) + t1;
    assert(metadata_bytes(m) + tail =~= t0);
    wire::lemma_take_text(m.source_hash, t1);
    wire::lemma_take_text(m.python_impl_version, t2);
    wire::lemma_take_text(m.target_triple, t3);
    wire::lemma_take_text(m.captured_at, t4);
    wire::lemma_take_text(m.framework, t5);
    wire::lemma_take_u64(m.import_phase_ms, tail);
}

/// Taking a header off the front of what begins with its encoding gives it back.
pub proof fn lemma_take_header(h: HeaderView, tail: Seq<u8>)
    requires
        header_bytes(h).len() <= u64::MAX,
    ensures
        take_header(header_bytes(h) + tail) == Taken::Got(h, tail),
{
    let t3 = wire::u64_bytes(h.pickle_blob_offset) + tail;
    let t2 = wire::u64_bytes(h.fd_table_offset) + t3;
    let t1 = wire::u64_bytes(h.module_table_offset) + t2;
    let t0 = metadata_bytes(h.metadata) + t1;
    assert(header_bytes(h) + tail =~= t0);
    lemma_take_metadata(h.metadata, t1);
    wire::lemma_take_u64(h.module_table_offset, t2);
    wire::lemma_take_u64(h.fd_table_offset, t3);
    wire::lemma_take_u64(h.pickle_blob_offset, tail);
}

/// Taking a strategy off the front of what begins with its encoding gives it back.
pub proof fn lemma_take_strategy(v: StrategyView, tail: Seq<u8>)
    requires
        strategy_bytes(v).len() <= u64::MAX,
    ensures
        take_strategy(strategy_bytes(v) + tail) == Taken::Got(v, tail),
{
    match v {
        StrategyView::PickledDict => wire::lemma_take_u32(0, tail),
        StrategyView::PickledObject => wire::lemma_take_u32(1, tail),
        StrategyView::ReImport => wire::lemma_take_u32(2, tail),
        StrategyView::Plugin { plugin_id } => {
            let t1 = wire::text_bytes(plugin_id) + tail;
            assert(strategy_bytes(v) + tail =~= wire::u32_bytes(3) + t1);
            wire::lemma_take_u32(3, t1);
            wire::lemma_take_text(plugin_id, tail);
        },
        StrategyView::Skipped { reason } => {
            let t1 = wire::text_bytes(reason) + tail;
            assert(strategy_bytes(v) + tail =~= wire::u32_bytes(4) + t1);
            wire::lemma_take_u32(4, t1);
            wire::lemma_take_text(reason, tail);
        },
    }
}

/// Taking a module entry off the front of what begins with its encoding gives it back.
pub proof fn lemma_take_entry(e: EntryView, tail: Seq<u8>)
    requires
        entry_bytes(e).len() <= u64::MAX,
    ensures
        take_entry(entry_bytes(e) + tail) == Taken::Got(e, tail),
{
    let t5 = opt_text_bytes(e.source_hash) + tail;
    let t4 = opt_text_bytes(e.source_path) + t5;
    let t3 = opt_u64_bytes(e.blob_len) + t4;
    let t2 = opt_u64_bytes(e.blob_offset) + t3;
    let t1 = strategy_bytes(e.capture_strategy) + t2;
    let t0 = wire::text_bytes(e.name) + t1;
    assert(entry_bytes(e) + tail =~= t0);
    wire::lemma_take_text(e.name, t1);
    lemma_take_strategy(e.capture_strategy, t2);
    lemma_take_opt_u64(e.blob_offset, t3);
    lemma_take_opt_u64(e.blob_len, t4);
    lemma_take_opt_text(e.source_path, t5);
    lemma_take_opt_text(e.source_hash, tail);
}

/// Taking module entries off the front of what begins with their encodings gives them back.
#[verifier::spinoff_prover]
#[verifier::rlimit(40)]
pub proof fn lemma_take_entries(s: Seq<EntryView>, tail: Seq<u8>)
    requires
        entries_bytes(s).len() <= u64::MAX,
    ensures
        take_entries(s.len(), entries_bytes(s) + tail) == Taken::Got(s, tail),
    decreases s.len(),
{
    if s.len() == 0 {
        assert(entries_bytes(s) + tail =~= tail);
        assert(s =~= Seq::empty());
    } else {
        let t1 = entries_bytes(s.drop_first()) + tail;
        assert(entries_bytes(s) + tail =~= entry_bytes(s[0]) + t1);
        lemma_take_entry(s[0], t1);
        lemma_take_entries(s.drop_first(), tail);
        assert(seq![s[0]] + s.drop_first() =~= s);
    }
}

/// Taking a pair of the index off the front of what begins with its encoding gives it back.
pub proof fn lemma_take_pair(p: (Seq<char>, usize), tail: Seq<u8>)
    requires
        pair_bytes(p).len() <= u64::MAX,
    ensures
        take_pair(pair_bytes(p) + tail) == Taken::Got(p, tail),
{
    let t1 = wire::u64_bytes(p.1 as u64) + tail;
    assert(pair_bytes(p) + tail =~= wire::text_bytes(p.0) + t1);
    wire::lemma_take_text(p.0, t1);
    wire::lemma_take_u64(p.1 as u64, tail);
}

/// Taking pairs of the index off the front of what begins with their encodings gives them back.
pub proof fn lemma_take_pairs(s: Seq<(Seq<char>, usize)>, tail: Seq<u8>)
    requires
        pairs_bytes(s).len() <= u64::MAX,
    ensures
        take_pairs(s.len(), pairs_bytes(s) + tail) == Taken::Got(s, tail),
    decreases s.len(),
{
    if s.len() == 0 {
        assert(pairs_bytes(s) + tail =~= tail);
        assert(s =~= Seq::empty());
    } else {
        let t1 = pairs_bytes(s.drop_first()) + tail;
        assert(pairs_bytes(s) + tail =~= pair_bytes(s[0]) + t1);
        lemma_take_pair(s[0], t1);
        lemma_take_pairs(s.drop_first(), tail);
        assert(seq![s[0]] + s.drop_first() =~= s);
    }
}

/// Distinct names, inserted one after the other, give the list itself.
pub proof fn lemma_collect_distinct(s: Seq<(Seq<char>, usize)>)
    requires
        crate::snapshot::format::distinct_names(s),
    ensures
        collect_pairs(s) == s,
    decreases s.len(),
{
    if s.len() > 0 {
        let d = s.drop_last();
        assert forall|i: int, j: int|
            0 <= i < d.len() && 0 <= j < d.len() && i != j implies (#[trigger] d[i]).0 != (
        #[trigger] d[j]).0 by {
            assert(s[i].0 != s[j].0);
        }
        lemma_collect_distinct(d);
        crate::snapshot::format::lemma_pair_position(d, s.last().0);
        if let Some(i) = crate::snapshot::format::pair_position(d, s.last().0) {
            assert(s[i].0 != s[s.len() - 1].0);
        }
        assert(d.push(s.last()) =~= s);
    } else {
        assert(s =~= Seq::empty());
    }
}

/// Taking a module table off the front of what begins with its encoding gives it back.
pub proof fn lemma_take_table(t: TableView, tail: Seq<u8>)
    requires
        table_bytes(t).len() <= u64::MAX,
        t.entries.len() <= usize::MAX,
        t.name_index.len() <= usize::MAX,
        crate::snapshot::format::distinct_names(t.name_index),
    ensures
        take_table(table_bytes(t) + tail) == Taken::Got(t, tail),
{
    let t3 = pairs_bytes(t.name_index) + tail;
    let t2 = wire::le_bytes(t.name_index.len(), 8) + t3;
    let t1 = entries_bytes(t.entries) + t2;
    assert(table_bytes(t) + tail =~= wire::le_bytes(t.entries.len(), 8) + t1);
    wire::lemma_take_u64(t.entries.len() as u64, t1);
    lemma_take_entries(t.entries, t2);
    wire::lemma_take_u64(t.name_index.len() as u64, t3);
    lemma_take_pairs(t.name_index, tail);
    lemma_collect_distinct(t.name_index);
}

/// Taking the kind of a file descriptor off the front of what begins with its encoding
/// gives it back.
#[verifier::spinoff_prover]
#[verifier::rlimit(40)]
pub proof fn lemma_take_fd_kind(k: FdKindView, tail: Seq<u8>)
    requires
        fd_kind_bytes(k).len() <= u64::MAX,
    ensures
        take_fd_kind(fd_kind_bytes(k) + tail) == Taken::Got(k, tail),
{
    match k {
        FdKindView::RegularFile { path, offset, flags, mode } => {
            let t4 = wire::u32_bytes(mode) + tail;
            let t3 = wire::i32_bytes(flags) + t4;
            let t2 = wire::u64_bytes(offset) + t3;
            let t1 = wire::text_bytes(path) + t2;
            assert(fd_kind_bytes(k) + tail =~= wire::u32_bytes(0) + t1);
            wire::lemma_take_u32(0, t1);
            wire::lemma_take_text(path, t2);
            wire::lemma_take_u64(offset, t3);
            wire::lemma_take_i32(flags, t4);
            wire::lemma_take_u32(mode, tail);
        },
        FdKindView::TcpSocket { peer_addr, is_tls } => {
            let t2 = wire::bool_bytes(is_tls) + tail;
            let t1 = wire::text_bytes(peer_addr) + t2;
            assert(fd_kind_bytes(k) + tail =~= wire::u32_bytes(1) + t1);
            wire::lemma_take_u32(1, t1);
            wire::lemma_take_text(peer_addr, t2);
            wire::lemma_take_bool(is_tls, tail);
        },
        FdKindView::UnixSocket { path } => {
            let t1 = wire::text_bytes(path) + tail;
            assert(fd_kind_bytes(k) + tail =~= wire::u32_bytes(2) + t1);
            wire::lemma_take_u32(2, t1);
            wire::lemma_take_text(path, tail);
        },
        FdKindView::Pipe { buffered_data } => {
            let t1 = wire::blob_bytes(buffered_data) + tail;
            assert(fd_kind_bytes(k) + tail =~= wire::u32_bytes(3) + t1);
            wire::lemma_take_u32(3, t1);
            wire::lemma_take_blob(buffered_data, tail);
        },
        FdKindView::Stdio => wire::lemma_take_u32(4, tail),
        FdKindView::Unknown { description } => {
            let t1 = wire::text_bytes(description) + tail;
            assert(fd_kind_bytes(k) + tail =~= wire::u32_bytes(5) + t1);
            wire::lemma_take_u32(5, t1);
            wire::lemma_take_text(description, tail);
        },
    }
}

/// Taking an entry of the fd table off the front of what begins with its encoding gives it back.
pub proof fn lemma_take_fd_entry(e: FdEntryView, tail: Seq<u8>)
    requires
        fd_entry_bytes(e).len() <= u64::MAX,
    ensures
        take_fd_entry(fd_entry_bytes(e) + tail) == Taken::Got(e, tail),
{
    let t1 = fd_kind_bytes(e.kind) + tail;
    let t0 = wire::i32_bytes(e.fd) + t1;
    assert(fd_entry_bytes(e) + tail =~= t0);
    wire::lemma_take_i32(e.fd, t1);
    lemma_take_fd_kind(e.kind, tail);
}

/// Taking entries of the fd table off the front of what begins with their encodings gives them back.
pub proof fn lemma_take_fd_entries(s: Seq<FdEntryView>, tail: Seq<u8>)
    requires
        fd_entries_bytes(s).len() <= u64::MAX,
    ensures
        take_fd_entries(s.len(), fd_entries_bytes(s) + tail) == Taken::Got(s, tail),
    decreases s.len(),
{
    if s.len() == 0 {
        assert(fd_entries_bytes(s) + tail =~= tail);
        assert(s =~= Seq::empty());
    } else {
        let t1 = fd_entries_bytes(s.drop_first()) + tail;
        assert(fd_entries_bytes(s) + tail =~= fd_entry_bytes(s[0]) + t1);
        lemma_take_fd_entry(s[0], t1);
        lemma_take_fd_entries(s.drop_first(), tail);
        assert(seq![s[0]] + s.drop_first() =~= s);
    }
}

/// Taking an fd table off the front of what begins with its encoding gives it back.
pub proof fn lemma_take_fd_table(t: Seq<FdEntryView>, tail: Seq<u8>)
    requires
        fd_table_bytes(t).len() <= u64::MAX,
        t.len() <= usize::MAX,
    ensures
        take_fd_table(fd_table_bytes(t) + tail) == Taken::Got(t, tail),
{
    let t1 = fd_entries_bytes(t) + tail;
    assert(fd_table_bytes(t) + tail =~= wire::le_bytes(t.len(), 8) + t1);
    wire::lemma_take_u64(t.len() as u64, t1);
    lemma_take_fd_entries(t, tail);
}

// ─── Appending ──────────────────────────────────────────────────────────────

proof fn lemma_entries_push(s: Seq<EntryView>, e: EntryView)
    ensures
        entries_bytes(s.push(e)) == entries_bytes(s) + entry_bytes(e),
    decreases s.len(),
{
    if s.len() == 0 {
        assert(entries_bytes(s.push(e).drop_first()) == Seq::<u8>::empty());
        assert(entries_bytes(s.push(e)) =~= entries_bytes(s) + entry_bytes(e));
    } else {
        lemma_entries_push(s.drop_first(), e);
        assert(s.push(e).drop_first() =~= s.drop_first().push(e));
        assert(entries_bytes(s.push(e)) =~= entries_bytes(s) + entry_bytes(e));
    }
}

proof fn lemma_pairs_push(s: Seq<(Seq<char>, usize)>, e: (Seq<char>, usize))
    ensures
        pairs_bytes(s.push(e)) == pairs_bytes(s) + pair_bytes(e),
    decreases s.len(),
{
    if s.len() == 0 {
        assert(pairs_bytes(s.push(e).drop_first()) == Seq::<u8>::empty());
        assert(pairs_bytes(s.push(e)) =~= pairs_bytes(s) + pair_bytes(e));
    } else {
        lemma_pairs_push(s.drop_first(), e);
        assert(s.push(e).drop_first() =~= s.drop_first().push(e));
        assert(pairs_bytes(s.push(e)) =~= pairs_bytes(s) + pair_bytes(e));
    }
}

proof fn lemma_fd_entries_push(s: Seq<FdEntryView>, e: FdEntryView)
    ensures
        fd_entries_bytes(s.push(e)) == fd_entries_bytes(s) + fd_entry_bytes(e),
    decreases s.len(),
{
    if s.len() == 0 {
        assert(fd_entries_bytes(s.push(e).drop_first()) == Seq::<u8>::empty());
        assert(fd_entries_bytes(s.push(e)) =~= fd_entries_bytes(s) + fd_entry_bytes(e));
    } else {
        lemma_fd_entries_push(s.drop_first(), e);
        assert(s.push(e).drop_first() =~= s.drop_first().push(e));
        assert(fd_entries_bytes(s.push(e)) =~= fd_entries_bytes(s) + fd_entry_bytes(e));
    }
}

fn put_opt_u64(out: &mut Vec<u8>, v: Option<u64>) -> (r: Result<(), FreezeError>)
    ensures
        r is Ok,
        final(out)@ == old(out)@ + opt_u64_bytes(v),
{
    match v {
        None => wire::put_presence(out, false),
        Some(x) => {
            wire::put_presence(out, true)?;
            wire::put_u64(out, x)?;
            assert(out@ =~= old(out)@ + opt_u64_bytes(v));
            Ok(())
        },
    }
}

fn put_opt_text(out: &mut Vec<u8>, v: &Option<String>) -> (r: Result<(), FreezeError>)
    ensures
        r is Ok,
        final(out)@ == old(out)@ + opt_text_bytes(crate::snapshot::format::text_of(*v)),
{
    match v {
        None => wire::put_presence(out, false),
        Some(x) => {
            wire::put_presence(out, true)?;
            wire::put_text(out, x.as_str())?;
            assert(out@ =~= old(out)@ + opt_text_bytes(crate::snapshot::format::text_of(*v)));
            Ok(())
        },
    }
}

fn put_metadata(out: &mut Vec<u8>, m: &SnapshotMetadata) -> (r: Result<(), FreezeError>)
    ensures
        r is Ok,
        final(out)@ == old(out)@ + metadata_bytes(m@),
{
    wire::put_text(out, m.source_hash.as_str())?;
    wire::put_text(out, m.python_impl_version.as_str())?;
    wire::put_text(out, m.target_triple.as_str())?;
    wire::put_text(out, m.captured_at.as_str())?;
    wire::put_text(out, m.framework.as_str())?;
    wire::put_u64(out, m.import_phase_ms)?;
    assert(out@ =~= old(out)@ + metadata_bytes(m@));
    Ok(())
}

/// Appends a header.
pub fn put_header(out: &mut Vec<u8>, h: &SnapshotHeader) -> (r: Result<(), FreezeError>)
    ensures
        r is Ok,
        final(out)@ == old(out)@ + header_bytes(h@),
{
    put_metadata(out, &h.metadata)?;
    wire::put_u64(out, h.module_table_offset)?;
    wire::put_u64(out, h.fd_table_offset)?;
    wire::put_u64(out, h.pickle_blob_offset)?;
    assert(out@ =~= old(out)@ + header_bytes(h@));
    Ok(())
}

fn put_strategy(out: &mut Vec<u8>, s: &CaptureStrategy) -> (r: Result<(), FreezeError>)
    ensures
        r is Ok,
        final(out)@ == old(out)@ + strategy_bytes(s@),
{
    match s {
        CaptureStrategy::PickledDict => wire::put_u32(out, 0),
        CaptureStrategy::PickledObject => wire::put_u32(out, 1),
        CaptureStrategy::ReImport => wire::put_u32(out, 2),
        CaptureStrategy::Plugin { plugin_id } => {
            wire::put_u32(out, 3)?;
            wire::put_text(out, plugin_id.as_str())?;
            assert(out@ =~= old(out)@ + strategy_bytes(s@));
            Ok(())
        },
        CaptureStrategy::Skipped { reason } => {
            wire::put_u32(out, 4)?;
            wire::put_text(out, reason.as_str())?;
            assert(out@ =~= old(out)@ + strategy_bytes(s@));
            Ok(())
        },
    }
}

fn put_entry(out: &mut Vec<u8>, e: &ModuleEntry) -> (r: Result<(), FreezeError>)
    ensures
        r is Ok,
        final(out)@ == old(out)@ + entry_bytes(e@),
{
    wire::put_text(out, e.name.as_str())?;
    put_strategy(out, &e.capture_strategy)?;
    put_opt_u64(out, e.blob_offset)?;
    put_opt_u64(out, e.blob_len)?;
    let ghost half = wire::text_bytes(e@.name) + strategy_bytes(e@.capture_strategy)
        + opt_u64_bytes(e@.blob_offset) + opt_u64_bytes(e@.blob_len);
    assert(out@ =~= old(out)@ + half);
    put_opt_text(out, &e.source_path)?;
    put_opt_text(out, &e.source_hash)?;
    assert(out@ =~= old(out)@ + entry_bytes(e@));
    Ok(())
}

/// Appends a module table.
pub fn put_table(out: &mut Vec<u8>, t: &ModuleTable) -> (r: Result<(), FreezeError>)
    ensures
        r is Ok,
        final(out)@ == old(out)@ + table_bytes(t@),
{
    let ghost start = out@;
    wire::put_u64(out, t.entries.len() as u64)?;
    let ghost before_entries = out@;
    let mut i: usize = 0;
    while i < t.entries.len()
        invariant
            i <= t.entries.len(),
            out@ == before_entries + entries_bytes(t@.entries.take(i as int)),
        decreases t.entries.len() - i,
    {
        put_entry(out, &t.entries[i])?;
        proof {
            lemma_entries_push(t@.entries.take(i as int), t@.entries[i as int]);
            assert(t@.entries.take(i + 1) =~= t@.entries.take(i as int).push(t@.entries[i as int]));
            assert(out@ =~= before_entries + entries_bytes(t@.entries.take(i + 1)));
        }
        i += 1;
    }
    assert(t@.entries.take(i as int) =~= t@.entries);
    let n: usize = t.name_index.len();
    wire::put_u64(out, n as u64)?;
    let ghost before_pairs = out@;
    let mut k: usize = 0;
    while k < n
        invariant
            k <= n,
            n == t.name_index@.len(),
            out@ == before_pairs + pairs_bytes(t.name_index@.take(k as int)),
        decreases n - k,
    {
        let (name, position) = t.name_index.pair(k);
        let ghost before = out@;
        wire::put_text(out, name)?;
        wire::put_u64(out, position as u64)?;
        proof {
            let p = t.name_index@[k as int];
            assert(out@ =~= before + pair_bytes(p));
            lemma_pairs_push(t.name_index@.take(k as int), p);
            assert(t.name_index@.take(k + 1) =~= t.name_index@.take(k as int).push(p));
            assert(out@ =~= before_pairs + pairs_bytes(t.name_index@.take(k + 1)));
        }
        k += 1;
    }
    assert(t.name_index@.take(k as int) =~= t.name_index@);
    assert(out@ =~= start + table_bytes(t@));
    Ok(())
}

fn put_fd_kind(out: &mut Vec<u8>, kind: &FdKind) -> (r: Result<(), FreezeError>)
    ensures
        r is Ok,
        final(out)@ == old(out)@ + fd_kind_bytes(kind@),
{
    match kind {
        FdKind::RegularFile { path, offset, flags, mode } => {
            wire::put_u32(out, 0)?;
            wire::put_text(out, path.as_str())?;
            wire::put_u64(out, *offset)?;
            wire::put_i32(out, *flags)?;
            wire::put_u32(out, *mode)?;
        },
        FdKind::TcpSocket { peer_addr, is_tls } => {
            wire::put_u32(out, 1)?;
            wire::put_text(out, peer_addr.as_str())?;
            wire::put_bool(out, *is_tls)?;
        },
        FdKind::UnixSocket { path } => {
            wire::put_u32(out, 2)?;
            wire::put_text(out, path.as_str())?;
        },
        FdKind::Pipe { buffered_data } => {
            wire::put_u32(out, 3)?;
            wire::put_blob(out, buffered_data.as_slice())?;
        },
        FdKind::Stdio => {
            wire::put_u32(out, 4)?;
        },
        FdKind::Unknown { description } => {
            wire::put_u32(out, 5)?;
            wire::put_text(out, description.as_str())?;
        },
    }
    assert(out@ =~= old(out)@ + fd_kind_bytes(kind@));
    Ok(())
}

/// Appends an fd table.
pub fn put_fd_table(out: &mut Vec<u8>, t: &FdTable) -> (r: Result<(), FreezeError>)
    ensures
        r is Ok,
        final(out)@ == old(out)@ + fd_table_bytes(t@),
{
    let ghost start = out@;
    wire::put_u64(out, t.entries.len() as u64)?;
    let ghost before_entries = out@;
    let mut i: usize = 0;
    while i < t.entries.len()
        invariant
            i <= t.entries.len(),
            out@ == before_entries + fd_entries_bytes(t@.take(i as int)),
        decreases t.entries.len() - i,
    {
        let ghost before = out@;
        wire::put_i32(out, t.entries[i].fd)?;
        put_fd_kind(out, &t.entries[i].kind)?;
        proof {
            let e = t@[i as int];
            assert(out@ =~= before + fd_entry_bytes(e));
            lemma_fd_entries_push(t@.take(i as int), e);
            assert(t@.take(i + 1) =~= t@.take(i as int).push(e));
            assert(out@ =~= before_entries + fd_entries_bytes(t@.take(i + 1)));
        }
        i += 1;
    }
    assert(t@.take(i as int) =~= t@);
    assert(out@ =~= start + fd_table_bytes(t@));
    Ok(())
}

// ─── Reading at a position ──────────────────────────────────────────────────

/// Why the index of a variant is not accepted.
fn bad_variant(tag: u32, variants: u64) -> (r: String)
    ensures
        r@ == variant_error(tag, variants),
{
    let mut out = "invalid value: integer `".to_owned();
    text::append_decimal(&mut out, tag as u64);
    out.append("`, expected variant index 0 <= i < ");
    text::append_decimal(&mut out, variants);
    out
}

/// Why a position is not accepted.
fn bad_index(v: u64) -> (r: String)
    ensures
        r@ == index_error(v),
{
    let mut out = "invalid value: integer `".to_owned();
    text::append_decimal(&mut out, v);
    out.append("`, expected usize");
    out
}

/// Why the length of a list is not accepted.
fn bad_size(n: u64) -> (r: String)
    ensures
        r@ == size_error(n),
{
    let mut out = "Invalid size ".to_owned();
    text::append_decimal(&mut out, n);
    out.append(": sizes must fit in a usize (0 to ");
    text::append_decimal(&mut out, usize::MAX as u64);
    out.append(")");
    out
}

fn read_len(data: &[u8], pos: usize) -> (r: Result<(usize, usize), String>)
    requires
        pos <= data@.len(),
    ensures
        match take_len(data@.skip(pos as int)) {
            Taken::Got(v, rest) => r matches Ok((x, p)) && x == v && wire::moved(
                data@,
                pos as int,
                p as int,
                rest,
            ),
            Taken::Failed(e) => r matches Err(t) && t@ == e,
        },
{
    let (n, pos) = wire::read_u64(data, pos)?;
    if n > usize::MAX as u64 {
        return Err(bad_size(n));
    }
    Ok((n as usize, pos))
}

fn read_opt_u64(data: &[u8], pos: usize) -> (r: Result<(Option<u64>, usize), String>)
    requires
        pos <= data@.len(),
    ensures
        match take_opt_u64(data@.skip(pos as int)) {
            Taken::Got(v, rest) => r matches Ok((x, p)) && x == v && wire::moved(
                data@,
                pos as int,
                p as int,
                rest,
            ),
            Taken::Failed(e) => r matches Err(t) && t@ == e,
        },
{
    let (present, pos) = wire::read_presence(data, pos)?;
    if present {
        let (v, pos) = wire::read_u64(data, pos)?;
        Ok((Some(v), pos))
    } else {
        Ok((None, pos))
    }
}

fn read_opt_text(data: &[u8], pos: usize) -> (r: Result<(Option<String>, usize), String>)
    requires
        pos <= data@.len(),
    ensures
        match take_opt_text(data@.skip(pos as int)) {
            Taken::Got(v, rest) => r matches Ok((x, p)) && crate::snapshot::format::text_of(x) == v && wire::moved(
                data@,
                pos as int,
                p as int,
                rest,
            ),
            Taken::Failed(e) => r matches Err(t) && t@ == e,
        },
{
    let (present, pos) = wire::read_presence(data, pos)?;
    if present {
        let (v, pos) = wire::read_text(data, pos)?;
        Ok((Some(v), pos))
    } else {
        Ok((None, pos))
    }
}

fn read_metadata(data: &[u8], pos: usize) -> (r: Result<(SnapshotMetadata, usize), String>)
    requires
        pos <= data@.len(),
    ensures
        match take_metadata(data@.skip(pos as int)) {
            Taken::Got(v, rest) => r matches Ok((x, p)) && x@ == v && wire::moved(
                data@,
                pos as int,
                p as int,
                rest,
            ),
            Taken::Failed(e) => r matches Err(t) && t@ == e,
        },
{
    let (source_hash, pos) = wire::read_text(data, pos)?;
    let (python_impl_version, pos) = wire::read_text(data, pos)?;
    let (target_triple, pos) = wire::read_text(data, pos)?;
    let (captured_at, pos) = wire::read_text(data, pos)?;
    let (framework, pos) = wire::read_text(data, pos)?;
    let (import_phase_ms, pos) = wire::read_u64(data, pos)?;
    Ok(
        (
            SnapshotMetadata {
                source_hash,
                python_impl_version,
                target_triple,
                captured_at,
                framework,
                import_phase_ms,
            },
            pos,
        ),
    )
}

/// Reads a header at `pos`, or gives the reason why there is none.
pub fn read_header(data: &[u8], pos: usize) -> (r: Result<(SnapshotHeader, usize), String>)
    requires
        pos <= data@.len(),
    ensures
        match take_header(data@.skip(pos as int)) {
            Taken::Got(v, rest) => r matches Ok((x, p)) && x@ == v && wire::moved(
                data@,
                pos as int,
                p as int,
                rest,
            ),
            Taken::Failed(e) => r matches Err(t) && t@ == e,
        },
{
    let (metadata, pos) = read_metadata(data, pos)?;
    let (module_table_offset, pos) = wire::read_u64(data, pos)?;
    let (fd_table_offset, pos) = wire::read_u64(data, pos)?;
    let (pickle_blob_offset, pos) = wire::read_u64(data, pos)?;
    Ok(
        (
            SnapshotHeader { metadata, module_table_offset, fd_table_offset, pickle_blob_offset },
            pos,
        ),
    )
}

fn read_strategy(data: &[u8], pos: usize) -> (r: Result<(CaptureStrategy, usize), String>)
    requires
        pos <= data@.len(),
    ensures
        match take_strategy(data@.skip(pos as int)) {
            Taken::Got(v, rest) => r matches Ok((x, p)) && x@ == v && wire::moved(
                data@,
                pos as int,
                p as int,
                rest,
            ),
            Taken::Failed(e) => r matches Err(t) && t@ == e,
        },
{
    let (tag, pos) = wire::read_u32(data, pos)?;
    match tag {
        0 => Ok((CaptureStrategy::PickledDict, pos)),
        1 => Ok((CaptureStrategy::PickledObject, pos)),
        2 => Ok((CaptureStrategy::ReImport, pos)),
        3 => {
            let (plugin_id, pos) = wire::read_text(data, pos)?;
            Ok((CaptureStrategy::Plugin { plugin_id }, pos))
        },
        4 => {
            let (reason, pos) = wire::read_text(data, pos)?;
            Ok((CaptureStrategy::Skipped { reason }, pos))
        },
        _ => Err(bad_variant(tag, 5)),
    }
}

fn read_entry(data: &[u8], pos: usize) -> (r: Result<(ModuleEntry, usize), String>)
    requires
        pos <= data@.len(),
    ensures
        match take_entry(data@.skip(pos as int)) {
            Taken::Got(v, rest) => r matches Ok((x, p)) && x@ == v && wire::moved(
                data@,
                pos as int,
                p as int,
                rest,
            ),
            Taken::Failed(e) => r matches Err(t) && t@ == e,
        },
{
    let (name, pos) = wire::read_text(data, pos)?;
    let (capture_strategy, pos) = read_strategy(data, pos)?;
    let (blob_offset, pos) = read_opt_u64(data, pos)?;
    let (blob_len, pos) = read_opt_u64(data, pos)?;
    let (source_path, pos) = read_opt_text(data, pos)?;
    let (source_hash, pos) = read_opt_text(data, pos)?;
    Ok(
        (
            ModuleEntry { name, capture_strategy, blob_offset, blob_len, source_path, source_hash },
            pos,
        ),
    )
}

/// What remains to be taken, put behind what was taken already.
spec fn behind<T>(front: Seq<T>, back: Taken<Seq<T>>) -> Taken<Seq<T>> {
    match back {
        Taken::Failed(e) => Taken::Failed(e),
        Taken::Got(items, rest) => Taken::Got(front + items, rest),
    }
}

fn read_entries(data: &[u8], pos: usize, n: usize) -> (r: Result<(Vec<ModuleEntry>, usize), String>)
    requires
        pos <= data@.len(),
    ensures
        match take_entries(n as nat, data@.skip(pos as int)) {
            Taken::Got(v, rest) => r matches Ok((x, p)) && crate::snapshot::format::entry_views(x@) == v && wire::moved(
                data@,
                pos as int,
                p as int,
                rest,
            ),
            Taken::Failed(e) => r matches Err(t) && t@ == e,
        },
{
    let mut entries: Vec<ModuleEntry> = Vec::new();
    let mut at = pos;
    let mut i: usize = 0;
    let ghost all = take_entries(n as nat, data@.skip(pos as int));
    proof {
        if all is Got {
            assert(Seq::<EntryView>::empty() + all->Got_0 =~= all->Got_0);
        }
    }
    while i < n
        invariant
            i <= n,
            pos <= at <= data@.len(),
            all == take_entries(n as nat, data@.skip(pos as int)),
            all == behind(
                crate::snapshot::format::entry_views(entries@),
                take_entries((n - i) as nat, data@.skip(at as int)),
            ),
        decreases n - i,
    {
        let ghost before = crate::snapshot::format::entry_views(entries@);
        let ghost rest = data@.skip(at as int);
        let (entry, next) = read_entry(data, at)?;
        entries.push(entry);
        proof {
            let after = crate::snapshot::format::entry_views(entries@);
            assert(after =~= before.push(entry@));
            if let Taken::Got(others, r2) = take_entries((n - i - 1) as nat, data@.skip(next as int)) {
                assert(before + (seq![entry@] + others) =~= after + others);
            }
        }
        at = next;
        i += 1;
    }
    proof {
        let v = crate::snapshot::format::entry_views(entries@);
        assert(v + Seq::<EntryView>::empty() =~= v);
    }
    Ok((entries, at))
}

fn read_index(data: &[u8], pos: usize, n: usize) -> (r: Result<(NameIndex, usize), String>)
    requires
        pos <= data@.len(),
    ensures
        match take_pairs(n as nat, data@.skip(pos as int)) {
            Taken::Got(v, rest) => r matches Ok((x, p)) && x@ == collect_pairs(v) && wire::moved(
                data@,
                pos as int,
                p as int,
                rest,
            ),
            Taken::Failed(e) => r matches Err(t) && t@ == e,
        },
{
    let mut index = NameIndex::new();
    let ghost mut taken: Seq<(Seq<char>, usize)> = Seq::empty();
    let mut at = pos;
    let mut i: usize = 0;
    let ghost all = take_pairs(n as nat, data@.skip(pos as int));
    proof {
        if all is Got {
            assert(taken + all->Got_0 =~= all->Got_0);
        }
    }
    while i < n
        invariant
            i <= n,
            pos <= at <= data@.len(),
            index@ == collect_pairs(taken),
            all == take_pairs(n as nat, data@.skip(pos as int)),
            all == behind(taken, take_pairs((n - i) as nat, data@.skip(at as int))),
        decreases n - i,
    {
        let (name, next) = wire::read_text(data, at)?;
        let (position, next) = wire::read_u64(data, next)?;
        if position > usize::MAX as u64 {
            return Err(bad_index(position));
        }
        let ghost pair = (name@, position as usize);
        index.insert(name, position as usize);
        proof {
            assert(taken.push(pair).drop_last() =~= taken);
            if let Taken::Got(others, r2) = take_pairs((n - i - 1) as nat, data@.skip(next as int)) {
                assert(taken + (seq![pair] + others) =~= taken.push(pair) + others);
            }
            taken = taken.push(pair);
        }
        at = next;
        i += 1;
    }
    proof {
        assert(taken + Seq::<(Seq<char>, usize)>::empty() =~= taken);
    }
    Ok((index, at))
}

/// Reads a module table at `pos`, or gives the reason why there is none.
pub fn read_table(data: &[u8], pos: usize) -> (r: Result<(ModuleTable, usize), String>)
    requires
        pos <= data@.len(),
    ensures
        match take_table(data@.skip(pos as int)) {
            Taken::Got(v, rest) => r matches Ok((x, p)) && x@ == v && wire::moved(
                data@,
                pos as int,
                p as int,
                rest,
            ),
            Taken::Failed(e) => r matches Err(t) && t@ == e,
        },
{
    let (n, pos) = read_len(data, pos)?;
    let (entries, pos) = read_entries(data, pos, n)?;
    let (m, pos) = read_len(data, pos)?;
    let (name_index, pos) = read_index(data, pos, m)?;
    Ok((ModuleTable { entries, name_index }, pos))
}

fn read_fd_kind(data: &[u8], pos: usize) -> (r: Result<(FdKind, usize), String>)
    requires
        pos <= data@.len(),
    ensures
        match take_fd_kind(data@.skip(pos as int)) {
            Taken::Got(v, rest) => r matches Ok((x, p)) && x@ == v && wire::moved(
                data@,
                pos as int,
                p as int,
                rest,
            ),
            Taken::Failed(e) => r matches Err(t) && t@ == e,
        },
{
    let (tag, pos) = wire::read_u32(data, pos)?;
    match tag {
        0 => {
            let (path, pos) = wire::read_text(data, pos)?;
            let (offset, pos) = wire::read_u64(data, pos)?;
            let (flags, pos) = wire::read_i32(data, pos)?;
            let (mode, pos) = wire::read_u32(data, pos)?;
            Ok((FdKind::RegularFile { path, offset, flags, mode }, pos))
        },
        1 => {
            let (peer_addr, pos) = wire::read_text(data, pos)?;
            let (is_tls, pos) = wire::read_bool(data, pos)?;
            Ok((FdKind::TcpSocket { peer_addr, is_tls }, pos))
        },
        2 => {
            let (path, pos) = wire::read_text(data, pos)?;
            Ok((FdKind::UnixSocket { path }, pos))
        },
        3 => {
            let (buffered_data, pos) = wire::read_blob(data, pos)?;
            Ok((FdKind::Pipe { buffered_data }, pos))
        },
        4 => Ok((FdKind::Stdio, pos)),
        5 => {
            let (description, pos) = wire::read_text(data, pos)?;
            Ok((FdKind::Unknown { description }, pos))
        },
        _ => Err(bad_variant(tag, 6)),
    }
}

fn read_fd_entry(data: &[u8], pos: usize) -> (r: Result<(FdEntry, usize), String>)
    requires
        pos <= data@.len(),
    ensures
        match take_fd_entry(data@.skip(pos as int)) {
            Taken::Got(v, rest) => r matches Ok((x, p)) && x@ == v && wire::moved(
                data@,
                pos as int,
                p as int,
                rest,
            ),
            Taken::Failed(e) => r matches Err(t) && t@ == e,
        },
{
    let (fd, pos) = wire::read_i32(data, pos)?;
    let (kind, pos) = read_fd_kind(data, pos)?;
    Ok((FdEntry { fd, kind }, pos))
}

/// Reads an fd table at `pos`, or gives the reason why there is none.
pub fn read_fd_table(data: &[u8], pos: usize) -> (r: Result<(FdTable, usize), String>)
    requires
        pos <= data@.len(),
    ensures
        match take_fd_table(data@.skip(pos as int)) {
            Taken::Got(v, rest) => r matches Ok((x, p)) && x@ == v && wire::moved(
                data@,
                pos as int,
                p as int,
                rest,
            ),
            Taken::Failed(e) => r matches Err(t) && t@ == e,
        },
{
    let (n, start) = read_len(data, pos)?;
    let mut table = FdTable { entries: Vec::new() };
    let mut at = start;
    let mut i: usize = 0;
    let ghost all = take_fd_entries(n as nat, data@.skip(start as int));
    proof {
        if all is Got {
            assert(table@ + all->Got_0 =~= all->Got_0);
        }
    }
    while i < n
        invariant
            i <= n,
            pos <= start <= at <= data@.len(),
            take_len(data@.skip(pos as int)) == Taken::Got(n, data@.skip(start as int)),
            all == take_fd_entries(n as nat, data@.skip(start as int)),
            all == behind(table@, take_fd_entries((n - i) as nat, data@.skip(at as int))),
        decreases n - i,
    {
        let ghost before = table@;
        let (entry, next) = read_fd_entry(data, at)?;
        table.entries.push(entry);
        proof {
            assert(table@ =~= before.push(entry@));
            if let Taken::Got(others, r2) = take_fd_entries(
                (n - i - 1) as nat,
                data@.skip(next as int),
            ) {
                assert(before + (seq![entry@] + others) =~= table@ + others);
            }
        }
        at = next;
        i += 1;
    }
    proof {
        assert(table@ + Seq::<FdEntryView>::empty() =~= table@);
    }
    Ok((table, at))
}

// ─── Laws ───────────────────────────────────────────────────────────────────

/// Whatever is taken as an optional number is its encoding.
pub proof fn law_taken_opt_u64_stands_there(s: Seq<u8>, v: Option<u64>, rest: Seq<u8>)
    requires
        take_opt_u64(s) == Taken::Got(v, rest),
    ensures
        s == opt_u64_bytes(v) + rest,
{
    let p = wire::take_presence(s)->Got_0;
    let t1 = wire::take_presence(s)->Got_1;
    wire::law_taken_presence_stands_there(s, p, t1);
    if p {
        wire::law_taken_u64_stands_there(t1, v->Some_0, rest);
        assert(s =~= opt_u64_bytes(v) + rest);
    }
}

/// Whatever is taken as an optional text is its encoding.
pub proof fn law_taken_opt_text_stands_there(s: Seq<u8>, v: Option<Seq<char>>, rest: Seq<u8>)
    requires
        take_opt_text(s) == Taken::Got(v, rest),
    ensures
        s == opt_text_bytes(v) + rest,
{
    let p = wire::take_presence(s)->Got_0;
    let t1 = wire::take_presence(s)->Got_1;
    wire::law_taken_presence_stands_there(s, p, t1);
    if p {
        wire::law_taken_text_stands_there(t1, v->Some_0, rest);
        assert(s =~= opt_text_bytes(v) + rest);
    }
}

proof fn lemma_taken_metadata(s: Seq<u8>, m: MetadataView, rest: Seq<u8>)
    requires
        take_metadata(s) == Taken::Got(m, rest),
    ensures
        s == metadata_bytes(m) + rest,
{
    let t1 = wire::take_text(s)->Got_1;
    let t2 = wire::take_text(t1)->Got_1;
    let t3 = wire::take_text(t2)->Got_1;
    let t4 = wire::take_text(t3)->Got_1;
    let t5 = wire::take_text(t4)->Got_1;
    wire::law_taken_text_stands_there(s, m.source_hash, t1);
    wire::law_taken_text_stands_there(t1, m.python_impl_version, t2);
    wire::law_taken_text_stands_there(t2, m.target_triple, t3);
    wire::law_taken_text_stands_there(t3, m.captured_at, t4);
    wire::law_taken_text_stands_there(t4, m.framework, t5);
    wire::law_taken_u64_stands_there(t5, m.import_phase_ms, rest);
    assert(s =~= metadata_bytes(m) + rest);
}

/// Whatever is taken as a header is its encoding, so that no other bytes pass for it.
pub proof fn law_taken_header_stands_there(s: Seq<u8>, h: HeaderView, rest: Seq<u8>)
    requires
        take_header(s) == Taken::Got(h, rest),
    ensures
        s == header_bytes(h) + rest,
{
    let t1 = take_metadata(s)->Got_1;
    let t2 = wire::take_u64(t1)->Got_1;
    let t3 = wire::take_u64(t2)->Got_1;
    lemma_taken_metadata(s, h.metadata, t1);
    wire::law_taken_u64_stands_there(t1, h.module_table_offset, t2);
    wire::law_taken_u64_stands_there(t2, h.fd_table_offset, t3);
    wire::law_taken_u64_stands_there(t3, h.pickle_blob_offset, rest);
    assert(s =~= header_bytes(h) + rest);
}

proof fn lemma_taken_strategy(s: Seq<u8>, v: StrategyView, rest: Seq<u8>)
    requires
        take_strategy(s) == Taken::Got(v, rest),
    ensures
        s == strategy_bytes(v) + rest,
{
    let tag = wire::take_u32(s)->Got_0;
    let t1 = wire::take_u32(s)->Got_1;
    wire::law_taken_u32_stands_there(s, tag, t1);
    match v {
        StrategyView::Plugin { plugin_id } => {
            wire::law_taken_text_stands_there(t1, plugin_id, rest);
            assert(s =~= strategy_bytes(v) + rest);
        },
        StrategyView::Skipped { reason } => {
            wire::law_taken_text_stands_there(t1, reason, rest);
            assert(s =~= strategy_bytes(v) + rest);
        },
        _ => {},
    }
}

/// Whatever is taken as the entry of a module is its encoding.
pub proof fn law_taken_entry_stands_there(s: Seq<u8>, e: EntryView, rest: Seq<u8>)
    requires
        take_entry(s) == Taken::Got(e, rest),
    ensures
        s == entry_bytes(e) + rest,
{
    let t1 = wire::take_text(s)->Got_1;
    let t2 = take_strategy(t1)->Got_1;
    let t3 = take_opt_u64(t2)->Got_1;
    let t4 = take_opt_u64(t3)->Got_1;
    let t5 = take_opt_text(t4)->Got_1;
    wire::law_taken_text_stands_there(s, e.name, t1);
    lemma_taken_strategy(t1, e.capture_strategy, t2);
    law_taken_opt_u64_stands_there(t2, e.blob_offset, t3);
    law_taken_opt_u64_stands_there(t3, e.blob_len, t4);
    law_taken_opt_text_stands_there(t4, e.source_path, t5);
    law_taken_opt_text_stands_there(t5, e.source_hash, rest);
    assert(s =~= entry_bytes(e) + rest);
}

proof fn lemma_taken_entries(n: nat, s: Seq<u8>, v: Seq<EntryView>, rest: Seq<u8>)
    requires
        take_entries(n, s) == Taken::Got(v, rest),
    ensures
        v.len() == n,
        s == entries_bytes(v) + rest,
    decreases n,
{
    if n == 0 {
        assert(s =~= entries_bytes(v) + rest);
    } else {
        let first = take_entry(s)->Got_0;
        let t1 = take_entry(s)->Got_1;
        let others = take_entries((n - 1) as nat, t1)->Got_0;
        law_taken_entry_stands_there(s, first, t1);
        lemma_taken_entries((n - 1) as nat, t1, others, rest);
        assert(v.drop_first() =~= others);
        assert(s =~= entries_bytes(v) + rest);
    }
}

proof fn lemma_taken_pairs(n: nat, s: Seq<u8>, v: Seq<(Seq<char>, usize)>, rest: Seq<u8>)
    requires
        take_pairs(n, s) == Taken::Got(v, rest),
    ensures
        v.len() == n,
        s == pairs_bytes(v) + rest,
    decreases n,
{
    if n == 0 {
        assert(s =~= pairs_bytes(v) + rest);
    } else {
        let first = take_pair(s)->Got_0;
        let t1 = take_pair(s)->Got_1;
        let others = take_pairs((n - 1) as nat, t1)->Got_0;
        let t0 = wire::take_text(s)->Got_1;
        wire::law_taken_text_stands_there(s, first.0, t0);
        wire::law_taken_u64_stands_there(t0, first.1 as u64, t1);
        assert(s =~= pair_bytes(first) + t1);
        lemma_taken_pairs((n - 1) as nat, t1, others, rest);
        assert(v.drop_first() =~= others);
        assert(s =~= pairs_bytes(v) + rest);
    }
}

/// Whatever is taken as a module table is the encoding of its entries and of a list of pairs;
/// its index gives each name of that list the position that stands behind the name last.
pub proof fn law_taken_table_stands_there(s: Seq<u8>, t: TableView, rest: Seq<u8>) -> (pairs: Seq<
    (Seq<char>, usize),
>)
    requires
        take_table(s) == Taken::Got(t, rest),
    ensures
        s == wire::le_bytes(t.entries.len(), 8) + entries_bytes(t.entries) + wire::le_bytes(
            pairs.len(),
            8,
        ) + pairs_bytes(pairs) + rest,
        crate::snapshot::format::distinct_names(t.name_index),
        forall|i: int|
            0 <= i < pairs.len() && (forall|j: int|
                i < j < pairs.len() ==> (#[trigger] pairs[j]).0 != pairs[i].0)
                ==> crate::snapshot::format::pairs_get(t.name_index, (#[trigger] pairs[i]).0)
                == Some(pairs[i].1),
{
    let n = take_len(s)->Got_0;
    let t1 = take_len(s)->Got_1;
    let t2 = take_entries(n as nat, t1)->Got_1;
    let m = take_len(t2)->Got_0;
    let t3 = take_len(t2)->Got_1;
    let pairs = take_pairs(m as nat, t3)->Got_0;
    wire::law_taken_u64_stands_there(s, n as u64, t1);
    lemma_taken_entries(n as nat, t1, t.entries, t2);
    wire::law_taken_u64_stands_there(t2, m as u64, t3);
    lemma_taken_pairs(m as nat, t3, pairs, rest);
    assert(s =~= wire::le_bytes(t.entries.len(), 8) + entries_bytes(t.entries) + wire::le_bytes(
        pairs.len(),
        8,
    ) + pairs_bytes(pairs) + rest);
    lemma_collected(pairs);
    assert forall|i: int|
        0 <= i < pairs.len() && (forall|j: int|
            i < j < pairs.len() ==> (#[trigger] pairs[j]).0
                != pairs[i].0) implies crate::snapshot::format::pairs_get(
        t.name_index,
        (#[trigger] pairs[i]).0,
    ) == Some(pairs[i].1) by {
        lemma_last_pair_counts(pairs, i);
    }
    pairs
}

proof fn lemma_collected(s: Seq<(Seq<char>, usize)>)
    ensures
        crate::snapshot::format::distinct_names(collect_pairs(s)),
    decreases s.len(),
{
    if s.len() > 0 {
        lemma_collected(s.drop_last());
        crate::snapshot::format::lemma_pairs_insert(
            collect_pairs(s.drop_last()),
            s.last().0,
            s.last().1,
            s.last().0,
        );
    }
}

proof fn lemma_last_pair_counts(s: Seq<(Seq<char>, usize)>, i: int)
    requires
        0 <= i < s.len(),
        forall|j: int| i < j < s.len() ==> (#[trigger] s[j]).0 != s[i].0,
    ensures
        crate::snapshot::format::pairs_get(collect_pairs(s), s[i].0) == Some(s[i].1),
    decreases s.len(),
{
    let d = s.drop_last();
    lemma_collected(d);
    crate::snapshot::format::lemma_pairs_insert(
        collect_pairs(d),
        s.last().0,
        s.last().1,
        s[i].0,
    );
    if i < d.len() {
        assert(s[s.len() - 1].0 != s[i].0);
        assert forall|j: int| i < j < d.len() implies (#[trigger] d[j]).0 != d[i].0 by {
            assert(d[j] == s[j]);
        }
        lemma_last_pair_counts(d, i);
    }
}

/// Whatever is taken as the kind of a descriptor is its encoding.
#[verifier::spinoff_prover]
#[verifier::rlimit(40)]
pub proof fn law_taken_fd_kind_stands_there(s: Seq<u8>, k: FdKindView, rest: Seq<u8>)
    requires
        take_fd_kind(s) == Taken::Got(k, rest),
    ensures
        s == fd_kind_bytes(k) + rest,
{
    let tag = wire::take_u32(s)->Got_0;
    let t1 = wire::take_u32(s)->Got_1;
    wire::law_taken_u32_stands_there(s, tag, t1);
    match k {
        FdKindView::RegularFile { path, offset, flags, mode } => {
            let t2 = wire::take_text(t1)->Got_1;
            let t3 = wire::take_u64(t2)->Got_1;
            let t4 = wire::take_i32(t3)->Got_1;
            wire::law_taken_text_stands_there(t1, path, t2);
            wire::law_taken_u64_stands_there(t2, offset, t3);
            wire::law_taken_i32_stands_there(t3, flags, t4);
            wire::law_taken_u32_stands_there(t4, mode, rest);
            assert(s =~= fd_kind_bytes(k) + rest);
        },
        FdKindView::TcpSocket { peer_addr, is_tls } => {
            let t2 = wire::take_text(t1)->Got_1;
            wire::law_taken_text_stands_there(t1, peer_addr, t2);
            wire::law_taken_bool_stands_there(t2, is_tls, rest);
            assert(s =~= fd_kind_bytes(k) + rest);
        },
        FdKindView::UnixSocket { path } => {
            wire::law_taken_text_stands_there(t1, path, rest);
            assert(s =~= fd_kind_bytes(k) + rest);
        },
        FdKindView::Pipe { buffered_data } => {
            wire::law_taken_blob_stands_there(t1, buffered_data, rest);
            assert(s =~= fd_kind_bytes(k) + rest);
        },
        FdKindView::Stdio => {},
        FdKindView::Unknown { description } => {
            wire::law_taken_text_stands_there(t1, description, rest);
            assert(s =~= fd_kind_bytes(k) + rest);
        },
    }
}

proof fn lemma_taken_fd_entries(n: nat, s: Seq<u8>, v: Seq<FdEntryView>, rest: Seq<u8>)
    requires
        take_fd_entries(n, s) == Taken::Got(v, rest),
    ensures
        v.len() == n,
        s == fd_entries_bytes(v) + rest,
    decreases n,
{
    if n == 0 {
        assert(s =~= fd_entries_bytes(v) + rest);
    } else {
        let first = take_fd_entry(s)->Got_0;
        let t1 = take_fd_entry(s)->Got_1;
        let t0 = wire::take_i32(s)->Got_1;
        let others = take_fd_entries((n - 1) as nat, t1)->Got_0;
        wire::law_taken_i32_stands_there(s, first.fd, t0);
        law_taken_fd_kind_stands_there(t0, first.kind, t1);
        assert(s =~= fd_entry_bytes(first) + t1);
        lemma_taken_fd_entries((n - 1) as nat, t1, others, rest);
        assert(v.drop_first() =~= others);
        assert(s =~= fd_entries_bytes(v) + rest);
    }
}

/// Whatever is taken as an fd table is its encoding, so that no other bytes pass for it.
pub proof fn law_taken_fd_table_stands_there(s: Seq<u8>, t: Seq<FdEntryView>, rest: Seq<u8>)
    requires
        take_fd_table(s) == Taken::Got(t, rest),
    ensures
        s == fd_table_bytes(t) + rest,
{
    let n = take_len(s)->Got_0;
    let t1 = take_len(s)->Got_1;
    wire::law_taken_u64_stands_there(s, n as u64, t1);
    lemma_taken_fd_entries(n as nat, t1, t, rest);
    assert(s =~= fd_table_bytes(t) + rest);
}

/// A variant that there is none of is refused by its number.
pub proof fn law_unknown_variant_is_refused(tag: u32, rest: Seq<u8>)
    ensures
        tag >= 5 ==> take_strategy(wire::u32_bytes(tag) + rest) == Taken::<StrategyView>::Failed(
            "invalid value: integer `"@ + text::decimal(tag as nat)
                + "`, expected variant index 0 <= i < "@ + text::decimal(5),
        ),
        tag >= 6 ==> take_fd_kind(wire::u32_bytes(tag) + rest) == Taken::<FdKindView>::Failed(
            "invalid value: integer `"@ + text::decimal(tag as nat)
                + "`, expected variant index 0 <= i < "@ + text::decimal(6),
        ),
{
    wire::lemma_take_u32(tag, rest);
}

/// The fields of a header stand one behind the other: five texts and a number of the metadata,
/// and three offsets.
pub proof fn law_header_is_its_fields(h: HeaderView)
    ensures
        header_bytes(h) == wire::text_bytes(h.metadata.source_hash) + wire::text_bytes(
            h.metadata.python_impl_version,
        ) + wire::text_bytes(h.metadata.target_triple) + wire::text_bytes(h.metadata.captured_at)
            + wire::text_bytes(h.metadata.framework) + wire::u64_bytes(h.metadata.import_phase_ms)
            + wire::u64_bytes(h.module_table_offset) + wire::u64_bytes(h.fd_table_offset)
            + wire::u64_bytes(h.pickle_blob_offset),
{
}

/// The encodings of the items of a list stand one behind the other, so that lists put together
/// are encoded as their encodings put together.
pub proof fn law_lists_are_their_items(
    a: Seq<EntryView>,
    b: Seq<EntryView>,
    c: Seq<FdEntryView>,
    d: Seq<FdEntryView>,
)
    ensures
        entries_bytes(a + b) == entries_bytes(a) + entries_bytes(b),
        fd_entries_bytes(c + d) == fd_entries_bytes(c) + fd_entries_bytes(d),
        a.len() == 1 ==> entries_bytes(a) == entry_bytes(a[0]),
        c.len() == 1 ==> fd_entries_bytes(c) == fd_entry_bytes(c[0]),
    decreases a.len() + c.len(),
{
    if a.len() == 0 {
        assert(a + b =~= b);
        assert(entries_bytes(a + b) =~= entries_bytes(a) + entries_bytes(b));
    } else {
        law_lists_are_their_items(a.drop_first(), b, Seq::empty(), d);
        assert((a + b).drop_first() =~= a.drop_first() + b);
        assert(entries_bytes(a + b) =~= entries_bytes(a) + entries_bytes(b));
        if a.len() == 1 {
            assert(entries_bytes(a.drop_first()) =~= Seq::empty());
            assert(entries_bytes(a) =~= entry_bytes(a[0]));
        }
    }
    if c.len() == 0 {
        assert(c + d =~= d);
        assert(fd_entries_bytes(c + d) =~= fd_entries_bytes(c) + fd_entries_bytes(d));
    } else {
        law_lists_are_their_items(Seq::empty(), b, c.drop_first(), d);
        assert((c + d).drop_first() =~= c.drop_first() + d);
        assert(fd_entries_bytes(c + d) =~= fd_entries_bytes(c) + fd_entries_bytes(d));
        if c.len() == 1 {
            assert(fd_entries_bytes(c.drop_first()) =~= Seq::empty());
            assert(fd_entries_bytes(c) =~= fd_entry_bytes(c[0]));
        }
    }
}

} // verus!
