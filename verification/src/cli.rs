//! The rules of the command line: what `pyfreeze run`, `info`, `invalidate` and `benchmark`
//! launch, print and return.

use crate::error::FreezeError;
use crate::snapshot::format::{CaptureStrategy, EntryView, ModuleTable};
use crate::snapshot::{hash, SnapshotReader};
use crate::text;
use vstd::prelude::*;
use vstd::slice::slice_subrange;
use vstd::string::*;
use vstd::utf8::*;

verus! {

// ─── Where a snapshot is kept ───────────────────────────────────────────────

/// Texts with a space between each two.
pub open spec fn joined_by_spaces(parts: Seq<Seq<char>>) -> Seq<char>
    decreases parts.len(),
{
    if parts.len() == 0 {
        Seq::empty()
    } else if parts.len() == 1 {
        parts[0]
    } else {
        joined_by_spaces(parts.drop_last()) + " "@ + parts.last()
    }
}

/// What a run is known by: its arguments and its framework.
pub open spec fn run_key(args: Seq<Seq<char>>, framework: Seq<char>) -> Seq<char> {
    joined_by_spaces(args) + "-"@ + framework
}

/// The name of the snapshot file of a run, from the digest of what the run is known by.
pub open spec fn file_name_of(digest: Seq<u8>) -> Seq<char> {
    hash::hex_text(digest.take(8)) + ".pyfreeze"@
}

fn join_by_spaces(args: &[String]) -> (r: String)
    ensures
        r@ == joined_by_spaces(text::text_views(args@)),
{
    let ghost views = text::text_views(args@);
    let mut out = String::new();
    let mut i: usize = 0;
    assert(views.take(0) =~= Seq::empty());
    assert(out@ =~= Seq::empty());
    while i < args.len()
        invariant
            i <= args@.len(),
            views == text::text_views(args@),
            out@ == joined_by_spaces(views.take(i as int)),
        decreases args@.len() - i,
    {
        let ghost before = out@;
        assert(views.take(i + 1).drop_last() =~= views.take(i as int));
        assert(views.take(i + 1).last() == args@[i as int]@);
        if i > 0 {
            out.append(" ");
        }
        out.append(args[i].as_str());
        proof {
            if i == 0 {
                assert(out@ =~= args@[0]@);
            } else {
                assert(out@ =~= before + " "@ + args@[i as int]@);
            }
        }
        i += 1;
    }
    assert(views.take(i as int) =~= views);
    out
}

/// The name of the snapshot file of a run whose key has this digest.
pub fn snapshot_file_name(digest: &[u8]) -> (r: String)
    requires
        digest@.len() >= 8,
    ensures
        r@ == file_name_of(digest@),
{
    let first = slice_subrange(digest, 0, 8);
    assert(first@ =~= digest@.take(8));
    let mut name = hash::hex_encode(first);
    name.append(".pyfreeze");
    name
}

/// The name of the snapshot file of a run.
pub open spec fn run_file_name(args: Seq<Seq<char>>, framework: Seq<char>) -> Seq<char> {
    file_name_of(hash::sha256(encode_utf8(run_key(args, framework))))
}

/// The name of the snapshot file of a run.
pub fn derive_snapshot_name(args: &[String], framework: &str) -> (r: String)
    ensures
        r@ == run_file_name(text::text_views(args@), framework@),
        r@.len() == 25,
        hash::is_hex(r@.take(16)),
{
    let mut key = join_by_spaces(args);
    key.append("-");
    key.append(framework);
    let digest = hash::sha256_digest(key.as_str().as_bytes());
    proof {
        let first = digest@.take(8);
        hash::lemma_hex_text(first);
        reveal_strlit(".pyfreeze");
        assert(file_name_of(digest@).take(16) =~= hash::hex_text(first));
    }
    snapshot_file_name(digest.as_slice())
}

/// The path of the snapshot file of a run, in the cache directory `cache_dir`.
pub fn derive_snapshot_path(cache_dir: &str, args: &[String], framework: &str) -> (r: String)
    ensures
        r@ == crate::snapshot::joined_path(
            cache_dir@,
            run_file_name(text::text_views(args@), framework@),
        ),
{
    let name = derive_snapshot_name(args, framework);
    crate::snapshot::join_path(cache_dir, name.as_str())
}

// ─── `run` ──────────────────────────────────────────────────────────────────

/// A text as a quoted literal, as `Debug` for `str` writes it.
pub uninterp spec fn quoted(s: Seq<char>) -> Seq<char>;

/// `Debug` for `str`: writes a text between double quotes, with what cannot stand there
/// escaped. What it writes depends on nothing but the text.
#[verifier::external_body]
fn quote(s: &str) -> (r: String)
    ensures
        r@ == quoted(s@),
{
    format!("{:?}", s)
}

/// What stands in the hook before the path of the snapshot.
pub open spec fn hook_head() -> Seq<char> {
    "\nimport sys, os\n# Insert pyfreeze Python package (installed alongside the binary).\nsys.path.insert(0, os.path.join(os.path.dirname(os.path.abspath(__file__)), '..', 'python'))\nimport pyfreeze\npyfreeze.bootstrap(\n    snapshot_path="@
}

/// The hook with the path and the framework as literals of Python.
pub open spec fn hook_of(path_literal: Seq<char>, framework_literal: Seq<char>, rebuild: bool) -> Seq<
    char,
> {
    hook_head() + path_literal + ",\n    framework="@ + framework_literal + ",\n    rebuild="@ + (
    if rebuild {
        "True"@
    } else {
        "False"@
    }) + ",\n    argv=sys.argv[1:],\n)\n"@
}

/// The hook with the path and the framework as literals of Python.
pub fn hook_code(path_literal: &str, framework_literal: &str, rebuild: bool) -> (r: String)
    ensures
        r@ == hook_of(path_literal@, framework_literal@, rebuild),
{
    let mut out =
        "\nimport sys, os\n# Insert pyfreeze Python package (installed alongside the binary).\nsys.path.insert(0, os.path.join(os.path.dirname(os.path.abspath(__file__)), '..', 'python'))\nimport pyfreeze\npyfreeze.bootstrap(\n    snapshot_path=".to_owned();
    out.append(path_literal);
    out.append(",\n    framework=");
    out.append(framework_literal);
    out.append(",\n    rebuild=");
    if rebuild {
        out.append("True");
    } else {
        out.append("False");
    }
    out.append(",\n    argv=sys.argv[1:],\n)\n");
    out
}

/// The Python code that runs before the user's script.
pub fn build_hook_code(snap_path: &str, framework: &str, rebuild: bool) -> (r: String)
    ensures
        r@ == hook_of(quoted(snap_path@), quoted(framework@), rebuild),
{
    hook_code(quote(snap_path).as_str(), quote(framework).as_str(), rebuild)
}

/// The command that starts the interpreter: "python3" where it is found, or else "python"
/// where that is found, or else "python3" all the same.
pub fn find_python(has_python3: bool, has_python: bool) -> (r: String)
    ensures
        r@ == if !has_python3 && has_python {
            "python"@
        } else {
            "python3"@
        },
{
    if !has_python3 && has_python {
        "python".to_owned()
    } else {
        "python3".to_owned()
    }
}

/// What is printed, where to, and the exit code.
#[derive(Debug)]
pub struct Report {
    pub text: String,
    /// Whether it goes to the standard error instead of the standard output.
    pub to_stderr: bool,
    pub code: i32,
}

/// A process to launch.
#[derive(Debug)]
pub struct Launch {
    /// The command.
    pub python: String,
    /// Its arguments.
    pub arguments: Vec<String>,
    /// The path of the snapshot: the environment variable `PYFREEZE_SNAPSHOT`.
    pub snapshot: String,
    /// The framework: the environment variable `PYFREEZE_FRAMEWORK`.
    pub framework: String,
}

/// The path of the snapshot of a run: the one that is given, or else one derived from the
/// run.
pub open spec fn run_snapshot(
    snapshot: Option<Seq<char>>,
    cache_dir: Seq<char>,
    args: Seq<Seq<char>>,
    framework: Seq<char>,
) -> Seq<char> {
    match snapshot {
        Some(path) => path,
        None => crate::snapshot::joined_path(cache_dir, run_file_name(args, framework)),
    }
}

/// Plans `pyfreeze run`: the interpreter runs the hook, with the arguments behind it. Without
/// arguments there is nothing to run.
pub fn cmd_run(
    args: &[String],
    snapshot: Option<String>,
    framework: &str,
    rebuild: bool,
    cache_dir: &str,
    python: String,
) -> (r: Result<Launch, Report>)
    ensures
        ({
            let path = run_snapshot(
                crate::snapshot::format::text_of(snapshot),
                cache_dir@,
                text::text_views(args@),
                framework@,
            );
            match r {
                Ok(launch) => {
                    &&& args@.len() > 0
                    &&& launch.python == python
                    &&& text::text_views(launch.arguments@) == seq![
                        "-c"@,
                        hook_of(quoted(path), quoted(framework@), rebuild),
                    ] + text::text_views(args@)
                    &&& launch.snapshot@ == path
                    &&& launch.framework@ == framework@
                },
                Err(report) => {
                    &&& args@.len() == 0
                    &&& report.text@ == "error: no Python script or module specified\n"@
                    &&& report.to_stderr
                    &&& report.code == 2
                },
            }
        }),
{
    if args.len() == 0 {
        return Err(
            Report {
                text: "error: no Python script or module specified\n".to_owned(),
                to_stderr: true,
                code: 2,
            },
        );
    }
    let snap_path = match snapshot {
        Some(path) => path,
        None => derive_snapshot_path(cache_dir, args, framework),
    };
    let hook = build_hook_code(snap_path.as_str(), framework, rebuild);
    let ghost head = seq!["-c"@, hook@];
    let mut arguments: Vec<String> = Vec::new();
    arguments.push("-c".to_owned());
    arguments.push(hook);
    let mut i: usize = 0;
    assert(text::text_views(arguments@) =~= head + text::text_views(args@).take(0));
    while i < args.len()
        invariant
            i <= args@.len(),
            text::text_views(arguments@) == head + text::text_views(args@).take(
                i as int,
            ),
        decreases args@.len() - i,
    {
        let ghost before = arguments@;
        arguments.push(args[i].clone());
        assert(text::text_views(arguments@) =~= text::text_views(before).push(
            args@[i as int]@,
        ));
        assert(text::text_views(args@).take(i + 1) =~= text::text_views(args@).take(
            i as int,
        ).push(args@[i as int]@));
        assert(text::text_views(arguments@) =~= head + text::text_views(args@).take(
            i + 1,
        ));
        i += 1;
    }
    assert(text::text_views(args@).take(i as int) =~= text::text_views(args@));
    Ok(Launch { python, arguments, snapshot: snap_path, framework: framework.to_owned() })
}

/// What is reported where the interpreter could not be launched.
pub fn launch_failure(python: &str, reason: &str) -> (r: Report)
    ensures
        r.text@ == "error: could not launch Python ("@ + python@ + "): "@ + reason@ + "\n"@,
        r.to_stderr,
        r.code == 1,
{
    let mut text = "error: could not launch Python (".to_owned();
    text.append(python);
    text.append("): ");
    text.append(reason);
    text.append("\n");
    Report { text, to_stderr: true, code: 1 }
}

/// The exit code of a run: that of the interpreter, or 1 where a signal ended it.
pub fn exit_code(status: Option<i32>) -> (r: i32)
    ensures
        r == match status {
            Some(code) => code,
            None => 1,
        },
{
    match status {
        Some(code) => code,
        None => 1,
    }
}

// ─── `info` ─────────────────────────────────────────────────────────────────

/// How many modules were pickled.
pub open spec fn pickled_count(entries: Seq<EntryView>) -> nat
    decreases entries.len(),
{
    if entries.len() == 0 {
        0
    } else {
        pickled_count(entries.drop_last()) + if entries.last().capture_strategy is PickledDict {
            1nat
        } else {
            0nat
        }
    }
}

/// How many modules are imported again.
pub open spec fn reimport_count(entries: Seq<EntryView>) -> nat
    decreases entries.len(),
{
    if entries.len() == 0 {
        0
    } else {
        reimport_count(entries.drop_last()) + if entries.last().capture_strategy is ReImport {
            1nat
        } else {
            0nat
        }
    }
}

/// Counts the modules that were pickled and those that are imported again.
fn count_strategies(table: &ModuleTable) -> (r: (usize, usize))
    ensures
        r.0 == pickled_count(table@.entries),
        r.1 == reimport_count(table@.entries),
{
    let ghost entries = table@.entries;
    let mut pickled: usize = 0;
    let mut reimport: usize = 0;
    let mut i: usize = 0;
    assert(entries.take(0) =~= Seq::empty());
    while i < table.entries.len()
        invariant
            i <= table.entries@.len(),
            entries == table@.entries,
            pickled == pickled_count(entries.take(i as int)),
            reimport == reimport_count(entries.take(i as int)),
            pickled <= i,
            reimport <= i,
        decreases table.entries@.len() - i,
    {
        assert(entries.take(i + 1).drop_last() =~= entries.take(i as int));
        assert(entries.take(i + 1).last() == table.entries@[i as int]@);
        match &table.entries[i].capture_strategy {
            CaptureStrategy::PickledDict => pickled += 1,
            CaptureStrategy::ReImport => reimport += 1,
            _ => {},
        }
        i += 1;
    }
    assert(entries.take(i as int) =~= entries);
    (pickled, reimport)
}

/// What `pyfreeze info` prints of a snapshot.
pub open spec fn info_text(path: Seq<char>, reader: SnapshotReader) -> Seq<char> {
    let m = reader.header@.metadata;
    let entries = reader.module_table@.entries;
    "PyFreeze Snapshot\n  Path          : "@ + path + "\n  Python        : "@
        + m.python_impl_version + "\n  Target        : "@ + m.target_triple
        + "\n  Framework     : "@ + m.framework + "\n  Captured at   : "@ + m.captured_at
        + "\n  Import phase  : "@ + text::decimal(m.import_phase_ms as nat)
        + "ms\n  Source hash   : "@ + m.source_hash + "\n  Modules total : "@ + text::decimal(
        entries.len(),
    ) + "\n    ├─ pickled   : "@ + text::decimal(pickled_count(entries))
        + "\n    └─ re-import : "@ + text::decimal(reimport_count(entries))
        + "\n  FDs captured  : "@ + text::decimal(reader.fd_table@.len()) + "\n"@
}

/// What `pyfreeze info` reports of the snapshot at `path`.
pub fn cmd_info(path: &str, opened: Result<&SnapshotReader, FreezeError>) -> (r: Report)
    ensures
        match opened {
            Ok(reader) => r.text@ == info_text(path@, *reader) && !r.to_stderr && r.code == 0,
            Err(e) => r.text@ == "error reading snapshot: "@ + crate::error::error_message(e)
                + "\n"@ && r.to_stderr && r.code == 1,
        },
{
    let reader = match opened {
        Ok(reader) => reader,
        Err(e) => {
            let mut text = "error reading snapshot: ".to_owned();
            text.append(e.message().as_str());
            text.append("\n");
            return Report { text, to_stderr: true, code: 1 };
        },
    };
    let m = &reader.header.metadata;
    let (pickled, reimport) = count_strategies(&reader.module_table);
    let mut out = "PyFreeze Snapshot\n  Path          : ".to_owned();
    out.append(path);
    out.append("\n  Python        : ");
    out.append(m.python_impl_version.as_str());
    out.append("\n  Target        : ");
    out.append(m.target_triple.as_str());
    out.append("\n  Framework     : ");
    out.append(m.framework.as_str());
    out.append("\n  Captured at   : ");
    out.append(m.captured_at.as_str());
    out.append("\n  Import phase  : ");
    text::append_decimal(&mut out, m.import_phase_ms);
    out.append("ms\n  Source hash   : ");
    out.append(m.source_hash.as_str());
    out.append("\n  Modules total : ");
    text::append_decimal(&mut out, reader.module_table.entries.len() as u64);
    out.append("\n    ├─ pickled   : ");
    text::append_decimal(&mut out, pickled as u64);
    out.append("\n    └─ re-import : ");
    text::append_decimal(&mut out, reimport as u64);
    out.append("\n  FDs captured  : ");
    text::append_decimal(&mut out, reader.fd_table.entries.len() as u64);
    out.append("\n");
    Report { text: out, to_stderr: false, code: 0 }
}

// ─── `invalidate` ───────────────────────────────────────────────────────────

/// What came of deleting a snapshot.
#[derive(Debug)]
pub enum Removal {
    Deleted,
    Missing,
    Failed(String),
}

/// What `pyfreeze invalidate` reports of the snapshot at `path`.
pub fn cmd_invalidate(path: &str, removal: Removal) -> (r: Report)
    ensures
        match removal {
            Removal::Deleted => r.text@ == "Snapshot deleted: "@ + path@ + "\n"@ && !r.to_stderr
                && r.code == 0,
            Removal::Missing => r.text@ == "No snapshot found at "@ + path@ + "\n"@
                && r.to_stderr && r.code == 1,
            Removal::Failed(reason) => r.text@ == "Error deleting snapshot: "@ + reason@ + "\n"@
                && r.to_stderr && r.code == 1,
        },
{
    match removal {
        Removal::Deleted => {
            let mut text = "Snapshot deleted: ".to_owned();
            text.append(path);
            text.append("\n");
            Report { text, to_stderr: false, code: 0 }
        },
        Removal::Missing => {
            let mut text = "No snapshot found at ".to_owned();
            text.append(path);
            text.append("\n");
            Report { text, to_stderr: true, code: 1 }
        },
        Removal::Failed(reason) => {
            let mut text = "Error deleting snapshot: ".to_owned();
            text.append(reason.as_str());
            text.append("\n");
            Report { text, to_stderr: true, code: 1 }
        },
    }
}

// ─── `benchmark` ────────────────────────────────────────────────────────────

/// Spaces.
pub open spec fn spaces(n: nat) -> Seq<char> {
    Seq::new(n, |i: int| ' ')
}

/// A number in decimal, moved to the right of at least `width` columns.
pub open spec fn right_aligned(n: nat, width: nat) -> Seq<char> {
    let digits = text::decimal(n);
    if digits.len() < width {
        spaces((width - digits.len()) as nat) + digits
    } else {
        digits
    }
}

/// Appends a number in decimal, moved to the right of at least six columns.
fn append_six(out: &mut String, n: u64)
    ensures
        final(out)@ == old(out)@ + right_aligned(n as nat, 6),
{
    let mut digits = String::new();
    text::append_decimal(&mut digits, n);
    assert(digits@ =~= text::decimal(n as nat));
    let len: usize = text::chars_of(digits.as_str()).len();
    let ghost start = out@;
    let mut k: usize = len;
    assert(out@ =~= start + spaces(0));
    while k < 6
        invariant
            len <= k,
            len < 6 ==> k <= 6,
            len >= 6 ==> k == len,
            out@ == start + spaces((k - len) as nat),
        decreases 6 - k,
    {
        let ghost before = out@;
        out.append(" ");
        proof {
            reveal_strlit(" ");
            assert(out@ =~= before.push(' '));
            assert(out@ =~= start + spaces((k + 1 - len) as nat));
        }
        k += 1;
    }
    out.append(digits.as_str());
    assert(out@ =~= start + right_aligned(n as nat, 6));
}

/// What `pyfreeze benchmark` prints: the times of the cold and of the warm start in
/// milliseconds, and their ratio, six columns wide.
pub fn cmd_benchmark(cold_ms: u64, warm_ms: u64, speedup: &str) -> (r: Report)
    ensures
        r.text@
            == "┌─────────────────────────────────────┐\n│        PyFreeze Benchmark            │\n├─────────────────────────────────────┤\n│  Cold start : "@
            + right_aligned(cold_ms as nat, 6) + " ms             │\n│  Warm start : "@
            + right_aligned(warm_ms as nat, 6) + " ms             │\n│  Speedup    : "@
            + speedup@ + "x              │\n└─────────────────────────────────────┘\n"@,
        !r.to_stderr,
        r.code == 0,
{
    let mut out =
        "┌─────────────────────────────────────┐\n│        PyFreeze Benchmark            │\n├─────────────────────────────────────┤\n│  Cold start : ".to_owned();
    append_six(&mut out, cold_ms);
    out.append(" ms             │\n│  Warm start : ");
    append_six(&mut out, warm_ms);
    out.append(" ms             │\n│  Speedup    : ");
    out.append(speedup);
    out.append("x              │\n└─────────────────────────────────────┘\n");
    Report { text: out, to_stderr: false, code: 0 }
}

// ─── Laws ───────────────────────────────────────────────────────────────────

/// Texts are joined by one space between each two, and by nothing else.
pub proof fn law_spaces_stand_between_texts(a: Seq<Seq<char>>, b: Seq<Seq<char>>)
    requires
        a.len() > 0,
        b.len() > 0,
    ensures
        joined_by_spaces(a + b) == joined_by_spaces(a) + seq![' '] + joined_by_spaces(b),
        a.len() == 1 ==> joined_by_spaces(a) == a[0],
    decreases b.len(),
{
    reveal_strlit(" ");
    assert(" "@ =~= seq![' ']);
    let s = a + b;
    assert(s.last() == b.last());
    assert(s.drop_last() =~= a + b.drop_last());
    if b.len() == 1 {
        assert(a + b.drop_last() =~= a);
        assert(joined_by_spaces(s) =~= joined_by_spaces(a) + seq![' '] + b[0]);
    } else {
        law_spaces_stand_between_texts(a, b.drop_last());
        assert(joined_by_spaces(s) =~= joined_by_spaces(a) + seq![' '] + joined_by_spaces(b));
    }
}

/// Nothing is joined to nothing.
pub proof fn law_nothing_is_joined_to_nothing()
    ensures
        joined_by_spaces(Seq::empty()) == Seq::<char>::empty(),
{
}

/// What a run is known by ends with its framework, behind a hyphen, so that the same arguments
/// under another framework are another run.
pub proof fn law_framework_tells_runs_apart(args: Seq<Seq<char>>, a: Seq<char>, b: Seq<char>)
    ensures
        run_key(args, a) == joined_by_spaces(args) + seq!['-'] + a,
        run_key(args, a) == run_key(args, b) ==> a == b,
{
    reveal_strlit("-");
    assert("-"@ =~= seq!['-']);
    let n = joined_by_spaces(args).len() + 1;
    assert(run_key(args, a).skip(n as int) =~= a);
    assert(run_key(args, b).skip(n as int) =~= b);
}

/// The snapshot file of a run is named by the first eight bytes of the SHA-256 digest of what
/// the run is known by: sixteen hexadecimal digits and `.pyfreeze`. Runs that share a name share
/// those bytes.
pub proof fn law_snapshot_is_named_by_its_run(
    args: &[String],
    framework: &str,
    r: String,
    other_args: &[String],
    other_framework: &str,
    other: String,
)
    requires
        call_ensures(derive_snapshot_name, (args, framework), r),
        call_ensures(derive_snapshot_name, (other_args, other_framework), other),
    ensures
        r@.len() == 25,
        hash::is_hex(r@.take(16)),
        r@.skip(16) == ".pyfreeze"@,
        r@ == other@ <==> hash::sha256(
            encode_utf8(run_key(text::text_views(args@), framework@)),
        ).take(8) == hash::sha256(
            encode_utf8(run_key(text::text_views(other_args@), other_framework@)),
        ).take(8),
{
    let a = hash::sha256(encode_utf8(run_key(text::text_views(args@), framework@))).take(8);
    let b = hash::sha256(
        encode_utf8(run_key(text::text_views(other_args@), other_framework@)),
    ).take(8);
    let (x, y) = (hash::hex_text(a), hash::hex_text(b));
    reveal_strlit(".pyfreeze");
    assert(r@ == x + ".pyfreeze"@);
    assert(other@ == y + ".pyfreeze"@);
    assert(r@.skip(16) =~= ".pyfreeze"@);
    assert(r@.take(16) =~= x);
    assert(other@.take(16) =~= y);
    if r@ == other@ {
        hash::law_hex_is_injective(a, b);
    }
}

/// A path that is given is the path of the snapshot; otherwise it lies in the cache directory.
/// The interpreter runs the hook for that path, and gets the arguments behind it as they are.
pub proof fn law_run_hands_over_its_arguments(
    args: &[String],
    snapshot: Option<String>,
    framework: &str,
    rebuild: bool,
    cache_dir: &str,
    python: String,
    r: Result<Launch, Report>,
)
    requires
        call_ensures(cmd_run, (args, snapshot, framework, rebuild, cache_dir, python), r),
    ensures
        r is Ok <==> args@.len() > 0,
        r is Err ==> r->Err_0.code == 2 && r->Err_0.to_stderr,
        r is Ok ==> {
            let launch = r->Ok_0;
            &&& launch.python@ == python@
            &&& launch.framework@ == framework@
            &&& snapshot is Some ==> launch.snapshot@ == snapshot->Some_0@
            &&& snapshot is None ==> launch.snapshot@ == crate::snapshot::joined_path(
                cache_dir@,
                run_file_name(text::text_views(args@), framework@),
            )
            &&& launch.arguments@.len() == args@.len() + 2
            &&& launch.arguments@[0]@ == seq!['-', 'c']
            &&& launch.arguments@[1]@ == hook_of(
                quoted(launch.snapshot@),
                quoted(framework@),
                rebuild,
            )
            &&& forall|i: int|
                0 <= i < args@.len() ==> (#[trigger] launch.arguments@[i + 2])@ == args@[i]@
        },
{
    reveal_strlit("-c");
    assert("-c"@ =~= seq!['-', 'c']);
    if r is Ok {
        let launch = r->Ok_0;
        let views = text::text_views(launch.arguments@);
        let path = launch.snapshot@;
        let head = seq!["-c"@, hook_of(quoted(path), quoted(framework@), rebuild)];
        assert(views == head + text::text_views(args@));
        assert(views.len() == launch.arguments@.len());
        assert(views[0] == launch.arguments@[0]@);
        assert(views[1] == launch.arguments@[1]@);
        assert forall|i: int| 0 <= i < args@.len() implies (
        #[trigger] launch.arguments@[i + 2])@ == args@[i]@ by {
            assert(views[i + 2] == launch.arguments@[i + 2]@);
            assert(text::text_views(args@)[i] == args@[i]@);
        }
    }
}

/// The hook holds the two literals as they are, each behind its name, and asks for a rebuild
/// exactly where it is told to.
pub proof fn law_hook_holds_its_literals(
    path_literal: Seq<char>,
    framework_literal: Seq<char>,
    rebuild: bool,
)
    ensures
        ({
            let h = hook_of(path_literal, framework_literal, rebuild);
            let a = hook_head().len() as int;
            let b = a + path_literal.len();
            let c = b + ",\n    framework="@.len();
            let d = c + framework_literal.len();
            let e = d + ",\n    rebuild="@.len();
            let word = if rebuild {
                "True"@
            } else {
                "False"@
            };
            &&& h.take(a) == hook_head()
            &&& h.subrange(a, b) == path_literal
            &&& h.subrange(b, c) == ",\n    framework="@
            &&& h.subrange(c, d) == framework_literal
            &&& h.subrange(d, e) == ",\n    rebuild="@
            &&& h.subrange(e, e + word.len()) == word
            &&& h.skip(e + word.len()) == ",\n    argv=sys.argv[1:],\n)\n"@
        }),
{
    let h = hook_of(path_literal, framework_literal, rebuild);
    let a = hook_head().len() as int;
    let b = a + path_literal.len();
    let c = b + ",\n    framework="@.len();
    let d = c + framework_literal.len();
    let e = d + ",\n    rebuild="@.len();
    let word = if rebuild {
        "True"@
    } else {
        "False"@
    };
    assert(h.take(a) =~= hook_head());
    assert(h.subrange(a, b) =~= path_literal);
    assert(h.subrange(b, c) =~= ",\n    framework="@);
    assert(h.subrange(c, d) =~= framework_literal);
    assert(h.subrange(d, e) =~= ",\n    rebuild="@);
    assert(h.subrange(e, e + word.len()) =~= word);
    assert(h.skip(e + word.len()) =~= ",\n    argv=sys.argv[1:],\n)\n"@);
}

/// The counts are the numbers of modules of each kind.
pub proof fn law_modules_are_counted(entries: Seq<EntryView>)
    ensures
        pickled_count(entries) == entries.filter(
            |e: EntryView| e.capture_strategy is PickledDict,
        ).len(),
        reimport_count(entries) == entries.filter(
            |e: EntryView| e.capture_strategy is ReImport,
        ).len(),
    decreases entries.len(),
{
    reveal(Seq::filter);
    if entries.len() > 0 {
        law_modules_are_counted(entries.drop_last());
    }
}

/// Whether a text stands somewhere in another.
pub open spec fn holds_text(s: Seq<char>, part: Seq<char>) -> bool {
    exists|i: int| 0 <= i <= s.len() - part.len() && #[trigger] s.subrange(i, i + part.len()) == part
}

proof fn lemma_holds(before: Seq<char>, part: Seq<char>, after: Seq<char>)
    ensures
        holds_text(before + part + after, part),
{
    let s = before + part + after;
    let i = before.len() as int;
    assert(s.subrange(i, i + part.len()) =~= part);
}

/// What a text begins with begins with its own beginning.
proof fn lemma_shorter_prefix(s: Seq<char>, x: Seq<char>, t: Seq<char>)
    requires
        (s + x).is_prefix_of(t),
    ensures
        s.is_prefix_of(t),
{
    assert(t.subrange(0, s.len() as int) =~= s) by {
        assert forall|i: int| 0 <= i < s.len() implies t[i] == s[i] by {
            assert(t.subrange(0, (s + x).len() as int)[i] == (s + x)[i]);
        }
    }
}

/// A text that begins with three others behind something holds the three.
proof fn lemma_line(
    before: Seq<char>,
    label: Seq<char>,
    value: Seq<char>,
    next: Seq<char>,
    front: Seq<char>,
    t: Seq<char>,
)
    requires
        front == before + label + value + next,
        front.is_prefix_of(t),
    ensures
        holds_text(t, label + value + next),
{
    let part = label + value + next;
    let i = before.len() as int;
    assert(t.subrange(i, i + part.len()) =~= part) by {
        assert forall|k: int| 0 <= k < part.len() implies t[i + k] == part[k] by {
            assert(t.subrange(0, front.len() as int)[i + k] == front[i + k]);
        }
    }
}

/// The listing of a snapshot holds, behind its label and before the next one, everything that
/// the metadata says, and the numbers of modules and descriptors.
pub proof fn law_info_shows_the_metadata(path: Seq<char>, reader: SnapshotReader)
    ensures
        ({
            let text = info_text(path, reader);
            let m = reader.header@.metadata;
            &&& holds_text(text, "  Path          : "@ + path + "\n  Python        : "@)
            &&& holds_text(
                text,
                "\n  Python        : "@ + m.python_impl_version + "\n  Target        : "@,
            )
            &&& holds_text(
                text,
                "\n  Target        : "@ + m.target_triple + "\n  Framework     : "@,
            )
            &&& holds_text(
                text,
                "\n  Framework     : "@ + m.framework + "\n  Captured at   : "@,
            )
            &&& holds_text(
                text,
                "\n  Captured at   : "@ + m.captured_at + "\n  Import phase  : "@,
            )
            &&& holds_text(
                text,
                "\n  Import phase  : "@ + text::decimal(m.import_phase_ms as nat)
                    + "ms\n  Source hash   : "@,
            )
        }),
{
    let t = info_text(path, reader);
    let m = reader.header@.metadata;
    let entries = reader.module_table@.entries;
    let (l0, p0) = ("PyFreeze Snapshot\n  Path          : "@, "  Path          : "@);
    reveal_strlit("PyFreeze Snapshot\n  Path          : ");
    reveal_strlit("  Path          : ");
    let title = l0.take(l0.len() - p0.len());
    assert(l0 =~= title + p0);
    let s0 = l0 + path;
    let s1 = s0 + "\n  Python        : "@;
    let s2 = s1 + m.python_impl_version;
    let s3 = s2 + "\n  Target        : "@;
    let s4 = s3 + m.target_triple;
    let s5 = s4 + "\n  Framework     : "@;
    let s6 = s5 + m.framework;
    let s7 = s6 + "\n  Captured at   : "@;
    let s8 = s7 + m.captured_at;
    let s9 = s8 + "\n  Import phase  : "@;
    let s10 = s9 + text::decimal(m.import_phase_ms as nat);
    let s11 = s10 + "ms\n  Source hash   : "@;
    let s12 = s11 + m.source_hash;
    let s13 = s12 + "\n  Modules total : "@;
    let s14 = s13 + text::decimal(entries.len());
    let s15 = s14 + "\n    ├─ pickled   : "@;
    let s16 = s15 + text::decimal(pickled_count(entries));
    let s17 = s16 + "\n    └─ re-import : "@;
    let s18 = s17 + text::decimal(reimport_count(entries));
    let s19 = s18 + "\n  FDs captured  : "@;
    let s20 = s19 + text::decimal(reader.fd_table@.len());
    let s21 = s20 + "\n"@;
    assert(t == s21);
    assert(t.is_prefix_of(t));
    lemma_shorter_prefix(s20, "\n"@, t);
    lemma_shorter_prefix(s19, text::decimal(reader.fd_table@.len()), t);
    lemma_shorter_prefix(s18, "\n  FDs captured  : "@, t);
    lemma_shorter_prefix(s17, text::decimal(reimport_count(entries)), t);
    lemma_shorter_prefix(s16, "\n    └─ re-import : "@, t);
    lemma_shorter_prefix(s15, text::decimal(pickled_count(entries)), t);
    lemma_shorter_prefix(s14, "\n    ├─ pickled   : "@, t);
    lemma_shorter_prefix(s13, text::decimal(entries.len()), t);
    lemma_shorter_prefix(s12, "\n  Modules total : "@, t);
    lemma_shorter_prefix(s11, m.source_hash, t);
    lemma_shorter_prefix(s10, "ms\n  Source hash   : "@, t);
    lemma_shorter_prefix(s9, text::decimal(m.import_phase_ms as nat), t);
    lemma_shorter_prefix(s8, "\n  Import phase  : "@, t);
    lemma_shorter_prefix(s7, m.captured_at, t);
    lemma_shorter_prefix(s6, "\n  Captured at   : "@, t);
    lemma_shorter_prefix(s5, m.framework, t);
    lemma_shorter_prefix(s4, "\n  Framework     : "@, t);
    lemma_shorter_prefix(s3, m.target_triple, t);
    lemma_shorter_prefix(s2, "\n  Target        : "@, t);
    lemma_shorter_prefix(s1, m.python_impl_version, t);
    lemma_shorter_prefix(s0, "\n  Python        : "@, t);
    lemma_line(title, p0, path, "\n  Python        : "@, s1, t);
    lemma_line(s0, "\n  Python        : "@, m.python_impl_version, "\n  Target        : "@, s3, t);
    lemma_line(s2, "\n  Target        : "@, m.target_triple, "\n  Framework     : "@, s5, t);
    lemma_line(s4, "\n  Framework     : "@, m.framework, "\n  Captured at   : "@, s7, t);
    lemma_line(s6, "\n  Captured at   : "@, m.captured_at, "\n  Import phase  : "@, s9, t);
    lemma_line(s8, "\n  Import phase  : "@, text::decimal(m.import_phase_ms as nat), "ms\n  Source hash   : "@, s11, t);
}

/// The listing of a snapshot ends with its source hash and the numbers of its modules, of those
/// that were pickled, of those that are imported again, and of its descriptors.
pub proof fn law_info_ends_with_the_numbers(path: Seq<char>, reader: SnapshotReader)
    ensures
        ({
            let text = info_text(path, reader);
            let entries = reader.module_table@.entries;
            let end = "ms\n  Source hash   : "@ + reader.header@.metadata.source_hash
                + "\n  Modules total : "@ + text::decimal(entries.len())
                + "\n    ├─ pickled   : "@ + text::decimal(
                entries.filter(|e: EntryView| e.capture_strategy is PickledDict).len(),
            ) + "\n    └─ re-import : "@ + text::decimal(
                entries.filter(|e: EntryView| e.capture_strategy is ReImport).len(),
            ) + "\n  FDs captured  : "@ + text::decimal(reader.fd_table@.len()) + "\n"@;
            text.len() >= end.len() && text.skip(text.len() - end.len()) == end
        }),
{
    let t = info_text(path, reader);
    let m = reader.header@.metadata;
    let entries = reader.module_table@.entries;
    law_modules_are_counted(entries);
    let front = "PyFreeze Snapshot\n  Path          : "@ + path + "\n  Python        : "@
        + m.python_impl_version + "\n  Target        : "@ + m.target_triple
        + "\n  Framework     : "@ + m.framework + "\n  Captured at   : "@ + m.captured_at
        + "\n  Import phase  : "@ + text::decimal(m.import_phase_ms as nat);
    let end = "ms\n  Source hash   : "@ + m.source_hash + "\n  Modules total : "@ + text::decimal(
        entries.len(),
    ) + "\n    ├─ pickled   : "@ + text::decimal(pickled_count(entries))
        + "\n    └─ re-import : "@ + text::decimal(reimport_count(entries))
        + "\n  FDs captured  : "@ + text::decimal(reader.fd_table@.len()) + "\n"@;
    assert(t =~= front + end);
    assert(t.skip(t.len() - end.len()) =~= end);
}

/// A number is moved to the right: spaces, and then its digits, as many columns as asked for or
/// as the digits take.
pub proof fn law_number_stands_at_the_right(n: nat, width: nat)
    ensures
        ({
            let s = right_aligned(n, width);
            let digits = text::decimal(n);
            &&& s.len() == if digits.len() < width {
                width
            } else {
                digits.len()
            }
            &&& s.skip(s.len() - digits.len()) == digits
            &&& forall|i: int| 0 <= i < s.len() - digits.len() ==> #[trigger] s[i] == ' '
        }),
{
    let s = right_aligned(n, width);
    let digits = text::decimal(n);
    assert(s.skip(s.len() - digits.len()) =~= digits);
}

/// What is printed and returned of a snapshot that could not be opened holds the error; one
/// that was opened is a success.
pub proof fn law_info_reports_the_error(
    path: &str,
    opened: Result<&SnapshotReader, FreezeError>,
    r: Report,
)
    requires
        call_ensures(cmd_info, (path, opened), r),
    ensures
        r.code == 0 <==> opened is Ok,
        r.to_stderr <==> opened is Err,
        opened is Ok ==> r.text@ == info_text(path@, *opened->Ok_0),
        opened is Err ==> holds_text(r.text@, crate::error::error_message(opened->Err_0)),
{
    if opened is Err {
        lemma_holds(
            "error reading snapshot: "@,
            crate::error::error_message(opened->Err_0),
            "\n"@,
        );
    }
}

/// The interpreter is `python3` unless only `python` is found; its exit code is that of the run.
pub proof fn law_interpreter_and_its_exit_code(
    has_python3: bool,
    has_python: bool,
    python: String,
    status: Option<i32>,
    code: i32,
)
    requires
        call_ensures(find_python, (has_python3, has_python), python),
        call_ensures(exit_code, (status,), code),
    ensures
        python@ == "python"@ || python@ == "python3"@,
        python@ == "python3"@ <==> has_python3 || !has_python,
        status is Some ==> code == status->Some_0,
        status is None ==> code == 1,
{
    reveal_strlit("python");
    reveal_strlit("python3");
    assert("python"@.len() != "python3"@.len());
}

/// Deleting a snapshot succeeds exactly where it was deleted; the report names the path, or the
/// reason of the failure.
pub proof fn law_invalidate_reports_what_happened(path: &str, removal: Removal, r: Report)
    requires
        call_ensures(cmd_invalidate, (path, removal), r),
    ensures
        r.code == 0 <==> removal is Deleted,
        r.to_stderr <==> !(removal is Deleted),
        removal is Failed ==> holds_text(r.text@, removal->Failed_0@),
        !(removal is Failed) ==> holds_text(r.text@, path@),
{
    lemma_holds("Snapshot deleted: "@, path@, "\n"@);
    lemma_holds("No snapshot found at "@, path@, "\n"@);
    if removal is Failed {
        lemma_holds("Error deleting snapshot: "@, removal->Failed_0@, "\n"@);
    }
}

/// A failed launch names the command and gives the reason.
pub proof fn law_failed_launch_gives_the_reason(python: &str, reason: &str, r: Report)
    requires
        call_ensures(launch_failure, (python, reason), r),
    ensures
        r.code == 1,
        r.to_stderr,
        holds_text(r.text@, "("@ + python@ + "): "@ + reason@ + "\n"@),
{
    let label = "error: could not launch Python ("@;
    let part = "("@ + python@ + "): "@ + reason@ + "\n"@;
    reveal_strlit("error: could not launch Python (");
    reveal_strlit("(");
    let front = label.take(label.len() - 1);
    assert(label =~= front + "("@);
    assert(r.text@ =~= front + part + Seq::empty());
    lemma_holds(front, part, Seq::empty());
}

/// A benchmark shows both times, each at the right of six columns, and their ratio.
pub proof fn law_benchmark_shows_its_times(cold_ms: u64, warm_ms: u64, speedup: &str, r: Report)
    requires
        call_ensures(cmd_benchmark, (cold_ms, warm_ms, speedup), r),
    ensures
        r.code == 0,
        !r.to_stderr,
        holds_text(
            r.text@,
            right_aligned(cold_ms as nat, 6) + " ms             │\n│  Warm start : "@
                + right_aligned(warm_ms as nat, 6) + " ms             │\n│  Speedup    : "@
                + speedup@ + "x              │\n"@,
        ),
{
    let head =
        "┌─────────────────────────────────────┐\n│        PyFreeze Benchmark            │\n├─────────────────────────────────────┤\n│  Cold start : "@;
    let foot = "x              │\n└─────────────────────────────────────┘\n"@;
    let (a, b) = (" ms             │\n│  Warm start : "@, " ms             │\n│  Speedup    : "@);
    let part = right_aligned(cold_ms as nat, 6) + a + right_aligned(warm_ms as nat, 6) + b
        + speedup@ + "x              │\n"@;
    reveal_strlit("x              │\n└─────────────────────────────────────┘\n");
    reveal_strlit("x              │\n");
    let end = foot.skip("x              │\n"@.len() as int);
    assert(foot =~= "x              │\n"@ + end);
    assert(r.text@ =~= head + part + end);
    lemma_holds(head, part, end);
}

} // verus!
