//! Building the metadata of a snapshot and checking it against the running interpreter.

use super::format::{MetadataView, SnapshotMetadata};
use crate::error::FreezeError;
use crate::text;
use vstd::prelude::*;
use vstd::slice::slice_subrange;
use vstd::string::*;
use vstd::utf8::*;

verus! {

/// The major version of the oldest interpreter that is supported, 3.10.
pub const MIN_PYTHON_MAJOR: u64 = 3;

/// Its minor version.
pub const MIN_PYTHON_MINOR: u64 = 10;

/// Whether an interpreter of a major and minor version is supported: 3.10 and later.
pub open spec fn supported(major: u64, minor: u64) -> bool {
    major > MIN_PYTHON_MAJOR || (major == MIN_PYTHON_MAJOR && minor >= MIN_PYTHON_MINOR)
}

// ─── Construction ───────────────────────────────────────────────────────────

/// Gathers the metadata of a snapshot.
pub struct MetadataBuilder {
    source_hash: String,
    python_impl_ver: String,
    target_triple: String,
    framework: String,
    import_phase_ms: u64,
}

pub struct BuilderView {
    pub source_hash: Seq<char>,
    pub python_impl_ver: Seq<char>,
    pub target_triple: Seq<char>,
    pub framework: Seq<char>,
    pub import_phase_ms: u64,
}

impl View for MetadataBuilder {
    type V = BuilderView;

    closed spec fn view(&self) -> BuilderView {
        BuilderView {
            source_hash: self.source_hash@,
            python_impl_ver: self.python_impl_ver@,
            target_triple: self.target_triple@,
            framework: self.framework@,
            import_phase_ms: self.import_phase_ms,
        }
    }
}

/// The metadata that a builder gives at a point of time.
pub open spec fn built(b: BuilderView, captured_at: Seq<char>) -> MetadataView {
    MetadataView {
        source_hash: b.source_hash,
        python_impl_version: b.python_impl_ver,
        target_triple: b.target_triple,
        captured_at,
        framework: b.framework,
        import_phase_ms: b.import_phase_ms,
    }
}

/// Whether two digits that stand for a number from `low` to `high` stand at a position.
pub open spec fn two_digits(s: Seq<char>, at: int, low: int, high: int) -> bool {
    &&& '0' <= s[at] <= '9'
    &&& '0' <= s[at + 1] <= '9'
    &&& low <= 10 * (s[at] as int - 48) + (s[at + 1] as int - 48) <= high
}

/// Whether a text is empty, or a dot and three, six or nine digits.
pub open spec fn is_fraction(s: Seq<char>) -> bool {
    s.len() == 0 || {
        &&& s.len() == 4 || s.len() == 7 || s.len() == 10
        &&& s[0] == '.'
        &&& text::all_digits(s.drop_first())
    }
}

/// Whether a text goes on as a timestamp of the UTC zone behind a year of length `y`:
/// "-01-31T23:59:59.123456+00:00".
pub open spec fn stamp_behind_year(s: Seq<char>, y: int) -> bool {
    &&& s.len() >= y + 21
    &&& s[y] == '-'
    &&& two_digits(s, y + 1, 1, 12)
    &&& s[y + 3] == '-'
    &&& two_digits(s, y + 4, 1, 31)
    &&& s[y + 6] == 'T'
    &&& two_digits(s, y + 7, 0, 23)
    &&& s[y + 9] == ':'
    &&& two_digits(s, y + 10, 0, 59)
    &&& s[y + 12] == ':'
    &&& two_digits(s, y + 13, 0, 60)
    &&& is_fraction(s.subrange(y + 15, s.len() - 6))
    &&& s.skip(s.len() - 6) == seq!['+', '0', '0', ':', '0', '0']
}

/// Whether a text begins with a sign and `y - 1` digits, and goes on as a timestamp.
pub open spec fn stamp_with_signed_year(s: Seq<char>, y: int) -> bool {
    &&& stamp_behind_year(s, y)
    &&& s[0] == '+' || s[0] == '-'
    &&& text::all_digits(s.subrange(1, y))
}

/// Whether a text is a timestamp of the UTC zone as RFC 3339 and ISO 8601 write it. The year
/// has four digits; one that needs more has a sign before it.
pub open spec fn is_timestamp(s: Seq<char>) -> bool {
    ||| stamp_behind_year(s, 4) && text::all_digits(s.take(4))
    ||| stamp_with_signed_year(s, 5)
    ||| stamp_with_signed_year(s, 6)
    ||| stamp_with_signed_year(s, 7)
}

/// `chrono::Utc::now` and `DateTime::to_rfc3339`: gives the current time as a timestamp of
/// the UTC zone, with as many digits behind the seconds as the clock needs, none, three, six
/// or nine. Which time that is depends on the clock, and nothing is claimed of it. It panics
/// where the clock is set before 1970, which no argument could rule out.
#[verifier::external_body]
fn now_rfc3339() -> (r: String)
    ensures
        is_timestamp(r@),
{
    chrono::Utc::now().to_rfc3339()
}

/// A timestamp has from 25 to 38 characters, all of them ASCII.
pub proof fn lemma_timestamp(s: Seq<char>)
    requires
        is_timestamp(s),
    ensures
        25 <= s.len() <= 38,
        is_ascii_chars(s),
{
    let y: int = if stamp_behind_year(s, 4) && text::all_digits(s.take(4)) {
        4
    } else if stamp_with_signed_year(s, 5) {
        5
    } else if stamp_with_signed_year(s, 6) {
        6
    } else {
        7
    };
    let n = s.len() as int;
    let f = s.subrange(y + 15, n - 6);
    let z = s.skip(n - 6);
    assert forall|i: int| 0 <= i < s.len() implies '\0' <= #[trigger] s[i] <= '\u{7f}' by {
        if i < y {
            if y == 4 {
                assert(s.take(4)[i] == s[i]);
            } else if i > 0 {
                assert(s.subrange(1, y)[i - 1] == s[i]);
            }
        } else if i >= n - 6 {
            assert(z[i - (n - 6)] == s[i]);
        } else if i >= y + 15 {
            assert(f[i - (y + 15)] == s[i]);
            if i > y + 15 {
                assert(f.drop_first()[i - (y + 16)] == s[i]);
            }
        }
    }
}

impl MetadataBuilder {
    /// A builder for a program that was built for `target_triple`.
    pub fn new(target_triple: &str) -> (r: MetadataBuilder)
        ensures
            r@ == (BuilderView {
                source_hash: Seq::empty(),
                python_impl_ver: Seq::empty(),
                target_triple: target_triple@,
                framework: "generic"@,
                import_phase_ms: 0,
            }),
    {
        let r = MetadataBuilder {
            source_hash: String::new(),
            python_impl_ver: String::new(),
            target_triple: target_triple.to_owned(),
            framework: "generic".to_owned(),
            import_phase_ms: 0,
        };
        assert(r@.source_hash =~= Seq::empty());
        r
    }

    pub fn source_hash(self, h: &str) -> (r: MetadataBuilder)
        ensures
            r@ == (BuilderView { source_hash: h@, ..self@ }),
    {
        MetadataBuilder { source_hash: h.to_owned(), ..self }
    }

    pub fn python_impl_version(self, v: &str) -> (r: MetadataBuilder)
        ensures
            r@ == (BuilderView { python_impl_ver: v@, ..self@ }),
    {
        MetadataBuilder { python_impl_ver: v.to_owned(), ..self }
    }

    pub fn framework(self, f: &str) -> (r: MetadataBuilder)
        ensures
            r@ == (BuilderView { framework: f@, ..self@ }),
    {
        MetadataBuilder { framework: f.to_owned(), ..self }
    }

    pub fn import_phase_ms(self, ms: u64) -> (r: MetadataBuilder)
        ensures
            r@ == (BuilderView { import_phase_ms: ms, ..self@ }),
    {
        MetadataBuilder { import_phase_ms: ms, ..self }
    }

    /// The metadata of a snapshot that was captured at `captured_at`.
    pub fn build_at(self, captured_at: String) -> (r: SnapshotMetadata)
        ensures
            r@ == built(self@, captured_at@),
    {
        SnapshotMetadata {
            source_hash: self.source_hash,
            python_impl_version: self.python_impl_ver,
            target_triple: self.target_triple,
            captured_at,
            framework: self.framework,
            import_phase_ms: self.import_phase_ms,
        }
    }

    /// The metadata of a snapshot that is captured now.
    pub fn build(self) -> (r: SnapshotMetadata)
        ensures
            r@ == built(self@, r@.captured_at),
            is_timestamp(r@.captured_at),
            r@.captured_at.len() <= 38,
    {
        let captured_at = now_rfc3339();
        proof {
            lemma_timestamp(captured_at@);
        }
        self.build_at(captured_at)
    }
}

// ─── Versions ───────────────────────────────────────────────────────────────

/// Whether a character has the Unicode property `White_Space`.
pub open spec fn is_space(c: char) -> bool {
    let n = c as int;
    ||| 0x9 <= n <= 0xD
    ||| n == 0x20
    ||| n == 0x85
    ||| n == 0xA0
    ||| n == 0x1680
    ||| 0x2000 <= n <= 0x200A
    ||| n == 0x2028
    ||| n == 0x2029
    ||| n == 0x202F
    ||| n == 0x205F
    ||| n == 0x3000
}

fn space(c: char) -> (r: bool)
    ensures
        r == is_space(c),
{
    let n = c as u32;
    (0x9 <= n && n <= 0xD) || n == 0x20 || n == 0x85 || n == 0xA0 || n == 0x1680 || (0x2000 <= n
        && n <= 0x200A) || n == 0x2028 || n == 0x2029 || n == 0x202F || n == 0x205F || n == 0x3000
}

/// How much of a text is left without the white space at its end.
pub open spec fn word_end(s: Seq<char>) -> nat
    decreases s.len(),
{
    if s.len() == 0 {
        0
    } else if is_space(s.last()) {
        word_end(s.drop_last())
    } else {
        s.len()
    }
}

/// Where a text goes on behind its last white space.
pub open spec fn word_start(s: Seq<char>) -> nat
    decreases s.len(),
{
    if s.len() == 0 {
        0
    } else if is_space(s.last()) {
        s.len()
    } else {
        word_start(s.drop_last())
    }
}

/// The last word of a text, or the whole text where it has none.
pub open spec fn last_word(s: Seq<char>) -> Seq<char> {
    let t = s.take(word_end(s) as int);
    if t.len() == 0 {
        s
    } else {
        t.skip(word_start(t) as int)
    }
}

/// Where the first dot of a text stands; its length, where there is none.
pub open spec fn first_dot(s: Seq<char>) -> nat
    decreases s.len(),
{
    if s.len() == 0 || s[0] == '.' {
        0
    } else {
        1 + first_dot(s.drop_first())
    }
}

/// The major and minor version that a version text gives: the first two numbers, between
/// dots, of its last word.
pub open spec fn major_minor(version: Seq<char>) -> Option<(u64, u64)> {
    let word = last_word(version);
    let dot = first_dot(word) as int;
    if dot == word.len() {
        None
    } else {
        let rest = word.skip(dot + 1);
        match (text::number(word.take(dot)), text::number(rest.take(first_dot(rest) as int))) {
            (Some(major), Some(minor)) => Some((major, minor)),
            _ => None,
        }
    }
}

/// Where the last word begins and ends; both are 0 where there is none.
fn find_last_word(s: &[char]) -> (r: (usize, usize))
    ensures
        r.1 == word_end(s@),
        r.0 == word_start(s@.take(r.1 as int)),
        r.0 <= r.1 <= s@.len(),
{
    let mut end: usize = s.len();
    assert(s@.take(end as int) =~= s@);
    while end > 0 && space(s[end - 1])
        invariant
            end <= s@.len(),
            word_end(s@) == word_end(s@.take(end as int)),
        decreases end,
    {
        assert(s@.take(end as int).drop_last() =~= s@.take(end - 1));
        end -= 1;
    }
    let ghost t = s@.take(end as int);
    let mut start: usize = end;
    assert(t.take(start as int) =~= t);
    while start > 0 && !space(s[start - 1])
        invariant
            start <= end <= s@.len(),
            t == s@.take(end as int),
            word_start(t) == word_start(t.take(start as int)),
        decreases start,
    {
        assert(t.take(start as int).drop_last() =~= t.take(start - 1));
        start -= 1;
    }
    assert(word_start(t) == start);
    (start, end)
}

/// Where the first dot stands.
fn find_dot(s: &[char]) -> (r: usize)
    ensures
        r == first_dot(s@),
        r <= s@.len(),
{
    let mut i: usize = 0;
    assert(s@.skip(0) =~= s@);
    while i < s.len() && s[i] != '.'
        invariant
            i <= s@.len(),
            first_dot(s@) == i + first_dot(s@.skip(i as int)),
        decreases s@.len() - i,
    {
        assert(s@.skip(i as int).drop_first() =~= s@.skip(i + 1));
        i += 1;
    }
    i
}

/// The major and minor version that a version text gives: for "CPython 3.12.3" they are 3
/// and 12.
pub fn parse_major_minor(version_str: &str) -> (r: Option<(u64, u64)>)
    ensures
        r == major_minor(version_str@),
{
    let chars = text::chars_of(version_str);
    let (start, end) = find_last_word(chars.as_slice());
    let word = if end == 0 {
        chars.as_slice()
    } else {
        slice_subrange(chars.as_slice(), start, end)
    };
    assert(word@ =~= last_word(version_str@));
    let dot = find_dot(word);
    if dot == word.len() {
        return None;
    }
    let first = slice_subrange(word, 0, dot);
    assert(first@ =~= word@.take(dot as int));
    let rest = slice_subrange(word, dot + 1, word.len());
    assert(rest@ =~= word@.skip(dot + 1));
    let next = find_dot(rest);
    let second = slice_subrange(rest, 0, next);
    assert(second@ =~= rest@.take(next as int));
    match (text::parse_number(first), text::parse_number(second)) {
        (Some(major), Some(minor)) => Some((major, minor)),
        _ => None,
    }
}

/// How much of a version text is left without the patch level: everything up to the second
/// dot of its last word, or all of it where there is no second dot.
pub open spec fn patch_start(version: Seq<char>) -> int {
    let t = version.take(word_end(version) as int);
    let start = word_start(t) as int;
    let word = t.skip(start);
    let dot = first_dot(word) as int;
    let rest = word.skip(dot + 1);
    let next = first_dot(rest) as int;
    if dot == word.len() || next == rest.len() {
        version.len() as int
    } else {
        start + dot + 1 + next
    }
}

/// A version text without the patch level: "CPython 3.12" for "CPython 3.12.3".
pub open spec fn without_patch(version: Seq<char>) -> Seq<char> {
    version.take(patch_start(version))
}

/// A version text without the patch level: "CPython 3.12" for "CPython 3.12.3".
pub fn strip_patch(version: &str) -> (r: String)
    ensures
        r@ == without_patch(version@),
{
    let chars = text::chars_of(version);
    let (start, end) = find_last_word(chars.as_slice());
    let word = slice_subrange(chars.as_slice(), start, end);
    assert(word@ =~= version@.take(end as int).skip(start as int));
    let dot = find_dot(word);
    if dot < word.len() {
        let rest = slice_subrange(word, dot + 1, word.len());
        assert(rest@ =~= word@.skip(dot + 1));
        let next = find_dot(rest);
        if next < rest.len() {
            let kept: usize = start + dot + 1 + next;
            assert(version@.subrange(0, kept as int) =~= without_patch(version@));
            return version.substring_char(0, kept).to_owned();
        }
    }
    assert(without_patch(version@) =~= version@);
    version.to_owned()
}

// ─── Validation ─────────────────────────────────────────────────────────────

/// Whether two versions have the same major and minor version.
pub open spec fn same_minor(a: Seq<char>, b: Seq<char>) -> bool {
    major_minor(a) is Some && major_minor(a) == major_minor(b)
}

/// Whether a version text gives a supported version.
pub open spec fn supported_version(version: Seq<char>) -> bool {
    match major_minor(version) {
        Some((major, minor)) => supported(major, minor),
        None => false,
    }
}

/// Whether a snapshot can be restored into an interpreter of the given version and target:
/// the target is the same, so are the major and minor version, and they are supported.
pub open spec fn compatible(
    meta: MetadataView,
    current_py_ver: Seq<char>,
    current_triple: Seq<char>,
) -> bool {
    &&& meta.target_triple == current_triple
    &&& same_minor(meta.python_impl_version, current_py_ver)
    &&& supported_version(meta.python_impl_version)
}

/// Whether an error says why a snapshot cannot be restored. Another target comes first, then
/// another version or one that cannot be read, then an unsupported one.
pub open spec fn incompatibility(
    e: FreezeError,
    meta: MetadataView,
    current_py_ver: Seq<char>,
    current_triple: Seq<char>,
) -> bool {
    let versions_match = same_minor(meta.python_impl_version, current_py_ver);
    match e {
        FreezeError::VersionMismatch { snapshot_ver, current_ver } => if meta.target_triple
            != current_triple {
            snapshot_ver@ == meta.target_triple && current_ver@ == current_triple
        } else {
            !versions_match && snapshot_ver@ == meta.python_impl_version && current_ver@
                == current_py_ver
        },
        FreezeError::UnsupportedPythonVersion { version } => {
            &&& meta.target_triple == current_triple
            &&& versions_match
            &&& !supported_version(meta.python_impl_version)
            &&& version@ == meta.python_impl_version
        },
        _ => false,
    }
}

/// Checks that the runtime of a snapshot matches the current one.
pub fn validate_runtime_compatibility(
    meta: &SnapshotMetadata,
    current_py_ver: &str,
    current_triple: &str,
) -> (r: Result<(), FreezeError>)
    ensures
        match r {
            Ok(()) => compatible(meta@, current_py_ver@, current_triple@),
            Err(e) => !compatible(meta@, current_py_ver@, current_triple@) && incompatibility(
                e,
                meta@,
                current_py_ver@,
                current_triple@,
            ),
        },
{
    // The architecture must match exactly.
    if !text::str_equal(meta.target_triple.as_str(), current_triple) {
        return Err(
            FreezeError::VersionMismatch {
                snapshot_ver: meta.target_triple.clone(),
                current_ver: current_triple.to_owned(),
            },
        );
    }

    // Major and minor version must match, the patch level may differ.
    let snap_mm = parse_major_minor(meta.python_impl_version.as_str());
    let current_mm = parse_major_minor(current_py_ver);
    if let (Some((sm, sn)), Some((cm, cn))) = (snap_mm, current_mm) {
        if sm == cm && sn == cn {
            if sm < MIN_PYTHON_MAJOR || (sm == MIN_PYTHON_MAJOR && sn < MIN_PYTHON_MINOR) {
                return Err(
                    FreezeError::UnsupportedPythonVersion {
                        version: meta.python_impl_version.clone(),
                    },
                );
            }
            return Ok(());
        }
    }
    Err(
        FreezeError::VersionMismatch {
            snapshot_ver: meta.python_impl_version.clone(),
            current_ver: current_py_ver.to_owned(),
        },
    )
}

// ─── Names ──────────────────────────────────────────────────────────────────

/// The name of the file beside a snapshot that tells a person what is in it.
pub open spec fn sidecar_name_of(file_name: Option<Seq<char>>) -> Seq<char> {
    match file_name {
        Some(name) => name + ".meta.json"@,
        None => "snapshot.meta.json"@,
    }
}

/// The name of the file beside the snapshot named `file_name`: "app.pyfreeze.meta.json" for
/// "app.pyfreeze".
pub fn sidecar_name(file_name: Option<&str>) -> (r: String)
    ensures
        r@ == sidecar_name_of(
            match file_name {
                Some(name) => Some(name@),
                None => None,
            },
        ),
{
    match file_name {
        Some(name) => {
            let mut out = name.to_owned();
            out.append(".meta.json");
            out
        },
        None => "snapshot.meta.json".to_owned(),
    }
}

/// A target: an architecture and an operating system with a hyphen between them.
pub open spec fn triple_of(arch: Seq<char>, os: Seq<char>) -> Seq<char> {
    arch + "-"@ + os
}

/// The target of a program that was built for an architecture and an operating system.
pub fn current_target_triple(arch: &str, os: &str) -> (r: String)
    ensures
        r@ == triple_of(arch@, os@),
{
    let mut out = arch.to_owned();
    out.append("-");
    out.append(os);
    out
}

/// A text without the digits at its end.
pub open spec fn without_release(s: Seq<char>) -> Seq<char>
    decreases s.len(),
{
    if s.len() > 0 && '0' <= s.last() <= '9' {
        without_release(s.drop_last())
    } else {
        s
    }
}

/// The operating system of a platform as `sys.platform` names it: Windows and macOS have
/// other names there, and on some systems the major release follows the name.
pub open spec fn os_of(platform: Seq<char>) -> Seq<char> {
    if platform == "win32"@ {
        "windows"@
    } else if platform == "darwin"@ {
        "macos"@
    } else {
        without_release(platform)
    }
}

/// The name of the operating system of a platform: "windows" for "win32", "macos" for
/// "darwin", "freebsd" for "freebsd13", "linux" for "linux".
pub fn os_name(platform: &str) -> (r: String)
    ensures
        r@ == os_of(platform@),
{
    if text::str_equal(platform, "win32") {
        return "windows".to_owned();
    }
    if text::str_equal(platform, "darwin") {
        return "macos".to_owned();
    }
    let chars = text::chars_of(platform);
    let mut kept: usize = chars.len();
    assert(platform@.take(kept as int) =~= platform@);
    while kept > 0 && '0' <= chars[kept - 1] && chars[kept - 1] <= '9'
        invariant
            kept <= chars@.len(),
            chars@ == platform@,
            without_release(platform@.take(kept as int)) == without_release(platform@),
        decreases kept,
    {
        assert(platform@.take(kept as int).drop_last() =~= platform@.take(kept - 1));
        kept -= 1;
    }
    assert(platform@.subrange(0, kept as int) =~= platform@.take(kept as int));
    platform.substring_char(0, kept).to_owned()
}

/// The version text of an interpreter: its name and its version number.
pub open spec fn version_text(impl_name: Seq<char>, major: u32, minor: u32, micro: u32) -> Seq<
    char,
> {
    impl_name + " "@ + text::decimal(major as nat) + "."@ + text::decimal(minor as nat) + "."@
        + text::decimal(micro as nat)
}

// ─── Laws ───────────────────────────────────────────────────────────────────

proof fn lemma_word_start(before: Seq<char>, word: Seq<char>)
    requires
        before.len() > 0 ==> is_space(before.last()),
        forall|i: int| 0 <= i < word.len() ==> !is_space(#[trigger] word[i]),
    ensures
        word_start(before + word) == before.len(),
    decreases word.len(),
{
    if word.len() == 0 {
        assert(before + word =~= before);
    } else {
        lemma_word_start(before, word.drop_last());
        assert((before + word).drop_last() =~= before + word.drop_last());
        assert((before + word).last() == word.last());
    }
}

/// Behind the last white space of a text there is none, and it is white space.
proof fn lemma_word_chars(t: Seq<char>)
    ensures
        word_start(t) <= t.len(),
        word_start(t) > 0 ==> is_space(t[word_start(t) - 1]),
        forall|i: int| word_start(t) <= i < t.len() ==> !is_space(#[trigger] t[i]),
    decreases t.len(),
{
    if t.len() > 0 && !is_space(t.last()) {
        let d = t.drop_last();
        lemma_word_chars(d);
        assert forall|i: int| word_start(t) <= i < t.len() implies !is_space(
            #[trigger] t[i],
        ) by {
            if i < d.len() {
                assert(t[i] == d[i]);
            }
        }
    }
}

proof fn lemma_word_end(s: Seq<char>)
    ensures
        word_end(s) <= s.len(),
    decreases s.len(),
{
    if s.len() > 0 {
        lemma_word_end(s.drop_last());
    }
}

proof fn lemma_first_dot(before: Seq<char>, after: Seq<char>)
    requires
        forall|i: int| 0 <= i < before.len() ==> #[trigger] before[i] != '.',
        after.len() > 0,
        after[0] == '.',
    ensures
        first_dot(before + after) == before.len(),
    decreases before.len(),
{
    if before.len() == 0 {
        assert(before + after =~= after);
    } else {
        lemma_first_dot(before.drop_first(), after);
        assert((before + after)[0] == before[0]);
        assert((before + after).drop_first() =~= before.drop_first() + after);
    }
}

/// The beginning of a text has its first dot where the text has it, if it reaches that far.
proof fn lemma_first_dot_take(s: Seq<char>, m: int)
    requires
        0 <= m <= s.len(),
    ensures
        first_dot(s) <= s.len(),
        first_dot(s.take(m)) == if first_dot(s) < m {
            first_dot(s) as int
        } else {
            m
        },
    decreases s.len(),
{
    if s.len() > 0 {
        let d = s.drop_first();
        lemma_first_dot_take(d, if m > 0 { m - 1 } else { 0 });
        if m > 0 {
            assert(s.take(m)[0] == s[0]);
            assert(s.take(m).drop_first() =~= d.take(m - 1));
        }
    }
}

/// A version text up to its minor version.
pub open spec fn minor_text(impl_name: Seq<char>, major: u32, minor: u32) -> Seq<char> {
    impl_name + " "@ + text::decimal(major as nat) + "."@ + text::decimal(minor as nat)
}

/// Whether a text holds no white space.
spec fn no_space(s: Seq<char>) -> bool {
    forall|i: int| 0 <= i < s.len() ==> !is_space(#[trigger] s[i])
}

/// Whether a text holds no dot.
spec fn no_dot(s: Seq<char>) -> bool {
    forall|i: int| 0 <= i < s.len() ==> #[trigger] s[i] != '.'
}

proof fn lemma_no_space_concat(a: Seq<char>, b: Seq<char>)
    requires
        no_space(a),
        no_space(b),
    ensures
        no_space(a + b),
{
    let s = a + b;
    assert forall|i: int| 0 <= i < s.len() implies !is_space(#[trigger] s[i]) by {
        if i < a.len() {
            assert(s[i] == a[i]);
        } else {
            assert(s[i] == b[i - a.len()]);
        }
    }
}

/// What stands behind the last white space of a text is its last word.
proof fn lemma_last_word(before: Seq<char>, word: Seq<char>)
    requires
        before.len() > 0 ==> is_space(before.last()),
        word.len() > 0,
        no_space(word),
    ensures
        word_end(before + word) == before.len() + word.len(),
        word_start(before + word) == before.len(),
        last_word(before + word) == word,
{
    let s = before + word;
    assert(s.last() == word[word.len() - 1]);
    assert(s.take(s.len() as int) =~= s);
    lemma_word_start(before, word);
    assert(s.skip(before.len() as int) =~= word);
}

/// What is found in a word of three parts between dots.
proof fn lemma_dotted_word(before: Seq<char>, a: Seq<char>, b: Seq<char>, after: Seq<char>)
    requires
        before.len() > 0,
        is_space(before.last()),
        no_space(a + (seq!['.'] + (b + after))),
        no_dot(a),
        no_dot(b),
        after.len() > 0,
        after[0] == '.',
    ensures
        ({
            let s = before + (a + (seq!['.'] + (b + after)));
            &&& major_minor(s) == match (text::number(a), text::number(b)) {
                (Some(x), Some(y)) => Some((x, y)),
                _ => None,
            }
            &&& patch_start(s) == before.len() + a.len() + 1 + b.len()
        }),
{
    let rest = b + after;
    let word = a + (seq!['.'] + rest);
    let s = before + word;
    lemma_last_word(before, word);
    assert(s.take(s.len() as int) =~= s);
    assert(s.skip(before.len() as int) =~= word);
    lemma_first_dot(a, seq!['.'] + rest);
    assert(word.take(a.len() as int) =~= a);
    assert(word.skip((a.len() + 1) as int) =~= rest);
    lemma_first_dot(b, after);
    assert(rest.take(b.len() as int) =~= b);
}

proof fn lemma_decimal_is_plain(n: nat)
    ensures
        no_space(text::decimal(n)),
        no_dot(text::decimal(n)),
{
    let s = text::decimal(n);
    text::lemma_decimal(n);
    assert forall|i: int| 0 <= i < s.len() implies !is_space(#[trigger] s[i]) by {
        assert('0' <= s[i] && s[i] <= '9');
    }
    assert forall|i: int| 0 <= i < s.len() implies #[trigger] s[i] != '.' by {
        assert('0' <= s[i] && s[i] <= '9');
    }
}

/// From the version text of an interpreter its major and minor version are read, whatever
/// its name and its patch level; and without the patch level it is its name with these two.
pub proof fn law_version_text_is_read(
    impl_name: Seq<char>,
    major: u32,
    minor: u32,
    micro: u32,
)
    ensures
        major_minor(version_text(impl_name, major, minor, micro)) == Some(
            (major as u64, minor as u64),
        ),
        without_patch(version_text(impl_name, major, minor, micro)) == minor_text(
            impl_name,
            major,
            minor,
        ),
{
    reveal_strlit(" ");
    reveal_strlit(".");
    let dot = seq!['.'];
    assert("."@ =~= dot);
    let (a, b, c) = (
        text::decimal(major as nat),
        text::decimal(minor as nat),
        text::decimal(micro as nat),
    );
    lemma_decimal_is_plain(major as nat);
    lemma_decimal_is_plain(minor as nat);
    lemma_decimal_is_plain(micro as nat);
    text::lemma_number_of_decimal(major as u64);
    text::lemma_number_of_decimal(minor as u64);
    let before = impl_name + " "@;
    let after = dot + c;
    let s = before + (a + (dot + (b + after)));
    lemma_no_space_concat(dot, c);
    lemma_no_space_concat(b, after);
    lemma_no_space_concat(dot, b + after);
    lemma_no_space_concat(a, dot + (b + after));
    lemma_dotted_word(before, a, b, after);
    assert(version_text(impl_name, major, minor, micro) =~= s);
    assert(s.take((before.len() + a.len() + 1 + b.len()) as int) =~= minor_text(
        impl_name,
        major,
        minor,
    ));
}

/// What is left of a version text is its beginning.
pub proof fn lemma_without_patch_is_a_prefix(version: Seq<char>)
    ensures
        without_patch(version).len() <= version.len(),
        forall|i: int|
            0 <= i < without_patch(version).len() ==> #[trigger] without_patch(version)[i]
                == version[i],
{
    let t = version.take(word_end(version) as int);
    let word = t.skip(word_start(t) as int);
    lemma_word_end(version);
    lemma_word_chars(t);
    lemma_first_dot_take(word, 0);
    if first_dot(word) < word.len() {
        lemma_first_dot_take(word.skip((first_dot(word) + 1) as int), 0);
    }
}

/// Leaving out the patch level keeps the major and minor version of every version text.
pub proof fn law_minor_version_is_kept(version: Seq<char>)
    ensures
        major_minor(without_patch(version)) == major_minor(version),
{
    let t = version.take(word_end(version) as int);
    let start = word_start(t) as int;
    let word = t.skip(start);
    let dot = first_dot(word) as int;
    let rest = word.skip(dot + 1);
    let next = first_dot(rest) as int;
    lemma_word_end(version);
    lemma_word_chars(t);
    if dot == word.len() || next == rest.len() {
        assert(without_patch(version) =~= version);
    } else {
        let m = dot + 1 + next;
        let u = without_patch(version);
        lemma_first_dot_take(word, 0);
        lemma_first_dot_take(rest, 0);
        let (before, kept) = (version.take(start), word.take(m));
        assert(u =~= before + kept);
        assert forall|i: int| 0 <= i < kept.len() implies !is_space(#[trigger] kept[i]) by {
            assert(kept[i] == t[start + i]);
        }
        if start > 0 {
            assert(before.last() == t[start - 1]);
        }
        lemma_word_start(before, kept);
        assert(u.last() == kept[m - 1]);
        assert(u.take(word_end(u) as int) =~= u);
        assert(last_word(u) =~= kept);
        assert(last_word(version) =~= word);
        lemma_first_dot_take(word, m);
        assert(kept.take(dot) =~= word.take(dot));
        assert(kept.skip(dot + 1) =~= rest.take(next));
        lemma_first_dot_take(rest, next);
        assert(rest.take(next).take(next) =~= rest.take(next));
    }
}

/// A snapshot fits an interpreter on the same target with the same major and minor version,
/// from 3.10 on, whatever the patch levels of the two; and no other.
pub proof fn law_patch_level_may_differ(
    meta: MetadataView,
    name_a: Seq<char>,
    name_b: Seq<char>,
    a: (u32, u32, u32),
    b: (u32, u32, u32),
    triple: Seq<char>,
)
    requires
        meta.python_impl_version == version_text(name_a, a.0, a.1, a.2),
    ensures
        compatible(meta, version_text(name_b, b.0, b.1, b.2), triple) <==> meta.target_triple
            == triple && a.0 == b.0 && a.1 == b.1 && (a.0 > 3 || (a.0 == 3 && a.1 >= 10)),
{
    law_version_text_is_read(name_a, a.0, a.1, a.2);
    law_version_text_is_read(name_b, b.0, b.1, b.2);
}

/// Every minor version of Python 3 from the tenth on is supported, and none before it: a
/// snapshot of it fits an interpreter of the same minor version on the same target, whatever the
/// patch levels of the two.
pub proof fn law_three_ten_and_later_are_supported(
    meta: MetadataView,
    name: Seq<char>,
    minor: u32,
    patch_then: u32,
    patch_now: u32,
)
    requires
        meta.python_impl_version == version_text(name, 3, minor, patch_then),
    ensures
        minor >= 10 ==> compatible(
            meta,
            version_text(name, 3, minor, patch_now),
            meta.target_triple,
        ),
        minor < 10 ==> !compatible(
            meta,
            version_text(name, 3, minor, patch_now),
            meta.target_triple,
        ),
{
    law_patch_level_may_differ(
        meta,
        name,
        name,
        (3, minor, patch_then),
        (3, minor, patch_now),
        meta.target_triple,
    );
}

/// `validate_runtime_compatibility` lets a snapshot pass exactly where the targets are the same
/// text, the major and minor versions are the same numbers, and these are 3.10 or later. It
/// says what is wrong, the target first and the age of the interpreter last, with the texts
/// that were compared.
pub proof fn law_check_lets_through_what_fits(
    meta: &SnapshotMetadata,
    current_py_ver: &str,
    current_triple: &str,
    r: Result<(), FreezeError>,
    name_a: Seq<char>,
    name_b: Seq<char>,
    a: (u32, u32, u32),
    b: (u32, u32, u32),
)
    requires
        call_ensures(validate_runtime_compatibility, (meta, current_py_ver, current_triple), r),
        meta.python_impl_version@ == version_text(name_a, a.0, a.1, a.2),
        current_py_ver@ == version_text(name_b, b.0, b.1, b.2),
    ensures
        r is Ok <==> meta.target_triple@ == current_triple@ && a.0 == b.0 && a.1 == b.1 && (a.0 > 3
            || (a.0 == 3 && a.1 >= 10)),
        meta.target_triple@ != current_triple@ ==> r is Err && r->Err_0 is VersionMismatch
            && r->Err_0->snapshot_ver@ == meta.target_triple@ && r->Err_0->current_ver@
            == current_triple@,
        meta.target_triple@ == current_triple@ && (a.0 != b.0 || a.1 != b.1) ==> r is Err
            && r->Err_0 is VersionMismatch && r->Err_0->snapshot_ver@
            == meta.python_impl_version@ && r->Err_0->current_ver@ == current_py_ver@,
        meta.target_triple@ == current_triple@ && a.0 == b.0 && a.1 == b.1 && (a.0 < 3 || (a.0 == 3
            && a.1 < 10)) ==> r is Err && r->Err_0 is UnsupportedPythonVersion
            && r->Err_0->version@ == meta.python_impl_version@,
{
    law_patch_level_may_differ(meta@, name_a, name_b, a, b, current_triple@);
    law_version_text_is_read(name_a, a.0, a.1, a.2);
    law_version_text_is_read(name_b, b.0, b.1, b.2);
}

/// A snapshot whose version cannot be read fits nothing, and neither does an interpreter whose
/// version cannot be read.
pub proof fn law_unreadable_version_fits_nothing(
    meta: MetadataView,
    current_py_ver: Seq<char>,
    triple: Seq<char>,
)
    requires
        !meta.python_impl_version.contains('.') || !current_py_ver.contains('.'),
    ensures
        !compatible(meta, current_py_ver, triple),
{
    if !meta.python_impl_version.contains('.') {
        law_version_without_a_dot_is_none(meta.python_impl_version);
    } else {
        law_version_without_a_dot_is_none(current_py_ver);
    }
}

/// A text without a dot gives no version.
pub proof fn law_version_without_a_dot_is_none(version: Seq<char>)
    requires
        !version.contains('.'),
    ensures
        major_minor(version) is None,
{
    let t = version.take(word_end(version) as int);
    let word = last_word(version);
    lemma_word_end(version);
    lemma_word_chars(t);
    assert forall|i: int| 0 <= i < word.len() implies #[trigger] word[i] != '.' by {
        if t.len() > 0 {
            assert(word[i] == version[word_start(t) + i]);
        }
    }
    lemma_no_dot(word);
}

proof fn lemma_no_dot(s: Seq<char>)
    requires
        no_dot(s),
    ensures
        first_dot(s) == s.len(),
    decreases s.len(),
{
    if s.len() > 0 {
        assert(s[0] != '.');
        assert forall|i: int| 0 <= i < s.drop_first().len() implies #[trigger] s.drop_first()[i]
            != '.' by {
            assert(s.drop_first()[i] == s[i + 1]);
        }
        lemma_no_dot(s.drop_first());
    }
}

/// White space behind a version text changes nothing.
pub proof fn law_white_space_behind_a_version_changes_nothing(version: Seq<char>, c: char)
    requires
        is_space(c),
        version.contains('.'),
    ensures
        major_minor(version.push(c)) == major_minor(version),
{
    let s = version.push(c);
    assert(s.drop_last() =~= version);
    lemma_word_end(version);
    assert(s.take(word_end(version) as int) =~= version.take(word_end(version) as int));
    let k = choose|k: int| 0 <= k < version.len() && version[k] == '.';
    lemma_word_end_reaches(version, k);
}

proof fn lemma_word_end_reaches(s: Seq<char>, k: int)
    requires
        0 <= k < s.len(),
        !is_space(s[k]),
    ensures
        word_end(s) > k,
    decreases s.len(),
{
    if is_space(s.last()) {
        lemma_word_end_reaches(s.drop_last(), k);
    }
}

/// Exactly the characters with the Unicode property `White_Space` part words; of the ASCII
/// characters these are the space and those from tab to carriage return.
pub proof fn law_ascii_white_space(c: char)
    requires
        c <= '\u{7f}',
    ensures
        is_space(c) <==> c == ' ' || '\t' <= c <= '\r',
{
}

/// A version text is the name, a space, and the three numbers in decimal with dots between
/// them; so it tells all three numbers.
pub proof fn law_version_text_tells_the_version(
    name: Seq<char>,
    a: (u32, u32, u32),
    b: (u32, u32, u32),
)
    ensures
        version_text(name, a.0, a.1, a.2) == name + seq![' '] + text::decimal(a.0 as nat) + seq!['.']
            + text::decimal(a.1 as nat) + seq!['.'] + text::decimal(a.2 as nat),
        version_text(name, a.0, a.1, a.2) == version_text(name, b.0, b.1, b.2) <==> a == b,
{
    reveal_strlit(" ");
    reveal_strlit(".");
    assert(" "@ =~= seq![' ']);
    assert("."@ =~= seq!['.']);
    if version_text(name, a.0, a.1, a.2) == version_text(name, b.0, b.1, b.2) {
        law_version_text_is_read(name, a.0, a.1, a.2);
        law_version_text_is_read(name, b.0, b.1, b.2);
        let p = minor_text(name, a.0, a.1) + "."@;
        let (x, y) = (text::decimal(a.2 as nat), text::decimal(b.2 as nat));
        assert(version_text(name, a.0, a.1, a.2) =~= p + x);
        assert(version_text(name, b.0, b.1, b.2) =~= p + y);
        assert((p + x).skip(p.len() as int) =~= x);
        assert((p + y).skip(p.len() as int) =~= y);
        text::lemma_decimal(a.2 as nat);
        text::lemma_decimal(b.2 as nat);
    }
}

/// From a version text `parse_major_minor` reads the two numbers, and `strip_patch` leaves out
/// the third and the dot before it.
pub proof fn law_version_is_read_and_stripped(
    version: &str,
    read: Option<(u64, u64)>,
    stripped: String,
    name: Seq<char>,
    v: (u32, u32, u32),
)
    requires
        call_ensures(parse_major_minor, (version,), read),
        call_ensures(strip_patch, (version,), stripped),
        version@ == version_text(name, v.0, v.1, v.2),
    ensures
        read == Some((v.0 as u64, v.1 as u64)),
        version@ == stripped@ + seq!['.'] + text::decimal(v.2 as nat),
{
    law_version_text_is_read(name, v.0, v.1, v.2);
    law_version_text_tells_the_version(name, v, v);
    reveal_strlit(" ");
    reveal_strlit(".");
    assert(" "@ =~= seq![' ']);
    assert("."@ =~= seq!['.']);
    assert(version@ =~= stripped@ + seq!['.'] + text::decimal(v.2 as nat));
}

/// A platform that is not named otherwise than its operating system is named as it is, up to
/// the digits at its end.
pub proof fn law_platform_is_its_operating_system(platform: Seq<char>)
    ensures
        platform == "win32"@ ==> os_of(platform) == "windows"@,
        platform == "darwin"@ ==> os_of(platform) == "macos"@,
        platform != "win32"@ && platform != "darwin"@ ==> {
            let n = os_of(platform).len() as int;
            &&& n <= platform.len()
            &&& os_of(platform) == platform.take(n)
            &&& text::all_digits(platform.skip(n))
            &&& n > 0 ==> !('0' <= platform[n - 1] <= '9')
        },
{
    reveal_strlit("win32");
    reveal_strlit("darwin");
    lemma_without_release(platform);
}

proof fn lemma_without_release(s: Seq<char>)
    ensures
        ({
            let n = without_release(s).len() as int;
            &&& n <= s.len()
            &&& without_release(s) == s.take(n)
            &&& text::all_digits(s.skip(n))
            &&& n > 0 ==> !('0' <= s[n - 1] <= '9')
        }),
    decreases s.len(),
{
    if s.len() > 0 && '0' <= s.last() <= '9' {
        let d = s.drop_last();
        lemma_without_release(d);
        let n = without_release(s).len() as int;
        assert(s.take(n) =~= d.take(n));
        assert forall|i: int| 0 <= i < s.skip(n).len() implies '0' <= #[trigger] s.skip(n)[i]
            && s.skip(n)[i] <= '9' by {
            if i < d.skip(n).len() {
                assert(s.skip(n)[i] == d.skip(n)[i]);
            }
        }
    } else {
        assert(s.take(s.len() as int) =~= s);
    }
}

/// The target is the architecture, a hyphen and the operating system.
pub proof fn law_target_is_spelled_out(arch: &str, os: &str, r: String)
    requires
        call_ensures(current_target_triple, (arch, os), r),
    ensures
        r@ == arch@ + seq!['-'] + os@,
{
    reveal_strlit("-");
    assert("-"@ =~= seq!['-']);
}

/// The file beside a snapshot is named like the snapshot, with `.meta.json` behind it; so two
/// snapshots never share one.
pub proof fn law_sidecar_is_named_after_its_snapshot(a: Seq<char>, b: Seq<char>)
    ensures
        sidecar_name_of(Some(a)).take(a.len() as int) == a,
        sidecar_name_of(Some(a)).skip(a.len() as int) == ".meta.json"@,
        sidecar_name_of(Some(a)) == sidecar_name_of(Some(b)) ==> a == b,
        sidecar_name_of(None) == "snapshot.meta.json"@,
{
    let (x, y) = (sidecar_name_of(Some(a)), sidecar_name_of(Some(b)));
    assert(x.take(a.len() as int) =~= a);
    assert(x.skip(a.len() as int) =~= ".meta.json"@);
    assert(y.take(b.len() as int) =~= b);
    if x == y {
        assert(x.len() == a.len() + ".meta.json"@.len());
        assert(y.len() == b.len() + ".meta.json"@.len());
    }
}

/// Building gives the metadata that the builder was given, and the point of time.
pub proof fn law_built_metadata_is_what_was_given(
    b: MetadataBuilder,
    captured_at: String,
    r: SnapshotMetadata,
)
    requires
        call_ensures(MetadataBuilder::build_at, (b, captured_at), r),
    ensures
        r.source_hash@ == b@.source_hash,
        r.python_impl_version@ == b@.python_impl_ver,
        r.target_triple@ == b@.target_triple,
        r.framework@ == b@.framework,
        r.import_phase_ms == b@.import_phase_ms,
        r.captured_at@ == captured_at@,
{
}

/// A snapshot fits exactly where the targets are the same, both versions can be read, the major
/// and minor versions are the same, and these are 3.10 or later.
pub proof fn law_fit_is_decided_by_numbers(
    meta: MetadataView,
    current_py_ver: Seq<char>,
    current_triple: Seq<char>,
)
    ensures
        compatible(meta, current_py_ver, current_triple) <==> {
            let (a, b) = (major_minor(meta.python_impl_version), major_minor(current_py_ver));
            &&& meta.target_triple == current_triple
            &&& a is Some
            &&& a == b
            &&& a->Some_0.0 > 3 || (a->Some_0.0 == 3 && a->Some_0.1 >= 10)
        },
{
}

/// The version of a text is what stands between the dots of its last word: the first part is the
/// major version, the second the minor version, and both have to be numbers.
pub proof fn law_numbers_between_the_dots_are_read(
    before: Seq<char>,
    major: Seq<char>,
    minor: Seq<char>,
    after: Seq<char>,
)
    requires
        before.len() > 0 ==> is_space(before.last()),
        forall|i: int| 0 <= i < major.len() ==> #[trigger] major[i] != '.' && !is_space(major[i]),
        forall|i: int| 0 <= i < minor.len() ==> #[trigger] minor[i] != '.' && !is_space(minor[i]),
        forall|i: int| 0 <= i < after.len() ==> !is_space(#[trigger] after[i]),
        after.len() > 0 ==> after[0] == '.',
    ensures
        ({
            let (a, b) = (text::number(major), text::number(minor));
            &&& major_minor(before + (major + (seq!['.'] + (minor + after)))) is Some <==> a is Some
                && b is Some
            &&& a is Some && b is Some ==> major_minor(
                before + (major + (seq!['.'] + (minor + after))),
            ) == Some((a->Some_0, b->Some_0))
        }),
{
    let rest = minor + after;
    let word = major + (seq!['.'] + rest);
    lemma_no_space_concat(minor, after);
    lemma_no_space_concat(seq!['.'], rest);
    lemma_no_space_concat(major, seq!['.'] + rest);
    lemma_last_word(before, word);
    lemma_first_dot(major, seq!['.'] + rest);
    assert(word.take(major.len() as int) =~= major);
    assert(word.skip((major.len() + 1) as int) =~= rest);
    if after.len() > 0 {
        lemma_first_dot(minor, after);
    } else {
        assert(rest =~= minor);
        lemma_no_dot(rest);
    }
    assert(rest.take(minor.len() as int) =~= minor);
}

/// Each step of a builder sets one thing and leaves the others.
pub proof fn law_builder_keeps_what_it_is_given(
    b: MetadataBuilder,
    value: &str,
    ms: u64,
    with_hash: MetadataBuilder,
    with_version: MetadataBuilder,
    with_framework: MetadataBuilder,
    with_ms: MetadataBuilder,
)
    requires
        call_ensures(MetadataBuilder::source_hash, (b, value), with_hash),
        call_ensures(MetadataBuilder::python_impl_version, (b, value), with_version),
        call_ensures(MetadataBuilder::framework, (b, value), with_framework),
        call_ensures(MetadataBuilder::import_phase_ms, (b, ms), with_ms),
    ensures
        with_hash@ == (BuilderView { source_hash: value@, ..b@ }),
        with_version@ == (BuilderView { python_impl_ver: value@, ..b@ }),
        with_framework@ == (BuilderView { framework: value@, ..b@ }),
        with_ms@ == (BuilderView { import_phase_ms: ms, ..b@ }),
{
}

/// A new builder has its target, and nothing but that and the framework "generic".
pub proof fn law_new_builder_is_generic(target_triple: &str, r: MetadataBuilder)
    requires
        call_ensures(MetadataBuilder::new, (target_triple,), r),
    ensures
        r@.target_triple == target_triple@,
        r@.framework == "generic"@,
        r@.source_hash.len() == 0,
        r@.python_impl_ver.len() == 0,
        r@.import_phase_ms == 0,
{
}

/// Metadata that is built now holds what the builder was given, and a timestamp.
pub proof fn law_metadata_built_now_is_what_was_given(b: MetadataBuilder, r: SnapshotMetadata)
    requires
        call_ensures(MetadataBuilder::build, (b,), r),
    ensures
        r.source_hash@ == b@.source_hash,
        r.python_impl_version@ == b@.python_impl_ver,
        r.target_triple@ == b@.target_triple,
        r.framework@ == b@.framework,
        r.import_phase_ms == b@.import_phase_ms,
        is_timestamp(r.captured_at@),
{
}

} // verus!
