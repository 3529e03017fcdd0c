//! The hash that tells whether the sources of a snapshot have changed.
//!
//! It covers the content of every source file, the version of the interpreter and the
//! target. It does not cover timestamps, so that `touch` and build systems that restore
//! them do no harm, nor compiled files, which change when their sources do.

use super::format::MAGIC;
use crate::error::FreezeError;
use crate::text;
use sha2::Digest;
use vstd::prelude::*;
use vstd::relations::*;
use vstd::string::*;
use vstd::utf8::*;

verus! {

// ─── SHA-256 and hexadecimal ────────────────────────────────────────────────

/// The SHA-256 digest of a byte string.
pub uninterp spec fn sha256(data: Seq<u8>) -> Seq<u8>;

/// `sha2::Sha256::digest`: gives the digest of `data`, which is 32 bytes long and depends
/// on nothing but `data`.
#[verifier::external_body]
pub(crate) fn sha256_digest(data: &[u8]) -> (r: Vec<u8>)
    ensures
        r@ == sha256(data@),
        r@.len() == 32,
{
    sha2::Sha256::digest(data).to_vec()
}

/// The lower-case hexadecimal digit of a number below sixteen.
pub open spec fn hex_digit(d: int) -> char {
    if d < 10 {
        (48 + d) as char
    } else {
        (87 + d) as char
    }
}

/// Bytes in hexadecimal: two lower-case digits for each, the higher one first.
pub open spec fn hex_text(data: Seq<u8>) -> Seq<char>
    decreases data.len(),
{
    if data.len() == 0 {
        Seq::empty()
    } else {
        seq![hex_digit((data[0] / 16) as int), hex_digit((data[0] % 16) as int)] + hex_text(
            data.drop_first(),
        )
    }
}

/// Whether a text consists of lower-case hexadecimal digits.
pub open spec fn is_hex(s: Seq<char>) -> bool {
    forall|i: int|
        0 <= i < s.len() ==> ('0' <= #[trigger] s[i] <= '9') || ('a' <= s[i] <= 'f')
}

/// Bytes in hexadecimal are twice as many hexadecimal digits.
pub proof fn lemma_hex_text(data: Seq<u8>)
    ensures
        hex_text(data).len() == 2 * data.len(),
        is_hex(hex_text(data)),
    decreases data.len(),
{
    if data.len() > 0 {
        let rest = data.drop_first();
        lemma_hex_text(rest);
        let s = hex_text(data);
        assert forall|i: int| 0 <= i < s.len() implies ('0' <= #[trigger] s[i] <= '9') || ('a'
            <= s[i] <= 'f') by {
            if i >= 2 {
                assert(s[i] == hex_text(rest)[i - 2]);
            }
        }
    }
}

/// Hexadecimal digits are ASCII.
pub proof fn lemma_hex_is_ascii(s: Seq<char>)
    requires
        is_hex(s),
    ensures
        is_ascii_chars(s),
{
    assert forall|i: int| 0 <= i < s.len() implies '\0' <= #[trigger] s[i] <= '\u{7f}' by {
        assert(('0' <= s[i] <= '9') || ('a' <= s[i] <= 'f'));
    }
}

/// `hex::encode`: writes each byte as two lower-case hexadecimal digits.
#[verifier::external_body]
pub(crate) fn hex_encode(data: &[u8]) -> (r: String)
    ensures
        r@ == hex_text(data@),
{
    hex::encode(data)
}

// ─── Source files ───────────────────────────────────────────────────────────

/// A source file as it is found on disk.
#[derive(Debug)]
pub struct SourceFile {
    pub path: String,
    /// What the file holds; nothing where it cannot be read.
    pub contents: Option<Vec<u8>>,
}

pub struct SourceView {
    pub path: Seq<char>,
    pub contents: Option<Seq<u8>>,
}

/// The bytes of an optional byte string.
pub open spec fn bytes_of(o: Option<Vec<u8>>) -> Option<Seq<u8>> {
    match o {
        Some(b) => Some(b@),
        None => None,
    }
}

impl View for SourceFile {
    type V = SourceView;

    open spec fn view(&self) -> SourceView {
        SourceView { path: self.path@, contents: bytes_of(self.contents) }
    }
}

pub open spec fn source_views(sources: Seq<SourceFile>) -> Seq<SourceView> {
    sources.map_values(|f: SourceFile| f@)
}

/// The paths of a list of files.
pub open spec fn paths_of(sources: Seq<SourceView>) -> Seq<Seq<char>> {
    sources.map_values(|f: SourceView| f.path)
}

// ─── The order of the files ─────────────────────────────────────────────────

/// The order of file contents; a file that cannot be read comes first.
pub open spec fn contents_le(a: Option<Seq<u8>>, b: Option<Seq<u8>>) -> bool {
    match (a, b) {
        (None, _) => true,
        (Some(_), None) => false,
        (Some(x), Some(y)) => text::bytes_le(x, y),
    }
}

/// Files are ordered by their paths, those with one path by their contents.
pub open spec fn source_le(a: SourceView, b: SourceView) -> bool {
    if a.path == b.path {
        contents_le(a.contents, b.contents)
    } else {
        text::bytes_le(encode_utf8(a.path), encode_utf8(b.path))
    }
}

/// `source_le` as a relation.
pub open spec fn source_order() -> spec_fn(SourceView, SourceView) -> bool {
    |a: SourceView, b: SourceView| source_le(a, b)
}

proof fn lemma_source_le_total(a: SourceView, b: SourceView)
    ensures
        source_le(a, b) || source_le(b, a),
        source_le(a, b) && source_le(b, a) <==> a == b,
{
    text::lemma_utf8_injective(a.path, b.path);
    text::lemma_bytes_le_total(encode_utf8(a.path), encode_utf8(b.path));
    if let (Some(x), Some(y)) = (a.contents, b.contents) {
        text::lemma_bytes_le_total(x, y);
    }
}

proof fn lemma_source_le_transitive(a: SourceView, b: SourceView, c: SourceView)
    requires
        source_le(a, b),
        source_le(b, c),
    ensures
        source_le(a, c),
{
    let (p, q, r) = (encode_utf8(a.path), encode_utf8(b.path), encode_utf8(c.path));
    if a.path == b.path && b.path == c.path {
        if let (Some(x), Some(y), Some(z)) = (a.contents, b.contents, c.contents) {
            text::lemma_bytes_le_transitive(x, y, z);
        }
    } else if a.path != b.path && b.path != c.path {
        text::lemma_bytes_le_transitive(p, q, r);
        if a.path == c.path {
            text::lemma_bytes_le_total(p, q);
            text::lemma_utf8_injective(a.path, b.path);
        }
    }
}

pub proof fn lemma_source_order()
    ensures
        total_ordering(source_order()),
{
    let leq = source_order();
    assert forall|x: SourceView| #[trigger] leq(x, x) by {
        lemma_source_le_total(x, x);
    }
    assert forall|x: SourceView, y: SourceView| #[trigger] leq(x, y) && #[trigger] leq(y, x) implies x
        == y by {
        lemma_source_le_total(x, y);
    }
    assert forall|x: SourceView, y: SourceView| #[trigger] leq(x, y) || #[trigger] leq(y, x) by {
        lemma_source_le_total(x, y);
    }
    assert forall|x: SourceView, y: SourceView, z: SourceView| #[trigger]
        leq(x, y) && #[trigger] leq(y, z) implies leq(x, z) by {
        lemma_source_le_transitive(x, y, z);
    }
}

/// The files in their order.
pub open spec fn ordered(sources: Seq<SourceView>) -> Seq<SourceView> {
    sources.sort_by(source_order())
}

/// Whether `a` comes before `b`, or is the same.
fn source_ordered(a: &SourceFile, b: &SourceFile) -> (r: bool)
    ensures
        r == source_le(a@, b@),
{
    if text::str_equal(a.path.as_str(), b.path.as_str()) {
        match (&a.contents, &b.contents) {
            (None, _) => true,
            (Some(_), None) => false,
            (Some(x), Some(y)) => text::bytes_ordered(x.as_slice(), y.as_slice()),
        }
    } else {
        text::bytes_ordered(a.path.as_str().as_bytes(), b.path.as_str().as_bytes())
    }
}

/// The files that a list of positions picks out.
spec fn picked(sources: Seq<SourceFile>, order: Seq<usize>) -> Seq<SourceView> {
    order.map_values(|i: usize| sources[i as int]@)
}

/// A sorted list stays sorted when something is put at its end that comes after its last
/// element.
proof fn lemma_push_sorted(s: Seq<SourceView>, x: SourceView)
    requires
        sorted_by(s, source_order()),
        s.len() > 0 ==> source_le(s.last(), x),
    ensures
        sorted_by(s.push(x), source_order()),
        s.push(x).to_multiset() == s.to_multiset().insert(x),
{
    let leq = source_order();
    let t = s.push(x);
    vstd::seq_lib::to_multiset_build(s, x);
    assert forall|a: int, b: int| 0 <= a < b < t.len() implies #[trigger] leq(t[a], t[b]) by {
        assert(t[a] == s[a]);
        if b < s.len() {
            assert(t[b] == s[b]);
            assert(leq(s[a], s[b]));
        } else if a < s.len() - 1 {
            assert(leq(s[a], s.last()));
            lemma_source_le_transitive(s[a], s.last(), x);
        }
    }
}

/// Whether a list of positions stays within the files and picks them out in their order.
spec fn in_order(sources: Seq<SourceFile>, order: Seq<usize>) -> bool {
    &&& forall|k: int| 0 <= k < order.len() ==> #[trigger] order[k] < sources.len()
    &&& sorted_by(picked(sources, order), source_order())
}

/// Takes `p`, whose file comes after the others, to the end of a list of positions.
fn push_position(sources: &[SourceFile], order: &mut Vec<usize>, p: usize)
    requires
        in_order(sources@, old(order)@),
        p < sources@.len(),
        old(order)@.len() > 0 ==> source_le(
            picked(sources@, old(order)@).last(),
            sources@[p as int]@,
        ),
    ensures
        in_order(sources@, final(order)@),
        final(order)@ == old(order)@.push(p),
        picked(sources@, final(order)@).to_multiset() == picked(
            sources@,
            old(order)@,
        ).to_multiset().insert(sources@[p as int]@),
{
    proof {
        let before = picked(sources@, order@);
        lemma_push_sorted(before, sources@[p as int]@);
        assert(picked(sources@, order@.push(p)) =~= before.push(sources@[p as int]@));
    }
    order.push(p);
}

/// The first positions of a list, and one more.
proof fn lemma_picked_next(sources: Seq<SourceFile>, order: Seq<usize>, i: int)
    requires
        0 <= i < order.len(),
    ensures
        picked(sources, order.take(i + 1)).to_multiset() == picked(
            sources,
            order.take(i),
        ).to_multiset().insert(sources[order[i] as int]@),
{
    let x = sources[order[i] as int]@;
    vstd::seq_lib::to_multiset_build(picked(sources, order.take(i)), x);
    assert(picked(sources, order.take(i + 1)) =~= picked(sources, order.take(i)).push(x));
}

/// Merges two lists of positions.
fn merge_positions(sources: &[SourceFile], a: &[usize], b: &[usize]) -> (r: Vec<usize>)
    requires
        in_order(sources@, a@),
        in_order(sources@, b@),
    ensures
        in_order(sources@, r@),
        picked(sources@, r@).to_multiset() == picked(sources@, a@).to_multiset().add(
            picked(sources@, b@).to_multiset(),
        ),
{
    let ghost (s, t) = (picked(sources@, a@), picked(sources@, b@));
    let ghost leq = source_order();
    let mut out: Vec<usize> = Vec::new();
    let mut i: usize = 0;
    let mut j: usize = 0;
    assert(picked(sources@, out@) =~= Seq::empty());
    assert(picked(sources@, a@.take(0)) =~= Seq::empty());
    assert(picked(sources@, b@.take(0)) =~= Seq::empty());
    assert(picked(sources@, out@).to_multiset() =~= picked(
        sources@,
        a@.take(0),
    ).to_multiset().add(picked(sources@, b@.take(0)).to_multiset())) by {
        broadcast use vstd::multiset::group_multiset_axioms;

        vstd::seq_lib::to_multiset_len(Seq::<SourceView>::empty());
    }
    while i < a.len() || j < b.len()
        invariant
            i <= a@.len(),
            j <= b@.len(),
            in_order(sources@, a@),
            in_order(sources@, b@),
            in_order(sources@, out@),
            s == picked(sources@, a@),
            t == picked(sources@, b@),
            leq == source_order(),
            out@.len() > 0 && i < a@.len() ==> source_le(
                picked(sources@, out@).last(),
                s[i as int],
            ),
            out@.len() > 0 && j < b@.len() ==> source_le(
                picked(sources@, out@).last(),
                t[j as int],
            ),
            picked(sources@, out@).to_multiset() == picked(
                sources@,
                a@.take(i as int),
            ).to_multiset().add(picked(sources@, b@.take(j as int)).to_multiset()),
        decreases a@.len() - i + b@.len() - j,
    {
        broadcast use vstd::multiset::group_multiset_axioms;

        if j >= b.len() || (i < a.len() && source_ordered(&sources[a[i]], &sources[b[j]])) {
            push_position(sources, &mut out, a[i]);
            proof {
                lemma_picked_next(sources@, a@, i as int);
                if i + 1 < a@.len() {
                    assert(leq(s[i as int], s[i + 1]));
                }
            }
            i += 1;
        } else {
            push_position(sources, &mut out, b[j]);
            proof {
                lemma_picked_next(sources@, b@, j as int);
                if i < a@.len() {
                    lemma_source_le_total(s[i as int], t[j as int]);
                }
                if j + 1 < b@.len() {
                    assert(leq(t[j as int], t[j + 1]));
                }
            }
            j += 1;
        }
    }
    assert(a@.take(i as int) =~= a@);
    assert(b@.take(j as int) =~= b@);
    out
}

/// The positions of the files from `lo` to `hi`, in the order of the files.
fn sort_range(sources: &[SourceFile], lo: usize, hi: usize) -> (r: Vec<usize>)
    requires
        lo <= hi <= sources@.len(),
    ensures
        in_order(sources@, r@),
        picked(sources@, r@).to_multiset() == source_views(sources@).subrange(
            lo as int,
            hi as int,
        ).to_multiset(),
    decreases hi - lo,
{
    let ghost views = source_views(sources@);
    if hi - lo <= 1 {
        let mut order: Vec<usize> = Vec::new();
        if lo < hi {
            order.push(lo);
        }
        assert(picked(sources@, order@) =~= views.subrange(lo as int, hi as int));
        return order;
    }
    let mid: usize = lo + (hi - lo) / 2;
    let front = sort_range(sources, lo, mid);
    let back = sort_range(sources, mid, hi);
    proof {
        let (a, b) = (
            views.subrange(lo as int, mid as int),
            views.subrange(mid as int, hi as int),
        );
        assert(views.subrange(lo as int, hi as int) =~= a + b);
        vstd::seq_lib::lemma_multiset_commutative(a, b);
    }
    merge_positions(sources, front.as_slice(), back.as_slice())
}

/// The positions of the files, in the order of the files.
fn sort_positions(sources: &[SourceFile]) -> (r: Vec<usize>)
    ensures
        r@.len() == sources@.len(),
        forall|k: int| 0 <= k < r@.len() ==> #[trigger] r@[k] < sources@.len(),
        picked(sources@, r@) == ordered(source_views(sources@)),
{
    let order = sort_range(sources, 0, sources.len());
    proof {
        let views = source_views(sources@);
        let leq = source_order();
        lemma_source_order();
        views.lemma_sort_by_ensures(leq);
        assert(views.subrange(0, sources@.len() as int) =~= views);
        vstd::seq_lib::to_multiset_len(picked(sources@, order@));
        vstd::seq_lib::to_multiset_len(views);
        vstd::seq_lib::lemma_sorted_unique(picked(sources@, order@), ordered(views), leq);
    }
    order
}

// ─── What is hashed ─────────────────────────────────────────────────────────

/// What stands for a file that cannot be read.
pub open spec fn missing_bytes() -> Seq<u8> {
    encode_utf8("<missing>"@)
}

/// The length of a content: in decimal, and a colon.
pub open spec fn length_mark(n: nat) -> Seq<u8> {
    encode_utf8(text::decimal(n)).push(0x3A)
}

/// A file as it is hashed: the length of its content, the content itself, and the byte 0xFF.
/// One that cannot be read has no length, so that no content can pass for it.
pub open spec fn framed(f: SourceView) -> Seq<u8> {
    match f.contents {
        Some(b) => length_mark(b.len()) + b.push(0xFF),
        None => missing_bytes().push(0xFF),
    }
}

/// The files one after another.
pub open spec fn fed_files(sources: Seq<SourceView>) -> Seq<u8>
    decreases sources.len(),
{
    if sources.len() == 0 {
        Seq::empty()
    } else {
        fed_files(sources.drop_last()) + framed(sources.last())
    }
}

/// The identity of the runtime: the version of the interpreter and the target, each ended
/// by a zero byte.
pub open spec fn runtime_salt(python_version: Seq<char>, target_triple: Seq<char>) -> Seq<u8> {
    encode_utf8(python_version).push(0) + encode_utf8(target_triple).push(0)
}

/// The byte string whose digest is the source hash.
pub open spec fn preimage(
    sources: Seq<SourceView>,
    python_version: Seq<char>,
    target_triple: Seq<char>,
) -> Seq<u8> {
    runtime_salt(python_version, target_triple) + fed_files(ordered(sources))
}

/// The source hash.
pub open spec fn source_hash(
    sources: Seq<SourceView>,
    python_version: Seq<char>,
    target_triple: Seq<char>,
) -> Seq<char> {
    hex_text(sha256(preimage(sources, python_version, target_triple)))
}

/// The byte string whose digest is the source hash.
pub fn source_preimage(sources: &[SourceFile], python_version: &str, target_triple: &str) -> (r:
    Vec<u8>)
    ensures
        r@ == preimage(source_views(sources@), python_version@, target_triple@),
{
    // Salt the hash with the identity of the runtime.
    let mut out: Vec<u8> = Vec::new();
    out.extend_from_slice(python_version.as_bytes());
    out.push(0);
    out.extend_from_slice(target_triple.as_bytes());
    out.push(0);
    let ghost salt = runtime_salt(python_version@, target_triple@);
    assert(out@ =~= salt);

    // Sort the files, so that the hash does not depend on the order of `sys.modules`.
    let order = sort_positions(sources);
    let ghost files = picked(sources@, order@);
    let mut k: usize = 0;
    assert(files.take(0) =~= Seq::empty());
    while k < order.len()
        invariant
            k <= order@.len(),
            order@.len() == sources@.len(),
            forall|k: int| 0 <= k < order@.len() ==> #[trigger] order@[k] < sources@.len(),
            files == picked(sources@, order@),
            out@ == salt + fed_files(files.take(k as int)),
        decreases order@.len() - k,
    {
        let ghost before = out@;
        let f = &sources[order[k]];
        match &f.contents {
            Some(contents) => {
                // The length tells where a file ends, whatever is in it.
                let mut length = String::new();
                text::append_decimal(&mut length, contents.len() as u64);
                assert(length@ =~= text::decimal(contents@.len()));
                out.extend_from_slice(length.as_str().as_bytes());
                out.push(0x3A);
                out.extend_from_slice(contents.as_slice());
            },
            None => {
                out.extend_from_slice("<missing>".as_bytes());
            },
        }
        out.push(0xFF);
        proof {
            assert(files[k as int] == f@);
            assert(files.take(k + 1).drop_last() =~= files.take(k as int));
            assert(files.take(k + 1).last() == f@);
            assert(out@ =~= before + framed(f@));
            assert(out@ =~= salt + fed_files(files.take(k + 1)));
        }
        k += 1;
    }
    assert(files.take(k as int) =~= files);
    out
}

/// The SHA-256 over the source files and the runtime identity, in hexadecimal.
pub fn compute_source_hash(
    sources: &[SourceFile],
    python_version: &str,
    target_triple: &str,
) -> (r: Result<String, FreezeError>)
    ensures
        r is Ok,
        r->Ok_0@ == source_hash(source_views(sources@), python_version@, target_triple@),
        r->Ok_0@.len() == 64,
        is_hex(r->Ok_0@),
{
    let data = source_preimage(sources, python_version, target_triple);
    Ok(hash_contents(data.as_slice()))
}

/// The SHA-256 of a byte string, in hexadecimal.
pub fn hash_contents(contents: &[u8]) -> (r: String)
    ensures
        r@ == hex_text(sha256(contents@)),
        r@.len() == 64,
        is_hex(r@),
{
    let digest = sha256_digest(contents);
    proof {
        lemma_hex_text(digest@);
    }
    hex_encode(digest.as_slice())
}

/// Compares a recorded hash with that of the current sources.
pub fn compare_hashes(expected_hash: &str, actual: String) -> (r: Result<(), FreezeError>)
    ensures
        match r {
            Ok(()) => expected_hash@ == actual@,
            Err(FreezeError::StaleSnapshot { expected, actual: given }) => expected_hash@
                != actual@ && expected@ == expected_hash@ && given@ == actual@,
            Err(_) => false,
        },
{
    if !text::str_equal(actual.as_str(), expected_hash) {
        return Err(FreezeError::StaleSnapshot { expected: expected_hash.to_owned(), actual });
    }
    Ok(())
}

/// Checks that the hash recorded in a snapshot is still that of the current sources.
pub fn verify_snapshot_hash(
    expected_hash: &str,
    sources: &[SourceFile],
    python_version: &str,
    target_triple: &str,
) -> (r: Result<(), FreezeError>)
    ensures
        match r {
            Ok(()) => expected_hash@ == source_hash(
                source_views(sources@),
                python_version@,
                target_triple@,
            ),
            Err(FreezeError::StaleSnapshot { expected, actual }) => {
                &&& expected@ == expected_hash@
                &&& actual@ == source_hash(
                    source_views(sources@),
                    python_version@,
                    target_triple@,
                )
                &&& expected@ != actual@
            },
            Err(_) => false,
        },
{
    match compute_source_hash(sources, python_version, target_triple) {
        Ok(actual) => compare_hashes(expected_hash, actual),
        Err(e) => Err(e),
    }
}

/// Whether a file that begins with these eight bytes looks like a snapshot.
pub fn quick_integrity_check(first: &[u8; 8]) -> (r: bool)
    ensures
        r == (first@ == MAGIC@),
{
    let magic = MAGIC;
    text::bytes_equal(first.as_slice(), magic.as_slice())
}

// ─── Laws ───────────────────────────────────────────────────────────────────

/// The hash does not depend on the order in which the files are given.
pub proof fn law_order_does_not_matter(
    a: Seq<SourceView>,
    b: Seq<SourceView>,
    python_version: Seq<char>,
    target_triple: Seq<char>,
)
    requires
        a.to_multiset() == b.to_multiset(),
    ensures
        preimage(a, python_version, target_triple) == preimage(b, python_version, target_triple),
        source_hash(a, python_version, target_triple) == source_hash(
            b,
            python_version,
            target_triple,
        ),
{
    let leq = source_order();
    lemma_source_order();
    a.lemma_sort_by_ensures(leq);
    b.lemma_sort_by_ensures(leq);
    vstd::seq_lib::lemma_sorted_unique(ordered(a), ordered(b), leq);
}

proof fn lemma_fed_files_concat(a: Seq<SourceView>, b: Seq<SourceView>)
    ensures
        fed_files(a + b) == fed_files(a) + fed_files(b),
    decreases b.len(),
{
    if b.len() == 0 {
        assert(a + b =~= a);
        assert(fed_files(a) + fed_files(b) =~= fed_files(a));
    } else {
        lemma_fed_files_concat(a, b.drop_last());
        assert((a + b).drop_last() =~= a + b.drop_last());
        assert((a + b).last() == b.last());
        assert(fed_files(a + b) =~= fed_files(a) + fed_files(b));
    }
}

/// Whether a byte string is free of a byte.
pub open spec fn free_of(s: Seq<u8>, b: u8) -> bool {
    forall|i: int| 0 <= i < s.len() ==> #[trigger] s[i] != b
}

/// A byte string that is free of a byte can be told apart from what follows that byte.
proof fn lemma_ended_apart(a: Seq<u8>, b: Seq<u8>, c: Seq<u8>, d: Seq<u8>, end: u8)
    requires
        free_of(a, end),
        free_of(b, end),
        a.push(end) + c == b.push(end) + d,
    ensures
        a == b,
        c == d,
{
    let s = a.push(end) + c;
    let t = b.push(end) + d;
    assert(s[a.len() as int] == end);
    assert(t[b.len() as int] == end);
    if a.len() < b.len() {
        assert(t[a.len() as int] == b[a.len() as int]);
    }
    if b.len() < a.len() {
        assert(s[b.len() as int] == a[b.len() as int]);
    }
    assert(a =~= s.take(a.len() as int));
    assert(b =~= t.take(b.len() as int));
    assert(c =~= s.skip((a.len() + 1) as int));
    assert(d =~= t.skip((b.len() + 1) as int));
}

/// What is hashed of a file tells its content, and where what follows it begins.
proof fn lemma_framed_apart(f: SourceView, g: SourceView, a: Seq<u8>, b: Seq<u8>)
    requires
        framed(f) + a == framed(g) + b,
    ensures
        f.contents == g.contents,
        a == b,
{
    match (f.contents, g.contents) {
        (Some(c), Some(d)) => {
            lemma_contents_apart(c, d, a, b);
        },
        (None, None) => {
            let n = framed(f).len() as int;
            assert(a =~= (framed(f) + a).skip(n));
            assert(b =~= (framed(g) + b).skip(n));
        },
        (Some(c), None) => {
            lemma_missing_stands_out(c);
            assert((framed(f) + a)[0] == framed(f)[0]);
            assert((framed(g) + b)[0] == framed(g)[0]);
        },
        (None, Some(d)) => {
            lemma_missing_stands_out(d);
            assert((framed(f) + a)[0] == framed(f)[0]);
            assert((framed(g) + b)[0] == framed(g)[0]);
        },
    }
}

/// A content, with its length before it, can be told apart from what follows it.
proof fn lemma_contents_apart(c: Seq<u8>, d: Seq<u8>, a: Seq<u8>, b: Seq<u8>)
    requires
        length_mark(c.len()) + c.push(0xFF) + a == length_mark(d.len()) + d.push(0xFF) + b,
    ensures
        c == d,
        a == b,
{
    let (m, n) = (text::decimal(c.len()), text::decimal(d.len()));
    let (s, t) = (c.push(0xFF) + a, d.push(0xFF) + b);
    assert(length_mark(c.len()) + c.push(0xFF) + a =~= encode_utf8(m).push(0x3A) + s);
    assert(length_mark(d.len()) + d.push(0xFF) + b =~= encode_utf8(n).push(0x3A) + t);
    lemma_digits_free_of_colon(c.len());
    lemma_digits_free_of_colon(d.len());
    lemma_ended_apart(encode_utf8(m), encode_utf8(n), s, t, 0x3A);
    text::lemma_utf8_injective(m, n);
    text::lemma_decimal(c.len());
    text::lemma_decimal(d.len());
    assert(c.len() == d.len());
    let k = c.len() as int;
    assert(c =~= s.take(k));
    assert(d =~= t.take(k));
    assert(a =~= s.skip(k + 1));
    assert(b =~= t.skip(k + 1));
}

/// What is hashed of a content begins with a digit; what stands for a missing file does not.
proof fn lemma_missing_stands_out(c: Seq<u8>)
    ensures
        missing_bytes().len() > 0,
        length_mark(c.len()).len() > 0,
        missing_bytes()[0] != length_mark(c.len())[0],
{
    let m = "<missing>"@;
    let n = text::decimal(c.len());
    reveal_strlit("<missing>");
    assert(is_ascii_chars(m));
    is_ascii_chars_encode_utf8(m);
    assert(m[0] as u8 == encode_utf8(m)[0]);
    text::lemma_decimal(c.len());
    assert(is_ascii_chars(n)) by {
        assert forall|i: int| 0 <= i < n.len() implies '\0' <= #[trigger] n[i] <= '\u{7f}' by {
            assert('0' <= n[i] && n[i] <= '9');
        }
    }
    is_ascii_chars_encode_utf8(n);
    assert('0' <= n[0] && n[0] <= '9');
    assert(n[0] as u8 == encode_utf8(n)[0]);
}

proof fn lemma_digits_free_of_colon(n: nat)
    ensures
        free_of(encode_utf8(text::decimal(n)), 0x3A),
{
    let s = text::decimal(n);
    text::lemma_decimal(n);
    assert(is_ascii_chars(s)) by {
        assert forall|i: int| 0 <= i < s.len() implies '\0' <= #[trigger] s[i] <= '\u{7f}' by {
            assert('0' <= s[i] && s[i] <= '9');
        }
    }
    is_ascii_chars_encode_utf8(s);
    assert forall|i: int| 0 <= i < encode_utf8(s).len() implies #[trigger] encode_utf8(s)[i]
        != 0x3A by {
        assert('0' <= s[i] && s[i] <= '9');
        assert(s[i] as u8 == encode_utf8(s)[i]);
    }
}

/// What is hashed of a list of files tells the content of each file.
proof fn lemma_fed_files_apart(s: Seq<SourceView>, t: Seq<SourceView>)
    requires
        fed_files(s) == fed_files(t),
    ensures
        s.map_values(|f: SourceView| f.contents) == t.map_values(|f: SourceView| f.contents),
    decreases s.len(),
{
    let (u, v) = (
        s.map_values(|f: SourceView| f.contents),
        t.map_values(|f: SourceView| f.contents),
    );
    if s.len() == 0 || t.len() == 0 {
        if s.len() > 0 {
            assert(fed_files(s).len() > 0);
        }
        if t.len() > 0 {
            assert(fed_files(t).len() > 0);
        }
        assert(u =~= v);
    } else {
        let (s1, t1) = (s.drop_first(), t.drop_first());
        assert(s =~= seq![s[0]] + s1);
        assert(t =~= seq![t[0]] + t1);
        lemma_fed_files_concat(seq![s[0]], s1);
        lemma_fed_files_concat(seq![t[0]], t1);
        assert(fed_files(seq![s[0]].drop_last()) =~= Seq::empty());
        assert(fed_files(seq![t[0]].drop_last()) =~= Seq::empty());
        assert(fed_files(seq![s[0]]) =~= framed(s[0]));
        assert(fed_files(seq![t[0]]) =~= framed(t[0]));
        lemma_framed_apart(s[0], t[0], fed_files(s1), fed_files(t1));
        lemma_fed_files_apart(s1, t1);
        assert(u =~= seq![s[0].contents] + s1.map_values(|f: SourceView| f.contents));
        assert(v =~= seq![t[0].contents] + t1.map_values(|f: SourceView| f.contents));
    }
}

/// What is hashed tells the number of files and the content of each of them, in their order,
/// and which of them could not be read.
pub proof fn law_hashed_bytes_tell_the_files(
    a: Seq<SourceView>,
    b: Seq<SourceView>,
    python_version: Seq<char>,
    target_triple: Seq<char>,
)
    requires
        preimage(a, python_version, target_triple) == preimage(b, python_version, target_triple),
    ensures
        ordered(a).map_values(|f: SourceView| f.contents) == ordered(b).map_values(
            |f: SourceView| f.contents,
        ),
{
    let (s, t) = (ordered(a), ordered(b));
    let salt = runtime_salt(python_version, target_triple);
    let n = salt.len() as int;
    assert((salt + fed_files(s)).skip(n) =~= fed_files(s));
    assert((salt + fed_files(t)).skip(n) =~= fed_files(t));
    lemma_fed_files_apart(s, t);
}

/// Whether a list of files gives each path one content only, as a disk does.
pub open spec fn one_content_per_path(s: Seq<SourceView>) -> bool {
    forall|i: int, j: int|
        0 <= i < s.len() && 0 <= j < s.len() && (#[trigger] s[i]).path == (
        #[trigger] s[j]).path ==> s[i].contents == s[j].contents
}

/// Two lists with the same elements have the same elements after a map.
proof fn lemma_map_multiset(
    a: Seq<SourceView>,
    b: Seq<SourceView>,
    f: spec_fn(SourceView) -> SourceView,
)
    requires
        a.to_multiset() == b.to_multiset(),
    ensures
        a.map_values(f).to_multiset() == b.map_values(f).to_multiset(),
    decreases a.len(),
{
    broadcast use vstd::multiset::group_multiset_axioms;

    vstd::seq_lib::to_multiset_len(a);
    vstd::seq_lib::to_multiset_len(b);
    if a.len() == 0 {
        assert(a.map_values(f) =~= b.map_values(f));
    } else {
        let n = a.len() - 1;
        let x = a[n];
        vstd::seq_lib::to_multiset_contains(a, x);
        vstd::seq_lib::to_multiset_contains(b, x);
        assert(a.contains(x));
        let j = choose|j: int| 0 <= j < b.len() && b[j] == x;
        let (c, d) = (a.remove(n), b.remove(j));
        vstd::seq_lib::to_multiset_remove(a, n);
        vstd::seq_lib::to_multiset_remove(b, j);
        lemma_map_multiset(c, d, f);
        let (p, q) = (a.map_values(f), b.map_values(f));
        assert(p.remove(n) =~= c.map_values(f));
        assert(q.remove(j) =~= d.map_values(f));
        vstd::seq_lib::to_multiset_remove(p, n);
        vstd::seq_lib::to_multiset_remove(q, j);
        vstd::seq_lib::to_multiset_contains(p, p[n]);
        vstd::seq_lib::to_multiset_contains(q, q[j]);
        assert(p.contains(p[n]));
        assert(q.contains(q[j]));
        assert(p.to_multiset() =~= p.remove(n).to_multiset().insert(f(x)));
        assert(q.to_multiset() =~= q.remove(j).to_multiset().insert(f(x)));
    }
}

/// The content of a path in a list of files.
spec fn content_at(s: Seq<SourceView>, path: Seq<char>) -> Option<Seq<u8>> {
    s[choose|i: int| 0 <= i < s.len() && (#[trigger] s[i]).path == path].contents
}

/// If any of the files changes, what is hashed changes: of one file or of several, whatever
/// they hold, also where a path stands in the list more than once, and also where a file can
/// no longer be read, or can be read again.
pub proof fn law_changed_file_is_seen(
    then: Seq<SourceView>,
    now: Seq<SourceView>,
    i: int,
    python_version: Seq<char>,
    target_triple: Seq<char>,
)
    requires
        paths_of(then) == paths_of(now),
        one_content_per_path(then),
        one_content_per_path(now),
        0 <= i < then.len(),
        then[i].contents != now[i].contents,
    ensures
        preimage(then, python_version, target_triple) != preimage(
            now,
            python_version,
            target_triple,
        ),
{
    let leq = source_order();
    let renew = |f: SourceView| SourceView { path: f.path, contents: content_at(now, f.path) };
    let s = ordered(then);
    let u = s.map_values(renew);
    lemma_source_order();
    then.lemma_sort_by_ensures(leq);
    now.lemma_sort_by_ensures(leq);

    // The files as they are now are those as they were then, with new contents.
    assert(then.len() == paths_of(then).len());
    assert(now.len() == paths_of(now).len());
    assert forall|k: int| 0 <= k < now.len() implies now[k] == renew(#[trigger] then[k]) by {
        assert(paths_of(then)[k] == paths_of(now)[k]);
        assert(now[k].path == then[k].path);
        let j = choose|j: int| 0 <= j < now.len() && (#[trigger] now[j]).path == then[k].path;
        assert(now[j].contents == now[k].contents);
    }
    assert(then.map_values(renew) =~= now);
    lemma_map_multiset(then, s, renew);

    // New contents do not change the order.
    assert forall|a: int, b: int| 0 <= a < b < u.len() implies #[trigger] leq(u[a], u[b]) by {
        assert(leq(s[a], s[b]));
        if s[a].path == s[b].path {
            lemma_source_le_total(u[a], u[b]);
        }
    }
    vstd::seq_lib::lemma_sorted_unique(u, ordered(now), leq);

    if preimage(then, python_version, target_triple) == preimage(
        now,
        python_version,
        target_triple,
    ) {
        law_hashed_bytes_tell_the_files(then, now, python_version, target_triple);
        let (p, q) = (
            s.map_values(|f: SourceView| f.contents),
            u.map_values(|f: SourceView| f.contents),
        );
        vstd::seq_lib::to_multiset_contains(then, then[i]);
        vstd::seq_lib::to_multiset_contains(s, then[i]);
        assert(then.contains(then[i]));
        let k = choose|k: int| 0 <= k < s.len() && s[k] == then[i];
        assert(p[k] == q[k]);
        assert(u[k] == renew(then[i]));
        assert(u[k] == now[i]);
    }
}

/// The UTF-8 encoding of a text holds a zero byte only where the text holds a zero character.
proof fn lemma_utf8_free_of_zero(s: Seq<char>)
    requires
        !s.contains('\0'),
    ensures
        free_of(encode_utf8(s), 0),
    decreases s.len(),
{
    if s.len() > 0 {
        let c = s[0] as u32;
        assert(s.contains(s[0]));
        char_u32_cast(s[0], c);
        assert(c != 0);
        assert(!s.drop_first().contains('\0')) by {
            if s.drop_first().contains('\0') {
                let i = choose|i: int|
                    0 <= i < s.drop_first().len() && s.drop_first()[i] == '\0';
                assert(s[i + 1] == '\0');
            }
        }
        lemma_utf8_free_of_zero(s.drop_first());
        lemma_scalar_free_of_zero(c);
        let (f, g) = (encode_scalar(c), encode_utf8(s.drop_first()));
        assert forall|i: int| 0 <= i < (f + g).len() implies #[trigger] (f + g)[i] != 0 by {
            if i < f.len() {
                assert((f + g)[i] == f[i]);
            } else {
                assert((f + g)[i] == g[i - f.len()]);
            }
        }
    }
}

proof fn lemma_scalar_free_of_zero(c: u32)
    requires
        c != 0,
    ensures
        free_of(encode_scalar(c), 0),
{
    assert(c != 0 && c <= 0x7f ==> (c & 0x7f) as u8 != 0) by (bit_vector);
    assert(0xC0u8 | ((c >> 6) & 0x1F) as u8 != 0) by (bit_vector);
    assert(0xE0u8 | ((c >> 12) & 0x0F) as u8 != 0) by (bit_vector);
    assert(0xF0u8 | ((c >> 18) & 0x07) as u8 != 0) by (bit_vector);
    assert(0x80u8 | (c & 0x3F) as u8 != 0) by (bit_vector);
    assert(0x80u8 | ((c >> 6) & 0x3F) as u8 != 0) by (bit_vector);
    assert(0x80u8 | ((c >> 12) & 0x3F) as u8 != 0) by (bit_vector);
}

/// What is hashed tells the version of the interpreter and the target apart, whatever the
/// files: with another version or another target something else is hashed.
///
/// Neither text may hold a zero character, which is what ends it.
pub proof fn law_runtime_is_told_apart(
    a: Seq<SourceView>,
    b: Seq<SourceView>,
    version_a: Seq<char>,
    triple_a: Seq<char>,
    version_b: Seq<char>,
    triple_b: Seq<char>,
)
    requires
        !version_a.contains('\0'),
        !triple_a.contains('\0'),
        !version_b.contains('\0'),
        !triple_b.contains('\0'),
        version_a != version_b || triple_a != triple_b,
    ensures
        preimage(a, version_a, triple_a) != preimage(b, version_b, triple_b),
{
    let (va, ta) = (encode_utf8(version_a), encode_utf8(triple_a));
    let (vb, tb) = (encode_utf8(version_b), encode_utf8(triple_b));
    let (fa, fb) = (fed_files(ordered(a)), fed_files(ordered(b)));
    if preimage(a, version_a, triple_a) == preimage(b, version_b, triple_b) {
        lemma_utf8_free_of_zero(version_a);
        lemma_utf8_free_of_zero(triple_a);
        lemma_utf8_free_of_zero(version_b);
        lemma_utf8_free_of_zero(triple_b);
        assert(preimage(a, version_a, triple_a) =~= va.push(0) + (ta.push(0) + fa));
        assert(preimage(b, version_b, triple_b) =~= vb.push(0) + (tb.push(0) + fb));
        lemma_ended_apart(va, vb, ta.push(0) + fa, tb.push(0) + fb, 0);
        lemma_ended_apart(ta, tb, fa, fb, 0);
        text::lemma_utf8_injective(version_a, version_b);
        text::lemma_utf8_injective(triple_a, triple_b);
    }
}

/// Two hashes in hexadecimal are the same only where the hashed digests are.
pub proof fn law_hex_is_injective(a: Seq<u8>, b: Seq<u8>)
    requires
        hex_text(a) == hex_text(b),
    ensures
        a == b,
    decreases a.len(),
{
    if a.len() == 0 || b.len() == 0 {
        if a.len() > 0 {
            assert(hex_text(a).len() > 0);
        }
        if b.len() > 0 {
            assert(hex_text(b).len() > 0);
        }
        assert(a =~= b);
    } else {
        let (s, t) = (hex_text(a), hex_text(b));
        let (a1, b1) = (a.drop_first(), b.drop_first());
        assert(s.skip(2) =~= hex_text(a1));
        assert(t.skip(2) =~= hex_text(b1));
        law_hex_is_injective(a1, b1);
        assert(s[0] == t[0] && s[1] == t[1]);
        assert(a[0] == b[0]);
        assert(a =~= seq![a[0]] + a1);
        assert(b =~= seq![b[0]] + b1);
    }
}

/// What is hashed depends on the contents of the files alone, in the order of their paths: a
/// path itself is not hashed.
pub proof fn law_only_contents_are_hashed(
    a: Seq<SourceView>,
    b: Seq<SourceView>,
    python_version: Seq<char>,
    target_triple: Seq<char>,
)
    requires
        ordered(a).map_values(|f: SourceView| f.contents) == ordered(b).map_values(
            |f: SourceView| f.contents,
        ),
    ensures
        preimage(a, python_version, target_triple) == preimage(b, python_version, target_triple),
{
    lemma_same_contents(ordered(a), ordered(b));
}

proof fn lemma_same_contents(s: Seq<SourceView>, t: Seq<SourceView>)
    requires
        s.map_values(|f: SourceView| f.contents) == t.map_values(|f: SourceView| f.contents),
    ensures
        fed_files(s) == fed_files(t),
    decreases s.len(),
{
    let (u, v) = (
        s.map_values(|f: SourceView| f.contents),
        t.map_values(|f: SourceView| f.contents),
    );
    assert(s.len() == u.len() && t.len() == v.len());
    if s.len() > 0 {
        assert(u.last() == s.last().contents);
        assert(v.last() == t.last().contents);
        assert(s.drop_last().map_values(|f: SourceView| f.contents) =~= u.drop_last());
        assert(t.drop_last().map_values(|f: SourceView| f.contents) =~= v.drop_last());
        lemma_same_contents(s.drop_last(), t.drop_last());
    }
}

/// The files are put in the order of their paths, whatever order they are given in, and none is
/// lost or added.
pub proof fn law_files_are_ordered_by_path(sources: Seq<SourceView>)
    ensures
        ordered(sources).to_multiset() == sources.to_multiset(),
        ordered(sources).len() == sources.len(),
        forall|a: int, b: int|
            0 <= a < b < ordered(sources).len() ==> (#[trigger] ordered(sources)[a]).path == (
            #[trigger] ordered(sources)[b]).path || text::bytes_le(
                encode_utf8(ordered(sources)[a].path),
                encode_utf8(ordered(sources)[b].path),
            ),
{
    let leq = source_order();
    lemma_source_order();
    sources.lemma_sort_by_ensures(leq);
    vstd::seq_lib::to_multiset_len(sources);
    vstd::seq_lib::to_multiset_len(ordered(sources));
    assert forall|a: int, b: int| 0 <= a < b < ordered(sources).len() implies (
    #[trigger] ordered(sources)[a]).path == (#[trigger] ordered(sources)[b]).path
        || text::bytes_le(
        encode_utf8(ordered(sources)[a].path),
        encode_utf8(ordered(sources)[b].path),
    ) by {
        assert(leq(ordered(sources)[a], ordered(sources)[b]));
    }
}

/// Two calls of `compute_source_hash` on files one of which has changed give different hashes,
/// or else SHA-256 gives two different byte strings the same digest. On the same files in
/// another order they give the same hash.
pub proof fn law_hash_tells_a_change(
    a: &[SourceFile],
    b: &[SourceFile],
    python_version: &str,
    target_triple: &str,
    hash_a: Result<String, FreezeError>,
    hash_b: Result<String, FreezeError>,
)
    requires
        call_ensures(compute_source_hash, (a, python_version, target_triple), hash_a),
        call_ensures(compute_source_hash, (b, python_version, target_triple), hash_b),
    ensures
        hash_a is Ok && hash_b is Ok,
        source_views(a@).to_multiset() == source_views(b@).to_multiset() ==> hash_a->Ok_0@
            == hash_b->Ok_0@,
        paths_of(source_views(a@)) == paths_of(source_views(b@)) && one_content_per_path(
            source_views(a@),
        ) && one_content_per_path(source_views(b@)) && (exists|i: int|
            0 <= i < a@.len() && source_views(a@)[i].contents != (#[trigger] source_views(
                b@,
            )[i]).contents) && hash_a->Ok_0@ == hash_b->Ok_0@ ==> {
            let (x, y) = (
                preimage(source_views(a@), python_version@, target_triple@),
                preimage(source_views(b@), python_version@, target_triple@),
            );
            x != y && sha256(x) == sha256(y)
        },
{
    let (s, t) = (source_views(a@), source_views(b@));
    let (v, w) = (python_version@, target_triple@);
    if s.to_multiset() == t.to_multiset() {
        law_order_does_not_matter(s, t, v, w);
    }
    if paths_of(s) == paths_of(t) && one_content_per_path(s) && one_content_per_path(t) && (
    exists|i: int| 0 <= i < a@.len() && s[i].contents != (#[trigger] t[i]).contents)
        && hash_a->Ok_0@ == hash_b->Ok_0@ {
        let i = choose|i: int| 0 <= i < a@.len() && s[i].contents != (#[trigger] t[i]).contents;
        law_changed_file_is_seen(s, t, i, v, w);
        law_hex_is_injective(sha256(preimage(s, v, w)), sha256(preimage(t, v, w)));
    }
}

/// A recorded hash is accepted exactly where it is the one that the current sources have, and
/// both are reported where it is not.
pub proof fn law_recorded_hash_is_held_against_the_current_one(
    expected_hash: &str,
    sources: &[SourceFile],
    python_version: &str,
    target_triple: &str,
    current: Result<String, FreezeError>,
    r: Result<(), FreezeError>,
)
    requires
        call_ensures(compute_source_hash, (sources, python_version, target_triple), current),
        call_ensures(
            verify_snapshot_hash,
            (expected_hash, sources, python_version, target_triple),
            r,
        ),
    ensures
        r is Ok <==> expected_hash@ == current->Ok_0@,
        r is Err ==> r->Err_0 is StaleSnapshot && r->Err_0->expected@ == expected_hash@
            && r->Err_0->actual@ == current->Ok_0@,
{
}

/// Interpreters of other versions or targets hash other bytes, whatever the files. Neither the
/// versions nor the targets may hold a zero character, which is what ends them.
pub proof fn law_runtime_is_hashed(
    a: &[SourceFile],
    b: &[SourceFile],
    version_a: &str,
    target_a: &str,
    version_b: &str,
    target_b: &str,
    bytes_a: Vec<u8>,
    bytes_b: Vec<u8>,
)
    requires
        call_ensures(source_preimage, (a, version_a, target_a), bytes_a),
        call_ensures(source_preimage, (b, version_b, target_b), bytes_b),
        version_a@ != version_b@ || target_a@ != target_b@,
        !version_a@.contains('\0'),
        !version_b@.contains('\0'),
        !target_a@.contains('\0'),
        !target_b@.contains('\0'),
    ensures
        bytes_a@ != bytes_b@,
{
    law_runtime_is_told_apart(
        source_views(a@),
        source_views(b@),
        version_a@,
        target_a@,
        version_b@,
        target_b@,
    );
}

/// A content is hashed as it is, all of it.
pub proof fn law_content_hash_tells_the_content(
    a: &[u8],
    b: &[u8],
    hash_a: String,
    hash_b: String,
)
    requires
        call_ensures(hash_contents, (a,), hash_a),
        call_ensures(hash_contents, (b,), hash_b),
        hash_a@ == hash_b@,
    ensures
        sha256(a@) == sha256(b@),
        hash_a@.len() == 64,
{
    law_hex_is_injective(sha256(a@), sha256(b@));
}

/// Only what begins with the eight magic bytes looks like a snapshot.
pub proof fn law_magic_is_recognized(first: &[u8; 8], r: bool)
    requires
        call_ensures(quick_integrity_check, (first,), r),
    ensures
        r <==> first@ == seq![0x50u8, 0x59, 0x46, 0x52, 0x5A, 0x00, 0x01, 0x00],
{
    assert(MAGIC@ =~= seq![0x50u8, 0x59, 0x46, 0x52, 0x5A, 0x00, 0x01, 0x00]);
}

/// Two hashes are the same exactly where they are the same text; both are reported where they
/// are not.
pub proof fn law_hashes_are_compared_as_texts(
    expected_hash: &str,
    actual: String,
    r: Result<(), FreezeError>,
)
    requires
        call_ensures(compare_hashes, (expected_hash, actual), r),
    ensures
        r is Ok <==> expected_hash@ == actual@,
        r is Err ==> r->Err_0 is StaleSnapshot && r->Err_0->expected@ == expected_hash@
            && r->Err_0->actual@ == actual@,
{
}

} // verus!
