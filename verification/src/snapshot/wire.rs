//! The scalar encodings of the snapshot file.
//!
//! Numbers, flags, texts and byte strings are put on the wire and taken off it by
//! `bincode`, through the trusted items of this module. Each of them is stated exactly:
//! as a spec function that gives the bytes of a value (`.._bytes`), and as one that takes a
//! value off the front of a byte sequence and leaves the rest (`take_..`).

use crate::error::FreezeError;
use vstd::arithmetic::power::pow;
use vstd::prelude::*;
use vstd::slice::slice_subrange;
use vstd::utf8::*;

verus! {

// ─── Little-endian numbers ──────────────────────────────────────────────────

/// The lowest `width` base-256 digits of `n`, least significant first.
pub open spec fn le_bytes(n: nat, width: nat) -> Seq<u8>
    decreases width,
{
    if width == 0 {
        Seq::empty()
    } else {
        seq![(n % 256) as u8] + le_bytes(n / 256, (width - 1) as nat)
    }
}

/// The number whose base-256 digits, least significant first, are `s`.
pub open spec fn le_value(s: Seq<u8>) -> nat
    decreases s.len(),
{
    if s.len() == 0 {
        0
    } else {
        s[0] as nat + 256 * le_value(s.drop_first())
    }
}

/// The number that stands for `i` in two's complement at 32 bits.
pub open spec fn twos_complement(i: i32) -> nat {
    if i < 0 {
        (i + 0x1_0000_0000) as nat
    } else {
        i as nat
    }
}

/// The 32-bit integer that `n` stands for in two's complement.
pub open spec fn from_twos_complement(n: nat) -> i32 {
    if n >= 0x8000_0000 {
        (n - 0x1_0000_0000) as i32
    } else {
        n as i32
    }
}

pub proof fn lemma_le_bytes_len(n: nat, width: nat)
    ensures
        le_bytes(n, width).len() == width,
    decreases width,
{
    if width > 0 {
        lemma_le_bytes_len(n / 256, (width - 1) as nat);
    }
}

pub proof fn lemma_le_value_of_bytes(n: nat, width: nat)
    requires
        n < pow(256, width),
    ensures
        le_value(le_bytes(n, width)) == n,
    decreases width,
{
    reveal(pow);
    if width > 0 {
        let w = (width - 1) as nat;
        assert(n / 256 < pow(256, w)) by (nonlinear_arith)
            requires
                n < 256 * pow(256, w),
        ;
        lemma_le_value_of_bytes(n / 256, w);
        assert(le_bytes(n, width).drop_first() =~= le_bytes(n / 256, w));
    }
}

pub proof fn lemma_le_value_bound(s: Seq<u8>)
    ensures
        le_value(s) < pow(256, s.len()),
    decreases s.len(),
{
    reveal(pow);
    if s.len() > 0 {
        lemma_le_value_bound(s.drop_first());
    }
}

pub proof fn lemma_pow256()
    ensures
        pow(256, 4) == 0x1_0000_0000,
        pow(256, 8) == 0x1_0000_0000_0000_0000,
{
    reveal(pow);
    reveal_with_fuel(pow, 9);
    assert(pow(256, 4) == 256 * (256 * (256 * (256 * 1))));
    assert(pow(256, 8) == 256 * (256 * (256 * (256 * pow(256, 4)))));
}

/// Appends the four little-endian bytes of `v`.
pub(crate) fn push_le_u32(out: &mut Vec<u8>, v: u32)
    ensures
        final(out)@ == old(out)@ + u32_bytes(v),
{
    out.push((v % 256) as u8);
    out.push((v / 256 % 256) as u8);
    out.push((v / 256 / 256 % 256) as u8);
    out.push((v / 256 / 256 / 256 % 256) as u8);
    proof {
        reveal_with_fuel(le_bytes, 5);
    }
    assert(out@ =~= old(out)@ + u32_bytes(v));
}

/// The number whose four little-endian bytes stand at `pos`.
pub(crate) fn le_u32_at(data: &[u8], pos: usize) -> (r: u32)
    requires
        pos + 4 <= data@.len(),
    ensures
        r == le_value(data@.subrange(pos as int, pos + 4)),
{
    let ghost s = data@.subrange(pos as int, pos + 4);
    proof {
        reveal_with_fuel(le_value, 5);
        assert(s.drop_first().drop_first().drop_first().drop_first() =~= Seq::empty());
    }
    data[pos] as u32 + 256 * (data[pos + 1] as u32 + 256 * (data[pos + 2] as u32 + 256 * (
    data[pos + 3] as u32)))
}

// ─── What the encodings are ─────────────────────────────────────────────────

pub open spec fn u64_bytes(v: u64) -> Seq<u8> {
    le_bytes(v as nat, 8)
}

pub open spec fn u32_bytes(v: u32) -> Seq<u8> {
    le_bytes(v as nat, 4)
}

pub open spec fn i32_bytes(v: i32) -> Seq<u8> {
    le_bytes(twos_complement(v), 4)
}

pub open spec fn bool_bytes(v: bool) -> Seq<u8> {
    seq![if v { 1u8 } else { 0u8 }]
}

/// Whether an optional value is there, before the value itself.
pub open spec fn presence_bytes(present: bool) -> Seq<u8> {
    bool_bytes(present)
}

/// The length in bytes, then the bytes.
pub open spec fn blob_bytes(v: Seq<u8>) -> Seq<u8> {
    le_bytes(v.len(), 8) + v
}

/// The length of the UTF-8 form in bytes, then the UTF-8 form.
pub open spec fn text_bytes(v: Seq<char>) -> Seq<u8> {
    blob_bytes(encode_utf8(v))
}

/// What comes of taking a value off the front of a byte sequence: the value and what is left,
/// or the reason why there is no such value.
#[verifier::ext_equal]
pub enum Taken<T> {
    Got(T, Seq<u8>),
    Failed(Seq<char>),
}

/// What `bincode` says of bytes that do not begin with a `u64`.
pub uninterp spec fn u64_error(bytes: Seq<u8>) -> Seq<char>;

/// What `bincode` says of bytes that do not begin with a `u32`.
pub uninterp spec fn u32_error(bytes: Seq<u8>) -> Seq<char>;

/// What `bincode` says of bytes that do not begin with an `i32`.
pub uninterp spec fn i32_error(bytes: Seq<u8>) -> Seq<char>;

/// What `bincode` says of bytes that do not begin with a flag.
pub uninterp spec fn bool_error(bytes: Seq<u8>) -> Seq<char>;

/// What `bincode` says of bytes that do not begin with the tag of an optional value.
pub uninterp spec fn presence_error(bytes: Seq<u8>) -> Seq<char>;

/// What `bincode` says of bytes that do not begin with a text, on a machine whose largest
/// `usize` is `size_max`.
pub uninterp spec fn text_error(bytes: Seq<u8>, size_max: nat) -> Seq<char>;

/// What `bincode` says of bytes that do not begin with a byte string, on a machine whose
/// largest `usize` is `size_max`.
pub uninterp spec fn blob_error(bytes: Seq<u8>, size_max: nat) -> Seq<char>;

#[verifier::opaque]
pub open spec fn take_u64(s: Seq<u8>) -> Taken<u64> {
    if s.len() < 8 {
        Taken::Failed(u64_error(s))
    } else {
        Taken::Got(le_value(s.take(8)) as u64, s.skip(8))
    }
}

#[verifier::opaque]
pub open spec fn take_u32(s: Seq<u8>) -> Taken<u32> {
    if s.len() < 4 {
        Taken::Failed(u32_error(s))
    } else {
        Taken::Got(le_value(s.take(4)) as u32, s.skip(4))
    }
}

#[verifier::opaque]
pub open spec fn take_i32(s: Seq<u8>) -> Taken<i32> {
    if s.len() < 4 {
        Taken::Failed(i32_error(s))
    } else {
        Taken::Got(from_twos_complement(le_value(s.take(4))), s.skip(4))
    }
}

#[verifier::opaque]
pub open spec fn take_bool(s: Seq<u8>) -> Taken<bool> {
    if s.len() < 1 || s[0] > 1 {
        Taken::Failed(bool_error(s))
    } else {
        Taken::Got(s[0] == 1, s.skip(1))
    }
}

#[verifier::opaque]
pub open spec fn take_presence(s: Seq<u8>) -> Taken<bool> {
    if s.len() < 1 || s[0] > 1 {
        Taken::Failed(presence_error(s))
    } else {
        Taken::Got(s[0] == 1, s.skip(1))
    }
}

/// The bytes behind a length that stands before them, and what is left, if they are there.
pub open spec fn framed_bytes(s: Seq<u8>) -> Option<(Seq<u8>, Seq<u8>)> {
    match take_u64(s) {
        Taken::Got(n, rest) if n <= rest.len() => Some((rest.take(n as int), rest.skip(n as int))),
        _ => None,
    }
}

#[verifier::opaque]
pub open spec fn take_blob(s: Seq<u8>) -> Taken<Seq<u8>> {
    match framed_bytes(s) {
        Some((b, rest)) => Taken::Got(b, rest),
        None => Taken::Failed(blob_error(s, usize::MAX as nat)),
    }
}

#[verifier::opaque]
pub open spec fn take_text(s: Seq<u8>) -> Taken<Seq<char>> {
    match framed_bytes(s) {
        Some((b, rest)) if valid_utf8(b) => Taken::Got(decode_utf8(b), rest),
        _ => Taken::Failed(text_error(s, usize::MAX as nat)),
    }
}

// ─── Taking back what was put ───────────────────────────────────────────────

proof fn lemma_front(a: Seq<u8>, tail: Seq<u8>)
    ensures
        (a + tail).take(a.len() as int) == a,
        (a + tail).skip(a.len() as int) == tail,
{
    assert((a + tail).take(a.len() as int) =~= a);
    assert((a + tail).skip(a.len() as int) =~= tail);
}

/// Taking a `u64` off the front of what begins with its encoding gives it back.
pub proof fn lemma_take_u64(v: u64, tail: Seq<u8>)
    ensures
        take_u64(u64_bytes(v) + tail) == Taken::Got(v, tail),
{
    reveal(take_u64);
    lemma_pow256();
    lemma_le_bytes_len(v as nat, 8);
    lemma_le_value_of_bytes(v as nat, 8);
    lemma_front(u64_bytes(v), tail);
}

/// Taking a `u32` off the front of what begins with its encoding gives it back.
pub proof fn lemma_take_u32(v: u32, tail: Seq<u8>)
    ensures
        take_u32(u32_bytes(v) + tail) == Taken::Got(v, tail),
{
    reveal(take_u32);
    lemma_pow256();
    lemma_le_bytes_len(v as nat, 4);
    lemma_le_value_of_bytes(v as nat, 4);
    lemma_front(u32_bytes(v), tail);
}

/// Taking an `i32` off the front of what begins with its encoding gives it back.
pub proof fn lemma_take_i32(v: i32, tail: Seq<u8>)
    ensures
        take_i32(i32_bytes(v) + tail) == Taken::Got(v, tail),
{
    reveal(take_i32);
    lemma_pow256();
    lemma_le_bytes_len(twos_complement(v), 4);
    lemma_le_value_of_bytes(twos_complement(v), 4);
    lemma_front(i32_bytes(v), tail);
}

/// Taking a flag off the front of what begins with its encoding gives it back.
pub proof fn lemma_take_bool(v: bool, tail: Seq<u8>)
    ensures
        take_bool(bool_bytes(v) + tail) == Taken::Got(v, tail),
{
    reveal(take_bool);
    lemma_front(bool_bytes(v), tail);
    assert((bool_bytes(v) + tail)[0] == bool_bytes(v)[0]);
}

/// Taking the tag of an optional value off the front of what begins with it gives it back.
pub proof fn lemma_take_presence(v: bool, tail: Seq<u8>)
    ensures
        take_presence(presence_bytes(v) + tail) == Taken::Got(v, tail),
{
    reveal(take_bool);
    reveal(take_presence);
    lemma_take_bool(v, tail);
}

/// Taking a byte string off the front of what begins with its encoding gives it back.
pub proof fn lemma_take_blob(v: Seq<u8>, tail: Seq<u8>)
    requires
        v.len() <= u64::MAX,
    ensures
        take_blob(blob_bytes(v) + tail) == Taken::Got(v, tail),
{
    reveal(take_blob);
    assert(blob_bytes(v) + tail =~= u64_bytes(v.len() as u64) + (v + tail));
    lemma_take_u64(v.len() as u64, v + tail);
    lemma_front(v, tail);
}

/// Taking a text off the front of what begins with its encoding gives it back.
pub proof fn lemma_take_text(v: Seq<char>, tail: Seq<u8>)
    requires
        encode_utf8(v).len() <= u64::MAX,
    ensures
        take_text(text_bytes(v) + tail) == Taken::Got(v, tail),
{
    reveal(take_blob);
    reveal(take_text);
    lemma_take_blob(encode_utf8(v), tail);
    encode_utf8_valid_utf8(v);
    encode_utf8_decode_utf8(v);
}

// ─── bincode ────────────────────────────────────────────────────────────────

/// The error of `bincode`; nothing inside it is read.
#[verifier::external_type_specification]
#[verifier::external_body]
pub struct ExErrorKind(bincode::ErrorKind);

/// The `Display` text of a `bincode` error. Nothing is claimed of the text.
#[verifier::external_body]
pub(crate) fn error_text(e: &bincode::ErrorKind) -> (r: String)
{
    e.to_string()
}

/// `bincode::serialize` on a `u64`: it succeeds, with the eight little-endian bytes.
#[verifier::external_body]
pub(crate) fn encode_u64(v: u64) -> (r: Result<Vec<u8>, Box<bincode::ErrorKind>>)
    ensures
        r is Ok,
        r->Ok_0@ == u64_bytes(v),
{
    bincode::serialize(&v)
}

/// `bincode::serialize` on a `u32`: it succeeds, with the four little-endian bytes.
#[verifier::external_body]
pub(crate) fn encode_u32(v: u32) -> (r: Result<Vec<u8>, Box<bincode::ErrorKind>>)
    ensures
        r is Ok,
        r->Ok_0@ == u32_bytes(v),
{
    bincode::serialize(&v)
}

/// `bincode::serialize` on an `i32`: it succeeds, with the four little-endian bytes of
/// its two's complement.
#[verifier::external_body]
pub(crate) fn encode_i32(v: i32) -> (r: Result<Vec<u8>, Box<bincode::ErrorKind>>)
    ensures
        r is Ok,
        r->Ok_0@ == i32_bytes(v),
{
    bincode::serialize(&v)
}

/// `bincode::serialize` on a `bool`: it succeeds, with one byte, 1 or 0.
#[verifier::external_body]
pub(crate) fn encode_bool(v: bool) -> (r: Result<Vec<u8>, Box<bincode::ErrorKind>>)
    ensures
        r is Ok,
        r->Ok_0@ == bool_bytes(v),
{
    bincode::serialize(&v)
}

/// `bincode::serialize` on an `Option<()>`: it succeeds, with the tag byte of an option,
/// which for a present value is followed by the value's own bytes, here none.
#[verifier::external_body]
pub(crate) fn encode_presence(v: Option<()>) -> (r: Result<Vec<u8>, Box<bincode::ErrorKind>>)
    ensures
        r is Ok,
        r->Ok_0@ == presence_bytes(v is Some),
{
    bincode::serialize(&v)
}

/// `bincode::serialize` on a `str`: it succeeds, with the length of the UTF-8 form as a
/// `u64` and then the UTF-8 form.
#[verifier::external_body]
pub(crate) fn encode_text(v: &str) -> (r: Result<Vec<u8>, Box<bincode::ErrorKind>>)
    ensures
        r is Ok,
        r->Ok_0@ == text_bytes(v@),
{
    bincode::serialize(v)
}

/// `bincode::serialize` on a `[u8]`: it succeeds, with the length as a `u64` and then the
/// bytes.
#[verifier::external_body]
pub(crate) fn encode_blob(v: &[u8]) -> (r: Result<Vec<u8>, Box<bincode::ErrorKind>>)
    ensures
        r is Ok,
        r->Ok_0@ == blob_bytes(v@),
{
    bincode::serialize(v)
}

/// `bincode::deserialize` into a `u64`: the first eight bytes, if there are eight. What
/// follows them is ignored. Otherwise the `Display` text of its error, which depends on the
/// bytes alone.
#[verifier::external_body]
pub(crate) fn decode_u64(bytes: &[u8]) -> (r: Result<u64, String>)
    ensures
        match take_u64(bytes@) {
            Taken::Got(v, _) => r matches Ok(x) && x == v,
            Taken::Failed(_) => r matches Err(t) && t@ == u64_error(bytes@),
        },
{
    match bincode::deserialize::<u64>(bytes) {
        Ok(v) => Ok(v),
        Err(e) => Err(e.to_string()),
    }
}

/// `bincode::deserialize` into a `u32`: the first four bytes, if there are four. What
/// follows them is ignored. Otherwise the `Display` text of its error, which depends on the
/// bytes alone.
#[verifier::external_body]
pub(crate) fn decode_u32(bytes: &[u8]) -> (r: Result<u32, String>)
    ensures
        match take_u32(bytes@) {
            Taken::Got(v, _) => r matches Ok(x) && x == v,
            Taken::Failed(_) => r matches Err(t) && t@ == u32_error(bytes@),
        },
{
    match bincode::deserialize::<u32>(bytes) {
        Ok(v) => Ok(v),
        Err(e) => Err(e.to_string()),
    }
}

/// `bincode::deserialize` into an `i32`: the first four bytes as two's complement, if
/// there are four. What follows them is ignored. Otherwise the `Display` text of its error,
/// which depends on the bytes alone.
#[verifier::external_body]
pub(crate) fn decode_i32(bytes: &[u8]) -> (r: Result<i32, String>)
    ensures
        match take_i32(bytes@) {
            Taken::Got(v, _) => r matches Ok(x) && x == v,
            Taken::Failed(_) => r matches Err(t) && t@ == i32_error(bytes@),
        },
{
    match bincode::deserialize::<i32>(bytes) {
        Ok(v) => Ok(v),
        Err(e) => Err(e.to_string()),
    }
}

/// `bincode::deserialize` into a `bool`: the first byte, which must be 0 or 1. What
/// follows it is ignored. Otherwise the `Display` text of its error, which depends on the
/// bytes alone.
#[verifier::external_body]
pub(crate) fn decode_bool(bytes: &[u8]) -> (r: Result<bool, String>)
    ensures
        match take_bool(bytes@) {
            Taken::Got(v, _) => r matches Ok(x) && x == v,
            Taken::Failed(_) => r matches Err(t) && t@ == bool_error(bytes@),
        },
{
    match bincode::deserialize::<bool>(bytes) {
        Ok(v) => Ok(v),
        Err(e) => Err(e.to_string()),
    }
}

/// `bincode::deserialize` into an `Option<()>`: the tag byte of an option, which must be 0
/// or 1. What follows it is ignored. Otherwise the `Display` text of its error, which
/// depends on the bytes alone.
#[verifier::external_body]
pub(crate) fn decode_presence(bytes: &[u8]) -> (r: Result<Option<()>, String>)
    ensures
        match take_presence(bytes@) {
            Taken::Got(v, _) => r matches Ok(x) && (x is Some) == v,
            Taken::Failed(_) => r matches Err(t) && t@ == presence_error(bytes@),
        },
{
    match bincode::deserialize::<Option<()>>(bytes) {
        Ok(v) => Ok(v),
        Err(e) => Err(e.to_string()),
    }
}

/// `bincode::deserialize` into a `String`: a `u64` length and that many bytes, which must
/// be valid UTF-8. What follows them is ignored. Otherwise the `Display` text of its error,
/// which depends on the bytes and, for a length above it, on the largest `usize`.
#[verifier::external_body]
pub(crate) fn decode_text(bytes: &[u8]) -> (r: Result<String, String>)
    ensures
        match take_text(bytes@) {
            Taken::Got(v, _) => r matches Ok(x) && x@ == v,
            Taken::Failed(_) => r matches Err(t) && t@ == text_error(bytes@, usize::MAX as nat),
        },
{
    match bincode::deserialize::<String>(bytes) {
        Ok(v) => Ok(v),
        Err(e) => Err(e.to_string()),
    }
}

/// `bincode::deserialize` into a `Vec<u8>`: a `u64` length and that many bytes. What
/// follows them is ignored. Otherwise the `Display` text of its error, which depends on the
/// bytes and, for a length above it, on the largest `usize`.
#[verifier::external_body]
pub(crate) fn decode_blob(bytes: &[u8]) -> (r: Result<Vec<u8>, String>)
    ensures
        match take_blob(bytes@) {
            Taken::Got(v, _) => r matches Ok(x) && x@ == v,
            Taken::Failed(_) => r matches Err(t) && t@ == blob_error(bytes@, usize::MAX as nat),
        },
{
    match bincode::deserialize::<Vec<u8>>(bytes) {
        Ok(v) => Ok(v),
        Err(e) => Err(e.to_string()),
    }
}

// ─── Appending ──────────────────────────────────────────────────────────────

/// Appends the encoding of a `u64`.
pub(crate) fn put_u64(out: &mut Vec<u8>, v: u64) -> (r: Result<(), FreezeError>)
    ensures
        r is Ok,
        final(out)@ == old(out)@ + u64_bytes(v),
{
    match encode_u64(v) {
        Ok(mut b) => {
            out.append(&mut b);
            Ok(())
        },
        Err(e) => Err(FreezeError::from(e)),
    }
}

/// Appends the encoding of a `u32`.
pub(crate) fn put_u32(out: &mut Vec<u8>, v: u32) -> (r: Result<(), FreezeError>)
    ensures
        r is Ok,
        final(out)@ == old(out)@ + u32_bytes(v),
{
    match encode_u32(v) {
        Ok(mut b) => {
            out.append(&mut b);
            Ok(())
        },
        Err(e) => Err(FreezeError::from(e)),
    }
}

/// Appends the encoding of a `i32`.
pub(crate) fn put_i32(out: &mut Vec<u8>, v: i32) -> (r: Result<(), FreezeError>)
    ensures
        r is Ok,
        final(out)@ == old(out)@ + i32_bytes(v),
{
    match encode_i32(v) {
        Ok(mut b) => {
            out.append(&mut b);
            Ok(())
        },
        Err(e) => Err(FreezeError::from(e)),
    }
}

/// Appends the encoding of a `bool`.
pub(crate) fn put_bool(out: &mut Vec<u8>, v: bool) -> (r: Result<(), FreezeError>)
    ensures
        r is Ok,
        final(out)@ == old(out)@ + bool_bytes(v),
{
    match encode_bool(v) {
        Ok(mut b) => {
            out.append(&mut b);
            Ok(())
        },
        Err(e) => Err(FreezeError::from(e)),
    }
}

/// Appends the tag of an optional value.
pub(crate) fn put_presence(out: &mut Vec<u8>, present: bool) -> (r: Result<(), FreezeError>)
    ensures
        r is Ok,
        final(out)@ == old(out)@ + presence_bytes(present),
{
    let tag: Option<()> = if present {
        Some(())
    } else {
        None
    };
    match encode_presence(tag) {
        Ok(mut b) => {
            out.append(&mut b);
            Ok(())
        },
        Err(e) => Err(FreezeError::from(e)),
    }
}

/// Appends the encoding of a text.
pub(crate) fn put_text(out: &mut Vec<u8>, v: &str) -> (r: Result<(), FreezeError>)
    ensures
        r is Ok,
        final(out)@ == old(out)@ + text_bytes(v@),
{
    match encode_text(v) {
        Ok(mut b) => {
            out.append(&mut b);
            Ok(())
        },
        Err(e) => Err(FreezeError::from(e)),
    }
}

/// Appends the encoding of a byte string.
pub(crate) fn put_blob(out: &mut Vec<u8>, v: &[u8]) -> (r: Result<(), FreezeError>)
    ensures
        r is Ok,
        final(out)@ == old(out)@ + blob_bytes(v@),
{
    match encode_blob(v) {
        Ok(mut b) => {
            out.append(&mut b);
            Ok(())
        },
        Err(e) => Err(FreezeError::from(e)),
    }
}

// ─── Reading at a position ──────────────────────────────────────────────────

/// Reading moved from position `from` to position `to` of `data`, and `rest` is what lies
/// behind it.
pub open spec fn moved(data: Seq<u8>, from: int, to: int, rest: Seq<u8>) -> bool {
    &&& from <= to <= data.len()
    &&& rest == data.skip(to)
}

proof fn lemma_skip_skip(data: Seq<u8>, a: int, b: int)
    requires
        0 <= a,
        0 <= b,
        a + b <= data.len(),
    ensures
        data.skip(a).skip(b) == data.skip(a + b),
{
    assert(data.skip(a).skip(b) =~= data.skip(a + b));
}

/// Reads a `u64` at `pos`, or gives the reason why there is none.
pub(crate) fn read_u64(data: &[u8], pos: usize) -> (r: Result<(u64, usize), String>)
    requires
        pos <= data@.len(),
    ensures
        match take_u64(data@.skip(pos as int)) {
            Taken::Got(v, rest) => r matches Ok((x, p)) && x == v && moved(
                data@,
                pos as int,
                p as int,
                rest,
            ),
            Taken::Failed(e) => r matches Err(t) && t@ == e,
        },
{
    proof {
        reveal(take_u64);
    }
    let tail = slice_subrange(data, pos, data.len());
    assert(tail@ =~= data@.skip(pos as int));
    match decode_u64(tail) {
        Ok(v) => {
            proof {
                lemma_skip_skip(data@, pos as int, 8);
            }
            Ok((v, pos + 8))
        },
        Err(e) => Err(e),
    }
}

/// Reads a `u32` at `pos`, or gives the reason why there is none.
pub(crate) fn read_u32(data: &[u8], pos: usize) -> (r: Result<(u32, usize), String>)
    requires
        pos <= data@.len(),
    ensures
        match take_u32(data@.skip(pos as int)) {
            Taken::Got(v, rest) => r matches Ok((x, p)) && x == v && moved(
                data@,
                pos as int,
                p as int,
                rest,
            ),
            Taken::Failed(e) => r matches Err(t) && t@ == e,
        },
{
    proof {
        reveal(take_u32);
    }
    let tail = slice_subrange(data, pos, data.len());
    assert(tail@ =~= data@.skip(pos as int));
    match decode_u32(tail) {
        Ok(v) => {
            proof {
                lemma_skip_skip(data@, pos as int, 4);
            }
            Ok((v, pos + 4))
        },
        Err(e) => Err(e),
    }
}

/// Reads an `i32` at `pos`, or gives the reason why there is none.
pub(crate) fn read_i32(data: &[u8], pos: usize) -> (r: Result<(i32, usize), String>)
    requires
        pos <= data@.len(),
    ensures
        match take_i32(data@.skip(pos as int)) {
            Taken::Got(v, rest) => r matches Ok((x, p)) && x == v && moved(
                data@,
                pos as int,
                p as int,
                rest,
            ),
            Taken::Failed(e) => r matches Err(t) && t@ == e,
        },
{
    proof {
        reveal(take_i32);
    }
    let tail = slice_subrange(data, pos, data.len());
    assert(tail@ =~= data@.skip(pos as int));
    match decode_i32(tail) {
        Ok(v) => {
            proof {
                lemma_skip_skip(data@, pos as int, 4);
            }
            Ok((v, pos + 4))
        },
        Err(e) => Err(e),
    }
}

/// Reads a flag at `pos`, or gives the reason why there is none.
pub(crate) fn read_bool(data: &[u8], pos: usize) -> (r: Result<(bool, usize), String>)
    requires
        pos <= data@.len(),
    ensures
        match take_bool(data@.skip(pos as int)) {
            Taken::Got(v, rest) => r matches Ok((x, p)) && x == v && moved(
                data@,
                pos as int,
                p as int,
                rest,
            ),
            Taken::Failed(e) => r matches Err(t) && t@ == e,
        },
{
    proof {
        reveal(take_bool);
    }
    let tail = slice_subrange(data, pos, data.len());
    assert(tail@ =~= data@.skip(pos as int));
    match decode_bool(tail) {
        Ok(v) => {
            proof {
                lemma_skip_skip(data@, pos as int, 1);
            }
            Ok((v, pos + 1))
        },
        Err(e) => Err(e),
    }
}

/// Reads at `pos` whether an optional value follows, or gives the reason why that cannot
/// be told.
pub(crate) fn read_presence(data: &[u8], pos: usize) -> (r: Result<(bool, usize), String>)
    requires
        pos <= data@.len(),
    ensures
        match take_presence(data@.skip(pos as int)) {
            Taken::Got(v, rest) => r matches Ok((x, p)) && x == v && moved(
                data@,
                pos as int,
                p as int,
                rest,
            ),
            Taken::Failed(e) => r matches Err(t) && t@ == e,
        },
{
    proof {
        reveal(take_presence);
    }
    let tail = slice_subrange(data, pos, data.len());
    assert(tail@ =~= data@.skip(pos as int));
    match decode_presence(tail) {
        Ok(v) => {
            proof {
                lemma_skip_skip(data@, pos as int, 1);
            }
            Ok((v.is_some(), pos + 1))
        },
        Err(e) => Err(e),
    }
}

/// Reads a text at `pos`, or gives the reason why there is none.
pub(crate) fn read_text(data: &[u8], pos: usize) -> (r: Result<(String, usize), String>)
    requires
        pos <= data@.len(),
    ensures
        match take_text(data@.skip(pos as int)) {
            Taken::Got(v, rest) => r matches Ok((x, p)) && x@ == v && moved(
                data@,
                pos as int,
                p as int,
                rest,
            ),
            Taken::Failed(e) => r matches Err(t) && t@ == e,
        },
{
    proof {
        reveal(take_text);
        reveal(take_u64);
    }
    let tail = slice_subrange(data, pos, data.len());
    assert(tail@ =~= data@.skip(pos as int));
    match decode_text(tail) {
        Ok(t) => {
            let n: usize = t.as_str().len();
            proof {
                let body = framed_bytes(tail@)->Some_0.0;
                decode_utf8_encode_utf8(body);
                lemma_skip_skip(data@, pos as int, 8);
                lemma_skip_skip(data@, pos + 8, body.len() as int);
            }
            Ok((t, pos + 8 + n))
        },
        Err(e) => Err(e),
    }
}

/// Reads a byte string at `pos`, or gives the reason why there is none.
pub(crate) fn read_blob(data: &[u8], pos: usize) -> (r: Result<(Vec<u8>, usize), String>)
    requires
        pos <= data@.len(),
    ensures
        match take_blob(data@.skip(pos as int)) {
            Taken::Got(v, rest) => r matches Ok((x, p)) && x@ == v && moved(
                data@,
                pos as int,
                p as int,
                rest,
            ),
            Taken::Failed(e) => r matches Err(t) && t@ == e,
        },
{
    proof {
        reveal(take_blob);
        reveal(take_u64);
    }
    let tail = slice_subrange(data, pos, data.len());
    assert(tail@ =~= data@.skip(pos as int));
    match decode_blob(tail) {
        Ok(b) => {
            let n: usize = b.len();
            proof {
                lemma_skip_skip(data@, pos as int, 8);
                lemma_skip_skip(data@, pos + 8, n as int);
            }
            Ok((b, pos + 8 + n))
        },
        Err(e) => Err(e),
    }
}

// ─── Laws ───────────────────────────────────────────────────────────────────

/// The base-256 digits of the number that some bytes stand for are these bytes.
pub proof fn lemma_le_bytes_of_value(s: Seq<u8>)
    ensures
        le_bytes(le_value(s), s.len()) == s,
    decreases s.len(),
{
    if s.len() == 0 {
        assert(s =~= Seq::empty());
    } else {
        let d = s.drop_first();
        lemma_le_bytes_of_value(d);
        let n = le_value(s);
        assert(n % 256 == s[0] && n / 256 == le_value(d));
        assert(s =~= seq![s[0]] + d);
    }
}

/// Whatever is taken as a `u64` is its encoding.
pub proof fn law_taken_u64_stands_there(s: Seq<u8>, v: u64, rest: Seq<u8>)
    requires
        take_u64(s) == Taken::Got(v, rest),
    ensures
        s == u64_bytes(v) + rest,
{
    reveal(take_u64);
    let front = s.take(8);
    lemma_pow256();
    lemma_le_value_bound(front);
    lemma_le_bytes_of_value(front);
    assert(s =~= front + s.skip(8));
}

/// Whatever is taken as a `u32` is its encoding.
pub proof fn law_taken_u32_stands_there(s: Seq<u8>, v: u32, rest: Seq<u8>)
    requires
        take_u32(s) == Taken::Got(v, rest),
    ensures
        s == u32_bytes(v) + rest,
{
    reveal(take_u32);
    let front = s.take(4);
    lemma_pow256();
    lemma_le_value_bound(front);
    lemma_le_bytes_of_value(front);
    assert(s =~= front + s.skip(4));
}

/// Whatever is taken as an `i32` is its encoding.
pub proof fn law_taken_i32_stands_there(s: Seq<u8>, v: i32, rest: Seq<u8>)
    requires
        take_i32(s) == Taken::Got(v, rest),
    ensures
        s == i32_bytes(v) + rest,
{
    reveal(take_i32);
    let front = s.take(4);
    lemma_pow256();
    lemma_le_value_bound(front);
    lemma_le_bytes_of_value(front);
    assert(s =~= front + s.skip(4));
}

/// Whatever is taken as a flag is its encoding.
pub proof fn law_taken_bool_stands_there(s: Seq<u8>, v: bool, rest: Seq<u8>)
    requires
        take_bool(s) == Taken::Got(v, rest),
    ensures
        s == bool_bytes(v) + rest,
{
    reveal(take_bool);
    assert(s =~= bool_bytes(v) + s.skip(1));
}

/// Whatever is taken as the tag of an optional value is its encoding.
pub proof fn law_taken_presence_stands_there(s: Seq<u8>, v: bool, rest: Seq<u8>)
    requires
        take_presence(s) == Taken::Got(v, rest),
    ensures
        s == presence_bytes(v) + rest,
{
    reveal(take_presence);
    assert(s =~= presence_bytes(v) + s.skip(1));
}

proof fn lemma_framed_bytes_stand_there(s: Seq<u8>)
    requires
        framed_bytes(s) is Some,
    ensures
        s == blob_bytes(framed_bytes(s)->Some_0.0) + framed_bytes(s)->Some_0.1,
{
    let n = take_u64(s)->Got_0;
    let rest = take_u64(s)->Got_1;
    law_taken_u64_stands_there(s, n, rest);
    assert(rest =~= rest.take(n as int) + rest.skip(n as int));
    assert(s =~= blob_bytes(rest.take(n as int)) + rest.skip(n as int));
}

/// Whatever is taken as a byte string is its encoding.
pub proof fn law_taken_blob_stands_there(s: Seq<u8>, v: Seq<u8>, rest: Seq<u8>)
    requires
        take_blob(s) == Taken::Got(v, rest),
    ensures
        s == blob_bytes(v) + rest,
{
    reveal(take_blob);
    lemma_framed_bytes_stand_there(s);
}

/// Whatever is taken as a text is its encoding.
pub proof fn law_taken_text_stands_there(s: Seq<u8>, v: Seq<char>, rest: Seq<u8>)
    requires
        take_text(s) == Taken::Got(v, rest),
    ensures
        s == text_bytes(v) + rest,
{
    reveal(take_text);
    lemma_framed_bytes_stand_there(s);
    decode_utf8_encode_utf8(framed_bytes(s)->Some_0.0);
}

} // verus!
