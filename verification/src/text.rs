//! Text as the rest of the library needs it: decimal numbers, comparison, joining.

use vstd::arithmetic::{div_mod, power};
use vstd::prelude::*;
use vstd::slice::slice_subrange;
use vstd::string::*;
use vstd::utf8::*;

verus! {

/// The texts of a list of strings.
pub open spec fn text_views(texts: Seq<String>) -> Seq<Seq<char>> {
    texts.map_values(|s: String| s@)
}

/// The ASCII digit of a number below ten.
pub open spec fn digit(d: int) -> char {
    (48 + d) as char
}

/// A natural number in decimal, without leading zeros.
pub open spec fn decimal(n: nat) -> Seq<char>
    decreases n,
{
    if n < 10 {
        seq![digit(n as int)]
    } else {
        decimal(n / 10).push(digit((n % 10) as int))
    }
}

/// An integer in decimal, with a minus sign where it is negative.
pub open spec fn signed_decimal(i: int) -> Seq<char> {
    if i < 0 {
        seq!['-'] + decimal((-i) as nat)
    } else {
        decimal(i as nat)
    }
}

/// The decimal digits of a number are digits, and stand for the number.
pub proof fn lemma_decimal(n: nat)
    ensures
        decimal(n).len() > 0,
        all_digits(decimal(n)),
        digits_value(decimal(n)) == n,
    decreases n,
{
    if n < 10 {
        let s = decimal(n);
        assert(digits_value(s.drop_last()) == 0);
        assert(s.last() == digit(n as int));
    } else {
        lemma_decimal(n / 10);
        assert(decimal(n).drop_last() =~= decimal(n / 10));
        assert forall|i: int| 0 <= i < decimal(n).len() implies '0' <= #[trigger] decimal(n)[i]
            && decimal(n)[i] <= '9' by {
            if i < decimal(n / 10).len() {
                assert(decimal(n)[i] == decimal(n / 10)[i]);
            }
        }
    }
}

/// The decimal digits of a number of 64 bits are read as that number.
pub proof fn lemma_number_of_decimal(n: u64)
    ensures
        number(decimal(n as nat)) == Some(n),
{
    lemma_decimal(n as nat);
    assert('0' <= decimal(n as nat)[0]);
}

fn digit_str(d: u64) -> (r: &'static str)
    requires
        d < 10,
    ensures
        r@ == seq![digit(d as int)],
{
    proof {
        reveal_strlit("0");
        reveal_strlit("1");
        reveal_strlit("2");
        reveal_strlit("3");
        reveal_strlit("4");
        reveal_strlit("5");
        reveal_strlit("6");
        reveal_strlit("7");
        reveal_strlit("8");
        reveal_strlit("9");
    }
    match d {
        0 => "0",
        1 => "1",
        2 => "2",
        3 => "3",
        4 => "4",
        5 => "5",
        6 => "6",
        7 => "7",
        8 => "8",
        _ => "9",
    }
}

/// Appends `n` in decimal.
pub fn append_decimal(out: &mut String, n: u64)
    ensures
        final(out)@ == old(out)@ + decimal(n as nat),
    decreases n,
{
    if n >= 10 {
        append_decimal(out, n / 10);
    }
    out.append(digit_str(n % 10));
    assert(out@ =~= old(out)@ + decimal(n as nat));
}

/// Appends `i` in decimal, signed.
pub fn append_signed(out: &mut String, i: i32)
    ensures
        final(out)@ == old(out)@ + signed_decimal(i as int),
{
    if i < 0 {
        proof {
            reveal_strlit("-");
        }
        out.append("-");
        append_decimal(out, (-(i as i64)) as u64);
        assert("-"@ =~= seq!['-']);
        assert(out@ =~= old(out)@ + signed_decimal(i as int));
    } else {
        append_decimal(out, i as u64);
    }
}

/// A natural number in octal, without leading zeros.
pub open spec fn octal(n: nat) -> Seq<char>
    decreases n,
{
    if n < 8 {
        seq![digit(n as int)]
    } else {
        octal(n / 8).push(digit((n % 8) as int))
    }
}

/// Appends `n` in octal.
pub fn append_octal(out: &mut String, n: u64)
    ensures
        final(out)@ == old(out)@ + octal(n as nat),
    decreases n,
{
    if n >= 8 {
        append_octal(out, n / 8);
    }
    out.append(digit_str(n % 8));
    assert(out@ =~= old(out)@ + octal(n as nat));
}

/// Two texts are equal when their UTF-8 bytes are.
pub proof fn lemma_utf8_injective(a: Seq<char>, b: Seq<char>)
    ensures
        encode_utf8(a) == encode_utf8(b) <==> a == b,
{
    encode_utf8_decode_utf8(a);
    encode_utf8_decode_utf8(b);
}

/// Whether two byte slices hold the same bytes.
pub fn bytes_equal(a: &[u8], b: &[u8]) -> (r: bool)
    ensures
        r == (a@ == b@),
{
    if a.len() != b.len() {
        return false;
    }
    let mut i: usize = 0;
    while i < a.len()
        invariant
            i <= a.len(),
            a.len() == b.len(),
            forall|j: int| 0 <= j < i ==> a@[j] == b@[j],
        decreases a.len() - i,
    {
        if a[i] != b[i] {
            return false;
        }
        i += 1;
    }
    assert(a@ =~= b@);
    true
}

/// Whether two texts are the same.
pub fn str_equal(a: &str, b: &str) -> (r: bool)
    ensures
        r == (a@ == b@),
{
    proof {
        lemma_utf8_injective(a@, b@);
    }
    bytes_equal(a.as_bytes(), b.as_bytes())
}

/// Whether one byte string stands before another, or is the same, in the order in which the
/// first byte that differs decides and a prefix stands before what it is a prefix of.
pub open spec fn bytes_le(a: Seq<u8>, b: Seq<u8>) -> bool
    decreases a.len(),
{
    if a.len() == 0 {
        true
    } else if b.len() == 0 {
        false
    } else if a[0] != b[0] {
        a[0] < b[0]
    } else {
        bytes_le(a.drop_first(), b.drop_first())
    }
}

/// Of two byte strings one stands before the other, and both ways only where they are the
/// same.
pub proof fn lemma_bytes_le_total(a: Seq<u8>, b: Seq<u8>)
    ensures
        bytes_le(a, b) || bytes_le(b, a),
        bytes_le(a, b) && bytes_le(b, a) <==> a == b,
    decreases a.len(),
{
    if a.len() > 0 && b.len() > 0 {
        lemma_bytes_le_total(a.drop_first(), b.drop_first());
        if a[0] == b[0] && a.drop_first() == b.drop_first() {
            assert(a =~= seq![a[0]] + a.drop_first());
            assert(b =~= seq![b[0]] + b.drop_first());
        }
    } else if a.len() == b.len() {
        assert(a =~= b);
    }
}

pub proof fn lemma_bytes_le_transitive(a: Seq<u8>, b: Seq<u8>, c: Seq<u8>)
    requires
        bytes_le(a, b),
        bytes_le(b, c),
    ensures
        bytes_le(a, c),
    decreases a.len(),
{
    if a.len() > 0 && b.len() > 0 && c.len() > 0 && a[0] == b[0] && b[0] == c[0] {
        lemma_bytes_le_transitive(a.drop_first(), b.drop_first(), c.drop_first());
    }
}

/// Whether `a` stands before `b` in that order, or is the same.
pub fn bytes_ordered(a: &[u8], b: &[u8]) -> (r: bool)
    ensures
        r == bytes_le(a@, b@),
{
    let mut i: usize = 0;
    assert(a@.skip(0) =~= a@);
    assert(b@.skip(0) =~= b@);
    while i < a.len() && i < b.len()
        invariant
            i <= a@.len(),
            i <= b@.len(),
            bytes_le(a@, b@) == bytes_le(a@.skip(i as int), b@.skip(i as int)),
        decreases a@.len() - i,
    {
        assert(a@.skip(i as int).drop_first() =~= a@.skip(i + 1));
        assert(b@.skip(i as int).drop_first() =~= b@.skip(i + 1));
        if a[i] != b[i] {
            return a[i] < b[i];
        }
        i += 1;
    }
    i == a.len()
}

/// Whether `s` begins with `prefix`.
pub fn starts_with(s: &str, prefix: &str) -> (r: bool)
    ensures
        r == prefix@.is_prefix_of(s@),
{
    let a = chars_of(s);
    let b = chars_of(prefix);
    if a.len() < b.len() {
        return false;
    }
    let mut i: usize = 0;
    while i < b.len()
        invariant
            i <= b@.len() <= a@.len(),
            a@ == s@,
            b@ == prefix@,
            forall|j: int| 0 <= j < i ==> a@[j] == b@[j],
        decreases b@.len() - i,
    {
        if a[i] != b[i] {
            assert(a@.subrange(0, b@.len() as int)[i as int] != b@[i as int]);
            return false;
        }
        i += 1;
    }
    assert(a@.subrange(0, b@.len() as int) =~= b@);
    true
}

/// The characters of a text.
pub fn chars_of(s: &str) -> (r: Vec<char>)
    ensures
        r@ == s@,
{
    let mut out: Vec<char> = Vec::new();
    for c in it: s.chars()
        invariant
            it.seq() == s@,
            out@ == s@.take(it.index() as int),
    {
        out.push(c);
        assert(out@ =~= s@.take(it.index() + 1));
    }
    assert(out@ =~= s@);
    out
}

/// Whether every character is an ASCII digit.
pub open spec fn all_digits(s: Seq<char>) -> bool {
    forall|i: int| 0 <= i < s.len() ==> '0' <= #[trigger] s[i] && s[i] <= '9'
}

/// The number that a row of digits stands for.
pub open spec fn digits_value(s: Seq<char>) -> nat
    decreases s.len(),
{
    if s.len() == 0 {
        0
    } else {
        digits_value(s.drop_last()) * 10 + (s.last() as nat - '0' as nat) as nat
    }
}

/// The number that a row of digits stands for, at least one digit and no more than 64 bits.
pub open spec fn plain_number(s: Seq<char>) -> Option<u64> {
    if s.len() > 0 && all_digits(s) && digits_value(s) <= u64::MAX {
        Some(digits_value(s) as u64)
    } else {
        None
    }
}

/// The unsigned number that a text stands for: digits with or without a plus sign before
/// them.
pub open spec fn number(s: Seq<char>) -> Option<u64> {
    if s.len() > 0 && s[0] == '+' {
        plain_number(s.drop_first())
    } else {
        plain_number(s)
    }
}

/// The 32-bit integer that a text stands for: digits with or without a sign before them.
pub open spec fn signed_number(s: Seq<char>) -> Option<i32> {
    if s.len() > 0 && s[0] == '-' {
        match plain_number(s.drop_first()) {
            Some(n) if n <= 0x8000_0000 => Some((-n) as i32),
            _ => None,
        }
    } else {
        match number(s) {
            Some(n) if n <= i32::MAX => Some(n as i32),
            _ => None,
        }
    }
}

/// A row of digits is worth no less than any of its beginnings.
proof fn lemma_digits_value_grows(s: Seq<char>, k: int)
    requires
        0 <= k <= s.len(),
        all_digits(s),
    ensures
        digits_value(s.take(k)) <= digits_value(s),
    decreases s.len() - k,
{
    if k == s.len() {
        assert(s.take(k) =~= s);
    } else {
        let t = s.take(k + 1);
        assert(t.drop_last() =~= s.take(k));
        assert(t.last() == s[k]);
        lemma_digits_value_grows(s, k + 1);
    }
}

/// The number that a row of digits stands for, if it stands for one.
fn parse_digits(s: &[char]) -> (r: Option<u64>)
    ensures
        r == plain_number(s@),
{
    let mut i: usize = 0;
    let mut value: u64 = 0;
    if s.len() == 0 {
        return None;
    }
    assert(s@.take(0) =~= Seq::empty());
    while i < s.len()
        invariant
            i <= s@.len(),
            s@.len() > 0,
            all_digits(s@.take(i as int)),
            value == digits_value(s@.take(i as int)),
        decreases s@.len() - i,
    {
        let c = s[i];
        let ghost next = s@.take(i + 1);
        assert(next.drop_last() =~= s@.take(i as int));
        assert(next.last() == c);
        if c < '0' || c > '9' {
            return None;
        }
        let d: u64 = (c as u32 - 48) as u64;
        proof {
            if all_digits(s@) {
                lemma_digits_value_grows(s@, i + 1);
            }
        }
        value = match value.checked_mul(10) {
            Some(v) => match v.checked_add(d) {
                Some(w) => w,
                None => return None,
            },
            None => return None,
        };
        assert forall|j: int| 0 <= j < next.len() implies '0' <= #[trigger] next[j] && next[j]
            <= '9' by {
            if j < i {
                assert(next[j] == s@.take(i as int)[j]);
            }
        }
        i += 1;
    }
    assert(s@.take(i as int) =~= s@);
    Some(value)
}

/// The unsigned number that a text stands for, if it stands for one.
pub fn parse_number(s: &[char]) -> (r: Option<u64>)
    ensures
        r == number(s@),
{
    if s.len() > 0 && s[0] == '+' {
        let digits = slice_subrange(s, 1, s.len());
        assert(digits@ =~= s@.drop_first());
        parse_digits(digits)
    } else {
        parse_digits(s)
    }
}

/// The 32-bit integer that a text stands for, if it stands for one.
pub fn parse_signed(s: &[char]) -> (r: Option<i32>)
    ensures
        r == signed_number(s@),
{
    if s.len() > 0 && s[0] == '-' {
        let digits = slice_subrange(s, 1, s.len());
        assert(digits@ =~= s@.drop_first());
        match parse_digits(digits) {
            Some(n) => if n <= 0x8000_0000 {
                Some((-(n as i64)) as i32)
            } else {
                None
            },
            None => None,
        }
    } else {
        match parse_number(s) {
            Some(n) => if n <= 0x7FFF_FFFF {
                Some(n as i32)
            } else {
                None
            },
            None => None,
        }
    }
}

// ─── Laws ───────────────────────────────────────────────────────────────────

/// Every decimal digit of a number is the one of its place, and the first is no zero but for the
/// number zero.
pub proof fn law_decimal_digit_is_that_of_its_place(n: nat, k: int)
    requires
        0 <= k < decimal(n).len(),
    ensures
        decimal(n)[decimal(n).len() - 1 - k] as int == 48 + (n as int / power::pow(10, k as nat)) % 10,
        n > 0 ==> decimal(n)[0] != '0',
        n == 0 ==> decimal(n) == seq!['0'],
    decreases n,
{
    reveal(power::pow);
    if n < 10 {
        assert(n as int / 1 == n);
    } else {
        let m = n / 10;
        law_decimal_digit_is_that_of_its_place(m, if k > 0 { k - 1 } else { 0 });
        assert(decimal(n)[0] == decimal(m)[0]);
        if k > 0 {
            let p = power::pow(10, (k - 1) as nat);
            power::lemma_pow_positive(10, (k - 1) as nat);
            div_mod::lemma_div_denominator(n as int, 10, p);
            assert(power::pow(10, k as nat) == 10 * p);
            assert(decimal(n)[decimal(n).len() - 1 - k] == decimal(m)[decimal(m).len() - 1 - (k - 1)]);
        } else {
            assert(n as int / 1 == n);
        }
    }
}

/// A number has as many decimal digits as it takes, and no more.
pub proof fn law_decimal_has_the_digits_that_it_takes(n: nat)
    ensures
        decimal(n).len() > 0,
        n < power::pow(10, decimal(n).len()),
        n > 0 ==> power::pow(10, (decimal(n).len() - 1) as nat) <= n,
    decreases n,
{
    reveal_with_fuel(power::pow, 2);
    if n >= 10 {
        let m = n / 10;
        let k = decimal(m).len();
        law_decimal_has_the_digits_that_it_takes(m);
        assert(power::pow(10, (k + 1) as nat) == 10 * power::pow(10, k));
        assert(power::pow(10, k) == 10 * power::pow(10, (k - 1) as nat));
    }
}

/// Every octal digit of a number is the one of its place, and the first is no zero but for the
/// number zero.
pub proof fn law_octal_digit_is_that_of_its_place(n: nat, k: int)
    requires
        0 <= k < octal(n).len(),
    ensures
        octal(n)[octal(n).len() - 1 - k] as int == 48 + (n as int / power::pow(8, k as nat)) % 8,
        n > 0 ==> octal(n)[0] != '0',
        n == 0 ==> octal(n) == seq!['0'],
    decreases n,
{
    reveal(power::pow);
    if n < 8 {
        assert(n as int / 1 == n);
    } else {
        let m = n / 8;
        law_octal_digit_is_that_of_its_place(m, if k > 0 { k - 1 } else { 0 });
        assert(octal(n)[0] == octal(m)[0]);
        if k > 0 {
            let p = power::pow(8, (k - 1) as nat);
            power::lemma_pow_positive(8, (k - 1) as nat);
            div_mod::lemma_div_denominator(n as int, 8, p);
            assert(power::pow(8, k as nat) == 8 * p);
            assert(octal(n)[octal(n).len() - 1 - k] == octal(m)[octal(m).len() - 1 - (k - 1)]);
        } else {
            assert(n as int / 1 == n);
        }
    }
}

/// A number has as many octal digits as it takes, and no more.
pub proof fn law_octal_has_the_digits_that_it_takes(n: nat)
    ensures
        octal(n).len() > 0,
        n < power::pow(8, octal(n).len()),
        n > 0 ==> power::pow(8, (octal(n).len() - 1) as nat) <= n,
    decreases n,
{
    reveal_with_fuel(power::pow, 2);
    if n >= 8 {
        let m = n / 8;
        let k = octal(m).len();
        law_octal_has_the_digits_that_it_takes(m);
        assert(power::pow(8, (k + 1) as nat) == 8 * power::pow(8, k));
        assert(power::pow(8, k) == 8 * power::pow(8, (k - 1) as nat));
    }
}

/// A number in decimal is read as that number where it fits into 64 bits, with or without a
/// plus sign, and not at all where it does not fit.
pub proof fn law_number_of_decimal(n: nat)
    ensures
        number(decimal(n)) == if n <= u64::MAX {
            Some(n as u64)
        } else {
            None
        },
        number(seq!['+'] + decimal(n)) == number(decimal(n)),
{
    lemma_decimal(n);
    assert('0' <= decimal(n)[0]);
    assert((seq!['+'] + decimal(n)).drop_first() =~= decimal(n));
}

/// An integer in decimal is read as that integer where it fits into 32 bits, and not at all
/// where it does not.
pub proof fn law_signed_number_of_decimal(i: int)
    ensures
        signed_number(signed_decimal(i)) == if i32::MIN <= i <= i32::MAX {
            Some(i as i32)
        } else {
            None
        },
        i >= 0 ==> signed_decimal(i) == decimal(i as nat),
        i >= 0 ==> signed_number(seq!['+'] + decimal(i as nat)) == signed_number(
            decimal(i as nat),
        ),
        i < 0 ==> signed_decimal(i) == seq!['-'] + decimal((-i) as nat),
{
    if i < 0 {
        lemma_decimal((-i) as nat);
        assert(signed_decimal(i).drop_first() =~= decimal((-i) as nat));
    } else {
        lemma_decimal(i as nat);
        assert('0' <= decimal(i as nat)[0]);
        law_number_of_decimal(i as nat);
    }
}

/// A zero before the digits of a number changes nothing.
pub proof fn law_leading_zero_changes_nothing(s: Seq<char>)
    requires
        s.len() > 0,
        all_digits(s),
    ensures
        number(seq!['0'] + s) == number(s),
        signed_number(seq!['0'] + s) == signed_number(s),
{
    let t = seq!['0'] + s;
    lemma_leading_zero(s);
    assert('0' <= s[0] && s[0] <= '9');
    assert forall|i: int| 0 <= i < t.len() implies '0' <= #[trigger] t[i] && t[i] <= '9' by {
        if i > 0 {
            assert(t[i] == s[i - 1]);
        }
    }
}

proof fn lemma_leading_zero(s: Seq<char>)
    ensures
        digits_value(seq!['0'] + s) == digits_value(s),
    decreases s.len(),
{
    let t = seq!['0'] + s;
    if s.len() == 0 {
        assert(t.drop_last() =~= Seq::empty());
        assert(t.last() == '0');
        assert(digits_value(t.drop_last()) == 0);
    } else {
        lemma_leading_zero(s.drop_last());
        assert(t.drop_last() =~= seq!['0'] + s.drop_last());
        assert(t.last() == s.last());
    }
}

/// A text with anything in it but digits behind a sign is no number.
pub proof fn law_other_characters_make_no_number(s: Seq<char>, i: int)
    requires
        0 <= i < s.len(),
        !('0' <= s[i] && s[i] <= '9'),
    ensures
        i > 0 || s[0] != '+' ==> number(s) is None,
        i > 0 || (s[0] != '+' && s[0] != '-') ==> signed_number(s) is None,
{
    if i > 0 {
        assert(s.drop_first()[i - 1] == s[i]);
    }
}

/// Neither the empty text nor a sign on its own is a number.
pub proof fn law_empty_text_is_no_number()
    ensures
        number(Seq::empty()) is None,
        signed_number(Seq::empty()) is None,
        number(seq!['+']) is None,
        signed_number(seq!['+']) is None,
        signed_number(seq!['-']) is None,
{
    assert(seq!['+'].drop_first() =~= Seq::<char>::empty());
    assert(seq!['-'].drop_first() =~= Seq::<char>::empty());
}

/// The first byte that differs decides the order of two byte strings, and a byte string stands
/// before whatever begins with it.
pub proof fn law_first_difference_decides(p: Seq<u8>, a: Seq<u8>, b: Seq<u8>)
    ensures
        bytes_le(p, p + a),
        a.len() > 0 ==> !bytes_le(p + a, p),
        a.len() > 0 && b.len() > 0 && a[0] != b[0] ==> bytes_le(p + a, p + b) == (a[0] < b[0]),
    decreases p.len(),
{
    if p.len() == 0 {
        assert(p + a =~= a);
        assert(p + b =~= b);
    } else {
        law_first_difference_decides(p.drop_first(), a, b);
        assert((p + a).drop_first() =~= p.drop_first() + a);
        assert((p + b).drop_first() =~= p.drop_first() + b);
    }
}

} // verus!
