//! Shared utilities: duration strings, hex conversion, and
//! expect-pattern matching.

use vstd::prelude::*;
use vstd::string::StrSliceExecFns;

use crate::error::TesterError;

verus! {

/// True for the ASCII decimal digits.
pub open spec fn spec_is_digit(c: char) -> bool {
    '0' <= c && c <= '9'
}

/// Numeric value of an ASCII decimal digit.
pub open spec fn spec_digit_val(c: char) -> int {
    c as int - '0' as int
}

/// Number of leading decimal digits of `s`.
pub open spec fn spec_digits_prefix_len(s: Seq<char>) -> int
    decreases s.len(),
{
    if s.len() == 0 || !spec_is_digit(s[0]) {
        0
    } else {
        1 + spec_digits_prefix_len(s.drop_first())
    }
}

/// Value of a sequence of decimal digits, most significant first.
pub open spec fn spec_digits_val(s: Seq<char>) -> int
    decreases s.len(),
{
    if s.len() == 0 {
        0
    } else {
        spec_digits_val(s.drop_last()) * 10 + spec_digit_val(s.last())
    }
}

/// Milliseconds per unit suffix: `s`, `m`, `h`, `ms`; anything else is
/// not a unit.
pub open spec fn spec_unit_factor(u: Seq<char>) -> Option<int> {
    if u =~= seq!['s'] {
        Some(1000int)
    } else if u =~= seq!['m'] {
        Some(60_000int)
    } else if u =~= seq!['h'] {
        Some(3_600_000int)
    } else if u =~= seq!['m', 's'] {
        Some(1int)
    } else {
        None
    }
}

/// What a duration string denotes in milliseconds: a non-empty decimal
/// prefix whose value fits in `u64`, a known unit suffix, and a product
/// that fits in `u64`; otherwise nothing.
pub open spec fn spec_parse_duration(s: Seq<char>) -> Option<u64> {
    let k = spec_digits_prefix_len(s);
    let v = spec_digits_val(s.subrange(0, k));
    if k == 0 || v > u64::MAX {
        None
    } else {
        match spec_unit_factor(s.subrange(k, s.len() as int)) {
            Some(f) => if v * f <= u64::MAX {
                Some((v * f) as u64)
            } else {
                None
            },
            None => None,
        }
    }
}

proof fn lemma_digits_val_append(s: Seq<char>, c: char)
    ensures
        spec_digits_val(s.push(c)) == spec_digits_val(s) * 10 + spec_digit_val(c),
{
    assert(s.push(c).drop_last() =~= s);
    assert(s.push(c).last() == c);
}

/// Extending a digit sequence on the right cannot decrease its value.
proof fn lemma_digits_val_prefix_le(s: Seq<char>, i: int, k: int)
    requires
        0 <= i <= k <= s.len(),
        forall|j: int| 0 <= j < k ==> spec_is_digit(#[trigger] s[j]),
    ensures
        spec_digits_val(s.subrange(0, i)) <= spec_digits_val(s.subrange(0, k)),
    decreases k - i,
{
    if i < k {
        let p = s.subrange(0, k - 1);
        assert(s.subrange(0, k).drop_last() =~= p);
        assert(spec_digits_val(s.subrange(0, k))
            == spec_digits_val(p) * 10 + spec_digit_val(s[k - 1]));
        assert(spec_is_digit(s[k - 1]));
        assert(forall|j: int| 0 <= j < p.len() ==> spec_is_digit(#[trigger] p[j]));
        lemma_digits_val_nonneg(p);
        assert(spec_digits_val(p) <= spec_digits_val(p) * 10 + spec_digit_val(s[k - 1]))
            by (nonlinear_arith)
            requires spec_digits_val(p) >= 0 && spec_digit_val(s[k - 1]) >= 0,
        ;
        lemma_digits_val_prefix_le(s, i, k - 1);
    }
}

proof fn lemma_digits_val_nonneg(s: Seq<char>)
    requires
        forall|j: int| 0 <= j < s.len() ==> spec_is_digit(#[trigger] s[j]),
    ensures
        spec_digits_val(s) >= 0,
    decreases s.len(),
{
    if s.len() > 0 {
        let p = s.drop_last();
        assert(forall|j: int| 0 <= j < p.len() ==> spec_is_digit(#[trigger] p[j]));
        lemma_digits_val_nonneg(p);
        assert(spec_digits_val(p) * 10 >= 0) by (nonlinear_arith)
            requires spec_digits_val(p) >= 0,
        ;
        assert(spec_is_digit(s.last()));
    }
}

/// The leading-digit count is `i` exactly when the first `i` characters
/// are digits and the next one (if any) is not.
proof fn lemma_digits_prefix_len_is(s: Seq<char>, i: int)
    requires
        0 <= i <= s.len(),
        forall|j: int| 0 <= j < i ==> spec_is_digit(#[trigger] s[j]),
        i < s.len() ==> !spec_is_digit(s[i]),
    ensures
        spec_digits_prefix_len(s) == i,
    decreases s.len(),
{
    if s.len() == 0 {
    } else if i == 0 {
    } else {
        let t = s.drop_first();
        assert(forall|j: int| 0 <= j < i - 1 ==> spec_is_digit(#[trigger] t[j]));
        lemma_digits_prefix_len_is(t, i - 1);
    }
}

/// Converts a duration string such as `"2s"`, `"100ms"`, `"80m"` or
/// `"3h"` to milliseconds; `None` when the number is missing or does
/// not fit, or the unit is unknown.
pub fn parse_duration_to_milliseconds(duration_str: &str) -> (r: Option<u64>)
    ensures
        r == spec_parse_duration(duration_str@),
{
    let ghost s = duration_str@;
    let n = duration_str.unicode_len();
    let mut i: usize = 0;
    let mut acc: u64 = 0;
    loop
        invariant
            s == duration_str@,
            0 <= i <= n,
            n == s.len(),
            forall|j: int| 0 <= j < i ==> spec_is_digit(#[trigger] s[j]),
            acc == spec_digits_val(s.subrange(0, i as int)),
        ensures
            s == duration_str@,
            0 <= i <= n,
            n == s.len(),
            forall|j: int| 0 <= j < i ==> spec_is_digit(#[trigger] s[j]),
            acc == spec_digits_val(s.subrange(0, i as int)),
            i < n ==> !spec_is_digit(s[i as int]),
        decreases n - i,
    {
        if i == n {
            break;
        }
        let c = duration_str.get_char(i);
        if !(c >= '0' && c <= '9') {
            break;
        }
        let d = (c as u32 - '0' as u32) as u64;
        if acc > (u64::MAX - d) / 10 {
            // the numeric prefix does not fit in u64
            proof {
                assert(acc * 10 + d > u64::MAX) by (nonlinear_arith)
                    requires acc > (u64::MAX - d) / 10 && 0 <= d <= 9 && acc <= u64::MAX,
                ;
                lemma_digits_val_append(s.subrange(0, i as int), c);
                assert(s.subrange(0, i as int).push(c) =~= s.subrange(0, i as int + 1));
                let k = spec_digits_prefix_len(s);
                lemma_digits_prefix_len_bounds(s, i as int + 1);
                lemma_digits_prefix_all_digits(s);
                lemma_digits_val_prefix_le(s, i as int + 1, k);
            }
            return None;
        }
        proof {
            assert(acc * 10 + d <= u64::MAX) by (nonlinear_arith)
                requires acc <= (u64::MAX - d) / 10 && 0 <= d <= 9,
            ;
            lemma_digits_val_append(s.subrange(0, i as int), c);
            assert(s.subrange(0, i as int).push(c) =~= s.subrange(0, i as int + 1));
        }
        acc = acc * 10 + d;
        i = i + 1;
    }
    proof {
        lemma_digits_prefix_len_is(s, i as int);
    }
    if i == 0 {
        return None;
    }
    let rest = n - i;
    let ghost u = s.subrange(i as int, s.len() as int);
    proof {
        assert(seq!['s'][0] == 's' && seq!['m'][0] == 'm' && seq!['h'][0] == 'h');
        assert(seq!['m', 's'][0] == 'm' && seq!['m', 's'][1] == 's');
        assert(seq!['s'].len() == 1 && seq!['m'].len() == 1 && seq!['h'].len() == 1);
        assert(seq!['m', 's'].len() == 2);
    }
    let factor: u64 = if rest == 1 {
        let u0 = duration_str.get_char(i);
        proof {
            assert(u =~= seq![s[i as int]]);
            assert(u[0] == u0);
        }
        if u0 == 's' {
            proof {
                assert(u =~= seq!['s']);
                assert(spec_unit_factor(u) == Some(1000int));
            }
            1000
        } else if u0 == 'm' {
            proof {
                assert(u =~= seq!['m']);
                assert(!(u =~= seq!['s']));
                assert(spec_unit_factor(u) == Some(60_000int));
            }
            60_000
        } else if u0 == 'h' {
            proof {
                assert(u =~= seq!['h']);
                assert(!(u =~= seq!['s']) && !(u =~= seq!['m']));
                assert(spec_unit_factor(u) == Some(3_600_000int));
            }
            3_600_000
        } else {
            proof {
                assert(!(u =~= seq!['s']) && !(u =~= seq!['m']) && !(u =~= seq!['h'])
                    && !(u =~= seq!['m', 's']));
                assert(spec_unit_factor(u) is None);
            }
            return None;
        }
    } else if rest == 2 {
        let u0 = duration_str.get_char(i);
        let u1 = duration_str.get_char(i + 1);
        proof {
            assert(u =~= seq![s[i as int], s[i as int + 1]]);
            assert(u[0] == u0 && u[1] == u1);
        }
        if u0 == 'm' && u1 == 's' {
            proof {
                assert(u =~= seq!['m', 's']);
                assert(spec_unit_factor(u) == Some(1int));
            }
            1
        } else {
            proof {
                assert(!(u =~= seq!['s']) && !(u =~= seq!['m']) && !(u =~= seq!['h'])
                    && !(u =~= seq!['m', 's']));
                assert(spec_unit_factor(u) is None);
            }
            return None;
        }
    } else {
        proof {
            assert(u.len() != 1 && u.len() != 2);
            assert(!(u =~= seq!['s']) && !(u =~= seq!['m']) && !(u =~= seq!['h'])
                && !(u =~= seq!['m', 's']));
            assert(spec_unit_factor(u) is None);
        }
        return None;
    };
    proof {
        assert(spec_unit_factor(u) == Some(factor as int));
    }
    acc.checked_mul(factor)
}

/// Every character before the digit count is a digit.
proof fn lemma_digits_prefix_all_digits(s: Seq<char>)
    ensures
        forall|j: int| 0 <= j < spec_digits_prefix_len(s) ==> spec_is_digit(#[trigger] s[j]),
    decreases s.len(),
{
    lemma_digits_prefix_len_bounds(s, 0);
    if s.len() > 0 && spec_is_digit(s[0]) {
        let t = s.drop_first();
        lemma_digits_prefix_len_bounds(t, 0);
        lemma_digits_prefix_all_digits(t);
        assert forall|j: int| 0 <= j < spec_digits_prefix_len(s) implies spec_is_digit(s[j]) by {
            if j > 0 {
                assert(t[j - 1] == s[j]);
            }
        }
    }
}

/// The digit count never exceeds the length and is at least any
/// all-digit prefix's length.
proof fn lemma_digits_prefix_len_bounds(s: Seq<char>, i: int)
    requires
        0 <= i <= s.len(),
        forall|j: int| 0 <= j < i ==> spec_is_digit(#[trigger] s[j]),
    ensures
        i <= spec_digits_prefix_len(s) <= s.len(),
    decreases s.len(),
{
    if s.len() == 0 {
    } else {
        let t = s.drop_first();
        if i > 0 {
            assert(forall|j: int| 0 <= j < i - 1 ==> spec_is_digit(#[trigger] t[j]));
            lemma_digits_prefix_len_bounds(t, i - 1);
        } else {
            lemma_digits_prefix_len_bounds(t, 0);
        }
    }
}

/// True for the ASCII hexadecimal digits, either case.
pub open spec fn spec_is_hex_digit(c: char) -> bool {
    ('0' <= c && c <= '9') || ('a' <= c && c <= 'f') || ('A' <= c && c <= 'F')
}

/// Numeric value of a hexadecimal digit.
pub open spec fn spec_hex_val(c: char) -> int {
    if '0' <= c && c <= '9' {
        c as int - '0' as int
    } else if 'a' <= c && c <= 'f' {
        c as int - 'a' as int + 10
    } else {
        c as int - 'A' as int + 10
    }
}

/// A well-formed hex string: even length, hex digits throughout.
pub open spec fn spec_hex_valid(s: Seq<char>) -> bool {
    s.len() % 2 == 0 && forall|i: int| 0 <= i < s.len() ==> spec_is_hex_digit(#[trigger] s[i])
}

/// The bytes a hex string denotes: one byte for each digit pair.
pub open spec fn spec_bytes_of_hex(s: Seq<char>) -> Seq<u8> {
    Seq::new((s.len() / 2) as nat, |i: int|
        (16 * spec_hex_val(s[2 * i]) + spec_hex_val(s[2 * i + 1])) as u8)
}

/// The uppercase hex digit for a value below 16.
pub open spec fn spec_hex_digit_char(n: int) -> char {
    if 0 <= n < 10 {
        ('0' as int + n) as char
    } else {
        ('A' as int + n - 10) as char
    }
}

/// A byte sequence rendered as packed uppercase hex.
pub open spec fn spec_hex_upper(b: Seq<u8>) -> Seq<char> {
    Seq::new((2 * b.len()) as nat, |i: int|
        if i % 2 == 0 {
            spec_hex_digit_char(b[i / 2] as int / 16)
        } else {
            spec_hex_digit_char(b[i / 2] as int % 16)
        })
}

/// A hex string with every leading repetition of `0x` removed.
pub open spec fn spec_trim_0x(s: Seq<char>) -> Seq<char>
    decreases s.len(),
{
    if s.len() >= 2 && s[0] == '0' && s[1] == 'x' {
        spec_trim_0x(s.skip(2))
    } else {
        s
    }
}

/// Relies on hex::decode: accepts exactly the even-length strings of
/// hex digits (either case) and returns one byte for each digit pair,
/// high digit first.
#[verifier::external_body]
pub(crate) fn hex_decode_chars(s: &str) -> (r: Option<Vec<u8>>)
    ensures
        r is Some <==> spec_hex_valid(s@),
        r is Some ==> r.unwrap()@ == spec_bytes_of_hex(s@),
{
    hex::decode(s).ok()
}

/// Drops every leading repetition of `0x` from a string.
pub fn trim_0x<'a>(s: &'a str) -> (r: &'a str)
    ensures
        r@ == spec_trim_0x(s@),
{
    let ghost v = s@;
    let n = s.unicode_len();
    let mut i: usize = 0;
    proof {
        assert(v.skip(0) =~= v);
    }
    loop
        invariant
            v == s@,
            n == v.len(),
            0 <= i <= n,
            spec_trim_0x(v) == spec_trim_0x(v.skip(i as int)),
        ensures
            v == s@,
            n == v.len(),
            0 <= i <= n,
            spec_trim_0x(v) == v.skip(i as int),
        decreases n - i,
    {
        if n - i < 2 {
            proof {
                assert(spec_trim_0x(v.skip(i as int)) == v.skip(i as int));
            }
            break;
        }
        let c0 = s.get_char(i);
        let c1 = s.get_char(i + 1);
        if !(c0 == '0' && c1 == 'x') {
            proof {
                assert(v.skip(i as int)[0] == v[i as int]);
                assert(v.skip(i as int)[1] == v[i as int + 1]);
                assert(spec_trim_0x(v.skip(i as int)) == v.skip(i as int));
            }
            break;
        }
        proof {
            assert(v.skip(i as int)[0] == '0' && v.skip(i as int)[1] == 'x');
            assert(v.skip(i as int).skip(2) =~= v.skip(i as int + 2));
        }
        i = i + 2;
    }
    let trimmed = s.substring_char(i, n);
    proof {
        assert(trimmed@ =~= v.skip(i as int));
    }
    trimmed
}

/// Decodes a hex string such as `"0x11223344"` or `"ff00"` to bytes;
/// leading `0x` repetitions are dropped first.
pub fn hex_string_to_bytes(hex_string: &str) -> (r: Result<Vec<u8>, TesterError>)
    ensures
        r is Ok <==> spec_hex_valid(spec_trim_0x(hex_string@)),
        r is Ok ==> r.unwrap()@ == spec_bytes_of_hex(spec_trim_0x(hex_string@)),
        r is Err ==> r.unwrap_err() == TesterError::InvalidData,
{
    let trimmed = trim_0x(hex_string);
    match hex_decode_chars(trimmed) {
        Some(bytes) => Ok(bytes),
        None => Err(TesterError::InvalidData),
    }
}

/// Reads a 16-bit address from a hex string such as `"0x1122"` or
/// `"1122"`; malformed or too-short input gives 0, extra bytes are
/// ignored.
pub fn hex_to_u16(hex_string: &str) -> (r: u16)
    ensures
        ({
            let t = spec_trim_0x(hex_string@);
            if !spec_hex_valid(t) || t.len() < 4 {
                r == 0
            } else {
                r == 256 * spec_bytes_of_hex(t)[0] + spec_bytes_of_hex(t)[1]
            }
        }),
{
    match hex_string_to_bytes(hex_string) {
        Ok(bytes) => {
            if bytes.len() < 2 {
                0
            } else {
                let hi = bytes[0];
                let lo = bytes[1];
                256 * (hi as u16) + (lo as u16)
            }
        },
        Err(_) => 0,
    }
}

/// The uppercase hex digit character for a nibble.
fn hex_digit_char(n: u8) -> (c: char)
    requires
        n < 16,
    ensures
        c == spec_hex_digit_char(n as int),
{
    if n < 10 {
        (48 + n) as char
    } else {
        (55 + n) as char
    }
}

/// Renders bytes as packed uppercase hex characters, two per byte.
pub fn bytes_to_hex_upper(bytes: &Vec<u8>) -> (h: Vec<char>)
    ensures
        h@ == spec_hex_upper(bytes@),
{
    let mut h: Vec<char> = Vec::new();
    let mut i: usize = 0;
    while i < bytes.len()
        invariant
            0 <= i <= bytes.len(),
            h@ =~= spec_hex_upper(bytes@.subrange(0, i as int)),
        decreases bytes.len() - i,
    {
        let b = bytes[i];
        h.push(hex_digit_char(b / 16));
        h.push(hex_digit_char(b % 16));
        proof {
            assert(h@ =~= spec_hex_upper(bytes@.subrange(0, i as int + 1)));
        }
        i = i + 1;
    }
    proof {
        assert(bytes@.subrange(0, bytes@.len() as int) =~= bytes@);
    }
    h
}

/// Value of a sequence of hex digits, most significant first.
pub open spec fn spec_hex_digits_val(s: Seq<char>) -> int
    decreases s.len(),
{
    if s.len() == 0 {
        0
    } else {
        spec_hex_digits_val(s.drop_last()) * 16 + spec_hex_val(s.last())
    }
}

/// The byte a string such as `"11"` denotes after its two-character
/// prefix: hex digits whose value fits in a byte, or 0 otherwise.
pub open spec fn spec_u8_from_prefixed_hex(s: Seq<char>) -> u8 {
    let t = s.skip(2);
    if t.len() == 0 || !(forall|i: int| 0 <= i < t.len() ==> spec_is_hex_digit(#[trigger] t[i]))
        || spec_hex_digits_val(t) > 255 {
        0u8
    } else {
        spec_hex_digits_val(t) as u8
    }
}

proof fn lemma_hex_digits_val_nonneg(s: Seq<char>)
    requires
        forall|j: int| 0 <= j < s.len() ==> spec_is_hex_digit(#[trigger] s[j]),
    ensures
        spec_hex_digits_val(s) >= 0,
    decreases s.len(),
{
    if s.len() > 0 {
        let p = s.drop_last();
        assert(forall|j: int| 0 <= j < p.len() ==> spec_is_hex_digit(#[trigger] p[j]));
        lemma_hex_digits_val_nonneg(p);
        assert(spec_hex_digits_val(p) * 16 >= 0) by (nonlinear_arith)
            requires spec_hex_digits_val(p) >= 0,
        ;
    }
}

/// Extending a hex-digit sequence on the right cannot decrease its
/// value.
proof fn lemma_hex_digits_val_prefix_le(s: Seq<char>, i: int, k: int)
    requires
        0 <= i <= k <= s.len(),
        forall|j: int| 0 <= j < k ==> spec_is_hex_digit(#[trigger] s[j]),
    ensures
        spec_hex_digits_val(s.subrange(0, i)) <= spec_hex_digits_val(s.subrange(0, k)),
    decreases k - i,
{
    if i < k {
        let p = s.subrange(0, k - 1);
        assert(s.subrange(0, k).drop_last() =~= p);
        assert(spec_hex_digits_val(s.subrange(0, k))
            == spec_hex_digits_val(p) * 16 + spec_hex_val(s[k - 1]));
        assert(spec_is_hex_digit(s[k - 1]));
        assert(forall|j: int| 0 <= j < p.len() ==> spec_is_hex_digit(#[trigger] p[j]));
        lemma_hex_digits_val_nonneg(p);
        assert(spec_hex_digits_val(p) <= spec_hex_digits_val(p) * 16 + spec_hex_val(s[k - 1]))
            by (nonlinear_arith)
            requires spec_hex_digits_val(p) >= 0 && spec_hex_val(s[k - 1]) >= 0,
        ;
        lemma_hex_digits_val_prefix_le(s, i, k - 1);
    }
}

/// The byte denoted by a `"0xNN"`-shaped string, 0 where it does not
/// parse as one.
fn parse_prefixed_hex_u8(hstr: &str) -> (r: u8)
    requires
        hstr@.len() >= 2,
    ensures
        r == spec_u8_from_prefixed_hex(hstr@),
{
    let ghost s = hstr@;
    let ghost t = s.skip(2);
    let n = hstr.unicode_len();
    if n == 2 {
        return 0;
    }
    let mut j: usize = 2;
    let mut acc: u32 = 0;
    loop
        invariant
            s == hstr@,
            t == s.skip(2),
            n == s.len(),
            n > 2,
            2 <= j <= n,
            forall|i: int| 0 <= i < j - 2 ==> spec_is_hex_digit(#[trigger] t[i]),
            acc == spec_hex_digits_val(t.subrange(0, j - 2)),
            acc <= 255,
        ensures
            j == n,
            forall|i: int| 0 <= i < t.len() ==> spec_is_hex_digit(#[trigger] t[i]),
            acc == spec_hex_digits_val(t),
            acc <= 255,
        decreases n - j,
    {
        if j == n {
            proof {
                assert(t.subrange(0, j - 2) =~= t);
                assert(forall|i: int| 0 <= i < t.len() ==> spec_is_hex_digit(#[trigger] t[i]));
            }
            break;
        }
        let c = hstr.get_char(j);
        let d: u32;
        if c >= '0' && c <= '9' {
            d = c as u32 - 48;
        } else if c >= 'a' && c <= 'f' {
            d = c as u32 - 97 + 10;
        } else if c >= 'A' && c <= 'F' {
            d = c as u32 - 65 + 10;
        } else {
            proof {
                assert(t[j as int - 2] == s[j as int]);
                assert(!spec_is_hex_digit(t[j as int - 2]));
            }
            return 0;
        }
        proof {
            assert(t[j as int - 2] == s[j as int]);
            assert(spec_is_hex_digit(t[j as int - 2]));
            assert(spec_hex_val(t[j as int - 2]) == d);
            let p = t.subrange(0, j - 2);
            assert(p.push(t[j as int - 2]) =~= t.subrange(0, j - 2 + 1));
            assert(t.subrange(0, j - 2 + 1).drop_last() =~= p);
        }
        if acc * 16 + d > 255 {
            proof {
                let q = t.subrange(0, j - 2 + 1);
                assert(spec_hex_digits_val(q) == acc * 16 + d);
                if forall|i: int| 0 <= i < t.len() ==> spec_is_hex_digit(#[trigger] t[i]) {
                    lemma_hex_digits_val_prefix_le(t, j - 2 + 1, t.len() as int);
                    assert(t.subrange(0, t.len() as int) =~= t);
                    assert(spec_hex_digits_val(t) > 255);
                }
            }
            return 0;
        }
        acc = acc * 16 + d;
        j = j + 1;
    }
    acc as u8
}

/// Converts strings of the shape `"0xNN"` to their bytes; a value that
/// does not parse as a byte becomes 0.
pub fn vec_hex_strings_to_u8(hex_strings: &Vec<String>) -> (r: Vec<u8>)
    requires
        forall|i: int| 0 <= i < hex_strings@.len() ==> #[trigger] hex_strings@[i]@.len() >= 2,
    ensures
        r@.len() == hex_strings@.len(),
        forall|i: int| 0 <= i < r@.len()
            ==> r@[i] == spec_u8_from_prefixed_hex(#[trigger] hex_strings@[i]@),
{
    let mut r: Vec<u8> = Vec::new();
    let mut k: usize = 0;
    while k < hex_strings.len()
        invariant
            0 <= k <= hex_strings@.len(),
            forall|i: int| 0 <= i < hex_strings@.len() ==> #[trigger] hex_strings@[i]@.len() >= 2,
            r@.len() == k,
            forall|i: int| 0 <= i < k
                ==> r@[i] == spec_u8_from_prefixed_hex(#[trigger] hex_strings@[i]@),
        decreases hex_strings@.len() - k,
    {
        let b = parse_prefixed_hex_u8(hex_strings[k].as_str());
        r.push(b);
        k = k + 1;
    }
    r
}

/// What a bare hex numeral denotes: nothing when empty or holding a
/// non-hex character, its value otherwise.
pub open spec fn spec_parse_hex(t: Seq<char>) -> Option<int> {
    if t.len() == 0 || !(forall|i: int| 0 <= i < t.len() ==> spec_is_hex_digit(#[trigger] t[i])) {
        None
    } else {
        Some(spec_hex_digits_val(t))
    }
}

/// Parses a bare hex numeral no larger than `bound`; rejects empty
/// input, stray characters and overflow.
pub fn parse_hex_digits(digits: &str, bound: u32) -> (r: Result<u32, TesterError>)
    ensures
        ({
            let t = digits@;
            match spec_parse_hex(t) {
                Some(v) => if v <= bound {
                    r == Ok::<u32, TesterError>(v as u32)
                } else {
                    r == Err::<u32, TesterError>(TesterError::InvalidInput)
                },
                None => r == Err::<u32, TesterError>(TesterError::InvalidInput),
            }
        }),
        spec_parse_hex(digits@) matches Some(v) ==> v >= 0,
{
    proof {
        if forall|i: int| 0 <= i < digits@.len() ==> spec_is_hex_digit(#[trigger] digits@[i]) {
            lemma_hex_digits_val_nonneg(digits@);
        }
    }
    let ghost t = digits@;
    let n = digits.unicode_len();
    if n == 0 {
        return Err(TesterError::InvalidInput);
    }
    let mut j: usize = 0;
    let mut acc: u32 = 0;
    loop
        invariant
            t == digits@,
            n == t.len(),
            n > 0,
            0 <= j <= n,
            forall|i: int| 0 <= i < j ==> spec_is_hex_digit(#[trigger] t[i]),
            acc == spec_hex_digits_val(t.subrange(0, j as int)),
            acc <= bound,
        ensures
            t == digits@,
            j == n,
            forall|i: int| 0 <= i < t.len() ==> spec_is_hex_digit(#[trigger] t[i]),
            acc == spec_hex_digits_val(t),
            acc <= bound,
        decreases n - j,
    {
        if j == n {
            proof {
                assert(t.subrange(0, j as int) =~= t);
            }
            break;
        }
        let c = digits.get_char(j);
        let d: u32;
        if c >= '0' && c <= '9' {
            d = c as u32 - 48;
        } else if c >= 'a' && c <= 'f' {
            d = c as u32 - 97 + 10;
        } else if c >= 'A' && c <= 'F' {
            d = c as u32 - 65 + 10;
        } else {
            proof {
                assert(!spec_is_hex_digit(t[j as int]));
            }
            return Err(TesterError::InvalidInput);
        }
        proof {
            assert(spec_is_hex_digit(t[j as int]));
            assert(spec_hex_val(t[j as int]) == d);
            let p = t.subrange(0, j as int);
            assert(p.push(t[j as int]) =~= t.subrange(0, j as int + 1));
            assert(t.subrange(0, j as int + 1).drop_last() =~= p);
        }
        let wide: u64 = (acc as u64) * 16 + (d as u64);
        if wide > bound as u64 {
            proof {
                let q = t.subrange(0, j as int + 1);
                assert(spec_hex_digits_val(q) == acc * 16 + d);
                if forall|i: int| 0 <= i < t.len() ==> spec_is_hex_digit(#[trigger] t[i]) {
                    lemma_hex_digits_val_prefix_le(t, j as int + 1, t.len() as int);
                    assert(t.subrange(0, t.len() as int) =~= t);
                    assert(spec_hex_digits_val(t) > bound);
                }
            }
            return Err(TesterError::InvalidInput);
        }
        acc = wide as u32;
        j = j + 1;
    }
    Ok(acc)
}

/// Parses a hex numeral no larger than `bound` after dropping any
/// leading `0x`; rejects empty input, stray characters and overflow.
pub fn parse_hex_bounded(s: &str, bound: u32) -> (r: Result<u32, TesterError>)
    ensures
        ({
            let t = spec_trim_0x(s@);
            match spec_parse_hex(t) {
                Some(v) => if v <= bound {
                    r == Ok::<u32, TesterError>(v as u32)
                } else {
                    r == Err::<u32, TesterError>(TesterError::InvalidInput)
                },
                None => r == Err::<u32, TesterError>(TesterError::InvalidInput),
            }
        }),
{
    let digits = trim_0x(s);
    parse_hex_digits(digits, bound)
}

/// Parses a hex byte such as `"0x02"`; errors on malformed input.
pub fn parse_hex_u8(s: &str) -> (r: Result<u8, TesterError>)
    ensures
        ({
            let t = spec_trim_0x(s@);
            match spec_parse_hex(t) {
                Some(v) => if v <= 255 {
                    r == Ok::<u8, TesterError>(v as u8)
                } else {
                    r == Err::<u8, TesterError>(TesterError::InvalidInput)
                },
                None => r == Err::<u8, TesterError>(TesterError::InvalidInput),
            }
        }),
        spec_parse_hex(spec_trim_0x(s@)) matches Some(v) ==> v >= 0,
{
    proof {
        let t = spec_trim_0x(s@);
        if forall|i: int| 0 <= i < t.len() ==> spec_is_hex_digit(#[trigger] t[i]) {
            lemma_hex_digits_val_nonneg(t);
        }
    }
    match parse_hex_bounded(s, 255) {
        Ok(v) => Ok(v as u8),
        Err(e) => Err(e),
    }
}

/// Parses a 16-bit hex address such as `"0x0E80"`; errors on
/// malformed input.
pub fn parse_hex_u16(s: &str) -> (r: Result<u16, TesterError>)
    ensures
        ({
            let t = spec_trim_0x(s@);
            match spec_parse_hex(t) {
                Some(v) => if v <= 65535 {
                    r == Ok::<u16, TesterError>(v as u16)
                } else {
                    r == Err::<u16, TesterError>(TesterError::InvalidInput)
                },
                None => r == Err::<u16, TesterError>(TesterError::InvalidInput),
            }
        }),
        spec_parse_hex(spec_trim_0x(s@)) matches Some(v) ==> v >= 0,
{
    proof {
        let t = spec_trim_0x(s@);
        if forall|i: int| 0 <= i < t.len() ==> spec_is_hex_digit(#[trigger] t[i]) {
            lemma_hex_digits_val_nonneg(t);
        }
    }
    match parse_hex_bounded(s, 65535) {
        Ok(v) => Ok(v as u16),
        Err(e) => Err(e),
    }
}

/// True for the ASCII bytes of hexadecimal digits, either case.
pub open spec fn spec_is_hex_digit_b(b: u8) -> bool {
    (48 <= b && b <= 57) || (97 <= b && b <= 102) || (65 <= b && b <= 70)
}

/// Numeric value of a hexadecimal digit byte.
pub open spec fn spec_hex_val_b(b: u8) -> int {
    if 48 <= b && b <= 57 {
        b - 48
    } else if 97 <= b && b <= 102 {
        b - 97 + 10
    } else {
        b - 65 + 10
    }
}

/// A well-formed hex byte string: even length, hex digits throughout.
pub open spec fn spec_hex_valid_b(s: Seq<u8>) -> bool {
    s.len() % 2 == 0 && forall|i: int| 0 <= i < s.len() ==> spec_is_hex_digit_b(#[trigger] s[i])
}

/// The bytes a hex byte string denotes: one byte per digit pair.
pub open spec fn spec_bytes_of_hex_b(s: Seq<u8>) -> Seq<u8> {
    Seq::new((s.len() / 2) as nat, |i: int|
        (16 * spec_hex_val_b(s[2 * i]) + spec_hex_val_b(s[2 * i + 1])) as u8)
}

/// A hex byte string with every leading repetition of `0x` removed.
pub open spec fn spec_trim_0x_b(s: Seq<u8>) -> Seq<u8>
    decreases s.len(),
{
    if s.len() >= 2 && s[0] == 48 && s[1] == 120 {
        spec_trim_0x_b(s.skip(2))
    } else {
        s
    }
}

/// Decodes an ASCII hex byte string, dropping leading `0x`
/// repetitions first; accepts exactly the even-length strings of hex
/// digits.
pub fn hex_bytes_decode(s: &Vec<u8>) -> (r: Option<Vec<u8>>)
    ensures
        r is Some <==> spec_hex_valid_b(spec_trim_0x_b(s@)),
        r matches Some(v) ==> v@ == spec_bytes_of_hex_b(spec_trim_0x_b(s@)),
{
    let ghost w = s@;
    let n = s.len();
    let mut i: usize = 0;
    proof {
        assert(w.skip(0) =~= w);
    }
    loop
        invariant
            w == s@,
            n == w.len(),
            0 <= i <= n,
            spec_trim_0x_b(w) == spec_trim_0x_b(w.skip(i as int)),
        ensures
            w == s@,
            n == w.len(),
            0 <= i <= n,
            spec_trim_0x_b(w) == w.skip(i as int),
        decreases n - i,
    {
        if n - i < 2 {
            proof {
                assert(spec_trim_0x_b(w.skip(i as int)) == w.skip(i as int));
            }
            break;
        }
        if !(s[i] == 48 && s[i + 1] == 120) {
            proof {
                assert(w.skip(i as int)[0] == w[i as int]);
                assert(w.skip(i as int)[1] == w[i as int + 1]);
                assert(spec_trim_0x_b(w.skip(i as int)) == w.skip(i as int));
            }
            break;
        }
        proof {
            assert(w.skip(i as int)[0] == 48 && w.skip(i as int)[1] == 120);
            assert(w.skip(i as int).skip(2) =~= w.skip(i as int + 2));
        }
        i = i + 2;
    }
    let ghost t = w.skip(i as int);
    if (n - i) % 2 != 0 {
        return None;
    }
    let mut out: Vec<u8> = Vec::new();
    let mut j: usize = i;
    loop
        invariant
            w == s@,
            n == w.len(),
            t == w.skip(i as int),
            t == spec_trim_0x_b(w),
            t.len() % 2 == 0,
            i <= j <= n,
            (j - i) % 2 == 0,
            forall|q: int| 0 <= q < j - i ==> spec_is_hex_digit_b(#[trigger] t[q]),
            out@ =~= spec_bytes_of_hex_b(t.subrange(0, j - i)),
        ensures
            w == s@,
            t == w.skip(i as int),
            j == n,
            forall|q: int| 0 <= q < t.len() ==> spec_is_hex_digit_b(#[trigger] t[q]),
            out@ =~= spec_bytes_of_hex_b(t),
        decreases n - j,
    {
        if j == n {
            proof {
                assert(t.subrange(0, j - i) =~= t);
            }
            break;
        }
        let b0 = s[j];
        let b1 = s[j + 1];
        let d0: u8;
        if 48 <= b0 && b0 <= 57 {
            d0 = b0 - 48;
        } else if 97 <= b0 && b0 <= 102 {
            d0 = b0 - 97 + 10;
        } else if 65 <= b0 && b0 <= 70 {
            d0 = b0 - 65 + 10;
        } else {
            proof {
                assert(t[j - i] == w[j as int]);
                assert(!spec_is_hex_digit_b(t[j - i]));
            }
            return None;
        }
        let d1: u8;
        if 48 <= b1 && b1 <= 57 {
            d1 = b1 - 48;
        } else if 97 <= b1 && b1 <= 102 {
            d1 = b1 - 97 + 10;
        } else if 65 <= b1 && b1 <= 70 {
            d1 = b1 - 65 + 10;
        } else {
            proof {
                assert(t[j - i + 1] == w[j as int + 1]);
                assert(!spec_is_hex_digit_b(t[j - i + 1]));
            }
            return None;
        }
        out.push(16 * d0 + d1);
        proof {
            assert(t[j - i] == w[j as int] && t[j - i + 1] == w[j as int + 1]);
            assert(spec_hex_val_b(t[j - i]) == d0 && spec_hex_val_b(t[j - i + 1]) == d1);
            assert(out@ =~= spec_bytes_of_hex_b(t.subrange(0, j - i + 2)));
        }
        j = j + 2;
    }
    Some(out)
}

/// Copies the elements of a byte vector from an index on.
pub fn vec_suffix(data: &Vec<u8>, from: usize) -> (r: Vec<u8>)
    requires
        from <= data@.len(),
    ensures
        r@ == data@.skip(from as int),
{
    let mut r: Vec<u8> = Vec::new();
    let mut i: usize = from;
    while i < data.len()
        invariant
            from <= i <= data@.len(),
            r@ =~= data@.subrange(from as int, i as int),
        decreases data@.len() - i,
    {
        let b = data[i];
        r.push(b);
        proof {
            assert(r@ =~= data@.subrange(from as int, i as int + 1));
        }
        i = i + 1;
    }
    proof {
        assert(data@.subrange(from as int, data@.len() as int) =~= data@.skip(from as int));
    }
    r
}

/// Copies the elements of a byte vector between two indices.
pub fn vec_range(data: &Vec<u8>, from: usize, to: usize) -> (r: Vec<u8>)
    requires
        from <= to <= data@.len(),
    ensures
        r@ == data@.subrange(from as int, to as int),
{
    let mut r: Vec<u8> = Vec::new();
    let mut i: usize = from;
    while i < to
        invariant
            from <= i <= to <= data@.len(),
            r@ =~= data@.subrange(from as int, i as int),
        decreases to - i,
    {
        let b = data[i];
        r.push(b);
        proof {
            assert(r@ =~= data@.subrange(from as int, i as int + 1));
        }
        i = i + 1;
    }
    r
}

/// Copies the first `to` elements of a byte vector.
pub fn vec_prefix(data: &Vec<u8>, to: usize) -> (r: Vec<u8>)
    requires
        to <= data@.len(),
    ensures
        r@ == data@.take(to as int),
{
    let r = vec_range(data, 0, to);
    proof {
        assert(data@.subrange(0, to as int) =~= data@.take(to as int));
    }
    r
}

/// Character code with uppercase ASCII letters folded to lowercase.
pub open spec fn spec_lower_val(c: char) -> int {
    if 'A' <= c && c <= 'Z' {
        c as int + 32
    } else {
        c as int
    }
}

/// Positional expect-pattern match from index `i`: an exhausted
/// pattern or a `*` matches everything that follows; otherwise the
/// characters must agree case-insensitively and the data must not run
/// out before the pattern.
pub open spec fn spec_match_at(p: Seq<char>, h: Seq<char>, i: int) -> bool
    decreases p.len() - i,
{
    if i < 0 || i >= p.len() {
        true
    } else if p[i] == '*' {
        true
    } else if i >= h.len() {
        false
    } else if spec_lower_val(p[i]) != spec_lower_val(h[i]) {
        false
    } else {
        spec_match_at(p, h, i + 1)
    }
}

/// Whether an expect pattern matches a rendered hex string.
pub open spec fn spec_expect_match(p: Seq<char>, h: Seq<char>) -> bool {
    spec_match_at(p, h, 0)
}

/// Compares an expect pattern such as `"62f186*"` against received
/// bytes rendered as hex; `*` matches any remainder, and letters match
/// case-insensitively.
pub fn compare_expect_value(string_a: &str, vec_b: Vec<u8>) -> (r: bool)
    ensures
        r == spec_expect_match(string_a@, spec_hex_upper(vec_b@)),
{
    let h = bytes_to_hex_upper(&vec_b);
    let np = string_a.unicode_len();
    let mut i: usize = 0;
    loop
        invariant
            0 <= i <= np,
            np == string_a@.len(),
            h@ == spec_hex_upper(vec_b@),
            spec_expect_match(string_a@, h@) == spec_match_at(string_a@, h@, i as int),
        decreases np - i,
    {
        if i == np {
            return true;
        }
        let c = string_a.get_char(i);
        if c == '*' {
            return true;
        }
        if i >= h.len() {
            return false;
        }
        let ca: u32 = if c >= 'A' && c <= 'Z' {
            c as u32 + 32
        } else {
            c as u32
        };
        let d = h[i];
        let cb: u32 = if d >= 'A' && d <= 'Z' {
            d as u32 + 32
        } else {
            d as u32
        };
        if ca != cb {
            return false;
        }
        i = i + 1;
    }
}

/// Extending the data can never turn a matching pattern into a
/// mismatch: a failure needs a literal disagreement or data that runs
/// out, and appending characters causes neither.
proof fn lemma_match_data_extend(q: Seq<char>, h: Seq<char>, x: Seq<char>, i: int)
    ensures
        spec_match_at(q, h, i) ==> spec_match_at(q, h + x, i),
    decreases q.len() - i + 1,
{
    if i < 0 || i >= q.len() {
    } else if q[i] == '*' {
    } else if i >= h.len() {
    } else {
        assert((h + x)[i] == h[i]);
        lemma_match_data_extend(q, h, x, i + 1);
    }
}

/// Rendering bytes as hex distributes over concatenation.
proof fn lemma_hex_upper_append(a: Seq<u8>, b: Seq<u8>)
    ensures
        spec_hex_upper(a + b) =~= spec_hex_upper(a) + spec_hex_upper(b),
{
    assert forall|i: int| 0 <= i < 2 * (a.len() + b.len())
        implies spec_hex_upper(a + b)[i] == (spec_hex_upper(a) + spec_hex_upper(b))[i] by {
        if i < 2 * a.len() {
            assert((a + b)[i / 2] == a[i / 2]);
        } else {
            assert((i - 2 * a.len() as int) / 2 == i / 2 - a.len());
            assert((i - 2 * a.len() as int) % 2 == i % 2);
            assert((a + b)[i / 2] == b[i / 2 - a.len()]);
        }
    }
}

/// A pattern that ends in the wildcard and matches some rendered data
/// keeps matching after any further bytes are appended to the data.
pub proof fn lemma_expect_wildcard_monotone(p: Seq<char>, d: Seq<u8>, x: Seq<u8>)
    ensures
        spec_expect_match(p + seq!['*'], spec_hex_upper(d))
            ==> spec_expect_match(p + seq!['*'], spec_hex_upper(d + x)),
{
    lemma_hex_upper_append(d, x);
    lemma_match_data_extend(p + seq!['*'], spec_hex_upper(d), spec_hex_upper(x), 0);
}

/// Character-wise string equality.
pub fn str_eq(a: &str, b: &str) -> (r: bool)
    ensures
        r <==> a@ =~= b@,
{
    let na = a.unicode_len();
    let nb = b.unicode_len();
    if na != nb {
        return false;
    }
    let mut i: usize = 0;
    while i < na
        invariant
            0 <= i <= na,
            na == a@.len(),
            na == b@.len(),
            forall|j: int| 0 <= j < i ==> a@[j] == b@[j],
        decreases na - i,
    {
        if a.get_char(i) != b.get_char(i) {
            return false;
        }
        i = i + 1;
    }
    true
}

/// Whether `s` begins with `prefix`, character by character.
pub fn str_starts_with(s: &str, prefix: &str) -> (r: bool)
    ensures
        r <==> (s@.len() >= prefix@.len()
            && s@.subrange(0, prefix@.len() as int) =~= prefix@),
{
    let n = s.unicode_len();
    let np = prefix.unicode_len();
    if n < np {
        return false;
    }
    let mut i: usize = 0;
    while i < np
        invariant
            0 <= i <= np,
            np <= n,
            n == s@.len(),
            np == prefix@.len(),
            forall|j: int| 0 <= j < i ==> s@[j] == prefix@[j],
        decreases np - i,
    {
        if s.get_char(i) != prefix.get_char(i) {
            return false;
        }
        i = i + 1;
    }
    true
}

/// Index of the first occurrence of `c` in `s`, if any.
pub fn find_char(s: &str, c: char) -> (r: Option<usize>)
    ensures
        match r {
            Some(i) => i < s@.len() && s@[i as int] == c
                && forall|j: int| 0 <= j < i ==> s@[j] != c,
            None => forall|j: int| 0 <= j < s@.len() ==> s@[j] != c,
        },
{
    let n = s.unicode_len();
    let mut i: usize = 0;
    while i < n
        invariant
            0 <= i <= n,
            n == s@.len(),
            forall|j: int| 0 <= j < i ==> s@[j] != c,
        decreases n - i,
    {
        if s.get_char(i) == c {
            return Some(i);
        }
        i = i + 1;
    }
    None
}

/// Index of the first occurrence of a character, if any.
pub open spec fn spec_find_char(s: Seq<char>, c: char) -> Option<int>
    decreases s.len(),
{
    if s.len() == 0 {
        None
    } else if s[0] == c {
        Some(0int)
    } else {
        match spec_find_char(s.drop_first(), c) {
            Some(i) => Some(i + 1),
            None => None,
        }
    }
}

/// A first occurrence at `i` pins the find result down.
pub proof fn lemma_find_char_from_witness(s: Seq<char>, c: char, i: int)
    requires
        0 <= i < s.len(),
        s[i] == c,
        forall|j: int| 0 <= j < i ==> s[j] != c,
    ensures
        spec_find_char(s, c) == Some(i),
    decreases s.len(),
{
    if i > 0 {
        let t = s.drop_first();
        assert(forall|j: int| 0 <= j < i - 1 ==> t[j] != c);
        assert(t[i - 1] == c);
        lemma_find_char_from_witness(t, c, i - 1);
    }
}

/// No occurrence means no find result.
pub proof fn lemma_find_char_none(s: Seq<char>, c: char)
    requires
        forall|j: int| 0 <= j < s.len() ==> s[j] != c,
    ensures
        spec_find_char(s, c) is None,
    decreases s.len(),
{
    if s.len() > 0 {
        let t = s.drop_first();
        assert(forall|j: int| 0 <= j < t.len() ==> t[j] != c);
        lemma_find_char_none(t, c);
    }
}

/// Uppercase image of a character sequence, folding ASCII lowercase
/// letters up.
pub open spec fn spec_to_upper(s: Seq<char>) -> Seq<char> {
    Seq::new(s.len(), |i: int|
        if 'a' <= s[i] && s[i] <= 'z' {
            (s[i] as int - 32) as char
        } else {
            s[i]
        })
}

/// Round trip: decoding a well-formed hex string and rendering the
/// bytes back gives the same string in uppercase.
pub proof fn lemma_hex_round_trip(s: Seq<char>)
    requires
        spec_hex_valid(s),
    ensures
        spec_hex_upper(spec_bytes_of_hex(s)) =~= spec_to_upper(s),
{
    let b = spec_bytes_of_hex(s);
    assert forall|i: int| 0 <= i < 2 * b.len()
        implies spec_hex_upper(b)[i] == spec_to_upper(s)[i] by {
        let c0 = s[2 * (i / 2)];
        let c1 = s[2 * (i / 2) + 1];
        assert(spec_is_hex_digit(c0) && spec_is_hex_digit(c1));
        assert(0 <= spec_hex_val(c0) < 16 && 0 <= spec_hex_val(c1) < 16);
        assert(b[i / 2] == (16 * spec_hex_val(c0) + spec_hex_val(c1)) as u8);
        assert((16 * spec_hex_val(c0) + spec_hex_val(c1)) / 16 == spec_hex_val(c0))
            by (nonlinear_arith)
            requires 0 <= spec_hex_val(c0) < 16 && 0 <= spec_hex_val(c1) < 16,
        ;
        assert((16 * spec_hex_val(c0) + spec_hex_val(c1)) % 16 == spec_hex_val(c1))
            by (nonlinear_arith)
            requires 0 <= spec_hex_val(c0) < 16 && 0 <= spec_hex_val(c1) < 16,
        ;
        if i % 2 == 0 {
            assert(2 * (i / 2) == i);
        } else {
            assert(2 * (i / 2) + 1 == i);
        }
    }
}

} // verus!
