//! The clock, replication ids, and hexadecimal text.

use std::time::Duration;
use std::time::SystemTime;
use std::time::SystemTimeError;
use vstd::prelude::*;
use vstd::string::StrSliceExecFns;
use vstd::string::StringExecFns;
use vstd::utf8::*;

use crate::common::{ascii_chars, is_ascii_bytes, lemma_ascii_is_utf8, text};

verus! {

/// `std::time::SystemTime`, carried through unopened.
#[verifier::external_type_specification]
#[verifier::external_body]
pub struct ExSystemTime(SystemTime);

/// `std::time::SystemTimeError`, carried through unopened.
#[verifier::external_type_specification]
#[verifier::external_body]
pub struct ExSystemTimeError(SystemTimeError);

/// `SystemTime::now` reads the clock; nothing is claimed of what it reads.
pub assume_specification[ SystemTime::now ]() -> (t: SystemTime)
;

/// `SystemTime::duration_since` gives the time from `earlier` to `t`, or an
/// error where `earlier` is the later of the two; nothing more is claimed.
pub assume_specification[ SystemTime::duration_since ](t: &SystemTime, earlier: SystemTime) -> (r:
    Result<Duration, SystemTimeError>)
;

/// `Duration::as_millis` gives a duration in whole milliseconds; nothing is
/// claimed of the number.
pub assume_specification[ Duration::as_millis ](d: &Duration) -> (ms: u128)
;

/// The constant `std::time::UNIX_EPOCH`.
#[verifier::external_body]
fn unix_epoch() -> (t: SystemTime) {
    std::time::UNIX_EPOCH
}

/// The number of milliseconds since the Unix epoch, by the system clock,
/// cut to 64 bits. A clock that stands before the epoch reads as zero.
pub fn now_millis() -> u64 {
    let now = SystemTime::now();
    match now.duration_since(unix_epoch()) {
        Ok(d) => millis_of_reading(Some(d.as_millis())),
        Err(_) => millis_of_reading(None),
    }
}

/// What a reading of the clock counts as: the milliseconds since the epoch
/// cut to their lower 64 bits, or zero where the clock stands before the
/// epoch and there is no such number.
pub open spec fn reading_millis(since_epoch: Option<u128>) -> u64 {
    match since_epoch {
        Some(ms) => (ms % 0x1_0000_0000_0000_0000) as u64,
        None => 0,
    }
}

/// The time that a reading of the clock counts as.
pub fn millis_of_reading(since_epoch: Option<u128>) -> (r: u64)
    ensures
        r == reading_millis(since_epoch),
{
    match since_epoch {
        Some(ms) => (ms % 0x1_0000_0000_0000_0000) as u64,
        None => 0,
    }
}

/// The factor and the summand of the mixer that makes replication ids.
pub const A_LARGE_PRIME: u64 = 2147483647;

/// The lower-case hexadecimal digit for `d`, which is below sixteen.
pub open spec fn hex_digit(d: nat) -> u8 {
    if d < 10 {
        (48 + d) as u8
    } else {
        (87 + d) as u8
    }
}

/// The lower-case hexadecimal numeral of `n`, without leading zeros.
pub open spec fn hex_digits(n: nat) -> Seq<u8>
    decreases n,
{
    if n < 16 {
        seq![hex_digit(n)]
    } else {
        hex_digits(n / 16).push(hex_digit(n % 16))
    }
}

/// The hexadecimal text that a seed is mixed into: the numeral of the seed
/// times the prime, then that of this product and the prime, both cut to 64
/// bits.
pub open spec fn mixed_hex(seed: u64) -> Seq<u8> {
    let p1 = seed.wrapping_mul(A_LARGE_PRIME);
    let p2 = p1.wrapping_add(A_LARGE_PRIME);
    hex_digits(p1 as nat) + hex_digits(p2 as nat)
}

/// Whether the mix of the seed has twenty digits or more.
pub open spec fn has_replication_id(seed: u64) -> bool {
    mixed_hex(seed).len() >= 20
}

/// Twenty digits of a hexadecimal text: its first twenty, or all of it with
/// zeros behind it where it has fewer.
pub open spec fn twenty_digits(hex: Seq<u8>) -> Seq<u8> {
    Seq::new(
        20,
        |i: int|
            if i < hex.len() {
                hex[i]
            } else {
                48u8
            },
    )
}

/// The replication id of a seed: twenty digits of its mix.
pub open spec fn replication_id_of(seed: u64) -> Seq<char> {
    ascii_chars(twenty_digits(mixed_hex(seed)))
}

/// Whether `b` is one of the digits `0` to `9` and `a` to `f`.
pub open spec fn is_hex_digit(b: u8) -> bool {
    48 <= b <= 57 || 97 <= b <= 102
}

/// Whether `c` is one of the digits `0` to `9` and `a` to `f`.
pub open spec fn is_hex_char(c: char) -> bool {
    ('0' <= c <= '9') || ('a' <= c <= 'f')
}

/// Hexadecimal numerals are made of hexadecimal digits, which are ASCII
/// characters.
pub proof fn lemma_hex_digits_ascii(n: nat)
    ensures
        is_ascii_bytes(hex_digits(n)),
        hex_digits(n).len() >= 1,
        forall|i: int| 0 <= i < hex_digits(n).len() ==> is_hex_digit(#[trigger] hex_digits(n)[i]),
    decreases n,
{
    if n >= 16 {
        lemma_hex_digits_ascii(n / 16);
    }
}

/// The twenty digits of a mix are hexadecimal digits.
pub proof fn lemma_twenty_digits_hex(seed: u64)
    ensures
        forall|i: int| 0 <= i < 20 ==> is_hex_digit(#[trigger] twenty_digits(mixed_hex(seed))[i]),
        is_ascii_bytes(twenty_digits(mixed_hex(seed))),
{
    let p1 = seed.wrapping_mul(A_LARGE_PRIME);
    let p2 = p1.wrapping_add(A_LARGE_PRIME);
    lemma_hex_digits_ascii(p1 as nat);
    lemma_hex_digits_ascii(p2 as nat);
    let first = hex_digits(p1 as nat);
    let second = hex_digits(p2 as nat);
    let mix = mixed_hex(seed);
    assert forall|i: int| 0 <= i < mix.len() implies is_hex_digit(#[trigger] mix[i]) by {
        if i < first.len() {
            assert(mix[i] == first[i]);
        } else {
            assert(mix[i] == second[i - first.len()]);
        }
    }
    assert forall|i: int| 0 <= i < 20 implies is_hex_digit(
        #[trigger] twenty_digits(mixed_hex(seed))[i],
    ) by {
        if i < mix.len() {
            assert(is_hex_digit(mix[i]));
        }
    }
}

/// For every seed, the replication id is twenty lower-case hexadecimal
/// digits; where the mix of the seed has twenty digits, they are its first
/// twenty.
pub proof fn law_replication_id_shape(seed: u64)
    ensures
        replication_id_of(seed).len() == 20,
        forall|i: int| 0 <= i < 20 ==> is_hex_char(#[trigger] replication_id_of(seed)[i]),
        has_replication_id(seed) ==> replication_id_of(seed) == ascii_chars(
            mixed_hex(seed).take(20),
        ),
{
    lemma_twenty_digits_hex(seed);
    let digits = twenty_digits(mixed_hex(seed));
    assert forall|i: int| 0 <= i < 20 implies is_hex_char(#[trigger] replication_id_of(seed)[i]) by {
        assert(is_hex_digit(digits[i]));
        assert(replication_id_of(seed)[i] == digits[i] as char);
    }
    if has_replication_id(seed) {
        assert(digits =~= mixed_hex(seed).take(20));
    }
}

/// Appends the lower-case hexadecimal numeral of `n` to `out`.
fn push_hex(out: &mut Vec<u8>, n: u64)
    ensures
        final(out)@ == old(out)@ + hex_digits(n as nat),
    decreases n,
{
    if n >= 16 {
        push_hex(out, n / 16);
    }
    let d: u64 = n % 16;
    if d < 10 {
        out.push((48 + d) as u8);
    } else {
        out.push((87 + d) as u8);
    }
    assert(out@ =~= old(out)@ + hex_digits(n as nat));
}

/// The hexadecimal text that `seed` is mixed into.
fn mix(seed: u64) -> (hex: Vec<u8>)
    ensures
        hex@ == mixed_hex(seed),
{
    let p1: u64 = seed.wrapping_mul(A_LARGE_PRIME);
    let p2: u64 = p1.wrapping_add(A_LARGE_PRIME);
    let mut hex: Vec<u8> = Vec::new();
    push_hex(&mut hex, p1);
    push_hex(&mut hex, p2);
    assert(hex@ =~= mixed_hex(seed));
    hex
}

/// The replication id of `seed`: twenty lower-case hexadecimal digits, the
/// first twenty of the mix of the seed, with zeros behind them where the mix
/// has fewer.
pub fn make_replication_id(seed: u64) -> (id: String)
    ensures
        id@ == replication_id_of(seed),
        id@.len() == 20,
        forall|i: int| 0 <= i < 20 ==> is_hex_char(#[trigger] id@[i]),
        has_replication_id(seed) ==> id@ == ascii_chars(mixed_hex(seed).take(20)),
{
    let mut hex = mix(seed);
    hex.truncate(20);
    while hex.len() < 20
        invariant
            hex@.len() <= 20,
            hex@.len() >= 20 || hex@.len() >= mixed_hex(seed).len(),
            forall|i: int| 0 <= i < hex@.len() ==> hex@[i] == twenty_digits(mixed_hex(seed))[i],
        decreases 20 - hex@.len(),
    {
        hex.push(48u8);
    }
    proof {
        assert(hex@ =~= twenty_digits(mixed_hex(seed)));
        lemma_twenty_digits_hex(seed);
        lemma_ascii_is_utf8(hex@);
        law_replication_id_shape(seed);
    }
    match String::from_utf8(hex) {
        Ok(id) => {
            proof {
                encode_utf8_decode_utf8(id@);
            }
            id
        },
        Err(_) => String::new(),
    }
}

/// A character that is no hexadecimal digit.
#[derive(Clone, Copy, Debug, PartialEq, Eq, Structural)]
pub struct InvalidDigit;

/// The number that a hexadecimal digit stands for. Lower-case digits are
/// all read; of the upper-case ones, `A` and `B` alone.
pub open spec fn hex_value(digit: u8) -> Option<u8> {
    if 48 <= digit <= 57 {
        Some((digit - 48) as u8)
    } else if 97 <= digit <= 102 {
        Some((digit - 97 + 10) as u8)
    } else if 65 <= digit <= 66 {
        Some((digit - 65 + 10) as u8)
    } else {
        None
    }
}

/// The bytes that pairs of hexadecimal digits stand for, the high digit
/// first; nothing where a character is no digit.
pub open spec fn hex_bytes(s: Seq<u8>) -> Option<Seq<u8>>
    decreases s.len(),
{
    if s.len() < 2 {
        Some(Seq::empty())
    } else {
        let n = s.len() as int;
        match (hex_bytes(s.take(n - 2)), hex_value(s[n - 2]), hex_value(s[n - 1])) {
            (Some(head), Some(hi), Some(lo)) => Some(head.push((hi * 16 + lo) as u8)),
            _ => None,
        }
    }
}

/// A decoded prefix of pairs goes on failing once it has failed.
proof fn lemma_hex_bytes_prefix_none(s: Seq<u8>, k: int)
    requires
        0 <= k,
        2 * k <= s.len(),
        s.len() % 2 == 0,
        hex_bytes(s.take(2 * k)) is None,
    ensures
        hex_bytes(s) is None,
    decreases s.len() - 2 * k,
{
    if 2 * k < s.len() {
        assert(s.take(2 * k + 2).take(2 * k) =~= s.take(2 * k));
        lemma_hex_bytes_prefix_none(s, k + 1);
    } else {
        assert(s.take(2 * k) =~= s);
    }
}

/// Decodes a text of hexadecimal digits, two to a byte.
pub fn hex_decode(input: &str) -> (r: Result<Vec<u8>, InvalidDigit>)
    requires
        text(input).len() % 2 == 0,
    ensures
        r matches Ok(bytes) ==> hex_bytes(text(input)) == Some(bytes@),
        r is Err ==> hex_bytes(text(input)) is None,
{
    let input_bytes = input.as_bytes();
    let n_bytes: usize = input_bytes.len();
    let mut output: Vec<u8> = Vec::new();
    let mut i: usize = 0;
    assert(input_bytes@.take(0) =~= Seq::<u8>::empty());
    while i < n_bytes
        invariant
            n_bytes == input_bytes@.len(),
            input_bytes@ == text(input),
            n_bytes % 2 == 0,
            i % 2 == 0,
            i <= n_bytes,
            hex_bytes(input_bytes@.take(i as int)) == Some(output@),
        decreases n_bytes - i,
    {
        proof {
            assert(input_bytes@.take(i + 2).take(i as int) =~= input_bytes@.take(i as int));
        }
        let digit0_val: u8 = match hex_decode_1_digit(input_bytes[i]) {
            Ok(v) => v,
            Err(e) => {
                proof {
                    let pair = input_bytes@.take(i + 2);
                    assert(pair[i as int] == input_bytes@[i as int]);
                    assert(pair[i + 1] == input_bytes@[i + 1]);
                    assert(hex_bytes(pair) is None);
                    lemma_hex_bytes_prefix_none(input_bytes@, (i + 2) / 2);
                }
                return Err(e);
            },
        };
        let digit1_val: u8 = match hex_decode_1_digit(input_bytes[i + 1]) {
            Ok(v) => v,
            Err(e) => {
                proof {
                    let pair = input_bytes@.take(i + 2);
                    assert(pair[i as int] == input_bytes@[i as int]);
                    assert(pair[i + 1] == input_bytes@[i + 1]);
                    assert(hex_bytes(pair) is None);
                    lemma_hex_bytes_prefix_none(input_bytes@, (i + 2) / 2);
                }
                return Err(e);
            },
        };
        proof {
            let pair = input_bytes@.take(i + 2);
            assert(pair[i as int] == input_bytes@[i as int]);
            assert(pair[i + 1] == input_bytes@[i + 1]);
        }
        output.push(digit0_val * 16 + digit1_val);
        i += 2;
    }
    assert(input_bytes@.take(i as int) =~= input_bytes@);
    Ok(output)
}

/// The number that one hexadecimal digit stands for.
fn hex_decode_1_digit(digit: u8) -> (r: Result<u8, InvalidDigit>)
    ensures
        r matches Ok(v) ==> hex_value(digit) == Some(v) && v < 16,
        r is Err ==> hex_value(digit) is None,
{
    if 48 <= digit && digit <= 57 {
        Ok(digit - 48)
    } else if 97 <= digit && digit <= 102 {
        Ok((digit - 97) + 10)
    } else if 65 <= digit && digit <= 66 {
        Ok((digit - 65) + 10)
    } else {
        Err(InvalidDigit)
    }
}

/// `s` with a colon in the place of each space.
pub open spec fn colons_for_spaces(s: Seq<char>) -> Seq<char> {
    Seq::new(
        s.len(),
        |i: int|
            if s[i] == ' ' {
                ':'
            } else {
                s[i]
            },
    )
}

/// A copy of `s` with a colon in the place of each space.
pub fn spaces_to_colons(s: &str) -> (r: String)
    ensures
        r@ == colons_for_spaces(s@),
{
    let n: usize = s.unicode_len();
    let mut out = String::new();
    let mut i: usize = 0;
    assert(out@ =~= colons_for_spaces(s@).take(0));
    while i < n
        invariant
            n == s@.len(),
            i <= n,
            out@ == colons_for_spaces(s@).take(i as int),
        decreases n - i,
    {
        if s.get_char(i) == ' ' {
            proof {
                reveal_strlit(":");
            }
            out.append(":");
            assert(":"@ =~= seq![':']);
        } else {
            let one = s.substring_char(i, i + 1);
            assert(one@ =~= seq![s@[i as int]]);
            out.append(one);
        }
        assert(out@ =~= colons_for_spaces(s@).take(i + 1));
        i += 1;
    }
    assert(colons_for_spaces(s@).take(n as int) =~= colons_for_spaces(s@));
    out
}

} // verus!
