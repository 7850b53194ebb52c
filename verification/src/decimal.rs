//! Decimal numerals: how numbers are written as ASCII digits and read back.

use vstd::prelude::*;

verus! {

/// The sign `+`.
pub const PLUS: u8 = 43;

/// The sign `-`.
pub const MINUS: u8 = 45;

/// The digit `0`.
pub const ZERO: u8 = 48;

/// The digit `9`.
pub const NINE: u8 = 57;

/// The ASCII digit for `d`, which is below ten.
pub open spec fn digit(d: nat) -> u8 {
    (ZERO + d) as u8
}

/// Whether `b` is one of the ASCII digits `0` to `9`.
pub open spec fn is_digit(b: u8) -> bool {
    ZERO <= b <= NINE
}

/// The decimal numeral of `n`: no sign, no leading zero, `0` for zero.
pub open spec fn dec_digits(n: nat) -> Seq<u8>
    decreases n,
{
    if n < 10 {
        seq![digit(n)]
    } else {
        dec_digits(n / 10).push(digit(n % 10))
    }
}

/// The decimal numeral of `i`, with a leading `-` when it is negative.
pub open spec fn dec_int(i: int) -> Seq<u8> {
    if i < 0 {
        seq![MINUS] + dec_digits((-i) as nat)
    } else {
        dec_digits(i as nat)
    }
}

/// Whether every byte of `s` is an ASCII digit.
pub open spec fn all_digits(s: Seq<u8>) -> bool {
    forall|i: int| 0 <= i < s.len() ==> is_digit(#[trigger] s[i])
}

/// The number that a run of ASCII digits denotes in base ten; leading zeros
/// count for nothing, and the empty run denotes zero.
pub open spec fn digits_value(s: Seq<u8>) -> nat
    decreases s.len(),
{
    if s.len() == 0 {
        0
    } else {
        digits_value(s.drop_last()) * 10 + (s.last() - ZERO) as nat
    }
}

/// The digits of a numeral: what follows its sign, or all of it.
pub open spec fn unsigned_part(s: Seq<u8>, minus_too: bool) -> Seq<u8> {
    if s.len() > 0 && (s[0] == PLUS || (minus_too && s[0] == MINUS)) {
        s.skip(1)
    } else {
        s
    }
}

/// Reads an unsigned decimal numeral: an optional `+`, then one digit or
/// more, denoting a number no greater than `max`.
pub open spec fn parse_unsigned(s: Seq<u8>, max: nat) -> Option<nat> {
    let d = unsigned_part(s, false);
    if d.len() > 0 && all_digits(d) && digits_value(d) <= max {
        Some(digits_value(d))
    } else {
        None
    }
}

/// Reads a signed decimal numeral: an optional `+` or `-`, then one digit or
/// more, denoting a number from `min` to `max`.
pub open spec fn parse_signed(s: Seq<u8>, min: int, max: int) -> Option<int> {
    let d = unsigned_part(s, true);
    let v = if s.len() > 0 && s[0] == MINUS {
        -(digits_value(d) as int)
    } else {
        digits_value(d) as int
    };
    if d.len() > 0 && all_digits(d) && min <= v <= max {
        Some(v)
    } else {
        None
    }
}

/// A numeral is made of digits, at least one, and never starts with a sign.
pub proof fn lemma_dec_digits_shape(n: nat)
    ensures
        dec_digits(n).len() >= 1,
        all_digits(dec_digits(n)),
        is_digit(dec_digits(n).last()),
        is_digit(dec_digits(n)[0]),
    decreases n,
{
    if n >= 10 {
        lemma_dec_digits_shape(n / 10);
        let head = dec_digits(n / 10);
        assert(dec_digits(n) == head.push(digit(n % 10)));
        assert(dec_digits(n)[0] == head[0]);
    }
}

/// Reading a numeral back gives the number it was written for.
pub proof fn lemma_digits_value_of_dec(n: nat)
    ensures
        digits_value(dec_digits(n)) == n,
    decreases n,
{
    if n < 10 {
        let s = dec_digits(n);
        assert(s.drop_last().len() == 0);
        assert(digits_value(s.drop_last()) == 0);
    } else {
        lemma_digits_value_of_dec(n / 10);
        let head = dec_digits(n / 10);
        let s = head.push(digit(n % 10));
        assert(s.drop_last() =~= head);
    }
}

/// A prefix of a run of digits denotes no more than the whole run.
pub proof fn lemma_digits_value_prefix(s: Seq<u8>, k: int)
    requires
        all_digits(s),
        0 <= k <= s.len(),
    ensures
        digits_value(s.take(k)) <= digits_value(s),
    decreases s.len() - k,
{
    if k < s.len() {
        lemma_digits_value_prefix(s, k + 1);
        assert(s.take(k + 1).drop_last() =~= s.take(k));
        assert(is_digit(s[k]));
    } else {
        assert(s.take(k) =~= s);
    }
}

/// An unsigned numeral reads back as its number.
pub proof fn lemma_parse_unsigned_of_dec(n: nat, max: nat)
    requires
        n <= max,
    ensures
        parse_unsigned(dec_digits(n), max) == Some(n),
{
    lemma_dec_digits_shape(n);
    lemma_digits_value_of_dec(n);
}

/// A signed numeral reads back as its number.
pub proof fn lemma_parse_signed_of_dec(i: int, min: int, max: int)
    requires
        min <= i <= max,
    ensures
        parse_signed(dec_int(i), min, max) == Some(i),
{
    if i < 0 {
        let m = (-i) as nat;
        lemma_dec_digits_shape(m);
        lemma_digits_value_of_dec(m);
        assert(dec_int(i).skip(1) =~= dec_digits(m));
    } else {
        lemma_dec_digits_shape(i as nat);
        lemma_digits_value_of_dec(i as nat);
    }
}

/// Ten to the power of `k`.
pub open spec fn pow10(k: nat) -> nat
    decreases k,
{
    if k == 0 {
        1
    } else {
        10 * pow10((k - 1) as nat)
    }
}

/// A number below ten to the power of `k` has a numeral of `k` digits at
/// most.
pub proof fn lemma_dec_digits_len(n: nat, k: nat)
    requires
        k >= 1,
        n < pow10(k),
    ensures
        dec_digits(n).len() <= k,
    decreases k,
{
    if n >= 10 {
        assert(pow10(1) == 10) by {
            assert(pow10(0) == 1);
        }
        lemma_dec_digits_len(n / 10, (k - 1) as nat);
    }
}

/// The numeral of a 64-bit number has twenty digits at most.
pub proof fn lemma_dec_digits_u64(n: nat)
    requires
        n <= u64::MAX,
    ensures
        dec_digits(n).len() <= 20,
{
    assert(pow10(0) == 1);
    assert(pow10(1) == 10);
    assert(pow10(2) == 100);
    assert(pow10(3) == 1000);
    assert(pow10(4) == 10000);
    assert(pow10(5) == 100000);
    assert(pow10(6) == 1000000);
    assert(pow10(7) == 10000000);
    assert(pow10(8) == 100000000);
    assert(pow10(9) == 1000000000);
    assert(pow10(10) == 10000000000);
    assert(pow10(11) == 100000000000);
    assert(pow10(12) == 1000000000000);
    assert(pow10(13) == 10000000000000);
    assert(pow10(14) == 100000000000000);
    assert(pow10(15) == 1000000000000000);
    assert(pow10(16) == 10000000000000000);
    assert(pow10(17) == 100000000000000000);
    assert(pow10(18) == 1000000000000000000);
    assert(pow10(19) == 10000000000000000000);
    assert(pow10(20) == 100000000000000000000);
    lemma_dec_digits_len(n, 20);
}

/// Appends the decimal numeral of `n` to `out`.
pub fn push_u64(out: &mut Vec<u8>, n: u64)
    ensures
        final(out)@ == old(out)@ + dec_digits(n as nat),
    decreases n,
{
    if n >= 10 {
        push_u64(out, n / 10);
    }
    let d: u64 = n % 10;
    out.push(ZERO + d as u8);
    assert(out@ =~= old(out)@ + dec_digits(n as nat));
}

/// Appends the decimal numeral of `n` to `out`.
pub fn push_usize(out: &mut Vec<u8>, n: usize)
    ensures
        final(out)@ == old(out)@ + dec_digits(n as nat),
{
    push_u64(out, n as u64);
}

/// Appends the decimal numeral of `i` to `out`, with `-` before a negative
/// one.
pub fn push_i64(out: &mut Vec<u8>, i: i64)
    ensures
        final(out)@ == old(out)@ + dec_int(i as int),
{
    if i < 0 {
        out.push(MINUS);
        let below: u64 = (-(i + 1)) as u64;
        push_u64(out, below + 1);
        assert(out@ =~= old(out)@ + dec_int(i as int));
    } else {
        push_u64(out, i as u64);
    }
}

/// Reads the run of digits `s[from..]` as a number no greater than `max`.
fn read_digits(s: &[u8], from: usize, max: u64) -> (r: Option<u64>)
    requires
        from <= s.len(),
    ensures
        r matches Some(v) ==> {
            &&& all_digits(s@.skip(from as int))
            &&& digits_value(s@.skip(from as int)) == v
            &&& v <= max
        },
        r is None ==> !all_digits(s@.skip(from as int)) || digits_value(s@.skip(from as int))
            > max,
{
    let ghost d = s@.skip(from as int);
    let mut acc: u64 = 0;
    let mut i: usize = from;
    assert(d.take(0).len() == 0);
    while i < s.len()
        invariant
            from <= i <= s.len(),
            d == s@.skip(from as int),
            all_digits(d.take(i - from)),
            acc == digits_value(d.take(i - from)),
            acc <= max,
        decreases s.len() - i,
    {
        let b: u8 = s[i];
        assert(d[i - from] == b);
        if b < ZERO || b > NINE {
            return None;
        }
        let v: u64 = (b - ZERO) as u64;
        proof {
            assert(d.take(i - from + 1).drop_last() =~= d.take(i - from));
            assert(d.take(i - from + 1).last() == b);
            assert(digits_value(d.take(i - from + 1)) == acc * 10 + v);
            assert forall|j: int| 0 <= j < d.take(i - from + 1).len() implies is_digit(
                #[trigger] d.take(i - from + 1)[j],
            ) by {
                if j < i - from {
                    assert(d.take(i - from + 1)[j] == d.take(i - from)[j]);
                }
            }
            if acc * 10 + v > max {
                if all_digits(d) {
                    lemma_digits_value_prefix(d, i - from + 1);
                }
            }
        }
        if v > max || acc > (max - v) / 10 {
            return None;
        }
        acc = acc * 10 + v;
        i += 1;
    }
    assert(d.take(i - from) =~= d);
    Some(acc)
}

/// Reads an unsigned decimal numeral no greater than `max`.
pub fn read_unsigned(s: &[u8], max: u64) -> (r: Option<u64>)
    ensures
        r matches Some(v) ==> parse_unsigned(s@, max as nat) == Some(v as nat),
        r is None ==> parse_unsigned(s@, max as nat) is None,
{
    let from: usize = if s.len() > 0 && s[0] == PLUS {
        1
    } else {
        0
    };
    assert(unsigned_part(s@, false) =~= s@.skip(from as int));
    if from == s.len() {
        return None;
    }
    read_digits(s, from, max)
}

/// Reads a signed decimal numeral that fits an `i64`.
pub fn read_i64(s: &[u8]) -> (r: Option<i64>)
    ensures
        r matches Some(v) ==> parse_signed(s@, i64::MIN as int, i64::MAX as int) == Some(v as int),
        r is None ==> parse_signed(s@, i64::MIN as int, i64::MAX as int) is None,
{
    let negative: bool = s.len() > 0 && s[0] == MINUS;
    let from: usize = if s.len() > 0 && (s[0] == PLUS || s[0] == MINUS) {
        1
    } else {
        0
    };
    assert(unsigned_part(s@, true) =~= s@.skip(from as int));
    if from == s.len() {
        return None;
    }
    if negative {
        match read_digits(s, from, 0x8000_0000_0000_0000) {
            Some(m) => {
                if m == 0x8000_0000_0000_0000 {
                    Some(i64::MIN)
                } else {
                    Some(-(m as i64))
                }
            },
            None => None,
        }
    } else {
        match read_digits(s, from, 0x7fff_ffff_ffff_ffff) {
            Some(m) => Some(m as i64),
            None => None,
        }
    }
}

} // verus!
