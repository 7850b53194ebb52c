//! Bytes shown as readable text.

use vstd::prelude::*;
use vstd::utf8::*;

use crate::common::{ascii_chars, is_ascii_bytes, lemma_ascii_is_utf8, Bytes};
use crate::misc_util::hex_digit;

verus! {

/// How one byte is shown: a printable ASCII character as it is, a zero
/// byte as `[^A]`, every other byte as `[0x` and its two hexadecimal digits
/// and `]`. A carriage return and a line feed are shown as they are, or,
/// where `escape` is set, as a backslash and `r` or `n`.
pub open spec fn shown(b: u8, escape: bool) -> Seq<u8> {
    if b == 10 && escape {
        seq![92u8, 110u8]
    } else if b == 13 && escape {
        seq![92u8, 114u8]
    } else if b == 10 || b == 13 || 32 <= b <= 127 {
        seq![b]
    } else if b == 0 {
        seq![91u8, 94u8, 65u8, 93u8]
    } else {
        seq![91u8, 48u8, 120u8, hex_digit((b / 16) as nat), hex_digit((b % 16) as nat), 93u8]
    }
}

/// How a run of bytes is shown: byte after byte.
pub open spec fn shown_all(bytes: Seq<u8>, escape: bool) -> Seq<u8>
    decreases bytes.len(),
{
    if bytes.len() == 0 {
        Seq::empty()
    } else {
        shown_all(bytes.drop_last(), escape) + shown(bytes.last(), escape)
    }
}

/// What is shown is made of ASCII characters.
proof fn lemma_shown_all_ascii(bytes: Seq<u8>, escape: bool)
    ensures
        is_ascii_bytes(shown_all(bytes, escape)),
    decreases bytes.len(),
{
    if bytes.len() > 0 {
        lemma_shown_all_ascii(bytes.drop_last(), escape);
        let head = shown_all(bytes.drop_last(), escape);
        let tail = shown(bytes.last(), escape);
        assert forall|i: int| 0 <= i < shown_all(bytes, escape).len() implies #[trigger] shown_all(
            bytes,
            escape,
        )[i] < 128 by {
            if i < head.len() {
                assert(shown_all(bytes, escape)[i] == head[i]);
            } else {
                assert(shown_all(bytes, escape)[i] == tail[i - head.len()]);
            }
        }
    }
}

/// The hexadecimal digit for `d`.
fn hex_char(d: u8) -> (c: u8)
    requires
        d < 16,
    ensures
        c == hex_digit(d as nat),
{
    if d < 10 {
        48 + d
    } else {
        87 + d
    }
}

/// A text that shows `bytes`, with line ends escaped or not.
fn show(bytes: &[u8], escape: bool) -> (r: String)
    ensures
        r@ == ascii_chars(shown_all(bytes@, escape)),
{
    let mut ret: Vec<u8> = Vec::new();
    let mut i: usize = 0;
    assert(bytes@.take(0) =~= Seq::<u8>::empty());
    while i < bytes.len()
        invariant
            i <= bytes.len(),
            ret@ == shown_all(bytes@.take(i as int), escape),
        decreases bytes.len() - i,
    {
        let byte: u8 = bytes[i];
        proof {
            assert(bytes@.take(i + 1).drop_last() =~= bytes@.take(i as int));
            assert(bytes@.take(i + 1).last() == byte);
        }
        if byte == 10 && escape {
            ret.push(92u8);
            ret.push(110u8);
        } else if byte == 13 && escape {
            ret.push(92u8);
            ret.push(114u8);
        } else if byte == 10 || byte == 13 || (32 <= byte && byte <= 127) {
            ret.push(byte);
        } else if byte == 0 {
            ret.push(91u8);
            ret.push(94u8);
            ret.push(65u8);
            ret.push(93u8);
        } else {
            ret.push(91u8);
            ret.push(48u8);
            ret.push(120u8);
            ret.push(hex_char(byte / 16));
            ret.push(hex_char(byte % 16));
            ret.push(93u8);
        }
        assert(ret@ =~= shown_all(bytes@.take(i as int), escape) + shown(byte, escape));
        i += 1;
    }
    proof {
        assert(bytes@.take(i as int) =~= bytes@);
        lemma_shown_all_ascii(bytes@, escape);
        lemma_ascii_is_utf8(ret@);
    }
    match String::from_utf8(ret) {
        Ok(s) => {
            proof {
                encode_utf8_decode_utf8(s@);
            }
            s
        },
        Err(_) => String::new(),
    }
}

/// A text that shows `bytes` in a readable way, line ends as they are.
pub fn format_bytes_dbg(bytes: &[u8]) -> (r: String)
    ensures
        r@ == ascii_chars(shown_all(bytes@, false)),
{
    show(bytes, false)
}

impl Bytes {
    /// A text that shows the bytes in a readable way on one line, line
    /// ends escaped.
    pub fn to_debug_string(&self) -> (r: String)
        ensures
            r@ == ascii_chars(shown_all(self@, true)),
    {
        show(self.as_bytes(), true)
    }
}

} // verus!
