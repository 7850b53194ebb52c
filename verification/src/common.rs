//! Strings of bytes, and what ties bytes to texts.

use std::string::FromUtf8Error;
use vstd::prelude::*;
use vstd::slice::slice_to_vec;
use vstd::string::StringSliceAdditionalSpecFns;
use vstd::utf8::*;

verus! {

/// `std::string::FromUtf8Error`, carried through unopened.
#[verifier::external_type_specification]
#[verifier::external_body]
pub struct ExFromUtf8Error(FromUtf8Error);

/// `String::from_utf8` succeeds exactly on well-formed UTF-8, and the string
/// it then returns is made of the very bytes it was given.
pub assume_specification[ String::from_utf8 ](vec: Vec<u8>) -> (r: Result<String, FromUtf8Error>)
    ensures
        r is Ok <==> valid_utf8(vec@),
        r is Ok ==> encode_utf8(r->Ok_0@) == vec@,
;

/// The bytes are not well-formed UTF-8.
#[derive(Clone, Copy, Debug, PartialEq, Eq, Structural)]
pub struct InvalidUtf8;

/// The UTF-8 bytes of a string slice.
pub open spec fn text(s: &str) -> Seq<u8> {
    s.spec_bytes()
}

/// Whether every byte of `b` is an ASCII character.
pub open spec fn is_ascii_bytes(b: Seq<u8>) -> bool {
    forall|i: int| 0 <= i < b.len() ==> #[trigger] b[i] < 128
}

/// The characters that ASCII bytes stand for, one for one.
pub open spec fn ascii_chars(b: Seq<u8>) -> Seq<char> {
    Seq::new(b.len(), |i: int| b[i] as char)
}

/// ASCII bytes are well-formed UTF-8, and are the UTF-8 form of the
/// characters that they stand for.
pub proof fn lemma_ascii_is_utf8(b: Seq<u8>)
    requires
        is_ascii_bytes(b),
    ensures
        valid_utf8(b),
        decode_utf8(b) == ascii_chars(b),
        encode_utf8(ascii_chars(b)) == b,
{
    let c = ascii_chars(b);
    assert forall|i: int| 0 <= i < c.len() implies '\0' <= #[trigger] c[i] <= '\u{7f}' by {
        assert(b[i] < 128);
    }
    assert(is_ascii_chars(c));
    is_ascii_chars_encode_utf8(c);
    assert forall|i: int| 0 <= i < b.len() implies encode_utf8(c)[i] == b[i] by {
        assert(c[i] as u8 == encode_utf8(c)[i]);
        assert(b[i] < 128);
    }
    assert(encode_utf8(c) =~= b);
    encode_utf8_valid_utf8(c);
    encode_utf8_decode_utf8(c);
}

/// Whether two byte slices hold the same bytes.
pub fn bytes_eq(a: &[u8], b: &[u8]) -> (same: bool)
    ensures
        same == (a@ == b@),
{
    if a.len() != b.len() {
        return false;
    }
    let mut i: usize = 0;
    while i < a.len()
        invariant
            a.len() == b.len(),
            i <= a.len(),
            a@.take(i as int) == b@.take(i as int),
        decreases a.len() - i,
    {
        if a[i] != b[i] {
            return false;
        }
        assert(a@.take(i + 1) =~= a@.take(i as int).push(a@[i as int]));
        assert(b@.take(i + 1) =~= b@.take(i as int).push(b@[i as int]));
        i += 1;
    }
    assert(a@ =~= a@.take(i as int));
    assert(b@ =~= b@.take(i as int));
    true
}

/// Appends every byte of `src` to `dst`.
pub fn append_bytes(dst: &mut Vec<u8>, src: &[u8])
    ensures
        final(dst)@ == old(dst)@ + src@,
{
    let mut i: usize = 0;
    while i < src.len()
        invariant
            i <= src.len(),
            dst@ == old(dst)@ + src@.take(i as int),
        decreases src.len() - i,
    {
        dst.push(src[i]);
        assert(src@.take(i + 1) =~= src@.take(i as int).push(src@[i as int]));
        assert(dst@ =~= old(dst)@ + src@.take(i + 1));
        i += 1;
    }
    assert(src@ =~= src@.take(i as int));
}

/// An owned string of raw bytes, as carried by the wire protocol.
#[derive(Debug, PartialEq, Eq, Hash)]
pub struct Bytes(Vec<u8>);

impl View for Bytes {
    type V = Seq<u8>;

    closed spec fn view(&self) -> Seq<u8> {
        self.0@
    }
}

impl Clone for Bytes {
    fn clone(&self) -> (r: Bytes)
        ensures
            r@ == self@,
    {
        Bytes(self.0.clone())
    }
}

impl Bytes {
    /// Wraps a vector of bytes.
    pub fn from_vec(v: Vec<u8>) -> (r: Bytes)
        ensures
            r@ == v@,
    {
        Bytes(v)
    }

    /// Copies a slice of bytes.
    pub fn from_slice(v: &[u8]) -> (r: Bytes)
        ensures
            r@ == v@,
    {
        Bytes(slice_to_vec(v))
    }

    /// Copies the UTF-8 bytes of a string slice.
    pub fn from_text(s: &str) -> (r: Bytes)
        ensures
            r@ == text(s),
    {
        Bytes(slice_to_vec(s.as_bytes()))
    }

    /// Number of bytes held.
    pub fn len(&self) -> (n: usize)
        ensures
            n == self@.len(),
    {
        self.0.len()
    }

    /// Whether no byte is held.
    pub fn is_empty(&self) -> (b: bool)
        ensures
            b == (self@.len() == 0),
    {
        self.0.len() == 0
    }

    /// The bytes, as a slice.
    pub fn as_bytes(&self) -> (r: &[u8])
        ensures
            r@ == self@,
    {
        self.0.as_slice()
    }

    /// The bytes, as the vector that holds them.
    pub fn as_vec(&self) -> (r: &Vec<u8>)
        ensures
            r@ == self@,
    {
        &self.0
    }

    /// The bytes read as UTF-8 text; fails exactly when they are not
    /// well-formed UTF-8.
    pub fn to_string(&self) -> (r: Result<String, InvalidUtf8>)
        ensures
            r is Ok <==> valid_utf8(self@),
            r is Ok ==> r->Ok_0@ == decode_utf8(self@),
            r is Ok ==> encode_utf8(r->Ok_0@) == self@,
    {
        match String::from_utf8(self.0.clone()) {
            Ok(s) => {
                proof {
                    encode_utf8_decode_utf8(s@);
                }
                Ok(s)
            },
            Err(_) => Err(InvalidUtf8),
        }
    }

    /// Gives up the vector that holds the bytes.
    pub fn into_inner(self) -> (r: Vec<u8>)
        ensures
            r@ == self@,
    {
        self.0
    }

    /// Whether `self` and `other` hold the same bytes.
    pub fn same_as(&self, other: &Bytes) -> (same: bool)
        ensures
            same == (self@ == other@),
    {
        bytes_eq(self.0.as_slice(), other.0.as_slice())
    }

    /// Whether the bytes are the UTF-8 bytes of `s`.
    pub fn is_text(&self, s: &str) -> (same: bool)
        ensures
            same == (self@ == text(s)),
    {
        bytes_eq(self.0.as_slice(), s.as_bytes())
    }
}

impl From<Vec<u8>> for Bytes {
    fn from(v: Vec<u8>) -> (r: Bytes)
        ensures
            r@ == v@,
    {
        Bytes(v)
    }
}

impl vstd::std_specs::convert::FromSpecImpl<Vec<u8>> for Bytes {
    open spec fn obeys_from_spec() -> bool {
        true
    }

    closed spec fn from_spec(v: Vec<u8>) -> Bytes {
        Bytes(v)
    }
}

impl From<&[u8]> for Bytes {
    fn from(v: &[u8]) -> (r: Bytes)
        ensures
            r@ == v@,
    {
        Bytes(slice_to_vec(v))
    }
}

impl vstd::std_specs::convert::FromSpecImpl<&[u8]> for Bytes {
    open spec fn obeys_from_spec() -> bool {
        false
    }

    closed spec fn from_spec(v: &[u8]) -> Bytes {
        arbitrary()
    }
}

impl From<&str> for Bytes {
    fn from(s: &str) -> (r: Bytes)
        ensures
            r@ == text(s),
    {
        Bytes(slice_to_vec(s.as_bytes()))
    }
}

impl vstd::std_specs::convert::FromSpecImpl<&str> for Bytes {
    open spec fn obeys_from_spec() -> bool {
        false
    }

    closed spec fn from_spec(s: &str) -> Bytes {
        arbitrary()
    }
}

} // verus!
