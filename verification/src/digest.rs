//! SHA-256 digests and the framing of the fields that are hashed.

use sha2::{Digest, Sha256};
use vstd::bytes::*;
use vstd::prelude::*;
use vstd::string::*;
use vstd::utf8::*;

verus! {

/// The SHA-256 digest of some bytes, written as lower-case hexadecimal digits.
pub uninterp spec fn sha256(bytes: Seq<u8>) -> Seq<char>;

/// A lower-case hexadecimal digit.
pub open spec fn is_lower_hex(c: char) -> bool {
    ('0' <= c && c <= '9') || ('a' <= c && c <= 'f')
}

/// A hexadecimal digit of either case.
pub open spec fn is_hex(c: char) -> bool {
    is_lower_hex(c) || ('A' <= c && c <= 'F')
}

/// Sixty-four hexadecimal digits.
pub open spec fn is_digest(s: Seq<char>) -> bool {
    &&& s.len() == 64
    &&& forall|i: int| 0 <= i < s.len() ==> is_hex(#[trigger] s[i])
}

/// `sha2::Sha256::digest`, formatted by the `LowerHex` of the array that it returns: the result
/// is a function of the bytes, and it is two lower-case digits for each of its 32 bytes.
#[verifier::external_body]
pub(crate) fn sha256_hex(bytes: &[u8]) -> (r: String)
    ensures
        r@ == sha256(bytes@),
        r@.len() == 64,
        forall|i: int| 0 <= i < r@.len() ==> is_lower_hex(#[trigger] r@[i]),
{
    format!("{:x}", Sha256::digest(bytes))
}

/// Tells whether a character is a hexadecimal digit.
pub fn hex(c: char) -> (r: bool)
    ensures
        r == is_hex(c),
{
    ('0' <= c && c <= '9') || ('a' <= c && c <= 'f') || ('A' <= c && c <= 'F')
}

/// Tells whether the characters from `from` on are sixty-four hexadecimal digits.
fn digest_from(chars: &Vec<char>, from: usize) -> (r: bool)
    requires
        from <= chars@.len(),
    ensures
        r == is_digest(chars@.skip(from as int)),
{
    if chars.len() - from != 64 {
        return false;
    }
    let mut i: usize = from;
    while i < chars.len()
        invariant
            from <= i <= chars@.len(),
            forall|j: int| from <= j < i ==> is_hex(#[trigger] chars@[j]),
        decreases chars@.len() - i,
    {
        if !hex(chars[i]) {
            assert(chars@.skip(from as int)[i - from] == chars@[i as int]);
            return false;
        }
        i += 1;
    }
    assert forall|j: int| 0 <= j < chars@.skip(from as int).len() implies is_hex(
        #[trigger] chars@.skip(from as int)[j],
    ) by {
        assert(chars@.skip(from as int)[j] == chars@[from + j]);
    }
    true
}

/// Tells whether a text is sixty-four hexadecimal digits.
pub fn digest_text(value: &str) -> (r: bool)
    ensures
        r == is_digest(value@),
{
    let chars = crate::text::chars_of(value);
    assert(chars@.skip(0) == value@);
    digest_from(&chars, 0)
}

/// A prefix followed by a digest.
pub open spec fn is_hash_id(value: Seq<char>, prefix: Seq<char>) -> bool {
    &&& prefix.is_prefix_of(value)
    &&& is_digest(value.skip(prefix.len() as int))
}

/// Tells whether a text is the prefix followed by a digest.
pub fn hash_id(value: &str, prefix: &str) -> (r: bool)
    ensures
        r == is_hash_id(value@, prefix@),
{
    if !crate::text::has_prefix(value, prefix) {
        return false;
    }
    let chars = crate::text::chars_of(value);
    let start: usize = crate::text::chars_of(prefix).len();
    digest_from(&chars, start)
}

/// The length of a field as eight little-endian bytes, and then the field.
pub open spec fn framed(field: Seq<u8>) -> Seq<u8> {
    spec_u64_to_le_bytes(field.len() as u64) + field
}

/// The UTF-8 bytes of a text, framed.
pub open spec fn framed_text(field: Seq<char>) -> Seq<u8> {
    framed(encode_utf8(field))
}

/// Appends bytes to a buffer.
pub fn push_bytes(buffer: &mut Vec<u8>, bytes: &[u8])
    ensures
        final(buffer)@ == old(buffer)@ + bytes@,
{
    let mut i: usize = 0;
    assert(old(buffer)@ + bytes@.take(0) == old(buffer)@);
    while i < bytes.len()
        invariant
            i <= bytes@.len(),
            buffer@ == old(buffer)@ + bytes@.take(i as int),
        decreases bytes@.len() - i,
    {
        buffer.push(bytes[i]);
        i += 1;
        assert(bytes@.take(i as int) == bytes@.take(i - 1).push(bytes@[i - 1]));
    }
    assert(bytes@.take(bytes@.len() as int) == bytes@);
}

/// Appends the bytes of a text to a buffer.
pub fn push_text(buffer: &mut Vec<u8>, text: &str)
    ensures
        final(buffer)@ == old(buffer)@ + encode_utf8(text@),
{
    push_bytes(buffer, text.as_bytes());
}

/// Appends a number as eight little-endian bytes.
pub fn push_number(buffer: &mut Vec<u8>, number: u64)
    ensures
        final(buffer)@ == old(buffer)@ + spec_u64_to_le_bytes(number),
{
    let bytes = u64_to_le_bytes(number);
    push_bytes(buffer, &bytes);
}

/// Appends a framed field to a buffer.
pub fn push_framed(buffer: &mut Vec<u8>, field: &[u8])
    ensures
        final(buffer)@ == old(buffer)@ + framed(field@),
{
    push_number(buffer, field.len() as u64);
    push_bytes(buffer, field);
    assert(buffer@ == old(buffer)@ + framed(field@));
}

/// Appends a framed text to a buffer.
pub fn push_framed_text(buffer: &mut Vec<u8>, text: &str)
    ensures
        final(buffer)@ == old(buffer)@ + framed_text(text@),
{
    push_framed(buffer, text.as_bytes());
}

/// What follows a framed field does not change where the field ends: equal framings have equal
/// fields and equal rests.
pub proof fn lemma_framed_unique(a: Seq<u8>, rest_a: Seq<u8>, b: Seq<u8>, rest_b: Seq<u8>)
    requires
        a.len() <= u64::MAX,
        b.len() <= u64::MAX,
        framed(a) + rest_a == framed(b) + rest_b,
    ensures
        a == b,
        rest_a == rest_b,
{
    lemma_auto_spec_u64_to_from_le_bytes();
    let x = framed(a) + rest_a;
    let y = framed(b) + rest_b;
    let p = spec_u64_to_le_bytes(a.len() as u64);
    let q = spec_u64_to_le_bytes(b.len() as u64);
    assert(x.take(8) == p);
    assert(y.take(8) == q);
    assert(spec_u64_from_le_bytes(p) == a.len() as u64);
    assert(spec_u64_from_le_bytes(q) == b.len() as u64);
    assert(a.len() == b.len());
    assert(x.subrange(8, 8int + a.len()) == a);
    assert(y.subrange(8, 8int + b.len()) == b);
    assert(x.skip(8int + a.len()) == rest_a);
    assert(y.skip(8int + b.len()) == rest_b);
}

/// Texts with equal UTF-8 bytes are equal.
pub proof fn lemma_utf8_unique(a: Seq<char>, b: Seq<char>)
    requires
        encode_utf8(a) == encode_utf8(b),
    ensures
        a == b,
{
    encode_utf8_decode_utf8(a);
    encode_utf8_decode_utf8(b);
}

} // verus!
