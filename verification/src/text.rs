//! Text on the wire is UTF-8. Encoding borrows the bytes a string already
//! holds; decoding has to validate them first.

use vstd::prelude::*;
use vstd::slice::*;
use vstd::utf8::*;

verus! {

/// `String::from_utf8` of the standard library: it accepts exactly the byte
/// vectors that are well-formed UTF-8, and the string it returns holds the
/// very bytes it was given. Verus takes this on trust.
#[verifier::external_body]
fn string_from_utf8(bytes: Vec<u8>) -> (r: Option<String>)
    ensures
        r is Some <==> valid_utf8(bytes@),
        r matches Some(s) ==> encode_utf8(s@) == bytes@,
{
    String::from_utf8(bytes).ok()
}

/// The text that `bytes` spell, if they are well-formed UTF-8.
pub open spec fn read_text(bytes: Seq<u8>) -> Option<Seq<char>> {
    if valid_utf8(bytes) {
        Some(decode_utf8(bytes))
    } else {
        None
    }
}

/// The bytes of a text always read back as that text.
pub proof fn lemma_text_round_trip(chars: Seq<char>)
    ensures
        read_text(encode_utf8(chars)) == Some(chars),
{
    encode_utf8_valid_utf8(chars);
    encode_utf8_decode_utf8(chars);
}

/// Bytes that read as a text are the bytes of that text: no text has two
/// spellings.
pub proof fn lemma_text_canonical(bytes: Seq<u8>)
    requires
        read_text(bytes) is Some,
    ensures
        encode_utf8(read_text(bytes).unwrap()) == bytes,
{
    decode_utf8_encode_utf8(bytes);
}

/// The bytes of `s`, borrowed.
pub fn text_bytes(s: &String) -> (b: &[u8])
    ensures
        b@ == encode_utf8(s@),
{
    s.as_str().as_bytes()
}

/// Decodes `bytes` as text, refusing anything that is not well-formed UTF-8.
pub fn text_from_bytes(bytes: &[u8]) -> (r: Option<String>)
    ensures
        match r {
            Some(s) => read_text(bytes@) == Some(s@),
            None => read_text(bytes@) is None,
        },
{
    let owned: Vec<u8> = slice_to_vec(bytes);
    let r = string_from_utf8(owned);
    proof {
        if r is Some {
            encode_utf8_decode_utf8(r.unwrap()@);
        }
    }
    r
}

} // verus!
