//! Outbound control frames and the per-session correlation identifier.
//!
//! A session sends exactly two text frames: first the configuration frame
//! (content type and `Path:speech.config`, with a fixed JSON body naming the
//! requested output format and the two boundary-event toggles), then the
//! content frame (the correlation identifier, an SSML content type and
//! `Path:ssml`, with the caller's markup as body).

use vstd::prelude::*;
use vstd::string::StringExecFns;
use rand::Rng;

verus! {

/// The lowercase hexadecimal digit for a nibble value.
pub open spec fn hex_digit(n: int) -> char {
    if n == 0 {
        '0'
    } else if n == 1 {
        '1'
    } else if n == 2 {
        '2'
    } else if n == 3 {
        '3'
    } else if n == 4 {
        '4'
    } else if n == 5 {
        '5'
    } else if n == 6 {
        '6'
    } else if n == 7 {
        '7'
    } else if n == 8 {
        '8'
    } else if n == 9 {
        '9'
    } else if n == 10 {
        'a'
    } else if n == 11 {
        'b'
    } else if n == 12 {
        'c'
    } else if n == 13 {
        'd'
    } else if n == 14 {
        'e'
    } else {
        'f'
    }
}

/// The lowercase hexadecimal rendering of a byte sequence: two digits per
/// byte, high nibble first.
pub open spec fn hex_of(bs: Seq<u8>) -> Seq<char>
    decreases bs.len(),
{
    if bs.len() == 0 {
        Seq::empty()
    } else {
        seq![hex_digit(bs[0] as int / 16), hex_digit(bs[0] as int % 16)] + hex_of(
            bs.subrange(1, bs.len() as int),
        )
    }
}

/// A character that `hex_of` can produce.
pub open spec fn is_lower_hex_char(c: char) -> bool {
    exists|n: int| 0 <= n < 16 && c == hex_digit(n)
}

/// The rendering of `bs` has two digits per byte, all lowercase
/// hexadecimal.
pub proof fn lemma_hex_of_props(bs: Seq<u8>)
    ensures
        hex_of(bs).len() == 2 * bs.len(),
        forall|i: int| 0 <= i < hex_of(bs).len() ==> is_lower_hex_char(#[trigger] hex_of(bs)[i]),
    decreases bs.len(),
{
    if bs.len() > 0 {
        lemma_hex_of_props(bs.subrange(1, bs.len() as int));
        assert forall|i: int| 0 <= i < hex_of(bs).len() implies is_lower_hex_char(
            #[trigger] hex_of(bs)[i],
        ) by {
            let hi = bs[0] as int / 16;
            let lo = bs[0] as int % 16;
            if i == 0 {
                assert(0 <= hi < 16);
                assert(hex_of(bs)[0] == hex_digit(hi));
            } else if i == 1 {
                assert(0 <= lo < 16);
                assert(hex_of(bs)[1] == hex_digit(lo));
            } else {
                assert(hex_of(bs)[i] == hex_of(bs.subrange(1, bs.len() as int))[i - 2]);
            }
        }
    }
}

/// Relies on `rand::rng` and `rand::Rng::fill_bytes` to draw the random
/// bytes; nothing is assumed of the values drawn.
#[verifier::external_body]
fn random_bytes() -> [u8; 16] {
    let mut buf = [0u8; 16];
    rand::rng().fill_bytes(&mut buf);
    buf
}

/// Relies on `hex::encode`: two lowercase hexadecimal digits per byte, high
/// nibble first.
#[verifier::external_body]
fn hex_encode_bytes(b: &[u8; 16]) -> (r: String)
    ensures
        r@ == hex_of(b@),
{
    hex::encode(b)
}

/// A fresh correlation identifier: 16 random bytes rendered as 32 lowercase
/// hexadecimal characters.
pub fn random_request_id() -> (r: String)
    ensures
        r@.len() == 32,
        forall|i: int| 0 <= i < r@.len() ==> is_lower_hex_char(#[trigger] r@[i]),
        exists|bs: Seq<u8>| bs.len() == 16 && r@ == hex_of(bs),
{
    let buf = random_bytes();
    let id = hex_encode_bytes(&buf);
    proof {
        lemma_hex_of_props(buf@);
        assert(buf@.len() == 16 && id@ == hex_of(buf@));
    }
    id
}

/// What the configuration frame for an output format says on the wire.
pub open spec fn config_message_of(format: Seq<char>) -> Seq<char> {
    "Content-Type:application/json; charset=utf-8\r\nPath:speech.config\r\n\r\n{\"context\":{\"synthesis\":{\"audio\":{\"metadataoptions\":{\"sentenceBoundaryEnabled\":false,\"wordBoundaryEnabled\":true},\"outputFormat\":\""@
        + format + "\"}}}}"@
}

/// What the content frame for an identifier and a markup body says on the
/// wire.
pub open spec fn content_message_of(id: Seq<char>, ssml: Seq<char>) -> Seq<char> {
    "X-RequestId:"@ + id + "\r\nContent-Type:application/ssml+xml\r\nPath:ssml\r\n\r\n"@ + ssml
}

/// Build the configuration frame: content type and `Path:speech.config` in
/// the header block, and a JSON body that requests `output_format` and
/// fixes the two boundary-event toggles (sentence boundaries off, word
/// boundaries on).
pub fn config_message(output_format: &str) -> (r: String)
    ensures
        r@ == config_message_of(output_format@),
{
    let mut m = String::from_str(
        "Content-Type:application/json; charset=utf-8\r\nPath:speech.config\r\n\r\n{\"context\":{\"synthesis\":{\"audio\":{\"metadataoptions\":{\"sentenceBoundaryEnabled\":false,\"wordBoundaryEnabled\":true},\"outputFormat\":\"",
    );
    m.append(output_format);
    m.append("\"}}}}");
    m
}

/// Build the content frame: the session's correlation identifier, an SSML
/// content type and `Path:ssml` in the header block, and the caller's
/// markup as body.
pub fn content_message(request_id: &str, ssml: &str) -> (r: String)
    ensures
        r@ == content_message_of(request_id@, ssml@),
{
    let mut m = String::from_str("X-RequestId:");
    m.append(request_id);
    m.append("\r\nContent-Type:application/ssml+xml\r\nPath:ssml\r\n\r\n");
    m.append(ssml);
    m
}

} // verus!
