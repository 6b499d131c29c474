//! Content hashes of files (SHA-1 in hexadecimal), the signature of a
//! file's size and time, and file contents as base64 text.
use vstd::prelude::*;
use sha1::Digest;
use base64::Engine;
use crate::text::{decimal, hex_digits, hex_fixed, push_chars, string_from_chars, u128_decimal, u64_decimal};

verus! {

/// The name of the SHA-1 digest of some bytes, as `sha1::Sha1` computes
/// it.
pub uninterp spec fn sha1_of(bytes: Seq<u8>) -> Seq<u8>;

/// Calls `<sha1::Sha1 as sha1::Digest>::digest`. The digest has the
/// 20 bytes of SHA-1's output size; its value is only named.
#[verifier::external_body]
fn sha1_digest(bytes: &[u8]) -> (r: Vec<u8>)
    ensures
        r@ == sha1_of(bytes@),
        r@.len() == 20,
{
    sha1::Sha1::digest(bytes).to_vec()
}

/// Each byte as two lower-case hexadecimal digits, as the `{:x}` format
/// renders a digest.
pub open spec fn hex_bytes(bytes: Seq<u8>) -> Seq<char>
    decreases bytes.len(),
{
    if bytes.len() == 0 {
        Seq::empty()
    } else {
        hex_bytes(bytes.drop_last()) + hex_digits(bytes.last() as nat, 2)
    }
}

/// Renders bytes in hexadecimal, two digits each.
pub fn bytes_hex(bytes: &[u8]) -> (out: String)
    ensures
        out@ == hex_bytes(bytes@),
{
    let mut out: Vec<char> = Vec::new();
    let mut i: usize = 0;
    while i < bytes.len()
        invariant
            i <= bytes@.len(),
            out@ == hex_bytes(bytes@.take(i as int)),
        decreases bytes@.len() - i,
    {
        proof {
            assert(bytes@.take(i + 1).drop_last() =~= bytes@.take(i as int));
        }
        let digits = hex_fixed(bytes[i] as u64, 2);
        push_chars(&mut out, digits.as_slice());
        i = i + 1;
    }
    assert(bytes@.take(bytes@.len() as int) =~= bytes@);
    string_from_chars(out.as_slice())
}

/// The hash a file is known by: the SHA-1 digest of its bytes in
/// hexadecimal.
pub fn content_hash(bytes: &[u8]) -> (h: String)
    ensures
        h@ == hex_bytes(sha1_of(bytes@)),
        h@.len() == 40,
{
    let digest = sha1_digest(bytes);
    proof {
        lemma_hex_bytes_len(digest@);
    }
    bytes_hex(digest.as_slice())
}

proof fn lemma_hex_digits_len(n: nat, width: nat)
    ensures
        hex_digits(n, width).len() == width,
    decreases width,
{
    if width > 0 {
        lemma_hex_digits_len(n / 16, (width - 1) as nat);
    }
}

proof fn lemma_hex_bytes_len(bytes: Seq<u8>)
    ensures
        hex_bytes(bytes).len() == 2 * bytes.len(),
    decreases bytes.len(),
{
    if bytes.len() > 0 {
        lemma_hex_bytes_len(bytes.drop_last());
        lemma_hex_digits_len(bytes.last() as nat, 2);
    }
}

/// The signature of a file: its length and its modification time in
/// milliseconds, as `{len}:{millis}`.
pub open spec fn signature_text(len: u64, modified_ms: u128) -> Seq<char> {
    decimal(len as nat) + seq![':'] + decimal(modified_ms as nat)
}

/// The signature of a file from its length and modification time.
pub fn file_signature(len: u64, modified_ms: u128) -> (s: String)
    ensures
        s@ == signature_text(len, modified_ms),
{
    let mut out = u64_decimal(len);
    out.push(':');
    let ms = u128_decimal(modified_ms);
    push_chars(&mut out, ms.as_slice());
    string_from_chars(out.as_slice())
}

/// The character standard base64 writes for a six-bit value: `A`–`Z`,
/// `a`–`z`, `0`–`9`, `+` and `/`.
pub open spec fn base64_digit(v: int) -> char {
    if v < 26 {
        (65 + v) as char
    } else if v < 52 {
        (71 + v) as char
    } else if v < 62 {
        (v - 4) as char
    } else if v == 62 {
        '+'
    } else {
        '/'
    }
}

/// Standard base64 with padding: each three bytes become four characters
/// of six bits each; a last one or two bytes become two or three
/// characters and `=` up to four.
pub open spec fn base64_text(bytes: Seq<u8>) -> Seq<char>
    decreases bytes.len(),
{
    if bytes.len() == 0 {
        Seq::empty()
    } else if bytes.len() == 1 {
        let n = bytes[0] as int * 65536;
        seq![base64_digit(n / 262144), base64_digit((n / 4096) % 64), '=', '=']
    } else if bytes.len() == 2 {
        let n = bytes[0] as int * 65536 + bytes[1] as int * 256;
        seq![base64_digit(n / 262144), base64_digit((n / 4096) % 64), base64_digit((n / 64) % 64), '=']
    } else {
        let n = bytes[0] as int * 65536 + bytes[1] as int * 256 + bytes[2] as int;
        seq![base64_digit(n / 262144), base64_digit((n / 4096) % 64), base64_digit((n / 64) % 64), base64_digit(n % 64)]
            + base64_text(bytes.skip(3))
    }
}

/// The name of what `base64::engine::general_purpose::STANDARD` decodes
/// a text into: its bytes, or nothing when the text is not valid base64.
pub uninterp spec fn base64_bytes(text: Seq<char>) -> Option<Seq<u8>>;

/// Calls `Engine::encode` of the standard base64 engine (standard
/// alphabet, with padding). The engine panics when the encoded length
/// overflows `usize`, which the bound on the input rules out.
#[verifier::external_body]
pub(crate) fn encode_base64(bytes: &[u8]) -> (t: String)
    requires
        bytes@.len() <= usize::MAX / 2,
    ensures
        t@ == base64_text(bytes@),
{
    base64::engine::general_purpose::STANDARD.encode(bytes)
}

/// Calls `Engine::decode` of the standard base64 engine, with the error
/// as text. The bytes are only named, except that a text the same engine
/// encoded decodes back to the bytes it was made from (the engine pads
/// when encoding and accepts exactly that padding when decoding).
#[verifier::external_body]
pub(crate) fn decode_base64(text: &str) -> (r: Result<Vec<u8>, String>)
    ensures
        match r {
            Ok(b) => base64_bytes(text@) == Some(b@),
            Err(_) => base64_bytes(text@) is None,
        },
        r matches Ok(x) ==> forall|b: Seq<u8>| #[trigger] base64_text(b) == text@ ==> x@ == b,
        r is Err ==> forall|b: Seq<u8>| #[trigger] base64_text(b) != text@,
{
    base64::engine::general_purpose::STANDARD.decode(text).map_err(|e| e.to_string())
}

} // verus!
