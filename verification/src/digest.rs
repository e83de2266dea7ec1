//! Content digests: SHA-256 rendered as lower-case hexadecimal, and standard
//! base64 decoding of stored artifacts.
use vstd::prelude::*;
use base64::Engine;
use sha2::Digest;

verus! {

/// The SHA-256 digest (FIPS 180-4) of a byte string.
pub uninterp spec fn sha256(data: Seq<u8>) -> Seq<u8>;

/// The bytes a text decodes to under the standard base64 alphabet with
/// padding, or `None` when it is not valid base64.
pub uninterp spec fn base64_standard_decoded(text: Seq<char>) -> Option<Seq<u8>>;

/// Calls `sha2::Sha256::digest`; the contract claims that the 32 bytes it
/// returns are the SHA-256 digest of `data`.
#[verifier::external_body]
fn sha256_digest(data: &[u8]) -> (digest: [u8; 32])
    ensures
        digest@ == sha256(data@),
{
    let output = sha2::Sha256::digest(data);
    let mut digest = [0u8; 32];
    digest.copy_from_slice(output.as_slice());
    digest
}

/// Calls `base64::engine::general_purpose::STANDARD.decode`; the contract
/// claims that it returns the decoded bytes exactly when the text is valid
/// standard base64, and nothing otherwise.
#[verifier::external_body]
fn base64_standard_decode(text: &str) -> (decoded: Option<Vec<u8>>)
    ensures
        match decoded {
            Some(bytes) => base64_standard_decoded(text@) == Some(bytes@),
            None => base64_standard_decoded(text@) is None,
        },
{
    match base64::engine::general_purpose::STANDARD.decode(text) {
        Ok(bytes) => Some(bytes),
        Err(_) => None,
    }
}

/// The lower-case hexadecimal digit of a value below sixteen.
pub open spec fn hex_digit(n: int) -> char {
    if n < 10 {
        (48 + n) as char
    } else {
        (87 + n) as char
    }
}

/// Two lower-case hexadecimal digits per byte, high nibble first.
pub open spec fn hex_lower(bytes: Seq<u8>) -> Seq<char>
    decreases bytes.len(),
{
    if bytes.len() == 0 {
        Seq::empty()
    } else {
        hex_lower(bytes.drop_last()) + seq![hex_digit(bytes.last() as int / 16), hex_digit(bytes.last() as int % 16)]
    }
}

fn hex_text(n: u8) -> (s: &'static str)
    requires
        n < 16,
    ensures
        s@ == seq![hex_digit(n as int)],
{
    proof {
        reveal_strlit("0");
        reveal_strlit("1");
        reveal_strlit("2");
        reveal_strlit("3");
        reveal_strlit("4");
        reveal_strlit("5");
        reveal_strlit("6");
        reveal_strlit("7");
        reveal_strlit("8");
        reveal_strlit("9");
        reveal_strlit("a");
        reveal_strlit("b");
        reveal_strlit("c");
        reveal_strlit("d");
        reveal_strlit("e");
        reveal_strlit("f");
    }
    match n {
        0 => "0",
        1 => "1",
        2 => "2",
        3 => "3",
        4 => "4",
        5 => "5",
        6 => "6",
        7 => "7",
        8 => "8",
        9 => "9",
        10 => "a",
        11 => "b",
        12 => "c",
        13 => "d",
        14 => "e",
        _ => "f",
    }
}

/// Lower-case hexadecimal text of a byte string.
pub fn to_hex(bytes: &[u8]) -> (text: String)
    ensures
        text@ == hex_lower(bytes@),
{
    let mut out = String::new();
    let mut i: usize = 0;
    while i < bytes.len()
        invariant
            i <= bytes@.len(),
            out@ == hex_lower(bytes@.subrange(0, i as int)),
        decreases bytes.len() - i,
    {
        let b = bytes[i];
        out.append(hex_text(b / 16));
        out.append(hex_text(b % 16));
        assert(bytes@.subrange(0, i + 1).drop_last() =~= bytes@.subrange(0, i as int));
        i = i + 1;
        assert(out@ =~= hex_lower(bytes@.subrange(0, i as int)));
    }
    assert(bytes@.subrange(0, bytes@.len() as int) =~= bytes@);
    out
}

/// The SHA-256 digest of `data` as lower-case hexadecimal, the form every
/// stored digest of the application takes.
pub fn sha256_hex(data: &[u8]) -> (text: String)
    ensures
        text@ == hex_lower(sha256(data@)),
{
    let digest = sha256_digest(data);
    to_hex(&digest)
}

/// The bytes of a standard base64 text, when it is valid base64.
pub fn decode_base64(text: &str) -> (decoded: Option<Vec<u8>>)
    ensures
        match decoded {
            Some(bytes) => base64_standard_decoded(text@) == Some(bytes@),
            None => base64_standard_decoded(text@) is None,
        },
{
    base64_standard_decode(text)
}

} // verus!
