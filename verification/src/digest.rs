//! SHA-256 and lower-case hexadecimal, both taken from outside crates.

use sha2::Digest;
use vstd::prelude::*;
use vstd::utf8::is_ascii_chars;

verus! {

/// The SHA-256 digest of a byte string, as the `sha2` crate computes it.
///
/// The library never looks inside this function: it only relies on equal
/// inputs having equal digests.
pub uninterp spec fn sha256(data: Seq<u8>) -> Seq<u8>;

/// The sixteen lower-case hexadecimal digits, in order of value.
pub open spec fn hex_digits() -> Seq<char> {
    seq!['0', '1', '2', '3', '4', '5', '6', '7', '8', '9', 'a', 'b', 'c', 'd', 'e', 'f']
}

/// Lower-case hexadecimal text of a byte string: two digits per byte, the
/// high half of each byte first.
pub open spec fn hex_lower(bytes: Seq<u8>) -> Seq<char> {
    Seq::new(
        (2 * bytes.len()) as nat,
        |i: int|
            if i % 2 == 0 {
                hex_digits()[bytes[i / 2] as int / 16]
            } else {
                hex_digits()[bytes[i / 2] as int % 16]
            },
    )
}

/// Trusted: calls `sha2::Sha256::digest` (the one-shot form of the `Digest`
/// trait) on `data`.
///
/// Claims that the returned bytes are the SHA-256 digest of the input, which
/// this library names `sha256`, and that a digest is 32 bytes long, which is
/// the output size `sha2` declares for `Sha256`.
#[verifier::external_body]
pub(crate) fn sha256_digest(data: &[u8]) -> (out: Vec<u8>)
    ensures
        out@ == sha256(data@),
        out@.len() == 32,
{
    sha2::Sha256::digest(data).to_vec()
}

/// Trusted: calls `hex::encode` on `bytes`.
///
/// Claims what the crate documents and its source shows: each byte becomes
/// two characters from `0123456789abcdef`, the high four bits first, in the
/// order of the input.
#[verifier::external_body]
pub(crate) fn hex_encode(bytes: &[u8]) -> (text: String)
    ensures
        text@ == hex_lower(bytes@),
{
    hex::encode(bytes)
}

/// Hexadecimal text determines the bytes it was made from.
pub proof fn lemma_hex_lower_injective(a: Seq<u8>, b: Seq<u8>)
    requires
        hex_lower(a) == hex_lower(b),
    ensures
        a == b,
{
    assert(hex_lower(a).len() == 2 * a.len());
    assert(hex_lower(b).len() == 2 * b.len());
    assert(a.len() == b.len());
    assert forall|k: int| 0 <= k < a.len() implies a[k] == b[k] by {
        let x = a[k] as int;
        let y = b[k] as int;
        assert(hex_lower(a)[2 * k] == hex_digits()[x / 16]);
        assert(hex_lower(b)[2 * k] == hex_digits()[y / 16]);
        assert(hex_lower(a)[2 * k + 1] == hex_digits()[x % 16]);
        assert(hex_lower(b)[2 * k + 1] == hex_digits()[y % 16]);
        lemma_hex_digit_injective(x / 16, y / 16);
        lemma_hex_digit_injective(x % 16, y % 16);
    }
    assert(a =~= b);
}

/// Distinct values below sixteen have distinct hexadecimal digits.
pub proof fn lemma_hex_digit_injective(x: int, y: int)
    requires
        0 <= x < 16,
        0 <= y < 16,
        hex_digits()[x] == hex_digits()[y],
    ensures
        x == y,
{
}

/// Hexadecimal text holds ASCII characters only.
pub proof fn lemma_hex_lower_is_ascii(bytes: Seq<u8>)
    ensures
        is_ascii_chars(hex_lower(bytes)),
        hex_lower(bytes).len() == 2 * bytes.len(),
{
    let text = hex_lower(bytes);
    assert forall|i: int| 0 <= i < text.len() implies '\0' <= #[trigger] text[i] <= '\u{7f}' by {
        let byte = bytes[i / 2] as int;
        lemma_hex_digit_is_ascii(byte / 16);
        lemma_hex_digit_is_ascii(byte % 16);
    }
}

/// Each hexadecimal digit is an ASCII character.
pub proof fn lemma_hex_digit_is_ascii(value: int)
    requires
        0 <= value < 16,
    ensures
        '\0' <= hex_digits()[value] <= '\u{7f}',
{
}

} // verus!
