//! Content digests and URL percent-encoding.

use vstd::prelude::*;
use vstd::string::StringSliceAdditionalSpecFns;

verus! {

/// The lowercase hexadecimal form of the 128-bit XXH3 digest of `bytes`.
pub uninterp spec fn digest_of(bytes: Seq<u8>) -> Seq<char>;

/// Relies on `xxhash_rust::xxh3::xxh3_128`: a deterministic 128-bit digest
/// of the input, which is then written as lowercase hexadecimal.
#[verifier::external_body]
pub(crate) fn xxh3_hex(bytes: &[u8]) -> (r: String)
    ensures
        r@ == digest_of(bytes@),
{
    format!("{:x}", xxhash_rust::xxh3::xxh3_128(bytes))
}

/// The content hash of a byte buffer, used for file versions, rows and
/// uploaded bundles alike.
pub fn hash_buffer(bytes: &[u8]) -> (r: String)
    ensures
        r@ == digest_of(bytes@),
{
    xxh3_hex(bytes)
}

/// Bytes that percent-encoding leaves as they are.
pub open spec fn is_unreserved(b: u8) -> bool {
    (48 <= b <= 57) || (65 <= b <= 90) || (97 <= b <= 122) || b == 45 || b == 46 || b == 95
        || b == 126
}

/// Uppercase hexadecimal digit of a value below 16.
pub open spec fn hex_digit(d: u8) -> char {
    if d < 10 {
        ((48 + d) as u8) as char
    } else {
        ((55 + d) as u8) as char
    }
}

/// Percent-encoding of a byte sequence: unreserved bytes stay, every other
/// byte becomes `%` followed by two uppercase hexadecimal digits.
pub open spec fn percent_encoded(bytes: Seq<u8>) -> Seq<char>
    decreases bytes.len(),
{
    if bytes.len() == 0 {
        Seq::empty()
    } else {
        let b = bytes.last();
        let tail = if is_unreserved(b) {
            seq![b as char]
        } else {
            seq!['%', hex_digit(b / 16), hex_digit(b % 16)]
        };
        percent_encoded(bytes.drop_last()) + tail
    }
}

/// Relies on `urlencoding::encode`, which percent-encodes every byte of the
/// UTF-8 form except alphanumerics and `-`, `_`, `.`, `~`.
#[verifier::external_body]
pub(crate) fn url_encode(s: &str) -> (r: String)
    ensures
        r@ == percent_encoded(s.spec_bytes()),
{
    urlencoding::encode(s).into_owned()
}

} // verus!
