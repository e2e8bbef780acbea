//! Hashing, hex and text encodings, each from the crate that provides it.
use vstd::prelude::*;
use crate::text::all_ascii;
use sha2::Digest;
use vstd::string::StringSliceAdditionalSpecFns;

verus! {

/// The hex digit for `d < 16`, lower case.
pub open spec fn hex_digit(d: u8) -> char {
    if d < 10 {
        (48 + d) as char
    } else {
        (87 + d) as char
    }
}

/// Lower-case hex of a byte string, two digits per byte, high nibble first.
pub open spec fn hex_lower(b: Seq<u8>) -> Seq<char>
    decreases b.len(),
{
    if b.len() == 0 {
        seq![]
    } else {
        seq![hex_digit(b[0] / 16), hex_digit(b[0] % 16)] + hex_lower(b.drop_first())
    }
}

/// The MD5 digest of a byte string.
pub uninterp spec fn md5_digest(data: Seq<u8>) -> Seq<u8>;

/// The SHA-256 digest of a byte string.
pub uninterp spec fn sha256_digest(data: Seq<u8>) -> Seq<u8>;

/// The bytes `encoding_rs` encodes a text into: GB18030 when `gb18030`,
/// GBK otherwise.
pub uninterp spec fn gb_bytes(gb18030: bool, s: Seq<char>) -> Seq<u8>;

/// `hex::encode`: two lower-case hex digits per byte, in order.
#[verifier::external_body]
pub(crate) fn hex_encode(data: &[u8]) -> (r: String)
    ensures
        r@ == hex_lower(data@),
{
    hex::encode(data)
}

/// `md5::compute`, the digest's sixteen bytes. The digest is named `md5_digest`.
#[verifier::external_body]
pub(crate) fn md5_compute(data: &[u8]) -> (r: Vec<u8>)
    ensures
        r@ == md5_digest(data@),
        r@.len() == 16,
{
    md5::compute(data).0.to_vec()
}

/// `Sha256::digest`, the digest's thirty-two bytes. The digest is named `sha256_digest`.
#[verifier::external_body]
pub(crate) fn sha256_compute(data: &[u8]) -> (r: Vec<u8>)
    ensures
        r@ == sha256_digest(data@),
        r@.len() == 32,
{
    sha2::Sha256::digest(data).to_vec()
}

/// `encoding_rs::Encoding::encode` with `GB18030` (when `gb18030`) or `GBK`,
/// the bytes. The result is named `gb_bytes`; text that is all ASCII comes
/// back as its own bytes, whatever its length. Other texts of more than 2^28
/// characters are left out: the encoder sizes its buffer from the length and
/// unwraps an overflow check.
#[verifier::external_body]
pub(crate) fn gb_encode(gb18030: bool, s: &str) -> (r: Vec<u8>)
    requires
        all_ascii(s@) || s@.len() < 0x1000_0000,
    ensures
        r@ == gb_bytes(gb18030, s@),
        all_ascii(s@) ==> r@ == s.spec_bytes(),
{
    let encoding = if gb18030 {
        encoding_rs::GB18030
    } else {
        encoding_rs::GBK
    };
    encoding.encode(s).0.into_owned()
}

/// `rand::random` for four bytes. Nothing is stated of the bytes.
#[verifier::external_body]
pub(crate) fn random_bytes4() -> (r: Vec<u8>)
    ensures
        r@.len() == 4,
{
    rand::random::<[u8; 4]>().to_vec()
}

/// A lower-case hex digit.
pub open spec fn is_hex_lower_digit(c: char) -> bool {
    ('0' <= c && c <= '9') || ('a' <= c && c <= 'f')
}

/// The hyphenated text of a random UUID: 8-4-4-4-12 lower-case hex digits,
/// with version digit 4 and an RFC 4122 variant digit (8 to b).
pub open spec fn is_uuid_v4_text(s: Seq<char>) -> bool {
    &&& s.len() == 36
    &&& forall|i: int|
        #![trigger s[i]]
        0 <= i < 36 ==> if i == 8 || i == 13 || i == 18 || i == 23 {
            s[i] == '-'
        } else {
            is_hex_lower_digit(s[i])
        }
    &&& s[14] == '4'
    &&& (s[19] == '8' || s[19] == '9' || s[19] == 'a' || s[19] == 'b')
}

/// `uuid::Uuid::new_v4`, in its `Display` form: the hyphenated lower-case
/// text of a random version-4 UUID. Nothing is stated of which one comes out.
#[verifier::external_body]
pub(crate) fn new_uuid_string() -> (r: String)
    ensures
        is_uuid_v4_text(r@),
{
    uuid::Uuid::new_v4().to_string()
}

} // verus!
