//! The digest type, the per-file record, and the digest's printed form.

use vstd::prelude::*;

verus! {

/// A 256-bit content digest.
pub type Hash = [u8; 32];

/// What the file index remembers of a hashed file.
#[derive(Debug, Clone, Copy)]
pub struct FileMetadata {
    pub size: u64,
    /// Last modification, in seconds since the epoch.
    pub modified: u64,
    pub hash: Hash,
}

/// The sixteen lowercase hexadecimal digits, in order.
pub open spec fn hex_digits() -> Seq<char> {
    seq!['0', '1', '2', '3', '4', '5', '6', '7', '8', '9', 'a', 'b', 'c', 'd', 'e', 'f']
}

/// The character at position `i` of the lowercase hexadecimal form of `bytes`:
/// the high nibble of a byte comes first.
pub open spec fn hex_char_at(bytes: Seq<u8>, i: int) -> char {
    if i % 2 == 0 {
        hex_digits()[bytes[i / 2] as int / 16]
    } else {
        hex_digits()[bytes[i / 2] as int % 16]
    }
}

/// The lowercase hexadecimal form of `bytes`, two characters per byte.
pub open spec fn hex_of(bytes: Seq<u8>) -> Seq<char> {
    Seq::new(2 * bytes.len(), |i: int| hex_char_at(bytes, i))
}

/// `blake3::Hash::to_hex`, on a digest built by `blake3::Hash::from_bytes`:
/// each byte becomes two characters of `0123456789abcdef`, high nibble first,
/// so the result is `hex_of` of the digest.
#[verifier::external_body]
fn digest_to_hex(hash: &Hash) -> (hex: String)
    ensures
        hex@ == hex_of(hash@),
{
    blake3::Hash::from_bytes(*hash).to_hex().to_string()
}

/// Every character of a hexadecimal form is one of the sixteen digits, and
/// so is ASCII.
pub proof fn lemma_hex_is_ascii(bytes: Seq<u8>)
    ensures
        hex_of(bytes).len() == 2 * bytes.len(),
        forall|i: int|
            0 <= i < hex_of(bytes).len() ==> hex_digits().contains(#[trigger] hex_of(bytes)[i]),
        forall|i: int| 0 <= i < hex_of(bytes).len() ==> (#[trigger] hex_of(bytes)[i] as u32) < 128,
{
    assert forall|i: int| 0 <= i < hex_of(bytes).len() implies hex_digits().contains(
        #[trigger] hex_of(bytes)[i],
    ) && (hex_of(bytes)[i] as u32) < 128 by {
        let b = bytes[i / 2] as int;
        let n = if i % 2 == 0 {
            b / 16
        } else {
            b % 16
        };
        assert(0 <= n < 16);
        assert(hex_of(bytes)[i] == hex_digits()[n]);
        assert(forall|k: int| 0 <= k < 16 ==> (#[trigger] hex_digits()[k] as u32) < 128);
    }
}

/// The digest in lowercase hexadecimal: 64 characters, the form under which
/// the vault files a master.
pub fn hash_to_hex(hash: &Hash) -> (hex: String)
    ensures
        hex@ == hex_of(hash@),
        hex@.len() == 64,
{
    digest_to_hex(hash)
}

} // verus!
