//! Section content hashes: the BLAKE3 digest of a section's text, and the
//! 64-bit seed the draft derives from it.

use vstd::prelude::*;
use vstd::utf8::encode_utf8;

verus! {

/// What `blake3::hash` returns for `data`: its 32-byte digest.
pub uninterp spec fn blake3_digest(data: Seq<u8>) -> Seq<u8>;

/// The BLAKE3 digest of one section's heading and body.
#[derive(Clone, Copy, Debug, PartialEq, Eq, Hash)]
pub struct SectionHash {
    pub bytes: [u8; 32],
}

impl View for SectionHash {
    type V = Seq<u8>;

    open spec fn view(&self) -> Seq<u8> {
        self.bytes@
    }
}

/// `blake3::hash`: the digest of `data`, as its 32 bytes.
#[verifier::external_body]
fn blake3_hash(data: &[u8]) -> (h: SectionHash)
    ensures
        h@ == blake3_digest(data@),
{
    SectionHash { bytes: *blake3::hash(data).as_bytes() }
}

/// The digest of the UTF-8 bytes of `text`.
pub fn hash_text(text: &str) -> (h: SectionHash)
    ensures
        h@ == blake3_digest(encode_utf8(text@)),
{
    blake3_hash(text.as_bytes())
}

/// Little-endian value of the first eight bytes of `b`
/// (`u64::from_le_bytes`).
pub open spec fn le_u64(b: Seq<u8>) -> int {
    b[0] + b[1] * 0x100 + b[2] * 0x1_0000 + b[3] * 0x100_0000 + b[4] * 0x1_0000_0000 + b[5]
        * 0x100_0000_0000 + b[6] * 0x1_0000_0000_0000 + b[7] * 0x100_0000_0000_0000
}

impl SectionHash {
    /// Whether two hashes hold the same digest.
    pub fn same(&self, other: &SectionHash) -> (r: bool)
        ensures
            r == (self@ == other@),
    {
        let mut i: usize = 0;
        while i < 32
            invariant
                i <= 32,
                self.bytes@.len() == 32,
                other.bytes@.len() == 32,
                forall|k: int| 0 <= k < i ==> self.bytes@[k] == other.bytes@[k],
            decreases 32 - i,
        {
            if self.bytes[i] != other.bytes[i] {
                return false;
            }
            i = i + 1;
        }
        proof {
            assert(self@ =~= other@);
        }
        true
    }

    /// A stable 64-bit seed: the first eight digest bytes, little-endian.
    pub fn seed(&self) -> (s: u64)
        ensures
            s == le_u64(self@),
    {
        let b = &self.bytes;
        b[0] as u64 + b[1] as u64 * 0x100 + b[2] as u64 * 0x1_0000 + b[3] as u64 * 0x100_0000
            + b[4] as u64 * 0x1_0000_0000 + b[5] as u64 * 0x100_0000_0000 + b[6] as u64
            * 0x1_0000_0000_0000 + b[7] as u64 * 0x100_0000_0000_0000
    }
}

} // verus!
