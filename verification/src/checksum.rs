//! Size and CRC-32 of a byte stream, computed as it passes through, with
//! the `crc32fast` hasher.

use vstd::prelude::*;

verus! {

#[verifier::external_type_specification]
#[verifier::external_body]
pub struct ExCrc32Hasher(crc32fast::Hasher);

/// Every byte a `crc32fast::Hasher` has been fed, in order.
pub uninterp spec fn hashed_bytes(h: crc32fast::Hasher) -> Seq<u8>;

/// One step of the reflected CRC-32 division: shift right, folding in the
/// polynomial 0xEDB88320 when the bit shifted out is set.
pub open spec fn crc_shift(c: u32) -> u32 {
    if c & 1 == 1 {
        (c >> 1u32) ^ 0xEDB8_8320u32
    } else {
        c >> 1u32
    }
}

/// `n` steps of the division.
pub open spec fn crc_shifts(c: u32, n: nat) -> u32
    decreases n,
{
    if n == 0 {
        c
    } else {
        crc_shifts(crc_shift(c), (n - 1) as nat)
    }
}

/// The CRC register after `data`, starting from all ones: each byte is
/// XORed into the low bits, followed by eight steps.
pub open spec fn crc_register(data: Seq<u8>) -> u32
    decreases data.len(),
{
    if data.len() == 0 {
        0xFFFF_FFFFu32
    } else {
        crc_shifts(crc_register(data.drop_last()) ^ (data.last() as u32), 8)
    }
}

/// The CRC-32 (IEEE) of `data`: the final register, inverted.
pub open spec fn crc32_of(data: Seq<u8>) -> u32 {
    crc_register(data) ^ 0xFFFF_FFFFu32
}

/// `crc32fast::Hasher::new`: a hasher that has seen nothing yet.
#[verifier::external_body]
fn hasher_new() -> (h: crc32fast::Hasher)
    ensures
        hashed_bytes(h) == Seq::<u8>::empty(),
{
    crc32fast::Hasher::new()
}

/// `crc32fast::Hasher::update`: feeds `buf` after what the hasher has
/// seen. Its byte count is a `u64`, which must not overflow.
#[verifier::external_body]
fn hasher_update(h: &mut crc32fast::Hasher, buf: &[u8])
    requires
        hashed_bytes(*old(h)).len() + buf@.len() <= u64::MAX,
    ensures
        hashed_bytes(*final(h)) == hashed_bytes(*old(h)) + buf@,
{
    h.update(buf)
}

/// `crc32fast::Hasher::finalize`: the CRC-32 (IEEE, as `crc32fast`
/// documents it) of everything fed.
#[verifier::external_body]
fn hasher_finalize(h: crc32fast::Hasher) -> (r: u32)
    ensures
        r == crc32_of(hashed_bytes(h)),
{
    h.finalize()
}

/// A running byte count and CRC-32 of a stream.
pub struct Digest {
    hasher: crc32fast::Hasher,
    size: u64,
}

impl Digest {
    /// The bytes seen so far.
    pub closed spec fn seen(&self) -> Seq<u8> {
        hashed_bytes(self.hasher)
    }

    pub closed spec fn wf(&self) -> bool {
        self.size as nat == hashed_bytes(self.hasher).len()
    }

    pub fn new() -> (r: Digest)
        ensures
            r.wf(),
            r.seen() == Seq::<u8>::empty(),
    {
        Digest { hasher: hasher_new(), size: 0 }
    }

    /// Takes in the next chunk of the stream.
    pub fn absorb(&mut self, chunk: &[u8])
        requires
            old(self).wf(),
            old(self).seen().len() + chunk@.len() <= u64::MAX,
        ensures
            final(self).wf(),
            final(self).seen() == old(self).seen() + chunk@,
    {
        hasher_update(&mut self.hasher, chunk);
        self.size = self.size + chunk.len() as u64;
    }

    /// The number of bytes seen so far.
    pub fn size(&self) -> (r: u64)
        requires
            self.wf(),
        ensures
            r == self.seen().len(),
    {
        self.size
    }

    /// The stream's length and CRC-32.
    pub fn finish(self) -> (r: (u64, u32))
        requires
            self.wf(),
        ensures
            r.0 == self.seen().len(),
            r.1 == crc32_of(self.seen()),
    {
        (self.size, hasher_finalize(self.hasher))
    }
}

} // verus!
