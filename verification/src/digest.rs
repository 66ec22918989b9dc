//! SHA-256 over a stream of bytes, and hexadecimal text.
use vstd::prelude::*;
use crate::numbers;

verus! {

/// The SHA-256 hasher of the `sha2` crate.
#[verifier::external_type_specification]
#[verifier::external_body]
pub struct ExSha256(sha2::Sha256);

/// The bytes that a hasher has taken in.
pub uninterp spec fn taken_in(h: sha2::Sha256) -> Seq<u8>;

/// The SHA-256 digest of some bytes, as `Digest::finalize` gives it.
pub uninterp spec fn sha256(bytes: Seq<u8>) -> Seq<u8>;

/// The hasher counts bits in 64 bits, so it takes fewer than 2^61 bytes.
pub const HASH_LIMIT: u64 = 0x2000_0000_0000_0000;

/// `sha2::Sha256::new`: a hasher that has taken in nothing.
#[verifier::external_body]
fn hasher_new() -> (h: sha2::Sha256)
    ensures
        taken_in(h) == Seq::<u8>::empty(),
{
    <sha2::Sha256 as sha2::Digest>::new()
}

/// `sha2::Digest::update`: the hasher takes in more bytes, behind those it had.
#[verifier::external_body]
fn hasher_update(h: &mut sha2::Sha256, bytes: &[u8])
    ensures
        taken_in(*final(h)) == taken_in(*old(h)) + bytes@,
{
    sha2::Digest::update(h, bytes)
}

/// `sha2::Digest::finalize`: the digest of the bytes taken in. It is 32 bytes long and
/// depends on those bytes alone. A hasher that took in 2^61 bytes or more cannot count
/// their bits.
#[verifier::external_body]
fn hasher_finalize(h: sha2::Sha256) -> (r: Vec<u8>)
    requires
        taken_in(h).len() < HASH_LIMIT,
    ensures
        r@ == sha256(taken_in(h)),
        r@.len() == 32,
{
    sha2::Digest::finalize(h).to_vec()
}

/// A running digest that knows how many bytes it covers.
pub struct RunningDigest {
    hasher: sha2::Sha256,
    count: u64,
}

impl View for RunningDigest {
    type V = Seq<u8>;

    /// The bytes that the digest covers.
    closed spec fn view(&self) -> Seq<u8> {
        taken_in(self.hasher)
    }
}

impl RunningDigest {
    /// The count is the number of bytes covered, and below the hasher's limit.
    pub closed spec fn wf(&self) -> bool {
        self.count == taken_in(self.hasher).len() && self.count < HASH_LIMIT
    }

    /// The digest of nothing yet.
    pub fn new() -> (r: Self)
        ensures
            r.wf(),
            r@ == Seq::<u8>::empty(),
    {
        RunningDigest { hasher: hasher_new(), count: 0 }
    }

    /// How many bytes are covered.
    pub fn count(&self) -> (r: u64)
        requires
            self.wf(),
        ensures
            r == self@.len(),
            r < HASH_LIMIT,
    {
        self.count
    }

    /// Covers more bytes.
    pub fn update(&mut self, bytes: &[u8])
        requires
            old(self).wf(),
            old(self)@.len() + bytes@.len() < HASH_LIMIT,
        ensures
            final(self).wf(),
            final(self)@ == old(self)@ + bytes@,
    {
        hasher_update(&mut self.hasher, bytes);
        self.count = self.count + bytes.len() as u64;
    }

    /// The digest of the bytes covered.
    pub fn finish(self) -> (r: Vec<u8>)
        requires
            self.wf(),
        ensures
            r@ == sha256(self@),
            r@.len() == 32,
    {
        hasher_finalize(self.hasher)
    }
}

/// Two lowercase hexadecimal digits for each byte.
pub fn encode(bytes: &[u8]) -> (r: String)
    ensures
        r@ == numbers::hex(bytes@),
{
    assert(bytes@.take(bytes@.len() as int) =~= bytes@);
    numbers::hex_prefix(bytes, bytes.len())
}

} // verus!
