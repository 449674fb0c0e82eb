//! SHA-256 over a stream of chunks, computed by the `sha2` crate: the
//! bytes fed so far, and the digest of exactly those bytes.
use vstd::prelude::*;

verus! {

/// A running SHA-256 computation (a `sha2::Sha256` hasher).
#[verifier::external_body]
pub struct Sha256Stream {
    hasher: sha2::Sha256,
}

/// The bytes fed to a running SHA-256 computation so far, in order.
pub uninterp spec fn sha256_absorbed(stream: Sha256Stream) -> Seq<u8>;

/// The SHA-256 digest of `data`, as `sha2` computes it.
pub uninterp spec fn sha256_digest(data: Seq<u8>) -> Seq<u8>;

/// `<sha2::Sha256 as Digest>::new`: a hasher that has been fed nothing.
#[verifier::external_body]
fn sha256_start() -> (r: Sha256Stream)
    ensures
        sha256_absorbed(r) == Seq::<u8>::empty(),
{
    Sha256Stream { hasher: <sha2::Sha256 as sha2::Digest>::new() }
}

/// `Digest::update`: the chunk is appended to the bytes fed so far.
#[verifier::external_body]
fn sha256_absorb(stream: &mut Sha256Stream, chunk: &[u8])
    ensures
        sha256_absorbed(*final(stream)) == sha256_absorbed(*old(stream)) + chunk@,
{
    sha2::Digest::update(&mut stream.hasher, chunk)
}

/// `Digest::finalize`: the 32-byte digest of the bytes fed so far.
#[verifier::external_body]
fn sha256_finish(stream: Sha256Stream) -> (r: Vec<u8>)
    ensures
        r@ == sha256_digest(sha256_absorbed(stream)),
        r@.len() == 32,
{
    sha2::Digest::finalize(stream.hasher).to_vec()
}

impl Sha256Stream {
    /// The bytes fed so far.
    pub open spec fn input(&self) -> Seq<u8> {
        sha256_absorbed(*self)
    }

    /// A computation that has been fed nothing.
    pub fn new() -> (r: Sha256Stream)
        ensures
            r.input() == Seq::<u8>::empty(),
    {
        sha256_start()
    }

    /// Feeds `chunk` after the bytes fed so far.
    pub fn update(&mut self, chunk: &[u8])
        ensures
            final(self).input() == old(self).input() + chunk@,
    {
        sha256_absorb(self, chunk)
    }

    /// The digest of all the bytes fed.
    pub fn finalize(self) -> (r: Vec<u8>)
        ensures
            r@ == sha256_digest(self.input()),
            r@.len() == 32,
    {
        sha256_finish(self)
    }
}

} // verus!
