use vstd::prelude::*;

use sha2::Digest;

verus! {

/// Lower-case hex text of the SHA-256 digest of `data`.
pub uninterp spec fn sha256_hex(data: Seq<u8>) -> Seq<char>;

/// The running state of an outside SHA-256 hasher; only [`ContentHasher`] touches it.
#[verifier::external_body]
struct HasherState {
    inner: sha2::Sha256,
}

/// A content digest computed over bytes fed in any number of chunks, so that a file can be
/// hashed without holding all of it.
pub struct ContentHasher {
    state: HasherState,
    fed: Ghost<Seq<u8>>,
}

impl ContentHasher {
    /// The bytes fed so far.
    pub closed spec fn fed(&self) -> Seq<u8> {
        self.fed@
    }

    pub fn new() -> (r: ContentHasher)
        ensures
            r.fed() == Seq::<u8>::empty(),
    {
        fresh_hasher()
    }

    pub fn update(&mut self, chunk: &[u8])
        ensures
            final(self).fed() == old(self).fed() + chunk@,
    {
        absorb(self, chunk);
    }

    /// The lower-case hex digest of everything fed.
    pub fn finish(self) -> (r: String)
        ensures
            r@ == sha256_hex(self.fed()),
            r@.len() == 64,
    {
        finalize_hex(self)
    }
}

/// Relies on sha2::Sha256::new: a hasher that has absorbed nothing.
#[verifier::external_body]
fn fresh_hasher() -> (r: ContentHasher)
    ensures
        r.fed() == Seq::<u8>::empty(),
{
    ContentHasher { state: HasherState { inner: sha2::Sha256::new() }, fed: Ghost(Seq::empty()) }
}

/// Relies on sha2::Sha256::update (digest's `Digest::update`): absorbs `chunk` after
/// everything absorbed before; `fed` records exactly what the state has absorbed.
#[verifier::external_body]
fn absorb(h: &mut ContentHasher, chunk: &[u8])
    ensures
        final(h).fed() == old(h).fed() + chunk@,
{
    h.state.inner.update(chunk);
}

/// Relies on sha2::Sha256::finalize and the `LowerHex` form of its 32-byte output: the state
/// has absorbed exactly `h.fed()` (only `fresh_hasher` and `absorb` set either), and the digest
/// prints as 64 lower-case hex digits.
#[verifier::external_body]
fn finalize_hex(h: ContentHasher) -> (r: String)
    ensures
        r@ == sha256_hex(h.fed()),
        r@.len() == 64,
{
    format!("{:x}", h.state.inner.finalize())
}

} // verus!
