//! Hashing and signature primitives.
//!
//! The byte-level behaviour of the hash and signature algorithms lives in the
//! `tmelcrypt` crate; this module gives each call a name that contracts can
//! speak about, and wraps the calls behind trusted items.

use vstd::prelude::*;

verus! {

/// A 32-byte hash value, the identity of transactions, covenants and blocks.
#[derive(Clone, Copy, Debug, PartialEq, Eq, Hash)]
pub struct HashVal(pub [u8; 32]);

impl View for HashVal {
    type V = Seq<u8>;

    open spec fn view(&self) -> Seq<u8> {
        self.0@
    }
}

impl HashVal {
    /// The all-zero hash value.
    pub fn zero() -> (h: HashVal)
        ensures
            h@ == zero_hash(),
    {
        let inner = vstd::array::array_fill_for_copy_types::<u8, 32>(0u8);
        proof {
            assert(inner@ =~= zero_hash());
        }
        HashVal(inner)
    }

    /// Whether this hash equals a byte string.
    pub fn eq_bytes(&self, b: &[u8]) -> (r: bool)
        ensures
            r == (self@ == b@),
    {
        if b.len() != 32 {
            proof {
                assert(self@.len() == 32);
            }
            return false;
        }
        let mut i: usize = 0;
        while i < 32
            invariant
                i <= 32,
                b@.len() == 32,
                forall|j: int| 0 <= j < i ==> self@[j] == b@[j],
            decreases 32 - i,
        {
            if self.0[i] != b[i] {
                return false;
            }
            i = i + 1;
        }
        proof {
            assert(self@ =~= b@);
        }
        true
    }

    /// Byte-wise equality, reflected as equality of the views.
    pub fn eq_hash(&self, other: &HashVal) -> (r: bool)
        ensures
            r == (self@ == other@),
    {
        let mut i: usize = 0;
        while i < 32
            invariant
                i <= 32,
                forall|j: int| 0 <= j < i ==> self@[j] == other@[j],
            decreases 32 - i,
        {
            if self.0[i] != other.0[i] {
                return false;
            }
            i = i + 1;
        }
        proof {
            assert(self@ =~= other@);
        }
        true
    }
}

/// The all-zero 32-byte sequence.
pub open spec fn zero_hash() -> Seq<u8> {
    Seq::new(32, |i: int| 0u8)
}

/// What the hash function returns on a byte string; the algorithm itself is
/// outside this crate.
pub uninterp spec fn hash_of(data: Seq<u8>) -> Seq<u8>;

/// What the keyed hash function returns on a key and a byte string.
pub uninterp spec fn keyed_hash_of(key: Seq<u8>, data: Seq<u8>) -> Seq<u8>;

/// What the ed25519 signature scheme produces for a secret key and a message;
/// the scheme is deterministic, so the bytes are a function of the two.
pub uninterp spec fn ed_sig_of(sk: Seq<u8>, msg: Seq<u8>) -> Seq<u8>;

/// Whether a signature verifies under a public key for a message.
pub uninterp spec fn ed_verifies(pk: Seq<u8>, msg: Seq<u8>, sig: Seq<u8>) -> bool;

/// Relies on tmelcrypt::hash_single: a 32-byte hash that depends only on the
/// input bytes.
#[verifier::external_body]
pub fn hash_bytes(data: &[u8]) -> (h: HashVal)
    ensures
        h@ == hash_of(data@),
{
    HashVal(tmelcrypt::hash_single(data).0)
}

/// Relies on tmelcrypt::hash_keyed: a 32-byte hash that depends only on the
/// key and the input bytes.
#[verifier::external_body]
pub fn hash_keyed_bytes(key: &[u8], data: &[u8]) -> (h: HashVal)
    ensures
        h@ == keyed_hash_of(key@, data@),
{
    HashVal(tmelcrypt::hash_keyed(key, data).0)
}

/// Relies on tmelcrypt::Ed25519SK::sign: an ed25519 signature over the message,
/// deterministic in the 64-byte secret key and the message.
#[verifier::external_body]
pub fn ed25519_sign(sk: &[u8; 64], msg: &[u8]) -> (sig: Vec<u8>)
    ensures
        sig@ == ed_sig_of(sk@, msg@),
{
    tmelcrypt::Ed25519SK(*sk).sign(msg)
}

/// Relies on tmelcrypt::Ed25519PK::verify: whether the signature verifies
/// under the 32-byte public key, deterministic in its three arguments.
#[verifier::external_body]
pub fn ed25519_verify(pk: &[u8], msg: &[u8], sig: &[u8]) -> (r: bool)
    requires
        pk@.len() == 32,
    ensures
        r == ed_verifies(pk@, msg@, sig@),
{
    let mut arr = [0u8; 32];
    arr.copy_from_slice(pk);
    tmelcrypt::Ed25519PK(arr).verify(msg, sig)
}

} // verus!
