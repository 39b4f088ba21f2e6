//! Leaf and node hashing for the sparse merkle tree that authenticates the
//! ledger's mappings: data blocks and inner nodes are hashed under distinct
//! domain-separation keys, and the empty subtree is the all-zero hash.

use crate::codec::push_raw;
use crate::crypto::{hash_keyed_bytes, keyed_hash_of, zero_hash, HashVal};
use vstd::prelude::*;

verus! {

/// The domain-separation key for data blocks.
pub open spec fn data_block_key() -> Seq<u8> {
    seq![115u8, 109u8, 116u8, 100u8, 97u8, 116u8, 97u8]
}

/// The domain-separation key for inner nodes.
pub open spec fn node_key() -> Seq<u8> {
    seq![115u8, 109u8, 116u8, 110u8, 111u8, 100u8, 101u8]
}

/// The hash of a data block: the all-zero hash for the empty block, else the
/// keyed hash of its bytes under the data-block key.
pub open spec fn data_block_hash(b: Seq<u8>) -> Seq<u8> {
    if b.len() == 0 {
        zero_hash()
    } else {
        keyed_hash_of(data_block_key(), b)
    }
}

/// The hash of an inner node over its two children: the all-zero hash when
/// both children are empty subtrees, else the keyed hash of their
/// concatenation under the node key.
pub open spec fn node_hash(left: Seq<u8>, right: Seq<u8>) -> Seq<u8> {
    if left == zero_hash() && right == zero_hash() {
        zero_hash()
    } else {
        keyed_hash_of(node_key(), left + right)
    }
}

fn data_block_key_bytes() -> (k: Vec<u8>)
    ensures
        k@ == data_block_key(),
{
    let mut k: Vec<u8> = Vec::new();
    k.push(115u8);
    k.push(109u8);
    k.push(116u8);
    k.push(100u8);
    k.push(97u8);
    k.push(116u8);
    k.push(97u8);
    proof {
        assert(k@ =~= data_block_key());
    }
    k
}

fn node_key_bytes() -> (k: Vec<u8>)
    ensures
        k@ == node_key(),
{
    let mut k: Vec<u8> = Vec::new();
    k.push(115u8);
    k.push(109u8);
    k.push(116u8);
    k.push(110u8);
    k.push(111u8);
    k.push(100u8);
    k.push(101u8);
    proof {
        assert(k@ =~= node_key());
    }
    k
}

/// Hashes a data block for the sparse merkle tree.
pub fn get_data_block_hash_val(bytes: &[u8]) -> (h: HashVal)
    ensures
        h@ == data_block_hash(bytes@),
{
    if bytes.len() == 0 {
        HashVal::zero()
    } else {
        let key = data_block_key_bytes();
        hash_keyed_bytes(key.as_slice(), bytes)
    }
}

/// Hashes an inner node of the sparse merkle tree over its two children.
pub fn get_node_hash_val(left: HashVal, right: HashVal) -> (h: HashVal)
    ensures
        h@ == node_hash(left@, right@),
{
    let zero = HashVal::zero();
    if left.eq_hash(&zero) && right.eq_hash(&zero) {
        return zero;
    }
    let mut v: Vec<u8> = Vec::new();
    push_raw(&mut v, left.0.as_slice());
    push_raw(&mut v, right.0.as_slice());
    let key = node_key_bytes();
    proof {
        assert(v@ =~= left@ + right@);
    }
    hash_keyed_bytes(key.as_slice(), v.as_slice())
}

} // verus!
