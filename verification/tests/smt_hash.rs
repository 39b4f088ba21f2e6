use melstate::crypto::HashVal;
use melstate::smt::{get_data_block_hash_val, get_node_hash_val};

#[test]
fn test_datablock_empty() {
    // the empty data block hashes to the reserved all-zero value
    let h = get_data_block_hash_val(&[]);
    assert_eq!(h, HashVal::zero());
}

#[test]
fn test_datablock_not_empty() {
    // non-empty blocks hash under the data-block domain key, deterministically
    // and without collisions among these samples
    let a = get_data_block_hash_val(b"hello");
    let b = get_data_block_hash_val(b"world");
    let c = get_data_block_hash_val(b"hello world");
    assert_ne!(a, b);
    assert_ne!(a, c);
    assert_ne!(b, c);
    assert_ne!(a, HashVal::zero());
    assert_eq!(a, get_data_block_hash_val(b"hello"));
    // the block bytes go through the real keyed hash, not back out unchanged
    let expect = tmelcrypt::hash_keyed(b"smtdata", b"hello").0;
    assert_eq!(a.0, expect);
}

#[test]
fn node_hash_of_two_empty_children_is_empty() {
    let z = HashVal::zero();
    assert_eq!(get_node_hash_val(z, z), z);
}

#[test]
fn node_hash_depends_on_child_order() {
    let a = get_data_block_hash_val(b"left");
    let b = get_data_block_hash_val(b"right");
    let ab = get_node_hash_val(a, b);
    let ba = get_node_hash_val(b, a);
    assert_ne!(ab, ba);
    assert_ne!(ab, HashVal::zero());
    // one empty child still hashes: only the fully empty node is reserved
    assert_ne!(get_node_hash_val(a, HashVal::zero()), HashVal::zero());
}
