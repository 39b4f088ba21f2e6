//! Protocol constants: value bounds, epoch length, reserved denominations and
//! reserved covenant hashes.

use crate::crypto::HashVal;
use vstd::prelude::*;

verus! {

/// No single output, and no fee, may carry more than this value.
pub const MAX_COINVAL: u64 = 1 << 62;

/// The number of blocks in one staking epoch.
pub const STAKE_EPOCH: u64 = 200000;

/// The denomination of the native token; fees are counted in it.
pub open spec fn denom_tmel() -> Seq<u8> {
    seq![109u8]
}

/// The denomination of the proof-of-work-minted token.
pub open spec fn denom_dosc() -> Seq<u8> {
    seq![100u8]
}

/// The denomination of the staking token, in which auction fills settle.
pub open spec fn denom_tsym() -> Seq<u8> {
    seq![115u8]
}

/// The native-token denomination as bytes.
pub fn denom_tmel_bytes() -> (d: Vec<u8>)
    ensures
        d@ == denom_tmel(),
{
    let mut d: Vec<u8> = Vec::new();
    d.push(109u8);
    proof {
        assert(d@ =~= denom_tmel());
    }
    d
}

/// The minted-token denomination as bytes.
pub fn denom_dosc_bytes() -> (d: Vec<u8>)
    ensures
        d@ == denom_dosc(),
{
    let mut d: Vec<u8> = Vec::new();
    d.push(100u8);
    proof {
        assert(d@ =~= denom_dosc());
    }
    d
}

/// The staking-token denomination as bytes.
pub fn denom_tsym_bytes() -> (d: Vec<u8>)
    ensures
        d@ == denom_tsym(),
{
    let mut d: Vec<u8> = Vec::new();
    d.push(115u8);
    proof {
        assert(d@ =~= denom_tsym());
    }
    d
}

/// The reserved covenant hash that burns an output permanently.
pub open spec fn covhash_destroy() -> Seq<u8> {
    crate::crypto::zero_hash()
}

/// The bytes of the well-known auction-bid covenant. A bid's collateral
/// output is addressed to this covenant's hash; a buyout or fill carries the
/// covenant and may consume the collateral without a signature.
pub open spec fn abid_script() -> Seq<u8> {
    seq![97u8, 98u8, 105u8, 100u8]
}

/// The auction-bid covenant's bytes as a value.
pub fn abid_script_bytes() -> (b: Vec<u8>)
    ensures
        b@ == abid_script(),
{
    let mut b: Vec<u8> = Vec::new();
    b.push(97u8);
    b.push(98u8);
    b.push(105u8);
    b.push(100u8);
    proof {
        assert(b@ =~= abid_script());
    }
    b
}

/// The reserved covenant hash that locks an auction bid's collateral: the
/// hash of the well-known auction-bid covenant.
pub open spec fn covhash_abid() -> Seq<u8> {
    crate::crypto::hash_of(abid_script())
}

/// The destroy covenant hash as a value.
pub fn covhash_destroy_val() -> (h: HashVal)
    ensures
        h@ == covhash_destroy(),
{
    HashVal::zero()
}

/// The auction-bid covenant hash as a value.
pub fn covhash_abid_val() -> (h: HashVal)
    ensures
        h@ == covhash_abid(),
{
    let b = abid_script_bytes();
    crate::crypto::hash_bytes(b.as_slice())
}

} // verus!
