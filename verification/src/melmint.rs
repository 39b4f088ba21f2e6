//! Minting economics: the work denoted by a difficulty, the real reward it
//! earns against the global minting speed, and the inflation of a real reward
//! into nominal tokens at a given height.

use vstd::arithmetic::power2::pow2;
use vstd::prelude::*;

verus! {

/// Saturating product of two 128-bit quantities.
pub open spec fn sat_mul(x: u128, y: u128) -> u128 {
    if x * y > u128::MAX {
        u128::MAX
    } else {
        (x * y) as u128
    }
}

/// Multiplies, saturating at the maximum.
pub fn saturating_mul_u128(x: u128, y: u128) -> (r: u128)
    ensures
        r == sat_mul(x, y),
{
    match x.checked_mul(y) {
        Some(v) => v,
        None => u128::MAX,
    }
}

/// The work denoted by a difficulty: two to its power.
pub fn speed_of_difficulty(difficulty: u32) -> (r: u128)
    requires
        difficulty < 128,
    ensures
        r == pow2(difficulty as nat),
{
    let mut r: u128 = 1;
    let mut i: u32 = 0;
    proof {
        vstd::arithmetic::power2::lemma2_to64();
        vstd::arithmetic::power2::lemma_pow2_adds(64, 63);
        vstd::arithmetic::power2::lemma2_to64_rest();
        assert(pow2(127) == 0x8000_0000_0000_0000_0000_0000_0000_0000);
    }
    while i < difficulty
        invariant
            i <= difficulty < 128,
            r == pow2(i as nat),
            pow2(127) == 0x8000_0000_0000_0000_0000_0000_0000_0000,
        decreases difficulty - i,
    {
        proof {
            vstd::arithmetic::power2::lemma_pow2_unfold((i + 1) as nat);
            if i < 127 {
                vstd::arithmetic::power2::lemma_pow2_strictly_increases(i as nat, 127);
            }
        }
        r = r * 2;
        i = i + 1;
    }
    r
}

/// The real reward a prover's speed earns against the global minting speed:
/// their ratio, and nothing when the global speed is unset.
pub open spec fn reward_real(my_speed: u128, dosc_speed: u128) -> u128 {
    if dosc_speed == 0 {
        0
    } else {
        my_speed / dosc_speed
    }
}

/// Computes the real minting reward.
pub fn calculate_reward(my_speed: u128, dosc_speed: u128) -> (r: u128)
    ensures
        r == reward_real(my_speed, dosc_speed),
{
    if dosc_speed == 0 {
        0
    } else {
        my_speed / dosc_speed
    }
}

/// A real reward inflated into nominal tokens: the factor grows by one for
/// every interval of 1048576 blocks, saturating at the maximum.
pub open spec fn reward_nominal(height: u64, reward: u128) -> u128 {
    sat_mul(reward, (1 + height / 1048576) as u128)
}

/// Inflates a real reward into nominal tokens at a height.
pub fn dosc_inflate_r2n(height: u64, reward: u128) -> (r: u128)
    ensures
        r == reward_nominal(height, reward),
{
    let factor: u128 = 1 + (height / 1048576) as u128;
    saturating_mul_u128(reward, factor)
}

} // verus!
