//! Laws of the batch validator: properties that relate several functions of
//! the engine, stated over the specification pipeline and proved once and
//! for all.

use crate::applytx::{
    apply_batch_spec, auctionbid_spec, commit_spec, doscmint_spec, eff_abid, eff_coin,
    get_or_zero, ins_upto, lock_check, min_fee_of, outs_upto, ph0, ph0_tx, ph1, ph1_tx, ph2,
    ph2_tx, ph3, ph3_tx, HandleV,
};
use crate::constants::{covhash_abid, covhash_destroy, denom_dosc};
use crate::melmint::{reward_nominal, reward_real};
use crate::state::{StateErrorV, StateV};
use crate::transaction::{
    dec_powdata, total_outputs_of, tx_hash, well_formed, CoinDataHeightV, CoinIdV, TransactionV,
    TxKind,
};
use vstd::arithmetic::power2::pow2;
use vstd::prelude::*;

verus! {

/// The fee rule: a transaction whose fee is below the minimum — the fee
/// multiplier times its weight — is rejected with that minimum; one whose
/// fee is exactly the minimum adds nothing to the tips and the whole fee to
/// the fee pool.
pub proof fn lemma_fee_rule(s: StateV, h: HandleV, t: TransactionV)
    requires
        well_formed(t),
    ensures
        (t.fee as u128) < min_fee_of(s, t) ==> ph0_tx(s, h, t) == Err::<HandleV, StateErrorV>(
            StateErrorV::InsufficientFees(min_fee_of(s, t)),
        ),
        (t.fee as u128) == min_fee_of(s, t) ==> (ph0_tx(s, h, t) matches Ok(h2) && h2.tips
            == h.tips && h2.fee_pool == h.fee_pool.saturating_add(t.fee as u128)),
{
}

/// Spending a coin that does not exist: when a transaction's first input is
/// neither staked nor auction-locked and resolves to no coin, phase 2 fails
/// with exactly `NonexistentCoin` naming that input. The ledger itself is
/// untouched by any failing batch, because the overlay is discarded without
/// a commit.
pub proof fn lemma_nonexistent_coin(s: StateV, h: HandleV, t: TransactionV)
    requires
        t.inputs.len() > 0,
        !lock_check(s, h, t, t.inputs[0]),
        eff_coin(s, h, t.inputs[0]) is None,
    ensures
        ph2_tx(s, h, t) == Err::<HandleV, StateErrorV>(
            StateErrorV::NonexistentCoin(t.inputs[0]),
        ),
{
    assert(ins_upto(s, h, t, 0) == Ok::<(HandleV, Map<Seq<u8>, u128>), StateErrorV>(
        (h, Map::empty()),
    ));
    assert(ins_upto(s, h, t, 1) == Err::<(HandleV, Map<Seq<u8>, u128>), StateErrorV>(
        StateErrorV::NonexistentCoin(t.inputs[0]),
    ));
    crate::applytx::lemma_ins_err_persists(s, h, t, 1, t.inputs.len() as int);
}

/// The auction-bid timing rule: in the second half of a 20-block cycle every
/// bid fails with `BidWrongTime`; in the first half a structurally sound bid
/// is accepted and becomes retrievable from the auction-bid book under its
/// no-signature hash.
pub proof fn lemma_bid_timing(s: StateV, h: HandleV, t: TransactionV)
    ensures
        s.height % 20 >= 10 ==> auctionbid_spec(s, h, t) == Err::<HandleV, StateErrorV>(
            StateErrorV::BidWrongTime,
        ),
        (s.height % 20 < 10 && t.data.len() == 32 && t.outputs.len() > 0 && t.outputs[0].denom
            == denom_dosc() && t.outputs[0].covhash == covhash_abid()) ==> (auctionbid_spec(
            s,
            h,
            t,
        ) matches Ok(h2) && eff_abid(s, h2, tx_hash(t)) == Some(t)),
{
}

/// The minting maturity rule: a DoscMint transaction whose first input coin
/// was created fewer than 100 blocks ago fails with `InvalidMelPoW`; once the
/// coin is 100 blocks mature, it succeeds exactly when the data decodes, the
/// proof-of-work verdict holds, the difficulty is representable, and the
/// minted output total stays within the nominal reward.
pub proof fn lemma_doscmint_maturity(s: StateV, h: HandleV, t: TransactionV, pow_ok: bool)
    requires
        t.inputs.len() > 0,
        s.coins.contains_key(t.inputs[0]),
    ensures
        s.height < s.coins[t.inputs[0]].height + 100 ==> doscmint_spec(s, h, t, pow_ok)
            == Err::<HandleV, StateErrorV>(StateErrorV::InvalidMelPoW),
        (s.height >= s.coins[t.inputs[0]].height + 100 && dec_powdata(t.data) is Some && pow_ok
            && dec_powdata(t.data)->Some_0.0 < 128 && get_or_zero(
            total_outputs_of(t),
            denom_dosc(),
        ) <= reward_nominal(
            s.height,
            reward_real(pow2(dec_powdata(t.data)->Some_0.0 as nat) as u128, s.dosc_speed),
        )) ==> doscmint_spec(s, h, t, pow_ok) == Ok::<HandleV, StateErrorV>(h),
{
}

/// Whether the overlay has a coin staged as deleted.
pub open spec fn deleted_in(h: HandleV, c: CoinIdV) -> bool {
    h.coins.contains_key(c) && h.coins[c] is None
}

proof fn lemma_ins_prefix_ok(s: StateV, h: HandleV, t: TransactionV, k: int, n: int)
    requires
        0 <= k <= n,
        ins_upto(s, h, t, n) is Ok,
    ensures
        ins_upto(s, h, t, k) is Ok,
{
    if ins_upto(s, h, t, k) is Err {
        crate::applytx::lemma_ins_err_persists(s, h, t, k, n);
    }
}

proof fn lemma_ins_keeps_deleted(s: StateV, h: HandleV, t: TransactionV, n: int, c: CoinIdV)
    requires
        0 <= n,
        deleted_in(h, c),
        ins_upto(s, h, t, n) is Ok,
    ensures
        deleted_in(ins_upto(s, h, t, n)->Ok_0.0, c),
    decreases n,
{
    if n > 0 {
        lemma_ins_prefix_ok(s, h, t, n - 1, n);
        lemma_ins_keeps_deleted(s, h, t, n - 1, c);
    }
}

proof fn lemma_ins_deletes(s: StateV, h: HandleV, t: TransactionV, n: int, k: int)
    requires
        0 <= k < n,
        ins_upto(s, h, t, n) is Ok,
    ensures
        deleted_in(ins_upto(s, h, t, n)->Ok_0.0, t.inputs[k]),
    decreases n,
{
    lemma_ins_prefix_ok(s, h, t, n - 1, n);
    if k < n - 1 {
        lemma_ins_deletes(s, h, t, n - 1, k);
    }
}

proof fn lemma_ins_deleted_input_fails(s: StateV, h: HandleV, t: TransactionV, n: int, k: int)
    requires
        0 <= k < n,
        deleted_in(h, t.inputs[k]),
    ensures
        !(ins_upto(s, h, t, n) is Ok),
    decreases n,
{
    if ins_upto(s, h, t, n) is Ok {
        lemma_ins_prefix_ok(s, h, t, n - 1, n);
        if k < n - 1 {
            lemma_ins_deleted_input_fails(s, h, t, n - 1, k);
        } else {
            lemma_ins_keeps_deleted(s, h, t, n - 1, t.inputs[k]);
            assert(eff_coin(s, ins_upto(s, h, t, n - 1)->Ok_0.0, t.inputs[k]) is None);
        }
    }
}

proof fn lemma_ph2tx_keeps_deleted(s: StateV, h: HandleV, t: TransactionV, c: CoinIdV)
    requires
        deleted_in(h, c),
        ph2_tx(s, h, t) is Ok,
    ensures
        deleted_in(ph2_tx(s, h, t)->Ok_0, c),
{
    lemma_ins_keeps_deleted(s, h, t, t.inputs.len() as int, c);
}

proof fn lemma_ph2tx_deletes(s: StateV, h: HandleV, t: TransactionV, k: int)
    requires
        0 <= k < t.inputs.len(),
        ph2_tx(s, h, t) is Ok,
    ensures
        deleted_in(ph2_tx(s, h, t)->Ok_0, t.inputs[k]),
{
    lemma_ins_deletes(s, h, t, t.inputs.len() as int, k);
}

proof fn lemma_ph2tx_deleted_fails(s: StateV, h: HandleV, t: TransactionV, k: int)
    requires
        0 <= k < t.inputs.len(),
        deleted_in(h, t.inputs[k]),
    ensures
        !(ph2_tx(s, h, t) is Ok),
{
    lemma_ins_deleted_input_fails(s, h, t, t.inputs.len() as int, k);
}

proof fn lemma_ph2_split(s: StateV, h: HandleV, txs: Seq<TransactionV>, m: int)
    requires
        0 <= m <= txs.len(),
    ensures
        ph2(s, h, txs) == (match ph2(s, h, txs.take(m)) {
            Err(e) => Err::<HandleV, StateErrorV>(e),
            Ok(hm) => ph2(s, hm, txs.skip(m)),
        }),
    decreases m,
{
    if m == 0 {
        assert(txs.take(0) =~= Seq::<TransactionV>::empty());
        assert(txs.skip(0) =~= txs);
    } else {
        assert(txs.take(m)[0] == txs[0]);
        match ph2_tx(s, h, txs[0]) {
            Err(e) => {
                assert(ph2(s, h, txs.take(m)) == Err::<HandleV, StateErrorV>(e));
            },
            Ok(h2) => {
                lemma_ph2_split(s, h2, txs.skip(1), m - 1);
                assert(txs.take(m).skip(1) =~= txs.skip(1).take(m - 1));
                assert(txs.skip(1).skip(m - 1) =~= txs.skip(m));
            },
        }
    }
}

proof fn lemma_ph2_keeps_deleted(s: StateV, h: HandleV, txs: Seq<TransactionV>, c: CoinIdV)
    requires
        deleted_in(h, c),
        ph2(s, h, txs) is Ok,
    ensures
        deleted_in(ph2(s, h, txs)->Ok_0, c),
    decreases txs.len(),
{
    if txs.len() > 0 {
        let h2 = ph2_tx(s, h, txs[0])->Ok_0;
        lemma_ph2tx_keeps_deleted(s, h, txs[0], c);
        lemma_ph2_keeps_deleted(s, h2, txs.skip(1), c);
    }
}

/// No coin can be spent twice in one batch: if any two input positions of
/// the batch — in one transaction or in two — name the same coin, the whole
/// batch fails, whatever else holds. The second spend observes the staged
/// deletion of the first and is rejected.
pub proof fn lemma_no_double_spend(
    s: StateV,
    h: HandleV,
    txs: Seq<TransactionV>,
    pow: Seq<bool>,
    a: int,
    ai: int,
    b: int,
    bi: int,
)
    requires
        0 <= a <= b < txs.len(),
        0 <= ai < txs[a].inputs.len(),
        0 <= bi < txs[b].inputs.len(),
        a < b || ai < bi,
        txs[a].inputs[ai] == txs[b].inputs[bi],
    ensures
        !(apply_batch_spec(s, h, txs, pow) is Ok),
{
    if apply_batch_spec(s, h, txs, pow) is Ok {
        let h0 = ph0(s, h, txs)->Ok_0;
        let h1 = ph1(s, h0, txs);
        assert(ph2(s, h1, txs) is Ok);
        let c = txs[a].inputs[ai];
        lemma_ph2_split(s, h1, txs, a);
        let ha_pre = ph2(s, h1, txs.take(a))->Ok_0;
        assert(ph2(s, ha_pre, txs.skip(a)) is Ok);
        assert(txs.skip(a)[0] == txs[a]);
        assert(ph2_tx(s, ha_pre, txs[a]) is Ok);
        if a == b {
            let n = txs[a].inputs.len() as int;
            assert(ins_upto(s, ha_pre, txs[a], n) is Ok);
            lemma_ins_prefix_ok(s, ha_pre, txs[a], bi + 1, n);
            lemma_ins_prefix_ok(s, ha_pre, txs[a], bi, bi + 1);
            let hb = ins_upto(s, ha_pre, txs[a], bi)->Ok_0.0;
            lemma_ins_deletes(s, ha_pre, txs[a], bi, ai);
            assert(deleted_in(hb, c));
            assert(eff_coin(s, hb, txs[a].inputs[bi]) is None);
            assert(!(ins_upto(s, ha_pre, txs[a], bi + 1) is Ok));
            assert(false);
        } else {
            let ha = ph2_tx(s, ha_pre, txs[a])->Ok_0;
            lemma_ph2tx_deletes(s, ha_pre, txs[a], ai);
            assert(deleted_in(ha, c));
            assert(ph2(s, ha, txs.skip(a).skip(1)) is Ok);
            assert(txs.skip(a).skip(1) =~= txs.skip(a + 1));
            lemma_ph2_split(s, ha, txs.skip(a + 1), b - a - 1);
            let hb_pre = ph2(s, ha, txs.skip(a + 1).take(b - a - 1))->Ok_0;
            lemma_ph2_keeps_deleted(s, ha, txs.skip(a + 1).take(b - a - 1), c);
            assert(deleted_in(hb_pre, c));
            assert(ph2(s, hb_pre, txs.skip(a + 1).skip(b - a - 1)) is Ok);
            assert(txs.skip(a + 1).skip(b - a - 1) =~= txs.skip(b));
            assert(txs.skip(b)[0] == txs[b]);
            assert(ph2_tx(s, hb_pre, txs[b]) is Ok);
            lemma_ph2tx_deleted_fails(s, hb_pre, txs[b], bi);
            assert(false);
        }
    }
}

/// Whether two overlays agree on one coin's staged write.
pub open spec fn same_at(h1: HandleV, h2: HandleV, c: CoinIdV) -> bool {
    &&& h1.coins.contains_key(c) == h2.coins.contains_key(c)
    &&& h1.coins.contains_key(c) ==> h1.coins[c] == h2.coins[c]
}

proof fn lemma_ph0_keeps_coins(s: StateV, h: HandleV, txs: Seq<TransactionV>)
    requires
        ph0(s, h, txs) is Ok,
    ensures
        ph0(s, h, txs)->Ok_0.coins == h.coins,
    decreases txs.len(),
{
    if txs.len() > 0 {
        let h2 = ph0_tx(s, h, txs[0])->Ok_0;
        lemma_ph0_keeps_coins(s, h2, txs.skip(1));
    }
}

proof fn lemma_ph3_keeps_coins(s: StateV, h: HandleV, txs: Seq<TransactionV>, pow: Seq<bool>)
    requires
        ph3(s, h, txs, pow) is Ok,
    ensures
        ph3(s, h, txs, pow)->Ok_0.coins == h.coins,
    decreases txs.len(),
{
    if txs.len() > 0 {
        let step = if txs[0].kind == TxKind::Normal || txs[0].kind == TxKind::Faucet {
            Ok::<HandleV, StateErrorV>(h)
        } else {
            ph3_tx(s, h, txs[0], pow[0])
        };
        let h2 = step->Ok_0;
        assert(h2.coins == h.coins);
        lemma_ph3_keeps_coins(s, h2, txs.skip(1), pow.skip(1));
    }
}

proof fn lemma_outs_writes(s: StateV, h: HandleV, t: TransactionV, n: int, oi: int)
    requires
        t.outputs.len() <= 255,
        0 <= oi < n <= t.outputs.len(),
        t.outputs[oi].covhash != covhash_destroy(),
    ensures
        outs_upto(s, h, t, n).coins.contains_key(CoinIdV { txhash: tx_hash(t), index: oi as u8 }),
        outs_upto(s, h, t, n).coins[CoinIdV { txhash: tx_hash(t), index: oi as u8 }] == Some(
            CoinDataHeightV { coin_data: t.outputs[oi], height: s.height },
        ),
    decreases n,
{
    if oi < n - 1 {
        lemma_outs_writes(s, h, t, n - 1, oi);
        assert((n - 1) as u8 != oi as u8);
    }
}

proof fn lemma_outs_frame(s: StateV, h: HandleV, t: TransactionV, n: int, c: CoinIdV)
    requires
        0 <= n,
        c.txhash != tx_hash(t),
    ensures
        same_at(outs_upto(s, h, t, n), h, c),
    decreases n,
{
    if n > 0 {
        lemma_outs_frame(s, h, t, n - 1, c);
    }
}

proof fn lemma_ph1_preserves_output(
    s: StateV,
    h: HandleV,
    txs: Seq<TransactionV>,
    tb: TransactionV,
    oi: int,
)
    requires
        tb.outputs.len() <= 255,
        0 <= oi < tb.outputs.len(),
        tb.outputs[oi].covhash != covhash_destroy(),
        forall|x: int|
            0 <= x < txs.len() && tx_hash(#[trigger] txs[x]) == tx_hash(tb) ==> txs[x] == tb,
        h.coins.contains_key(CoinIdV { txhash: tx_hash(tb), index: oi as u8 }),
        h.coins[CoinIdV { txhash: tx_hash(tb), index: oi as u8 }] == Some(
            CoinDataHeightV { coin_data: tb.outputs[oi], height: s.height },
        ),
    ensures
        ph1(s, h, txs).coins.contains_key(CoinIdV { txhash: tx_hash(tb), index: oi as u8 }),
        ph1(s, h, txs).coins[CoinIdV { txhash: tx_hash(tb), index: oi as u8 }] == Some(
            CoinDataHeightV { coin_data: tb.outputs[oi], height: s.height },
        ),
    decreases txs.len(),
{
    if txs.len() > 0 {
        let cid = CoinIdV { txhash: tx_hash(tb), index: oi as u8 };
        let h2 = ph1_tx(s, h, txs[0]);
        if tx_hash(txs[0]) == tx_hash(tb) {
            assert(txs[0] == tb);
            lemma_outs_writes(s, h, txs[0], txs[0].outputs.len() as int, oi);
        } else {
            lemma_outs_frame(s, h, txs[0], txs[0].outputs.len() as int, cid);
        }
        assert(forall|x: int|
            0 <= x < txs.skip(1).len() && tx_hash(#[trigger] txs.skip(1)[x]) == tx_hash(tb)
                ==> txs.skip(1)[x] == tb);
        lemma_ph1_preserves_output(s, h2, txs.skip(1), tb, oi);
    }
}

proof fn lemma_ph1_creates(s: StateV, h: HandleV, txs: Seq<TransactionV>, b: int, oi: int)
    requires
        0 <= b < txs.len(),
        forall|x: int| 0 <= x < txs.len() ==> well_formed(#[trigger] txs[x]),
        forall|x: int|
            0 <= x < txs.len() && tx_hash(#[trigger] txs[x]) == tx_hash(txs[b]) ==> txs[x]
                == txs[b],
        0 <= oi < txs[b].outputs.len(),
        txs[b].outputs[oi].covhash != covhash_destroy(),
    ensures
        ph1(s, h, txs).coins.contains_key(
            CoinIdV { txhash: tx_hash(txs[b]), index: oi as u8 },
        ),
        ph1(s, h, txs).coins[CoinIdV { txhash: tx_hash(txs[b]), index: oi as u8 }] == Some(
            CoinDataHeightV { coin_data: txs[b].outputs[oi], height: s.height },
        ),
    decreases txs.len(),
{
    let h2 = ph1_tx(s, h, txs[0]);
    if b == 0 {
        lemma_outs_writes(s, h, txs[0], txs[0].outputs.len() as int, oi);
        assert(forall|x: int|
            0 <= x < txs.skip(1).len() && tx_hash(#[trigger] txs.skip(1)[x]) == tx_hash(txs[0])
                ==> txs.skip(1)[x] == txs[0]);
        lemma_ph1_preserves_output(s, h2, txs.skip(1), txs[0], oi);
    } else {
        assert(forall|x: int|
            0 <= x < txs.skip(1).len() ==> well_formed(#[trigger] txs.skip(1)[x]));
        assert(txs.skip(1)[b - 1] == txs[b]);
        assert(forall|x: int|
            0 <= x < txs.skip(1).len() && tx_hash(#[trigger] txs.skip(1)[x]) == tx_hash(
                txs.skip(1)[b - 1],
            ) ==> txs.skip(1)[x] == txs.skip(1)[b - 1]);
        lemma_ph1_creates(s, h2, txs.skip(1), b - 1, oi);
    }
}

proof fn lemma_ins_frame(s: StateV, h: HandleV, t: TransactionV, n: int, c: CoinIdV)
    requires
        0 <= n <= t.inputs.len(),
        ins_upto(s, h, t, n) is Ok,
        forall|k: int| 0 <= k < n ==> t.inputs[k] != c,
    ensures
        same_at(ins_upto(s, h, t, n)->Ok_0.0, h, c),
    decreases n,
{
    if n > 0 {
        lemma_ins_prefix_ok(s, h, t, n - 1, n);
        lemma_ins_frame(s, h, t, n - 1, c);
    }
}

proof fn lemma_ph2tx_frame(s: StateV, h: HandleV, t: TransactionV, c: CoinIdV)
    requires
        ph2_tx(s, h, t) is Ok,
        forall|k: int| 0 <= k < t.inputs.len() ==> t.inputs[k] != c,
    ensures
        same_at(ph2_tx(s, h, t)->Ok_0, h, c),
{
    lemma_ins_frame(s, h, t, t.inputs.len() as int, c);
}

proof fn lemma_ph2_frame(s: StateV, h: HandleV, txs: Seq<TransactionV>, c: CoinIdV)
    requires
        ph2(s, h, txs) is Ok,
        forall|x: int, k: int|
            0 <= x < txs.len() && 0 <= k < txs[x].inputs.len() ==> #[trigger] txs[x].inputs[k]
                != c,
    ensures
        same_at(ph2(s, h, txs)->Ok_0, h, c),
    decreases txs.len(),
{
    if txs.len() > 0 {
        let h2 = ph2_tx(s, h, txs[0])->Ok_0;
        lemma_ph2tx_frame(s, h, txs[0], c);
        assert(forall|x: int, k: int|
            0 <= x < txs.skip(1).len() && 0 <= k < txs.skip(1)[x].inputs.len()
                ==> #[trigger] txs.skip(1)[x].inputs[k] != c);
        lemma_ph2_frame(s, h2, txs.skip(1), c);
    }
}

/// Applying a successful batch and committing removes every input coin from
/// the coin set: whatever coin any transaction of the batch spends is absent
/// from the committed ledger.
pub proof fn lemma_batch_spends_inputs(
    s: StateV,
    h: HandleV,
    txs: Seq<TransactionV>,
    pow: Seq<bool>,
    a: int,
    ai: int,
)
    requires
        apply_batch_spec(s, h, txs, pow) is Ok,
        0 <= a < txs.len(),
        0 <= ai < txs[a].inputs.len(),
    ensures
        !commit_spec(s, apply_batch_spec(s, h, txs, pow)->Ok_0).coins.contains_key(
            txs[a].inputs[ai],
        ),
{
    let h0 = ph0(s, h, txs)->Ok_0;
    let h1 = ph1(s, h0, txs);
    let h2 = ph2(s, h1, txs)->Ok_0;
    let hv = apply_batch_spec(s, h, txs, pow)->Ok_0;
    let c = txs[a].inputs[ai];
    lemma_ph2_split(s, h1, txs, a);
    let ha_pre = ph2(s, h1, txs.take(a))->Ok_0;
    assert(ph2(s, ha_pre, txs.skip(a)) is Ok);
    assert(txs.skip(a)[0] == txs[a]);
    let ha = ph2_tx(s, ha_pre, txs[a])->Ok_0;
    lemma_ph2tx_deletes(s, ha_pre, txs[a], ai);
    assert(ph2(s, ha, txs.skip(a).skip(1)) is Ok);
    lemma_ph2_keeps_deleted(s, ha, txs.skip(a).skip(1), c);
    assert(ph2(s, ha, txs.skip(a).skip(1))->Ok_0 == h2);
    assert(deleted_in(h2, c));
    lemma_ph3_keeps_coins(s, h2, txs, pow);
    assert(hv.coins == h2.coins);
}

/// Applying a successful batch and committing adds every output not
/// addressed to the destroy covenant as a coin of the committed ledger,
/// keyed by the producing transaction's hash and the output's index and
/// stamped with the current height — provided hashes identify transactions
/// within the batch and no input of the batch names that new coin.
pub proof fn lemma_batch_creates_outputs(
    s: StateV,
    h: HandleV,
    txs: Seq<TransactionV>,
    pow: Seq<bool>,
    b: int,
    oi: int,
)
    requires
        apply_batch_spec(s, h, txs, pow) is Ok,
        0 <= b < txs.len(),
        0 <= oi < txs[b].outputs.len(),
        txs[b].outputs[oi].covhash != covhash_destroy(),
        forall|x: int|
            0 <= x < txs.len() && tx_hash(#[trigger] txs[x]) == tx_hash(txs[b]) ==> txs[x]
                == txs[b],
        forall|x: int, k: int|
            0 <= x < txs.len() && 0 <= k < txs[x].inputs.len() ==> #[trigger] txs[x].inputs[k]
                != (CoinIdV { txhash: tx_hash(txs[b]), index: oi as u8 }),
    ensures
        commit_spec(s, apply_batch_spec(s, h, txs, pow)->Ok_0).coins.contains_key(
            CoinIdV { txhash: tx_hash(txs[b]), index: oi as u8 },
        ),
        commit_spec(s, apply_batch_spec(s, h, txs, pow)->Ok_0).coins[CoinIdV {
            txhash: tx_hash(txs[b]),
            index: oi as u8,
        }] == (CoinDataHeightV { coin_data: txs[b].outputs[oi], height: s.height }),
{
    let h0 = ph0(s, h, txs)->Ok_0;
    let h1 = ph1(s, h0, txs);
    let h2 = ph2(s, h1, txs)->Ok_0;
    let hv = apply_batch_spec(s, h, txs, pow)->Ok_0;
    let cid = CoinIdV { txhash: tx_hash(txs[b]), index: oi as u8 };
    crate::applytx::lemma_ph0_wf(s, h, txs);
    lemma_ph1_creates(s, h0, txs, b, oi);
    lemma_ph2_frame(s, h1, txs, cid);
    lemma_ph3_keeps_coins(s, h2, txs, pow);
    assert(hv.coins.contains_key(cid));
    assert(hv.coins[cid] == Some(
        CoinDataHeightV { coin_data: txs[b].outputs[oi], height: s.height },
    ));
}

} // verus!
