//! The transactional overlay and the batch validator.
//!
//! A `StateHandle` stages one batch's effects over a ledger state without
//! touching it: every mapping gets a write cache consulted before the
//! underlying state, and the fee counters are staged as plain values. The
//! batch validator runs four ordered phases over the handle — registration
//! and fees, outputs, inputs, special handlers — and any failure aborts the
//! whole batch with the underlying state untouched. Committing folds every
//! staged write into the ledger state.

use crate::constants::{
    covhash_abid, covhash_abid_val, covhash_destroy, denom_dosc, denom_dosc_bytes, denom_tmel,
    denom_tmel_bytes, denom_tsym, denom_tsym_bytes, STAKE_EPOCH,
};
use crate::crypto::{hash_keyed_bytes, keyed_hash_of, HashVal};
use crate::melmint::{reward_nominal, reward_real, sat_mul, saturating_mul_u128};
use crate::state::{State, StateError, StateErrorV, StateV};
use crate::table::{apply_writes, opt_view, Table, TableKey, TableVal};
use crate::transaction::{
    dec_powdata, dec_stakedoc, dup_bytes, enc_coinid, script_check, script_map_of,
    total_outputs_of, tx_hash, weight_of, well_formed, CoinDataHeight, CoinDataHeightV, CoinDataV,
    CoinID, CoinIdV, StakeDoc, Transaction, TransactionV, TxKind,
};
use vstd::arithmetic::power2::pow2;
use vstd::prelude::*;

verus! {

/// The staged writes of one batch: per mapping the latest write per key
/// (`Some` upsert, `None` deletion), plus the staged fee counters.
#[verifier::ext_equal]
pub struct HandleV {
    pub coins: Map<CoinIdV, Option<CoinDataHeightV>>,
    pub txx: Map<Seq<u8>, Option<TransactionV>>,
    pub abids: Map<Seq<u8>, Option<TransactionV>>,
    pub stakes: Map<Seq<u8>, Option<StakeDoc>>,
    pub fee_pool: u128,
    pub tips: u128,
}

/// The fresh overlay over a state: no writes, counters taken from the state.
pub open spec fn fresh_handle(s: StateV) -> HandleV {
    HandleV {
        coins: Map::empty(),
        txx: Map::empty(),
        abids: Map::empty(),
        stakes: Map::empty(),
        fee_pool: s.fee_pool,
        tips: s.tips,
    }
}

/// A coin read through the overlay: the staged write wins, else the ledger.
pub open spec fn eff_coin(s: StateV, h: HandleV, c: CoinIdV) -> Option<CoinDataHeightV> {
    if h.coins.contains_key(c) {
        h.coins[c]
    } else if s.coins.contains_key(c) {
        Some(s.coins[c])
    } else {
        None
    }
}

/// An auction bid read through the overlay.
pub open spec fn eff_abid(s: StateV, h: HandleV, k: Seq<u8>) -> Option<TransactionV> {
    if h.abids.contains_key(k) {
        h.abids[k]
    } else if s.auction_bids.contains_key(k) {
        Some(s.auction_bids[k])
    } else {
        None
    }
}

/// A stake record read through the overlay.
pub open spec fn eff_stake(s: StateV, h: HandleV, k: Seq<u8>) -> Option<StakeDoc> {
    if h.stakes.contains_key(k) {
        h.stakes[k]
    } else if s.stakes.contains_key(k) {
        Some(s.stakes[k])
    } else {
        None
    }
}

/// The ledger state a committed handle produces: every staged write folded
/// into its mapping, the fee counters overwritten, everything else kept.
pub open spec fn commit_spec(s: StateV, h: HandleV) -> StateV {
    StateV {
        coins: apply_writes(s.coins, h.coins),
        transactions: apply_writes(s.transactions, h.txx),
        auction_bids: apply_writes(s.auction_bids, h.abids),
        stakes: apply_writes(s.stakes, h.stakes),
        fee_pool: h.fee_pool,
        tips: h.tips,
        ..s
    }
}

/// A mutable staging handle over a ledger state; committed like a database
/// transaction, or dropped with no effect.
pub struct StateHandle {
    state: State,
    coin_cache: Table<CoinID, CoinDataHeight>,
    transactions_cache: Table<HashVal, Transaction>,
    auction_bids_cache: Table<HashVal, Transaction>,
    stakes_cache: Table<HashVal, StakeDoc>,
    fee_pool_cache: u128,
    tips_cache: u128,
}

impl StateHandle {
    /// The ledger state under the overlay.
    pub closed spec fn base(&self) -> StateV {
        self.state@
    }

    /// The staged writes.
    pub closed spec fn hv(&self) -> HandleV {
        HandleV {
            coins: self.coin_cache.writes(),
            txx: self.transactions_cache.writes(),
            abids: self.auction_bids_cache.writes(),
            stakes: self.stakes_cache.writes(),
            fee_pool: self.fee_pool_cache,
            tips: self.tips_cache,
        }
    }

    /// Opens a fresh overlay over a ledger state.
    pub fn new(state: State) -> (h: StateHandle)
        ensures
            h.base() == state@,
            h.hv() == fresh_handle(state@),
    {
        let fee_pool_cache = state.fee_pool;
        let tips_cache = state.tips;
        let h = StateHandle {
            state,
            coin_cache: Table::new(),
            transactions_cache: Table::new(),
            auction_bids_cache: Table::new(),
            stakes_cache: Table::new(),
            fee_pool_cache,
            tips_cache,
        };
        proof {
            assert(h.hv() =~= fresh_handle(h.state@));
        }
        h
    }

    /// Folds every staged write into the ledger state and returns it.
    pub fn commit(self) -> (s: State)
        ensures
            s@ == commit_spec(self.base(), self.hv()),
    {
        let StateHandle {
            state,
            coin_cache,
            transactions_cache,
            auction_bids_cache,
            stakes_cache,
            fee_pool_cache,
            tips_cache,
        } = self;
        let mut st = state;
        st.coins.absorb(coin_cache);
        st.transactions.absorb(transactions_cache);
        st.auction_bids.absorb(auction_bids_cache);
        st.stakes.absorb(stakes_cache);
        st.fee_pool = fee_pool_cache;
        st.tips = tips_cache;
        proof {
            assert(st@ =~= commit_spec(self.base(), self.hv()));
        }
        st
    }

    /// Discards every staged write and returns the ledger state untouched.
    pub fn abort(self) -> (s: State)
        ensures
            s@ == self.base(),
    {
        let StateHandle { state, .. } = self;
        state
    }

    fn get_coin(&self, coin_id: &CoinID) -> (r: Option<CoinDataHeight>)
        ensures
            opt_view(r) == eff_coin(self.base(), self.hv(), coin_id@),
    {
        match self.coin_cache.probe(coin_id) {
            Some(ov) => ov,
            None => self.state.coins.get(coin_id),
        }
    }

    fn set_coin(&mut self, coin_id: CoinID, value: CoinDataHeight)
        ensures
            final(self).base() == old(self).base(),
            final(self).hv() == (HandleV {
                coins: old(self).hv().coins.insert(coin_id@, Some(value@)),
                ..old(self).hv()
            }),
    {
        self.coin_cache.insert(coin_id, value);
        proof {
            assert(self.hv() =~= (HandleV {
                coins: old(self).hv().coins.insert(coin_id@, Some(value@)),
                ..old(self).hv()
            }));
        }
    }

    fn del_coin(&mut self, coin_id: CoinID)
        ensures
            final(self).base() == old(self).base(),
            final(self).hv() == (HandleV {
                coins: old(self).hv().coins.insert(coin_id@, None),
                ..old(self).hv()
            }),
    {
        self.coin_cache.remove(coin_id);
        proof {
            assert(self.hv() =~= (HandleV {
                coins: old(self).hv().coins.insert(coin_id@, None),
                ..old(self).hv()
            }));
        }
    }

    fn get_abid(&self, txhash: &HashVal) -> (r: Option<Transaction>)
        ensures
            opt_view(r) == eff_abid(self.base(), self.hv(), txhash@),
    {
        match self.auction_bids_cache.probe(txhash) {
            Some(ov) => ov,
            None => self.state.auction_bids.get(txhash),
        }
    }

    fn set_abid(&mut self, tx: Transaction)
        ensures
            final(self).base() == old(self).base(),
            final(self).hv() == (HandleV {
                abids: old(self).hv().abids.insert(tx_hash(tx@), Some(tx@)),
                ..old(self).hv()
            }),
    {
        let h = tx.hash_nosigs();
        self.auction_bids_cache.insert(h, tx);
        proof {
            assert(self.hv() =~= (HandleV {
                abids: old(self).hv().abids.insert(tx_hash(tx@), Some(tx@)),
                ..old(self).hv()
            }));
        }
    }

    fn del_abid(&mut self, txhash: HashVal)
        ensures
            final(self).base() == old(self).base(),
            final(self).hv() == (HandleV {
                abids: old(self).hv().abids.insert(txhash@, None),
                ..old(self).hv()
            }),
    {
        self.auction_bids_cache.remove(txhash);
        proof {
            assert(self.hv() =~= (HandleV {
                abids: old(self).hv().abids.insert(txhash@, None),
                ..old(self).hv()
            }));
        }
    }

    fn get_stake(&self, txhash: &HashVal) -> (r: Option<StakeDoc>)
        ensures
            opt_view(r) == eff_stake(self.base(), self.hv(), txhash@),
    {
        match self.stakes_cache.probe(txhash) {
            Some(ov) => ov,
            None => self.state.stakes.get(txhash),
        }
    }

    /// Validates and stages a batch of transactions against this overlay:
    /// registration and fees in order, then outputs, then inputs, then the
    /// special handlers, exactly as [`apply_batch_spec`] describes. The
    /// proof-of-work verdicts, one per transaction, come from checking each
    /// DoscMint transaction's [`Self::doscmint_puzzle`] with the external
    /// proof-of-work verifier; they are consulted only for DoscMint
    /// transactions. On an error the underlying ledger state is untouched
    /// and the handle must be discarded.
    pub fn apply_tx_batch(&mut self, txx: &Vec<Transaction>, pow_ok: &Vec<bool>) -> (r: Result<
        (),
        StateError,
    >)
        requires
            pow_ok@.len() == txx@.len(),
        ensures
            final(self).base() == old(self).base(),
            match apply_batch_spec(old(self).base(), old(self).hv(), txs_view(txx@), pow_ok@) {
                Ok(hv) => r is Ok && final(self).hv() == hv,
                Err(e) => r matches Err(e2) && e2@ == e,
            },
    {
        let ghost s = self.base();
        let ghost h00 = self.hv();
        let ghost tv = txs_view(txx@);
        let ghost pw = pow_ok@;
        let mut i: usize = 0;
        proof {
            assert(tv.skip(0) =~= tv);
        }
        while i < txx.len()
            invariant
                i <= txx@.len(),
                self.base() == s,
                s == old(self).base(),
                h00 == old(self).hv(),
                tv == txs_view(txx@),
                ph0(s, h00, tv) == ph0(s, self.hv(), tv.skip(i as int)),
            decreases txx@.len() - i,
        {
            let ghost h_pre = self.hv();
            proof {
                assert(tv.skip(i as int)[0] == txx@[i as int]@);
            }
            match self.ph0_step(&txx[i]) {
                Ok(()) => (),
                Err(e) => {
                    return Err(e);
                },
            }
            proof {
                assert(tv.skip(i as int).skip(1) =~= tv.skip(i + 1));
            }
            i = i + 1;
        }
        proof {
            assert(tv.skip(txx@.len() as int) =~= Seq::<TransactionV>::empty());
        }
        let ghost h0v = self.hv();
        proof {
            assert(ph0(s, h00, tv) == Ok::<HandleV, StateErrorV>(h0v));
            lemma_ph0_wf(s, h00, tv);
        }
        let mut i1: usize = 0;
        while i1 < txx.len()
            invariant
                i1 <= txx@.len(),
                self.base() == s,
                s == old(self).base(),
                tv == txs_view(txx@),
                forall|j: int| 0 <= j < tv.len() ==> well_formed(#[trigger] tv[j]),
                ph1(s, h0v, tv) == ph1(s, self.hv(), tv.skip(i1 as int)),
            decreases txx@.len() - i1,
        {
            proof {
                assert(tv.skip(i1 as int)[0] == txx@[i1 as int]@);
                assert(well_formed(tv[i1 as int]));
            }
            self.apply_tx_outputs(&txx[i1]);
            proof {
                assert(tv.skip(i1 as int).skip(1) =~= tv.skip(i1 + 1));
            }
            i1 = i1 + 1;
        }
        let ghost h1v = self.hv();
        proof {
            assert(ph1(s, h0v, tv) == h1v);
        }
        let mut i2: usize = 0;
        while i2 < txx.len()
            invariant
                i2 <= txx@.len(),
                self.base() == s,
                s == old(self).base(),
                h00 == old(self).hv(),
                tv == txs_view(txx@),
                pw == pow_ok@,
                ph0(s, h00, tv) == Ok::<HandleV, StateErrorV>(h0v),
                ph1(s, h0v, tv) == h1v,
                ph2(s, h1v, tv) == ph2(s, self.hv(), tv.skip(i2 as int)),
            decreases txx@.len() - i2,
        {
            proof {
                assert(tv.skip(i2 as int)[0] == txx@[i2 as int]@);
            }
            match self.apply_tx_inputs(&txx[i2]) {
                Ok(()) => (),
                Err(e) => {
                    return Err(e);
                },
            }
            proof {
                assert(tv.skip(i2 as int).skip(1) =~= tv.skip(i2 + 1));
            }
            i2 = i2 + 1;
        }
        let ghost h2v = self.hv();
        proof {
            assert(ph2(s, h1v, tv) == Ok::<HandleV, StateErrorV>(h2v));
        }
        let mut i3: usize = 0;
        proof {
            assert(pw.skip(0) =~= pw);
        }
        while i3 < txx.len()
            invariant
                i3 <= txx@.len(),
                self.base() == s,
                s == old(self).base(),
                h00 == old(self).hv(),
                tv == txs_view(txx@),
                pw == pow_ok@,
                pw.len() == tv.len(),
                ph0(s, h00, tv) == Ok::<HandleV, StateErrorV>(h0v),
                ph1(s, h0v, tv) == h1v,
                ph2(s, h1v, tv) == Ok::<HandleV, StateErrorV>(h2v),
                ph3(s, h2v, tv, pw) == ph3(s, self.hv(), tv.skip(i3 as int), pw.skip(i3 as int)),
            decreases txx@.len() - i3,
        {
            proof {
                assert(tv.skip(i3 as int)[0] == txx@[i3 as int]@);
                assert(pw.skip(i3 as int)[0] == pw[i3 as int]);
            }
            if !(txx[i3].kind == TxKind::Normal) && !(txx[i3].kind == TxKind::Faucet) {
                match self.apply_tx_special(&txx[i3], pow_ok[i3]) {
                    Ok(()) => (),
                    Err(e) => {
                        return Err(e);
                    },
                }
            }
            proof {
                assert(tv.skip(i3 as int).skip(1) =~= tv.skip(i3 + 1));
                assert(pw.skip(i3 as int).skip(1) =~= pw.skip(i3 + 1));
            }
            i3 = i3 + 1;
        }
        proof {
            assert(tv.skip(txx@.len() as int) =~= Seq::<TransactionV>::empty());
            assert(pw.skip(txx@.len() as int) =~= Seq::<bool>::empty());
            assert(ph3(s, h2v, tv, pw) == Ok::<HandleV, StateErrorV>(self.hv()));
        }
        Ok(())
    }

    fn ph0_step(&mut self, tx: &Transaction) -> (r: Result<(), StateError>)
        ensures
            final(self).base() == old(self).base(),
            match ph0_tx(old(self).base(), old(self).hv(), tx@) {
                Ok(h2) => r is Ok && final(self).hv() == h2,
                Err(e) => r matches Err(e2) && e2@ == e,
            },
    {
        if !tx.is_well_formed() {
            return Err(StateError::MalformedTx);
        }
        let h = tx.hash_nosigs();
        self.transactions_cache.insert(h, tx.dup());
        let ghost h1 = HandleV {
            txx: old(self).hv().txx.insert(tx_hash(tx@), Some(tx@)),
            ..old(self).hv()
        };
        proof {
            assert(self.hv() =~= h1);
        }
        let min_fee = saturating_mul_u128(self.state.fee_multiplier, tx.weight());
        if (tx.fee as u128) < min_fee {
            return Err(StateError::InsufficientFees(min_fee));
        }
        let tip = (tx.fee as u128) - min_fee;
        self.tips_cache = self.tips_cache.saturating_add(tip);
        self.fee_pool_cache = self.fee_pool_cache.saturating_add(min_fee);
        proof {
            assert(self.hv() =~= (HandleV {
                tips: h1.tips.saturating_add(((tx@.fee as u128) - min_fee_of(
                    old(self).base(),
                    tx@,
                )) as u128),
                fee_pool: h1.fee_pool.saturating_add(min_fee_of(old(self).base(), tx@)),
                ..h1
            }));
        }
        Ok(())
    }

    fn apply_tx_outputs(&mut self, tx: &Transaction)
        requires
            well_formed(tx@),
        ensures
            final(self).base() == old(self).base(),
            final(self).hv() == ph1_tx(old(self).base(), old(self).hv(), tx@),
    {
        let height = self.state.height;
        let txhash = tx.hash_nosigs();
        let destroy = crate::constants::covhash_destroy_val();
        let mut i: usize = 0;
        while i < tx.outputs.len()
            invariant
                i <= tx.outputs@.len(),
                well_formed(tx@),
                self.base() == old(self).base(),
                txhash@ == tx_hash(tx@),
                destroy@ == covhash_destroy(),
                height == old(self).base().height,
                self.hv() == outs_upto(old(self).base(), old(self).hv(), tx@, i as int),
            decreases tx.outputs@.len() - i,
        {
            let od = &tx.outputs[i];
            if !od.covhash.eq_hash(&destroy) {
                let cid = CoinID { txhash, index: i as u8 };
                let cdh = CoinDataHeight { coin_data: od.dup(), height };
                self.set_coin(cid, cdh);
                proof {
                    assert(self.hv() =~= outs_upto(
                        old(self).base(),
                        old(self).hv(),
                        tx@,
                        i + 1,
                    ));
                }
            }
            i = i + 1;
        }
    }

    fn apply_tx_inputs(&mut self, tx: &Transaction) -> (r: Result<(), StateError>)
        ensures
            final(self).base() == old(self).base(),
            match ph2_tx(old(self).base(), old(self).hv(), tx@) {
                Ok(h2) => r is Ok && final(self).hv() == h2,
                Err(e) => r matches Err(e2) && e2@ == e,
            },
    {
        let ghost s = self.base();
        let ghost h0 = self.hv();
        let ghost full = tx@.inputs.len() as int;
        let scripts = tx.script_as_map();
        let mut in_coins: Table<Vec<u8>, u128> = Table::new();
        let abid_h = covhash_abid_val();
        let exempt_kind = tx.kind == TxKind::AuctionBuyout || tx.kind == TxKind::AuctionFill;
        let mut i: usize = 0;
        while i < tx.inputs.len()
            invariant
                i <= tx.inputs@.len(),
                self.base() == s,
                s == old(self).base(),
                h0 == old(self).hv(),
                scripts@ == script_map_of(tx@),
                abid_h@ == covhash_abid(),
                exempt_kind == (tx@.kind == TxKind::AuctionBuyout || tx@.kind
                    == TxKind::AuctionFill),
                ins_upto(s, h0, tx@, i as int) matches Ok(p) && p.0 == self.hv() && p.1
                    == in_coins@,
            decreases tx.inputs@.len() - i,
        {
            let coin_id = tx.inputs[i];
            let ghost h_cur = self.hv();
            let ghost m_cur = in_coins@;
            let stake_hit = self.get_stake(&coin_id.txhash);
            let mut locked = stake_hit.is_some();
            if !locked {
                let abid_hit = self.get_abid(&coin_id.txhash);
                locked = abid_hit.is_some() && !exempt_kind;
            }
            if locked {
                proof {
                    assert(lock_check(s, h_cur, tx@, coin_id@));
                    assert(ins_upto(s, h0, tx@, i + 1) is Err);
                    lemma_ins_err_persists(s, h0, tx@, i + 1, full);
                }
                return Err(StateError::CoinLocked);
            }
            proof {
                assert(!lock_check(s, h_cur, tx@, coin_id@));
            }
            match self.get_coin(&coin_id) {
                None => {
                    proof {
                        lemma_ins_err_persists(s, h0, tx@, i + 1, full);
                    }
                    return Err(StateError::NonexistentCoin(coin_id));
                },
                Some(cdh) => {
                    match scripts.get(&cdh.coin_data.covhash) {
                        None => {
                            proof {
                                lemma_ins_err_persists(s, h0, tx@, i + 1, full);
                            }
                            return Err(StateError::NonexistentScript(cdh.coin_data.covhash));
                        },
                        Some(script) => {
                            let exempt_script = cdh.coin_data.covhash.eq_hash(&abid_h)
                                && exempt_kind;
                            if !exempt_script && !script.check(tx) {
                                proof {
                                    lemma_ins_err_persists(s, h0, tx@, i + 1, full);
                                }
                                return Err(StateError::ViolatesScript(cdh.coin_data.covhash));
                            }
                            self.del_coin(coin_id);
                            let prev: u128 = match in_coins.get(&cdh.coin_data.denom) {
                                Some(v) => v,
                                None => 0,
                            };
                            let next = prev.wrapping_add(cdh.coin_data.value as u128);
                            in_coins.insert(dup_bytes(&cdh.coin_data.denom), next);
                            proof {
                                assert(self.hv() =~= (HandleV {
                                    coins: h_cur.coins.insert(coin_id@, None),
                                    ..h_cur
                                }));
                                assert(in_coins@ =~= m_cur.insert(
                                    cdh@.coin_data.denom,
                                    vstd::wrapping::u128_specs::wrapping_add(
                                        get_or_zero(m_cur, cdh@.coin_data.denom),
                                        cdh@.coin_data.value as u128,
                                    ),
                                ));
                            }
                        },
                    }
                },
            }
            i = i + 1;
        }
        let ghost h_end = self.hv();
        let ghost m_end = in_coins@;
        proof {
            assert(ins_upto(s, h0, tx@, full) matches Ok(p) && p.0 == h_end && p.1 == m_end);
        }
        if !(tx.kind == TxKind::Faucet) {
            let out_coins = tx.total_outputs();
            let items = out_coins.items();
            let dosc = denom_dosc_bytes();
            let is_doscmint = tx.kind == TxKind::DoscMint;
            let mut j: usize = 0;
            while j < items.len()
                invariant
                    j <= items@.len(),
                    forall|k: int|
                        0 <= k < j ==> denom_ok(tx@, m_end, (#[trigger] items@[k]).0@),
                decreases items@.len() - j,
            {
                let d = &items[j].0;
                let v = items[j].1;
                let skip_d = is_doscmint && d.key_eq(&dosc);
                if !skip_d && d.len() > 0 {
                    match in_coins.get(d) {
                        Some(iv) => {
                            if iv != v {
                                proof {
                                    assert(!denom_ok(tx@, m_end, items@[j as int].0@));
                                    assert(!balance_ok(tx@, m_end));
                                }
                                return Err(StateError::UnbalancedInOut);
                            }
                        },
                        None => {
                            proof {
                                assert(!denom_ok(tx@, m_end, items@[j as int].0@));
                                assert(!balance_ok(tx@, m_end));
                            }
                            return Err(StateError::UnbalancedInOut);
                        },
                    }
                }
                proof {
                    assert(denom_ok(tx@, m_end, items@[j as int].0@));
                }
                j = j + 1;
            }
            proof {
                assert forall|d: Seq<u8>|
                    #[trigger] total_outputs_of(tx@).contains_key(d) implies denom_ok(
                    tx@,
                    m_end,
                    d,
                ) by {
                    let k = choose|k: int| 0 <= k < items@.len() && items@[k].0@ == d;
                    assert(denom_ok(tx@, m_end, items@[k].0@));
                };
            }
        }
        proof {
            assert(balance_ok(tx@, m_end));
        }
        Ok(())
    }

    fn apply_tx_special(&mut self, tx: &Transaction, pow_ok: bool) -> (r: Result<(), StateError>)
        requires
            tx@.kind != TxKind::Normal,
            tx@.kind != TxKind::Faucet,
        ensures
            final(self).base() == old(self).base(),
            match ph3_tx(old(self).base(), old(self).hv(), tx@, pow_ok) {
                Ok(h2) => r is Ok && final(self).hv() == h2,
                Err(e) => r matches Err(e2) && e2@ == e,
            },
    {
        match tx.kind {
            TxKind::DoscMint => self.apply_tx_special_doscmint(tx, pow_ok),
            TxKind::AuctionBid => self.apply_tx_special_auctionbid(tx),
            TxKind::AuctionBuyout => self.apply_tx_special_auction_buyout(tx),
            TxKind::AuctionFill => Ok(()),
            TxKind::Stake => self.apply_tx_special_stake(tx),
            TxKind::Normal => {
                proof {
                    assert(false);
                }
                Ok(())
            },
            TxKind::Faucet => {
                proof {
                    assert(false);
                }
                Ok(())
            },
        }
    }

    fn apply_tx_special_doscmint(&mut self, tx: &Transaction, pow_ok: bool) -> (r: Result<
        (),
        StateError,
    >)
        ensures
            final(self).base() == old(self).base(),
            match doscmint_spec(old(self).base(), old(self).hv(), tx@, pow_ok) {
                Ok(h2) => r is Ok && final(self).hv() == h2,
                Err(e) => r matches Err(e2) && e2@ == e,
            },
    {
        if tx.inputs.len() == 0 {
            return Err(StateError::MalformedTx);
        }
        let coin_id = tx.inputs[0];
        match self.state.coins.get(&coin_id) {
            None => Err(StateError::MalformedTx),
            Some(cdh) => {
                if (self.state.height as u128) < (cdh.height as u128) + 100 {
                    return Err(StateError::InvalidMelPoW);
                }
                match crate::transaction::decode_powdata(tx.data.as_slice()) {
                    None => Err(StateError::MalformedTx),
                    Some((difficulty, _proof_bytes)) => {
                        if !pow_ok {
                            return Err(StateError::InvalidMelPoW);
                        }
                        if difficulty >= 128 {
                            return Err(StateError::InvalidMelPoW);
                        }
                        let my_speed = crate::melmint::speed_of_difficulty(difficulty);
                        let r_real = crate::melmint::calculate_reward(
                            my_speed,
                            self.state.dosc_speed,
                        );
                        let r_nom = crate::melmint::dosc_inflate_r2n(self.state.height, r_real);
                        let out_coins = tx.total_outputs();
                        let dosc = denom_dosc_bytes();
                        let total_dosc: u128 = match out_coins.get(&dosc) {
                            Some(v) => v,
                            None => 0,
                        };
                        if total_dosc > r_nom {
                            return Err(StateError::InvalidMelPoW);
                        }
                        Ok(())
                    },
                }
            },
        }
    }

    /// The proof-of-work puzzle a DoscMint transaction claims to have solved:
    /// the seed derived from the historical block hash at its first input's
    /// creation height, the claimed difficulty, and the proof bytes. The
    /// caller checks the proof against these with the proof-of-work verifier
    /// and hands the verdict to the batch validator.
    pub fn doscmint_puzzle(&self, tx: &Transaction) -> (r: Option<(HashVal, u32, Vec<u8>)>)
        requires
            crate::state::state_wf(self.base()),
        ensures
            match r {
                Some(p) => doscmint_puzzle_spec(self.base(), tx@) == Some((p.0@, p.1, p.2@)),
                None => doscmint_puzzle_spec(self.base(), tx@) is None,
            },
    {
        if tx.inputs.len() == 0 {
            return None;
        }
        let coin_id = tx.inputs[0];
        match self.state.coins.get(&coin_id) {
            None => None,
            Some(cdh) => {
                if (self.state.height as u128) < (cdh.height as u128) + 100 {
                    return None;
                }
                match crate::transaction::decode_powdata(tx.data.as_slice()) {
                    None => None,
                    Some((difficulty, proof_bytes)) => {
                        let hlen = self.state.history.len();
                        proof {
                            assert(self.base().history.len() == self.base().height);
                            assert((cdh.height as int) < hlen as int);
                        }
                        let block_hash = &self.state.history[cdh.height as usize];
                        proof {
                            assert((cdh.height as usize) as int == cdh.height as int);
                            assert(block_hash@ == self.base().history[cdh.height as int]);
                            assert(cdh@ == self.base().coins[tx@.inputs[0]]);
                            assert(self.base().coins[tx@.inputs[0]].height == cdh.height);
                        }
                        let mut cid_enc: Vec<u8> = Vec::new();
                        crate::codec::push_raw(&mut cid_enc, coin_id.txhash.0.as_slice());
                        cid_enc.push(coin_id.index);
                        proof {
                            assert(cid_enc@ =~= enc_coinid(coin_id@));
                        }
                        let chi = hash_keyed_bytes(block_hash.0.as_slice(), cid_enc.as_slice());
                        proof {
                            assert(chi@ == keyed_hash_of(
                                self.base().history[self.base().coins[tx@.inputs[0]].height as int],
                                enc_coinid(tx@.inputs[0]),
                            ));
                        }
                        Some((chi, difficulty, proof_bytes))
                    },
                }
            },
        }
    }

    fn apply_tx_special_auctionbid(&mut self, tx: &Transaction) -> (r: Result<(), StateError>)
        ensures
            final(self).base() == old(self).base(),
            match auctionbid_spec(old(self).base(), old(self).hv(), tx@) {
                Ok(h2) => r is Ok && final(self).hv() == h2,
                Err(e) => r matches Err(e2) && e2@ == e,
            },
    {
        if self.state.height % 20 >= 10 {
            return Err(StateError::BidWrongTime);
        }
        if tx.data.len() != 32 {
            return Err(StateError::MalformedTx);
        }
        if tx.outputs.len() == 0 {
            return Err(StateError::MalformedTx);
        }
        let dosc = denom_dosc_bytes();
        if !tx.outputs[0].denom.key_eq(&dosc) {
            return Err(StateError::MalformedTx);
        }
        let abid_h = covhash_abid_val();
        if !tx.outputs[0].covhash.eq_hash(&abid_h) {
            return Err(StateError::MalformedTx);
        }
        self.set_abid(tx.dup());
        Ok(())
    }

    fn apply_tx_special_auction_buyout(&mut self, tx: &Transaction) -> (r: Result<
        (),
        StateError,
    >)
        ensures
            final(self).base() == old(self).base(),
            match buyout_spec(old(self).base(), old(self).hv(), tx@) {
                Ok(h2) => r is Ok && final(self).hv() == h2,
                Err(e) => r matches Err(e2) && e2@ == e,
            },
    {
        let ghost s = self.base();
        let ghost h = self.hv();
        let mut count: usize = 0;
        let mut found: Option<(HashVal, Transaction)> = None;
        let ghost mut first_i: int = 0;
        let mut i: usize = 0;
        while i < tx.inputs.len()
            invariant
                i <= tx.inputs@.len(),
                self.base() == s,
                s == old(self).base(),
                h == old(self).hv(),
                self.hv() == h,
                count <= i,
                count == bid_count(s, h, tx@, i as int),
                count >= 1 ==> {
                    &&& 0 <= first_i < i
                    &&& eff_abid(s, h, tx@.inputs[first_i].txhash) is Some
                    &&& found matches Some(p) && p.0@ == tx@.inputs[first_i].txhash && Some(p.1@)
                        == eff_abid(s, h, tx@.inputs[first_i].txhash)
                },
                count == 0 ==> found is None && forall|j: int|
                    0 <= j < i ==> eff_abid(s, h, (#[trigger] tx@.inputs[j]).txhash) is None,
                count == 1 ==> forall|j: int|
                    0 <= j < i && j != first_i ==> eff_abid(
                        s,
                        h,
                        (#[trigger] tx@.inputs[j]).txhash,
                    ) is None,
            decreases tx.inputs@.len() - i,
        {
            match self.get_abid(&tx.inputs[i].txhash) {
                Some(bid) => {
                    if count == 0 {
                        found = Some((tx.inputs[i].txhash, bid));
                        proof {
                            first_i = i as int;
                        }
                    }
                    count = count + 1;
                },
                None => (),
            }
            i = i + 1;
        }
        if count != 1 {
            return Err(StateError::MalformedTx);
        }
        proof {
            assert(first_bid_idx(s, h, tx@) == first_i) by {
                let ci = first_bid_idx(s, h, tx@);
                assert(eff_abid(s, h, tx@.inputs[first_i].txhash) is Some);
                assert(0 <= ci < tx@.inputs.len() && eff_abid(s, h, tx@.inputs[ci].txhash)
                    is Some);
            };
        }
        let (bid_key, bid) = match found {
            Some(p) => p,
            None => {
                proof {
                    assert(false);
                }
                return Err(StateError::MalformedTx);
            },
        };
        if tx.outputs.len() == 0 {
            return Err(StateError::MalformedTx);
        }
        if bid.outputs.len() == 0 {
            return Err(StateError::MalformedTx);
        }
        let tsym = denom_tsym_bytes();
        if !tx.outputs[0].denom.key_eq(&tsym) || tx.outputs[0].value < bid.outputs[0].value
            || !tx.outputs[0].covhash.eq_bytes(bid.data.as_slice()) {
            return Err(StateError::MalformedTx);
        }
        self.del_abid(bid_key);
        Ok(())
    }

    fn apply_tx_special_stake(&mut self, tx: &Transaction) -> (r: Result<(), StateError>)
        ensures
            final(self).base() == old(self).base(),
            match stake_spec(old(self).base(), old(self).hv(), tx@) {
                Ok(h2) => r is Ok && final(self).hv() == h2,
                Err(e) => r matches Err(e2) && e2@ == e,
            },
    {
        let doc = match crate::transaction::decode_stakedoc(tx.data.as_slice()) {
            Some(doc) => doc,
            None => {
                return Err(StateError::MalformedTx);
            },
        };
        if tx.outputs.len() == 0 {
            return Err(StateError::MalformedTx);
        }
        let tmel = denom_tmel_bytes();
        if !tx.outputs[0].denom.key_eq(&tmel) {
            return Err(StateError::MalformedTx);
        }
        let curr_epoch = self.state.height / STAKE_EPOCH;
        if !(doc.e_start > curr_epoch && doc.e_post_end > doc.e_start && doc.syms_staked
            == tx.outputs[0].value) {
            let h = tx.hash_nosigs();
            self.set_stake(h, doc);
        }
        Ok(())
    }

    fn set_stake(&mut self, txhash: HashVal, sdoc: StakeDoc)
        ensures
            final(self).base() == old(self).base(),
            final(self).hv() == (HandleV {
                stakes: old(self).hv().stakes.insert(txhash@, Some(sdoc)),
                ..old(self).hv()
            }),
    {
        self.stakes_cache.insert(txhash, sdoc);
        proof {
            assert(self.hv() =~= (HandleV {
                stakes: old(self).hv().stakes.insert(txhash@, Some(sdoc)),
                ..old(self).hv()
            }));
        }
    }
}

/// The value a denomination map holds for a key, or zero.
pub open spec fn get_or_zero(m: Map<Seq<u8>, u128>, d: Seq<u8>) -> u128 {
    if m.contains_key(d) {
        m[d]
    } else {
        0
    }
}

/// The views of a list of transactions.
pub open spec fn txs_view(v: Seq<Transaction>) -> Seq<TransactionV> {
    v.map_values(|t: Transaction| t@)
}

/// The minimum fee a transaction owes: the fee multiplier times its weight.
pub open spec fn min_fee_of(s: StateV, t: TransactionV) -> u128 {
    sat_mul(s.fee_multiplier, weight_of(t))
}

/// Phase 0 on one transaction: reject non-well-formed transactions, register
/// the transaction under its no-signature hash, reject fees under the
/// minimum, and stage the fee split — the minimum into the fee pool, the
/// overpayment into the tips, both saturating.
pub open spec fn ph0_tx(s: StateV, h: HandleV, t: TransactionV) -> Result<HandleV, StateErrorV> {
    if !well_formed(t) {
        Err(StateErrorV::MalformedTx)
    } else {
        let h1 = HandleV { txx: h.txx.insert(tx_hash(t), Some(t)), ..h };
        let mf = min_fee_of(s, t);
        if (t.fee as u128) < mf {
            Err(StateErrorV::InsufficientFees(mf))
        } else {
            Ok(
                HandleV {
                    tips: h1.tips.saturating_add(((t.fee as u128) - mf) as u128),
                    fee_pool: h1.fee_pool.saturating_add(mf),
                    ..h1
                },
            )
        }
    }
}

/// Phase 0 over a batch, in order, stopping at the first error.
pub open spec fn ph0(s: StateV, h: HandleV, txs: Seq<TransactionV>) -> Result<
    HandleV,
    StateErrorV,
>
    decreases txs.len(),
{
    if txs.len() == 0 {
        Ok(h)
    } else {
        match ph0_tx(s, h, txs[0]) {
            Err(e) => Err(e),
            Ok(h2) => ph0(s, h2, txs.skip(1)),
        }
    }
}

/// Phase 1 on the first `n` outputs of one transaction: each output not
/// addressed to the destroy covenant is staged as a new coin at the current
/// height, keyed by the transaction's hash and the output's index.
pub open spec fn outs_upto(s: StateV, h: HandleV, t: TransactionV, n: int) -> HandleV
    decreases n,
{
    if n <= 0 {
        h
    } else {
        let h1 = outs_upto(s, h, t, n - 1);
        let o = t.outputs[n - 1];
        if o.covhash == covhash_destroy() {
            h1
        } else {
            HandleV {
                coins: h1.coins.insert(
                    CoinIdV { txhash: tx_hash(t), index: (n - 1) as u8 },
                    Some(CoinDataHeightV { coin_data: o, height: s.height }),
                ),
                ..h1
            }
        }
    }
}

/// Phase 1 on one transaction.
pub open spec fn ph1_tx(s: StateV, h: HandleV, t: TransactionV) -> HandleV {
    outs_upto(s, h, t, t.outputs.len() as int)
}

/// Phase 1 over a batch; it cannot fail.
pub open spec fn ph1(s: StateV, h: HandleV, txs: Seq<TransactionV>) -> HandleV
    decreases txs.len(),
{
    if txs.len() == 0 {
        h
    } else {
        ph1(s, ph1_tx(s, h, txs[0]), txs.skip(1))
    }
}

/// Whether an input coin is locked against this transaction: its producing
/// hash carries a live stake record, or a live auction bid and the
/// transaction is not an auction buyout or fill.
pub open spec fn lock_check(s: StateV, h: HandleV, t: TransactionV, c: CoinIdV) -> bool {
    ||| eff_stake(s, h, c.txhash) is Some
    ||| (eff_abid(s, h, c.txhash) is Some && t.kind != TxKind::AuctionBuyout && t.kind
        != TxKind::AuctionFill)
}

/// Phase 2 on the first `n` inputs of one transaction: reject locked or
/// nonexistent coins, look the covenant up among the carried scripts, demand
/// its authorization (auction-locked coins consumed by a buyout or fill are
/// exempt), stage the coin's deletion and accumulate its value per
/// denomination.
pub open spec fn ins_upto(s: StateV, h: HandleV, t: TransactionV, n: int) -> Result<
    (HandleV, Map<Seq<u8>, u128>),
    StateErrorV,
>
    decreases n,
{
    if n <= 0 {
        Ok((h, Map::empty()))
    } else {
        match ins_upto(s, h, t, n - 1) {
            Err(e) => Err(e),
            Ok(p) => {
                let h1 = p.0;
                let m = p.1;
                let c = t.inputs[n - 1];
                if lock_check(s, h1, t, c) {
                    Err(StateErrorV::CoinLocked)
                } else {
                    match eff_coin(s, h1, c) {
                        None => Err(StateErrorV::NonexistentCoin(c)),
                        Some(cdh) => {
                            let ch = cdh.coin_data.covhash;
                            if !script_map_of(t).contains_key(ch) {
                                Err(StateErrorV::NonexistentScript(ch))
                            } else if !(ch == covhash_abid() && (t.kind == TxKind::AuctionBuyout
                                || t.kind == TxKind::AuctionFill)) && !script_check(
                                script_map_of(t)[ch],
                                t,
                            ) {
                                Err(StateErrorV::ViolatesScript(ch))
                            } else {
                                Ok(
                                    (
                                        HandleV { coins: h1.coins.insert(c, None), ..h1 },
                                        m.insert(
                                            cdh.coin_data.denom,
                                            vstd::wrapping::u128_specs::wrapping_add(
                                                get_or_zero(m, cdh.coin_data.denom),
                                                cdh.coin_data.value as u128,
                                            ),
                                        ),
                                    ),
                                )
                            }
                        },
                    }
                }
            },
        }
    }
}

/// Whether one denomination of the outputs balances against the inputs: new
/// tokens (the empty denomination) are exempt, and so are the minted tokens
/// of a DoscMint transaction; otherwise the input sum must exist and equal
/// the output sum.
pub open spec fn denom_ok(t: TransactionV, m_in: Map<Seq<u8>, u128>, d: Seq<u8>) -> bool {
    ||| t.kind == TxKind::DoscMint && d == denom_dosc()
    ||| d.len() == 0
    ||| (m_in.contains_key(d) && m_in[d] == total_outputs_of(t)[d])
}

/// Whether a transaction balances: Faucet transactions are exempt entirely,
/// every other kind must balance every denomination of its total outputs.
pub open spec fn balance_ok(t: TransactionV, m_in: Map<Seq<u8>, u128>) -> bool {
    t.kind == TxKind::Faucet || forall|d: Seq<u8>|
        #[trigger] total_outputs_of(t).contains_key(d) ==> denom_ok(t, m_in, d)
}

/// Phase 2 on one transaction: process its inputs, then demand balance.
pub open spec fn ph2_tx(s: StateV, h: HandleV, t: TransactionV) -> Result<HandleV, StateErrorV> {
    match ins_upto(s, h, t, t.inputs.len() as int) {
        Err(e) => Err(e),
        Ok(p) => if balance_ok(t, p.1) {
            Ok(p.0)
        } else {
            Err(StateErrorV::UnbalancedInOut)
        },
    }
}

/// Phase 2 over a batch, in order, stopping at the first error.
pub open spec fn ph2(s: StateV, h: HandleV, txs: Seq<TransactionV>) -> Result<
    HandleV,
    StateErrorV,
>
    decreases txs.len(),
{
    if txs.len() == 0 {
        Ok(h)
    } else {
        match ph2_tx(s, h, txs[0]) {
            Err(e) => Err(e),
            Ok(h2) => ph2(s, h2, txs.skip(1)),
        }
    }
}

/// The DoscMint rules: the first input must be a ledger coin at least 100
/// blocks mature; the data must decode to a difficulty and proof; the
/// proof-of-work verdict must hold and the difficulty be representable; and
/// the minted-token output total must not exceed the nominal reward that the
/// difficulty earns at this height and global speed.
pub open spec fn doscmint_spec(s: StateV, h: HandleV, t: TransactionV, pow_ok: bool) -> Result<
    HandleV,
    StateErrorV,
> {
    if t.inputs.len() == 0 {
        Err(StateErrorV::MalformedTx)
    } else {
        let c = t.inputs[0];
        if !s.coins.contains_key(c) {
            Err(StateErrorV::MalformedTx)
        } else {
            let cdh = s.coins[c];
            if s.height < cdh.height + 100 {
                Err(StateErrorV::InvalidMelPoW)
            } else {
                match dec_powdata(t.data) {
                    None => Err(StateErrorV::MalformedTx),
                    Some(dp) => {
                        if !pow_ok {
                            Err(StateErrorV::InvalidMelPoW)
                        } else if dp.0 >= 128 {
                            Err(StateErrorV::InvalidMelPoW)
                        } else {
                            let nom = reward_nominal(
                                s.height,
                                reward_real(pow2(dp.0 as nat) as u128, s.dosc_speed),
                            );
                            if get_or_zero(total_outputs_of(t), denom_dosc()) > nom {
                                Err(StateErrorV::InvalidMelPoW)
                            } else {
                                Ok(h)
                            }
                        }
                    },
                }
            }
        }
    }
}

/// The puzzle a DoscMint transaction must solve: the keyed hash of the block
/// hash at the input coin's creation height with the input's encoding, along
/// with the claimed difficulty and proof bytes; nothing when the transaction
/// has no mature first input or undecodable data.
pub open spec fn doscmint_puzzle_spec(s: StateV, t: TransactionV) -> Option<(Seq<u8>, u32, Seq<
    u8,
>)> {
    if t.inputs.len() == 0 {
        None
    } else if !s.coins.contains_key(t.inputs[0]) {
        None
    } else if s.height < s.coins[t.inputs[0]].height + 100 {
        None
    } else {
        match dec_powdata(t.data) {
            None => None,
            Some(dp) => Some(
                (
                    keyed_hash_of(
                        s.history[s.coins[t.inputs[0]].height as int],
                        enc_coinid(t.inputs[0]),
                    ),
                    dp.0,
                    dp.1,
                ),
            ),
        }
    }
}

/// The AuctionBid rules: bids are accepted only in the first half of each
/// 20-block cycle; the data must be exactly a 32-byte covenant hash; the
/// first output must be minted-token-denominated and locked by the reserved
/// auction-bid covenant; the bid is then registered under its hash.
pub open spec fn auctionbid_spec(s: StateV, h: HandleV, t: TransactionV) -> Result<
    HandleV,
    StateErrorV,
> {
    if s.height % 20 >= 10 {
        Err(StateErrorV::BidWrongTime)
    } else if t.data.len() != 32 {
        Err(StateErrorV::MalformedTx)
    } else if t.outputs.len() == 0 {
        Err(StateErrorV::MalformedTx)
    } else if t.outputs[0].denom != denom_dosc() {
        Err(StateErrorV::MalformedTx)
    } else if t.outputs[0].covhash != covhash_abid() {
        Err(StateErrorV::MalformedTx)
    } else {
        Ok(HandleV { abids: h.abids.insert(tx_hash(t), Some(t)), ..h })
    }
}

/// How many of the first `n` inputs resolve to a live auction bid.
pub open spec fn bid_count(s: StateV, h: HandleV, t: TransactionV, n: int) -> int
    decreases n,
{
    if n <= 0 {
        0
    } else {
        bid_count(s, h, t, n - 1) + if eff_abid(s, h, t.inputs[n - 1].txhash) is Some {
            1int
        } else {
            0int
        }
    }
}

/// The index of the input that resolves to a live auction bid, when exactly
/// one does.
pub open spec fn first_bid_idx(s: StateV, h: HandleV, t: TransactionV) -> int {
    choose|i: int| 0 <= i < t.inputs.len() && eff_abid(s, h, t.inputs[i].txhash) is Some
}

/// The AuctionBuyout rules: exactly one input must resolve to a live bid;
/// the first output must be staking-token-denominated, worth at least the
/// bid's offer, and addressed to the covenant hash the bid's data names; the
/// bid then leaves the book.
pub open spec fn buyout_spec(s: StateV, h: HandleV, t: TransactionV) -> Result<
    HandleV,
    StateErrorV,
> {
    if bid_count(s, h, t, t.inputs.len() as int) != 1 {
        Err(StateErrorV::MalformedTx)
    } else {
        let i = first_bid_idx(s, h, t);
        let bid = eff_abid(s, h, t.inputs[i].txhash)->Some_0;
        if t.outputs.len() == 0 {
            Err(StateErrorV::MalformedTx)
        } else if bid.outputs.len() == 0 {
            Err(StateErrorV::MalformedTx)
        } else if t.outputs[0].denom != denom_tsym() || t.outputs[0].value < bid.outputs[0].value
            || t.outputs[0].covhash != bid.data {
            Err(StateErrorV::MalformedTx)
        } else {
            Ok(HandleV { abids: h.abids.insert(t.inputs[i].txhash, None), ..h })
        }
    }
}

/// The Stake rules: the data must decode to a stake record and the first
/// output must be native-token-denominated; the record is then staged only
/// when the consistency conditions fail — a record whose epoch window is
/// sound and whose staked amount matches the first output is deliberately
/// not registered, mirroring the engine's documented behaviour.
pub open spec fn stake_spec(s: StateV, h: HandleV, t: TransactionV) -> Result<
    HandleV,
    StateErrorV,
> {
    match dec_stakedoc(t.data) {
        None => Err(StateErrorV::MalformedTx),
        Some(doc) => {
            if t.outputs.len() == 0 {
                Err(StateErrorV::MalformedTx)
            } else if t.outputs[0].denom != denom_tmel() {
                Err(StateErrorV::MalformedTx)
            } else {
                let curr_epoch = s.height / STAKE_EPOCH;
                if !(doc.e_start > curr_epoch && doc.e_post_end > doc.e_start && doc.syms_staked
                    == t.outputs[0].value) {
                    Ok(HandleV { stakes: h.stakes.insert(tx_hash(t), Some(doc)), ..h })
                } else {
                    Ok(h)
                }
            }
        },
    }
}

/// Phase 3 on one special transaction, dispatched by kind. Fill effects are
/// realized entirely by the balancing of phase 2, so AuctionFill is a no-op
/// here.
pub open spec fn ph3_tx(s: StateV, h: HandleV, t: TransactionV, pow_ok: bool) -> Result<
    HandleV,
    StateErrorV,
> {
    match t.kind {
        TxKind::DoscMint => doscmint_spec(s, h, t, pow_ok),
        TxKind::AuctionBid => auctionbid_spec(s, h, t),
        TxKind::AuctionBuyout => buyout_spec(s, h, t),
        TxKind::AuctionFill => Ok(h),
        TxKind::Stake => stake_spec(s, h, t),
        TxKind::Normal => Ok(h),
        TxKind::Faucet => Ok(h),
    }
}

/// Phase 3 over a batch: every transaction that is not Normal or Faucet goes
/// through its kind's handler, in order, stopping at the first error.
pub open spec fn ph3(s: StateV, h: HandleV, txs: Seq<TransactionV>, pow: Seq<bool>) -> Result<
    HandleV,
    StateErrorV,
>
    decreases txs.len(),
{
    if txs.len() == 0 {
        Ok(h)
    } else {
        let step = if txs[0].kind == TxKind::Normal || txs[0].kind == TxKind::Faucet {
            Ok(h)
        } else {
            ph3_tx(s, h, txs[0], pow[0])
        };
        match step {
            Err(e) => Err(e),
            Ok(h2) => ph3(s, h2, txs.skip(1), pow.skip(1)),
        }
    }
}

/// The whole batch validator: phases strictly in order — registration and
/// fees, outputs, inputs, specials — with the first error aborting the rest.
pub open spec fn apply_batch_spec(
    s: StateV,
    h: HandleV,
    txs: Seq<TransactionV>,
    pow: Seq<bool>,
) -> Result<HandleV, StateErrorV> {
    match ph0(s, h, txs) {
        Err(e) => Err(e),
        Ok(h0) => {
            let h1 = ph1(s, h0, txs);
            match ph2(s, h1, txs) {
                Err(e) => Err(e),
                Ok(h2) => ph3(s, h2, txs, pow),
            }
        },
    }
}

/// Phase 0 accepts only well-formed transactions.
pub proof fn lemma_ph0_wf(s: StateV, h: HandleV, txs: Seq<TransactionV>)
    requires
        ph0(s, h, txs) is Ok,
    ensures
        forall|j: int| 0 <= j < txs.len() ==> well_formed(#[trigger] txs[j]),
    decreases txs.len(),
{
    if txs.len() > 0 {
        let h2 = ph0_tx(s, h, txs[0])->Ok_0;
        lemma_ph0_wf(s, h2, txs.skip(1));
        assert forall|j: int| 0 <= j < txs.len() implies well_formed(#[trigger] txs[j]) by {
            if j > 0 {
                assert(txs.skip(1)[j - 1] == txs[j]);
            }
        };
    }
}

/// Once input processing has failed, processing further inputs returns the
/// same error.
pub proof fn lemma_ins_err_persists(s: StateV, h: HandleV, t: TransactionV, k: int, n: int)
    requires
        0 <= k <= n,
        ins_upto(s, h, t, k) is Err,
    ensures
        ins_upto(s, h, t, n) == ins_upto(s, h, t, k),
    decreases n - k,
{
    if n > k {
        lemma_ins_err_persists(s, h, t, k, n - 1);
    }
}

} // verus!
