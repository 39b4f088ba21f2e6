//! An in-memory wallet over the ledger's coin model: it tracks unspent and
//! spent coins for one covenant, assembles unsigned transactions with change
//! outputs, and records transactions in progress.

use crate::crypto::HashVal;
use crate::table::{Table, TableKey, TableVal};
use crate::transaction::{
    total_outputs_of, tx_hash, well_formed, CoinData, CoinDataHeight, CoinDataHeightV, CoinDataV,
    CoinID, CoinIdV, Script, Transaction, TransactionV, TxKind,
};
use vstd::prelude::*;

verus! {

/// An error that happens on the client side of the ledger: naming, opening
/// and feeding wallets.
#[derive(Clone, Debug, PartialEq, Eq)]
pub enum ClientError {
    /// The wallet name is not acceptable.
    InvalidWalletName(String),
    /// A wallet with this name already exists.
    DuplicateWalletName(String),
    /// The provided secret does not unlock the wallet with this name.
    InvalidWalletSecret(String),
    /// The arguments provided to the client are invalid.
    InvalidInputArgs(String),
}

/// Why the wallet refused an operation.
#[derive(Clone, Copy, Debug, PartialEq, Eq)]
pub enum WalletError {
    /// The unspent coins do not cover the requested outputs.
    NotEnoughMoney,
    /// A transaction input is not an unspent coin of this wallet.
    NoSuchCoin,
    /// The assembled transaction would violate the structural bounds.
    Malformed,
}

/// An in-memory wallet: unspent and spent coins, transactions in progress,
/// and the covenant the wallet's coins are addressed to.
pub struct Wallet {
    unspent_coins: Table<CoinID, CoinDataHeight>,
    spent_coins: Table<CoinID, CoinDataHeight>,
    tx_in_progress: Table<HashVal, Transaction>,
    /// The wallet's own covenant.
    pub my_script: Script,
}

impl Wallet {
    /// The unspent coins, as a map.
    pub closed spec fn unspent(&self) -> Map<CoinIdV, CoinDataHeightV> {
        self.unspent_coins@
    }

    /// The spent coins, as a map.
    pub closed spec fn spent(&self) -> Map<CoinIdV, CoinDataHeightV> {
        self.spent_coins@
    }

    /// The transactions in progress, keyed by their no-signature hashes.
    pub closed spec fn in_progress(&self) -> Map<Seq<u8>, TransactionV> {
        self.tx_in_progress@
    }

    /// The wallet's own covenant, as bytes.
    pub closed spec fn script(&self) -> Seq<u8> {
        self.my_script@
    }

    /// Creates an empty wallet for a covenant.
    pub fn new(my_script: Script) -> (w: Wallet)
        ensures
            w.unspent() == Map::<CoinIdV, CoinDataHeightV>::empty(),
            w.spent() == Map::<CoinIdV, CoinDataHeightV>::empty(),
            w.in_progress() == Map::<Seq<u8>, TransactionV>::empty(),
            w.script() == my_script@,
    {
        Wallet {
            unspent_coins: Table::new(),
            spent_coins: Table::new(),
            tx_in_progress: Table::new(),
            my_script,
        }
    }

    /// The unspent coins, one pair per coin.
    pub fn unspent_coins(&self) -> (r: Vec<(CoinID, CoinDataHeight)>)
        ensures
            forall|i: int|
                0 <= i < r@.len() ==> self.unspent().contains_key(#[trigger] r@[i].0@)
                    && self.unspent()[r@[i].0@] == r@[i].1@,
            forall|i: int, j: int| 0 <= i < j < r@.len() ==> r@[i].0@ != r@[j].0@,
            forall|c: CoinIdV|
                self.unspent().contains_key(c) ==> exists|i: int|
                    0 <= i < r@.len() && r@[i].0@ == c,
    {
        self.unspent_coins.items()
    }

    /// Inserts a coin, unless it is already known as spent; returns whether
    /// the coin was new to the wallet.
    pub fn insert_coin(&mut self, coin_id: CoinID, coin_data_height: CoinDataHeight) -> (r: bool)
        ensures
            final(self).spent() == old(self).spent(),
            final(self).in_progress() == old(self).in_progress(),
            final(self).script() == old(self).script(),
            old(self).spent().contains_key(coin_id@) ==> final(self).unspent() == old(
                self,
            ).unspent() && r == false,
            !old(self).spent().contains_key(coin_id@) ==> final(self).unspent() == old(
                self,
            ).unspent().insert(coin_id@, coin_data_height@) && r == !old(
                self,
            ).unspent().contains_key(coin_id@),
    {
        if self.spent_coins.get(&coin_id).is_some() {
            return false;
        }
        let existed = self.unspent_coins.get(&coin_id).is_some();
        self.unspent_coins.insert(coin_id, coin_data_height);
        !existed
    }

    /// Assembles an **unsigned** transaction that pays the requested outputs
    /// from this wallet's unspent coins, appending one change output per
    /// denomination back to the wallet's own covenant. Nothing is spent yet.
    pub fn pre_spend(&self, outputs: Vec<CoinData>) -> (r: Result<Transaction, WalletError>)
        ensures
            match r {
                Ok(tx) => {
                    &&& tx@.kind == TxKind::Normal
                    &&& tx@.fee == 0
                    &&& tx@.data == Seq::<u8>::empty()
                    &&& tx@.sigs == Seq::<Seq<u8>>::empty()
                    &&& tx@.scripts == seq![self.script()]
                    &&& tx@.outputs.take(outputs@.len() as int) == outputs@.map_values(
                        |o: CoinData| o@,
                    )
                    &&& well_formed(tx@)
                    &&& forall|i: int|
                        0 <= i < tx@.inputs.len() ==> self.unspent().contains_key(
                            #[trigger] tx@.inputs[i],
                        )
                    &&& forall|i: int, j: int|
                        0 <= i < j < tx@.inputs.len() ==> tx@.inputs[i] != tx@.inputs[j]
                    &&& forall|i: int|
                        outputs@.len() <= i < tx@.outputs.len() ==> (#[trigger] tx@.outputs[i]).covhash
                            == crate::crypto::hash_of(self.script())
                    &&& forall|d: Seq<u8>|
                        #[trigger] total_outputs_of(tx@).contains_key(d) ==> coin_sum(
                            self.unspent(),
                            tx@.inputs,
                            d,
                        ) == total_outputs_of(tx@)[d]
                },
                Err(e) => e == WalletError::NotEnoughMoney || e == WalletError::Malformed,
            },
    {
        let my_hash = self.my_script.hash();
        let mut scripts: Vec<Script> = Vec::new();
        scripts.push(self.my_script.dup());
        let mut txn = Transaction {
            kind: TxKind::Normal,
            inputs: Vec::new(),
            outputs,
            fee: 0,
            scripts,
            data: Vec::new(),
            sigs: Vec::new(),
        };
        let ghost out_len = txn.outputs@.len() as int;
        proof {
            assert(txn@.scripts =~= seq![self.script()]);
            assert(txn@.outputs.take(out_len) =~= txn@.outputs);
        }
        let output_sum = txn.total_outputs();
        let ghost m0 = output_sum@;
        let mut input_sum: Table<Vec<u8>, u128> = Table::new();
        let coins = self.unspent_coins.items();
        let ghost t0 = txn@;
        let mut idx: usize = 0;
        while idx < coins.len()
            invariant
                idx <= coins@.len(),
                txn@ == (TransactionV { inputs: txn@.inputs, ..t0 }),
                forall|a: int|
                    0 <= a < txn@.inputs.len() ==> exists|j: int|
                        0 <= j < idx && coins@[j].0@ == #[trigger] txn@.inputs[a],
                forall|a: int|
                    0 <= a < txn@.inputs.len() ==> self.unspent().contains_key(
                        #[trigger] txn@.inputs[a],
                    ),
                forall|a: int, b: int|
                    0 <= a < b < txn@.inputs.len() ==> txn@.inputs[a] != txn@.inputs[b],
                forall|i: int, j: int| 0 <= i < j < coins@.len() ==> coins@[i].0@ != coins@[j].0@,
                forall|i: int|
                    0 <= i < coins@.len() ==> self.unspent().contains_key(
                        (#[trigger] coins@[i]).0@,
                    ) && self.unspent()[coins@[i].0@] == coins@[i].1@,
                forall|d: Seq<u8>|
                    #![trigger denom_total(input_sum@, d)]
                    denom_total(input_sum@, d) == coin_sum(self.unspent(), txn@.inputs, d),
            decreases coins@.len() - idx,
        {
            let gathered: u128 = match input_sum.get(&coins[idx].1.coin_data.denom) {
                Some(v) => v,
                None => 0,
            };
            let target: u128 = match output_sum.get(&coins[idx].1.coin_data.denom) {
                Some(v) => v,
                None => 0,
            };
            if gathered < target {
                let ghost inputs_pre = txn@.inputs;
                txn.inputs.push(coins[idx].0);
                proof {
                    assert(txn@.inputs =~= inputs_pre.push(coins@[idx as int].0@));
                    assert forall|a: int, b: int|
                        0 <= a < b < txn@.inputs.len() implies txn@.inputs[a]
                        != txn@.inputs[b] by {
                        if b == txn@.inputs.len() - 1 {
                            let j = choose|j: int|
                                0 <= j < idx && coins@[j].0@ == txn@.inputs[a];
                            assert(coins@[j].0@ != coins@[idx as int].0@);
                        }
                    };
                }
                let ghost isum_pre = input_sum@;
                let next = gathered.wrapping_add(coins[idx].1.coin_data.value as u128);
                input_sum.insert(crate::transaction::dup_bytes(&coins[idx].1.coin_data.denom), next);
                proof {
                    let u = self.unspent();
                    let c = coins@[idx as int].0@;
                    let dsel = coins@[idx as int].1@.coin_data.denom;
                    assert(u.contains_key(c) && u[c] == coins@[idx as int].1@);
                    assert forall|d: Seq<u8>|
                        #![trigger denom_total(input_sum@, d)]
                        denom_total(input_sum@, d) == coin_sum(u, txn@.inputs, d) by {
                        assert(txn@.inputs.drop_last() =~= inputs_pre);
                        assert(txn@.inputs.last() == c);
                        assert(denom_total(isum_pre, d) == coin_sum(u, inputs_pre, d));
                        assert(coin_sum(u, txn@.inputs, d) == if u[c].coin_data.denom == d {
                            vstd::wrapping::u128_specs::wrapping_add(
                                coin_sum(u, inputs_pre, d),
                                u[c].coin_data.value as u128,
                            )
                        } else {
                            coin_sum(u, inputs_pre, d)
                        });
                        if d == dsel {
                            assert(gathered == denom_total(isum_pre, dsel));
                            assert(denom_total(input_sum@, d)
                                == vstd::wrapping::u128_specs::wrapping_add(
                                denom_total(isum_pre, d),
                                u[c].coin_data.value as u128,
                            ));
                        } else {
                            assert(denom_total(input_sum@, d) == denom_total(isum_pre, d));
                        }
                    };
                }
            }
            idx = idx + 1;
        }
        let ghost sel1 = txn@.inputs;
        proof {
            assert(total_outputs_of(txn@) == m0);
        }
        let out_items = output_sum.items();
        let mut j: usize = 0;
        while j < out_items.len()
            invariant
                j <= out_items@.len(),
                txn@ == (TransactionV { inputs: txn@.inputs, outputs: txn@.outputs, ..t0 }),
                out_len <= txn@.outputs.len(),
                txn@.outputs.take(out_len) == t0.outputs,
                forall|a: int|
                    0 <= a < txn@.inputs.len() ==> self.unspent().contains_key(
                        #[trigger] txn@.inputs[a],
                    ),
                forall|a: int, b: int|
                    0 <= a < b < txn@.inputs.len() ==> txn@.inputs[a] != txn@.inputs[b],
                forall|i: int|
                    out_len <= i < txn@.outputs.len() ==> (#[trigger] txn@.outputs[i]).covhash
                        == crate::crypto::hash_of(self.script()),
                txn@.inputs == sel1,
                forall|d: Seq<u8>|
                    #![trigger m0.contains_key(d)]
                    total_outputs_of(txn@).contains_key(d) == m0.contains_key(d),
                forall|k: int|
                    0 <= k < j ==> total_outputs_of(txn@)[(#[trigger] out_items@[k]).0@]
                        == denom_total(input_sum@, out_items@[k].0@),
                forall|k: int|
                    j <= k < out_items@.len() ==> total_outputs_of(txn@)[(
                    #[trigger] out_items@[k]).0@] == m0[out_items@[k].0@],
            decreases out_items@.len() - j,
        {
            let have: u128 = match input_sum.get(&out_items[j].0) {
                Some(v) => v,
                None => 0,
            };
            let want: u128 = out_items[j].1;
            if have < want {
                return Err(WalletError::NotEnoughMoney);
            }
            let difference = have - want;
            if difference > 0 {
                if difference > 0xffff_ffff_ffff_ffffu128 {
                    return Err(WalletError::Malformed);
                }
                let ghost tv_pre = txn@;
                let ghost outputs_pre = txn@.outputs;
                let change = CoinData {
                    covhash: my_hash,
                    value: difference as u64,
                    denom: crate::transaction::dup_bytes(&out_items[j].0),
                };
                txn.outputs.push(change);
                proof {
                    let dj = out_items@[j as int].0@;
                    let cv = CoinDataV {
                        covhash: crate::crypto::hash_of(self.script()),
                        value: difference as u64,
                        denom: dj,
                    };
                    assert(txn@.outputs =~= outputs_pre.push(cv));
                    assert(txn@.outputs.take(out_len) =~= t0.outputs);
                    assert(txn@ =~= (TransactionV { outputs: tv_pre.outputs.push(cv), ..tv_pre }));
                    crate::transaction::lemma_totals_push(tv_pre, cv);
                    assert(total_outputs_of(tv_pre)[dj] == m0[dj]);
                    assert((difference as u64) as u128 == difference);
                    assert(total_outputs_of(txn@)[dj]
                        == vstd::wrapping::u128_specs::wrapping_add(m0[dj], difference));
                    assert(total_outputs_of(txn@)[dj] == have);
                    assert forall|d: Seq<u8>|
                        #![trigger m0.contains_key(d)]
                        total_outputs_of(txn@).contains_key(d) == m0.contains_key(d) by {
                        assert(total_outputs_of(tv_pre).contains_key(d) == m0.contains_key(d));
                    };
                }
            }
            j = j + 1;
        }
        if !txn.is_well_formed() {
            return Err(WalletError::Malformed);
        }
        proof {
            assert(txn@.outputs.take(out_len) == t0.outputs);
            assert forall|d: Seq<u8>|
                #[trigger] total_outputs_of(txn@).contains_key(d) implies coin_sum(
                self.unspent(),
                txn@.inputs,
                d,
            ) == total_outputs_of(txn@)[d] by {
                assert(m0.contains_key(d));
                let k = choose|k: int| 0 <= k < out_items@.len() && out_items@[k].0@ == d;
                assert(total_outputs_of(txn@)[out_items@[k].0@] == denom_total(
                    input_sum@,
                    out_items@[k].0@,
                ));
                assert(denom_total(input_sum@, d) == coin_sum(self.unspent(), sel1, d));
            };
        }
        Ok(txn)
    }

    /// Marks a transaction's inputs as spent and records it as in progress;
    /// if any input is not an unspent coin (or is named twice), nothing
    /// changes.
    pub fn spend(&mut self, txn: Transaction) -> (r: Result<(), WalletError>)
        ensures
            final(self).script() == old(self).script(),
            match r {
                Ok(()) => {
                    &&& spendable(old(self).unspent(), txn@.inputs)
                    &&& final(self).unspent() == remove_all(old(self).unspent(), txn@.inputs)
                    &&& final(self).spent() == move_all(
                        old(self).unspent(),
                        old(self).spent(),
                        txn@.inputs,
                    )
                    &&& final(self).in_progress() == old(self).in_progress().insert(
                        tx_hash(txn@),
                        txn@,
                    )
                },
                Err(e) => {
                    &&& e == WalletError::NoSuchCoin
                    &&& !spendable(old(self).unspent(), txn@.inputs)
                    &&& final(self).unspent() == old(self).unspent()
                    &&& final(self).spent() == old(self).spent()
                    &&& final(self).in_progress() == old(self).in_progress()
                },
            },
    {
        let n = txn.inputs.len();
        let mut i: usize = 0;
        while i < n
            invariant
                i <= n,
                n == txn@.inputs.len(),
                forall|k: int|
                    0 <= k < i ==> self.unspent().contains_key((#[trigger] txn@.inputs[k]))
                        && forall|l: int| 0 <= l < k ==> txn@.inputs[l] != txn@.inputs[k],
            decreases n - i,
        {
            if self.unspent_coins.get(&txn.inputs[i]).is_none() {
                proof {
                    assert(!spendable(self.unspent(), txn@.inputs)) by {
                        assert(!ok_input(self.unspent(), txn@.inputs, i as int));
                    };
                }
                return Err(WalletError::NoSuchCoin);
            }
            let mut j: usize = 0;
            while j < i
                invariant
                    j <= i < n,
                    n == txn@.inputs.len(),
                    forall|l: int| 0 <= l < j ==> txn@.inputs[l] != txn@.inputs[i as int],
                decreases i - j,
            {
                if txn.inputs[j].key_eq(&txn.inputs[i]) {
                    proof {
                        assert(!spendable(self.unspent(), txn@.inputs)) by {
                            assert(txn@.inputs[j as int] == txn@.inputs[i as int]);
                            assert(!ok_input(self.unspent(), txn@.inputs, i as int));
                        };
                    }
                    return Err(WalletError::NoSuchCoin);
                }
                j = j + 1;
            }
            i = i + 1;
        }
        proof {
            assert(spendable(self.unspent(), txn@.inputs)) by {
                assert forall|k: int| 0 <= k < txn@.inputs.len() implies ok_input(
                    self.unspent(),
                    txn@.inputs,
                    k,
                ) by {
                    assert(self.unspent().contains_key(txn@.inputs[k]));
                };
            };
        }
        let ghost u0 = self.unspent();
        let ghost s0 = self.spent();
        let mut k: usize = 0;
        while k < n
            invariant
                k <= n,
                n == txn@.inputs.len(),
                self.in_progress() == old(self).in_progress(),
                self.script() == old(self).script(),
                spendable(u0, txn@.inputs),
                self.unspent() == remove_upto(u0, txn@.inputs, k as int),
                self.spent() == move_upto(u0, s0, txn@.inputs, k as int),
                forall|l: int, m: int|
                    0 <= l < m < txn@.inputs.len() ==> txn@.inputs[l] != txn@.inputs[m],
            decreases n - k,
        {
            proof {
                assert(ok_input(u0, txn@.inputs, k as int));
                lemma_remove_upto(u0, txn@.inputs, k as int, txn@.inputs[k as int]);
            }
            match self.unspent_coins.remove(txn.inputs[k]) {
                Some(cdh) => {
                    self.spent_coins.insert(txn.inputs[k], cdh);
                },
                None => {
                    proof {
                        assert(remove_upto(u0, txn@.inputs, k as int).contains_key(
                            txn@.inputs[k as int],
                        )) by {
                            lemma_remove_upto(u0, txn@.inputs, k as int, txn@.inputs[k as int]);
                        };
                        assert(false);
                    }
                },
            }
            k = k + 1;
        }
        let h = txn.hash_nosigs();
        self.tx_in_progress.insert(h, txn);
        Ok(())
    }
}

/// The total a denomination map holds for a key, or zero.
pub open spec fn denom_total(m: Map<Seq<u8>, u128>, d: Seq<u8>) -> u128 {
    if m.contains_key(d) {
        m[d]
    } else {
        0
    }
}

/// The total value a list of inputs draws from the unspent coins, per
/// denomination.
pub open spec fn coin_sum(w: Map<CoinIdV, CoinDataHeightV>, inputs: Seq<CoinIdV>, d: Seq<u8>) -> u128
    decreases inputs.len(),
{
    if inputs.len() == 0 {
        0
    } else {
        let prev = coin_sum(w, inputs.drop_last(), d);
        let c = inputs.last();
        if w.contains_key(c) && w[c].coin_data.denom == d {
            vstd::wrapping::u128_specs::wrapping_add(prev, w[c].coin_data.value as u128)
        } else {
            prev
        }
    }
}

/// Whether one input position names an unspent coin not named earlier.
pub open spec fn ok_input(unspent: Map<CoinIdV, CoinDataHeightV>, inputs: Seq<CoinIdV>, k: int) -> bool {
    unspent.contains_key(inputs[k]) && forall|l: int| 0 <= l < k ==> inputs[l] != inputs[k]
}

/// Whether a list of inputs can all be spent from the unspent coins: each
/// present, none named twice.
pub open spec fn spendable(unspent: Map<CoinIdV, CoinDataHeightV>, inputs: Seq<CoinIdV>) -> bool {
    forall|k: int| 0 <= k < inputs.len() ==> #[trigger] ok_input(unspent, inputs, k)
}

/// The unspent coins with the first `n` inputs removed.
pub open spec fn remove_upto(
    unspent: Map<CoinIdV, CoinDataHeightV>,
    inputs: Seq<CoinIdV>,
    n: int,
) -> Map<CoinIdV, CoinDataHeightV>
    decreases n,
{
    if n <= 0 {
        unspent
    } else {
        remove_upto(unspent, inputs, n - 1).remove(inputs[n - 1])
    }
}

/// The unspent coins with every input removed.
pub open spec fn remove_all(
    unspent: Map<CoinIdV, CoinDataHeightV>,
    inputs: Seq<CoinIdV>,
) -> Map<CoinIdV, CoinDataHeightV> {
    remove_upto(unspent, inputs, inputs.len() as int)
}

/// The spent coins with the first `n` inputs' bindings moved over from the
/// unspent coins.
pub open spec fn move_upto(
    unspent: Map<CoinIdV, CoinDataHeightV>,
    spent: Map<CoinIdV, CoinDataHeightV>,
    inputs: Seq<CoinIdV>,
    n: int,
) -> Map<CoinIdV, CoinDataHeightV>
    decreases n,
{
    if n <= 0 {
        spent
    } else {
        move_upto(unspent, spent, inputs, n - 1).insert(inputs[n - 1], unspent[inputs[n - 1]])
    }
}

/// The spent coins with every input's binding moved over.
pub open spec fn move_all(
    unspent: Map<CoinIdV, CoinDataHeightV>,
    spent: Map<CoinIdV, CoinDataHeightV>,
    inputs: Seq<CoinIdV>,
) -> Map<CoinIdV, CoinDataHeightV> {
    move_upto(unspent, spent, inputs, inputs.len() as int)
}

/// Removing distinct other keys leaves a binding in place.
proof fn lemma_remove_upto(
    unspent: Map<CoinIdV, CoinDataHeightV>,
    inputs: Seq<CoinIdV>,
    n: int,
    c: CoinIdV,
)
    requires
        0 <= n <= inputs.len(),
        unspent.contains_key(c),
        forall|l: int| 0 <= l < n ==> inputs[l] != c,
    ensures
        remove_upto(unspent, inputs, n).contains_key(c),
        remove_upto(unspent, inputs, n)[c] == unspent[c],
    decreases n,
{
    if n > 0 {
        lemma_remove_upto(unspent, inputs, n - 1, c);
    }
}

} // verus!
