//! The transaction data model: coin identifiers, coin payloads, covenant
//! scripts, transactions and stake records, with their canonical encoding and
//! hashing.

use crate::codec::{dec8, enc_bytes, le8, push_bytes, push_raw, push_u64, read_u64};
use crate::constants::MAX_COINVAL;
use crate::crypto::{
    ed25519_sign, ed25519_verify, ed_sig_of, ed_verifies, hash_bytes, hash_of, HashVal,
};
use crate::table::{Table, TableKey, TableVal};
use vstd::prelude::*;

verus! {

/// The kind of a transaction. The kinds carry fixed wire tags, given by
/// [`kind_tag`]; they must never be renumbered.
#[derive(Clone, Copy, Debug, PartialEq, Eq, Structural)]
pub enum TxKind {
    Normal,
    Stake,
    DoscMint,
    AuctionBid,
    AuctionBuyout,
    AuctionFill,
    Faucet,
}

/// The wire tag of a transaction kind.
pub open spec fn kind_tag(k: TxKind) -> u8 {
    match k {
        TxKind::Normal => 0x00,
        TxKind::Stake => 0x10,
        TxKind::DoscMint => 0x50,
        TxKind::AuctionBid => 0x51,
        TxKind::AuctionBuyout => 0x52,
        TxKind::AuctionFill => 0x53,
        TxKind::Faucet => 0xff,
    }
}

/// The wire tag of this transaction kind.
pub fn kind_tag_byte(k: TxKind) -> (t: u8)
    ensures
        t == kind_tag(k),
{
    match k {
        TxKind::Normal => 0x00,
        TxKind::Stake => 0x10,
        TxKind::DoscMint => 0x50,
        TxKind::AuctionBid => 0x51,
        TxKind::AuctionBuyout => 0x52,
        TxKind::AuctionFill => 0x53,
        TxKind::Faucet => 0xff,
    }
}

/// Identifies one output of one transaction: the producing transaction's
/// no-signature hash and the output's position.
#[derive(Clone, Copy, Debug, PartialEq, Eq, Hash)]
pub struct CoinID {
    pub txhash: HashVal,
    pub index: u8,
}

/// The mathematical shape of a [`CoinID`].
#[verifier::ext_equal]
pub struct CoinIdV {
    pub txhash: Seq<u8>,
    pub index: u8,
}

impl View for CoinID {
    type V = CoinIdV;

    open spec fn view(&self) -> CoinIdV {
        CoinIdV { txhash: self.txhash@, index: self.index }
    }
}

impl TableKey for CoinID {
    fn key_eq(&self, other: &Self) -> (r: bool) {
        let r = self.txhash.eq_hash(&other.txhash) && self.index == other.index;
        proof {
            if self@.txhash == other@.txhash && self@.index == other@.index {
                assert(self@ =~= other@);
            }
        }
        r
    }

    fn dup_key(&self) -> (r: Self) {
        *self
    }
}

impl TableKey for HashVal {
    fn key_eq(&self, other: &Self) -> (r: bool) {
        self.eq_hash(other)
    }

    fn dup_key(&self) -> (r: Self) {
        *self
    }
}

/// One spendable output: an amount of one token type, gated by the covenant
/// whose hash is `covhash`.
#[derive(Clone, Debug, PartialEq, Eq)]
pub struct CoinData {
    pub covhash: HashVal,
    pub value: u64,
    pub denom: Vec<u8>,
}

/// The mathematical shape of a [`CoinData`].
#[verifier::ext_equal]
pub struct CoinDataV {
    pub covhash: Seq<u8>,
    pub value: u64,
    pub denom: Seq<u8>,
}

impl View for CoinData {
    type V = CoinDataV;

    open spec fn view(&self) -> CoinDataV {
        CoinDataV { covhash: self.covhash@, value: self.value, denom: self.denom@ }
    }
}

/// Copies a byte vector.
pub fn dup_bytes(v: &Vec<u8>) -> (r: Vec<u8>)
    ensures
        r@ == v@,
{
    let mut r: Vec<u8> = Vec::new();
    push_raw(&mut r, v.as_slice());
    proof {
        assert(r@ =~= v@);
    }
    r
}

impl TableKey for Vec<u8> {
    fn key_eq(&self, other: &Self) -> (r: bool) {
        let mut i: usize = 0;
        if self.len() != other.len() {
            proof {
                assert(self@.len() != other@.len());
            }
            return false;
        }
        while i < self.len()
            invariant
                i <= self@.len(),
                self@.len() == other@.len(),
                forall|j: int| 0 <= j < i ==> self@[j] == other@[j],
            decreases self@.len() - i,
        {
            if self[i] != other[i] {
                return false;
            }
            i = i + 1;
        }
        proof {
            assert(self@ =~= other@);
        }
        true
    }

    fn dup_key(&self) -> (r: Self) {
        dup_bytes(self)
    }
}

impl TableVal for u128 {
    fn dup(&self) -> (r: Self) {
        *self
    }
}

impl CoinData {
    /// Returns a coin payload with the same view.
    pub fn dup(&self) -> (r: Self)
        ensures
            r@ == self@,
    {
        let r = CoinData { covhash: self.covhash, value: self.value, denom: dup_bytes(&self.denom) };
        proof {
            assert(r@ =~= self@);
        }
        r
    }
}

impl TableVal for CoinData {
    fn dup(&self) -> (r: Self) {
        self.dup()
    }
}

/// A coin payload annotated with the ledger height at which it was created.
#[derive(Clone, Debug, PartialEq, Eq)]
pub struct CoinDataHeight {
    pub coin_data: CoinData,
    pub height: u64,
}

/// The mathematical shape of a [`CoinDataHeight`].
#[verifier::ext_equal]
pub struct CoinDataHeightV {
    pub coin_data: CoinDataV,
    pub height: u64,
}

impl View for CoinDataHeight {
    type V = CoinDataHeightV;

    open spec fn view(&self) -> CoinDataHeightV {
        CoinDataHeightV { coin_data: self.coin_data@, height: self.height }
    }
}

impl TableVal for CoinDataHeight {
    fn dup(&self) -> (r: Self) {
        let r = CoinDataHeight { coin_data: self.coin_data.dup(), height: self.height };
        proof {
            assert(r@ =~= self@);
        }
        r
    }
}

/// A covenant script: the predicate that gates spending a coin. This engine
/// supports the standard public-key covenant: the 32 bytes of the script are
/// an ed25519 public key, and the script authorizes a transaction exactly when
/// some signature on it verifies under that key. Richer covenant programs are
/// outside this engine.
#[derive(Clone, Debug, PartialEq, Eq)]
pub struct Script(pub Vec<u8>);

impl View for Script {
    type V = Seq<u8>;

    open spec fn view(&self) -> Seq<u8> {
        self.0@
    }
}

impl TableVal for Script {
    fn dup(&self) -> (r: Self) {
        Script(dup_bytes(&self.0))
    }
}

/// A stake record: a commitment of staking tokens to the epoch window
/// `[e_start, e_post_end)`.
#[derive(Clone, Copy, Debug, PartialEq, Eq)]
pub struct StakeDoc {
    pub e_start: u64,
    pub e_post_end: u64,
    pub syms_staked: u64,
}

impl View for StakeDoc {
    type V = StakeDoc;

    open spec fn view(&self) -> StakeDoc {
        *self
    }
}

impl TableVal for StakeDoc {
    fn dup(&self) -> (r: Self) {
        *self
    }
}

/// An individual transaction.
#[derive(Clone, Debug, PartialEq, Eq)]
pub struct Transaction {
    pub kind: TxKind,
    pub inputs: Vec<CoinID>,
    pub outputs: Vec<CoinData>,
    pub fee: u64,
    pub scripts: Vec<Script>,
    pub data: Vec<u8>,
    pub sigs: Vec<Vec<u8>>,
}

/// Copies a list of coin identifiers.
fn dup_coinids(v: &Vec<CoinID>) -> (r: Vec<CoinID>)
    ensures
        r@ == v@,
{
    let mut r: Vec<CoinID> = Vec::new();
    let mut i: usize = 0;
    while i < v.len()
        invariant
            i <= v@.len(),
            r@ == v@.take(i as int),
        decreases v@.len() - i,
    {
        r.push(v[i]);
        i = i + 1;
        proof {
            assert(r@ =~= v@.take(i as int));
        }
    }
    proof {
        assert(v@.take(v@.len() as int) =~= v@);
    }
    r
}

/// Copies a list of coin payloads, preserving every element's view.
fn dup_coindatas(v: &Vec<CoinData>) -> (r: Vec<CoinData>)
    ensures
        r@.len() == v@.len(),
        forall|i: int| 0 <= i < v@.len() ==> (#[trigger] r@[i])@ == v@[i]@,
{
    let mut r: Vec<CoinData> = Vec::new();
    let mut i: usize = 0;
    while i < v.len()
        invariant
            i <= v@.len(),
            r@.len() == i,
            forall|j: int| 0 <= j < i ==> (#[trigger] r@[j])@ == v@[j]@,
        decreases v@.len() - i,
    {
        r.push(v[i].dup());
        i = i + 1;
    }
    r
}

/// Copies a list of covenants, preserving every element's view.
fn dup_scripts(v: &Vec<Script>) -> (r: Vec<Script>)
    ensures
        r@.len() == v@.len(),
        forall|i: int| 0 <= i < v@.len() ==> (#[trigger] r@[i])@ == v@[i]@,
{
    let mut r: Vec<Script> = Vec::new();
    let mut i: usize = 0;
    while i < v.len()
        invariant
            i <= v@.len(),
            r@.len() == i,
            forall|j: int| 0 <= j < i ==> (#[trigger] r@[j])@ == v@[j]@,
        decreases v@.len() - i,
    {
        r.push(Script(dup_bytes(&v[i].0)));
        i = i + 1;
    }
    r
}

/// Copies a list of byte strings, preserving every element's view.
fn dup_byte_lists(v: &Vec<Vec<u8>>) -> (r: Vec<Vec<u8>>)
    ensures
        r@.len() == v@.len(),
        forall|i: int| 0 <= i < v@.len() ==> (#[trigger] r@[i])@ == v@[i]@,
{
    let mut r: Vec<Vec<u8>> = Vec::new();
    let mut i: usize = 0;
    while i < v.len()
        invariant
            i <= v@.len(),
            r@.len() == i,
            forall|j: int| 0 <= j < i ==> (#[trigger] r@[j])@ == v@[j]@,
        decreases v@.len() - i,
    {
        r.push(dup_bytes(&v[i]));
        i = i + 1;
    }
    r
}

/// The mathematical shape of a [`Transaction`].
#[verifier::ext_equal]
pub struct TransactionV {
    pub kind: TxKind,
    pub inputs: Seq<CoinIdV>,
    pub outputs: Seq<CoinDataV>,
    pub fee: u64,
    pub scripts: Seq<Seq<u8>>,
    pub data: Seq<u8>,
    pub sigs: Seq<Seq<u8>>,
}

impl View for Transaction {
    type V = TransactionV;

    open spec fn view(&self) -> TransactionV {
        TransactionV {
            kind: self.kind,
            inputs: self.inputs@.map_values(|c: CoinID| c@),
            outputs: self.outputs@.map_values(|o: CoinData| o@),
            fee: self.fee,
            scripts: self.scripts@.map_values(|s: Script| s@),
            data: self.data@,
            sigs: self.sigs@.map_values(|s: Vec<u8>| s@),
        }
    }
}

impl TableVal for Transaction {
    fn dup(&self) -> (r: Self) {
        let r = Transaction {
            kind: self.kind,
            inputs: dup_coinids(&self.inputs),
            outputs: dup_coindatas(&self.outputs),
            fee: self.fee,
            scripts: dup_scripts(&self.scripts),
            data: dup_bytes(&self.data),
            sigs: dup_byte_lists(&self.sigs),
        };
        proof {
            assert(r@.inputs =~= self@.inputs);
            assert(r@.outputs =~= self@.outputs);
            assert(r@.scripts =~= self@.scripts);
            assert(r@.sigs =~= self@.sigs);
            assert(r@ =~= self@);
        }
        r
    }
}

/// Structural well-formedness: bounded counts and bounded values, checked
/// independently of any ledger state.
pub open spec fn well_formed(t: TransactionV) -> bool {
    &&& t.fee <= MAX_COINVAL
    &&& t.inputs.len() <= 255
    &&& t.outputs.len() <= 255
    &&& forall|i: int| 0 <= i < t.outputs.len() ==> (#[trigger] t.outputs[i]).value <= MAX_COINVAL
}

/// The canonical encoding of a coin identifier.
pub open spec fn enc_coinid(c: CoinIdV) -> Seq<u8> {
    c.txhash + seq![c.index]
}

/// The canonical encoding of a coin payload.
pub open spec fn enc_coindata(o: CoinDataV) -> Seq<u8> {
    o.covhash + le8(o.value) + enc_bytes(o.denom)
}

/// The concatenated encodings of a list of coin identifiers.
pub open spec fn enc_coinids(s: Seq<CoinIdV>) -> Seq<u8>
    decreases s.len(),
{
    if s.len() == 0 {
        Seq::empty()
    } else {
        enc_coinids(s.drop_last()) + enc_coinid(s.last())
    }
}

/// The concatenated encodings of a list of coin payloads.
pub open spec fn enc_coindatas(s: Seq<CoinDataV>) -> Seq<u8>
    decreases s.len(),
{
    if s.len() == 0 {
        Seq::empty()
    } else {
        enc_coindatas(s.drop_last()) + enc_coindata(s.last())
    }
}

/// The concatenated length-prefixed encodings of a list of byte strings.
pub open spec fn enc_byte_lists(s: Seq<Seq<u8>>) -> Seq<u8>
    decreases s.len(),
{
    if s.len() == 0 {
        Seq::empty()
    } else {
        enc_byte_lists(s.drop_last()) + enc_bytes(s.last())
    }
}

/// The canonical no-signature encoding of a transaction: every field in order,
/// lists with a 64-bit count prefix, and the signature list left out.
pub open spec fn enc_tx_nosigs(t: TransactionV) -> Seq<u8> {
    seq![kind_tag(t.kind)] + le8(t.inputs.len() as u64) + enc_coinids(t.inputs) + le8(
        t.outputs.len() as u64,
    ) + enc_coindatas(t.outputs) + le8(t.fee) + le8(t.scripts.len() as u64) + enc_byte_lists(
        t.scripts,
    ) + enc_bytes(t.data)
}

/// The identity of a transaction: the hash of its no-signature encoding.
pub open spec fn tx_hash(t: TransactionV) -> Seq<u8> {
    hash_of(enc_tx_nosigs(t))
}

proof fn lemma_enc_coinids_step(s: Seq<CoinIdV>, i: int)
    requires
        0 <= i < s.len(),
    ensures
        enc_coinids(s.take(i + 1)) == enc_coinids(s.take(i)) + enc_coinid(s[i]),
{
    assert(s.take(i + 1).drop_last() =~= s.take(i));
    assert(s.take(i + 1).last() == s[i]);
}

proof fn lemma_enc_coindatas_step(s: Seq<CoinDataV>, i: int)
    requires
        0 <= i < s.len(),
    ensures
        enc_coindatas(s.take(i + 1)) == enc_coindatas(s.take(i)) + enc_coindata(s[i]),
{
    assert(s.take(i + 1).drop_last() =~= s.take(i));
    assert(s.take(i + 1).last() == s[i]);
}

proof fn lemma_enc_byte_lists_step(s: Seq<Seq<u8>>, i: int)
    requires
        0 <= i < s.len(),
    ensures
        enc_byte_lists(s.take(i + 1)) == enc_byte_lists(s.take(i)) + enc_bytes(s[i]),
{
    assert(s.take(i + 1).drop_last() =~= s.take(i));
    assert(s.take(i + 1).last() == s[i]);
}

impl Script {
    /// The covenant's identity: the hash of its bytes.
    pub fn hash(&self) -> (h: HashVal)
        ensures
            h@ == hash_of(self@),
    {
        hash_bytes(self.0.as_slice())
    }

    /// Whether this covenant authorizes the transaction: the script bytes are
    /// an ed25519 public key and some signature on the transaction's
    /// no-signature hash verifies under it.
    pub fn check(&self, tx: &Transaction) -> (r: bool)
        ensures
            r == script_check(self@, tx@),
    {
        if self.0.len() != 32 {
            return false;
        }
        let h = tx.hash_nosigs();
        let mut k: usize = 0;
        while k < tx.sigs.len()
            invariant
                k <= tx.sigs@.len(),
                self@.len() == 32,
                h@ == tx_hash(tx@),
                forall|j: int| 0 <= j < k ==> !ed_verifies(self@, tx_hash(tx@), tx@.sigs[j]),
            decreases tx.sigs@.len() - k,
        {
            if ed25519_verify(self.0.as_slice(), h.0.as_slice(), tx.sigs[k].as_slice()) {
                proof {
                    assert(ed_verifies(self@, tx_hash(tx@), tx@.sigs[k as int]));
                }
                return true;
            }
            k = k + 1;
        }
        false
    }
}

/// Whether a covenant authorizes a transaction.
pub open spec fn script_check(script: Seq<u8>, t: TransactionV) -> bool {
    script.len() == 32 && exists|i: int|
        0 <= i < t.sigs.len() && ed_verifies(script, tx_hash(t), t.sigs[i])
}

impl Transaction {
    /// The empty normal transaction.
    pub fn empty_test() -> (t: Transaction)
        ensures
            t@ == empty_tx(),
    {
        let t = Transaction {
            kind: TxKind::Normal,
            inputs: Vec::new(),
            outputs: Vec::new(),
            fee: 0,
            scripts: Vec::new(),
            data: Vec::new(),
            sigs: Vec::new(),
        };
        proof {
            assert(t@ =~= empty_tx());
        }
        t
    }

    /// Whether the transaction respects the structural bounds: every output
    /// value and the fee at most [`MAX_COINVAL`], and at most 255 inputs and
    /// 255 outputs.
    pub fn is_well_formed(&self) -> (r: bool)
        ensures
            r == well_formed(self@),
    {
        let mut i: usize = 0;
        while i < self.outputs.len()
            invariant
                i <= self.outputs@.len(),
                forall|j: int| 0 <= j < i ==> (#[trigger] self@.outputs[j]).value <= MAX_COINVAL,
            decreases self.outputs@.len() - i,
        {
            if self.outputs[i].value > MAX_COINVAL {
                proof {
                    assert(self@.outputs[i as int].value > MAX_COINVAL);
                }
                return false;
            }
            i = i + 1;
        }
        if self.fee > MAX_COINVAL {
            return false;
        }
        if self.outputs.len() > 255 || self.inputs.len() > 255 {
            return false;
        }
        true
    }

    /// The canonical no-signature encoding.
    pub fn encode_nosigs(&self) -> (out: Vec<u8>)
        ensures
            out@ == enc_tx_nosigs(self@),
    {
        let mut out: Vec<u8> = Vec::new();
        out.push(kind_tag_byte(self.kind));
        proof {
            assert(out@ =~= seq![kind_tag(self@.kind)]);
        }
        push_u64(&mut out, self.inputs.len() as u64);
        let ghost pre_inputs = out@;
        let mut i: usize = 0;
        proof {
            assert(pre_inputs + enc_coinids(self@.inputs.take(0)) =~= pre_inputs);
        }
        while i < self.inputs.len()
            invariant
                i <= self.inputs@.len(),
                out@ == pre_inputs + enc_coinids(self@.inputs.take(i as int)),
            decreases self.inputs@.len() - i,
        {
            proof {
                lemma_enc_coinids_step(self@.inputs, i as int);
            }
            push_raw(&mut out, self.inputs[i].txhash.0.as_slice());
            out.push(self.inputs[i].index);
            proof {
                assert(out@ =~= pre_inputs + enc_coinids(self@.inputs.take(i + 1)));
            }
            i = i + 1;
        }
        proof {
            assert(self@.inputs.take(self.inputs@.len() as int) =~= self@.inputs);
        }
        push_u64(&mut out, self.outputs.len() as u64);
        let ghost pre_outputs = out@;
        let mut k: usize = 0;
        proof {
            assert(pre_outputs + enc_coindatas(self@.outputs.take(0)) =~= pre_outputs);
        }
        while k < self.outputs.len()
            invariant
                k <= self.outputs@.len(),
                out@ == pre_outputs + enc_coindatas(self@.outputs.take(k as int)),
            decreases self.outputs@.len() - k,
        {
            proof {
                lemma_enc_coindatas_step(self@.outputs, k as int);
            }
            push_raw(&mut out, self.outputs[k].covhash.0.as_slice());
            push_u64(&mut out, self.outputs[k].value);
            push_bytes(&mut out, self.outputs[k].denom.as_slice());
            proof {
                assert(out@ =~= pre_outputs + enc_coindatas(self@.outputs.take(k + 1)));
            }
            k = k + 1;
        }
        proof {
            assert(self@.outputs.take(self.outputs@.len() as int) =~= self@.outputs);
        }
        push_u64(&mut out, self.fee);
        push_u64(&mut out, self.scripts.len() as u64);
        let ghost pre_scripts = out@;
        let mut m: usize = 0;
        proof {
            assert(pre_scripts + enc_byte_lists(self@.scripts.take(0)) =~= pre_scripts);
        }
        while m < self.scripts.len()
            invariant
                m <= self.scripts@.len(),
                out@ == pre_scripts + enc_byte_lists(self@.scripts.take(m as int)),
            decreases self.scripts@.len() - m,
        {
            proof {
                lemma_enc_byte_lists_step(self@.scripts, m as int);
            }
            push_bytes(&mut out, self.scripts[m].0.as_slice());
            proof {
                assert(out@ =~= pre_scripts + enc_byte_lists(self@.scripts.take(m + 1)));
            }
            m = m + 1;
        }
        proof {
            assert(self@.scripts.take(self.scripts@.len() as int) =~= self@.scripts);
        }
        push_bytes(&mut out, self.data.as_slice());
        proof {
            assert(out@ =~= enc_tx_nosigs(self@));
        }
        out
    }

    /// The transaction's identity: the hash of its no-signature encoding. It
    /// is what signatures are computed against, and outputs are keyed by it.
    pub fn hash_nosigs(&self) -> (h: HashVal)
        ensures
            h@ == tx_hash(self@),
    {
        let enc = self.encode_nosigs();
        hash_bytes(enc.as_slice())
    }

    /// The size-based weight that the fee rule prices.
    pub fn weight(&self) -> (w: u128)
        ensures
            w == weight_of(self@),
    {
        let enc = self.encode_nosigs();
        enc.len() as u128
    }

    /// Appends an ed25519 signature over the no-signature hash. The hash
    /// itself never changes, because signatures are not part of it.
    pub fn sign_ed25519(self, sk: &[u8; 64]) -> (r: Transaction)
        ensures
            r@ == (TransactionV { sigs: self@.sigs.push(ed_sig_of(sk@, tx_hash(self@))), ..self@ }),
    {
        let ghost t0 = self@;
        let h = self.hash_nosigs();
        let sig = ed25519_sign(sk, h.0.as_slice());
        let mut r = self;
        r.sigs.push(sig);
        proof {
            assert(r@.sigs =~= t0.sigs.push(sig@));
            assert(r@ =~= (TransactionV { sigs: t0.sigs.push(ed_sig_of(sk@, tx_hash(t0))), ..t0 }));
        }
        r
    }

    /// The total output value per denomination, with the fee folded into the
    /// native token's total.
    pub fn total_outputs(&self) -> (m: Table<Vec<u8>, u128>)
        ensures
            m@ == total_outputs_of(self@),
    {
        let mut m: Table<Vec<u8>, u128> = Table::new();
        let mut i: usize = 0;
        while i < self.outputs.len()
            invariant
                i <= self.outputs@.len(),
                m@ == totals_upto(self@.outputs, i as int),
            decreases self.outputs@.len() - i,
        {
            let denom = dup_bytes(&self.outputs[i].denom);
            let prev: u128 = match m.get(&denom) {
                Some(v) => v,
                None => 0,
            };
            let next: u128 = prev.wrapping_add(self.outputs[i].value as u128);
            m.insert(denom, next);
            i = i + 1;
        }
        proof {
            assert(totals_upto(self@.outputs, self@.outputs.len() as int) == output_totals(
                self@.outputs,
            ));
        }
        let tmel = crate::constants::denom_tmel_bytes();
        let prev: u128 = match m.get(&tmel) {
            Some(v) => v,
            None => 0,
        };
        m.insert(tmel, prev.wrapping_add(self.fee as u128));
        m
    }

    /// The transaction's carried covenants, indexed by their hashes.
    pub fn script_as_map(&self) -> (m: Table<HashVal, Script>)
        ensures
            m@ == script_map_of(self@),
    {
        let mut m: Table<HashVal, Script> = Table::new();
        let mut i: usize = 0;
        while i < self.scripts.len()
            invariant
                i <= self.scripts@.len(),
                m@ == script_map_upto(self@.scripts, i as int),
            decreases self.scripts@.len() - i,
        {
            let h = self.scripts[i].hash();
            m.insert(h, self.scripts[i].dup());
            i = i + 1;
        }
        proof {
            assert(script_map_upto(self@.scripts, self@.scripts.len() as int) == script_map_of(
                self@,
            ));
        }
        m
    }
}

/// The empty normal transaction's shape.
pub open spec fn empty_tx() -> TransactionV {
    TransactionV {
        kind: TxKind::Normal,
        inputs: Seq::empty(),
        outputs: Seq::empty(),
        fee: 0,
        scripts: Seq::empty(),
        data: Seq::empty(),
        sigs: Seq::empty(),
    }
}

/// The weight the fee rule prices: the length of the no-signature encoding.
pub open spec fn weight_of(t: TransactionV) -> u128 {
    enc_tx_nosigs(t).len() as u128
}

/// Per-denomination totals of the first `n` outputs.
pub open spec fn totals_upto(outputs: Seq<CoinDataV>, n: int) -> Map<Seq<u8>, u128>
    decreases n,
{
    if n <= 0 {
        Map::empty()
    } else {
        let m = totals_upto(outputs, n - 1);
        let d = outputs[n - 1].denom;
        let prev: u128 = if m.contains_key(d) {
            m[d]
        } else {
            0
        };
        m.insert(d, vstd::wrapping::u128_specs::wrapping_add(prev, outputs[n - 1].value as u128))
    }
}

/// Per-denomination totals of all outputs.
pub open spec fn output_totals(outputs: Seq<CoinDataV>) -> Map<Seq<u8>, u128> {
    totals_upto(outputs, outputs.len() as int)
}

/// Per-denomination totals of a transaction's outputs, with the fee folded
/// into the native token's total.
pub open spec fn total_outputs_of(t: TransactionV) -> Map<Seq<u8>, u128> {
    let m = output_totals(t.outputs);
    let prev: u128 = if m.contains_key(crate::constants::denom_tmel()) {
        m[crate::constants::denom_tmel()]
    } else {
        0
    };
    m.insert(
        crate::constants::denom_tmel(),
        vstd::wrapping::u128_specs::wrapping_add(prev, t.fee as u128),
    )
}

proof fn lemma_totals_prefix(s1: Seq<CoinDataV>, s2: Seq<CoinDataV>, n: int)
    requires
        forall|i: int| 0 <= i < n ==> s1[i] == s2[i],
    ensures
        totals_upto(s1, n) == totals_upto(s2, n),
    decreases n,
{
    if n > 0 {
        lemma_totals_prefix(s1, s2, n - 1);
    }
}

proof fn lemma_wrap_comm(a: u128, b: u128, c: u128)
    ensures
        vstd::wrapping::u128_specs::wrapping_add(
            vstd::wrapping::u128_specs::wrapping_add(a, b),
            c,
        ) == vstd::wrapping::u128_specs::wrapping_add(
            vstd::wrapping::u128_specs::wrapping_add(a, c),
            b,
        ),
{
}

/// Appending one output adds its value to its denomination's total and
/// leaves every other denomination's total alone.
pub proof fn lemma_totals_push(t: TransactionV, o: CoinDataV)
    ensures
        ({
            let old_m = total_outputs_of(t);
            let new_m = total_outputs_of(TransactionV { outputs: t.outputs.push(o), ..t });
            &&& forall|d: Seq<u8>|
                #![trigger new_m.contains_key(d)]
                #![trigger old_m.contains_key(d)]
                new_m.contains_key(d) == (old_m.contains_key(d) || d == o.denom)
            &&& new_m[o.denom] == vstd::wrapping::u128_specs::wrapping_add(
                if old_m.contains_key(o.denom) {
                    old_m[o.denom]
                } else {
                    0
                },
                o.value as u128,
            )
            &&& forall|d: Seq<u8>|
                d != o.denom && #[trigger] old_m.contains_key(d) ==> new_m[d] == old_m[d]
        }),
{
    let t2 = TransactionV { outputs: t.outputs.push(o), ..t };
    let n = t.outputs.len() as int;
    lemma_totals_prefix(t2.outputs, t.outputs, n);
    assert(totals_upto(t2.outputs, n + 1) == totals_upto(t.outputs, n).insert(
        o.denom,
        vstd::wrapping::u128_specs::wrapping_add(
            if totals_upto(t.outputs, n).contains_key(o.denom) {
                totals_upto(t.outputs, n)[o.denom]
            } else {
                0
            },
            o.value as u128,
        ),
    )) by {
        assert(t2.outputs[n] == o);
        assert(totals_upto(t2.outputs, n) == totals_upto(t.outputs, n));
    };
    if o.denom == crate::constants::denom_tmel() {
        let ot = output_totals(t.outputs);
        let g: u128 = if ot.contains_key(o.denom) {
            ot[o.denom]
        } else {
            0
        };
        lemma_wrap_comm(g, o.value as u128, t.fee as u128);
        assert(total_outputs_of(t2) =~= total_outputs_of(t).insert(
            o.denom,
            vstd::wrapping::u128_specs::wrapping_add(
                total_outputs_of(t)[o.denom],
                o.value as u128,
            ),
        ));
    } else {
        assert(total_outputs_of(t2) =~= total_outputs_of(t).insert(
            o.denom,
            vstd::wrapping::u128_specs::wrapping_add(
                if total_outputs_of(t).contains_key(o.denom) {
                    total_outputs_of(t)[o.denom]
                } else {
                    0
                },
                o.value as u128,
            ),
        ));
    }
}

/// The first `n` carried covenants indexed by their hashes, later ones
/// winning.
pub open spec fn script_map_upto(scripts: Seq<Seq<u8>>, n: int) -> Map<Seq<u8>, Seq<u8>>
    decreases n,
{
    if n <= 0 {
        Map::empty()
    } else {
        script_map_upto(scripts, n - 1).insert(hash_of(scripts[n - 1]), scripts[n - 1])
    }
}

/// A transaction's carried covenants indexed by their hashes.
pub open spec fn script_map_of(t: TransactionV) -> Map<Seq<u8>, Seq<u8>> {
    script_map_upto(t.scripts, t.scripts.len() as int)
}

/// Signing never alters the no-signature hash: a transaction and the same
/// transaction with one more signature hash identically.
pub proof fn lemma_sign_preserves_hash(t: TransactionV, sig: Seq<u8>)
    ensures
        tx_hash(TransactionV { sigs: t.sigs.push(sig), ..t }) == tx_hash(t),
{
    let t2 = TransactionV { sigs: t.sigs.push(sig), ..t };
    assert(enc_tx_nosigs(t2) == enc_tx_nosigs(t));
}

/// The canonical encoding of a stake record.
pub open spec fn enc_stakedoc(d: StakeDoc) -> Seq<u8> {
    le8(d.e_start) + le8(d.e_post_end) + le8(d.syms_staked)
}

/// The stake record denoted by a byte string, if it has exactly the canonical
/// 24-byte shape.
pub open spec fn dec_stakedoc(s: Seq<u8>) -> Option<StakeDoc> {
    if s.len() == 24 {
        Some(
            StakeDoc {
                e_start: dec8(s.subrange(0, 8)),
                e_post_end: dec8(s.subrange(8, 16)),
                syms_staked: dec8(s.subrange(16, 24)),
            },
        )
    } else {
        None
    }
}

/// Encodes a stake record canonically.
pub fn encode_stakedoc(d: &StakeDoc) -> (out: Vec<u8>)
    ensures
        out@ == enc_stakedoc(*d),
{
    let mut out: Vec<u8> = Vec::new();
    push_u64(&mut out, d.e_start);
    push_u64(&mut out, d.e_post_end);
    push_u64(&mut out, d.syms_staked);
    proof {
        assert(out@ =~= enc_stakedoc(*d));
    }
    out
}

/// Decodes a stake record, accepting exactly the canonical 24-byte shape.
pub fn decode_stakedoc(s: &[u8]) -> (r: Option<StakeDoc>)
    ensures
        r == dec_stakedoc(s@),
{
    if s.len() != 24 {
        return None;
    }
    let e_start = read_u64(s, 0);
    let e_post_end = read_u64(s, 8);
    let syms_staked = read_u64(s, 16);
    Some(StakeDoc { e_start, e_post_end, syms_staked })
}

/// Decoding a canonically encoded stake record gives it back.
pub proof fn lemma_stakedoc_roundtrip(d: StakeDoc)
    ensures
        dec_stakedoc(enc_stakedoc(d)) == Some(d),
{
    let s = enc_stakedoc(d);
    assert(s.subrange(0, 8) =~= le8(d.e_start));
    assert(s.subrange(8, 16) =~= le8(d.e_post_end));
    assert(s.subrange(16, 24) =~= le8(d.syms_staked));
    crate::codec::lemma_le8_roundtrip(d.e_start);
    crate::codec::lemma_le8_roundtrip(d.e_post_end);
    crate::codec::lemma_le8_roundtrip(d.syms_staked);
}

/// The canonical encoding of a proof-of-work solution: the difficulty then
/// the opaque proof bytes.
pub open spec fn enc_powdata(difficulty: u32, proof_bytes: Seq<u8>) -> Seq<u8> {
    le8(difficulty as u64) + proof_bytes
}

/// The difficulty and proof bytes denoted by a byte string, if it is long
/// enough and the difficulty fits.
pub open spec fn dec_powdata(s: Seq<u8>) -> Option<(u32, Seq<u8>)> {
    if s.len() >= 8 && dec8(s.subrange(0, 8)) <= u32::MAX {
        Some(((dec8(s.subrange(0, 8)) as u32), s.skip(8)))
    } else {
        None
    }
}

/// Encodes a proof-of-work solution canonically.
pub fn encode_powdata(difficulty: u32, proof_bytes: &[u8]) -> (out: Vec<u8>)
    ensures
        out@ == enc_powdata(difficulty, proof_bytes@),
{
    let mut out: Vec<u8> = Vec::new();
    push_u64(&mut out, difficulty as u64);
    push_raw(&mut out, proof_bytes);
    proof {
        assert(out@ =~= enc_powdata(difficulty, proof_bytes@));
    }
    out
}

/// Decodes a proof-of-work solution.
pub fn decode_powdata(s: &[u8]) -> (r: Option<(u32, Vec<u8>)>)
    ensures
        match r {
            Some((d, p)) => dec_powdata(s@) == Some((d, p@)),
            None => dec_powdata(s@) is None,
        },
{
    if s.len() < 8 {
        return None;
    }
    let d64 = read_u64(s, 0);
    if d64 > 0xffff_ffff {
        return None;
    }
    let mut p: Vec<u8> = Vec::new();
    let mut i: usize = 8;
    proof {
        assert(p@ =~= s@.subrange(8, 8));
    }
    while i < s.len()
        invariant
            8 <= i <= s@.len(),
            s@.len() >= 8,
            p@ == s@.subrange(8, i as int),
        decreases s@.len() - i,
    {
        p.push(s[i]);
        i = i + 1;
        proof {
            assert(p@ =~= s@.subrange(8, i as int));
        }
    }
    proof {
        assert(p@ =~= s@.skip(8));
    }
    Some(((d64 as u32), p))
}

} // verus!
