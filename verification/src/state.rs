//! The ledger state: the authenticated mappings of coins, transactions,
//! auction bids and stake records, the scalar economic counters, and the
//! block-hash history, together with the validation errors.

use crate::crypto::HashVal;
use crate::table::Table;
use crate::transaction::{
    CoinDataHeight, CoinDataHeightV, CoinID, CoinIdV, StakeDoc, Transaction, TransactionV,
};
use vstd::prelude::*;

verus! {

/// Why a transaction batch was rejected. The first error encountered aborts
/// the whole batch.
#[derive(Clone, Copy, Debug, PartialEq, Eq)]
pub enum StateError {
    /// The transaction is structurally invalid for its kind.
    MalformedTx,
    /// An input coin is not in the ledger (or already spent in this batch).
    NonexistentCoin(CoinID),
    /// No carried script matches an input coin's covenant hash.
    NonexistentScript(HashVal),
    /// The script guarding an input coin rejected the transaction.
    ViolatesScript(HashVal),
    /// An input coin is locked by a live stake or auction bid.
    CoinLocked,
    /// Some denomination's inputs do not balance its outputs.
    UnbalancedInOut,
    /// The fee is below the minimum; carries that minimum.
    InsufficientFees(u128),
    /// The proof-of-work minting rules were violated.
    InvalidMelPoW,
    /// An auction bid was submitted outside the bidding half-cycle.
    BidWrongTime,
}

/// The mathematical shape of a [`StateError`].
#[verifier::ext_equal]
pub enum StateErrorV {
    MalformedTx,
    NonexistentCoin(CoinIdV),
    NonexistentScript(Seq<u8>),
    ViolatesScript(Seq<u8>),
    CoinLocked,
    UnbalancedInOut,
    InsufficientFees(u128),
    InvalidMelPoW,
    BidWrongTime,
}

impl View for StateError {
    type V = StateErrorV;

    open spec fn view(&self) -> StateErrorV {
        match *self {
            StateError::MalformedTx => StateErrorV::MalformedTx,
            StateError::NonexistentCoin(c) => StateErrorV::NonexistentCoin(c@),
            StateError::NonexistentScript(h) => StateErrorV::NonexistentScript(h@),
            StateError::ViolatesScript(h) => StateErrorV::ViolatesScript(h@),
            StateError::CoinLocked => StateErrorV::CoinLocked,
            StateError::UnbalancedInOut => StateErrorV::UnbalancedInOut,
            StateError::InsufficientFees(f) => StateErrorV::InsufficientFees(f),
            StateError::InvalidMelPoW => StateErrorV::InvalidMelPoW,
            StateError::BidWrongTime => StateErrorV::BidWrongTime,
        }
    }
}

/// The ledger state.
pub struct State {
    /// The number of blocks before the one being built; also the height that
    /// newly created coins are stamped with.
    pub height: u64,
    /// The accumulated base fees.
    pub fee_pool: u128,
    /// The accumulated fee overpayments.
    pub tips: u128,
    /// The price of one unit of transaction weight.
    pub fee_multiplier: u128,
    /// The global proof-of-work minting speed.
    pub dosc_speed: u128,
    /// The unspent coins.
    pub coins: Table<CoinID, CoinDataHeight>,
    /// Every applied transaction, keyed by its no-signature hash.
    pub transactions: Table<HashVal, Transaction>,
    /// The live auction bids, keyed by the bidding transaction's hash.
    pub auction_bids: Table<HashVal, Transaction>,
    /// The stake records, keyed by the staking transaction's hash.
    pub stakes: Table<HashVal, StakeDoc>,
    /// The hash of every past block, indexed by height.
    pub history: Vec<HashVal>,
}

/// The mathematical shape of a [`State`].
#[verifier::ext_equal]
pub struct StateV {
    pub height: u64,
    pub fee_pool: u128,
    pub tips: u128,
    pub fee_multiplier: u128,
    pub dosc_speed: u128,
    pub coins: Map<CoinIdV, CoinDataHeightV>,
    pub transactions: Map<Seq<u8>, TransactionV>,
    pub auction_bids: Map<Seq<u8>, TransactionV>,
    pub stakes: Map<Seq<u8>, StakeDoc>,
    pub history: Seq<Seq<u8>>,
}

impl View for State {
    type V = StateV;

    open spec fn view(&self) -> StateV {
        StateV {
            height: self.height,
            fee_pool: self.fee_pool,
            tips: self.tips,
            fee_multiplier: self.fee_multiplier,
            dosc_speed: self.dosc_speed,
            coins: self.coins@,
            transactions: self.transactions@,
            auction_bids: self.auction_bids@,
            stakes: self.stakes@,
            history: self.history@.map_values(|h: HashVal| h@),
        }
    }
}

/// Well-formedness of a ledger state: the history holds one block hash for
/// every past height.
pub open spec fn state_wf(s: StateV) -> bool {
    s.history.len() == s.height
}

impl State {
    /// The state at genesis: empty mappings, zeroed counters, height zero.
    pub fn genesis() -> (s: State)
        ensures
            state_wf(s@),
            s@.height == 0,
            s@.fee_pool == 0,
            s@.tips == 0,
            s@.fee_multiplier == 0,
            s@.dosc_speed == 0,
            s@.coins == Map::<CoinIdV, CoinDataHeightV>::empty(),
            s@.transactions == Map::<Seq<u8>, TransactionV>::empty(),
            s@.auction_bids == Map::<Seq<u8>, TransactionV>::empty(),
            s@.stakes == Map::<Seq<u8>, StakeDoc>::empty(),
            s@.history == Seq::<Seq<u8>>::empty(),
    {
        let s = State {
            height: 0,
            fee_pool: 0,
            tips: 0,
            fee_multiplier: 0,
            dosc_speed: 0,
            coins: Table::new(),
            transactions: Table::new(),
            auction_bids: Table::new(),
            stakes: Table::new(),
            history: Vec::new(),
        };
        proof {
            assert(s@.history =~= Seq::<Seq<u8>>::empty());
        }
        s
    }

    /// The hash of the block at a past height, if there is one.
    pub fn history_hash(&self, height: u64) -> (r: Option<HashVal>)
        ensures
            match r {
                Some(h) => height < self@.history.len() && h@ == self@.history[height as int],
                None => height >= self@.history.len(),
            },
    {
        if height < self.history.len() as u64 {
            let h = self.history[height as usize];
            Some(h)
        } else {
            None
        }
    }

    /// Seals the current block: records its hash in the history and moves to
    /// the next height.
    pub fn advance_height(&mut self, block_hash: HashVal)
        requires
            old(self)@.height < u64::MAX,
            state_wf(old(self)@),
        ensures
            final(self)@ == (StateV {
                height: (old(self)@.height + 1) as u64,
                history: old(self)@.history.push(block_hash@),
                ..old(self)@
            }),
            state_wf(final(self)@),
    {
        self.history.push(block_hash);
        self.height = self.height + 1;
        proof {
            assert(self@.history =~= old(self)@.history.push(block_hash@));
            assert(self@ =~= (StateV {
                height: (old(self)@.height + 1) as u64,
                history: old(self)@.history.push(block_hash@),
                ..old(self)@
            }));
        }
    }
}

} // verus!
