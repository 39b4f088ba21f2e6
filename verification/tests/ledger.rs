use melstate::applytx::StateHandle;
use melstate::constants::{
    abid_script_bytes, covhash_abid_val, covhash_destroy_val, denom_dosc_bytes, denom_tmel_bytes,
    denom_tsym_bytes,
};
use melstate::crypto::HashVal;
use melstate::state::{State, StateError};
use melstate::transaction::{
    encode_powdata, encode_stakedoc, CoinData, CoinDataHeight, CoinID, Script, StakeDoc,
    Transaction, TxKind,
};

struct TestHasher;

impl melpow::HashFunction for TestHasher {
    fn hash(&self, b: &[u8], k: &[u8]) -> melpow::SVec<u8> {
        melpow::SVec::from_slice(&tmelcrypt::hash_keyed(k, b).0)
    }
}

fn keypair() -> ([u8; 64], Script) {
    let sk = tmelcrypt::Ed25519SK::generate();
    (sk.0, Script(sk.to_public().0.to_vec()))
}

fn coin(owner: &Script, value: u64, denom: Vec<u8>, height: u64) -> CoinDataHeight {
    CoinDataHeight { coin_data: CoinData { covhash: owner.hash(), value, denom }, height }
}

fn cid(tag: u8, index: u8) -> CoinID {
    CoinID { txhash: HashVal([tag; 32]), index }
}

fn state_at_height(height: u64) -> State {
    let mut s = State::genesis();
    for i in 0..height {
        s.advance_height(HashVal([i as u8; 32]));
    }
    s
}

#[test]
fn empty_batch_commits_unchanged() {
    let state = state_at_height(0);
    let mut handle = StateHandle::new(state);
    assert_eq!(handle.apply_tx_batch(&Vec::new(), &Vec::new()), Ok(()));
    let after = handle.commit();
    assert_eq!(after.height, 0);
    assert_eq!(after.fee_pool, 0);
    assert_eq!(after.tips, 0);
}

#[test]
fn normal_spend_moves_coins() {
    // a genesis coin of 1000 native tokens owned by a script, spent into
    // 600 back to the owner with fee 50 and change 350: the input leaves the
    // coin set and exactly the two outputs join it, keyed by the spending
    // transaction's hash
    let (sk, script) = keypair();
    let mut state = state_at_height(0);
    let genesis_coin = cid(1, 0);
    state.coins.insert(genesis_coin, coin(&script, 1000, denom_tmel_bytes(), 0));
    let tx = Transaction {
        kind: TxKind::Normal,
        inputs: vec![genesis_coin],
        outputs: vec![
            CoinData { covhash: script.hash(), value: 600, denom: denom_tmel_bytes() },
            CoinData { covhash: script.hash(), value: 350, denom: denom_tmel_bytes() },
        ],
        fee: 50,
        scripts: vec![script.clone()],
        data: Vec::new(),
        sigs: Vec::new(),
    }
    .sign_ed25519(&sk);
    assert!(tx.is_well_formed());
    let txhash = tx.hash_nosigs();
    let mut handle = StateHandle::new(state);
    assert_eq!(handle.apply_tx_batch(&vec![tx.clone()], &vec![false]), Ok(()));
    let after = handle.commit();
    assert_eq!(after.coins.get(&genesis_coin), None);
    let out0 = after.coins.get(&CoinID { txhash, index: 0 }).unwrap();
    let out1 = after.coins.get(&CoinID { txhash, index: 1 }).unwrap();
    assert_eq!(out0.coin_data.value, 600);
    assert_eq!(out1.coin_data.value, 350);
    assert_eq!(out0.height, 0);
    assert_eq!(after.transactions.get(&txhash), Some(tx));
    // fee 50 with multiplier 0: all tip, no base fee
    assert_eq!(after.fee_pool, 0);
    assert_eq!(after.tips, 50);
}

#[test]
fn output_to_destroy_hash_is_burned() {
    let (sk, script) = keypair();
    let mut state = state_at_height(0);
    state.coins.insert(cid(1, 0), coin(&script, 100, denom_tmel_bytes(), 0));
    let tx = Transaction {
        kind: TxKind::Normal,
        inputs: vec![cid(1, 0)],
        outputs: vec![CoinData {
            covhash: covhash_destroy_val(),
            value: 100,
            denom: denom_tmel_bytes(),
        }],
        fee: 0,
        scripts: vec![script.clone()],
        data: Vec::new(),
        sigs: Vec::new(),
    }
    .sign_ed25519(&sk);
    let txhash = tx.hash_nosigs();
    let mut handle = StateHandle::new(state);
    assert_eq!(handle.apply_tx_batch(&vec![tx], &vec![false]), Ok(()));
    let after = handle.commit();
    assert_eq!(after.coins.get(&CoinID { txhash, index: 0 }), None);
}

#[test]
fn nonexistent_coin_is_rejected_and_state_untouched() {
    let (sk, script) = keypair();
    let state = state_at_height(0);
    let missing = cid(9, 4);
    let tx = Transaction {
        kind: TxKind::Normal,
        inputs: vec![missing],
        outputs: Vec::new(),
        fee: 0,
        scripts: vec![script.clone()],
        data: Vec::new(),
        sigs: Vec::new(),
    }
    .sign_ed25519(&sk);
    let mut handle = StateHandle::new(state);
    assert_eq!(
        handle.apply_tx_batch(&vec![tx], &vec![false]),
        Err(StateError::NonexistentCoin(missing))
    );
    let back = handle.abort();
    assert_eq!(back.height, 0);
    assert_eq!(back.coins.get(&missing), None);
    assert_eq!(back.fee_pool, 0);
    assert_eq!(back.tips, 0);
}

#[test]
fn insufficient_fee_is_rejected_and_exact_fee_is_all_pool() {
    let (sk, script) = keypair();
    let mut state = state_at_height(0);
    state.fee_multiplier = 1;
    let make = |fee: u64, sk: &[u8; 64]| {
        Transaction {
            kind: TxKind::Normal,
            inputs: vec![cid(1, 0)],
            outputs: Vec::new(),
            fee,
            scripts: vec![script.clone()],
            data: Vec::new(),
            sigs: Vec::new(),
        }
        .sign_ed25519(sk)
    };
    // weight does not depend on the fee's value (fixed-width encoding), so
    // probe it first
    let weight = make(0, &sk).weight();
    let min_fee = weight as u64;
    state.coins.insert(cid(1, 0), coin(&script, min_fee as u64, denom_tmel_bytes(), 0));

    let cheap = make(min_fee - 1, &sk);
    let mut handle = StateHandle::new(state);
    assert_eq!(
        handle.apply_tx_batch(&vec![cheap], &vec![false]),
        Err(StateError::InsufficientFees(weight))
    );
    let state = handle.abort();

    // fee exactly the minimum: tips gain nothing, the pool gains the fee
    let exact = make(min_fee, &sk);
    let mut handle = StateHandle::new(state);
    assert_eq!(handle.apply_tx_batch(&vec![exact], &vec![false]), Ok(()));
    let after = handle.commit();
    assert_eq!(after.fee_pool, weight);
    assert_eq!(after.tips, 0);
}

#[test]
fn double_spend_in_one_batch_fails() {
    let (sk, script) = keypair();
    let mut state = state_at_height(0);
    state.coins.insert(cid(1, 0), coin(&script, 100, denom_tmel_bytes(), 0));
    let make = |marker: u8| {
        Transaction {
            kind: TxKind::Normal,
            inputs: vec![cid(1, 0)],
            outputs: vec![CoinData {
                covhash: script.hash(),
                value: 100,
                denom: denom_tmel_bytes(),
            }],
            fee: 0,
            scripts: vec![script.clone()],
            data: vec![marker],
            sigs: Vec::new(),
        }
        .sign_ed25519(&sk)
    };
    let tx1 = make(1);
    let tx2 = make(2);
    let mut handle = StateHandle::new(state);
    let res = handle.apply_tx_batch(&vec![tx1, tx2], &vec![false, false]);
    assert_eq!(res, Err(StateError::NonexistentCoin(cid(1, 0))));
}

#[test]
fn duplicate_input_in_one_transaction_fails() {
    let (sk, script) = keypair();
    let mut state = state_at_height(0);
    state.coins.insert(cid(1, 0), coin(&script, 100, denom_tmel_bytes(), 0));
    let tx = Transaction {
        kind: TxKind::Normal,
        inputs: vec![cid(1, 0), cid(1, 0)],
        outputs: vec![CoinData { covhash: script.hash(), value: 200, denom: denom_tmel_bytes() }],
        fee: 0,
        scripts: vec![script.clone()],
        data: Vec::new(),
        sigs: Vec::new(),
    }
    .sign_ed25519(&sk);
    let mut handle = StateHandle::new(state);
    assert_eq!(
        handle.apply_tx_batch(&vec![tx], &vec![false]),
        Err(StateError::NonexistentCoin(cid(1, 0)))
    );
}

#[test]
fn unbalanced_transaction_fails() {
    let (sk, script) = keypair();
    let mut state = state_at_height(0);
    state.coins.insert(cid(1, 0), coin(&script, 100, denom_tmel_bytes(), 0));
    let tx = Transaction {
        kind: TxKind::Normal,
        inputs: vec![cid(1, 0)],
        outputs: vec![CoinData { covhash: script.hash(), value: 99, denom: denom_tmel_bytes() }],
        fee: 0,
        scripts: vec![script.clone()],
        data: Vec::new(),
        sigs: Vec::new(),
    }
    .sign_ed25519(&sk);
    let mut handle = StateHandle::new(state);
    assert_eq!(
        handle.apply_tx_batch(&vec![tx], &vec![false]),
        Err(StateError::UnbalancedInOut)
    );
}

#[test]
fn faucet_mints_from_nothing() {
    let (sk, script) = keypair();
    let state = state_at_height(0);
    let tx = Transaction {
        kind: TxKind::Faucet,
        inputs: Vec::new(),
        outputs: vec![CoinData { covhash: script.hash(), value: 777, denom: denom_tmel_bytes() }],
        fee: 0,
        scripts: Vec::new(),
        data: Vec::new(),
        sigs: Vec::new(),
    }
    .sign_ed25519(&sk);
    let txhash = tx.hash_nosigs();
    let mut handle = StateHandle::new(state);
    assert_eq!(handle.apply_tx_batch(&vec![tx], &vec![false]), Ok(()));
    let after = handle.commit();
    assert_eq!(after.coins.get(&CoinID { txhash, index: 0 }).unwrap().coin_data.value, 777);
}

#[test]
fn malformed_transaction_fails() {
    let state = state_at_height(0);
    let mut tx = Transaction::empty_test();
    tx.fee = u64::MAX;
    let mut handle = StateHandle::new(state);
    assert_eq!(
        handle.apply_tx_batch(&vec![tx], &vec![false]),
        Err(StateError::MalformedTx)
    );
}

#[test]
fn stake_locked_coin_cannot_be_spent() {
    let (sk, script) = keypair();
    let mut state = state_at_height(0);
    state.coins.insert(cid(1, 0), coin(&script, 100, denom_tmel_bytes(), 0));
    state.stakes.insert(
        HashVal([1; 32]),
        StakeDoc { e_start: 1, e_post_end: 2, syms_staked: 100 },
    );
    let tx = Transaction {
        kind: TxKind::Normal,
        inputs: vec![cid(1, 0)],
        outputs: vec![CoinData { covhash: script.hash(), value: 100, denom: denom_tmel_bytes() }],
        fee: 0,
        scripts: vec![script.clone()],
        data: Vec::new(),
        sigs: Vec::new(),
    }
    .sign_ed25519(&sk);
    let mut handle = StateHandle::new(state);
    assert_eq!(
        handle.apply_tx_batch(&vec![tx], &vec![false]),
        Err(StateError::CoinLocked)
    );
}

#[test]
fn missing_script_and_bad_signature_fail() {
    let (sk, script) = keypair();
    let (other_sk, _) = keypair();
    let mut state = state_at_height(0);
    state.coins.insert(cid(1, 0), coin(&script, 100, denom_tmel_bytes(), 0));
    // no carried script matches the coin's covenant hash
    let naked = Transaction {
        kind: TxKind::Normal,
        inputs: vec![cid(1, 0)],
        outputs: vec![CoinData { covhash: script.hash(), value: 100, denom: denom_tmel_bytes() }],
        fee: 0,
        scripts: Vec::new(),
        data: Vec::new(),
        sigs: Vec::new(),
    }
    .sign_ed25519(&sk);
    let mut handle = StateHandle::new(state);
    assert_eq!(
        handle.apply_tx_batch(&vec![naked], &vec![false]),
        Err(StateError::NonexistentScript(script.hash()))
    );
    let state = handle.abort();

    // the right script but a signature under the wrong key
    let forged = Transaction {
        kind: TxKind::Normal,
        inputs: vec![cid(1, 0)],
        outputs: vec![CoinData { covhash: script.hash(), value: 100, denom: denom_tmel_bytes() }],
        fee: 0,
        scripts: vec![script.clone()],
        data: Vec::new(),
        sigs: Vec::new(),
    }
    .sign_ed25519(&other_sk);
    let mut handle = StateHandle::new(state);
    assert_eq!(
        handle.apply_tx_batch(&vec![forged], &vec![false]),
        Err(StateError::ViolatesScript(script.hash()))
    );
}

fn bid_tx(sk: &[u8; 64], script: &Script, buyer_covhash: HashVal) -> Transaction {
    Transaction {
        kind: TxKind::AuctionBid,
        inputs: vec![cid(1, 0), cid(2, 0)],
        outputs: vec![CoinData { covhash: covhash_abid_val(), value: 500, denom: denom_dosc_bytes() }],
        fee: 0,
        scripts: vec![script.clone()],
        data: buyer_covhash.0.to_vec(),
        sigs: Vec::new(),
    }
    .sign_ed25519(sk)
}

fn bid_state(script: &Script, height: u64) -> State {
    let mut state = state_at_height(height);
    state.coins.insert(cid(1, 0), coin(script, 500, denom_dosc_bytes(), 0));
    state.coins.insert(cid(2, 0), coin(script, 0, denom_tmel_bytes(), 0));
    state
}

#[test]
fn auction_bid_fails_in_second_half_of_cycle() {
    let (sk, script) = keypair();
    let state = bid_state(&script, 15);
    let tx = bid_tx(&sk, &script, HashVal([3; 32]));
    let mut handle = StateHandle::new(state);
    assert_eq!(
        handle.apply_tx_batch(&vec![tx], &vec![false]),
        Err(StateError::BidWrongTime)
    );
}

#[test]
fn auction_bid_succeeds_in_first_half_and_is_retrievable() {
    let (sk, script) = keypair();
    let state = bid_state(&script, 3);
    let tx = bid_tx(&sk, &script, HashVal([3; 32]));
    let txhash = tx.hash_nosigs();
    let mut handle = StateHandle::new(state);
    assert_eq!(handle.apply_tx_batch(&vec![tx.clone()], &vec![false]), Ok(()));
    let after = handle.commit();
    assert_eq!(after.auction_bids.get(&txhash), Some(tx));
}

#[test]
fn auction_buyout_fills_the_order_and_removes_the_bid() {
    let (sk, script) = keypair();
    let (buyer_sk, buyer_script) = keypair();
    let state = bid_state(&script, 3);
    let bid = bid_tx(&sk, &script, buyer_script.hash());
    let bid_hash = bid.hash_nosigs();
    let mut handle = StateHandle::new(state);
    assert_eq!(handle.apply_tx_batch(&vec![bid], &vec![false]), Ok(()));
    let mut state = handle.commit();

    // the buyer owns staking tokens and a zero-value native coin
    state.coins.insert(cid(4, 0), coin(&buyer_script, 800, denom_tsym_bytes(), 0));
    state.coins.insert(cid(5, 0), coin(&buyer_script, 0, denom_tmel_bytes(), 0));
    let buyout = Transaction {
        kind: TxKind::AuctionBuyout,
        inputs: vec![CoinID { txhash: bid_hash, index: 0 }, cid(4, 0), cid(5, 0)],
        outputs: vec![
            CoinData { covhash: buyer_script.hash(), value: 800, denom: denom_tsym_bytes() },
            CoinData { covhash: buyer_script.hash(), value: 500, denom: denom_dosc_bytes() },
        ],
        fee: 0,
        scripts: vec![buyer_script.clone(), Script(abid_script_bytes())],
        data: Vec::new(),
        sigs: Vec::new(),
    }
    .sign_ed25519(&buyer_sk);
    let mut handle = StateHandle::new(state);
    assert_eq!(handle.apply_tx_batch(&vec![buyout], &vec![false]), Ok(()));
    let after = handle.commit();
    assert_eq!(after.auction_bids.get(&bid_hash), None);
    assert_eq!(after.coins.get(&CoinID { txhash: bid_hash, index: 0 }), None);
}

#[test]
fn auction_locked_coin_needs_buyout_or_fill() {
    // a coin whose producing hash has a live bid cannot be spent by a
    // normal transaction, but an auction fill may consume it
    let (sk, script) = keypair();
    let state = bid_state(&script, 3);
    let bid = bid_tx(&sk, &script, HashVal([3; 32]));
    let bid_hash = bid.hash_nosigs();
    let mut handle = StateHandle::new(state);
    assert_eq!(handle.apply_tx_batch(&vec![bid], &vec![false]), Ok(()));
    let mut state = handle.commit();
    state.coins.insert(cid(6, 0), coin(&script, 0, denom_tmel_bytes(), 0));

    let grab = |kind: TxKind, sk: &[u8; 64]| {
        Transaction {
            kind,
            inputs: vec![CoinID { txhash: bid_hash, index: 0 }, cid(6, 0)],
            outputs: vec![CoinData {
                covhash: script.hash(),
                value: 500,
                denom: denom_dosc_bytes(),
            }],
            fee: 0,
            scripts: vec![script.clone(), Script(abid_script_bytes())],
            data: Vec::new(),
            sigs: Vec::new(),
        }
        .sign_ed25519(sk)
    };
    let normal = grab(TxKind::Normal, &sk);
    let mut handle = StateHandle::new(state);
    assert_eq!(
        handle.apply_tx_batch(&vec![normal], &vec![false]),
        Err(StateError::CoinLocked)
    );
    let state = handle.abort();

    let fill = grab(TxKind::AuctionFill, &sk);
    let mut handle = StateHandle::new(state);
    assert_eq!(handle.apply_tx_batch(&vec![fill], &vec![false]), Ok(()));
    let after = handle.commit();
    assert_eq!(after.coins.get(&CoinID { txhash: bid_hash, index: 0 }), None);
}

#[test]
fn doscmint_needs_maturity_and_respects_reward() {
    let (sk, script) = keypair();

    // an immature input coin: fewer than 100 blocks old
    let mut state = state_at_height(50);
    state.dosc_speed = 1;
    state.coins.insert(cid(1, 0), coin(&script, 100, denom_tmel_bytes(), 0));
    let immature = Transaction {
        kind: TxKind::DoscMint,
        inputs: vec![cid(1, 0)],
        outputs: vec![CoinData { covhash: script.hash(), value: 100, denom: denom_tmel_bytes() }],
        fee: 0,
        scripts: vec![script.clone()],
        data: encode_powdata(4, &[1, 2, 3]),
        sigs: Vec::new(),
    }
    .sign_ed25519(&sk);
    let mut handle = StateHandle::new(state);
    assert_eq!(
        handle.apply_tx_batch(&vec![immature], &vec![true]),
        Err(StateError::InvalidMelPoW)
    );

    // a mature coin with a real proof of work
    let mut state = state_at_height(105);
    state.dosc_speed = 1;
    state.coins.insert(cid(1, 0), coin(&script, 100, denom_tmel_bytes(), 0));
    let difficulty: u32 = 4;
    let shape = |data: Vec<u8>, minted: u64| {
        Transaction {
            kind: TxKind::DoscMint,
            inputs: vec![cid(1, 0)],
            outputs: vec![
                CoinData { covhash: script.hash(), value: 100, denom: denom_tmel_bytes() },
                CoinData { covhash: script.hash(), value: minted, denom: denom_dosc_bytes() },
            ],
            fee: 0,
            scripts: vec![script.clone()],
            data,
            sigs: Vec::new(),
        }
        .sign_ed25519(&sk)
    };
    let probe = shape(encode_powdata(difficulty, &[]), 10);
    let handle = StateHandle::new(state);
    let (chi, d, _) = handle.doscmint_puzzle(&probe).unwrap();
    assert_eq!(d, difficulty);
    let proof = melpow::Proof::generate(&chi.0, difficulty as usize, TestHasher);
    let tx = shape(encode_powdata(difficulty, &proof.to_bytes()), 10);
    // the verdict the external verifier hands back
    let (chi2, d2, proof_bytes) = handle.doscmint_puzzle(&tx).unwrap();
    assert_eq!(chi2, chi);
    let verdict = melpow::Proof::from_bytes(&proof_bytes)
        .map(|p| p.verify(&chi2.0, d2 as usize, TestHasher))
        .unwrap_or(false);
    assert!(verdict);
    let mut handle = handle;
    assert_eq!(handle.apply_tx_batch(&vec![tx.clone()], &vec![verdict]), Ok(()));
    let after = handle.commit();
    let minted = after.coins.get(&CoinID { txhash: tx.hash_nosigs(), index: 1 }).unwrap();
    assert_eq!(minted.coin_data.value, 10);

    // minting more than the nominal reward (2^4 / dosc_speed = 16) fails
    let mut state2 = state_at_height(105);
    state2.dosc_speed = 1;
    state2.coins.insert(cid(1, 0), coin(&script, 100, denom_tmel_bytes(), 0));
    let greedy = shape(encode_powdata(difficulty, &proof.to_bytes()), 17);
    let mut handle = StateHandle::new(state2);
    assert_eq!(
        handle.apply_tx_batch(&vec![greedy], &vec![true]),
        Err(StateError::InvalidMelPoW)
    );
}

#[test]
fn stake_registers_only_inconsistent_records() {
    let (sk, script) = keypair();
    let mut state = state_at_height(0);
    state.coins.insert(cid(1, 0), coin(&script, 300, denom_tmel_bytes(), 0));
    state.coins.insert(cid(2, 0), coin(&script, 300, denom_tmel_bytes(), 0));
    let stake = |input: CoinID, doc: StakeDoc, sk: &[u8; 64]| {
        Transaction {
            kind: TxKind::Stake,
            inputs: vec![input],
            outputs: vec![CoinData {
                covhash: script.hash(),
                value: 300,
                denom: denom_tmel_bytes(),
            }],
            fee: 0,
            scripts: vec![script.clone()],
            data: encode_stakedoc(&doc),
            sigs: Vec::new(),
        }
        .sign_ed25519(sk)
    };
    // a consistent record: epoch window sound, amount matches the first
    // output — deliberately not registered
    let good = stake(cid(1, 0), StakeDoc { e_start: 1, e_post_end: 2, syms_staked: 300 }, &sk);
    // an inconsistent record (window starts in the current epoch) — registered
    let bad = stake(cid(2, 0), StakeDoc { e_start: 0, e_post_end: 2, syms_staked: 300 }, &sk);
    let good_hash = good.hash_nosigs();
    let bad_hash = bad.hash_nosigs();
    let mut handle = StateHandle::new(state);
    assert_eq!(handle.apply_tx_batch(&vec![good, bad], &vec![false, false]), Ok(()));
    let after = handle.commit();
    assert_eq!(after.stakes.get(&good_hash), None);
    assert_eq!(
        after.stakes.get(&bad_hash),
        Some(StakeDoc { e_start: 0, e_post_end: 2, syms_staked: 300 })
    );
}
