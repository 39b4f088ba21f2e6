use melstate::applytx::StateHandle;
use melstate::constants::denom_tmel_bytes;
use melstate::crypto::HashVal;
use melstate::state::State;
use melstate::transaction::{CoinData, CoinDataHeight, CoinID, Script, Transaction, TxKind};
use melstate::wallet::{Wallet, WalletError};

fn keypair() -> ([u8; 64], Script) {
    let sk = tmelcrypt::Ed25519SK::generate();
    (sk.0, Script(sk.to_public().0.to_vec()))
}

fn cid(tag: u8, index: u8) -> CoinID {
    CoinID { txhash: HashVal([tag; 32]), index }
}

fn tmel_coin(owner: &Script, value: u64) -> CoinDataHeight {
    CoinDataHeight {
        coin_data: CoinData { covhash: owner.hash(), value, denom: denom_tmel_bytes() },
        height: 0,
    }
}

#[test]
fn insert_coin_reports_novelty() {
    let (_, script) = keypair();
    let mut w = Wallet::new(script.clone());
    assert!(w.insert_coin(cid(1, 0), tmel_coin(&script, 100)));
    assert!(!w.insert_coin(cid(1, 0), tmel_coin(&script, 100)));
    assert_eq!(w.unspent_coins().len(), 1);
}

#[test]
fn spend_moves_coins_and_rejects_unknown_inputs() {
    let (_, script) = keypair();
    let mut w = Wallet::new(script.clone());
    w.insert_coin(cid(1, 0), tmel_coin(&script, 100));
    let mut tx = Transaction::empty_test();
    tx.inputs.push(cid(1, 0));
    assert_eq!(w.spend(tx), Ok(()));
    assert_eq!(w.unspent_coins().len(), 0);
    // the coin is now known as spent: re-inserting it is refused
    assert!(!w.insert_coin(cid(1, 0), tmel_coin(&script, 100)));

    let mut tx2 = Transaction::empty_test();
    tx2.inputs.push(cid(2, 0));
    assert_eq!(w.spend(tx2), Err(WalletError::NoSuchCoin));
}

#[test]
fn pre_spend_builds_change_and_applies() {
    // the wallet holds one coin of 1000; paying 600 to itself yields a
    // change output of 400 and a transaction the ledger accepts
    let (sk, script) = keypair();
    let mut w = Wallet::new(script.clone());
    w.insert_coin(cid(1, 0), tmel_coin(&script, 1000));
    let pay = CoinData { covhash: script.hash(), value: 600, denom: denom_tmel_bytes() };
    let tx = w.pre_spend(vec![pay]).unwrap();
    assert!(tx.is_well_formed());
    assert_eq!(tx.kind, TxKind::Normal);
    assert_eq!(tx.fee, 0);
    assert_eq!(tx.inputs, vec![cid(1, 0)]);
    assert_eq!(tx.outputs.len(), 2);
    assert_eq!(tx.outputs[0].value, 600);
    assert_eq!(tx.outputs[1].value, 400);
    assert_eq!(tx.outputs[1].covhash, script.hash());

    let signed = tx.sign_ed25519(&sk);
    let mut state = State::genesis();
    state.coins.insert(cid(1, 0), tmel_coin(&script, 1000));
    let mut handle = StateHandle::new(state);
    assert_eq!(handle.apply_tx_batch(&vec![signed.clone()], &vec![false]), Ok(()));
    let after = handle.commit();
    let txhash = signed.hash_nosigs();
    assert_eq!(after.coins.get(&CoinID { txhash, index: 0 }).unwrap().coin_data.value, 600);
    assert_eq!(after.coins.get(&CoinID { txhash, index: 1 }).unwrap().coin_data.value, 400);

    assert_eq!(w.spend(signed), Ok(()));
    assert_eq!(w.unspent_coins().len(), 0);
}

#[test]
fn pre_spend_rejects_oversized_transactions() {
    let (_, script) = keypair();
    let mut w = Wallet::new(script.clone());
    w.insert_coin(cid(1, 0), tmel_coin(&script, 1000));
    let pays: Vec<CoinData> = (0..256)
        .map(|_| CoinData { covhash: script.hash(), value: 1, denom: denom_tmel_bytes() })
        .collect();
    assert_eq!(w.pre_spend(pays), Err(WalletError::Malformed));
}

#[test]
fn pre_spend_rejects_unaffordable_outputs() {
    let (_, script) = keypair();
    let mut w = Wallet::new(script.clone());
    w.insert_coin(cid(1, 0), tmel_coin(&script, 100));
    let pay = CoinData { covhash: script.hash(), value: 600, denom: denom_tmel_bytes() };
    assert_eq!(w.pre_spend(vec![pay]), Err(WalletError::NotEnoughMoney));
}
