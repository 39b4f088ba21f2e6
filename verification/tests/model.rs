use melstate::codec::{push_u64, read_u64};
use melstate::constants::{denom_dosc_bytes, denom_tmel_bytes, MAX_COINVAL};
use melstate::crypto::HashVal;
use melstate::table::TableVal;
use melstate::transaction::{
    decode_powdata, decode_stakedoc, encode_powdata, encode_stakedoc, CoinData, CoinID, Script,
    StakeDoc, Transaction, TxKind,
};

fn keypair() -> ([u8; 64], Script) {
    let sk = tmelcrypt::Ed25519SK::generate();
    (sk.0, Script(sk.to_public().0.to_vec()))
}

fn sample_tx(script: &Script) -> Transaction {
    Transaction {
        kind: TxKind::Normal,
        inputs: vec![CoinID { txhash: HashVal([7u8; 32]), index: 3 }],
        outputs: vec![CoinData {
            covhash: script.hash(),
            value: 1000,
            denom: denom_tmel_bytes(),
        }],
        fee: 21,
        scripts: vec![script.dup()],
        data: vec![1, 2, 3],
        sigs: Vec::new(),
    }
}

#[test]
fn u64_codec_roundtrip() {
    let mut buf: Vec<u8> = Vec::new();
    push_u64(&mut buf, 0);
    push_u64(&mut buf, 0x0123_4567_89ab_cdef);
    push_u64(&mut buf, u64::MAX);
    assert_eq!(buf.len(), 24);
    assert_eq!(read_u64(&buf, 0), 0);
    assert_eq!(read_u64(&buf, 8), 0x0123_4567_89ab_cdef);
    assert_eq!(read_u64(&buf, 16), u64::MAX);
    // little-endian byte order is pinned
    assert_eq!(&buf[8..16], &[0xef, 0xcd, 0xab, 0x89, 0x67, 0x45, 0x23, 0x01]);
}

#[test]
fn stakedoc_codec_roundtrip() {
    let doc = StakeDoc { e_start: 5, e_post_end: 9, syms_staked: 12345 };
    let enc = encode_stakedoc(&doc);
    assert_eq!(enc.len(), 24);
    assert_eq!(decode_stakedoc(&enc), Some(doc));
    assert_eq!(decode_stakedoc(&enc[..23]), None);
    let mut longer = enc.clone();
    longer.push(0);
    assert_eq!(decode_stakedoc(&longer), None);
}

#[test]
fn powdata_codec_roundtrip() {
    let enc = encode_powdata(17, &[9, 8, 7]);
    let (d, p) = decode_powdata(&enc).unwrap();
    assert_eq!(d, 17);
    assert_eq!(p, vec![9, 8, 7]);
    assert_eq!(decode_powdata(&[1, 2, 3]), None);
}

#[test]
fn hash_nosigs_ignores_signing() {
    let (sk, script) = keypair();
    let tx = sample_tx(&script);
    let before = tx.hash_nosigs();
    let signed = tx.sign_ed25519(&sk);
    assert_eq!(signed.sigs.len(), 1);
    assert_eq!(before, signed.hash_nosigs());
    let twice = signed.sign_ed25519(&sk);
    assert_eq!(before, twice.hash_nosigs());
}

#[test]
fn hash_nosigs_depends_on_content() {
    let (_, script) = keypair();
    let tx = sample_tx(&script);
    let mut other = tx.clone();
    other.fee = tx.fee + 1;
    assert_ne!(tx.hash_nosigs(), other.hash_nosigs());
    // the hash is the real hash of the canonical encoding
    let expect = tmelcrypt::hash_single(&tx.encode_nosigs()).0;
    assert_eq!(tx.hash_nosigs().0, expect);
}

#[test]
fn script_check_accepts_only_matching_signature() {
    let (sk, script) = keypair();
    let (other_sk, _) = keypair();
    let tx = sample_tx(&script);
    assert!(!script.check(&tx));
    let signed = tx.sign_ed25519(&sk);
    assert!(script.check(&signed));
    let badly_signed = sample_tx(&script).sign_ed25519(&other_sk);
    assert!(!script.check(&badly_signed));
}

#[test]
fn well_formed_bounds() {
    let (_, script) = keypair();
    let mut tx = sample_tx(&script);
    assert!(tx.is_well_formed());
    tx.fee = MAX_COINVAL + 1;
    assert!(!tx.is_well_formed());
    tx.fee = 0;
    tx.outputs[0].value = MAX_COINVAL + 1;
    assert!(!tx.is_well_formed());
    tx.outputs[0].value = 1;
    for i in 0..256 {
        tx.inputs.push(CoinID { txhash: HashVal([0; 32]), index: (i % 256) as u8 });
    }
    assert!(!tx.is_well_formed());
}

#[test]
fn total_outputs_folds_fee_into_native_token() {
    let (_, script) = keypair();
    let mut tx = sample_tx(&script);
    tx.outputs.push(CoinData { covhash: script.hash(), value: 77, denom: denom_dosc_bytes() });
    tx.outputs.push(CoinData { covhash: script.hash(), value: 500, denom: denom_tmel_bytes() });
    let totals = tx.total_outputs();
    assert_eq!(totals.get(&denom_tmel_bytes()), Some(1000 + 500 + 21));
    assert_eq!(totals.get(&denom_dosc_bytes()), Some(77));
    assert_eq!(totals.get(&vec![0x77]), None);
}

#[test]
fn script_as_map_indexes_by_hash() {
    let (_, s1) = keypair();
    let (_, s2) = keypair();
    let mut tx = sample_tx(&s1);
    tx.scripts.push(s2.dup());
    let m = tx.script_as_map();
    assert_eq!(m.get(&s1.hash()), Some(s1.dup()));
    assert_eq!(m.get(&s2.hash()), Some(s2));
    assert_eq!(m.get(&HashVal([9; 32])), None);
}

#[test]
fn empty_test_is_empty() {
    let tx = Transaction::empty_test();
    assert_eq!(tx.kind, TxKind::Normal);
    assert!(tx.inputs.is_empty());
    assert!(tx.outputs.is_empty());
    assert_eq!(tx.fee, 0);
    assert!(tx.is_well_formed());
}
