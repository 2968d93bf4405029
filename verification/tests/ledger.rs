use pow_ledger::miner::Miner;
use pow_ledger::output::{credited, find_first_to, sum, Output};
use pow_ledger::pool::Pool;
use pow_ledger::transaction::{Transaction, REWARD};
use pow_ledger::wallet::Wallet;
use sha2::Digest;

#[test]
fn transfer_has_change_then_payment_and_conserves_value() {
    let sender = Wallet::new();
    let receiver = Wallet::new();
    let t = Transaction::new(&sender, &receiver.public, 10).unwrap();
    assert_eq!(t.outputs.len(), 2);
    assert_eq!(t.outputs[0].address, sender.public);
    assert_eq!(t.outputs[0].amount, 40);
    assert_eq!(t.outputs[1].address, receiver.public);
    assert_eq!(t.outputs[1].amount, 10);
    let input = t.input.unwrap();
    assert_eq!(input.amount, 50);
    assert_eq!(input.address, sender.public);
    assert_eq!(sum(&t.outputs), 50);
    assert!(t.conserved());
    assert!(t.verify().is_ok());
}

#[test]
fn transfer_of_more_than_the_balance_is_refused() {
    let sender = Wallet::new();
    let receiver = Wallet::new();
    let refused = Transaction::new(&sender, &receiver.public, 51);
    assert_eq!(refused.unwrap_err(), "amount greater than balance.");
}

#[test]
fn two_transfers_have_different_identifiers() {
    let sender = Wallet::new();
    let receiver = Wallet::new();
    let a = Transaction::new(&sender, &receiver.public, 1).unwrap();
    let b = Transaction::new(&sender, &receiver.public, 1).unwrap();
    assert_ne!(a.id, b.id);
}

#[test]
fn reward_pays_the_miner_and_has_no_input() {
    let miner = Wallet::new();
    let t = Transaction::reward(&miner.public);
    assert_eq!(t.outputs.len(), 1);
    assert_eq!(t.outputs[0].address, miner.public);
    assert_eq!(t.outputs[0].amount, REWARD);
    assert_eq!(REWARD, 50);
    assert!(t.input.is_none());
    assert!(t.verify().is_err());
    assert!(!t.conserved());
}

#[test]
fn tampered_outputs_fail_verification() {
    let sender = Wallet::new();
    let receiver = Wallet::new();
    let mut t = Transaction::new(&sender, &receiver.public, 10).unwrap();
    t.outputs[1].amount = 11;
    assert!(t.verify().is_err());
    t.outputs[1].amount = 10;
    assert!(t.verify().is_ok());
    t.outputs[1].address = sender.public;
    assert!(t.verify().is_err());
}

/// The bytes that are signed for a list of outputs, written out by hand.
fn signed_bytes(outputs: &[Output]) -> Vec<u8> {
    let mut bytes = (outputs.len() as u64).to_le_bytes().to_vec();
    for o in outputs {
        bytes.extend_from_slice(&33u64.to_le_bytes());
        bytes.extend_from_slice(&o.address.bytes);
        bytes.extend_from_slice(&o.amount.to_le_bytes());
    }
    bytes
}

fn accepted_by_hand(t: &Transaction) -> bool {
    let input = t.input.unwrap();
    let digest: [u8; 32] = sha2::Sha256::digest(signed_bytes(&t.outputs)).into();
    let message = secp256k1::Message::from_digest(digest);
    let key = secp256k1::PublicKey::from_slice(&input.address.bytes).unwrap();
    let signature = secp256k1::ecdsa::Signature::from_compact(&input.signature.bytes).unwrap();
    secp256k1::Secp256k1::new()
        .verify_ecdsa(&message, &signature, &key)
        .is_ok()
}

#[test]
fn signature_is_over_the_digest_of_the_outputs_as_written() {
    let sender = Wallet::new();
    let receiver = Wallet::new();
    let mut t = Transaction::new(&sender, &receiver.public, 10).unwrap();
    assert_eq!(signed_bytes(&t.outputs).len(), 8 + 2 * (8 + 33 + 8));
    assert!(accepted_by_hand(&t));
    t.update(&sender, &receiver.public, -3);
    assert_eq!(t.outputs[0].amount, 43);
    assert_eq!(t.outputs[2].amount, -3);
    assert!(accepted_by_hand(&t));
    assert!(t.verify().is_ok());
    t.outputs[2].amount = 3;
    assert!(!accepted_by_hand(&t));
}

#[test]
fn signature_of_another_wallet_fails_verification() {
    let sender = Wallet::new();
    let thief = Wallet::new();
    let receiver = Wallet::new();
    let mut t = Transaction::new(&sender, &receiver.public, 10).unwrap();
    let forged = Transaction::new(&thief, &receiver.public, 10).unwrap();
    let mut input = t.input.unwrap();
    input.signature = forged.input.unwrap().signature;
    t.input = Some(input);
    assert!(t.verify().is_err());
}

#[test]
fn update_takes_from_the_senders_output_and_appends_the_payment() {
    let sender = Wallet::new();
    let receiver = Wallet::new();
    let third = Wallet::new();
    let mut t = Transaction::new(&sender, &receiver.public, 10).unwrap();
    let id = t.id;
    t.update(&sender, &third.public, 15);
    assert_eq!(t.id, id);
    let amounts: Vec<i64> = t.outputs.iter().map(|o| o.amount).collect();
    assert_eq!(amounts, vec![25, 10, 15]);
    assert_eq!(t.outputs[2].address, third.public);
    assert!(t.verify().is_ok());
    assert!(t.conserved());
}

#[test]
fn update_beyond_the_senders_output_changes_nothing() {
    let sender = Wallet::new();
    let receiver = Wallet::new();
    let mut t = Transaction::new(&sender, &receiver.public, 10).unwrap();
    let before = t.clone();
    t.update(&sender, &receiver.public, 41);
    assert_eq!(t.outputs.len(), 2);
    assert_eq!(t.outputs[0].amount, before.outputs[0].amount);
    assert_eq!(t.input.unwrap().signature, before.input.unwrap().signature);
    t.update(&sender, &receiver.public, 40);
    assert_eq!(t.outputs.len(), 3);
    assert_eq!(t.outputs[0].amount, 0);
}

#[test]
fn update_by_a_wallet_without_an_output_changes_nothing() {
    let sender = Wallet::new();
    let receiver = Wallet::new();
    let stranger = Wallet::new();
    let mut t = Transaction::new(&sender, &receiver.public, 10).unwrap();
    t.update(&stranger, &receiver.public, 1);
    assert_eq!(t.outputs.len(), 2);
    assert!(t.verify().is_ok());
}

#[test]
fn update_signed_by_another_key_is_rolled_back() {
    let sender = Wallet::new();
    let receiver = Wallet::new();
    let mut t = Transaction::new(&sender, &receiver.public, 10).unwrap();
    // A wallet that claims the sender's identity but holds another key.
    let mut impostor = Wallet::new();
    impostor.public = sender.public;
    t.update(&impostor, &receiver.public, 5);
    assert_eq!(t.outputs.len(), 2);
    assert_eq!(t.outputs[0].amount, 40);
    assert!(t.verify().is_ok());
}

#[test]
fn transfer_signed_by_another_key_is_refused() {
    let receiver = Wallet::new();
    let mut impostor = Wallet::new();
    impostor.public = receiver.public;
    let refused = Transaction::new(&impostor, &receiver.public, 5);
    assert_eq!(refused.unwrap_err(), "signature does not match.");
}

#[test]
fn sums_of_outputs() {
    let a = Wallet::new();
    let b = Wallet::new();
    let outputs = vec![
        Output::new(&a.public, 5),
        Output::new(&b.public, 7),
        Output::new(&a.public, -2),
        Output::new(&a.public, i64::MAX),
        Output::new(&a.public, i64::MAX),
    ];
    assert_eq!(sum(&outputs), 10 + 2 * (i64::MAX as i128));
    assert_eq!(credited(&outputs, &a.public), 3 + 2 * (i64::MAX as i128));
    assert_eq!(credited(&outputs, &b.public), 7);
    assert_eq!(find_first_to(&outputs, &b.public), Some(1));
    assert_eq!(find_first_to(&outputs, &a.public), Some(0));
    assert_eq!(find_first_to(&outputs, &Wallet::new().public), None);
    assert_eq!(sum(&Vec::new()), 0);
}

#[test]
fn pool_stores_verified_transactions_once_per_identifier() {
    let sender = Wallet::new();
    let receiver = Wallet::new();
    let mut p = Pool::new();
    let mut t = Transaction::new(&sender, &receiver.public, 10).unwrap();
    p.update(t.clone());
    assert_eq!(p.transactions.len(), 1);
    t.update(&sender, &receiver.public, 5);
    p.update(t.clone());
    assert_eq!(p.transactions.len(), 1);
    assert_eq!(p.transactions[0].outputs.len(), 3);
    let other = Transaction::new(&receiver, &sender.public, 1).unwrap();
    p.update(other.clone());
    assert_eq!(p.transactions.len(), 2);
    assert_eq!(p.transactions[1].id, other.id);
    assert_eq!(p.position(other.id), Some(1));
    assert_eq!(p.position(t.id), Some(0));
}

#[test]
fn pool_drops_what_is_not_verified() {
    let sender = Wallet::new();
    let receiver = Wallet::new();
    let mut p = Pool::new();
    let mut t = Transaction::new(&sender, &receiver.public, 10).unwrap();
    t.outputs[0].amount = 1000;
    p.update(t);
    assert!(p.transactions.is_empty());
    p.update(Transaction::reward(&sender.public));
    assert!(p.transactions.is_empty());
}

#[test]
fn pool_finds_the_pending_transaction_of_a_sender() {
    let a = Wallet::new();
    let b = Wallet::new();
    let mut p = Pool::new();
    assert!(p.check(a.public).is_none());
    let ta = Transaction::new(&a, &b.public, 10).unwrap();
    let tb = Transaction::new(&b, &a.public, 20).unwrap();
    p.update(ta.clone());
    p.update(tb.clone());
    assert_eq!(p.pending(&b.public), Some(1));
    assert_eq!(p.check(b.public).unwrap().id, tb.id);
    assert_eq!(p.check(a.public).unwrap().id, ta.id);
    assert!(p.check(Wallet::new().public).is_none());
    p.check(a.public).unwrap().update(&a, &b.public, 1);
    assert_eq!(p.transactions[0].outputs.len(), 3);
}

#[test]
fn valid_keeps_conserving_verified_transactions_and_leaves_the_pool() {
    let a = Wallet::new();
    let b = Wallet::new();
    let mut p = Pool::new();
    let good = Transaction::new(&a, &b.public, 10).unwrap();
    // Verified, but the input declares more than the outputs hold.
    let mut inflated = Transaction::new(&b, &a.public, 10).unwrap();
    let mut input = inflated.input.unwrap();
    input.amount = 60;
    inflated.input = Some(input);
    assert!(inflated.verify().is_ok());
    assert!(!inflated.conserved());
    // Conserving, but tampered with after it was stored.
    let tampered = Transaction::new(&a, &b.public, 20).unwrap();
    p.update(inflated);
    p.update(good.clone());
    p.update(tampered);
    p.transactions[2].outputs[0].amount = 29;
    p.transactions[2].outputs[1].amount = 21;
    assert!(p.transactions[2].conserved());
    let kept = p.valid();
    assert_eq!(kept.len(), 1);
    assert_eq!(kept[0].id, good.id);
    assert_eq!(p.transactions.len(), 3);
    p.clear();
    assert!(p.transactions.is_empty());
    assert!(p.valid().is_empty());
}

#[test]
fn miner_payload_ends_with_the_reward_and_mining_empties_the_pool() {
    let mut m = Miner::new();
    let other = Wallet::new();
    let t = Transaction::new(&other, &m.wallet.public, 5).unwrap();
    m.pool.update(t.clone());
    let payload = m.payload();
    assert_eq!(payload.len(), 2);
    assert_eq!(payload[0].id, t.id);
    assert!(payload[1].input.is_none());
    assert_eq!(payload[1].outputs[0].address, m.wallet.public);
    assert_eq!(payload[1].outputs[0].amount, 50);
    assert!(m.chain.can_add());
    let block = m.mine(format!("{:?}", payload).as_str()).unwrap();
    assert_eq!(m.chain.chain.len(), 2);
    assert_eq!(m.chain.chain[1], block);
    assert!(m.pool.transactions.is_empty());
    assert!(m.chain.validate().is_ok());
}
