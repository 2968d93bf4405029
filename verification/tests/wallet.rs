use pow_ledger::chain::Chain;
use pow_ledger::ecdsa::Address;
use pow_ledger::input::Input;
use pow_ledger::output::Output;
use pow_ledger::pool::Pool;
use pow_ledger::transaction::Transaction;
use pow_ledger::wallet::{history, Wallet};

/// What is read from the payloads of a chain's blocks. The first block
/// holds no list of transactions.
fn payloads_of_new_chain() -> Vec<Option<Vec<Transaction>>> {
    vec![None]
}

/// Mines the pool's transactions into a block and notes what a node reads
/// back from the block's payload.
fn mine_pool(c: &mut Chain, p: &Pool, payloads: &mut Vec<Option<Vec<Transaction>>>) {
    assert!(c.can_add());
    let mined = c.add(format!("{:?}", p.transactions).as_str());
    assert!(mined.is_some());
    payloads.push(Some(p.transactions.clone()));
    assert_eq!(payloads.len(), c.chain.len());
}

fn pay(w: &mut Wallet, to: &Address, amount: i64, ledger: &Vec<Transaction>, p: &mut Pool) -> Result<Transaction, String> {
    assert!(w.can_send(amount, ledger, p));
    w.send(to, amount, ledger, p)
}

fn balance(w: &mut Wallet, ledger: &Vec<Transaction>) -> i64 {
    assert!(w.can_calculate_balance(ledger));
    w.calculate_balance(ledger)
}

#[test]
fn balance_check() {
    let mut w = Wallet::new();
    let mut w2 = Wallet::new();
    let mut c = Chain::new();
    let mut p = Pool::new();
    let mut payloads = payloads_of_new_chain();
    let add = 10;
    for _ in 0..3 {
        let _ = pay(&mut w, &w2.public, add, &history(&payloads), &mut p);
    }

    mine_pool(&mut c, &p, &mut payloads);

    assert_eq!(balance(&mut w2, &history(&payloads)), 80);
    assert_eq!(balance(&mut w, &history(&payloads)), 20);
}

#[test]
fn deriving_twice_from_one_chain_gives_the_same_balance() {
    let mut w = Wallet::new();
    let mut w2 = Wallet::new();
    let mut c = Chain::new();
    let mut p = Pool::new();
    let mut payloads = payloads_of_new_chain();
    for _ in 0..3 {
        let _ = pay(&mut w, &w2.public, 10, &history(&payloads), &mut p);
    }

    mine_pool(&mut c, &p, &mut payloads);

    assert_eq!(balance(&mut w2, &history(&payloads)), 80);
    assert_eq!(balance(&mut w2, &history(&payloads)), 80);
    assert_eq!(balance(&mut w, &history(&payloads)), 20);
    assert_eq!(balance(&mut w, &history(&payloads)), 20);
}

#[test]
fn invalid_transaction() {
    let mut w = Wallet::new();
    let mut w2 = Wallet::new();
    let mut c = Chain::new();
    let mut p = Pool::new();
    let mut payloads = payloads_of_new_chain();

    let b = balance(&mut w, &history(&payloads));

    let _ = pay(&mut w2, &w.public, 60, &history(&payloads), &mut p);

    mine_pool(&mut c, &p, &mut payloads);
    p.clear();

    let _ = pay(&mut w, &w2.public, 10, &history(&payloads), &mut p);

    mine_pool(&mut c, &p, &mut payloads);
    p.clear();

    assert_eq!(balance(&mut w2, &history(&payloads)), b + 10);
    assert_eq!(balance(&mut w, &history(&payloads)), b - 10);
}

#[test]
fn three_payments_amend_one_pending_transaction() {
    let mut w = Wallet::new();
    let w2 = Wallet::new();
    let mut p = Pool::new();
    let ledger: Vec<Transaction> = Vec::new();
    let first = pay(&mut w, &w2.public, 10, &ledger, &mut p).unwrap();
    let second = pay(&mut w, &w2.public, 10, &ledger, &mut p).unwrap();
    let third = pay(&mut w, &w2.public, 10, &ledger, &mut p).unwrap();
    assert_eq!(p.transactions.len(), 1);
    assert_eq!(first.id, second.id);
    assert_eq!(second.id, third.id);
    let amounts: Vec<i64> = p.transactions[0].outputs.iter().map(|o| o.amount).collect();
    assert_eq!(amounts, vec![20, 10, 10, 10]);
    assert_eq!(p.transactions[0].outputs[0].address, w.public);
    assert_eq!(p.transactions[0].outputs[3].address, w2.public);
    assert_eq!(p.transactions[0].input.unwrap().amount, 50);
    assert!(p.transactions[0].verify().is_ok());
    assert!(p.transactions[0].conserved());
}

#[test]
fn overspending_is_refused_and_leaves_the_pool_empty() {
    let mut a = Wallet::new();
    let b = Wallet::new();
    let c = Chain::new();
    let mut p = Pool::new();
    let ledger: Vec<Transaction> = Vec::new();
    let sent = pay(&mut a, &b.public, 60, &ledger, &mut p);
    assert_eq!(sent.unwrap_err(), "amount greater than balance.");
    assert!(p.transactions.is_empty());
    assert_eq!(c.chain.len(), 1);
    assert_eq!(a.balance, 50);
}

#[test]
fn sending_the_whole_balance_is_accepted() {
    let mut a = Wallet::new();
    let b = Wallet::new();
    let mut p = Pool::new();
    let ledger: Vec<Transaction> = Vec::new();
    let t = pay(&mut a, &b.public, 50, &ledger, &mut p).unwrap();
    assert_eq!(t.outputs[0].amount, 0);
    assert_eq!(t.outputs[1].amount, 50);
}

#[test]
fn new_wallet_has_the_initial_balance_and_its_own_keys() {
    let a = Wallet::new();
    let b = Wallet::new();
    assert_eq!(a.balance, 50);
    assert_ne!(a.public, b.public);
}

#[test]
fn signature_depends_on_the_hash() {
    let w = Wallet::new();
    let one = w.sign(pow_ledger::hash::Hash::new(b"one").unwrap()).unwrap();
    let again = w.sign(pow_ledger::hash::Hash::new(b"one").unwrap()).unwrap();
    let two = w.sign(pow_ledger::hash::Hash::new(b"two").unwrap()).unwrap();
    assert_eq!(one, again);
    assert_ne!(one, two);
}

#[test]
fn signing_a_malformed_hash_gives_nothing() {
    let w = Wallet::new();
    assert!(w.sign(pow_ledger::hash::Hash("xyz".to_string())).is_none());
    assert!(w.sign(pow_ledger::hash::Hash("abcd".to_string())).is_none());
}

fn stamped(sender: &Wallet, timestamp: u64, change: Option<i64>, to: &Address, amount: i64, id: u128) -> Transaction {
    let mut outputs = Vec::new();
    if let Some(change) = change {
        outputs.push(Output::new(&sender.public, change));
    }
    outputs.push(Output::new(to, amount));
    let mut input: Input = Input::new(sender, &outputs).unwrap();
    input.timestamp = timestamp;
    Transaction { id, outputs, input: Some(input) }
}

#[test]
fn balance_starts_from_the_latest_own_transaction() {
    let mut me = Wallet::new();
    let other = Wallet::new();
    let ledger = vec![
        stamped(&other, 5, Some(0), &me.public, 7, 1),
        stamped(&me, 10, Some(30), &other.public, 20, 2),
        stamped(&me, 20, Some(12), &other.public, 18, 3),
        stamped(&other, 20, Some(0), &me.public, 100, 4),
        stamped(&other, 21, Some(0), &me.public, 3, 5),
        Transaction::reward(&me.public),
    ];
    // Baseline 12 at time 20; only the payment stamped 21 is later. The
    // reward has no input and is not replayed.
    assert_eq!(balance(&mut me, &ledger), 15);
    assert_eq!(me.balance, 15);
    // Derived again, the result is the same.
    assert_eq!(balance(&mut me, &ledger), 15);
}

#[test]
fn among_equal_timestamps_the_last_own_transaction_is_the_checkpoint() {
    let mut me = Wallet::new();
    let other = Wallet::new();
    let ledger = vec![
        stamped(&me, 10, Some(30), &other.public, 20, 1),
        stamped(&me, 10, Some(25), &other.public, 5, 2),
    ];
    assert_eq!(balance(&mut me, &ledger), 25);
}

#[test]
fn own_transaction_without_change_is_no_checkpoint() {
    let mut me = Wallet::new();
    let other = Wallet::new();
    let ledger = vec![
        stamped(&me, 10, None, &other.public, 50, 1),
        stamped(&other, 4, Some(1), &me.public, 9, 2),
    ];
    // No baseline: the balance of a new wallet, and all that was received
    // after zero.
    assert_eq!(balance(&mut me, &ledger), 59);
    assert_eq!(balance(&mut me, &ledger), 59);
}

#[test]
fn without_own_transactions_received_amounts_add_to_the_kept_balance() {
    let mut me = Wallet::new();
    let other = Wallet::new();
    let ledger = vec![
        stamped(&other, 1, Some(40), &me.public, 10, 1),
        stamped(&other, 0, Some(40), &me.public, 1000, 2),
        stamped(&other, 2, Some(30), &me.public, -4, 3),
    ];
    // The transaction stamped zero is not later than the start.
    assert_eq!(balance(&mut me, &ledger), 56);
    // A second derivation gives the same: the kept balance has no part in it.
    assert_eq!(balance(&mut me, &ledger), 56);
    me.balance = 7;
    assert_eq!(balance(&mut me, &ledger), 56);
}

#[test]
fn balance_out_of_range_is_told_apart() {
    let mut me = Wallet::new();
    let other = Wallet::new();
    let ledger = vec![
        stamped(&other, 1, Some(0), &me.public, i64::MAX, 1),
        stamped(&other, 1, Some(0), &me.public, i64::MAX, 2),
    ];
    assert!(!me.can_calculate_balance(&ledger));
    assert!(!me.can_send(1, &ledger, &Pool::new()));
    let back = vec![
        stamped(&other, 1, Some(0), &me.public, i64::MAX, 1),
        stamped(&other, 1, Some(0), &me.public, i64::MAX, 2),
        stamped(&other, 1, Some(0), &me.public, i64::MIN, 3),
    ];
    // 50 + MAX + MAX + MIN = MAX + 49 is still out of range.
    assert!(!me.can_calculate_balance(&back));
    let fits = vec![
        stamped(&other, 1, Some(0), &me.public, i64::MAX, 1),
        stamped(&other, 1, Some(0), &me.public, i64::MAX, 2),
        stamped(&other, 1, Some(0), &me.public, i64::MIN, 3),
        stamped(&other, 1, Some(0), &me.public, -50, 4),
    ];
    assert!(me.can_calculate_balance(&fits));
    assert_eq!(balance(&mut me, &fits), i64::MAX - 1);
}

#[test]
fn negative_payment_that_overflows_the_change_is_told_apart() {
    let mut me = Wallet::new();
    let other = Wallet::new();
    let ledger: Vec<Transaction> = Vec::new();
    assert!(!me.can_send(i64::MIN, &ledger, &Pool::new()));
    assert!(me.can_send(-1, &ledger, &Pool::new()));
    let mut p = Pool::new();
    let t = pay(&mut me, &other.public, -1, &ledger, &mut p).unwrap();
    assert_eq!(t.outputs[0].amount, 51);
    assert_eq!(t.outputs[1].amount, -1);
}

#[test]
fn history_joins_the_payloads_in_chain_order() {
    let a = Wallet::new();
    let b = Wallet::new();
    let t = |id: u128| stamped(&a, 1, Some(1), &b.public, 1, id);
    let payloads = vec![
        None,
        Some(vec![t(1), t(2)]),
        Some(Vec::new()),
        None,
        Some(vec![t(3)]),
    ];
    let ids: Vec<u128> = history(&payloads).iter().map(|t| t.id).collect();
    assert_eq!(ids, vec![1, 2, 3]);
    assert!(history(&Vec::new()).is_empty());
    assert!(history(&vec![None, None]).is_empty());
}
