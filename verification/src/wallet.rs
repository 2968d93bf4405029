//! Wallets: key custody, signing, and the balance derived from the ledger.
use crate::ecdsa::{self, Address, SecretKey, Signature};
use crate::output::{credit, credited, find_first_to, first_to, Amount, OutputView};
use crate::pool::{first_sent_by, first_with_id, one_per_sender, views, Pool};
use crate::transaction::{signing_digest, transfer, Transaction, TransactionView};
use vstd::prelude::*;

verus! {

/// The balance of a new wallet.
pub const INITIAL_BALANCE: Amount = 50;

/// A key pair and the balance last derived for it.
#[derive(Clone, Copy)]
pub struct Wallet {
    /// The balance as last derived; the ledger is the source of truth.
    pub balance: Amount,
    /// The key that signs for the wallet.
    pub secret: SecretKey,
    /// The wallet's identity.
    pub public: Address,
}

/// What a wallet holds, as mathematical values.
pub struct WalletView {
    pub balance: int,
    pub key: Seq<u8>,
    pub public: Seq<u8>,
}

impl View for Wallet {
    type V = WalletView;

    open spec fn view(&self) -> WalletView {
        WalletView { balance: self.balance as int, key: self.secret@, public: self.public@ }
    }
}

/// What the payloads of a chain's blocks hold, block by block: the
/// transactions read from a payload, or `None` for a payload that holds no
/// list of transactions.
pub open spec fn payload_views(payloads: Seq<Option<Vec<Transaction>>>) -> Seq<
    Option<Seq<TransactionView>>,
> {
    payloads.map_values(
        |p: Option<Vec<Transaction>>|
            match p {
                Some(list) => Some(views(list@)),
                None => None,
            },
    )
}

/// The transactions that a chain records, in chain order: those of each
/// payload in turn. A payload that holds no list of transactions contributes
/// nothing.
pub open spec fn recorded(payloads: Seq<Option<Seq<TransactionView>>>) -> Seq<TransactionView>
    decreases payloads.len(),
{
    if payloads.len() == 0 {
        Seq::empty()
    } else {
        recorded(payloads.drop_last()) + match payloads.last() {
            Some(list) => list,
            None => Seq::empty(),
        }
    }
}

/// The transactions that a chain records, in chain order, from what was read
/// from the payload of each block.
pub fn history(payloads: &Vec<Option<Vec<Transaction>>>) -> (all: Vec<Transaction>)
    ensures
        views(all@) == recorded(payload_views(payloads@)),
{
    let ghost read = payload_views(payloads@);
    let mut all: Vec<Transaction> = Vec::new();
    let mut i: usize = 0;
    assert(read.take(0) =~= Seq::<Option<Seq<TransactionView>>>::empty());
    assert(views(all@) =~= recorded(read.take(0)));
    while i < payloads.len()
        invariant
            0 <= i <= payloads@.len(),
            read == payload_views(payloads@),
            views(all@) == recorded(read.take(i as int)),
        decreases payloads@.len() - i,
    {
        let ghost before = views(all@);
        proof {
            assert(read.take(i + 1).drop_last() =~= read.take(i as int));
            assert(read.take(i + 1).last() == read[i as int]);
        }
        match &payloads[i] {
            Some(list) => {
                let mut j: usize = 0;
                while j < list.len()
                    invariant
                        0 <= j <= list@.len(),
                        views(all@) == before + views(list@).take(j as int),
                    decreases list@.len() - j,
                {
                    let ghost so_far = views(all@);
                    all.push(list[j].clone());
                    assert(views(all@) =~= so_far.push(list@[j as int]@));
                    assert(views(list@).take(j + 1) =~= views(list@).take(j as int).push(
                        list@[j as int]@,
                    ));
                    j += 1;
                }
                assert(views(list@).take(j as int) =~= views(list@));
            },
            None => {
                assert(before + Seq::<TransactionView>::empty() =~= before);
            },
        }
        i += 1;
    }
    assert(read.take(i as int) =~= read);
    all
}

/// Whether `k` is the place of the most recent of the transactions in
/// `history` sent by `address`: the one with the greatest input timestamp,
/// and among several with that timestamp the last.
pub open spec fn is_latest_sent(history: Seq<TransactionView>, address: Seq<u8>, k: int) -> bool {
    &&& 0 <= k < history.len()
    &&& history[k].sent_by(address)
    &&& forall|j: int|
        0 <= j < history.len() && (#[trigger] history[j]).sent_by(address) ==> {
            ||| history[j].input->0.timestamp < history[k].input->0.timestamp
            ||| (history[j].input->0.timestamp == history[k].input->0.timestamp && j <= k)
        }
}

/// The place of the most recent of the transactions in `history` sent by
/// `address`, if there is one.
pub open spec fn latest_sent(history: Seq<TransactionView>, address: Seq<u8>) -> Option<int> {
    if exists|k: int| is_latest_sent(history, address, k) {
        Some(choose|k: int| is_latest_sent(history, address, k))
    } else {
        None
    }
}

/// A balance that is known to hold at a time.
pub struct Checkpoint {
    /// The balance.
    pub baseline: int,
    /// The time from which later transactions count.
    pub start: nat,
}

/// The checkpoint that `history` holds for `address`: the change that the
/// most recent transaction sent by `address` gives back to it, at that
/// transaction's time. There is none where `address` has sent nothing, or
/// where its most recent transaction has no output for it.
pub open spec fn checkpoint(history: Seq<TransactionView>, address: Seq<u8>) -> Option<
    Checkpoint,
> {
    match latest_sent(history, address) {
        Some(k) => match first_to(history[k].outputs, address) {
            Some(m) => Some(
                Checkpoint {
                    baseline: history[k].outputs[m].amount,
                    start: history[k].input->0.timestamp,
                },
            ),
            None => None,
        },
        None => None,
    }
}

/// What `address` is paid by those transactions in `history` whose input is
/// stamped later than `start`.
pub open spec fn received(history: Seq<TransactionView>, address: Seq<u8>, start: nat) -> int
    decreases history.len(),
{
    if history.len() == 0 {
        0
    } else {
        received(history.drop_last(), address, start) + if counts(history.last(), start) {
            credit(history.last().outputs, address)
        } else {
            0
        }
    }
}

/// Whether a transaction is replayed after a checkpoint at `start`: it has
/// an input, stamped later than `start`.
pub open spec fn counts(t: TransactionView, start: nat) -> bool {
    t.input matches Some(input) && input.timestamp > start
}

/// The balance of `address` as `history` gives it: the checkpoint's baseline
/// and what was received after it, or, without a checkpoint, the balance of
/// a new wallet and what was received after time zero. It depends on the
/// identity and the history alone.
pub open spec fn replayed(address: Seq<u8>, history: Seq<TransactionView>) -> int {
    match checkpoint(history, address) {
        Some(c) => c.baseline + received(history, address, c.start),
        None => INITIAL_BALANCE + received(history, address, 0),
    }
}

/// At most one place is that of the most recent transaction of a sender.
pub proof fn lemma_latest_sent_unique(
    history: Seq<TransactionView>,
    address: Seq<u8>,
    a: int,
    b: int,
)
    requires
        is_latest_sent(history, address, a),
        is_latest_sent(history, address, b),
    ensures
        a == b,
{
    assert(history[a].sent_by(address));
    assert(history[b].sent_by(address));
}

/// A history in which `address` has sent nothing gives it the balance of a
/// new wallet, plus all it was paid after time zero.
pub proof fn lemma_replayed_without_spending(address: Seq<u8>, history: Seq<TransactionView>)
    requires
        forall|j: int| 0 <= j < history.len() ==> !(#[trigger] history[j]).sent_by(address),
    ensures
        replayed(address, history) == INITIAL_BALANCE + received(history, address, 0),
{
    assert forall|k: int| !is_latest_sent(history, address, k) by {
        if 0 <= k < history.len() {
            assert(!history[k].sent_by(address));
        }
    }
}

/// The balance is a view of the ledger: what a history gives a wallet does
/// not depend on the balance that the wallet has kept. Two wallets of one
/// identity derive the same balance from it, and so does one wallet that
/// derives twice.
pub proof fn lemma_derivation_ignores_kept_balance(
    one: Wallet,
    other: Wallet,
    history: Seq<TransactionView>,
)
    requires
        one@.public == other@.public,
    ensures
        one.derived(history) == other.derived(history),
        one.derivable(history) == other.derivable(history),
{
}

/// Two to the power 126, the size of the unit in which `Wide` counts.
const UNIT: i128 = 0x4000_0000_0000_0000_0000_0000_0000_0000;

/// A sum of amounts that is too wide for any machine integer: `units` times
/// `UNIT`, plus `rest`.
struct Wide {
    units: i128,
    rest: i128,
}

impl Wide {
    spec fn value(self) -> int {
        self.units * UNIT + self.rest
    }

    spec fn wf(self, steps: int) -> bool {
        &&& 0 <= self.rest < UNIT
        &&& -2 * steps - 1 <= self.units <= 2 * steps
    }

    fn of(balance: Amount) -> (made: Wide)
        ensures
            made.value() == balance,
            made.wf(0),
    {
        if balance >= 0 {
            Wide { units: 0, rest: balance as i128 }
        } else {
            Wide { units: -1, rest: UNIT + balance as i128 }
        }
    }

    fn plus(self, more: i128, Ghost(steps): Ghost<int>) -> (made: Wide)
        requires
            self.wf(steps),
            0 <= steps < usize::MAX,
            -2 * UNIT < more < 2 * UNIT,
        ensures
            made.value() == self.value() + more,
            made.wf(steps + 1),
    {
        let mut units: i128 = self.units;
        let mut part: i128 = more;
        if part >= UNIT {
            units = units + 1;
            part = part - UNIT;
        } else if part < -UNIT {
            units = units - 2;
            part = part + UNIT + UNIT;
        } else if part < 0 {
            units = units - 1;
            part = part + UNIT;
        }
        let mut rest: i128 = self.rest + part;
        if rest >= UNIT {
            units = units + 1;
            rest = rest - UNIT;
        }
        Wide { units, rest }
    }

    fn narrow(self) -> (made: Option<Amount>)
        requires
            0 <= self.rest < UNIT,
        ensures
            match made {
                Some(amount) => amount == self.value(),
                None => !(Amount::MIN <= self.value() <= Amount::MAX),
            },
    {
        if self.units == 0 && self.rest <= 0x7fff_ffff_ffff_ffff {
            Some(self.rest as i64)
        } else if self.units == -1 && self.rest >= UNIT - 0x8000_0000_0000_0000 {
            Some((self.rest - UNIT) as i64)
        } else {
            None
        }
    }
}

impl Wallet {
    /// The signature that this wallet makes over the digest of `outputs`, if
    /// it can make one.
    pub open spec fn signature_for(&self, outputs: Seq<OutputView>) -> Option<Seq<u8>> {
        ecdsa::signature_of(self@.key, signing_digest(outputs))
    }

    /// Whether this wallet can sign `outputs` with a signature that is
    /// accepted for its own identity.
    pub open spec fn signs(&self, outputs: Seq<OutputView>) -> bool {
        &&& self.signature_for(outputs) matches Some(signature)
        &&& ecdsa::accepts(self@.public, signing_digest(outputs), signature)
    }

    /// The balance that `history` gives this wallet.
    pub open spec fn derived(&self, history: Seq<TransactionView>) -> int {
        replayed(self@.public, history)
    }

    /// Whether the balance that `history` gives this wallet is within the
    /// range of amounts.
    pub open spec fn derivable(&self, history: Seq<TransactionView>) -> bool {
        Amount::MIN <= self.derived(history) <= Amount::MAX
    }

    /// Whether `send` can be called: the derived balance is within the range
    /// of amounts, and so is the change that the payment leaves, where a
    /// payment is made.
    pub open spec fn sendable(
        &self,
        amount: Amount,
        history: Seq<TransactionView>,
        pool: Seq<TransactionView>,
    ) -> bool {
        let balance = self.derived(history);
        &&& Amount::MIN <= balance <= Amount::MAX
        &&& amount <= balance ==> match first_sent_by(pool, self.public@) {
            Some(i) => match first_to(pool[i].outputs, self.public@) {
                Some(k) => amount <= pool[i].outputs[k].amount ==> pool[i].outputs[k].amount
                    - amount <= Amount::MAX,
                None => true,
            },
            None => balance - amount <= Amount::MAX,
        }
    }

    /// A wallet with a fresh key pair and the initial balance.
    pub fn new() -> (made: Wallet)
        ensures
            made.balance == INITIAL_BALANCE,
    {
        let (secret, public) = ecdsa::generate_keypair();
        Wallet { balance: INITIAL_BALANCE, secret, public }
    }

    /// Signs the digest that `hash` stands for. `None` where `hash` does not
    /// stand for thirty-two bytes or the wallet's key cannot sign.
    pub fn sign(&self, hash: crate::hash::Hash) -> (made: Option<Signature>)
        ensures
            match made {
                Some(signature) => crate::hash::digest_bytes(hash@) matches Some(digest)
                    && ecdsa::signature_of(self.secret@, digest) == Some(signature@),
                None => crate::hash::digest_bytes(hash@) matches Some(digest)
                    ==> ecdsa::signature_of(self.secret@, digest) is None,
            },
    {
        match crate::hexadecimal::decode(hash.0.as_str()) {
            Ok(digest) => ecdsa::sign(&self.secret, digest.as_slice()),
            Err(_) => None,
        }
    }

    /// The place of the most recent transaction in `history` sent by this
    /// wallet.
    fn latest(&self, history: &Vec<Transaction>) -> (found: Option<usize>)
        ensures
            match found {
                Some(k) => is_latest_sent(views(history@), self.public@, k as int) && latest_sent(
                    views(history@),
                    self.public@,
                ) == Some(k as int),
                None => latest_sent(views(history@), self.public@) is None,
            },
    {
        let ghost all = views(history@);
        let ghost me = self.public@;
        let mut best: Option<usize> = None;
        let mut stamp: u64 = 0;
        let mut i: usize = 0;
        while i < history.len()
            invariant
                0 <= i <= history@.len(),
                all == views(history@),
                me == self.public@,
                match best {
                    Some(k) => {
                        &&& k < i
                        &&& all[k as int].sent_by(me)
                        &&& all[k as int].input->0.timestamp == stamp
                        &&& forall|j: int|
                            0 <= j < i && (#[trigger] all[j]).sent_by(me) ==> {
                                ||| all[j].input->0.timestamp < stamp
                                ||| (all[j].input->0.timestamp == stamp && j <= k)
                            }
                    },
                    None => forall|j: int| 0 <= j < i ==> !(#[trigger] all[j]).sent_by(me),
                },
            decreases history@.len() - i,
        {
            match history[i].input {
                Some(input) => {
                    if input.address.same(&self.public) {
                        let later = match best {
                            Some(_) => stamp <= input.timestamp,
                            None => true,
                        };
                        if later {
                            best = Some(i);
                            stamp = input.timestamp;
                        }
                    }
                },
                None => {},
            }
            i += 1;
        }
        proof {
            match best {
                Some(k) => {
                    assert(is_latest_sent(all, me, k as int));
                    let c = choose|c: int| is_latest_sent(all, me, c);
                    lemma_latest_sent_unique(all, me, c, k as int);
                },
                None => {
                    assert forall|c: int| !is_latest_sent(all, me, c) by {
                        if 0 <= c < all.len() {
                            assert(!all[c].sent_by(me));
                        }
                    }
                },
            }
        }
        best
    }

    /// The balance that `history` gives this wallet, in full width.
    fn replay(&self, history: &Vec<Transaction>) -> (sum: Wide)
        ensures
            sum.value() == self.derived(views(history@)),
            0 <= sum.rest < UNIT,
    {
        let ghost all = views(history@);
        let ghost me = self.public@;
        let mut baseline: Amount = INITIAL_BALANCE;
        let mut start: u64 = 0;
        match self.latest(history) {
            Some(k) => {
                match find_first_to(&history[k].outputs, &self.public) {
                    Some(m) => {
                        baseline = history[k].outputs[m].amount;
                        start = match history[k].input {
                            Some(input) => input.timestamp,
                            None => vstd::pervasive::unreached(),
                        };
                    },
                    None => {},
                }
            },
            None => {},
        }
        assert(replayed(me, all) == baseline + received(all, me, start as nat));
        let mut sum = Wide::of(baseline);
        let mut i: usize = 0;
        assert(all.take(0) =~= Seq::<TransactionView>::empty());
        while i < history.len()
            invariant
                0 <= i <= history@.len(),
                all == views(history@),
                me == self.public@,
                sum.wf(i as int),
                sum.value() == baseline + received(all.take(i as int), me, start as nat),
            decreases history@.len() - i,
        {
            let ghost before = all.take(i as int);
            let ghost after = all.take(i + 1);
            proof {
                assert(after.drop_last() =~= before);
                assert(after.last() == history@[i as int]@);
            }
            let replayed = match history[i].input {
                Some(input) => input.timestamp > start,
                None => false,
            };
            let more: i128 = if replayed {
                credited(&history[i].outputs, &self.public)
            } else {
                0
            };
            proof {
                let count = history@[i as int].outputs.len();
                assert(count <= 0xffff_ffff_ffff_ffff);
                assert(0x8000_0000_0000_0000 * count <= 0x8000_0000_0000_0000
                    * 0xffff_ffff_ffff_ffff);
            }
            sum = sum.plus(more, Ghost(i as int));
            i += 1;
        }
        assert(all.take(i as int) =~= all);
        sum
    }

    /// Whether `calculate_balance` can be called.
    pub fn can_calculate_balance(&self, history: &Vec<Transaction>) -> (yes: bool)
        ensures
            yes == self.derivable(views(history@)),
    {
        self.replay(history).narrow().is_some()
    }

    /// Derives the balance from `history`, the transactions of all blocks in
    /// chain order, and keeps it. The most recent transaction that this
    /// wallet sent is the checkpoint: the change it gave back is the
    /// baseline, and every output to this wallet in a transaction stamped
    /// later is added. Where this wallet sent nothing, or its most recent
    /// transaction gave it no change, the baseline is the balance of a new
    /// wallet and every output to this wallet in a transaction stamped later
    /// than zero is added. The balance kept before has no part in the
    /// result: deriving again from the same history gives the same balance.
    pub fn calculate_balance(&mut self, history: &Vec<Transaction>) -> (balance: Amount)
        requires
            old(self).derivable(views(history@)),
        ensures
            balance == old(self).derived(views(history@)),
            *final(self) == (Wallet { balance, ..*old(self) }),
            final(self)@ == (WalletView { balance: balance as int, ..old(self)@ }),
            final(self).derived(views(history@)) == balance,
    {
        match self.replay(history).narrow() {
            Some(balance) => {
                self.balance = balance;
                balance
            },
            None => vstd::pervasive::unreached(),
        }
    }

    /// Whether `send` can be called.
    pub fn can_send(&self, amount: Amount, history: &Vec<Transaction>, tp: &Pool) -> (yes: bool)
        ensures
            yes == self.sendable(amount, views(history@), tp@),
    {
        let balance = match self.replay(history).narrow() {
            Some(balance) => balance,
            None => {
                return false;
            },
        };
        if amount > balance {
            return true;
        }
        match tp.pending(&self.public) {
            Some(i) => match find_first_to(&tp.transactions[i].outputs, &self.public) {
                Some(k) => {
                    let held = tp.transactions[i].outputs[k].amount;
                    amount > held || held as i128 - amount as i128 <= 0x7fff_ffff_ffff_ffff
                },
                None => true,
            },
            None => balance as i128 - amount as i128 <= 0x7fff_ffff_ffff_ffff,
        }
    }

    /// Pays `amount` to `receiver`. The balance is derived anew from
    /// `history`; a payment of more than the balance is refused. Where the
    /// pool holds a transaction of this wallet, that transaction is amended
    /// in place and a copy of it is returned, amended or not. Otherwise a new
    /// transfer is made, stored in the pool and returned; if its signature is
    /// not accepted, the pool is left as it was.
    pub fn send(
        &mut self,
        receiver: &Address,
        amount: Amount,
        history: &Vec<Transaction>,
        tp: &mut Pool,
    ) -> (sent: Result<Transaction, String>)
        requires
            old(self).sendable(amount, views(history@), old(tp)@),
        ensures
            final(self).balance == old(self).derived(views(history@)),
            *final(self) == (Wallet { balance: final(self).balance, ..*old(self) }),
            final(self)@ == (WalletView { balance: final(self).balance as int, ..old(self)@ }),
            one_per_sender(old(tp)@) ==> one_per_sender(final(tp)@),
            amount > final(self).balance ==> {
                &&& sent matches Err(e) && e@ == "amount greater than balance."@
                &&& *final(tp) == *old(tp)
            },
            amount <= final(self).balance ==> match first_sent_by(old(tp)@, old(self).public@) {
                Some(i) => {
                    &&& sent matches Ok(t)
                    &&& t@.is_amendment_of(old(tp)@[i], final(self), receiver@, amount as int)
                    &&& final(tp)@ == old(tp)@.update(i, t@)
                },
                None => match sent {
                    Ok(t) => {
                        &&& t@.is_transfer(final(self), receiver@, amount as int)
                        &&& t@.verified()
                        &&& t@.conserved()
                        &&& final(tp)@ == (match first_with_id(old(tp)@, t.id) {
                            Some(k) => old(tp)@.update(k, t@),
                            None => old(tp)@.push(t@),
                        })
                    },
                    Err(e) => {
                        &&& e@ == "signature does not match."@
                        &&& !final(self).signs(
                            transfer(
                                final(self).public@,
                                final(self).balance as int,
                                receiver@,
                                amount as int,
                            ),
                        )
                        &&& *final(tp) == *old(tp)
                    },
                },
            },
    {
        self.calculate_balance(history);
        if amount > self.balance {
            return Err("amount greater than balance.".to_owned());
        }
        let sender = *self;
        match tp.check(sender.public) {
            Some(t) => {
                t.update(&sender, receiver, amount);
                let copy = t.clone();
                proof {
                    let i = first_sent_by(old(tp)@, sender.public@)->0;
                    assert(tp@ =~= old(tp)@.update(i, copy@));
                    if one_per_sender(old(tp)@) {
                        crate::pool::lemma_upsert_keeps_one_per_sender(
                            old(tp)@,
                            tp@,
                            copy@,
                            sender.public@,
                        );
                    }
                }
                Ok(copy)
            },
            None => {
                match Transaction::new(&sender, receiver, amount) {
                    Ok(t) => {
                        tp.update(t.clone());
                        proof {
                            if one_per_sender(old(tp)@) {
                                if let Some(k) = first_with_id(old(tp)@, t.id) {
                                    assert(crate::pool::is_first_with_id(old(tp)@, t.id, k));
                                }
                                crate::pool::lemma_upsert_keeps_one_per_sender(
                                    old(tp)@,
                                    tp@,
                                    t@,
                                    sender.public@,
                                );
                            }
                        }
                        Ok(t)
                    },
                    Err(e) => Err(e),
                }
            },
        }
    }
}

} // verus!
