//! The pool of pending transactions.
use crate::ecdsa::Address;
use crate::transaction::{Transaction, TransactionView};
use vstd::prelude::*;

verus! {

/// The transactions that wait to be mined, in the order they came.
#[derive(Debug)]
pub struct Pool {
    pub transactions: Vec<Transaction>,
}

/// The views of a sequence of transactions, in order.
pub open spec fn views(transactions: Seq<Transaction>) -> Seq<TransactionView> {
    transactions.map_values(|t: Transaction| t@)
}

/// Whether `k` is the place of the first of `transactions` with identifier
/// `id`.
pub open spec fn is_first_with_id(transactions: Seq<TransactionView>, id: u128, k: int) -> bool {
    &&& 0 <= k < transactions.len()
    &&& transactions[k].id == id
    &&& forall|j: int| 0 <= j < k ==> (#[trigger] transactions[j]).id != id
}

/// The place of the first of `transactions` with identifier `id`, if there
/// is one.
pub open spec fn first_with_id(transactions: Seq<TransactionView>, id: u128) -> Option<int> {
    if exists|k: int| is_first_with_id(transactions, id, k) {
        Some(choose|k: int| is_first_with_id(transactions, id, k))
    } else {
        None
    }
}

/// Whether `k` is the place of the first of `transactions` sent by
/// `address`.
pub open spec fn is_first_sent_by(
    transactions: Seq<TransactionView>,
    address: Seq<u8>,
    k: int,
) -> bool {
    &&& 0 <= k < transactions.len()
    &&& transactions[k].sent_by(address)
    &&& forall|j: int| 0 <= j < k ==> !(#[trigger] transactions[j]).sent_by(address)
}

/// The place of the first of `transactions` sent by `address`, if there is
/// one.
pub open spec fn first_sent_by(transactions: Seq<TransactionView>, address: Seq<u8>) -> Option<
    int,
> {
    if exists|k: int| is_first_sent_by(transactions, address, k) {
        Some(choose|k: int| is_first_sent_by(transactions, address, k))
    } else {
        None
    }
}

/// Whether no two of `transactions` were sent by the same identity.
pub open spec fn one_per_sender(transactions: Seq<TransactionView>) -> bool {
    forall|i: int, j: int|
        0 <= i < j < transactions.len() && (#[trigger] transactions[i]).input is Some ==> !(
        #[trigger] transactions[j]).sent_by(transactions[i].input->0.address)
}

/// Whether a transaction may be mined: it conserves value and is verified.
pub open spec fn mineable(t: TransactionView) -> bool {
    t.conserved() && t.verified()
}

impl View for Pool {
    type V = Seq<TransactionView>;

    open spec fn view(&self) -> Seq<TransactionView> {
        views(self.transactions@)
    }
}

/// At most one place is the first with an identifier.
pub proof fn lemma_first_with_id_unique(
    transactions: Seq<TransactionView>,
    id: u128,
    a: int,
    b: int,
)
    requires
        is_first_with_id(transactions, id, a),
        is_first_with_id(transactions, id, b),
    ensures
        a == b,
{
    if a < b {
        assert(transactions[a].id != id);
    } else if b < a {
        assert(transactions[b].id != id);
    }
}

/// At most one place is the first sent by an identity.
pub proof fn lemma_first_sent_by_unique(
    transactions: Seq<TransactionView>,
    address: Seq<u8>,
    a: int,
    b: int,
)
    requires
        is_first_sent_by(transactions, address, a),
        is_first_sent_by(transactions, address, b),
    ensures
        a == b,
{
    if a < b {
        assert(!transactions[a].sent_by(address));
    } else if b < a {
        assert(!transactions[b].sent_by(address));
    }
}

/// Where some transaction was sent by an identity, some place is the first
/// of them.
pub proof fn lemma_first_sent_by_exists(transactions: Seq<TransactionView>, address: Seq<u8>, j: int)
    requires
        0 <= j < transactions.len(),
        transactions[j].sent_by(address),
    ensures
        first_sent_by(transactions, address) is Some,
        is_first_sent_by(transactions, address, first_sent_by(transactions, address)->0),
    decreases j,
{
    if exists|i: int| 0 <= i < j && (#[trigger] transactions[i]).sent_by(address) {
        let i = choose|i: int| 0 <= i < j && (#[trigger] transactions[i]).sent_by(address);
        lemma_first_sent_by_exists(transactions, address, i);
    } else {
        assert(is_first_sent_by(transactions, address, j));
    }
}

/// Storing a transaction of a sender in a pool that holds none of that
/// sender, or where the pool holds that sender's first, keeps the pool at one
/// transaction for each sender.
pub proof fn lemma_upsert_keeps_one_per_sender(
    before: Seq<TransactionView>,
    after: Seq<TransactionView>,
    t: TransactionView,
    address: Seq<u8>,
)
    requires
        one_per_sender(before),
        t.sent_by(address),
        match first_sent_by(before, address) {
            Some(k) => after == before.update(k, t),
            None => after == before.push(t) || exists|k: int|
                0 <= k < before.len() && after == before.update(k, t),
        },
    ensures
        one_per_sender(after),
{
    match first_sent_by(before, address) {
        Some(k) => {
            assert(is_first_sent_by(before, address, k));
            assert forall|i: int, j: int|
                0 <= i < j < after.len() && (#[trigger] after[i]).input is Some implies !(
            #[trigger] after[j]).sent_by(after[i].input->0.address) by {
                assert(before[i].input is Some ==> !before[j].sent_by(
                    before[i].input->0.address,
                ));
            }
        },
        None => {
            assert forall|i: int| 0 <= i < before.len() implies !(#[trigger] before[i]).sent_by(
                address,
            ) by {
                if before[i].sent_by(address) {
                    lemma_first_sent_by_exists(before, address, i);
                }
            }
            assert forall|i: int, j: int|
                0 <= i < j < after.len() && (#[trigger] after[i]).input is Some implies !(
            #[trigger] after[j]).sent_by(after[i].input->0.address) by {
                if after == before.push(t) {
                    if j < before.len() {
                        assert(before[i].input is Some ==> !before[j].sent_by(
                            before[i].input->0.address,
                        ));
                    } else {
                        assert(!before[i].sent_by(address));
                    }
                } else {
                    let k = choose|k: int| 0 <= k < before.len() && after == before.update(k, t);
                    assert(!before[i].sent_by(address));
                    assert(!before[j].sent_by(address));
                    if i != k && j != k {
                        assert(before[i].input is Some ==> !before[j].sent_by(
                            before[i].input->0.address,
                        ));
                    }
                }
            }
        },
    }
}

impl Pool {
    /// An empty pool.
    pub fn new() -> (made: Pool)
        ensures
            made@ == Seq::<TransactionView>::empty(),
            one_per_sender(made@),
    {
        let made = Pool { transactions: Vec::new() };
        assert(made@ =~= Seq::<TransactionView>::empty());
        made
    }

    /// The place of the first stored transaction with identifier `id`.
    pub fn position(&self, id: u128) -> (found: Option<usize>)
        ensures
            match found {
                Some(k) => first_with_id(self@, id) == Some(k as int) && is_first_with_id(
                    self@,
                    id,
                    k as int,
                ),
                None => first_with_id(self@, id) is None,
            },
    {
        let mut i: usize = 0;
        while i < self.transactions.len()
            invariant
                0 <= i <= self@.len(),
                self@.len() == self.transactions@.len(),
                forall|j: int| 0 <= j < i ==> (#[trigger] self@[j]).id != id,
            decreases self@.len() - i,
        {
            if self.transactions[i].id == id {
                proof {
                    assert(is_first_with_id(self@, id, i as int));
                    let c = choose|c: int| is_first_with_id(self@, id, c);
                    lemma_first_with_id_unique(self@, id, c, i as int);
                }
                return Some(i);
            }
            i += 1;
        }
        None
    }

    /// Stores `transaction` if it is verified: in the place of the first
    /// stored transaction with the same identifier, or else at the end. A
    /// transaction that is not verified is dropped and the pool is left as it
    /// was.
    pub fn update(&mut self, transaction: Transaction)
        ensures
            !transaction@.verified() ==> *final(self) == *old(self),
            transaction@.verified() ==> final(self)@ == (match first_with_id(
                old(self)@,
                transaction.id,
            ) {
                Some(k) => old(self)@.update(k, transaction@),
                None => old(self)@.push(transaction@),
            }),
    {
        match transaction.verify() {
            Ok(_) => {
                match self.position(transaction.id) {
                    Some(k) => {
                        self.transactions.set(k, transaction);
                        assert(self@ =~= old(self)@.update(k as int, transaction@));
                    },
                    None => {
                        self.transactions.push(transaction);
                        assert(self@ =~= old(self)@.push(transaction@));
                    },
                }
            },
            Err(_) => {},
        }
    }

    /// The place of the first stored transaction sent by `address`.
    pub fn pending(&self, address: &Address) -> (found: Option<usize>)
        ensures
            match found {
                Some(k) => first_sent_by(self@, address@) == Some(k as int) && is_first_sent_by(
                    self@,
                    address@,
                    k as int,
                ),
                None => first_sent_by(self@, address@) is None,
            },
    {
        let mut i: usize = 0;
        while i < self.transactions.len()
            invariant
                0 <= i <= self@.len(),
                self@.len() == self.transactions@.len(),
                forall|j: int| 0 <= j < i ==> !(#[trigger] self@[j]).sent_by(address@),
            decreases self@.len() - i,
        {
            let sent = match self.transactions[i].input {
                Some(input) => input.address.same(address),
                None => false,
            };
            if sent {
                proof {
                    assert(is_first_sent_by(self@, address@, i as int));
                    let c = choose|c: int| is_first_sent_by(self@, address@, c);
                    lemma_first_sent_by_unique(self@, address@, c, i as int);
                }
                return Some(i);
            }
            i += 1;
        }
        None
    }

    /// The first stored transaction sent by `address`, to be amended in
    /// place.
    pub fn check(&mut self, address: Address) -> (found: Option<&mut Transaction>)
        ensures
            match found {
                Some(t) => {
                    &&& first_sent_by(old(self)@, address@) matches Some(k)
                    &&& is_first_sent_by(old(self)@, address@, k)
                    &&& *t == old(self).transactions@[k]
                    &&& final(self).transactions@ == old(self).transactions@.update(k, *final(t))
                },
                None => {
                    &&& first_sent_by(old(self)@, address@) is None
                    &&& *final(self) == *old(self)
                },
            },
    {
        match self.pending(&address) {
            Some(k) => Some(&mut self.transactions[k]),
            None => None,
        }
    }

    /// Copies of the stored transactions that may be mined, in order:
    /// those that conserve value and are verified. The pool itself keeps the
    /// others too.
    pub fn valid(&self) -> (kept: Vec<Transaction>)
        ensures
            views(kept@) == self@.filter(|t: TransactionView| mineable(t)),
    {
        let ghost pred = |t: TransactionView| mineable(t);
        let mut kept: Vec<Transaction> = Vec::new();
        let mut i: usize = 0;
        proof {
            reveal(Seq::filter);
            assert(self@.take(0) =~= Seq::<TransactionView>::empty());
            assert(views(kept@) =~= self@.take(0).filter(pred));
        }
        while i < self.transactions.len()
            invariant
                0 <= i <= self@.len(),
                self@.len() == self.transactions@.len(),
                pred == (|t: TransactionView| mineable(t)),
                views(kept@) == self@.take(i as int).filter(pred),
            decreases self@.len() - i,
        {
            let t = &self.transactions[i];
            let ghost before = self@.take(i as int);
            let ghost after = self@.take(i + 1);
            proof {
                reveal(Seq::filter);
                assert(after.drop_last() =~= before);
                assert(after.last() == t@);
            }
            if t.conserved() && t.verify().is_ok() {
                let ghost old_kept = kept@;
                kept.push(t.clone());
                assert(views(kept@) =~= views(old_kept).push(t@));
            }
            i += 1;
        }
        assert(self@.take(i as int) =~= self@);
        kept
    }

    /// Empties the pool.
    pub fn clear(&mut self)
        ensures
            final(self)@ == Seq::<TransactionView>::empty(),
            one_per_sender(final(self)@),
    {
        self.transactions = Vec::new();
        assert(self@ =~= Seq::<TransactionView>::empty());
    }
}

} // verus!
