//! Transactions: signed transfers of value that conserve what they spend.
use crate::ecdsa::{self, Address};
use crate::input::{Input, InputView};
use crate::output::{first_to, total, views, Amount, Output, OutputView};
use crate::sha256::sha256;
use crate::wallet::Wallet;
use vstd::prelude::*;

verus! {

/// The amount that the miner of a block is paid.
pub const REWARD: Amount = 50;

/// A transfer of value from one sender to any number of receivers, or, with
/// no input, a reward.
#[derive(Debug)]
pub struct Transaction {
    pub id: u128,
    pub outputs: Vec<Output>,
    pub input: Option<Input>,
}

/// What a transaction holds, as mathematical values.
pub struct TransactionView {
    pub id: u128,
    pub outputs: Seq<OutputView>,
    pub input: Option<InputView>,
}

/// `bincode::ErrorKind`, the reason why a value could not be written.
/// Nothing is read from it.
#[verifier::external_type_specification]
#[verifier::external_body]
pub struct ExErrorKind(bincode::ErrorKind);

/// The eight bytes of `n` in little-endian order, `n` taken modulo two to
/// the power 64, so that a negative number is written in two's complement.
pub open spec fn le64(n: int) -> Seq<u8> {
    let m = n % 0x1_0000_0000_0000_0000;
    seq![
        (m % 256) as u8,
        (m / 0x100 % 256) as u8,
        (m / 0x1_0000 % 256) as u8,
        (m / 0x100_0000 % 256) as u8,
        (m / 0x1_0000_0000 % 256) as u8,
        (m / 0x100_0000_0000 % 256) as u8,
        (m / 0x1_0000_0000_0000 % 256) as u8,
        (m / 0x100_0000_0000_0000 % 256) as u8,
    ]
}

/// The bytes that stand for one output: the length of the address, the
/// address, and the amount.
pub open spec fn output_image(output: OutputView) -> Seq<u8> {
    le64(output.address.len() as int) + output.address + le64(output.amount)
}

/// The bytes that stand for the outputs one after the other.
pub open spec fn outputs_image(outputs: Seq<OutputView>) -> Seq<u8>
    decreases outputs.len(),
{
    if outputs.len() == 0 {
        Seq::empty()
    } else {
        outputs_image(outputs.drop_last()) + output_image(outputs.last())
    }
}

/// The bytes that stand for a list of outputs when it is signed: the number
/// of outputs, then each output in turn.
pub open spec fn image(outputs: Seq<OutputView>) -> Seq<u8> {
    le64(outputs.len() as int) + outputs_image(outputs)
}

/// `bincode::serialize` on the list of the outputs' addresses and amounts,
/// each address as a list of bytes and each amount as an `i64`. Trusted: it
/// succeeds on every such list, and writes what `image` says: with the
/// settings of `bincode::serialize` every length and every integer takes
/// eight bytes in little-endian order, a list is its length and then its
/// items, a pair is its two parts, and a byte is itself.
#[verifier::external_body]
pub(crate) fn serialize(outputs: &Vec<Output>) -> (made: Result<
    Vec<u8>,
    Box<bincode::ErrorKind>,
>)
    ensures
        made is Ok,
        made matches Ok(bytes) ==> bytes@ == image(views(outputs@)),
{
    let items: Vec<(Vec<u8>, i64)> = outputs.iter().map(
        |o| (o.address.bytes.to_vec(), o.amount),
    ).collect();
    bincode::serialize(&items)
}

/// `uuid::Uuid::new_v4`, as a number: a random identifier. Nothing is claimed
/// of it.
#[verifier::external_body]
pub(crate) fn fresh_id() -> u128 {
    uuid::Uuid::new_v4().as_u128()
}

/// The digest of `outputs` that is signed: the SHA-256 digest of their
/// image.
pub open spec fn signing_digest(outputs: Seq<OutputView>) -> Seq<u8> {
    sha256(image(outputs))
}

/// The outputs of a transfer of `amount` to `receiver` by a sender with the
/// given balance: the change to the sender, then the payment.
pub open spec fn transfer(sender: Seq<u8>, balance: int, receiver: Seq<u8>, amount: int) -> Seq<
    OutputView,
> {
    seq![
        OutputView { address: sender, amount: balance - amount },
        OutputView { address: receiver, amount },
    ]
}

/// The outputs of a transaction after `amount` is taken from the output at
/// `k` and paid to `receiver` in a new last output.
pub open spec fn amended(outputs: Seq<OutputView>, k: int, receiver: Seq<u8>, amount: int) -> Seq<
    OutputView,
> {
    outputs.update(k, OutputView { address: outputs[k].address, amount: outputs[k].amount - amount })
        .push(OutputView { address: receiver, amount })
}

impl TransactionView {
    /// Whether the input's signature is accepted for the input's address
    /// over the digest of the outputs. A transaction without an input is not
    /// verified.
    pub open spec fn verified(self) -> bool {
        &&& self.input matches Some(input)
        &&& ecdsa::accepts(input.address, signing_digest(self.outputs), input.signature)
    }

    /// Whether the outputs add up to the amount that the input declares. A
    /// transaction without an input conserves nothing.
    pub open spec fn conserved(self) -> bool {
        &&& self.input matches Some(input)
        &&& total(self.outputs) == input.amount
    }

    /// Whether the transaction was sent by `address`.
    pub open spec fn sent_by(self, address: Seq<u8>) -> bool {
        self.input matches Some(input) && input.address == address
    }

    /// Whether the input is one by which `sender` authorizes the outputs: it
    /// declares the sender's balance and identity and holds the sender's
    /// signature over the digest of the outputs.
    pub open spec fn authorized_by(self, sender: &Wallet) -> bool {
        &&& self.input matches Some(input)
        &&& input.amount == sender.balance
        &&& input.address == sender.public@
        &&& sender.signature_for(self.outputs) == Some(input.signature)
    }

    /// Whether the transaction is a transfer of `amount` from `sender` to
    /// `receiver`.
    pub open spec fn is_transfer(self, sender: &Wallet, receiver: Seq<u8>, amount: int) -> bool {
        &&& self.outputs == transfer(sender.public@, sender.balance as int, receiver, amount)
        &&& self.authorized_by(sender)
    }

    /// Whether a payment of `amount` to `receiver` can be added to this
    /// transaction by `sender`: the sender has an output in it, the first
    /// such output holds at least `amount`, and the sender's signature over
    /// the amended outputs is accepted.
    pub open spec fn admits(self, sender: &Wallet, receiver: Seq<u8>, amount: int) -> bool {
        &&& first_to(self.outputs, sender.public@) matches Some(k)
        &&& amount <= self.outputs[k].amount
        &&& sender.signs(amended(self.outputs, k, receiver, amount))
    }

    /// Whether `self` is what becomes of `before` when `sender` adds a
    /// payment of `amount` to `receiver`: the amended transaction where
    /// `before` admits the payment, and `before` itself where it does not.
    pub open spec fn is_amendment_of(
        self,
        before: TransactionView,
        sender: &Wallet,
        receiver: Seq<u8>,
        amount: int,
    ) -> bool {
        if before.admits(sender, receiver, amount) {
            &&& self.id == before.id
            &&& self.outputs == amended(
                before.outputs,
                first_to(before.outputs, sender.public@)->0,
                receiver,
                amount,
            )
            &&& self.authorized_by(sender)
        } else {
            self == before
        }
    }
}

impl View for Transaction {
    type V = TransactionView;

    open spec fn view(&self) -> TransactionView {
        TransactionView {
            id: self.id,
            outputs: views(self.outputs@),
            input: match self.input {
                Some(input) => Some(input@),
                None => None,
            },
        }
    }
}

impl Clone for Transaction {
    fn clone(&self) -> (copy: Self)
        ensures
            copy@ == self@,
    {
        let outputs = self.outputs.clone();
        assert(outputs@ =~= self.outputs@);
        Transaction { id: self.id, outputs, input: self.input }
    }
}

/// A transfer conserves the sender's balance.
pub proof fn lemma_transfer_conserves(
    sender: Seq<u8>,
    balance: int,
    receiver: Seq<u8>,
    amount: int,
)
    ensures
        total(transfer(sender, balance, receiver, amount)) == balance,
{
    let outputs = transfer(sender, balance, receiver, amount);
    assert(outputs.drop_last() =~= seq![outputs[0]]);
    assert(outputs.drop_last().drop_last() =~= Seq::<OutputView>::empty());
    assert(total(outputs.drop_last().drop_last()) == 0);
    assert(total(outputs.drop_last()) == outputs[0].amount);
}

/// Every transfer conserves value, whatever the amount: the outputs of a
/// transaction that is a transfer from `sender` add up to the amount that
/// its input declares, which is the sender's balance.
pub proof fn lemma_every_transfer_conserves(
    t: TransactionView,
    sender: &Wallet,
    receiver: Seq<u8>,
    amount: int,
)
    requires
        t.is_transfer(sender, receiver, amount),
    ensures
        t.conserved(),
        t.input->0.amount == sender.balance,
        total(t.outputs) == sender.balance,
{
    lemma_transfer_conserves(sender.public@, sender.balance as int, receiver, amount);
}

/// The sum of a list of outputs with one more output is the sum of the list
/// plus that output's amount.
pub proof fn lemma_total_push(outputs: Seq<OutputView>, last: OutputView)
    ensures
        total(outputs.push(last)) == total(outputs) + last.amount,
{
    assert(outputs.push(last).drop_last() =~= outputs);
}

/// Changing the amount of one output changes the sum by as much.
pub proof fn lemma_total_update(outputs: Seq<OutputView>, k: int, changed: OutputView)
    requires
        0 <= k < outputs.len(),
    ensures
        total(outputs.update(k, changed)) == total(outputs) - outputs[k].amount + changed.amount,
    decreases outputs.len(),
{
    let other = outputs.update(k, changed);
    if k == outputs.len() - 1 {
        assert(other.drop_last() =~= outputs.drop_last());
    } else {
        lemma_total_update(outputs.drop_last(), k, changed);
        assert(other.drop_last() =~= outputs.drop_last().update(k, changed));
    }
}

/// Amending a transaction leaves the sum of its outputs as it was.
pub proof fn lemma_amended_conserves(
    outputs: Seq<OutputView>,
    k: int,
    receiver: Seq<u8>,
    amount: int,
)
    requires
        0 <= k < outputs.len(),
    ensures
        total(amended(outputs, k, receiver, amount)) == total(outputs),
{
    let changed = OutputView { address: outputs[k].address, amount: outputs[k].amount - amount };
    lemma_total_update(outputs, k, changed);
    lemma_total_push(outputs.update(k, changed), OutputView { address: receiver, amount });
}

/// An amendment by a sender whose balance is the amount that the input
/// declared leaves a transaction that conserves value conserving it.
pub proof fn lemma_amendment_conserves(
    before: TransactionView,
    after: TransactionView,
    sender: &Wallet,
    receiver: Seq<u8>,
    amount: int,
)
    requires
        before.conserved(),
        before.input->0.amount == sender.balance,
        after.is_amendment_of(before, sender, receiver, amount),
    ensures
        after.conserved(),
{
    if before.admits(sender, receiver, amount) {
        let k = first_to(before.outputs, sender.public@)->0;
        assert(crate::output::is_first_to(before.outputs, sender.public@, k));
        lemma_amended_conserves(before.outputs, k, receiver, amount);
    }
}

impl Transaction {
    /// A transfer of `amount` from `sender` to `receiver`: the change goes
    /// back to the sender, the input declares the sender's balance and is
    /// signed by the sender. Refused when `amount` is more than the sender's
    /// balance, and when the signature made is not accepted.
    pub fn new(sender: &Wallet, receiver: &Address, amount: Amount) -> (made: Result<
        Transaction,
        String,
    >)
        requires
            amount <= sender.balance ==> sender.balance - amount <= Amount::MAX,
        ensures
            made is Ok <==> amount <= sender.balance && sender.signs(
                transfer(sender.public@, sender.balance as int, receiver@, amount as int),
            ),
            made matches Ok(t) ==> {
                &&& t@.is_transfer(sender, receiver@, amount as int)
                &&& t@.verified()
                &&& t@.conserved()
            },
            made matches Err(e) ==> e@ == (if amount > sender.balance {
                "amount greater than balance."@
            } else {
                "signature does not match."@
            }),
    {
        if amount > sender.balance {
            return Err("amount greater than balance.".to_owned());
        }
        let mut outputs: Vec<Output> = Vec::new();
        outputs.push(Output::new(&sender.public, sender.balance - amount));
        outputs.push(Output::new(receiver, amount));
        proof {
            assert(views(outputs@) =~= transfer(
                sender.public@,
                sender.balance as int,
                receiver@,
                amount as int,
            ));
            lemma_transfer_conserves(
                sender.public@,
                sender.balance as int,
                receiver@,
                amount as int,
            );
        }
        let input = match Input::new(sender, &outputs) {
            Some(input) => input,
            None => {
                return Err("signature does not match.".to_owned());
            },
        };
        let t = Transaction { id: fresh_id(), outputs, input: Some(input) };
        match t.verify() {
            Ok(_) => Ok(t),
            Err(_) => Err("signature does not match.".to_owned()),
        }
    }

    /// The reward for the miner of a block: one output of `REWARD` to
    /// `miner`, and no input.
    pub fn reward(miner: &Address) -> (made: Transaction)
        ensures
            made@.outputs == seq![OutputView { address: miner@, amount: REWARD as int }],
            made@.input is None,
    {
        let mut outputs: Vec<Output> = Vec::new();
        outputs.push(Output::new(miner, REWARD));
        assert(views(outputs@) =~= seq![OutputView { address: miner@, amount: REWARD as int }]);
        Transaction { id: fresh_id(), outputs, input: None }
    }

    /// Whether `update` can be called: taking `amount` from the sender's own
    /// output, where that is asked for, does not leave the range of amounts.
    pub open spec fn amendable(&self, sender: &Wallet, amount: Amount) -> bool {
        first_to(self@.outputs, sender.public@) matches Some(k) ==> (amount
            <= self@.outputs[k].amount ==> self@.outputs[k].amount - amount <= Amount::MAX)
    }

    /// Adds a payment of `amount` to `receiver` to this transaction of
    /// `sender`: the amount is taken from the first output assigned to the
    /// sender, the payment becomes a new last output, and the input is made
    /// anew. The transaction is left as it was where the sender has no output
    /// in it, where `amount` is more than that output holds, and where the
    /// new signature is not accepted.
    pub fn update(&mut self, sender: &Wallet, receiver: &Address, amount: Amount)
        requires
            old(self).amendable(sender, amount),
        ensures
            final(self)@.is_amendment_of(old(self)@, sender, receiver@, amount as int),
            old(self)@.admits(sender, receiver@, amount as int) ==> final(self)@.verified(),
            !old(self)@.admits(sender, receiver@, amount as int) ==> *final(self) == *old(self),
    {
        let k = match crate::output::find_first_to(&self.outputs, &sender.public) {
            Some(k) => k,
            None => {
                return ;
            },
        };
        if amount > self.outputs[k].amount {
            return ;
        }
        let mut outputs = self.outputs.clone();
        assert(outputs@ =~= self.outputs@);
        let taken = Output::new(&self.outputs[k].address, self.outputs[k].amount - amount);
        outputs.set(k, taken);
        outputs.push(Output::new(receiver, amount));
        assert(views(outputs@) =~= amended(old(self)@.outputs, k as int, receiver@, amount as int));
        let input = match Input::new(sender, &outputs) {
            Some(input) => input,
            None => {
                return ;
            },
        };
        let attempt = Transaction { id: self.id, outputs, input: Some(input) };
        match attempt.verify() {
            Ok(_) => {
                *self = attempt;
            },
            Err(_) => {},
        }
    }

    /// Checks the input's signature against the input's address over the
    /// digest of the outputs. A transaction without an input fails the check.
    pub fn verify(&self) -> (verdict: Result<(), ()>)
        ensures
            verdict is Ok <==> self@.verified(),
    {
        let input = match self.input {
            Some(input) => input,
            None => {
                return Err(());
            },
        };
        let bytes = match serialize(&self.outputs) {
            Ok(bytes) => bytes,
            Err(_) => vstd::pervasive::unreached(),
        };
        let hash = match crate::hash::Hash::new(bytes.as_slice()) {
            Ok(hash) => hash,
            Err(_) => vstd::pervasive::unreached(),
        };
        proof {
            crate::hexadecimal::lemma_bytes_of_text(sha256(bytes@));
        }
        let digest = match crate::hexadecimal::decode(hash.0.as_str()) {
            Ok(digest) => digest,
            Err(_) => vstd::pervasive::unreached(),
        };
        if ecdsa::verify(&input.address, digest.as_slice(), &input.signature) {
            Ok(())
        } else {
            Err(())
        }
    }

    /// Whether the outputs add up to the amount that the input declares.
    pub fn conserved(&self) -> (yes: bool)
        ensures
            yes == self@.conserved(),
    {
        match self.input {
            Some(input) => crate::output::sum(&self.outputs) == input.amount as i128,
            None => false,
        }
    }
}

} // verus!
