//! Inputs: the authorization of a transaction by its sender.
use crate::ecdsa::{Address, Signature};
use crate::output::{views, Amount, Output};
use crate::transaction::serialize;
use crate::utils::time;
use crate::wallet::Wallet;
use vstd::prelude::*;

verus! {

/// The sender's side of a transaction.
#[derive(Debug, Clone, Copy)]
pub struct Input {
    /// Seconds since the epoch at which the input was made.
    pub timestamp: u64,
    /// The sender's balance before the transaction.
    pub amount: Amount,
    /// The sender's identity.
    pub address: Address,
    /// The sender's signature over the digest of the transaction's outputs.
    pub signature: Signature,
}

/// What an input holds, as mathematical values.
pub struct InputView {
    pub timestamp: nat,
    pub amount: int,
    pub address: Seq<u8>,
    pub signature: Seq<u8>,
}

impl View for Input {
    type V = InputView;

    open spec fn view(&self) -> InputView {
        InputView {
            timestamp: self.timestamp as nat,
            amount: self.amount as int,
            address: self.address@,
            signature: self.signature@,
        }
    }
}

impl Input {
    /// An input by which `sender` authorizes `outputs`, stamped with the
    /// current time: it declares the sender's balance and identity and holds
    /// the sender's signature over the digest of the outputs. `None` where
    /// the sender cannot sign them.
    pub fn new(sender: &Wallet, outputs: &Vec<Output>) -> (made: Option<Input>)
        ensures
            match made {
                Some(input) => {
                    &&& input@.amount == sender.balance
                    &&& input@.address == sender.public@
                    &&& sender.signature_for(views(outputs@)) == Some(input@.signature)
                },
                None => sender.signature_for(views(outputs@)) is None,
            },
    {
        let bytes = match serialize(outputs) {
            Ok(bytes) => bytes,
            Err(_) => vstd::pervasive::unreached(),
        };
        let hash = match crate::hash::Hash::new(bytes.as_slice()) {
            Ok(hash) => hash,
            Err(_) => vstd::pervasive::unreached(),
        };
        proof {
            crate::hexadecimal::lemma_bytes_of_text(crate::sha256::sha256(bytes@));
        }
        match sender.sign(hash) {
            Some(signature) => Some(
                Input { timestamp: time(), amount: sender.balance, address: sender.public, signature },
            ),
            None => None,
        }
    }
}

} // verus!
