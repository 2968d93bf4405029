//! The miner: a chain, a pool and a wallet that work together.
use crate::block::{Block, BlockView};
use crate::chain::{exhausted, failed_below, linked, mined, Chain};
use crate::output::OutputView;
use crate::pool::{mineable, views, Pool};
use crate::transaction::{Transaction, TransactionView, REWARD};
use crate::wallet::{Wallet, INITIAL_BALANCE};
use vstd::prelude::*;

verus! {

/// A node that mines the transactions of its pool into its chain and is paid
/// for it in its wallet.
pub struct Miner {
    pub chain: Chain,
    pub pool: Pool,
    pub wallet: Wallet,
}

impl Miner {
    /// A miner with a new chain, an empty pool and a new wallet.
    pub fn new() -> (made: Miner)
        ensures
            made.chain@ == seq![BlockView::genesis()],
            made.chain.extensible(),
            made.pool@ == Seq::<TransactionView>::empty(),
            made.wallet.balance == INITIAL_BALANCE,
    {
        Miner { chain: Chain::new(), pool: Pool::new(), wallet: Wallet::new() }
    }

    /// The transactions that the next block is to hold: the pool's
    /// transactions that may be mined, in order, and after them the reward
    /// for this miner.
    pub fn payload(&self) -> (list: Vec<Transaction>)
        ensures
            views(list@).len() > 0,
            views(list@).drop_last() == self.pool@.filter(|t: TransactionView| mineable(t)),
            views(list@).last().outputs == seq![
                OutputView { address: self.wallet.public@, amount: REWARD as int },
            ],
            views(list@).last().input is None,
    {
        let mut list = self.pool.valid();
        let ghost kept = views(list@);
        let reward = Transaction::reward(&self.wallet.public);
        list.push(reward);
        assert(views(list@).drop_last() =~= kept);
        list
    }

    /// Mines a block with payload `data`, the written form of `payload()`,
    /// and empties the pool once the block is on the chain. Where no block is
    /// found, chain and pool are left as they were.
    pub fn mine(&mut self, data: &str) -> (added: Option<Block>)
        requires
            old(self).chain.extensible(),
        ensures
            final(self).wallet == old(self).wallet,
            linked(old(self).chain@) ==> linked(final(self).chain@),
            mined(old(self).chain@) ==> mined(final(self).chain@),
            match added {
                Some(b) => {
                    &&& final(self).chain@ == old(self).chain@.push(b@)
                    &&& b@.follows(old(self).chain@.last(), data@)
                    &&& b@.sealed()
                    &&& failed_below(old(self).chain@.last(), data@, b@.nonce)
                    &&& final(self).pool@ == Seq::<TransactionView>::empty()
                },
                None => {
                    &&& final(self).chain@ == old(self).chain@
                    &&& final(self).pool == old(self).pool
                    &&& exhausted(old(self).chain@.last(), data@)
                },
            },
    {
        let added = self.chain.add(data);
        if added.is_some() {
            self.pool.clear();
        }
        added
    }
}

} // verus!
