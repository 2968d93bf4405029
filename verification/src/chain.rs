//! The chain: mining, linkage validation and fork choice.
use crate::block::{Block, BlockView};
use crate::utils::time;
use vstd::prelude::*;

verus! {

/// An ordered sequence of blocks. Index zero holds the first block.
#[derive(Debug, PartialEq)]
pub struct Chain {
    pub chain: Vec<Block>,
}

/// The views of a sequence of blocks, in order.
pub open spec fn views(blocks: Seq<Block>) -> Seq<BlockView> {
    blocks.map_values(|b: Block| b@)
}

/// Whether every block but the first names the hash of the block before it.
/// The first block is not examined.
pub open spec fn linked(chain: Seq<BlockView>) -> bool {
    forall|i: int| 0 < i < chain.len() ==> (#[trigger] chain[i]).prev == chain[i - 1].hash()
}

/// Whether the attempt with nonce `n` at a block with payload `data` after
/// `tip` has failed: some candidate that follows `tip` with that nonce is not
/// sealed.
pub open spec fn failed(tip: BlockView, data: Seq<char>, n: nat) -> bool {
    exists|c: BlockView| #[trigger] c.follows(tip, data) && c.nonce == n && !c.sealed()
}

/// Whether every attempt with a nonce below `bound` has failed.
pub open spec fn failed_below(tip: BlockView, data: Seq<char>, bound: nat) -> bool {
    forall|n: nat| n < bound ==> #[trigger] failed(tip, data, n)
}

/// Whether the search for a block with payload `data` after `tip` has run
/// out of nonces: the attempt with each nonce, from zero to the greatest, has
/// failed.
pub open spec fn exhausted(tip: BlockView, data: Seq<char>) -> bool {
    failed_below(tip, data, (usize::MAX + 1) as nat)
}

/// Whether `chain` is one that mining alone has built: the first block is
/// the genesis block, and every later block follows the block before it, is
/// sealed, and counts in its nonce the attempts that failed before it.
pub open spec fn mined(chain: Seq<BlockView>) -> bool {
    &&& chain.len() > 0
    &&& chain[0] == BlockView::genesis()
    &&& forall|i: int|
        0 < i < chain.len() ==> {
            &&& (#[trigger] chain[i]).follows(chain[i - 1], chain[i].data)
            &&& chain[i].sealed()
            &&& failed_below(chain[i - 1], chain[i].data, chain[i].nonce)
        }
}

/// Whether `candidate` wins over `current` by length, or, at equal length, by
/// the nonce of its last block.
pub open spec fn outranks(candidate: Seq<BlockView>, current: Seq<BlockView>) -> bool {
    ||| candidate.len() > current.len()
    ||| (candidate.len() == current.len() && candidate.len() > 0 && candidate.last().nonce
        > current.last().nonce)
}

/// The fork-choice rule: whether a chain `current` gives way to `candidate`.
pub open spec fn adopts(current: Seq<BlockView>, candidate: Seq<BlockView>) -> bool {
    linked(candidate) && outranks(candidate, current)
}

impl View for Chain {
    type V = Seq<BlockView>;

    open spec fn view(&self) -> Seq<BlockView> {
        views(self.chain@)
    }
}

/// A chain that mining alone has built is linked, and the height of each of
/// its blocks is the block's place in it.
pub proof fn lemma_mined_chain_is_linked(chain: Seq<BlockView>)
    requires
        mined(chain),
    ensures
        linked(chain),
        forall|i: int| 0 <= i < chain.len() ==> (#[trigger] chain[i]).height == i,
{
    assert forall|i: int| 0 <= i < chain.len() implies (#[trigger] chain[i]).height == i by {
        lemma_mined_heights(chain, i);
    }
}

proof fn lemma_mined_heights(chain: Seq<BlockView>, i: int)
    requires
        mined(chain),
        0 <= i < chain.len(),
    ensures
        chain[i].height == i,
    decreases i,
{
    if i > 0 {
        lemma_mined_heights(chain, i - 1);
        assert(chain[i].follows(chain[i - 1], chain[i].data));
    }
}

/// A linked chain stays linked when a block that names the hash of its last
/// block is appended.
pub proof fn lemma_extension_stays_linked(chain: Seq<BlockView>, block: BlockView)
    requires
        linked(chain),
        chain.len() > 0,
        block.prev == chain.last().hash(),
    ensures
        linked(chain.push(block)),
{
    let longer = chain.push(block);
    assert forall|i: int| 0 < i < longer.len() implies (#[trigger] longer[i]).prev == longer[i
        - 1].hash() by {
        if i < chain.len() {
            assert(longer[i] == chain[i]);
        }
    }
}

/// Replacing a block that has a successor by one with another hash breaks
/// the linkage.
pub proof fn lemma_changed_hash_breaks_linkage(chain: Seq<BlockView>, i: int, changed: BlockView)
    requires
        linked(chain),
        0 <= i,
        i + 1 < chain.len(),
        changed.hash() != chain[i].hash(),
    ensures
        !linked(chain.update(i, changed)),
{
    let other = chain.update(i, changed);
    assert(chain[i + 1].prev == chain[i].hash());
    assert(other[i + 1].prev != other[i + 1 - 1].hash());
}

/// Changing the payload of a block that has a successor breaks the linkage:
/// the successor no longer names the block's hash. This holds unless SHA-256
/// gives the old and the new preimage the same digest.
pub proof fn lemma_corrupted_data_breaks_linkage(
    chain: Seq<BlockView>,
    i: int,
    data: Seq<char>,
)
    requires
        linked(chain),
        0 <= i,
        i + 1 < chain.len(),
        data != chain[i].data,
        ({
            let changed = BlockView { data, ..chain[i] };
            changed.preimage() != chain[i].preimage() ==> changed.digest() != chain[i].digest()
        }),
    ensures
        (BlockView { data, ..chain[i] }).hash() != chain[i + 1].prev,
        !linked(chain.update(i, BlockView { data, ..chain[i] })),
{
    let changed = BlockView { data, ..chain[i] };
    crate::block::lemma_changed_field_changes_hash(changed, chain[i]);
    assert(chain[i + 1].prev == chain[i].hash());
    lemma_changed_hash_breaks_linkage(chain, i, changed);
}

/// A linked candidate that is strictly longer than the current chain is
/// always adopted.
pub proof fn lemma_longer_linked_candidate_adopted(
    current: Seq<BlockView>,
    candidate: Seq<BlockView>,
)
    requires
        linked(candidate),
        candidate.len() > current.len(),
    ensures
        adopts(current, candidate),
{
}

/// A candidate that is not longer than the current chain is adopted only if
/// it has the same length and its last block has a strictly greater nonce.
pub proof fn lemma_not_longer_adopted_only_by_nonce(
    current: Seq<BlockView>,
    candidate: Seq<BlockView>,
)
    requires
        candidate.len() <= current.len(),
        adopts(current, candidate),
    ensures
        candidate.len() == current.len(),
        candidate.last().nonce > current.last().nonce,
{
}

impl Chain {
    /// Whether the chain can be mined on: it has a last block, and that
    /// block's height and difficulty can each be raised by one.
    pub open spec fn extensible(&self) -> bool {
        &&& self.chain@.len() > 0
        &&& self.chain@.last().height < usize::MAX
        &&& self.chain@.last().difficulty < usize::MAX
    }

    /// A chain that holds the first block and nothing else.
    pub fn new() -> (made: Chain)
        ensures
            made@ == seq![BlockView::genesis()],
            mined(made@),
            linked(made@),
            made.extensible(),
    {
        let mut chain = Vec::new();
        chain.push(Block::genesis());
        let made = Chain { chain };
        assert(made@ =~= seq![BlockView::genesis()]);
        made
    }

    /// Whether `add` can be called.
    pub fn can_add(&self) -> (yes: bool)
        ensures
            yes == self.extensible(),
    {
        let n = self.chain.len();
        n > 0 && self.chain[n - 1].height < usize::MAX && self.chain[n - 1].difficulty
            < usize::MAX
    }

    /// Mines a block with payload `data` on the last block and appends it.
    /// Returns the new block, whose nonce is the number of attempts that
    /// failed before it, or `None`, leaving the chain as it was, when every
    /// nonce has been tried without success.
    pub fn add(&mut self, data: &str) -> (added: Option<Block>)
        requires
            old(self).extensible(),
        ensures
            match added {
                Some(b) => {
                    &&& final(self)@ == old(self)@.push(b@)
                    &&& b@.follows(old(self)@.last(), data@)
                    &&& b@.sealed()
                    &&& failed_below(old(self)@.last(), data@, b@.nonce)
                },
                None => final(self)@ == old(self)@ && exhausted(old(self)@.last(), data@),
            },
            linked(old(self)@) ==> linked(final(self)@),
            mined(old(self)@) ==> mined(final(self)@),
            old(self)@.last().difficulty == 0 ==> added is Some,
    {
        match self.mine(data) {
            Some(b) => {
                proof {
                    if linked(self@) {
                        lemma_extension_stays_linked(self@, b@);
                    }
                }
                self.push(b.clone());
                proof {
                    if mined(old(self)@) {
                        let longer = self@;
                        assert forall|i: int| 0 < i < longer.len() implies {
                            &&& (#[trigger] longer[i]).follows(longer[i - 1], longer[i].data)
                            &&& longer[i].sealed()
                            &&& failed_below(longer[i - 1], longer[i].data, longer[i].nonce)
                        } by {
                            if i < old(self)@.len() {
                                assert(longer[i] == old(self)@[i]);
                            }
                        }
                    }
                }
                Some(b)
            },
            None => None,
        }
    }

    fn push(&mut self, block: Block)
        ensures
            final(self)@ == old(self)@.push(block@),
    {
        self.chain.push(block);
        assert(self@ =~= old(self)@.push(block@));
    }

    /// Searches for a sealed block with payload `data` that follows the last
    /// block. The search starts at nonce zero with the last block's
    /// difficulty; each failed attempt reads the clock, raises the nonce by
    /// one and retargets the difficulty. The block found is the first
    /// candidate that is sealed, so its nonce is the number of attempts that
    /// failed. `None` when the attempt with the greatest nonce has failed too.
    pub fn mine(&self, data: &str) -> (found: Option<Block>)
        requires
            self.extensible(),
        ensures
            found matches Some(b) ==> {
                &&& b@.follows(self@.last(), data@)
                &&& b@.sealed()
                &&& failed_below(self@.last(), data@, b@.nonce)
            },
            found is None ==> exhausted(self@.last(), data@),
            self@.last().difficulty == 0 ==> found is Some,
    {
        let parent = &self.chain[self.chain.len() - 1];
        let mut block = Block::new(parent.clone(), data);
        assert(self@.last() == parent@);
        loop
            invariant
                self@.len() > 0,
                self@.last() == parent@,
                parent.difficulty < usize::MAX,
                block@.follows(parent@, data@),
                block.nonce == 0 || parent@.difficulty > 0,
                failed_below(parent@, data@, block@.nonce),
            decreases usize::MAX - block.nonce,
        {
            if block.sealed() {
                return Some(block);
            }
            proof {
                let tried = block@;
                assert(tried.follows(parent@, data@) && !tried.sealed());
                assert(failed(parent@, data@, tried.nonce));
                assert(failed_below(parent@, data@, tried.nonce + 1)) by {
                    assert forall|n: nat| n < tried.nonce + 1 implies #[trigger] failed(
                        parent@,
                        data@,
                        n,
                    ) by {
                        if n < tried.nonce {
                            assert(failed(parent@, data@, n));
                        }
                    }
                }
            }
            if block.nonce == usize::MAX {
                return None;
            }
            block.retry(parent, time());
        }
    }

    /// Checks the linkage of `chain`, stopping at the first block that does
    /// not name the hash of the block before it.
    pub fn check(chain: &Vec<Block>) -> (verdict: Result<&'static str, &'static str>)
        ensures
            verdict is Ok <==> linked(views(chain@)),
            verdict matches Ok(m) ==> m@ == "Blockchain is valid."@,
            verdict matches Err(m) ==> m@ == "Blockchain is not valid."@,
    {
        let mut i: usize = 1;
        while i < chain.len()
            invariant
                1 <= i,
                forall|k: int| 0 < k < i && k < chain@.len() ==> (#[trigger] views(chain@)[k]).prev
                    == views(chain@)[k - 1].hash(),
            decreases chain@.len() - i,
        {
            let expected = chain[i - 1].hash();
            if !chain[i].prev.same(&expected) {
                assert(views(chain@)[i as int].prev != views(chain@)[i - 1].hash());
                return Err("Blockchain is not valid.");
            }
            i += 1;
        }
        Ok("Blockchain is valid.")
    }

    /// Checks the linkage of this chain.
    pub fn validate(&self) -> (verdict: Result<&'static str, &'static str>)
        ensures
            verdict is Ok <==> linked(self@),
            verdict matches Ok(m) ==> m@ == "Blockchain is valid."@,
            verdict matches Err(m) ==> m@ == "Blockchain is not valid."@,
    {
        Chain::check(&self.chain)
    }

    /// Fork choice: takes `new_chain` in place of this chain if it is linked
    /// and outranks this chain, and then returns a copy of it. Otherwise
    /// leaves this chain as it was and returns `None`.
    pub fn replace(&mut self, new_chain: Vec<Block>) -> (adopted: Option<Vec<Block>>)
        ensures
            adopts(old(self)@, views(new_chain@)) ==> {
                &&& final(self).chain@ == new_chain@
                &&& adopted matches Some(copy) && copy@ == new_chain@
            },
            !adopts(old(self)@, views(new_chain@)) ==> {
                &&& *final(self) == *old(self)
                &&& adopted is None
            },
    {
        match Chain::check(&new_chain) {
            Ok(_) => {
                if new_chain.len() < self.chain.len() {
                    return None;
                }
                if new_chain.len() == self.chain.len() && (new_chain.len() == 0
                    || new_chain[new_chain.len() - 1].nonce <= self.chain[self.chain.len()
                    - 1].nonce) {
                    return None;
                }
                self.chain = new_chain;
                let copy = self.chain.clone();
                assert(copy@ =~= self.chain@);
                Some(copy)
            },
            Err(_) => None,
        }
    }
}

} // verus!
