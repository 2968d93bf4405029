//! Blocks: the units of chain data, and the steps of sealing one.
use crate::decimal::{decimal, lemma_decimal_injective, push_decimal};
use crate::hexadecimal;
use crate::sha256::sha256;
use crate::utils::time;
use crate::work;
use vstd::prelude::*;
use vstd::utf8::encode_utf8;

verus! {

/// The difficulty of the first block.
pub const INITIAL_DIFFICULTY: usize = 5;

/// The target interval between a block and its successor, in seconds.
pub const MINE_RATE: u64 = 1;

/// One unit of chain data.
#[derive(Debug, PartialEq)]
pub struct Block {
    /// Seconds since the epoch at the last sealing attempt.
    pub timestamp: u64,
    /// The number of failed sealing attempts.
    pub nonce: usize,
    /// The hash of the block before this one.
    pub prev: crate::hash::Hash,
    /// The position in the chain; the first block has height zero.
    pub height: usize,
    /// The payload.
    pub data: String,
    /// The number of leading zero bits asked of this block's hash.
    pub difficulty: usize,
}

/// What a block holds, as mathematical values.
pub struct BlockView {
    pub timestamp: nat,
    pub nonce: nat,
    pub prev: Seq<char>,
    pub height: nat,
    pub data: Seq<char>,
    pub difficulty: nat,
}

/// The difficulty of a sealing attempt made at time `now` on a block whose
/// parent has difficulty `parent_difficulty` and time `parent_timestamp`: one
/// less than the parent's, but at least one, if more than `MINE_RATE` seconds
/// have passed since the parent; one more than the parent's otherwise.
pub open spec fn retargeted(parent_difficulty: nat, parent_timestamp: nat, now: nat) -> nat {
    if now - parent_timestamp > MINE_RATE {
        if parent_difficulty > 1 {
            (parent_difficulty - 1) as nat
        } else {
            1
        }
    } else {
        parent_difficulty + 1
    }
}

impl BlockView {
    /// The bytes that are hashed: the fields as text in the order timestamp,
    /// prev, nonce, data, height, difficulty, with nothing between them.
    pub open spec fn preimage(self) -> Seq<u8> {
        decimal(self.timestamp) + encode_utf8(self.prev) + decimal(self.nonce) + encode_utf8(
            self.data,
        ) + decimal(self.height) + decimal(self.difficulty)
    }

    /// The SHA-256 digest of the preimage.
    pub open spec fn digest(self) -> Seq<u8> {
        sha256(self.preimage())
    }

    /// The text of the block's hash.
    pub open spec fn hash(self) -> Seq<char> {
        hexadecimal::text_of(self.digest())
    }

    /// Whether the binary expansion of the block's hash begins with at least
    /// `difficulty` zero bits.
    pub open spec fn sealed(self) -> bool {
        work::leading_zeros(self.digest()) >= self.difficulty
    }

    /// The first block of every chain.
    pub open spec fn genesis() -> BlockView {
        BlockView {
            timestamp: 0,
            nonce: 0,
            prev: crate::hash::blank_text(),
            height: 0,
            data: Seq::empty(),
            difficulty: INITIAL_DIFFICULTY as nat,
        }
    }

    /// The candidate that follows `self` with payload `data`, as first made
    /// at time `now`.
    pub open spec fn successor(self, data: Seq<char>, now: nat) -> BlockView {
        BlockView {
            timestamp: now,
            nonce: 0,
            prev: self.hash(),
            height: self.height + 1,
            data,
            difficulty: self.difficulty,
        }
    }

    /// The candidate `self` after one more failed attempt, retried at time
    /// `now` under `parent`.
    pub open spec fn retried(self, parent: BlockView, now: nat) -> BlockView {
        BlockView {
            timestamp: now,
            nonce: self.nonce + 1,
            difficulty: retargeted(parent.difficulty, parent.timestamp, now),
            ..self
        }
    }

    /// Whether `self` is a candidate that follows `parent` with payload
    /// `data`, at any attempt: it links to `parent`, and its difficulty is the
    /// parent's at the first attempt and the retargeted one afterwards.
    pub open spec fn follows(self, parent: BlockView, data: Seq<char>) -> bool {
        &&& self.prev == parent.hash()
        &&& self.height == parent.height + 1
        &&& self.data == data
        &&& self.difficulty == if self.nonce == 0 {
            parent.difficulty
        } else {
            retargeted(parent.difficulty, parent.timestamp, self.timestamp)
        }
    }
}

/// Whether `a` and `b` differ in exactly one field.
pub open spec fn differ_in_one_field(a: BlockView, b: BlockView) -> bool {
    &&& a != b
    &&& {
        ||| a == (BlockView { timestamp: a.timestamp, ..b })
        ||| a == (BlockView { nonce: a.nonce, ..b })
        ||| a == (BlockView { prev: a.prev, ..b })
        ||| a == (BlockView { height: a.height, ..b })
        ||| a == (BlockView { data: a.data, ..b })
        ||| a == (BlockView { difficulty: a.difficulty, ..b })
    }
}

proof fn lemma_cancel_right(x: Seq<u8>, y: Seq<u8>, s: Seq<u8>)
    requires
        x + s == y + s,
    ensures
        x == y,
{
    assert((x + s).len() == x.len() + s.len());
    assert((y + s).len() == y.len() + s.len());
    assert(x.len() == y.len());
    assert forall|i: int| 0 <= i < x.len() implies x[i] == y[i] by {
        assert((x + s)[i] == x[i]);
        assert((y + s)[i] == y[i]);
    }
    assert(x =~= y);
}

proof fn lemma_cancel_left(s: Seq<u8>, x: Seq<u8>, y: Seq<u8>)
    requires
        s + x == s + y,
    ensures
        x == y,
{
    assert((s + x).len() == s.len() + x.len());
    assert((s + y).len() == s.len() + y.len());
    assert(x.len() == y.len());
    assert forall|i: int| 0 <= i < x.len() implies x[i] == y[i] by {
        assert((s + x)[s.len() + i] == x[i]);
        assert((s + y)[s.len() + i] == y[i]);
    }
    assert(x =~= y);
}

proof fn lemma_cancel_around(l: Seq<u8>, x: Seq<u8>, y: Seq<u8>, r: Seq<u8>)
    requires
        l + x + r == l + y + r,
    ensures
        x == y,
{
    lemma_cancel_right(l + x, l + y, r);
    lemma_cancel_left(l, x, y);
}

proof fn lemma_text_injective(a: Seq<char>, b: Seq<char>)
    requires
        encode_utf8(a) == encode_utf8(b),
    ensures
        a == b,
{
    vstd::utf8::encode_utf8_decode_utf8(a);
    vstd::utf8::encode_utf8_decode_utf8(b);
}

/// The first `difficulty` bits in the binary expansion of a sealed block's
/// hash are zeros.
pub proof fn lemma_sealed_block_has_zero_bits(b: BlockView)
    requires
        b.sealed(),
    ensures
        forall|i: int| 0 <= i < b.difficulty ==> !#[trigger] work::bit(b.digest(), i),
{
    work::lemma_leading_zeros_are_bits(b.digest());
}

/// Equal blocks have equal hashes.
pub proof fn lemma_hash_deterministic(a: BlockView, b: BlockView)
    requires
        a == b,
    ensures
        a.preimage() == b.preimage(),
        a.hash() == b.hash(),
{
}

/// Changing one field of a block changes the bytes that are hashed. Whether
/// the hash changes with them rests on SHA-256, of which nothing is proved
/// here.
pub proof fn lemma_changed_field_changes_preimage(a: BlockView, b: BlockView)
    requires
        differ_in_one_field(a, b),
    ensures
        a.preimage() != b.preimage(),
{
    let t = decimal(b.timestamp);
    let p = encode_utf8(b.prev);
    let n = decimal(b.nonce);
    let d = encode_utf8(b.data);
    let h = decimal(b.height);
    let f = decimal(b.difficulty);
    let empty = Seq::<u8>::empty();
    if a.preimage() == b.preimage() {
        if a == (BlockView { timestamp: a.timestamp, ..b }) {
            let x = decimal(a.timestamp);
            assert(a.preimage() =~= empty + x + (p + n + d + h + f));
            assert(b.preimage() =~= empty + t + (p + n + d + h + f));
            lemma_cancel_around(empty, x, t, p + n + d + h + f);
            lemma_decimal_injective(a.timestamp, b.timestamp);
        } else if a == (BlockView { nonce: a.nonce, ..b }) {
            let x = decimal(a.nonce);
            assert(a.preimage() =~= (t + p) + x + (d + h + f));
            assert(b.preimage() =~= (t + p) + n + (d + h + f));
            lemma_cancel_around(t + p, x, n, d + h + f);
            lemma_decimal_injective(a.nonce, b.nonce);
        } else if a == (BlockView { prev: a.prev, ..b }) {
            let x = encode_utf8(a.prev);
            assert(a.preimage() =~= t + x + (n + d + h + f));
            assert(b.preimage() =~= t + p + (n + d + h + f));
            lemma_cancel_around(t, x, p, n + d + h + f);
            lemma_text_injective(a.prev, b.prev);
        } else if a == (BlockView { height: a.height, ..b }) {
            let x = decimal(a.height);
            assert(a.preimage() =~= (t + p + n + d) + x + f);
            assert(b.preimage() =~= (t + p + n + d) + h + f);
            lemma_cancel_around(t + p + n + d, x, h, f);
            lemma_decimal_injective(a.height, b.height);
        } else if a == (BlockView { data: a.data, ..b }) {
            let x = encode_utf8(a.data);
            assert(a.preimage() =~= (t + p + n) + x + (h + f));
            assert(b.preimage() =~= (t + p + n) + d + (h + f));
            lemma_cancel_around(t + p + n, x, d, h + f);
            lemma_text_injective(a.data, b.data);
        } else {
            let x = decimal(a.difficulty);
            assert(a.preimage() =~= (t + p + n + d + h) + x + empty);
            assert(b.preimage() =~= (t + p + n + d + h) + f + empty);
            lemma_cancel_around(t + p + n + d + h, x, f, empty);
            lemma_decimal_injective(a.difficulty, b.difficulty);
        }
    }
}

/// Changing one field of a block changes its hash, unless SHA-256 gives the
/// two preimages the same digest.
pub proof fn lemma_changed_field_changes_hash(a: BlockView, b: BlockView)
    requires
        differ_in_one_field(a, b),
        a.preimage() != b.preimage() ==> a.digest() != b.digest(),
    ensures
        a.hash() != b.hash(),
{
    lemma_changed_field_changes_preimage(a, b);
    hexadecimal::lemma_bytes_of_text(a.digest());
    hexadecimal::lemma_bytes_of_text(b.digest());
}

impl View for Block {
    type V = BlockView;

    open spec fn view(&self) -> BlockView {
        BlockView {
            timestamp: self.timestamp as nat,
            nonce: self.nonce as nat,
            prev: self.prev@,
            height: self.height as nat,
            data: self.data@,
            difficulty: self.difficulty as nat,
        }
    }
}

impl Clone for Block {
    fn clone(&self) -> (copy: Self)
        ensures
            copy == *self,
    {
        Block {
            timestamp: self.timestamp,
            nonce: self.nonce,
            prev: self.prev.clone(),
            height: self.height,
            data: self.data.clone(),
            difficulty: self.difficulty,
        }
    }
}

/// The difficulty of a sealing attempt made at time `now` under `parent`.
pub fn retarget(parent: &Block, now: u64) -> (difficulty: usize)
    requires
        parent.difficulty < usize::MAX,
    ensures
        difficulty == retargeted(parent@.difficulty, parent@.timestamp, now as nat),
{
    if now > parent.timestamp && now - parent.timestamp > MINE_RATE {
        if parent.difficulty > 1 {
            parent.difficulty - 1
        } else {
            1
        }
    } else {
        parent.difficulty + 1
    }
}

impl Block {
    /// A candidate that follows `prev` with payload `data`, stamped with the
    /// current time.
    pub fn new(prev: Block, data: &str) -> (block: Block)
        requires
            prev.height < usize::MAX,
        ensures
            block@ == prev@.successor(data@, block@.timestamp),
            block.prev.wf(),
    {
        Block::at(&prev, data, time())
    }

    /// A candidate that follows `prev` with payload `data`, stamped `now`.
    pub fn at(prev: &Block, data: &str, now: u64) -> (block: Block)
        requires
            prev.height < usize::MAX,
        ensures
            block@ == prev@.successor(data@, now as nat),
            block.prev.wf(),
    {
        Block {
            timestamp: now,
            nonce: 0,
            prev: prev.hash(),
            height: prev.height + 1,
            data: data.to_owned(),
            difficulty: prev.difficulty,
        }
    }

    /// The current time, in seconds since the epoch.
    pub fn time() -> u64 {
        time()
    }

    /// The first block of every chain.
    pub fn genesis() -> (block: Block)
        ensures
            block@ == BlockView::genesis(),
            block.prev.wf(),
    {
        Block {
            timestamp: 0,
            nonce: 0,
            prev: crate::hash::Hash::blank(),
            height: 0,
            data: String::new(),
            difficulty: INITIAL_DIFFICULTY,
        }
    }

    /// The bytes that are hashed.
    pub fn preimage(&self) -> (bytes: Vec<u8>)
        ensures
            bytes@ == self@.preimage(),
    {
        let mut bytes: Vec<u8> = Vec::new();
        push_decimal(&mut bytes, self.timestamp);
        append(&mut bytes, self.prev.0.as_str().as_bytes());
        push_decimal(&mut bytes, self.nonce as u64);
        append(&mut bytes, self.data.as_str().as_bytes());
        push_decimal(&mut bytes, self.height as u64);
        push_decimal(&mut bytes, self.difficulty as u64);
        assert(bytes@ =~= self@.preimage());
        bytes
    }

    /// The block's hash.
    pub fn hash(&self) -> (h: crate::hash::Hash)
        ensures
            h@ == self@.hash(),
            h.wf(),
    {
        let bytes = self.preimage();
        match crate::hash::Hash::new(bytes.as_slice()) {
            Ok(h) => h,
            Err(_) => vstd::pervasive::unreached(),
        }
    }

    /// Whether the block's hash meets the block's difficulty.
    pub fn sealed(&self) -> (yes: bool)
        ensures
            yes == self@.sealed(),
    {
        let h = self.hash();
        proof {
            crate::hash::lemma_digest_text_wf(self@.preimage());
        }
        match hexadecimal::decode(h.0.as_str()) {
            Ok(digest) => work::has_leading_zeros(digest.as_slice(), self.difficulty),
            Err(_) => vstd::pervasive::unreached(),
        }
    }

    /// Counts one failed attempt: stamps the candidate `now`, raises its
    /// nonce, and retargets its difficulty under `parent`.
    pub fn retry(&mut self, parent: &Block, now: u64)
        requires
            old(self).nonce < usize::MAX,
            parent.difficulty < usize::MAX,
        ensures
            final(self)@ == old(self)@.retried(parent@, now as nat),
            final(self).prev == old(self).prev,
    {
        self.timestamp = now;
        self.nonce = self.nonce + 1;
        self.difficulty = retarget(parent, now);
    }
}

/// Appends `more` to `out`.
fn append(out: &mut Vec<u8>, more: &[u8])
    ensures
        final(out)@ == old(out)@ + more@,
{
    out.extend_from_slice(more);
    assert(out@ =~= old(out)@ + more@);
}

} // verus!
