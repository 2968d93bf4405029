//! Outputs: the value-bearing parts of a transaction.
use crate::ecdsa::Address;
use vstd::prelude::*;

verus! {

/// An amount of value, in indivisible units. It may be negative.
pub type Amount = i64;

/// An amount of value assigned to an identity.
#[derive(Debug, Clone, Copy)]
pub struct Output {
    pub address: Address,
    pub amount: Amount,
}

/// What an output holds, as mathematical values.
pub struct OutputView {
    pub address: Seq<u8>,
    pub amount: int,
}

impl View for Output {
    type V = OutputView;

    open spec fn view(&self) -> OutputView {
        OutputView { address: self.address@, amount: self.amount as int }
    }
}

/// The views of a sequence of outputs, in order.
pub open spec fn views(outputs: Seq<Output>) -> Seq<OutputView> {
    outputs.map_values(|o: Output| o@)
}

/// The sum of the amounts of `outputs`.
pub open spec fn total(outputs: Seq<OutputView>) -> int
    decreases outputs.len(),
{
    if outputs.len() == 0 {
        0
    } else {
        total(outputs.drop_last()) + outputs.last().amount
    }
}

/// The sum of the amounts of those of `outputs` that are assigned to
/// `address`.
pub open spec fn credit(outputs: Seq<OutputView>, address: Seq<u8>) -> int
    decreases outputs.len(),
{
    if outputs.len() == 0 {
        0
    } else {
        credit(outputs.drop_last(), address) + if outputs.last().address == address {
            outputs.last().amount
        } else {
            0
        }
    }
}

/// Whether `k` is the place of the first of `outputs` assigned to `address`.
pub open spec fn is_first_to(outputs: Seq<OutputView>, address: Seq<u8>, k: int) -> bool {
    &&& 0 <= k < outputs.len()
    &&& outputs[k].address == address
    &&& forall|j: int| 0 <= j < k ==> (#[trigger] outputs[j]).address != address
}

/// The place of the first of `outputs` assigned to `address`, if there is
/// one.
pub open spec fn first_to(outputs: Seq<OutputView>, address: Seq<u8>) -> Option<int> {
    if exists|k: int| is_first_to(outputs, address, k) {
        Some(choose|k: int| is_first_to(outputs, address, k))
    } else {
        None
    }
}

/// At most one place is the first assigned to an identity.
pub proof fn lemma_first_to_unique(outputs: Seq<OutputView>, address: Seq<u8>, a: int, b: int)
    requires
        is_first_to(outputs, address, a),
        is_first_to(outputs, address, b),
    ensures
        a == b,
{
    if a < b {
        assert(outputs[a].address != address);
    } else if b < a {
        assert(outputs[b].address != address);
    }
}

impl Output {
    /// An output of `amount` to `address`.
    pub fn new(address: &Address, amount: Amount) -> (made: Output)
        ensures
            made@ == (OutputView { address: address@, amount: amount as int }),
    {
        Output { address: *address, amount }
    }
}

/// The sum of the amounts of `outputs`.
pub fn sum(outputs: &Vec<Output>) -> (s: i128)
    ensures
        s == total(views(outputs@)),
{
    let mut s: i128 = 0;
    let mut i: usize = 0;
    assert(views(outputs@).take(0) =~= Seq::<OutputView>::empty());
    while i < outputs.len()
        invariant
            0 <= i <= outputs@.len(),
            s == total(views(outputs@).take(i as int)),
            -0x8000_0000_0000_0000 * i <= s <= 0x8000_0000_0000_0000 * i,
        decreases outputs@.len() - i,
    {
        let ghost before = views(outputs@).take(i as int);
        let ghost after = views(outputs@).take(i + 1);
        assert(after.drop_last() =~= before);
        assert(after.last() == outputs@[i as int]@);
        s = s + outputs[i].amount as i128;
        i += 1;
    }
    assert(views(outputs@).take(i as int) =~= views(outputs@));
    s
}

/// The sum of the amounts of those of `outputs` that are assigned to
/// `address`.
pub fn credited(outputs: &Vec<Output>, address: &Address) -> (s: i128)
    ensures
        s == credit(views(outputs@), address@),
        -0x8000_0000_0000_0000 * outputs@.len() <= s <= 0x8000_0000_0000_0000 * outputs@.len(),
{
    let mut s: i128 = 0;
    let mut i: usize = 0;
    assert(views(outputs@).take(0) =~= Seq::<OutputView>::empty());
    while i < outputs.len()
        invariant
            0 <= i <= outputs@.len(),
            s == credit(views(outputs@).take(i as int), address@),
            -0x8000_0000_0000_0000 * i <= s <= 0x8000_0000_0000_0000 * i,
        decreases outputs@.len() - i,
    {
        let ghost before = views(outputs@).take(i as int);
        let ghost after = views(outputs@).take(i + 1);
        assert(after.drop_last() =~= before);
        assert(after.last() == outputs@[i as int]@);
        if outputs[i].address.same(address) {
            s = s + outputs[i].amount as i128;
        }
        i += 1;
    }
    assert(views(outputs@).take(i as int) =~= views(outputs@));
    s
}

/// The place of the first of `outputs` assigned to `address`, if there is
/// one.
pub fn find_first_to(outputs: &Vec<Output>, address: &Address) -> (found: Option<usize>)
    ensures
        match found {
            Some(k) => is_first_to(views(outputs@), address@, k as int),
            None => forall|k: int| !is_first_to(views(outputs@), address@, k),
        },
        match found {
            Some(k) => first_to(views(outputs@), address@) == Some(k as int),
            None => first_to(views(outputs@), address@) is None,
        },
{
    let mut i: usize = 0;
    while i < outputs.len()
        invariant
            0 <= i <= outputs@.len(),
            forall|j: int| 0 <= j < i ==> (#[trigger] views(outputs@)[j]).address != address@,
        decreases outputs@.len() - i,
    {
        if outputs[i].address.same(address) {
            proof {
                let k = i as int;
                assert(is_first_to(views(outputs@), address@, k));
                let c = choose|c: int| is_first_to(views(outputs@), address@, c);
                lemma_first_to_unique(views(outputs@), address@, c, k);
            }
            return Some(i);
        }
        i += 1;
    }
    None
}

} // verus!
