//! The data model: participants, bills, and the transactions that act on
//! them, together with the arithmetic spec functions the contracts use.

use vstd::prelude::*;

verus! {

/// A participant in the cash system. Identities form a small closed set and
/// serve only as an ownership label on bills; equality is exact.
#[derive(Clone, Copy, Debug, PartialEq, Eq, Hash, Structural)]
pub enum User {
    Alice,
    Bob,
    Charlie,
}

/// A single bill. Each bill has an owner who is allowed to spend it, an
/// amount it is worth, and a serial number that makes it unique. Bills are
/// immutable values: a spend removes a bill from circulation, it never
/// mutates one. Two bills are equal iff all three fields are equal.
#[derive(Clone, Copy, Debug, PartialEq, Eq, Hash, Structural)]
pub struct Bill {
    pub owner: User,
    pub amount: u64,
    pub serial: u64,
}

/// The transitions users can request of the cash system.
pub enum CashTransaction {
    /// Mint a single new bill owned by the minter.
    Mint { minter: User, amount: u64 },
    /// Destroy the bills in `spends` and create the bills in `receives`.
    /// The money need not all come from, or go to, one user. The total
    /// amount received must be at most the total spent; any shortfall is
    /// destroyed, so no dedicated burn transaction is needed.
    Transfer { spends: Vec<Bill>, receives: Vec<Bill> },
}

/// The total value of a sequence of bills, as an unbounded integer.
pub open spec fn sum_amounts(bills: Seq<Bill>) -> int
    decreases bills.len(),
{
    if bills.len() == 0 {
        0
    } else {
        sum_amounts(bills.drop_last()) + bills.last().amount
    }
}

/// No two positions of the sequence hold the same bill.
pub open spec fn distinct_bills(bills: Seq<Bill>) -> bool {
    forall|i: int, j: int| 0 <= i < j < bills.len() ==> bills[i] != bills[j]
}

/// Extending a prefix by one bill adds exactly that bill's amount.
pub proof fn lemma_sum_take_succ(bills: Seq<Bill>, i: int)
    requires
        0 <= i < bills.len(),
    ensures
        sum_amounts(bills.take(i + 1)) == sum_amounts(bills.take(i)) + bills[i].amount,
{
    assert(bills.take(i + 1).drop_last() =~= bills.take(i));
    assert(bills.take(i + 1).last() == bills[i]);
}

/// A prefix of a sequence never sums to more than the whole sequence.
pub proof fn lemma_sum_take_le(bills: Seq<Bill>, i: int)
    requires
        0 <= i <= bills.len(),
    ensures
        sum_amounts(bills.take(i)) <= sum_amounts(bills),
    decreases bills.len() - i,
{
    if i == bills.len() {
        assert(bills.take(i) =~= bills);
    } else {
        lemma_sum_take_succ(bills, i);
        lemma_sum_take_le(bills, i + 1);
    }
}

/// A sequence of bills sums to at most one maximal amount per bill.
pub proof fn lemma_sum_bound(bills: Seq<Bill>)
    ensures
        sum_amounts(bills) <= bills.len() * (u64::MAX as int),
    decreases bills.len(),
{
    if bills.len() == 0 {
    } else {
        lemma_sum_bound(bills.drop_last());
        assert((bills.len() - 1) * (u64::MAX as int) + (u64::MAX as int) == bills.len() * (
        u64::MAX as int)) by (nonlinear_arith);
    }
}

} // verus!
