//! The transition engine: the pure function that takes a ledger state and a
//! proposed transaction to the next state. A mint always succeeds; a
//! transfer runs a validation pipeline and, when any check fails, returns
//! the starting state unchanged, all or nothing.

use vstd::prelude::*;

use crate::bill::distinct_bills;
use crate::bill::lemma_sum_bound;
use crate::bill::lemma_sum_take_le;
use crate::bill::lemma_sum_take_succ;
use crate::bill::sum_amounts;
use crate::bill::Bill;
use crate::bill::CashTransaction;
use crate::state::contains_bill;
use crate::state::State;

verus! {

/// Every received bill carries value, none of them merely hands back a bill
/// that the same transaction spends, and the total received fits in 64 bits.
pub open spec fn receives_well_formed(spends: Seq<Bill>, receives: Seq<Bill>) -> bool {
    &&& forall|i: int| 0 <= i < receives.len() ==> receives[i].amount != 0
    &&& forall|i: int| 0 <= i < receives.len() ==> !spends.contains(receives[i])
    &&& sum_amounts(receives) <= u64::MAX
}

/// Every spent bill currently circulates, exactly as given.
pub open spec fn spends_exist(bills: Set<Bill>, spends: Seq<Bill>) -> bool {
    forall|i: int| 0 <= i < spends.len() ==> bills.contains(spends[i])
}

/// No serial number is shared between a destroyed and a created bill.
pub open spec fn serials_disjoint(spends: Seq<Bill>, receives: Seq<Bill>) -> bool {
    forall|i: int, j: int|
        0 <= i < spends.len() && 0 <= j < receives.len() ==> spends[i].serial != receives[j].serial
}

/// The received bills take exactly the serial numbers the state would hand
/// out next, in order: position `i` carries `next_serial + i`.
pub open spec fn serials_contiguous(next_serial: u64, receives: Seq<Bill>) -> bool {
    forall|i: int| 0 <= i < receives.len() ==> receives[i].serial == next_serial + i
}

/// The whole validation pipeline for a transfer: a transfer commits exactly
/// when all of these hold, and otherwise leaves the state unchanged.
pub open spec fn transfer_allowed(pre: State, spends: Seq<Bill>, receives: Seq<Bill>) -> bool {
    &&& spends.len() > 0
    &&& receives.len() > 0
    &&& receives_well_formed(spends, receives)
    &&& spends_exist(pre.bill_set(), spends)
    &&& distinct_bills(spends)
    &&& serials_disjoint(spends, receives)
    &&& serials_contiguous(pre.next_serial, receives)
    &&& sum_amounts(receives) <= sum_amounts(spends)
}

/// How a state may follow another under a transaction. A mint adds one bill
/// with the current cursor as serial. A transfer with nothing to spend is a
/// no-op; one with nothing to receive burns whichever spent bills circulate;
/// an allowed transfer exchanges the spent set for the received set; any
/// other transfer leaves the state exactly as it was.
pub open spec fn transition(pre: State, t: CashTransaction, post: State) -> bool {
    match t {
        CashTransaction::Mint { minter, amount } => {
            &&& post.bill_set() == pre.bill_set().insert(
                Bill { owner: minter, amount: amount, serial: pre.next_serial },
            )
            &&& post.next_serial == pre.next_serial + 1
        },
        CashTransaction::Transfer { spends, receives } => {
            if spends@.len() == 0 {
                &&& post.bills@ == pre.bills@
                &&& post.next_serial == pre.next_serial
            } else if receives@.len() == 0 {
                &&& post.bill_set() == pre.bill_set().difference(spends@.to_set())
                &&& post.next_serial == pre.next_serial
            } else if transfer_allowed(pre, spends@, receives@) {
                &&& post.bill_set() == pre.bill_set().union(receives@.to_set()).difference(
                    spends@.to_set(),
                )
                &&& post.next_serial == pre.next_serial + receives@.len()
            } else {
                &&& post.bills@ == pre.bills@
                &&& post.next_serial == pre.next_serial
            }
        },
    }
}

/// An independent copy of a state, bill for bill.
fn clone_state(s: &State) -> (r: State)
    ensures
        r.bills@ == s.bills@,
        r.next_serial == s.next_serial,
{
    let mut bills: Vec<Bill> = Vec::new();
    let n = s.bills.len();
    let mut i: usize = 0;
    while i < n
        invariant
            n == s.bills@.len(),
            i <= n,
            bills@ == s.bills@.take(i as int),
        decreases n - i,
    {
        proof {
            assert(s.bills@.take(i as int).push(s.bills@[i as int]) =~= s.bills@.take(i + 1));
        }
        bills.push(s.bills[i]);
        i = i + 1;
    }
    proof {
        assert(s.bills@.take(n as int) =~= s.bills@);
    }
    State { bills, next_serial: s.next_serial }
}

/// The circulating bills with every bill of `spends` removed; the order of
/// the survivors is kept.
fn retain_not_spent(bills: &Vec<Bill>, spends: &Vec<Bill>) -> (kept: Vec<Bill>)
    requires
        distinct_bills(bills@),
    ensures
        distinct_bills(kept@),
        kept@.to_set() == bills@.to_set().difference(spends@.to_set()),
{
    let mut kept: Vec<Bill> = Vec::new();
    let n = bills.len();
    let mut i: usize = 0;
    while i < n
        invariant
            n == bills@.len(),
            i <= n,
            distinct_bills(bills@),
            distinct_bills(kept@),
            kept@.to_set() == bills@.take(i as int).to_set().difference(spends@.to_set()),
        decreases n - i,
    {
        let x = bills[i];
        proof {
            assert(bills@.take(i as int).push(x) =~= bills@.take(i + 1));
            bills@.take(i as int).lemma_push_to_set_commute(x);
            assert(!bills@.take(i as int).contains(x)) by {
                if bills@.take(i as int).contains(x) {
                    let k = choose|k: int| 0 <= k < i && bills@.take(i as int)[k] == x;
                    assert(bills@[k] == bills@[i as int]);
                    assert(false);
                }
            }
        }
        if !contains_bill(spends, x) {
            let ghost kept0 = kept@;
            proof {
                assert(!kept0.to_set().contains(x));
            }
            kept.push(x);
            proof {
                kept0.lemma_push_to_set_commute(x);
                assert(kept@.to_set() =~= bills@.take(i + 1).to_set().difference(
                    spends@.to_set(),
                ));
            }
        } else {
            proof {
                assert(kept@.to_set() =~= bills@.take(i + 1).to_set().difference(
                    spends@.to_set(),
                ));
            }
        }
        i = i + 1;
    }
    proof {
        assert(bills@.take(n as int) =~= bills@);
    }
    kept
}

/// Whether the vector holds no bill twice.
fn all_distinct(v: &Vec<Bill>) -> (r: bool)
    ensures
        r == distinct_bills(v@),
{
    let n = v.len();
    let mut i: usize = 0;
    while i < n
        invariant
            n == v@.len(),
            i <= n,
            forall|p: int, q: int| 0 <= p < i && p < q < n ==> v@[p] != v@[q],
        decreases n - i,
    {
        let mut j: usize = i + 1;
        while j < n
            invariant
                n == v@.len(),
                i < n,
                i < j <= n,
                forall|p: int, q: int| 0 <= p < i && p < q < n ==> v@[p] != v@[q],
                forall|q: int| i < q < j ==> v@[i as int] != v@[q],
            decreases n - j,
        {
            if v[i] == v[j] {
                return false;
            }
            j = j + 1;
        }
        i = i + 1;
    }
    true
}

/// Whether no spent bill shares its serial number with a received bill.
fn serials_all_disjoint(spends: &Vec<Bill>, receives: &Vec<Bill>) -> (r: bool)
    ensures
        r == serials_disjoint(spends@, receives@),
{
    let n = spends.len();
    let m = receives.len();
    let mut i: usize = 0;
    while i < n
        invariant
            n == spends@.len(),
            m == receives@.len(),
            i <= n,
            forall|p: int, q: int| 0 <= p < i && 0 <= q < m ==> spends@[p].serial != receives@[q].serial,
        decreases n - i,
    {
        let mut j: usize = 0;
        while j < m
            invariant
                n == spends@.len(),
                m == receives@.len(),
                i < n,
                j <= m,
                forall|q: int| 0 <= q < j ==> spends@[i as int].serial != receives@[q].serial,
            decreases m - j,
        {
            if spends[i].serial == receives[j].serial {
                return false;
            }
            j = j + 1;
        }
        i = i + 1;
    }
    true
}

/// Whether the received bills take exactly the next serial numbers in order.
fn serials_in_sequence(next_serial: u64, receives: &Vec<Bill>) -> (r: bool)
    ensures
        r == serials_contiguous(next_serial, receives@),
{
    let n = receives.len();
    let mut i: usize = 0;
    while i < n
        invariant
            n == receives@.len(),
            i <= n,
            forall|k: int| 0 <= k < i ==> receives@[k].serial == next_serial + k,
        decreases n - i,
    {
        let s = receives[i].serial;
        if s < next_serial || s - next_serial != i as u64 {
            return false;
        }
        i = i + 1;
    }
    true
}

/// The state machine of the cash system: two transitions, mint and
/// transfer, over states that track the circulating bills.
pub struct DigitalCashSystem;

impl DigitalCashSystem {
    /// Computes the state that follows `starting_state` under `t`, without
    /// mutating the input. A mint unconditionally creates one bill carrying
    /// the current serial cursor. A transfer is checked against the
    /// pipeline in `transfer_allowed`; on any failure the returned state
    /// equals the starting state, bill for bill.
    ///
    /// The two arithmetic preconditions only rule out exhaustion of the
    /// 64-bit serial counter by the bills this call creates.
    #[verifier::loop_isolation(false)]
    pub fn next_state(starting_state: &State, t: &CashTransaction) -> (r: State)
        requires
            starting_state.wf(),
            *t matches CashTransaction::Mint { .. } ==> starting_state.next_serial < u64::MAX,
            *t matches CashTransaction::Transfer { spends, receives } ==> (transfer_allowed(
                *starting_state,
                spends@,
                receives@,
            ) ==> starting_state.next_serial + receives@.len() <= u64::MAX),
        ensures
            r.wf(),
            transition(*starting_state, *t, r),
    {
        match t {
            CashTransaction::Mint { minter, amount } => {
                let mut next = clone_state(starting_state);
                let serial = next.next_serial;
                next.add_bill(Bill { owner: *minter, amount: *amount, serial });
                next
            },
            CashTransaction::Transfer { spends, receives } => {
                // An empty spend may not conjure money: no-op.
                if spends.len() == 0 {
                    return clone_state(starting_state);
                }
                // An empty receive burns whichever spent bills circulate.
                if receives.len() == 0 {
                    let kept = retain_not_spent(&starting_state.bills, spends);
                    return State { bills: kept, next_serial: starting_state.next_serial };
                }
                // Per received bill, in order: no zero amount, no bill that
                // is also spent, and no overflow of the received total.
                let mut total_received: u64 = 0;
                let nr = receives.len();
                let mut i: usize = 0;
                while i < nr
                    invariant
                        i <= nr,
                        total_received == sum_amounts(receives@.take(i as int)),
                        forall|k: int| 0 <= k < i ==> receives@[k].amount != 0,
                        forall|k: int| 0 <= k < i ==> !spends@.contains(receives@[k]),
                    decreases nr - i,
                {
                    let b = receives[i];
                    if b.amount == 0 {
                        return clone_state(starting_state);
                    }
                    if contains_bill(spends, b) {
                        return clone_state(starting_state);
                    }
                    proof {
                        lemma_sum_take_succ(receives@, i as int);
                    }
                    if b.amount > u64::MAX - total_received {
                        proof {
                            lemma_sum_take_le(receives@, i + 1);
                        }
                        return clone_state(starting_state);
                    }
                    total_received = total_received + b.amount;
                    i = i + 1;
                }
                proof {
                    assert(receives@.take(nr as int) =~= receives@);
                }
                // Per spent bill, in order: it must circulate right now.
                // The spent total is widened to 128 bits: circulating bills
                // may sum past 64 bits, and spending them is legitimate.
                let mut total_spent: u128 = 0;
                let ns = spends.len();
                let mut j: usize = 0;
                while j < ns
                    invariant
                        j <= ns,
                        total_spent == sum_amounts(spends@.take(j as int)),
                        forall|k: int| 0 <= k < j ==> starting_state.bills@.contains(spends@[k]),
                    decreases ns - j,
                {
                    let b = spends[j];
                    if !contains_bill(&starting_state.bills, b) {
                        return clone_state(starting_state);
                    }
                    proof {
                        lemma_sum_take_succ(spends@, j as int);
                        lemma_sum_bound(spends@.take(j as int));
                        assert((j as int) * (u64::MAX as int) + (u64::MAX as int) <= u128::MAX
                            as int) by (nonlinear_arith)
                            requires
                                0 <= j as int,
                                j as int + 1 <= u64::MAX as int,
                        ;
                    }
                    total_spent = total_spent + (b.amount as u128);
                    j = j + 1;
                }
                proof {
                    assert(spends@.take(ns as int) =~= spends@);
                }
                // Each circulating bill may be spent at most once.
                if !all_distinct(spends) {
                    return clone_state(starting_state);
                }
                // A serial may not pass from a destroyed to a created bill.
                if !serials_all_disjoint(spends, receives) {
                    return clone_state(starting_state);
                }
                // Created bills take exactly the next serials, in order.
                if !serials_in_sequence(starting_state.next_serial, receives) {
                    return clone_state(starting_state);
                }
                // No value may be created; a shortfall is burned.
                if (total_received as u128) > total_spent {
                    return clone_state(starting_state);
                }
                assert(transfer_allowed(*starting_state, spends@, receives@));
                // Commit: exchange the spent bills for the received ones.
                let kept = retain_not_spent(&starting_state.bills, spends);
                let mut next = State { bills: kept, next_serial: starting_state.next_serial };
                let mut k: usize = 0;
                while k < nr
                    invariant
                        k <= nr,
                        next.wf(),
                        next.bill_set() == starting_state.bill_set().difference(
                            spends@.to_set(),
                        ).union(receives@.take(k as int).to_set()),
                        next.next_serial == starting_state.next_serial + k,
                    decreases nr - k,
                {
                    proof {
                        assert(receives@.take(k as int).push(receives@[k as int]) =~= receives@.take(
                        k + 1));
                        receives@.take(k as int).lemma_push_to_set_commute(receives@[k as int]);
                    }
                    next.add_bill(receives[k]);
                    proof {
                        assert(next.bill_set() =~= starting_state.bill_set().difference(
                            spends@.to_set(),
                        ).union(receives@.take(k + 1).to_set()));
                    }
                    k = k + 1;
                }
                proof {
                    assert(receives@.take(nr as int) =~= receives@);
                    assert forall|x: Bill| receives@.to_set().contains(x) implies !spends@.to_set()
                        .contains(x) by {
                        let w = choose|w: int| 0 <= w < receives@.len() && receives@[w] == x;
                        assert(!spends@.contains(receives@[w]));
                    }
                    assert(starting_state.bill_set().difference(spends@.to_set()).union(
                        receives@.to_set(),
                    ) =~= starting_state.bill_set().union(receives@.to_set()).difference(
                        spends@.to_set(),
                    ));
                }
                next
            },
        }
    }
}

} // verus!
