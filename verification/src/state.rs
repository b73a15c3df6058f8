//! The ledger state: the set of currently circulating bills together with
//! the serial number the next created bill will carry.
//!
//! The bills are held in a vector without duplicates and the contracts speak
//! of the set of its elements, so the state behaves as an unordered set of
//! bills. Equality between states is set equality of the bills plus equality
//! of the serial cursor.

use vstd::prelude::*;

use crate::bill::distinct_bills;
use crate::bill::Bill;

verus! {

/// The state of the cash system: the circulating bills and a counter for
/// the next serial number to hand out when a bill is created.
#[derive(Clone, Debug)]
pub struct State {
    /// The currently circulating bills, no bill twice.
    pub bills: Vec<Bill>,
    /// The serial number the next created bill receives.
    pub next_serial: u64,
}

impl State {
    /// The circulating bills, as the unordered set the contracts speak of.
    pub open spec fn bill_set(self) -> Set<Bill> {
        self.bills@.to_set()
    }

    /// Well-formedness: the vector holds each bill at most once, so it
    /// faithfully represents a set.
    pub open spec fn wf(self) -> bool {
        distinct_bills(self.bills@)
    }

    /// A fresh ledger: no bills in circulation, serials start at zero.
    pub fn new() -> (s: Self)
        ensures
            s.wf(),
            s.bills@ == Seq::<Bill>::empty(),
            s.next_serial == 0,
    {
        State { bills: Vec::new(), next_serial: 0 }
    }

    /// Moves the serial cursor, leaving the circulating bills untouched.
    pub fn set_serial(&mut self, serial: u64)
        ensures
            final(self).bills@ == old(self).bills@,
            final(self).next_serial == serial,
    {
        self.next_serial = serial;
    }

    /// The serial number the next created bill would receive.
    pub fn next_serial(&self) -> (r: u64)
        ensures
            r == self.next_serial,
    {
        self.next_serial
    }

    /// Advances the serial cursor by one.
    fn increment_serial(&mut self)
        requires
            old(self).next_serial < u64::MAX,
        ensures
            final(self).bills@ == old(self).bills@,
            final(self).next_serial == old(self).next_serial + 1,
    {
        self.next_serial = self.next_serial + 1;
    }

    /// Puts a bill into circulation (a no-op on the bill set if an equal
    /// bill already circulates) and consumes one serial number.
    pub(crate) fn add_bill(&mut self, elem: Bill)
        requires
            old(self).wf(),
            old(self).next_serial < u64::MAX,
        ensures
            final(self).wf(),
            final(self).bill_set() == old(self).bill_set().insert(elem),
            final(self).next_serial == old(self).next_serial + 1,
    {
        if !contains_bill(&self.bills, elem) {
            self.bills.push(elem);
            proof {
                old(self).bills@.lemma_push_to_set_commute(elem);
            }
        } else {
            proof {
                assert(old(self).bill_set().insert(elem) =~= old(self).bill_set());
            }
        }
        self.increment_serial();
    }

    /// Builds a ledger by putting each given bill into circulation in turn,
    /// consuming one serial number per bill handed in (also for a bill that
    /// repeats an earlier one and so does not enlarge the set).
    pub fn from_bills(bills: Vec<Bill>) -> (s: Self)
        ensures
            s.wf(),
            s.bill_set() == bills@.to_set(),
            s.next_serial == bills@.len(),
    {
        let mut s = State::new();
        let n = bills.len();
        let mut i: usize = 0;
        while i < n
            invariant
                n == bills@.len(),
                i <= n,
                s.wf(),
                s.bill_set() == bills@.take(i as int).to_set(),
                s.next_serial == i,
            decreases n - i,
        {
            proof {
                assert(bills@.take(i + 1).drop_last() =~= bills@.take(i as int));
                bills@.take(i as int).lemma_push_to_set_commute(bills@[i as int]);
                assert(bills@.take(i as int).push(bills@[i as int]) =~= bills@.take(i + 1));
            }
            s.add_bill(bills[i]);
            i = i + 1;
        }
        proof {
            assert(bills@.take(n as int) =~= bills@);
        }
        s
    }
}

/// Whether the vector holds this exact bill.
pub(crate) fn contains_bill(v: &Vec<Bill>, b: Bill) -> (r: bool)
    ensures
        r == v@.contains(b),
{
    let n = v.len();
    let mut i: usize = 0;
    while i < n
        invariant
            n == v@.len(),
            i <= n,
            forall|k: int| 0 <= k < i ==> v@[k] != b,
        decreases n - i,
    {
        if v[i] == b {
            return true;
        }
        i = i + 1;
    }
    false
}

/// Whether every bill of `a` also stands in `b`.
fn contained_in(a: &Vec<Bill>, b: &Vec<Bill>) -> (r: bool)
    ensures
        r == (forall|k: int| 0 <= k < a@.len() ==> b@.contains(a@[k])),
{
    let n = a.len();
    let mut i: usize = 0;
    while i < n
        invariant
            n == a@.len(),
            i <= n,
            forall|k: int| 0 <= k < i ==> b@.contains(a@[k]),
        decreases n - i,
    {
        if !contains_bill(b, a[i]) {
            return false;
        }
        i = i + 1;
    }
    true
}

impl PartialEq for State {
    /// Two states are equal when they circulate the same set of bills and
    /// agree on the next serial number; the order the vectors happen to
    /// hold the bills in does not matter.
    fn eq(&self, other: &State) -> (r: bool) {
        let both = contained_in(&self.bills, &other.bills) && contained_in(
            &other.bills,
            &self.bills,
        );
        proof {
            if both {
                assert(self.bills@.to_set() =~= other.bills@.to_set());
            } else if !(forall|k: int|
                0 <= k < self.bills@.len() ==> other.bills@.contains(self.bills@[k])) {
                let k = choose|k: int|
                    0 <= k < self.bills@.len() && !other.bills@.contains(self.bills@[k]);
                assert(self.bills@.to_set().contains(self.bills@[k]));
                assert(!other.bills@.to_set().contains(self.bills@[k]));
            } else {
                let k = choose|k: int|
                    0 <= k < other.bills@.len() && !self.bills@.contains(other.bills@[k]);
                assert(other.bills@.to_set().contains(other.bills@[k]));
                assert(!self.bills@.to_set().contains(other.bills@[k]));
            }
        }
        both && self.next_serial == other.next_serial
    }
}

impl vstd::std_specs::cmp::PartialEqSpecImpl for State {
    open spec fn obeys_eq_spec() -> bool {
        true
    }

    open spec fn eq_spec(&self, other: &State) -> bool {
        self.bills@.to_set() == other.bills@.to_set() && self.next_serial == other.next_serial
    }
}

} // verus!
