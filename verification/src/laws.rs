//! System-wide laws of the transition relation, each stated and proved over
//! the spec functions that `next_state`'s contract uses.

use vstd::prelude::*;

use crate::bill::sum_amounts;
use crate::bill::Bill;
use crate::bill::CashTransaction;
use crate::engine::spends_exist;
use crate::engine::transfer_allowed;
use crate::engine::transition;
use crate::state::State;

verus! {

/// A transfer is rejected when it spends nothing, or when it would receive
/// bills and fails any check of the validation pipeline. (A non-empty spend
/// with an empty receive is a burn, not a rejection.)
pub open spec fn transfer_rejected(pre: State, t: CashTransaction) -> bool {
    &&& t is Transfer
    &&& (t->Transfer_spends@.len() == 0 || (t->Transfer_receives@.len() > 0
        && !transfer_allowed(pre, t->Transfer_spends@, t->Transfer_receives@)))
}

/// How many bills a transaction creates: one for a mint, one per received
/// bill for a transfer that passes validation, none otherwise.
pub open spec fn bills_created(pre: State, t: CashTransaction) -> int {
    match t {
        CashTransaction::Mint { .. } => 1,
        CashTransaction::Transfer { spends, receives } => if transfer_allowed(
            pre,
            spends@,
            receives@,
        ) {
            receives@.len() as int
        } else {
            0
        },
    }
}

/// A run of the system: `states` records every state it passes through,
/// and each step follows from the one before under the matching
/// transaction.
pub open spec fn is_run(states: Seq<State>, ts: Seq<CashTransaction>) -> bool {
    &&& states.len() == ts.len() + 1
    &&& forall|i: int| 0 <= i < ts.len() ==> transition(states[i], #[trigger] ts[i], states[i + 1])
}

/// How many bills a whole run creates: the per-step counts added up.
pub open spec fn total_created(states: Seq<State>, ts: Seq<CashTransaction>) -> int
    decreases ts.len(),
{
    if ts.len() == 0 {
        0
    } else {
        bills_created(states[0], ts[0]) + total_created(states.drop_first(), ts.drop_first())
    }
}

/// Idempotent rejection: a transaction that fails any check of the pipeline
/// leaves the state exactly as it was, bill for bill, serial cursor
/// included.
pub proof fn lemma_idempotent_rejection(pre: State, t: CashTransaction, post: State)
    requires
        transition(pre, t, post),
        transfer_rejected(pre, t),
    ensures
        post.bills@ == pre.bills@,
        post.next_serial == pre.next_serial,
{
}

/// Serial monotonicity, one step: a transition advances the serial cursor
/// by exactly the number of bills it creates, and so never decreases it.
pub proof fn lemma_serial_monotonic_step(pre: State, t: CashTransaction, post: State)
    requires
        transition(pre, t, post),
    ensures
        post.next_serial == pre.next_serial + bills_created(pre, t),
        post.next_serial >= pre.next_serial,
{
}

/// Serial monotonicity, any run: across every run of the system the serial
/// cursor never decreases, and it rises by exactly the total number of
/// bills the run creates.
pub proof fn lemma_serial_monotonic_run(states: Seq<State>, ts: Seq<CashTransaction>)
    requires
        is_run(states, ts),
    ensures
        states.last().next_serial == states.first().next_serial + total_created(states, ts),
        states.last().next_serial >= states.first().next_serial,
    decreases ts.len(),
{
    if ts.len() == 0 {
    } else {
        lemma_serial_monotonic_step(states[0], ts[0], states[1]);
        assert(is_run(states.drop_first(), ts.drop_first())) by {
            assert forall|i: int| 0 <= i < ts.drop_first().len() implies transition(
                states.drop_first()[i],
                #[trigger] ts.drop_first()[i],
                states.drop_first()[i + 1],
            ) by {
                assert(ts.drop_first()[i] == ts[i + 1]);
                assert(transition(states[i + 1], ts[i + 1], states[i + 2]));
            }
        }
        lemma_serial_monotonic_run(states.drop_first(), ts.drop_first());
        assert(states.drop_first().first() == states[1]);
        assert(states.drop_first().last() == states.last());
    }
}

/// Value conservation for transfers: a transfer that passes validation
/// receives at most as much value as it spends.
pub proof fn lemma_value_conservation_transfer(pre: State, t: CashTransaction, post: State)
    requires
        transition(pre, t, post),
        t is Transfer,
        transfer_allowed(pre, t->Transfer_spends@, t->Transfer_receives@),
    ensures
        sum_amounts(t->Transfer_receives@) <= sum_amounts(t->Transfer_spends@),
{
}

/// Value conservation for mints: a mint adds exactly one bill, of the
/// requested amount and owner, carrying the current serial cursor.
pub proof fn lemma_value_conservation_mint(pre: State, t: CashTransaction, post: State)
    requires
        transition(pre, t, post),
        t is Mint,
    ensures
        post.bill_set() == pre.bill_set().insert(
            Bill { owner: t->Mint_minter, amount: t->Mint_amount, serial: pre.next_serial },
        ),
        post.bill_set().contains(
            Bill { owner: t->Mint_minter, amount: t->Mint_amount, serial: pre.next_serial },
        ),
        post.next_serial == pre.next_serial + 1,
{
}

/// No double spend: after a transfer commits, its spent bills are out of
/// circulation, so replaying the very same transaction fails the existence
/// check and leaves the new state untouched.
pub proof fn lemma_no_double_spend(pre: State, t: CashTransaction, post: State, post2: State)
    requires
        transition(pre, t, post),
        t is Transfer,
        transfer_allowed(pre, t->Transfer_spends@, t->Transfer_receives@),
        transition(post, t, post2),
    ensures
        !spends_exist(post.bill_set(), t->Transfer_spends@),
        !transfer_allowed(post, t->Transfer_spends@, t->Transfer_receives@),
        post2.bills@ == post.bills@,
        post2.next_serial == post.next_serial,
{
    let spends = t->Transfer_spends@;
    let b = spends[0];
    assert(spends.to_set().contains(b));
    assert(!post.bill_set().contains(b));
}

} // verus!
