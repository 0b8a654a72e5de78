//! Retry until commit: what one attempt at a transaction leaves behind.
//!
//! A backend replays the events of a transaction, in order, inside a fresh
//! database transaction, and then tries to commit. [`settle`] turns what it
//! saw into the next state of the transaction: committed, with the values
//! read, or untouched and pending, to be tried again from its first event.
use crate::history::{session_executed, Event, Transaction, TxnModel};
use vstd::prelude::*;

verus! {

/// What the backend reported for one event of an attempt.
#[derive(Clone, Copy, Debug, PartialEq, Eq, Structural)]
pub enum EventResult {
    /// The write was applied.
    Written,
    /// The read returned this value.
    Read(u64),
    /// The backend refused the operation.
    Failed,
}

/// One attempt at a transaction, as a backend saw it.
pub ghost struct Attempt {
    pub results: Seq<EventResult>,
    pub committed: bool,
}

/// `r` is a successful outcome of the event `e`.
pub open spec fn fits(e: Event, r: EventResult) -> bool {
    if e.write {
        r == EventResult::Written
    } else {
        r is Read
    }
}

/// The attempt went through: each event succeeded and the commit did too.
pub open spec fn attempt_ok(t: TxnModel, results: Seq<EventResult>, committed: bool) -> bool {
    &&& committed
    &&& results.len() == t.events.len()
    &&& forall|j: int| 0 <= j < t.events.len() ==> fits(t.events[j], #[trigger] results[j])
}

/// The event `e` once committed with outcome `r`.
pub open spec fn committed_event(e: Event, r: EventResult) -> Event {
    Event {
        value: match r {
            EventResult::Read(v) => v,
            _ => e.value,
        },
        success: true,
        ..e
    }
}

/// The event `e` waiting for another attempt.
pub open spec fn pending_event(e: Event) -> Event {
    Event { success: false, ..e }
}

/// The transaction `t` after an attempt with these results.
pub open spec fn settled(t: TxnModel, results: Seq<EventResult>, committed: bool) -> TxnModel {
    if attempt_ok(t, results, committed) {
        TxnModel {
            events: Seq::new(t.events.len(), |j: int| committed_event(t.events[j], results[j])),
            success: true,
        }
    } else {
        TxnModel { events: Seq::new(t.events.len(), |j: int| pending_event(t.events[j])), success: false }
    }
}

/// Whether an attempt that reported `results` for the events of `txn` may be
/// committed: every event was replayed, each as its kind asks.
pub fn ready_to_commit(txn: &Transaction, results: &Vec<EventResult>) -> (r: bool)
    ensures
        r == attempt_ok(txn@, results@, true),
{
    let n = txn.events.len();
    if results.len() != n {
        return false;
    }
    let mut j: usize = 0;
    while j < n
        invariant
            n == txn.events@.len() == results@.len(),
            j <= n,
            forall|k: int| 0 <= k < j ==> fits(txn.events@[k], #[trigger] results@[k]),
        decreases n - j,
    {
        let e = txn.events[j];
        let fine = match results[j] {
            EventResult::Written => e.write,
            EventResult::Read(_) => !e.write,
            EventResult::Failed => false,
        };
        if !fine {
            return false;
        }
        j = j + 1;
    }
    true
}

/// The next state of `txn` after an attempt that reported `results` for its
/// events, in order (a failed attempt may stop early), and whose commit did
/// or did not go through. Nothing of a failed attempt is kept.
pub fn settle(txn: &Transaction, results: &Vec<EventResult>, committed: bool) -> (r: Transaction)
    ensures
        r@ == settled(txn@, results@, committed),
{
    let n = txn.events.len();
    let ok = committed && ready_to_commit(txn, results);
    let mut events: Vec<Event> = Vec::new();
    let mut k: usize = 0;
    while k < n
        invariant
            n == txn.events@.len(),
            k <= n,
            ok == attempt_ok(txn@, results@, committed),
            events@ == settled(txn@, results@, committed).events.subrange(0, k as int),
        decreases n - k,
    {
        let e = txn.events[k];
        let next = if ok {
            match results[k] {
                EventResult::Read(v) => Event { value: v, success: true, ..e },
                _ => Event { success: true, ..e },
            }
        } else {
            Event { success: false, ..e }
        };
        events.push(next);
        proof {
            assert(events@ =~= settled(txn@, results@, committed).events.subrange(0, k + 1));
        }
        k = k + 1;
    }
    assert(events@ =~= settled(txn@, results@, committed).events);
    Transaction { events, success: ok }
}

/// A transaction that an attempt left successful is committed and still
/// performs the operations it did before.
pub proof fn lemma_settled_committed(t: TxnModel, results: Seq<EventResult>, committed: bool)
    ensures
        settled(t, results, committed).success ==> settled(t, results, committed).committed(),
        t.same_operations(settled(t, results, committed)),
{
}

/// Executing a session transaction by transaction, each retried until an
/// attempt leaves it successful, leaves a session in which every
/// transaction and every event has succeeded. Here `attempts[i]` is the last
/// attempt at transaction `i`, and `after[i]` the state it left.
pub proof fn lemma_session_committed(before: Seq<TxnModel>, after: Seq<TxnModel>, attempts: Seq<Attempt>)
    requires
        after.len() == before.len(),
        attempts.len() == before.len(),
        forall|i: int|
            0 <= i < before.len() ==> #[trigger] after[i] == settled(
                before[i],
                attempts[i].results,
                attempts[i].committed,
            ),
        forall|i: int| 0 <= i < after.len() ==> (#[trigger] after[i]).success,
    ensures
        session_executed(before, after),
{
    assert forall|i: int| 0 <= i < before.len() implies (#[trigger] before[i]).same_operations(after[i])
        && after[i].committed() by {
        lemma_settled_committed(before[i], attempts[i].results, attempts[i].committed);
    }
}

/// The retry loop on a transaction, run against a backend whose attempts go
/// as `attempts` say: `states[0]` is the transaction before the first
/// attempt and `states[j + 1]` what [`settle`] makes of `states[j]` and
/// attempt `j`. The loop makes another attempt exactly while the state is
/// not successful. If the backend fails the first `r` attempts and lets the
/// next one through, the loop goes on after each of the first `r` attempts
/// and stops after attempt `r + 1`, with the transaction committed: exactly
/// `r + 1` attempts are made.
pub proof fn lemma_retry_termination(states: Seq<TxnModel>, attempts: Seq<Attempt>, r: nat)
    requires
        r < attempts.len(),
        states.len() == attempts.len() + 1,
        forall|j: int|
            0 <= j < attempts.len() ==> #[trigger] states[j + 1] == settled(
                states[j],
                attempts[j].results,
                attempts[j].committed,
            ),
        forall|j: int|
            0 <= j < r ==> !attempt_ok(states[0], #[trigger] attempts[j].results, attempts[j].committed),
        attempt_ok(states[0], attempts[r as int].results, attempts[r as int].committed),
    ensures
        forall|j: int| 1 <= j <= r ==> !(#[trigger] states[j]).success,
        states[r as int + 1].success,
        states[r as int + 1].committed(),
        states[0].same_operations(states[r as int + 1]),
{
    // Each failed attempt leaves the kinds of the events as they were, so
    // later attempts are judged as they would be on the first state.
    assert forall|j: int| 1 <= j <= r implies !(#[trigger] states[j]).success by {
        lemma_failed_attempts_keep_operations(states, attempts, (j - 1) as nat);
        lemma_same_kinds_same_verdict(states[0], states[j - 1], attempts[j - 1].results, attempts[j - 1].committed);
        assert(states[(j - 1) + 1] == settled(states[j - 1], attempts[j - 1].results, attempts[j - 1].committed));
    }
    lemma_failed_attempts_keep_operations(states, attempts, r);
    assert(states[r as int + 1] == settled(states[r as int], attempts[r as int].results, attempts[r as int].committed));
    lemma_same_kinds_same_verdict(states[0], states[r as int], attempts[r as int].results, attempts[r as int].committed);
    lemma_settled_committed(states[r as int], attempts[r as int].results, attempts[r as int].committed);
    let last = states[r as int + 1];
    assert(states[0].same_operations(last)) by {
        assert forall|j: int| 0 <= j < states[0].events.len() implies {
            let (b, a) = (#[trigger] states[0].events[j], last.events[j]);
            &&& a.write == b.write
            &&& a.variable == b.variable
            &&& b.write ==> a.value == b.value
        } by {
            assert(states[r as int].events[j].write == states[0].events[j].write);
        }
    }
}

/// Two transactions with the same operations are judged alike by an attempt.
proof fn lemma_same_kinds_same_verdict(a: TxnModel, b: TxnModel, rs: Seq<EventResult>, c: bool)
    requires
        a.same_operations(b),
    ensures
        attempt_ok(a, rs, c) == attempt_ok(b, rs, c),
{
    if attempt_ok(a, rs, c) {
        assert forall|j: int| 0 <= j < b.events.len() implies fits(b.events[j], #[trigger] rs[j]) by {
            assert(fits(a.events[j], rs[j]));
            assert(a.events[j].write == b.events[j].write);
        }
    }
    if attempt_ok(b, rs, c) {
        assert forall|j: int| 0 <= j < a.events.len() implies fits(a.events[j], #[trigger] rs[j]) by {
            assert(fits(b.events[j], rs[j]));
            assert(a.events[j].write == b.events[j].write);
        }
    }
}

/// Up to the first successful attempt, every state performs the operations
/// of the first one.
proof fn lemma_failed_attempts_keep_operations(states: Seq<TxnModel>, attempts: Seq<Attempt>, j: nat)
    requires
        states.len() == attempts.len() + 1,
        j < states.len(),
        forall|k: int|
            0 <= k < attempts.len() ==> #[trigger] states[k + 1] == settled(
                states[k],
                attempts[k].results,
                attempts[k].committed,
            ),
        forall|k: int|
            0 <= k < j ==> !attempt_ok(states[0], #[trigger] attempts[k].results, attempts[k].committed),
    ensures
        states[j as int].same_operations(states[0]),
        states[0].same_operations(states[j as int]),
    decreases j,
{
    if j > 0 {
        let p = (j - 1) as nat;
        lemma_failed_attempts_keep_operations(states, attempts, p);
        lemma_same_kinds_same_verdict(states[0], states[p as int], attempts[p as int].results, attempts[p as int].committed);
        assert(states[p as int + 1] == settled(states[p as int], attempts[p as int].results, attempts[p as int].committed));
        assert(!attempt_ok(states[p as int], attempts[p as int].results, attempts[p as int].committed));
    }
}

} // verus!
