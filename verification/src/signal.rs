//! Signals: payloads handed to the executions that wait for them.
//!
//! A waiter is a ticket. A signal that comes before anyone waits for it is
//! kept for the next waiter, so it is not lost.

use crate::text;
use crate::text::{quoted, same};
use crate::text_map;
use crate::text_map::TextMap;
use crate::value::{Value, ValueView};
use vstd::prelude::*;
use vstd::string::*;

verus! {

/// How waiting for a signal fails.
#[derive(Debug)]
pub enum SignalError {
    /// The waiter was discarded before the signal came.
    Cancelled {
        /// The execution that waited.
        correlation_id: String,
        /// The signal it waited for.
        signal: String,
    },
}

/// The message of a signal error.
pub open spec fn signal_error_text(error: SignalError) -> Seq<char> {
    match error {
        SignalError::Cancelled { correlation_id, signal } => "signal "@ + text::debug_text(signal@)
            + " wait cancelled for "@ + text::debug_text(correlation_id@),
    }
}

impl SignalError {
    /// The message of the error.
    pub fn to_string(&self) -> (message: String)
        ensures
            message@ == signal_error_text(*self),
    {
        match self {
            SignalError::Cancelled { correlation_id, signal } => {
                let mut out: String = "signal ".to_owned();
                out.append(quoted(signal.as_str()).as_str());
                out.append(" wait cancelled for ");
                out.append(quoted(correlation_id.as_str()).as_str());
                out
            },
        }
    }
}

/// One who waits for a signal.
#[derive(Debug)]
pub struct Waiter {
    /// The execution that waits.
    pub correlation_id: String,
    /// The signal it waits for.
    pub signal: String,
    /// The ticket under which it is woken.
    pub ticket: u64,
}

/// A payload that nobody waited for.
#[derive(Debug)]
pub struct KeptSignal {
    /// The execution it is for.
    pub correlation_id: String,
    /// The signal.
    pub signal: String,
    /// The payload.
    pub payload: Value,
}

/// Waiters and kept payloads.
#[derive(Debug)]
pub struct SignalService {
    /// The waiters, in the order in which they came.
    pub waiters: Vec<Waiter>,
    /// The payloads that nobody waited for.
    pub kept: Vec<KeptSignal>,
}

/// The tickets that wait for a signal of an execution, in the order in which
/// they came.
pub open spec fn waiting(waiters: Seq<Waiter>, id: Seq<char>, signal: Seq<char>) -> Seq<u64>
    decreases waiters.len(),
{
    if waiters.len() == 0 {
        Seq::empty()
    } else {
        let front = waiting(waiters.drop_last(), id, signal);
        let last = waiters.last();
        if last.correlation_id@ == id && last.signal@ == signal {
            front.push(last.ticket)
        } else {
            front
        }
    }
}

/// The payload that is kept for a signal of an execution, if there is one.
pub open spec fn kept_payload(
    kept: Seq<KeptSignal>,
    id: Seq<char>,
    signal: Seq<char>,
) -> Option<ValueView>
    decreases kept.len(),
{
    if kept.len() == 0 {
        None
    } else {
        let last = kept.last();
        if last.correlation_id@ == id && last.signal@ == signal {
            Some(last.payload.model())
        } else {
            kept_payload(kept.drop_last(), id, signal)
        }
    }
}

/// The tickets that wait for any signal of an execution.
pub open spec fn waiting_any(waiters: Seq<Waiter>, id: Seq<char>) -> Seq<u64>
    decreases waiters.len(),
{
    if waiters.len() == 0 {
        Seq::empty()
    } else {
        let front = waiting_any(waiters.drop_last(), id);
        if waiters.last().correlation_id@ == id {
            front.push(waiters.last().ticket)
        } else {
            front
        }
    }
}

/// Whether an execution has a waiter or a kept payload.
pub open spec fn active(service: SignalService, id: Seq<char>) -> bool {
    ||| exists|i: int|
        0 <= i < service.waiters@.len() && (#[trigger] service.waiters@[i]).correlation_id@ == id
    ||| exists|i: int|
        0 <= i < service.kept@.len() && (#[trigger] service.kept@[i]).correlation_id@ == id
}

/// Whether nothing but one signal of one execution has changed.
pub open spec fn others_unchanged(
    before: SignalService,
    later: SignalService,
    id: Seq<char>,
    signal: Seq<char>,
) -> bool {
    &&& forall|i: Seq<char>, s: Seq<char>|
        i != id || s != signal ==> #[trigger] waiting(later.waiters@, i, s) == waiting(
            before.waiters@,
            i,
            s,
        )
    &&& forall|i: Seq<char>, s: Seq<char>|
        i != id || s != signal ==> #[trigger] kept_payload(later.kept@, i, s) == kept_payload(
            before.kept@,
            i,
            s,
        )
}

/// What subscribing does: the kept payload is the answer and is kept no more,
/// or else the ticket waits, behind those that came before.
pub open spec fn subscribed(
    before: SignalService,
    later: SignalService,
    id: Seq<char>,
    signal: Seq<char>,
    ticket: u64,
    answer: Option<ValueView>,
) -> bool {
    &&& others_unchanged(before, later, id, signal)
    &&& answer == kept_payload(before.kept@, id, signal)
    &&& kept_payload(later.kept@, id, signal) is None
    &&& waiting(later.waiters@, id, signal) == if answer is Some {
        waiting(before.waiters@, id, signal)
    } else {
        waiting(before.waiters@, id, signal).push(ticket)
    }
}

/// What ending a delivery does: a payload that was not taken is kept.
pub open spec fn settled(
    before: SignalService,
    later: SignalService,
    id: Seq<char>,
    signal: Seq<char>,
    payload: ValueView,
    consumed: bool,
) -> bool {
    if consumed {
        later == before
    } else {
        &&& later.waiters == before.waiters
        &&& others_unchanged(before, later, id, signal)
        &&& kept_payload(later.kept@, id, signal) == Some(payload)
    }
}

fn concerns(correlation_id: &String, signal: &String, id: &str, wanted: &str) -> (yes: bool)
    ensures
        yes == (correlation_id@ == id@ && signal@ == wanted@),
{
    same(correlation_id.as_str(), id) && same(signal.as_str(), wanted)
}

proof fn lemma_kept_concat(a: Seq<KeptSignal>, b: Seq<KeptSignal>, id: Seq<char>, signal: Seq<char>)
    ensures
        kept_payload(a + b, id, signal) == match kept_payload(b, id, signal) {
            Some(v) => Some(v),
            None => kept_payload(a, id, signal),
        },
    decreases b.len(),
{
    if b.len() == 0 {
        assert(a + b =~= a);
    } else {
        lemma_kept_concat(a, b.drop_last(), id, signal);
        assert((a + b).drop_last() =~= a + b.drop_last());
        assert((a + b).last() == b.last());
    }
}

proof fn lemma_kept_one(k: KeptSignal, id: Seq<char>, signal: Seq<char>)
    ensures
        kept_payload(seq![k], id, signal) == (if k.correlation_id@ == id && k.signal@ == signal {
            Some(k.payload.model())
        } else {
            None
        }),
{
    assert(seq![k].drop_last() =~= Seq::empty());
    reveal_with_fuel(kept_payload, 2);
}

impl SignalService {
    /// Whether the kept payloads are in order: one at most for each signal of
    /// an execution.
    pub open spec fn well_formed(self) -> bool {
        &&& forall|i: int| 0 <= i < self.kept@.len() ==> (#[trigger] self.kept@[i]).payload.well_formed()
        &&& forall|i: int, j: int|
            0 <= i < j < self.kept@.len() ==> (#[trigger] self.kept@[i]).correlation_id@ != (
            #[trigger] self.kept@[j]).correlation_id@ || self.kept@[i].signal@
                != self.kept@[j].signal@
    }

    /// A service without waiters and payloads.
    pub fn new() -> (service: SignalService)
        ensures
            service.well_formed(),
            service.waiters@.len() == 0,
            service.kept@.len() == 0,
    {
        SignalService { waiters: Vec::new(), kept: Vec::new() }
    }

    /// Takes the payload that is kept for a signal, if there is one.
    fn take_kept(&mut self, correlation_id: &str, signal: &str) -> (payload: Option<Value>)
        requires
            old(self).well_formed(),
        ensures
            final(self).well_formed(),
            final(self).waiters == old(self).waiters,
            kept_payload(final(self).kept@, correlation_id@, signal@) is None,
            forall|i: Seq<char>, s: Seq<char>|
                i != correlation_id@ || s != signal@ ==> #[trigger] kept_payload(
                    final(self).kept@,
                    i,
                    s,
                ) == kept_payload(old(self).kept@, i, s),
            match payload {
                Some(v) => {
                    &&& kept_payload(old(self).kept@, correlation_id@, signal@) == Some(v.model())
                    &&& v.well_formed()
                },
                None => {
                    &&& kept_payload(old(self).kept@, correlation_id@, signal@) is None
                    &&& *final(self) == *old(self)
                },
            },
    {
        let ghost all = self.kept@;
        let mut i: usize = 0;
        assert(kept_payload(all.take(0), correlation_id@, signal@) is None);
        while i < self.kept.len()
            invariant
                i <= self.kept@.len(),
                self.kept@ == all,
                *self == *old(self),
                self.well_formed(),
                kept_payload(all.take(i as int), correlation_id@, signal@) is None,
            decreases self.kept.len() - i,
        {
            if concerns(
                &self.kept[i].correlation_id,
                &self.kept[i].signal,
                correlation_id,
                signal,
            ) {
                let found: KeptSignal = self.kept.remove(i);
                proof {
                    let a = all.take(i as int);
                    let b = all.skip(i + 1);
                    assert(all =~= a + seq![all[i as int]] + b);
                    assert(self.kept@ =~= a + b);
                    lemma_none_after(all, i as int);
                    assert forall|c: Seq<char>, s: Seq<char>| c != correlation_id@ || s
                        != signal@ implies #[trigger] kept_payload(self.kept@, c, s)
                        == kept_payload(all, c, s) by {
                        lemma_kept_concat(a, b, c, s);
                        lemma_kept_concat(a + seq![all[i as int]], b, c, s);
                        lemma_kept_concat(a, seq![all[i as int]], c, s);
                        lemma_kept_one(all[i as int], c, s);
                    }
                    lemma_kept_concat(a, b, correlation_id@, signal@);
                    lemma_kept_concat(a + seq![all[i as int]], b, correlation_id@, signal@);
                    lemma_kept_concat(a, seq![all[i as int]], correlation_id@, signal@);
                    lemma_kept_one(all[i as int], correlation_id@, signal@);
                    assert forall|x: int, y: int|
                        0 <= x < y < self.kept@.len() implies (
                    #[trigger] self.kept@[x]).correlation_id@ != (
                    #[trigger] self.kept@[y]).correlation_id@ || self.kept@[x].signal@
                        != self.kept@[y].signal@ by {
                        let p = if x < i {
                            x
                        } else {
                            x + 1
                        };
                        let q = if y < i {
                            y
                        } else {
                            y + 1
                        };
                        assert(self.kept@[x] == all[p] && self.kept@[y] == all[q]);
                    }
                    assert forall|x: int| 0 <= x < self.kept@.len() implies (
                    #[trigger] self.kept@[x]).payload.well_formed() by {
                        let p = if x < i {
                            x
                        } else {
                            x + 1
                        };
                        assert(self.kept@[x] == all[p]);
                    }
                }
                return Some(found.payload);
            }
            proof {
                let next = all.take(i + 1);
                assert(next.drop_last() =~= all.take(i as int));
                assert(next.last() == all[i as int]);
            }
            i += 1;
        }
        assert(all.take(all.len() as int) =~= all);
        None
    }

    /// Waits for a signal under a ticket: gives the payload that is kept for
    /// it, or else parks the ticket.
    pub fn subscribe(&mut self, correlation_id: &str, signal: &str, ticket: u64) -> (payload: Option<
        Value,
    >)
        requires
            old(self).well_formed(),
        ensures
            final(self).well_formed(),
            payload matches Some(v) ==> v.well_formed(),
            subscribed(
                *old(self),
                *final(self),
                correlation_id@,
                signal@,
                ticket,
                match payload {
                    Some(v) => Some(v.model()),
                    None => None,
                },
            ),
            payload is Some <==> exists|i: int|
                0 <= i < old(self).kept@.len() && (
                #[trigger] old(self).kept@[i]).correlation_id@ == correlation_id@
                    && old(self).kept@[i].signal@ == signal@,
            payload is Some ==> final(self).waiters == old(self).waiters,
            payload is None ==> {
                &&& final(self).kept == old(self).kept
                &&& final(self).waiters@.len() == old(self).waiters@.len() + 1
                &&& final(self).waiters@.drop_last() == old(self).waiters@
                &&& final(self).waiters@.last().ticket == ticket
                &&& final(self).waiters@.last().correlation_id@ == correlation_id@
                &&& final(self).waiters@.last().signal@ == signal@
            },
    {
        proof {
            law_payloads_are_kept_by_signal(self.kept@, correlation_id@, signal@);
        }
        match self.take_kept(correlation_id, signal) {
            Some(payload) => Some(payload),
            None => {
                let ghost before = self.waiters@;
                let waiter: Waiter = Waiter {
                    correlation_id: correlation_id.to_owned(),
                    signal: signal.to_owned(),
                    ticket,
                };
                self.waiters.push(waiter);
                assert(self.waiters@.drop_last() =~= before);
                None
            },
        }
    }

    /// Takes the tickets that wait for a signal; each is to be handed the
    /// payload.
    pub fn take_waiters(&mut self, correlation_id: &str, signal: &str) -> (tickets: Vec<u64>)
        requires
            old(self).well_formed(),
        ensures
            final(self).well_formed(),
            final(self).kept == old(self).kept,
            others_unchanged(*old(self), *final(self), correlation_id@, signal@),
            tickets@ == waiting(old(self).waiters@, correlation_id@, signal@),
            waiting(final(self).waiters@, correlation_id@, signal@).len() == 0,
    {
        let ghost all = self.waiters@;
        let ghost id = correlation_id@;
        let ghost wanted = signal@;
        let mut tickets: Vec<u64> = Vec::new();
        let mut i: usize = 0;
        let ghost mut done: int = 0;
        proof {
            assert(all.skip(0) =~= all);
            assert(all.take(0) =~= Seq::<Waiter>::empty());
        }
        while i < self.waiters.len()
            invariant
                i <= self.waiters@.len(),
                0 <= done <= all.len(),
                self.kept == old(self).kept,
                id == correlation_id@,
                wanted == signal@,
                self.waiters@.skip(i as int) == all.skip(done),
                tickets@ == waiting(all.take(done), id, wanted),
                waiting(self.waiters@.take(i as int), id, wanted).len() == 0,
                forall|c: Seq<char>, s: Seq<char>|
                    c != id || s != wanted ==> #[trigger] waiting(
                        self.waiters@.take(i as int),
                        c,
                        s,
                    ) == waiting(all.take(done), c, s),
            decreases self.waiters.len() - i,
        {
            let ghost before = self.waiters@;
            proof {
                assert(before.skip(i as int).len() == all.skip(done).len());
                assert(before.skip(i as int)[0] == before[i as int]);
                assert(all.skip(done)[0] == all[done]);
                assert(all.take(done + 1).drop_last() =~= all.take(done));
                assert(all.take(done + 1).last() == all[done]);
                assert(all.skip(done).drop_first() =~= all.skip(done + 1));
                assert(before.skip(i as int).drop_first() =~= before.skip(i + 1));
            }
            if concerns(
                &self.waiters[i].correlation_id,
                &self.waiters[i].signal,
                correlation_id,
                signal,
            ) {
                let found: Waiter = self.waiters.remove(i);
                tickets.push(found.ticket);
                proof {
                    assert(self.waiters@.take(i as int) =~= before.take(i as int));
                    assert(self.waiters@.skip(i as int) =~= before.skip(i + 1));
                    assert forall|c: Seq<char>, s: Seq<char>| c != id || s
                        != wanted implies #[trigger] waiting(self.waiters@.take(i as int), c, s)
                        == waiting(all.take(done + 1), c, s) by {
                        assert(waiting(before.take(i as int), c, s) == waiting(
                            all.take(done),
                            c,
                            s,
                        ));
                    }
                }
            } else {
                proof {
                    assert(before.take(i + 1).drop_last() =~= before.take(i as int));
                    assert(before.take(i + 1).last() == before[i as int]);
                    assert forall|c: Seq<char>, s: Seq<char>| c != id || s
                        != wanted implies #[trigger] waiting(before.take(i + 1), c, s)
                        == waiting(all.take(done + 1), c, s) by {
                        assert(waiting(before.take(i as int), c, s) == waiting(
                            all.take(done),
                            c,
                            s,
                        ));
                    }
                }
                i += 1;
            }
            proof {
                done = done + 1;
            }
        }
        proof {
            assert(self.waiters@.skip(i as int) =~= Seq::<Waiter>::empty());
            assert(all.skip(done).len() == 0);
            assert(all.take(done) =~= all);
            assert(self.waiters@.take(i as int) =~= self.waiters@);
        }
        tickets
    }

    /// Ends a delivery: a payload that no live waiter took is kept for the
    /// next one, in place of any kept before. Gives whether it was taken.
    pub fn settle(&mut self, correlation_id: &str, signal: &str, payload: Value, consumed: bool) -> (
    taken: bool)
        requires
            old(self).well_formed(),
            payload.well_formed(),
        ensures
            final(self).well_formed(),
            taken == consumed,
            settled(
                *old(self),
                *final(self),
                correlation_id@,
                signal@,
                payload.model(),
                consumed,
            ),
    {
        if consumed {
            return true;
        }
        let ghost first = self.kept@;
        let _ = self.take_kept(correlation_id, signal);
        let ghost before = self.kept@;
        let kept: KeptSignal = KeptSignal {
            correlation_id: correlation_id.to_owned(),
            signal: signal.to_owned(),
            payload,
        };
        self.kept.push(kept);
        proof {
            assert(self.kept@.drop_last() =~= before);
            assert forall|i: Seq<char>, s: Seq<char>|
                i != correlation_id@ || s != signal@ implies #[trigger] kept_payload(
                self.kept@,
                i,
                s,
            ) == kept_payload(first, i, s) by {
                assert(kept_payload(before, i, s) == kept_payload(first, i, s));
            }
            assert forall|x: int, y: int|
                0 <= x < y < self.kept@.len() implies (#[trigger] self.kept@[x]).correlation_id@
                != (#[trigger] self.kept@[y]).correlation_id@ || self.kept@[x].signal@
                != self.kept@[y].signal@ by {
                assert(self.kept@[x] == before[x]);
                if y < before.len() {
                    assert(self.kept@[y] == before[y]);
                } else {
                    lemma_not_kept(before, correlation_id@, signal@, x);
                }
            }
        }
        false
    }

    /// The executions that have a waiter or a kept payload, in increasing
    /// order.
    pub fn list_active(&self) -> (ids: Vec<String>)
        ensures
            text_map::ascending(text::texts(ids@)),
            forall|id: Seq<char>| #[trigger]
                text::texts(ids@).contains(id) <==> active(*self, id),
            forall|id: Seq<char>| #[trigger]
                text::texts(ids@).contains(id) <==> (exists|i: int|
                    0 <= i < self.waiters@.len() && (
                    #[trigger] self.waiters@[i]).correlation_id@ == id) || (exists|i: int|
                    0 <= i < self.kept@.len() && (#[trigger] self.kept@[i]).correlation_id@ == id),
    {
        let mut seen: TextMap<bool> = TextMap::new();
        let mut i: usize = 0;
        while i < self.waiters.len()
            invariant
                i <= self.waiters@.len(),
                seen.well_formed(),
                forall|id: Seq<char>| #[trigger]
                    seen@.contains_key(id) <==> exists|k: int|
                        0 <= k < i && (#[trigger] self.waiters@[k]).correlation_id@ == id,
            decreases self.waiters.len() - i,
        {
            let ghost prev = seen@;
            seen.insert(self.waiters[i].correlation_id.clone(), true);
            proof {
                assert forall|id: Seq<char>| #[trigger]
                    seen@.contains_key(id) <==> exists|k: int|
                        0 <= k < i + 1 && (#[trigger] self.waiters@[k]).correlation_id@ == id by {
                    if prev.contains_key(id) {
                        let k = choose|k: int|
                            0 <= k < i && (#[trigger] self.waiters@[k]).correlation_id@ == id;
                        assert(self.waiters@[k].correlation_id@ == id);
                    }
                    if id == self.waiters@[i as int].correlation_id@ {
                        assert(self.waiters@[i as int].correlation_id@ == id);
                    }
                }
            }
            i += 1;
        }
        let mut j: usize = 0;
        while j < self.kept.len()
            invariant
                j <= self.kept@.len(),
                seen.well_formed(),
                forall|id: Seq<char>| #[trigger]
                    seen@.contains_key(id) <==> (exists|k: int|
                        0 <= k < self.waiters@.len() && (
                        #[trigger] self.waiters@[k]).correlation_id@ == id) || (exists|k: int|
                        0 <= k < j && (#[trigger] self.kept@[k]).correlation_id@ == id),
            decreases self.kept.len() - j,
        {
            let ghost prev = seen@;
            seen.insert(self.kept[j].correlation_id.clone(), true);
            proof {
                assert forall|id: Seq<char>| #[trigger]
                    seen@.contains_key(id) <==> (exists|k: int|
                        0 <= k < self.waiters@.len() && (
                        #[trigger] self.waiters@[k]).correlation_id@ == id) || (exists|k: int|
                        0 <= k < j + 1 && (#[trigger] self.kept@[k]).correlation_id@ == id) by {
                    assert(prev.contains_key(id) <==> (exists|k: int|
                        0 <= k < self.waiters@.len() && (
                        #[trigger] self.waiters@[k]).correlation_id@ == id) || (exists|k: int|
                        0 <= k < j && (#[trigger] self.kept@[k]).correlation_id@ == id));
                    if id == self.kept@[j as int].correlation_id@ {
                        assert(self.kept@[j as int].correlation_id@ == id);
                    }
                }
            }
            j += 1;
        }
        let ids: Vec<String> = seen.keys();
        proof {
            assert forall|id: Seq<char>| #[trigger]
                text::texts(ids@).contains(id) <==> active(*self, id) by {
                text_map::law_keys_are_the_domain(seen, id);
            }
        }
        ids
    }

    /// Discards the waiters and payloads of an execution. Gives the tickets
    /// that were waiting; their waits are cancelled.
    pub fn unregister(&mut self, correlation_id: &str) -> (tickets: Vec<u64>)
        requires
            old(self).well_formed(),
        ensures
            final(self).well_formed(),
            tickets@ == waiting_any(old(self).waiters@, correlation_id@),
            !active(*final(self), correlation_id@),
            forall|i: Seq<char>, s: Seq<char>|
                i != correlation_id@ ==> #[trigger] waiting(final(self).waiters@, i, s) == waiting(
                    old(self).waiters@,
                    i,
                    s,
                ),
            forall|i: Seq<char>, s: Seq<char>|
                i != correlation_id@ ==> #[trigger] kept_payload(final(self).kept@, i, s)
                    == kept_payload(old(self).kept@, i, s),
    {
        let ghost all = self.waiters@;
        let ghost letters = self.kept@;
        let ghost id = correlation_id@;
        let mut tickets: Vec<u64> = Vec::new();
        let mut waiters: Vec<Waiter> = Vec::new();
        let mut i: usize = 0;
        assert(all.take(0) =~= Seq::<Waiter>::empty());
        while i < self.waiters.len()
            invariant
                i <= self.waiters@.len(),
                self.waiters@ == all,
                self.kept@ == letters,
                id == correlation_id@,
                *self == *old(self),
                tickets@ == waiting_any(all.take(i as int), id),
                forall|k: int|
                    0 <= k < waiters@.len() ==> (#[trigger] waiters@[k]).correlation_id@ != id,
                forall|c: Seq<char>, s: Seq<char>|
                    c != id ==> #[trigger] waiting(waiters@, c, s) == waiting(
                        all.take(i as int),
                        c,
                        s,
                    ),
            decreases self.waiters.len() - i,
        {
            proof {
                assert(all.take(i + 1).drop_last() =~= all.take(i as int));
                assert(all.take(i + 1).last() == all[i as int]);
            }
            let waiter: &Waiter = &self.waiters[i];
            if same(waiter.correlation_id.as_str(), correlation_id) {
                tickets.push(waiter.ticket);
            } else {
                let ghost prev = waiters@;
                let copy: Waiter = Waiter {
                    correlation_id: waiter.correlation_id.clone(),
                    signal: waiter.signal.clone(),
                    ticket: waiter.ticket,
                };
                waiters.push(copy);
                assert(waiters@.drop_last() =~= prev);
                assert forall|c: Seq<char>, s: Seq<char>| c != id implies #[trigger] waiting(
                    waiters@,
                    c,
                    s,
                ) == waiting(all.take(i + 1), c, s) by {
                    assert(waiting(prev, c, s) == waiting(all.take(i as int), c, s));
                }
            }
            i += 1;
        }
        assert(all.take(all.len() as int) =~= all);
        let mut kept: Vec<KeptSignal> = Vec::new();
        let mut j: usize = 0;
        let ghost mut places: Seq<int> = Seq::empty();
        assert(letters.take(0) =~= Seq::<KeptSignal>::empty());
        while j < self.kept.len()
            invariant
                j <= self.kept@.len(),
                self.kept@ == letters,
                id == correlation_id@,
                *self == *old(self),
                self.well_formed(),
                places.len() == kept@.len(),
                forall|k: int|
                    0 <= k < kept@.len() ==> {
                        &&& 0 <= #[trigger] places[k] < j
                        &&& kept@[k].correlation_id@ == letters[places[k]].correlation_id@
                        &&& kept@[k].signal@ == letters[places[k]].signal@
                        &&& kept@[k].payload.well_formed()
                        &&& kept@[k].correlation_id@ != id
                    },
                forall|x: int, y: int|
                    0 <= x < y < places.len() ==> (#[trigger] places[x]) < (#[trigger] places[y]),
                forall|c: Seq<char>, s: Seq<char>|
                    c != id ==> #[trigger] kept_payload(kept@, c, s) == kept_payload(
                        letters.take(j as int),
                        c,
                        s,
                    ),
            decreases self.kept.len() - j,
        {
            proof {
                assert(letters.take(j + 1).drop_last() =~= letters.take(j as int));
                assert(letters.take(j + 1).last() == letters[j as int]);
                assert(letters[j as int].payload.well_formed());
            }
            let letter: &KeptSignal = &self.kept[j];
            if !same(letter.correlation_id.as_str(), correlation_id) {
                let ghost prev = kept@;
                let copy: KeptSignal = KeptSignal {
                    correlation_id: letter.correlation_id.clone(),
                    signal: letter.signal.clone(),
                    payload: letter.payload.duplicate(),
                };
                kept.push(copy);
                proof {
                    assert(kept@.drop_last() =~= prev);
                    places = places.push(j as int);
                    assert forall|c: Seq<char>, s: Seq<char>| c
                        != id implies #[trigger] kept_payload(kept@, c, s) == kept_payload(
                        letters.take(j + 1),
                        c,
                        s,
                    ) by {
                        assert(kept_payload(prev, c, s) == kept_payload(
                            letters.take(j as int),
                            c,
                            s,
                        ));
                    }
                }
            }
            j += 1;
        }
        assert(letters.take(letters.len() as int) =~= letters);
        self.waiters = waiters;
        self.kept = kept;
        proof {
            assert forall|x: int, y: int|
                0 <= x < y < self.kept@.len() implies (#[trigger] self.kept@[x]).correlation_id@
                != (#[trigger] self.kept@[y]).correlation_id@ || self.kept@[x].signal@
                != self.kept@[y].signal@ by {
                assert(places[x] < places[y]);
                assert(letters[places[x]].correlation_id@ != letters[places[y]].correlation_id@
                    || letters[places[x]].signal@ != letters[places[y]].signal@);
            }
            assert forall|x: int| 0 <= x < self.kept@.len() implies (
            #[trigger] self.kept@[x]).payload.well_formed() && self.kept@[x].correlation_id@
                != id by {
                assert(0 <= places[x]);
            }
        }
        tickets
    }
}

proof fn lemma_not_kept(kept: Seq<KeptSignal>, id: Seq<char>, signal: Seq<char>, x: int)
    requires
        kept_payload(kept, id, signal) is None,
        0 <= x < kept.len(),
    ensures
        kept[x].correlation_id@ != id || kept[x].signal@ != signal,
    decreases kept.len(),
{
    if x < kept.len() - 1 {
        lemma_not_kept(kept.drop_last(), id, signal, x);
    }
}

proof fn lemma_none_after(kept: Seq<KeptSignal>, i: int)
    requires
        0 <= i < kept.len(),
        forall|x: int, y: int|
            0 <= x < y < kept.len() ==> (#[trigger] kept[x]).correlation_id@ != (
            #[trigger] kept[y]).correlation_id@ || kept[x].signal@ != kept[y].signal@,
    ensures
        kept_payload(kept.skip(i + 1), kept[i].correlation_id@, kept[i].signal@) is None,
{
    let rest = kept.skip(i + 1);
    assert forall|k: int| 0 <= k < rest.len() implies (#[trigger] rest[k]).correlation_id@
        != kept[i].correlation_id@ || rest[k].signal@ != kept[i].signal@ by {
        assert(rest[k] == kept[i + 1 + k]);
    }
    lemma_no_match(rest, kept[i].correlation_id@, kept[i].signal@);
}

proof fn lemma_no_match(kept: Seq<KeptSignal>, id: Seq<char>, signal: Seq<char>)
    requires
        forall|k: int|
            0 <= k < kept.len() ==> (#[trigger] kept[k]).correlation_id@ != id || kept[k].signal@
                != signal,
    ensures
        kept_payload(kept, id, signal) is None,
    decreases kept.len(),
{
    if kept.len() > 0 {
        let front = kept.drop_last();
        assert forall|k: int| 0 <= k < front.len() implies (#[trigger] front[k]).correlation_id@
            != id || front[k].signal@ != signal by {
            assert(front[k] == kept[k]);
        }
        lemma_no_match(front, id, signal);
        assert(kept[kept.len() - 1] == kept.last());
    }
}

/// A signal that comes before anyone waits for it is not lost: the next waiter
/// is given it, and it is given once.
pub proof fn law_early_signal_is_not_lost(
    before: SignalService,
    later: SignalService,
    last: SignalService,
    id: Seq<char>,
    signal: Seq<char>,
    payload: ValueView,
    ticket: u64,
    answer: Option<ValueView>,
)
    requires
        settled(before, later, id, signal, payload, false),
        subscribed(later, last, id, signal, ticket, answer),
    ensures
        answer == Some(payload),
        kept_payload(last.kept@, id, signal) is None,
{
}

/// An execution with a kept payload is active.
pub proof fn law_kept_payload_makes_active(
    service: SignalService,
    id: Seq<char>,
    signal: Seq<char>,
)
    requires
        kept_payload(service.kept@, id, signal) is Some,
    ensures
        active(service, id),
{
    lemma_kept_is_active(service.kept@, id, signal);
}

proof fn lemma_kept_is_active(kept: Seq<KeptSignal>, id: Seq<char>, signal: Seq<char>)
    requires
        kept_payload(kept, id, signal) is Some,
    ensures
        exists|i: int| 0 <= i < kept.len() && (#[trigger] kept[i]).correlation_id@ == id,
    decreases kept.len(),
{
    if kept.last().correlation_id@ == id && kept.last().signal@ == signal {
        assert(kept[kept.len() - 1].correlation_id@ == id);
    } else {
        lemma_kept_is_active(kept.drop_last(), id, signal);
        let i = choose|i: int|
            0 <= i < kept.drop_last().len() && (
            #[trigger] kept.drop_last()[i]).correlation_id@ == id;
        assert(kept[i].correlation_id@ == id);
    }
}

/// The tickets that a signal wakes are those that wait for that very signal of
/// that very execution.
pub proof fn law_a_signal_wakes_its_own_waiters(
    waiters: Seq<Waiter>,
    id: Seq<char>,
    signal: Seq<char>,
    ticket: u64,
)
    ensures
        waiting(waiters, id, signal).contains(ticket) <==> exists|i: int|
            0 <= i < waiters.len() && (#[trigger] waiters[i]).ticket == ticket
                && waiters[i].correlation_id@ == id && waiters[i].signal@ == signal,
    decreases waiters.len(),
{
    if waiters.len() > 0 {
        let front = waiters.drop_last();
        let n = waiters.len() - 1;
        law_a_signal_wakes_its_own_waiters(front, id, signal, ticket);
        let list = waiting(front, id, signal);
        let whole = waiting(waiters, id, signal);
        let own = waiters[n].correlation_id@ == id && waiters[n].signal@ == signal;
        if list.contains(ticket) {
            let k = choose|k: int| 0 <= k < list.len() && list[k] == ticket;
            assert(whole[k] == ticket);
            let i = choose|i: int|
                0 <= i < front.len() && (#[trigger] front[i]).ticket == ticket
                    && front[i].correlation_id@ == id && front[i].signal@ == signal;
            assert(waiters[i].ticket == ticket);
        }
        if own && waiters[n].ticket == ticket {
            assert(whole[list.len() as int] == ticket);
        }
        if whole.contains(ticket) && !list.contains(ticket) {
            let k = choose|k: int| 0 <= k < whole.len() && whole[k] == ticket;
            if k < list.len() {
                assert(list[k] == ticket);
            }
            assert(waiters[n].ticket == ticket && own);
        }
        if exists|i: int|
            0 <= i < waiters.len() && (#[trigger] waiters[i]).ticket == ticket
                && waiters[i].correlation_id@ == id && waiters[i].signal@ == signal {
            let i = choose|i: int|
                0 <= i < waiters.len() && (#[trigger] waiters[i]).ticket == ticket
                    && waiters[i].correlation_id@ == id && waiters[i].signal@ == signal;
            if i < n {
                assert(front[i].ticket == ticket);
            }
        }
    }
}

/// A payload is kept for a signal exactly when one was kept for that very
/// signal of that very execution, and it is one of those.
pub proof fn law_payloads_are_kept_by_signal(
    kept: Seq<KeptSignal>,
    id: Seq<char>,
    signal: Seq<char>,
)
    ensures
        kept_payload(kept, id, signal) is Some <==> exists|i: int|
            0 <= i < kept.len() && (#[trigger] kept[i]).correlation_id@ == id && kept[i].signal@
                == signal,
        kept_payload(kept, id, signal) matches Some(v) ==> exists|i: int|
            0 <= i < kept.len() && (#[trigger] kept[i]).correlation_id@ == id && kept[i].signal@
                == signal && kept[i].payload.model() == v,
    decreases kept.len(),
{
    if kept.len() > 0 {
        let front = kept.drop_last();
        let n = kept.len() - 1;
        law_payloads_are_kept_by_signal(front, id, signal);
        if kept[n].correlation_id@ == id && kept[n].signal@ == signal {
            assert(kept[n] == kept.last());
        } else {
            if kept_payload(front, id, signal) is Some {
                let i = choose|i: int|
                    0 <= i < front.len() && (#[trigger] front[i]).correlation_id@ == id
                        && front[i].signal@ == signal && front[i].payload.model()
                        == kept_payload(front, id, signal)->0;
                assert(kept[i] == front[i]);
            }
            if exists|i: int|
                0 <= i < kept.len() && (#[trigger] kept[i]).correlation_id@ == id
                    && kept[i].signal@ == signal {
                let i = choose|i: int|
                    0 <= i < kept.len() && (#[trigger] kept[i]).correlation_id@ == id
                        && kept[i].signal@ == signal;
                assert(front[i] == kept[i]);
            }
        }
    }
}

/// A waiter for whom nothing is kept waits behind those that came before, and
/// one that is answered does not wait.
pub proof fn law_only_the_unanswered_wait(
    before: SignalService,
    later: SignalService,
    id: Seq<char>,
    signal: Seq<char>,
    ticket: u64,
    answer: Option<ValueView>,
)
    requires
        subscribed(before, later, id, signal, ticket, answer),
    ensures
        answer is None ==> waiting(later.waiters@, id, signal).len() == waiting(
            before.waiters@,
            id,
            signal,
        ).len() + 1 && waiting(later.waiters@, id, signal).last() == ticket,
        answer is Some ==> waiting(later.waiters@, id, signal) == waiting(
            before.waiters@,
            id,
            signal,
        ),
        answer is None <==> !exists|i: int|
            0 <= i < before.kept@.len() && (#[trigger] before.kept@[i]).correlation_id@ == id
                && before.kept@[i].signal@ == signal,
{
    law_payloads_are_kept_by_signal(before.kept@, id, signal);
}

/// Of payloads that nobody took, the last one is kept.
pub proof fn law_the_last_payload_is_kept(
    before: SignalService,
    between: SignalService,
    later: SignalService,
    id: Seq<char>,
    signal: Seq<char>,
    first: ValueView,
    second: ValueView,
    consumed: bool,
)
    requires
        settled(before, between, id, signal, first, false),
        settled(between, later, id, signal, second, consumed),
    ensures
        kept_payload(later.kept@, id, signal) == Some(
            if consumed {
                first
            } else {
                second
            },
        ),
        later.waiters == before.waiters,
{
}

/// Discarding an execution cancels every wait of it, for whatever signal, and
/// no other.
pub proof fn law_discarding_cancels_every_wait(
    waiters: Seq<Waiter>,
    waiter: Waiter,
    id: Seq<char>,
)
    ensures
        waiting_any(Seq::empty(), id).len() == 0,
        waiter.correlation_id@ == id ==> waiting_any(waiters.push(waiter), id) == waiting_any(
            waiters,
            id,
        ).push(waiter.ticket),
        waiter.correlation_id@ != id ==> waiting_any(waiters.push(waiter), id) == waiting_any(
            waiters,
            id,
        ),
{
    assert(waiters.push(waiter).drop_last() =~= waiters);
}

/// A subscription and a delivery touch one signal of one execution: the waits
/// for any other, and what is kept for it, are as they were.
pub proof fn law_signals_do_not_touch_each_other(
    before: SignalService,
    parked: SignalService,
    ended: SignalService,
    id: Seq<char>,
    signal: Seq<char>,
    ticket: u64,
    answer: Option<ValueView>,
    payload: ValueView,
    consumed: bool,
    other_id: Seq<char>,
    other_signal: Seq<char>,
)
    requires
        subscribed(before, parked, id, signal, ticket, answer),
        settled(before, ended, id, signal, payload, consumed),
        other_id != id || other_signal != signal,
    ensures
        waiting(parked.waiters@, other_id, other_signal) == waiting(
            before.waiters@,
            other_id,
            other_signal,
        ),
        kept_payload(parked.kept@, other_id, other_signal) == kept_payload(
            before.kept@,
            other_id,
            other_signal,
        ),
        waiting(ended.waiters@, other_id, other_signal) == waiting(
            before.waiters@,
            other_id,
            other_signal,
        ),
        kept_payload(ended.kept@, other_id, other_signal) == kept_payload(
            before.kept@,
            other_id,
            other_signal,
        ),
{
}

/// An execution is active exactly as long as someone waits for one of its
/// signals or a payload is kept for one.
pub proof fn law_waits_and_payloads_make_active(service: SignalService, id: Seq<char>)
    ensures
        active(service, id) <==> !((forall|i: int|
            0 <= i < service.waiters@.len() ==> (#[trigger] service.waiters@[i]).correlation_id@
                != id) && (forall|i: int|
            0 <= i < service.kept@.len() ==> (#[trigger] service.kept@[i]).correlation_id@ != id)),
{
}

} // verus!
