//! The event gateway: which handlers an event starts, and what they answer.
//!
//! A handler is a ticket. Events come from outside; the caller runs the
//! handlers of [`EventGateway::triggers`] in turn and hands their answers to
//! [`collect_results`].

use crate::names;
use crate::step_context;
use crate::step_context::put;
use crate::text;
use crate::text::same;
use crate::text_map;
use crate::text_map::TextMap;
use crate::value::{Value, ValueView};
use vstd::prelude::*;

verus! {

/// A handler of an event.
#[derive(Debug)]
pub struct EventTrigger {
    /// The event that it handles.
    pub event_type: String,
    /// The orchestration that it starts.
    pub target: String,
    /// The ticket of the handler.
    pub handler: u64,
}

/// A trigger as mathematical data.
pub struct TriggerView {
    /// The event that it handles.
    pub event_type: Seq<char>,
    /// The orchestration that it starts.
    pub target: Seq<char>,
    /// The ticket of the handler.
    pub handler: u64,
}

impl View for EventTrigger {
    type V = TriggerView;

    open spec fn view(&self) -> TriggerView {
        TriggerView {
            event_type: self.event_type@,
            target: self.target@,
            handler: self.handler,
        }
    }
}

impl EventTrigger {
    /// An equal trigger.
    pub fn duplicate(&self) -> (copy: EventTrigger)
        ensures
            copy@ == self@,
    {
        EventTrigger {
            event_type: self.event_type.clone(),
            target: self.target.clone(),
            handler: self.handler,
        }
    }
}

/// The triggers of a list, as mathematical data.
pub open spec fn trigger_views(list: Seq<EventTrigger>) -> Seq<TriggerView> {
    Seq::new(list.len(), |i: int| list[i]@)
}

/// The triggers of a list that do not start a target.
pub open spec fn without_target(list: Seq<TriggerView>, target: Seq<char>) -> Seq<TriggerView>
    decreases list.len(),
{
    if list.len() == 0 {
        Seq::empty()
    } else {
        let front = without_target(list.drop_last(), target);
        if list.last().target != target {
            front.push(list.last())
        } else {
            front
        }
    }
}

/// The targets of some triggers, in their order.
pub open spec fn targets_of(list: Seq<TriggerView>) -> Seq<Seq<char>> {
    Seq::new(list.len(), |i: int| list[i].target)
}

/// The lists of a map, as mathematical data.
pub open spec fn subscription_views(map: TextMap<Vec<EventTrigger>>) -> Map<
    Seq<char>,
    Seq<TriggerView>,
> {
    map@.map_values(|list: Vec<EventTrigger>| trigger_views(list@))
}

/// The lists that remain when a target is gone: no list is empty.
pub open spec fn unsubscribed(
    subscriptions: Map<Seq<char>, Seq<TriggerView>>,
    target: Seq<char>,
) -> Map<Seq<char>, Seq<TriggerView>> {
    Map::new(
        |k: Seq<char>|
            subscriptions.contains_key(k) && without_target(subscriptions[k], target).len() > 0,
        |k: Seq<char>| without_target(subscriptions[k], target),
    )
}

/// The triggers of an event.
pub open spec fn subscribed(
    subscriptions: Map<Seq<char>, Seq<TriggerView>>,
    event_type: Seq<char>,
) -> Seq<TriggerView> {
    if subscriptions.contains_key(event_type) {
        subscriptions[event_type]
    } else {
        Seq::empty()
    }
}

/// The values of the answers that are no failures, in their order.
pub open spec fn successes(answers: Seq<Result<Value, String>>) -> Seq<ValueView>
    decreases answers.len(),
{
    if answers.len() == 0 {
        Seq::empty()
    } else {
        let front = successes(answers.drop_last());
        match answers.last() {
            Ok(value) => front.push(value.model()),
            Err(_) => front,
        }
    }
}

/// Some values, as mathematical data.
pub open spec fn value_views(values: Seq<Value>) -> Seq<ValueView> {
    Seq::new(values.len(), |i: int| values[i].model())
}

/// The results of the handlers that succeeded, in the order in which they
/// answered. A handler that failed takes nothing from the others.
pub fn collect_results(answers: Vec<Result<Value, String>>) -> (results: Vec<Value>)
    ensures
        value_views(results@) == successes(answers@),
{
    let ghost all = answers@;
    let mut rest: Vec<Result<Value, String>> = answers;
    let mut backwards: Vec<Value> = Vec::new();
    assert(all.take(all.len() as int) =~= all);
    while rest.len() > 0
        invariant
            rest@.len() <= all.len(),
            rest@ == all.take(rest@.len() as int),
            value_views(backwards@).len() == backwards@.len(),
            successes(all) == successes(rest@) + value_views(backwards@).reverse(),
        decreases rest.len(),
    {
        let ghost before = rest@;
        let ghost gathered = value_views(backwards@);
        let last: Option<Result<Value, String>> = rest.pop();
        assert(rest@ =~= before.drop_last());
        assert(rest@ =~= all.take(rest@.len() as int));
        if let Some(Ok(value)) = last {
            backwards.push(value);
            assert(value_views(backwards@) =~= gathered.push(value.model()));
            assert(successes(rest@) + value_views(backwards@).reverse() =~= successes(rest@).push(
                value.model(),
            ) + gathered.reverse());
        }
    }
    let mut results: Vec<Value> = Vec::new();
    let ghost total = value_views(backwards@);
    assert(value_views(results@) + total.reverse() =~= successes(all));
    while backwards.len() > 0
        invariant
            value_views(results@) + value_views(backwards@).reverse() == successes(all),
        decreases backwards.len(),
    {
        let ghost gathered = value_views(backwards@);
        let ghost done = value_views(results@);
        let next: Option<Value> = backwards.pop();
        if let Some(value) = next {
            results.push(value);
            assert(value_views(results@) =~= done.push(gathered.last()));
            assert(value_views(backwards@) =~= gathered.drop_last());
            assert(value_views(results@) + value_views(backwards@).reverse() =~= done
                + gathered.reverse());
        }
    }
    assert(value_views(results@) =~= successes(all));
    results
}

/// The members of the answer about a saga that runs on its own.
pub open spec fn pending_members(saga_name: Seq<char>) -> Map<Seq<char>, ValueView> {
    Map::empty().insert("saga"@, ValueView::String(saga_name)).insert(
        "status"@,
        ValueView::String("PENDING"@),
    )
}

/// The payload that an event hands to its handlers: what its body parses to, or
/// null where it has no body or one that does not parse.
pub fn event_payload(parsed: Option<Value>) -> (payload: Value)
    ensures
        payload.model() == match parsed {
            Some(value) => value.model(),
            None => ValueView::Null,
        },
        parsed matches Some(value) ==> payload == value,
{
    match parsed {
        Some(value) => value,
        None => Value::Null,
    }
}

/// What a trigger answers that has started a saga on its own.
pub fn pending_answer(saga_name: &str) -> (answer: Value)
    ensures
        answer.well_formed(),
        step_context::is_object_of(answer.model(), pending_members(saga_name@)),
{
    let mut fields: TextMap<Value> = TextMap::new();
    assert(step_context::values_of(fields) =~= Map::empty());
    put(&mut fields, "saga".to_owned(), Value::String(saga_name.to_owned()));
    put(&mut fields, "status".to_owned(), Value::String("PENDING".to_owned()));
    proof {
        step_context::lemma_is_object_of(fields);
        step_context::lemma_good_entries(fields);
        assert(step_context::values_of(fields) =~= pending_members(saga_name@));
    }
    Value::Object(fields)
}

/// Handlers by the event that they handle.
#[derive(Debug)]
pub struct EventGateway {
    /// The triggers, by event.
    pub subscriptions: TextMap<Vec<EventTrigger>>,
}

impl View for EventGateway {
    type V = Map<Seq<char>, Seq<TriggerView>>;

    open spec fn view(&self) -> Map<Seq<char>, Seq<TriggerView>> {
        subscription_views(self.subscriptions)
    }
}

fn copy_triggers(list: &Vec<EventTrigger>) -> (copy: Vec<EventTrigger>)
    ensures
        trigger_views(copy@) == trigger_views(list@),
{
    let mut out: Vec<EventTrigger> = Vec::new();
    let mut i: usize = 0;
    while i < list.len()
        invariant
            i <= list@.len(),
            out@.len() == i,
            forall|k: int| 0 <= k < i ==> (#[trigger] out@[k])@ == list@[k]@,
        decreases list.len() - i,
    {
        out.push(list[i].duplicate());
        i += 1;
    }
    assert(trigger_views(out@) =~= trigger_views(list@));
    out
}

fn drop_target(list: &Vec<EventTrigger>, target: &str) -> (kept: Vec<EventTrigger>)
    ensures
        trigger_views(kept@) == without_target(trigger_views(list@), target@),
{
    let ghost all = trigger_views(list@);
    let mut out: Vec<EventTrigger> = Vec::new();
    let mut i: usize = 0;
    assert(trigger_views(out@) =~= Seq::empty());
    while i < list.len()
        invariant
            i <= list@.len(),
            all == trigger_views(list@),
            trigger_views(out@) == without_target(all.take(i as int), target@),
        decreases list.len() - i,
    {
        proof {
            assert(all.take(i + 1).drop_last() =~= all.take(i as int));
            assert(all.take(i + 1).last() == list@[i as int]@);
        }
        if !same(list[i].target.as_str(), target) {
            let ghost before = trigger_views(out@);
            out.push(list[i].duplicate());
            assert(trigger_views(out@) =~= before.push(list@[i as int]@));
        }
        i += 1;
    }
    assert(all.take(all.len() as int) =~= all);
    out
}

impl EventGateway {
    /// Whether the events are in order and each has a trigger.
    pub open spec fn well_formed(self) -> bool {
        &&& self.subscriptions.well_formed()
        &&& forall|k: Seq<char>|
            self.subscriptions@.contains_key(k) ==> (#[trigger] self.subscriptions@[k])@.len() > 0
    }

    /// A gateway without triggers.
    pub fn new() -> (gateway: EventGateway)
        ensures
            gateway.well_formed(),
            gateway@ == Map::<Seq<char>, Seq<TriggerView>>::empty(),
    {
        let gateway: EventGateway = EventGateway { subscriptions: TextMap::new() };
        assert(gateway@ =~= Map::<Seq<char>, Seq<TriggerView>>::empty());
        gateway
    }

    /// Adds a trigger, behind those of its event.
    pub fn register(&mut self, event_type: &str, target: &str, handler: u64)
        requires
            old(self).well_formed(),
        ensures
            final(self).well_formed(),
            final(self)@ == old(self)@.insert(
                event_type@,
                subscribed(old(self)@, event_type@).push(
                    TriggerView { event_type: event_type@, target: target@, handler },
                ),
            ),
    {
        let ghost before = *self;
        let trigger: EventTrigger = EventTrigger {
            event_type: event_type.to_owned(),
            target: target.to_owned(),
            handler,
        };
        let mut list: Vec<EventTrigger> = match self.subscriptions.remove(event_type) {
            Some(list) => list,
            None => {
                let none: Vec<EventTrigger> = Vec::new();
                assert(trigger_views(none@) =~= Seq::empty());
                none
            },
        };
        assert(trigger_views(list@) == subscribed(before@, event_type@));
        let ghost known = trigger_views(list@);
        list.push(trigger);
        assert(trigger_views(list@) =~= known.push(trigger@));
        self.subscriptions.insert(event_type.to_owned(), list);
        assert(self@ =~= before@.insert(event_type@, known.push(trigger@)));
    }

    /// Removes the triggers that start a target.
    pub fn unregister(&mut self, target: &str)
        requires
            old(self).well_formed(),
        ensures
            final(self).well_formed(),
            final(self)@ == unsubscribed(old(self)@, target@),
    {
        let ghost before = *self;
        let ghost keys = text_map::keys_of(self.subscriptions.entries@);
        let mut out: TextMap<Vec<EventTrigger>> = TextMap::new();
        let mut i: usize = 0;
        while i < self.subscriptions.entries.len()
            invariant
                *self == before,
                before.well_formed(),
                i <= self.subscriptions.entries@.len(),
                keys == text_map::keys_of(self.subscriptions.entries@),
                out.well_formed(),
                forall|k: Seq<char>|
                    out@.contains_key(k) ==> (#[trigger] out@[k])@.len() > 0,
                forall|k: Seq<char>|
                    #![trigger out@.contains_key(k)]
                    out@.contains_key(k) <==> 0 <= names::place(keys, k) < i && without_target(
                        before@[k],
                        target@,
                    ).len() > 0,
                forall|k: Seq<char>|
                    #![trigger out@[k]]
                    out@.contains_key(k) ==> trigger_views(out@[k]@) == without_target(
                        before@[k],
                        target@,
                    ),
            decreases self.subscriptions.entries.len() - i,
        {
            let ghost known = out@;
            let ghost key = self.subscriptions.entries@[i as int].0@;
            proof {
                self.subscriptions.lemma_entry(i as int);
                assert(before@[key] == trigger_views(self.subscriptions.entries@[i as int].1@));
            }
            let kept: Vec<EventTrigger> = drop_target(&self.subscriptions.entries[i].1, target);
            assert(trigger_views(kept@).len() == kept@.len());
            if kept.len() > 0 {
                out.insert(self.subscriptions.entries[i].0.clone(), kept);
            }
            proof {
                assert forall|k: Seq<char>| #![trigger out@.contains_key(k)] out@.contains_key(k)
                    <==> 0 <= names::place(keys, k) < i + 1 && without_target(
                    before@[k],
                    target@,
                ).len() > 0 by {
                    names::lemma_place(keys, k);
                    if names::place(keys, k) == i {
                        assert(k == key);
                    }
                    assert(known.contains_key(k) <==> 0 <= names::place(keys, k) < i
                        && without_target(before@[k], target@).len() > 0);
                }
            }
            i += 1;
        }
        self.subscriptions = out;
        proof {
            let want = unsubscribed(before@, target@);
            assert forall|k: Seq<char>|
                #![trigger self@.dom().contains(k)]
                #![trigger want.dom().contains(k)]
                self@.dom().contains(k) == want.dom().contains(k) && (self@.dom().contains(k)
                    ==> self@[k] == want[k]) by {
                names::lemma_place(keys, k);
                assert(out@.contains_key(k) <==> 0 <= names::place(keys, k) < keys.len()
                    && without_target(before@[k], target@).len() > 0);
                assert(before.subscriptions@.contains_key(k) <==> names::place(keys, k) >= 0);
                if out@.contains_key(k) {
                    assert(trigger_views(out@[k]@) == without_target(before@[k], target@));
                }
            }
            assert(self@ =~= want);
        }
    }

    /// The triggers of an event, in the order in which they were registered.
    pub fn triggers(&self, event_type: &str) -> (list: Vec<EventTrigger>)
        ensures
            trigger_views(list@) == subscribed(self@, event_type@),
    {
        match self.subscriptions.get(event_type) {
            Some(list) => copy_triggers(list),
            None => {
                let none: Vec<EventTrigger> = Vec::new();
                assert(trigger_views(none@) =~= Seq::empty());
                none
            },
        }
    }

    /// The targets of each event, in order of the events.
    pub fn list_subscriptions(&self) -> (map: TextMap<Vec<String>>)
        requires
            self.well_formed(),
        ensures
            map.well_formed(),
            map@.dom() == self@.dom(),
            forall|k: Seq<char>|
                map@.contains_key(k) ==> text::texts((#[trigger] map@[k])@) == targets_of(self@[k]),
    {
        let mut entries: Vec<(String, Vec<String>)> = Vec::new();
        let mut i: usize = 0;
        while i < self.subscriptions.entries.len()
            invariant
                i <= self.subscriptions.entries@.len(),
                entries@.len() == i,
                forall|k: int|
                    0 <= k < i ==> {
                        &&& (#[trigger] entries@[k]).0@ == self.subscriptions.entries@[k].0@
                        &&& text::texts(entries@[k].1@) == targets_of(
                            trigger_views(self.subscriptions.entries@[k].1@),
                        )
                    },
            decreases self.subscriptions.entries.len() - i,
        {
            let targets: Vec<String> = target_list(&self.subscriptions.entries[i].1);
            entries.push((self.subscriptions.entries[i].0.clone(), targets));
            i += 1;
        }
        let map: TextMap<Vec<String>> = TextMap { entries };
        proof {
            let keys = text_map::keys_of(self.subscriptions.entries@);
            assert(text_map::keys_of(map.entries@) =~= keys);
            assert(map@.dom() =~= self@.dom());
            assert forall|k: Seq<char>| map@.contains_key(k) implies text::texts(
                (#[trigger] map@[k])@,
            ) == targets_of(self@[k]) by {
                names::lemma_place(keys, k);
                let p = names::place(keys, k);
                assert(map.entries@[p].0@ == k);
            }
        }
        map
    }
}

fn target_list(list: &Vec<EventTrigger>) -> (targets: Vec<String>)
    ensures
        text::texts(targets@) == targets_of(trigger_views(list@)),
{
    let mut out: Vec<String> = Vec::new();
    let mut i: usize = 0;
    while i < list.len()
        invariant
            i <= list@.len(),
            out@.len() == i,
            forall|k: int| 0 <= k < i ==> (#[trigger] out@[k])@ == list@[k].target@,
        decreases list.len() - i,
    {
        out.push(list[i].target.clone());
        i += 1;
    }
    assert(text::texts(out@) =~= targets_of(trigger_views(list@)));
    out
}

/// Once a target is removed, no event starts it, and every other trigger is
/// where it was.
pub proof fn law_removed_target_is_never_started(
    subscriptions: Map<Seq<char>, Seq<TriggerView>>,
    target: Seq<char>,
    event_type: Seq<char>,
    other: TriggerView,
)
    ensures
        subscribed(unsubscribed(subscriptions, target), event_type).contains(other)
            <==> other.target != target && subscribed(subscriptions, event_type).contains(other),
{
    lemma_without_target(subscribed(subscriptions, event_type), target, other);
}

proof fn lemma_without_target(list: Seq<TriggerView>, target: Seq<char>, other: TriggerView)
    ensures
        without_target(list, target).contains(other) <==> other.target != target && list.contains(
            other,
        ),
    decreases list.len(),
{
    if list.len() > 0 {
        lemma_without_target(list.drop_last(), target, other);
        let front = list.drop_last();
        assert(list =~= front.push(list.last()));
        assert(list.contains(other) <==> front.contains(other) || list.last() == other) by {
            if front.contains(other) {
                let m = choose|m: int| 0 <= m < front.len() && front[m] == other;
                assert(list[m] == other);
            }
            if list.last() == other {
                assert(list[list.len() - 1] == other);
            }
            if list.contains(other) {
                let m = choose|m: int| 0 <= m < list.len() && list[m] == other;
                if m < front.len() {
                    assert(front[m] == other);
                }
            }
        }
        let kept = without_target(front, target);
        let grown = kept.push(list.last());
        if kept.contains(other) {
            let m = choose|m: int| 0 <= m < kept.len() && kept[m] == other;
            assert(grown[m] == other);
        }
        assert(grown[kept.len() as int] == list.last());
        if grown.contains(other) {
            let m = choose|m: int| 0 <= m < grown.len() && grown[m] == other;
            if m < kept.len() {
                assert(kept[m] == other);
            }
        }
    }
}

/// A handler that fails changes none of the results of the others.
pub proof fn law_failed_handlers_are_skipped(
    before: Seq<Result<Value, String>>,
    message: String,
    later: Seq<Result<Value, String>>,
)
    ensures
        successes(before.push(Err(message)) + later) == successes(before + later),
    decreases later.len(),
{
    if later.len() == 0 {
        assert(before.push(Err(message)) + later =~= before.push(Err(message)));
        assert(before.push(Err(message)).drop_last() =~= before);
        assert(before + later =~= before);
    } else {
        law_failed_handlers_are_skipped(before, message, later.drop_last());
        assert((before.push(Err(message)) + later).drop_last() =~= before.push(Err(message))
            + later.drop_last());
        assert((before + later).drop_last() =~= before + later.drop_last());
    }
}

/// Each handler that succeeds adds its value at the end of the results, and
/// nothing else does.
pub proof fn law_every_success_is_a_result(
    answers: Seq<Result<Value, String>>,
    answer: Result<Value, String>,
)
    ensures
        successes(Seq::empty()).len() == 0,
        answer matches Ok(value) ==> successes(answers.push(answer)) == successes(answers).push(
            value.model(),
        ),
        answer is Err ==> successes(answers.push(answer)) == successes(answers),
{
    assert(answers.push(answer).drop_last() =~= answers);
}

/// Triggers of one event stay in their order when a target is removed, and an
/// event that has none left is gone.
pub proof fn law_removal_keeps_the_order(
    subscriptions: Map<Seq<char>, Seq<TriggerView>>,
    target: Seq<char>,
    event_type: Seq<char>,
)
    ensures
        subscribed(unsubscribed(subscriptions, target), event_type) == subscribed(
            subscriptions,
            event_type,
        ).filter(|t: TriggerView| t.target != target),
        unsubscribed(subscriptions, target).contains_key(event_type) ==> unsubscribed(
            subscriptions,
            target,
        )[event_type].len() > 0,
{
    let list = subscribed(subscriptions, event_type);
    lemma_without_is_filter(list, target);
    let pred = |t: TriggerView| t.target != target;
    if !unsubscribed(subscriptions, target).contains_key(event_type) {
        assert(without_target(list, target).len() == 0);
        assert(without_target(list, target) =~= Seq::empty());
    }
}

proof fn lemma_without_is_filter(list: Seq<TriggerView>, target: Seq<char>)
    ensures
        without_target(list, target) == list.filter(|t: TriggerView| t.target != target),
    decreases list.len(),
{
    reveal(Seq::filter);
    if list.len() > 0 {
        lemma_without_is_filter(list.drop_last(), target);
    }
}

/// The answer about a saga that runs on its own names the saga, says that it
/// is pending, and says nothing else.
pub proof fn law_pending_answers_name_the_saga(saga_name: Seq<char>, key: Seq<char>)
    ensures
        pending_members(saga_name).contains_key(key) <==> key == "saga"@ || key == "status"@,
        pending_members(saga_name)["saga"@] == ValueView::String(saga_name),
        pending_members(saga_name)["status"@] == ValueView::String("PENDING"@),
{
    reveal_strlit("saga");
    reveal_strlit("status");
    assert("saga"@.len() == 4 && "status"@.len() == 6);
}

/// The targets of some triggers are theirs, one for each and in their order.
pub proof fn law_targets_follow_the_triggers(list: Seq<EventTrigger>, k: int)
    requires
        0 <= k < list.len(),
    ensures
        targets_of(trigger_views(list)).len() == list.len(),
        targets_of(trigger_views(list))[k] == list[k].target@,
        trigger_views(list)[k].event_type == list[k].event_type@,
        trigger_views(list)[k].handler == list[k].handler,
{
}

/// A trigger that is registered stands behind those of its event, and the
/// triggers of other events are as they were.
pub proof fn law_triggers_are_kept_by_event(
    subscriptions: Map<Seq<char>, Seq<TriggerView>>,
    trigger: TriggerView,
    event_type: Seq<char>,
    other: Seq<char>,
)
    ensures
        ({
            let later = subscriptions.insert(
                event_type,
                subscribed(subscriptions, event_type).push(trigger),
            );
            &&& subscribed(later, event_type).last() == trigger
            &&& subscribed(later, event_type).drop_last() == subscribed(subscriptions, event_type)
            &&& other != event_type ==> subscribed(later, other) == subscribed(
                subscriptions,
                other,
            )
        }),
        !subscriptions.contains_key(other) ==> subscribed(subscriptions, other).len() == 0,
{
    assert(subscribed(subscriptions, event_type).push(trigger).drop_last() =~= subscribed(
        subscriptions,
        event_type,
    ));
}

} // verus!
