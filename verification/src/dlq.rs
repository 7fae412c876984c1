//! Dead letters: failed executions kept for later review.

use crate::sorting;
use crate::sorting::sort_by_key;
use crate::text::same;
use crate::text_map::TextMap;
use crate::time;
use crate::time::{random_id, utc_now, Timestamp};
use crate::value::{Value, ValueView};
use vstd::prelude::*;

verus! {

/// A failed execution, or a failed step of one.
#[derive(Debug)]
pub struct DeadLetterEntry {
    /// The id of the entry.
    pub id: String,
    /// The name of the definition.
    pub execution_name: String,
    /// The id of the run.
    pub correlation_id: String,
    /// The failing step, if the failure is that of a step.
    pub step_id: Option<String>,
    /// The kind of the error.
    pub error_type: String,
    /// The message of the error.
    pub error_message: String,
    /// When the entry was captured.
    pub timestamp: Timestamp,
    /// How often an operator has retried it.
    pub retry_count: u32,
    /// The input of the execution.
    pub input: Value,
}

/// What an entry holds, as mathematical data.
#[verifier::ext_equal]
pub struct EntryView {
    /// The id of the entry.
    pub id: Seq<char>,
    /// The name of the definition.
    pub execution_name: Seq<char>,
    /// The id of the run.
    pub correlation_id: Seq<char>,
    /// The failing step.
    pub step_id: Option<Seq<char>>,
    /// The kind of the error.
    pub error_type: Seq<char>,
    /// The message of the error.
    pub error_message: Seq<char>,
    /// When the entry was captured.
    pub timestamp: Timestamp,
    /// How often an operator has retried it.
    pub retry_count: u32,
    /// The input of the execution.
    pub input: ValueView,
}

/// The text of an optional string.
pub open spec fn optional_text(s: Option<String>) -> Option<Seq<char>> {
    match s {
        Some(text) => Some(text@),
        None => None,
    }
}

impl View for DeadLetterEntry {
    type V = EntryView;

    open spec fn view(&self) -> EntryView {
        EntryView {
            id: self.id@,
            execution_name: self.execution_name@,
            correlation_id: self.correlation_id@,
            step_id: optional_text(self.step_id),
            error_type: self.error_type@,
            error_message: self.error_message@,
            timestamp: self.timestamp,
            retry_count: self.retry_count,
            input: self.input.model(),
        }
    }
}

impl DeadLetterEntry {
    /// The entry with one more retry counted.
    pub fn retried(self) -> (entry: DeadLetterEntry)
        requires
            self.retry_count < u32::MAX,
        ensures
            entry == (DeadLetterEntry {
                retry_count: (self.retry_count + 1) as u32,
                ..self
            }),
    {
        DeadLetterEntry { retry_count: self.retry_count + 1, ..self }
    }

    /// A copy of the entry.
    pub fn duplicate(&self) -> (copy: DeadLetterEntry)
        ensures
            copy@ == self@,
            self.input.well_formed() ==> copy.input.well_formed(),
    {
        DeadLetterEntry {
            id: self.id.clone(),
            execution_name: self.execution_name.clone(),
            correlation_id: self.correlation_id.clone(),
            step_id: match &self.step_id {
                Some(step) => Some(step.clone()),
                None => None,
            },
            error_type: self.error_type.clone(),
            error_message: self.error_message.clone(),
            timestamp: self.timestamp,
            retry_count: self.retry_count,
            input: self.input.duplicate(),
        }
    }
}

/// A failure to capture.
#[derive(Debug)]
pub struct DeadLetterCapture {
    /// The name of the definition.
    pub execution_name: String,
    /// The id of the run.
    pub correlation_id: String,
    /// The failing step.
    pub step_id: Option<String>,
    /// The kind of the error.
    pub error_type: String,
    /// The message of the error.
    pub error_message: String,
    /// The input of the execution.
    pub input: Value,
}

/// What an entry captures of a failure, under an id and at a time.
pub open spec fn captured(capture: DeadLetterCapture, id: Seq<char>, now: Timestamp) -> EntryView {
    EntryView {
        id,
        execution_name: capture.execution_name@,
        correlation_id: capture.correlation_id@,
        step_id: optional_text(capture.step_id),
        error_type: capture.error_type@,
        error_message: capture.error_message@,
        timestamp: now,
        retry_count: 0,
        input: capture.input.model(),
    }
}

impl DeadLetterCapture {
    /// A failure of kind `Error`, of no step and without input.
    pub fn new(execution_name: &str, correlation_id: &str, error_message: &str) -> (capture:
        DeadLetterCapture)
        ensures
            capture.execution_name@ == execution_name@,
            capture.correlation_id@ == correlation_id@,
            capture.error_message@ == error_message@,
            capture.step_id is None,
            capture.error_type@ == "Error"@,
            capture.input == Value::Null,
    {
        DeadLetterCapture {
            execution_name: execution_name.to_owned(),
            correlation_id: correlation_id.to_owned(),
            step_id: None,
            error_type: "Error".to_owned(),
            error_message: error_message.to_owned(),
            input: Value::Null,
        }
    }

    /// The failure, of another kind.
    pub fn error_type(self, error_type: &str) -> (capture: DeadLetterCapture)
        ensures
            capture.error_type@ == error_type@,
            capture == (DeadLetterCapture { error_type: capture.error_type, ..self }),
    {
        DeadLetterCapture { error_type: error_type.to_owned(), ..self }
    }

    /// The failure, of a step.
    pub fn step_id(self, step_id: &str) -> (capture: DeadLetterCapture)
        ensures
            optional_text(capture.step_id) == Some(step_id@),
            capture == (DeadLetterCapture { step_id: capture.step_id, ..self }),
    {
        DeadLetterCapture { step_id: Some(step_id.to_owned()), ..self }
    }

    /// The failure, with the input of the execution.
    pub fn input(self, input: Value) -> (capture: DeadLetterCapture)
        ensures
            capture == (DeadLetterCapture { input: input, ..self }),
    {
        DeadLetterCapture { input, ..self }
    }

    /// The entry of the failure, under an id and at a time.
    pub fn into_entry(self, id: String, now: Timestamp) -> (entry: DeadLetterEntry)
        ensures
            entry@ == captured(self, id@, now),
            entry.id == id,
            entry.input == self.input,
    {
        DeadLetterEntry {
            id,
            execution_name: self.execution_name,
            correlation_id: self.correlation_id,
            step_id: self.step_id,
            error_type: self.error_type,
            error_message: self.error_message,
            timestamp: now,
            retry_count: 0,
            input: self.input,
        }
    }
}

/// Which entries to list.
#[derive(Debug)]
pub struct DeadLetterFilter {
    /// Only those of this definition.
    pub execution_name: Option<String>,
    /// Only those of this run.
    pub correlation_id: Option<String>,
}

/// Whether a filter lets an entry through.
pub open spec fn passes(filter: DeadLetterFilter, entry: EntryView) -> bool {
    &&& filter.execution_name matches Some(name) ==> entry.execution_name == name@
    &&& filter.correlation_id matches Some(id) ==> entry.correlation_id == id@
}

impl DeadLetterFilter {
    /// The filter that lets every entry through.
    pub fn all() -> (filter: DeadLetterFilter)
        ensures
            filter.execution_name is None,
            filter.correlation_id is None,
    {
        DeadLetterFilter { execution_name: None, correlation_id: None }
    }

    /// The filter, only for one definition.
    pub fn execution_name(self, name: &str) -> (filter: DeadLetterFilter)
        ensures
            optional_text(filter.execution_name) == Some(name@),
            filter.correlation_id == self.correlation_id,
    {
        DeadLetterFilter { execution_name: Some(name.to_owned()), ..self }
    }

    /// The filter, only for one run.
    pub fn correlation_id(self, id: &str) -> (filter: DeadLetterFilter)
        ensures
            optional_text(filter.correlation_id) == Some(id@),
            filter.execution_name == self.execution_name,
    {
        DeadLetterFilter { correlation_id: Some(id.to_owned()), ..self }
    }

    /// Whether the filter lets an entry through.
    pub fn matches(&self, entry: &DeadLetterEntry) -> (yes: bool)
        ensures
            yes == passes(*self, entry@),
            yes <==> (self.execution_name is None || self.execution_name->0@
                == entry.execution_name@) && (self.correlation_id is None
                || self.correlation_id->0@ == entry.correlation_id@),
    {
        let name_fits: bool = match &self.execution_name {
            Some(name) => same(entry.execution_name.as_str(), name.as_str()),
            None => true,
        };
        let id_fits: bool = match &self.correlation_id {
            Some(id) => same(entry.correlation_id.as_str(), id.as_str()),
            None => true,
        };
        name_fits && id_fits
    }
}

/// Dead letters in memory, by id.
#[derive(Debug)]
pub struct MemoryDeadLetterStore {
    /// The entries.
    pub store: TextMap<DeadLetterEntry>,
}

/// The places of the entries that a filter lets through, with the keys by
/// which they are listed: the newest first.
pub open spec fn matching(
    entries: Seq<(String, DeadLetterEntry)>,
    filter: DeadLetterFilter,
) -> Seq<(i128, usize)>
    decreases entries.len(),
{
    if entries.len() == 0 {
        Seq::empty()
    } else {
        let front = matching(entries.drop_last(), filter);
        let entry = entries.last().1@;
        if passes(filter, entry) {
            front.push(((-time::instant(entry.timestamp)) as i128, (entries.len() - 1) as usize))
        } else {
            front
        }
    }
}

proof fn lemma_matching(entries: Seq<(String, DeadLetterEntry)>, filter: DeadLetterFilter)
    requires
        entries.len() <= usize::MAX,
    ensures
        forall|j: int|
            0 <= j < matching(entries, filter).len() ==> {
                let p = #[trigger] matching(entries, filter)[j];
                &&& p.1 < entries.len()
                &&& passes(filter, entries[p.1 as int].1@)
                &&& p.0 == -time::instant(entries[p.1 as int].1@.timestamp)
            },
    decreases entries.len(),
{
    if entries.len() > 0 {
        let front = entries.drop_last();
        lemma_matching(front, filter);
        let prev = matching(front, filter);
        let list = matching(entries, filter);
        assert forall|j: int| 0 <= j < list.len() implies {
            let p = #[trigger] list[j];
            &&& p.1 < entries.len()
            &&& passes(filter, entries[p.1 as int].1@)
            &&& p.0 == -time::instant(entries[p.1 as int].1@.timestamp)
        } by {
            if j < prev.len() {
                assert(list[j] == prev[j]);
                assert(front[prev[j].1 as int] == entries[prev[j].1 as int]);
            }
        }
    }
}

/// A listing shows the newest entries first.
pub proof fn law_listing_is_newest_first(
    entries: Seq<(String, DeadLetterEntry)>,
    filter: DeadLetterFilter,
    a: int,
    b: int,
)
    requires
        entries.len() <= usize::MAX,
        0 <= a <= b < sorting::stable(matching(entries, filter)).len(),
    ensures
        ({
            let order = sorting::stable(matching(entries, filter));
            time::instant(entries[order[a].1 as int].1@.timestamp) >= time::instant(
                entries[order[b].1 as int].1@.timestamp,
            )
        }),
{
    let list = matching(entries, filter);
    let order = sorting::stable(list);
    sorting::law_stable_sorts(list);
    lemma_matching(entries, filter);
    sorting::lemma_stable_member(list, a);
    sorting::lemma_stable_member(list, b);
    let m = choose|m: int| 0 <= m < list.len() && list[m] == order[a];
    let n = choose|n: int| 0 <= n < list.len() && list[n] == order[b];
    assert(list[m].0 == -time::instant(entries[list[m].1 as int].1@.timestamp));
    assert(list[n].0 == -time::instant(entries[list[n].1 as int].1@.timestamp));
    assert(order[a].0 <= order[b].0);
}

impl MemoryDeadLetterStore {
    /// Whether the store is in order: each entry under its own id.
    pub open spec fn well_formed(self) -> bool {
        &&& self.store.well_formed()
        &&& forall|k: Seq<char>|
            self.store@.contains_key(k) ==> (#[trigger] self.store@[k]).input.well_formed()
                && self.store@[k].id@ == k
    }

    /// An empty store.
    pub fn new() -> (memory: MemoryDeadLetterStore)
        ensures
            memory.well_formed(),
            memory.store@ == Map::<Seq<char>, DeadLetterEntry>::empty(),
    {
        MemoryDeadLetterStore { store: TextMap::new() }
    }

    /// Stores an entry, in place of any with its id.
    pub fn add(&mut self, entry: DeadLetterEntry)
        requires
            old(self).well_formed(),
            entry.input.well_formed(),
        ensures
            final(self).well_formed(),
            final(self).store@ == old(self).store@.insert(entry.id@, entry),
    {
        let id: String = entry.id.clone();
        self.store.insert(id, entry);
    }

    /// The entry with an id.
    pub fn get(&self, entry_id: &str) -> (entry: Option<DeadLetterEntry>)
        requires
            self.well_formed(),
        ensures
            match entry {
                Some(found) => {
                    &&& self.store@.contains_key(entry_id@)
                    &&& found@ == self.store@[entry_id@]@
                    &&& found.input.well_formed()
                },
                None => !self.store@.contains_key(entry_id@),
            },
    {
        match self.store.get(entry_id) {
            Some(found) => {
                assert(self.store@[entry_id@].input.well_formed());
                Some(found.duplicate())
            },
            None => None,
        }
    }

    /// The entries that a filter lets through, newest first; those of the same
    /// time in order of their ids.
    pub fn list(&self, filter: &DeadLetterFilter) -> (entries: Vec<DeadLetterEntry>)
        requires
            self.well_formed(),
        ensures
            ({
                let order = sorting::stable(matching(self.store.entries@, *filter));
                &&& entries@.len() == order.len()
                &&& forall|i: int|
                    0 <= i < entries@.len() ==> (#[trigger] entries@[i])@
                        == self.store.entries@[order[i].1 as int].1@
            }),
            forall|i: int|
                0 <= i < entries@.len() ==> (filter.execution_name is None
                    || filter.execution_name->0@ == (#[trigger] entries@[i]).execution_name@) && (
                filter.correlation_id is None || filter.correlation_id->0@
                    == entries@[i].correlation_id@),
            forall|a: int, b: int|
                0 <= a <= b < entries@.len() ==> time::instant((#[trigger] entries@[a]).timestamp)
                    >= time::instant((#[trigger] entries@[b]).timestamp),
    {
        let mut pairs: Vec<(i128, usize)> = Vec::new();
        let mut i: usize = 0;
        while i < self.store.entries.len()
            invariant
                i <= self.store.entries@.len(),
                pairs@ == matching(self.store.entries@.take(i as int), *filter),
            decreases self.store.entries.len() - i,
        {
            proof {
                let next = self.store.entries@.take(i + 1);
                assert(next.drop_last() =~= self.store.entries@.take(i as int));
                assert(next.last() == self.store.entries@[i as int]);
            }
            if filter.matches(&self.store.entries[i].1) {
                let stamp: Timestamp = self.store.entries[i].1.timestamp;
                pairs.push((-stamp.as_nanos(), i));
            }
            i += 1;
        }
        let ghost all = self.store.entries@;
        let ghost list = pairs@;
        proof {
            assert(all.len() == self.store.entries.len());
            assert(all.take(all.len() as int) =~= all);
        }
        let order: Vec<(i128, usize)> = sort_by_key(pairs);
        let mut out: Vec<DeadLetterEntry> = Vec::new();
        let mut k: usize = 0;
        while k < order.len()
            invariant
                k <= order@.len(),
                all == self.store.entries@,
                all.len() <= usize::MAX,
                list == matching(all, *filter),
                order@ == sorting::stable(list),
                out@.len() == k,
                forall|j: int|
                    0 <= j < k ==> (#[trigger] out@[j])@ == all[order@[j].1 as int].1@,
            decreases order.len() - k,
        {
            proof {
                lemma_matching(all, *filter);
                sorting::lemma_stable_member(list, k as int);
                let m = choose|m: int| 0 <= m < list.len() && list[m] == order@[k as int];
                assert(list[m].1 < all.len());
            }
            out.push(self.store.entries[order[k].1].1.duplicate());
            k += 1;
        }
        proof {
            lemma_matching(all, *filter);
            assert forall|i: int| 0 <= i < out@.len() implies passes(
                *filter,
                (#[trigger] out@[i])@,
            ) by {
                sorting::lemma_stable_member(list, i);
                let m = choose|m: int| 0 <= m < list.len() && list[m] == order@[i];
                assert(passes(*filter, all[list[m].1 as int].1@));
            }
            assert forall|i: int| 0 <= i < out@.len() implies (filter.execution_name is None
                || filter.execution_name->0@ == (#[trigger] out@[i]).execution_name@) && (
            filter.correlation_id is None || filter.correlation_id->0@
                == out@[i].correlation_id@) by {
                assert(passes(*filter, out@[i]@));
            }
            assert forall|a: int, b: int| 0 <= a <= b < out@.len() implies time::instant(
                (#[trigger] out@[a]).timestamp,
            ) >= time::instant((#[trigger] out@[b]).timestamp) by {
                law_listing_is_newest_first(all, *filter, a, b);
                assert(out@[a]@.timestamp == out@[a].timestamp);
                assert(out@[b]@.timestamp == out@[b].timestamp);
            }
        }
        out
    }

    /// Removes an entry, if it is stored.
    pub fn delete(&mut self, entry_id: &str) -> (found: bool)
        requires
            old(self).well_formed(),
        ensures
            final(self).well_formed(),
            final(self).store@ == old(self).store@.remove(entry_id@),
            found == old(self).store@.contains_key(entry_id@),
    {
        let ghost before = self.store@;
        let removed: Option<DeadLetterEntry> = self.store.remove(entry_id);
        proof {
            assert forall|k: Seq<char>| self.store@.contains_key(k) implies (
            #[trigger] self.store@[k]).input.well_formed() && self.store@[k].id@ == k by {
                assert(before[k].input.well_formed());
            }
        }
        removed.is_some()
    }

    /// Removes every entry, and counts them.
    pub fn clear(&mut self) -> (removed: usize)
        requires
            old(self).well_formed(),
        ensures
            final(self).well_formed(),
            final(self).store@ == Map::<Seq<char>, DeadLetterEntry>::empty(),
            removed == old(self).store.entries@.len(),
    {
        let removed: usize = self.store.len();
        self.store = TextMap::new();
        removed
    }

    /// The number of entries.
    pub fn count(&self) -> (n: usize)
        ensures
            n == self.store.entries@.len(),
    {
        self.store.len()
    }
}

/// What the rest of the library calls: captures failures and counts retries.
#[derive(Debug)]
pub struct DeadLetterService {
    /// The entries.
    pub letters: MemoryDeadLetterStore,
}

impl DeadLetterService {
    /// A service over a store.
    pub fn new(store: MemoryDeadLetterStore) -> (service: DeadLetterService)
        ensures
            service.letters == store,
    {
        DeadLetterService { letters: store }
    }

    /// Records a failure now, under a fresh random id.
    pub fn capture(&mut self, capture: DeadLetterCapture) -> (entry: DeadLetterEntry)
        requires
            old(self).letters.well_formed(),
            capture.input.well_formed(),
        ensures
            final(self).letters.well_formed(),
            entry@ == captured(capture, entry.id@, entry.timestamp),
            entry.timestamp.well_formed(),
            entry.id@.len() == 36,
            final(self).letters.store@.remove(entry.id@) == old(self).letters.store@.remove(
                entry.id@,
            ),
            final(self).letters.store@.contains_key(entry.id@),
            final(self).letters.store@[entry.id@]@ == entry@,
    {
        let id: String = random_id();
        let now: Timestamp = utc_now();
        self.capture_as(capture, id, now)
    }

    /// Records a failure under an id and at a time.
    pub fn capture_as(&mut self, capture: DeadLetterCapture, id: String, now: Timestamp) -> (entry:
        DeadLetterEntry)
        requires
            old(self).letters.well_formed(),
            capture.input.well_formed(),
        ensures
            final(self).letters.well_formed(),
            entry@ == captured(capture, id@, now),
            final(self).letters.store@.remove(id@) == old(self).letters.store@.remove(id@),
            final(self).letters.store@.contains_key(id@),
            final(self).letters.store@[id@]@ == entry@,
    {
        let ghost before = self.letters.store@;
        let entry: DeadLetterEntry = capture.into_entry(id, now);
        let copy: DeadLetterEntry = entry.duplicate();
        self.letters.add(entry);
        assert(self.letters.store@.remove(id@) =~= before.remove(id@));
        copy
    }

    /// The entries that a filter lets through, newest first.
    pub fn list(&self, filter: &DeadLetterFilter) -> (entries: Vec<DeadLetterEntry>)
        requires
            self.letters.well_formed(),
        ensures
            ({
                let order = sorting::stable(matching(self.letters.store.entries@, *filter));
                &&& entries@.len() == order.len()
                &&& forall|i: int|
                    0 <= i < entries@.len() ==> (#[trigger] entries@[i])@
                        == self.letters.store.entries@[order[i].1 as int].1@
            }),
    {
        self.letters.list(filter)
    }

    /// The entry with an id.
    pub fn get(&self, entry_id: &str) -> (entry: Option<DeadLetterEntry>)
        requires
            self.letters.well_formed(),
        ensures
            match entry {
                Some(found) => {
                    &&& self.letters.store@.contains_key(entry_id@)
                    &&& found@ == self.letters.store@[entry_id@]@
                    &&& found.input.well_formed()
                },
                None => !self.letters.store@.contains_key(entry_id@),
            },
    {
        self.letters.get(entry_id)
    }

    /// The number of entries.
    pub fn count(&self) -> (n: usize)
        ensures
            n == self.letters.store.entries@.len(),
    {
        self.letters.count()
    }

    /// Counts one retry more of an entry, if it is stored.
    pub fn mark_retried(&mut self, entry_id: &str) -> (found: bool)
        requires
            old(self).letters.well_formed(),
            old(self).letters.store@.contains_key(entry_id@)
                ==> old(self).letters.store@[entry_id@].retry_count < u32::MAX,
        ensures
            final(self).letters.well_formed(),
            found == old(self).letters.store@.contains_key(entry_id@),
            !found ==> *final(self) == *old(self),
            found ==> {
                let was = old(self).letters.store@[entry_id@]@;
                &&& final(self).letters.store@.contains_key(entry_id@)
                &&& final(self).letters.store@[entry_id@]@ == (EntryView {
                    retry_count: (was.retry_count + 1) as u32,
                    ..was
                })
                &&& final(self).letters.store@.remove(entry_id@)
                    == old(self).letters.store@.remove(entry_id@)
            },
    {
        let ghost before = self.letters.store@;
        match self.letters.get(entry_id) {
            Some(found) => {
                self.letters.add(found.retried());
                assert(self.letters.store@.remove(entry_id@) =~= before.remove(entry_id@));
                true
            },
            None => false,
        }
    }

    /// Removes an entry, if it is stored.
    pub fn delete(&mut self, entry_id: &str) -> (found: bool)
        requires
            old(self).letters.well_formed(),
        ensures
            final(self).letters.well_formed(),
            final(self).letters.store@ == old(self).letters.store@.remove(entry_id@),
            found == old(self).letters.store@.contains_key(entry_id@),
    {
        self.letters.delete(entry_id)
    }
}

/// A listing shows an entry exactly when the entry has the name and the run
/// that the filter asks for, as far as it asks.
pub proof fn law_listing_is_exact(
    entries: Seq<(String, DeadLetterEntry)>,
    filter: DeadLetterFilter,
    i: int,
)
    requires
        entries.len() <= usize::MAX,
        0 <= i < entries.len(),
    ensures
        (exists|j: int|
            0 <= j < sorting::stable(matching(entries, filter)).len() && (
            #[trigger] sorting::stable(matching(entries, filter))[j]).1 == i) <==> (
        filter.execution_name is None || filter.execution_name->0@
            == entries[i].1.execution_name@) && (filter.correlation_id is None
            || filter.correlation_id->0@ == entries[i].1.correlation_id@),
{
    broadcast use vstd::seq_lib::group_to_multiset_ensures;

    let list = matching(entries, filter);
    let sorted = sorting::stable(list);
    sorting::law_stable_sorts(list);
    lemma_matching(entries, filter);
    if passes(filter, entries[i].1@) {
        lemma_matching_holds(entries, filter, i);
        let j = choose|j: int| 0 <= j < list.len() && (#[trigger] list[j]).1 == i;
        assert(list.contains(list[j]));
        assert(list.to_multiset().count(list[j]) > 0);
        assert(sorted.contains(list[j]));
        let k = choose|k: int| 0 <= k < sorted.len() && sorted[k] == list[j];
        assert(sorted[k].1 == i);
    }
    if exists|j: int| 0 <= j < sorted.len() && (#[trigger] sorted[j]).1 == i {
        let j = choose|j: int| 0 <= j < sorted.len() && (#[trigger] sorted[j]).1 == i;
        sorting::lemma_stable_member(list, j);
        let m = choose|m: int| 0 <= m < list.len() && list[m] == sorted[j];
        assert(passes(filter, entries[list[m].1 as int].1@));
    }
}

proof fn lemma_matching_holds(
    entries: Seq<(String, DeadLetterEntry)>,
    filter: DeadLetterFilter,
    i: int,
)
    requires
        entries.len() <= usize::MAX,
        0 <= i < entries.len(),
        passes(filter, entries[i].1@),
    ensures
        exists|j: int|
            0 <= j < matching(entries, filter).len() && (#[trigger] matching(
                entries,
                filter,
            )[j]).1 == i,
    decreases entries.len(),
{
    let front = entries.drop_last();
    let prev = matching(front, filter);
    let list = matching(entries, filter);
    if i < front.len() {
        lemma_matching_holds(front, filter, i);
        let j = choose|j: int| 0 <= j < prev.len() && (#[trigger] prev[j]).1 == i;
        assert(list[j].1 == i);
    } else {
        assert(list[prev.len() as int].1 == i);
    }
}

/// An entry holds what was captured, at the time at which it was, and has not
/// been retried.
pub proof fn law_captures_are_kept_whole(
    capture: DeadLetterCapture,
    id: Seq<char>,
    now: Timestamp,
)
    ensures
        ({
            let entry = captured(capture, id, now);
            &&& entry.id == id
            &&& entry.execution_name == capture.execution_name@
            &&& entry.correlation_id == capture.correlation_id@
            &&& entry.step_id is Some <==> capture.step_id is Some
            &&& entry.step_id is Some ==> entry.step_id->0 == capture.step_id->0@
            &&& entry.error_type == capture.error_type@
            &&& entry.error_message == capture.error_message@
            &&& entry.input == capture.input.model()
            &&& entry.timestamp == now
            &&& entry.retry_count == 0
        }),
{
}

} // verus!
