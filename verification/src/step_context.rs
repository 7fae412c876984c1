//! The blackboard of a run: step results, variables, headers, the input and
//! the correlation id, with a snapshot that survives a restart.

use crate::names;
use crate::text;
use crate::text_map;
use crate::text_map::TextMap;
use crate::value;
use crate::value::{Value, ValueView};
use vstd::prelude::*;

verus! {

/// What the steps of a run share.
#[derive(Debug)]
pub struct StepContext {
    /// The results that steps published, by step name.
    pub results: TextMap<Value>,
    /// Variables.
    pub variables: TextMap<Value>,
    /// Headers.
    pub headers: TextMap<String>,
    /// The input of the run.
    pub input: Value,
    /// The correlation id of the run; empty when unset.
    pub correlation_id: String,
}

/// What a context holds, as mathematical data.
#[verifier::ext_equal]
pub struct ContextView {
    /// The results, by step name.
    pub results: Map<Seq<char>, ValueView>,
    /// Variables.
    pub variables: Map<Seq<char>, ValueView>,
    /// Headers.
    pub headers: Map<Seq<char>, Seq<char>>,
    /// The input.
    pub input: ValueView,
    /// The correlation id.
    pub correlation_id: Seq<char>,
}

/// The values of a map, as mathematical data.
pub open spec fn values_of(map: TextMap<Value>) -> Map<Seq<char>, ValueView> {
    Map::new(|k: Seq<char>| map@.contains_key(k), |k: Seq<char>| map@[k].model())
}

/// The texts of a map.
pub open spec fn texts_of(map: TextMap<String>) -> Map<Seq<char>, Seq<char>> {
    Map::new(|k: Seq<char>| map@.contains_key(k), |k: Seq<char>| map@[k]@)
}

/// The entry of a map, if it has one.
pub open spec fn entry<V>(map: Map<Seq<char>, V>, key: Seq<char>) -> Option<V> {
    if map.contains_key(key) {
        Some(map[key])
    } else {
        None
    }
}

/// The members of an object, as a map; empty where the value is no object.
pub open spec fn members_map(value: Option<ValueView>) -> Map<Seq<char>, ValueView> {
    Map::new(
        |k: Seq<char>| value is Some && value::field_of(value->0, k) is Some,
        |k: Seq<char>| value::field_of(value->0, k)->0,
    )
}

/// The string members of an object, as a map.
pub open spec fn string_members(value: Option<ValueView>) -> Map<Seq<char>, Seq<char>> {
    Map::new(
        |k: Seq<char>| value is Some && (value::field_of(value->0, k) matches Some(v) && v is String),
        |k: Seq<char>| value::field_of(value->0, k)->0->String_0,
    )
}

/// Whether a value is the object with exactly these members.
pub open spec fn is_object_of(value: ValueView, members: Map<Seq<char>, ValueView>) -> bool {
    &&& value is Object
    &&& forall|k: Seq<char>| #[trigger] value::field_of(value, k) == entry(members, k)
}

/// Headers as string values.
pub open spec fn header_values(headers: Map<Seq<char>, Seq<char>>) -> Map<Seq<char>, ValueView> {
    Map::new(|k: Seq<char>| headers.contains_key(k), |k: Seq<char>| ValueView::String(headers[k]))
}

/// Whether a value is the snapshot of a context: an object with the five
/// parts of the context and nothing else.
pub open spec fn is_snapshot(context: ContextView, snapshot: ValueView) -> bool {
    &&& snapshot is Object
    &&& value::field_of(snapshot, "correlation_id"@) == Some(
        ValueView::String(context.correlation_id),
    )
    &&& value::field_of(snapshot, "input"@) == Some(context.input)
    &&& value::field_of(snapshot, "results"@) matches Some(v) && is_object_of(v, context.results)
    &&& value::field_of(snapshot, "variables"@) matches Some(v) && is_object_of(
        v,
        context.variables,
    )
    &&& value::field_of(snapshot, "headers"@) matches Some(v) && is_object_of(
        v,
        header_values(context.headers),
    )
    &&& forall|k: Seq<char>|
        k != "correlation_id"@ && k != "input"@ && k != "results"@ && k != "variables"@ && k
            != "headers"@ ==> #[trigger] value::field_of(snapshot, k) is None
}

/// The context that a snapshot restores: what is missing, or of another kind,
/// is empty.
pub open spec fn restored(snapshot: ValueView) -> ContextView {
    ContextView {
        results: members_map(value::field_of(snapshot, "results"@)),
        variables: members_map(value::field_of(snapshot, "variables"@)),
        headers: string_members(value::field_of(snapshot, "headers"@)),
        input: match value::field_of(snapshot, "input"@) {
            Some(v) => v,
            None => ValueView::Null,
        },
        correlation_id: match value::field_of(snapshot, "correlation_id"@) {
            Some(ValueView::String(id)) => id,
            _ => Seq::empty(),
        },
    }
}

/// A context that is restored from its own snapshot is the same context.
pub proof fn law_snapshot_round_trip(context: ContextView, snapshot: ValueView)
    requires
        is_snapshot(context, snapshot),
    ensures
        restored(snapshot) == context,
{
    let back = restored(snapshot);
    let r = value::field_of(snapshot, "results"@)->0;
    let v = value::field_of(snapshot, "variables"@)->0;
    let h = value::field_of(snapshot, "headers"@)->0;
    assert(back.results =~= context.results) by {
        assert forall|k: Seq<char>| back.results.dom().contains(k) == context.results.dom().contains(
            k,
        ) by {
            assert(value::field_of(r, k) == entry(context.results, k));
        }
        assert forall|k: Seq<char>| back.results.dom().contains(k) implies back.results[k]
            == context.results[k] by {
            assert(value::field_of(r, k) == entry(context.results, k));
        }
    }
    assert(back.variables =~= context.variables) by {
        assert forall|k: Seq<char>|
            back.variables.dom().contains(k) == context.variables.dom().contains(k) by {
            assert(value::field_of(v, k) == entry(context.variables, k));
        }
        assert forall|k: Seq<char>| back.variables.dom().contains(k) implies back.variables[k]
            == context.variables[k] by {
            assert(value::field_of(v, k) == entry(context.variables, k));
        }
    }
    assert(back.headers =~= context.headers) by {
        let hv = header_values(context.headers);
        assert forall|k: Seq<char>| back.headers.dom().contains(k) == context.headers.dom().contains(
            k,
        ) by {
            assert(value::field_of(h, k) == entry(hv, k));
        }
        assert forall|k: Seq<char>| back.headers.dom().contains(k) implies back.headers[k]
            == context.headers[k] by {
            assert(value::field_of(h, k) == entry(hv, k));
        }
    }
}

/// What a field of an object says of the map it was made from.
pub proof fn lemma_field_is_entry(fields: TextMap<Value>, k: Seq<char>)
    ensures
        value::field_of(Value::Object(fields).model(), k) == if fields@.contains_key(k) {
            Some(fields@[k].model())
        } else {
            None
        },
        Value::Object(fields).model() is Object,
{
    let members = Value::Object(fields).model()->Object_0;
    assert(value::member_keys(members) =~= text_map::keys_of(fields.entries@));
    names::lemma_place(text_map::keys_of(fields.entries@), k);
}

/// The object made of a map has the members of the map.
pub proof fn lemma_is_object_of(fields: TextMap<Value>)
    ensures
        is_object_of(Value::Object(fields).model(), values_of(fields)),
{
    assert forall|k: Seq<char>| #[trigger] value::field_of(
        Value::Object(fields).model(),
        k,
    ) == entry(values_of(fields), k) by {
        lemma_field_is_entry(fields, k);
    }
    lemma_field_is_entry(fields, Seq::empty());
}

/// Maps with the same keys and values, entry by entry, hold the same values.
pub proof fn lemma_values_of_duplicate(a: TextMap<Value>, b: TextMap<Value>)
    requires
        text_map::keys_of(a.entries@) == text_map::keys_of(b.entries@),
        a.entries@.len() == b.entries@.len(),
        forall|i: int|
            0 <= i < a.entries@.len() ==> (#[trigger] a.entries@[i]).1.model()
                == b.entries@[i].1.model(),
    ensures
        values_of(a) == values_of(b),
{
    assert forall|k: Seq<char>| values_of(a).dom().contains(k) == values_of(b).dom().contains(
        k,
    ) by {}
    assert forall|k: Seq<char>| values_of(a).dom().contains(k) implies values_of(a)[k]
        == values_of(b)[k] by {
        names::lemma_place(text_map::keys_of(a.entries@), k);
        let p = names::place(text_map::keys_of(a.entries@), k);
        assert(a.entries@[p].1.model() == b.entries@[p].1.model());
    }
    assert(values_of(a) =~= values_of(b));
}

/// What setting one entry does to the values of a map.
pub proof fn lemma_values_of_insert(
    before: TextMap<Value>,
    later: TextMap<Value>,
    key: Seq<char>,
    value: Value,
)
    requires
        later@ == before@.insert(key, value),
    ensures
        values_of(later) == values_of(before).insert(key, value.model()),
{
    assert(values_of(later) =~= values_of(before).insert(key, value.model()));
}

impl View for StepContext {
    type V = ContextView;

    open spec fn view(&self) -> ContextView {
        ContextView {
            results: values_of(self.results),
            variables: values_of(self.variables),
            headers: texts_of(self.headers),
            input: self.input.model(),
            correlation_id: self.correlation_id@,
        }
    }
}

/// Whether every value of a map is well-formed.
pub open spec fn good_values(map: TextMap<Value>) -> bool {
    &&& map.well_formed()
    &&& forall|k: Seq<char>| map@.contains_key(k) ==> (#[trigger] map@[k]).well_formed()
}

/// The values of a map are well-formed exactly when those of its entries are.
pub proof fn lemma_good_entries(map: TextMap<Value>)
    requires
        map.well_formed(),
    ensures
        good_values(map) <==> map.all_well_formed(),
{
    if good_values(map) {
        assert forall|i: int| 0 <= i < map.entries@.len() implies (
        #[trigger] map.entries@[i]).1.well_formed() by {
            map.lemma_entry(i);
            assert(map@[map.entries@[i].0@].well_formed());
        }
    }
    if map.all_well_formed() {
        assert forall|k: Seq<char>| map@.contains_key(k) implies (
        #[trigger] map@[k]).well_formed() by {
            names::lemma_place(text_map::keys_of(map.entries@), k);
            let p = names::place(text_map::keys_of(map.entries@), k);
            assert(map.entries@[p].1.well_formed());
        }
    }
}

impl StepContext {
    /// Whether the maps of the context are in order.
    pub open spec fn well_formed(self) -> bool {
        &&& good_values(self.results)
        &&& good_values(self.variables)
        &&& self.headers.well_formed()
        &&& self.input.well_formed()
    }

    /// An empty context.
    pub fn new() -> (context: StepContext)
        ensures
            context.well_formed(),
            context@ == (ContextView {
                results: Map::empty(),
                variables: Map::empty(),
                headers: Map::empty(),
                input: ValueView::Null,
                correlation_id: Seq::empty(),
            }),
    {
        let context = StepContext {
            results: TextMap::new(),
            variables: TextMap::new(),
            headers: TextMap::new(),
            input: Value::Null,
            correlation_id: String::new(),
        };
        proof {
            assert(values_of(context.results) =~= Map::empty());
            assert(values_of(context.variables) =~= Map::empty());
            assert(texts_of(context.headers) =~= Map::empty());
        }
        context
    }

    /// A context with an input.
    pub fn with_input(input: Value) -> (context: StepContext)
        requires
            input.well_formed(),
        ensures
            context.well_formed(),
            context@ == (ContextView {
                results: Map::empty(),
                variables: Map::empty(),
                headers: Map::empty(),
                input: input.model(),
                correlation_id: Seq::empty(),
            }),
    {
        let mut context: StepContext = StepContext::new();
        context.input = input;
        context
    }

    /// Sets the correlation id.
    pub fn set_correlation_id(&mut self, id: &str)
        requires
            old(self).well_formed(),
        ensures
            final(self).well_formed(),
            final(self)@ == (ContextView { correlation_id: id@, ..old(self)@ }),
    {
        self.correlation_id = id.to_owned();
    }

    /// The correlation id; empty when unset.
    pub fn correlation_id(&self) -> (id: String)
        ensures
            id@ == self@.correlation_id,
    {
        self.correlation_id.clone()
    }

    /// Replaces the input.
    pub fn set_input(&mut self, input: Value)
        requires
            old(self).well_formed(),
            input.well_formed(),
        ensures
            final(self).well_formed(),
            final(self)@ == (ContextView { input: input.model(), ..old(self)@ }),
    {
        self.input = input;
    }

    /// The input.
    pub fn input(&self) -> (value: Value)
        ensures
            value.model() == self@.input,
            self.well_formed() ==> value.well_formed(),
    {
        self.input.duplicate()
    }

    /// One field of the input; `None` where the input is no object or lacks
    /// it.
    pub fn input_field(&self, field: &str) -> (value: Option<Value>)
        ensures
            model_of(value) == value::field_of(self@.input, field@),
            self.well_formed() ==> (value matches Some(v) ==> v.well_formed()),
    {
        read_field(&self.input, field)
    }

    /// Publishes the result of a step under its name.
    pub fn set_result(&mut self, step: &str, result: Value)
        requires
            old(self).well_formed(),
            result.well_formed(),
        ensures
            final(self).well_formed(),
            final(self)@ == (ContextView {
                results: old(self)@.results.insert(step@, result.model()),
                ..old(self)@
            }),
    {
        let ghost before = self.results;
        self.results.insert(step.to_owned(), result);
        proof {
            lemma_values_of_insert(before, self.results, step@, result);
        }
    }

    /// The result that a step published, if it did.
    pub fn result(&self, step: &str) -> (value: Option<Value>)
        ensures
            model_of(value) == entry(self@.results, step@),
            self.well_formed() ==> (value matches Some(v) ==> v.well_formed()),
    {
        match self.results.get(step) {
            Some(found) => Some(found.duplicate()),
            None => None,
        }
    }

    /// One field of the result of a step; `None` where the step has no result,
    /// the result is no object, or the field is absent.
    pub fn result_field(&self, step: &str, field: &str) -> (value: Option<Value>)
        ensures
            model_of(value) == match entry(self@.results, step@) {
                Some(found) => value::field_of(found, field@),
                None => None,
            },
    {
        match self.results.get(step) {
            Some(found) => read_field(found, field),
            None => None,
        }
    }

    /// Whether a step published a result.
    pub fn has_result(&self, step: &str) -> (yes: bool)
        ensures
            yes == self@.results.contains_key(step@),
    {
        self.results.contains_key(step)
    }

    /// Every published result.
    pub fn results(&self) -> (all: TextMap<Value>)
        requires
            self.well_formed(),
        ensures
            values_of(all) == self@.results,
            good_values(all),
            all.entries@.len() == self.results.entries@.len(),
    {
        proof {
            lemma_good_entries(self.results);
        }
        let copy = self.results.duplicate();
        proof {
            lemma_values_of_duplicate(copy, self.results);
            lemma_good_entries(copy);
        }
        copy
    }

    /// Sets a variable.
    pub fn set_variable(&mut self, key: &str, value: Value)
        requires
            old(self).well_formed(),
            value.well_formed(),
        ensures
            final(self).well_formed(),
            final(self)@ == (ContextView {
                variables: old(self)@.variables.insert(key@, value.model()),
                ..old(self)@
            }),
    {
        let ghost before = self.variables;
        self.variables.insert(key.to_owned(), value);
        proof {
            lemma_values_of_insert(before, self.variables, key@, value);
        }
    }

    /// A variable, if it is set.
    pub fn variable(&self, key: &str) -> (value: Option<Value>)
        ensures
            model_of(value) == entry(self@.variables, key@),
            self.well_formed() ==> (value matches Some(v) ==> v.well_formed()),
    {
        match self.variables.get(key) {
            Some(found) => Some(found.duplicate()),
            None => None,
        }
    }

    /// Every variable.
    pub fn variables(&self) -> (all: TextMap<Value>)
        requires
            self.well_formed(),
        ensures
            values_of(all) == self@.variables,
            good_values(all),
            all.entries@.len() == self.variables.entries@.len(),
    {
        proof {
            lemma_good_entries(self.variables);
        }
        let copy = self.variables.duplicate();
        proof {
            lemma_values_of_duplicate(copy, self.variables);
            lemma_good_entries(copy);
        }
        copy
    }

    /// Sets a header.
    pub fn set_header(&mut self, name: &str, value: &str)
        requires
            old(self).well_formed(),
        ensures
            final(self).well_formed(),
            final(self)@ == (ContextView {
                headers: old(self)@.headers.insert(name@, value@),
                ..old(self)@
            }),
    {
        let ghost before = texts_of(self.headers);
        self.headers.insert(name.to_owned(), value.to_owned());
        assert(texts_of(self.headers) =~= before.insert(name@, value@));
    }

    /// A header, if it is present.
    pub fn header(&self, name: &str) -> (value: Option<String>)
        ensures
            match value {
                Some(v) => entry(self@.headers, name@) == Some(v@),
                None => entry(self@.headers, name@) is None,
            },
    {
        match self.headers.get(name) {
            Some(found) => Some(found.clone()),
            None => None,
        }
    }

    /// Every header.
    pub fn headers(&self) -> (all: TextMap<String>)
        requires
            self.well_formed(),
        ensures
            texts_of(all) == self@.headers,
            all.well_formed(),
            all.entries@ == self.headers.entries@,
    {
        let copy = clone_headers(&self.headers);
        assert(texts_of(copy) =~= texts_of(self.headers));
        copy
    }
}

/// The model of a value that may be absent.
pub open spec fn model_of(value: Option<Value>) -> Option<ValueView> {
    match value {
        Some(v) => Some(v.model()),
        None => None,
    }
}

/// Reads one field of an object: `None` for other values and absent fields.
pub fn read_field(value: &Value, field: &str) -> (found: Option<Value>)
    ensures
        model_of(found) == value::field_of(value.model(), field@),
        value.well_formed() ==> (found matches Some(v) ==> v.well_formed()),
{
    match value.get(field) {
        Some(v) => Some(v.duplicate()),
        None => None,
    }
}

fn clone_headers(headers: &TextMap<String>) -> (copy: TextMap<String>)
    ensures
        copy.entries@ == headers.entries@,
{
    let mut out: Vec<(String, String)> = Vec::new();
    let mut i: usize = 0;
    while i < headers.entries.len()
        invariant
            i <= headers.entries@.len(),
            out@ == headers.entries@.take(i as int),
        decreases headers.entries.len() - i,
    {
        let key: String = headers.entries[i].0.clone();
        let value: String = headers.entries[i].1.clone();
        out.push((key, value));
        assert(headers.entries@.take(i + 1) =~= headers.entries@.take(i as int).push(
            headers.entries@[i as int],
        ));
        i += 1;
    }
    assert(headers.entries@.take(headers.entries@.len() as int) =~= headers.entries@);
    TextMap { entries: out }
}

fn headers_object(headers: &TextMap<String>) -> (object: TextMap<Value>)
    requires
        headers.well_formed(),
    ensures
        object.all_well_formed(),
        values_of(object) == header_values(texts_of(*headers)),
{
    let mut out: Vec<(String, Value)> = Vec::new();
    let mut i: usize = 0;
    while i < headers.entries.len()
        invariant
            i <= headers.entries@.len(),
            out@.len() == i,
            forall|k: int|
                0 <= k < i ==> (#[trigger] out@[k]).0@ == headers.entries@[k].0@ && out@[k].1
                    == Value::String(headers.entries@[k].1),
        decreases headers.entries.len() - i,
    {
        let key: String = headers.entries[i].0.clone();
        let value: String = headers.entries[i].1.clone();
        out.push((key, Value::String(value)));
        i += 1;
    }
    let object: TextMap<Value> = TextMap { entries: out };
    proof {
        let keys = text_map::keys_of(headers.entries@);
        assert(text_map::keys_of(object.entries@) =~= keys);
        let want = header_values(texts_of(*headers));
        assert forall|k: Seq<char>| values_of(object).dom().contains(k) implies values_of(object)[k]
            == want[k] by {
            names::lemma_place(keys, k);
            let p = names::place(keys, k);
            assert(object.entries@[p].1 == Value::String(headers.entries@[p].1));
        }
        assert(values_of(object) =~= want);
    }
    object
}

fn string_fields(fields: &TextMap<Value>) -> (out: TextMap<String>)
    requires
        fields.well_formed(),
    ensures
        out.well_formed(),
        texts_of(out) == string_members(Some(Value::Object(*fields).model())),
{
    let ghost keys = text_map::keys_of(fields.entries@);
    let mut out: TextMap<String> = TextMap::new();
    let mut i: usize = 0;
    while i < fields.entries.len()
        invariant
            i <= fields.entries@.len(),
            fields.well_formed(),
            keys == text_map::keys_of(fields.entries@),
            out.well_formed(),
            forall|k: Seq<char>| #[trigger]
                out@.contains_key(k) <==> (0 <= names::place(keys, k) < i
                    && fields.entries@[names::place(keys, k)].1 is String),
            forall|k: Seq<char>| #[trigger]
                out@.contains_key(k) ==> out@[k]
                    == fields.entries@[names::place(keys, k)].1->String_0,
        decreases fields.entries.len() - i,
    {
        let ghost before = out@;
        proof {
            fields.lemma_entry(i as int);
        }
        match &fields.entries[i].1 {
            Value::String(text) => {
                out.insert(fields.entries[i].0.clone(), text.clone());
            },
            _ => {},
        }
        proof {
            let key = fields.entries@[i as int].0@;
            assert(names::place(keys, key) == i);
            assert forall|k: Seq<char>| #[trigger] out@.contains_key(k) <==> (0 <= names::place(
                keys,
                k,
            ) < i + 1 && fields.entries@[names::place(keys, k)].1 is String) by {
                names::lemma_place(keys, k);
                if k != key {
                    assert(out@.contains_key(k) == before.contains_key(k));
                }
            }
        }
        i += 1;
    }
    proof {
        let object = Value::Object(*fields);
        let want = string_members(Some(object.model()));
        assert forall|k: Seq<char>| #![trigger texts_of(out).dom().contains(k)] #![trigger want.dom().contains(k)]
            texts_of(out).dom().contains(k) == want.dom().contains(k) && (texts_of(
                out,
            ).dom().contains(k) ==> texts_of(out)[k] == want[k]) by {
            lemma_field_is_entry(*fields, k);
            names::lemma_place(keys, k);
            assert(out@.contains_key(k) <==> (0 <= names::place(keys, k) < i
                && fields.entries@[names::place(keys, k)].1 is String));
        }
        assert(texts_of(out) =~= want);
    }
    out
}

proof fn lemma_snapshot_keys()
    ensures
        "correlation_id"@ != "input"@,
        "correlation_id"@ != "results"@,
        "correlation_id"@ != "variables"@,
        "correlation_id"@ != "headers"@,
        "input"@ != "results"@,
        "input"@ != "variables"@,
        "input"@ != "headers"@,
        "results"@ != "variables"@,
        "results"@ != "headers"@,
        "variables"@ != "headers"@,
{
    reveal_strlit("correlation_id");
    reveal_strlit("input");
    reveal_strlit("results");
    reveal_strlit("variables");
    reveal_strlit("headers");
    assert("correlation_id"@.len() == 14);
    assert("input"@.len() == 5);
    assert("results"@.len() == 7);
    assert("variables"@.len() == 9);
    assert("headers"@.len() == 7);
    assert("results"@[0] == 'r');
    assert("headers"@[0] == 'h');
}

/// The members of the object made of a map are the values of the map.
pub proof fn lemma_members_are_values(fields: TextMap<Value>)
    ensures
        members_map(Some(Value::Object(fields).model())) == values_of(fields),
        Value::Object(fields).model() is Object,
{
    let a = members_map(Some(Value::Object(fields).model()));
    let b = values_of(fields);
    lemma_field_is_entry(fields, Seq::empty());
    assert forall|k: Seq<char>| #![trigger a.dom().contains(k)] #![trigger b.dom().contains(k)]
        a.dom().contains(k) == b.dom().contains(k) && (a.dom().contains(k) ==> a[k] == b[k]) by {
        lemma_field_is_entry(fields, k);
    }
    assert(a =~= b);
}

/// Sets an entry of a map of values.
pub fn put(target: &mut TextMap<Value>, key: String, value: Value)
    requires
        good_values(*old(target)),
        value.well_formed(),
    ensures
        good_values(*final(target)),
        values_of(*final(target)) == values_of(*old(target)).insert(key@, value.model()),
{
    let ghost before = *target;
    target.insert(key, value);
    proof {
        lemma_values_of_insert(before, *target, key@, value);
    }
}

/// A copy of the members of an object; empty where there is no object.
pub fn object_fields(part: Option<&Value>) -> (fields: TextMap<Value>)
    requires
        part matches Some(v) ==> v.well_formed(),
    ensures
        good_values(fields),
        values_of(fields) == members_map(
            match part {
                Some(v) => Some(v.model()),
                None => None,
            },
        ),
{
    match part {
        Some(Value::Object(found)) => {
            let copy = found.duplicate();
            proof {
                lemma_values_of_duplicate(copy, *found);
                lemma_good_entries(copy);
                lemma_members_are_values(*found);
            }
            copy
        },
        _ => {
            let fields: TextMap<Value> = TextMap::new();
            proof {
                let want = members_map(
                    match part {
                        Some(v) => Some(v.model()),
                        None => None,
                    },
                );
                assert(values_of(fields) =~= want);
            }
            fields
        },
    }
}

impl StepContext {
    /// The context as one JSON object, from which
    /// [`StepContext::from_snapshot`] restores it.
    pub fn to_snapshot(&self) -> (snapshot: Value)
        requires
            self.well_formed(),
        ensures
            snapshot.well_formed(),
            is_snapshot(self@, snapshot.model()),
    {
        let results: TextMap<Value> = self.results();
        let variables: TextMap<Value> = self.variables();
        let headers: TextMap<Value> = headers_object(&self.headers);
        proof {
            lemma_snapshot_keys();
            lemma_is_object_of(results);
            lemma_is_object_of(variables);
            lemma_is_object_of(headers);
            lemma_good_entries(results);
            lemma_good_entries(variables);
        }
        let results_value: Value = Value::Object(results);
        let variables_value: Value = Value::Object(variables);
        let headers_value: Value = Value::Object(headers);
        let mut fields: TextMap<Value> = TextMap::new();
        fields.insert("correlation_id".to_owned(), Value::String(self.correlation_id.clone()));
        fields.insert("headers".to_owned(), headers_value);
        fields.insert("input".to_owned(), self.input.duplicate());
        fields.insert("results".to_owned(), results_value);
        fields.insert("variables".to_owned(), variables_value);
        let snapshot: Value = Value::Object(fields);
        proof {
            lemma_field_is_entry(fields, "correlation_id"@);
            lemma_field_is_entry(fields, "headers"@);
            lemma_field_is_entry(fields, "input"@);
            lemma_field_is_entry(fields, "results"@);
            lemma_field_is_entry(fields, "variables"@);
            assert forall|k: Seq<char>|
                k != "correlation_id"@ && k != "input"@ && k != "results"@ && k != "variables"@ && k
                    != "headers"@ implies #[trigger] value::field_of(
                snapshot.model(),
                k,
            ) is None by {
                lemma_field_is_entry(fields, k);
            }
            assert(good_values(fields));
            lemma_good_entries(fields);
        }
        snapshot
    }

    /// Rebuilds a context from a snapshot. What is missing, or of another
    /// kind, is left empty.
    pub fn from_snapshot(snapshot: &Value) -> (context: StepContext)
        requires
            snapshot.well_formed(),
        ensures
            context.well_formed(),
            context@ == restored(snapshot.model()),
    {
        let correlation_id: String = match snapshot.get("correlation_id") {
            Some(Value::String(id)) => id.clone(),
            _ => String::new(),
        };
        let input: Value = match snapshot.get("input") {
            Some(found) => found.duplicate(),
            None => Value::Null,
        };
        let results: TextMap<Value> = object_fields(snapshot.get("results"));
        let variables: TextMap<Value> = object_fields(snapshot.get("variables"));
        let headers: TextMap<String> = match snapshot.get("headers") {
            Some(Value::Object(found)) => string_fields(found),
            other => {
                let none: TextMap<String> = TextMap::new();
                proof {
                    let want = string_members(
                        match other {
                            Some(v) => Some(v.model()),
                            None => None,
                        },
                    );
                    assert(texts_of(none) =~= want);
                }
                none
            },
        };
        let context = StepContext { results, variables, headers, input, correlation_id };
        assert(context@ =~= restored(snapshot.model()));
        context
    }
}

/// What a snapshot lacks is empty in the context that it restores; a snapshot
/// that is no object restores an empty context.
pub proof fn law_missing_parts_are_restored_empty(snapshot: ValueView)
    ensures
        value::field_of(snapshot, "results"@) is None ==> restored(snapshot).results == Map::<
            Seq<char>,
            ValueView,
        >::empty(),
        value::field_of(snapshot, "variables"@) is None ==> restored(snapshot).variables == Map::<
            Seq<char>,
            ValueView,
        >::empty(),
        value::field_of(snapshot, "headers"@) is None ==> restored(snapshot).headers == Map::<
            Seq<char>,
            Seq<char>,
        >::empty(),
        value::field_of(snapshot, "input"@) is None ==> restored(snapshot).input
            == ValueView::Null,
        value::field_of(snapshot, "correlation_id"@) is None ==> restored(
            snapshot,
        ).correlation_id.len() == 0,
        !(snapshot is Object) ==> restored(snapshot).input == ValueView::Null && restored(
            snapshot,
        ).correlation_id.len() == 0,
        forall|k: Seq<char>| #[trigger]
            restored(snapshot).results.contains_key(k) ==> value::field_of(
                snapshot,
                "results"@,
            ) is Some && value::field_of(value::field_of(snapshot, "results"@)->0, k) == Some(
                restored(snapshot).results[k],
            ),
        forall|k: Seq<char>| #[trigger]
            restored(snapshot).variables.contains_key(k) ==> value::field_of(
                snapshot,
                "variables"@,
            ) is Some && value::field_of(value::field_of(snapshot, "variables"@)->0, k) == Some(
                restored(snapshot).variables[k],
            ),
        forall|k: Seq<char>| #[trigger]
            restored(snapshot).headers.contains_key(k) ==> value::field_of(
                snapshot,
                "headers"@,
            ) is Some && value::field_of(value::field_of(snapshot, "headers"@)->0, k) == Some(
                ValueView::String(restored(snapshot).headers[k]),
            ),
{
    let back = restored(snapshot);
    if value::field_of(snapshot, "results"@) is None {
        assert(back.results =~= Map::<Seq<char>, ValueView>::empty());
    }
    if value::field_of(snapshot, "variables"@) is None {
        assert(back.variables =~= Map::<Seq<char>, ValueView>::empty());
    }
    if value::field_of(snapshot, "headers"@) is None {
        assert(back.headers =~= Map::<Seq<char>, Seq<char>>::empty());
    }
}

/// An entry of a map is there exactly when the map has its key, and is what
/// the map holds; and a map of values holds the value of each key.
pub proof fn law_entries_are_what_the_map_holds(
    map: Map<Seq<char>, ValueView>,
    values: TextMap<Value>,
    key: Seq<char>,
)
    ensures
        entry(map, key) is Some <==> map.contains_key(key),
        map.contains_key(key) ==> entry(map, key) == Some(map[key]),
        values_of(values).contains_key(key) <==> values@.contains_key(key),
        values@.contains_key(key) ==> values_of(values)[key] == values@[key].model(),
{
}

} // verus!
