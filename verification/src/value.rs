//! JSON values as plain data, with the comparisons that conditions make.

use crate::text_map;
use crate::text_map::TextMap;
use crate::names;
use crate::text;
use crate::text::{less, same};
use vstd::prelude::*;

verus! {

/// A JSON number: a non-negative integer, a negative integer, or the bit
/// pattern of a finite double-precision number.
#[derive(Debug, Clone, Copy, PartialEq, Eq, Structural)]
pub enum Number {
    /// A non-negative integer.
    PosInt(u64),
    /// A negative integer.
    NegInt(i64),
    /// A double-precision number, by its bits.
    Float(u64),
}

/// A JSON value.
#[derive(Debug)]
pub enum Value {
    /// `null`.
    Null,
    /// `true` or `false`.
    Bool(bool),
    /// A number.
    Number(Number),
    /// A string.
    String(String),
    /// An array.
    Array(Vec<Value>),
    /// An object.
    Object(TextMap<Value>),
}

/// What a JSON value is, as mathematical data.
#[verifier::ext_equal]
pub enum ValueView {
    /// `null`.
    Null,
    /// `true` or `false`.
    Bool(bool),
    /// A number.
    Number(Number),
    /// A string.
    String(Seq<char>),
    /// An array.
    Array(Seq<ValueView>),
    /// An object: its members in order of their keys.
    Object(Seq<(Seq<char>, ValueView)>),
}

impl Value {
    /// The value as mathematical data.
    pub open spec fn model(&self) -> ValueView
        decreases self,
    {
        match self {
            Value::Null => ValueView::Null,
            Value::Bool(b) => ValueView::Bool(*b),
            Value::Number(n) => ValueView::Number(*n),
            Value::String(s) => ValueView::String(s@),
            Value::Array(items) => ValueView::Array(
                Seq::new(
                    items@.len(),
                    |i: int|
                        if 0 <= i < items@.len() {
                            items@[i].model()
                        } else {
                            ValueView::Null
                        },
                ),
            ),
            Value::Object(fields) => ValueView::Object(
                Seq::new(
                    fields.entries@.len(),
                    |i: int|
                        if 0 <= i < fields.entries@.len() {
                            (fields.entries@[i].0@, fields.entries@[i].1.model())
                        } else {
                            (Seq::empty(), ValueView::Null)
                        },
                ),
            ),
        }
    }

    /// Whether the members of every object stand in order of their keys.
    pub open spec fn well_formed(&self) -> bool
        decreases self,
    {
        match self {
            Value::Array(items) => forall|i: int|
                0 <= i < items@.len() ==> (#[trigger] items@[i]).well_formed(),
            Value::Object(fields) => {
                &&& fields.well_formed()
                &&& forall|i: int|
                    0 <= i < fields.entries@.len() ==> (
                    #[trigger] fields.entries@[i]).1.well_formed()
            },
            _ => true,
        }
    }
}

/// The bits of the double-precision number nearest to a non-negative integer.
pub uninterp spec fn uint_double(n: u64) -> u64;

/// The bits of the double-precision number nearest to a negative integer.
pub uninterp spec fn int_double(n: i64) -> u64;

/// Converts a non-negative integer through `serde_json::Number::as_f64`. The
/// contract names the bits of the result and says what any rounding keeps: the
/// sign is clear, and only zero becomes zero.
#[verifier::external_body]
fn double_of_uint(n: u64) -> (bits: u64)
    ensures
        bits == uint_double(n),
        bits < 0x8000_0000_0000_0000,
        (bits == 0) == (n == 0),
{
    serde_json::Number::from(n).as_f64().map_or(0, |x| x.to_bits())
}

/// Converts a negative integer through `serde_json::Number::as_f64`. The
/// contract names the bits of the result and says what any rounding keeps: the
/// sign is set, and the result is not zero.
#[verifier::external_body]
fn double_of_int(n: i64) -> (bits: u64)
    requires
        n < 0,
    ensures
        bits == int_double(n),
        bits > 0x8000_0000_0000_0000,
{
    serde_json::Number::from(n).as_f64().map_or(0, |x| x.to_bits())
}

/// The bits of a number as a double-precision number.
pub open spec fn number_bits(n: Number) -> u64 {
    match n {
        Number::PosInt(u) => uint_double(u),
        Number::NegInt(i) => if i < 0 {
            int_double(i)
        } else {
            uint_double(i as u64)
        },
        Number::Float(bits) => bits,
    }
}

/// An integer by which finite double-precision numbers are ordered: their
/// magnitude bits, negative where the sign is set. Both zeros have one key.
pub open spec fn double_key(bits: u64) -> int {
    if bits >= 0x8000_0000_0000_0000 {
        -(bits - 0x8000_0000_0000_0000)
    } else {
        bits as int
    }
}

/// The key of a number.
pub open spec fn number_key(n: Number) -> int {
    double_key(number_bits(n))
}

impl Number {
    /// The key by which the number is ordered among doubles.
    fn key(self) -> (key: i64)
        ensures
            key == number_key(self),
            self matches Number::PosInt(u) ==> key >= 0 && (key == 0 <==> u == 0),
            self matches Number::NegInt(i) ==> (key < 0 <==> i < 0) && (key == 0 <==> i == 0),
    {
        let bits: u64 = match self {
            Number::PosInt(u) => double_of_uint(u),
            Number::NegInt(i) => if i < 0 {
                double_of_int(i)
            } else {
                double_of_uint(i as u64)
            },
            Number::Float(bits) => bits,
        };
        if bits >= 0x8000_0000_0000_0000 {
            -((bits - 0x8000_0000_0000_0000) as i64)
        } else {
            bits as i64
        }
    }
}

/// Whether two numbers are equal in form and value.
pub open spec fn number_eq(a: Number, b: Number) -> bool {
    match (a, b) {
        (Number::PosInt(x), Number::PosInt(y)) => x == y,
        (Number::NegInt(x), Number::NegInt(y)) => x == y,
        (Number::Float(x), Number::Float(y)) => double_key(x) == double_key(y),
        _ => false,
    }
}

/// The keys of the members of an object.
pub open spec fn member_keys(members: Seq<(Seq<char>, ValueView)>) -> Seq<Seq<char>> {
    Seq::new(members.len(), |i: int| members[i].0)
}

/// The value of a member among some members.
pub open spec fn member_of(
    members: Seq<(Seq<char>, ValueView)>,
    key: Seq<char>,
) -> Option<ValueView> {
    let p = names::place(member_keys(members), key);
    if p >= 0 {
        Some(members[p].1)
    } else {
        None
    }
}

/// The field of a value: `None` where the value is no object or lacks it.
pub open spec fn field_of(value: ValueView, key: Seq<char>) -> Option<ValueView> {
    match value {
        ValueView::Object(members) => member_of(members, key),
        _ => None,
    }
}

/// Whether two values are equal, numbers in form and value.
pub open spec fn value_eq(a: ValueView, b: ValueView) -> bool
    decreases a,
{
    match (a, b) {
        (ValueView::Null, ValueView::Null) => true,
        (ValueView::Bool(x), ValueView::Bool(y)) => x == y,
        (ValueView::Number(x), ValueView::Number(y)) => number_eq(x, y),
        (ValueView::String(x), ValueView::String(y)) => x == y,
        (ValueView::Array(x), ValueView::Array(y)) => x.len() == y.len() && forall|i: int|
            0 <= i < x.len() ==> value_eq(#[trigger] x[i], y[i]),
        (ValueView::Object(x), ValueView::Object(y)) => x.len() == y.len() && forall|i: int|
            0 <= i < x.len() ==> x[i].0 == y[i].0 && value_eq((#[trigger] x[i]).1, y[i].1),
        _ => false,
    }
}

/// Whether a value counts as true: not null, false, zero or empty.
pub open spec fn truth(value: ValueView) -> bool {
    match value {
        ValueView::Null => false,
        ValueView::Bool(b) => b,
        ValueView::Number(n) => number_key(n) != 0,
        ValueView::String(s) => s.len() > 0,
        ValueView::Array(items) => items.len() > 0,
        ValueView::Object(members) => members.len() > 0,
    }
}

/// Whether two values are equal, where numbers are compared by value alone.
pub open spec fn loose_eq(a: ValueView, b: ValueView) -> bool {
    match (a, b) {
        (ValueView::Number(x), ValueView::Number(y)) => number_key(x) == number_key(y),
        _ => value_eq(a, b),
    }
}

/// Whether `part` occurs within `whole`.
pub open spec fn has_part(whole: Seq<char>, part: Seq<char>) -> bool {
    exists|i: int|
        0 <= i && i + part.len() <= whole.len() && #[trigger] whole.subrange(i, i + part.len())
            == part
}

/// Whether `needle` is an item of an array, a key of an object, or a part of a
/// string.
pub open spec fn holds(haystack: ValueView, needle: ValueView) -> bool {
    match haystack {
        ValueView::Array(items) => exists|i: int|
            0 <= i < items.len() && loose_eq(#[trigger] items[i], needle),
        ValueView::Object(members) => needle matches ValueView::String(key) && names::place(
            member_keys(members),
            key,
        ) >= 0,
        ValueView::String(whole) => needle matches ValueView::String(part) && has_part(whole, part),
        _ => false,
    }
}

/// How two values are ordered, where they are: numbers by value, strings
/// lexicographically.
#[derive(Debug, Clone, Copy, PartialEq, Eq, Structural)]
pub enum Rank {
    /// The first is below the second.
    Below,
    /// They are level.
    Level,
    /// The first is above the second.
    Above,
}

/// How two values are ordered; `None` for values that have no order.
pub open spec fn rank_of(a: ValueView, b: ValueView) -> Option<Rank> {
    match (a, b) {
        (ValueView::Number(x), ValueView::Number(y)) => Some(
            if number_key(x) < number_key(y) {
                Rank::Below
            } else if number_key(x) == number_key(y) {
                Rank::Level
            } else {
                Rank::Above
            },
        ),
        (ValueView::String(x), ValueView::String(y)) => Some(
            if text::text_lt(x, y) {
                Rank::Below
            } else if x == y {
                Rank::Level
            } else {
                Rank::Above
            },
        ),
        _ => None,
    }
}

/// A copy of each value of a list.
fn clone_values(items: &Vec<Value>) -> (copy: Vec<Value>)
    ensures
        copy@.len() == items@.len(),
        forall|i: int|
            0 <= i < items@.len() ==> (#[trigger] copy@[i]).model() == items@[i].model() && (
            items@[i].well_formed() ==> copy@[i].well_formed()),
    decreases items,
{
    let mut out: Vec<Value> = Vec::new();
    let mut i: usize = 0;
    while i < items.len()
        invariant
            i <= items@.len(),
            out@.len() == i,
            forall|k: int|
                0 <= k < i ==> (#[trigger] out@[k]).model() == items@[k].model() && (
                items@[k].well_formed() ==> out@[k].well_formed()),
        decreases items.len() - i,
    {
        out.push(items[i].duplicate());
        i += 1;
    }
    out
}

impl TextMap<Value> {
    /// Whether every value of the map is well-formed, and the map itself.
    pub open spec fn all_well_formed(self) -> bool {
        &&& self.well_formed()
        &&& forall|i: int|
            0 <= i < self.entries@.len() ==> (#[trigger] self.entries@[i]).1.well_formed()
    }

    /// A copy of the map.
    pub fn duplicate(&self) -> (copy: TextMap<Value>)
        ensures
            text_map::keys_of(copy.entries@) == text_map::keys_of(self.entries@),
            copy.entries@.len() == self.entries@.len(),
            forall|i: int|
                0 <= i < self.entries@.len() ==> (#[trigger] copy.entries@[i]).1.model()
                    == self.entries@[i].1.model(),
            self.all_well_formed() ==> copy.all_well_formed(),
        decreases self,
    {
        let mut out: Vec<(String, Value)> = Vec::new();
        let mut i: usize = 0;
        while i < self.entries.len()
            invariant
                i <= self.entries@.len(),
                out@.len() == i,
                forall|k: int|
                    0 <= k < i ==> {
                        &&& (#[trigger] out@[k]).0@ == self.entries@[k].0@
                        &&& out@[k].1.model() == self.entries@[k].1.model()
                        &&& self.entries@[k].1.well_formed() ==> out@[k].1.well_formed()
                    },
            decreases self.entries.len() - i,
        {
            let key: String = self.entries[i].0.clone();
            let value: Value = self.entries[i].1.duplicate();
            out.push((key, value));
            i += 1;
        }
        assert(text_map::keys_of(out@) =~= text_map::keys_of(self.entries@));
        TextMap { entries: out }
    }
}

impl Value {
    /// A copy of the value.
    pub fn duplicate(&self) -> (copy: Value)
        ensures
            copy.model() == self.model(),
            self.well_formed() ==> copy.well_formed(),
        decreases self,
    {
        match self {
            Value::Null => Value::Null,
            Value::Bool(b) => Value::Bool(*b),
            Value::Number(n) => Value::Number(*n),
            Value::String(s) => Value::String(s.clone()),
            Value::Array(items) => {
                let copy: Vec<Value> = clone_values(items);
                let out: Value = Value::Array(copy);
                proof {
                    let a = out.model()->Array_0;
                    let b = self.model()->Array_0;
                    assert(a =~= b);
                }
                out
            },
            Value::Object(fields) => {
                let copy: TextMap<Value> = fields.duplicate();
                let out: Value = Value::Object(copy);
                proof {
                    assert forall|i: int| 0 <= i < fields.entries@.len() implies (
                    #[trigger] copy.entries@[i]).0@ == fields.entries@[i].0@ by {
                        assert(text_map::keys_of(copy.entries@)[i] == text_map::keys_of(
                            fields.entries@,
                        )[i]);
                    }
                    let a = out.model()->Object_0;
                    let b = self.model()->Object_0;
                    assert(a =~= b);
                }
                out
            },
        }
    }
}

/// Whether `part` occurs within `whole`.
pub fn contains_part(whole: &str, part: &str) -> (found: bool)
    ensures
        found == has_part(whole@, part@),
{
    let w: Vec<char> = text::chars_of(whole);
    let p: Vec<char> = text::chars_of(part);
    if p.len() > w.len() {
        return false;
    }
    let mut i: usize = 0;
    while i <= w.len() - p.len()
        invariant
            p.len() <= w.len(),
            i <= w.len() - p.len() + 1,
            w@ == whole@,
            p@ == part@,
            forall|k: int|
                0 <= k < i ==> #[trigger] whole@.subrange(k, k + part@.len()) != part@,
        decreases w.len() - i,
    {
        let mut j: usize = 0;
        while j < p.len() && w[i + j] == p[j]
            invariant
                i + p.len() <= w.len(),
                j <= p.len(),
                w@ == whole@,
                p@ == part@,
                forall|k: int| 0 <= k < j ==> w@[i + k] == #[trigger] p@[k],
            decreases p.len() - j,
        {
            j += 1;
        }
        if j == p.len() {
            assert(whole@.subrange(i as int, i + part@.len()) =~= part@);
            return true;
        }
        proof {
            let here = whole@.subrange(i as int, i + part@.len());
            assert(here[j as int] == w@[i + j]);
            assert(here != part@);
        }
        i += 1;
    }
    false
}

proof fn lemma_object_keys(fields: TextMap<Value>, members: Seq<(Seq<char>, ValueView)>)
    requires
        Value::Object(fields).model() == ValueView::Object(members),
    ensures
        member_keys(members) == text_map::keys_of(fields.entries@),
        members.len() == fields.entries@.len(),
        forall|i: int|
            0 <= i < members.len() ==> (#[trigger] members[i]).1 == fields.entries@[i].1.model(),
{
    let built = Value::Object(fields).model()->Object_0;
    assert(built == members);
    assert(member_keys(members) =~= text_map::keys_of(fields.entries@));
}

impl Value {
    /// The field of an object; `None` where the value is no object or lacks
    /// the field.
    pub fn get(&self, key: &str) -> (value: Option<&Value>)
        ensures
            match value {
                Some(v) => field_of(self.model(), key@) == Some(v.model()) && (self.well_formed()
                    ==> v.well_formed()),
                None => field_of(self.model(), key@) is None,
            },
    {
        match self {
            Value::Object(fields) => {
                proof {
                    lemma_object_keys(*fields, self.model()->Object_0);
                }
                match fields.index_of(key) {
                    Some(i) => Some(&fields.entries[i].1),
                    None => None,
                }
            },
            _ => None,
        }
    }

    /// The text of a string value.
    pub fn as_str(&self) -> (text: Option<&str>)
        ensures
            match text {
                Some(t) => self.model() == ValueView::String(t@),
                None => !(self.model() is String),
            },
    {
        match self {
            Value::String(s) => Some(s.as_str()),
            _ => None,
        }
    }

    /// Whether two values are equal, numbers in form and value.
    pub fn equals(&self, other: &Value) -> (equal: bool)
        ensures
            equal == value_eq(self.model(), other.model()),
        decreases self,
    {
        match (self, other) {
            (Value::Null, Value::Null) => true,
            (Value::Bool(x), Value::Bool(y)) => *x == *y,
            (Value::Number(x), Value::Number(y)) => match (*x, *y) {
                (Number::PosInt(a), Number::PosInt(b)) => a == b,
                (Number::NegInt(a), Number::NegInt(b)) => a == b,
                (Number::Float(_), Number::Float(_)) => x.key() == y.key(),
                _ => false,
            },
            (Value::String(x), Value::String(y)) => same(x.as_str(), y.as_str()),
            (Value::Array(x), Value::Array(y)) => {
                if x.len() != y.len() {
                    return false;
                }
                let ghost mx = self.model()->Array_0;
                let ghost my = other.model()->Array_0;
                let mut i: usize = 0;
                while i < x.len()
                    invariant
                        i <= x@.len(),
                        x@.len() == y@.len(),
                        *self == Value::Array(*x),
                        *other == Value::Array(*y),
                        mx == self.model()->Array_0,
                        my == other.model()->Array_0,
                        mx.len() == x@.len(),
                        my.len() == y@.len(),
                        forall|k: int| 0 <= k < i ==> value_eq(#[trigger] mx[k], my[k]),
                    decreases x.len() - i,
                {
                    assert(mx[i as int] == x@[i as int].model());
                    assert(my[i as int] == y@[i as int].model());
                    if !x[i].equals(&y[i]) {
                        return false;
                    }
                    i += 1;
                }
                true
            },
            (Value::Object(x), Value::Object(y)) => {
                if x.entries.len() != y.entries.len() {
                    return false;
                }
                let ghost mx = self.model()->Object_0;
                let ghost my = other.model()->Object_0;
                let mut i: usize = 0;
                while i < x.entries.len()
                    invariant
                        i <= x.entries@.len(),
                        x.entries@.len() == y.entries@.len(),
                        *self == Value::Object(*x),
                        *other == Value::Object(*y),
                        mx == self.model()->Object_0,
                        my == other.model()->Object_0,
                        mx.len() == x.entries@.len(),
                        my.len() == y.entries@.len(),
                        forall|k: int|
                            0 <= k < i ==> mx[k].0 == my[k].0 && value_eq(
                                (#[trigger] mx[k]).1,
                                my[k].1,
                            ),
                    decreases x.entries.len() - i,
                {
                    proof {
                        assert(mx[i as int] == (
                            x.entries@[i as int].0@,
                            x.entries@[i as int].1.model(),
                        ));
                        assert(my[i as int] == (
                            y.entries@[i as int].0@,
                            y.entries@[i as int].1.model(),
                        ));
                    }
                    if !same(x.entries[i].0.as_str(), y.entries[i].0.as_str()) {
                        return false;
                    }
                    if !x.entries[i].1.equals(&y.entries[i].1) {
                        return false;
                    }
                    i += 1;
                }
                true
            },
            _ => false,
        }
    }

    /// Whether the value counts as true.
    pub fn truthy(&self) -> (yes: bool)
        ensures
            yes == truth(self.model()),
            match *self {
                Value::Null => !yes,
                Value::Bool(b) => yes == b,
                Value::Number(Number::PosInt(u)) => yes == (u != 0),
                Value::Number(Number::NegInt(i)) => yes == (i != 0),
                Value::Number(Number::Float(bits)) => yes == (bits != 0 && bits
                    != 0x8000_0000_0000_0000),
                Value::String(s) => yes == (s@.len() > 0),
                Value::Array(items) => yes == (items@.len() > 0),
                Value::Object(fields) => yes == (fields.entries@.len() > 0),
            },
    {
        match self {
            Value::Null => false,
            Value::Bool(b) => *b,
            Value::Number(n) => n.key() != 0,
            Value::String(s) => !s.as_str().is_empty(),
            Value::Array(items) => items.len() > 0,
            Value::Object(fields) => fields.entries.len() > 0,
        }
    }

    /// Whether two values are equal, where numbers are compared by value
    /// alone.
    pub fn loosely_equals(&self, other: &Value) -> (equal: bool)
        ensures
            equal == loose_eq(self.model(), other.model()),
    {
        match (self, other) {
            (Value::Number(x), Value::Number(y)) => x.key() == y.key(),
            _ => self.equals(other),
        }
    }

    /// Whether `needle` is an item of an array, a key of an object, or a part
    /// of a string.
    pub fn contains(&self, needle: &Value) -> (found: bool)
        ensures
            found == holds(self.model(), needle.model()),
    {
        match self {
            Value::Array(items) => {
                let ghost view = self.model()->Array_0;
                let mut i: usize = 0;
                while i < items.len()
                    invariant
                        i <= items@.len(),
                        *self == Value::Array(*items),
                        view == self.model()->Array_0,
                        view.len() == items@.len(),
                        forall|k: int|
                            0 <= k < i ==> !loose_eq(#[trigger] view[k], needle.model()),
                    decreases items.len() - i,
                {
                    assert(view[i as int] == items@[i as int].model());
                    if items[i].loosely_equals(needle) {
                        return true;
                    }
                    i += 1;
                }
                false
            },
            Value::Object(fields) => {
                proof {
                    lemma_object_keys(*fields, self.model()->Object_0);
                }
                match needle {
                    Value::String(key) => fields.index_of(key.as_str()).is_some(),
                    _ => false,
                }
            },
            Value::String(whole) => match needle {
                Value::String(part) => contains_part(whole.as_str(), part.as_str()),
                _ => false,
            },
            _ => false,
        }
    }

    /// How two values are ordered: numbers by value, strings
    /// lexicographically, others not at all.
    pub fn rank(&self, other: &Value) -> (rank: Option<Rank>)
        ensures
            rank == rank_of(self.model(), other.model()),
    {
        match (self, other) {
            (Value::Number(x), Value::Number(y)) => {
                let a: i64 = x.key();
                let b: i64 = y.key();
                if a < b {
                    Some(Rank::Below)
                } else if a == b {
                    Some(Rank::Level)
                } else {
                    Some(Rank::Above)
                }
            },
            (Value::String(x), Value::String(y)) => {
                if less(x.as_str(), y.as_str()) {
                    Some(Rank::Below)
                } else if same(x.as_str(), y.as_str()) {
                    Some(Rank::Level)
                } else {
                    Some(Rank::Above)
                }
            },
            _ => None,
        }
    }
}

/// Whether two values are equal does not depend on the order in which they
/// are named.
pub proof fn law_equality_is_symmetric(a: ValueView, b: ValueView)
    ensures
        value_eq(a, b) == value_eq(b, a),
        loose_eq(a, b) == loose_eq(b, a),
    decreases a,
{
    match (a, b) {
        (ValueView::Array(x), ValueView::Array(y)) => {
            if x.len() == y.len() {
                assert forall|i: int| 0 <= i < x.len() implies value_eq(
                    #[trigger] x[i],
                    y[i],
                ) == value_eq(y[i], x[i]) by {
                    law_equality_is_symmetric(x[i], y[i]);
                }
                if value_eq(b, a) {
                    assert forall|i: int| 0 <= i < x.len() implies value_eq(
                        #[trigger] x[i],
                        y[i],
                    ) by {
                        assert(value_eq(y[i], x[i]));
                    }
                }
                if value_eq(a, b) {
                    assert forall|i: int| 0 <= i < y.len() implies value_eq(
                        #[trigger] y[i],
                        x[i],
                    ) by {
                        assert(value_eq(x[i], y[i]));
                    }
                }
            }
        },
        (ValueView::Object(x), ValueView::Object(y)) => {
            if x.len() == y.len() {
                assert forall|i: int| 0 <= i < x.len() implies value_eq(
                    (#[trigger] x[i]).1,
                    y[i].1,
                ) == value_eq(y[i].1, x[i].1) by {
                    law_equality_is_symmetric(x[i].1, y[i].1);
                }
                if value_eq(b, a) {
                    assert forall|i: int| 0 <= i < x.len() implies x[i].0 == y[i].0 && value_eq(
                        (#[trigger] x[i]).1,
                        y[i].1,
                    ) by {
                        assert(value_eq(y[i].1, x[i].1));
                    }
                }
                if value_eq(a, b) {
                    assert forall|i: int| 0 <= i < y.len() implies y[i].0 == x[i].0 && value_eq(
                        (#[trigger] y[i]).1,
                        x[i].1,
                    ) by {
                        assert(value_eq(x[i].1, y[i].1));
                    }
                }
            }
        },
        _ => {},
    }
}

/// Every value is equal to itself, and values of different kinds never are.
pub proof fn law_equality_is_reflexive(a: ValueView)
    ensures
        value_eq(a, a),
        loose_eq(a, a),
        forall|b: ValueView| #[trigger]
            loose_eq(a, b) ==> {
                &&& a is Null <==> b is Null
                &&& a is Bool <==> b is Bool
                &&& a is Number <==> b is Number
                &&& a is String <==> b is String
                &&& a is Array <==> b is Array
                &&& a is Object <==> b is Object
            },
        forall|b: ValueView| #[trigger]
            loose_eq(a, b) && (a is Null || a is Bool || a is String) ==> a == b,
    decreases a,
{
    match a {
        ValueView::Array(x) => {
            assert forall|i: int| 0 <= i < x.len() implies value_eq(#[trigger] x[i], x[i]) by {
                law_equality_is_reflexive(x[i]);
            }
        },
        ValueView::Object(x) => {
            assert forall|i: int| 0 <= i < x.len() implies value_eq(
                (#[trigger] x[i]).1,
                x[i].1,
            ) by {
                law_equality_is_reflexive(x[i].1);
            }
        },
        _ => {},
    }
}

/// The values that do not count as true are null, false, the numbers equal to
/// zero, and the empty text, list and object; all others do.
pub proof fn law_only_empty_values_are_false(value: ValueView)
    ensures
        !truth(value) <==> {
            ||| value == ValueView::Null
            ||| value == ValueView::Bool(false)
            ||| loose_eq(value, ValueView::Number(Number::Float(0)))
            ||| loose_eq(value, ValueView::String(Seq::empty()))
            ||| loose_eq(value, ValueView::Array(Seq::empty()))
            ||| loose_eq(value, ValueView::Object(Seq::empty()))
        },
{
    match value {
        ValueView::String(s) => {
            if s.len() == 0 {
                assert(s =~= Seq::empty());
            }
        },
        _ => {},
    }
}

/// A member is found under its key, and nothing under any other key; a value
/// that is no object has no members.
pub proof fn law_fields_are_found_by_key(members: Seq<(Seq<char>, ValueView)>, key: Seq<char>)
    ensures
        forall|i: int|
            0 <= i < members.len() && (#[trigger] members[i]).0 == key && (forall|j: int|
                0 <= j < i ==> (#[trigger] members[j]).0 != key) ==> field_of(
                ValueView::Object(members),
                key,
            ) == Some(members[i].1),
        field_of(ValueView::Object(members), key) is None <==> forall|i: int|
            0 <= i < members.len() ==> (#[trigger] members[i]).0 != key,
        forall|value: ValueView| !(value is Object) ==> #[trigger] field_of(value, key) is None,
{
    let keys = member_keys(members);
    names::lemma_place(keys, key);
    assert forall|i: int|
        0 <= i < members.len() && (#[trigger] members[i]).0 == key && (forall|j: int|
            0 <= j < i ==> (#[trigger] members[j]).0 != key) implies field_of(
        ValueView::Object(members),
        key,
    ) == Some(members[i].1) by {
        assert(keys[i] == key);
        let p = names::place(keys, key);
        assert(keys[p] == members[p].0);
        if p < i {
            assert(members[p].0 != key);
        }
    }
    if field_of(ValueView::Object(members), key) is None {
        assert forall|i: int| 0 <= i < members.len() implies (#[trigger] members[i]).0 != key by {
            assert(keys[i] == members[i].0);
        }
    } else {
        let p = names::place(keys, key);
        assert(members[p].0 == keys[p]);
    }
}

/// A value is in a list exactly when it is equal to an item: in none that is
/// empty, and in one with a further item when it was before or is equal to
/// that item.
pub proof fn law_lists_hold_their_items(
    items: Seq<ValueView>,
    item: ValueView,
    needle: ValueView,
)
    ensures
        !holds(ValueView::Array(Seq::empty()), needle),
        holds(ValueView::Array(items.push(item)), needle) <==> holds(
            ValueView::Array(items),
            needle,
        ) || loose_eq(item, needle),
{
    let more = items.push(item);
    let fewer_view = ValueView::Array(items)->Array_0;
    let more_view = ValueView::Array(more)->Array_0;
    assert(fewer_view == items && more_view == more);
    if holds(ValueView::Array(items), needle) {
        let i = choose|i: int|
            0 <= i < fewer_view.len() && loose_eq(#[trigger] fewer_view[i], needle);
        assert(more_view[i] == fewer_view[i]);
    }
    if loose_eq(item, needle) {
        assert(more_view[items.len() as int] == item);
    }
    if holds(ValueView::Array(more), needle) {
        let i = choose|i: int|
            0 <= i < more_view.len() && loose_eq(#[trigger] more_view[i], needle);
        if i < items.len() {
            assert(more_view[i] == fewer_view[i]);
        }
    }
}

/// An object holds the texts that are keys of its members, a text holds the
/// texts that it is made of, and no other value holds anything.
pub proof fn law_objects_hold_keys_and_texts_hold_parts(
    haystack: ValueView,
    needle: ValueView,
    before: Seq<char>,
    part: Seq<char>,
    after: Seq<char>,
)
    ensures
        haystack is Object ==> (holds(haystack, needle) <==> needle is String && field_of(
            haystack,
            needle->String_0,
        ) is Some),
        holds(ValueView::String(before + part + after), ValueView::String(part)),
        haystack is String && holds(haystack, needle) ==> needle is String && exists|i: int|
            0 <= i <= haystack->String_0.len() && (#[trigger] haystack->String_0.skip(i)).take(
                needle->String_0.len() as int,
            ) == needle->String_0 && i + needle->String_0.len() <= haystack->String_0.len(),
        haystack is Null || haystack is Bool || haystack is Number ==> !holds(haystack, needle),
{
    let whole = before + part + after;
    let start = before.len() as int;
    assert(whole.subrange(start, start + part.len()) =~= part);
    if haystack is String && holds(haystack, needle) {
        let text = haystack->String_0;
        let n = needle->String_0.len();
        let i = choose|i: int|
            0 <= i && i + n <= text.len() && #[trigger] text.subrange(i, i + n)
                == needle->String_0;
        assert(text.skip(i).take(n as int) =~= text.subrange(i, i + n));
    }
}

/// Numbers are ordered as doubles: both zeros are level, a set sign puts a
/// number below every number without one, and a greater magnitude lies farther
/// from zero on its side.
pub proof fn law_doubles_are_in_order(a: u64, b: u64)
    ensures
        double_key(0) == double_key(0x8000_0000_0000_0000),
        a < 0x8000_0000_0000_0000 && b < 0x8000_0000_0000_0000 ==> (double_key(a) < double_key(b)
            <==> a < b),
        a >= 0x8000_0000_0000_0000 && b >= 0x8000_0000_0000_0000 ==> (double_key(a) < double_key(b)
            <==> b < a),
        a > 0x8000_0000_0000_0000 && b < 0x8000_0000_0000_0000 ==> double_key(a) < double_key(b),
{
}

/// Within lists and objects numbers are equal only in the same form: a whole
/// number is not equal there to a double of the same value.
pub proof fn law_nested_numbers_keep_their_form(a: Number, b: Number)
    ensures
        value_eq(ValueView::Number(a), ValueView::Number(b)) ==> {
            &&& a is PosInt <==> b is PosInt
            &&& a is NegInt <==> b is NegInt
            &&& a is Float <==> b is Float
            &&& a is PosInt || a is NegInt ==> a == b
        },
        value_eq(ValueView::Number(a), ValueView::Number(b)) ==> loose_eq(
            ValueView::Number(a),
            ValueView::Number(b),
        ),
        value_eq(
            ValueView::Array(seq![ValueView::Number(a)]),
            ValueView::Array(seq![ValueView::Number(b)]),
        ) <==> value_eq(ValueView::Number(a), ValueView::Number(b)),
{
    let x = seq![ValueView::Number(a)];
    let y = seq![ValueView::Number(b)];
    let p = ValueView::Array(x)->Array_0;
    let q = ValueView::Array(y)->Array_0;
    assert(p[0] == ValueView::Number(a) && q[0] == ValueView::Number(b));
}

/// Of two numbers, or of two texts, one is below the other or they are level,
/// and naming them the other way round turns the order round; other values
/// have no order.
pub proof fn law_ranks_turn_round(a: ValueView, b: ValueView)
    ensures
        rank_of(a, b) is Some <==> (a is Number && b is Number) || (a is String && b is String),
        rank_of(a, b) == Some(Rank::Below) <==> rank_of(b, a) == Some(Rank::Above),
        rank_of(a, b) == Some(Rank::Level) <==> rank_of(b, a) == Some(Rank::Level),
        rank_of(a, b) is Some ==> (rank_of(a, b) == Some(Rank::Level) <==> loose_eq(a, b)),
        a is Number && b is Number ==> (rank_of(a, b) == Some(Rank::Below) <==> number_key(
            a->Number_0,
        ) < number_key(b->Number_0)),
        a is String && b is String ==> (rank_of(a, b) == Some(Rank::Below) <==> text::text_lt(
            a->String_0,
            b->String_0,
        )),
{
    match (a, b) {
        (ValueView::String(x), ValueView::String(y)) => {
            text::lemma_text_lt_total(x, y);
            text::lemma_text_lt_irreflexive(x);
            if text::text_lt(x, y) && text::text_lt(y, x) {
                text::lemma_text_lt_transitive(x, y, x);
            }
        },
        _ => {},
    }
}

} // verus!
