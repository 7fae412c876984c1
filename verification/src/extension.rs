//! Extensions: what plugins contribute to the points that others declare.
//!
//! An extension is a ticket with the type of what is behind it. A point may
//! declare the type that it takes.

use crate::names;
use crate::text;
use crate::text::quoted;
use crate::text_map;
use crate::text_map::TextMap;
use std::any::TypeId;
use vstd::prelude::*;
use vstd::string::*;

verus! {

/// The identifier that `std::any` gives to a type.
#[verifier::external_type_specification]
#[verifier::external_body]
pub struct ExTypeId(std::any::TypeId);

/// Compares two type identifiers through the `PartialEq` of
/// `std::any::TypeId`. The contract says that identifiers are equal when they
/// are the same.
#[verifier::external_body]
pub(crate) fn same_type(a: &TypeId, b: &TypeId) -> (yes: bool)
    ensures
        yes == (*a == *b),
{
    *a == *b
}

/// `std::any::TypeId::of` takes the identifier of a type. Nothing is claimed of
/// the identifier.
pub assume_specification<T: ?Sized + 'static>[ TypeId::of::<T> ]() -> (id: TypeId);

/// A point that extensions are contributed to, by the type that it takes.
#[derive(Debug, Clone, Copy)]
pub struct ExtensionPoint {
    /// The type.
    pub type_id: TypeId,
}

impl ExtensionPoint {
    /// The type that the point takes.
    pub fn type_id(&self) -> (id: TypeId)
        ensures
            id == self.type_id,
    {
        self.type_id
    }
}

/// The point that takes extensions of a type: it holds what
/// `std::any::TypeId::of` gives for that type.
pub fn extension_point<T: ?Sized + 'static>() -> (point: ExtensionPoint)
    ensures
        call_ensures(TypeId::of::<T>, (), point.type_id),
{
    let of = TypeId::of::<T>;
    ExtensionPoint { type_id: of() }
}

/// How the registry refuses a request.
#[derive(Debug)]
pub enum ExtensionError {
    /// The extension is not of the type that the point takes.
    DoesNotImplement(String),
    /// No such point is declared.
    PointNotRegistered(String),
    /// Nothing is contributed to the point.
    NoExtensions(String),
}

/// The message of an extension error.
pub open spec fn extension_error_text(error: ExtensionError) -> Seq<char> {
    match error {
        ExtensionError::DoesNotImplement(point) => "extension does not implement extension point "@
            + text::debug_text(point@),
        ExtensionError::PointNotRegistered(point) => "extension point "@ + text::debug_text(point@)
            + " is not registered"@,
        ExtensionError::NoExtensions(point) => "extension point "@ + text::debug_text(point@)
            + " has no registered extensions"@,
    }
}

impl ExtensionError {
    /// The message of the error.
    pub fn to_string(&self) -> (message: String)
        ensures
            message@ == extension_error_text(*self),
    {
        match self {
            ExtensionError::DoesNotImplement(point) => {
                let mut out: String = "extension does not implement extension point ".to_owned();
                out.append(quoted(point.as_str()).as_str());
                out
            },
            ExtensionError::PointNotRegistered(point) => {
                let mut out: String = "extension point ".to_owned();
                out.append(quoted(point.as_str()).as_str());
                out.append(" is not registered");
                out
            },
            ExtensionError::NoExtensions(point) => {
                let mut out: String = "extension point ".to_owned();
                out.append(quoted(point.as_str()).as_str());
                out.append(" has no registered extensions");
                out
            },
        }
    }
}

/// An extension of a point.
#[derive(Debug, Clone, Copy)]
pub struct Contribution {
    /// How far in front it stands.
    pub priority: i32,
    /// The type of what is behind the ticket.
    pub type_id: TypeId,
    /// The ticket of the extension.
    pub instance: u64,
}

/// Whether the extensions of a point stand highest priority first.
pub open spec fn ranked(list: Seq<Contribution>) -> bool {
    forall|a: int, b: int|
        0 <= a < b < list.len() ==> (#[trigger] list[a]).priority >= (#[trigger] list[b]).priority
}

/// Where an extension of a priority goes: behind the last whose priority is at
/// least as high.
pub open spec fn place_for(list: Seq<Contribution>, priority: i32) -> int
    decreases list.len(),
{
    if list.len() == 0 {
        0
    } else if list.last().priority >= priority {
        list.len() as int
    } else {
        place_for(list.drop_last(), priority)
    }
}

/// Where an extension stands first, or -1.
pub open spec fn instance_at(list: Seq<Contribution>, instance: u64) -> int
    decreases list.len(),
{
    if list.len() == 0 {
        -1
    } else {
        let earlier = instance_at(list.drop_last(), instance);
        if earlier >= 0 {
            earlier
        } else if list.last().instance == instance {
            list.len() - 1
        } else {
            -1
        }
    }
}

/// The tickets of extensions, in their order.
pub open spec fn instances(list: Seq<Contribution>) -> Seq<u64> {
    Seq::new(list.len(), |i: int| list[i].instance)
}

/// The tickets of the extensions of a type, in their order.
pub open spec fn instances_of_type(list: Seq<Contribution>, type_id: TypeId) -> Seq<u64>
    decreases list.len(),
{
    if list.len() == 0 {
        Seq::empty()
    } else {
        let front = instances_of_type(list.drop_last(), type_id);
        if list.last().type_id == type_id {
            front.push(list.last().instance)
        } else {
            front
        }
    }
}

/// Points and the extensions that are contributed to them.
#[derive(Debug)]
pub struct ExtensionRegistry {
    /// The extensions of each point that has any.
    pub extensions: TextMap<Vec<Contribution>>,
    /// The type that each declared point takes.
    pub points: TextMap<TypeId>,
}

/// The extensions of a point.
pub open spec fn contributed(
    extensions: Map<Seq<char>, Vec<Contribution>>,
    point_id: Seq<char>,
) -> Seq<Contribution> {
    if extensions.contains_key(point_id) {
        extensions[point_id]@
    } else {
        Seq::empty()
    }
}

/// Whether only the extensions of one point have changed.
pub open spec fn only_changes(
    before: Map<Seq<char>, Vec<Contribution>>,
    later: Map<Seq<char>, Vec<Contribution>>,
    point_id: Seq<char>,
) -> bool {
    later.remove(point_id) == before.remove(point_id)
}

/// What the place of an extension says of the others, where they stand highest
/// priority first.
pub proof fn law_ties_keep_their_order(list: Seq<Contribution>, extension: Contribution)
    requires
        ranked(list),
    ensures
        0 <= place_for(list, extension.priority) <= list.len(),
        forall|i: int|
            0 <= i < place_for(list, extension.priority) ==> (#[trigger] list[i]).priority
                >= extension.priority,
        forall|i: int|
            place_for(list, extension.priority) <= i < list.len() ==> (
            #[trigger] list[i]).priority < extension.priority,
        ranked(list.insert(place_for(list, extension.priority), extension)),
    decreases list.len(),
{
    let p = place_for(list, extension.priority);
    if list.len() > 0 {
        let front = list.drop_last();
        assert(ranked(front)) by {
            assert forall|a: int, b: int| 0 <= a < b < front.len() implies (
            #[trigger] front[a]).priority >= (#[trigger] front[b]).priority by {
                assert(list[a].priority >= list[b].priority);
            }
        }
        law_ties_keep_their_order(front, extension);
        if list.last().priority >= extension.priority {
            assert forall|i: int| 0 <= i < p implies (#[trigger] list[i]).priority
                >= extension.priority by {
                if i < list.len() - 1 {
                    assert(list[i].priority >= list[list.len() - 1].priority);
                }
            }
        } else {
            assert forall|i: int| 0 <= i < p implies (#[trigger] list[i]).priority
                >= extension.priority by {
                assert(front[i].priority >= extension.priority);
            }
            assert forall|i: int| p <= i < list.len() implies (#[trigger] list[i]).priority
                < extension.priority by {
                if i < front.len() {
                    assert(front[i].priority < extension.priority);
                }
            }
        }
    }
    let grown = list.insert(p, extension);
    assert forall|a: int, b: int| 0 <= a < b < grown.len() implies (#[trigger] grown[a]).priority
        >= (#[trigger] grown[b]).priority by {
        let x = if a < p {
            a
        } else {
            a - 1
        };
        let y = if b < p {
            b
        } else {
            b - 1
        };
        if a != p && b != p {
            assert(list[x].priority >= list[y].priority);
        }
        if a == p {
            assert(list[y].priority < extension.priority);
        }
        if b == p {
            assert(list[x].priority >= extension.priority);
        }
    }
}

proof fn lemma_instance_at(list: Seq<Contribution>, instance: u64, p: int)
    requires
        0 <= p < list.len(),
        list[p].instance == instance,
        forall|j: int| 0 <= j < p ==> (#[trigger] list[j]).instance != instance,
    ensures
        instance_at(list, instance) == p,
    decreases list.len(),
{
    let front = list.drop_last();
    if p < front.len() {
        assert(front[p] == list[p]);
        assert forall|j: int| 0 <= j < p implies (#[trigger] front[j]).instance != instance by {
            assert(list[j].instance != instance);
        }
        lemma_instance_at(front, instance, p);
    } else {
        assert forall|j: int| 0 <= j < front.len() implies (
        #[trigger] front[j]).instance != instance by {
            assert(list[j].instance != instance);
        }
        lemma_instance_absent(front, instance);
    }
}

proof fn lemma_instance_absent(list: Seq<Contribution>, instance: u64)
    requires
        forall|j: int| 0 <= j < list.len() ==> (#[trigger] list[j]).instance != instance,
    ensures
        instance_at(list, instance) == -1,
    decreases list.len(),
{
    if list.len() > 0 {
        let front = list.drop_last();
        assert forall|j: int| 0 <= j < front.len() implies (
        #[trigger] front[j]).instance != instance by {
            assert(list[j].instance != instance);
        }
        lemma_instance_absent(front, instance);
        assert(list[list.len() - 1].instance != instance);
    }
}

fn find_instance(list: &Vec<Contribution>, instance: u64) -> (at: Option<usize>)
    ensures
        match at {
            Some(i) => i < list@.len() && i == instance_at(list@, instance),
            None => instance_at(list@, instance) < 0,
        },
{
    let mut i: usize = 0;
    while i < list.len()
        invariant
            i <= list@.len(),
            forall|j: int| 0 <= j < i ==> (#[trigger] list@[j]).instance != instance,
        decreases list.len() - i,
    {
        if list[i].instance == instance {
            proof {
                lemma_instance_at(list@, instance, i as int);
            }
            return Some(i);
        }
        i += 1;
    }
    proof {
        lemma_instance_absent(list@, instance);
    }
    None
}

impl ExtensionRegistry {
    /// Whether the points are in order, and their extensions stand highest
    /// priority first.
    pub open spec fn well_formed(self) -> bool {
        &&& self.extensions.well_formed()
        &&& self.points.well_formed()
        &&& forall|k: Seq<char>|
            self.extensions@.contains_key(k) ==> ranked((#[trigger] self.extensions@[k])@)
                && self.extensions@[k]@.len() > 0
    }

    /// A registry without points and extensions.
    pub fn new() -> (registry: ExtensionRegistry)
        ensures
            registry.well_formed(),
            registry.extensions@ == Map::<Seq<char>, Vec<Contribution>>::empty(),
            registry.points@ == Map::<Seq<char>, TypeId>::empty(),
    {
        ExtensionRegistry { extensions: TextMap::new(), points: TextMap::new() }
    }

    /// Declares a point, in place of any with its id.
    pub fn register_extension_point(&mut self, point_id: &str, point: ExtensionPoint)
        requires
            old(self).well_formed(),
        ensures
            final(self).well_formed(),
            final(self).extensions == old(self).extensions,
            final(self).points@ == old(self).points@.insert(point_id@, point.type_id),
    {
        self.points.insert(point_id.to_owned(), point.type_id());
    }

    /// Whether a point is declared.
    pub fn has_extension_point(&self, point_id: &str) -> (yes: bool)
        ensures
            yes == self.points@.contains_key(point_id@),
    {
        self.points.contains_key(point_id)
    }

    /// The ids of the declared points, in increasing order.
    pub fn extension_point_ids(&self) -> (ids: Vec<String>)
        ensures
            text::texts(ids@) == text_map::keys_of(self.points.entries@),
    {
        self.points.keys()
    }

    /// Contributes an extension with priority zero.
    pub fn register(&mut self, point_id: &str, type_id: TypeId, instance: u64) -> (result: Result<
        (),
        ExtensionError,
    >)
        requires
            old(self).well_formed(),
        ensures
            final(self).well_formed(),
            is_registration(
                *old(self),
                point_id@,
                Contribution { priority: 0, type_id, instance },
                *final(self),
                result,
            ),
    {
        self.register_with_priority(point_id, type_id, instance, 0)
    }

    /// Contributes an extension: behind those of at least its priority. A point
    /// that is declared takes only extensions of its type.
    pub fn register_with_priority(
        &mut self,
        point_id: &str,
        type_id: TypeId,
        instance: u64,
        priority: i32,
    ) -> (result: Result<(), ExtensionError>)
        requires
            old(self).well_formed(),
        ensures
            final(self).well_formed(),
            is_registration(
                *old(self),
                point_id@,
                Contribution { priority, type_id, instance },
                *final(self),
                result,
            ),
    {
        let ghost before = *self;
        let extension: Contribution = Contribution { priority, type_id, instance };
        if let Some(wanted) = self.points.get(point_id) {
            if !same_type(wanted, &type_id) {
                return Err(ExtensionError::DoesNotImplement(point_id.to_owned()));
            }
        }
        let mut list: Vec<Contribution> = match self.extensions.remove(point_id) {
            Some(list) => list,
            None => Vec::new(),
        };
        let ghost known = list@;
        assert(known =~= contributed(before.extensions@, point_id@));
        let mut at: usize = list.len();
        assert(known.take(known.len() as int) =~= known);
        while at > 0 && list[at - 1].priority < priority
            invariant
                at <= list@.len(),
                list@ == known,
                place_for(known, priority) == place_for(known.take(at as int), priority),
            decreases at,
        {
            assert(known.take(at as int).drop_last() =~= known.take(at - 1));
            at -= 1;
        }
        proof {
            if at > 0 {
                assert(known.take(at as int).last() == known[at - 1]);
            }
            assert(at == place_for(known, priority));
            law_ties_keep_their_order(known, extension);
        }
        list.insert(at, extension);
        self.extensions.insert(point_id.to_owned(), list);
        proof {
            assert(self.extensions@.remove(point_id@) =~= before.extensions@.remove(point_id@));
            assert forall|k: Seq<char>| self.extensions@.contains_key(k) implies ranked(
                (#[trigger] self.extensions@[k])@,
            ) && self.extensions@[k]@.len() > 0 by {
                if k != point_id@ {
                    assert(before.extensions@[k] == self.extensions@[k]);
                }
            }
        }
        Ok(())
    }

    /// Removes the first extension of a point with a ticket.
    pub fn unregister(&mut self, point_id: &str, instance: u64) -> (found: bool)
        requires
            old(self).well_formed(),
        ensures
            final(self).well_formed(),
            final(self).points == old(self).points,
            only_changes(old(self).extensions@, final(self).extensions@, point_id@),
            ({
                let list = contributed(old(self).extensions@, point_id@);
                let at = instance_at(list, instance);
                &&& found == (at >= 0)
                &&& contributed(final(self).extensions@, point_id@) == if at >= 0 {
                    list.remove(at)
                } else {
                    list
                }
            }),
    {
        let ghost before = *self;
        let at: Option<usize> = match self.extensions.get(point_id) {
            Some(list) => find_instance(list, instance),
            None => None,
        };
        match at {
            Some(i) => {
                if let Some(taken) = self.extensions.remove(point_id) {
                    let mut list: Vec<Contribution> = taken;
                    let ghost known = list@;
                    list.remove(i);
                    proof {
                        assert(ranked(list@)) by {
                            assert forall|a: int, b: int| 0 <= a < b < list@.len() implies (
                            #[trigger] list@[a]).priority >= (#[trigger] list@[b]).priority by {
                                let x = if a < i {
                                    a
                                } else {
                                    a + 1
                                };
                                let y = if b < i {
                                    b
                                } else {
                                    b + 1
                                };
                                assert(known[x].priority >= known[y].priority);
                            }
                        }
                    }
                    if list.len() > 0 {
                        self.extensions.insert(point_id.to_owned(), list);
                    }
                    proof {
                        assert(contributed(self.extensions@, point_id@) =~= known.remove(i as int));
                        assert(self.extensions@.remove(point_id@) =~= before.extensions@.remove(
                            point_id@,
                        ));
                        assert forall|k: Seq<char>| self.extensions@.contains_key(k) implies ranked(
                            (#[trigger] self.extensions@[k])@,
                        ) && self.extensions@[k]@.len() > 0 by {
                            if k != point_id@ {
                                assert(before.extensions@[k] == self.extensions@[k]);
                            }
                        }
                    }
                }
                true
            },
            None => false,
        }
    }

    /// The extensions of a point, highest priority first.
    pub fn get(&self, point_id: &str) -> (list: Vec<u64>)
        ensures
            list@ == instances(contributed(self.extensions@, point_id@)),
            !self.extensions@.contains_key(point_id@) ==> list@.len() == 0,
            self.extensions@.contains_key(point_id@) ==> list@.len()
                == self.extensions@[point_id@]@.len() && forall|k: int|
                0 <= k < list@.len() ==> #[trigger] list@[k]
                    == self.extensions@[point_id@]@[k].instance,
    {
        let mut out: Vec<u64> = Vec::new();
        if let Some(list) = self.extensions.get(point_id) {
            let mut i: usize = 0;
            while i < list.len()
                invariant
                    i <= list@.len(),
                    out@.len() == i,
                    forall|k: int| 0 <= k < i ==> #[trigger] out@[k] == list@[k].instance,
                decreases list.len() - i,
            {
                out.push(list[i].instance);
                i += 1;
            }
        }
        assert(out@ =~= instances(contributed(self.extensions@, point_id@)));
        out
    }

    /// The extensions of a point that are of a type, highest priority first.
    pub fn get_as(&self, point_id: &str, type_id: TypeId) -> (found: Vec<u64>)
        ensures
            found@ == instances_of_type(contributed(self.extensions@, point_id@), type_id),
    {
        let mut out: Vec<u64> = Vec::new();
        if let Some(list) = self.extensions.get(point_id) {
            let mut i: usize = 0;
            while i < list.len()
                invariant
                    i <= list@.len(),
                    out@ == instances_of_type(list@.take(i as int), type_id),
                decreases list.len() - i,
            {
                assert(list@.take(i + 1).drop_last() =~= list@.take(i as int));
                if same_type(&list[i].type_id, &type_id) {
                    out.push(list[i].instance);
                }
                i += 1;
            }
            assert(list@.take(list@.len() as int) =~= list@);
        }
        out
    }

    /// The extension of a declared point with the highest priority.
    pub fn get_extension(&self, point_id: &str) -> (found: Result<u64, ExtensionError>)
        ensures
            ({
                let list = contributed(self.extensions@, point_id@);
                match found {
                    Ok(instance) => self.points@.contains_key(point_id@) && list.len() > 0
                        && instance == list[0].instance,
                    Err(ExtensionError::PointNotRegistered(id)) => !self.points@.contains_key(
                        point_id@,
                    ) && id@ == point_id@,
                    Err(ExtensionError::NoExtensions(id)) => self.points@.contains_key(point_id@)
                        && list.len() == 0 && id@ == point_id@,
                    Err(ExtensionError::DoesNotImplement(_)) => false,
                }
            }),
    {
        if !self.points.contains_key(point_id) {
            return Err(ExtensionError::PointNotRegistered(point_id.to_owned()));
        }
        if let Some(list) = self.extensions.get(point_id) {
            if list.len() > 0 {
                return Ok(list[0].instance);
            }
        }
        Err(ExtensionError::NoExtensions(point_id.to_owned()))
    }

    /// The ids of the points that have an extension, in increasing order.
    pub fn points(&self) -> (ids: Vec<String>)
        requires
            self.well_formed(),
        ensures
            text::texts(ids@) == text_map::keys_of(self.extensions.entries@),
            forall|k: Seq<char>|
                contributed(self.extensions@, k).len() > 0 <==> #[trigger] text::texts(
                    ids@,
                ).contains(k),
    {
        let ids: Vec<String> = self.extensions.keys();
        proof {
            let keys = text_map::keys_of(self.extensions.entries@);
            assert forall|k: Seq<char>|
                contributed(self.extensions@, k).len() > 0 <==> #[trigger] text::texts(
                    ids@,
                ).contains(k) by {
                names::lemma_place(keys, k);
                if keys.contains(k) {
                    let i = choose|i: int| 0 <= i < keys.len() && keys[i] == k;
                    self.extensions.lemma_entry(i);
                    assert(self.extensions.entries@[i].0@ == k);
                    assert(self.extensions@[k]@.len() > 0);
                }
            }
        }
        ids
    }
}

/// Whether an extension was taken in, or refused for its type.
pub open spec fn is_registration(
    before: ExtensionRegistry,
    point_id: Seq<char>,
    extension: Contribution,
    later: ExtensionRegistry,
    result: Result<(), ExtensionError>,
) -> bool {
    match result {
        Ok(()) => {
            let list = contributed(before.extensions@, point_id);
            &&& before.points@.contains_key(point_id) ==> before.points@[point_id]
                == extension.type_id
            &&& later.points == before.points
            &&& only_changes(before.extensions@, later.extensions@, point_id)
            &&& contributed(later.extensions@, point_id) == list.insert(
                place_for(list, extension.priority),
                extension,
            )
        },
        Err(ExtensionError::DoesNotImplement(id)) => {
            &&& before.points@.contains_key(point_id)
            &&& before.points@[point_id] != extension.type_id
            &&& id@ == point_id
            &&& later == before
        },
        Err(_) => false,
    }
}

/// The first extension of a point has the highest priority, and of those with
/// the highest it came first: a further extension stands behind all of at
/// least its priority and before all of a lower one.
pub proof fn law_higher_priorities_come_first(
    before: ExtensionRegistry,
    point_id: Seq<char>,
    extension: Contribution,
    later: ExtensionRegistry,
    result: Result<(), ExtensionError>,
)
    requires
        before.well_formed(),
        is_registration(before, point_id, extension, later, result),
    ensures
        result is Err <==> before.points@.contains_key(point_id) && before.points@[point_id]
            != extension.type_id,
        result is Err ==> later == before,
        result is Ok ==> {
            let old_list = contributed(before.extensions@, point_id);
            let list = contributed(later.extensions@, point_id);
            exists|p: int|
                {
                    &&& 0 <= p < list.len()
                    &&& #[trigger] list[p] == extension
                    &&& list.remove(p) == old_list
                    &&& forall|i: int|
                        0 <= i < p ==> (#[trigger] list[i]).priority >= extension.priority
                    &&& forall|i: int|
                        p < i < list.len() ==> (#[trigger] list[i]).priority < extension.priority
                }
        },
{
    let old_list = contributed(before.extensions@, point_id);
    if result is Ok {
        let list = contributed(later.extensions@, point_id);
        let p = place_for(old_list, extension.priority);
        assert(ranked(old_list));
        law_ties_keep_their_order(old_list, extension);
        assert(list[p] == extension);
        assert(list.remove(p) =~= old_list);
        assert forall|i: int| 0 <= i < p implies (#[trigger] list[i]).priority
            >= extension.priority by {
            assert(list[i] == old_list[i]);
        }
        assert forall|i: int| p < i < list.len() implies (#[trigger] list[i]).priority
            < extension.priority by {
            assert(list[i] == old_list[i - 1]);
        }
    }
}

/// An extension is found at the first place at which its ticket stands.
pub proof fn law_instances_are_found_where_they_stand(list: Seq<Contribution>, instance: u64)
    ensures
        -1 <= instance_at(list, instance) < list.len(),
        instance_at(list, instance) >= 0 ==> list[instance_at(list, instance)].instance
            == instance,
        forall|i: int|
            0 <= i < list.len() && (instance_at(list, instance) < 0 || i < instance_at(
                list,
                instance,
            )) ==> (#[trigger] list[i]).instance != instance,
    decreases list.len(),
{
    if list.len() > 0 {
        let front = list.drop_last();
        law_instances_are_found_where_they_stand(front, instance);
        let at = instance_at(front, instance);
        assert forall|i: int|
            0 <= i < list.len() && (instance_at(list, instance) < 0 || i < instance_at(
                list,
                instance,
            )) implies (#[trigger] list[i]).instance != instance by {
            if i < front.len() {
                assert(front[i] == list[i]);
            }
        }
    }
}

/// Of the extensions of a point, those of a type are given in their order, and
/// no others.
pub proof fn law_types_select_extensions(
    list: Seq<Contribution>,
    extension: Contribution,
    type_id: TypeId,
)
    ensures
        instances_of_type(Seq::empty(), type_id).len() == 0,
        extension.type_id == type_id ==> instances_of_type(list.push(extension), type_id)
            == instances_of_type(list, type_id).push(extension.instance),
        extension.type_id != type_id ==> instances_of_type(list.push(extension), type_id)
            == instances_of_type(list, type_id),
{
    assert(list.push(extension).drop_last() =~= list);
}

/// Registering an extension leaves the extensions of other points, and the
/// points themselves, as they were.
pub proof fn law_points_do_not_share_extensions(
    before: ExtensionRegistry,
    point_id: Seq<char>,
    extension: Contribution,
    later: ExtensionRegistry,
    result: Result<(), ExtensionError>,
    other: Seq<char>,
)
    requires
        is_registration(before, point_id, extension, later, result),
        other != point_id,
    ensures
        contributed(later.extensions@, other) == contributed(before.extensions@, other),
        later.points == before.points,
{
    assert(later.extensions@.remove(point_id).contains_key(other)
        <==> later.extensions@.contains_key(other));
    assert(before.extensions@.remove(point_id).contains_key(other)
        <==> before.extensions@.contains_key(other));
    if later.extensions@.contains_key(other) && result is Ok {
        assert(later.extensions@.remove(point_id)[other] == later.extensions@[other]);
        assert(before.extensions@.remove(point_id)[other] == before.extensions@[other]);
    }
}

} // verus!
