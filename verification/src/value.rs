//! The values of a model: the edges of its graph.

use crate::tensor::TypedShape;
use id_arena::{Arena, ArenaBehavior, DefaultArenaBehavior};
use vstd::prelude::*;

verus! {

/// The identifier of a value: the arena that made it and its place there.
#[derive(Debug, Clone, Copy, PartialEq, Eq, Hash, Structural)]
pub struct ValueId {
    pub arena: u32,
    pub index: usize,
}

/// An edge of the graph: what a node produces and other nodes consume.
#[derive(Debug, Clone, PartialEq, Eq, Hash)]
pub struct Value {
    pub name: Option<String>,
    pub shape: Option<TypedShape>,
}

/// The values that an arena holds, in the order in which they were made.
pub uninterp spec fn value_arena_items(arena: Arena<Value>) -> Seq<Value>;

/// The number by which an arena tells its own identifiers from those of
/// other arenas.
pub uninterp spec fn value_arena_tag(arena: Arena<Value>) -> u32;

/// `Arena::new`: an arena that holds nothing.
#[verifier::external_body]
fn value_arena_new() -> (arena: Arena<Value>)
    ensures
        value_arena_items(arena) == Seq::<Value>::empty(),
{
    Arena::new()
}

/// `Arena::alloc`: appends `value` to the arena and returns the identifier
/// made of the arena's tag and the place of `value`. The tag stays.
#[verifier::external_body]
fn value_arena_alloc(arena: &mut Arena<Value>, value: Value) -> (id: ValueId)
    ensures
        value_arena_items(*final(arena)) == value_arena_items(*old(arena)).push(value),
        value_arena_tag(*final(arena)) == value_arena_tag(*old(arena)),
        id.arena == value_arena_tag(*old(arena)),
        id.index == value_arena_items(*old(arena)).len(),
{
    let id = arena.alloc(value);
    ValueId { arena: DefaultArenaBehavior::<Value>::arena_id(id), index: id.index() }
}

/// `Arena::get`: the value at the place that `id` names, if `id` carries the
/// arena's tag and the arena holds that many values.
#[verifier::external_body]
fn value_arena_get(arena: &Arena<Value>, id: ValueId) -> (value: Option<&Value>)
    ensures
        value.is_some() == (id.arena == value_arena_tag(*arena) && id.index < value_arena_items(
            *arena,
        ).len()),
        value.is_some() ==> *value.unwrap() == value_arena_items(*arena)[id.index as int],
{
    arena.get(DefaultArenaBehavior::<Value>::new_id(id.arena, id.index))
}

/// `Arena::len`: the number of values in the arena.
#[verifier::external_body]
fn value_arena_len(arena: &Arena<Value>) -> (n: usize)
    ensures
        n == value_arena_items(*arena).len(),
{
    arena.len()
}

/// `Arena::next_id`: the identifier that the next value will get.
#[verifier::external_body]
fn value_arena_next_id(arena: &Arena<Value>) -> (id: ValueId)
    ensures
        id.arena == value_arena_tag(*arena),
        id.index == value_arena_items(*arena).len(),
{
    let id = arena.next_id();
    ValueId { arena: DefaultArenaBehavior::<Value>::arena_id(id), index: id.index() }
}

/// Whether `a` and `b` have the same name and a shape of the same extents
/// and type, or both none.
pub open spec fn same_value(a: Value, b: Value) -> bool {
    &&& a.name == b.name
    &&& match (a.shape, b.shape) {
        (Some(x), Some(y)) => x@ == y@,
        (None, None) => true,
        _ => false,
    }
}

/// `Arena::clone`: an arena with the same tag that holds a copy of each
/// value, in the same order.
#[verifier::external_body]
fn value_arena_clone(arena: &Arena<Value>) -> (copy: Arena<Value>)
    ensures
        value_arena_items(copy).len() == value_arena_items(*arena).len(),
        forall|i: int|
            0 <= i < value_arena_items(copy).len() ==> same_value(
                #[trigger] value_arena_items(copy)[i],
                value_arena_items(*arena)[i],
            ),
        value_arena_tag(copy) == value_arena_tag(*arena),
{
    arena.clone()
}

/// The values of a model.
#[derive(Debug)]
pub struct ValueArena(Arena<Value>);

impl Clone for ValueArena {
    fn clone(&self) -> (copy: Self)
        ensures
            copy@.len() == self@.len(),
            forall|i: int| 0 <= i < copy@.len() ==> same_value(#[trigger] copy@[i], self@[i]),
            copy.tag() == self.tag(),
    {
        ValueArena(value_arena_clone(&self.0))
    }
}

impl View for ValueArena {
    type V = Seq<Value>;

    closed spec fn view(&self) -> Seq<Value> {
        value_arena_items(self.0)
    }
}

impl Default for ValueArena {
    fn default() -> (arena: Self)
        ensures
            arena@ == Seq::<Value>::empty(),
    {
        ValueArena(value_arena_new())
    }
}

impl ValueArena {
    /// The tag that every identifier of this arena carries.
    pub closed spec fn tag(&self) -> u32 {
        value_arena_tag(self.0)
    }

    /// Whether `id` names a value of this arena.
    pub open spec fn has(&self, id: ValueId) -> bool {
        id.arena == self.tag() && id.index < self@.len()
    }

    /// Adds a value without a name or a shape.
    pub fn new_val(&mut self) -> (id: ValueId)
        ensures
            final(self)@ == old(self)@.push(Value { name: None, shape: None }),
            final(self).tag() == old(self).tag(),
            id == (ValueId { arena: old(self).tag(), index: old(self)@.len() as usize }),
            final(self).has(id),
            !old(self).has(id),
    {
        value_arena_alloc(&mut self.0, Value { name: None, shape: None })
    }

    /// Adds a value with a name.
    pub fn new_val_named(&mut self, name: String) -> (id: ValueId)
        ensures
            final(self)@ == old(self)@.push(Value { name: Some(name), shape: None }),
            final(self).tag() == old(self).tag(),
            id == (ValueId { arena: old(self).tag(), index: old(self)@.len() as usize }),
            final(self).has(id),
            !old(self).has(id),
    {
        value_arena_alloc(&mut self.0, Value { name: Some(name), shape: None })
    }

    /// Adds a value with a name and a shape.
    pub fn new_val_named_and_shaped(&mut self, name: String, shape: TypedShape) -> (id: ValueId)
        ensures
            final(self)@ == old(self)@.push(Value { name: Some(name), shape: Some(shape) }),
            final(self).tag() == old(self).tag(),
            id == (ValueId { arena: old(self).tag(), index: old(self)@.len() as usize }),
            final(self).has(id),
            !old(self).has(id),
    {
        value_arena_alloc(&mut self.0, Value { name: Some(name), shape: Some(shape) })
    }

    /// The value that `id` names, if it names one of this arena.
    pub fn get(&self, id: ValueId) -> (value: Option<&Value>)
        ensures
            value is Some <==> self.has(id),
            value is Some ==> *value->0 == self@[id.index as int],
    {
        value_arena_get(&self.0, id)
    }

    /// The number of values.
    pub fn len(&self) -> (n: usize)
        ensures
            n == self@.len(),
    {
        value_arena_len(&self.0)
    }

    /// The identifier of the value at place `index`, whether it exists yet
    /// or not.
    pub fn id_at(&self, index: usize) -> (id: ValueId)
        ensures
            id == (ValueId { arena: self.tag(), index }),
    {
        ValueId { arena: value_arena_next_id(&self.0).arena, index }
    }

    pub fn inner(&self) -> (arena: &Arena<Value>)
        ensures
            value_arena_items(*arena) == self@,
            value_arena_tag(*arena) == self.tag(),
    {
        &self.0
    }

    pub fn inner_mut(&mut self) -> (arena: &mut Arena<Value>)
        ensures
            value_arena_items(*arena) == old(self)@,
            value_arena_tag(*arena) == old(self).tag(),
            final(self)@ == value_arena_items(*final(arena)),
            final(self).tag() == value_arena_tag(*final(arena)),
    {
        &mut self.0
    }
}

/// Whether `list` holds `v`.
pub(crate) fn holds_value(list: &Vec<ValueId>, v: ValueId) -> (b: bool)
    ensures
        b == list@.contains(v),
{
    let mut k: usize = 0;
    while k < list.len()
        invariant
            k <= list@.len(),
            forall|j: int| 0 <= j < k ==> list@[j] != v,
        decreases list@.len() - k,
    {
        if list[k] == v {
            return true;
        }
        k += 1;
    }
    false
}

} // verus!
