//! A model: nodes, values, initializers, and the order in which the nodes
//! can run.

use crate::error::SessionError;
use crate::node::{
    node_arena_get, node_arena_items, node_arena_len, node_arena_new, node_arena_next_id,
    node_arena_tag, Node, NodeArena, NodeId,
};
use crate::tensor::Tensor;
use crate::value::{holds_value, Value, ValueArena, ValueId};
use rustc_hash::{FxHashMap, FxHashSet, FxHasher};
use std::hash::BuildHasherDefault;
use vstd::prelude::*;

verus! {

#[verifier::external_type_specification]
#[verifier::external_body]
pub struct ExFxHasher(FxHasher);

#[verifier::external_type_specification]
#[verifier::external_body]
#[verifier::reject_recursive_types(H)]
pub struct ExBuildHasherDefault<H>(BuildHasherDefault<H>);

/// `FxHashMap::default`: a map without entries.
#[verifier::external_body]
pub(crate) fn value_map_new<V>() -> (map: FxHashMap<ValueId, V>)
    ensures
        map@.dom() == Set::<ValueId>::empty(),
{
    FxHashMap::default()
}

/// `HashMap::get` on a map with the hasher of `rustc_hash`: what is stored
/// under `id`, if anything is. Two identifiers are the same key if their
/// arena and their index agree.
#[verifier::external_body]
pub(crate) fn value_map_get<'a, V>(map: &'a FxHashMap<ValueId, V>, id: ValueId) -> (found: Option<
    &'a V,
>)
    ensures
        found.is_some() == map@.contains_key(id),
        found.is_some() ==> *found.unwrap() == map@[id],
{
    map.get(&id)
}

/// `HashMap::insert` on a map with the hasher of `rustc_hash`: stores
/// `value` under `id`, in place of what was stored there.
#[verifier::external_body]
pub(crate) fn value_map_insert<V>(map: &mut FxHashMap<ValueId, V>, id: ValueId, value: V)
    ensures
        final(map)@ == old(map)@.insert(id, value),
{
    map.insert(id, value);
}

/// `HashMap::remove` on a map with the hasher of `rustc_hash`: takes away
/// what is stored under `id`, if anything is.
#[verifier::external_body]
pub(crate) fn value_map_remove<V>(map: &mut FxHashMap<ValueId, V>, id: ValueId)
    ensures
        final(map)@ == old(map)@.remove(id),
{
    map.remove(&id);
}

/// `FxHashSet::default`: a set without members.
#[verifier::external_body]
fn node_set_new() -> (set: FxHashSet<NodeId>)
    ensures
        set@ == Set::<NodeId>::empty(),
{
    FxHashSet::default()
}

/// `HashSet::insert` on a set with the hasher of `rustc_hash`: `id` is a
/// member afterwards, beside the members before. Two identifiers are the
/// same member if their arena and their index agree.
#[verifier::external_body]
fn node_set_insert(set: &mut FxHashSet<NodeId>, id: NodeId)
    ensures
        final(set)@ == old(set)@.insert(id),
{
    set.insert(id);
}

/// `HashMap::keys` on a map with the hasher of `rustc_hash`: the keys of
/// the map, in no order that could be told beforehand.
#[verifier::external_body]
pub(crate) fn value_map_keys<V>(map: &FxHashMap<ValueId, V>) -> (keys: Vec<ValueId>)
    ensures
        forall|id: ValueId| keys@.contains(id) <==> map@.contains_key(id),
{
    map.keys().copied().collect()
}

/// The graph of a network: nodes and the values between them, the constant
/// tensors that some values are bound to, and the values that go in and
/// come out.
pub struct Model {
    pub nodes: NodeArena,
    pub values: ValueArena,
    pub inits: FxHashMap<ValueId, Tensor>,
    pub inputs: Vec<ValueId>,
    pub outputs: Vec<ValueId>,
}

impl Default for Model {
    fn default() -> (model: Self)
        ensures
            model.node_seq() == Seq::<Node>::empty(),
            model.values@ == Seq::<Value>::empty(),
            model.inits@.dom() == Set::<ValueId>::empty(),
            model.inputs@ == Seq::<ValueId>::empty(),
            model.outputs@ == Seq::<ValueId>::empty(),
            model.wf(),
    {
        Model {
            nodes: node_arena_new(),
            values: ValueArena::default(),
            inits: value_map_new(),
            inputs: Vec::new(),
            outputs: Vec::new(),
        }
    }
}

/// The number of entries `false` among the first `n` entries of `marks`.
pub open spec fn unmarked(marks: Seq<bool>, n: nat) -> nat
    decreases n,
{
    if n == 0 {
        0
    } else {
        unmarked(marks, (n - 1) as nat) + if marks[n - 1] {
            0nat
        } else {
            1nat
        }
    }
}

/// Marking an unmarked entry leaves one unmarked entry less.
proof fn lemma_unmarked_update(marks: Seq<bool>, n: nat, i: int)
    requires
        n <= marks.len(),
        0 <= i < marks.len(),
        !marks[i],
    ensures
        unmarked(marks.update(i, true), n) == unmarked(marks, n) - if i < n {
            1int
        } else {
            0int
        },
    decreases n,
{
    if n > 0 {
        lemma_unmarked_update(marks, (n - 1) as nat, i);
    }
}

/// A list of `n` marks, none of them set.
fn no_marks(n: usize) -> (marks: Vec<bool>)
    ensures
        marks@.len() == n,
        forall|i: int| 0 <= i < n ==> !marks@[i],
        unmarked(marks@, n as nat) == n,
{
    let mut marks: Vec<bool> = Vec::new();
    let mut i: usize = 0;
    while i < n
        invariant
            i <= n,
            marks@.len() == i,
            forall|k: int| 0 <= k < i ==> !marks@[k],
            unmarked(marks@, i as nat) == i,
        decreases n - i,
    {
        let ghost before = marks@;
        marks.push(false);
        proof {
            lemma_unmarked_prefix(before, marks@, i as nat);
        }
        i += 1;
    }
    marks
}

/// The count over the first `n` marks depends on those marks only.
proof fn lemma_unmarked_prefix(a: Seq<bool>, b: Seq<bool>, n: nat)
    requires
        n <= a.len(),
        n <= b.len(),
        forall|i: int| 0 <= i < n ==> a[i] == b[i],
    ensures
        unmarked(a, n) == unmarked(b, n),
    decreases n,
{
    if n > 0 {
        lemma_unmarked_prefix(a, b, (n - 1) as nat);
    }
}

/// Where an entry is not marked, the count is positive.
proof fn lemma_unmarked_positive(marks: Seq<bool>, n: nat, i: int)
    requires
        0 <= i < n <= marks.len(),
        !marks[i],
    ensures
        unmarked(marks, n) >= 1,
    decreases n,
{
    if i < n - 1 {
        lemma_unmarked_positive(marks, (n - 1) as nat, i);
    }
}

impl Model {
    /// The nodes, in the order in which they were made.
    pub open spec fn node_seq(&self) -> Seq<Node> {
        node_arena_items(self.nodes)
    }

    /// The identifier of the node at place `i`.
    pub open spec fn node_id(&self, i: int) -> NodeId {
        NodeId { arena: node_arena_tag(self.nodes), index: i as usize }
    }

    /// Every value that a node reads or writes, and every value that goes
    /// into or comes out of the model, is a value of the model; no input is
    /// bound to an initializer.
    pub open spec fn wf(&self) -> bool {
        &&& forall|i: int, j: int|
            0 <= i < self.node_seq().len() && 0 <= j < self.node_seq()[i].inputs@.len()
                ==> self.values.has(#[trigger] self.node_seq()[i].inputs@[j])
        &&& forall|i: int, j: int|
            0 <= i < self.node_seq().len() && 0 <= j < self.node_seq()[i].outputs@.len()
                ==> self.values.has(#[trigger] self.node_seq()[i].outputs@[j])
        &&& forall|k: int| 0 <= k < self.inputs@.len() ==> self.values.has(#[trigger] self.inputs@[k])
        &&& forall|k: int|
            0 <= k < self.outputs@.len() ==> self.values.has(#[trigger] self.outputs@[k])
        &&& forall|k: int|
            0 <= k < self.inputs@.len() ==> !self.inits@.contains_key(#[trigger] self.inputs@[k])
    }

    /// Whether `v` is there before any node runs: an input of the model or a
    /// value bound to an initializer.
    pub open spec fn given(&self, v: ValueId) -> bool {
        self.inits@.contains_key(v) || self.inputs@.contains(v)
    }

    /// Whether one of the nodes `emitted` writes `v`.
    pub open spec fn written(&self, emitted: Seq<NodeId>, v: ValueId) -> bool {
        exists|q: int|
            0 <= q < emitted.len() && (#[trigger] self.node_seq()[emitted[q].index as int]).outputs@.contains(
                v,
            )
    }

    /// Whether a node can read `v` once the nodes `emitted` have run: `v` is
    /// given, or it is a value of the model that one of those nodes writes
    /// and that does not leave the model.
    pub open spec fn available(&self, emitted: Seq<NodeId>, v: ValueId) -> bool {
        self.given(v) || (self.values.has(v) && !self.outputs@.contains(v) && self.written(
            emitted,
            v,
        ))
    }

    /// Whether the node at place `i` can run next after the nodes `emitted`:
    /// it is not deleted, has not run, and can read all its inputs.
    pub open spec fn ready(&self, emitted: Seq<NodeId>, i: int) -> bool {
        &&& !self.node_seq()[i].deleted
        &&& !emitted.contains(self.node_id(i))
        &&& forall|j: int|
            0 <= j < self.node_seq()[i].inputs@.len() ==> self.available(
                emitted,
                #[trigger] self.node_seq()[i].inputs@[j],
            )
    }

    /// The first place from `from` on whose node is ready.
    pub open spec fn first_ready(&self, emitted: Seq<NodeId>, from: int) -> Option<int>
        decreases self.node_seq().len() - from,
    {
        if from < 0 || from >= self.node_seq().len() {
            None
        } else if self.ready(emitted, from) {
            Some(from)
        } else {
            self.first_ready(emitted, from + 1)
        }
    }

    /// The order that comes of running, `fuel` times at most, the first node
    /// that is ready.
    pub open spec fn schedule(&self, emitted: Seq<NodeId>, fuel: nat) -> Seq<NodeId>
        decreases fuel,
    {
        if fuel == 0 {
            emitted
        } else {
            match self.first_ready(emitted, 0) {
                Some(i) => self.schedule(emitted.push(self.node_id(i)), (fuel - 1) as nat),
                None => emitted,
            }
        }
    }

    /// The order in which the nodes run: again and again the first node, in
    /// the order in which the nodes were made, that is ready.
    pub open spec fn topo_order(&self) -> Seq<NodeId> {
        self.schedule(Seq::empty(), self.node_seq().len())
    }

    /// Whether the marks `produced` say, for each value of the model, that
    /// one of the nodes `emitted` writes it.
    spec fn marks_written(&self, produced: Seq<bool>, emitted: Seq<NodeId>) -> bool {
        &&& produced.len() == self.values@.len()
        &&& forall|vi: int|
            0 <= vi < produced.len() ==> (#[trigger] produced[vi] <==> self.written(
                emitted,
                ValueId { arena: self.values.tag(), index: vi as usize },
            ))
    }

    /// See `available`.
    fn value_available(
        &self,
        produced: &Vec<bool>,
        v: ValueId,
        Ghost(emitted): Ghost<Seq<NodeId>>,
    ) -> (b: bool)
        requires
            self.marks_written(produced@, emitted),
        ensures
            b == self.available(emitted, v),
    {
        if value_map_get(&self.inits, v).is_some() || holds_value(&self.inputs, v) {
            return true;
        }
        let tag = self.values.id_at(0).arena;
        if v.arena == tag && v.index < self.values.len() {
            assert(v == (ValueId { arena: self.values.tag(), index: v.index }));
            produced[v.index] && !holds_value(&self.outputs, v)
        } else {
            false
        }
    }

    /// See `ready`.
    fn node_ready(
        &self,
        done: &Vec<bool>,
        produced: &Vec<bool>,
        i: usize,
        Ghost(emitted): Ghost<Seq<NodeId>>,
    ) -> (b: bool)
        requires
            i < self.node_seq().len(),
            done@.len() == self.node_seq().len(),
            done@[i as int] <==> emitted.contains(self.node_id(i as int)),
            self.marks_written(produced@, emitted),
        ensures
            b == self.ready(emitted, i as int),
    {
        let tag = node_arena_next_id(&self.nodes).arena;
        let node = match node_arena_get(&self.nodes, NodeId { arena: tag, index: i }) {
            Some(node) => node,
            None => {
                return false;
            },
        };
        if node.deleted || done[i] {
            return false;
        }
        let mut j: usize = 0;
        while j < node.inputs.len()
            invariant
                j <= node.inputs@.len(),
                *node == self.node_seq()[i as int],
                self.marks_written(produced@, emitted),
                forall|k: int|
                    0 <= k < j ==> self.available(emitted, #[trigger] node.inputs@[k]),
            decreases node.inputs@.len() - j,
        {
            if !self.value_available(produced, node.inputs[j], Ghost(emitted)) {
                return false;
            }
            j += 1;
        }
        true
    }

    /// The order in which the nodes run: again and again the first node, in
    /// the order in which the nodes were made, that is not deleted, has not
    /// run, and reads only values that are given or that a node before it
    /// writes. A value that leaves the model is not handed on.
    pub fn topo_sort_nodes(&self) -> (order: Vec<NodeId>)
        ensures
            order@ == self.topo_order(),
            self.respects_dependencies(order@),
            self.exhaustive(order@),
    {
        let n = node_arena_len(&self.nodes);
        let tag = node_arena_next_id(&self.nodes).arena;
        let nvals = self.values.len();
        let vtag = self.values.id_at(0).arena;
        let mut order: Vec<NodeId> = Vec::new();
        let mut done = no_marks(n);
        let mut produced = no_marks(nvals);
        let mut remaining: usize = n;
        loop
            invariant
                n == self.node_seq().len(),
                tag == node_arena_tag(self.nodes),
                nvals == self.values@.len(),
                vtag == self.values.tag(),
                done@.len() == n,
                remaining == unmarked(done@, n as nat),
                forall|i: int| 0 <= i < n ==> (#[trigger] done@[i] <==> order@.contains(self.node_id(i))),
                self.marks_written(produced@, order@),
                self.topo_order() == self.schedule(order@, remaining as nat),
                self.respects_dependencies(order@),
            ensures
                self.first_ready(order@, 0) is None,
                self.topo_order() == order@,
                self.respects_dependencies(order@),
                n == self.node_seq().len(),
            decreases remaining,
        {
            let mut found: Option<usize> = None;
            let mut i: usize = 0;
            while i < n
                invariant_except_break
                    found is None,
                    self.first_ready(order@, 0) == self.first_ready(order@, i as int),
                invariant
                    i <= n,
                    n == self.node_seq().len(),
                    done@.len() == n,
                    forall|k: int|
                        0 <= k < n ==> (#[trigger] done@[k] <==> order@.contains(self.node_id(k))),
                    self.marks_written(produced@, order@),
                ensures
                    match found {
                        Some(at) => at < n && self.ready(order@, at as int) && self.first_ready(
                            order@,
                            0,
                        ) == Some(at as int),
                        None => self.first_ready(order@, 0) is None,
                    },
                decreases n - i,
            {
                if self.node_ready(&done, &produced, i, Ghost(order@)) {
                    found = Some(i);
                    break;
                }
                i += 1;
            }
            let at = match found {
                Some(at) => at,
                None => {
                    break;
                },
            };
            let ghost before = order@;
            let node = match node_arena_get(&self.nodes, NodeId { arena: tag, index: at }) {
                Some(node) => node,
                None => {
                    break;
                },
            };
            proof {
                assert(self.ready(before, at as int));
                lemma_unmarked_positive(done@, n as nat, at as int);
                lemma_unmarked_update(done@, n as nat, at as int);
            }
            order.push(NodeId { arena: tag, index: at });
            done.set(at, true);
            remaining = remaining - 1;
            proof {
                assert forall|i: int| 0 <= i < n implies (#[trigger] done@[i] <==> order@.contains(
                    self.node_id(i),
                )) by {
                    if i == at {
                        assert(order@[before.len() as int] == self.node_id(i));
                    } else if before.contains(self.node_id(i)) {
                        let q = choose|q: int| 0 <= q < before.len() && before[q] == self.node_id(i);
                        assert(order@[q] == self.node_id(i));
                    } else if order@.contains(self.node_id(i)) {
                        let q = choose|q: int| 0 <= q < order@.len() && order@[q] == self.node_id(i);
                        assert(q < before.len());
                        assert(before[q] == self.node_id(i));
                    }
                }
                assert forall|p: int| 0 <= p < order@.len() implies {
                    &&& (#[trigger] order@[p]).index < self.node_seq().len()
                    &&& order@[p] == self.node_id(order@[p].index as int)
                    &&& self.ready(order@.take(p), order@[p].index as int)
                } by {
                    if p < before.len() {
                        assert(order@.take(p) =~= before.take(p));
                        assert(order@[p] == before[p]);
                    } else {
                        assert(order@.take(p) =~= before);
                    }
                }
            }
            let mut k: usize = 0;
            while k < node.outputs.len()
                invariant
                    k <= node.outputs@.len(),
                    *node == self.node_seq()[at as int],
                    at < n,
                    n == self.node_seq().len(),
                    nvals == self.values@.len(),
                    vtag == self.values.tag(),
                    produced@.len() == nvals,
                    order@ == before.push(NodeId { arena: tag, index: at }),
                    forall|vi: int|
                        0 <= vi < nvals ==> (#[trigger] produced@[vi] <==> (self.written(
                            before,
                            ValueId { arena: vtag, index: vi as usize },
                        ) || exists|j: int|
                            0 <= j < k && node.outputs@[j] == (ValueId {
                                arena: vtag,
                                index: vi as usize,
                            }))),
                decreases node.outputs@.len() - k,
            {
                let v = node.outputs[k];
                if v.arena == vtag && v.index < nvals {
                    produced.set(v.index, true);
                }
                k += 1;
            }
            proof {
                assert forall|vi: int| 0 <= vi < nvals implies (#[trigger] produced@[vi]
                    <==> self.written(order@, ValueId { arena: vtag, index: vi as usize })) by {
                    let v = ValueId { arena: vtag, index: vi as usize };
                    if self.written(before, v) {
                        let q = choose|q: int|
                            0 <= q < before.len() && (#[trigger] self.node_seq()[before[q].index as int]).outputs@.contains(
                                v,
                            );
                        assert(order@[q] == before[q]);
                    }
                    if node.outputs@.contains(v) {
                        assert(order@[before.len() as int].index == at);
                    }
                    if self.written(order@, v) {
                        let q = choose|q: int|
                            0 <= q < order@.len() && (#[trigger] self.node_seq()[order@[q].index as int]).outputs@.contains(
                                v,
                            );
                        if q < before.len() {
                            assert(order@[q] == before[q]);
                        }
                    }
                }
            }
        }
        proof {
            assert forall|i: int| 0 <= i < self.node_seq().len() implies !self.ready(order@, i) by {
                self.lemma_first_ready_none(order@, 0, i);
            }
        }
        order
    }

    /// Whether every entry of `list` is a value of the model.
    fn all_held(&self, list: &Vec<ValueId>) -> (b: bool)
        ensures
            b == (forall|k: int| 0 <= k < list@.len() ==> self.values.has(#[trigger] list@[k])),
    {
        let tag = self.values.id_at(0).arena;
        let len = self.values.len();
        let mut k: usize = 0;
        while k < list.len()
            invariant
                k <= list@.len(),
                tag == self.values.tag(),
                len == self.values@.len(),
                forall|j: int| 0 <= j < k ==> self.values.has(#[trigger] list@[j]),
            decreases list@.len() - k,
        {
            if !(list[k].arena == tag && list[k].index < len) {
                return false;
            }
            k += 1;
        }
        true
    }

    /// Checks that the model is well formed: see `wf`.
    pub fn validate(&self) -> (r: Result<(), SessionError>)
        ensures
            r is Ok <==> self.wf(),
            r is Err ==> r->Err_0 == SessionError::InvalidModel,
    {
        if !self.all_held(&self.inputs) || !self.all_held(&self.outputs) {
            return Err(SessionError::InvalidModel);
        }
        let mut k: usize = 0;
        while k < self.inputs.len()
            invariant
                k <= self.inputs@.len(),
                forall|j: int| 0 <= j < k ==> !self.inits@.contains_key(#[trigger] self.inputs@[j]),
            decreases self.inputs@.len() - k,
        {
            if value_map_get(&self.inits, self.inputs[k]).is_some() {
                return Err(SessionError::InvalidModel);
            }
            k += 1;
        }
        let n = node_arena_len(&self.nodes);
        let tag = node_arena_next_id(&self.nodes).arena;
        let mut i: usize = 0;
        while i < n
            invariant
                i <= n,
                n == self.node_seq().len(),
                tag == node_arena_tag(self.nodes),
                forall|a: int, j: int|
                    0 <= a < i && 0 <= j < self.node_seq()[a].inputs@.len() ==> self.values.has(
                        #[trigger] self.node_seq()[a].inputs@[j],
                    ),
                forall|a: int, j: int|
                    0 <= a < i && 0 <= j < self.node_seq()[a].outputs@.len() ==> self.values.has(
                        #[trigger] self.node_seq()[a].outputs@[j],
                    ),
            decreases n - i,
        {
            match node_arena_get(&self.nodes, NodeId { arena: tag, index: i }) {
                Some(node) => {
                    if !self.all_held(&node.inputs) || !self.all_held(&node.outputs) {
                        return Err(SessionError::InvalidModel);
                    }
                },
                None => {},
            }
            i += 1;
        }
        Ok(())
    }

    /// Whether the node at place `i` reads `v`.
    pub open spec fn reads(&self, i: int, v: ValueId) -> bool {
        0 <= i < self.node_seq().len() && self.node_seq()[i].inputs@.contains(v)
    }

    /// Whether some node reads `v`.
    pub open spec fn is_read(&self, v: ValueId) -> bool {
        exists|i: int| #[trigger] self.reads(i, v)
    }

    /// The nodes that read `v`, among the first `n` nodes.
    pub open spec fn readers(&self, v: ValueId, n: int) -> Set<NodeId> {
        Set::new(
            |id: NodeId| id.index < n && id == self.node_id(id.index as int) && self.reads(
                id.index as int,
                v,
            ),
        )
    }

    /// The nodes that read `v`.
    fn readers_of(&self, v: ValueId) -> (set: FxHashSet<NodeId>)
        ensures
            set@ == self.readers(v, self.node_seq().len() as int),
    {
        let n = node_arena_len(&self.nodes);
        let tag = node_arena_next_id(&self.nodes).arena;
        let mut set: FxHashSet<NodeId> = node_set_new();
        let mut i: usize = 0;
        assert(set@ =~= self.readers(v, 0));
        while i < n
            invariant
                i <= n,
                n == self.node_seq().len(),
                tag == node_arena_tag(self.nodes),
                set@ == self.readers(v, i as int),
            decreases n - i,
        {
            let ghost before = set@;
            match node_arena_get(&self.nodes, NodeId { arena: tag, index: i }) {
                Some(node) => {
                    if holds_value(&node.inputs, v) {
                        node_set_insert(&mut set, NodeId { arena: tag, index: i });
                    }
                },
                None => {},
            }
            assert(set@ =~= self.readers(v, i + 1)) by {
                assert forall|id: NodeId| set@.contains(id) <==> self.readers(v, i + 1).contains(
                    id,
                ) by {
                    assert(before.contains(id) <==> self.readers(v, i as int).contains(id));
                }
            }
            i += 1;
        }
        set
    }

    /// For each value that some node reads, the nodes that read it.
    pub fn get_value_users(&self) -> (users: FxHashMap<ValueId, FxHashSet<NodeId>>)
        ensures
            forall|v: ValueId| #[trigger] users@.contains_key(v) <==> self.is_read(v),
            forall|v: ValueId| #[trigger]
                users@.contains_key(v) ==> users@[v]@ == self.readers(
                    v,
                    self.node_seq().len() as int,
                ),
    {
        let n = node_arena_len(&self.nodes);
        let tag = node_arena_next_id(&self.nodes).arena;
        let mut users: FxHashMap<ValueId, FxHashSet<NodeId>> = value_map_new();
        let mut i: usize = 0;
        while i < n
            invariant
                i <= n,
                n == self.node_seq().len(),
                tag == node_arena_tag(self.nodes),
                forall|v: ValueId| #[trigger]
                    users@.contains_key(v) <==> exists|a: int| a < i && #[trigger] self.reads(a, v),
                forall|v: ValueId| #[trigger]
                    users@.contains_key(v) ==> users@[v]@ == self.readers(v, n as int),
            decreases n - i,
        {
            match node_arena_get(&self.nodes, NodeId { arena: tag, index: i }) {
                Some(node) => {
                    let mut j: usize = 0;
                    while j < node.inputs.len()
                        invariant
                            j <= node.inputs@.len(),
                            i < n,
                            n == self.node_seq().len(),
                            *node == self.node_seq()[i as int],
                            forall|v: ValueId| #[trigger]
                                users@.contains_key(v) <==> ((exists|a: int|
                                    a < i && #[trigger] self.reads(a, v)) || node.inputs@.take(
                                    j as int,
                                ).contains(v)),
                            forall|v: ValueId| #[trigger]
                                users@.contains_key(v) ==> users@[v]@ == self.readers(v, n as int),
                        decreases node.inputs@.len() - j,
                    {
                        let v = node.inputs[j];
                        let ghost before = users@;
                        let ghost done = node.inputs@.take(j as int);
                        let ghost grown = node.inputs@.take(j as int + 1);
                        proof {
                            assert(grown =~= done.push(v));
                            assert forall|w: ValueId| grown.contains(w) <==> (done.contains(w) || w
                                == v) by {
                                if done.contains(w) {
                                    let q = choose|q: int| 0 <= q < done.len() && done[q] == w;
                                    assert(grown[q] == w);
                                }
                                if w == v {
                                    assert(grown[j as int] == w);
                                }
                            }
                        }
                        if value_map_get(&users, v).is_none() {
                            let set = self.readers_of(v);
                            value_map_insert(&mut users, v, set);
                        }
                        proof {
                            assert forall|w: ValueId| #[trigger]
                                users@.contains_key(w) <==> ((exists|a: int|
                                    a < i && #[trigger] self.reads(a, w)) || grown.contains(w)) by {
                                assert(before.contains_key(w) <==> ((exists|a: int|
                                    a < i && #[trigger] self.reads(a, w)) || done.contains(w)));
                            }
                        }
                        j += 1;
                    }
                    proof {
                        assert(node.inputs@.take(node.inputs@.len() as int) =~= node.inputs@);
                        assert forall|v: ValueId| #[trigger]
                            users@.contains_key(v) <==> exists|a: int|
                                a < i + 1 && #[trigger] self.reads(a, v) by {
                            if node.inputs@.contains(v) {
                                assert(self.reads(i as int, v));
                            }
                            if exists|a: int| a < i + 1 && #[trigger] self.reads(a, v) {
                                let a = choose|a: int| a < i + 1 && #[trigger] self.reads(a, v);
                                if a == i {
                                    assert(node.inputs@.contains(v));
                                }
                            }
                        }
                    }
                },
                None => {},
            }
            i += 1;
        }
        proof {
            assert forall|v: ValueId| #[trigger] users@.contains_key(v) <==> self.is_read(v) by {
                if self.is_read(v) {
                    let a = choose|a: int| #[trigger] self.reads(a, v);
                    assert(a < n && self.reads(a, v));
                }
            }
        }
        users
    }

    /// Where no node from `from` on is the first ready one, none is ready.
    pub proof fn lemma_first_ready_none(&self, emitted: Seq<NodeId>, from: int, i: int)
        requires
            0 <= from <= i < self.node_seq().len(),
            self.first_ready(emitted, from) is None,
        ensures
            !self.ready(emitted, i),
        decreases i - from,
    {
        if from < i {
            self.lemma_first_ready_none(emitted, from + 1, i);
        }
    }

    /// Whether `order` runs each node after the nodes that write what it
    /// reads: every entry names a node of the model that is not deleted, no
    /// node comes twice, and each node can read all its inputs once the
    /// nodes before it have run.
    pub open spec fn respects_dependencies(&self, order: Seq<NodeId>) -> bool {
        forall|p: int|
            0 <= p < order.len() ==> {
                &&& (#[trigger] order[p]).index < self.node_seq().len()
                &&& order[p] == self.node_id(order[p].index as int)
                &&& self.ready(order.take(p), order[p].index as int)
            }
    }

    /// Whether `order` leaves out no node that could still run.
    pub open spec fn exhaustive(&self, order: Seq<NodeId>) -> bool {
        forall|i: int| 0 <= i < self.node_seq().len() ==> !self.ready(order, i)
    }
}

/// Whether `w` is in `b` the value that `v` is in `a`: the value at the same
/// place of the model's own arena.
pub open spec fn twin_value(a: &Model, b: &Model, v: ValueId, w: ValueId) -> bool {
    v.arena == a.values.tag() && w.arena == b.values.tag() && v.index == w.index
}

/// Whether `t` lists in `b` the values that `s` lists in `a`.
pub open spec fn twin_values(a: &Model, b: &Model, s: Seq<ValueId>, t: Seq<ValueId>) -> bool {
    s.len() == t.len() && forall|k: int|
        0 <= k < s.len() ==> twin_value(a, b, #[trigger] s[k], t[k])
}

/// Whether `a` and `b` are built alike, each in its own arenas: as many
/// values and nodes, each node deleted or not alike and reading and writing
/// the values at the same places, the same places for the inputs and the
/// outputs of the model, and initializers for the values at the same places.
pub open spec fn alike(a: &Model, b: &Model) -> bool {
    &&& a.node_seq().len() == b.node_seq().len()
    &&& a.values@.len() == b.values@.len()
    &&& forall|i: int|
        0 <= i < a.node_seq().len() ==> (#[trigger] a.node_seq()[i]).deleted
            == b.node_seq()[i].deleted && twin_values(
            a,
            b,
            a.node_seq()[i].inputs@,
            b.node_seq()[i].inputs@,
        ) && twin_values(a, b, a.node_seq()[i].outputs@, b.node_seq()[i].outputs@)
    &&& twin_values(a, b, a.inputs@, b.inputs@)
    &&& twin_values(a, b, a.outputs@, b.outputs@)
    &&& forall|v: ValueId, w: ValueId| #[trigger]
        twin_value(a, b, v, w) ==> (a.inits@.contains_key(v) <==> b.inits@.contains_key(w))
}

/// Whether `t` names in `b` the nodes at the places of those that `s` names
/// in `a`.
pub open spec fn twin_orders(a: &Model, b: &Model, s: Seq<NodeId>, t: Seq<NodeId>) -> bool {
    s.len() == t.len() && forall|q: int|
        0 <= q < s.len() ==> (#[trigger] s[q]).index == t[q].index && s[q].index
            < a.node_seq().len() && s[q] == a.node_id(s[q].index as int) && t[q] == b.node_id(
            t[q].index as int,
        )
}

/// Twin lists hold twin values.
proof fn lemma_twin_contains(
    a: &Model,
    b: &Model,
    s: Seq<ValueId>,
    t: Seq<ValueId>,
    v: ValueId,
    w: ValueId,
)
    requires
        twin_values(a, b, s, t),
        twin_value(a, b, v, w),
    ensures
        s.contains(v) <==> t.contains(w),
{
    if s.contains(v) {
        let k = choose|k: int| 0 <= k < s.len() && s[k] == v;
        assert(twin_value(a, b, s[k], t[k]));
        assert(t[k] == w);
    }
    if t.contains(w) {
        let k = choose|k: int| 0 <= k < t.len() && t[k] == w;
        assert(twin_value(a, b, s[k], t[k]));
        assert(s[k] == v);
    }
}

/// In models built alike, twin values are available after twin orders
/// alike.
proof fn lemma_twin_available(
    a: &Model,
    b: &Model,
    ea: Seq<NodeId>,
    eb: Seq<NodeId>,
    v: ValueId,
    w: ValueId,
)
    requires
        alike(a, b),
        twin_orders(a, b, ea, eb),
        twin_value(a, b, v, w),
    ensures
        a.available(ea, v) <==> b.available(eb, w),
{
    lemma_twin_contains(a, b, a.inputs@, b.inputs@, v, w);
    lemma_twin_contains(a, b, a.outputs@, b.outputs@, v, w);
    assert(a.inits@.contains_key(v) <==> b.inits@.contains_key(w));
    assert(a.values.has(v) <==> b.values.has(w));
    if a.written(ea, v) {
        let q = choose|q: int|
            0 <= q < ea.len() && (#[trigger] a.node_seq()[ea[q].index as int]).outputs@.contains(v);
        let i = ea[q].index as int;
        assert(eb[q].index == i);
        assert(a.node_seq()[i].deleted == b.node_seq()[i].deleted);
        lemma_twin_contains(a, b, a.node_seq()[i].outputs@, b.node_seq()[i].outputs@, v, w);
        assert(b.node_seq()[eb[q].index as int].outputs@.contains(w));
    }
    if b.written(eb, w) {
        let q = choose|q: int|
            0 <= q < eb.len() && (#[trigger] b.node_seq()[eb[q].index as int]).outputs@.contains(w);
        let i = eb[q].index as int;
        assert(ea[q].index == i);
        assert(a.node_seq()[i].deleted == b.node_seq()[i].deleted);
        lemma_twin_contains(a, b, a.node_seq()[i].outputs@, b.node_seq()[i].outputs@, v, w);
        assert(a.node_seq()[ea[q].index as int].outputs@.contains(v));
    }
}

/// In models built alike, the nodes at one place are ready after twin
/// orders alike.
proof fn lemma_twin_ready(a: &Model, b: &Model, ea: Seq<NodeId>, eb: Seq<NodeId>, i: int)
    requires
        alike(a, b),
        twin_orders(a, b, ea, eb),
        0 <= i < a.node_seq().len(),
    ensures
        a.ready(ea, i) <==> b.ready(eb, i),
{
    let na = a.node_seq()[i];
    let nb = b.node_seq()[i];
    assert(na.deleted == nb.deleted);
    assert(twin_values(a, b, na.inputs@, nb.inputs@));
    if ea.contains(a.node_id(i)) {
        let q = choose|q: int| 0 <= q < ea.len() && ea[q] == a.node_id(i);
        assert(eb[q].index == ea[q].index);
        assert(eb[q] == b.node_id(i));
    }
    if eb.contains(b.node_id(i)) {
        let q = choose|q: int| 0 <= q < eb.len() && eb[q] == b.node_id(i);
        assert(ea[q].index == eb[q].index);
        assert(ea[q] == a.node_id(i));
    }
    assert forall|j: int| 0 <= j < na.inputs@.len() implies (a.available(ea, na.inputs@[j])
        <==> b.available(eb, nb.inputs@[j])) by {
        assert(twin_value(a, b, na.inputs@[j], nb.inputs@[j]));
        lemma_twin_available(a, b, ea, eb, na.inputs@[j], nb.inputs@[j]);
    }
    if a.ready(ea, i) {
        assert forall|j: int| 0 <= j < nb.inputs@.len() implies b.available(
            eb,
            #[trigger] nb.inputs@[j],
        ) by {
            assert(a.available(ea, na.inputs@[j]));
        }
    }
    if b.ready(eb, i) {
        assert forall|j: int| 0 <= j < na.inputs@.len() implies a.available(
            ea,
            #[trigger] na.inputs@[j],
        ) by {
            assert(b.available(eb, nb.inputs@[j]));
        }
    }
}

/// In models built alike, the first ready node after twin orders is at the
/// same place, which is a place of a node.
proof fn lemma_twin_first_ready(a: &Model, b: &Model, ea: Seq<NodeId>, eb: Seq<NodeId>, from: int)
    requires
        alike(a, b),
        twin_orders(a, b, ea, eb),
        0 <= from,
    ensures
        a.first_ready(ea, from) == b.first_ready(eb, from),
        a.first_ready(ea, from) is Some ==> from <= a.first_ready(ea, from)->0
            < a.node_seq().len(),
    decreases a.node_seq().len() - from,
{
    if from < a.node_seq().len() {
        lemma_twin_ready(a, b, ea, eb, from);
        if !a.ready(ea, from) {
            lemma_twin_first_ready(a, b, ea, eb, from + 1);
        }
    }
}

/// In models built alike, running on from twin orders gives twin orders.
proof fn lemma_twin_schedule(a: &Model, b: &Model, ea: Seq<NodeId>, eb: Seq<NodeId>, fuel: nat)
    requires
        alike(a, b),
        twin_orders(a, b, ea, eb),
    ensures
        twin_orders(a, b, a.schedule(ea, fuel), b.schedule(eb, fuel)),
    decreases fuel,
{
    if fuel > 0 {
        lemma_twin_first_ready(a, b, ea, eb, 0);
        match a.first_ready(ea, 0) {
            Some(i) => {
                let na = ea.push(a.node_id(i));
                let nb = eb.push(b.node_id(i));
                assert forall|q: int| 0 <= q < na.len() implies (#[trigger] na[q]).index
                    == nb[q].index && na[q].index < a.node_seq().len() && na[q] == a.node_id(
                    na[q].index as int,
                ) && nb[q] == b.node_id(nb[q].index as int) by {
                    if q < ea.len() {
                        assert(na[q] == ea[q] && nb[q] == eb[q]);
                    }
                }
                lemma_twin_schedule(a, b, na, nb, (fuel - 1) as nat);
            },
            None => {},
        }
    }
}

/// Two models built alike, each in its own arenas, run the nodes at the
/// same places in the same order.
pub proof fn lemma_alike_models_run_alike(a: &Model, b: &Model)
    requires
        alike(a, b),
    ensures
        twin_orders(a, b, a.topo_order(), b.topo_order()),
{
    lemma_twin_schedule(a, b, Seq::empty(), Seq::empty(), a.node_seq().len());
}

} // verus!
