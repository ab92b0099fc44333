//! The execution plan: the order of the nodes and, for each node, the values
//! that nothing needs once it has run.

use crate::error::SessionError;
use crate::model::{value_map_get, value_map_insert, value_map_new, Model};
use crate::node::{node_arena_get, node_arena_len, node_arena_next_id, Node, NodeId};
use crate::value::{holds_value, ValueId};
use rustc_hash::FxHashMap;
use vstd::prelude::*;

verus! {

/// One step of the plan: a node, and the values to drop after it.
#[derive(Debug, Clone)]
pub struct NodeExecutionPlan {
    /// The node to run.
    pub node_id: NodeId,
    /// The values that this node is the last to read.
    pub free_vals: Vec<ValueId>,
}

/// Whether every entry of `order` names a node of `model`.
pub open spec fn names_nodes(model: &Model, order: Seq<NodeId>) -> bool {
    forall|p: int|
        0 <= p < order.len() ==> (#[trigger] order[p]).index < model.node_seq().len() && order[p]
            == model.node_id(order[p].index as int)
}

/// The node at place `p` of `order`.
pub open spec fn node_at(model: &Model, order: Seq<NodeId>, p: int) -> Node {
    model.node_seq()[order[p].index as int]
}

/// Whether a node at place `from` of `order` or later reads `v`.
pub open spec fn read_from(model: &Model, order: Seq<NodeId>, from: int, v: ValueId) -> bool {
    exists|q: int| from <= q < order.len() && (#[trigger] node_at(model, order, q)).inputs@.contains(v)
}

/// Whether the node at place `p` of `order` is the last to read `v`, and
/// `v` can be dropped after it: it does not leave the model, and it is not
/// bound to an initializer.
pub open spec fn last_use(model: &Model, order: Seq<NodeId>, p: int, v: ValueId) -> bool {
    &&& node_at(model, order, p).inputs@.contains(v)
    &&& !read_from(model, order, p + 1, v)
    &&& !model.outputs@.contains(v)
    &&& !model.inits@.contains_key(v)
}

/// Whether `plan` is the plan of `order`: it runs the nodes in that order,
/// and the values it drops after a node are those that the node is the last
/// to read, each once.
pub open spec fn plans(model: &Model, order: Seq<NodeId>, plan: Seq<NodeExecutionPlan>) -> bool {
    &&& plan.len() == order.len()
    &&& forall|p: int| 0 <= p < plan.len() ==> plan_at(model, order, p, #[trigger] plan[p])
}

/// Whether `step` is the step at place `p` of the plan of `order`.
pub open spec fn plan_at(model: &Model, order: Seq<NodeId>, p: int, step: NodeExecutionPlan) -> bool {
    &&& step.node_id == order[p]
    &&& step.free_vals@.no_duplicates()
    &&& forall|v: ValueId| #[trigger] step.free_vals@.contains(v) <==> last_use(model, order, p, v)
}

/// The values that the node at place `p` is the last to read, and the marks
/// of all values read from place `p` on.
fn free_after(
    model: &Model,
    order: &[NodeId],
    p: usize,
    later: &mut FxHashMap<ValueId, bool>,
) -> (free: Vec<ValueId>)
    requires
        names_nodes(model, order@),
        p < order@.len(),
        forall|v: ValueId| #[trigger]
            old(later)@.contains_key(v) <==> read_from(model, order@, p + 1, v),
    ensures
        forall|v: ValueId| #[trigger]
            final(later)@.contains_key(v) <==> read_from(model, order@, p as int, v),
        free@.no_duplicates(),
        forall|v: ValueId| #[trigger] free@.contains(v) <==> last_use(model, order@, p as int, v),
{
    let mut free: Vec<ValueId> = Vec::new();
    let node = match node_arena_get(&model.nodes, order[p]) {
        Some(node) => node,
        None => {
            return free;
        },
    };
    assert(*node == node_at(model, order@, p as int));
    let ghost start = later@;
    let mut j: usize = 0;
    while j < node.inputs.len()
        invariant
            j <= node.inputs@.len(),
            p < order@.len(),
            *node == node_at(model, order@, p as int),
            forall|v: ValueId| #[trigger]
                start.contains_key(v) <==> read_from(model, order@, p + 1, v),
            forall|v: ValueId| #[trigger]
                later@.contains_key(v) <==> (start.contains_key(v) || node.inputs@.take(
                    j as int,
                ).contains(v)),
            free@.no_duplicates(),
            forall|v: ValueId| #[trigger]
                free@.contains(v) <==> (node.inputs@.take(j as int).contains(v)
                    && !start.contains_key(v) && !model.outputs@.contains(v)
                    && !model.inits@.contains_key(v)),
        decreases node.inputs@.len() - j,
    {
        let v = node.inputs[j];
        let ghost done = node.inputs@.take(j as int);
        let ghost grown = node.inputs@.take(j as int + 1);
        let ghost marks = later@;
        let ghost freed = free@;
        proof {
            assert(grown =~= done.push(v));
            assert forall|w: ValueId| grown.contains(w) <==> (done.contains(w) || w == v) by {
                if done.contains(w) {
                    let q = choose|q: int| 0 <= q < done.len() && done[q] == w;
                    assert(grown[q] == w);
                }
                if w == v {
                    assert(grown[j as int] == w);
                }
            }
        }
        if value_map_get(&*later, v).is_none() {
            if !holds_value(&model.outputs, v) && value_map_get(&model.inits, v).is_none() {
                free.push(v);
                proof {
                    assert(!freed.contains(v));
                    assert forall|w: ValueId| free@.contains(w) <==> (freed.contains(w) || w
                        == v) by {
                        if freed.contains(w) {
                            let q = choose|q: int| 0 <= q < freed.len() && freed[q] == w;
                            assert(free@[q] == w);
                        }
                        if w == v {
                            assert(free@[freed.len() as int] == w);
                        }
                    }
                }
            }
            value_map_insert(later, v, true);
        }
        proof {
            assert forall|w: ValueId| #[trigger]
                later@.contains_key(w) <==> (start.contains_key(w) || grown.contains(w)) by {
                assert(marks.contains_key(w) <==> (start.contains_key(w) || done.contains(w)));
            }
            assert forall|w: ValueId| #[trigger]
                free@.contains(w) <==> (grown.contains(w) && !start.contains_key(w)
                    && !model.outputs@.contains(w) && !model.inits@.contains_key(w)) by {
                assert(freed.contains(w) <==> (done.contains(w) && !start.contains_key(w)
                    && !model.outputs@.contains(w) && !model.inits@.contains_key(w)));
                assert(marks.contains_key(v) <==> (start.contains_key(v) || done.contains(v)));
            }
        }
        j += 1;
    }
    proof {
        assert(node.inputs@.take(node.inputs@.len() as int) =~= node.inputs@);
        assert forall|v: ValueId| #[trigger]
            later@.contains_key(v) <==> read_from(model, order@, p as int, v) by {
            assert(start.contains_key(v) <==> read_from(model, order@, p + 1, v));
            if node.inputs@.contains(v) {
                assert(node_at(model, order@, p as int).inputs@.contains(v));
            }
            if read_from(model, order@, p + 1, v) {
                let q = choose|q: int|
                    p + 1 <= q < order@.len() && (#[trigger] node_at(model, order@, q)).inputs@.contains(
                        v,
                    );
                assert(node_at(model, order@, q).inputs@.contains(v));
            }
            if read_from(model, order@, p as int, v) {
                let q = choose|q: int|
                    p <= q < order@.len() && (#[trigger] node_at(model, order@, q)).inputs@.contains(
                        v,
                    );
                if q > p {
                    assert(node_at(model, order@, q).inputs@.contains(v));
                }
            }
        }
        assert forall|v: ValueId| #[trigger] free@.contains(v) <==> last_use(
            model,
            order@,
            p as int,
            v,
        ) by {
            assert(start.contains_key(v) <==> read_from(model, order@, p + 1, v));
        }
    }
    free
}

/// The plan of `order`: for each node the values that can be dropped once
/// it has run. Found by going through the order from its end and keeping,
/// at each node, the values read there that no later node reads, that do
/// not leave the model and that are not bound to an initializer. The model
/// is invalid if an entry of `order` names none of its nodes.
pub fn create_execution_plan(model: &Model, order: &[NodeId]) -> (r: Result<
    Vec<NodeExecutionPlan>,
    SessionError,
>)
    ensures
        r is Ok <==> names_nodes(model, order@),
        r is Ok ==> plans(model, order@, r->Ok_0@),
        r is Err ==> r->Err_0 == SessionError::InvalidModel,
{
    let n = order.len();
    let nodes = node_arena_len(&model.nodes);
    let tag = node_arena_next_id(&model.nodes).arena;
    let mut plan: Vec<NodeExecutionPlan> = Vec::new();
    let mut i: usize = 0;
    while i < n
        invariant
            i <= n,
            n == order@.len(),
            nodes == model.node_seq().len(),
            tag == model.node_id(0).arena,
            plan@.len() == i,
            forall|p: int|
                0 <= p < i ==> (#[trigger] order@[p]).index < model.node_seq().len() && order@[p]
                    == model.node_id(order@[p].index as int),
        decreases n - i,
    {
        if !(order[i].arena == tag && order[i].index < nodes) {
            assert(!(order@[i as int].index < model.node_seq().len() && order@[i as int]
                == model.node_id(order@[i as int].index as int)));
            return Err(SessionError::InvalidModel);
        }
        plan.push(NodeExecutionPlan { node_id: order[i], free_vals: Vec::new() });
        i += 1;
    }
    let mut later: FxHashMap<ValueId, bool> = value_map_new();
    let mut p: usize = n;
    assert forall|v: ValueId| #[trigger]
        later@.contains_key(v) <==> read_from(model, order@, n as int, v) by {}
    while p > 0
        invariant
            p <= n,
            n == order@.len(),
            plan@.len() == n,
            names_nodes(model, order@),
            forall|v: ValueId| #[trigger]
                later@.contains_key(v) <==> read_from(model, order@, p as int, v),
            forall|q: int| p <= q < n ==> plan_at(model, order@, q, #[trigger] plan@[q]),
        decreases p,
    {
        p -= 1;
        let free = free_after(model, order, p, &mut later);
        plan.set(p, NodeExecutionPlan { node_id: order[p], free_vals: free });
    }
    Ok(plan)
}

} // verus!
