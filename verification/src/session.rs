//! The interpreter session: what is worked out once for a model, and the
//! bookkeeping of a run. The kernels themselves are not part of the
//! session: a run hands out one node at a time with its inputs and with
//! room for its outputs, and takes the outputs back.

use crate::dim::{elem_count, shape_fits};
use crate::error::SessionError;
use crate::model::{value_map_get, value_map_insert, value_map_new, value_map_remove, Model};
use crate::node::{node_arena_get, Node, NodeId};
use crate::op::{infer_shapes, inferred_shapes};
use crate::plan::{create_execution_plan, plans, NodeExecutionPlan};
use crate::tensor::{Tensor, TypedShape};
use crate::value::{holds_value, ValueId};
use rustc_hash::FxHashMap;
use vstd::prelude::*;

verus! {

/// Collects the settings of an interpreter session.
pub struct InterpreterSessionBuilder {
    pub model: Model,
    pub intra_op_num_threads: usize,
    pub enable_profiling: bool,
}

/// A model with all that is worked out before it runs.
pub struct InterpreterSession {
    pub model: Model,
    /// The nodes in the order in which they run, each with the values to
    /// drop after it.
    pub execution_plans: Vec<NodeExecutionPlan>,
    /// The shape and element type of each value.
    pub inferred_shapes: FxHashMap<ValueId, TypedShape>,
    pub enable_profiling: bool,
    pub intra_op_num_threads: usize,
}

/// The state of a run: the tensors bound to values, and the place in the
/// plan of the node that runs next.
pub struct RunState {
    pub values: FxHashMap<ValueId, Tensor>,
    pub next: usize,
}

/// A node that is ready to run: its inputs in the order of its positions,
/// and a tensor for each output that has an inferred shape.
pub struct NodeCall {
    pub node_id: NodeId,
    pub inputs: Vec<Tensor>,
    pub outputs: Vec<Tensor>,
}

/// Whether work is done on the calling thread rather than handed to the
/// worker pool: so it is with one thread.
pub fn runs_inline(num_threads: usize) -> (inline: bool)
    ensures
        inline == (num_threads == 1),
{
    num_threads == 1
}

impl InterpreterSessionBuilder {
    /// A builder for a session on `model`, with one thread and without
    /// profiling.
    pub fn new(model: Model) -> (builder: Self)
        ensures
            builder.model == model,
            builder.intra_op_num_threads == 1,
            !builder.enable_profiling,
    {
        Self { model, intra_op_num_threads: 1, enable_profiling: false }
    }

    pub fn with_intra_op_num_threads(self, intra_op_num_threads: usize) -> (builder: Self)
        ensures
            builder == (InterpreterSessionBuilder { intra_op_num_threads, ..self }),
    {
        let mut builder = self;
        builder.intra_op_num_threads = intra_op_num_threads;
        builder
    }

    pub fn with_profiling_enabled(self, enable_profiling: bool) -> (builder: Self)
        ensures
            builder == (InterpreterSessionBuilder { enable_profiling, ..self }),
    {
        let mut builder = self;
        builder.enable_profiling = enable_profiling;
        builder
    }

    /// Orders the nodes, infers the shapes and plans the run. Fails as shape
    /// inference fails.
    pub fn build(self) -> (r: Result<InterpreterSession, SessionError>)
        ensures
            match inferred_shapes(&self.model, self.model.topo_order()) {
                Ok(all) => {
                    &&& r is Ok
                    &&& r->Ok_0.model == self.model
                    &&& r->Ok_0.enable_profiling == self.enable_profiling
                    &&& r->Ok_0.intra_op_num_threads == self.intra_op_num_threads
                    &&& plans(&self.model, self.model.topo_order(), r->Ok_0.execution_plans@)
                    &&& forall|v: ValueId|
                        r->Ok_0.inferred_shapes@.contains_key(v) <==> all.contains_key(v)
                    &&& forall|v: ValueId| #[trigger]
                        all.contains_key(v) ==> r->Ok_0.inferred_shapes@[v]@ == all[v]
                },
                Err(e) => r is Err && r->Err_0 == e,
            },
    {
        let sorted_nodes = self.model.topo_sort_nodes();
        let inferred_shapes = match infer_shapes(&self.model, sorted_nodes.as_slice()) {
            Ok(shapes) => shapes,
            Err(e) => {
                return Err(e);
            },
        };
        let execution_plans = match create_execution_plan(&self.model, sorted_nodes.as_slice()) {
            Ok(plans) => plans,
            Err(e) => {
                return Err(e);
            },
        };
        Ok(
            InterpreterSession {
                model: self.model,
                execution_plans,
                inferred_shapes,
                enable_profiling: self.enable_profiling,
                intra_op_num_threads: self.intra_op_num_threads,
            },
        )
    }
}

/// Whether one of `feeds` is for the value `v`.
pub open spec fn fed(feeds: Seq<(ValueId, Tensor)>, v: ValueId) -> bool {
    exists|k: int| 0 <= k < feeds.len() && (#[trigger] feeds[k]).0 == v
}

/// The values that `feeds` bind.
pub open spec fn fed_keys(feeds: Seq<(ValueId, Tensor)>) -> Set<ValueId> {
    Set::new(|v: ValueId| fed(feeds, v))
}

/// Whether `values` binds what the first `n` of `feeds` feed: exactly the
/// values fed, each to the tensor of the last feed for it.
pub open spec fn binds_feeds(feeds: Seq<(ValueId, Tensor)>, n: int, values: Map<ValueId, Tensor>) -> bool {
    &&& forall|v: ValueId| #[trigger]
        values.contains_key(v) <==> exists|k: int| 0 <= k < n && (#[trigger] feeds[k]).0 == v
    &&& forall|k: int|
        0 <= k < n && (forall|l: int| k < l < n ==> (#[trigger] feeds[l]).0 != feeds[k].0)
            ==> values[(#[trigger] feeds[k]).0]@ == feeds[k].1@
}

/// Whether `outputs` answer `call`: as many tensors as `call` has room for,
/// each of the shape and type of that room, and each holding exactly its
/// elements.
pub open spec fn answers(call: NodeCall, outputs: Seq<Tensor>) -> bool {
    &&& outputs.len() == call.outputs@.len()
    &&& forall|j: int|
        0 <= j < outputs.len() ==> (#[trigger] outputs[j])@.dims == call.outputs@[j]@.dims
            && outputs[j]@.elem_ty == call.outputs@[j]@.elem_ty && outputs[j]@.complete()
}

/// The number of outputs of `node` that get a tensor: the first, if there
/// is one.
pub open spec fn handed_out(node: Node) -> nat {
    if node.outputs@.len() == 0 {
        0
    } else {
        1
    }
}

impl InterpreterSession {
    /// Whether `tensor` has the shape and the element type inferred for `v`
    /// and holds exactly the elements of that shape.
    pub open spec fn fits(&self, v: ValueId, tensor: Tensor) -> bool {
        &&& self.inferred_shapes@.contains_key(v)
        &&& tensor@.dims == self.inferred_shapes@[v].dims@
        &&& tensor@.elem_ty == self.inferred_shapes@[v].elem_ty
        &&& tensor@.complete()
    }

    /// Whether `tensor` has the shape and the element type that the model
    /// declares for its value `v`.
    pub open spec fn declares(&self, v: ValueId, tensor: Tensor) -> bool {
        &&& self.model.values.has(v)
        &&& self.model.values@[v.index as int].shape is Some
        &&& tensor@.dims == self.model.values@[v.index as int].shape->0.dims@
        &&& tensor@.elem_ty == self.model.values@[v.index as int].shape->0.elem_ty
    }

    /// Whether `tensor` can be fed for `v`: `v` is an input of the model,
    /// and `tensor` has the shape and the element type declared for it,
    /// which are the inferred ones, and holds exactly its elements.
    pub open spec fn feedable(&self, v: ValueId, tensor: Tensor) -> bool {
        self.model.inputs@.contains(v) && self.declares(v, tensor) && self.fits(v, tensor)
    }

    /// Whether every one of `feeds` can be fed.
    pub open spec fn all_feedable(&self, feeds: Seq<(ValueId, Tensor)>) -> bool {
        forall|k: int| 0 <= k < feeds.len() ==> self.feedable((#[trigger] feeds[k]).0, feeds[k].1)
    }

    /// Whether every tensor bound in `values` has the shape and the element
    /// type inferred for its value and holds exactly its elements.
    pub open spec fn typed(&self, values: Map<ValueId, Tensor>) -> bool {
        forall|v: ValueId| #[trigger] values.contains_key(v) ==> self.fits(v, values[v])
    }

    /// The node at place `p` of the plan.
    pub open spec fn node_step(&self, p: int) -> Node {
        self.model.node_seq()[self.execution_plans@[p].node_id.index as int]
    }

    /// The values bound after the step at place `p`, where `keys` were bound
    /// before it: the first output of the node is bound, and what the node
    /// was the last to read is dropped.
    pub open spec fn keys_after_step(&self, keys: Set<ValueId>, p: int) -> Set<ValueId> {
        Set::new(
            |v: ValueId|
                !self.execution_plans@[p].free_vals@.contains(v) && (keys.contains(v) || (
                self.node_step(p).outputs@.len() > 0 && self.node_step(p).outputs@[0] == v)),
        )
    }

    /// The values bound after the first `p` steps of the plan, where `start`
    /// were bound at first.
    pub open spec fn keys_at(&self, start: Set<ValueId>, p: nat) -> Set<ValueId>
        decreases p,
    {
        if p == 0 {
            start
        } else {
            self.keys_after_step(self.keys_at(start, (p - 1) as nat), p - 1)
        }
    }

    /// Whether the node at place `p` of the plan can be got ready where
    /// `keys` are bound. The model is invalid if the plan names no node of
    /// it or an input of the node is bound to nothing; shape inference is at
    /// fault if the first output has no inferred shape or one too large for
    /// the machine.
    pub open spec fn ready_with(&self, keys: Set<ValueId>, p: int) -> Result<(), SessionError> {
        let id = self.execution_plans@[p].node_id;
        let node = self.model.node_seq()[id.index as int];
        if !(id.index < self.model.node_seq().len() && id == self.model.node_id(id.index as int)) {
            Err(SessionError::InvalidModel)
        } else if !(forall|j: int|
            0 <= j < node.inputs@.len() ==> keys.contains(#[trigger] node.inputs@[j])
                || self.model.inits@.contains_key(node.inputs@[j])) {
            Err(SessionError::InvalidModel)
        } else if node.outputs@.len() > 0 && !(self.inferred_shapes@.contains_key(node.outputs@[0])
            && shape_fits(self.inferred_shapes@[node.outputs@[0]].dims@) && elem_count(
            self.inferred_shapes@[node.outputs@[0]].dims@,
        ) * self.inferred_shapes@[node.outputs@[0]].elem_ty.spec_size() <= usize::MAX) {
            Err(SessionError::ShapeInference)
        } else {
            Ok(())
        }
    }

    /// Whether the next node of the plan can be got ready: see `ready_with`.
    pub open spec fn preparation(&self, state: &RunState) -> Result<(), SessionError> {
        self.ready_with(state.values@.dom(), state.next as int)
    }

    /// Whether each output of the model can be gathered where `keys` are
    /// bound: it is bound, or it has an initializer of the inferred shape
    /// and type.
    pub open spec fn gatherable(&self, keys: Set<ValueId>) -> bool {
        forall|k: int|
            0 <= k < self.model.outputs@.len() ==> keys.contains(#[trigger] self.model.outputs@[k])
                || (self.model.inits@.contains_key(self.model.outputs@[k]) && self.fits(
                self.model.outputs@[k],
                self.model.inits@[self.model.outputs@[k]],
            ))
    }

    /// How a run ends that starts at place `p` of the plan with `start`
    /// bound at first, where every kernel answers its call: with the error
    /// of the first node that cannot be got ready, else with an invalid
    /// model if an output cannot be gathered, else well.
    pub open spec fn outcome_from(&self, start: Set<ValueId>, p: nat) -> Result<(), SessionError>
        decreases self.execution_plans@.len() - p,
    {
        if p >= self.execution_plans@.len() {
            if self.gatherable(self.keys_at(start, self.execution_plans@.len())) {
                Ok(())
            } else {
                Err(SessionError::InvalidModel)
            }
        } else {
            match self.ready_with(self.keys_at(start, p), p as int) {
                Err(e) => Err(e),
                Ok(()) => self.outcome_from(start, p + 1),
            }
        }
    }

    /// See `fits`.
    pub fn tensor_fits(&self, v: ValueId, tensor: &Tensor) -> (b: bool)
        ensures
            b == self.fits(v, *tensor),
    {
        match value_map_get(&self.inferred_shapes, v) {
            Some(shape) => shape.dims.same_as(tensor.dims()) && shape.elem_ty == tensor.elem_ty()
                && tensor.verify(),
            None => false,
        }
    }

    /// See `declares`.
    pub fn tensor_declared(&self, v: ValueId, tensor: &Tensor) -> (b: bool)
        ensures
            b == self.declares(v, *tensor),
    {
        match self.model.values.get(v) {
            Some(value) => match &value.shape {
                Some(shape) => shape.dims.same_as(tensor.dims()) && shape.elem_ty
                    == tensor.elem_ty(),
                None => false,
            },
            None => false,
        }
    }

    /// Starts a run: binds each fed tensor to its value, a later feed for a
    /// value in place of an earlier one. Nothing runs if a tensor is fed for
    /// a value that is no input of the model, if its shape or element type
    /// is not the declared one, or if it does not hold exactly its elements.
    pub fn begin_run(&self, feeds: Vec<(ValueId, Tensor)>) -> (r: Result<RunState, SessionError>)
        ensures
            r is Ok <==> self.all_feedable(feeds@),
            r is Err ==> r->Err_0 == SessionError::FeedMismatch,
            r is Ok ==> r->Ok_0.next == 0 && self.typed(r->Ok_0.values@) && binds_feeds(
                feeds@,
                feeds@.len() as int,
                r->Ok_0.values@,
            ),
    {
        let mut values: FxHashMap<ValueId, Tensor> = value_map_new();
        let mut k: usize = 0;
        while k < feeds.len()
            invariant
                k <= feeds@.len(),
                forall|j: int|
                    0 <= j < k ==> self.feedable((#[trigger] feeds@[j]).0, feeds@[j].1),
                self.typed(values@),
                binds_feeds(feeds@, k as int, values@),
            decreases feeds@.len() - k,
        {
            let id = feeds[k].0;
            let tensor = &feeds[k].1;
            if !holds_value(&self.model.inputs, id) || !self.tensor_declared(id, tensor)
                || !self.tensor_fits(id, tensor) {
                assert(!self.feedable(feeds@[k as int].0, feeds@[k as int].1));
                return Err(SessionError::FeedMismatch);
            }
            let ghost before = values@;
            value_map_insert(&mut values, id, tensor.duplicate());
            proof {
                assert forall|v: ValueId| #[trigger]
                    values@.contains_key(v) <==> exists|j: int|
                        0 <= j < k + 1 && (#[trigger] feeds@[j]).0 == v by {
                    if before.contains_key(v) {
                        let j = choose|j: int| 0 <= j < k && (#[trigger] feeds@[j]).0 == v;
                        assert(0 <= j < k + 1 && feeds@[j].0 == v);
                    }
                    if v == id {
                        assert(feeds@[k as int].0 == v);
                    }
                    if exists|j: int| 0 <= j < k + 1 && (#[trigger] feeds@[j]).0 == v {
                        let j = choose|j: int| 0 <= j < k + 1 && (#[trigger] feeds@[j]).0 == v;
                        if j < k {
                            assert(before.contains_key(v));
                        }
                    }
                }
                assert forall|i: int|
                    0 <= i < k + 1 && (forall|l: int|
                        i < l < k + 1 ==> (#[trigger] feeds@[l]).0 != feeds@[i].0) implies values@[(
                #[trigger] feeds@[i]).0]@ == feeds@[i].1@ by {
                    if i < k {
                        assert(feeds@[k as int].0 != feeds@[i].0);
                        assert(forall|l: int| i < l < k ==> (#[trigger] feeds@[l]).0 != feeds@[i].0);
                    }
                }
            }
            k += 1;
        }
        Ok(RunState { values, next: 0 })
    }

    /// Whether the run has gone through the whole plan.
    pub fn is_done(&self, state: &RunState) -> (b: bool)
        ensures
            b == (state.next >= self.execution_plans@.len()),
    {
        state.next >= self.execution_plans.len()
    }

    /// Gets the next node ready: its inputs, from the tensors bound so far
    /// or from the initializers, and for its first output a tensor of the
    /// inferred shape and type, whose elements are not yet meaningful.
    #[verifier::loop_isolation(false)]
    pub fn prepare_node(&self, state: &RunState) -> (r: Result<NodeCall, SessionError>)
        requires
            state.next < self.execution_plans@.len(),
        ensures
            match self.preparation(state) {
                Ok(()) => r is Ok,
                Err(e) => r is Err && r->Err_0 == e,
            },
            r is Ok ==> {
                let call = r->Ok_0;
                let id = self.execution_plans@[state.next as int].node_id;
                let node = self.model.node_seq()[id.index as int];
                &&& call.node_id == id
                &&& id.index < self.model.node_seq().len()
                &&& id == self.model.node_id(id.index as int)
                &&& call.inputs@.len() == node.inputs@.len()
                &&& forall|j: int|
                    0 <= j < call.inputs@.len() ==> (#[trigger] call.inputs@[j])@ == if state.values@.contains_key(
                        node.inputs@[j],
                    ) {
                        state.values@[node.inputs@[j]]@
                    } else {
                        self.model.inits@[node.inputs@[j]]@
                    }
                &&& call.outputs@.len() == handed_out(node)
                &&& forall|j: int|
                    0 <= j < call.outputs@.len() ==> self.fits(
                        node.outputs@[j],
                        #[trigger] call.outputs@[j],
                    )
            },
    {
        let id = self.execution_plans[state.next].node_id;
        let node = match node_arena_get(&self.model.nodes, id) {
            Some(node) => node,
            None => {
                return Err(SessionError::InvalidModel);
            },
        };
        let mut inputs: Vec<Tensor> = Vec::new();
        let mut j: usize = 0;
        while j < node.inputs.len()
            invariant
                j <= node.inputs@.len(),
                inputs@.len() == j,
                forall|i: int|
                    0 <= i < j ==> state.values@.dom().contains(#[trigger] node.inputs@[i])
                        || self.model.inits@.contains_key(node.inputs@[i]),
                forall|i: int|
                    0 <= i < j ==> (#[trigger] inputs@[i])@ == if state.values@.contains_key(
                        node.inputs@[i],
                    ) {
                        state.values@[node.inputs@[i]]@
                    } else {
                        self.model.inits@[node.inputs@[i]]@
                    },
            decreases node.inputs@.len() - j,
        {
            let v = node.inputs[j];
            let tensor = match value_map_get(&state.values, v) {
                Some(tensor) => tensor,
                None => match value_map_get(&self.model.inits, v) {
                    Some(tensor) => tensor,
                    None => {
                        assert(!(state.values@.dom().contains(node.inputs@[j as int])
                            || self.model.inits@.contains_key(node.inputs@[j as int])));
                        return Err(SessionError::InvalidModel);
                    },
                },
            };
            inputs.push(tensor.duplicate());
            j += 1;
        }
        let mut outputs: Vec<Tensor> = Vec::new();
        if node.outputs.len() > 0 {
            let shape = match value_map_get(&self.inferred_shapes, node.outputs[0]) {
                Some(shape) => shape,
                None => {
                    return Err(SessionError::ShapeInference);
                },
            };
            if !shape.dims.fits_usize() {
                return Err(SessionError::ShapeInference);
            }
            let count = shape.dims.total_elems();
            if count.checked_mul(shape.elem_ty.size()).is_none() {
                return Err(SessionError::ShapeInference);
            }
            outputs.push(Tensor::uninit_of_type(shape.elem_ty, shape.dims.duplicate()));
        }
        Ok(NodeCall { node_id: id, inputs, outputs })
    }

    /// Takes the outputs of the node that ran: binds the output to the first
    /// output value of the node, drops the values that the node was the last
    /// to read, and moves on in the plan. Every other tensor stays bound as
    /// it was. The kernel is at fault, and the state stays as it is, if it
    /// gives another number of outputs than it was handed, or an output that
    /// has another shape or type than the inferred one or does not hold
    /// exactly its elements.
    #[verifier::loop_isolation(false)]
    pub fn finish_node(&self, state: &mut RunState, outputs: Vec<Tensor>) -> (r: Result<
        (),
        SessionError,
    >)
        requires
            old(state).next < self.execution_plans@.len(),
        ensures
            ({
                let p = old(state).next as int;
                let step = self.execution_plans@[p];
                let node = self.node_step(p);
                let named = step.node_id.index < self.model.node_seq().len() && step.node_id
                    == self.model.node_id(step.node_id.index as int);
                let accepted = outputs@.len() == handed_out(node) && forall|j: int|
                    0 <= j < outputs@.len() ==> self.fits(node.outputs@[j], #[trigger] outputs@[j]);
                &&& r is Ok <==> named && accepted
                &&& r is Err ==> *final(state) == *old(state)
                &&& r is Err && !named ==> r->Err_0 == SessionError::InvalidModel
                &&& r is Err && named ==> (r->Err_0 matches SessionError::KernelFailure(name)
                    && name@ == node.op.spec_name())
                &&& r is Ok ==> {
                    &&& final(state).next == old(state).next + 1
                    &&& self.typed(old(state).values@) ==> self.typed(final(state).values@)
                    &&& final(state).values@.dom() == self.keys_after_step(
                        old(state).values@.dom(),
                        p,
                    )
                    &&& forall|v: ValueId| #[trigger]
                        final(state).values@.contains_key(v) ==> final(state).values@[v]@ == if node.outputs@.len()
                            > 0 && node.outputs@[0] == v {
                            outputs@[0]@
                        } else {
                            old(state).values@[v]@
                        }
                }
            }),
    {
        let _steps = self.execution_plans.len();
        let step = &self.execution_plans[state.next];
        let node = match node_arena_get(&self.model.nodes, step.node_id) {
            Some(node) => node,
            None => {
                return Err(SessionError::InvalidModel);
            },
        };
        let handed: usize = if node.outputs.len() == 0 {
            0
        } else {
            1
        };
        if outputs.len() != handed {
            return Err(SessionError::KernelFailure(node.op.name().to_owned()));
        }
        if handed == 1 {
            if !self.tensor_fits(node.outputs[0], &outputs[0]) {
                assert(!self.fits(node.outputs@[0], outputs@[0]));
                return Err(SessionError::KernelFailure(node.op.name().to_owned()));
            }
            value_map_insert(&mut state.values, node.outputs[0], outputs[0].duplicate());
        }
        let ghost bound = state.values@;
        let mut k: usize = 0;
        while k < step.free_vals.len()
            invariant
                k <= step.free_vals@.len(),
                self.typed(old(state).values@) ==> self.typed(state.values@),
                state.next == old(state).next,
                forall|v: ValueId| #[trigger]
                    state.values@.contains_key(v) <==> (bound.contains_key(v)
                        && !step.free_vals@.take(k as int).contains(v)),
                forall|v: ValueId| #[trigger]
                    state.values@.contains_key(v) ==> state.values@[v] == bound[v],
            decreases step.free_vals@.len() - k,
        {
            let v = step.free_vals[k];
            let ghost before = state.values@;
            let ghost done = step.free_vals@.take(k as int);
            let ghost grown = step.free_vals@.take(k as int + 1);
            proof {
                assert(grown =~= done.push(v));
                assert forall|w: ValueId| grown.contains(w) <==> (done.contains(w) || w == v) by {
                    if done.contains(w) {
                        let q = choose|q: int| 0 <= q < done.len() && done[q] == w;
                        assert(grown[q] == w);
                    }
                    if w == v {
                        assert(grown[k as int] == w);
                    }
                }
            }
            value_map_remove(&mut state.values, v);
            proof {
                assert forall|w: ValueId| #[trigger]
                    state.values@.contains_key(w) <==> (bound.contains_key(w) && !grown.contains(
                        w,
                    )) by {
                    assert(before.contains_key(w) <==> (bound.contains_key(w) && !done.contains(w)));
                }
            }
            k += 1;
        }
        proof {
            assert(step.free_vals@.take(step.free_vals@.len() as int) =~= step.free_vals@);
            assert(state.values@.dom() =~= self.keys_after_step(
                old(state).values@.dom(),
                old(state).next as int,
            ));
        }
        state.next = state.next + 1;
        Ok(())
    }

    /// Runs the model on `feeds`: binds the fed tensors, then takes the nodes
    /// in the order of the plan, hands each with its inputs and with room for
    /// its output to `kernel`, binds what `kernel` gives back and drops what
    /// is no longer needed, and at last gathers the outputs of the model.
    ///
    /// A feed that does not match is refused before any node runs. Each
    /// output has the shape and the element type inferred for it and holds
    /// exactly its elements. Where every kernel answers its call, or the
    /// plan is empty, the run ends as `outcome_from` says. Where the first
    /// node cannot be got ready, the run ends with the error of that. Any
    /// other error is a kernel failure or what `kernel` itself gave.
    #[verifier::loop_isolation(false)]
    pub fn run<K: Fn(NodeCall) -> Result<Vec<Tensor>, SessionError>>(
        &self,
        feeds: Vec<(ValueId, Tensor)>,
        kernel: K,
    ) -> (r: Result<Vec<Tensor>, SessionError>)
        requires
            forall|call: NodeCall| kernel.requires((call,)),
        ensures
            r is Ok ==> self.all_feedable(feeds@) && r->Ok_0@.len() == self.model.outputs@.len()
                && forall|k: int|
                0 <= k < r->Ok_0@.len() ==> self.fits(
                    self.model.outputs@[k],
                    #[trigger] r->Ok_0@[k],
                ),
            !self.all_feedable(feeds@) ==> r is Err && r->Err_0 == SessionError::FeedMismatch,
            self.all_feedable(feeds@) && (self.execution_plans@.len() == 0 || forall|
                call: NodeCall,
                out: Result<Vec<Tensor>, SessionError>,
            | #[trigger]
                kernel.ensures((call,), out) ==> out is Ok && answers(call, out->Ok_0@))
                ==> match self.outcome_from(fed_keys(feeds@), 0) {
                Ok(()) => r is Ok,
                Err(e) => r is Err && r->Err_0 == e,
            },
            self.all_feedable(feeds@) && self.execution_plans@.len() > 0 && self.ready_with(
                fed_keys(feeds@),
                0,
            ) is Err ==> r is Err && r->Err_0 == self.ready_with(fed_keys(feeds@), 0)->Err_0,
            r is Err && self.all_feedable(feeds@) ==> r->Err_0 == SessionError::InvalidModel
                || r->Err_0 == SessionError::ShapeInference || r->Err_0 is KernelFailure
                || exists|call: NodeCall| #[trigger]
                kernel.ensures((call,), Err::<Vec<Tensor>, SessionError>(r->Err_0)),
    {
        let ghost start = fed_keys(feeds@);
        let mut state = match self.begin_run(feeds) {
            Ok(state) => state,
            Err(e) => {
                return Err(e);
            },
        };
        let steps = self.execution_plans.len();
        assert(state.values@.dom() =~= start);
        while state.next < steps
            invariant
                steps == self.execution_plans@.len(),
                state.next <= steps,
                self.typed(state.values@),
                state.values@.dom() == self.keys_at(start, state.next as nat),
                self.outcome_from(start, 0) == self.outcome_from(start, state.next as nat),
                state.next > 0 ==> self.ready_with(start, 0) is Ok,
                forall|call: NodeCall| kernel.requires((call,)),
            decreases steps - state.next,
        {
            let ghost p = state.next;
            let call = match self.prepare_node(&state) {
                Ok(call) => call,
                Err(e) => {
                    return Err(e);
                },
            };
            assert(self.ready_with(self.keys_at(start, p as nat), p as int) is Ok);
            let ghost asked = call;
            let outputs = match kernel(call) {
                Ok(outputs) => outputs,
                Err(e) => {
                    assert(kernel.ensures((asked,), Err::<Vec<Tensor>, SessionError>(e)));
                    return Err(e);
                },
            };
            assert(kernel.ensures((asked,), Ok::<Vec<Tensor>, SessionError>(outputs)));
            match self.finish_node(&mut state, outputs) {
                Ok(()) => {},
                Err(e) => {
                    return Err(e);
                },
            }
            assert(self.keys_at(start, (p + 1) as nat) == self.keys_after_step(
                self.keys_at(start, p as nat),
                p as int,
            ));
        }
        proof {
            let keys = state.values@.dom();
            if self.gatherable(keys) {
                assert forall|k: int| 0 <= k < self.model.outputs@.len() implies #[trigger] self.gathered(
                    &state,
                    k,
                ) by {
                    let v = self.model.outputs@[k];
                    assert(keys.contains(v) || (self.model.inits@.contains_key(v) && self.fits(
                        v,
                        self.model.inits@[v],
                    )));
                }
            }
            if forall|k: int|
                0 <= k < self.model.outputs@.len() ==> #[trigger] self.gathered(&state, k) {
                assert forall|k: int| 0 <= k < self.model.outputs@.len() implies keys.contains(
                    #[trigger] self.model.outputs@[k],
                ) || (self.model.inits@.contains_key(self.model.outputs@[k]) && self.fits(
                    self.model.outputs@[k],
                    self.model.inits@[self.model.outputs@[k]],
                )) by {
                    assert(self.gathered(&state, k));
                }
            }
        }
        self.collect_outputs(&state)
    }

    /// Whether the output at place `k` of the model can be gathered: a
    /// tensor of the inferred shape and type is bound to it, or, if none is
    /// bound, it has an initializer of that shape and type.
    pub open spec fn gathered(&self, state: &RunState, k: int) -> bool {
        let v = self.model.outputs@[k];
        if state.values@.contains_key(v) {
            self.fits(v, state.values@[v])
        } else {
            self.model.inits@.contains_key(v) && self.fits(v, self.model.inits@[v])
        }
    }

    /// The outputs of the model, in their order, once the run is through.
    /// Each has the shape and the element type inferred for its value and
    /// holds exactly its elements. The model is invalid if an output is
    /// bound to nothing, or to a tensor that does not fit.
    pub fn collect_outputs(&self, state: &RunState) -> (r: Result<Vec<Tensor>, SessionError>)
        ensures
            r is Ok <==> (forall|k: int|
                0 <= k < self.model.outputs@.len() ==> #[trigger] self.gathered(state, k)),
            r is Ok ==> r->Ok_0@.len() == self.model.outputs@.len() && forall|k: int|
                0 <= k < r->Ok_0@.len() ==> self.fits(
                    self.model.outputs@[k],
                    #[trigger] r->Ok_0@[k],
                ) && r->Ok_0@[k]@ == if state.values@.contains_key(self.model.outputs@[k]) {
                    state.values@[self.model.outputs@[k]]@
                } else {
                    self.model.inits@[self.model.outputs@[k]]@
                },
            r is Err ==> r->Err_0 == SessionError::InvalidModel,
    {
        let mut tensors: Vec<Tensor> = Vec::new();
        let mut k: usize = 0;
        while k < self.model.outputs.len()
            invariant
                k <= self.model.outputs@.len(),
                tensors@.len() == k,
                forall|j: int| 0 <= j < k ==> #[trigger] self.gathered(state, j),
                forall|j: int|
                    0 <= j < k ==> self.fits(self.model.outputs@[j], #[trigger] tensors@[j])
                        && tensors@[j]@ == if state.values@.contains_key(self.model.outputs@[j]) {
                        state.values@[self.model.outputs@[j]]@
                    } else {
                        self.model.inits@[self.model.outputs@[j]]@
                    },
            decreases self.model.outputs@.len() - k,
        {
            let v = self.model.outputs[k];
            let tensor = match value_map_get(&state.values, v) {
                Some(tensor) => tensor,
                None => match value_map_get(&self.model.inits, v) {
                    Some(tensor) => tensor,
                    None => {
                        assert(!self.gathered(state, k as int));
                        return Err(SessionError::InvalidModel);
                    },
                },
            };
            if !self.tensor_fits(v, tensor) {
                assert(!self.gathered(state, k as int));
                return Err(SessionError::InvalidModel);
            }
            tensors.push(tensor.duplicate());
            k += 1;
        }
        Ok(tensors)
    }
}

} // verus!
