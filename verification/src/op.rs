//! Shape inference over a whole model.

use crate::dim::shape_fits;
use crate::error::SessionError;
use crate::model::{value_map_get, value_map_insert, value_map_keys, value_map_new, Model};
use crate::node::{node_arena_get, node_arena_len, node_arena_next_id, Node, NodeId};
use crate::shape::{infer_output, inferred, tensor_views};
use crate::tensor::{row_major_strides, Tensor, TensorElemType, TensorView, TypedShape};
use crate::value::ValueId;
use rustc_hash::FxHashMap;
use vstd::prelude::*;

verus! {

/// The shape and element type of each value that is known so far.
pub type ShapeMap = Map<ValueId, (Seq<usize>, TensorElemType)>;

/// A tensor of the given shape and type that holds no bytes.
pub open spec fn shape_only(shape: (Seq<usize>, TensorElemType)) -> TensorView {
    TensorView {
        dims: shape.0,
        strides: row_major_strides(shape.0),
        elem_ty: shape.1,
        bytes: Seq::empty(),
    }
}

/// How an operator sees the value `v`: as its initializer if it has one,
/// else as a tensor of its known shape that holds no bytes.
pub open spec fn seen(model: &Model, known: ShapeMap, v: ValueId) -> Option<TensorView> {
    if model.inits@.contains_key(v) {
        Some(model.inits@[v]@)
    } else if known.contains_key(v) {
        Some(shape_only(known[v]))
    } else {
        None
    }
}

/// How an operator sees the inputs of `node`, if all of them are known.
pub open spec fn inputs_seen(model: &Model, known: ShapeMap, node: Node) -> Option<
    Seq<TensorView>,
> {
    if forall|j: int| 0 <= j < node.inputs@.len() ==> (#[trigger] seen(model, known, node.inputs@[j])) is Some {
        Some(Seq::new(node.inputs@.len(), |j: int| seen(model, known, node.inputs@[j])->0))
    } else {
        None
    }
}

/// What is known after the node `id`: the shape of its first output is
/// added. The model is invalid if `id` names none of its nodes; shape
/// inference fails if an input is not known, if the operator rejects its
/// inputs, or if the output is too large for the machine.
pub open spec fn after_node(model: &Model, known: ShapeMap, id: NodeId) -> Result<
    ShapeMap,
    SessionError,
> {
    if !(id.index < model.node_seq().len() && id == model.node_id(id.index as int)) {
        Err(SessionError::InvalidModel)
    } else {
        let node = model.node_seq()[id.index as int];
        match inputs_seen(model, known, node) {
            None => Err(SessionError::ShapeInference),
            Some(views) => match inferred(node.op, views) {
                Err(e) => Err(e),
                Ok(out) => if node.outputs@.len() == 0 {
                    Ok(known)
                } else if shape_fits(out.dims) {
                    Ok(known.insert(node.outputs@[0], (out.dims, out.elem_ty)))
                } else {
                    Err(SessionError::ShapeInference)
                },
            },
        }
    }
}

/// What is known after the first `n` nodes of `order`.
pub open spec fn after_nodes(model: &Model, known: ShapeMap, order: Seq<NodeId>, n: nat) -> Result<
    ShapeMap,
    SessionError,
>
    decreases n,
{
    if n == 0 {
        Ok(known)
    } else {
        match after_nodes(model, known, order, (n - 1) as nat) {
            Ok(known) => after_node(model, known, order[n - 1]),
            Err(e) => Err(e),
        }
    }
}

/// What the first `n` inputs of the model declare. The model is invalid if
/// an input is none of its values; shape inference fails if an input
/// declares no shape or one that is too large for the machine.
pub open spec fn declared(model: &Model, n: nat) -> Result<ShapeMap, SessionError>
    decreases n,
{
    if n == 0 {
        Ok(Map::empty())
    } else {
        match declared(model, (n - 1) as nat) {
            Ok(known) => {
                let id = model.inputs@[n - 1];
                if !model.values.has(id) {
                    Err(SessionError::InvalidModel)
                } else {
                    match model.values@[id.index as int].shape {
                        Some(shape) => if shape_fits(shape.dims@) {
                            Ok(known.insert(id, shape@))
                        } else {
                            Err(SessionError::ShapeInference)
                        },
                        None => Err(SessionError::ShapeInference),
                    }
                }
            },
            Err(e) => Err(e),
        }
    }
}

/// The shape of every value: that of its initializer if it has one, else
/// the known one.
pub open spec fn all_shapes(model: &Model, known: ShapeMap) -> ShapeMap {
    Map::new(
        |v: ValueId| model.inits@.contains_key(v) || known.contains_key(v),
        |v: ValueId|
            if model.inits@.contains_key(v) {
                (model.inits@[v]@.dims, model.inits@[v]@.elem_ty)
            } else {
                known[v]
            },
    )
}

/// The shapes that inference gives to the values of `model` when its nodes
/// are taken in `order`: those that the inputs declare, those of the
/// initializers, and for each node the shape of its first output.
pub open spec fn inferred_shapes(model: &Model, order: Seq<NodeId>) -> Result<
    ShapeMap,
    SessionError,
> {
    match declared(model, model.inputs@.len()) {
        Ok(known) => match after_nodes(model, known, order, order.len()) {
            Ok(known) => Ok(all_shapes(model, known)),
            Err(e) => Err(e),
        },
        Err(e) => Err(e),
    }
}

/// Whether `scratch` and `shapes` hold what is `known`: a tensor without
/// bytes and a shape for each value.
spec fn holds_known(
    scratch: Map<ValueId, Tensor>,
    shapes: Map<ValueId, TypedShape>,
    known: ShapeMap,
) -> bool {
    &&& forall|v: ValueId| scratch.contains_key(v) <==> known.contains_key(v)
    &&& forall|v: ValueId| shapes.contains_key(v) <==> known.contains_key(v)
    &&& forall|v: ValueId| #[trigger]
        known.contains_key(v) ==> scratch[v]@ == shape_only(known[v]) && shapes[v]@ == known[v]
}

/// Records the shape `shape` for the value `id`.
fn record(
    scratch: &mut FxHashMap<ValueId, Tensor>,
    shapes: &mut FxHashMap<ValueId, TypedShape>,
    id: ValueId,
    shape: TypedShape,
    Ghost(known): Ghost<ShapeMap>,
)
    requires
        holds_known(old(scratch)@, old(shapes)@, known),
        shape_fits(shape.dims@),
    ensures
        holds_known(final(scratch)@, final(shapes)@, known.insert(id, shape@)),
{
    let tensor = Tensor::empty_of_type(shape.elem_ty, shape.dims.duplicate());
    assert(tensor@ =~= shape_only(shape@)) by {
        assert(tensor@.bytes =~= Seq::<u8>::empty());
    }
    value_map_insert(scratch, id, tensor);
    value_map_insert(shapes, id, shape);
}

/// A failure among the first inputs is the failure of all.
proof fn lemma_declared_fails(model: &Model, k: nat, n: nat)
    requires
        k <= n,
        declared(model, k) is Err,
    ensures
        declared(model, n) == declared(model, k),
    decreases n,
{
    if k < n {
        lemma_declared_fails(model, k, (n - 1) as nat);
    }
}

/// A failure among the first nodes is the failure of all.
proof fn lemma_after_nodes_fails(model: &Model, known: ShapeMap, order: Seq<NodeId>, k: nat, n: nat)
    requires
        k <= n,
        after_nodes(model, known, order, k) is Err,
    ensures
        after_nodes(model, known, order, n) == after_nodes(model, known, order, k),
    decreases n,
{
    if k < n {
        lemma_after_nodes_fails(model, known, order, k, (n - 1) as nat);
    }
}

/// Records what the input at place `k` declares.
fn declare_input(
    model: &Model,
    scratch: &mut FxHashMap<ValueId, Tensor>,
    shapes: &mut FxHashMap<ValueId, TypedShape>,
    k: usize,
    Ghost(known): Ghost<ShapeMap>,
) -> (r: Result<Ghost<ShapeMap>, SessionError>)
    requires
        k < model.inputs@.len(),
        declared(model, k as nat) == Ok::<ShapeMap, SessionError>(known),
        holds_known(old(scratch)@, old(shapes)@, known),
    ensures
        match declared(model, (k + 1) as nat) {
            Ok(next) => r is Ok && r->Ok_0@ == next && holds_known(
                final(scratch)@,
                final(shapes)@,
                next,
            ),
            Err(e) => r is Err && r->Err_0 == e,
        },
{
    let id = model.inputs[k];
    let shape = match model.values.get(id) {
        Some(value) => match &value.shape {
            Some(shape) => shape,
            None => {
                return Err(SessionError::ShapeInference);
            },
        },
        None => {
            return Err(SessionError::InvalidModel);
        },
    };
    if !shape.dims.fits_usize() {
        return Err(SessionError::ShapeInference);
    }
    let copy = TypedShape::new(shape.dims.duplicate(), shape.elem_ty);
    record(scratch, shapes, id, copy, Ghost(known));
    Ok(Ghost(known.insert(id, shape@)))
}

/// Infers and records the shape of the first output of the node `id`.
fn infer_node(
    model: &Model,
    scratch: &mut FxHashMap<ValueId, Tensor>,
    shapes: &mut FxHashMap<ValueId, TypedShape>,
    id: NodeId,
    Ghost(known): Ghost<ShapeMap>,
) -> (r: Result<Ghost<ShapeMap>, SessionError>)
    requires
        holds_known(old(scratch)@, old(shapes)@, known),
    ensures
        match after_node(model, known, id) {
            Ok(next) => r is Ok && r->Ok_0@ == next && holds_known(
                final(scratch)@,
                final(shapes)@,
                next,
            ),
            Err(e) => r is Err && r->Err_0 == e,
        },
{
    let n = node_arena_len(&model.nodes);
    let tag = node_arena_next_id(&model.nodes).arena;
    if !(id.arena == tag && id.index < n) {
        return Err(SessionError::InvalidModel);
    }
    let node = match node_arena_get(&model.nodes, id) {
        Some(node) => node,
        None => {
            return Err(SessionError::InvalidModel);
        },
    };
    let mut inputs: Vec<&Tensor> = Vec::new();
    let mut j: usize = 0;
    while j < node.inputs.len()
        invariant
            j <= node.inputs@.len(),
            inputs@.len() == j,
            id.index < model.node_seq().len(),
            id == model.node_id(id.index as int),
            *node == model.node_seq()[id.index as int],
            holds_known(scratch@, shapes@, known),
            forall|i: int|
                0 <= i < j ==> (#[trigger] seen(model, known, node.inputs@[i])) == Some(inputs@[i]@),
        decreases node.inputs@.len() - j,
    {
        let v = node.inputs[j];
        let tensor = match value_map_get(&model.inits, v) {
            Some(tensor) => tensor,
            None => match value_map_get(&*scratch, v) {
                Some(tensor) => {
                    assert(known.contains_key(v));
                    tensor
                },
                None => {
                    assert(seen(model, known, node.inputs@[j as int]) is None);
                    return Err(SessionError::ShapeInference);
                },
            },
        };
        inputs.push(tensor);
        j += 1;
    }
    assert(inputs_seen(model, known, *node) is Some);
    assert(tensor_views(inputs@) =~= inputs_seen(model, known, *node)->Some_0);
    let shape = match infer_output(&node.op, inputs.as_slice()) {
        Ok((shape, _)) => shape,
        Err(e) => {
            return Err(e);
        },
    };
    if node.outputs.len() == 0 {
        return Ok(Ghost(known));
    }
    if !shape.dims.fits_usize() {
        return Err(SessionError::ShapeInference);
    }
    let out = node.outputs[0];
    let ghost recorded = shape@;
    record(scratch, shapes, out, shape, Ghost(known));
    Ok(Ghost(known.insert(out, recorded)))
}

/// Whether `shapes` holds what is `known` and, of the initializers `keys`,
/// their shapes in place of what is known.
spec fn holds_shapes(
    model: &Model,
    shapes: Map<ValueId, TypedShape>,
    known: ShapeMap,
    keys: Seq<ValueId>,
) -> bool {
    &&& forall|v: ValueId| #[trigger]
        shapes.contains_key(v) <==> (known.contains_key(v) || keys.contains(v))
    &&& forall|v: ValueId| #[trigger]
        shapes.contains_key(v) ==> shapes[v]@ == if keys.contains(v) {
            (model.inits@[v]@.dims, model.inits@[v]@.elem_ty)
        } else {
            known[v]
        }
}

/// Adds the shape of each initializer to `shapes`.
fn add_initializers(
    model: &Model,
    shapes: &mut FxHashMap<ValueId, TypedShape>,
    Ghost(known): Ghost<ShapeMap>,
)
    requires
        holds_shapes(model, old(shapes)@, known, Seq::empty()),
    ensures
        forall|v: ValueId|
            final(shapes)@.contains_key(v) <==> all_shapes(model, known).contains_key(v),
        forall|v: ValueId| #[trigger]
            all_shapes(model, known).contains_key(v) ==> final(shapes)@[v]@ == all_shapes(
                model,
                known,
            )[v],
{
    let keys = value_map_keys(&model.inits);
    let mut k: usize = 0;
    assert(keys@.take(0) =~= Seq::<ValueId>::empty());
    while k < keys.len()
        invariant
            k <= keys@.len(),
            forall|id: ValueId| keys@.contains(id) <==> model.inits@.contains_key(id),
            holds_shapes(model, shapes@, known, keys@.take(k as int)),
        decreases keys@.len() - k,
    {
        let id = keys[k];
        let ghost before = shapes@;
        let ghost done = keys@.take(k as int);
        let ghost grown = keys@.take(k as int + 1);
        assert(keys@.contains(id));
        assert(grown =~= done.push(id));
        assert forall|v: ValueId| grown.contains(v) <==> (done.contains(v) || v == id) by {
            if done.contains(v) {
                let q = choose|q: int| 0 <= q < done.len() && done[q] == v;
                assert(grown[q] == v);
            }
            if v == id {
                assert(grown[k as int] == v);
            }
        }
        match value_map_get(&model.inits, id) {
            Some(tensor) => {
                let shape = TypedShape::new(tensor.dims().duplicate(), tensor.elem_ty());
                value_map_insert(shapes, id, shape);
            },
            None => {},
        }
        proof {
            assert forall|v: ValueId| #[trigger]
                shapes@.contains_key(v) <==> (known.contains_key(v) || grown.contains(v)) by {
                assert(before.contains_key(v) <==> (known.contains_key(v) || done.contains(v)));
            }
            assert forall|v: ValueId| #[trigger] shapes@.contains_key(v) implies shapes@[v]@
                == if grown.contains(v) {
                (model.inits@[v]@.dims, model.inits@[v]@.elem_ty)
            } else {
                known[v]
            } by {
                if v != id {
                    assert(before.contains_key(v));
                }
            }
        }
        k += 1;
    }
    proof {
        assert(keys@.take(keys@.len() as int) =~= keys@);
        let all = all_shapes(model, known);
        assert forall|v: ValueId| shapes@.contains_key(v) <==> all.contains_key(v) by {
            assert(shapes@.contains_key(v) <==> (known.contains_key(v) || keys@.contains(v)));
        }
        assert forall|v: ValueId| #[trigger] all.contains_key(v) implies shapes@[v]@ == all[v] by {
            assert(shapes@.contains_key(v) <==> (known.contains_key(v) || keys@.contains(v)));
        }
    }
}

/// Propagates shapes from the inputs and initializers of `model` to every
/// value, node by node in `order`.
pub fn infer_shapes(model: &Model, order: &[NodeId]) -> (r: Result<
    FxHashMap<ValueId, TypedShape>,
    SessionError,
>)
    ensures
        match inferred_shapes(model, order@) {
            Ok(all) => {
                &&& r is Ok
                &&& forall|v: ValueId| r->Ok_0@.contains_key(v) <==> all.contains_key(v)
                &&& forall|v: ValueId| #[trigger] all.contains_key(v) ==> r->Ok_0@[v]@ == all[v]
            },
            Err(e) => r is Err && r->Err_0 == e,
        },
{
    let mut scratch: FxHashMap<ValueId, Tensor> = value_map_new();
    let mut shapes: FxHashMap<ValueId, TypedShape> = value_map_new();
    let ghost mut known: ShapeMap = Map::empty();
    let mut k: usize = 0;
    while k < model.inputs.len()
        invariant
            k <= model.inputs@.len(),
            declared(model, k as nat) == Ok::<ShapeMap, SessionError>(known),
            holds_known(scratch@, shapes@, known),
        decreases model.inputs@.len() - k,
    {
        match declare_input(model, &mut scratch, &mut shapes, k, Ghost(known)) {
            Ok(next) => {
                proof {
                    known = next@;
                }
            },
            Err(e) => {
                proof {
                    lemma_declared_fails(model, (k + 1) as nat, model.inputs@.len());
                }
                return Err(e);
            },
        }
        k += 1;
    }
    let ghost start = known;
    let mut p: usize = 0;
    while p < order.len()
        invariant
            p <= order@.len(),
            declared(model, model.inputs@.len()) == Ok::<ShapeMap, SessionError>(start),
            after_nodes(model, start, order@, p as nat) == Ok::<ShapeMap, SessionError>(known),
            holds_known(scratch@, shapes@, known),
        decreases order@.len() - p,
    {
        match infer_node(model, &mut scratch, &mut shapes, order[p], Ghost(known)) {
            Ok(next) => {
                proof {
                    known = next@;
                }
            },
            Err(e) => {
                proof {
                    lemma_after_nodes_fails(model, start, order@, (p + 1) as nat, order@.len());
                }
                return Err(e);
            },
        }
        p += 1;
    }
    proof {
        assert forall|v: ValueId| #[trigger] shapes@.contains_key(v) implies shapes@[v]@
            == known[v] by {
            assert(known.contains_key(v));
        }
    }
    add_initializers(model, &mut shapes, Ghost(known));
    Ok(shapes)
}

} // verus!
