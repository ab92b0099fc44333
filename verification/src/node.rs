//! The nodes of a model: the vertices of its graph, and the operators they
//! apply.

use crate::dim::Dimensions;
use crate::tensor::{F32Bits, Tensor, TensorElemType};
use crate::value::ValueId;
use id_arena::{Arena, ArenaBehavior, DefaultArenaBehavior};
pub use crate::shape::compute_output_shapes;
use vstd::prelude::*;

verus! {

/// The identifier of a node: the arena that made it and its place there.
#[derive(Debug, Clone, Copy, PartialEq, Eq, Hash, Structural)]
pub struct NodeId {
    pub arena: u32,
    pub index: usize,
}

pub type NodeArena = Arena<Node>;

/// A vertex of the graph: an operator applied to input values, giving
/// output values.
#[derive(Debug, Clone)]
pub struct Node {
    pub op: Op,
    pub name: Option<String>,
    pub inputs: Vec<ValueId>,
    pub outputs: Vec<ValueId>,
    pub deleted: bool,
}

/// The operators, each with its attributes.
#[derive(Debug, Clone, PartialEq)]
pub enum Op {
    Conv2d(Conv2d),
    Add,
    Sub,
    Mul,
    Div,
    Pow,
    Sqrt,
    ReLU,
    Gelu,
    LeakyReLU(LeakyReLU),
    Sigmoid,
    Erf,
    Clip,
    Softmax(Softmax),
    Cast(Cast),
    MaxPool(MaxPool),
    GlobalAveragePool,
    Reshape,
    Flatten(Flatten),
    Resize(Resize),
    Concat(Concat),
    Transpose(Transpose),
    Squeeze(Squeeze),
    Unsqueeze(Unsqueeze),
    ReduceMin(ReduceMin),
    ReduceMean(ReduceMean),
    Round,
    Exp,
    Loop,
    Tile,
    Slice,
    Gather(Gather),
    Shape(Shape),
    NonMaxSuppression,
    MatMul,
    Gemm(Gemm),
    BatchNormalization(BatchNormalization),
    HardSigmoid(HardSigmoid),
    Constant(Constant),
}

#[derive(Debug, Clone, PartialEq, Eq, Default)]
pub struct Conv2d {
    pub auto_pad: String,
    pub dilations: Dimensions,
    pub group: i64,
    pub kernel_shape: Dimensions,
    pub strides: Dimensions,
    pub padding: Dimensions,
}

#[derive(Debug, Clone, PartialEq, Eq, Default)]
pub struct MaxPool {
    pub auto_pad: String,
    pub kernel_shape: Dimensions,
    pub strides: Dimensions,
    pub padding: Dimensions,
}

#[derive(Debug, Clone, PartialEq, Eq)]
pub struct HardSigmoid {
    pub alpha: F32Bits,
    pub beta: F32Bits,
}

#[derive(Debug, Clone, PartialEq, Eq)]
pub struct LeakyReLU {
    pub alpha: F32Bits,
}

#[derive(Debug, Clone, PartialEq, Eq, Default)]
pub struct Softmax {
    pub axis: i64,
}

#[derive(Debug, Clone, PartialEq, Eq)]
pub struct Cast {
    pub to: TensorElemType,
}

#[derive(Debug, Clone, PartialEq, Eq, Default)]
pub struct Flatten {
    pub axis: i64,
}

#[derive(Debug, Clone, PartialEq, Eq)]
pub struct Resize {
    pub coordinate_transformation_mode: String,
    pub cubic_coeff_a: F32Bits,
    pub exclude_outside: i64,
    pub extrapolation_value: F32Bits,
    pub mode: String,
    pub nearest_mode: String,
}

#[derive(Debug, Clone, PartialEq, Eq, Default)]
pub struct Concat {
    pub axis: i64,
}

#[derive(Debug, Clone, PartialEq, Eq, Default)]
pub struct Transpose {
    pub perm: Vec<i64>,
}

#[derive(Debug, Clone, PartialEq, Eq, Default)]
pub struct Squeeze {
    pub axes: Vec<i64>,
}

#[derive(Debug, Clone, PartialEq, Eq, Default)]
pub struct Unsqueeze {
    pub axes: Vec<i64>,
}

#[derive(Debug, Clone, PartialEq, Eq, Default)]
pub struct ReduceMin {
    pub axes: Vec<i64>,
    pub keep_dims: bool,
}

#[derive(Debug, Clone, PartialEq, Eq, Default)]
pub struct ReduceMean {
    pub axes: Vec<i64>,
    pub keep_dims: bool,
}

#[derive(Debug, Clone, PartialEq, Eq, Default)]
pub struct Gather {
    pub axis: i64,
}

#[derive(Debug, Clone, PartialEq, Eq, Default)]
pub struct Shape {
    pub end: Option<i64>,
    pub start: i64,
}

#[derive(Debug, Clone, PartialEq, Eq)]
pub struct Gemm {
    pub alpha: F32Bits,
    pub beta: F32Bits,
    pub trans_a: bool,
    pub trans_b: bool,
}

#[derive(Debug, Clone, PartialEq, Eq)]
pub struct BatchNormalization {
    pub epsilon: F32Bits,
    pub momentum: F32Bits,
    pub training_mode: bool,
}

#[derive(Debug, Clone, PartialEq, Eq)]
pub struct Constant {
    pub value: Tensor,
}

/// The nodes that an arena holds, in the order in which they were made.
pub uninterp spec fn node_arena_items(arena: Arena<Node>) -> Seq<Node>;

/// The number by which an arena tells its own identifiers from those of
/// other arenas.
pub uninterp spec fn node_arena_tag(arena: Arena<Node>) -> u32;

/// `Arena::alloc`: appends `node` to the arena and returns the identifier
/// made of the arena's tag and the place of `node`. The tag stays.
#[verifier::external_body]
fn node_arena_alloc(arena: &mut Arena<Node>, node: Node) -> (id: NodeId)
    ensures
        node_arena_items(*final(arena)) == node_arena_items(*old(arena)).push(node),
        node_arena_tag(*final(arena)) == node_arena_tag(*old(arena)),
        id.arena == node_arena_tag(*old(arena)),
        id.index == node_arena_items(*old(arena)).len(),
{
    let id = arena.alloc(node);
    NodeId { arena: DefaultArenaBehavior::<Node>::arena_id(id), index: id.index() }
}

/// `Arena::get`: the node at the place that `id` names, if `id` carries the
/// arena's tag and the arena holds that many nodes.
#[verifier::external_body]
pub(crate) fn node_arena_get(arena: &Arena<Node>, id: NodeId) -> (node: Option<&Node>)
    ensures
        node.is_some() == (id.arena == node_arena_tag(*arena) && id.index < node_arena_items(
            *arena,
        ).len()),
        node.is_some() ==> *node.unwrap() == node_arena_items(*arena)[id.index as int],
{
    arena.get(DefaultArenaBehavior::<Node>::new_id(id.arena, id.index))
}

/// `Arena::len`: the number of nodes in the arena.
#[verifier::external_body]
pub(crate) fn node_arena_len(arena: &Arena<Node>) -> (n: usize)
    ensures
        n == node_arena_items(*arena).len(),
{
    arena.len()
}

/// `Arena::next_id`: the identifier that the next node will get.
#[verifier::external_body]
pub(crate) fn node_arena_next_id(arena: &Arena<Node>) -> (id: NodeId)
    ensures
        id.arena == node_arena_tag(*arena),
        id.index == node_arena_items(*arena).len(),
{
    let id = arena.next_id();
    NodeId { arena: DefaultArenaBehavior::<Node>::arena_id(id), index: id.index() }
}

/// `Arena::new`: an arena that holds nothing.
#[verifier::external_body]
pub(crate) fn node_arena_new() -> (arena: Arena<Node>)
    ensures
        node_arena_items(arena) == Seq::<Node>::empty(),
{
    Arena::new()
}

impl Node {
    pub const CONV2D_IN: usize = 0;
    pub const CONV2D_WEIGHT: usize = 1;
    pub const CONV2D_BIAS: usize = 2;
    pub const CONV2D_OUT: usize = 0;

    pub const ADD_IN_A: usize = 0;
    pub const ADD_IN_B: usize = 1;
    pub const ADD_OUT: usize = 0;

    pub const SUB_IN_A: usize = 0;
    pub const SUB_IN_B: usize = 1;
    pub const SUB_OUT: usize = 0;

    pub const MUL_IN_A: usize = 0;
    pub const MUL_IN_B: usize = 1;
    pub const MUL_OUT: usize = 0;

    pub const DIV_IN_A: usize = 0;
    pub const DIV_IN_B: usize = 1;
    pub const DIV_OUT: usize = 0;

    pub const RELU_IN: usize = 0;
    pub const RELU_OUT: usize = 0;

    pub const LEAKYRELU_IN: usize = 0;
    pub const LEAKYRELU_OUT: usize = 0;

    pub const SIGMOID_IN: usize = 0;
    pub const SIGMOID_OUT: usize = 0;

    pub const CLIP_IN: usize = 0;
    pub const CLIP_OUT: usize = 0;

    pub const CAST_IN: usize = 0;
    pub const CAST_OUT: usize = 0;

    pub const ROUND_IN: usize = 0;
    pub const ROUND_OUT: usize = 0;

    pub const EXP_IN: usize = 0;
    pub const EXP_OUT: usize = 0;

    pub const MAXPOOL_IN: usize = 0;
    pub const MAXPOOL_OUT: usize = 0;

    pub const GLOBALAVERAGEPOOL_IN: usize = 0;
    pub const GLOBALAVERAGEPOOL_OUT: usize = 0;

    pub const RESHAPE_IN: usize = 0;
    pub const RESHAPE_SHAPE: usize = 1;
    pub const RESHAPE_OUT: usize = 0;

    pub const FLATTEN_IN: usize = 0;
    pub const FLATTEN_OUT: usize = 0;

    pub const RESIZE_IN_X: usize = 0;
    pub const RESIZE_IN_ROI: usize = 1;
    pub const RESIZE_IN_SCALES: usize = 2;
    pub const RESIZE_IN_SIZES: usize = 3;
    pub const RESIZE_OUT: usize = 0;

    pub const CONCAT_IN: usize = 0;
    pub const CONCAT_OUT: usize = 0;

    pub const TRANSPOSE_IN: usize = 0;
    pub const TRANSPOSE_OUT: usize = 0;

    pub const SQUEEZE_IN: usize = 0;
    pub const SQUEEZE_OUT: usize = 0;

    pub const UNSQUEEZE_IN: usize = 0;
    pub const UNSQUEEZE_OUT: usize = 0;

    pub const REDUCEMIN_IN: usize = 0;
    pub const REDUCEMIN_OUT: usize = 0;

    pub const TILE_IN: usize = 0;
    pub const TILE_REPEATS: usize = 1;
    pub const TILE_OUT: usize = 0;

    pub const SLICE_IN_DATA: usize = 0;
    pub const SLICE_IN_STARTS: usize = 1;
    pub const SLICE_IN_ENDS: usize = 2;
    pub const SLICE_IN_AXES: usize = 3;
    pub const SLICE_IN_STEPS: usize = 4;
    pub const SLICE_OUT: usize = 0;

    pub const NMS_IN_BOXES: usize = 0;
    pub const NMS_IN_SCORES: usize = 1;
    pub const NMS_IN_MAX_OUTPUT_BOXES_PER_CLASS: usize = 2;
    pub const NMS_IN_NMS_IOU_THRESHOLD: usize = 3;
    pub const NMS_IN_NMS_SCORE_THRESHOLD: usize = 4;
    pub const NMS_OUT: usize = 0;

    pub const MATMUL_IN_A: usize = 0;
    pub const MATMUL_IN_B: usize = 1;
    pub const MATMUL_OUT: usize = 0;

    pub const GEMM_IN_A: usize = 0;
    pub const GEMM_IN_B: usize = 1;
    pub const GEMM_IN_C: usize = 2;
    pub const GEMM_OUT: usize = 0;

    pub const BATCHNORM_IN_X: usize = 0;
    pub const BATCHNORM_IN_SCALE: usize = 1;
    pub const BATCHNORM_IN_B: usize = 2;
    pub const BATCHNORM_IN_INPUT_MEAN: usize = 3;
    pub const BATCHNORM_IN_INPUT_VAR: usize = 4;
    pub const BATCHNORM_OUT_Y: usize = 0;

    pub const HARDSIGMOID_IN: usize = 0;
    pub const HARDSIGMOID_OUT: usize = 0;

    /// A node that applies `op`, without a name, inputs or outputs.
    pub fn new(op: Op) -> (node: Self)
        ensures
            node.op == op,
            node.name is None,
            node.inputs@ == Seq::<ValueId>::empty(),
            node.outputs@ == Seq::<ValueId>::empty(),
            !node.deleted,
    {
        Self { op, name: None, inputs: Vec::new(), outputs: Vec::new(), deleted: false }
    }

    pub fn with_name(self, name: Option<String>) -> (node: Self)
        ensures
            node == (Node { name, ..self }),
    {
        let mut node = self;
        node.name = name;
        node
    }

    /// Adds `id` as the last input.
    pub fn with_in(self, id: ValueId) -> (node: Self)
        ensures
            node.inputs@ == self.inputs@.push(id),
            node.op == self.op,
            node.name == self.name,
            node.outputs == self.outputs,
            node.deleted == self.deleted,
    {
        let mut node = self;
        node.inputs.push(id);
        node
    }

    /// Adds `ids` after the inputs.
    pub fn with_ins(self, ids: Vec<ValueId>) -> (node: Self)
        ensures
            node.inputs@ == self.inputs@ + ids@,
            node.op == self.op,
            node.name == self.name,
            node.outputs == self.outputs,
            node.deleted == self.deleted,
    {
        let mut node = self;
        let mut ids = ids;
        node.inputs.append(&mut ids);
        node
    }

    /// Adds `id` as the last output.
    pub fn with_out(self, id: ValueId) -> (node: Self)
        ensures
            node.outputs@ == self.outputs@.push(id),
            node.op == self.op,
            node.name == self.name,
            node.inputs == self.inputs,
            node.deleted == self.deleted,
    {
        let mut node = self;
        node.outputs.push(id);
        node
    }

    /// Adds `ids` after the outputs.
    pub fn with_outs(self, ids: Vec<ValueId>) -> (node: Self)
        ensures
            node.outputs@ == self.outputs@ + ids@,
            node.op == self.op,
            node.name == self.name,
            node.inputs == self.inputs,
            node.deleted == self.deleted,
    {
        let mut node = self;
        let mut ids = ids;
        node.outputs.append(&mut ids);
        node
    }

    /// Puts the node into `arena` and returns the identifier it got there.
    pub fn allocate(self, arena: &mut NodeArena) -> (id: NodeId)
        ensures
            node_arena_items(*final(arena)) == node_arena_items(*old(arena)).push(self),
            node_arena_tag(*final(arena)) == node_arena_tag(*old(arena)),
            id == (NodeId {
                arena: node_arena_tag(*old(arena)),
                index: node_arena_items(*old(arena)).len() as usize,
            }),
    {
        node_arena_alloc(arena, self)
    }
}

impl Op {
    /// The name of the operator.
    pub open spec fn spec_name(self) -> Seq<char> {
        match self {
            Op::Conv2d(_) => "Conv2d"@,
            Op::Add => "Add"@,
            Op::Sub => "Sub"@,
            Op::Mul => "Mul"@,
            Op::Div => "Div"@,
            Op::Pow => "Pow"@,
            Op::Sqrt => "Sqrt"@,
            Op::ReLU => "ReLU"@,
            Op::Gelu => "Gelu"@,
            Op::LeakyReLU(_) => "LeakyReLU"@,
            Op::Sigmoid => "Sigmoid"@,
            Op::Erf => "Erf"@,
            Op::Clip => "Clip"@,
            Op::Softmax(_) => "Softmax"@,
            Op::Cast(_) => "Cast"@,
            Op::MaxPool(_) => "MaxPool"@,
            Op::GlobalAveragePool => "GlobalAveragePool"@,
            Op::Reshape => "Reshape"@,
            Op::Flatten(_) => "Flatten"@,
            Op::Resize(_) => "Resize"@,
            Op::Concat(_) => "Concat"@,
            Op::Transpose(_) => "Transpose"@,
            Op::Squeeze(_) => "Squeeze"@,
            Op::Unsqueeze(_) => "Unsqueeze"@,
            Op::ReduceMin(_) => "ReduceMin"@,
            Op::ReduceMean(_) => "ReduceMean"@,
            Op::Round => "Round"@,
            Op::Exp => "Exp"@,
            Op::Loop => "Loop"@,
            Op::Tile => "Tile"@,
            Op::Slice => "Slice"@,
            Op::Gather(_) => "Gather"@,
            Op::Shape(_) => "Shape"@,
            Op::NonMaxSuppression => "NonMaxSuppression"@,
            Op::MatMul => "MatMul"@,
            Op::Gemm(_) => "Gemm"@,
            Op::BatchNormalization(_) => "BatchNormalization"@,
            Op::HardSigmoid(_) => "HardSigmoid"@,
            Op::Constant(_) => "Constant"@,
        }
    }

    pub fn name(&self) -> (name: &'static str)
        ensures
            name@ == self.spec_name(),
    {
        match self {
            Op::Conv2d(_) => "Conv2d",
            Op::Add => "Add",
            Op::Sub => "Sub",
            Op::Mul => "Mul",
            Op::Div => "Div",
            Op::Pow => "Pow",
            Op::Sqrt => "Sqrt",
            Op::ReLU => "ReLU",
            Op::Gelu => "Gelu",
            Op::LeakyReLU(_) => "LeakyReLU",
            Op::Sigmoid => "Sigmoid",
            Op::Erf => "Erf",
            Op::Clip => "Clip",
            Op::Softmax(_) => "Softmax",
            Op::Cast(_) => "Cast",
            Op::MaxPool(_) => "MaxPool",
            Op::GlobalAveragePool => "GlobalAveragePool",
            Op::Reshape => "Reshape",
            Op::Flatten(_) => "Flatten",
            Op::Resize(_) => "Resize",
            Op::Concat(_) => "Concat",
            Op::Transpose(_) => "Transpose",
            Op::Squeeze(_) => "Squeeze",
            Op::Unsqueeze(_) => "Unsqueeze",
            Op::ReduceMin(_) => "ReduceMin",
            Op::ReduceMean(_) => "ReduceMean",
            Op::Round => "Round",
            Op::Exp => "Exp",
            Op::Loop => "Loop",
            Op::Tile => "Tile",
            Op::Slice => "Slice",
            Op::Gather(_) => "Gather",
            Op::Shape(_) => "Shape",
            Op::NonMaxSuppression => "NonMaxSuppression",
            Op::MatMul => "MatMul",
            Op::Gemm(_) => "Gemm",
            Op::BatchNormalization(_) => "BatchNormalization",
            Op::HardSigmoid(_) => "HardSigmoid",
            Op::Constant(_) => "Constant",
        }
    }
}

} // verus!
