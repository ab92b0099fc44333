//! The shape that each operator gives its output.

use crate::dim::{
    broadcast_shape, elem_count, lemma_range_product_agrees, range_product, scalar_shape,
    Dimensions,
};
use crate::error::SessionError;
use crate::node::{Conv2d, MaxPool, Op, Resize};
use crate::tensor::{
    decoded, F32Bits, Tensor, TensorElemType, TensorElemTypeExt, TensorView, TypedShape,
};
use vstd::arithmetic::power2::{
    lemma2_to64, lemma2_to64_rest, lemma_pow2_adds, lemma_pow2_pos, lemma_pow2_strictly_increases,
    lemma_pow2_unfold, pow2,
};
use vstd::prelude::*;

verus! {

/// Whether the text of `s` is `text`.
fn text_is(s: &String, text: &str) -> (b: bool)
    ensures
        b == (s@ == text@),
{
    let owned = text.to_owned();
    *s == owned
}

/// The padding that makes a window of `kernel` extents, moved in steps of
/// `stride`, cover `extent` in `ceil(extent / stride)` steps.
pub open spec fn same_upper_pad(extent: int, stride: int, kernel: int) -> int {
    let steps = (extent + stride - 1) / stride;
    let pad = (steps - 1) * stride + kernel - extent;
    if pad > 0 {
        pad
    } else {
        0
    }
}

/// The number of places that a window of `kernel` extents, `dilation` apart,
/// takes along an axis of `extent` and `pad` extents when moved in steps of
/// `stride`; `None` if the window does not fit even once.
pub open spec fn window_count(extent: int, pad: int, dilation: int, kernel: int, stride: int) -> Option<
    int,
> {
    let span = extent + pad - dilation * (kernel - 1) - 1;
    if span >= 0 {
        Some(span / stride + 1)
    } else {
        None
    }
}

/// The four paddings (top, left, bottom, right) of a window operator: worked
/// out from the input where `auto_pad` asks for it, else the explicit
/// padding, two entries standing for four. `None` if `auto_pad` names a
/// scheme other than `SAME_UPPER`, the explicit padding has neither two nor
/// four entries, or a padding exceeds `usize`.
pub open spec fn resolved_padding(
    auto_pad: Seq<char>,
    padding: Seq<usize>,
    input: Seq<usize>,
    kernel: Seq<usize>,
    strides: Seq<usize>,
) -> Option<Seq<usize>> {
    if auto_pad.len() != 0 && auto_pad != "NOTSET"@ {
        let p0 = same_upper_pad(input[2] as int, strides[0] as int, kernel[0] as int);
        let p1 = same_upper_pad(input[3] as int, strides[1] as int, kernel[1] as int);
        if auto_pad == "SAME_UPPER"@ && p0 - p0 / 2 <= usize::MAX && p1 - p1 / 2 <= usize::MAX {
            Some(
                seq![
                    (p0 / 2) as usize,
                    (p1 / 2) as usize,
                    (p0 - p0 / 2) as usize,
                    (p1 - p1 / 2) as usize,
                ],
            )
        } else {
            None
        }
    } else if padding.len() == 2 {
        Some(seq![padding[0], padding[1], padding[0], padding[1]])
    } else if padding.len() == 4 {
        Some(padding)
    } else {
        None
    }
}

/// The output extents (height, width) of a window operator over an input of
/// shape `[N, C, H, W]` with the paddings `pads`.
pub open spec fn window_output(
    input: Seq<usize>,
    pads: Seq<usize>,
    dilations: Seq<usize>,
    kernel: Seq<usize>,
    strides: Seq<usize>,
) -> Option<(usize, usize)> {
    match (
        window_count(
            input[2] as int,
            pads[0] + pads[2],
            dilations[0] as int,
            kernel[0] as int,
            strides[0] as int,
        ),
        window_count(
            input[3] as int,
            pads[1] + pads[3],
            dilations[1] as int,
            kernel[1] as int,
            strides[1] as int,
        ),
    ) {
        (Some(h), Some(w)) => if h <= usize::MAX && w <= usize::MAX {
            Some((h as usize, w as usize))
        } else {
            None
        },
        _ => None,
    }
}

/// Whether the attributes of a window operator can be applied to `input`:
/// the input has four axes or more, kernel and strides have two entries or
/// more, no stride is 0 and no kernel extent is 0.
pub open spec fn window_applies(input: Seq<usize>, kernel: Seq<usize>, strides: Seq<usize>) -> bool {
    &&& input.len() >= 4
    &&& kernel.len() >= 2
    &&& strides.len() >= 2
    &&& strides[0] > 0
    &&& strides[1] > 0
    &&& kernel[0] > 0
    &&& kernel[1] > 0
}

/// The output shape `[N, M, H', W']` of a convolution of an input
/// `[N, C, H, W]` with a weight `[M, ..]`, and the paddings it resolves to.
pub open spec fn conv2d_shape(conv: Conv2d, input: Seq<usize>, weight: Seq<usize>) -> Option<
    (Seq<usize>, Seq<usize>),
> {
    if window_applies(input, conv.kernel_shape@, conv.strides@) && weight.len() >= 1
        && conv.dilations@.len() == 2 {
        match resolved_padding(
            conv.auto_pad@,
            conv.padding@,
            input,
            conv.kernel_shape@,
            conv.strides@,
        ) {
            Some(pads) => match window_output(
                input,
                pads,
                conv.dilations@,
                conv.kernel_shape@,
                conv.strides@,
            ) {
                Some((h, w)) => Some((seq![input[0], weight[0], h, w], pads)),
                None => None,
            },
            None => None,
        }
    } else {
        None
    }
}

/// The output shape `[N, C, H', W']` of a max pooling of an input
/// `[N, C, H, W]`, and the paddings it resolves to.
pub open spec fn maxpool_shape(pool: MaxPool, input: Seq<usize>) -> Option<
    (Seq<usize>, Seq<usize>),
> {
    if window_applies(input, pool.kernel_shape@, pool.strides@) {
        match resolved_padding(
            pool.auto_pad@,
            pool.padding@,
            input,
            pool.kernel_shape@,
            pool.strides@,
        ) {
            Some(pads) => match window_output(
                input,
                pads,
                seq![1usize, 1usize],
                pool.kernel_shape@,
                pool.strides@,
            ) {
                Some((h, w)) => Some((seq![input[0], input[1], h, w], pads)),
                None => None,
            },
            None => None,
        }
    } else {
        None
    }
}

/// The output shape `[N, C, 1, 1]` of a global average pooling; the input
/// must have four axes.
pub open spec fn global_average_pool_shape(input: Seq<usize>) -> Option<Seq<usize>> {
    if input.len() == 4 {
        Some(seq![input[0], input[1], 1usize, 1usize])
    } else {
        None
    }
}

/// The product of two numbers is bounded by the product of their bounds.
proof fn lemma_mul_bound(a: int, b: int, x: int, y: int)
    requires
        0 <= a <= x,
        0 <= b <= y,
    ensures
        0 <= a * b <= x * y,
{
    assert(0 <= a * b <= x * y) by (nonlinear_arith)
        requires
            0 <= a <= x,
            0 <= b <= y,
    ;
}

/// See `same_upper_pad`.
fn same_upper(extent: usize, stride: usize, kernel: usize) -> (pad: u128)
    requires
        stride > 0,
    ensures
        pad == same_upper_pad(extent as int, stride as int, kernel as int),
        pad <= 0x2_0000_0000_0000_0000,
{
    let e = extent as u128;
    let s = stride as u128;
    let k = kernel as u128;
    let steps = (e + s - 1) / s;
    assert(steps * s <= e + s - 1 && (steps - 1) * s == steps * s - s) by (nonlinear_arith)
        requires
            steps == (e + s - 1) / (s as int),
            s > 0,
    ;
    let a = steps * s + k;
    let b = s + e;
    if a > b {
        a - b
    } else {
        0
    }
}

/// See `window_count`; a count that exceeds `usize` is `None` as well.
fn count_windows(extent: usize, pad: u128, dilation: usize, kernel: usize, stride: usize) -> (r:
    Option<usize>)
    requires
        kernel > 0,
        stride > 0,
        pad <= 0x2_0000_0000_0000_0000,
    ensures
        r == match window_count(
            extent as int,
            pad as int,
            dilation as int,
            kernel as int,
            stride as int,
        ) {
            Some(n) => if n <= usize::MAX {
                Some(n as usize)
            } else {
                None
            },
            None => None,
        },
{
    proof {
        lemma_mul_bound(
            dilation as int,
            kernel - 1,
            0xFFFF_FFFF_FFFF_FFFF,
            0xFFFF_FFFF_FFFF_FFFF,
        );
    }
    let lhs = extent as u128 + pad;
    let rhs = (dilation as u128) * ((kernel - 1) as u128) + 1;
    if lhs < rhs {
        return None;
    }
    let n = (lhs - rhs) / (stride as u128) + 1;
    if n > usize::MAX as u128 {
        None
    } else {
        Some(n as usize)
    }
}

/// See `resolved_padding`.
fn resolve_padding(
    auto_pad: &String,
    padding: &Dimensions,
    input: &Dimensions,
    kernel: &Dimensions,
    strides: &Dimensions,
) -> (r: Option<Dimensions>)
    requires
        window_applies(input@, kernel@, strides@),
    ensures
        r is Some <==> resolved_padding(auto_pad@, padding@, input@, kernel@, strides@) is Some,
        r is Some ==> Some(r->0@) == resolved_padding(
            auto_pad@,
            padding@,
            input@,
            kernel@,
            strides@,
        ),
{
    let mut v: Vec<usize> = Vec::new();
    if !auto_pad.as_str().is_empty() && !text_is(auto_pad, "NOTSET") {
        let p0 = same_upper(input.0[2], strides.0[0], kernel.0[0]);
        let p1 = same_upper(input.0[3], strides.0[1], kernel.0[1]);
        let max = usize::MAX as u128;
        if !text_is(auto_pad, "SAME_UPPER") || p0 - p0 / 2 > max || p1 - p1 / 2 > max {
            return None;
        }
        v.push((p0 / 2) as usize);
        v.push((p1 / 2) as usize);
        v.push((p0 - p0 / 2) as usize);
        v.push((p1 - p1 / 2) as usize);
    } else if padding.0.len() == 2 {
        v.push(padding.0[0]);
        v.push(padding.0[1]);
        v.push(padding.0[0]);
        v.push(padding.0[1]);
    } else if padding.0.len() == 4 {
        v.push(padding.0[0]);
        v.push(padding.0[1]);
        v.push(padding.0[2]);
        v.push(padding.0[3]);
    } else {
        return None;
    }
    assert(v@ =~= resolved_padding(auto_pad@, padding@, input@, kernel@, strides@)->0);
    Some(Dimensions(v))
}

/// See `window_output`.
fn window_extents(
    input: &Dimensions,
    pads: &Dimensions,
    dilation_h: usize,
    dilation_w: usize,
    kernel: &Dimensions,
    strides: &Dimensions,
) -> (r: Option<(usize, usize)>)
    requires
        window_applies(input@, kernel@, strides@),
        pads@.len() == 4,
    ensures
        r == window_output(input@, pads@, seq![dilation_h, dilation_w], kernel@, strides@),
{
    let pad_h = pads.0[0] as u128 + pads.0[2] as u128;
    let pad_w = pads.0[1] as u128 + pads.0[3] as u128;
    let h = count_windows(input.0[2], pad_h, dilation_h, kernel.0[0], strides.0[0]);
    let w = count_windows(input.0[3], pad_w, dilation_w, kernel.0[1], strides.0[1]);
    match (h, w) {
        (Some(h), Some(w)) => Some((h, w)),
        _ => None,
    }
}

/// The output shape of a convolution and the paddings it resolves to, or
/// `None` where the attributes cannot be applied to the shapes.
pub fn conv2d_output(conv: &Conv2d, input: &Dimensions, weight: &Dimensions) -> (r: Option<
    (Dimensions, Dimensions),
>)
    ensures
        match r {
            Some((output, pads)) => conv2d_shape(*conv, input@, weight@) == Some(
                (output@, pads@),
            ),
            None => conv2d_shape(*conv, input@, weight@) is None,
        },
{
    if !(input.0.len() >= 4 && conv.kernel_shape.0.len() >= 2 && conv.strides.0.len() >= 2
        && conv.strides.0[0] > 0 && conv.strides.0[1] > 0 && conv.kernel_shape.0[0] > 0
        && conv.kernel_shape.0[1] > 0 && weight.0.len() >= 1 && conv.dilations.0.len() == 2) {
        return None;
    }
    let pads = match resolve_padding(
        &conv.auto_pad,
        &conv.padding,
        input,
        &conv.kernel_shape,
        &conv.strides,
    ) {
        Some(pads) => pads,
        None => {
            return None;
        },
    };
    assert(conv.dilations@ =~= seq![conv.dilations@[0], conv.dilations@[1]]);
    match window_extents(
        input,
        &pads,
        conv.dilations.0[0],
        conv.dilations.0[1],
        &conv.kernel_shape,
        &conv.strides,
    ) {
        Some((h, w)) => {
            Some((Dimensions(vec![input.0[0], weight.0[0], h, w]), pads))
        },
        None => None,
    }
}

/// The output shape of a max pooling and the paddings it resolves to, or
/// `None` where the attributes cannot be applied to the shape.
pub fn maxpool_output(pool: &MaxPool, input: &Dimensions) -> (r: Option<(Dimensions, Dimensions)>)
    ensures
        match r {
            Some((output, pads)) => maxpool_shape(*pool, input@) == Some((output@, pads@)),
            None => maxpool_shape(*pool, input@) is None,
        },
{
    if !(input.0.len() >= 4 && pool.kernel_shape.0.len() >= 2 && pool.strides.0.len() >= 2
        && pool.strides.0[0] > 0 && pool.strides.0[1] > 0 && pool.kernel_shape.0[0] > 0
        && pool.kernel_shape.0[1] > 0) {
        return None;
    }
    let pads = match resolve_padding(
        &pool.auto_pad,
        &pool.padding,
        input,
        &pool.kernel_shape,
        &pool.strides,
    ) {
        Some(pads) => pads,
        None => {
            return None;
        },
    };
    match window_extents(input, &pads, 1, 1, &pool.kernel_shape, &pool.strides) {
        Some((h, w)) => {
            Some((Dimensions(vec![input.0[0], input.0[1], h, w]), pads))
        },
        None => None,
    }
}

/// The output shape of a global average pooling, or `None` if the input
/// does not have four axes.
pub fn global_average_pool_output(input: &Dimensions) -> (r: Option<Dimensions>)
    ensures
        r is Some <==> global_average_pool_shape(input@) is Some,
        r is Some ==> Some(r->0@) == global_average_pool_shape(input@),
{
    if input.0.len() == 4 {
        Some(Dimensions(vec![input.0[0], input.0[1], 1, 1]))
    } else {
        None
    }
}

/// The 64-bit integers that a tensor holds, if it is a tensor of such.
pub fn int64_values(t: &Tensor) -> (r: Option<Vec<i64>>)
    ensures
        r is Some <==> t@.elem_ty == TensorElemType::I64,
        r is Some ==> r->0@ == decoded::<i64>(t@.bytes),
{
    if t.elem_ty().is_i64() {
        Some(t.data::<i64>())
    } else {
        None
    }
}

/// The number of entries -1 among the first `n` entries of `target`.
pub open spec fn minus_ones(target: Seq<i64>, n: nat) -> nat
    decreases n,
{
    if n == 0 {
        0
    } else {
        minus_ones(target, (n - 1) as nat) + if target[n - 1] == -1 {
            1nat
        } else {
            0nat
        }
    }
}

/// The entries of `target` as extents, with 1 in place of each -1.
pub open spec fn other_extents(target: Seq<i64>) -> Seq<usize> {
    Seq::new(
        target.len(),
        |i: int|
            if target[i] == -1 {
                1usize
            } else {
                target[i] as usize
            },
    )
}

/// The shape that `target` asks for: its entries, where the one entry -1
/// stands for the number of elements of `input` divided by the product of
/// the other entries. `None` if an entry is less than -1 or exceeds
/// `usize`, more than one entry is -1, the entry -1 comes with an entry 0,
/// or the number of elements of `input` exceeds `usize`.
pub open spec fn reshape_shape(input: Seq<usize>, target: Seq<i64>) -> Option<Seq<usize>> {
    let others = elem_count(other_extents(target));
    let total = elem_count(input);
    if (forall|i: int| 0 <= i < target.len() ==> -1 <= #[trigger] target[i] <= usize::MAX)
        && minus_ones(target, target.len()) <= 1 && total <= usize::MAX && (minus_ones(
        target,
        target.len(),
    ) == 1 ==> others > 0) {
        Some(
            Seq::new(
                target.len(),
                |i: int|
                    if target[i] == -1 {
                        (total / others) as usize
                    } else {
                        target[i] as usize
                    },
            ),
        )
    } else {
        None
    }
}

/// See `reshape_shape`.
pub fn reshape_output(input: &Dimensions, target: &[i64]) -> (r: Option<Dimensions>)
    ensures
        r is Some <==> reshape_shape(input@, target@) is Some,
        r is Some ==> Some(r->0@) == reshape_shape(input@, target@),
{
    let total = match input.checked_total_elems() {
        Some(total) => total,
        None => {
            return None;
        },
    };
    let n = target.len();
    let mut others: Vec<usize> = Vec::new();
    let mut holes: usize = 0;
    let mut i: usize = 0;
    while i < n
        invariant
            i <= n,
            n == target@.len(),
            others@.len() == i,
            holes == minus_ones(target@, i as nat),
            holes <= i,
            forall|k: int| 0 <= k < i ==> -1 <= #[trigger] target@[k] <= usize::MAX,
            forall|k: int| 0 <= k < i ==> others@[k] == other_extents(target@)[k],
        decreases n - i,
    {
        let x = target[i];
        if x == -1 {
            holes += 1;
            others.push(1);
        } else if x < 0 || x as u128 > usize::MAX as u128 {
            return None;
        } else {
            others.push(x as usize);
        }
        i += 1;
    }
    assert(others@ =~= other_extents(target@));
    if holes > 1 {
        return None;
    }
    let mut inferred: usize = 0;
    if holes == 1 {
        match Dimensions(others).checked_total_elems() {
            Some(product) => {
                if product == 0 {
                    return None;
                }
                inferred = total / product;
            },
            None => {
                assert(total as int / elem_count(other_extents(target@)) as int == 0)
                    by (nonlinear_arith)
                    requires
                        0 <= total < elem_count(other_extents(target@)),
                ;
                inferred = 0;
            },
        }
    }
    let mut v: Vec<usize> = Vec::new();
    let mut i: usize = 0;
    while i < n
        invariant
            i <= n,
            n == target@.len(),
            v@.len() == i,
            forall|k: int| 0 <= k < n ==> -1 <= #[trigger] target@[k] <= usize::MAX,
            reshape_shape(input@, target@) is Some,
            holes == 1 ==> inferred == total as nat / elem_count(other_extents(target@)),
            holes == minus_ones(target@, n as nat),
            total == elem_count(input@),
            forall|k: int| 0 <= k < i ==> v@[k] == reshape_shape(input@, target@)->0[k],
        decreases n - i,
    {
        let x = target[i];
        if x == -1 {
            proof {
                lemma_minus_ones_counts(target@, n as nat, i as int);
            }
            v.push(inferred);
        } else {
            v.push(x as usize);
        }
        i += 1;
    }
    assert(v@ =~= reshape_shape(input@, target@)->0);
    Some(Dimensions(v))
}

/// An entry -1 among the first `n` entries is counted.
pub proof fn lemma_minus_ones_counts(target: Seq<i64>, n: nat, k: int)
    requires
        0 <= k < n,
        target[k] == -1,
    ensures
        minus_ones(target, n) >= 1,
    decreases n,
{
    if k < n - 1 {
        lemma_minus_ones_counts(target, (n - 1) as nat, k);
    }
}

/// The shape `[product of the extents before axis, product of the extents
/// from axis on]`. `None` if `axis` is negative or beyond the rank, or a
/// product exceeds `usize`.
pub open spec fn flatten_shape(input: Seq<usize>, axis: i64) -> Option<Seq<usize>> {
    let rank = input.len() as int;
    if 0 <= axis <= rank && range_product(input, 0, axis as int) <= usize::MAX && range_product(
        input,
        axis as int,
        rank,
    ) <= usize::MAX {
        Some(
            seq![
                range_product(input, 0, axis as int) as usize,
                range_product(input, axis as int, rank) as usize,
            ],
        )
    } else {
        None
    }
}

/// The product of the extents `input[lo..hi]`, or `None` if it exceeds
/// `usize`.
fn checked_range_product(input: &Dimensions, lo: usize, hi: usize) -> (r: Option<usize>)
    requires
        lo <= hi <= input@.len(),
    ensures
        r is Some <==> range_product(input@, lo as int, hi as int) <= usize::MAX,
        r is Some ==> r->0 == range_product(input@, lo as int, hi as int),
{
    let mut part: Vec<usize> = Vec::new();
    let mut i: usize = lo;
    while i < hi
        invariant
            lo <= i <= hi <= input@.len(),
            part@.len() == i - lo,
            forall|k: int| 0 <= k < i - lo ==> part@[k] == input@[k + lo],
        decreases hi - i,
    {
        part.push(input.0[i]);
        i += 1;
    }
    proof {
        lemma_range_product_agrees(part@, input@, 0, (hi - lo) as int, lo as int);
    }
    Dimensions(part).checked_total_elems()
}

/// See `flatten_shape`.
pub fn flatten_output(input: &Dimensions, axis: i64) -> (r: Option<Dimensions>)
    ensures
        r is Some <==> flatten_shape(input@, axis) is Some,
        r is Some ==> Some(r->0@) == flatten_shape(input@, axis),
{
    let rank = input.0.len();
    if axis < 0 || axis as u128 > rank as u128 {
        return None;
    }
    let at = axis as usize;
    match (checked_range_product(input, 0, at), checked_range_product(input, at, rank)) {
        (Some(a), Some(b)) => Some(Dimensions(vec![a, b])),
        _ => None,
    }
}

/// The sum of the extents at `axis` of the first `n` shapes.
pub open spec fn axis_sum(shapes: Seq<Seq<usize>>, axis: int, n: nat) -> nat
    decreases n,
{
    if n == 0 {
        0
    } else {
        axis_sum(shapes, axis, (n - 1) as nat) + shapes[n - 1][axis] as nat
    }
}

/// The first shape with the sum of all extents at `axis` in place of its
/// own. `None` if there is no shape, the shapes differ in rank, `axis` is
/// not an axis of them, or the sum exceeds `usize`.
pub open spec fn concat_shape(shapes: Seq<Seq<usize>>, axis: i64) -> Option<Seq<usize>> {
    if shapes.len() > 0 && 0 <= axis < shapes[0].len() && (forall|k: int|
        0 <= k < shapes.len() ==> (#[trigger] shapes[k]).len() == shapes[0].len()) && axis_sum(
        shapes,
        axis as int,
        shapes.len(),
    ) <= usize::MAX {
        Some(shapes[0].update(axis as int, axis_sum(shapes, axis as int, shapes.len()) as usize))
    } else {
        None
    }
}

/// A sum over more shapes is no smaller.
pub proof fn lemma_axis_sum_monotone(shapes: Seq<Seq<usize>>, axis: int, k: nat, n: nat)
    requires
        k <= n,
    ensures
        axis_sum(shapes, axis, k) <= axis_sum(shapes, axis, n),
    decreases n,
{
    if k < n {
        lemma_axis_sum_monotone(shapes, axis, k, (n - 1) as nat);
    }
}

/// What a list of tensors is.
pub open spec fn tensor_views(inputs: Seq<&Tensor>) -> Seq<TensorView> {
    Seq::new(inputs.len(), |k: int| inputs[k]@)
}

/// The shapes of a list of tensors.
pub open spec fn shapes_of(inputs: Seq<TensorView>) -> Seq<Seq<usize>> {
    Seq::new(inputs.len(), |k: int| inputs[k].dims)
}

/// See `concat_shape`.
pub fn concat_output(inputs: &[&Tensor], axis: i64) -> (r: Option<Dimensions>)
    ensures
        r is Some <==> concat_shape(shapes_of(tensor_views(inputs@)), axis) is Some,
        r is Some ==> Some(r->0@) == concat_shape(shapes_of(tensor_views(inputs@)), axis),
{
    let n = inputs.len();
    if n == 0 {
        return None;
    }
    let ghost shapes = shapes_of(tensor_views(inputs@));
    let first = inputs[0].dims();
    let rank = first.len();
    assert(shapes[0] == first@);
    if axis < 0 || axis as u128 >= rank as u128 {
        return None;
    }
    let at = axis as usize;
    let mut sum: usize = 0;
    let mut k: usize = 0;
    while k < n
        invariant
            k <= n,
            n == inputs@.len(),
            shapes == shapes_of(tensor_views(inputs@)),
            rank == shapes[0].len(),
            at < rank,
            at == axis,
            sum == axis_sum(shapes, at as int, k as nat),
            forall|j: int| 0 <= j < k ==> (#[trigger] shapes[j]).len() == rank,
        decreases n - k,
    {
        let dims = inputs[k].dims();
        assert(shapes[k as int] == dims@);
        if dims.len() != rank {
            return None;
        }
        match sum.checked_add(dims.0[at]) {
            Some(next) => {
                sum = next;
            },
            None => {
                proof {
                    lemma_axis_sum_monotone(shapes, at as int, (k + 1) as nat, n as nat);
                }
                return None;
            },
        }
        k += 1;
    }
    let mut out = first.duplicate();
    out.0.set(at, sum);
    Some(out)
}

/// Whether `perm` lists each of the axes `0..rank` once.
pub open spec fn is_permutation(perm: Seq<i64>, rank: nat) -> bool {
    &&& perm.len() == rank
    &&& forall|i: int| 0 <= i < rank ==> 0 <= #[trigger] perm[i] < rank
    &&& forall|i: int, j: int| 0 <= i < j < rank ==> perm[i] != perm[j]
}

/// The shape whose extent at `i` is the extent of `input` at `perm[i]`.
/// `None` if `perm` is empty or not a permutation of the axes of `input`.
pub open spec fn transpose_shape(input: Seq<usize>, perm: Seq<i64>) -> Option<Seq<usize>> {
    if perm.len() > 0 && is_permutation(perm, input.len()) {
        Some(Seq::new(input.len(), |i: int| input[perm[i] as int]))
    } else {
        None
    }
}

/// See `transpose_shape`.
pub fn transpose_output(input: &Dimensions, perm: &Vec<i64>) -> (r: Option<Dimensions>)
    ensures
        r is Some <==> transpose_shape(input@, perm@) is Some,
        r is Some ==> Some(r->0@) == transpose_shape(input@, perm@),
{
    let rank = input.0.len();
    if perm.len() == 0 || perm.len() != rank {
        return None;
    }
    let mut v: Vec<usize> = Vec::new();
    let mut i: usize = 0;
    while i < rank
        invariant
            i <= rank,
            rank == input@.len(),
            rank == perm@.len(),
            v@.len() == i,
            forall|k: int| 0 <= k < i ==> 0 <= #[trigger] perm@[k] < rank,
            forall|k: int, j: int| 0 <= k < j < i ==> perm@[k] != perm@[j],
            forall|k: int| 0 <= k < i ==> v@[k] == input@[perm@[k] as int],
        decreases rank - i,
    {
        let x = perm[i];
        if x < 0 || x as u128 >= rank as u128 {
            return None;
        }
        let mut j: usize = 0;
        while j < i
            invariant
                j <= i < rank,
                rank == perm@.len(),
                x == perm@[i as int],
                forall|k: int| 0 <= k < j ==> perm@[k] != x,
            decreases i - j,
        {
            if perm[j] == x {
                return None;
            }
            j += 1;
        }
        v.push(input.0[x as usize]);
        i += 1;
    }
    assert(v@ =~= transpose_shape(input@, perm@)->0);
    Some(Dimensions(v))
}

/// The first `n` extents of `input` without those whose axis is in `axes`.
pub open spec fn without_axes(input: Seq<usize>, axes: Seq<i64>, n: nat) -> Seq<usize>
    decreases n,
{
    if n == 0 {
        Seq::empty()
    } else if axes.contains((n - 1) as i64) {
        without_axes(input, axes, (n - 1) as nat)
    } else {
        without_axes(input, axes, (n - 1) as nat).push(input[n - 1])
    }
}

/// The shape without the axes in `axes`. `None` if `axes` is empty or one of
/// its entries is not an axis of extent 1.
pub open spec fn squeeze_shape(input: Seq<usize>, axes: Seq<i64>) -> Option<Seq<usize>> {
    if axes.len() > 0 && (forall|k: int|
        0 <= k < axes.len() ==> 0 <= #[trigger] axes[k] < input.len() && input[axes[k] as int]
            == 1) {
        Some(without_axes(input, axes, input.len()))
    } else {
        None
    }
}

/// Whether `x` is among `axes`.
fn holds_axis(axes: &Vec<i64>, x: i64) -> (b: bool)
    ensures
        b == axes@.contains(x),
{
    let mut k: usize = 0;
    while k < axes.len()
        invariant
            k <= axes@.len(),
            forall|j: int| 0 <= j < k ==> axes@[j] != x,
        decreases axes@.len() - k,
    {
        if axes[k] == x {
            return true;
        }
        k += 1;
    }
    false
}

/// See `squeeze_shape`.
pub fn squeeze_output(input: &Dimensions, axes: &Vec<i64>) -> (r: Option<Dimensions>)
    ensures
        r is Some <==> squeeze_shape(input@, axes@) is Some,
        r is Some ==> Some(r->0@) == squeeze_shape(input@, axes@),
{
    let rank = input.0.len();
    if axes.len() == 0 {
        return None;
    }
    let mut k: usize = 0;
    while k < axes.len()
        invariant
            k <= axes@.len(),
            rank == input@.len(),
            forall|j: int|
                0 <= j < k ==> 0 <= #[trigger] axes@[j] < rank && input@[axes@[j] as int] == 1,
        decreases axes@.len() - k,
    {
        let x = axes[k];
        if x < 0 || x as u128 >= rank as u128 || input.0[x as usize] != 1 {
            return None;
        }
        k += 1;
    }
    let mut v: Vec<usize> = Vec::new();
    let mut i: usize = 0;
    while i < rank
        invariant
            i <= rank,
            rank == input@.len(),
            v@ == without_axes(input@, axes@, i as nat),
        decreases rank - i,
    {
        if !holds_axis(axes, i as i64) {
            v.push(input.0[i]);
        }
        i += 1;
    }
    Some(Dimensions(v))
}

/// The shape after inserting an extent 1 at each of the first `n` entries of
/// `axes`, one after the other. `None` if an entry is negative or beyond the
/// end of the shape made so far.
pub open spec fn with_axes(input: Seq<usize>, axes: Seq<i64>, n: nat) -> Option<Seq<usize>>
    decreases n,
{
    if n == 0 {
        Some(input)
    } else {
        match with_axes(input, axes, (n - 1) as nat) {
            Some(shape) => if 0 <= axes[n - 1] <= shape.len() {
                Some(shape.insert(axes[n - 1] as int, 1usize))
            } else {
                None
            },
            None => None,
        }
    }
}

/// The shape with an extent 1 inserted at each entry of `axes` in turn.
/// `None` if `axes` is empty or an entry cannot be inserted.
pub open spec fn unsqueeze_shape(input: Seq<usize>, axes: Seq<i64>) -> Option<Seq<usize>> {
    if axes.len() > 0 {
        with_axes(input, axes, axes.len())
    } else {
        None
    }
}

/// A failed insertion is not mended by later ones.
pub proof fn lemma_with_axes_none(input: Seq<usize>, axes: Seq<i64>, k: nat, n: nat)
    requires
        k <= n,
        with_axes(input, axes, k) is None,
    ensures
        with_axes(input, axes, n) is None,
    decreases n,
{
    if k < n {
        lemma_with_axes_none(input, axes, k, (n - 1) as nat);
    }
}

/// See `unsqueeze_shape`.
pub fn unsqueeze_output(input: &Dimensions, axes: &Vec<i64>) -> (r: Option<Dimensions>)
    ensures
        r is Some <==> unsqueeze_shape(input@, axes@) is Some,
        r is Some ==> Some(r->0@) == unsqueeze_shape(input@, axes@),
{
    if axes.len() == 0 {
        return None;
    }
    let mut v = input.duplicate().0;
    let mut k: usize = 0;
    while k < axes.len()
        invariant
            k <= axes@.len(),
            with_axes(input@, axes@, k as nat) == Some(v@),
        decreases axes@.len() - k,
    {
        let x = axes[k];
        if x < 0 || x as u128 > v.len() as u128 {
            proof {
                lemma_with_axes_none(input@, axes@, (k + 1) as nat, axes@.len());
            }
            return None;
        }
        v.insert(x as usize, 1);
        k += 1;
    }
    Some(Dimensions(v))
}

/// The axis that `axis` names in a shape of `rank` axes: itself, or counted
/// from the end if negative.
pub open spec fn normalized_axis(axis: i64, rank: int) -> int {
    if axis < 0 {
        rank + axis
    } else {
        axis as int
    }
}

/// Whether one of `axes` names the axis `i` of a shape of `rank` axes.
pub open spec fn names_axis(axes: Seq<i64>, rank: int, i: int) -> bool {
    exists|k: int| 0 <= k < axes.len() && normalized_axis(#[trigger] axes[k], rank) == i
}

/// The first `n` extents of `input` after a reduction over `axes`: a reduced
/// axis has extent 1 if `keep_dims`, else it is left out.
pub open spec fn reduced(input: Seq<usize>, axes: Seq<i64>, keep_dims: bool, n: nat) -> Seq<usize>
    decreases n,
{
    if n == 0 {
        Seq::empty()
    } else if names_axis(axes, input.len() as int, n - 1) {
        if keep_dims {
            reduced(input, axes, keep_dims, (n - 1) as nat).push(1usize)
        } else {
            reduced(input, axes, keep_dims, (n - 1) as nat)
        }
    } else {
        reduced(input, axes, keep_dims, (n - 1) as nat).push(input[n - 1])
    }
}

/// The shape after a reduction over `axes`; a shape without axes becomes
/// `[1]`. `None` if one of `axes` is not an axis of `input`.
pub open spec fn reduce_shape(input: Seq<usize>, axes: Seq<i64>, keep_dims: bool) -> Option<
    Seq<usize>,
> {
    if forall|k: int|
        0 <= k < axes.len() ==> 0 <= normalized_axis(#[trigger] axes[k], input.len() as int)
            < input.len() {
        let shape = reduced(input, axes, keep_dims, input.len());
        if shape.len() == 0 {
            Some(seq![1usize])
        } else {
            Some(shape)
        }
    } else {
        None
    }
}

/// See `names_axis`.
fn reduces_axis(axes: &Vec<i64>, rank: usize, i: usize) -> (b: bool)
    requires
        i < rank,
        forall|k: int|
            0 <= k < axes@.len() ==> 0 <= normalized_axis(#[trigger] axes@[k], rank as int) < rank,
    ensures
        b == names_axis(axes@, rank as int, i as int),
{
    let mut k: usize = 0;
    while k < axes.len()
        invariant
            k <= axes@.len(),
            i < rank,
            forall|j: int|
                0 <= j < axes@.len() ==> 0 <= normalized_axis(#[trigger] axes@[j], rank as int)
                    < rank,
            forall|j: int| 0 <= j < k ==> normalized_axis(#[trigger] axes@[j], rank as int) != i,
        decreases axes@.len() - k,
    {
        let x = axes[k];
        assert(0 <= normalized_axis(axes@[k as int], rank as int) < rank);
        let at = if x < 0 {
            (rank as i128 + x as i128) as usize
        } else {
            x as usize
        };
        if at == i {
            return true;
        }
        k += 1;
    }
    false
}

/// See `reduce_shape`.
pub fn reduce_output(input: &Dimensions, axes: &Vec<i64>, keep_dims: bool) -> (r: Option<
    Dimensions,
>)
    ensures
        r is Some <==> reduce_shape(input@, axes@, keep_dims) is Some,
        r is Some ==> Some(r->0@) == reduce_shape(input@, axes@, keep_dims),
{
    let rank = input.0.len();
    let mut k: usize = 0;
    while k < axes.len()
        invariant
            k <= axes@.len(),
            rank == input@.len(),
            forall|j: int|
                0 <= j < k ==> 0 <= normalized_axis(#[trigger] axes@[j], rank as int) < rank,
        decreases axes@.len() - k,
    {
        let x = axes[k] as i128;
        let at = if x < 0 {
            rank as i128 + x
        } else {
            x
        };
        if at < 0 || at >= rank as i128 {
            assert(!(0 <= normalized_axis(axes@[k as int], rank as int) < rank));
            return None;
        }
        k += 1;
    }
    let mut v: Vec<usize> = Vec::new();
    let mut i: usize = 0;
    while i < rank
        invariant
            i <= rank,
            rank == input@.len(),
            forall|j: int|
                0 <= j < axes@.len() ==> 0 <= normalized_axis(#[trigger] axes@[j], rank as int)
                    < rank,
            v@ == reduced(input@, axes@, keep_dims, i as nat),
        decreases rank - i,
    {
        if reduces_axis(axes, rank, i) {
            if keep_dims {
                v.push(1);
            }
        } else {
            v.push(input.0[i]);
        }
        i += 1;
    }
    if v.len() == 0 {
        v.push(1);
        assert(v@ =~= seq![1usize]);
    }
    Some(Dimensions(v))
}

/// The shape whose extent at `i` is the extent of `input` times
/// `repeats[i]`. `None` if `repeats` has fewer entries than `input` has
/// axes, one of those entries is negative, or a product exceeds `usize`.
pub open spec fn tile_shape(input: Seq<usize>, repeats: Seq<i64>) -> Option<Seq<usize>> {
    if repeats.len() >= input.len() && (forall|i: int|
        0 <= i < input.len() ==> 0 <= #[trigger] repeats[i] && input[i] * repeats[i]
            <= usize::MAX) {
        Some(Seq::new(input.len(), |i: int| (input[i] * repeats[i]) as usize))
    } else {
        None
    }
}

/// See `tile_shape`.
pub fn tile_output(input: &Dimensions, repeats: &[i64]) -> (r: Option<Dimensions>)
    ensures
        r is Some <==> tile_shape(input@, repeats@) is Some,
        r is Some ==> Some(r->0@) == tile_shape(input@, repeats@),
{
    let rank = input.0.len();
    if repeats.len() < rank {
        return None;
    }
    let mut v: Vec<usize> = Vec::new();
    let mut i: usize = 0;
    while i < rank
        invariant
            i <= rank,
            rank == input@.len(),
            rank <= repeats@.len(),
            v@.len() == i,
            forall|k: int|
                0 <= k < i ==> 0 <= #[trigger] repeats@[k] && input@[k] * repeats@[k]
                    <= usize::MAX,
            forall|k: int| 0 <= k < i ==> v@[k] == input@[k] * repeats@[k],
        decreases rank - i,
    {
        let x = repeats[i];
        if x < 0 {
            return None;
        }
        proof {
            lemma_mul_bound(
                input@[i as int] as int,
                x as int,
                0xFFFF_FFFF_FFFF_FFFF,
                0xFFFF_FFFF_FFFF_FFFF,
            );
        }
        let product = (input.0[i] as u128) * (x as u128);
        if product > usize::MAX as u128 {
            return None;
        }
        v.push(product as usize);
        i += 1;
    }
    assert(v@ =~= tile_shape(input@, repeats@)->0);
    Some(Dimensions(v))
}

/// The number of slices that four lists describe: the length of the
/// shortest.
pub open spec fn slice_count(starts: Seq<i64>, ends: Seq<i64>, axes: Seq<i64>, steps: Seq<i64>) -> nat {
    let a = if starts.len() <= ends.len() {
        starts.len()
    } else {
        ends.len()
    };
    let b = if axes.len() <= steps.len() {
        axes.len()
    } else {
        steps.len()
    };
    if a <= b {
        a
    } else {
        b
    }
}

/// The shape after the first `n` slices: slice `k` sets the extent of its
/// axis to `(ends[k] - starts[k]) / steps[k]`. `None` if a slice names no
/// axis of `input`, has step 0, or gives an extent that is not positive.
pub open spec fn sliced(
    input: Seq<usize>,
    starts: Seq<i64>,
    ends: Seq<i64>,
    axes: Seq<i64>,
    steps: Seq<i64>,
    n: nat,
) -> Option<Seq<usize>>
    decreases n,
{
    if n == 0 {
        Some(input)
    } else {
        match sliced(input, starts, ends, axes, steps, (n - 1) as nat) {
            Some(shape) => {
                let axis = normalized_axis(axes[n - 1], input.len() as int);
                let span = ends[n - 1] - starts[n - 1];
                if 0 <= axis < input.len() && steps[n - 1] > 0 && span >= 0 && span / (steps[n
                    - 1] as int) > 0 && span / (steps[n - 1] as int) <= usize::MAX {
                    Some(shape.update(axis, (span / (steps[n - 1] as int)) as usize))
                } else {
                    None
                }
            },
            None => None,
        }
    }
}

/// The shape after all slices. `None` if a start, an end or a step is
/// negative, or a slice cannot be taken.
pub open spec fn slice_shape(
    input: Seq<usize>,
    starts: Seq<i64>,
    ends: Seq<i64>,
    axes: Seq<i64>,
    steps: Seq<i64>,
) -> Option<Seq<usize>> {
    if (forall|k: int| 0 <= k < starts.len() ==> #[trigger] starts[k] >= 0) && (forall|k: int|
        0 <= k < ends.len() ==> #[trigger] ends[k] >= 0) && (forall|k: int|
        0 <= k < steps.len() ==> #[trigger] steps[k] >= 0) {
        sliced(input, starts, ends, axes, steps, slice_count(starts, ends, axes, steps))
    } else {
        None
    }
}

/// A slice that cannot be taken is not mended by later ones.
pub proof fn lemma_sliced_none(
    input: Seq<usize>,
    starts: Seq<i64>,
    ends: Seq<i64>,
    axes: Seq<i64>,
    steps: Seq<i64>,
    k: nat,
    n: nat,
)
    requires
        k <= n,
        sliced(input, starts, ends, axes, steps, k) is None,
    ensures
        sliced(input, starts, ends, axes, steps, n) is None,
    decreases n,
{
    if k < n {
        lemma_sliced_none(input, starts, ends, axes, steps, k, (n - 1) as nat);
    }
}

/// Whether no entry of `values` is negative.
fn none_negative(values: &[i64]) -> (b: bool)
    ensures
        b == (forall|k: int| 0 <= k < values@.len() ==> #[trigger] values@[k] >= 0),
{
    let mut k: usize = 0;
    while k < values.len()
        invariant
            k <= values@.len(),
            forall|j: int| 0 <= j < k ==> #[trigger] values@[j] >= 0,
        decreases values@.len() - k,
    {
        if values[k] < 0 {
            return false;
        }
        k += 1;
    }
    true
}

/// See `slice_shape`.
pub fn slice_output(
    input: &Dimensions,
    starts: &[i64],
    ends: &[i64],
    axes: &[i64],
    steps: &[i64],
) -> (r: Option<Dimensions>)
    ensures
        r is Some <==> slice_shape(input@, starts@, ends@, axes@, steps@) is Some,
        r is Some ==> Some(r->0@) == slice_shape(input@, starts@, ends@, axes@, steps@),
{
    if !none_negative(starts) || !none_negative(ends) || !none_negative(steps) {
        return None;
    }
    let a = if starts.len() <= ends.len() {
        starts.len()
    } else {
        ends.len()
    };
    let b = if axes.len() <= steps.len() {
        axes.len()
    } else {
        steps.len()
    };
    let n = if a <= b {
        a
    } else {
        b
    };
    let rank = input.0.len();
    let mut v = input.duplicate().0;
    let mut k: usize = 0;
    while k < n
        invariant
            k <= n,
            n == slice_count(starts@, ends@, axes@, steps@),
            rank == input@.len(),
            v@.len() == rank,
            forall|j: int| 0 <= j < starts@.len() ==> #[trigger] starts@[j] >= 0,
            forall|j: int| 0 <= j < ends@.len() ==> #[trigger] ends@[j] >= 0,
            forall|j: int| 0 <= j < steps@.len() ==> #[trigger] steps@[j] >= 0,
            sliced(input@, starts@, ends@, axes@, steps@, k as nat) == Some(v@),
        decreases n - k,
    {
        let x = axes[k] as i128;
        let at = if x < 0 {
            rank as i128 + x
        } else {
            x
        };
        let start = starts[k];
        let end = ends[k];
        let step = steps[k];
        if at < 0 || at >= rank as i128 || step == 0 || end < start || (end - start) / step == 0
            || ((end - start) / step) as u128 > usize::MAX as u128 {
            proof {
                lemma_sliced_none(
                    input@,
                    starts@,
                    ends@,
                    axes@,
                    steps@,
                    (k + 1) as nat,
                    n as nat,
                );
            }
            return None;
        }
        v.set(at as usize, ((end - start) / step) as usize);
        k += 1;
    }
    Some(Dimensions(v))
}

/// The shape of the elements gathered from `data` along `axis`: `data`
/// without that axis if `indices` is a scalar; `[1, k]` followed by `data`
/// without its first axis if `indices` has the shape `[1, k]` and `axis` is
/// 0. `None` for any other shape of `indices`, a negative axis, or an axis
/// that `data` does not have.
pub open spec fn gather_shape(data: Seq<usize>, indices: Seq<usize>, axis: i64) -> Option<
    Seq<usize>,
> {
    if scalar_shape(indices) {
        if 0 <= axis < data.len() {
            Some(data.remove(axis as int))
        } else {
            None
        }
    } else if indices.len() == 2 && indices[0] == 1 && axis == 0 && data.len() >= 1 {
        Some(seq![1usize, indices[1]] + data.subrange(1, data.len() as int))
    } else {
        None
    }
}

/// See `gather_shape`.
pub fn gather_output(data: &Dimensions, indices: &Dimensions, axis: i64) -> (r: Option<Dimensions>)
    ensures
        r is Some <==> gather_shape(data@, indices@, axis) is Some,
        r is Some ==> Some(r->0@) == gather_shape(data@, indices@, axis),
{
    let mut v = data.duplicate().0;
    if indices.is_scalar() {
        if axis < 0 || axis as u128 >= v.len() as u128 {
            return None;
        }
        v.remove(axis as usize);
        Some(Dimensions(v))
    } else if indices.0.len() == 2 && indices.0[0] == 1 && axis == 0 && v.len() >= 1 {
        v.remove(0);
        v.insert(0, 1);
        v.insert(1, indices.0[1]);
        assert(v@ =~= seq![1usize, indices@[1]] + data@.subrange(1, data@.len() as int));
        Some(Dimensions(v))
    } else {
        None
    }
}

/// The shape of the matrix product of `a` and `b`, for the combinations of
/// ranks that are supported: `[m, k] x [k, n]`, `[b, m, k] x [k, n]`,
/// `[b, m, k] x [b, k, n]` and `[1, c, m, k] x [1, c, k, n]`. `None` for
/// other ranks or where the extents do not match.
pub open spec fn matmul_shape(a: Seq<usize>, b: Seq<usize>) -> Option<Seq<usize>> {
    if a.len() == 2 && b.len() == 2 && a[1] == b[0] {
        Some(seq![a[0], b[1]])
    } else if a.len() == 3 && b.len() == 2 && a[2] == b[0] {
        Some(seq![a[0], a[1], b[1]])
    } else if a.len() == 3 && b.len() == 3 && a[0] == b[0] && a[2] == b[1] {
        Some(seq![a[0], a[1], b[2]])
    } else if a.len() == 4 && b.len() == 4 && a[0] == 1 && b[0] == 1 && a[1] == b[1] && a[3]
        == b[2] {
        Some(seq![a[0], a[1], a[2], b[3]])
    } else {
        None
    }
}

/// See `matmul_shape`.
pub fn matmul_output(a: &Dimensions, b: &Dimensions) -> (r: Option<Dimensions>)
    ensures
        r is Some <==> matmul_shape(a@, b@) is Some,
        r is Some ==> Some(r->0@) == matmul_shape(a@, b@),
{
    let x = &a.0;
    let y = &b.0;
    if x.len() == 2 && y.len() == 2 && x[1] == y[0] {
        Some(Dimensions(vec![x[0], y[1]]))
    } else if x.len() == 3 && y.len() == 2 && x[2] == y[0] {
        Some(Dimensions(vec![x[0], x[1], y[1]]))
    } else if x.len() == 3 && y.len() == 3 && x[0] == y[0] && x[2] == y[1] {
        Some(Dimensions(vec![x[0], x[1], y[2]]))
    } else if x.len() == 4 && y.len() == 4 && x[0] == 1 && y[0] == 1 && x[1] == y[1] && x[3]
        == y[2] {
        Some(Dimensions(vec![x[0], x[1], x[2], y[3]]))
    } else {
        None
    }
}

/// The shape `[outer extent of a, outer extent of b]` of a general matrix
/// product, where `trans_a` and `trans_b` say which operand is read
/// transposed. `None` if an operand has fewer than two axes or the inner
/// extents differ.
pub open spec fn gemm_shape(a: Seq<usize>, b: Seq<usize>, trans_a: bool, trans_b: bool) -> Option<
    Seq<usize>,
> {
    if a.len() >= 2 && b.len() >= 2 {
        let a_outer = if trans_a {
            a[1]
        } else {
            a[0]
        };
        let a_inner = if trans_a {
            a[0]
        } else {
            a[1]
        };
        let b_inner = if trans_b {
            b[1]
        } else {
            b[0]
        };
        let b_outer = if trans_b {
            b[0]
        } else {
            b[1]
        };
        if a_inner == b_inner {
            Some(seq![a_outer, b_outer])
        } else {
            None
        }
    } else {
        None
    }
}

/// See `gemm_shape`.
pub fn gemm_output(a: &Dimensions, b: &Dimensions, trans_a: bool, trans_b: bool) -> (r: Option<
    Dimensions,
>)
    ensures
        r is Some <==> gemm_shape(a@, b@, trans_a, trans_b) is Some,
        r is Some ==> Some(r->0@) == gemm_shape(a@, b@, trans_a, trans_b),
{
    if a.0.len() < 2 || b.0.len() < 2 {
        return None;
    }
    let (a_outer, a_inner) = if trans_a {
        (a.0[1], a.0[0])
    } else {
        (a.0[0], a.0[1])
    };
    let (b_inner, b_outer) = if trans_b {
        (b.0[1], b.0[0])
    } else {
        (b.0[0], b.0[1])
    };
    if a_inner == b_inner {
        Some(Dimensions(vec![a_outer, b_outer]))
    } else {
        None
    }
}

/// The whole part of `dim` times `scale`, where the bits of `scale` are read
/// as a single-precision number: a fraction of 23 bits and an exponent of 8
/// bits stand for `(2^23 + fraction) * 2^(exponent - 150)`, or for
/// `fraction * 2^-149` where the exponent is 0. `None` if `scale` is
/// infinite or not a number, if the product is negative, or if it exceeds
/// `usize`.
pub open spec fn scaled_extent(dim: usize, scale: F32Bits) -> Option<usize> {
    let bits = scale.0;
    let exponent = (bits >> 23) & 0xff;
    let fraction = bits & 0x7f_ffff;
    let mantissa = if exponent == 0 {
        fraction
    } else {
        fraction | 0x80_0000
    };
    let product = dim as int * mantissa as int;
    let scaled = if exponent >= 150 {
        product * pow2((exponent - 150) as nat)
    } else if exponent == 0 {
        product / pow2(149) as int
    } else {
        product / pow2((150 - exponent) as nat) as int
    };
    if exponent == 255 {
        None
    } else if product == 0 {
        Some(0)
    } else if bits >> 31 == 1 {
        None
    } else if scaled <= usize::MAX {
        Some(scaled as usize)
    } else {
        None
    }
}

/// The power of two with exponent `k`.
fn power_of_two(k: u32) -> (p: u128)
    requires
        k <= 100,
    ensures
        p == pow2(k as nat),
{
    proof {
        lemma2_to64();
        lemma2_to64_rest();
        lemma_pow2_adds(64, 36);
    }
    let mut p: u128 = 1;
    let mut i: u32 = 0;
    while i < k
        invariant
            i <= k <= 100,
            p == pow2(i as nat),
            pow2(100) == 0x1_0000_0000_0000_0000 * 0x10_0000_0000,
        decreases k - i,
    {
        proof {
            lemma_pow2_unfold((i + 1) as nat);
            if i + 1 < 100 {
                lemma_pow2_strictly_increases((i + 1) as nat, 100);
            }
        }
        p = p * 2;
        i += 1;
    }
    p
}

/// See `scaled_extent`.
pub fn scale_extent(dim: usize, scale: F32Bits) -> (r: Option<usize>)
    ensures
        r == scaled_extent(dim, scale),
{
    let bits = scale.0;
    let exponent = (bits >> 23) & 0xff;
    let fraction = bits & 0x7f_ffff;
    let mantissa = if exponent == 0 {
        fraction
    } else {
        fraction | 0x80_0000
    };
    assert(mantissa < 0x100_0000 && exponent <= 255) by (bit_vector)
        requires
            exponent == (bits >> 23) & 0xff,
            mantissa == bits & 0x7f_ffff || mantissa == (bits & 0x7f_ffff) | 0x80_0000,
    ;
    assert(exponent != 0 ==> mantissa >= 0x80_0000) by (bit_vector)
        requires
            exponent != 0 ==> mantissa == fraction | 0x80_0000,
    ;
    proof {
        lemma_mul_bound(dim as int, mantissa as int, 0xFFFF_FFFF_FFFF_FFFF, 0xFF_FFFF);
    }
    let product = (dim as u128) * (mantissa as u128);
    if exponent == 255 {
        return None;
    }
    if product == 0 {
        return Some(0);
    }
    if bits >> 31 == 1 {
        return None;
    }
    proof {
        lemma2_to64();
        lemma2_to64_rest();
        lemma_pow2_adds(64, 36);
    }
    if exponent >= 150 {
        let shift = exponent - 150;
        if shift > 41 {
            proof {
                lemma_pow2_strictly_increases(41, shift as nat);
                assert(dim >= 1 && mantissa >= 0x80_0000) by (nonlinear_arith)
                    requires
                        product == dim * mantissa,
                        product != 0,
                        mantissa >= 0x80_0000,
                        dim >= 0,
                ;
                assert(product >= 0x80_0000) by (nonlinear_arith)
                    requires
                        product == dim * mantissa,
                        mantissa >= 0x80_0000,
                        dim >= 1,
                ;
                assert(product * pow2(shift as nat) > 0xFFFF_FFFF_FFFF_FFFF) by (nonlinear_arith)
                    requires
                        product >= 0x80_0000,
                        pow2(shift as nat) > 0x200_0000_0000,
                ;
            }
            return None;
        }
        let p = power_of_two(shift);
        match product.checked_mul(p) {
            Some(scaled) => if scaled > usize::MAX as u128 {
                None
            } else {
                Some(scaled as usize)
            },
            None => None,
        }
    } else {
        let shift = if exponent == 0 {
            149
        } else {
            150 - exponent
        };
        if shift >= 100 {
            proof {
                if shift > 100 {
                    lemma_pow2_strictly_increases(100, shift as nat);
                }
                assert(product as int / pow2(shift as nat) as int == 0) by (nonlinear_arith)
                    requires
                        0 <= product < pow2(shift as nat),
                ;
            }
            return Some(0);
        }
        let p = power_of_two(shift);
        proof {
            lemma_pow2_pos(shift as nat);
        }
        let scaled = product / p;
        if scaled > usize::MAX as u128 {
            None
        } else {
            Some(scaled as usize)
        }
    }
}

/// The shape of a resized tensor. With four inputs it is what the fourth
/// input holds: four sizes, none negative. With three inputs each of the
/// four extents of the first input is scaled by the entry of the third
/// input that belongs to it; this is for nearest-neighbour resizing with
/// asymmetric coordinates and rounding down only. `None` for any other
/// number of inputs, inputs of other types or shapes, or other modes.
pub open spec fn resize_shape(resize: Resize, inputs: Seq<TensorView>) -> Option<Seq<usize>> {
    if inputs.len() == 4 {
        let sizes = inputs[3];
        let values = decoded::<i64>(sizes.bytes);
        if sizes.dims.len() == 1 && sizes.dims[0] == 4 && sizes.elem_ty == TensorElemType::I64 && (
        forall|i: int| 0 <= i < values.len() ==> 0 <= #[trigger] values[i] <= usize::MAX) {
            Some(Seq::new(values.len(), |i: int| values[i] as usize))
        } else {
            None
        }
    } else if inputs.len() == 3 {
        let x = inputs[0].dims;
        let scales = decoded::<F32Bits>(inputs[2].bytes);
        if resize.coordinate_transformation_mode@ == "asymmetric"@ && resize.mode@ == "nearest"@
            && resize.nearest_mode@ == "floor"@ && x.len() == 4 && inputs[1].elem_ty
            == TensorElemType::F32 && inputs[2].elem_ty == TensorElemType::F32 && scales.len() >= 4
            && (forall|i: int| 0 <= i < 4 ==> (#[trigger] scaled_extent(x[i], scales[i])) is Some) {
            Some(Seq::new(4, |i: int| scaled_extent(x[i], scales[i])->0))
        } else {
            None
        }
    } else {
        None
    }
}

/// See `resize_shape`.
#[verifier::loop_isolation(false)]
pub fn resize_output(resize: &Resize, inputs: &[&Tensor]) -> (r: Option<Dimensions>)
    ensures
        r is Some <==> resize_shape(*resize, tensor_views(inputs@)) is Some,
        r is Some ==> Some(r->0@) == resize_shape(*resize, tensor_views(inputs@)),
{
    let ghost views = tensor_views(inputs@);
    if inputs.len() == 4 {
        let sizes = inputs[3];
        assert(views[3] == sizes@);
        let dims = sizes.dims();
        if !(dims.len() == 1 && dims.0[0] == 4) {
            return None;
        }
        let values = match int64_values(sizes) {
            Some(values) => values,
            None => {
                return None;
            },
        };
        let mut v: Vec<usize> = Vec::new();
        let mut i: usize = 0;
        while i < values.len()
            invariant
                i <= values@.len(),
                v@.len() == i,
                forall|k: int| 0 <= k < i ==> 0 <= #[trigger] values@[k] <= usize::MAX,
                forall|k: int| 0 <= k < i ==> v@[k] == values@[k] as usize,
            decreases values@.len() - i,
        {
            let x = values[i];
            if x < 0 || x as u128 > usize::MAX as u128 {
                assert(!(0 <= values@[i as int] <= usize::MAX));
                return None;
            }
            v.push(x as usize);
            i += 1;
        }
        assert(v@ =~= resize_shape(*resize, views)->0);
        Some(Dimensions(v))
    } else if inputs.len() == 3 {
        let x = inputs[0].dims();
        assert(views[0] == inputs@[0]@ && views[1] == inputs@[1]@ && views[2] == inputs@[2]@);
        if !(text_is(&resize.coordinate_transformation_mode, "asymmetric") && text_is(
            &resize.mode,
            "nearest",
        ) && text_is(&resize.nearest_mode, "floor") && x.len() == 4 && inputs[1].elem_ty().is_f32()
            && inputs[2].elem_ty().is_f32()) {
            return None;
        }
        let scales = inputs[2].data::<F32Bits>();
        if scales.len() < 4 {
            return None;
        }
        let mut v: Vec<usize> = Vec::new();
        let mut i: usize = 0;
        while i < 4
            invariant
                i <= 4,
                x@.len() == 4,
                scales@.len() >= 4,
                v@.len() == i,
                forall|k: int|
                    0 <= k < i ==> (#[trigger] scaled_extent(x@[k], scales@[k])) == Some(v@[k]),
            decreases 4 - i,
        {
            match scale_extent(x.0[i], scales[i]) {
                Some(extent) => {
                    v.push(extent);
                },
                None => {
                    assert(scaled_extent(x@[i as int], scales@[i as int]) is None);
                    return None;
                },
            }
            i += 1;
        }
        assert(v@ =~= resize_shape(*resize, views)->0);
        Some(Dimensions(v))
    } else {
        None
    }
}

/// The number of inputs that an operator reads at least.
pub open spec fn arity(op: Op) -> nat {
    match op {
        Op::Conv2d(_) | Op::Add | Op::Sub | Op::Mul | Op::Div | Op::Pow | Op::Reshape | Op::Tile
        | Op::Gather(_) | Op::MatMul | Op::Gemm(_) => 2,
        Op::Resize(_) => 3,
        Op::Slice => 4,
        _ => 1,
    }
}

/// Whether shape inference knows no rule for the operator.
pub open spec fn without_rule(op: Op) -> bool {
    op is Loop || op is Shape || op is NonMaxSuppression || op is Constant
}

/// The steps of a slice: what the fifth input holds, or 1 for each axis
/// where there is no fifth input.
pub open spec fn slice_steps(inputs: Seq<TensorView>) -> Seq<i64> {
    if inputs.len() >= 5 {
        decoded::<i64>(inputs[4].bytes)
    } else {
        Seq::new(decoded::<i64>(inputs[3].bytes).len(), |k: int| 1i64)
    }
}

/// The output shape of `op` on `inputs`, and the paddings that it resolves
/// to where it has any; `None` where the operator cannot be applied to the
/// inputs. Inputs that give a shape, sizes, repeats or slice bounds must
/// hold 64-bit integers.
pub open spec fn shape_rule(op: Op, inputs: Seq<TensorView>) -> Option<
    (Seq<usize>, Option<Seq<usize>>),
> {
    let x = inputs[0].dims;
    match op {
        Op::Conv2d(conv) => match conv2d_shape(conv, x, inputs[1].dims) {
            Some((dims, pads)) => Some((dims, Some(pads))),
            None => None,
        },
        Op::MaxPool(pool) => match maxpool_shape(pool, x) {
            Some((dims, pads)) => Some((dims, Some(pads))),
            None => None,
        },
        _ => {
            let dims = match op {
                Op::Add | Op::Sub | Op::Mul | Op::Div | Op::Pow => broadcast_shape(
                    seq![x, inputs[1].dims],
                ),
                Op::GlobalAveragePool => global_average_pool_shape(x),
                Op::Reshape => if inputs[1].elem_ty == TensorElemType::I64 {
                    reshape_shape(x, decoded::<i64>(inputs[1].bytes))
                } else {
                    None
                },
                Op::Flatten(flatten) => flatten_shape(x, flatten.axis),
                Op::Resize(resize) => resize_shape(resize, inputs),
                Op::Concat(concat) => concat_shape(shapes_of(inputs), concat.axis),
                Op::Transpose(transpose) => transpose_shape(x, transpose.perm@),
                Op::Squeeze(squeeze) => squeeze_shape(x, squeeze.axes@),
                Op::Unsqueeze(unsqueeze) => unsqueeze_shape(x, unsqueeze.axes@),
                Op::ReduceMin(reduce) => reduce_shape(x, reduce.axes@, reduce.keep_dims),
                Op::ReduceMean(reduce) => reduce_shape(x, reduce.axes@, reduce.keep_dims),
                Op::Tile => if inputs[1].elem_ty == TensorElemType::I64 {
                    tile_shape(x, decoded::<i64>(inputs[1].bytes))
                } else {
                    None
                },
                Op::Slice => if inputs[1].elem_ty == TensorElemType::I64 && inputs[2].elem_ty
                    == TensorElemType::I64 && inputs[3].elem_ty == TensorElemType::I64 && (
                inputs.len() >= 5 ==> inputs[4].elem_ty == TensorElemType::I64) {
                    slice_shape(
                        x,
                        decoded::<i64>(inputs[1].bytes),
                        decoded::<i64>(inputs[2].bytes),
                        decoded::<i64>(inputs[3].bytes),
                        slice_steps(inputs),
                    )
                } else {
                    None
                },
                Op::Gather(gather) => gather_shape(x, inputs[1].dims, gather.axis),
                Op::MatMul => matmul_shape(x, inputs[1].dims),
                Op::Gemm(gemm) => gemm_shape(x, inputs[1].dims, gemm.trans_a, gemm.trans_b),
                _ => Some(x),
            };
            match dims {
                Some(dims) => Some((dims, None)),
                None => None,
            }
        },
    }
}

/// What shape inference gives for one operator: the shape and the element
/// type of its output, and the paddings that its attributes resolve to.
pub struct Inferred {
    pub dims: Seq<usize>,
    pub elem_ty: TensorElemType,
    pub padding: Option<Seq<usize>>,
}

/// The outcome of shape inference for `op` on `inputs`: the output has the
/// element type of the first input. An operator without a rule is not
/// supported; too few inputs, or inputs that the rule does not apply to, are
/// a shape inference failure.
pub open spec fn inferred(op: Op, inputs: Seq<TensorView>) -> Result<Inferred, SessionError> {
    if without_rule(op) {
        Err(SessionError::UnsupportedOp)
    } else if inputs.len() < arity(op) {
        Err(SessionError::ShapeInference)
    } else {
        match shape_rule(op, inputs) {
            Some((dims, padding)) => Ok(Inferred { dims, elem_ty: inputs[0].elem_ty, padding }),
            None => Err(SessionError::ShapeInference),
        }
    }
}

/// Whether `after` is `before` with the paddings `padding` written into its
/// attributes; without paddings to write, whether it is `before`.
pub open spec fn padding_resolved(before: Op, padding: Option<Seq<usize>>, after: Op) -> bool {
    match padding {
        None => after == before,
        Some(pads) => match (before, after) {
            (Op::Conv2d(b), Op::Conv2d(a)) => {
                &&& a.padding@ == pads
                &&& a.auto_pad == b.auto_pad
                &&& a.dilations == b.dilations
                &&& a.group == b.group
                &&& a.kernel_shape == b.kernel_shape
                &&& a.strides == b.strides
            },
            (Op::MaxPool(b), Op::MaxPool(a)) => {
                &&& a.padding@ == pads
                &&& a.auto_pad == b.auto_pad
                &&& a.kernel_shape == b.kernel_shape
                &&& a.strides == b.strides
            },
            _ => false,
        },
    }
}

/// The shape and element type of the output of `op` on `inputs`, and the
/// four paddings that the attributes of `op` resolve to where it has any.
#[verifier::loop_isolation(false)]
pub fn infer_output(op: &Op, inputs: &[&Tensor]) -> (r: Result<
    (TypedShape, Option<Dimensions>),
    SessionError,
>)
    ensures
        match inferred(*op, tensor_views(inputs@)) {
            Ok(out) => match r {
                Ok((shape, padding)) => {
                    &&& shape@ == (out.dims, out.elem_ty)
                    &&& padding is Some <==> out.padding is Some
                    &&& padding is Some ==> padding->0@ == out.padding->0
                },
                Err(_) => false,
            },
            Err(e) => r is Err && r->Err_0 == e,
        },
{
    let ghost views = tensor_views(inputs@);
    let n = inputs.len();
    assert forall|k: int| 0 <= k < n implies views[k] == (#[trigger] inputs@[k])@ by {}
    match op {
        Op::Loop | Op::Shape(_) | Op::NonMaxSuppression | Op::Constant(_) => {
            return Err(SessionError::UnsupportedOp);
        },
        _ => {},
    }
    let needed: usize = match op {
        Op::Conv2d(_) | Op::Add | Op::Sub | Op::Mul | Op::Div | Op::Pow | Op::Reshape | Op::Tile
        | Op::Gather(_) | Op::MatMul | Op::Gemm(_) => 2,
        Op::Resize(_) => 3,
        Op::Slice => 4,
        _ => 1,
    };
    if n < needed {
        return Err(SessionError::ShapeInference);
    }
    let x = inputs[0].dims();
    let elem_ty = inputs[0].elem_ty();
    let mut padding: Option<Dimensions> = None;
    let dims: Option<Dimensions> = match op {
        Op::Conv2d(conv) => match conv2d_output(conv, x, inputs[1].dims()) {
            Some((dims, pads)) => {
                padding = Some(pads);
                Some(dims)
            },
            None => None,
        },
        Op::MaxPool(pool) => match maxpool_output(pool, x) {
            Some((dims, pads)) => {
                padding = Some(pads);
                Some(dims)
            },
            None => None,
        },
        Op::Add | Op::Sub | Op::Mul | Op::Div | Op::Pow => x.broadcast(inputs[1].dims()),
        Op::GlobalAveragePool => global_average_pool_output(x),
        Op::Reshape => match int64_values(inputs[1]) {
            Some(target) => reshape_output(x, target.as_slice()),
            None => None,
        },
        Op::Flatten(flatten) => flatten_output(x, flatten.axis),
        Op::Resize(resize) => resize_output(resize, inputs),
        Op::Concat(concat) => concat_output(inputs, concat.axis),
        Op::Transpose(transpose) => transpose_output(x, &transpose.perm),
        Op::Squeeze(squeeze) => squeeze_output(x, &squeeze.axes),
        Op::Unsqueeze(unsqueeze) => unsqueeze_output(x, &unsqueeze.axes),
        Op::ReduceMin(reduce) => reduce_output(x, &reduce.axes, reduce.keep_dims),
        Op::ReduceMean(reduce) => reduce_output(x, &reduce.axes, reduce.keep_dims),
        Op::Tile => match int64_values(inputs[1]) {
            Some(repeats) => tile_output(x, repeats.as_slice()),
            None => None,
        },
        Op::Slice => {
            let steps = if n >= 5 {
                int64_values(inputs[4])
            } else {
                None
            };
            match (int64_values(inputs[1]), int64_values(inputs[2]), int64_values(inputs[3])) {
                (Some(starts), Some(ends), Some(axes)) => {
                    if n >= 5 {
                        match steps {
                            Some(steps) => slice_output(
                                x,
                                starts.as_slice(),
                                ends.as_slice(),
                                axes.as_slice(),
                                steps.as_slice(),
                            ),
                            None => None,
                        }
                    } else {
                        let mut ones: Vec<i64> = Vec::new();
                        let mut k: usize = 0;
                        while k < axes.len()
                            invariant
                                k <= axes@.len(),
                                ones@.len() == k,
                                forall|j: int| 0 <= j < k ==> ones@[j] == 1,
                            decreases axes@.len() - k,
                        {
                            ones.push(1);
                            k += 1;
                        }
                        assert(ones@ =~= slice_steps(views));
                        slice_output(
                            x,
                            starts.as_slice(),
                            ends.as_slice(),
                            axes.as_slice(),
                            ones.as_slice(),
                        )
                    }
                },
                _ => None,
            }
        },
        Op::Gather(gather) => gather_output(x, inputs[1].dims(), gather.axis),
        Op::MatMul => matmul_output(x, inputs[1].dims()),
        Op::Gemm(gemm) => gemm_output(x, inputs[1].dims(), gemm.trans_a, gemm.trans_b),
        _ => Some(x.duplicate()),
    };
    match dims {
        Some(dims) => Ok((TypedShape::new(dims, elem_ty), padding)),
        None => Err(SessionError::ShapeInference),
    }
}

/// Computes the output shape for `op`. Where the attributes of `op` leave
/// its padding to be derived or give it in short form, the four paddings
/// that they resolve to are written into `op`; an `op` that fails is left as
/// it was.
pub fn compute_output_shapes(op: &mut Op, inputs: &[&Tensor]) -> (r: Result<
    Vec<TypedShape>,
    SessionError,
>)
    ensures
        match inferred(*old(op), tensor_views(inputs@)) {
            Ok(out) => {
                &&& r is Ok
                &&& r->Ok_0@.len() == 1
                &&& r->Ok_0@[0]@ == (out.dims, out.elem_ty)
                &&& padding_resolved(*old(op), out.padding, *final(op))
            },
            Err(e) => r is Err && r->Err_0 == e && *final(op) == *old(op),
        },
{
    match infer_output(op, inputs) {
        Ok((shape, padding)) => {
            match padding {
                Some(pads) => {
                    match op {
                        Op::Conv2d(conv) => {
                            conv.padding = pads;
                        },
                        Op::MaxPool(pool) => {
                            pool.padding = pads;
                        },
                        _ => {},
                    }
                },
                None => {},
            }
            let mut shapes: Vec<TypedShape> = Vec::new();
            shapes.push(shape);
            Ok(shapes)
        },
        Err(e) => Err(e),
    }
}


} // verus!
