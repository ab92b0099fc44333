use altius_core::dim::Dimensions;
use altius_core::error::SessionError;
use altius_core::node::{
    compute_output_shapes, BatchNormalization, Cast, Concat, Constant, Conv2d, Flatten, Gather,
    Gemm, HardSigmoid, LeakyReLU, MaxPool, Op, ReduceMean, ReduceMin, Resize, Shape, Softmax,
    Squeeze, Transpose, Unsqueeze,
};
use altius_core::shape::{
    flatten_output, gather_output, infer_output, matmul_output, reshape_output, scale_extent,
    slice_output, tile_output,
};
use altius_core::tensor::{F32Bits, Tensor, TensorElemType, TypedShape};

fn dims(v: &[usize]) -> Dimensions {
    Dimensions(v.to_vec())
}

fn shaped(v: &[usize]) -> Tensor {
    Tensor::empty_of_type(TensorElemType::F32, dims(v))
}

fn ints(v: &[i64]) -> Tensor {
    Tensor::new(dims(&[v.len()]), v.to_vec())
}

fn floats(v: &[f32]) -> Tensor {
    Tensor::new(dims(&[v.len()]), v.iter().map(|x| F32Bits(x.to_bits())).collect::<Vec<_>>())
}

fn bits(x: f32) -> F32Bits {
    F32Bits(x.to_bits())
}

fn infer(op: &mut Op, inputs: &[&Tensor]) -> Result<Vec<usize>, SessionError> {
    compute_output_shapes(op, inputs).map(|shapes| {
        assert_eq!(shapes.len(), 1);
        assert_eq!(shapes[0].elem_ty, inputs[0].elem_ty());
        shapes[0].dims.0.clone()
    })
}

fn conv(auto_pad: &str, kernel: &[usize], strides: &[usize], padding: &[usize]) -> Conv2d {
    Conv2d {
        auto_pad: auto_pad.to_string(),
        dilations: dims(&[1, 1]),
        group: 1,
        kernel_shape: dims(kernel),
        strides: dims(strides),
        padding: dims(padding),
    }
}

fn pool(auto_pad: &str, kernel: &[usize], strides: &[usize], padding: &[usize]) -> MaxPool {
    MaxPool {
        auto_pad: auto_pad.to_string(),
        kernel_shape: dims(kernel),
        strides: dims(strides),
        padding: dims(padding),
    }
}

fn resize_nearest() -> Resize {
    Resize {
        coordinate_transformation_mode: "asymmetric".to_string(),
        cubic_coeff_a: bits(-0.75),
        exclude_outside: 0,
        extrapolation_value: bits(0.0),
        mode: "nearest".to_string(),
        nearest_mode: "floor".to_string(),
    }
}

#[test]
fn conv2d_same_upper_resolves_padding() {
    let mut op = Op::Conv2d(conv("SAME_UPPER", &[5, 5], &[1, 1], &[]));
    let x = shaped(&[1, 1, 28, 28]);
    let w = shaped(&[8, 1, 5, 5]);
    assert_eq!(infer(&mut op, &[&x, &w]), Ok(vec![1, 8, 28, 28]));
    match op {
        Op::Conv2d(c) => {
            assert_eq!(c.padding, dims(&[2, 2, 2, 2]));
            assert_eq!(c.auto_pad, "SAME_UPPER");
            assert_eq!(c.kernel_shape, dims(&[5, 5]));
        }
        _ => panic!("the operator changed its kind"),
    }
}

#[test]
fn conv2d_same_upper_puts_odd_padding_after() {
    let mut op = Op::Conv2d(conv("SAME_UPPER", &[4, 2], &[2, 1], &[]));
    let x = shaped(&[2, 3, 7, 5]);
    let w = shaped(&[6, 3, 4, 2]);
    assert_eq!(infer(&mut op, &[&x, &w]), Ok(vec![2, 6, 4, 5]));
    match op {
        Op::Conv2d(c) => assert_eq!(c.padding, dims(&[1, 0, 2, 1])),
        _ => panic!("the operator changed its kind"),
    }
}

#[test]
fn conv2d_explicit_padding() {
    let mut op = Op::Conv2d(conv("", &[3, 3], &[2, 2], &[1, 1]));
    let x = shaped(&[1, 3, 224, 224]);
    let w = shaped(&[32, 3, 3, 3]);
    assert_eq!(infer(&mut op, &[&x, &w]), Ok(vec![1, 32, 112, 112]));
    match &op {
        Op::Conv2d(c) => assert_eq!(c.padding, dims(&[1, 1, 1, 1])),
        _ => panic!("the operator changed its kind"),
    }
    let mut op = Op::Conv2d(conv("NOTSET", &[3, 3], &[1, 1], &[0, 1, 2, 3]));
    let x = shaped(&[1, 3, 10, 10]);
    assert_eq!(infer(&mut op, &[&x, &w]), Ok(vec![1, 32, 10, 12]));
    match &op {
        Op::Conv2d(c) => assert_eq!(c.padding, dims(&[0, 1, 2, 3])),
        _ => panic!("the operator changed its kind"),
    }
}

#[test]
fn conv2d_with_dilation() {
    let mut c = conv("", &[3, 3], &[1, 1], &[0, 0, 0, 0]);
    c.dilations = dims(&[2, 2]);
    let mut op = Op::Conv2d(c);
    let x = shaped(&[1, 1, 9, 9]);
    let w = shaped(&[4, 1, 3, 3]);
    assert_eq!(infer(&mut op, &[&x, &w]), Ok(vec![1, 4, 5, 5]));
}

#[test]
fn conv2d_rejects_what_it_cannot_shape() {
    let x = shaped(&[1, 1, 28, 28]);
    let w = shaped(&[8, 1, 5, 5]);
    let cases = [
        conv("VALID", &[5, 5], &[1, 1], &[]),
        conv("", &[5, 5], &[1, 1], &[]),
        conv("", &[5, 5], &[1, 1], &[1, 2, 3]),
        conv("", &[5, 5], &[0, 1], &[0, 0]),
        conv("", &[0, 5], &[1, 1], &[0, 0]),
        conv("", &[5], &[1, 1], &[0, 0]),
        conv("", &[40, 5], &[1, 1], &[0, 0]),
    ];
    for c in cases {
        let before = c.clone();
        let mut op = Op::Conv2d(c);
        assert_eq!(infer(&mut op, &[&x, &w]), Err(SessionError::ShapeInference));
        assert_eq!(op, Op::Conv2d(before));
    }
    let mut op = Op::Conv2d(conv("SAME_UPPER", &[5, 5], &[1, 1], &[]));
    assert_eq!(infer(&mut op, &[&x]), Err(SessionError::ShapeInference));
    let flat = shaped(&[28, 28]);
    assert_eq!(infer(&mut op, &[&flat, &w]), Err(SessionError::ShapeInference));
}

#[test]
fn maxpool_halves_the_extents() {
    let mut op = Op::MaxPool(pool("", &[2, 2], &[2, 2], &[0, 0, 0, 0]));
    let x = shaped(&[1, 8, 28, 28]);
    assert_eq!(infer(&mut op, &[&x]), Ok(vec![1, 8, 14, 14]));
    let mut op = Op::MaxPool(pool("", &[3, 3], &[3, 3], &[0, 0]));
    let x = shaped(&[1, 16, 14, 14]);
    assert_eq!(infer(&mut op, &[&x]), Ok(vec![1, 16, 4, 4]));
    match &op {
        Op::MaxPool(p) => assert_eq!(p.padding, dims(&[0, 0, 0, 0])),
        _ => panic!("the operator changed its kind"),
    }
    let mut op = Op::MaxPool(pool("SAME_UPPER", &[3, 3], &[2, 2], &[]));
    let x = shaped(&[1, 8, 7, 8]);
    assert_eq!(infer(&mut op, &[&x]), Ok(vec![1, 8, 4, 4]));
    match &op {
        Op::MaxPool(p) => assert_eq!(p.padding, dims(&[1, 0, 1, 1])),
        _ => panic!("the operator changed its kind"),
    }
    let mut op = Op::MaxPool(pool("", &[2, 2], &[2, 2], &[]));
    assert_eq!(infer(&mut op, &[&x]), Err(SessionError::ShapeInference));
}

#[test]
fn global_average_pool_keeps_batch_and_channels() {
    let x = shaped(&[2, 16, 7, 7]);
    assert_eq!(infer(&mut Op::GlobalAveragePool, &[&x]), Ok(vec![2, 16, 1, 1]));
    let x = shaped(&[16, 7, 7]);
    assert_eq!(infer(&mut Op::GlobalAveragePool, &[&x]), Err(SessionError::ShapeInference));
}

#[test]
fn broadcast_add_shape() {
    let a = shaped(&[1, 3, 4, 4]);
    let b = shaped(&[3, 1, 1]);
    for mut op in [Op::Add, Op::Sub, Op::Mul, Op::Div, Op::Pow] {
        assert_eq!(infer(&mut op, &[&a, &b]), Ok(vec![1, 3, 4, 4]));
        assert_eq!(infer(&mut op, &[&b, &a]), Ok(vec![1, 3, 4, 4]));
    }
    let c = shaped(&[10, 20]);
    let d = shaped(&[10, 20, 30]);
    assert_eq!(infer(&mut Op::Add, &[&c, &d]), Err(SessionError::ShapeInference));
    assert_eq!(infer(&mut Op::Add, &[&c]), Err(SessionError::ShapeInference));
}

#[test]
fn output_has_the_type_of_the_first_input() {
    let a = Tensor::empty_of_type(TensorElemType::I32, dims(&[2, 2]));
    let b = Tensor::empty_of_type(TensorElemType::F32, dims(&[2, 2]));
    let shapes = compute_output_shapes(&mut Op::Add, &[&a, &b]).unwrap();
    assert_eq!(shapes, vec![TypedShape::new(dims(&[2, 2]), TensorElemType::I32)]);
    let (shape, padding) = infer_output(&Op::ReLU, &[&b]).unwrap();
    assert_eq!(shape, TypedShape::new(dims(&[2, 2]), TensorElemType::F32));
    assert_eq!(padding, None);
    let (_, padding) = infer_output(
        &Op::MaxPool(pool("", &[2, 2], &[2, 2], &[0, 0])),
        &[&shaped(&[1, 1, 4, 4])],
    )
    .unwrap();
    assert_eq!(padding, Some(dims(&[0, 0, 0, 0])));
}

#[test]
fn reshape_with_inferred_dim() {
    let x = shaped(&[1, 16, 4, 4]);
    assert_eq!(infer(&mut Op::Reshape, &[&x, &ints(&[1, 256])]), Ok(vec![1, 256]));
    assert_eq!(infer(&mut Op::Reshape, &[&x, &ints(&[1, -1])]), Ok(vec![1, 256]));
    assert_eq!(infer(&mut Op::Reshape, &[&x, &ints(&[-1, 4])]), Ok(vec![64, 4]));
    assert_eq!(infer(&mut Op::Reshape, &[&x, &ints(&[-1, 3])]), Ok(vec![85, 3]));
    assert_eq!(infer(&mut Op::Reshape, &[&x, &ints(&[])]), Ok(vec![]));
    assert_eq!(reshape_output(&dims(&[2, 3]), &[6, 1]), Some(dims(&[6, 1])));
}

#[test]
fn reshape_rejects_bad_targets() {
    let x = shaped(&[1, 16, 4, 4]);
    let bad: [&[i64]; 3] = [&[-1, -1], &[-2, 4], &[-1, 0]];
    for target in bad {
        assert_eq!(
            infer(&mut Op::Reshape, &[&x, &ints(target)]),
            Err(SessionError::ShapeInference)
        );
    }
    let floats = floats(&[1.0, 256.0]);
    assert_eq!(infer(&mut Op::Reshape, &[&x, &floats]), Err(SessionError::ShapeInference));
    assert_eq!(infer(&mut Op::Reshape, &[&x]), Err(SessionError::ShapeInference));
    assert_eq!(reshape_output(&dims(&[usize::MAX, 2]), &[1]), None);
}

#[test]
fn flatten_multiplies_both_sides_of_the_axis() {
    let x = shaped(&[2, 3, 4, 5]);
    let cases: [(i64, &[usize]); 5] =
        [(0, &[1, 120]), (1, &[2, 60]), (2, &[6, 20]), (3, &[24, 5]), (4, &[120, 1])];
    for (axis, expected) in cases {
        assert_eq!(infer(&mut Op::Flatten(Flatten { axis }), &[&x]), Ok(expected.to_vec()));
    }
    for axis in [-1, 5] {
        assert_eq!(
            infer(&mut Op::Flatten(Flatten { axis }), &[&x]),
            Err(SessionError::ShapeInference)
        );
    }
    assert_eq!(flatten_output(&dims(&[usize::MAX, 2, 0]), 2), None);
    assert_eq!(flatten_output(&dims(&[usize::MAX, 2, 0]), 1), Some(dims(&[usize::MAX, 0])));
}

#[test]
fn resize_takes_sizes_from_the_fourth_input() {
    let x = shaped(&[1, 3, 4, 4]);
    let roi = floats(&[]);
    let scales = floats(&[]);
    let sizes = ints(&[1, 3, 8, 10]);
    let mut op = Op::Resize(resize_nearest());
    assert_eq!(infer(&mut op, &[&x, &roi, &scales, &sizes]), Ok(vec![1, 3, 8, 10]));
    let negative = ints(&[1, 3, -8, 10]);
    assert_eq!(
        infer(&mut op, &[&x, &roi, &scales, &negative]),
        Err(SessionError::ShapeInference)
    );
    let five = ints(&[1, 3, 8, 10, 2]);
    assert_eq!(infer(&mut op, &[&x, &roi, &scales, &five]), Err(SessionError::ShapeInference));
    let not_ints = Tensor::zeros::<i32>(dims(&[4]));
    assert_eq!(
        infer(&mut op, &[&x, &roi, &scales, &not_ints]),
        Err(SessionError::ShapeInference)
    );
}

#[test]
fn resize_scales_each_extent() {
    let x = shaped(&[1, 3, 4, 5]);
    let roi = floats(&[]);
    let mut op = Op::Resize(resize_nearest());
    assert_eq!(infer(&mut op, &[&x, &roi, &floats(&[1.0, 1.0, 2.0, 2.0])]), Ok(vec![1, 3, 8, 10]));
    assert_eq!(infer(&mut op, &[&x, &roi, &floats(&[1.0, 1.0, 0.5, 1.5])]), Ok(vec![1, 3, 2, 7]));
    assert_eq!(infer(&mut op, &[&x, &roi, &floats(&[1.0, 0.0, 0.3, 2.75])]), Ok(vec![1, 0, 1, 13]));
    for bad in [
        floats(&[1.0, 1.0, 2.0]),
        floats(&[1.0, 1.0, -2.0, 2.0]),
        floats(&[1.0, 1.0, f32::NAN, 2.0]),
        floats(&[1.0, 1.0, f32::INFINITY, 2.0]),
        floats(&[1.0, 1.0, 1e30, 2.0]),
        ints(&[1, 1, 2, 2]),
    ] {
        assert_eq!(infer(&mut op, &[&x, &roi, &bad]), Err(SessionError::ShapeInference));
    }
    let mut linear = resize_nearest();
    linear.mode = "linear".to_string();
    assert_eq!(
        infer(&mut Op::Resize(linear), &[&x, &roi, &floats(&[1.0, 1.0, 2.0, 2.0])]),
        Err(SessionError::ShapeInference)
    );
    let flat = shaped(&[4, 5]);
    assert_eq!(
        infer(&mut op, &[&flat, &roi, &floats(&[1.0, 1.0, 2.0, 2.0])]),
        Err(SessionError::ShapeInference)
    );
    assert_eq!(infer(&mut op, &[&x, &roi]), Err(SessionError::ShapeInference));
}

#[test]
fn scale_extent_is_the_whole_part_of_the_product() {
    assert_eq!(scale_extent(7, bits(1.0)), Some(7));
    assert_eq!(scale_extent(7, bits(0.5)), Some(3));
    assert_eq!(scale_extent(7, bits(2.5)), Some(17));
    assert_eq!(scale_extent(3, bits(0.1)), Some(0));
    assert_eq!(scale_extent(10, bits(0.1)), Some(1));
    assert_eq!(scale_extent(1000, bits(1.001)), Some(1001));
    assert_eq!(scale_extent(0, bits(-3.0)), Some(0));
    assert_eq!(scale_extent(5, bits(-0.0)), Some(0));
    assert_eq!(scale_extent(5, bits(-1.0)), None);
    assert_eq!(scale_extent(5, bits(f32::MIN_POSITIVE)), Some(0));
    assert_eq!(scale_extent(5, F32Bits(1)), Some(0));
    assert_eq!(scale_extent(1, bits(16777216.0)), Some(16777216));
    assert_eq!(scale_extent(3, bits(4294967296.0)), Some(3 * 4294967296));
    assert_eq!(scale_extent(1, bits(f32::MAX)), None);
    assert_eq!(scale_extent(usize::MAX, bits(2.0)), None);
    assert_eq!(scale_extent(usize::MAX, bits(1.0)), Some(usize::MAX));
    assert_eq!(scale_extent(usize::MAX, bits(0.5)), Some(usize::MAX / 2));
    assert_eq!(scale_extent(1, bits(f32::NAN)), None);
    assert_eq!(scale_extent(1, bits(f32::INFINITY)), None);
    assert_eq!(scale_extent(0, bits(f32::INFINITY)), None);
}

#[test]
fn concat_adds_the_extents_at_the_axis() {
    let a = shaped(&[2, 3, 4]);
    let b = shaped(&[2, 5, 4]);
    let c = shaped(&[2, 1, 4]);
    let mut op = Op::Concat(Concat { axis: 1 });
    assert_eq!(infer(&mut op, &[&a, &b, &c]), Ok(vec![2, 9, 4]));
    assert_eq!(infer(&mut op, &[&a]), Ok(vec![2, 3, 4]));
    assert_eq!(infer(&mut op, &[]), Err(SessionError::ShapeInference));
    let flat = shaped(&[2, 3]);
    assert_eq!(infer(&mut op, &[&a, &flat]), Err(SessionError::ShapeInference));
    for axis in [-1, 3] {
        let mut op = Op::Concat(Concat { axis });
        assert_eq!(infer(&mut op, &[&a, &b]), Err(SessionError::ShapeInference));
    }
}

#[test]
fn transpose_reads_the_extent_at_perm() {
    let x = shaped(&[2, 3, 4]);
    let mut op = Op::Transpose(Transpose { perm: vec![2, 0, 1] });
    assert_eq!(infer(&mut op, &[&x]), Ok(vec![4, 2, 3]));
    let mut op = Op::Transpose(Transpose { perm: vec![0, 2, 1] });
    assert_eq!(infer(&mut op, &[&x]), Ok(vec![2, 4, 3]));
    for perm in [vec![], vec![0, 1], vec![0, 1, 1], vec![0, 1, 3], vec![0, -1, 2], vec![0, 1, 2, 3]]
    {
        let mut op = Op::Transpose(Transpose { perm });
        assert_eq!(infer(&mut op, &[&x]), Err(SessionError::ShapeInference));
    }
}

#[test]
fn squeeze_and_unsqueeze() {
    let x = shaped(&[1, 3, 1, 5]);
    let mut op = Op::Squeeze(Squeeze { axes: vec![0, 2] });
    assert_eq!(infer(&mut op, &[&x]), Ok(vec![3, 5]));
    let mut op = Op::Squeeze(Squeeze { axes: vec![2] });
    assert_eq!(infer(&mut op, &[&x]), Ok(vec![1, 3, 5]));
    for axes in [vec![], vec![1], vec![4], vec![-1]] {
        let mut op = Op::Squeeze(Squeeze { axes });
        assert_eq!(infer(&mut op, &[&x]), Err(SessionError::ShapeInference));
    }
    let y = shaped(&[3, 5]);
    let mut op = Op::Unsqueeze(Unsqueeze { axes: vec![0, 2] });
    assert_eq!(infer(&mut op, &[&y]), Ok(vec![1, 3, 1, 5]));
    let mut op = Op::Unsqueeze(Unsqueeze { axes: vec![2, 0] });
    assert_eq!(infer(&mut op, &[&y]), Ok(vec![1, 3, 5, 1]));
    let mut op = Op::Unsqueeze(Unsqueeze { axes: vec![2, 3] });
    assert_eq!(infer(&mut op, &[&y]), Ok(vec![3, 5, 1, 1]));
    for axes in [vec![], vec![3], vec![-1]] {
        let mut op = Op::Unsqueeze(Unsqueeze { axes });
        assert_eq!(infer(&mut op, &[&y]), Err(SessionError::ShapeInference));
    }
}

#[test]
fn reductions_drop_or_keep_axes() {
    let x = shaped(&[2, 3, 4]);
    let mut op = Op::ReduceMean(ReduceMean { axes: vec![-1], keep_dims: true });
    assert_eq!(infer(&mut op, &[&x]), Ok(vec![2, 3, 1]));
    let mut op = Op::ReduceMean(ReduceMean { axes: vec![-1], keep_dims: false });
    assert_eq!(infer(&mut op, &[&x]), Ok(vec![2, 3]));
    let mut op = Op::ReduceMin(ReduceMin { axes: vec![0, 2], keep_dims: false });
    assert_eq!(infer(&mut op, &[&x]), Ok(vec![3]));
    let mut op = Op::ReduceMin(ReduceMin { axes: vec![0, 1, 2], keep_dims: false });
    assert_eq!(infer(&mut op, &[&x]), Ok(vec![1]));
    let mut op = Op::ReduceMin(ReduceMin { axes: vec![0, -3, 1], keep_dims: true });
    assert_eq!(infer(&mut op, &[&x]), Ok(vec![1, 1, 4]));
    let mut op = Op::ReduceMin(ReduceMin { axes: vec![], keep_dims: false });
    assert_eq!(infer(&mut op, &[&x]), Ok(vec![2, 3, 4]));
    for axes in [vec![3], vec![-4]] {
        let mut op = Op::ReduceMean(ReduceMean { axes, keep_dims: true });
        assert_eq!(infer(&mut op, &[&x]), Err(SessionError::ShapeInference));
    }
    let scalar = shaped(&[]);
    let mut op = Op::ReduceMin(ReduceMin { axes: vec![], keep_dims: false });
    assert_eq!(infer(&mut op, &[&scalar]), Ok(vec![1]));
}

#[test]
fn tile_multiplies_by_repeats() {
    let x = shaped(&[2, 3]);
    assert_eq!(infer(&mut Op::Tile, &[&x, &ints(&[2, 4])]), Ok(vec![4, 12]));
    assert_eq!(infer(&mut Op::Tile, &[&x, &ints(&[0, 1, 9])]), Ok(vec![0, 3]));
    assert_eq!(infer(&mut Op::Tile, &[&x, &ints(&[2])]), Err(SessionError::ShapeInference));
    assert_eq!(infer(&mut Op::Tile, &[&x, &ints(&[2, -1])]), Err(SessionError::ShapeInference));
    assert_eq!(tile_output(&dims(&[usize::MAX]), &[2]), None);
}

#[test]
fn slice_divides_the_span_by_the_step() {
    let x = shaped(&[1, 8, 5]);
    let starts = ints(&[0]);
    let ends = ints(&[4]);
    let axes = ints(&[1]);
    let steps = ints(&[2]);
    assert_eq!(infer(&mut Op::Slice, &[&x, &starts, &ends, &axes, &steps]), Ok(vec![1, 2, 5]));
    assert_eq!(infer(&mut Op::Slice, &[&x, &starts, &ends, &axes]), Ok(vec![1, 4, 5]));
    let back = ints(&[-1]);
    assert_eq!(infer(&mut Op::Slice, &[&x, &starts, &ends, &back]), Ok(vec![1, 8, 4]));
    assert_eq!(
        slice_output(&dims(&[6, 7]), &[1, 2], &[5, 7], &[0, 1], &[1, 2]),
        Some(dims(&[4, 2]))
    );
}

#[test]
fn slice_rejects_bad_bounds() {
    let x = dims(&[1, 8, 5]);
    assert_eq!(slice_output(&x, &[0], &[4], &[3], &[1]), None);
    assert_eq!(slice_output(&x, &[0], &[4], &[-4], &[1]), None);
    assert_eq!(slice_output(&x, &[0], &[4], &[1], &[0]), None);
    assert_eq!(slice_output(&x, &[4], &[0], &[1], &[1]), None);
    assert_eq!(slice_output(&x, &[2], &[2], &[1], &[1]), None);
    assert_eq!(slice_output(&x, &[0], &[1], &[1], &[2]), None);
    assert_eq!(slice_output(&x, &[-1], &[4], &[1], &[1]), None);
    assert_eq!(slice_output(&x, &[0], &[-4], &[1], &[1]), None);
    assert_eq!(slice_output(&x, &[0], &[4], &[1], &[-1]), None);
    assert_eq!(slice_output(&x, &[0, -1], &[4], &[1], &[1]), None);
    assert_eq!(slice_output(&x, &[], &[], &[], &[]), Some(x.clone()));
    let t = shaped(&[1, 8, 5]);
    let ok = ints(&[0]);
    assert_eq!(infer(&mut Op::Slice, &[&t, &ok, &ok]), Err(SessionError::ShapeInference));
    let not_ints = floats(&[0.0]);
    assert_eq!(
        infer(&mut Op::Slice, &[&t, &ok, &ints(&[4]), &not_ints]),
        Err(SessionError::ShapeInference)
    );
}

#[test]
fn gather_drops_or_replaces_the_axis() {
    let data = shaped(&[5, 6, 7]);
    let scalar = shaped(&[]);
    let one = shaped(&[1]);
    let row = shaped(&[1, 9]);
    assert_eq!(infer(&mut Op::Gather(Gather { axis: 1 }), &[&data, &scalar]), Ok(vec![5, 7]));
    assert_eq!(infer(&mut Op::Gather(Gather { axis: 0 }), &[&data, &one]), Ok(vec![6, 7]));
    assert_eq!(infer(&mut Op::Gather(Gather { axis: 0 }), &[&data, &row]), Ok(vec![1, 9, 6, 7]));
    assert_eq!(
        infer(&mut Op::Gather(Gather { axis: 1 }), &[&data, &row]),
        Err(SessionError::ShapeInference)
    );
    assert_eq!(
        infer(&mut Op::Gather(Gather { axis: 3 }), &[&data, &scalar]),
        Err(SessionError::ShapeInference)
    );
    assert_eq!(
        infer(&mut Op::Gather(Gather { axis: -1 }), &[&data, &scalar]),
        Err(SessionError::ShapeInference)
    );
    assert_eq!(gather_output(&dims(&[5, 6]), &dims(&[2, 9]), 0), None);
    assert_eq!(gather_output(&dims(&[5, 6]), &dims(&[3]), 0), None);
}

#[test]
fn matmul_shapes() {
    let cases: [(&[usize], &[usize], Option<&[usize]>); 9] = [
        (&[1, 256], &[256, 10], Some(&[1, 10])),
        (&[2, 3, 4], &[4, 5], Some(&[2, 3, 5])),
        (&[2, 3, 4], &[2, 4, 5], Some(&[2, 3, 5])),
        (&[1, 6, 3, 4], &[1, 6, 4, 5], Some(&[1, 6, 3, 5])),
        (&[1, 256], &[255, 10], None),
        (&[2, 3, 4], &[3, 4, 5], None),
        (&[2, 6, 3, 4], &[2, 6, 4, 5], None),
        (&[1, 6, 3, 4], &[1, 6, 5, 5], None),
        (&[4], &[4], None),
    ];
    for (a, b, expected) in cases {
        assert_eq!(matmul_output(&dims(a), &dims(b)), expected.map(dims));
    }
    let a = shaped(&[1, 256]);
    let b = shaped(&[256, 10]);
    assert_eq!(infer(&mut Op::MatMul, &[&a, &b]), Ok(vec![1, 10]));
    assert_eq!(infer(&mut Op::MatMul, &[&b, &a]), Err(SessionError::ShapeInference));
}

#[test]
fn gemm_shapes() {
    let gemm = |trans_a, trans_b| {
        Op::Gemm(Gemm { alpha: bits(1.0), beta: bits(1.0), trans_a, trans_b })
    };
    let a = shaped(&[3, 4]);
    let b = shaped(&[4, 5]);
    let at = shaped(&[4, 3]);
    let bt = shaped(&[5, 4]);
    assert_eq!(infer(&mut gemm(false, false), &[&a, &b]), Ok(vec![3, 5]));
    assert_eq!(infer(&mut gemm(true, false), &[&at, &b]), Ok(vec![3, 5]));
    assert_eq!(infer(&mut gemm(false, true), &[&a, &bt]), Ok(vec![3, 5]));
    assert_eq!(infer(&mut gemm(true, true), &[&at, &bt]), Ok(vec![3, 5]));
    assert_eq!(infer(&mut gemm(false, false), &[&a, &bt]), Err(SessionError::ShapeInference));
    let flat = shaped(&[4]);
    assert_eq!(infer(&mut gemm(false, false), &[&a, &flat]), Err(SessionError::ShapeInference));
}

#[test]
fn elementwise_operators_keep_the_shape() {
    let x = shaped(&[2, 3, 4]);
    let ops = vec![
        Op::Sqrt,
        Op::ReLU,
        Op::Gelu,
        Op::LeakyReLU(LeakyReLU { alpha: bits(0.1) }),
        Op::Sigmoid,
        Op::Erf,
        Op::Clip,
        Op::Softmax(Softmax { axis: -1 }),
        Op::Cast(Cast { to: TensorElemType::I32 }),
        Op::Round,
        Op::Exp,
        Op::BatchNormalization(BatchNormalization {
            epsilon: bits(1e-5),
            momentum: bits(0.9),
            training_mode: false,
        }),
        Op::HardSigmoid(HardSigmoid { alpha: bits(0.2), beta: bits(0.5) }),
    ];
    for mut op in ops {
        let before = op.clone();
        assert_eq!(infer(&mut op, &[&x]), Ok(vec![2, 3, 4]));
        assert_eq!(op, before);
        assert_eq!(infer(&mut op, &[]), Err(SessionError::ShapeInference));
    }
}

#[test]
fn operators_without_a_rule_are_not_supported() {
    let x = shaped(&[2, 3]);
    let ops = vec![
        Op::Loop,
        Op::Shape(Shape { end: None, start: 0 }),
        Op::NonMaxSuppression,
        Op::Constant(Constant { value: shaped(&[1]) }),
    ];
    for mut op in ops {
        assert_eq!(infer(&mut op, &[&x, &x, &x]), Err(SessionError::UnsupportedOp));
        assert_eq!(infer(&mut op, &[]), Err(SessionError::UnsupportedOp));
    }
}

#[test]
fn operator_names() {
    assert_eq!(Op::Add.name(), "Add");
    assert_eq!(Op::Conv2d(Conv2d::default()).name(), "Conv2d");
    assert_eq!(Op::MaxPool(MaxPool::default()).name(), "MaxPool");
    assert_eq!(Op::NonMaxSuppression.name(), "NonMaxSuppression");
    assert_eq!(Op::GlobalAveragePool.name(), "GlobalAveragePool");
    assert_eq!(Op::Constant(Constant { value: shaped(&[1]) }).name(), "Constant");
    assert_eq!(Op::ReLU.name(), "ReLU");
}
