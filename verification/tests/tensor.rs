use altius_core::dim::Dimensions;
use altius_core::tensor::{
    compute_strides, F32Bits, Tensor, TensorElemType, TensorElemTypeExt, TypedShape,
};

fn dims(v: &[usize]) -> Dimensions {
    Dimensions(v.to_vec())
}

fn singles(v: &[f32]) -> Vec<F32Bits> {
    v.iter().map(|x| F32Bits(x.to_bits())).collect()
}

#[test]
fn create_tensors() {
    assert!(Tensor::zeros::<u8>(Dimensions(vec![1, 1, 28, 28])).verify());
    assert!(Tensor::zeros::<F32Bits>(Dimensions(vec![1, 1, 28, 28])).verify());
    assert!(Tensor::zeros::<i32>(Dimensions(vec![1, 1, 28, 28])).verify());
    assert!(Tensor::zeros::<i64>(Dimensions(vec![1, 1, 28, 28])).verify());
    let t = Tensor::new(
        vec![4, 4].into(),
        singles(&[
            1.0f32, 2.0, 3.0, 4.0, 5.0, 6.0, 7.0, 8.0, 9.0, 10.0, 11.0, 12.0, 13.0, 14.0, 15.0,
            16.0,
        ]),
    );
    assert!(t.verify());
}

#[test]
fn test_zeros() {
    fn all_zero<T: TensorElemTypeExt + PartialEq>(slice: &[T]) -> bool {
        slice.iter().all(|&x| x == T::zero())
    }
    let zeros_bool = Tensor::zeros::<bool>(vec![1, 1, 28, 28].into());
    let zeros_f32 = Tensor::zeros::<F32Bits>(vec![1, 1, 28, 28].into());
    let zeros_i32 = Tensor::zeros::<i32>(vec![1, 1, 28, 28].into());
    let zeros_i64 = Tensor::zeros::<i64>(vec![1, 1, 28, 28].into());
    assert!(all_zero(&zeros_bool.data::<bool>()));
    assert!(all_zero(&zeros_f32.data::<F32Bits>()));
    assert!(all_zero(&zeros_i32.data::<i32>()));
    assert!(all_zero(&zeros_i64.data::<i64>()));
    assert_eq!(zeros_bool.data::<bool>().len(), 784);
    assert_eq!(zeros_i64.data::<i64>().len(), 784);
}

#[test]
fn test_tensor_elem_type() {
    assert_eq!(TensorElemType::Bool.size(), 1);
    assert_eq!(TensorElemType::F32.size(), 4);
    assert_eq!(TensorElemType::I32.size(), 4);
    assert_eq!(TensorElemType::I64.size(), 8);
    assert!(TensorElemType::Bool.is_bool());
    assert!(TensorElemType::F32.is_f32());
    assert!(TensorElemType::I32.is_i32());
    assert!(TensorElemType::I64.is_i64());
}

#[test]
fn test_tensor_elem_type_ext() {
    assert!(<u8 as TensorElemTypeExt>::get_type().is_bool());
    assert!(<F32Bits as TensorElemTypeExt>::get_type().is_f32());
    assert!(<i32 as TensorElemTypeExt>::get_type().is_i32());
    assert!(<i64 as TensorElemTypeExt>::get_type().is_i64());
}

#[test]
fn elem_type_predicates_tell_types_apart() {
    assert!(!TensorElemType::F32.is_bool());
    assert!(!TensorElemType::I32.is_f32());
    assert!(!TensorElemType::I64.is_i32());
    assert!(!TensorElemType::Bool.is_i64());
    assert!(<bool as TensorElemTypeExt>::get_type().is_bool());
}

#[test]
fn buffer_length_is_count_times_size() {
    let cases = [
        (TensorElemType::Bool, 1usize),
        (TensorElemType::F32, 4),
        (TensorElemType::I32, 4),
        (TensorElemType::I64, 8),
    ];
    for (ty, size) in cases {
        let t = Tensor::zeros_of_type(ty, dims(&[2, 3, 5]));
        assert_eq!(t.bytes().len(), 30 * size);
        assert_eq!(t.bytes().len(), t.dims().total_elems() * t.elem_ty().size());
        assert!(t.bytes().iter().all(|&b| b == 0));
        assert!(t.verify());
        let u = Tensor::uninit_of_type(ty, dims(&[2, 3, 5]));
        assert_eq!(u.bytes().len(), 30 * size);
        assert!(u.verify());
    }
    assert_eq!(Tensor::uninit::<i32>(dims(&[7])).bytes().len(), 28);
}

#[test]
fn shape_only_tensor_does_not_verify() {
    let t = Tensor::empty_of_type(TensorElemType::F32, dims(&[2]));
    assert_eq!(t.bytes().len(), 0);
    assert_eq!(t.dims(), &dims(&[2]));
    assert_eq!(t.elem_ty(), TensorElemType::F32);
    assert!(!t.verify());
    let empty = Tensor::empty_of_type(TensorElemType::F32, dims(&[0, 4]));
    assert!(empty.verify());
}

#[test]
fn strides_are_row_major() {
    assert_eq!(compute_strides(&dims(&[1, 3, 4, 4])), dims(&[48, 16, 4, 1]));
    assert_eq!(compute_strides(&dims(&[5])), dims(&[1]));
    assert_eq!(compute_strides(&dims(&[])), dims(&[]));
    let t = Tensor::zeros::<i32>(dims(&[2, 3, 4]));
    assert_eq!(t.strides(), &[12, 4, 1]);
    assert_eq!(t.fixed_dims::<3>(), [2, 3, 4]);
}

#[test]
fn elements_are_stored_little_endian() {
    let t = Tensor::new(dims(&[2]), vec![1i32, -2]);
    assert_eq!(t.bytes(), &[1, 0, 0, 0, 0xfe, 0xff, 0xff, 0xff]);
    let t = Tensor::new(dims(&[1]), vec![0x0102_0304_0506_0708i64]);
    assert_eq!(t.bytes(), &[8, 7, 6, 5, 4, 3, 2, 1]);
    let t = Tensor::new(dims(&[1]), singles(&[1.0]));
    assert_eq!(t.bytes(), &[0, 0, 0x80, 0x3f]);
    let t = Tensor::new(dims(&[3]), vec![true, false, true]);
    assert_eq!(t.bytes(), &[1, 0, 1]);
    let t = Tensor::new(dims(&[2]), vec![7u8, 9]);
    assert_eq!(t.bytes(), &[7, 9]);
}

#[test]
fn data_gives_back_what_new_was_given() {
    let values = vec![1i64, -1, 256, i64::MIN, i64::MAX];
    assert_eq!(Tensor::new(dims(&[5]), values.clone()).data::<i64>(), values);
    let values = vec![0i32, -7, i32::MAX, i32::MIN];
    assert_eq!(Tensor::new(dims(&[4]), values.clone()).data::<i32>(), values);
    let values = singles(&[0.5, -3.25, 1e10]);
    assert_eq!(Tensor::new(dims(&[3]), values.clone()).data::<F32Bits>(), values);
    assert_eq!(Tensor::new(dims(&[2]), vec![true, false]).data::<bool>(), vec![true, false]);
}

#[test]
fn new_from_raw_keeps_the_bytes() {
    let t = Tensor::new_from_raw(dims(&[2]), TensorElemType::I32, vec![1, 0, 0, 0, 2, 0, 0, 0]);
    assert_eq!(t.data::<i32>(), vec![1, 2]);
    assert!(t.verify());
    let short = Tensor::new_from_raw(dims(&[2]), TensorElemType::I32, vec![1, 0, 0, 0]);
    assert!(!short.verify());
    let ragged = Tensor::new_from_raw(dims(&[1]), TensorElemType::F32, vec![0, 0, 0, 0, 0]);
    assert!(!ragged.verify());
    let long = Tensor::new_from_raw(dims(&[1]), TensorElemType::F32, vec![0; 8]);
    assert!(!long.verify());
    let exact = Tensor::new_from_raw(dims(&[1]), TensorElemType::F32, vec![0; 4]);
    assert!(exact.verify());
}

#[test]
fn reshape_round_trip_keeps_bytes() {
    let values: Vec<i32> = (0..24).collect();
    let t = Tensor::new(dims(&[2, 3, 4]), values.clone());
    let before = t.bytes().to_vec();
    let reshaped = t.clone().reshape_into(dims(&[6, 4]));
    assert_eq!(reshaped.dims(), &dims(&[6, 4]));
    assert_eq!(reshaped.strides(), &[4, 1]);
    assert_eq!(reshaped.bytes(), &before[..]);
    let back = reshaped.reshape_into(dims(&[2, 3, 4]));
    assert_eq!(back, t);
    assert_eq!(back.bytes(), &before[..]);
    assert_eq!(back.data::<i32>(), values);
}

#[test]
fn strides_for_broadcasting_examples() {
    let t = Tensor::zeros::<i32>(dims(&[3, 1, 1]));
    assert_eq!(t.strides(), &[1, 1, 1]);
    assert_eq!(t.strides_for_broadcasting(&[1, 3, 4, 4]), Some(dims(&[0, 1, 0, 0])));
    let t = Tensor::zeros::<i32>(dims(&[2, 3]));
    assert_eq!(t.strides_for_broadcasting(&[2, 3]), Some(dims(&[3, 1])));
    assert_eq!(t.strides_for_broadcasting(&[5, 2, 3]), Some(dims(&[0, 3, 1])));
    assert_eq!(t.strides_for_broadcasting(&[3]), None);
    assert_eq!(t.strides_for_broadcasting(&[2, 4]), None);
    let one = Tensor::zeros::<i32>(dims(&[1, 3]));
    assert_eq!(one.strides_for_broadcasting(&[4, 3]), Some(dims(&[0, 1])));
}

#[test]
fn strides_for_broadcasting_agree_with_own_strides() {
    let t = Tensor::zeros::<i32>(dims(&[4, 1, 5]));
    let target = [7usize, 4, 6, 5];
    let strides = t.strides_for_broadcasting(&target).unwrap();
    assert_eq!(strides.len(), target.len());
    let offset = target.len() - t.dims().len();
    for i in 0..t.dims().len() {
        if t.dims().0[i] == target[i + offset] {
            assert_eq!(strides.0[i + offset], t.strides()[i]);
        }
    }
}

#[test]
fn transpose_swaps_rows_and_columns() {
    let t = Tensor::new(dims(&[2, 3]), singles(&[1.0, 2.0, 3.0, 4.0, 5.0, 6.0]));
    let tt = t.to_transposed_2d();
    assert_eq!(tt.dims(), &dims(&[3, 2]));
    assert_eq!(tt.data::<F32Bits>(), singles(&[1.0, 4.0, 2.0, 5.0, 3.0, 6.0]));
    for x in 0..2 {
        for y in 0..3 {
            assert_eq!(tt.at_2d(y, x), t.at_2d(x, y));
        }
    }
    assert_eq!(tt.to_transposed_2d(), t);
}

#[test]
fn element_access_by_index() {
    let values: Vec<f32> = (0..24).map(|x| x as f32).collect();
    let t = Tensor::new(dims(&[2, 3, 4]), singles(&values));
    assert_eq!(t.at(&[1, 2, 3]), F32Bits(23.0f32.to_bits()));
    assert_eq!(t.at(&[1]), F32Bits(12.0f32.to_bits()));
    assert_eq!(t.at_3d(1, 0, 2), F32Bits(14.0f32.to_bits()));
    assert_eq!(t.at_2d(1, 2), F32Bits(20.0f32.to_bits()));
    let u = Tensor::new(dims(&[1, 2, 3, 4]), singles(&values));
    assert_eq!(u.at_4d(0, 1, 2, 3), F32Bits(23.0f32.to_bits()));
    let ints = Tensor::new(dims(&[2, 3]), vec![10i32, 11, 12, 13, 14, 15]);
    assert_eq!(ints.slice_at::<i32>(&[1]), &[13, 0, 0, 0, 14, 0, 0, 0, 15, 0, 0, 0]);
    assert_eq!(ints.slice_at::<i32>(&[1, 2]), &[15, 0, 0, 0]);
    assert_eq!(ints.slice_at::<i32>(&[]).len(), 24);
}

#[test]
fn writing_an_element_leaves_shared_buffers_alone() {
    let t = Tensor::new(dims(&[2, 2]), singles(&[1.0, 2.0, 3.0, 4.0]));
    let mut copy = t.clone();
    copy.at_2d_mut(1, 0).copy_from_slice(&9.0f32.to_le_bytes());
    assert_eq!(copy.data::<F32Bits>(), singles(&[1.0, 2.0, 9.0, 4.0]));
    assert_eq!(t.data::<F32Bits>(), singles(&[1.0, 2.0, 3.0, 4.0]));
    copy.at_mut(&[0, 1]).copy_from_slice(&7.0f32.to_le_bytes());
    assert_eq!(copy.at_2d(0, 1), F32Bits(7.0f32.to_bits()));
    let mut cube = Tensor::zeros::<F32Bits>(dims(&[2, 2, 2]));
    cube.at_3d_mut(1, 1, 1).copy_from_slice(&1.0f32.to_le_bytes());
    assert_eq!(cube.at_3d(1, 1, 1), F32Bits(1.0f32.to_bits()));
    assert_eq!(cube.at_3d(1, 1, 0), F32Bits(0));
    let mut hyper = Tensor::zeros::<F32Bits>(dims(&[1, 2, 2, 2]));
    hyper.at_4d_mut(0, 1, 0, 1).copy_from_slice(&2.0f32.to_le_bytes());
    assert_eq!(hyper.at_4d(0, 1, 0, 1), F32Bits(2.0f32.to_bits()));
}

#[test]
fn mutable_slices_write_through() {
    let mut t = Tensor::new(dims(&[3]), vec![1i32, 2, 3]);
    let shared = t.clone();
    {
        let tail = t.slice_at_mut::<i32>(&[1]);
        assert_eq!(tail.len(), 8);
        tail[0] = 20;
    }
    assert_eq!(t.data::<i32>(), vec![1, 20, 3]);
    assert_eq!(shared.data::<i32>(), vec![1, 2, 3]);
    t.data_mut::<i32>()[8] = 30;
    assert_eq!(t.data::<i32>(), vec![1, 20, 30]);
}

#[test]
fn buffers_can_be_replaced_and_shared() {
    let mut t = Tensor::zeros::<i32>(dims(&[2]));
    t.set_raw_vec(vec![5i32, 6]);
    assert_eq!(t.data::<i32>(), vec![5, 6]);
    assert_eq!(t.dims(), &dims(&[2]));
    let mut u = Tensor::zeros::<i32>(dims(&[1, 2]));
    u.copy_data_from(&t);
    assert_eq!(u.data::<i32>(), vec![5, 6]);
    assert_eq!(u.dims(), &dims(&[1, 2]));
    let d = t.duplicate();
    assert_eq!(d, t);
}

#[test]
fn typed_shape_holds_its_parts() {
    let s = TypedShape::new(dims(&[1, 2]), TensorElemType::I64);
    assert_eq!(s.dims, dims(&[1, 2]));
    assert_eq!(s.elem_ty, TensorElemType::I64);
}

#[test]
fn fits_usize_tells_large_shapes() {
    assert!(dims(&[1, 3, 224, 224]).fits_usize());
    assert!(!dims(&[usize::MAX, 2]).fits_usize());
    assert!(!dims(&[0, usize::MAX, 2]).fits_usize());
    assert!(dims(&[usize::MAX, 0]).fits_usize());
}
