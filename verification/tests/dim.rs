use altius_core::dim::{broadcast, Dimensions};

fn dims(v: &[usize]) -> Dimensions {
    Dimensions(v.to_vec())
}

#[test]
fn total_elems() {
    assert_eq!(Dimensions(vec![1, 1, 28, 28]).total_elems(), 784)
}

#[test]
fn broadcast_1() {
    let one = Dimensions::from(vec![1]);
    let shape = broadcast(&[one.clone()]).unwrap();
    assert_eq!(shape, one)
}

#[test]
fn broadcast_2() {
    let one = Dimensions::from(vec![1]);
    let four = Dimensions::from(vec![4, 1]);
    let shape = broadcast(&[one, four]).unwrap();
    assert_eq!(shape, vec![4, 1].into())
}

#[test]
fn broadcast_3() {
    let one = Dimensions::from(vec![1]);
    let four = Dimensions::from(vec![4, 1]);
    let shape = broadcast(&[four, one]).unwrap();
    assert_eq!(shape, vec![4, 1].into())
}

#[test]
#[should_panic]
fn broadcast_4() {
    let one = Dimensions::from(vec![10, 20]);
    let four = Dimensions::from(vec![10, 20, 30]);
    let _ = broadcast(&[four, one]).unwrap();
}

#[test]
fn broadcast_5() {
    let x = Dimensions::from(vec![1, 3, 3]);
    let y = Dimensions::from(vec![5, 1, 3, 3]);
    let shape = broadcast(&[x, y]).unwrap();
    assert_eq!(shape, vec![5, 1, 3, 3].into())
}

#[test]
fn broadcast_6() {
    let x = Dimensions::from(vec![1, 3, 1]);
    let y = Dimensions::from(vec![5, 3, 10]);
    let shape = broadcast(&[x, y]).unwrap();
    assert_eq!(shape, vec![5, 3, 10].into())
}

#[test]
fn broadcast_7() {
    let x = Dimensions::from(vec![1, 3, 4, 4]);
    let y = Dimensions::from(vec![3, 1, 1]);
    let shape = broadcast(&[x, y]).unwrap();
    assert_eq!(shape, vec![1, 3, 4, 4,].into())
}

#[test]
fn broadcast_of_nothing_is_none() {
    assert_eq!(broadcast(&[]), None);
}

#[test]
fn broadcast_is_commutative_on_samples() {
    let a = dims(&[1, 3, 4, 4]);
    let b = dims(&[3, 1, 1]);
    assert_eq!(a.broadcast(&b), b.broadcast(&a));
    let c = dims(&[10, 20]);
    let d = dims(&[10, 20, 30]);
    assert_eq!(c.broadcast(&d), None);
    assert_eq!(d.broadcast(&c), None);
}

#[test]
fn broadcast_keeps_zero_extent() {
    assert_eq!(dims(&[0]).broadcast(&dims(&[1])), Some(dims(&[0])));
    assert_eq!(dims(&[0]).broadcast(&dims(&[2])), None);
}

#[test]
fn scalar_shapes() {
    assert!(dims(&[]).is_scalar());
    assert!(dims(&[0]).is_scalar());
    assert!(dims(&[1]).is_scalar());
    assert!(!dims(&[2]).is_scalar());
    assert!(!dims(&[1, 1]).is_scalar());
    assert!(dims(&[]).is_empty());
    assert_eq!(dims(&[4, 5]).len(), 2);
}

#[test]
fn total_elems_of_empty_shape_is_one() {
    assert_eq!(dims(&[]).total_elems(), 1);
    assert_eq!(dims(&[3, 0, 5]).total_elems(), 0);
}

#[test]
fn checked_total_elems_detects_overflow() {
    assert_eq!(dims(&[usize::MAX, 2]).checked_total_elems(), None);
    assert_eq!(dims(&[0, usize::MAX, usize::MAX]).checked_total_elems(), Some(0));
    assert_eq!(dims(&[2, 3, 4]).checked_total_elems(), Some(24));
}

#[test]
fn conversions() {
    assert_eq!(dims(&[1, 2, 3]).to_i32_vec(), vec![1i32, 2, 3]);
    assert_eq!(Dimensions::from_i64(&[1, 256]), dims(&[1, 256]));
    assert_eq!(Dimensions::from_i64(&[-1]), dims(&[usize::MAX]));
    assert_eq!(dims(&[1, 2, 3, 4]).to_fixed_dims::<4>(), [1, 2, 3, 4]);
    assert_eq!(dims(&[7, 8]).as_slice(), &[7, 8]);
    let mut d = dims(&[7, 8]);
    d.as_mut_slice()[1] = 9;
    assert_eq!(d, dims(&[7, 9]));
    assert_eq!(d[0], 7);
    assert_eq!(d[1], 9);
    assert_eq!(Dimensions::default(), dims(&[]));
    assert!(d.same_as(&d.duplicate()));
    assert!(!d.same_as(&dims(&[7])));
}
