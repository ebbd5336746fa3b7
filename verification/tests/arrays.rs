use arrs::base::ArrayBase;
use arrs::error::{ArrResult, Error};
use arrs::view::{Array, PartialView};

fn base(dims: Vec<usize>, data: Vec<i32>) -> ArrResult<ArrayBase<i32>> {
    ArrayBase::new(dims, data)
}

#[test]
fn eq1() -> ArrResult<()> {
    let arr1 = base(vec![2, 2], vec![0, 1, 2, 3])?;
    let arr1 = Array::from_base(&arr1);
    let arr2 = base(vec![2, 2], vec![0, 1, 2, 3])?;
    let arr2 = Array::from_base(&arr2);

    Ok(assert_eq!(arr1, arr2))
}

#[test]
fn eq2() -> ArrResult<()> {
    let arr1 = base(vec![1], vec![15])?;
    let arr1 = Array::from_base(&arr1);
    let arr2 = base(vec![1], vec![15])?;
    let arr2 = Array::from_base(&arr2);

    Ok(assert_eq!(arr1, arr2))
}

#[test]
fn eq3() -> ArrResult<()> {
    let arr1 = base(vec![3], vec![1, 2, 3])?;
    let arr1 = Array::from_base(&arr1);
    let arr2 = base(vec![3], vec![1, 2, 3])?;
    let arr2 = Array::from_base(&arr2);

    Ok(assert_eq!(arr1, arr2))
}

#[test]
fn add1() -> ArrResult<()> {
    let arr1 = base(vec![1], vec![10])?;
    let arr1 = Array::from_base(&arr1);
    let arr2 = base(vec![2, 2], vec![3, 2, 1, 0])?;
    let arr2 = Array::from_base(&arr2);

    let expected = base(vec![2, 2], vec![13, 12, 11, 10])?;
    let expected = Array::from_base(&expected);
    let actual = arr1.broadcast_combine(&arr2, |a, b| a + b)?;
    let actual = Array::from_base(&actual);

    Ok(assert_eq!(expected, actual))
}

#[test]
fn mul1() -> ArrResult<()> {
    let arr1 = base(vec![1], vec![10])?;
    let arr1 = Array::from_base(&arr1);
    let arr2 = base(vec![4], vec![0, 1, 2, 3])?;
    let arr2 = Array::from_base(&arr2);

    let expected = base(vec![4], vec![0, 10, 20, 30])?;
    let expected = Array::from_base(&expected);
    let actual = arr1.broadcast_combine(&arr2, |a, b| a * b)?;
    let actual = Array::from_base(&actual);

    Ok(assert_eq!(expected, actual))
}

#[test]
fn mul2() -> ArrResult<()> {
    let arr1 = base(vec![1], vec![10])?;
    let arr1 = Array::from_base(&arr1);
    let arr2 = base(vec![2, 2], vec![0, 1, 2, 3])?;
    let arr2 = Array::from_base(&arr2);

    let expected = base(vec![2, 2], vec![0, 10, 20, 30])?;
    let expected = Array::from_base(&expected);
    let actual = arr1.broadcast_combine(&arr2, |a, b| a * b)?;
    let actual = Array::from_base(&actual);

    Ok(assert_eq!(expected, actual))
}

#[test]
fn mul3() -> ArrResult<()> {
    let arr1 = base(vec![2], vec![0, 1])?;
    let arr1 = Array::from_base(&arr1);
    let arr2 = base(vec![2, 3], vec![0, 1, 2, 3, 4, 5])?;
    let arr2 = Array::from_base(&arr2);

    let expected = base(vec![2, 3], vec![0, 1, 0, 3, 0, 5])?;
    let expected = Array::from_base(&expected);
    let actual = arr1.broadcast_combine(&arr2, |a, b| a * b)?;
    let actual = Array::from_base(&actual);

    Ok(assert_eq!(expected, actual))
}

#[test]
fn mul4() -> ArrResult<()> {
    let arr1 = base(vec![2, 2, 2], vec![0, 1, 2, 3, 4, 5, 6, 7])?;
    let arr1 = Array::from_base(&arr1);
    let arr2 = base(vec![1, 2], vec![0, 1])?;
    let arr2 = Array::from_base(&arr2);

    let expected = base(vec![2, 2, 2], vec![0, 0, 2, 3, 0, 0, 6, 7])?;
    let expected = Array::from_base(&expected);
    let actual = arr1.broadcast_combine(&arr2, |a, b| a * b)?;
    let actual = Array::from_base(&actual);

    Ok(assert_eq!(expected, actual))
}

#[test]
fn mul6() -> ArrResult<()> {
    let arr1 = base(vec![2, 2, 2], vec![0, 1, 2, 3, 4, 5, 6, 7])?;
    let arr1 = Array::from_base(&arr1);
    let arr2 = base(vec![1, 2], vec![0, 1])?;
    let arr2 = Array::from_base(&arr2);

    let expected = base(vec![2, 2, 2], vec![0, 0, 2, 3, 0, 0, 6, 7])?;
    let expected = Array::from_base(&expected);
    let actual = arr1.broadcast_combine(&arr2, |a, b| a * b)?;
    let actual = Array::from_base(&actual);

    Ok(assert_eq!(expected, actual))
}

#[test]
fn add2() -> ArrResult<()> {
    let arr1 = base(vec![2, 2], vec![0, 1, 2, 3])?;
    let arr1 = Array::from_base(&arr1);
    let arr2 = base(vec![2, 2], vec![3, 2, 1, 0])?;
    let arr2 = Array::from_base(&arr2);

    let expected = base(vec![2, 2], vec![3, 3, 3, 3])?;
    let expected = Array::from_base(&expected);
    let actual = arr1.broadcast_combine(&arr2, |a, b| a + b)?;
    let actual = Array::from_base(&actual);

    Ok(assert_eq!(expected, actual))
}

#[test]
fn add3() -> ArrResult<()> {
    let arr1 = base(vec![1], vec![10])?;
    let arr1 = Array::from_base(&arr1);
    let arr2 = base(vec![2, 2], vec![12, 13, 14, 15])?;
    let arr2 = Array::from_base(&arr2);

    let expected = base(vec![2, 2], vec![22, 23, 24, 25])?;
    let expected = Array::from_base(&expected);
    let actual = arr1.broadcast_combine(&arr2, |a, b| a + b)?;
    let actual = Array::from_base(&actual);

    Ok(assert_eq!(expected, actual))
}

#[test]
fn sub1() -> ArrResult<()> {
    let arr1 = base(vec![2, 2], vec![0, 1, 2, 3])?;
    let arr1 = Array::from_base(&arr1);
    let arr2 = base(vec![2, 2], vec![3, 2, 1, 0])?;
    let arr2 = Array::from_base(&arr2);

    let expected = base(vec![2, 2], vec![-3, -1, 1, 3])?;
    let expected = Array::from_base(&expected);
    let actual = arr1.broadcast_combine(&arr2, |a, b| a - b)?;
    let actual = Array::from_base(&actual);

    Ok(assert_eq!(expected, actual))
}

#[test]
fn sub2() -> ArrResult<()> {
    let arr1 = base(vec![1], vec![10])?;
    let arr1 = Array::from_base(&arr1);
    let arr2 = base(vec![2, 2], vec![12, 13, 14, 15])?;
    let arr2 = Array::from_base(&arr2);

    let expected = base(vec![2, 2], vec![-2, -3, -4, -5])?;
    let expected = Array::from_base(&expected);
    let actual = arr1.broadcast_combine(&arr2, |a, b| a - b)?;
    let actual = Array::from_base(&actual);

    Ok(assert_eq!(expected, actual))
}

#[test]
fn broadcast_test() -> ArrResult<()> {
    let arr1 = base(vec![1], vec![10])?;
    let arr1 = Array::from_base(&arr1);
    let arr2 = base(vec![5], vec![0, 1, 2, 3, 4])?;
    let arr2 = Array::from_base(&arr2);

    let expected = base(vec![5], vec![0, 10, 20, 30, 40])?;
    let expected = Array::from_base(&expected);
    let actual = arr1.broadcast_combine(&arr2, |a, b| a * b)?;
    let actual = Array::from_base(&actual);

    Ok(assert_eq!(expected, actual))
}

#[test]
fn incompatible_shapes() -> ArrResult<()> {
    let arr1 = base(vec![3], vec![0, 1, 2])?;
    let arr1 = Array::from_base(&arr1);
    let arr2 = base(vec![4], vec![0, 1, 2, 3])?;
    let arr2 = Array::from_base(&arr2);

    let err = arr1.broadcast_combine(&arr2, |a, b| a + b).unwrap_err();
    assert_eq!(err, Error::Broadcast { dims1: vec![3], dims2: vec![4] });

    let arr3 = base(vec![1, 2], vec![0, 1])?;
    let arr3 = Array::from_base(&arr3);
    let arr4 = base(vec![3, 4, 8], vec![0; 96])?;
    let arr4 = Array::from_base(&arr4);

    let err = arr3.broadcast_combine(&arr4, |a, b| a + b).unwrap_err();
    Ok(assert_eq!(err, Error::Broadcast { dims1: vec![1, 2], dims2: vec![3, 4, 8] }))
}

#[test]
fn test_derank_0() -> ArrResult<()> {
    let arr = base(vec![2, 2], vec![0, 1, 2, 3])?;
    let arr = Array::from_base(&arr);
    let actual = arr.derank(0).expect("deranking returned an error");
    let expected = base(vec![2], vec![0, 1])?;
    let expected = Array::from_base(&expected);
    Ok(assert_eq!(expected, actual))
}

#[test]
fn test_derank_1() -> ArrResult<()> {
    let arr = base(vec![2, 2], vec![0, 1, 2, 3])?;
    let arr = Array::from_base(&arr);
    let actual = arr.derank(1).expect("deranking returned an error");
    let expected = base(vec![2], vec![2, 3])?;
    let expected = Array::from_base(&expected);
    Ok(assert_eq!(expected, actual))
}

#[test]
fn test_derank_err_1d() -> ArrResult<()> {
    let arr = base(vec![2], vec![0, 1])?;
    let arr = Array::from_base(&arr);
    let result = arr.derank(1);
    Ok(assert_eq!(result.unwrap_err(), Error::Derank1D))
}

#[test]
fn test_derank_err_invalid_index() -> ArrResult<()> {
    let arr = base(vec![2, 2], vec![0, 1, 2, 3])?;
    let arr = Array::from_base(&arr);
    let result = arr.derank(2);
    Ok(assert_eq!(result.unwrap_err(), Error::DerankIndexOutOfBounds { len: 2, index: 2 }))
}

#[test]
fn test_slice_0_to_2() -> ArrResult<()> {
    let arr = base(vec![2, 3], vec![0, 1, 2, 3, 4, 5])?;
    let arr = Array::from_base(&arr);
    let actual = arr.slice(0, 2).expect("slicing returned an error");
    let expected = base(vec![2, 2], vec![0, 1, 2, 3])?;
    let expected = Array::from_base(&expected);
    Ok(assert_eq!(expected, actual))
}

#[test]
fn test_slice_1_to_3() -> ArrResult<()> {
    let arr = base(vec![2, 3], vec![0, 1, 2, 3, 4, 5])?;
    let arr = Array::from_base(&arr);
    let actual = arr.slice(1, 3).expect("slicing returned an error");
    let expected = base(vec![2, 2], vec![2, 3, 4, 5])?;
    let expected = Array::from_base(&expected);
    Ok(assert_eq!(expected, actual))
}

#[test]
fn test_slice_err_zero_width() -> ArrResult<()> {
    let arr = base(vec![2, 3], vec![0, 1, 2, 3, 4, 5])?;
    let arr = Array::from_base(&arr);
    let result = arr.slice(1, 1);
    Ok(assert_eq!(result.unwrap_err(), Error::SliceZeroWidth { index: 1 }))
}

#[test]
fn test_slice_err_stop_before_start() -> ArrResult<()> {
    let arr = base(vec![2, 3], vec![0, 1, 2, 3, 4, 5])?;
    let arr = Array::from_base(&arr);
    let result = arr.slice(2, 1);
    Ok(assert_eq!(result.unwrap_err(), Error::SliceStopBeforeStart { start: 2, stop: 1 }))
}

#[test]
fn test_slice_err_stop_past_end() -> ArrResult<()> {
    let arr = base(vec![2, 3], vec![0, 1, 2, 3, 4, 5])?;
    let arr = Array::from_base(&arr);
    let result = arr.slice(2, 4);
    Ok(assert_eq!(result.unwrap_err(), Error::SliceStopPastEnd { stop: 4, len: 3 }))
}

#[test]
fn test_slice_deranked_1() -> ArrResult<()> {
    let arr = base(vec![2, 3], vec![0, 1, 2, 3, 4, 5])?;
    let arr = Array::from_base(&arr);
    let sliced = arr.slice(1, 3).expect("slicing returned an error");
    let deranked = sliced.derank(0).expect("deranking returned an error");
    let expected = base(vec![2], vec![2, 3])?;
    let expected = Array::from_base(&expected);
    Ok(assert_eq!(expected, deranked))
}

#[test]
fn at_checked_reads_rank_one() -> ArrResult<()> {
    let arr = base(vec![3], vec![7, 8, 9])?;
    let arr = Array::from_base(&arr);
    assert_eq!(arr.at_checked(0)?, 7);
    assert_eq!(arr.at_checked(2)?, 9);
    assert_eq!(arr.at_checked(3).unwrap_err(), Error::DerankIndexOutOfBounds { len: 3, index: 3 });
    let arr2 = base(vec![2, 2], vec![0, 1, 2, 3])?;
    let arr2 = Array::from_base(&arr2);
    Ok(assert_eq!(arr2.at_checked(0).unwrap_err(), Error::ReadNDim { ndims: 2 }))
}

#[test]
fn construction_misalignment() {
    let result = ArrayBase::new(vec![4], vec![0, 1, 2]);
    assert_eq!(result.unwrap_err(), Error::ShapeDataMisalignment { volume: 4, len: 3 });
}

#[test]
fn construction_zero_dims() {
    let result = ArrayBase::<i32>::new(vec![], vec![]);
    assert_eq!(result.unwrap_err(), Error::ShapeZeroDims);
    let result = ArrayBase::<i32>::new(vec![2, 0], vec![]);
    assert_eq!(result.unwrap_err(), Error::ShapeZeroLenDim { dims: vec![2, 0] });
}

#[test]
fn view_round_trip() -> ArrResult<()> {
    let original = base(vec![2, 3], vec![0, 1, 2, 3, 4, 5])?;
    let view = Array::from_base(&original);
    let rebuilt = view.into_base();
    assert_eq!(original.dims(), rebuilt.dims());
    Ok(assert_eq!(original.data(), rebuilt.data()))
}

#[test]
fn as_type_widens() -> ArrResult<()> {
    let arr = ArrayBase::<u8>::new(vec![2, 2], vec![250, 1, 2, 3])?;
    let arr = Array::from_base(&arr);
    let widened: ArrayBase<i16> = arr.as_type();
    assert_eq!(widened.dims(), vec![2, 2]);
    Ok(assert_eq!(widened.data(), &[250i16, 1, 2, 3]))
}

#[test]
fn subview_iteration() -> ArrResult<()> {
    let arr = base(vec![2, 3], vec![0, 1, 2, 3, 4, 5])?;
    let arr = Array::from_base(&arr);
    let mut it = arr.iter_subviews();
    let first = it.next().expect("first subview");
    assert_eq!(first.len(), 2);
    assert_eq!(first.at_checked(0)?, 0);
    assert_eq!(first.at_checked(1)?, 1);
    let second = it.next().expect("second subview");
    assert_eq!(second.at_checked(0)?, 2);
    let third = it.next().expect("third subview");
    assert_eq!(third.at_checked(1)?, 5);
    Ok(assert!(it.next().is_none()))
}
