use arrs::error::{ArrResult, Error};
use arrs::shape::{Shape, ShapeBase};

fn view_of(base: &ShapeBase) -> Shape<'_> {
    Shape::new(base)
}

#[test]
fn shape_volume_is_product() -> ArrResult<()> {
    let a = ShapeBase::new_checked(vec![3, 256, 256])?;
    assert_eq!(a.total_volume(), 3 * 256 * 256);
    let b = ShapeBase::new_checked(vec![1, 2, 3, 4, 5, 6, 7, 8, 9])?;
    Ok(assert_eq!(b.total_volume(), (1..10).product::<usize>()))
}

#[test]
fn shape_rejects_invalid_dims() {
    assert_eq!(ShapeBase::new_checked(vec![]).unwrap_err(), Error::ShapeZeroDims);
    assert_eq!(
        ShapeBase::new_checked(vec![3, 0, 5]).unwrap_err(),
        Error::ShapeZeroLenDim { dims: vec![3, 0, 5] }
    );
}

#[test]
fn broadcast_same_shape() -> ArrResult<()> {
    let a = ShapeBase::new_checked(vec![3, 4, 5])?;
    let b = ShapeBase::new_checked(vec![3, 4, 5])?;
    let (out, _) = view_of(&a).broadcast(&view_of(&b))?;
    Ok(assert_eq!(out.dims(), vec![3, 4, 5]))
}

#[test]
fn broadcast_stretch_and_pad() -> ArrResult<()> {
    let a = ShapeBase::new_checked(vec![1, 6, 1, 8])?;
    let b = ShapeBase::new_checked(vec![5, 1, 7])?;
    let (out, _) = view_of(&a).broadcast(&view_of(&b))?;
    assert_eq!(out.dims(), vec![5, 6, 7, 8]);

    let c = ShapeBase::new_checked(vec![4, 5])?;
    let d = ShapeBase::new_checked(vec![4])?;
    let (out2, _) = view_of(&c).broadcast(&view_of(&d))?;
    Ok(assert_eq!(out2.dims(), vec![4, 5]))
}

#[test]
fn broadcast_shape_is_symmetric() -> ArrResult<()> {
    let a = ShapeBase::new_checked(vec![1, 6, 1, 8])?;
    let b = ShapeBase::new_checked(vec![5, 1, 7])?;
    let (ab, _) = view_of(&a).broadcast(&view_of(&b))?;
    let (ba, _) = view_of(&b).broadcast(&view_of(&a))?;
    Ok(assert_eq!(ab.dims(), ba.dims()))
}

#[test]
fn broadcast_incompatible() -> ArrResult<()> {
    let a = ShapeBase::new_checked(vec![3])?;
    let b = ShapeBase::new_checked(vec![4])?;
    let err = view_of(&a).broadcast(&view_of(&b)).unwrap_err();
    assert_eq!(err, Error::Broadcast { dims1: vec![3], dims2: vec![4] });

    let c = ShapeBase::new_checked(vec![1, 2])?;
    let d = ShapeBase::new_checked(vec![3, 4, 8])?;
    let err2 = view_of(&c).broadcast(&view_of(&d)).unwrap_err();
    Ok(assert_eq!(err2, Error::Broadcast { dims1: vec![1, 2], dims2: vec![3, 4, 8] }))
}

#[test]
fn shape_view_reports_dims() -> ArrResult<()> {
    let a = ShapeBase::new_checked(vec![2, 3, 4])?;
    let v = view_of(&a);
    assert_eq!(v.ndims(), 3);
    assert_eq!(v.len(), 4);
    assert_eq!(v.stride(), 6);
    assert_eq!(v.volume(), 24);
    assert_eq!(v.to_vec(), vec![2, 3, 4]);
    Ok(assert_eq!(v.dims(), vec![2, 3, 4]))
}

#[test]
fn shape_view_into_base() -> ArrResult<()> {
    let a = ShapeBase::new_checked(vec![2, 3, 4])?;
    let rebuilt = view_of(&a).into_base();
    assert_eq!(rebuilt.dims(), a.dims());
    Ok(assert_eq!(rebuilt.total_volume(), a.total_volume()))
}
