use arrs::base::ArrayBase;
use arrs::error::Error;
use arrs::idx::from_idx;
use arrs::types::TypeAware;

fn stream(dtype: u8, dims: &[i32], payload: &[u8]) -> Vec<u8> {
    let mut bytes = vec![0u8, 0, dtype, dims.len() as u8];
    for &d in dims {
        bytes.extend_from_slice(&d.to_be_bytes());
    }
    bytes.extend_from_slice(payload);
    bytes
}

#[test]
fn decode_u8_matrix() {
    // two rows of three in the stream; innermost-first inside
    let bytes = stream(0x08, &[2, 3], &[10, 11, 12, 20, 21, 22]);
    let arr: ArrayBase<u8> = from_idx(&bytes).unwrap();
    assert_eq!(arr.dims(), vec![3, 2]);
    assert_eq!(arr.data(), &[10, 11, 12, 20, 21, 22]);
}

#[test]
fn decode_i32_values() {
    let bytes = stream(
        0x0C,
        &[2],
        &[0x00, 0x00, 0x00, 0x2A, 0xFF, 0xFF, 0xFF, 0xFE],
    );
    let arr: ArrayBase<i32> = from_idx(&bytes).unwrap();
    assert_eq!(arr.dims(), vec![2]);
    assert_eq!(arr.data(), &[42, -2]);
}

#[test]
fn decode_i16_values() {
    let bytes = stream(0x0B, &[2], &[0x01, 0x00, 0xFF, 0x00]);
    let arr: ArrayBase<i16> = from_idx(&bytes).unwrap();
    assert_eq!(arr.data(), &[256, -256]);
}

#[test]
fn decode_i8_values() {
    let bytes = stream(0x09, &[3], &[0x00, 0x7F, 0x80]);
    let arr: ArrayBase<i8> = from_idx(&bytes).unwrap();
    assert_eq!(arr.data(), &[0, 127, -128]);
}

#[test]
fn decode_mismatched_dtype() {
    let bytes = stream(0x09, &[1], &[5]);
    let err = from_idx::<u8>(&bytes).unwrap_err();
    assert_eq!(err, Error::IdxMismatchDTypeIDs { expected: 0x08, actual: 0x09 });
}

#[test]
fn decode_short_streams() {
    // too short for a header
    assert_eq!(from_idx::<u8>(&[0, 0, 8]).unwrap_err(), Error::IdxReadUnaccepted);
    // header fine, axis table cut off
    let bytes = vec![0u8, 0, 0x08, 1, 0, 0];
    assert_eq!(from_idx::<u8>(&bytes).unwrap_err(), Error::IdxReadUnaccepted);
    // axis table fine, payload short
    let bytes = stream(0x08, &[4], &[1, 2, 3]);
    assert_eq!(from_idx::<u8>(&bytes).unwrap_err(), Error::IdxReadUnaccepted);
}

#[test]
fn decode_invalid_shapes() {
    // rank zero
    let bytes = stream(0x08, &[], &[]);
    assert_eq!(from_idx::<u8>(&bytes).unwrap_err(), Error::ShapeZeroDims);
    // a zero-length axis
    let bytes = stream(0x08, &[2, 0], &[]);
    assert_eq!(
        from_idx::<u8>(&bytes).unwrap_err(),
        Error::ShapeZeroLenDim { dims: vec![0, 2] }
    );
    // a negative axis reads as zero-length
    let bytes = stream(0x08, &[-1], &[]);
    assert_eq!(from_idx::<u8>(&bytes).unwrap_err(), Error::ShapeZeroLenDim { dims: vec![0] });
}

#[test]
fn wire_format_ids_and_widths() {
    assert_eq!((<bool as TypeAware>::id(), <bool as TypeAware>::bytes()), (0x07, 1));
    assert_eq!((<u8 as TypeAware>::id(), <u8 as TypeAware>::bytes()), (0x08, 1));
    assert_eq!((<i8 as TypeAware>::id(), <i8 as TypeAware>::bytes()), (0x09, 1));
    assert_eq!((<i16 as TypeAware>::id(), <i16 as TypeAware>::bytes()), (0x0B, 2));
    assert_eq!((<i32 as TypeAware>::id(), <i32 as TypeAware>::bytes()), (0x0C, 4));
}
