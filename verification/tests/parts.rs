use arrs::base::ArrayBase;
use arrs::cursor::ArrayCursor;
use arrs::data::Data;
use arrs::error::ArrResult;
use arrs::item::Item;
use arrs::subarray::Subarray;

#[test]
fn cursor_moves_and_reads() {
    let buffer = vec![10, 20, 30, 40];
    let mut cursor = ArrayCursor::new(&buffer);
    assert_eq!(cursor.get_pos(), 0);
    assert_eq!(cursor.read(), 10);
    cursor.set_pos(2);
    assert_eq!(cursor.read(), 30);
    cursor.move_pos(1);
    assert_eq!(cursor.get_pos(), 3);
    assert_eq!(cursor.read(), 40);
    cursor.move_pos(-3);
    assert_eq!(cursor.read(), 10);
}

#[test]
fn data_holds_elements() {
    let data = Data::new(vec![1, 2, 3]);
    assert_eq!(data.len(), 3);
    assert_eq!(data.at(0), 1);
    assert_eq!(data.at(2), 3);
}

#[test]
fn item_descends_to_values() -> ArrResult<()> {
    // dims [3, 2]: two rows of three elements, row-major
    let arr = ArrayBase::new(vec![3, 2], vec![0, 1, 2, 10, 11, 12])?;
    let root = Item::new(&arr);
    assert_eq!(root.ndims(), 2);
    assert_eq!(root.len(), 2);
    let row = root.at(1);
    assert_eq!(row.ndims(), 1);
    assert_eq!(row.len(), 3);
    assert_eq!(row.read(), 10);
    let cell = row.at(2);
    assert_eq!(cell.ndims(), 0);
    Ok(assert_eq!(cell.read(), 12))
}

#[test]
fn subarray_steps_to_values() -> ArrResult<()> {
    let arr = ArrayBase::new(vec![3, 2], vec![0, 1, 2, 10, 11, 12])?;
    let root = Subarray::new(&arr);
    assert_eq!(root.ndims(), 2);
    assert_eq!(root.len(), 2);
    let row = root.at(1);
    assert_eq!(row.ndims(), 1);
    assert_eq!(row.len(), 3);
    assert_eq!(row.read(), 10);
    let cell = row.at(2);
    Ok(assert_eq!(cell.read(), 12))
}
