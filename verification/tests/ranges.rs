use arrs::indexing::range::{Range, RangeError, RawRange};
use arrs::indexing::{Indexer, Traverser};

#[test]
fn index_creation() {}

#[test]
fn non_converging() {
    let result = Range::new(10, 0, Some(1));
    assert_eq!(
        result,
        Err(RangeError::NonConverging(RawRange { start: 10, stop: 0, step: 1 }))
    )
}

#[test]
fn zero_step() {
    let result = Range::new(1, 10, Some(0));
    assert_eq!(result, Err(RangeError::ZeroStep))
}

#[test]
fn range_len() {
    assert_eq!(0, Range::new(0, 0, Some(1)).unwrap().len());
    assert_eq!(0, Range::new(0, 0, Some(-20)).unwrap().len());
    assert_eq!(5, Range::new(0, 9, Some(2)).unwrap().len());
    assert_eq!(4, Range::new(0, 7, Some(2)).unwrap().len());
    assert_eq!(3, Range::new(0, 7, Some(3)).unwrap().len());
    assert_eq!(8, Range::new(0, 8, None).unwrap().len());
    assert_eq!(1, Range::new(9, 8, None).unwrap().len());
}

#[test]
fn range_bounds_and_iter() {
    let range = Range::new(0, 9, Some(2)).unwrap();
    assert_eq!(range.bounds(), (0, 9, 2));
    let mut it = range.iter();
    assert_eq!(it.next(), Some(2));
    assert_eq!(it.next(), Some(4));
    assert_eq!(it.next(), Some(6));
    assert_eq!(it.next(), Some(8));
    assert_eq!(it.next(), None);
}

#[test]
fn traverser_chain() {
    let root = Traverser::new(10);
    let narrowed = root.slice(Indexer::scalar(3));
    assert_eq!(narrowed.index(0), None);
    let empty = Traverser::empty();
    assert_eq!(empty.index(5), None);
}

#[test]
fn indexer_lens() {
    assert_eq!(Indexer::scalar(7).len(), 1);
    assert_eq!(Indexer::indices(vec![1, 4, 2]).len(), 3);
    assert_eq!(Indexer::slice(0, 9, Some(2)).len(), 5);
    // an invalid combination falls back to the empty range
    assert_eq!(Indexer::slice(10, 0, Some(1)).len(), 0);
}
