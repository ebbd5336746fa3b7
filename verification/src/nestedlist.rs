//! A nested list: the tree shape that a literal N-dimensional array takes
//! before it is flattened into a shape and a buffer.

use vstd::prelude::*;

verus! {

#[derive(Debug)]
pub enum NestedList<T> {
    List(Vec<NestedList<T>>),
    Value(T),
}

} // verus!
