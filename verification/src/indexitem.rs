//! What indexing into an array yields: either a sub-array or, at the
//! deepest level, a single value.

use vstd::prelude::*;
use crate::base::ArrayBase;
use crate::types::ArrType;

verus! {

pub enum IndexItem<T: ArrType> {
    Arr(ArrayBase<T>),
    Val(T),
}

} // verus!
