//! An owned element buffer, wrapped so the element-type bound travels with
//! it.

use vstd::prelude::*;
use crate::types::ArrType;

verus! {

#[derive(Debug, Clone)]
pub struct Data<T: ArrType>(Vec<T>);

impl<T: ArrType> Data<T> {
    /// The held elements.
    pub closed spec fn data_seq(&self) -> Seq<T> {
        self.0@
    }

    pub fn new(data: Vec<T>) -> (d: Self)
        ensures
            d.data_seq() == data@,
    {
        Data(data)
    }

    pub fn len(&self) -> (n: usize)
        ensures
            n == self.data_seq().len(),
    {
        self.0.len()
    }

    /// Reads one element.
    pub fn at(&self, index: usize) -> (v: T)
        requires
            index < self.data_seq().len(),
        ensures
            v == self.data_seq()[index as int],
    {
        self.0[index]
    }
}

} // verus!
