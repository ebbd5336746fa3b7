//! The owning array: a `ShapeBase` plus a flat element buffer whose length
//! always equals the shape's volume. The alignment is checked at the single
//! checked construction entry point and assumed everywhere else.

use vstd::prelude::*;
use crate::error::{ArrResult, Error};
use crate::shape::{dims_valid, seq_prod, ShapeBase};
use crate::types::ArrType;

verus! {

#[derive(Debug)]
pub struct ArrayBase<T: ArrType> {
    shape: ShapeBase,
    data: Vec<T>,
}

impl<T: ArrType> ArrayBase<T> {
    /// The dimension list, innermost axis first.
    pub closed spec fn dims_seq(&self) -> Seq<usize> {
        self.shape.dims_seq()
    }

    /// The elements, in row-major order (outermost axis varying slowest).
    pub closed spec fn data_seq(&self) -> Seq<T> {
        self.data@
    }

    pub closed spec fn wf(&self) -> bool {
        &&& self.shape.wf()
        &&& self.data@.len() == seq_prod(self.shape.dims_seq())
    }

    /// What well-formedness guarantees to the other modules: the buffer's
    /// length is the shape's volume, and the dimension list is valid.
    pub proof fn lemma_wf(&self)
        requires
            self.wf(),
        ensures
            dims_valid(self.dims_seq()),
            self.data_seq().len() == seq_prod(self.dims_seq()),
            seq_prod(self.dims_seq()) <= usize::MAX,
    {
        self.shape.lemma_wf();
    }

    /// Checked constructor: the only place a shape/buffer misalignment can be
    /// introduced, so it is rejected eagerly here. Shape validity errors come
    /// first, then the volume/length comparison.
    pub fn new(dims: Vec<usize>, data: Vec<T>) -> (r: ArrResult<Self>)
        requires
            seq_prod(dims@) <= usize::MAX,
        ensures
            match r {
                Ok(a) => {
                    &&& dims_valid(dims@)
                    &&& seq_prod(dims@) == data@.len()
                    &&& a.wf()
                    &&& a.dims_seq() == dims@
                    &&& a.data_seq() == data@
                },
                Err(e) => {
                    &&& !(dims_valid(dims@) && seq_prod(dims@) == data@.len())
                    &&& if dims@.len() == 0 {
                        e == Error::ShapeZeroDims
                    } else if !dims_valid(dims@) {
                        e == (Error::ShapeZeroLenDim { dims })
                    } else {
                        e == (Error::ShapeDataMisalignment {
                            volume: seq_prod(dims@) as usize,
                            len: data@.len() as usize,
                        })
                    }
                },
            },
    {
        let shape = match ShapeBase::new_checked(dims) {
            Ok(s) => s,
            Err(e) => {
                return Err(e);
            },
        };
        let volume = shape.total_volume();
        let len = data.len();
        if volume != len {
            return Err(Error::ShapeDataMisalignment { volume, len });
        }
        Ok(ArrayBase { shape, data })
    }

    /// Unchecked constructor for callers that already hold the alignment
    /// proof; the traversal engine and the view's `into_base` use it.
    pub fn from_raw_parts(dims: Vec<usize>, data: Vec<T>) -> (a: Self)
        requires
            dims_valid(dims@),
            seq_prod(dims@) <= usize::MAX,
            seq_prod(dims@) == data@.len(),
        ensures
            a.wf(),
            a.dims_seq() == dims@,
            a.data_seq() == data@,
    {
        let shape = match ShapeBase::new_checked(dims) {
            Ok(s) => s,
            Err(e) => {
                proof {
                    assert(false);
                }
                vstd::pervasive::unreached()
            },
        };
        ArrayBase { shape, data }
    }

    /// Internal constructor from an already validated shape.
    pub(crate) fn from_shape(shape: ShapeBase, data: Vec<T>) -> (a: Self)
        requires
            shape.wf(),
            seq_prod(shape.dims_seq()) == data@.len(),
        ensures
            a.wf(),
            a.dims_seq() == shape.dims_seq(),
            a.data_seq() == data@,
    {
        ArrayBase { shape, data }
    }

    /// A borrowed view of the shape.
    pub(crate) fn shape_view(&self) -> (s: crate::shape::Shape<'_>)
        requires
            self.wf(),
        ensures
            s.wf(),
            s.dims_seq() == self.dims_seq(),
    {
        crate::shape::Shape::new(&self.shape)
    }

    /// A copy of the dimension list.
    pub fn dims(&self) -> (v: Vec<usize>)
        ensures
            v@ == self.dims_seq(),
    {
        self.shape.dims()
    }

    /// The dimension list, borrowed.
    pub fn dims_slice(&self) -> (d: &[usize])
        ensures
            d@ == self.dims_seq(),
    {
        self.shape.dims_slice()
    }

    /// The flat element buffer, row-major.
    pub fn data(&self) -> (d: &[T])
        ensures
            d@ == self.data_seq(),
    {
        self.data.as_slice()
    }
}

} // verus!
