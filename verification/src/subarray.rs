//! A stepping read window over an array's buffer: a cursor that advances by
//! a computed element stride without re-checking bounds at every step. The
//! bounds hold by construction: every window starts as a whole well-formed
//! array and each step stays inside its parent.

use vstd::prelude::*;
use crate::base::ArrayBase;
use crate::shape::{seq_prod, lemma_seq_prod_pos, lemma_seq_prod_take_succ, lemma_seq_prod_take_le};
use crate::types::ArrType;

verus! {

#[derive(Clone, Copy)]
pub struct Subarray<'a, T: ArrType> {
    dims: &'a [usize],
    ndims: usize,
    data: &'a [T],
}

impl<'a, T: ArrType> Subarray<'a, T> {
    /// The remaining (unfixed) rank.
    pub closed spec fn ndims_spec(&self) -> int {
        self.ndims as int
    }

    /// The full dimension list of the underlying array.
    pub closed spec fn dims_seq(&self) -> Seq<usize> {
        self.dims@
    }

    /// The elements still visible through the window.
    pub closed spec fn data_seq(&self) -> Seq<T> {
        self.data@
    }

    pub closed spec fn wf(&self) -> bool {
        &&& crate::shape::dims_pos(self.dims@)
        &&& self.ndims <= self.dims@.len()
        &&& seq_prod(self.dims@) <= usize::MAX
        &&& self.data@.len() >= seq_prod(self.dims@.take(self.ndims as int))
    }

    /// A window over the whole array.
    pub fn new(array: &'a ArrayBase<T>) -> (s: Self)
        requires
            array.wf(),
        ensures
            s.wf(),
            s.ndims_spec() == array.dims_seq().len(),
            s.dims_seq() == array.dims_seq(),
            s.data_seq() == array.data_seq(),
    {
        let dims = array.dims_slice();
        proof {
            array.lemma_wf();
            assert(array.dims_seq().take(dims@.len() as int) =~= array.dims_seq());
        }
        Subarray { dims, ndims: dims.len(), data: array.data() }
    }

    pub fn ndims(&self) -> (n: usize)
        ensures
            n == self.ndims_spec(),
    {
        self.ndims
    }

    /// Length of the outermost remaining axis.
    pub fn len(&self) -> (l: usize)
        requires
            self.wf(),
            self.ndims_spec() >= 1,
        ensures
            l == self.dims_seq()[self.ndims_spec() - 1],
    {
        self.dims[self.ndims - 1]
    }

    /// Elements spanned by one step along the outermost remaining axis.
    fn stride(&self) -> (s: usize)
        requires
            self.wf(),
            self.ndims_spec() >= 1,
        ensures
            s == seq_prod(self.dims_seq().take(self.ndims_spec() - 1)),
    {
        let mut s: usize = 1;
        let mut i: usize = 0;
        proof {
            assert(self.dims_seq().take(0) =~= Seq::<usize>::empty());
        }
        while i < self.ndims - 1
            invariant
                self.wf(),
                self.ndims_spec() >= 1,
                0 <= i <= self.ndims_spec() - 1,
                s == seq_prod(self.dims_seq().take(i as int)),
            decreases self.ndims - 1 - i,
        {
            proof {
                lemma_seq_prod_take_succ(self.dims_seq(), i as int);
                lemma_seq_prod_take_le(self.dims_seq(), i + 1);
                lemma_seq_prod_take_le(self.dims_seq(), self.dims_seq().len() as int);
            }
            s = s * self.dims[i];
            i += 1;
        }
        s
    }

    /// Fixes the outermost remaining axis to `index`: the window advances
    /// `index` strides and loses one rank.
    pub fn at(&self, index: usize) -> (r: Subarray<'a, T>)
        requires
            self.wf(),
            self.ndims_spec() >= 1,
            index < self.dims_seq()[self.ndims_spec() - 1],
        ensures
            r.wf(),
            r.ndims_spec() == self.ndims_spec() - 1,
            r.dims_seq() == self.dims_seq(),
            r.data_seq() == self.data_seq().skip(
                index * seq_prod(self.dims_seq().take(self.ndims_spec() - 1)),
            ),
    {
        let stride = self.stride();
        // bind the slice length so its machine-word bound is in scope
        let data_len = self.data.len();
        proof {
            assert(data_len == self.data@.len());
            lemma_seq_prod_take_succ(self.dims_seq(), self.ndims_spec() - 1);
            lemma_seq_prod_pos(self.dims_seq().take(self.ndims_spec() - 1));
            vstd::arithmetic::mul::lemma_mul_inequality(
                index + 1,
                self.dims_seq()[self.ndims_spec() - 1] as int,
                stride as int,
            );
            vstd::arithmetic::mul::lemma_mul_is_distributive_add_other_way(
                stride as int,
                index as int,
                1,
            );
            vstd::arithmetic::mul::lemma_mul_nonnegative(index as int, stride as int);
            vstd::arithmetic::mul::lemma_mul_is_commutative(index + 1, stride as int);
            vstd::arithmetic::mul::lemma_mul_is_commutative(
                self.dims_seq()[self.ndims_spec() - 1] as int,
                stride as int,
            );
            vstd::arithmetic::mul::lemma_mul_is_commutative(index as int, stride as int);
            vstd::arithmetic::mul::lemma_mul_is_distributive_sub_other_way(
                stride as int,
                self.dims_seq()[self.ndims_spec() - 1] as int,
                index as int,
            );
        }
        let data = vstd::slice::slice_subrange(self.data, index * stride, data_len);
        proof {
            assert(data@ =~= self.data_seq().skip(index * stride));
        }
        Subarray { dims: self.dims, ndims: self.ndims - 1, data }
    }

    /// Reads the element at the window's start.
    pub fn read(&self) -> (v: T)
        requires
            self.wf(),
        ensures
            v == self.data_seq()[0],
    {
        proof {
            lemma_seq_prod_pos(self.dims_seq().take(self.ndims_spec()));
        }
        self.data[0]
    }
}

} // verus!
