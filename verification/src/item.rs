//! A cursor-like window into an owning array: the remaining rank and an
//! element offset. Fixing an index on the outermost remaining axis narrows
//! the window one rank; at rank zero the window is a single element.

use vstd::prelude::*;
use crate::base::ArrayBase;
use crate::shape::{seq_prod, lemma_seq_prod_pos, lemma_seq_prod_take_succ, lemma_seq_prod_take_le};
use crate::types::ArrType;

verus! {

#[derive(Clone, Copy)]
pub struct Item<'a, T: ArrType> {
    base: &'a ArrayBase<T>,
    ndims: usize,
    offset: usize,
}

impl<'a, T: ArrType> Item<'a, T> {
    /// The remaining (unfixed) rank.
    pub closed spec fn ndims_spec(&self) -> int {
        self.ndims as int
    }

    /// Where the window starts in the flat buffer.
    pub closed spec fn offset_spec(&self) -> int {
        self.offset as int
    }

    /// The dimension list of the underlying array.
    pub closed spec fn base_dims(&self) -> Seq<usize> {
        self.base.dims_seq()
    }

    /// The elements of the underlying array.
    pub closed spec fn base_data(&self) -> Seq<T> {
        self.base.data_seq()
    }

    pub closed spec fn wf(&self) -> bool {
        &&& self.base.wf()
        &&& self.ndims <= self.base.dims_seq().len()
        &&& self.offset + seq_prod(self.base.dims_seq().take(self.ndims as int))
            <= self.base.data_seq().len()
    }

    /// A window over the whole array.
    pub fn new(array: &'a ArrayBase<T>) -> (it: Self)
        requires
            array.wf(),
        ensures
            it.wf(),
            it.ndims_spec() == array.dims_seq().len(),
            it.offset_spec() == 0,
            it.base_dims() == array.dims_seq(),
            it.base_data() == array.data_seq(),
    {
        let dims = array.dims();
        proof {
            array.lemma_wf();
            assert(array.dims_seq().take(dims@.len() as int) =~= array.dims_seq());
        }
        Item { base: array, ndims: dims.len(), offset: 0 }
    }

    pub fn ndims(&self) -> (n: usize)
        ensures
            n == self.ndims_spec(),
    {
        self.ndims
    }

    /// Length of the outermost remaining axis.
    pub fn len(&self) -> (l: usize)
        requires
            self.wf(),
            self.ndims_spec() >= 1,
        ensures
            l == self.base_dims()[self.ndims_spec() - 1],
    {
        let dims = self.base.dims();
        dims[self.ndims - 1]
    }

    /// Elements spanned by one step along the outermost remaining axis.
    fn stride(&self) -> (s: usize)
        requires
            self.wf(),
            self.ndims_spec() >= 1,
        ensures
            s == seq_prod(self.base_dims().take(self.ndims_spec() - 1)),
    {
        let dims = self.base.dims();
        let mut s: usize = 1;
        let mut i: usize = 0;
        proof {
            self.base.lemma_wf();
            assert(self.base_dims().take(0) =~= Seq::<usize>::empty());
        }
        while i < self.ndims - 1
            invariant
                self.wf(),
                self.ndims_spec() >= 1,
                dims@ == self.base_dims(),
                0 <= i <= self.ndims_spec() - 1,
                s == seq_prod(self.base_dims().take(i as int)),
            decreases self.ndims - 1 - i,
        {
            proof {
                self.base.lemma_wf();
                lemma_seq_prod_take_succ(self.base_dims(), i as int);
                lemma_seq_prod_take_le(self.base_dims(), i + 1);
                lemma_seq_prod_take_le(self.base_dims(), self.base_dims().len() as int);
            }
            s = s * dims[i];
            i += 1;
        }
        s
    }

    /// Fixes the outermost remaining axis to `index`, narrowing the window
    /// one rank.
    pub fn at(&self, index: usize) -> (r: Item<'a, T>)
        requires
            self.wf(),
            self.ndims_spec() >= 1,
            index < self.base_dims()[self.ndims_spec() - 1],
        ensures
            r.wf(),
            r.ndims_spec() == self.ndims_spec() - 1,
            r.offset_spec() == self.offset_spec() + index * seq_prod(
                self.base_dims().take(self.ndims_spec() - 1),
            ),
            r.base_dims() == self.base_dims(),
            r.base_data() == self.base_data(),
    {
        let stride = self.stride();
        proof {
            self.base.lemma_wf();
            lemma_seq_prod_take_succ(self.base_dims(), self.ndims_spec() - 1);
            lemma_seq_prod_pos(self.base_dims().take(self.ndims_spec() - 1));
            vstd::arithmetic::mul::lemma_mul_inequality(
                index + 1,
                self.base_dims()[self.ndims_spec() - 1] as int,
                stride as int,
            );
            vstd::arithmetic::mul::lemma_mul_is_distributive_add_other_way(
                stride as int,
                index as int,
                1,
            );
            vstd::arithmetic::mul::lemma_mul_nonnegative(index as int, stride as int);
            vstd::arithmetic::mul::lemma_mul_is_commutative(index + 1, stride as int);
            vstd::arithmetic::mul::lemma_mul_is_commutative(
                self.base_dims()[self.ndims_spec() - 1] as int,
                stride as int,
            );
            vstd::arithmetic::mul::lemma_mul_is_commutative(index as int, stride as int);
        }
        Item { base: self.base, ndims: self.ndims - 1, offset: self.offset + index * stride }
    }

    /// Reads the element at the window's start.
    pub fn read(&self) -> (v: T)
        requires
            self.wf(),
        ensures
            v == self.base_data()[self.offset_spec()],
    {
        proof {
            self.base.lemma_wf();
            lemma_seq_prod_pos(self.base_dims().take(self.ndims_spec()));
        }
        let data = self.base.data();
        data[self.offset]
    }
}

} // verus!
