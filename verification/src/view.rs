//! The dense, zero-copy read window over array data: a shape view paired
//! with a borrowed contiguous slice of elements. Supports rank reduction
//! (`derank`), restriction of the outermost axis (`slice`) and scalar reads,
//! all in constant time and without copying any element.

use vstd::prelude::*;
use crate::base::ArrayBase;
use crate::error::{ArrResult, Error};
use crate::shape::{seq_prod, Shape};
use crate::types::ArrType;

verus! {

/// Larger of two lengths.
pub fn max_const(v1: usize, v2: usize) -> (m: usize)
    ensures
        m == crate::shape::imax(v1 as int, v2 as int),
{
    if v1 > v2 {
        v1
    } else {
        v2
    }
}

/// Smaller of two lengths.
pub fn min_const(v1: usize, v2: usize) -> (m: usize)
    ensures
        m == crate::shape::imin(v1 as int, v2 as int),
{
    if v1 < v2 {
        v1
    } else {
        v2
    }
}

/// Taking a view into part of a structure, and rebuilding an owned value
/// from the view.
pub trait PartialView<'base>: Sized {
    type Base;

    /// Well-formedness of a base this view can be taken of.
    spec fn base_wf(base: &Self::Base) -> bool;

    /// Well-formedness of the view itself.
    spec fn view_wf(&self) -> bool;

    /// A view of the entire base.
    fn from_base(base: &'base Self::Base) -> (v: Self)
        requires
            Self::base_wf(base),
        ensures
            v.view_wf(),
    ;

    /// A fresh base holding what the view shows.
    fn into_base(&self) -> (b: Self::Base)
        requires
            self.view_wf(),
        ensures
            Self::base_wf(&b),
    ;
}

/// A view into an `ArrayBase`: a shape view plus the borrowed elements it
/// spans, in row-major order.
#[derive(Clone, Copy, PartialEq, Debug)]
pub struct Array<'base, T: ArrType> {
    pub(crate) shape: Shape<'base>,
    pub(crate) data: &'base [T],
}

impl<'base, T: ArrType> Array<'base, T> {
    /// The dimension list of the viewed window, innermost axis first.
    pub closed spec fn dims_seq(&self) -> Seq<usize> {
        self.shape.dims_seq()
    }

    /// The viewed elements, row-major.
    pub closed spec fn data_seq(&self) -> Seq<T> {
        self.data@
    }

    pub closed spec fn wf(&self) -> bool {
        &&& self.shape.wf()
        &&& self.data@.len() == seq_prod(self.shape.dims_seq())
    }

    /// What well-formedness guarantees to the other modules of the crate.
    pub(crate) proof fn lemma_parts(&self)
        requires
            self.wf(),
        ensures
            self.shape.wf(),
            self.shape.dims_seq() == self.dims_seq(),
            self.data@ == self.data_seq(),
            self.data@.len() == seq_prod(self.dims_seq()),
    {
    }

    /// Number of axes visible through this view.
    pub fn ndims(&self) -> (n: usize)
        requires
            self.wf(),
        ensures
            n == self.dims_seq().len(),
    {
        self.shape.ndims()
    }

    /// Length of the current outermost (trailing) axis.
    pub fn len(&self) -> (l: usize)
        ensures
            l == self.dims_seq().last(),
    {
        self.shape.len()
    }

    /// Reads one element. Only a rank-1 view can be read this way: a higher
    /// rank is reported as `ReadNDim`, an index past the axis length as
    /// `DerankIndexOutOfBounds`.
    pub fn at_checked(&self, index: usize) -> (r: ArrResult<T>)
        requires
            self.wf(),
        ensures
            match r {
                Ok(value) => {
                    &&& self.dims_seq().len() == 1
                    &&& index < self.dims_seq().last()
                    &&& value == self.data_seq()[index as int]
                },
                Err(e) => if self.dims_seq().len() > 1 {
                    e == (Error::ReadNDim { ndims: self.dims_seq().len() as usize })
                } else {
                    &&& index >= self.dims_seq().last()
                    &&& e == (Error::DerankIndexOutOfBounds {
                        len: self.dims_seq().last(),
                        index,
                    })
                },
            },
    {
        let ndims = self.ndims();
        if ndims > 1 {
            return Err(Error::ReadNDim { ndims });
        }
        let len = self.len();
        if index >= len {
            return Err(Error::DerankIndexOutOfBounds { len, index });
        }
        proof {
            self.shape.lemma_wf_implications();
            assert(self.dims_seq().drop_last() =~= Seq::<usize>::empty());
            assert(seq_prod(self.dims_seq()) == self.dims_seq().last() * 1);
        }
        Ok(self.data[index])
    }

    /// Fixes the outermost axis to `index`, dropping that dimension: the
    /// result is a view one rank lower over the `index`-th chunk of the
    /// data. A rank-1 view cannot be deranked (its only sub-view would be a
    /// scalar, which `at_checked` reads); that is `Derank1D`. An index past
    /// the axis length is `DerankIndexOutOfBounds`.
    pub fn derank(&self, index: usize) -> (r: ArrResult<Array<'base, T>>)
        requires
            self.wf(),
        ensures
            match r {
                Ok(v) => {
                    &&& self.dims_seq().len() >= 2
                    &&& index < self.dims_seq().last()
                    &&& v.wf()
                    &&& v.dims_seq() == self.dims_seq().drop_last()
                    &&& v.data_seq() == self.data_seq().subrange(
                        seq_prod(self.dims_seq().drop_last()) * index,
                        seq_prod(self.dims_seq().drop_last()) * (index + 1),
                    )
                },
                Err(e) => if self.dims_seq().len() == 1 {
                    e == Error::Derank1D
                } else {
                    &&& index >= self.dims_seq().last()
                    &&& e == (Error::DerankIndexOutOfBounds {
                        len: self.dims_seq().last(),
                        index,
                    })
                },
            },
    {
        if self.ndims() == 1 {
            return Err(Error::Derank1D);
        }
        let len = self.len();
        if index >= len {
            return Err(Error::DerankIndexOutOfBounds { len, index });
        }
        let stride = self.shape.stride();
        proof {
            self.shape.lemma_wf_implications();
            vstd::arithmetic::mul::lemma_mul_inequality(
                index + 1,
                self.dims_seq().last() as int,
                stride as int,
            );
            vstd::arithmetic::mul::lemma_mul_is_distributive_add_other_way(
                stride as int,
                index as int,
                1,
            );
            vstd::arithmetic::mul::lemma_mul_is_commutative(
                index + 1,
                stride as int,
            );
            vstd::arithmetic::mul::lemma_mul_is_commutative(
                self.dims_seq().last() as int,
                stride as int,
            );
            vstd::arithmetic::mul::lemma_mul_is_commutative(stride as int, index as int);
            vstd::arithmetic::mul::lemma_mul_nonnegative(stride as int, index as int);
        }
        let data = vstd::slice::slice_subrange(self.data, stride * index, stride * (index + 1));
        let shape = self.shape.derank();
        proof {
            shape.lemma_wf_implications();
        }
        Ok(Array { shape, data })
    }

    /// Restricts the outermost axis to `[start, stop)`, keeping the
    /// dimension. Errors, in priority order: `SliceZeroWidth` when
    /// `start == stop`, `SliceStopBeforeStart` when `start > stop`,
    /// `SliceStopPastEnd` when `stop` is past the axis length.
    pub fn slice(&self, start: usize, stop: usize) -> (r: ArrResult<Array<'base, T>>)
        requires
            self.wf(),
        ensures
            match r {
                Ok(v) => {
                    &&& start < stop <= self.dims_seq().last()
                    &&& v.wf()
                    &&& v.dims_seq() == self.dims_seq().drop_last().push((stop - start) as usize)
                    &&& v.data_seq() == self.data_seq().subrange(
                        seq_prod(self.dims_seq().drop_last()) * start,
                        seq_prod(self.dims_seq().drop_last()) * stop,
                    )
                },
                Err(e) => if start == stop {
                    e == (Error::SliceZeroWidth { index: start })
                } else if start > stop {
                    e == (Error::SliceStopBeforeStart { start, stop })
                } else {
                    &&& stop > self.dims_seq().last()
                    &&& e == (Error::SliceStopPastEnd { stop, len: self.dims_seq().last() })
                },
            },
    {
        if start == stop {
            return Err(Error::SliceZeroWidth { index: start });
        }
        if start > stop {
            return Err(Error::SliceStopBeforeStart { start, stop });
        }
        let len = self.len();
        if stop > len {
            return Err(Error::SliceStopPastEnd { stop, len });
        }
        let stride = self.shape.stride();
        proof {
            self.shape.lemma_wf_implications();
            vstd::arithmetic::mul::lemma_mul_inequality(
                stop as int,
                self.dims_seq().last() as int,
                stride as int,
            );
            vstd::arithmetic::mul::lemma_mul_inequality(start as int, stop as int, stride as int);
            vstd::arithmetic::mul::lemma_mul_is_commutative(stop as int, stride as int);
            vstd::arithmetic::mul::lemma_mul_is_commutative(start as int, stride as int);
            vstd::arithmetic::mul::lemma_mul_is_commutative(
                self.dims_seq().last() as int,
                stride as int,
            );
            vstd::arithmetic::mul::lemma_mul_nonnegative(stride as int, start as int);
        }
        let data = vstd::slice::slice_subrange(self.data, stride * start, stride * stop);
        let shape = self.shape.with_trailing_len(stop - start);
        proof {
            shape.lemma_wf_implications();
            assert(shape.dims_seq().drop_last() =~= self.dims_seq().drop_last());
            vstd::arithmetic::mul::lemma_mul_is_distributive_sub_other_way(
                stride as int,
                stop as int,
                start as int,
            );
            vstd::arithmetic::mul::lemma_mul_is_commutative(
                (stop - start) as int,
                stride as int,
            );
        }
        Ok(Array { shape, data })
    }

    /// Converts every element, preserving the shape.
    pub fn as_type<R: ArrType + From<T>>(&self) -> (r: ArrayBase<R>)
        requires
            self.wf(),
        ensures
            r.wf(),
            r.dims_seq() == self.dims_seq(),
            r.data_seq().len() == self.data_seq().len(),
            forall|i: int|
                0 <= i < self.data_seq().len() ==> call_ensures(
                    R::from,
                    (self.data_seq()[i],),
                    #[trigger] r.data_seq()[i],
                ),
    {
        let mut out: Vec<R> = Vec::new();
        let n = self.data.len();
        let mut i: usize = 0;
        while i < n
            invariant
                n == self.data_seq().len(),
                0 <= i <= n,
                out@.len() == i,
                forall|j: int|
                    0 <= j < i ==> call_ensures(
                        R::from,
                        (self.data_seq()[j],),
                        #[trigger] out@[j],
                    ),
            decreases n - i,
        {
            out.push(R::from(self.data[i]));
            i += 1;
        }
        proof {
            self.shape.lemma_wf_implications();
        }
        ArrayBase::from_raw_parts(self.shape.to_vec(), out)
    }
}

impl<'base, T: ArrType> Array<'base, T> {
    /// Walks the sub-views along the outermost axis, index ascending.
    pub fn iter_subviews(&self) -> (it: DenseIterator<'base, T>)
        requires
            self.wf(),
            self.dims_seq().len() >= 2,
        ensures
            it.wf(),
            it.pos_spec() == 0,
            it.count_spec() == self.dims_seq().last(),
            it.sub_dims() == self.dims_seq().drop_last(),
            it.parent_data() == self.data_seq(),
    {
        let shape = self.shape.derank();
        let count = self.shape.len();
        proof {
            self.shape.lemma_wf_implications();
            shape.lemma_wf_implications();
            vstd::arithmetic::mul::lemma_mul_is_commutative(
                count as int,
                seq_prod(self.dims_seq().drop_last()),
            );
        }
        DenseIterator { shape, data: self.data, pos: 0, count }
    }
}

/// Yields the sub-views of a dense view along its outermost axis, one rank
/// lower each, in index order.
pub struct DenseIterator<'base, T: ArrType> {
    shape: Shape<'base>,
    data: &'base [T],
    pos: usize,
    count: usize,
}

impl<'base, T: ArrType> DenseIterator<'base, T> {
    /// The dimension list of each yielded sub-view.
    pub closed spec fn sub_dims(&self) -> Seq<usize> {
        self.shape.dims_seq()
    }

    /// The parent view's elements.
    pub closed spec fn parent_data(&self) -> Seq<T> {
        self.data@
    }

    /// The next sub-view index to yield.
    pub closed spec fn pos_spec(&self) -> int {
        self.pos as int
    }

    /// How many sub-views there are: the parent's outermost axis length.
    pub closed spec fn count_spec(&self) -> int {
        self.count as int
    }

    pub closed spec fn wf(&self) -> bool {
        &&& self.shape.wf()
        &&& self.pos <= self.count
        &&& self.count * seq_prod(self.shape.dims_seq()) == self.data@.len()
    }

    /// The next sub-view, or nothing once the axis is exhausted.
    pub fn next(&mut self) -> (r: Option<Array<'base, T>>)
        requires
            old(self).wf(),
        ensures
            final(self).wf(),
            final(self).sub_dims() == old(self).sub_dims(),
            final(self).parent_data() == old(self).parent_data(),
            final(self).count_spec() == old(self).count_spec(),
            match r {
                Some(v) => {
                    &&& old(self).pos_spec() < old(self).count_spec()
                    &&& final(self).pos_spec() == old(self).pos_spec() + 1
                    &&& v.wf()
                    &&& v.dims_seq() == old(self).sub_dims()
                    &&& v.data_seq() == old(self).parent_data().subrange(
                        old(self).pos_spec() * seq_prod(old(self).sub_dims()),
                        (old(self).pos_spec() + 1) * seq_prod(old(self).sub_dims()),
                    )
                },
                None => {
                    &&& old(self).pos_spec() >= old(self).count_spec()
                    &&& final(self).pos_spec() == old(self).pos_spec()
                },
            },
    {
        if self.pos >= self.count {
            return None;
        }
        let size = self.shape.volume();
        // bind the slice length so its machine-word bound is in scope
        let data_len = self.data.len();
        proof {
            assert(data_len == self.data@.len());
            self.shape.lemma_wf_implications();
            vstd::arithmetic::mul::lemma_mul_inequality(
                self.pos + 1,
                self.count as int,
                size as int,
            );
            vstd::arithmetic::mul::lemma_mul_is_commutative(self.pos + 1, size as int);
            vstd::arithmetic::mul::lemma_mul_is_commutative(self.count as int, size as int);
            vstd::arithmetic::mul::lemma_mul_is_distributive_add_other_way(
                size as int,
                self.pos as int,
                1,
            );
            vstd::arithmetic::mul::lemma_mul_nonnegative(self.pos as int, size as int);
        }
        let data = vstd::slice::slice_subrange(self.data, self.pos * size, (self.pos + 1) * size);
        let view = Array { shape: self.shape, data };
        self.pos = self.pos + 1;
        Some(view)
    }
}

/// Idempotence of view construction: taking a whole-array view of an owning
/// array and rebuilding an owning array from that view reproduces the
/// original, equal in shape and data. The two hypotheses are exactly what
/// `from_base` and `into_base` ensure.
pub proof fn lemma_view_round_trip<'base, T: ArrType>(
    base: &ArrayBase<T>,
    view: Array<'base, T>,
    rebuilt: ArrayBase<T>,
)
    requires
        view.dims_seq() == base.dims_seq(),
        view.data_seq() == base.data_seq(),
        rebuilt.dims_seq() == view.dims_seq(),
        rebuilt.data_seq() == view.data_seq(),
    ensures
        rebuilt.dims_seq() == base.dims_seq(),
        rebuilt.data_seq() == base.data_seq(),
{
}

impl<'base, T: ArrType> PartialView<'base> for Array<'base, T> {
    type Base = ArrayBase<T>;

    open spec fn base_wf(base: &ArrayBase<T>) -> bool {
        base.wf()
    }

    open spec fn view_wf(&self) -> bool {
        self.wf()
    }

    /// A view of the whole array.
    fn from_base(base: &'base ArrayBase<T>) -> (v: Self)
        ensures
            v.wf(),
            v.dims_seq() == base.dims_seq(),
            v.data_seq() == base.data_seq(),
    {
        proof {
            base.lemma_wf();
        }
        Array { shape: base.shape_view(), data: base.data() }
    }

    /// A fresh owning array holding a copy of the viewed elements.
    fn into_base(&self) -> (b: ArrayBase<T>)
        ensures
            b.wf(),
            b.dims_seq() == self.dims_seq(),
            b.data_seq() == self.data_seq(),
    {
        proof {
            self.shape.lemma_wf_implications();
        }
        ArrayBase::from_raw_parts(self.shape.to_vec(), vstd::slice::slice_to_vec(self.data))
    }
}

} // verus!
