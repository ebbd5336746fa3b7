//! Decoding of the binary array format: a 4-byte header `[0, 0, dtype,
//! ndims]`, then `ndims` big-endian 4-byte signed axis lengths
//! (outermost-first in the stream, reversed to innermost-first internally),
//! then the elements, big-endian at the element type's width. The caller
//! does whatever I/O produces the bytes; decoding itself is pure.

use vstd::prelude::*;
use crate::base::ArrayBase;
use crate::error::{ArrResult, Error};
use crate::shape::{dims_pos, seq_prod};
use crate::types::TypeAware;

verus! {

/// The value of a big-endian byte string, most significant byte first.
pub open spec fn be_nat(s: Seq<u8>) -> int
    decreases s.len(),
{
    if s.len() == 0 {
        0
    } else {
        be_nat(s.drop_last()) * 256 + s.last()
    }
}

/// The value of a big-endian 4-byte two's-complement integer.
pub open spec fn be_i32(s: Seq<u8>) -> int {
    if be_nat(s) < 0x8000_0000 {
        be_nat(s)
    } else {
        be_nat(s) - 0x1_0000_0000
    }
}

proof fn lemma_be_nat1(s: Seq<u8>)
    requires
        s.len() == 1,
    ensures
        be_nat(s) == s[0],
{
    assert(s.drop_last() =~= Seq::<u8>::empty());
    assert(be_nat(Seq::<u8>::empty()) == 0);
}

proof fn lemma_be_nat2(s: Seq<u8>)
    requires
        s.len() == 2,
    ensures
        be_nat(s) == s[0] * 0x100 + s[1],
{
    assert(s.drop_last() =~= s.take(1));
    lemma_be_nat1(s.take(1));
}

proof fn lemma_be_nat4(s: Seq<u8>)
    requires
        s.len() == 4,
    ensures
        be_nat(s) == s[0] * 0x1000000 + s[1] * 0x10000 + s[2] * 0x100 + s[3],
{
    assert(s.drop_last() =~= s.take(3));
    assert(s.take(3).drop_last() =~= s.take(2));
    lemma_be_nat2(s.take(2));
    assert(be_nat(s) == be_nat(s.take(3)) * 256 + s[3]);
    assert(be_nat(s.take(3)) == be_nat(s.take(2)) * 256 + s[2]);
}

/// Comparing a length against a product by division: for a positive width,
/// `len / w < n` exactly when `len < w * n`.
proof fn lemma_div_lt_iff(len: int, w: int, n: int)
    requires
        w > 0,
        len >= 0,
        n >= 0,
    ensures
        (len / w < n) <==> (len < w * n),
{
    if len < w * n {
        vstd::arithmetic::div_mod::lemma_multiply_divide_lt(len, w, n);
    }
    if w * n <= len {
        vstd::arithmetic::div_mod::lemma_div_is_ordered(w * n, len, w);
        vstd::arithmetic::div_mod::lemma_div_multiples_vanish(n, w);
    }
}

/// An element type that can be decoded from its big-endian wire form.
pub trait IdxType: TypeAware {
    /// The element value that `bytes_spec()` big-endian bytes decode to.
    spec fn decode_spec(s: Seq<u8>) -> Self;

    /// Reads the element encoded at `offset`.
    fn read_be(bytes: &[u8], offset: usize) -> (r: Self)
        requires
            offset + Self::bytes_spec() <= bytes@.len(),
        ensures
            r == Self::decode_spec(
                bytes@.subrange(offset as int, offset + Self::bytes_spec()),
            ),
    ;
}

impl IdxType for u8 {
    open spec fn decode_spec(s: Seq<u8>) -> u8 {
        s[0]
    }

    fn read_be(bytes: &[u8], offset: usize) -> (r: u8) {
        let r = bytes[offset];
        proof {
            assert(bytes@.subrange(offset as int, offset + 1)[0] == bytes@[offset as int]);
        }
        r
    }
}

impl IdxType for i8 {
    open spec fn decode_spec(s: Seq<u8>) -> i8 {
        if s[0] < 0x80 {
            s[0] as i8
        } else {
            (s[0] - 0x100) as i8
        }
    }

    fn read_be(bytes: &[u8], offset: usize) -> (r: i8) {
        let b = bytes[offset];
        let r: i8 = if b < 0x80 {
            b as i8
        } else {
            ((b as i16) - 0x100) as i8
        };
        proof {
            assert(bytes@.subrange(offset as int, offset + 1)[0] == bytes@[offset as int]);
        }
        r
    }
}

impl IdxType for i16 {
    open spec fn decode_spec(s: Seq<u8>) -> i16 {
        if be_nat(s) < 0x8000 {
            be_nat(s) as i16
        } else {
            (be_nat(s) - 0x1_0000) as i16
        }
    }

    fn read_be(bytes: &[u8], offset: usize) -> (r: i16) {
        let b0 = bytes[offset] as u16;
        let b1 = bytes[offset + 1] as u16;
        let u: u16 = b0 * 0x100 + b1;
        let r: i16 = if u < 0x8000 {
            u as i16
        } else {
            ((u as i32) - 0x1_0000) as i16
        };
        proof {
            let s = bytes@.subrange(offset as int, offset + 2);
            lemma_be_nat2(s);
            assert(s[0] == bytes@[offset as int]);
            assert(s[1] == bytes@[offset + 1]);
        }
        r
    }
}

impl IdxType for i32 {
    open spec fn decode_spec(s: Seq<u8>) -> i32 {
        be_i32(s) as i32
    }

    fn read_be(bytes: &[u8], offset: usize) -> (r: i32) {
        let b0 = bytes[offset] as u32;
        let b1 = bytes[offset + 1] as u32;
        let b2 = bytes[offset + 2] as u32;
        let b3 = bytes[offset + 3] as u32;
        let u: u32 = b0 * 0x1000000 + b1 * 0x10000 + b2 * 0x100 + b3;
        let r: i32 = if u < 0x8000_0000 {
            u as i32
        } else {
            ((u as i64) - 0x1_0000_0000i64) as i32
        };
        proof {
            let s = bytes@.subrange(offset as int, offset + 4);
            lemma_be_nat4(s);
            assert(s[0] == bytes@[offset as int]);
            assert(s[1] == bytes@[offset + 1]);
            assert(s[2] == bytes@[offset + 2]);
            assert(s[3] == bytes@[offset + 3]);
        }
        r
    }
}

/// Checks the stream's 4-byte header against an expected element-type tag
/// and yields the announced rank.
pub struct MagicNumberVisitor {
    dtype: u8,
}

impl MagicNumberVisitor {
    pub closed spec fn dtype_spec(&self) -> u8 {
        self.dtype
    }

    pub fn new(dtype: u8) -> (v: Self)
        ensures
            v.dtype_spec() == dtype,
    {
        MagicNumberVisitor { dtype }
    }

    /// Reads the header: at least 4 bytes, the third of which must carry
    /// the expected type tag; the fourth is the rank.
    pub fn visit_bytes(&self, b: &[u8]) -> (r: ArrResult<usize>)
        ensures
            match r {
                Ok(nd) => {
                    &&& b@.len() >= 4
                    &&& b@[2] == self.dtype_spec()
                    &&& nd == b@[3] as usize
                },
                Err(e) => if b@.len() < 4 {
                    e == Error::IdxReadUnaccepted
                } else {
                    &&& b@[2] != self.dtype_spec()
                    &&& e == (Error::IdxMismatchDTypeIDs {
                        expected: self.dtype_spec(),
                        actual: b@[2],
                    })
                },
            },
    {
        if b.len() < 4 {
            return Err(Error::IdxReadUnaccepted);
        }
        let actual = b[2];
        if actual != self.dtype {
            return Err(Error::IdxMismatchDTypeIDs { expected: self.dtype, actual });
        }
        Ok(b[3] as usize)
    }
}

/// Reads the axis-length table: a run of big-endian 4-byte signed integers.
pub struct ShapeVisitor {
    ndims: usize,
}

impl ShapeVisitor {
    pub closed spec fn ndims_spec(&self) -> usize {
        self.ndims
    }

    pub fn new(ndims: usize) -> (v: Self)
        ensures
            v.ndims_spec() == ndims,
    {
        ShapeVisitor { ndims }
    }

    /// Reads the announced number of axis lengths from the front of `b`,
    /// in stream order.
    #[verifier::loop_isolation(false)]
    pub fn visit_bytes(&self, b: &[u8]) -> (r: ArrResult<Vec<i32>>)
        ensures
            match r {
                Ok(v) => {
                    &&& 4 * self.ndims_spec() <= b@.len()
                    &&& v@.len() == self.ndims_spec()
                    &&& forall|k: int|
                        0 <= k < v@.len() ==> #[trigger] v@[k] as int == be_i32(
                            b@.subrange(4 * k, 4 * k + 4),
                        )
                },
                Err(e) => {
                    &&& b@.len() < 4 * self.ndims_spec()
                    &&& e == Error::IdxReadUnaccepted
                },
            },
    {
        let blen = b.len();
        proof {
            lemma_div_lt_iff(blen as int, 4, self.ndims as int);
        }
        if blen / 4 < self.ndims {
            return Err(Error::IdxReadUnaccepted);
        }
        let mut out: Vec<i32> = Vec::new();
        let mut k: usize = 0;
        while k < self.ndims
            invariant
                4 * self.ndims <= b@.len(),
                0 <= k <= self.ndims,
                out@.len() == k,
                forall|t: int|
                    0 <= t < k ==> #[trigger] out@[t] as int == be_i32(
                        b@.subrange(4 * t, 4 * t + 4),
                    ),
            decreases self.ndims - k,
        {
            let value = <i32 as IdxType>::read_be(b, 4 * k);
            proof {
                assert(b@.subrange(4 * k, 4 * k + 4) =~= b@.subrange(
                    (4 * k) as int,
                    4 * k + <i32 as TypeAware>::bytes_spec(),
                ));
                lemma_be_nat4(b@.subrange(4 * k, 4 * k + 4));
            }
            out.push(value);
            k += 1;
        }
        Ok(out)
    }
}

/// Reads the element run: `len` values at the element type's width.
pub struct DataVisitor<T: IdxType> {
    len: usize,
    marker: core::marker::PhantomData<T>,
}

impl<T: IdxType> DataVisitor<T> {
    pub closed spec fn len_spec(&self) -> usize {
        self.len
    }

    pub fn new(len: usize) -> (v: Self)
        ensures
            v.len_spec() == len,
    {
        DataVisitor { len, marker: core::marker::PhantomData }
    }

    /// Decodes the announced number of elements from the front of `b`, in
    /// stream order.
    #[verifier::loop_isolation(false)]
    pub fn visit_bytes(&self, b: &[u8]) -> (r: ArrResult<Vec<T>>)
        ensures
            match r {
                Ok(v) => {
                    &&& self.len_spec() * T::bytes_spec() <= b@.len()
                    &&& v@.len() == self.len_spec()
                    &&& forall|k: int|
                        0 <= k < v@.len() ==> #[trigger] v@[k] == T::decode_spec(
                            b@.subrange(
                                k * T::bytes_spec(),
                                (k + 1) * T::bytes_spec(),
                            ),
                        )
                },
                Err(e) => {
                    &&& b@.len() < self.len_spec() * T::bytes_spec()
                    &&& e == Error::IdxReadUnaccepted
                },
            },
    {
        let w = T::bytes();
        let blen = b.len();
        proof {
            lemma_div_lt_iff(blen as int, w as int, self.len as int);
            vstd::arithmetic::mul::lemma_mul_is_commutative(w as int, self.len as int);
        }
        if blen / w < self.len {
            return Err(Error::IdxReadUnaccepted);
        }
        let mut out: Vec<T> = Vec::new();
        let mut k: usize = 0;
        while k < self.len
            invariant
                w == T::bytes_spec(),
                1 <= w <= 8,
                self.len * w <= b@.len(),
                0 <= k <= self.len,
                out@.len() == k,
                forall|t: int|
                    0 <= t < k ==> #[trigger] out@[t] == T::decode_spec(
                        b@.subrange(t * T::bytes_spec(), (t + 1) * T::bytes_spec()),
                    ),
            decreases self.len - k,
        {
            proof {
                vstd::arithmetic::mul::lemma_mul_inequality(
                    k + 1,
                    self.len as int,
                    w as int,
                );
                vstd::arithmetic::mul::lemma_mul_is_distributive_add_other_way(
                    w as int,
                    k as int,
                    1,
                );
                vstd::arithmetic::mul::lemma_mul_nonnegative(k as int, w as int);
            }
            let value = T::read_be(b, k * w);
            out.push(value);
            k += 1;
        }
        Ok(out)
    }
}

/// The rank a byte stream announces.
pub open spec fn idx_ndims(b: Seq<u8>) -> int {
    b[3] as int
}

/// Where the element run begins: past the header and the axis table.
pub open spec fn idx_hdr(b: Seq<u8>) -> int {
    4 + 4 * idx_ndims(b)
}

/// The `j`-th axis length as written in the stream (outermost first).
pub open spec fn idx_raw_dim(b: Seq<u8>, j: int) -> int {
    be_i32(b.subrange(4 + 4 * j, 8 + 4 * j))
}

/// The `k`-th axis length innermost-first, with any non-positive stream
/// value read as a zero-length axis.
pub open spec fn idx_dim(b: Seq<u8>, k: int) -> usize {
    let raw = idx_raw_dim(b, idx_ndims(b) - 1 - k);
    if raw <= 0 {
        0
    } else {
        raw as usize
    }
}

/// The dimension list a byte stream announces, innermost axis first.
pub open spec fn idx_dims(b: Seq<u8>) -> Seq<usize> {
    Seq::new(idx_ndims(b) as nat, |k: int| idx_dim(b, k))
}

/// Decodes a whole array from the binary array format. The header must
/// carry `T`'s type tag; the stream must hold the announced axis table and
/// element run in full, every axis length must be positive, and the rank
/// must be at least one. The resulting array's buffer is aligned with its
/// shape by construction.
#[verifier::loop_isolation(false)]
pub fn from_idx<T: IdxType>(bytes: &[u8]) -> (r: ArrResult<ArrayBase<T>>)
    ensures
        match r {
            Ok(arr) => {
                &&& bytes@.len() >= 4
                &&& bytes@[2] == T::id_spec()
                &&& idx_hdr(bytes@) <= bytes@.len()
                &&& idx_ndims(bytes@) >= 1
                &&& dims_pos(idx_dims(bytes@))
                &&& idx_hdr(bytes@) + seq_prod(idx_dims(bytes@)) * T::bytes_spec()
                    <= bytes@.len()
                &&& arr.wf()
                &&& arr.dims_seq() == idx_dims(bytes@)
                &&& arr.data_seq().len() == seq_prod(idx_dims(bytes@))
                &&& forall|k: int|
                    0 <= k < arr.data_seq().len() ==> #[trigger] arr.data_seq()[k]
                        == T::decode_spec(
                        bytes@.subrange(
                            idx_hdr(bytes@) + k * T::bytes_spec(),
                            idx_hdr(bytes@) + (k + 1) * T::bytes_spec(),
                        ),
                    )
            },
            Err(e) => {
                if bytes@.len() < 4 {
                    e == Error::IdxReadUnaccepted
                } else if bytes@[2] != T::id_spec() {
                    e == (Error::IdxMismatchDTypeIDs {
                        expected: T::id_spec(),
                        actual: bytes@[2],
                    })
                } else if idx_hdr(bytes@) > bytes@.len() {
                    e == Error::IdxReadUnaccepted
                } else if idx_ndims(bytes@) == 0 {
                    e == Error::ShapeZeroDims
                } else if !dims_pos(idx_dims(bytes@)) {
                    &&& e matches Error::ShapeZeroLenDim { dims }
                    &&& dims@ == idx_dims(bytes@)
                } else {
                    &&& bytes@.len() < idx_hdr(bytes@) + seq_prod(idx_dims(bytes@))
                        * T::bytes_spec()
                    &&& e == Error::IdxReadUnaccepted
                }
            },
        },
{
    let magic = MagicNumberVisitor::new(T::id());
    let ndims = match magic.visit_bytes(bytes) {
        Ok(n) => n,
        Err(e) => {
            return Err(e);
        },
    };
    let tail = vstd::slice::slice_subrange(bytes, 4, bytes.len());
    let shape_visitor = ShapeVisitor::new(ndims);
    let raw = match shape_visitor.visit_bytes(tail) {
        Ok(v) => v,
        Err(e) => {
            return Err(e);
        },
    };
    if ndims == 0 {
        return Err(Error::ShapeZeroDims);
    }
    let mut dims: Vec<usize> = Vec::new();
    let mut k: usize = 0;
    while k < ndims
        invariant
            raw@.len() == ndims,
            0 <= k <= ndims,
            dims@.len() == k,
            forall|t: int|
                0 <= t < k ==> #[trigger] dims@[t] == (if raw@[ndims - 1 - t] <= 0 {
                    0usize
                } else {
                    raw@[ndims - 1 - t] as usize
                }),
        decreases ndims - k,
    {
        let rawv = raw[ndims - 1 - k];
        let d: usize = if rawv <= 0 {
            0
        } else {
            rawv as usize
        };
        dims.push(d);
        k += 1;
    }
    proof {
        assert forall|t: int| 0 <= t < ndims implies #[trigger] dims@[t] == idx_dim(
            bytes@,
            t,
        ) by {
            assert(tail@.subrange(4 * (ndims - 1 - t), 4 * (ndims - 1 - t) + 4) =~= bytes@
                .subrange(4 + 4 * (ndims - 1 - t), 8 + 4 * (ndims - 1 - t)));
        }
        assert(dims@ =~= idx_dims(bytes@));
    }
    let mut t: usize = 0;
    while t < ndims
        invariant
            dims@ == idx_dims(bytes@),
            dims@.len() == ndims,
            0 <= t <= ndims,
            forall|u: int| 0 <= u < t ==> #[trigger] dims@[u] >= 1,
        decreases ndims - t,
    {
        if dims[t] == 0 {
            proof {
                assert(idx_dims(bytes@)[t as int] == 0);
                assert(!dims_pos(idx_dims(bytes@)));
            }
            return Err(Error::ShapeZeroLenDim { dims });
        }
        t += 1;
    }
    let w = T::bytes();
    let mut vol: usize = 1;
    let mut i: usize = 0;
    proof {
        assert(dims@.take(0) =~= Seq::<usize>::empty());
    }
    while i < ndims
        invariant
            dims@ == idx_dims(bytes@),
            dims@.len() == ndims,
            dims_pos(dims@),
            0 <= i <= ndims,
            vol == seq_prod(dims@.take(i as int)),
            w == T::bytes_spec(),
            1 <= w <= 8,
        decreases ndims - i,
    {
        proof {
            crate::shape::lemma_seq_prod_take_succ(dims@, i as int);
        }
        vol = match vol.checked_mul(dims[i]) {
            Some(v) => v,
            None => {
                proof {
                    crate::shape::lemma_seq_prod_take_le(dims@, i + 1);
                    vstd::arithmetic::mul::lemma_mul_inequality(
                        1,
                        w as int,
                        seq_prod(dims@),
                    );
                    vstd::arithmetic::mul::lemma_mul_is_commutative(
                        w as int,
                        seq_prod(dims@),
                    );
                }
                return Err(Error::IdxReadUnaccepted);
            },
        };
        i += 1;
    }
    proof {
        assert(dims@.take(ndims as int) =~= dims@);
    }
    let hdr = 4 + 4 * ndims;
    let data_tail = vstd::slice::slice_subrange(bytes, hdr, bytes.len());
    let data_visitor = DataVisitor::<T>::new(vol);
    let data = match data_visitor.visit_bytes(data_tail) {
        Ok(d) => d,
        Err(e) => {
            return Err(e);
        },
    };
    proof {
        assert forall|k2: int| 0 <= k2 < data@.len() implies #[trigger] data@[k2]
            == T::decode_spec(
            bytes@.subrange(
                idx_hdr(bytes@) + k2 * T::bytes_spec(),
                idx_hdr(bytes@) + (k2 + 1) * T::bytes_spec(),
            ),
        ) by {
            vstd::arithmetic::mul::lemma_mul_inequality(
                k2 + 1,
                data@.len() as int,
                T::bytes_spec() as int,
            );
            vstd::arithmetic::mul::lemma_mul_is_commutative(k2 + 1, T::bytes_spec() as int);
            vstd::arithmetic::mul::lemma_mul_is_commutative(
                data@.len() as int,
                T::bytes_spec() as int,
            );
            vstd::arithmetic::mul::lemma_mul_is_distributive_add_other_way(
                T::bytes_spec() as int,
                k2,
                1,
            );
            vstd::arithmetic::mul::lemma_mul_nonnegative(k2, T::bytes_spec() as int);
            assert(data_tail@.subrange(k2 * T::bytes_spec(), (k2 + 1) * T::bytes_spec())
                =~= bytes@.subrange(
                idx_hdr(bytes@) + k2 * T::bytes_spec(),
                idx_hdr(bytes@) + (k2 + 1) * T::bytes_spec(),
            ));
        }
    }
    match ArrayBase::new(dims, data) {
        Ok(arr) => Ok(arr),
        Err(e) => {
            proof {
                assert(false);
            }
            Err(e)
        },
    }
}

} // verus!
