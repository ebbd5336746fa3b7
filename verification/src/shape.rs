//! Shapes: the owned dimension vector with its cumulative-volume table, the
//! borrowed shape view, and the broadcast planner that reconciles two shapes
//! into an output shape plus a per-axis traversal instruction list.
//!
//! Dimension lists are kept innermost axis first: `dims[0]` is the
//! fastest-varying axis, the last entry is the outermost axis.

use vstd::prelude::*;
use crate::error::{ArrResult, Error};

verus! {

/// Product of a dimension list: the element count of an array of that shape.
pub open spec fn seq_prod(dims: Seq<usize>) -> int
    decreases dims.len(),
{
    if dims.len() == 0 {
        1
    } else {
        seq_prod(dims.drop_last()) * dims.last()
    }
}

/// Every axis of the list has a nonzero length.
pub open spec fn dims_pos(dims: Seq<usize>) -> bool {
    forall|i: int| 0 <= i < dims.len() ==> dims[i] >= 1
}

/// A dimension list a shape may be built from: at least one axis, none empty.
pub open spec fn dims_valid(dims: Seq<usize>) -> bool {
    dims.len() >= 1 && dims_pos(dims)
}

pub proof fn lemma_seq_prod_push(dims: Seq<usize>, d: usize)
    ensures
        seq_prod(dims.push(d)) == seq_prod(dims) * d,
{
    assert(dims.push(d).drop_last() =~= dims);
}

pub proof fn lemma_seq_prod_pos(dims: Seq<usize>)
    requires
        dims_pos(dims),
    ensures
        seq_prod(dims) >= 1,
    decreases dims.len(),
{
    if dims.len() > 0 {
        lemma_seq_prod_pos(dims.drop_last());
        vstd::arithmetic::mul::lemma_mul_inequality(
            1,
            seq_prod(dims.drop_last()),
            dims.last() as int,
        );
    }
}

pub proof fn lemma_seq_prod_take_succ(dims: Seq<usize>, k: int)
    requires
        0 <= k < dims.len(),
    ensures
        seq_prod(dims.take(k + 1)) == seq_prod(dims.take(k)) * dims[k],
{
    assert(dims.take(k + 1).drop_last() =~= dims.take(k));
    assert(dims.take(k + 1).last() == dims[k]);
}

/// With positive axis lengths, the product of a prefix never exceeds the
/// product of the whole list.
pub proof fn lemma_seq_prod_take_le(dims: Seq<usize>, k: int)
    requires
        dims_pos(dims),
        0 <= k <= dims.len(),
    ensures
        1 <= seq_prod(dims.take(k)) <= seq_prod(dims),
    decreases dims.len() - k,
{
    assert(dims_pos(dims.take(k)));
    lemma_seq_prod_pos(dims.take(k));
    if k == dims.len() {
        assert(dims.take(k) =~= dims);
    } else {
        lemma_seq_prod_take_succ(dims, k);
        lemma_seq_prod_take_le(dims, k + 1);
        vstd::arithmetic::mul::lemma_mul_inequality(
            1,
            dims[k] as int,
            seq_prod(dims.take(k)),
        );
        vstd::arithmetic::mul::lemma_mul_is_commutative(
            seq_prod(dims.take(k)),
            dims[k] as int,
        );
    }
}

/// The owned form of a shape: the dimension vector together with its derived
/// cumulative-volume table. `volumes[i]` is the number of elements spanned by
/// the innermost `i` axes combined, so `volumes[0] == 1` and the final entry
/// is the total element count.
#[derive(Debug)]
pub struct ShapeBase {
    dims: Vec<usize>,
    volumes: Vec<usize>,
}

impl ShapeBase {
    /// The dimension list, innermost axis first.
    pub closed spec fn dims_seq(&self) -> Seq<usize> {
        self.dims@
    }

    pub closed spec fn wf(&self) -> bool {
        &&& dims_valid(self.dims@)
        &&& self.volumes@.len() == self.dims@.len() + 1
        &&& forall|i: int|
            0 <= i <= self.dims@.len() ==> #[trigger] self.volumes@[i] == seq_prod(
                self.dims@.take(i),
            )
    }

    /// What well-formedness guarantees to the other modules: a valid
    /// dimension list whose volume fits the machine word.
    pub proof fn lemma_wf(&self)
        requires
            self.wf(),
        ensures
            dims_valid(self.dims_seq()),
            seq_prod(self.dims_seq()) <= usize::MAX,
    {
        assert(self.dims@.take(self.dims@.len() as int) =~= self.dims@);
        assert(self.volumes@[self.dims@.len() as int] == seq_prod(self.dims@));
    }

    /// Checked constructor: rejects an empty dimension list and any axis of
    /// length zero, then precomputes the cumulative-volume table in one pass.
    pub fn new_checked(dims: Vec<usize>) -> (r: ArrResult<ShapeBase>)
        requires
            seq_prod(dims@) <= usize::MAX,
        ensures
            match r {
                Ok(s) => {
                    &&& dims_valid(dims@)
                    &&& s.wf()
                    &&& s.dims_seq() == dims@
                },
                Err(e) => {
                    &&& !dims_valid(dims@)
                    &&& if dims@.len() == 0 {
                        e == Error::ShapeZeroDims
                    } else {
                        e == (Error::ShapeZeroLenDim { dims })
                    }
                },
            },
    {
        if dims.len() == 0 {
            return Err(Error::ShapeZeroDims);
        }
        let mut i: usize = 0;
        while i < dims.len()
            invariant
                0 <= i <= dims@.len(),
                forall|j: int| 0 <= j < i ==> dims@[j] >= 1,
            decreases dims@.len() - i,
        {
            if dims[i] == 0 {
                return Err(Error::ShapeZeroLenDim { dims });
            }
            i += 1;
        }
        let volumes = cumulative_volumes(&dims);
        Ok(ShapeBase { dims, volumes })
    }

    /// The total element count: the last entry of the volume table.
    pub fn total_volume(&self) -> (v: usize)
        requires
            self.wf(),
        ensures
            v == seq_prod(self.dims_seq()),
    {
        proof {
            assert(self.dims@.take(self.dims@.len() as int) =~= self.dims@);
        }
        self.volumes[self.dims.len()]
    }

    /// A copy of the dimension list.
    pub fn dims(&self) -> (v: Vec<usize>)
        ensures
            v@ == self.dims_seq(),
    {
        let mut out: Vec<usize> = Vec::new();
        let mut i: usize = 0;
        while i < self.dims.len()
            invariant
                0 <= i <= self.dims@.len(),
                out@ =~= self.dims@.take(i as int),
            decreases self.dims@.len() - i,
        {
            out.push(self.dims[i]);
            i += 1;
        }
        proof {
            assert(out@ =~= self.dims@);
        }
        out
    }
}

impl ShapeBase {
    /// The dimension list, borrowed.
    pub fn dims_slice(&self) -> (d: &[usize])
        ensures
            d@ == self.dims_seq(),
    {
        self.dims.as_slice()
    }
}

/// A borrowed window into a `ShapeBase`: the shape as seen after some number
/// of rank reductions, with a possibly shortened outermost axis. It exposes
/// the current outermost (trailing) axis length, the stride (in elements) of
/// one step along that axis, and borrows the remaining inner axes.
#[derive(Clone, Copy, PartialEq, Debug)]
pub struct Shape<'base> {
    trailing_len: usize,
    trailing_volume: usize,
    inner_dims: &'base [usize],
    inner_volumes: &'base [usize],
}

impl<'base> Shape<'base> {
    /// The dimension list this view stands for, innermost axis first.
    pub closed spec fn dims_seq(&self) -> Seq<usize> {
        self.inner_dims@.push(self.trailing_len)
    }

    pub closed spec fn wf(&self) -> bool {
        &&& self.inner_dims@.len() == self.inner_volumes@.len()
        &&& self.inner_dims@.len() < usize::MAX
        &&& dims_pos(self.inner_dims@)
        &&& self.trailing_len >= 1
        &&& forall|i: int|
            0 <= i < self.inner_volumes@.len() ==> #[trigger] self.inner_volumes@[i] == seq_prod(
                self.inner_dims@.take(i),
            )
        &&& self.trailing_volume == seq_prod(self.inner_dims@)
        &&& self.trailing_len * self.trailing_volume <= usize::MAX
    }

    pub proof fn lemma_wf_implications(&self)
        requires
            self.wf(),
        ensures
            dims_valid(self.dims_seq()),
            seq_prod(self.dims_seq()) == self.dims_seq().last() * seq_prod(
                self.dims_seq().drop_last(),
            ),
            seq_prod(self.dims_seq()) <= usize::MAX,
    {
        assert(self.dims_seq().drop_last() =~= self.inner_dims@);
        lemma_seq_prod_push(self.inner_dims@, self.trailing_len);
        vstd::arithmetic::mul::lemma_mul_is_commutative(
            seq_prod(self.inner_dims@),
            self.trailing_len as int,
        );
    }

    /// A view of a whole `ShapeBase`: the trailing axis is its outermost one.
    pub fn new(base: &'base ShapeBase) -> (s: Shape<'base>)
        requires
            base.wf(),
        ensures
            s.wf(),
            s.dims_seq() == base.dims_seq(),
    {
        let n = base.dims.len();
        let s = Shape {
            trailing_len: base.dims[n - 1],
            trailing_volume: base.volumes[n - 1],
            inner_dims: vstd::slice::slice_subrange(base.dims.as_slice(), 0, n - 1),
            inner_volumes: vstd::slice::slice_subrange(base.volumes.as_slice(), 0, n - 1),
        };
        proof {
            assert(base.dims@.subrange(0, n - 1) =~= base.dims@.take(n - 1));
            assert(s.dims_seq() =~= base.dims@);
            assert forall|i: int| 0 <= i < s.inner_volumes@.len() implies #[trigger] s
                .inner_volumes@[i] == seq_prod(s.inner_dims@.take(i)) by {
                assert(base.dims@.take(n - 1).take(i) =~= base.dims@.take(i));
            }
            lemma_seq_prod_take_succ(base.dims@, n - 1);
            assert(base.dims@.take(n as int) =~= base.dims@);
            lemma_seq_prod_take_le(base.dims@, n - 1);
            vstd::arithmetic::mul::lemma_mul_is_commutative(
                seq_prod(base.dims@.take(n - 1)),
                base.dims@[n - 1] as int,
            );
            assert(base.volumes@[n as int] == seq_prod(base.dims@));
        }
        s
    }

    /// Number of axes still visible through this view.
    pub fn ndims(&self) -> (n: usize)
        requires
            self.wf(),
        ensures
            n == self.dims_seq().len(),
    {
        self.inner_dims.len() + 1
    }

    /// Length of the current outermost (trailing) axis.
    pub fn len(&self) -> (l: usize)
        ensures
            l == self.dims_seq().last(),
    {
        self.trailing_len
    }

    /// Elements spanned by one step along the trailing axis: the product of
    /// all inner axis lengths.
    pub fn stride(&self) -> (s: usize)
        requires
            self.wf(),
        ensures
            s == seq_prod(self.dims_seq().drop_last()),
    {
        proof {
            assert(self.dims_seq().drop_last() =~= self.inner_dims@);
        }
        self.trailing_volume
    }

    /// The dimension list as an owned vector, innermost axis first.
    pub fn to_vec(&self) -> (v: Vec<usize>)
        ensures
            v@ == self.dims_seq(),
    {
        let mut out: Vec<usize> = Vec::new();
        let mut i: usize = 0;
        while i < self.inner_dims.len()
            invariant
                0 <= i <= self.inner_dims@.len(),
                out@ =~= self.inner_dims@.take(i as int),
            decreases self.inner_dims@.len() - i,
        {
            out.push(self.inner_dims[i]);
            i += 1;
        }
        proof {
            assert(out@ =~= self.inner_dims@);
        }
        out.push(self.trailing_len);
        out
    }

    /// A copy of the dimension list.
    pub fn dims(&self) -> (v: Vec<usize>)
        ensures
            v@ == self.dims_seq(),
    {
        self.to_vec()
    }

    /// The element count of the viewed shape.
    pub fn volume(&self) -> (v: usize)
        requires
            self.wf(),
        ensures
            v == seq_prod(self.dims_seq()),
    {
        proof {
            self.lemma_wf_implications();
            assert(self.dims_seq().drop_last() =~= self.inner_dims@);
        }
        self.trailing_len * self.trailing_volume
    }

    /// The view with its outermost axis dropped. The dropped axis's stride
    /// table entry becomes the new trailing volume.
    pub fn derank(&self) -> (s: Shape<'base>)
        requires
            self.wf(),
            self.dims_seq().len() >= 2,
        ensures
            s.wf(),
            s.dims_seq() == self.dims_seq().drop_last(),
    {
        let m = self.inner_dims.len();
        let s = Shape {
            trailing_len: self.inner_dims[m - 1],
            trailing_volume: self.inner_volumes[m - 1],
            inner_dims: vstd::slice::slice_subrange(self.inner_dims, 0, m - 1),
            inner_volumes: vstd::slice::slice_subrange(self.inner_volumes, 0, m - 1),
        };
        proof {
            assert(s.inner_dims@ =~= self.inner_dims@.take(m - 1));
            assert(s.dims_seq() =~= self.dims_seq().drop_last());
            assert forall|i: int| 0 <= i < s.inner_volumes@.len() implies #[trigger] s
                .inner_volumes@[i] == seq_prod(s.inner_dims@.take(i)) by {
                assert(self.inner_dims@.take(m - 1).take(i) =~= self.inner_dims@.take(i));
            }
            lemma_seq_prod_take_succ(self.inner_dims@, m - 1);
            assert(self.inner_dims@.take(m as int) =~= self.inner_dims@);
            lemma_seq_prod_take_le(self.inner_dims@, m - 1);
            vstd::arithmetic::mul::lemma_mul_is_commutative(
                seq_prod(self.inner_dims@.take(m - 1)),
                self.inner_dims@[m - 1] as int,
            );
            assert(s.trailing_len * s.trailing_volume == self.trailing_volume);
        }
        s
    }

    /// The same view with the trailing axis shortened to `new_len`.
    pub fn with_trailing_len(&self, new_len: usize) -> (s: Shape<'base>)
        requires
            self.wf(),
            1 <= new_len <= self.dims_seq().last(),
        ensures
            s.wf(),
            s.dims_seq() == self.dims_seq().drop_last().push(new_len),
    {
        let s = Shape {
            trailing_len: new_len,
            trailing_volume: self.trailing_volume,
            inner_dims: self.inner_dims,
            inner_volumes: self.inner_volumes,
        };
        proof {
            assert(s.dims_seq() =~= self.dims_seq().drop_last().push(new_len));
            vstd::arithmetic::mul::lemma_mul_inequality(
                new_len as int,
                self.trailing_len as int,
                self.trailing_volume as int,
            );
        }
        s
    }

    /// Rebuilds an owned `ShapeBase` with the viewed dimensions.
    pub fn into_base(&self) -> (b: ShapeBase)
        requires
            self.wf(),
        ensures
            b.wf(),
            b.dims_seq() == self.dims_seq(),
    {
        proof {
            self.lemma_wf_implications();
        }
        let dims = self.to_vec();
        let volumes = cumulative_volumes(&dims);
        ShapeBase { dims, volumes }
    }
}

/// Smaller of two mathematical integers.
pub open spec fn imin(a: int, b: int) -> int {
    if a < b {
        a
    } else {
        b
    }
}

/// Larger of two mathematical integers.
pub open spec fn imax(a: int, b: int) -> int {
    if a > b {
        a
    } else {
        b
    }
}

/// Two dimension lists can be broadcast together: wherever both have an axis,
/// the lengths agree or one of them is 1.
pub open spec fn bc_compat(a: Seq<usize>, b: Seq<usize>) -> bool {
    forall|k: int|
        0 <= k < imin(a.len() as int, b.len() as int) ==> a[k] == b[k] || a[k] == 1 || b[k] == 1
}

/// The broadcast output length at axis `k`: the present length where only one
/// side has the axis, the common length where they agree, and the non-1
/// length where one side is stretched.
pub open spec fn bc_dim(a: Seq<usize>, b: Seq<usize>, k: int) -> usize {
    if k < a.len() && k < b.len() && a[k] == b[k] {
        a[k]
    } else if k < a.len() && (k >= b.len() || b[k] == 1) {
        a[k]
    } else {
        b[k]
    }
}

/// The broadcast output shape of two dimension lists.
pub open spec fn bc_dims(a: Seq<usize>, b: Seq<usize>) -> Seq<usize> {
    Seq::new(imax(a.len() as int, b.len() as int) as nat, |k: int| bc_dim(a, b, k))
}

/// The number of elements one operand advances per step along output axis
/// `k`: the product of its axis lengths inside axis `k` (all of them once the
/// operand's rank is exhausted).
pub open spec fn stride_of(d: Seq<usize>, k: int) -> int {
    seq_prod(d.take(imin(k, d.len() as int)))
}

/// One entry per output axis, innermost first, telling the traversal engine
/// how that axis is walked: in lockstep, with one operand's single element or
/// sub-view repeated (stretch), or with a rank-deficient operand reused whole
/// (pad). The innermost axis uses the terminal `Push` forms, which zip flat
/// element slices directly. `Recurse` forms carry the element stride used to
/// chunk each operand that has the axis.
#[derive(Clone, Copy, Debug, PartialEq, Eq, Structural)]
pub enum BroadcastInstruction {
    PushLinear,
    PushStretchA,
    PushStretchB,
    RecurseLinear { stride_a: usize, stride_b: usize },
    RecurseStretchA { stride_b: usize },
    RecurseStretchB { stride_a: usize },
    RecursePadA { stride_b: usize },
    RecursePadB { stride_a: usize },
}

/// `ins` is the correct instruction for output axis `k` of broadcasting `a`
/// with `b` (meaningful on compatible shapes).
pub open spec fn instr_ok(a: Seq<usize>, b: Seq<usize>, k: int, ins: BroadcastInstruction) -> bool {
    let la = a.len() as int;
    let lb = b.len() as int;
    if k == 0 {
        if a[0] == b[0] {
            ins == BroadcastInstruction::PushLinear
        } else if b[0] == 1 {
            ins == BroadcastInstruction::PushStretchB
        } else {
            ins == BroadcastInstruction::PushStretchA
        }
    } else if k < la && k < lb && a[k] == b[k] {
        &&& ins matches BroadcastInstruction::RecurseLinear { stride_a, stride_b }
        &&& stride_a == stride_of(a, k)
        &&& stride_b == stride_of(b, k)
    } else if k < la && k >= lb {
        &&& ins matches BroadcastInstruction::RecursePadB { stride_a }
        &&& stride_a == stride_of(a, k)
    } else if k < la && b[k] == 1 {
        &&& ins matches BroadcastInstruction::RecurseStretchB { stride_a }
        &&& stride_a == stride_of(a, k)
    } else if k >= la {
        &&& ins matches BroadcastInstruction::RecursePadA { stride_b }
        &&& stride_b == stride_of(b, k)
    } else {
        &&& ins matches BroadcastInstruction::RecurseStretchA { stride_b }
        &&& stride_b == stride_of(b, k)
    }
}

/// The whole instruction list is correct for broadcasting `a` with `b`.
pub open spec fn plan_ok(a: Seq<usize>, b: Seq<usize>, instrs: Seq<BroadcastInstruction>) -> bool {
    &&& instrs.len() == imax(a.len() as int, b.len() as int)
    &&& forall|k: int| 0 <= k < instrs.len() ==> instr_ok(a, b, k, #[trigger] instrs[k])
}

impl<'base> Shape<'base> {
    /// Reconciles two shapes by the broadcasting rule, innermost axis first:
    /// axes of equal length pair off, a length-1 axis is stretched to the
    /// other side's length, and once one operand's rank is exhausted its
    /// missing axes count as length 1. Returns the output shape together
    /// with one traversal instruction per output axis, or reports the two
    /// offending dimension lists if some axis has two unequal lengths
    /// neither of which is 1.
    pub fn broadcast(&self, other: &Shape<'_>) -> (r: ArrResult<
        (ShapeBase, Vec<BroadcastInstruction>),
    >)
        requires
            self.wf(),
            other.wf(),
            bc_compat(self.dims_seq(), other.dims_seq()) ==> seq_prod(
                bc_dims(self.dims_seq(), other.dims_seq()),
            ) <= usize::MAX,
        ensures
            match r {
                Ok(p) => {
                    &&& bc_compat(self.dims_seq(), other.dims_seq())
                    &&& p.0.wf()
                    &&& p.0.dims_seq() == bc_dims(self.dims_seq(), other.dims_seq())
                    &&& plan_ok(self.dims_seq(), other.dims_seq(), p.1@)
                },
                Err(e) => {
                    &&& !bc_compat(self.dims_seq(), other.dims_seq())
                    &&& e matches Error::Broadcast { dims1, dims2 }
                    &&& dims1@ == self.dims_seq()
                    &&& dims2@ == other.dims_seq()
                },
            },
    {
        let ghost a = self.dims_seq();
        let ghost b = other.dims_seq();
        let av = self.to_vec();
        let bv = other.to_vec();
        let la = av.len();
        let lb = bv.len();
        let n = if la > lb {
            la
        } else {
            lb
        };
        proof {
            self.lemma_wf_implications();
            other.lemma_wf_implications();
        }
        let mut dims: Vec<usize> = Vec::new();
        let mut instrs: Vec<BroadcastInstruction> = Vec::new();
        let mut stride_a: usize = 1;
        let mut stride_b: usize = 1;
        let mut k: usize = 0;
        proof {
            assert(a.take(0) =~= Seq::<usize>::empty());
            assert(b.take(0) =~= Seq::<usize>::empty());
        }
        while k < n
            invariant
                a == self.dims_seq(),
                b == other.dims_seq(),
                av@ == a,
                bv@ == b,
                la == a.len(),
                lb == b.len(),
                dims_valid(a),
                dims_valid(b),
                seq_prod(a) <= usize::MAX,
                seq_prod(b) <= usize::MAX,
                n == imax(la as int, lb as int),
                0 <= k <= n,
                dims@.len() == k,
                forall|i: int| 0 <= i < k ==> #[trigger] dims@[i] == bc_dim(a, b, i),
                instrs@.len() == k,
                forall|i: int| 0 <= i < k ==> instr_ok(a, b, i, #[trigger] instrs@[i]),
                stride_a == stride_of(a, k as int),
                stride_b == stride_of(b, k as int),
                forall|i: int|
                    0 <= i < k && i < la && i < lb ==> a[i] == b[i] || a[i] == 1 || b[i] == 1,
            decreases n - k,
        {
            let a_here = k < la;
            let b_here = k < lb;
            let d: usize;
            let ins: BroadcastInstruction;
            if a_here && b_here && av[k] == bv[k] {
                d = av[k];
                ins = if k == 0 {
                    BroadcastInstruction::PushLinear
                } else {
                    BroadcastInstruction::RecurseLinear { stride_a, stride_b }
                };
            } else if a_here && (!b_here || bv[k] == 1) {
                d = av[k];
                ins = if k == 0 {
                    BroadcastInstruction::PushStretchB
                } else if !b_here {
                    BroadcastInstruction::RecursePadB { stride_a }
                } else {
                    BroadcastInstruction::RecurseStretchB { stride_a }
                };
            } else if b_here && (!a_here || av[k] == 1) {
                d = bv[k];
                ins = if k == 0 {
                    BroadcastInstruction::PushStretchA
                } else if !a_here {
                    BroadcastInstruction::RecursePadA { stride_b }
                } else {
                    BroadcastInstruction::RecurseStretchA { stride_b }
                };
            } else {
                proof {
                    assert(a[k as int] != b[k as int] && a[k as int] != 1 && b[k as int] != 1);
                    assert(0 <= k < imin(la as int, lb as int));
                    assert(!bc_compat(a, b));
                }
                return Err(Error::Broadcast { dims1: av, dims2: bv });
            }
            dims.push(d);
            instrs.push(ins);
            proof {
                if (k as int) < la {
                    lemma_seq_prod_take_succ(a, k as int);
                    lemma_seq_prod_take_le(a, k + 1);
                    assert(a.take(imin(k + 1, la as int)) =~= a.take(k + 1));
                } else {
                    assert(a.take(imin(k + 1, la as int)) =~= a.take(imin(k as int, la as int)));
                }
                if (k as int) < lb {
                    lemma_seq_prod_take_succ(b, k as int);
                    lemma_seq_prod_take_le(b, k + 1);
                    assert(b.take(imin(k + 1, lb as int)) =~= b.take(k + 1));
                } else {
                    assert(b.take(imin(k + 1, lb as int)) =~= b.take(imin(k as int, lb as int)));
                }
            }
            stride_a = if a_here {
                stride_a * av[k]
            } else {
                stride_a
            };
            stride_b = if b_here {
                stride_b * bv[k]
            } else {
                stride_b
            };
            k += 1;
        }
        proof {
            assert(dims@ =~= bc_dims(a, b));
            assert forall|i: int| 0 <= i < dims@.len() implies #[trigger] dims@[i] >= 1 by {
                assert(dims@[i] == bc_dim(a, b, i));
            }
        }
        match ShapeBase::new_checked(dims) {
            Ok(shape_base) => Ok((shape_base, instrs)),
            Err(e) => {
                proof {
                    assert(false);
                }
                Err(e)
            },
        }
    }
}

/// Builds the running-product table of a positive dimension list.
fn cumulative_volumes(dims: &Vec<usize>) -> (v: Vec<usize>)
    requires
        dims_pos(dims@),
        seq_prod(dims@) <= usize::MAX,
    ensures
        v@.len() == dims@.len() + 1,
        forall|i: int| 0 <= i <= dims@.len() ==> #[trigger] v@[i] == seq_prod(dims@.take(i)),
{
    let mut v: Vec<usize> = Vec::new();
    let mut acc: usize = 1;
    v.push(1);
    proof {
        assert(dims@.take(0) =~= Seq::<usize>::empty());
    }
    let mut i: usize = 0;
    while i < dims.len()
        invariant
            0 <= i <= dims@.len(),
            dims_pos(dims@),
            seq_prod(dims@) <= usize::MAX,
            acc == seq_prod(dims@.take(i as int)),
            v@.len() == i + 1,
            forall|j: int| 0 <= j <= i ==> #[trigger] v@[j] == seq_prod(dims@.take(j)),
        decreases dims@.len() - i,
    {
        proof {
            lemma_seq_prod_take_succ(dims@, i as int);
            lemma_seq_prod_take_le(dims@, i + 1);
        }
        acc = acc * dims[i];
        v.push(acc);
        i += 1;
    }
    v
}

} // verus!
