//! The traversal engine: executes a broadcast plan recursively over two
//! views and a binary combinator, appending one result per output element in
//! row-major order, without materializing any stretched operand.
//!
//! The meaning of a traversal is captured by `bc_pairs`: the sequence of
//! operand pairs, in output order, that the combinator is applied to. It is
//! defined by the same recursion the engine performs: the outermost output
//! axis chunks each operand that has the axis (or reuses it whole when it is
//! stretched or padded), and the innermost axis zips flat slices.

use vstd::prelude::*;
use crate::types::ArrType;
use crate::shape::{
    bc_compat, bc_dim, bc_dims, dims_valid, imax, imin, instr_ok, seq_prod,
    BroadcastInstruction,
};

verus! {

/// One contiguous chunk of `size` elements, the `j`-th of its sequence.
pub open spec fn chunk_of<T>(s: Seq<T>, size: int, j: int) -> Seq<T> {
    s.subrange(j * size, (j + 1) * size)
}

/// The dimension list an operand keeps below the outermost output axis of a
/// rank-`n` broadcast: its own outermost axis is consumed if it has one.
pub open spec fn side_dims(d: Seq<usize>, n: int) -> Seq<usize> {
    if d.len() < n {
        d
    } else {
        d.drop_last()
    }
}

/// Whether an operand is reused whole along the outermost output axis:
/// either it has no axis there (pad) or its axis has length 1 while the
/// other's does not (stretch).
pub open spec fn side_whole(d: Seq<usize>, other: Seq<usize>, n: int) -> bool {
    ||| d.len() < n
    ||| (other.len() == n && d[n - 1] == 1 && other[n - 1] != 1)
}

/// The part of an operand's data the `j`-th step along the outermost output
/// axis works on: the whole data where the operand is stretched or padded,
/// its `j`-th chunk otherwise.
pub open spec fn side_data<T>(d: Seq<usize>, other: Seq<usize>, s: Seq<T>, n: int, j: int) -> Seq<
    T,
> {
    if side_whole(d, other, n) {
        s
    } else {
        chunk_of(s, seq_prod(d.drop_last()), j)
    }
}

/// The operand pairing of the innermost axis: matched lengths zip, a
/// length-1 side has its single element repeated.
pub open spec fn zip_base<A, B>(a_dims: Seq<usize>, a: Seq<A>, b_dims: Seq<usize>, b: Seq<B>) -> Seq<
    (A, B),
> {
    if a_dims[0] == b_dims[0] {
        Seq::new(a_dims[0] as nat, |i: int| (a[i], b[i]))
    } else if b_dims[0] == 1 {
        Seq::new(a_dims[0] as nat, |i: int| (a[i], b[0]))
    } else {
        Seq::new(b_dims[0] as nat, |i: int| (a[0], b[i]))
    }
}

/// The pairs of operand elements a broadcast traversal combines, in output
/// row-major order.
pub open spec fn bc_pairs<A, B>(a_dims: Seq<usize>, a: Seq<A>, b_dims: Seq<usize>, b: Seq<B>) -> Seq<
    (A, B),
>
    decreases imax(a_dims.len() as int, b_dims.len() as int), 1int, 0int,
{
    let n = imax(a_dims.len() as int, b_dims.len() as int);
    if n <= 1 {
        zip_base(a_dims, a, b_dims, b)
    } else {
        bc_chunks(a_dims, a, b_dims, b, bc_dim(a_dims, b_dims, n - 1) as int)
    }
}

/// The concatenation of the first `j` outermost-axis steps of a broadcast
/// traversal.
pub open spec fn bc_chunks<A, B>(
    a_dims: Seq<usize>,
    a: Seq<A>,
    b_dims: Seq<usize>,
    b: Seq<B>,
    j: int,
) -> Seq<(A, B)>
    decreases imax(a_dims.len() as int, b_dims.len() as int), 0int, j,
{
    let n = imax(a_dims.len() as int, b_dims.len() as int);
    if j <= 0 || n < 2 {
        Seq::empty()
    } else {
        bc_chunks(a_dims, a, b_dims, b, j - 1) + bc_pairs(
            side_dims(a_dims, n),
            side_data(a_dims, b_dims, a, n, j - 1),
            side_dims(b_dims, n),
            side_data(b_dims, a_dims, b, n, j - 1),
        )
    }
}

/// Peeling the outermost axis keeps both dimension lists valid and
/// broadcast-compatible, and the output shape below it is the peeled output
/// shape.
proof fn lemma_peel(a_dims: Seq<usize>, b_dims: Seq<usize>)
    requires
        dims_valid(a_dims),
        dims_valid(b_dims),
        bc_compat(a_dims, b_dims),
        imax(a_dims.len() as int, b_dims.len() as int) >= 2,
    ensures
        ({
            let n = imax(a_dims.len() as int, b_dims.len() as int);
            let sa = side_dims(a_dims, n);
            let sb = side_dims(b_dims, n);
            &&& dims_valid(sa)
            &&& dims_valid(sb)
            &&& bc_compat(sa, sb)
            &&& imax(sa.len() as int, sb.len() as int) == n - 1
            &&& bc_dims(sa, sb) == bc_dims(a_dims, b_dims).take(n - 1)
        }),
{
    let n = imax(a_dims.len() as int, b_dims.len() as int);
    let sa = side_dims(a_dims, n);
    let sb = side_dims(b_dims, n);
    assert forall|k: int| 0 <= k < imin(sa.len() as int, sb.len() as int) implies sa[k] == sb[k]
        || sa[k] == 1 || sb[k] == 1 by {
        assert(sa[k] == a_dims[k]);
        assert(sb[k] == b_dims[k]);
    }
    assert(bc_dims(sa, sb) =~= bc_dims(a_dims, b_dims).take(n - 1));
}

/// The instructions below the outermost one form a correct plan for the
/// peeled dimension lists.
proof fn lemma_plan_peel(a_dims: Seq<usize>, b_dims: Seq<usize>, instrs: Seq<BroadcastInstruction>)
    requires
        dims_valid(a_dims),
        dims_valid(b_dims),
        imax(a_dims.len() as int, b_dims.len() as int) >= 2,
        instrs.len() == imax(a_dims.len() as int, b_dims.len() as int),
        forall|k: int| 0 <= k < instrs.len() ==> instr_ok(a_dims, b_dims, k, #[trigger] instrs[k]),
    ensures
        ({
            let n = imax(a_dims.len() as int, b_dims.len() as int);
            let sa = side_dims(a_dims, n);
            let sb = side_dims(b_dims, n);
            forall|k: int|
                0 <= k < n - 1 ==> instr_ok(sa, sb, k, #[trigger] instrs.take(n - 1)[k])
        }),
{
    let n = imax(a_dims.len() as int, b_dims.len() as int);
    let sa = side_dims(a_dims, n);
    let sb = side_dims(b_dims, n);
    assert forall|k: int| 0 <= k < n - 1 implies instr_ok(sa, sb, k, #[trigger] instrs.take(
        n - 1,
    )[k]) by {
        assert(instrs.take(n - 1)[k] == instrs[k]);
        assert(instr_ok(a_dims, b_dims, k, instrs[k]));
        if k > 0 {
            assert(sa.take(imin(k, sa.len() as int)) =~= a_dims.take(
                imin(k, a_dims.len() as int),
            ));
            assert(sb.take(imin(k, sb.len() as int)) =~= b_dims.take(
                imin(k, b_dims.len() as int),
            ));
        }
    }
}

/// Length of the pairing sequence: the volume of the broadcast output shape.
pub proof fn lemma_bc_pairs_len<A, B>(a_dims: Seq<usize>, a: Seq<A>, b_dims: Seq<usize>, b: Seq<B>)
    requires
        dims_valid(a_dims),
        dims_valid(b_dims),
        bc_compat(a_dims, b_dims),
        a.len() == seq_prod(a_dims),
        b.len() == seq_prod(b_dims),
    ensures
        bc_pairs(a_dims, a, b_dims, b).len() == seq_prod(bc_dims(a_dims, b_dims)),
    decreases imax(a_dims.len() as int, b_dims.len() as int), 1int, 0int,
{
    let n = imax(a_dims.len() as int, b_dims.len() as int);
    if n <= 1 {
        assert(seq_prod(Seq::<usize>::empty()) == 1);
        assert(a_dims.drop_last() =~= Seq::<usize>::empty());
        assert(b_dims.drop_last() =~= Seq::<usize>::empty());
        assert(seq_prod(a_dims) == seq_prod(a_dims.drop_last()) * a_dims.last());
        assert(seq_prod(b_dims) == seq_prod(b_dims.drop_last()) * b_dims.last());
        assert(seq_prod(a_dims) == a_dims[0]);
        assert(seq_prod(b_dims) == b_dims[0]);
        assert(bc_dims(a_dims, b_dims).drop_last() =~= Seq::<usize>::empty());
        assert(seq_prod(bc_dims(a_dims, b_dims)) == bc_dims(a_dims, b_dims)[0]);
    } else {
        let d = bc_dim(a_dims, b_dims, n - 1) as int;
        lemma_bc_chunks_len(a_dims, a, b_dims, b, d);
        lemma_peel(a_dims, b_dims);
        let sa = side_dims(a_dims, n);
        let sb = side_dims(b_dims, n);
        crate::shape::lemma_seq_prod_push(
            bc_dims(a_dims, b_dims).take(n - 1),
            bc_dims(a_dims, b_dims)[n - 1],
        );
        assert(bc_dims(a_dims, b_dims).take(n - 1).push(bc_dims(a_dims, b_dims)[n - 1])
            =~= bc_dims(a_dims, b_dims));
        vstd::arithmetic::mul::lemma_mul_is_commutative(seq_prod(bc_dims(sa, sb)), d);
    }
}

/// Length of the first `j` outermost-axis steps: `j` copies of the inner
/// volume.
proof fn lemma_bc_chunks_len<A, B>(
    a_dims: Seq<usize>,
    a: Seq<A>,
    b_dims: Seq<usize>,
    b: Seq<B>,
    j: int,
)
    requires
        dims_valid(a_dims),
        dims_valid(b_dims),
        bc_compat(a_dims, b_dims),
        a.len() == seq_prod(a_dims),
        b.len() == seq_prod(b_dims),
        imax(a_dims.len() as int, b_dims.len() as int) >= 2,
        0 <= j <= bc_dim(a_dims, b_dims, imax(a_dims.len() as int, b_dims.len() as int) - 1),
    ensures
        bc_chunks(a_dims, a, b_dims, b, j).len() == j * seq_prod(
            bc_dims(side_dims(a_dims, imax(a_dims.len() as int, b_dims.len() as int)),
            side_dims(b_dims, imax(a_dims.len() as int, b_dims.len() as int))),
        ),
    decreases imax(a_dims.len() as int, b_dims.len() as int), 0int, j,
{
    let n = imax(a_dims.len() as int, b_dims.len() as int);
    let sa = side_dims(a_dims, n);
    let sb = side_dims(b_dims, n);
    lemma_peel(a_dims, b_dims);
    if j > 0 {
        lemma_bc_chunks_len(a_dims, a, b_dims, b, j - 1);
        lemma_bc_dims_comm(a_dims, b_dims);
        lemma_side_data_len(a_dims, b_dims, a, j - 1);
        lemma_side_data_len(b_dims, a_dims, b, j - 1);
        lemma_bc_pairs_len(
            sa,
            side_data(a_dims, b_dims, a, n, j - 1),
            sb,
            side_data(b_dims, a_dims, b, n, j - 1),
        );
        vstd::arithmetic::mul::lemma_mul_is_distributive_sub_other_way(
            seq_prod(bc_dims(sa, sb)),
            j,
            1,
        );
    } else {
        vstd::arithmetic::mul::lemma_mul_basics(seq_prod(bc_dims(sa, sb)));
    }
}

/// The broadcast of two compatible shapes does not depend on the operand
/// order: compatibility is symmetric and the output shape is the same.
pub proof fn lemma_bc_dims_comm(a_dims: Seq<usize>, b_dims: Seq<usize>)
    requires
        bc_compat(a_dims, b_dims),
    ensures
        bc_compat(b_dims, a_dims),
        bc_dims(b_dims, a_dims) == bc_dims(a_dims, b_dims),
{
    assert(bc_dims(b_dims, a_dims) =~= bc_dims(a_dims, b_dims));
}

/// An operand that is not reused whole owns the outermost output axis.
proof fn lemma_chunked_owns_axis(d: Seq<usize>, other: Seq<usize>)
    requires
        dims_valid(d),
        dims_valid(other),
        bc_compat(d, other),
        imax(d.len() as int, other.len() as int) >= 2,
        !side_whole(d, other, imax(d.len() as int, other.len() as int)),
    ensures
        d.len() == imax(d.len() as int, other.len() as int),
        bc_dim(d, other, imax(d.len() as int, other.len() as int) - 1) == d[imax(
            d.len() as int,
            other.len() as int,
        ) - 1],
{
}

/// The data an operand contributes to one outermost-axis step has exactly
/// the volume of its peeled dimension list.
proof fn lemma_side_data_len<T>(d: Seq<usize>, other: Seq<usize>, s: Seq<T>, j: int)
    requires
        dims_valid(d),
        dims_valid(other),
        bc_compat(d, other),
        s.len() == seq_prod(d),
        imax(d.len() as int, other.len() as int) >= 2,
        0 <= j < bc_dim(d, other, imax(d.len() as int, other.len() as int) - 1),
    ensures
        side_data(d, other, s, imax(d.len() as int, other.len() as int), j).len() == seq_prod(
            side_dims(d, imax(d.len() as int, other.len() as int)),
        ),
{
    let n = imax(d.len() as int, other.len() as int);
    if side_whole(d, other, n) {
        if d.len() == n {
            // stretched: the outermost axis has length 1
            assert(seq_prod(d) == seq_prod(d.drop_last()) * d.last());
            assert(d.last() == d[n - 1]);
        }
    } else {
        lemma_chunked_owns_axis(d, other);
        let size = seq_prod(d.drop_last());
        crate::shape::lemma_seq_prod_pos(d.drop_last());
        assert(seq_prod(d) == size * d[n - 1]);
        vstd::arithmetic::mul::lemma_mul_nonnegative(j, size);
        vstd::arithmetic::mul::lemma_mul_is_distributive_add_other_way(size, j, 1);
        vstd::arithmetic::mul::lemma_mul_inequality(j + 1, d[n - 1] as int, size);
        vstd::arithmetic::mul::lemma_mul_is_commutative(j + 1, size);
        vstd::arithmetic::mul::lemma_mul_is_commutative(d[n - 1] as int, size);
        assert(chunk_of(s, size, j).len() == size);
    }
}

/// Product of a one-axis dimension list.
proof fn lemma_seq_prod_single(d: Seq<usize>)
    requires
        d.len() == 1,
    ensures
        seq_prod(d) == d[0],
{
    assert(d.drop_last() =~= Seq::<usize>::empty());
    assert(seq_prod(Seq::<usize>::empty()) == 1);
    assert(seq_prod(d) == seq_prod(d.drop_last()) * d.last());
}

/// What the `j`-th outermost-axis step contributes, and where it lies inside
/// the whole pairing sequence.
proof fn lemma_chunks_step<A, B>(a_dims: Seq<usize>, a: Seq<A>, b_dims: Seq<usize>, b: Seq<B>, j: int)
    requires
        dims_valid(a_dims),
        dims_valid(b_dims),
        bc_compat(a_dims, b_dims),
        a.len() == seq_prod(a_dims),
        b.len() == seq_prod(b_dims),
        imax(a_dims.len() as int, b_dims.len() as int) >= 2,
        0 <= j < bc_dim(a_dims, b_dims, imax(a_dims.len() as int, b_dims.len() as int) - 1),
    ensures
        ({
            let n = imax(a_dims.len() as int, b_dims.len() as int);
            let inner = bc_pairs(
                side_dims(a_dims, n),
                side_data(a_dims, b_dims, a, n, j),
                side_dims(b_dims, n),
                side_data(b_dims, a_dims, b, n, j),
            );
            let pre = bc_chunks(a_dims, a, b_dims, b, j);
            let whole = bc_pairs(a_dims, a, b_dims, b);
            &&& bc_chunks(a_dims, a, b_dims, b, j + 1) == pre + inner
            &&& inner.len() == seq_prod(bc_dims(side_dims(a_dims, n), side_dims(b_dims, n)))
            &&& pre.len() == j * inner.len()
            &&& pre.len() + inner.len() <= whole.len()
            &&& forall|i: int| 0 <= i < pre.len() ==> whole[i] == pre[i]
            &&& forall|i: int| 0 <= i < inner.len() ==> whole[pre.len() + i] == inner[i]
        }),
{
    let n = imax(a_dims.len() as int, b_dims.len() as int);
    let d = bc_dim(a_dims, b_dims, n - 1) as int;
    let inner = bc_pairs(
        side_dims(a_dims, n),
        side_data(a_dims, b_dims, a, n, j),
        side_dims(b_dims, n),
        side_data(b_dims, a_dims, b, n, j),
    );
    let pre = bc_chunks(a_dims, a, b_dims, b, j);
    let whole = bc_pairs(a_dims, a, b_dims, b);
    lemma_peel(a_dims, b_dims);
    lemma_bc_dims_comm(a_dims, b_dims);
    lemma_side_data_len(a_dims, b_dims, a, j);
    lemma_side_data_len(b_dims, a_dims, b, j);
    lemma_bc_pairs_len(
        side_dims(a_dims, n),
        side_data(a_dims, b_dims, a, n, j),
        side_dims(b_dims, n),
        side_data(b_dims, a_dims, b, n, j),
    );
    lemma_bc_chunks_len(a_dims, a, b_dims, b, j);
    lemma_bc_chunks_len(a_dims, a, b_dims, b, j + 1);
    lemma_bc_chunks_len(a_dims, a, b_dims, b, d);
    vstd::arithmetic::mul::lemma_mul_is_distributive_add_other_way(inner.len() as int, j, 1);
    vstd::arithmetic::mul::lemma_mul_inequality(j + 1, d, inner.len() as int);
    vstd::arithmetic::mul::lemma_mul_is_commutative(j + 1, inner.len() as int);
    vstd::arithmetic::mul::lemma_mul_is_commutative(d, inner.len() as int);
    lemma_bc_chunks_prefix(a_dims, a, b_dims, b, j + 1, d);
    assert forall|i: int| 0 <= i < pre.len() implies whole[i] == pre[i] by {
        assert(bc_chunks(a_dims, a, b_dims, b, j + 1)[i] == pre[i]);
    }
}

/// The first `j1` steps are a prefix of the first `j2`.
proof fn lemma_bc_chunks_prefix<A, B>(
    a_dims: Seq<usize>,
    a: Seq<A>,
    b_dims: Seq<usize>,
    b: Seq<B>,
    j1: int,
    j2: int,
)
    requires
        0 <= j1 <= j2,
    ensures
        bc_chunks(a_dims, a, b_dims, b, j1).len() <= bc_chunks(a_dims, a, b_dims, b, j2).len(),
        forall|i: int|
            0 <= i < bc_chunks(a_dims, a, b_dims, b, j1).len() ==> bc_chunks(
                a_dims,
                a,
                b_dims,
                b,
                j2,
            )[i] == bc_chunks(a_dims, a, b_dims, b, j1)[i],
    decreases j2 - j1,
{
    if j1 < j2 {
        lemma_bc_chunks_prefix(a_dims, a, b_dims, b, j1, j2 - 1);
    }
}

/// Walks the outermost output axis: `d` steps, each recursing one level
/// inward over the `j`-th chunk of an operand that has the axis (step
/// `astep`/`bstep` elements) or over the whole operand where it is
/// stretched or padded (step 0).
#[verifier::loop_isolation(false)]
#[verifier::rlimit(60)]
fn bc_outer<T: ArrType, R: ArrType, F: Fn(T, T) -> R>(
    a: &[T],
    b: &[T],
    rest: &[BroadcastInstruction],
    out: &mut Vec<R>,
    f: &F,
    d: usize,
    astep: usize,
    bstep: usize,
    Ghost(a_dims): Ghost<Seq<usize>>,
    Ghost(b_dims): Ghost<Seq<usize>>,
)
    requires
        dims_valid(a_dims),
        dims_valid(b_dims),
        bc_compat(a_dims, b_dims),
        a@.len() == seq_prod(a_dims),
        b@.len() == seq_prod(b_dims),
        imax(a_dims.len() as int, b_dims.len() as int) >= 2,
        rest@.len() == imax(a_dims.len() as int, b_dims.len() as int) - 1,
        forall|kk: int|
            0 <= kk < rest@.len() ==> instr_ok(
                side_dims(a_dims, imax(a_dims.len() as int, b_dims.len() as int)),
                side_dims(b_dims, imax(a_dims.len() as int, b_dims.len() as int)),
                kk,
                #[trigger] rest@[kk],
            ),
        d == bc_dim(a_dims, b_dims, imax(a_dims.len() as int, b_dims.len() as int) - 1),
        if side_whole(a_dims, b_dims, imax(a_dims.len() as int, b_dims.len() as int)) {
            astep == 0
        } else {
            astep == seq_prod(a_dims.drop_last())
        },
        if side_whole(b_dims, a_dims, imax(a_dims.len() as int, b_dims.len() as int)) {
            bstep == 0
        } else {
            bstep == seq_prod(b_dims.drop_last())
        },
        forall|i: int|
            #![trigger bc_pairs(a_dims, a@, b_dims, b@)[i]]
            0 <= i < bc_pairs(a_dims, a@, b_dims, b@).len() ==> f.requires(
                (bc_pairs(a_dims, a@, b_dims, b@)[i].0, bc_pairs(a_dims, a@, b_dims, b@)[i].1),
            ),
    ensures
        final(out)@.len() == old(out)@.len() + bc_pairs(a_dims, a@, b_dims, b@).len(),
        forall|i: int| 0 <= i < old(out)@.len() ==> final(out)@[i] == old(out)@[i],
        forall|i: int|
            #![trigger bc_pairs(a_dims, a@, b_dims, b@)[i]]
            0 <= i < bc_pairs(a_dims, a@, b_dims, b@).len() ==> f.ensures(
                (bc_pairs(a_dims, a@, b_dims, b@)[i].0, bc_pairs(a_dims, a@, b_dims, b@)[i].1),
                final(out)@[old(out)@.len() + i],
            ),
    decreases rest@.len() + 1, 0int,
{
    let ghost pairs = bc_pairs(a_dims, a@, b_dims, b@);
    let ghost orig = out@;
    // bind the slice lengths so their machine-word bounds are in scope
    let a_len = a.len();
    let b_len = b.len();
    proof {
        assert(a_len == a@.len() && b_len == b@.len());
    }
    let ghost n = imax(a_dims.len() as int, b_dims.len() as int);
    let ghost sa_dims = side_dims(a_dims, n);
    let ghost sb_dims = side_dims(b_dims, n);
    proof {
        lemma_peel(a_dims, b_dims);
        lemma_bc_dims_comm(a_dims, b_dims);
        if !side_whole(a_dims, b_dims, n) {
            lemma_chunked_owns_axis(a_dims, b_dims);
            crate::shape::lemma_seq_prod_pos(a_dims.drop_last());
            assert(seq_prod(a_dims) == seq_prod(a_dims.drop_last()) * a_dims.last());
        }
        if !side_whole(b_dims, a_dims, n) {
            lemma_chunked_owns_axis(b_dims, a_dims);
            crate::shape::lemma_seq_prod_pos(b_dims.drop_last());
            assert(seq_prod(b_dims) == seq_prod(b_dims.drop_last()) * b_dims.last());
            assert(bc_dims(b_dims, a_dims)[n - 1] == bc_dims(a_dims, b_dims)[n - 1]);
        }
    }
    let mut j: usize = 0;
    while j < d
        invariant
            0 <= j <= d,
            out@.len() == orig.len() + bc_chunks(a_dims, a@, b_dims, b@, j as int).len(),
            forall|t: int| 0 <= t < orig.len() ==> out@[t] == orig[t],
            forall|t: int|
                0 <= t < bc_chunks(a_dims, a@, b_dims, b@, j as int).len() ==> f.ensures(
                    (pairs[t].0, pairs[t].1),
                    #[trigger] out@[orig.len() + t],
                ),
        decreases d - j,
    {
        let ghost pre_len = bc_chunks(a_dims, a@, b_dims, b@, j as int).len() as int;
        proof {
            lemma_chunks_step(a_dims, a@, b_dims, b@, j as int);
            lemma_side_data_len(a_dims, b_dims, a@, j as int);
            lemma_side_data_len(b_dims, a_dims, b@, j as int);
            if astep > 0 {
                vstd::arithmetic::mul::lemma_mul_inequality(j + 1, d as int, astep as int);
                vstd::arithmetic::mul::lemma_mul_is_commutative(j + 1, astep as int);
                vstd::arithmetic::mul::lemma_mul_is_commutative(d as int, astep as int);
                vstd::arithmetic::mul::lemma_mul_is_distributive_add_other_way(
                    astep as int,
                    j as int,
                    1,
                );
                vstd::arithmetic::mul::lemma_mul_nonnegative(j as int, astep as int);
                assert(astep == seq_prod(a_dims.drop_last()));
                assert(d == a_dims[n - 1]);
                assert(d * astep == a@.len());
                assert((j + 1) * astep <= a@.len());
                assert(j * astep <= (j + 1) * astep);
            }
            if bstep > 0 {
                vstd::arithmetic::mul::lemma_mul_inequality(j + 1, d as int, bstep as int);
                vstd::arithmetic::mul::lemma_mul_is_commutative(j + 1, bstep as int);
                vstd::arithmetic::mul::lemma_mul_is_commutative(d as int, bstep as int);
                vstd::arithmetic::mul::lemma_mul_is_distributive_add_other_way(
                    bstep as int,
                    j as int,
                    1,
                );
                vstd::arithmetic::mul::lemma_mul_nonnegative(j as int, bstep as int);
                assert(bstep == seq_prod(b_dims.drop_last()));
                assert(d == b_dims[n - 1]);
                assert(d * bstep == b@.len());
                assert((j + 1) * bstep <= b@.len());
                assert(j * bstep <= (j + 1) * bstep);
            }
        }
        let a2: &[T] = if astep == 0 {
            a
        } else {
            vstd::slice::slice_subrange(a, j * astep, (j + 1) * astep)
        };
        let b2: &[T] = if bstep == 0 {
            b
        } else {
            vstd::slice::slice_subrange(b, j * bstep, (j + 1) * bstep)
        };
        proof {
            assert(a2@ == side_data(a_dims, b_dims, a@, n, j as int));
            assert(b2@ == side_data(b_dims, a_dims, b@, n, j as int));
            assert forall|t: int|
                #![trigger bc_pairs(sa_dims, a2@, sb_dims, b2@)[t]]
                0 <= t < bc_pairs(sa_dims, a2@, sb_dims, b2@).len() implies f.requires(
                (bc_pairs(sa_dims, a2@, sb_dims, b2@)[t].0, bc_pairs(sa_dims, a2@, sb_dims, b2@)[t].1),
            ) by {
                assert(bc_pairs(sa_dims, a2@, sb_dims, b2@)[t] == pairs[pre_len + t]);
            }
        }
        bc_recurse(a2, b2, rest, out, f, Ghost(sa_dims), Ghost(sb_dims));
        proof {
            assert forall|t: int|
                0 <= t < bc_chunks(a_dims, a@, b_dims, b@, j + 1).len() implies f.ensures(
                (pairs[t].0, pairs[t].1),
                #[trigger] out@[orig.len() + t],
            ) by {
                if t >= pre_len {
                    assert(bc_pairs(sa_dims, a2@, sb_dims, b2@)[t - pre_len] == pairs[t]);
                }
            }
        }
        j += 1;
    }
    proof {
        assert(bc_chunks(a_dims, a@, b_dims, b@, d as int) == pairs);
    }
}

/// Interprets the instruction list over two flat operand slices, consuming
/// the last (outermost) instruction first, and appends one combined value
/// per output element, in row-major output order. The ghost dimension lists
/// say which shapes the two slices carry.
#[verifier::loop_isolation(false)]
#[verifier::rlimit(60)]
fn bc_recurse<T: ArrType, R: ArrType, F: Fn(T, T) -> R>(
    a: &[T],
    b: &[T],
    instrs: &[BroadcastInstruction],
    out: &mut Vec<R>,
    f: &F,
    Ghost(a_dims): Ghost<Seq<usize>>,
    Ghost(b_dims): Ghost<Seq<usize>>,
)
    requires
        dims_valid(a_dims),
        dims_valid(b_dims),
        bc_compat(a_dims, b_dims),
        a@.len() == seq_prod(a_dims),
        b@.len() == seq_prod(b_dims),
        instrs@.len() == imax(a_dims.len() as int, b_dims.len() as int),
        forall|k: int|
            0 <= k < instrs@.len() ==> instr_ok(a_dims, b_dims, k, #[trigger] instrs@[k]),
        forall|i: int|
            #![trigger bc_pairs(a_dims, a@, b_dims, b@)[i]]
            0 <= i < bc_pairs(a_dims, a@, b_dims, b@).len() ==> f.requires(
                (bc_pairs(a_dims, a@, b_dims, b@)[i].0, bc_pairs(a_dims, a@, b_dims, b@)[i].1),
            ),
    ensures
        final(out)@.len() == old(out)@.len() + bc_pairs(a_dims, a@, b_dims, b@).len(),
        forall|i: int| 0 <= i < old(out)@.len() ==> final(out)@[i] == old(out)@[i],
        forall|i: int|
            #![trigger bc_pairs(a_dims, a@, b_dims, b@)[i]]
            0 <= i < bc_pairs(a_dims, a@, b_dims, b@).len() ==> f.ensures(
                (bc_pairs(a_dims, a@, b_dims, b@)[i].0, bc_pairs(a_dims, a@, b_dims, b@)[i].1),
                final(out)@[old(out)@.len() + i],
            ),
    decreases instrs@.len(), 1int,
{
    let ghost pairs = bc_pairs(a_dims, a@, b_dims, b@);
    let ghost orig = out@;
    let ghost n = imax(a_dims.len() as int, b_dims.len() as int);
    let ghost k = n - 1;
    let ilen = instrs.len();
    let instr = instrs[ilen - 1];
    let rest = vstd::slice::slice_subrange(instrs, 0, ilen - 1);
    proof {
        assert(instr_ok(a_dims, b_dims, k, instr));
        assert(rest@ =~= instrs@.take(n - 1));
        if n >= 2 {
            lemma_peel(a_dims, b_dims);
            lemma_plan_peel(a_dims, b_dims, instrs@);
        }
    }
    match instr {
        BroadcastInstruction::PushLinear => {
            proof {
                lemma_seq_prod_single(a_dims);
                lemma_seq_prod_single(b_dims);
            }
            let d = a.len();
            let mut i: usize = 0;
            while i < d
                invariant
                    0 <= i <= d,
                    out@.len() == orig.len() + i,
                    forall|t: int| 0 <= t < orig.len() ==> out@[t] == orig[t],
                    forall|t: int|
                        0 <= t < i ==> f.ensures(
                            (pairs[t].0, pairs[t].1),
                            #[trigger] out@[orig.len() + t],
                        ),
                decreases d - i,
            {
                proof {
                    assert(pairs[i as int] == (a@[i as int], b@[i as int]));
                }
                let v = f(a[i], b[i]);
                out.push(v);
                i += 1;
            }
        },
        BroadcastInstruction::PushStretchA => {
            proof {
                lemma_seq_prod_single(a_dims);
                lemma_seq_prod_single(b_dims);
            }
            let x = a[0];
            let d = b.len();
            let mut i: usize = 0;
            while i < d
                invariant
                    0 <= i <= d,
                    out@.len() == orig.len() + i,
                    forall|t: int| 0 <= t < orig.len() ==> out@[t] == orig[t],
                    forall|t: int|
                        0 <= t < i ==> f.ensures(
                            (pairs[t].0, pairs[t].1),
                            #[trigger] out@[orig.len() + t],
                        ),
                decreases d - i,
            {
                proof {
                    assert(pairs[i as int] == (a@[0], b@[i as int]));
                }
                let v = f(x, b[i]);
                out.push(v);
                i += 1;
            }
        },
        BroadcastInstruction::PushStretchB => {
            proof {
                lemma_seq_prod_single(a_dims);
                lemma_seq_prod_single(b_dims);
            }
            let y = b[0];
            let d = a.len();
            let mut i: usize = 0;
            while i < d
                invariant
                    0 <= i <= d,
                    out@.len() == orig.len() + i,
                    forall|t: int| 0 <= t < orig.len() ==> out@[t] == orig[t],
                    forall|t: int|
                        0 <= t < i ==> f.ensures(
                            (pairs[t].0, pairs[t].1),
                            #[trigger] out@[orig.len() + t],
                        ),
                decreases d - i,
            {
                proof {
                    assert(pairs[i as int] == (a@[i as int], b@[0]));
                }
                let v = f(a[i], y);
                out.push(v);
                i += 1;
            }
        },
        BroadcastInstruction::RecurseLinear { stride_a, stride_b } => {
            proof {
                assert(a_dims.take(imin(k, a_dims.len() as int)) =~= a_dims.drop_last());
                assert(b_dims.take(imin(k, b_dims.len() as int)) =~= b_dims.drop_last());
                crate::shape::lemma_seq_prod_pos(a_dims.drop_last());
                assert(seq_prod(a_dims) == seq_prod(a_dims.drop_last()) * a_dims.last());
                lemma_chunked_owns_axis(a_dims, b_dims);
                vstd::arithmetic::div_mod::lemma_div_multiples_vanish(
                    a_dims[k] as int,
                    stride_a as int,
                );
                vstd::arithmetic::mul::lemma_mul_is_commutative(a_dims[k] as int, stride_a as int);
            }
            let d = a.len() / stride_a;
            bc_outer(a, b, rest, out, f, d, stride_a, stride_b, Ghost(a_dims), Ghost(b_dims));
        },
        BroadcastInstruction::RecurseStretchB { stride_a } => {
            proof {
                assert(a_dims.take(imin(k, a_dims.len() as int)) =~= a_dims.drop_last());
                crate::shape::lemma_seq_prod_pos(a_dims.drop_last());
                assert(seq_prod(a_dims) == seq_prod(a_dims.drop_last()) * a_dims.last());
                lemma_chunked_owns_axis(a_dims, b_dims);
                vstd::arithmetic::div_mod::lemma_div_multiples_vanish(
                    a_dims[k] as int,
                    stride_a as int,
                );
                vstd::arithmetic::mul::lemma_mul_is_commutative(a_dims[k] as int, stride_a as int);
            }
            let d = a.len() / stride_a;
            bc_outer(a, b, rest, out, f, d, stride_a, 0, Ghost(a_dims), Ghost(b_dims));
        },
        BroadcastInstruction::RecursePadB { stride_a } => {
            proof {
                assert(a_dims.take(imin(k, a_dims.len() as int)) =~= a_dims.drop_last());
                crate::shape::lemma_seq_prod_pos(a_dims.drop_last());
                assert(seq_prod(a_dims) == seq_prod(a_dims.drop_last()) * a_dims.last());
                lemma_chunked_owns_axis(a_dims, b_dims);
                vstd::arithmetic::div_mod::lemma_div_multiples_vanish(
                    a_dims[k] as int,
                    stride_a as int,
                );
                vstd::arithmetic::mul::lemma_mul_is_commutative(a_dims[k] as int, stride_a as int);
            }
            let d = a.len() / stride_a;
            bc_outer(a, b, rest, out, f, d, stride_a, 0, Ghost(a_dims), Ghost(b_dims));
        },
        BroadcastInstruction::RecurseStretchA { stride_b } => {
            proof {
                assert(b_dims.take(imin(k, b_dims.len() as int)) =~= b_dims.drop_last());
                crate::shape::lemma_seq_prod_pos(b_dims.drop_last());
                assert(seq_prod(b_dims) == seq_prod(b_dims.drop_last()) * b_dims.last());
                lemma_bc_dims_comm(a_dims, b_dims);
                lemma_chunked_owns_axis(b_dims, a_dims);
                assert(bc_dims(b_dims, a_dims)[k] == bc_dims(a_dims, b_dims)[k]);
                vstd::arithmetic::div_mod::lemma_div_multiples_vanish(
                    b_dims[k] as int,
                    stride_b as int,
                );
                vstd::arithmetic::mul::lemma_mul_is_commutative(b_dims[k] as int, stride_b as int);
            }
            let d = b.len() / stride_b;
            bc_outer(a, b, rest, out, f, d, 0, stride_b, Ghost(a_dims), Ghost(b_dims));
        },
        BroadcastInstruction::RecursePadA { stride_b } => {
            proof {
                assert(b_dims.take(imin(k, b_dims.len() as int)) =~= b_dims.drop_last());
                crate::shape::lemma_seq_prod_pos(b_dims.drop_last());
                assert(seq_prod(b_dims) == seq_prod(b_dims.drop_last()) * b_dims.last());
                lemma_bc_dims_comm(a_dims, b_dims);
                lemma_chunked_owns_axis(b_dims, a_dims);
                assert(bc_dims(b_dims, a_dims)[k] == bc_dims(a_dims, b_dims)[k]);
                vstd::arithmetic::div_mod::lemma_div_multiples_vanish(
                    b_dims[k] as int,
                    stride_b as int,
                );
                vstd::arithmetic::mul::lemma_mul_is_commutative(b_dims[k] as int, stride_b as int);
            }
            let d = b.len() / stride_b;
            bc_outer(a, b, rest, out, f, d, 0, stride_b, Ghost(a_dims), Ghost(b_dims));
        },
    }
}

/// Broadcasting a shape with itself is the identity: the shapes are
/// compatible, the output shape is the same shape, and every instruction of
/// the plan is the lockstep one — `PushLinear` at the innermost axis,
/// `RecurseLinear` with equal strides everywhere else. No axis is stretched
/// or padded.
pub proof fn lemma_broadcast_identity(dims: Seq<usize>)
    requires
        dims_valid(dims),
    ensures
        bc_compat(dims, dims),
        bc_dims(dims, dims) == dims,
        forall|ins: BroadcastInstruction|
            instr_ok(dims, dims, 0, ins) ==> ins == BroadcastInstruction::PushLinear,
        forall|k: int, ins: BroadcastInstruction|
            0 < k < dims.len() && instr_ok(dims, dims, k, ins) ==> (ins
                matches BroadcastInstruction::RecurseLinear { stride_a, stride_b } && stride_a
                == stride_b),
{
    assert(bc_dims(dims, dims) =~= dims);
}

/// Combining an array with one of its own shape applies the combinator
/// elementwise, with no stretching: the operand pairs are exactly the two
/// element sequences zipped position by position.
pub proof fn lemma_broadcast_identity_pairs<A, B>(dims: Seq<usize>, a: Seq<A>, b: Seq<B>)
    requires
        dims_valid(dims),
        a.len() == seq_prod(dims),
        b.len() == seq_prod(dims),
    ensures
        bc_pairs(dims, a, dims, b) == Seq::new(a.len(), |i: int| (a[i], b[i])),
    decreases dims.len(), 1int, 0int,
{
    let n = dims.len() as int;
    if n <= 1 {
        lemma_seq_prod_single(dims);
        assert(bc_pairs(dims, a, dims, b) =~= Seq::new(a.len(), |i: int| (a[i], b[i])));
    } else {
        lemma_broadcast_identity(dims);
        lemma_identity_chunks(dims, a, b, dims[n - 1] as int);
        assert(seq_prod(dims) == seq_prod(dims.drop_last()) * dims.last());
        vstd::arithmetic::mul::lemma_mul_is_commutative(
            dims[n - 1] as int,
            seq_prod(dims.drop_last()),
        );
        assert(bc_pairs(dims, a, dims, b) =~= Seq::new(a.len(), |i: int| (a[i], b[i])));
    }
}

/// The first `j` outermost-axis steps of a self-broadcast zip the first
/// `j` chunks of the two element sequences position by position.
proof fn lemma_identity_chunks<A, B>(dims: Seq<usize>, a: Seq<A>, b: Seq<B>, j: int)
    requires
        dims_valid(dims),
        dims.len() >= 2,
        a.len() == seq_prod(dims),
        b.len() == seq_prod(dims),
        0 <= j <= dims[dims.len() - 1],
    ensures
        bc_chunks(dims, a, dims, b, j) == Seq::new(
            (j * seq_prod(dims.drop_last())) as nat,
            |i: int| (a[i], b[i]),
        ),
    decreases dims.len(), 0int, j,
{
    let n = dims.len() as int;
    let sz = seq_prod(dims.drop_last());
    lemma_broadcast_identity(dims);
    crate::shape::lemma_seq_prod_pos(dims.drop_last());
    assert(seq_prod(dims) == sz * dims.last());
    vstd::arithmetic::mul::lemma_mul_nonnegative(j, sz);
    if j > 0 {
        lemma_identity_chunks(dims, a, b, j - 1);
        assert(!side_whole(dims, dims, n));
        vstd::arithmetic::mul::lemma_mul_inequality(j, dims[n - 1] as int, sz);
        vstd::arithmetic::mul::lemma_mul_is_commutative(j, sz);
        vstd::arithmetic::mul::lemma_mul_is_commutative(dims[n - 1] as int, sz);
        vstd::arithmetic::mul::lemma_mul_is_distributive_add_other_way(sz, j - 1, 1);
        assert(dims.drop_last().len() == n - 1);
        if n - 1 <= 1 {
            assert(dims.drop_last() =~= dims.drop_last());
        }
        lemma_broadcast_identity_pairs(
            dims.drop_last(),
            chunk_of(a, sz, j - 1),
            chunk_of(b, sz, j - 1),
        );
        assert(bc_chunks(dims, a, dims, b, j) =~= Seq::new(
            (j * sz) as nat,
            |i: int| (a[i], b[i]),
        ));
    } else {
        assert(bc_chunks(dims, a, dims, b, 0) =~= Seq::new(
            (0 * sz) as nat,
            |i: int| (a[i], b[i]),
        ));
    }
}

impl<'base, T: ArrType> crate::view::Array<'base, T> {
    /// Combines two views of possibly different rank and shape into a fresh
    /// owning array by the broadcasting rule. The combinator is applied
    /// exactly once per output element, left operand first, in row-major
    /// output order; which operand elements pair off at each position is
    /// `bc_pairs` of the two views. Incompatible shapes are reported with
    /// both dimension lists.
    pub fn broadcast_combine<R: ArrType, F: Fn(T, T) -> R>(
        &self,
        other: &crate::view::Array<'_, T>,
        combinator: F,
    ) -> (r: crate::error::ArrResult<crate::base::ArrayBase<R>>)
        requires
            self.wf(),
            other.wf(),
            bc_compat(self.dims_seq(), other.dims_seq()) ==> seq_prod(
                bc_dims(self.dims_seq(), other.dims_seq()),
            ) <= usize::MAX,
            forall|i: int|
                #![trigger bc_pairs(self.dims_seq(), self.data_seq(), other.dims_seq(), other.data_seq())[i]]
                0 <= i < bc_pairs(
                    self.dims_seq(),
                    self.data_seq(),
                    other.dims_seq(),
                    other.data_seq(),
                ).len() ==> combinator.requires(
                    (
                        bc_pairs(
                            self.dims_seq(),
                            self.data_seq(),
                            other.dims_seq(),
                            other.data_seq(),
                        )[i].0,
                        bc_pairs(
                            self.dims_seq(),
                            self.data_seq(),
                            other.dims_seq(),
                            other.data_seq(),
                        )[i].1,
                    ),
                ),
        ensures
            match r {
                Ok(res) => {
                    &&& bc_compat(self.dims_seq(), other.dims_seq())
                    &&& res.wf()
                    &&& res.dims_seq() == bc_dims(self.dims_seq(), other.dims_seq())
                    &&& res.data_seq().len() == seq_prod(bc_dims(self.dims_seq(), other.dims_seq()))
                    &&& forall|i: int|
                        #![trigger res.data_seq()[i]]
                        0 <= i < res.data_seq().len() ==> combinator.ensures(
                            (
                                bc_pairs(
                                    self.dims_seq(),
                                    self.data_seq(),
                                    other.dims_seq(),
                                    other.data_seq(),
                                )[i].0,
                                bc_pairs(
                                    self.dims_seq(),
                                    self.data_seq(),
                                    other.dims_seq(),
                                    other.data_seq(),
                                )[i].1,
                            ),
                            res.data_seq()[i],
                        )
                },
                Err(e) => {
                    &&& !bc_compat(self.dims_seq(), other.dims_seq())
                    &&& e matches crate::error::Error::Broadcast { dims1, dims2 }
                    &&& dims1@ == self.dims_seq()
                    &&& dims2@ == other.dims_seq()
                },
            },
    {
        proof {
            self.lemma_parts();
            other.lemma_parts();
            self.shape.lemma_wf_implications();
            other.shape.lemma_wf_implications();
        }
        match self.shape.broadcast(&other.shape) {
            Err(e) => Err(e),
            Ok((shape_base, instrs)) => {
                proof {
                    shape_base.lemma_wf();
                }
                let mut data: Vec<R> = Vec::with_capacity(shape_base.total_volume());
                bc_recurse(
                    self.data,
                    other.data,
                    instrs.as_slice(),
                    &mut data,
                    &combinator,
                    Ghost(self.dims_seq()),
                    Ghost(other.dims_seq()),
                );
                proof {
                    lemma_bc_pairs_len(
                        self.dims_seq(),
                        self.data_seq(),
                        other.dims_seq(),
                        other.data_seq(),
                    );
                }
                Ok(crate::base::ArrayBase::from_shape(shape_base, data))
            },
        }
    }
}

} // verus!
