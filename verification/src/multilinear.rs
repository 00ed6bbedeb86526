use vstd::prelude::*;
use vstd::arithmetic::power2::{lemma_pow2_unfold, pow2};
use crate::field::Field;

verus! {

/// Every element of `s` multiplied by `c`.
pub open spec fn scale<F: Field>(s: Seq<F>, c: F) -> Seq<F> {
    Seq::new(s.len(), |i: int| s[i].mul_spec(c))
}

/// The tensor expansion of a point `r_0, .., r_{n-1}`: the `2^n` values of
/// the equality indicator. The entry at index `i` is the product over the
/// variables `j` of `r_j` where bit `j` of `i` is set and of `1 - r_j`
/// where it is not; the last variable is the highest bit.
pub open spec fn tensor_expansion<F: Field>(point: Seq<F>) -> Seq<F>
    decreases point.len(),
{
    if point.len() == 0 {
        seq![F::one()]
    } else {
        let lower = tensor_expansion(point.drop_last());
        let r = point.last();
        scale(lower, F::one().sub_spec(r)) + scale(lower, r)
    }
}

/// The sum of `a[i] * b[i]` over the first `n` indices.
pub open spec fn inner_product<F: Field>(a: Seq<F>, b: Seq<F>, n: nat) -> F
    decreases n,
{
    if n == 0 {
        F::zero()
    } else {
        inner_product(a, b, (n - 1) as nat).add_spec(a[n - 1].mul_spec(b[n - 1]))
    }
}

/// The value at `point` of the multilinear polynomial whose evaluations on
/// the hypercube are `column`.
pub open spec fn evaluate_spec<F: Field>(column: Seq<F>, point: Seq<F>) -> F {
    inner_product(column, tensor_expansion(point), column.len())
}

/// The sum of `column[i + j * stride] * query[j]` over the first `n` values
/// of `j`.
pub open spec fn strided_product<F: Field>(
    column: Seq<F>,
    query: Seq<F>,
    i: int,
    stride: int,
    n: nat,
) -> F
    decreases n,
{
    if n == 0 {
        F::zero()
    } else {
        strided_product(column, query, i, stride, (n - 1) as nat).add_spec(
            column[i + (n - 1) * stride].mul_spec(query[n - 1]),
        )
    }
}

/// The evaluations of `column` with its highest variables fixed to the
/// point whose tensor expansion is `query`: a table of `len` values.
pub open spec fn partial_high_spec<F: Field>(column: Seq<F>, query: Seq<F>, len: nat) -> Seq<F> {
    Seq::new(len, |i: int| strided_product(column, query, i, len as int, query.len()))
}

/// The tensor expansion of a point of `n` coordinates has `2^n` entries.
pub proof fn lemma_tensor_expansion_len<F: Field>(point: Seq<F>)
    ensures
        tensor_expansion(point).len() == pow2(point.len()),
    decreases point.len(),
{
    if point.len() == 0 {
        vstd::arithmetic::power2::lemma2_to64();
    } else {
        lemma_tensor_expansion_len(point.drop_last());
        lemma_pow2_unfold(point.len());
    }
}

/// Computes the tensor expansion of a point.
pub fn tensor_expand<F: Field>(point: &Vec<F>) -> (r: Vec<F>)
    ensures
        r@ == tensor_expansion(point@),
{
    let mut cur: Vec<F> = Vec::new();
    cur.push(F::one_value());
    assert(point@.take(0).len() == 0);
    assert(cur@ =~= tensor_expansion(point@.take(0)));
    let mut k: usize = 0;
    while k < point.len()
        invariant
            k <= point@.len(),
            cur@ == tensor_expansion(point@.take(k as int)),
        decreases point@.len() - k,
    {
        let r = point[k];
        let one_minus_r = F::one_value().sub(r);
        let mut next: Vec<F> = Vec::new();
        let mut i: usize = 0;
        while i < cur.len()
            invariant
                i <= cur@.len(),
                next@ == scale(cur@, one_minus_r).take(i as int),
            decreases cur@.len() - i,
        {
            next.push(cur[i].mul(one_minus_r));
            assert(next@ =~= scale(cur@, one_minus_r).take(i + 1));
            i += 1;
        }
        assert(next@ =~= scale(cur@, one_minus_r));
        let mut j: usize = 0;
        while j < cur.len()
            invariant
                j <= cur@.len(),
                next@ == scale(cur@, one_minus_r) + scale(cur@, r).take(j as int),
            decreases cur@.len() - j,
        {
            next.push(cur[j].mul(r));
            assert(next@ =~= scale(cur@, one_minus_r) + scale(cur@, r).take(j + 1));
            j += 1;
        }
        proof {
            let p = point@.take(k + 1);
            assert(p.drop_last() =~= point@.take(k as int));
            assert(p.last() == r);
            assert(next@ =~= scale(cur@, one_minus_r) + scale(cur@, r));
        }
        cur = next;
        k += 1;
    }
    assert(point@.take(point@.len() as int) =~= point@);
    cur
}

/// Evaluates the multilinear polynomial with hypercube evaluations `column`
/// against the tensor expansion `query` of a point.
pub fn evaluate<F: Field>(column: &Vec<F>, query: &Vec<F>) -> (r: F)
    requires
        column@.len() == query@.len(),
    ensures
        r == inner_product(column@, query@, column@.len()),
{
    let mut acc = F::zero_value();
    let mut i: usize = 0;
    while i < column.len()
        invariant
            i <= column@.len(),
            column@.len() == query@.len(),
            acc == inner_product(column@, query@, i as nat),
        decreases column@.len() - i,
    {
        acc = acc.add(column[i].mul(query[i]));
        i += 1;
    }
    acc
}

/// Fixes the highest variables of `column` to the point whose tensor
/// expansion is `query`, leaving a table of `len` values.
pub fn evaluate_partial_high<F: Field>(column: &Vec<F>, query: &Vec<F>, len: usize) -> (r: Vec<F>)
    requires
        column@.len() == len * query@.len(),
    ensures
        r@ == partial_high_spec(column@, query@, len as nat),
{
    let mut out: Vec<F> = Vec::new();
    let total = column.len();
    let mut i: usize = 0;
    while i < len
        invariant
            i <= len,
            total == column@.len(),
            column@.len() == len * query@.len(),
            out@ == partial_high_spec(column@, query@, len as nat).take(i as int),
        decreases len - i,
    {
        let mut acc = F::zero_value();
        let mut j: usize = 0;
        while j < query.len()
            invariant
                i < len,
                j <= query@.len(),
                total == column@.len(),
                column@.len() == len * query@.len(),
                acc == strided_product(column@, query@, i as int, len as int, j as nat),
            decreases query@.len() - j,
        {
            assert(i + j * len < len * query@.len() && j * len <= len * query@.len()) by (nonlinear_arith)
                requires
                    i < len,
                    j < query@.len(),
            ;
            acc = acc.add(column[i + j * len].mul(query[j]));
            j += 1;
        }
        out.push(acc);
        assert(out@ =~= partial_high_spec(column@, query@, len as nat).take(i + 1));
        i += 1;
    }
    assert(out@ =~= partial_high_spec(column@, query@, len as nat));
    out
}

} // verus!
