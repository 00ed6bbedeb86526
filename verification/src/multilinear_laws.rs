use vstd::prelude::*;
use vstd::arithmetic::power2::{lemma_pow2_adds, lemma_pow2_pos, lemma_pow2_unfold, pow2};
use crate::field::Field;
use crate::multilinear::{
    evaluate_spec, inner_product, lemma_tensor_expansion_len, partial_high_spec, scale,
    strided_product, tensor_expansion,
};

verus! {

/// Multiplication distributes over addition from the right.
pub proof fn lemma_right_distributive<F: Field>(x: F, y: F, c: F)
    ensures
        x.add_spec(y).mul_spec(c) == x.mul_spec(c).add_spec(y.mul_spec(c)),
{
    F::lemma_mul_laws(x.add_spec(y), c, c);
    F::lemma_mul_laws(c, x, y);
    F::lemma_mul_laws(c, x, x);
    F::lemma_mul_laws(c, y, y);
}

/// In a product of three the last two factors may change places.
pub proof fn lemma_mul_swap<F: Field>(a: F, t: F, c: F)
    ensures
        a.mul_spec(t).mul_spec(c) == a.mul_spec(c).mul_spec(t),
{
    F::lemma_mul_laws(a, t, c);
    F::lemma_mul_laws(t, c, c);
    F::lemma_mul_laws(a, c, t);
}

/// Two sums of two are added term by term.
pub proof fn lemma_add_interchange<F: Field>(a: F, b: F, c: F, d: F)
    ensures
        a.add_spec(b).add_spec(c.add_spec(d)) == a.add_spec(c).add_spec(b.add_spec(d)),
{
    F::lemma_add_laws(a, b, c.add_spec(d));
    F::lemma_add_laws(b, c, d);
    F::lemma_add_laws(b, c, c);
    F::lemma_add_laws(c, b, d);
    F::lemma_add_laws(a, c, b.add_spec(d));
}

/// Zero added from the left changes nothing.
pub proof fn lemma_zero_add<F: Field>(x: F)
    ensures
        F::zero().add_spec(x) == x,
{
    F::lemma_add_laws(F::zero(), x, x);
    F::lemma_add_laws(x, x, x);
}

/// The strided product with a scaled query is the scaled strided product.
pub proof fn lemma_strided_scaled<F: Field>(
    column: Seq<F>,
    query: Seq<F>,
    c: F,
    i: int,
    stride: int,
    n: nat,
)
    requires
        n <= query.len(),
    ensures
        strided_product(column, scale(query, c), i, stride, n) == strided_product(
            column,
            query,
            i,
            stride,
            n,
        ).mul_spec(c),
    decreases n,
{
    if n == 0 {
        F::lemma_mul_laws(F::zero(), c, c);
        F::lemma_mul_laws(c, c, c);
    } else {
        lemma_strided_scaled(column, query, c, i, stride, (n - 1) as nat);
        let before = strided_product(column, query, i, stride, (n - 1) as nat);
        let entry = column[i + (n - 1) * stride];
        F::lemma_mul_laws(entry, query[n - 1], c);
        lemma_right_distributive(before, entry.mul_spec(query[n - 1]), c);
    }
}

/// The strided product over the first part of a query that is made of two
/// parts depends on the first part only, and on the column up to where
/// the strides of the first part reach.
pub proof fn lemma_strided_prefix<F: Field>(
    column: Seq<F>,
    first: Seq<F>,
    second: Seq<F>,
    i: int,
    stride: int,
    n: nat,
)
    requires
        n <= first.len(),
        0 <= i < stride,
        first.len() * stride <= column.len(),
    ensures
        strided_product(column, first + second, i, stride, n) == strided_product(
            column.take(first.len() * stride),
            first,
            i,
            stride,
            n,
        ),
    decreases n,
{
    if n > 0 {
        lemma_strided_prefix(column, first, second, i, stride, (n - 1) as nat);
        assert(0 <= i + (n - 1) * stride < first.len() * stride) by (nonlinear_arith)
            requires
                0 < n <= first.len(),
                0 <= i < stride,
        ;
    }
}

/// The strided product over a query that is made of two parts is the
/// strided product over the first part plus that over the second, which
/// starts in the column where the strides of the first part end.
pub proof fn lemma_strided_continued<F: Field>(
    column: Seq<F>,
    first: Seq<F>,
    second: Seq<F>,
    i: int,
    stride: int,
    m: nat,
)
    requires
        m <= second.len(),
        0 <= i < stride,
        (first.len() + second.len()) * stride <= column.len(),
    ensures
        strided_product(column, first + second, i, stride, first.len() + m) == strided_product(
            column,
            first + second,
            i,
            stride,
            first.len(),
        ).add_spec(
            strided_product(column.skip(first.len() * stride), second, i, stride, m),
        ),
    decreases m,
{
    let head = strided_product(column, first + second, i, stride, first.len());
    if m == 0 {
        F::lemma_add_laws(head, head, head);
    } else {
        lemma_strided_continued(column, first, second, i, stride, (m - 1) as nat);
        let n1 = first.len() as int;
        let tail = strided_product(column.skip(n1 * stride), second, i, stride, (m - 1) as nat);
        assert((n1 + m - 1) * stride == n1 * stride + (m - 1) * stride) by (nonlinear_arith);
        assert(0 <= n1 * stride && 0 <= (m - 1) * stride && n1 * stride + (m - 1) * stride + i
            < column.len()) by (nonlinear_arith)
            requires
                0 < m <= second.len(),
                0 <= i < stride,
                n1 >= 0,
                (n1 + second.len()) * stride <= column.len(),
        ;
        let term = column[i + (n1 + m - 1) * stride].mul_spec((first + second)[n1 + m - 1]);
        assert(column.skip(n1 * stride)[i + (m - 1) * stride] == column[i + (n1 + m - 1)
            * stride]);
        assert((first + second)[n1 + m - 1] == second[m - 1]);
        F::lemma_add_laws(head, tail, term);
    }
}

/// The strided product of a column with the tensor expansion of a point
/// splits along the last coordinate `r` of the point: it is `1 - r` times
/// the strided product of the lower half of the column plus `r` times that
/// of the upper half, both with the expansion of the rest of the point.
pub proof fn lemma_strided_split<F: Field>(
    column: Seq<F>,
    lower: Seq<F>,
    r: F,
    i: int,
    stride: int,
)
    requires
        0 <= i < stride,
        column.len() == 2 * lower.len() * stride,
    ensures
        strided_product(
            column,
            scale(lower, F::one().sub_spec(r)) + scale(lower, r),
            i,
            stride,
            2 * lower.len(),
        ) == strided_product(
            column.take(lower.len() * stride),
            lower,
            i,
            stride,
            lower.len(),
        ).mul_spec(F::one().sub_spec(r)).add_spec(
            strided_product(column.skip(lower.len() * stride), lower, i, stride, lower.len()).mul_spec(
                r,
            ),
        ),
{
    let first = scale(lower, F::one().sub_spec(r));
    let second = scale(lower, r);
    let half = lower.len();
    assert((first.len() + second.len()) * stride == column.len()) by (nonlinear_arith)
        requires
            first.len() == half,
            second.len() == half,
            column.len() == 2 * half * stride,
    ;
    assert(first.len() * stride <= column.len()) by (nonlinear_arith)
        requires
            first.len() == half,
            column.len() == 2 * half * stride,
            stride > 0,
    ;
    lemma_strided_continued(column, first, second, i, stride, half);
    lemma_strided_prefix(column, first, second, i, stride, half);
    lemma_strided_scaled(column.take(half * stride), lower, F::one().sub_spec(r), i, stride, half);
    lemma_strided_scaled(column.skip(half * stride), lower, r, i, stride, half);
}

/// The inner product is the strided product with stride one.
pub proof fn lemma_inner_is_strided<F: Field>(a: Seq<F>, b: Seq<F>, n: nat)
    ensures
        inner_product(a, b, n) == strided_product(a, b, 0, 1, n),
    decreases n,
{
    if n > 0 {
        lemma_inner_is_strided(a, b, (n - 1) as nat);
    }
}

/// The inner product is linear in its first argument: where each entry of
/// `p` is an entry of `a` times `c` plus an entry of `b` times `d`, the
/// inner product of `p` with a query is that of `a` times `c` plus that of
/// `b` times `d`.
pub proof fn lemma_inner_linear<F: Field>(
    p: Seq<F>,
    a: Seq<F>,
    b: Seq<F>,
    c: F,
    d: F,
    query: Seq<F>,
    n: nat,
)
    requires
        forall|i: int|
            0 <= i < n ==> #[trigger] p[i] == a[i].mul_spec(c).add_spec(b[i].mul_spec(d)),
    ensures
        inner_product(p, query, n) == inner_product(a, query, n).mul_spec(c).add_spec(
            inner_product(b, query, n).mul_spec(d),
        ),
    decreases n,
{
    if n == 0 {
        F::lemma_mul_laws(F::zero(), c, c);
        F::lemma_mul_laws(c, c, c);
        F::lemma_mul_laws(F::zero(), d, d);
        F::lemma_mul_laws(d, d, d);
        F::lemma_add_laws(F::zero(), F::zero(), F::zero());
    } else {
        lemma_inner_linear(p, a, b, c, d, query, (n - 1) as nat);
        let q = query[n - 1];
        let sum_a = inner_product(a, query, (n - 1) as nat);
        let sum_b = inner_product(b, query, (n - 1) as nat);
        let x = a[n - 1];
        let y = b[n - 1];
        assert(p[n - 1] == x.mul_spec(c).add_spec(y.mul_spec(d)));
        lemma_right_distributive(x.mul_spec(c), y.mul_spec(d), q);
        lemma_mul_swap(x, c, q);
        lemma_mul_swap(y, d, q);
        lemma_add_interchange(
            sum_a.mul_spec(c),
            sum_b.mul_spec(d),
            x.mul_spec(q).mul_spec(c),
            y.mul_spec(q).mul_spec(d),
        );
        lemma_right_distributive(sum_a, x.mul_spec(q), c);
        lemma_right_distributive(sum_b, y.mul_spec(q), d);
    }
}

/// Fixing the high variables of a polynomial and evaluating what is left
/// gives the value of the polynomial at the joined point: the column with
/// its high variables fixed to `high`, evaluated at `low`, has the value
/// of the column at `low` followed by `high`.
pub proof fn lemma_partial_evaluation<F: Field>(column: Seq<F>, low: Seq<F>, high: Seq<F>)
    requires
        column.len() == pow2(low.len() + high.len()),
    ensures
        evaluate_spec(
            partial_high_spec(column, tensor_expansion(high), pow2(low.len())),
            low,
        ) == evaluate_spec(column, low + high),
    decreases high.len(),
{
    let len = pow2(low.len());
    let query = tensor_expansion(high);
    let partial = partial_high_spec(column, query, len);
    let tensor_low = tensor_expansion(low);
    lemma_tensor_expansion_len(low);
    lemma_tensor_expansion_len(high);
    lemma_tensor_expansion_len(low + high);
    lemma_pow2_pos(low.len());
    lemma_pow2_adds(low.len(), high.len());
    if high.len() == 0 {
        assert(low + high =~= low);
        assert(query =~= seq![F::one()]);
        assert forall|i: int| 0 <= i < len implies partial[i] == column[i] by {
            assert(strided_product(column, query, i, len as int, 0) == F::zero());
            assert(i + 0 * len == i) by (nonlinear_arith);
            lemma_zero_add(column[i].mul_spec(F::one()));
            F::lemma_mul_laws(column[i], F::one(), F::one());
        }
        assert(partial =~= column);
    } else {
        let rest = high.drop_last();
        let r = high.last();
        let one_minus_r = F::one().sub_spec(r);
        let lower_query = tensor_expansion(rest);
        let lower_full = tensor_expansion(low + rest);
        let half = pow2(low.len() + rest.len());
        lemma_tensor_expansion_len(rest);
        lemma_tensor_expansion_len(low + rest);
        lemma_pow2_adds(low.len(), rest.len());
        lemma_pow2_unfold(high.len());
        lemma_pow2_unfold(low.len() + high.len());
        assert((low + high).drop_last() =~= low + rest);
        assert((low + high).last() == r);
        assert(query == scale(lower_query, one_minus_r) + scale(lower_query, r));
        assert(tensor_expansion(low + high) == scale(lower_full, one_minus_r) + scale(
            lower_full,
            r,
        ));
        assert(lower_query.len() * len == half) by (nonlinear_arith)
            requires
                lower_query.len() == pow2(rest.len()),
                half == pow2(low.len()) * pow2(rest.len()),
                len == pow2(low.len()),
        ;
        assert(column.len() == 2 * half);
        assert(column.len() == 2 * lower_query.len() * len) by (nonlinear_arith)
            requires
                column.len() == 2 * half,
                lower_query.len() * len == half,
        ;
        let column_low = column.take(half as int);
        let column_high = column.skip(half as int);
        let partial_low = partial_high_spec(column_low, lower_query, len);
        let partial_high = partial_high_spec(column_high, lower_query, len);
        assert forall|i: int| 0 <= i < len implies #[trigger] partial[i] == partial_low[i].mul_spec(
            one_minus_r,
        ).add_spec(partial_high[i].mul_spec(r)) by {
            lemma_strided_split(column, lower_query, r, i, len as int);
            assert(query.len() == 2 * lower_query.len());
        }
        lemma_inner_linear(partial, partial_low, partial_high, one_minus_r, r, tensor_low, len);
        lemma_partial_evaluation(column_low, low, rest);
        lemma_partial_evaluation(column_high, low, rest);
        // the full evaluation splits in the same way
        lemma_inner_is_strided(column, tensor_expansion(low + high), column.len());
        assert(column.len() == 2 * lower_full.len() * 1);
        lemma_strided_split(column, lower_full, r, 0, 1);
        assert(lower_full.len() * 1 == half);
        lemma_inner_is_strided(column_low, lower_full, half);
        lemma_inner_is_strided(column_high, lower_full, half);
    }
}

} // verus!
