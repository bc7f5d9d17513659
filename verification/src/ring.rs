//! Laws that the arithmetic of an element type may obey, and what follows
//! from them for sums over a range of indices.
//!
//! Nothing here is assumed of any type: each law is a predicate that a lemma
//! asks for where its proof needs it.

use vstd::prelude::*;
use vstd::std_specs::ops::{AddSpec, MulSpec, NegSpec, SubSpec};
use crate::arith::{zero, Scalar};

verus! {

/// `(x + y) + z == x + (y + z)`.
#[verifier::opaque]
pub open spec fn addition_associates<T: Scalar>() -> bool {
    forall|x: T, y: T, z: T| #[trigger] x.add_spec(y).add_spec(z) == x.add_spec(y.add_spec(z))
}

/// `x + y == y + x`.
#[verifier::opaque]
pub open spec fn addition_commutes<T: Scalar>() -> bool {
    forall|x: T, y: T| #[trigger] x.add_spec(y) == y.add_spec(x)
}

/// `x + 0 == x`, where 0 is the default value.
#[verifier::opaque]
pub open spec fn zero_is_neutral<T: Scalar>() -> bool {
    forall|x: T| #[trigger] x.add_spec(zero::<T>()) == x
}

/// `(x * y) * z == x * (y * z)`.
#[verifier::opaque]
pub open spec fn multiplication_associates<T: Scalar>() -> bool {
    forall|x: T, y: T, z: T| #[trigger] x.mul_spec(y).mul_spec(z) == x.mul_spec(y.mul_spec(z))
}

/// `x * (y + z) == x * y + x * z` and `(x + y) * z == x * z + y * z`.
#[verifier::opaque]
pub open spec fn multiplication_distributes<T: Scalar>() -> bool {
    &&& forall|x: T, y: T, z: T| #[trigger]
        x.mul_spec(y.add_spec(z)) == x.mul_spec(y).add_spec(x.mul_spec(z))
    &&& forall|x: T, y: T, z: T| #[trigger]
        x.add_spec(y).mul_spec(z) == x.mul_spec(z).add_spec(y.mul_spec(z))
}

/// `x * 0 == 0` and `0 * x == 0`, where 0 is the default value.
#[verifier::opaque]
pub open spec fn zero_annihilates<T: Scalar>() -> bool {
    &&& forall|x: T| #[trigger] x.mul_spec(zero::<T>()) == zero::<T>()
    &&& forall|x: T| #[trigger] zero::<T>().mul_spec(x) == zero::<T>()
}

/// A product is 0 only where a factor is.
#[verifier::opaque]
pub open spec fn no_zero_divisors<T: Scalar>() -> bool {
    forall|x: T, y: T|
        x != zero::<T>() && y != zero::<T>() ==> #[trigger] x.mul_spec(y) != zero::<T>()
}

/// Addition and multiplication obey the laws of a commutative addition with
/// zero and of an associative multiplication that distributes over it.
pub open spec fn semiring<T: Scalar>() -> bool {
    &&& addition_associates::<T>()
    &&& addition_commutes::<T>()
    &&& zero_is_neutral::<T>()
    &&& multiplication_associates::<T>()
    &&& multiplication_distributes::<T>()
    &&& zero_annihilates::<T>()
}

/// One instance of associativity of addition.
pub proof fn lemma_add_associates<T: Scalar>(x: T, y: T, z: T)
    requires
        addition_associates::<T>(),
    ensures
        x.add_spec(y).add_spec(z) == x.add_spec(y.add_spec(z)),
{
    reveal(addition_associates);
}

/// One instance of commutativity of addition.
pub proof fn lemma_add_commutes<T: Scalar>(x: T, y: T)
    requires
        addition_commutes::<T>(),
    ensures
        x.add_spec(y) == y.add_spec(x),
{
    reveal(addition_commutes);
}

/// Zero is neutral on both sides of an addition.
pub proof fn lemma_add_zero<T: Scalar>(x: T)
    requires
        zero_is_neutral::<T>(),
        addition_commutes::<T>(),
    ensures
        x.add_spec(zero::<T>()) == x,
        zero::<T>().add_spec(x) == x,
{
    reveal(zero_is_neutral);
    reveal(addition_commutes);
}

/// One instance of associativity of multiplication.
pub proof fn lemma_mul_associates<T: Scalar>(x: T, y: T, z: T)
    requires
        multiplication_associates::<T>(),
    ensures
        x.mul_spec(y).mul_spec(z) == x.mul_spec(y.mul_spec(z)),
{
    reveal(multiplication_associates);
}

/// One instance of each law of distribution.
pub proof fn lemma_mul_distributes<T: Scalar>(x: T, y: T, z: T)
    requires
        multiplication_distributes::<T>(),
    ensures
        x.mul_spec(y.add_spec(z)) == x.mul_spec(y).add_spec(x.mul_spec(z)),
        x.add_spec(y).mul_spec(z) == x.mul_spec(z).add_spec(y.mul_spec(z)),
{
    reveal(multiplication_distributes);
}

/// A product with a zero factor is zero.
pub proof fn lemma_mul_zero<T: Scalar>(x: T)
    requires
        zero_annihilates::<T>(),
    ensures
        x.mul_spec(zero::<T>()) == zero::<T>(),
        zero::<T>().mul_spec(x) == zero::<T>(),
{
    reveal(zero_annihilates);
}

/// The sum `f(lo) + f(lo + 1) + ... + f(hi)`, added from left to right; `f(lo)`
/// where the range holds no more.
pub open spec fn sigma<T: Scalar>(f: spec_fn(int) -> T, lo: int, hi: int) -> T
    decreases hi - lo,
{
    if hi <= lo {
        f(lo)
    } else {
        sigma(f, lo, hi - 1).add_spec(f(hi))
    }
}

/// Sums of equal terms are equal.
pub proof fn lemma_sigma_same<T: Scalar>(f: spec_fn(int) -> T, g: spec_fn(int) -> T, lo: int, hi: int)
    requires
        lo <= hi,
        forall|i: int| lo <= i <= hi ==> #[trigger] f(i) == g(i),
    ensures
        sigma(f, lo, hi) == sigma(g, lo, hi),
    decreases hi - lo,
{
    if hi > lo {
        lemma_sigma_same(f, g, lo, hi - 1);
    }
}

/// A sum is the sum of its first part and of the rest.
pub proof fn lemma_sigma_split<T: Scalar>(f: spec_fn(int) -> T, lo: int, mid: int, hi: int)
    requires
        addition_associates::<T>(),
        lo <= mid < hi,
    ensures
        sigma(f, lo, hi) == sigma(f, lo, mid).add_spec(sigma(f, mid + 1, hi)),
    decreases hi - mid,
{
    if hi > mid + 1 {
        lemma_sigma_split(f, lo, mid, hi - 1);
        lemma_add_associates(sigma(f, lo, mid), sigma(f, mid + 1, hi - 1), f(hi));
    }
}

/// The sum of `f(i) + g(i)` is the sum of the `f(i)` plus the sum of the
/// `g(i)`.
pub proof fn lemma_sigma_add<T: Scalar>(
    f: spec_fn(int) -> T,
    g: spec_fn(int) -> T,
    h: spec_fn(int) -> T,
    lo: int,
    hi: int,
)
    requires
        addition_associates::<T>(),
        addition_commutes::<T>(),
        lo <= hi,
        forall|i: int| lo <= i <= hi ==> #[trigger] h(i) == f(i).add_spec(g(i)),
    ensures
        sigma(h, lo, hi) == sigma(f, lo, hi).add_spec(sigma(g, lo, hi)),
    decreases hi - lo,
{
    if hi > lo {
        lemma_sigma_add(f, g, h, lo, hi - 1);
        let sf = sigma(f, lo, hi - 1);
        let sg = sigma(g, lo, hi - 1);
        // (sf + sg) + (f + g) == (sf + f) + (sg + g)
        lemma_add_associates(sf, sg, f(hi).add_spec(g(hi)));
        lemma_add_associates(sg, f(hi), g(hi));
        lemma_add_commutes(sg, f(hi));
        lemma_add_associates(f(hi), sg, g(hi));
        lemma_add_associates(sf, f(hi), sg.add_spec(g(hi)));
    }
}

/// A factor on the left of each term can be taken out of the sum.
pub proof fn lemma_sigma_scaled_left<T: Scalar>(
    x: T,
    f: spec_fn(int) -> T,
    g: spec_fn(int) -> T,
    lo: int,
    hi: int,
)
    requires
        multiplication_distributes::<T>(),
        lo <= hi,
        forall|i: int| lo <= i <= hi ==> #[trigger] g(i) == x.mul_spec(f(i)),
    ensures
        sigma(g, lo, hi) == x.mul_spec(sigma(f, lo, hi)),
    decreases hi - lo,
{
    if hi > lo {
        lemma_sigma_scaled_left(x, f, g, lo, hi - 1);
        lemma_mul_distributes(x, sigma(f, lo, hi - 1), f(hi));
    }
}

/// A factor on the right of each term can be taken out of the sum.
pub proof fn lemma_sigma_scaled_right<T: Scalar>(
    f: spec_fn(int) -> T,
    y: T,
    g: spec_fn(int) -> T,
    lo: int,
    hi: int,
)
    requires
        multiplication_distributes::<T>(),
        lo <= hi,
        forall|i: int| lo <= i <= hi ==> #[trigger] g(i) == f(i).mul_spec(y),
    ensures
        sigma(g, lo, hi) == sigma(f, lo, hi).mul_spec(y),
    decreases hi - lo,
{
    if hi > lo {
        lemma_sigma_scaled_right(f, y, g, lo, hi - 1);
        lemma_mul_distributes(sigma(f, lo, hi - 1), f(hi), y);
    }
}

/// A sum is the sum of the same terms under shifted indices.
pub proof fn lemma_sigma_shifted<T: Scalar>(
    f: spec_fn(int) -> T,
    g: spec_fn(int) -> T,
    lo: int,
    hi: int,
    by: int,
)
    requires
        lo <= hi,
        forall|i: int| lo <= i <= hi ==> #[trigger] g(i) == f(i + by),
    ensures
        sigma(g, lo, hi) == sigma(f, lo + by, hi + by),
    decreases hi - lo,
{
    if hi > lo {
        lemma_sigma_shifted(f, g, lo, hi - 1, by);
    }
}

/// A sum of zeros is zero.
pub proof fn lemma_sigma_of_zeros<T: Scalar>(f: spec_fn(int) -> T, lo: int, hi: int)
    requires
        zero_is_neutral::<T>(),
        addition_commutes::<T>(),
        lo <= hi,
        forall|i: int| lo <= i <= hi ==> #[trigger] f(i) == zero::<T>(),
    ensures
        sigma(f, lo, hi) == zero::<T>(),
    decreases hi - lo,
{
    if hi > lo {
        lemma_sigma_of_zeros(f, lo, hi - 1);
        lemma_add_zero(zero::<T>());
    }
}

/// Zeros before and after a range add nothing to a sum.
pub proof fn lemma_sigma_trimmed<T: Scalar>(
    f: spec_fn(int) -> T,
    lo: int,
    first: int,
    last: int,
    hi: int,
)
    requires
        addition_associates::<T>(),
        addition_commutes::<T>(),
        zero_is_neutral::<T>(),
        lo <= first <= last <= hi,
        forall|i: int| lo <= i < first ==> #[trigger] f(i) == zero::<T>(),
        forall|i: int| last < i <= hi ==> #[trigger] f(i) == zero::<T>(),
    ensures
        sigma(f, lo, hi) == sigma(f, first, last),
{
    if last < hi {
        lemma_sigma_split(f, lo, last, hi);
        lemma_sigma_of_zeros(f, last + 1, hi);
        lemma_add_zero(sigma(f, lo, last));
    }
    if lo < first {
        lemma_sigma_split(f, lo, first - 1, last);
        lemma_sigma_of_zeros(f, lo, first - 1);
        lemma_add_zero(sigma(f, first, last));
    }
}

/// The terms `f(i, 0)` to `f(i, i)`, added up.
pub open spec fn row_sum<T: Scalar>(f: spec_fn(int, int) -> T, i: int) -> T {
    sigma(|j: int| f(i, j), 0, i)
}

/// The terms `f(j, j)` to `f(k, j)`, added up.
pub open spec fn column_sum<T: Scalar>(f: spec_fn(int, int) -> T, j: int, k: int) -> T {
    sigma(|i: int| f(i, j), j, k)
}

/// The terms `f(i, j)` with `0 <= j <= i <= k` add up to the same, whether
/// they are added row by row or column by column.
pub proof fn lemma_triangle<T: Scalar>(f: spec_fn(int, int) -> T, k: int)
    requires
        addition_associates::<T>(),
        addition_commutes::<T>(),
        k >= 0,
    ensures
        sigma(|i: int| row_sum(f, i), 0, k) == sigma(|j: int| column_sum(f, j, k), 0, k),
    decreases k,
{
    let rows = |i: int| row_sum(f, i);
    let columns = |j: int| column_sum(f, j, k);
    if k > 0 {
        let shorter = |j: int| column_sum(f, j, k - 1);
        let last_row = |j: int| f(k, j);
        lemma_triangle(f, k - 1);
        assert(sigma(rows, 0, k - 1) == sigma(shorter, 0, k - 1));
        assert forall|j: int| 0 <= j <= k - 1 implies #[trigger] columns(j) == shorter(j).add_spec(
            last_row(j),
        ) by {
            assert(column_sum(f, j, k) == column_sum(f, j, k - 1).add_spec(f(k, j)));
        }
        lemma_sigma_add(shorter, last_row, columns, 0, k - 1);
        assert(columns(k) == f(k, k));
        lemma_add_associates(sigma(shorter, 0, k - 1), sigma(last_row, 0, k - 1), f(k, k));
        assert(row_sum(f, k) == sigma(last_row, 0, k - 1).add_spec(f(k, k)));
    }
}

/// `x * y == y * x`.
#[verifier::opaque]
pub open spec fn multiplication_commutes<T: Scalar>() -> bool {
    forall|x: T, y: T| #[trigger] x.mul_spec(y) == y.mul_spec(x)
}

/// Negation undoes itself, moves out of products and into sums, leaves zero
/// as it is, and `x - y == x + (-y)`.
#[verifier::opaque]
pub open spec fn negation_is_additive_inverse<T: Scalar>() -> bool {
    &&& forall|x: T| #[trigger] x.neg_spec().neg_spec() == x
    &&& forall|x: T, y: T| #[trigger] x.neg_spec().mul_spec(y) == x.mul_spec(y).neg_spec()
    &&& forall|x: T, y: T| #[trigger] x.mul_spec(y.neg_spec()) == x.mul_spec(y).neg_spec()
    &&& forall|x: T, y: T| #[trigger]
        x.add_spec(y).neg_spec() == x.neg_spec().add_spec(y.neg_spec())
    &&& zero::<T>().neg_spec() == zero::<T>()
    &&& forall|x: T, y: T| #[trigger] x.sub_spec(y) == x.add_spec(y.neg_spec())
}

/// The arithmetic of `T` obeys the laws of a commutative ring.
pub open spec fn commutative_ring<T: Scalar>() -> bool {
    &&& semiring::<T>()
    &&& multiplication_commutes::<T>()
    &&& negation_is_additive_inverse::<T>()
}

/// One instance of commutativity of multiplication.
pub proof fn lemma_mul_commutes<T: Scalar>(x: T, y: T)
    requires
        multiplication_commutes::<T>(),
    ensures
        x.mul_spec(y) == y.mul_spec(x),
{
    reveal(multiplication_commutes);
}

/// One instance of each law of negation.
pub proof fn lemma_negation<T: Scalar>(x: T, y: T)
    requires
        negation_is_additive_inverse::<T>(),
    ensures
        x.neg_spec().neg_spec() == x,
        x.neg_spec().mul_spec(y) == x.mul_spec(y).neg_spec(),
        x.mul_spec(y.neg_spec()) == x.mul_spec(y).neg_spec(),
        x.add_spec(y).neg_spec() == x.neg_spec().add_spec(y.neg_spec()),
        zero::<T>().neg_spec() == zero::<T>(),
        x.sub_spec(y) == x.add_spec(y.neg_spec()),
{
    reveal(negation_is_additive_inverse);
}

/// `x` for an even `n`, `-x` for an odd one: `x` times the `n`-th power of
/// -1.
pub open spec fn with_sign<T: Scalar>(n: int, x: T) -> T {
    if n % 2 == 0 {
        x
    } else {
        x.neg_spec()
    }
}

/// Signs move out of products, add up where they are nested, move into sums
/// and leave zero as it is.
pub proof fn lemma_sign<T: Scalar>(n: int, m: int, x: T, y: T)
    requires
        negation_is_additive_inverse::<T>(),
    ensures
        with_sign(n, x).mul_spec(y) == with_sign(n, x.mul_spec(y)),
        x.mul_spec(with_sign(n, y)) == with_sign(n, x.mul_spec(y)),
        with_sign(n, with_sign(m, x)) == with_sign(n + m, x),
        with_sign(n, x.add_spec(y)) == with_sign(n, x).add_spec(with_sign(n, y)),
        with_sign(n, zero::<T>()) == zero::<T>(),
{
    lemma_negation(x, y);
    lemma_negation(x.neg_spec(), y);
}

/// The sum `f(lo) + ... + f(hi)`, added from left to right on top of zero;
/// zero where the range is empty.
pub open spec fn sum_over<T: Scalar>(f: spec_fn(int) -> T, lo: int, hi: int) -> T
    decreases hi - lo + 1,
{
    if hi < lo {
        zero::<T>()
    } else {
        sum_over(f, lo, hi - 1).add_spec(f(hi))
    }
}

/// On a range that is not empty, the sum on top of zero is the sum of the
/// terms alone.
pub proof fn lemma_sum_over_sigma<T: Scalar>(f: spec_fn(int) -> T, lo: int, hi: int)
    requires
        zero_is_neutral::<T>(),
        addition_commutes::<T>(),
        lo <= hi,
    ensures
        sum_over(f, lo, hi) == sigma(f, lo, hi),
    decreases hi - lo,
{
    if hi > lo {
        lemma_sum_over_sigma(f, lo, hi - 1);
    } else {
        assert(sum_over(f, lo, hi - 1) == zero::<T>());
        lemma_add_zero(f(lo));
    }
}

/// Sums of equal terms are equal.
pub proof fn lemma_sum_same<T: Scalar>(f: spec_fn(int) -> T, g: spec_fn(int) -> T, lo: int, hi: int)
    requires
        forall|i: int| lo <= i <= hi ==> #[trigger] f(i) == g(i),
    ensures
        sum_over(f, lo, hi) == sum_over(g, lo, hi),
    decreases hi - lo + 1,
{
    if hi >= lo {
        lemma_sum_same(f, g, lo, hi - 1);
    }
}

/// A sum is the sum of its first part and of the rest; either may be empty.
pub proof fn lemma_sum_split<T: Scalar>(f: spec_fn(int) -> T, lo: int, mid: int, hi: int)
    requires
        addition_associates::<T>(),
        addition_commutes::<T>(),
        zero_is_neutral::<T>(),
        lo - 1 <= mid <= hi,
    ensures
        sum_over(f, lo, hi) == sum_over(f, lo, mid).add_spec(sum_over(f, mid + 1, hi)),
    decreases hi - mid,
{
    if hi > mid {
        lemma_sum_split(f, lo, mid, hi - 1);
        lemma_add_associates(sum_over(f, lo, mid), sum_over(f, mid + 1, hi - 1), f(hi));
    } else {
        lemma_add_zero(sum_over(f, lo, mid));
    }
}

/// The sum over a range of one index is the term of that index.
pub proof fn lemma_sum_single<T: Scalar>(f: spec_fn(int) -> T, i: int)
    requires
        addition_commutes::<T>(),
        zero_is_neutral::<T>(),
    ensures
        sum_over(f, i, i) == f(i),
{
    assert(sum_over(f, i, i - 1) == zero::<T>());
    lemma_add_zero(f(i));
}

/// The sum of `f(i) + g(i)` is the sum of the `f(i)` plus the sum of the
/// `g(i)`.
pub proof fn lemma_sum_add<T: Scalar>(
    f: spec_fn(int) -> T,
    g: spec_fn(int) -> T,
    h: spec_fn(int) -> T,
    lo: int,
    hi: int,
)
    requires
        addition_associates::<T>(),
        addition_commutes::<T>(),
        zero_is_neutral::<T>(),
        forall|i: int| lo <= i <= hi ==> #[trigger] h(i) == f(i).add_spec(g(i)),
    ensures
        sum_over(h, lo, hi) == sum_over(f, lo, hi).add_spec(sum_over(g, lo, hi)),
    decreases hi - lo + 1,
{
    if hi >= lo {
        lemma_sum_add(f, g, h, lo, hi - 1);
        let sf = sum_over(f, lo, hi - 1);
        let sg = sum_over(g, lo, hi - 1);
        lemma_add_associates(sf, sg, f(hi).add_spec(g(hi)));
        lemma_add_associates(sg, f(hi), g(hi));
        lemma_add_commutes(sg, f(hi));
        lemma_add_associates(f(hi), sg, g(hi));
        lemma_add_associates(sf, f(hi), sg.add_spec(g(hi)));
    } else {
        lemma_add_zero(zero::<T>());
    }
}

/// A factor on the left of each term can be taken out of the sum.
pub proof fn lemma_sum_scaled_left<T: Scalar>(
    x: T,
    f: spec_fn(int) -> T,
    g: spec_fn(int) -> T,
    lo: int,
    hi: int,
)
    requires
        multiplication_distributes::<T>(),
        zero_annihilates::<T>(),
        forall|i: int| lo <= i <= hi ==> #[trigger] g(i) == x.mul_spec(f(i)),
    ensures
        sum_over(g, lo, hi) == x.mul_spec(sum_over(f, lo, hi)),
    decreases hi - lo + 1,
{
    if hi >= lo {
        lemma_sum_scaled_left(x, f, g, lo, hi - 1);
        lemma_mul_distributes(x, sum_over(f, lo, hi - 1), f(hi));
    } else {
        lemma_mul_zero(x);
    }
}

/// A sign on each term can be taken out of the sum.
pub proof fn lemma_sum_signed<T: Scalar>(
    n: int,
    f: spec_fn(int) -> T,
    g: spec_fn(int) -> T,
    lo: int,
    hi: int,
)
    requires
        negation_is_additive_inverse::<T>(),
        forall|i: int| lo <= i <= hi ==> #[trigger] g(i) == with_sign(n, f(i)),
    ensures
        sum_over(g, lo, hi) == with_sign(n, sum_over(f, lo, hi)),
    decreases hi - lo + 1,
{
    if hi >= lo {
        lemma_sum_signed(n, f, g, lo, hi - 1);
        lemma_sign(n, 0, sum_over(f, lo, hi - 1), f(hi));
    } else {
        lemma_sign(n, 0, zero::<T>(), zero::<T>());
    }
}

/// A sum is the sum of the same terms under shifted indices.
pub proof fn lemma_sum_shifted<T: Scalar>(
    f: spec_fn(int) -> T,
    g: spec_fn(int) -> T,
    lo: int,
    hi: int,
    by: int,
)
    requires
        forall|i: int| lo <= i <= hi ==> #[trigger] g(i) == f(i + by),
    ensures
        sum_over(g, lo, hi) == sum_over(f, lo + by, hi + by),
    decreases hi - lo + 1,
{
    if hi >= lo {
        lemma_sum_shifted(f, g, lo, hi - 1, by);
    }
}

/// A sum of zeros is zero.
pub proof fn lemma_sum_of_zeros<T: Scalar>(f: spec_fn(int) -> T, lo: int, hi: int)
    requires
        zero_is_neutral::<T>(),
        addition_commutes::<T>(),
        forall|i: int| lo <= i <= hi ==> #[trigger] f(i) == zero::<T>(),
    ensures
        sum_over(f, lo, hi) == zero::<T>(),
    decreases hi - lo + 1,
{
    if hi >= lo {
        lemma_sum_of_zeros(f, lo, hi - 1);
        lemma_add_zero(zero::<T>());
    }
}

/// A sum over all indices but `skipped` is the sum over all indices of the
/// same terms with zero in the place of the term of `skipped`.
pub proof fn lemma_sum_skipping<T: Scalar>(
    f: spec_fn(int) -> T,
    g: spec_fn(int) -> T,
    h: spec_fn(int) -> T,
    skipped: int,
    n: int,
)
    requires
        addition_associates::<T>(),
        addition_commutes::<T>(),
        zero_is_neutral::<T>(),
        1 <= skipped <= n,
        forall|i: int| 1 <= i < skipped ==> #[trigger] g(i) == f(i),
        forall|i: int| skipped <= i <= n - 1 ==> #[trigger] g(i) == f(i + 1),
        forall|i: int| 1 <= i <= n && i != skipped ==> #[trigger] h(i) == f(i),
        h(skipped) == zero::<T>(),
    ensures
        sum_over(g, 1, n - 1) == sum_over(h, 1, n),
{
    lemma_sum_split(g, 1, skipped - 1, n - 1);
    lemma_sum_split(h, 1, skipped - 1, n);
    lemma_sum_split(h, skipped, skipped, n);
    lemma_sum_single(h, skipped);
    lemma_sum_same(g, h, 1, skipped - 1);
    lemma_sum_shifted(h, g, skipped, n - 1, 1);
    lemma_add_zero(sum_over(h, skipped + 1, n));
}

/// The sum over `j` of `f(i, j)`.
pub open spec fn inner_sum<T: Scalar>(f: spec_fn(int, int) -> T, i: int, lo: int, hi: int) -> T {
    sum_over(|j: int| f(i, j), lo, hi)
}

/// The sum over `i` of `f(i, j)`.
pub open spec fn outer_sum<T: Scalar>(f: spec_fn(int, int) -> T, j: int, lo: int, hi: int) -> T {
    sum_over(|i: int| f(i, j), lo, hi)
}

/// The terms `f(i, j)` of a rectangle of indices add up to the same, whether
/// they are added row by row or column by column.
pub proof fn lemma_sum_swap<T: Scalar>(
    f: spec_fn(int, int) -> T,
    lo1: int,
    hi1: int,
    lo2: int,
    hi2: int,
)
    requires
        addition_associates::<T>(),
        addition_commutes::<T>(),
        zero_is_neutral::<T>(),
    ensures
        sum_over(|i: int| inner_sum(f, i, lo2, hi2), lo1, hi1) == sum_over(
            |j: int| outer_sum(f, j, lo1, hi1),
            lo2,
            hi2,
        ),
    decreases hi1 - lo1 + 1,
{
    let rows = |i: int| inner_sum(f, i, lo2, hi2);
    let columns = |j: int| outer_sum(f, j, lo1, hi1);
    if hi1 < lo1 {
        lemma_sum_of_zeros(columns, lo2, hi2);
    } else {
        let shorter = |j: int| outer_sum(f, j, lo1, hi1 - 1);
        let last = |j: int| f(hi1, j);
        lemma_sum_swap(f, lo1, hi1 - 1, lo2, hi2);
        assert(sum_over(rows, lo1, hi1 - 1) == sum_over(shorter, lo2, hi2));
        assert forall|j: int| lo2 <= j <= hi2 implies #[trigger] columns(j) == shorter(j).add_spec(
            last(j),
        ) by {
            assert(outer_sum(f, j, lo1, hi1) == outer_sum(f, j, lo1, hi1 - 1).add_spec(f(hi1, j)));
        }
        lemma_sum_add(shorter, last, columns, lo2, hi2);
        assert(rows(hi1) == sum_over(last, lo2, hi2));
    }
}

} // verus!
