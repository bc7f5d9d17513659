//! Arithmetic and comparison of polynomials.
//!
//! Each coefficient of a result is described by the formula that computes it
//! from copies of the coefficients of the operands. A coefficient that one
//! operand lacks counts as zero and takes no part in the formula.

use vstd::prelude::*;
use core::ops::{Add, AddAssign, Mul, Neg, Sub};
use vstd::std_specs::cmp::{PartialEqSpec, PartialEqSpecImpl};
use vstd::std_specs::ops::{AddSpecImpl, MulSpecImpl, NegSpecImpl, SubSpecImpl};
use crate::arith::{
    copy, defined, diff, differs, evaluates, neg, negated, plus, prod, sum, times, Formula, Scalar,
};
use crate::polynomials::Pol;

verus! {

/// The larger of two lengths.
pub open spec fn longer(a: nat, b: nat) -> nat {
    if a >= b {
        a
    } else {
        b
    }
}

/// Coefficient `i` of `a + b`.
pub open spec fn added_at<T>(a: Seq<T>, b: Seq<T>, i: int) -> Formula<T> {
    if i < a.len() && i < b.len() {
        sum(Formula::Val(a[i]), Formula::Val(b[i]))
    } else if i < a.len() {
        Formula::Val(a[i])
    } else {
        Formula::Val(b[i])
    }
}

/// Coefficient `i` of `a - b`.
pub open spec fn subtracted_at<T>(a: Seq<T>, b: Seq<T>, i: int) -> Formula<T> {
    if i < a.len() && i < b.len() {
        diff(Formula::Val(a[i]), Formula::Val(b[i]))
    } else if i < a.len() {
        Formula::Val(a[i])
    } else {
        neg(Formula::Val(b[i]))
    }
}

/// Coefficient `i` of `-a`.
pub open spec fn negated_at<T>(a: Seq<T>, i: int) -> Formula<T> {
    neg(Formula::Val(a[i]))
}

/// Coefficient `i` of `a` scaled by `factor`.
pub open spec fn scaled_at<T>(a: Seq<T>, factor: T, i: int) -> Formula<T> {
    prod(Formula::Val(a[i]), Formula::Val(factor))
}

/// The lowest `i` for which `a[i] * b[k - i]` is a term of coefficient `k`
/// of a product, where `b` has `b_len` coefficients.
pub open spec fn lowest_index(k: int, b_len: int) -> int {
    if k < b_len {
        0
    } else {
        k - b_len + 1
    }
}

/// The highest `i` for which `a[i] * b[k - i]` is a term of coefficient `k`
/// of a product, where `a` has `a_len` coefficients.
pub open spec fn highest_index(k: int, a_len: int) -> int {
    if k < a_len {
        k
    } else {
        a_len - 1
    }
}

/// The terms `a[i] * b[k - i]` of coefficient `k` of `a * b`, from the lowest
/// `i` up to `upto`, added in that order.
pub open spec fn convolved_upto<T>(a: Seq<T>, b: Seq<T>, k: int, upto: int) -> Formula<T>
    decreases upto - lowest_index(k, b.len() as int),
{
    let term = prod(Formula::Val(a[upto]), Formula::Val(b[k - upto]));
    if upto <= lowest_index(k, b.len() as int) {
        term
    } else {
        sum(convolved_upto(a, b, k, upto - 1), term)
    }
}

/// Coefficient `k` of `a * b`: the sum of all `a[i] * b[j]` with `i + j == k`,
/// in ascending `i`.
pub open spec fn multiplied_at<T>(a: Seq<T>, b: Seq<T>, k: int) -> Formula<T> {
    convolved_upto(a, b, k, highest_index(k, a.len() as int))
}

/// `a + b` can be computed.
pub open spec fn addition_defined<T: Scalar>(a: Seq<T>, b: Seq<T>) -> bool {
    forall|i: int| 0 <= i < longer(a.len(), b.len()) ==> defined(#[trigger] added_at(a, b, i))
}

/// `a - b` can be computed.
pub open spec fn subtraction_defined<T: Scalar>(a: Seq<T>, b: Seq<T>) -> bool {
    forall|i: int|
        0 <= i < longer(a.len(), b.len()) ==> defined(#[trigger] subtracted_at(a, b, i))
}

/// `-a` can be computed.
pub open spec fn negation_defined<T: Scalar>(a: Seq<T>) -> bool {
    forall|i: int| 0 <= i < a.len() ==> defined(#[trigger] negated_at(a, i))
}

/// `a` can be scaled by `factor`.
pub open spec fn scaling_defined<T: Scalar>(a: Seq<T>, factor: T) -> bool {
    forall|i: int| 0 <= i < a.len() ==> defined(#[trigger] scaled_at(a, factor, i))
}

/// `a * b` can be computed: both have a coefficient, the product has no more
/// coefficients than a vector can hold, and each of them can be computed.
pub open spec fn multiplication_defined<T: Scalar>(a: Seq<T>, b: Seq<T>) -> bool {
    &&& a.len() >= 1
    &&& b.len() >= 1
    &&& a.len() + b.len() - 1 <= usize::MAX
    &&& forall|k: int| 0 <= k < a.len() + b.len() - 1 ==> defined(#[trigger] multiplied_at(a, b, k))
}

/// `r` is a possible outcome of `a + b`.
pub open spec fn is_sum<T: Scalar>(a: Seq<T>, b: Seq<T>, r: Seq<T>) -> bool {
    &&& r.len() == longer(a.len(), b.len())
    &&& forall|i: int| 0 <= i < r.len() ==> evaluates(added_at(a, b, i), #[trigger] r[i])
}

/// `r` is a possible outcome of `a - b`.
pub open spec fn is_difference<T: Scalar>(a: Seq<T>, b: Seq<T>, r: Seq<T>) -> bool {
    &&& r.len() == longer(a.len(), b.len())
    &&& forall|i: int| 0 <= i < r.len() ==> evaluates(subtracted_at(a, b, i), #[trigger] r[i])
}

/// `r` is a possible outcome of `-a`.
pub open spec fn is_negation<T: Scalar>(a: Seq<T>, r: Seq<T>) -> bool {
    &&& r.len() == a.len()
    &&& forall|i: int| 0 <= i < r.len() ==> evaluates(negated_at(a, i), #[trigger] r[i])
}

/// `r` is a possible outcome of scaling `a` by `factor`.
pub open spec fn is_scaled<T: Scalar>(a: Seq<T>, factor: T, r: Seq<T>) -> bool {
    &&& r.len() == a.len()
    &&& forall|i: int| 0 <= i < r.len() ==> evaluates(scaled_at(a, factor, i), #[trigger] r[i])
}

/// `r` is a possible outcome of `a * b`.
pub open spec fn is_product<T: Scalar>(a: Seq<T>, b: Seq<T>, r: Seq<T>) -> bool {
    &&& r.len() == a.len() + b.len() - 1
    &&& forall|k: int| 0 <= k < r.len() ==> evaluates(multiplied_at(a, b, k), #[trigger] r[k])
}

/// What `+` asks of its operands. A polynomial is known by its coefficients
/// alone, so no function names the sum as a value: `obeys_add_spec` is false
/// and the contract of `add` speaks of the coefficients. The same holds of
/// `-`, `*` and unary `-` below.
impl<T: Scalar> AddSpecImpl for Pol<T> {
    open spec fn obeys_add_spec() -> bool {
        false
    }

    open spec fn add_req(self, rhs: Pol<T>) -> bool {
        addition_defined(self@, rhs@)
    }

    open spec fn add_spec(self, rhs: Pol<T>) -> Pol<T> {
        self
    }
}

impl<T: Scalar> Add for Pol<T> {
    type Output = Pol<T>;

    /// The sum, coefficient by coefficient; as long as the longer operand.
    fn add(self, other: Pol<T>) -> (r: Pol<T>)
        ensures
            is_sum(self@, other@, r@),
    {
        let n = self.0.len();
        let m = other.0.len();
        let len = if n >= m {
            n
        } else {
            m
        };
        let mut result: Vec<T> = Vec::new();
        let mut i: usize = 0;
        while i < len
            invariant
                n == self@.len(),
                m == other@.len(),
                len == longer(self@.len(), other@.len()),
                addition_defined(self@, other@),
                i <= len,
                result@.len() == i,
                forall|j: int|
                    0 <= j < i ==> evaluates(added_at(self@, other@, j), #[trigger] result@[j]),
            decreases len - i,
        {
            assert(defined(added_at(self@, other@, i as int)));
            let c = if i < n && i < m {
                plus(
                    copy(&self.0[i]),
                    copy(&other.0[i]),
                    Ghost(Formula::Val(self@[i as int])),
                    Ghost(Formula::Val(other@[i as int])),
                )
            } else if i < n {
                copy(&self.0[i])
            } else {
                copy(&other.0[i])
            };
            result.push(c);
            i = i + 1;
        }
        Pol(result)
    }
}

impl<T: Scalar> AddAssign for Pol<T> {
    /// Adds `rhs` to the polynomial in place. Where `rhs` is longer, its
    /// higher coefficients are appended.
    fn add_assign(&mut self, rhs: Pol<T>)
        requires
            addition_defined(old(self)@, rhs@),
        ensures
            is_sum(old(self)@, rhs@, final(self)@),
            forall|i: int| rhs@.len() <= i < old(self)@.len() ==> final(self)@[i] == old(self)@[i],
    {
        let n = self.0.len();
        let m = rhs.0.len();
        let ghost before = self@;
        let mut i: usize = 0;
        while i < m
            invariant
                n == before.len(),
                m == rhs@.len(),
                addition_defined(before, rhs@),
                i <= m,
                self@.len() == longer(n as nat, i as nat),
                forall|j: int|
                    0 <= j < i ==> evaluates(added_at(before, rhs@, j), #[trigger] self@[j]),
                forall|j: int| i <= j < n ==> self@[j] == before[j],
            decreases m - i,
        {
            assert(defined(added_at(before, rhs@, i as int)));
            if i < n {
                let c = plus(
                    copy(&self.0[i]),
                    copy(&rhs.0[i]),
                    Ghost(Formula::Val(before[i as int])),
                    Ghost(Formula::Val(rhs@[i as int])),
                );
                self.0.set(i, c);
            } else {
                let c = copy(&rhs.0[i]);
                self.0.push(c);
            }
            i = i + 1;
        }
        proof {
            assert forall|j: int| 0 <= j < self@.len() implies evaluates(
                added_at(before, rhs@, j),
                #[trigger] self@[j],
            ) by {
                if j >= m {
                    crate::arith::lemma_copy_same(before[j]);
                }
            }
        }
    }
}

impl<T: Scalar> SubSpecImpl for Pol<T> {
    open spec fn obeys_sub_spec() -> bool {
        false
    }

    open spec fn sub_req(self, rhs: Pol<T>) -> bool {
        subtraction_defined(self@, rhs@)
    }

    open spec fn sub_spec(self, rhs: Pol<T>) -> Pol<T> {
        self
    }
}

impl<T: Scalar> Sub for Pol<T> {
    type Output = Pol<T>;

    /// The difference, coefficient by coefficient; as long as the longer
    /// operand.
    fn sub(self, other: Pol<T>) -> (r: Pol<T>)
        ensures
            is_difference(self@, other@, r@),
    {
        let n = self.0.len();
        let m = other.0.len();
        let len = if n >= m {
            n
        } else {
            m
        };
        let mut result: Vec<T> = Vec::new();
        let mut i: usize = 0;
        while i < len
            invariant
                n == self@.len(),
                m == other@.len(),
                len == longer(self@.len(), other@.len()),
                subtraction_defined(self@, other@),
                i <= len,
                result@.len() == i,
                forall|j: int|
                    0 <= j < i ==> evaluates(
                        subtracted_at(self@, other@, j),
                        #[trigger] result@[j],
                    ),
            decreases len - i,
        {
            assert(defined(subtracted_at(self@, other@, i as int)));
            let c = if i < n && i < m {
                minus_values(&self.0[i], &other.0[i])
            } else if i < n {
                copy(&self.0[i])
            } else {
                negated(copy(&other.0[i]), Ghost(Formula::Val(other@[i as int])))
            };
            result.push(c);
            i = i + 1;
        }
        Pol(result)
    }
}

/// `a - b` on copies of the two values.
fn minus_values<T: Scalar>(a: &T, b: &T) -> (r: T)
    requires
        defined(diff(Formula::Val(*a), Formula::Val(*b))),
    ensures
        evaluates(diff(Formula::Val(*a), Formula::Val(*b)), r),
{
    crate::arith::minus(copy(a), copy(b), Ghost(Formula::Val(*a)), Ghost(Formula::Val(*b)))
}

impl<T: Scalar> NegSpecImpl for Pol<T> {
    open spec fn obeys_neg_spec() -> bool {
        false
    }

    open spec fn neg_req(self) -> bool {
        negation_defined(self@)
    }

    open spec fn neg_spec(self) -> Pol<T> {
        self
    }
}

impl<T: Scalar> Neg for Pol<T> {
    type Output = Pol<T>;

    /// The polynomial with each coefficient negated.
    fn neg(self) -> (r: Pol<T>)
        ensures
            is_negation(self@, r@),
    {
        let n = self.0.len();
        let mut result: Vec<T> = Vec::new();
        let mut i: usize = 0;
        while i < n
            invariant
                n == self@.len(),
                negation_defined(self@),
                i <= n,
                result@.len() == i,
                forall|j: int| 0 <= j < i ==> evaluates(negated_at(self@, j), #[trigger] result@[j]),
            decreases n - i,
        {
            assert(defined(negated_at(self@, i as int)));
            let c = negated(copy(&self.0[i]), Ghost(Formula::Val(self@[i as int])));
            result.push(c);
            i = i + 1;
        }
        Pol(result)
    }
}

impl<T: Scalar> Pol<T> {
    /// The polynomial with each coefficient multiplied by `factor`.
    pub fn scale(&self, factor: &T) -> (r: Pol<T>)
        requires
            scaling_defined(self@, *factor),
        ensures
            is_scaled(self@, *factor, r@),
    {
        let n = self.0.len();
        let mut result: Vec<T> = Vec::new();
        let mut i: usize = 0;
        while i < n
            invariant
                n == self@.len(),
                scaling_defined(self@, *factor),
                i <= n,
                result@.len() == i,
                forall|j: int|
                    0 <= j < i ==> evaluates(scaled_at(self@, *factor, j), #[trigger] result@[j]),
            decreases n - i,
        {
            assert(defined(scaled_at(self@, *factor, i as int)));
            let c = times(
                copy(&self.0[i]),
                copy(factor),
                Ghost(Formula::Val(self@[i as int])),
                Ghost(Formula::Val(*factor)),
            );
            result.push(c);
            i = i + 1;
        }
        Pol(result)
    }

    /// The product of two polynomials: coefficient `k` is the sum of all
    /// `self[i] * rhs[j]` with `i + j == k`.
    pub fn product(&self, rhs: &Pol<T>) -> (r: Pol<T>)
        requires
            multiplication_defined(self@, rhs@),
        ensures
            is_product(self@, rhs@, r@),
    {
        let n = self.0.len();
        let m = rhs.0.len();
        let len = n + (m - 1);
        let ghost a = self@;
        let ghost b = rhs@;
        let mut result: Vec<T> = Vec::new();
        let mut k: usize = 0;
        while k < len
            invariant
                a == self@,
                b == rhs@,
                n == a.len(),
                m == b.len(),
                n >= 1,
                m >= 1,
                len == n + m - 1,
                multiplication_defined(a, b),
                k <= len,
                result@.len() == k,
                forall|j: int| 0 <= j < k ==> evaluates(multiplied_at(a, b, j), #[trigger] result@[j]),
            decreases len - k,
        {
            let lo = if k < m {
                0
            } else {
                k - m + 1
            };
            let hi = if k < n {
                k
            } else {
                n - 1
            };
            proof {
                assert(defined(multiplied_at(a, b, k as int)));
                lemma_convolved_defined(a, b, k as int, hi as int, lo as int);
            }
            let mut acc = times(
                copy(&self.0[lo]),
                copy(&rhs.0[k - lo]),
                Ghost(Formula::Val(a[lo as int])),
                Ghost(Formula::Val(b[k - lo])),
            );
            let mut i: usize = lo;
            while i < hi
                invariant
                    a == self@,
                    b == rhs@,
                    n == a.len(),
                    m == b.len(),
                    lo == lowest_index(k as int, m as int),
                    hi == highest_index(k as int, n as int),
                    k < n + m - 1,
                    lo <= i <= hi,
                    defined(convolved_upto(a, b, k as int, hi as int)),
                    evaluates(convolved_upto(a, b, k as int, i as int), acc),
                decreases hi - i,
            {
                i = i + 1;
                proof {
                    lemma_convolved_defined(a, b, k as int, hi as int, i as int);
                    assert(defined(prod(Formula::Val(a[i as int]), Formula::Val(b[k - i]))));
                }
                let t = times(
                    copy(&self.0[i]),
                    copy(&rhs.0[k - i]),
                    Ghost(Formula::Val(a[i as int])),
                    Ghost(Formula::Val(b[k - i])),
                );
                acc = plus(
                    acc,
                    t,
                    Ghost(convolved_upto(a, b, k as int, i - 1)),
                    Ghost(prod(Formula::Val(a[i as int]), Formula::Val(b[k - i]))),
                );
            }
            result.push(acc);
            k = k + 1;
        }
        Pol(result)
    }
}

/// Where the sum of the terms up to `upto` is defined, so is the sum of the
/// terms up to any `i` before it.
proof fn lemma_convolved_defined<T: Scalar>(a: Seq<T>, b: Seq<T>, k: int, upto: int, i: int)
    requires
        defined(convolved_upto(a, b, k, upto)),
        lowest_index(k, b.len() as int) <= i <= upto,
    ensures
        defined(convolved_upto(a, b, k, i)),
    decreases upto - i,
{
    if i < upto {
        lemma_convolved_defined(a, b, k, upto - 1, i);
    }
}

impl<T: Scalar> MulSpecImpl for Pol<T> {
    open spec fn obeys_mul_spec() -> bool {
        false
    }

    open spec fn mul_req(self, rhs: Pol<T>) -> bool {
        multiplication_defined(self@, rhs@)
    }

    open spec fn mul_spec(self, rhs: Pol<T>) -> Pol<T> {
        self
    }
}

impl<T: Scalar> Mul for Pol<T> {
    type Output = Pol<T>;

    /// The product of two polynomials.
    fn mul(self, rhs: Pol<T>) -> (r: Pol<T>)
        ensures
            is_product(self@, rhs@, r@),
    {
        self.product(&rhs)
    }
}

impl<'a, T: Scalar> MulSpecImpl<&'a Pol<T>> for &'a Pol<T> {
    open spec fn obeys_mul_spec() -> bool {
        false
    }

    open spec fn mul_req(self, rhs: &'a Pol<T>) -> bool {
        multiplication_defined(self@, rhs@)
    }

    open spec fn mul_spec(self, rhs: &'a Pol<T>) -> Pol<T> {
        *self
    }
}

impl<'a, T: Scalar> Mul<&'a Pol<T>> for &'a Pol<T> {
    type Output = Pol<T>;

    /// The product of two polynomials.
    fn mul(self, rhs: &'a Pol<T>) -> (r: Pol<T>)
        ensures
            is_product(self@, rhs@, r@),
    {
        self.product(rhs)
    }
}

impl<'a, T: Scalar> MulSpecImpl<&'a Pol<T>> for Pol<T> {
    open spec fn obeys_mul_spec() -> bool {
        false
    }

    open spec fn mul_req(self, rhs: &'a Pol<T>) -> bool {
        multiplication_defined(self@, rhs@)
    }

    open spec fn mul_spec(self, rhs: &'a Pol<T>) -> Pol<T> {
        self
    }
}

impl<'a, T: Scalar> Mul<&'a Pol<T>> for Pol<T> {
    type Output = Pol<T>;

    /// The product of two polynomials.
    fn mul(self, rhs: &'a Pol<T>) -> (r: Pol<T>)
        ensures
            is_product(self@, rhs@, r@),
    {
        self.product(rhs)
    }
}

/// Two coefficient sequences are equal by `==` of `T`: as long as one
/// another, with equal coefficients at each place.
pub open spec fn same_coefficients<T: PartialEq>(a: Seq<T>, b: Seq<T>) -> bool {
    &&& a.len() == b.len()
    &&& forall|i: int| 0 <= i < a.len() ==> (#[trigger] a[i]).eq_spec(&b[i])
}

impl<T: PartialEq> PartialEqSpecImpl for Pol<T> {
    open spec fn obeys_eq_spec() -> bool {
        T::obeys_eq_spec()
    }

    open spec fn eq_spec(&self, other: &Pol<T>) -> bool {
        same_coefficients(self@, other@)
    }
}

impl<T: PartialEq> PartialEq for Pol<T> {
    /// Whether the two polynomials have the same number of coefficients and
    /// equal coefficients at each place. Zero coefficients at the high end
    /// count: `1 + 0x` is not equal to `1`.
    fn eq(&self, other: &Pol<T>) -> (r: bool)
        ensures
            r ==> self@.len() == other@.len() && forall|i: int|
                0 <= i < self@.len() ==> differs(#[trigger] self@[i], other@[i], false),
            !r ==> self@.len() != other@.len() || exists|i: int|
                0 <= i < self@.len() && differs(#[trigger] self@[i], other@[i], true),
    {
        if self.0.len() != other.0.len() {
            return false;
        }
        let n = self.0.len();
        let mut i: usize = 0;
        while i < n
            invariant
                n == self@.len(),
                n == other@.len(),
                i <= n,
                T::obeys_eq_spec() ==> forall|j: int|
                    0 <= j < i ==> (#[trigger] self@[j]).eq_spec(&other@[j]),
                forall|j: int| 0 <= j < i ==> differs(#[trigger] self@[j], other@[j], false),
            decreases n - i,
        {
            if self.0[i] != other.0[i] {
                assert(differs(self@[i as int], other@[i as int], true));
                return false;
            }
            i = i + 1;
        }
        true
    }
}

} // verus!
