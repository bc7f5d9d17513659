//! Arithmetic over an arbitrary element type.
//!
//! The matrix and polynomial code is generic: an element may be a machine
//! number, a polynomial, or anything else with `+`, `-`, `*` and unary `-`.
//! Such operators need not be deterministic, and a container type has no
//! useful notion of equality, so results are described by a [`Formula`]: the
//! expression that was computed, over the values it was computed from. A
//! result `r` *evaluates* a formula when it can be obtained by applying the
//! element type's own operators in the arrangement the formula gives.

use vstd::prelude::*;
use core::ops::{Add, Mul, Neg, Sub};
use vstd::std_specs::ops::{AddSpec, MulSpec, NegSpec, SubSpec};

verus! {

/// An element type with the four ring operations, a default value that plays
/// the part of zero, and cloning.
pub trait Scalar: Sized + Clone + Default + Neg<Output = Self> + Add<Output = Self> + Sub<
    Output = Self,
> + Mul<Output = Self> {

}

impl<
    T: Sized + Clone + Default + Neg<Output = T> + Add<Output = T> + Sub<Output = T> + Mul<
        Output = T,
    >,
> Scalar for T {

}

/// `d` is a possible outcome of `a != b`.
pub open spec fn differs<T: PartialEq>(a: T, b: T, d: bool) -> bool {
    call_ensures(<T as PartialEq>::ne, (&a, &b), d)
}

/// `r` is reached from `v` by cloning `steps` times.
pub open spec fn copied_in<T: Clone>(v: T, r: T, steps: nat) -> bool
    decreases steps,
{
    if steps == 0 {
        r == v
    } else {
        exists|m: T| copied_in(v, m, (steps - 1) as nat) && #[trigger] cloned(m, r)
    }
}

/// `r` is `v` itself, a clone of it, a clone of a clone, and so on.
pub open spec fn copy_of<T: Clone>(v: T, r: T) -> bool {
    exists|steps: nat| copied_in(v, r, steps)
}

/// An arithmetic expression over values of `T`.
pub enum Formula<T> {
    /// A copy of the given value.
    Val(T),
    /// The default value of `T`.
    Zero,
    /// The negation of an expression.
    Neg(Box<Formula<T>>),
    /// The sum of two expressions.
    Add(Box<Formula<T>>, Box<Formula<T>>),
    /// The difference of two expressions.
    Sub(Box<Formula<T>>, Box<Formula<T>>),
    /// The product of two expressions.
    Mul(Box<Formula<T>>, Box<Formula<T>>),
}

/// The formula `-a`.
pub open spec fn neg<T>(a: Formula<T>) -> Formula<T> {
    Formula::Neg(Box::new(a))
}

/// The formula `a + b`.
pub open spec fn sum<T>(a: Formula<T>, b: Formula<T>) -> Formula<T> {
    Formula::Add(Box::new(a), Box::new(b))
}

/// The formula `a - b`.
pub open spec fn diff<T>(a: Formula<T>, b: Formula<T>) -> Formula<T> {
    Formula::Sub(Box::new(a), Box::new(b))
}

/// The formula `a * b`.
pub open spec fn prod<T>(a: Formula<T>, b: Formula<T>) -> Formula<T> {
    Formula::Mul(Box::new(a), Box::new(b))
}

/// `r` is a possible outcome of computing `f` with the operators of `T`.
pub open spec fn evaluates<T: Scalar>(f: Formula<T>, r: T) -> bool
    decreases f,
{
    match f {
        Formula::Val(v) => copy_of(v, r),
        Formula::Zero => call_ensures(T::default, (), r),
        Formula::Neg(a) => exists|x: T|
            evaluates(*a, x) && #[trigger] call_ensures(<T as Neg>::neg, (x,), r),
        Formula::Add(a, b) => exists|x: T, y: T|
            evaluates(*a, x) && evaluates(*b, y) && #[trigger] call_ensures(
                <T as Add>::add,
                (x, y),
                r,
            ),
        Formula::Sub(a, b) => exists|x: T, y: T|
            evaluates(*a, x) && evaluates(*b, y) && #[trigger] call_ensures(
                <T as Sub>::sub,
                (x, y),
                r,
            ),
        Formula::Mul(a, b) => exists|x: T, y: T|
            evaluates(*a, x) && evaluates(*b, y) && #[trigger] call_ensures(
                <T as Mul>::mul,
                (x, y),
                r,
            ),
    }
}

/// Every operator application in `f` meets the operator's precondition,
/// whatever the applications before it returned.
pub open spec fn defined<T: Scalar>(f: Formula<T>) -> bool
    decreases f,
{
    match f {
        Formula::Val(_) => true,
        Formula::Zero => true,
        Formula::Neg(a) => defined(*a) && forall|x: T| evaluates(*a, x) ==> #[trigger] x.neg_req(),
        Formula::Add(a, b) => defined(*a) && defined(*b) && forall|x: T, y: T|
            evaluates(*a, x) && evaluates(*b, y) ==> #[trigger] x.add_req(y),
        Formula::Sub(a, b) => defined(*a) && defined(*b) && forall|x: T, y: T|
            evaluates(*a, x) && evaluates(*b, y) ==> #[trigger] x.sub_req(y),
        Formula::Mul(a, b) => defined(*a) && defined(*b) && forall|x: T, y: T|
            evaluates(*a, x) && evaluates(*b, y) ==> #[trigger] x.mul_req(y),
    }
}

/// `f2` has the shape of `f1`, and each value in it is a copy of the value
/// at the same place in `f1`.
pub open spec fn copies<T: Clone>(f1: Formula<T>, f2: Formula<T>) -> bool
    decreases f1,
{
    match f1 {
        Formula::Val(v) => f2 matches Formula::Val(w) && copy_of(v, w),
        Formula::Zero => f2 is Zero,
        Formula::Neg(a) => f2 matches Formula::Neg(c) && copies(*a, *c),
        Formula::Add(a, b) => f2 matches Formula::Add(c, d) && copies(*a, *c) && copies(*b, *d),
        Formula::Sub(a, b) => f2 matches Formula::Sub(c, d) && copies(*a, *c) && copies(*b, *d),
        Formula::Mul(a, b) => f2 matches Formula::Mul(c, d) && copies(*a, *c) && copies(*b, *d),
    }
}

/// Every value is a copy of itself.
pub proof fn lemma_copy_same<T: Clone>(v: T)
    ensures
        copy_of(v, v),
{
    assert(copied_in(v, v, 0));
}

/// A clone of a copy is a copy.
pub proof fn lemma_copy_clone<T: Clone>(v: T, m: T, r: T)
    requires
        copy_of(v, m),
        cloned(m, r),
    ensures
        copy_of(v, r),
{
    let k = choose|k: nat| copied_in(v, m, k);
    assert(copied_in(v, r, k + 1));
}

/// A copy of a copy is a copy.
pub proof fn lemma_copy_chain<T: Clone>(v: T, m: T, r: T)
    requires
        copy_of(v, m),
        copy_of(m, r),
    ensures
        copy_of(v, r),
{
    let k = choose|k: nat| copied_in(m, r, k);
    lemma_copy_chain_in(v, m, r, k);
}

proof fn lemma_copy_chain_in<T: Clone>(v: T, m: T, r: T, k: nat)
    requires
        copy_of(v, m),
        copied_in(m, r, k),
    ensures
        copy_of(v, r),
    decreases k,
{
    if k > 0 {
        let p = choose|p: T| copied_in(m, p, (k - 1) as nat) && #[trigger] cloned(p, r);
        lemma_copy_chain_in(v, m, p, (k - 1) as nat);
        lemma_copy_clone(v, p, r);
    }
}

/// What a formula evaluates to after its values were replaced by copies, it
/// evaluates to as it stands.
pub proof fn lemma_evaluates_copies<T: Scalar>(f1: Formula<T>, f2: Formula<T>, r: T)
    requires
        copies(f1, f2),
        evaluates(f2, r),
    ensures
        evaluates(f1, r),
    decreases f1,
{
    match f1 {
        Formula::Val(v) => {
            let w = f2->Val_0;
            lemma_copy_chain(v, w, r);
        },
        Formula::Zero => {},
        Formula::Neg(a) => {
            let c = f2->Neg_0;
            let x = choose|x: T|
                evaluates(*c, x) && #[trigger] call_ensures(<T as Neg>::neg, (x,), r);
            lemma_evaluates_copies(*a, *c, x);
        },
        Formula::Add(a, b) => {
            let c = f2->Add_0;
            let d = f2->Add_1;
            let (x, y) = choose|x: T, y: T|
                evaluates(*c, x) && evaluates(*d, y) && #[trigger] call_ensures(
                    <T as Add>::add,
                    (x, y),
                    r,
                );
            lemma_evaluates_copies(*a, *c, x);
            lemma_evaluates_copies(*b, *d, y);
        },
        Formula::Sub(a, b) => {
            let c = f2->Sub_0;
            let d = f2->Sub_1;
            let (x, y) = choose|x: T, y: T|
                evaluates(*c, x) && evaluates(*d, y) && #[trigger] call_ensures(
                    <T as Sub>::sub,
                    (x, y),
                    r,
                );
            lemma_evaluates_copies(*a, *c, x);
            lemma_evaluates_copies(*b, *d, y);
        },
        Formula::Mul(a, b) => {
            let c = f2->Mul_0;
            let d = f2->Mul_1;
            let (x, y) = choose|x: T, y: T|
                evaluates(*c, x) && evaluates(*d, y) && #[trigger] call_ensures(
                    <T as Mul>::mul,
                    (x, y),
                    r,
                );
            lemma_evaluates_copies(*a, *c, x);
            lemma_evaluates_copies(*b, *d, y);
        },
    }
}

/// Where a formula is defined, so is the same formula over copied values.
pub proof fn lemma_defined_copies<T: Scalar>(f1: Formula<T>, f2: Formula<T>)
    requires
        copies(f1, f2),
        defined(f1),
    ensures
        defined(f2),
    decreases f1,
{
    match f1 {
        Formula::Val(_) => {},
        Formula::Zero => {},
        Formula::Neg(a) => {
            let c = f2->Neg_0;
            lemma_defined_copies(*a, *c);
            assert forall|x: T| evaluates(*c, x) implies #[trigger] x.neg_req() by {
                lemma_evaluates_copies(*a, *c, x);
            }
        },
        Formula::Add(a, b) => {
            let c = f2->Add_0;
            let d = f2->Add_1;
            lemma_defined_copies(*a, *c);
            lemma_defined_copies(*b, *d);
            assert forall|x: T, y: T| evaluates(*c, x) && evaluates(*d, y) implies #[trigger] x.add_req(
                y,
            ) by {
                lemma_evaluates_copies(*a, *c, x);
                lemma_evaluates_copies(*b, *d, y);
            }
        },
        Formula::Sub(a, b) => {
            let c = f2->Sub_0;
            let d = f2->Sub_1;
            lemma_defined_copies(*a, *c);
            lemma_defined_copies(*b, *d);
            assert forall|x: T, y: T| evaluates(*c, x) && evaluates(*d, y) implies #[trigger] x.sub_req(
                y,
            ) by {
                lemma_evaluates_copies(*a, *c, x);
                lemma_evaluates_copies(*b, *d, y);
            }
        },
        Formula::Mul(a, b) => {
            let c = f2->Mul_0;
            let d = f2->Mul_1;
            lemma_defined_copies(*a, *c);
            lemma_defined_copies(*b, *d);
            assert forall|x: T, y: T| evaluates(*c, x) && evaluates(*d, y) implies #[trigger] x.mul_req(
                y,
            ) by {
                lemma_evaluates_copies(*a, *c, x);
                lemma_evaluates_copies(*b, *d, y);
            }
        },
    }
}

/// The operators of `T` accept every argument.
pub open spec fn total<T: Scalar>() -> bool {
    &&& forall|x: T| #[trigger] x.neg_req()
    &&& forall|x: T, y: T| #[trigger] x.add_req(y)
    &&& forall|x: T, y: T| #[trigger] x.sub_req(y)
    &&& forall|x: T, y: T| #[trigger] x.mul_req(y)
}

/// With total operators every formula is defined.
pub proof fn lemma_total_defined<T: Scalar>(f: Formula<T>)
    requires
        total::<T>(),
    ensures
        defined(f),
    decreases f,
{
    match f {
        Formula::Val(_) => {},
        Formula::Zero => {},
        Formula::Neg(a) => {
            lemma_total_defined(*a);
        },
        Formula::Add(a, b) => {
            lemma_total_defined(*a);
            lemma_total_defined(*b);
        },
        Formula::Sub(a, b) => {
            lemma_total_defined(*a);
            lemma_total_defined(*b);
        },
        Formula::Mul(a, b) => {
            lemma_total_defined(*a);
            lemma_total_defined(*b);
        },
    }
}

/// `T::default()` returns nothing but `z0`.
pub open spec fn sole_default<T: Default>(z0: T) -> bool {
    forall|z: T| #[trigger] call_ensures(T::default, (), z) ==> z == z0
}

/// The value that `T::default()` returns, where it can return only one.
pub open spec fn zero<T: Default>() -> T {
    choose|z0: T| sole_default(z0)
}

/// The operators of `T` are functions of their arguments, the ones that
/// `add_spec`, `sub_spec`, `mul_spec` and `neg_spec` name, a clone equals
/// what it was made from, and the default value is one value. The machine
/// integers are exact in this sense: within their preconditions, which rule
/// overflow out, their operators are those of the integers.
pub open spec fn exact<T: Scalar>() -> bool {
    &&& T::obeys_neg_spec()
    &&& T::obeys_add_spec()
    &&& T::obeys_sub_spec()
    &&& T::obeys_mul_spec()
    &&& forall|a: T, b: T| #[trigger] cloned(a, b) ==> a == b
    &&& sole_default(zero::<T>())
}

/// The arithmetic of `i8` is exact.
pub proof fn lemma_exact_i8()
    ensures
        exact::<i8>(),
{
    assert(sole_default(0i8));
}

/// The arithmetic of `i16` is exact.
pub proof fn lemma_exact_i16()
    ensures
        exact::<i16>(),
{
    assert(sole_default(0i16));
}

/// The arithmetic of `i32` is exact.
pub proof fn lemma_exact_i32()
    ensures
        exact::<i32>(),
{
    assert(sole_default(0i32));
}

/// The arithmetic of `i64` is exact.
pub proof fn lemma_exact_i64()
    ensures
        exact::<i64>(),
{
    assert(sole_default(0i64));
}

/// The arithmetic of `i128` is exact.
pub proof fn lemma_exact_i128()
    ensures
        exact::<i128>(),
{
    assert(sole_default(0i128));
}

/// The arithmetic of `isize` is exact.
pub proof fn lemma_exact_isize()
    ensures
        exact::<isize>(),
{
    assert(sole_default(0isize));
}

/// The value of a formula under exact arithmetic.
pub open spec fn value<T: Scalar>(f: Formula<T>) -> T
    decreases f,
{
    match f {
        Formula::Val(v) => v,
        Formula::Zero => zero::<T>(),
        Formula::Neg(a) => value(*a).neg_spec(),
        Formula::Add(a, b) => value(*a).add_spec(value(*b)),
        Formula::Sub(a, b) => value(*a).sub_spec(value(*b)),
        Formula::Mul(a, b) => value(*a).mul_spec(value(*b)),
    }
}

/// Under exact arithmetic a copy is the value itself.
pub proof fn lemma_exact_copy<T: Scalar>(v: T, r: T)
    requires
        exact::<T>(),
        copy_of(v, r),
    ensures
        r == v,
{
    lemma_faithful_copy(v, r);
}

/// Under exact arithmetic a formula evaluates to its value and to nothing
/// else.
pub proof fn lemma_exact_value<T: Scalar>(f: Formula<T>, r: T)
    requires
        exact::<T>(),
        evaluates(f, r),
    ensures
        r == value(f),
    decreases f,
{
    match f {
        Formula::Val(v) => {
            lemma_exact_copy(v, r);
        },
        Formula::Zero => {},
        Formula::Neg(a) => {
            let x = choose|x: T|
                evaluates(*a, x) && #[trigger] call_ensures(<T as Neg>::neg, (x,), r);
            lemma_exact_value(*a, x);
        },
        Formula::Add(a, b) => {
            let (x, y) = choose|x: T, y: T|
                evaluates(*a, x) && evaluates(*b, y) && #[trigger] call_ensures(
                    <T as Add>::add,
                    (x, y),
                    r,
                );
            lemma_exact_value(*a, x);
            lemma_exact_value(*b, y);
        },
        Formula::Sub(a, b) => {
            let (x, y) = choose|x: T, y: T|
                evaluates(*a, x) && evaluates(*b, y) && #[trigger] call_ensures(
                    <T as Sub>::sub,
                    (x, y),
                    r,
                );
            lemma_exact_value(*a, x);
            lemma_exact_value(*b, y);
        },
        Formula::Mul(a, b) => {
            let (x, y) = choose|x: T, y: T|
                evaluates(*a, x) && evaluates(*b, y) && #[trigger] call_ensures(
                    <T as Mul>::mul,
                    (x, y),
                    r,
                );
            lemma_exact_value(*a, x);
            lemma_exact_value(*b, y);
        },
    }
}

/// `r` is a possible outcome of adding up copies of `terms`, from the first
/// to the last. Nothing is the sum of no terms.
pub open spec fn sums_to<T: Add<Output = T> + Clone>(terms: Seq<T>, r: T) -> bool
    decreases terms.len(),
{
    if terms.len() == 0 {
        false
    } else if terms.len() == 1 {
        copy_of(terms[0], r)
    } else {
        exists|p: T, c: T|
            sums_to(terms.drop_last(), p) && copy_of(terms.last(), c) && #[trigger] call_ensures(
                <T as Add>::add,
                (p, c),
                r,
            )
    }
}

/// Every addition made to add up `terms` meets the precondition of `+`.
pub open spec fn sum_defined<T: Add<Output = T> + Clone>(terms: Seq<T>) -> bool
    decreases terms.len(),
{
    if terms.len() <= 1 {
        true
    } else {
        sum_defined(terms.drop_last()) && forall|p: T, c: T|
            sums_to(terms.drop_last(), p) && copy_of(terms.last(), c) ==> #[trigger] p.add_req(c)
    }
}

/// Where a sum is defined, the sum of its first `k` terms is.
pub proof fn lemma_sum_defined_prefix<T: Add<Output = T> + Clone>(terms: Seq<T>, k: int)
    requires
        sum_defined(terms),
        0 <= k <= terms.len(),
    ensures
        sum_defined(terms.take(k)),
    decreases terms.len(),
{
    if k == terms.len() {
        assert(terms.take(k) =~= terms);
    } else {
        assert(terms.drop_last().take(k) =~= terms.take(k));
        lemma_sum_defined_prefix(terms.drop_last(), k);
    }
}

/// The sum of `terms` under exact addition, from the first to the last.
pub open spec fn total_of<T: Add<Output = T>>(terms: Seq<T>) -> T
    recommends
        terms.len() > 0,
    decreases terms.len(),
{
    if terms.len() <= 1 {
        terms[0]
    } else {
        total_of(terms.drop_last()).add_spec(terms.last())
    }
}

/// Where addition is a function and a clone equals what it was made from,
/// adding up `terms` gives their sum and nothing else.
pub proof fn lemma_exact_sum<T: Add<Output = T> + Clone>(terms: Seq<T>, r: T)
    requires
        T::obeys_add_spec(),
        forall|a: T, b: T| #[trigger] cloned(a, b) ==> a == b,
        sums_to(terms, r),
    ensures
        r == total_of(terms),
    decreases terms.len(),
{
    if terms.len() == 1 {
        lemma_faithful_copy(terms[0], r);
    } else {
        let (p, c) = choose|p: T, c: T|
            sums_to(terms.drop_last(), p) && copy_of(terms.last(), c) && #[trigger] call_ensures(
                <T as Add>::add,
                (p, c),
                r,
            );
        lemma_exact_sum(terms.drop_last(), p);
        lemma_faithful_copy(terms.last(), c);
    }
}

/// Where a clone equals what it was made from, so does a copy.
pub proof fn lemma_faithful_copy<T: Clone>(v: T, r: T)
    requires
        forall|a: T, b: T| #[trigger] cloned(a, b) ==> a == b,
        copy_of(v, r),
    ensures
        r == v,
{
    let k = choose|k: nat| copied_in(v, r, k);
    lemma_faithful_copy_in(v, r, k);
}

proof fn lemma_faithful_copy_in<T: Clone>(v: T, r: T, k: nat)
    requires
        forall|a: T, b: T| #[trigger] cloned(a, b) ==> a == b,
        copied_in(v, r, k),
    ensures
        r == v,
    decreases k,
{
    if k > 0 {
        let m = choose|m: T| copied_in(v, m, (k - 1) as nat) && #[trigger] cloned(m, r);
        lemma_faithful_copy_in(v, m, (k - 1) as nat);
    }
}

/// A clone of `v`.
pub(crate) fn copy<T: Scalar>(v: &T) -> (r: T)
    ensures
        evaluates(Formula::Val(*v), r),
{
    let r = v.clone();
    proof {
        lemma_copy_same(*v);
        lemma_copy_clone(*v, *v, r);
    }
    r
}

/// `-x`, where `x` stands for the formula `a`.
pub(crate) fn negated<T: Scalar>(x: T, Ghost(a): Ghost<Formula<T>>) -> (r: T)
    requires
        evaluates(a, x),
        defined(neg(a)),
    ensures
        evaluates(neg(a), r),
{
    x.neg()
}

/// `x + y`, where `x` and `y` stand for the formulas `a` and `b`.
pub(crate) fn plus<T: Scalar>(x: T, y: T, Ghost(a): Ghost<Formula<T>>, Ghost(b): Ghost<Formula<T>>) -> (r: T)
    requires
        evaluates(a, x),
        evaluates(b, y),
        defined(sum(a, b)),
    ensures
        evaluates(sum(a, b), r),
{
    x + y
}

/// `x - y`, where `x` and `y` stand for the formulas `a` and `b`.
pub(crate) fn minus<T: Scalar>(x: T, y: T, Ghost(a): Ghost<Formula<T>>, Ghost(b): Ghost<Formula<T>>) -> (r: T)
    requires
        evaluates(a, x),
        evaluates(b, y),
        defined(diff(a, b)),
    ensures
        evaluates(diff(a, b), r),
{
    x - y
}

/// `x * y`, where `x` and `y` stand for the formulas `a` and `b`.
pub(crate) fn times<T: Scalar>(x: T, y: T, Ghost(a): Ghost<Formula<T>>, Ghost(b): Ghost<Formula<T>>) -> (r: T)
    requires
        evaluates(a, x),
        evaluates(b, y),
        defined(prod(a, b)),
    ensures
        evaluates(prod(a, b), r),
{
    x * y
}

/// Every operator application in `f` meets the operator's precondition at
/// the values of its operands.
pub open spec fn safe<T: Scalar>(f: Formula<T>) -> bool
    decreases f,
{
    match f {
        Formula::Val(_) => true,
        Formula::Zero => true,
        Formula::Neg(a) => safe(*a) && value(*a).neg_req(),
        Formula::Add(a, b) => safe(*a) && safe(*b) && value(*a).add_req(value(*b)),
        Formula::Sub(a, b) => safe(*a) && safe(*b) && value(*a).sub_req(value(*b)),
        Formula::Mul(a, b) => safe(*a) && safe(*b) && value(*a).mul_req(value(*b)),
    }
}

/// Under exact arithmetic a formula is defined where it is safe at the
/// values of its parts.
pub proof fn lemma_safe_defined<T: Scalar>(f: Formula<T>)
    requires
        exact::<T>(),
        safe(f),
    ensures
        defined(f),
    decreases f,
{
    match f {
        Formula::Val(_) => {},
        Formula::Zero => {},
        Formula::Neg(a) => {
            lemma_safe_defined(*a);
            assert forall|x: T| evaluates(*a, x) implies #[trigger] x.neg_req() by {
                lemma_exact_value(*a, x);
            }
        },
        Formula::Add(a, b) => {
            lemma_safe_defined(*a);
            lemma_safe_defined(*b);
            assert forall|x: T, y: T| evaluates(*a, x) && evaluates(*b, y) implies #[trigger] x.add_req(
                y,
            ) by {
                lemma_exact_value(*a, x);
                lemma_exact_value(*b, y);
            }
        },
        Formula::Sub(a, b) => {
            lemma_safe_defined(*a);
            lemma_safe_defined(*b);
            assert forall|x: T, y: T| evaluates(*a, x) && evaluates(*b, y) implies #[trigger] x.sub_req(
                y,
            ) by {
                lemma_exact_value(*a, x);
                lemma_exact_value(*b, y);
            }
        },
        Formula::Mul(a, b) => {
            lemma_safe_defined(*a);
            lemma_safe_defined(*b);
            assert forall|x: T, y: T| evaluates(*a, x) && evaluates(*b, y) implies #[trigger] x.mul_req(
                y,
            ) by {
                lemma_exact_value(*a, x);
                lemma_exact_value(*b, y);
            }
        },
    }
}

/// Every addition made to add up `terms` meets the precondition of `+` at
/// the values added.
pub open spec fn sum_safe<T: Add<Output = T>>(terms: Seq<T>) -> bool
    decreases terms.len(),
{
    if terms.len() <= 1 {
        true
    } else {
        sum_safe(terms.drop_last()) && total_of(terms.drop_last()).add_req(terms.last())
    }
}

/// Where addition is a function and a clone equals what it was made from, a
/// sum is defined where it is safe at the values added.
pub proof fn lemma_sum_safe_defined<T: Add<Output = T> + Clone>(terms: Seq<T>)
    requires
        T::obeys_add_spec(),
        forall|a: T, b: T| #[trigger] cloned(a, b) ==> a == b,
        sum_safe(terms),
    ensures
        sum_defined(terms),
    decreases terms.len(),
{
    if terms.len() > 1 {
        lemma_sum_safe_defined(terms.drop_last());
        assert forall|p: T, c: T|
            sums_to(terms.drop_last(), p) && copy_of(terms.last(), c) implies #[trigger] p.add_req(
            c,
        ) by {
            lemma_exact_sum(terms.drop_last(), p);
            lemma_faithful_copy(terms.last(), c);
        }
    }
}

} // verus!
