//! Polynomials as text: a sum of terms such as `+ 3x^2 - x + 1 `.

use vstd::prelude::*;
use vstd::string::*;
use core::fmt::Display;
use core::ops::Neg;
use vstd::std_specs::ops::NegSpec;
use crate::polynomials::Pol;
use crate::text::{decimal, decimal_text};

verus! {

/// What is printed for one coefficient.
pub enum Shown {
    /// A zero coefficient: nothing is printed.
    Skipped,
    /// A coefficient other than zero.
    Term {
        /// Whether the sign printed is `-`.
        negative: bool,
        /// Whether the absolute value is exactly 1.
        unit: bool,
        /// The absolute value as text.
        magnitude: String,
    },
}

/// The text of one term: the sign and a space, the absolute value unless it
/// is 1 and a power of the variable follows, `x` from the first power on,
/// `^` and the exponent from the second power on, and a space.
pub open spec fn term(negative: bool, unit: bool, magnitude: Seq<char>, power: nat) -> Seq<char> {
    let sign = if negative {
        seq!['-', ' ']
    } else {
        seq!['+', ' ']
    };
    let size = if unit && power != 0 {
        Seq::<char>::empty()
    } else {
        magnitude
    };
    let variable = if power != 0 {
        seq!['x']
    } else {
        Seq::<char>::empty()
    };
    let exponent = if power >= 2 {
        seq!['^'] + decimal(power)
    } else {
        Seq::<char>::empty()
    };
    sign + size + variable + exponent + seq![' ']
}

/// The text shown for the coefficient of `power`.
pub open spec fn shown(t: Shown, power: nat) -> Seq<char> {
    match t {
        Shown::Skipped => Seq::<char>::empty(),
        Shown::Term { negative, unit, magnitude } => term(negative, unit, magnitude@, power),
    }
}

/// The texts of the terms of the powers below `count`, in ascending powers.
pub open spec fn terms_upto(terms: Seq<Shown>, count: nat) -> Seq<char>
    decreases count,
{
    if count == 0 {
        Seq::<char>::empty()
    } else {
        terms_upto(terms, (count - 1) as nat) + shown(terms[count - 1], (count - 1) as nat)
    }
}

/// The text of one term.
pub fn term_text(negative: bool, unit: bool, magnitude: &str, power: usize) -> (s: String)
    ensures
        s@ == term(negative, unit, magnitude@, power as nat),
{
    proof {
        reveal_strlit("- ");
        reveal_strlit("+ ");
        reveal_strlit("x");
        reveal_strlit("^");
        reveal_strlit(" ");
    }
    let mut s = if negative {
        String::from_str("- ")
    } else {
        String::from_str("+ ")
    };
    if !(unit && power != 0) {
        s.append(magnitude);
    }
    if power != 0 {
        s.append("x");
    }
    if power >= 2 {
        s.append("^");
        let exponent = decimal_text(power);
        s.append(exponent.as_str());
    }
    s.append(" ");
    assert(s@ =~= term(negative, unit, magnitude@, power as nat));
    s
}

/// The text of a polynomial whose coefficients are shown as `terms`, the
/// constant term first. Zero coefficients leave no trace; a polynomial of
/// zeros alone gives the empty text.
pub fn terms_text(terms: &Vec<Shown>) -> (s: String)
    ensures
        s@ == terms_upto(terms@, terms@.len()),
{
    let mut result = String::new();
    let mut i: usize = 0;
    while i < terms.len()
        invariant
            i <= terms@.len(),
            result@ == terms_upto(terms@, i as nat),
        decreases terms@.len() - i,
    {
        match &terms[i] {
            Shown::Skipped => {},
            Shown::Term { negative, unit, magnitude } => {
                let t = term_text(*negative, *unit, magnitude.as_str(), i);
                result.append(t.as_str());
            },
        }
        i = i + 1;
    }
    result
}

/// Each clone of `c` can be negated.
pub open spec fn negatable<T: Clone + Neg<Output = T>>(c: T) -> bool {
    forall|copy: T| cloned(c, copy) ==> #[trigger] copy.neg_req()
}

/// `text` is what `Display` gives for the absolute value of `c`: for `c`
/// itself where `positive`, for `-c` otherwise.
pub open spec fn shows_magnitude<T: Clone + Neg<Output = T> + Display>(
    c: T,
    positive: bool,
    text: String,
) -> bool {
    exists|copy: T, m: T|
        #![trigger cloned(c, copy), to_string_from_display_ensures::<T>(&m, text)]
        cloned(c, copy) && (if positive {
            m == copy
        } else {
            call_ensures(<T as Neg>::neg, (copy,), m)
        }) && to_string_from_display_ensures::<T>(&m, text)
}

/// `unit` tells whether `c` compares equal to 1 or to -1, each made from the
/// integer by `From`.
pub open spec fn tells_unit<T: PartialEq + From<i8>>(c: T, unit: bool) -> bool {
    exists|one: T, differs: bool|
        call_ensures(<T as From<i8>>::from, (1i8,), one) && #[trigger] call_ensures(
            <T as PartialEq>::ne,
            (&c, &one),
            differs,
        ) && if differs {
            exists|minus_one: T, differs_again: bool|
                call_ensures(<T as From<i8>>::from, (-1i8,), minus_one) && #[trigger] call_ensures(
                    <T as PartialEq>::ne,
                    (&c, &minus_one),
                    differs_again,
                ) && unit == !differs_again
        } else {
            unit
        }
}

/// `t` is what is shown for the coefficient `c`, as the comparisons of `T`
/// with its default value, with 1 and with -1 tell it: nothing where `c`
/// compares equal to the default value; else the sign `+` where `c` compares
/// greater than the default value and `-` where not, and the absolute value.
pub open spec fn describes<
    T: Clone + Default + PartialEq + PartialOrd + Neg<Output = T> + From<i8> + Display,
>(c: T, t: Shown) -> bool {
    exists|zero: T, nonzero: bool|
        call_ensures(T::default, (), zero) && #[trigger] call_ensures(
            <T as PartialEq>::ne,
            (&c, &zero),
            nonzero,
        ) && if nonzero {
            &&& t matches Shown::Term { negative, unit, magnitude }
            &&& call_ensures(<T as PartialOrd>::gt, (&c, &zero), !negative)
            &&& tells_unit(c, unit)
            &&& shows_magnitude(c, !negative, magnitude)
        } else {
            t is Skipped
        }
}

impl<
    T: Clone + Default + PartialEq + PartialOrd + Neg<Output = T> + From<i8> + Display,
> Pol<T> {
    /// What is shown for the coefficient `c`.
    pub fn describe(c: &T) -> (t: Shown)
        requires
            negatable(*c),
        ensures
            describes(*c, t),
    {
        let zero = T::default();
        if *c != zero {
            let positive = *c > zero;
            let one = T::from(1i8);
            let unit = if *c != one {
                let minus_one = T::from(-1i8);
                !(*c != minus_one)
            } else {
                true
            };
            let copy = c.clone();
            let ghost before = copy;
            let m = if positive {
                copy
            } else {
                copy.neg()
            };
            let magnitude = m.to_string();
            proof {
                assert(to_string_from_display_ensures::<T>(&m, magnitude));
                assert(cloned(*c, before));
                assert(shows_magnitude(*c, positive, magnitude));
                assert(tells_unit(*c, unit));
            }
            Shown::Term { negative: !positive, unit, magnitude }
        } else {
            Shown::Skipped
        }
    }

    /// The polynomial as text: each coefficient as [`Pol::describe`] shows
    /// it, laid out by [`terms_text`].
    pub fn to_text(&self) -> (s: String)
        requires
            forall|i: int| 0 <= i < self@.len() ==> negatable(#[trigger] self@[i]),
        ensures
            exists|terms: Seq<Shown>| #[trigger]
                described(self@, terms) && s@ == terms_upto(terms, terms.len()),
    {
        let coefficients = self.coefficients();
        let mut terms: Vec<Shown> = Vec::new();
        let mut i: usize = 0;
        while i < coefficients.len()
            invariant
                coefficients@ == self@,
                i <= coefficients@.len(),
                forall|j: int| 0 <= j < self@.len() ==> negatable(#[trigger] self@[j]),
                described(self@.take(i as int), terms@),
            decreases coefficients@.len() - i,
        {
            let t = Self::describe(&coefficients[i]);
            terms.push(t);
            i = i + 1;
        }
        assert(self@.take(i as int) =~= self@);
        let s = terms_text(&terms);
        assert(described(self@, terms@));
        s
    }
}

/// `terms` holds, place by place, what is shown for `coefficients`.
pub open spec fn described<
    T: Clone + Default + PartialEq + PartialOrd + Neg<Output = T> + From<i8> + Display,
>(coefficients: Seq<T>, terms: Seq<Shown>) -> bool {
    &&& terms.len() == coefficients.len()
    &&& forall|i: int| 0 <= i < coefficients.len() ==> describes(coefficients[i], #[trigger] terms[i])
}

} // verus!
