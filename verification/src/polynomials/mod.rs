//! Dense polynomials in one variable.

use vstd::prelude::*;

pub mod display;
pub mod formulas;
pub mod laws;
pub mod operators;

verus! {

/// Polynomials
///
/// The coefficients are kept in ascending powers: the constant term first.
/// Zero coefficients at the high end are kept as they are.
#[derive(Debug)]
pub struct Pol<T>(Vec<T>);

impl<T> View for Pol<T> {
    type V = Seq<T>;

    closed spec fn view(&self) -> Seq<T> {
        self.0@
    }
}

impl<T> Pol<T> {
    /// A polynomial has at least one coefficient.
    pub open spec fn wf(&self) -> bool {
        self@.len() >= 1
    }

    /// The highest power that has a stored coefficient.
    pub open spec fn degree(&self) -> int {
        self@.len() - 1
    }

    /// The coefficients, the constant term first.
    pub fn coefficients(&self) -> (c: &Vec<T>)
        ensures
            c@ == self@,
    {
        &self.0
    }
}

impl<T: Default> Pol<T> {
    /// Create polynomials form vector
    ///
    /// The vector holds the coefficients in ascending powers. An empty vector
    /// gives the polynomial whose only coefficient is the default value of
    /// `T`.
    pub fn new(input: Vec<T>) -> (p: Pol<T>)
        ensures
            p.wf(),
            input@.len() > 0 ==> p@ == input@,
            input@.len() == 0 ==> p@.len() == 1 && call_ensures(T::default, (), p@[0]),
    {
        if input.len() == 0 {
            let mut only: Vec<T> = Vec::new();
            only.push(T::default());
            return Pol(only);
        }
        Pol(input)
    }
}

impl<T: Default> Default for Pol<T> {
    /// The polynomial whose only coefficient is the default value of `T`.
    fn default() -> (p: Pol<T>)
        ensures
            p@.len() == 1,
            call_ensures(T::default, (), p@[0]),
    {
        Pol::new(Vec::new())
    }
}

impl<T: Clone> Clone for Pol<T> {
    /// A polynomial with a clone of each coefficient.
    fn clone(&self) -> (p: Pol<T>)
        ensures
            p@.len() == self@.len(),
            forall|i: int| 0 <= i < self@.len() ==> cloned(self@[i], #[trigger] p@[i]),
    {
        Pol(self.0.clone())
    }
}

} // verus!
