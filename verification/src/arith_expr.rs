use vstd::prelude::*;
use crate::field::Field;

verus! {

/// An arithmetic expression over numbered variables.
pub enum ArithExpr<F> {
    Const(F),
    Var(usize),
    Add(Box<ArithExpr<F>>, Box<ArithExpr<F>>),
    Sub(Box<ArithExpr<F>>, Box<ArithExpr<F>>),
    Mul(Box<ArithExpr<F>>, Box<ArithExpr<F>>),
}

impl<F: Field> ArithExpr<F> {
    /// The value of the expression where the variables have the values
    /// `vars`.
    pub open spec fn value(self, vars: Seq<F>) -> F
        decreases self,
    {
        match self {
            ArithExpr::Const(c) => c,
            ArithExpr::Var(i) => vars[i as int],
            ArithExpr::Add(a, b) => a.value(vars).add_spec(b.value(vars)),
            ArithExpr::Sub(a, b) => a.value(vars).sub_spec(b.value(vars)),
            ArithExpr::Mul(a, b) => a.value(vars).mul_spec(b.value(vars)),
        }
    }

    /// Whether the expression names none but the first `n` variables.
    pub open spec fn within(self, n: nat) -> bool
        decreases self,
    {
        match self {
            ArithExpr::Const(c) => true,
            ArithExpr::Var(i) => i < n,
            ArithExpr::Add(a, b) => a.within(n) && b.within(n),
            ArithExpr::Sub(a, b) => a.within(n) && b.within(n),
            ArithExpr::Mul(a, b) => a.within(n) && b.within(n),
        }
    }

    /// Evaluates the expression on the values of its variables.
    pub fn evaluate(&self, vars: &Vec<F>) -> (r: F)
        requires
            self.within(vars@.len()),
        ensures
            r == self.value(vars@),
        decreases self,
    {
        match self {
            ArithExpr::Const(c) => *c,
            ArithExpr::Var(i) => vars[*i],
            ArithExpr::Add(a, b) => a.evaluate(vars).add(b.evaluate(vars)),
            ArithExpr::Sub(a, b) => a.evaluate(vars).sub(b.evaluate(vars)),
            ArithExpr::Mul(a, b) => a.evaluate(vars).mul(b.evaluate(vars)),
        }
    }

    /// The variable with the given number.
    pub fn var(i: usize) -> (e: Self)
        ensures
            e == ArithExpr::<F>::Var(i),
    {
        ArithExpr::Var(i)
    }

    /// The sum of two expressions.
    pub fn plus(self, rhs: Self) -> (e: Self)
        ensures
            e == ArithExpr::Add(Box::new(self), Box::new(rhs)),
    {
        ArithExpr::Add(Box::new(self), Box::new(rhs))
    }

    /// The difference of two expressions.
    pub fn minus(self, rhs: Self) -> (e: Self)
        ensures
            e == ArithExpr::Sub(Box::new(self), Box::new(rhs)),
    {
        ArithExpr::Sub(Box::new(self), Box::new(rhs))
    }

    /// The product of two expressions.
    pub fn times(self, rhs: Self) -> (e: Self)
        ensures
            e == ArithExpr::Mul(Box::new(self), Box::new(rhs)),
    {
        ArithExpr::Mul(Box::new(self), Box::new(rhs))
    }
}

} // verus!
