//! Constructors. Adding to a sum appends to it and multiplying a product appends
//! to it; negation unwraps a negation; division multiplies by the reciprocal.
use vstd::prelude::*;
use crate::expr::{Expr, Term, views, lemma_views_push};

verus! {

/// `a + b`: appended to `a` when `a` is a sum.
pub open spec fn term_add(a: Term, b: Term) -> Term {
    match a {
        Term::Sum(s) => Term::Sum(s.push(b)),
        _ => Term::Sum(seq![a, b]),
    }
}

/// `a * b`: appended to `a` when `a` is a product.
pub open spec fn term_mul(a: Term, b: Term) -> Term {
    match a {
        Term::Prod(s) => Term::Prod(s.push(b)),
        _ => Term::Prod(seq![a, b]),
    }
}

/// `-a`: a negation is unwrapped.
pub open spec fn term_neg(a: Term) -> Term {
    match a {
        Term::Neg(x) => *x,
        _ => Term::Neg(Box::new(a)),
    }
}

/// `a - b`, the sum with the negation.
pub open spec fn term_sub(a: Term, b: Term) -> Term {
    term_add(a, term_neg(b))
}

/// `1 / a`: the exponent of a power is negated, anything else is raised to -1.
pub open spec fn term_recip(a: Term) -> Term {
    match a {
        Term::Pow(x, y) => Term::Pow(x, Box::new(term_neg(*y))),
        _ => Term::Pow(Box::new(a), Box::new(Term::Const(-1))),
    }
}

/// `a / b`, the product with the reciprocal.
pub open spec fn term_div(a: Term, b: Term) -> Term {
    term_mul(a, term_recip(b))
}

pub open spec fn term_pow(a: Term, b: Term) -> Term {
    Term::Pow(Box::new(a), Box::new(b))
}

impl Expr {
    /// The sum of the two, appended to `self` when it is already a sum.
    pub fn plus(self, rhs: Expr) -> (r: Expr)
        ensures
            r@ == term_add(self@, rhs@),
    {
        match self {
            Expr::Sum(mut v) => {
                proof {
                    lemma_views_push(v@, rhs);
                }
                v.push(rhs);
                Expr::Sum(v)
            },
            _ => {
                let ghost a = self;
                let v = vec![self, rhs];
                proof {
                    lemma_views_push(seq![a], rhs);
                    lemma_views_push(Seq::empty(), a);
                    assert(seq![a].push(rhs) =~= v@);
                    assert(Seq::<Expr>::empty().push(a) =~= seq![a]);
                    assert(views(v@) =~= seq![a@, rhs@]);
                    assert(!(a@ is Sum));
                }
                Expr::Sum(v)
            },
        }
    }

    /// The product of the two, appended to `self` when it is already a product.
    pub fn times(self, rhs: Expr) -> (r: Expr)
        ensures
            r@ == term_mul(self@, rhs@),
    {
        match self {
            Expr::Prod(mut v) => {
                proof {
                    lemma_views_push(v@, rhs);
                }
                v.push(rhs);
                Expr::Prod(v)
            },
            _ => {
                let ghost a = self;
                let v = vec![self, rhs];
                proof {
                    lemma_views_push(seq![a], rhs);
                    lemma_views_push(Seq::empty(), a);
                    assert(seq![a].push(rhs) =~= v@);
                    assert(Seq::<Expr>::empty().push(a) =~= seq![a]);
                    assert(views(v@) =~= seq![a@, rhs@]);
                    assert(!(a@ is Prod));
                }
                Expr::Prod(v)
            },
        }
    }

    /// The negation; the negation of a negation is its operand.
    pub fn negate(self) -> (r: Expr)
        ensures
            r@ == term_neg(self@),
    {
        match self {
            Expr::Neg(e) => *e,
            _ => Expr::Neg(Box::new(self)),
        }
    }

    /// The difference, as the sum with the negation.
    pub fn minus(self, rhs: Expr) -> (r: Expr)
        ensures
            r@ == term_sub(self@, rhs@),
    {
        self.plus(rhs.negate())
    }

    /// The quotient, as the product with the reciprocal.
    pub fn divided_by(self, rhs: Expr) -> (r: Expr)
        ensures
            r@ == term_div(self@, rhs@),
    {
        self.times(rhs.recip())
    }

    /// The reciprocal: a power gets the negated exponent, anything else is
    /// raised to -1.
    pub fn recip(self) -> (r: Expr)
        ensures
            r@ == term_recip(self@),
    {
        match self {
            Expr::Pow(a, b) => {
                Expr::Pow(a, Box::new(b.negate()))
            },
            _ => {
                assert(!(self@ is Pow));
                let m = Expr::Const(-1);
                assert(m@ == Term::Const(-1));
                Expr::Pow(Box::new(self), Box::new(m))
            },
        }
    }

    /// `self` raised to the power `b`.
    pub fn pow(self, b: Expr) -> (r: Expr)
        ensures
            r@ == term_pow(self@, b@),
    {
        Expr::Pow(Box::new(self), Box::new(b))
    }

    /// The natural logarithm.
    pub fn ln(self) -> (r: Expr)
        ensures
            r@ == Term::Ln(Box::new(self@)),
    {
        Expr::Ln(Box::new(self))
    }

    /// The sine.
    pub fn sin(self) -> (r: Expr)
        ensures
            r@ == Term::Sin(Box::new(self@)),
    {
        Expr::Sin(Box::new(self))
    }

    /// The cosine.
    pub fn cos(self) -> (r: Expr)
        ensures
            r@ == Term::Cos(Box::new(self@)),
    {
        Expr::Cos(Box::new(self))
    }
}

impl core::ops::Add for Expr {
    type Output = Expr;

    fn add(self, rhs: Expr) -> (r: Expr)
        ensures
            r@ == term_add(self@, rhs@),
    {
        self.plus(rhs)
    }
}

// What each operator builds is stated on the operator itself; no model of the
// result is offered through std's traits, which would need an `Expr` in spec code.
impl vstd::std_specs::ops::AddSpecImpl for Expr {
    open spec fn obeys_add_spec() -> bool {
        false
    }

    open spec fn add_req(self, rhs: Expr) -> bool {
        true
    }

    open spec fn add_spec(self, rhs: Expr) -> Expr {
        arbitrary()
    }
}

impl core::ops::Mul for Expr {
    type Output = Expr;

    fn mul(self, rhs: Expr) -> (r: Expr)
        ensures
            r@ == term_mul(self@, rhs@),
    {
        self.times(rhs)
    }
}

impl vstd::std_specs::ops::MulSpecImpl for Expr {
    open spec fn obeys_mul_spec() -> bool {
        false
    }

    open spec fn mul_req(self, rhs: Expr) -> bool {
        true
    }

    open spec fn mul_spec(self, rhs: Expr) -> Expr {
        arbitrary()
    }
}

impl core::ops::Neg for Expr {
    type Output = Expr;

    fn neg(self) -> (r: Expr)
        ensures
            r@ == term_neg(self@),
    {
        self.negate()
    }
}

impl vstd::std_specs::ops::NegSpecImpl for Expr {
    open spec fn obeys_neg_spec() -> bool {
        false
    }

    open spec fn neg_req(self) -> bool {
        true
    }

    open spec fn neg_spec(self) -> Expr {
        arbitrary()
    }
}

impl core::ops::Sub for Expr {
    type Output = Expr;

    fn sub(self, rhs: Expr) -> (r: Expr)
        ensures
            r@ == term_sub(self@, rhs@),
    {
        self.minus(rhs)
    }
}

impl vstd::std_specs::ops::SubSpecImpl for Expr {
    open spec fn obeys_sub_spec() -> bool {
        false
    }

    open spec fn sub_req(self, rhs: Expr) -> bool {
        true
    }

    open spec fn sub_spec(self, rhs: Expr) -> Expr {
        arbitrary()
    }
}

impl core::ops::Div for Expr {
    type Output = Expr;

    fn div(self, rhs: Expr) -> (r: Expr)
        ensures
            r@ == term_div(self@, rhs@),
    {
        self.divided_by(rhs)
    }
}

impl vstd::std_specs::ops::DivSpecImpl for Expr {
    open spec fn obeys_div_spec() -> bool {
        false
    }

    open spec fn div_req(self, rhs: Expr) -> bool {
        true
    }

    open spec fn div_spec(self, rhs: Expr) -> Expr {
        arbitrary()
    }
}

impl core::ops::AddAssign for Expr {
    fn add_assign(&mut self, rhs: Expr)
        ensures
            final(self)@ == term_add(old(self)@, rhs@),
    {
        *self = self.copy().plus(rhs);
    }
}

impl core::ops::MulAssign for Expr {
    fn mul_assign(&mut self, rhs: Expr)
        ensures
            final(self)@ == term_mul(old(self)@, rhs@),
    {
        *self = self.copy().times(rhs);
    }
}

impl core::ops::SubAssign for Expr {
    fn sub_assign(&mut self, rhs: Expr)
        ensures
            final(self)@ == term_sub(old(self)@, rhs@),
    {
        *self = self.copy().minus(rhs);
    }
}

impl core::ops::DivAssign for Expr {
    fn div_assign(&mut self, rhs: Expr)
        ensures
            final(self)@ == term_div(old(self)@, rhs@),
    {
        *self = self.copy().divided_by(rhs);
    }
}

impl core::ops::Add<isize> for Expr {
    type Output = Expr;

    fn add(self, rhs: isize) -> (r: Expr)
        ensures
            r@ == term_add(self@, Term::Const(rhs as int)),
    {
        self.plus(Expr::Const(rhs))
    }
}

impl vstd::std_specs::ops::AddSpecImpl<isize> for Expr {
    open spec fn obeys_add_spec() -> bool {
        false
    }

    open spec fn add_req(self, rhs: isize) -> bool {
        true
    }

    open spec fn add_spec(self, rhs: isize) -> Expr {
        arbitrary()
    }
}

impl core::ops::Mul<isize> for Expr {
    type Output = Expr;

    fn mul(self, rhs: isize) -> (r: Expr)
        ensures
            r@ == term_mul(self@, Term::Const(rhs as int)),
    {
        self.times(Expr::Const(rhs))
    }
}

impl vstd::std_specs::ops::MulSpecImpl<isize> for Expr {
    open spec fn obeys_mul_spec() -> bool {
        false
    }

    open spec fn mul_req(self, rhs: isize) -> bool {
        true
    }

    open spec fn mul_spec(self, rhs: isize) -> Expr {
        arbitrary()
    }
}

impl core::ops::Sub<isize> for Expr {
    type Output = Expr;

    fn sub(self, rhs: isize) -> (r: Expr)
        ensures
            r@ == term_sub(self@, Term::Const(rhs as int)),
    {
        self.minus(Expr::Const(rhs))
    }
}

impl vstd::std_specs::ops::SubSpecImpl<isize> for Expr {
    open spec fn obeys_sub_spec() -> bool {
        false
    }

    open spec fn sub_req(self, rhs: isize) -> bool {
        true
    }

    open spec fn sub_spec(self, rhs: isize) -> Expr {
        arbitrary()
    }
}

impl core::ops::Div<isize> for Expr {
    type Output = Expr;

    fn div(self, rhs: isize) -> (r: Expr)
        ensures
            r@ == term_div(self@, Term::Const(rhs as int)),
    {
        self.divided_by(Expr::Const(rhs))
    }
}

impl vstd::std_specs::ops::DivSpecImpl<isize> for Expr {
    open spec fn obeys_div_spec() -> bool {
        false
    }

    open spec fn div_req(self, rhs: isize) -> bool {
        true
    }

    open spec fn div_spec(self, rhs: isize) -> Expr {
        arbitrary()
    }
}

impl core::ops::AddAssign<isize> for Expr {
    fn add_assign(&mut self, rhs: isize)
        ensures
            final(self)@ == term_add(old(self)@, Term::Const(rhs as int)),
    {
        *self = self.copy().plus(Expr::Const(rhs));
    }
}

impl core::ops::MulAssign<isize> for Expr {
    fn mul_assign(&mut self, rhs: isize)
        ensures
            final(self)@ == term_mul(old(self)@, Term::Const(rhs as int)),
    {
        *self = self.copy().times(Expr::Const(rhs));
    }
}

impl core::ops::SubAssign<isize> for Expr {
    fn sub_assign(&mut self, rhs: isize)
        ensures
            final(self)@ == term_sub(old(self)@, Term::Const(rhs as int)),
    {
        *self = self.copy().minus(Expr::Const(rhs));
    }
}

impl core::ops::DivAssign<isize> for Expr {
    fn div_assign(&mut self, rhs: isize)
        ensures
            final(self)@ == term_div(old(self)@, Term::Const(rhs as int)),
    {
        *self = self.copy().divided_by(Expr::Const(rhs));
    }
}

impl core::ops::Add<Expr> for isize {
    type Output = Expr;

    fn add(self, rhs: Expr) -> (r: Expr)
        ensures
            r@ == term_add(Term::Const(self as int), rhs@),
    {
        Expr::Const(self).plus(rhs)
    }
}

impl vstd::std_specs::ops::AddSpecImpl<Expr> for isize {
    open spec fn obeys_add_spec() -> bool {
        false
    }

    open spec fn add_req(self, rhs: Expr) -> bool {
        true
    }

    open spec fn add_spec(self, rhs: Expr) -> Expr {
        arbitrary()
    }
}

impl core::ops::Mul<Expr> for isize {
    type Output = Expr;

    fn mul(self, rhs: Expr) -> (r: Expr)
        ensures
            r@ == term_mul(Term::Const(self as int), rhs@),
    {
        Expr::Const(self).times(rhs)
    }
}

impl vstd::std_specs::ops::MulSpecImpl<Expr> for isize {
    open spec fn obeys_mul_spec() -> bool {
        false
    }

    open spec fn mul_req(self, rhs: Expr) -> bool {
        true
    }

    open spec fn mul_spec(self, rhs: Expr) -> Expr {
        arbitrary()
    }
}

impl core::ops::Sub<Expr> for isize {
    type Output = Expr;

    fn sub(self, rhs: Expr) -> (r: Expr)
        ensures
            r@ == term_sub(Term::Const(self as int), rhs@),
    {
        Expr::Const(self).minus(rhs)
    }
}

impl vstd::std_specs::ops::SubSpecImpl<Expr> for isize {
    open spec fn obeys_sub_spec() -> bool {
        false
    }

    open spec fn sub_req(self, rhs: Expr) -> bool {
        true
    }

    open spec fn sub_spec(self, rhs: Expr) -> Expr {
        arbitrary()
    }
}

impl core::ops::Div<Expr> for isize {
    type Output = Expr;

    fn div(self, rhs: Expr) -> (r: Expr)
        ensures
            r@ == term_div(Term::Const(self as int), rhs@),
    {
        Expr::Const(self).divided_by(rhs)
    }
}

impl vstd::std_specs::ops::DivSpecImpl<Expr> for isize {
    open spec fn obeys_div_spec() -> bool {
        false
    }

    open spec fn div_req(self, rhs: Expr) -> bool {
        true
    }

    open spec fn div_spec(self, rhs: Expr) -> Expr {
        arbitrary()
    }
}

} // verus!
