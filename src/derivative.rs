//! Symbolic differentiation with respect to the free variable. The result is
//! built by the constructors and is not simplified.
use vstd::prelude::*;
use crate::construct::{term_add, term_mul, term_neg, term_sub, term_div, term_recip, term_pow};
use crate::expr::{Expr, Term, views, lemma_views, lemma_views_push, lemma_prefix};

verus! {

/// `(1 - x^2)^(-1/2)`, the factor that the inverse sine contributes.
pub open spec fn inv_sqrt_one_minus_square(x: Term) -> Term {
    term_recip(
        term_pow(
            term_sub(Term::Const(1), term_pow(x, Term::Const(2))),
            term_div(Term::Const(1), Term::Const(2)),
        ),
    )
}

/// The derivative of an expression.
pub open spec fn deriv(t: Term) -> Term
    decreases t,
{
    match t {
        Term::Const(_) => Term::Const(0),
        Term::X => Term::Const(1),
        Term::Sum(s) => Term::Sum(deriv_all(s)),
        Term::Prod(s) => deriv_prod(s),
        Term::Neg(a) => Term::Neg(Box::new(deriv(*a))),
        Term::Pow(a, b) => match *b {
            Term::Const(c) => if c == 0 {
                Term::Const(0)
            } else if c == 1 {
                deriv(*a)
            } else {
                term_mul(
                    term_mul(Term::Const(c), term_pow(*a, term_sub(Term::Const(c), Term::Const(1)))),
                    deriv(*a),
                )
            },
            _ => term_mul(
                term_pow(*a, *b),
                term_add(
                    term_mul(Term::Ln(a), deriv(*b)),
                    term_mul(
                        Term::Prod(seq![*b]),
                        term_mul(deriv(*a), term_pow(*a, Term::Const(-1))),
                    ),
                ),
            ),
        },
        Term::Ln(a) => term_mul(deriv(*a), term_pow(*a, Term::Const(-1))),
        Term::Sin(a) => term_mul(deriv(*a), Term::Cos(a)),
        Term::Cos(a) => term_mul(deriv(*a), term_neg(Term::Sin(a))),
        Term::Arcsin(a) => term_mul(deriv(*a), inv_sqrt_one_minus_square(*a)),
        Term::Arccos(a) => term_neg(term_mul(deriv(*a), inv_sqrt_one_minus_square(*a))),
        Term::Arctan(a) => term_mul(
            deriv(*a),
            term_recip(term_add(Term::Const(1), term_pow(*a, Term::Const(2)))),
        ),
    }
}

/// The derivative of each element.
pub open spec fn deriv_all(s: Seq<Term>) -> Seq<Term>
    decreases s,
{
    if s.len() == 0 {
        s
    } else {
        deriv_all(s.subrange(0, s.len() - 1)).push(deriv(s[s.len() - 1]))
    }
}

/// The derivative of the product of `s`, by the product rule on the head and the
/// product of the tail: `a * (tail)' + tail * a'`. A single factor is
/// differentiated on its own; the empty product has derivative 0.
pub open spec fn deriv_prod(s: Seq<Term>) -> Term
    decreases s,
{
    if s.len() == 0 {
        Term::Const(0)
    } else if s.len() == 1 {
        deriv(s[0])
    } else {
        let tail = s.subrange(1, s.len() as int);
        term_add(term_mul(s[0], deriv_prod(tail)), term_mul(Term::Prod(tail), deriv(s[0])))
    }
}

fn constant(c: isize) -> (r: Expr)
    ensures
        r@ == Term::Const(c as int),
{
    Expr::Const(c)
}

fn inv_sqrt_one_minus_square_exec(x: Expr) -> (r: Expr)
    ensures
        r@ == inv_sqrt_one_minus_square(x@),
{
    constant(1).minus(x.pow(constant(2))).pow(constant(1).divided_by(constant(2))).recip()
}

/// The derivative of each element.
fn deriv_vec(v: &Vec<Expr>) -> (r: Vec<Expr>)
    ensures
        views(r@) == deriv_all(views(v@)),
    decreases v,
{
    proof {
        lemma_views(v@);
    }
    let ghost s = views(v@);
    let mut r: Vec<Expr> = Vec::new();
    let mut i: usize = 0;
    while i < v.len()
        invariant
            i <= v.len(),
            s == views(v@),
            s.len() == v.len(),
            forall|j: int| 0 <= j < v.len() ==> #[trigger] s[j] == v@[j]@,
            deriv_all(s.subrange(0, i as int)) == views(r@),
        decreases v.len() - i,
    {
        proof {
            lemma_prefix(s, i as int);
        }
        let d = v[i].derivative();
        proof {
            lemma_views_push(r@, d);
        }
        r.push(d);
        i = i + 1;
    }
    assert(s.subrange(0, s.len() as int) =~= s);
    r
}

/// The derivative of the product of `v[from..]`.
fn deriv_prod_vec(v: &Vec<Expr>, from: usize) -> (r: Expr)
    requires
        from <= v.len(),
    ensures
        r@ == deriv_prod(views(v@).subrange(from as int, v.len() as int)),
    decreases v, v.len() - from,
{
    proof {
        lemma_views(v@);
    }
    let ghost s = views(v@).subrange(from as int, v.len() as int);
    if from == v.len() {
        constant(0)
    } else if from + 1 == v.len() {
        v[from].derivative()
    } else {
        let ghost tail = s.subrange(1, s.len() as int);
        assert(tail =~= views(v@).subrange(from + 1, v.len() as int));
        let mut rest: Vec<Expr> = Vec::new();
        let mut k: usize = from + 1;
        while k < v.len()
            invariant
                from + 1 <= k <= v.len(),
                views(v@).len() == v.len(),
                forall|j: int| 0 <= j < v.len() ==> #[trigger] views(v@)[j] == v@[j]@,
                views(rest@) == views(v@).subrange(from + 1, k as int),
            decreases v.len() - k,
        {
            let c = v[k].copy();
            proof {
                lemma_views_push(rest@, c);
                assert(views(v@).subrange(from + 1, k + 1) =~= views(v@).subrange(
                    from + 1,
                    k as int,
                ).push(c@));
            }
            rest.push(c);
            k = k + 1;
        }
        let head = &v[from];
        let d_tail = deriv_prod_vec(v, from + 1);
        let d_head = head.derivative();
        head.copy().times(d_tail).plus(Expr::Prod(rest).times(d_head))
    }
}

impl Expr {
    /// The derivative with respect to the free variable, as a new tree that is
    /// not simplified.
    pub fn derivative(&self) -> (r: Expr)
        ensures
            r@ == deriv(self@),
        decreases self,
    {
        match self {
            Expr::Const(_) => constant(0),
            Expr::X => constant(1),
            Expr::Sum(v) => Expr::Sum(deriv_vec(v)),
            Expr::Prod(v) => {
                assert(views(v@).subrange(0, v.len() as int) =~= views(v@)) by {
                    lemma_views(v@);
                }
                deriv_prod_vec(v, 0)
            },
            Expr::Neg(a) => Expr::Neg(Box::new(a.derivative())),
            Expr::Pow(a, b) => {
                let mut c: Option<isize> = None;
                if let Expr::Const(k) = &**b {
                    assert(b@ == Term::Const(*k as int));
                    c = Some(*k);
                } else {
                    assert(!(b@ is Const));
                }
                match c {
                    Some(k) => if k == 0 {
                        constant(0)
                    } else if k == 1 {
                        a.derivative()
                    } else {
                        constant(k).times(a.copy().pow(constant(k).minus(constant(1)))).times(
                            a.derivative(),
                        )
                    },
                    None => {
                        let d_ln = a.derivative().times(a.copy().pow(constant(-1)));
                        let mut single: Vec<Expr> = Vec::new();
                        single.push(b.copy());
                        proof {
                            lemma_views_push(Seq::empty(), single@[0]);
                            assert(Seq::<Expr>::empty().push(single@[0]) =~= single@);
                        }
                        let inner = a.copy().ln().times(b.derivative()).plus(
                            Expr::Prod(single).times(d_ln),
                        );
                        a.copy().pow(b.copy()).times(inner)
                    },
                }
            },
            Expr::Ln(a) => a.derivative().times(a.copy().pow(constant(-1))),
            Expr::Sin(a) => a.derivative().times(a.copy().cos()),
            Expr::Cos(a) => a.derivative().times(a.copy().sin().negate()),
            Expr::Arcsin(a) => a.derivative().times(inv_sqrt_one_minus_square_exec(a.copy())),
            Expr::Arccos(a) => a.derivative().times(
                inv_sqrt_one_minus_square_exec(a.copy()),
            ).negate(),
            Expr::Arctan(a) => a.derivative().times(
                constant(1).plus(a.copy().pow(constant(2))).recip(),
            ),
        }
    }
}

} // verus!
