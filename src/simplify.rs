//! The simplifier. One pass simplifies the children of a node and then applies
//! the node's rules; `simplify` repeats passes, each followed by sorting the
//! children of every sum and product, until the tree no longer changes.
use vstd::prelude::*;
use crate::expr::{Expr, Term, views, lemma_views, lemma_views_push, lemma_prefix};
use crate::order::{sorted, sort_seq, sort_vec, lemma_sort_seq};
use crate::rules::{
    flat_sums, drop_zeros, unify, first_index, like_to, lemma_first_index, TermGroup, coef,
    group_like, group_firsts, group_term,
};
use crate::rules::{
    SimplifyError, singleton_rule, sums_in_sums_rule, prods_in_prods_rule, plus_zero_rule,
    times_zero_rule, zero_pow_rule, one_pow_rule, negative_consts_rule, double_negative_rule,
    distribute_negative_rule, mult_consts_rule, add_consts_rule, apply_sums_rule, mult_pows_rule,
    cancel_fracs_rule, like, merge_like, times_one_rule, negate_all,
};
use crate::rewrite::{
    flat_sums_vec, flat_prods_vec, drop_zeros_vec, negate_all_vec, has_const_vec, non_consts_vec,
    const_product_vec, const_sum_vec, unify_vec, consolidate_vec, cancel_vec, push_one,
    fold_consts_vec, drop_ones_vec,
    append_copies,
};

verus! {

/// The strictly nested negations removed, two at a time.
fn strip_negations(e: Expr) -> (r: Expr)
    ensures
        r@ == double_negative_rule(e@),
    decreases e,
{
    match e {
        Expr::Neg(a) => match *a {
            Expr::Neg(x) => {
                assert(a@ == Term::Neg(Box::new(x@)));
                strip_negations(*x)
            },
            other => {
                assert(!(other@ is Neg));
                Expr::Neg(Box::new(other))
            },
        },
        _ => e,
    }
}

impl Expr {
    /// Turns an empty sum or product into 0 and one with a single child into that
    /// child.
    pub fn simplify_singleton(&mut self)
        ensures
            final(self)@ == singleton_rule(old(self)@),
    {
        let r = match &*self {
            Expr::Sum(v) => {
                proof {
                    lemma_views(v@);
                }
                if v.len() == 0 {
                    Some(Expr::Const(0))
                } else if v.len() == 1 {
                    Some(v[0].copy())
                } else {
                    None
                }
            },
            Expr::Prod(v) => {
                proof {
                    lemma_views(v@);
                }
                if v.len() == 0 {
                    Some(Expr::Const(0))
                } else if v.len() == 1 {
                    Some(v[0].copy())
                } else {
                    None
                }
            },
            _ => None,
        };
        if let Some(e) = r {
            *self = e;
        }
    }

    /// Splices the children of each child sum of a sum into it, where that child
    /// stood: `3 + (5 + x)` becomes `3 + 5 + x`.
    pub fn simplify_sums_in_sums(&mut self)
        ensures
            final(self)@ == sums_in_sums_rule(old(self)@),
    {
        if let Expr::Sum(v) = &*self {
            let w = flat_sums_vec(v);
            *self = Expr::Sum(w);
        }
    }

    /// Splices the factors of each child product of a product into it.
    pub fn simplify_prods_in_prods(&mut self)
        ensures
            final(self)@ == prods_in_prods_rule(old(self)@),
    {
        if let Expr::Prod(v) = &*self {
            let w = flat_prods_vec(v);
            *self = Expr::Prod(w);
        }
    }

    /// Removes the zero terms of a sum.
    pub fn simplify_plus_zero(&mut self)
        ensures
            final(self)@ == plus_zero_rule(old(self)@),
    {
        if let Expr::Sum(v) = &*self {
            let w = drop_zeros_vec(v);
            *self = Expr::Sum(w);
        }
    }

    /// Turns a product with a zero factor into 0.
    pub fn simplify_times_zero(&mut self)
        ensures
            final(self)@ == times_zero_rule(old(self)@),
    {
        let mut zero = false;
        if let Expr::Prod(v) = &*self {
            proof {
                lemma_views(v@);
            }
            let ghost s = views(v@);
            let mut i: usize = 0;
            while i < v.len()
                invariant
                    i <= v.len(),
                    s == views(v@),
                    s.len() == v.len(),
                    forall|j: int| 0 <= j < v.len() ==> #[trigger] s[j] == v@[j]@,
                    zero == s.subrange(0, i as int).contains(Term::Const(0)),
                decreases v.len() - i,
            {
                proof {
                    lemma_prefix(s, i as int);
                    assert(s.subrange(0, i + 1) =~= s.subrange(0, i as int).push(s[i as int]));
                }
                if let Expr::Const(c) = &v[i] {
                    if *c == 0 {
                        zero = true;
                    }
                }
                i = i + 1;
            }
            assert(s.subrange(0, s.len() as int) =~= s);
        }
        if zero {
            *self = Expr::Const(0);
        }
    }

    /// Turns a power with exponent 0 into 1.
    pub fn simplify_zero_pow(&mut self)
        ensures
            final(self)@ == zero_pow_rule(old(self)@),
    {
        let mut hit = false;
        if let Expr::Pow(_, b) = &*self {
            if let Expr::Const(c) = &**b {
                assert(b@ == Term::Const(*c as int));
                hit = *c == 0;
            } else {
                assert(!(b@ is Const));
            }
        }
        if hit {
            *self = Expr::Const(1);
        }
    }

    /// Turns a power with exponent 1 into its base.
    pub fn simplify_one_pow(&mut self)
        ensures
            final(self)@ == one_pow_rule(old(self)@),
    {
        let mut r: Option<Expr> = None;
        if let Expr::Pow(a, b) = &*self {
            if let Expr::Const(c) = &**b {
                assert(b@ == Term::Const(*c as int));
                if *c == 1 {
                    r = Some(a.copy());
                }
            } else {
                assert(!(b@ is Const));
            }
        }
        if let Some(e) = r {
            *self = e;
        }
    }

    /// Turns the negation of a constant into the negated constant; fails with
    /// `Overflow`, leaving the expression as it was, where that does not fit.
    pub fn simplify_negative_consts(&mut self) -> (r: Result<(), SimplifyError>)
        ensures
            match negative_consts_rule(old(self)@) {
                Some(t) => r is Ok && final(self)@ == t,
                None => r == Err::<(), SimplifyError>(SimplifyError::Overflow) && *final(self)
                    == *old(self),
            },
    {
        let mut c: Option<isize> = None;
        if let Expr::Neg(a) = &*self {
            if let Expr::Const(x) = &**a {
                assert(a@ == Term::Const(*x as int));
                c = Some(*x);
            } else {
                assert(!(a@ is Const));
            }
        }
        if let Some(x) = c {
            if x == isize::MIN {
                return Err(SimplifyError::Overflow);
            }
            *self = Expr::Const(-x);
        }
        Ok(())
    }

    /// Removes nested pairs of negations: `--x` becomes `x`, `---x` becomes `-x`.
    pub fn simplify_double_negative(&mut self)
        ensures
            final(self)@ == double_negative_rule(old(self)@),
    {
        let mut e = Expr::X;
        core::mem::swap(self, &mut e);
        *self = strip_negations(e);
    }

    /// Turns the negation of a sum into the sum of the negated terms, without
    /// simplifying them.
    fn distribute_negation(&mut self)
        ensures
            final(self)@ == distribute_negative_rule(old(self)@),
    {
        let mut r: Option<Vec<Expr>> = None;
        if let Expr::Neg(a) = &*self {
            if let Expr::Sum(v) = &**a {
                assert(a@ == Term::Sum(views(v@)));
                r = Some(negate_all_vec(v));
            } else {
                assert(!(a@ is Sum));
            }
        }
        if let Some(w) = r {
            *self = Expr::Sum(w);
        }
    }

    /// Turns the negation of a sum into the sum of the negated terms, each of
    /// them then simplified: `-(2 + x)` becomes `-2 + -x`. Anything else is left
    /// as it is. Fails with the first failure of a term's simplification, leaving
    /// the expression as it was.
    pub fn simplify_distribute_negative_in_sum(&mut self) -> (r: Result<(), SimplifyError>)
        ensures
            match old(self)@ {
                Term::Neg(a) => match *a {
                    Term::Sum(s) => match simplified_all(negate_all(s)) {
                        Ok(w) => r is Ok && final(self)@ == Term::Sum(w),
                        Err(e) => r == Err::<(), SimplifyError>(e) && *final(self) == *old(self),
                    },
                    _ => r is Ok && *final(self) == *old(self),
                },
                _ => r is Ok && *final(self) == *old(self),
            },
    {
        let mut is_neg_sum = false;
        if let Expr::Neg(a) = &*self {
            if let Expr::Sum(v) = &**a {
                assert(a@ == Term::Sum(views(v@)));
                is_neg_sum = true;
            } else {
                assert(!(a@ is Sum));
            }
        }
        if !is_neg_sum {
            return Ok(());
        }
        let mut e = self.copy();
        e.distribute_negation();
        match e.simplify_terms() {
            Err(x) => Err(x),
            Ok(()) => {
                *self = e;
                Ok(())
            },
        }
    }

    /// Leaves out the factors 1 of a product, unless nothing else would remain.
    pub fn simplify_times_one(&mut self)
        ensures
            final(self)@ == times_one_rule(old(self)@),
    {
        if let Expr::Prod(v) = &*self {
            let w = drop_ones_vec(v);
            if w.len() > 0 {
                *self = Expr::Prod(w);
            }
        }
    }

    /// Adds like terms of a sum together, each group where its first term stood:
    /// `x + 2 + 2x + 4` becomes `3x + 6`. Fails with `Overflow`, leaving the
    /// expression as it was, where the total coefficient of a group does not fit;
    /// running totals may leave `isize` on the way.
    pub fn simplify_apply_sums(&mut self) -> (r: Result<(), SimplifyError>)
        ensures
            match apply_sums_rule(old(self)@) {
                Some(t) => r is Ok && final(self)@ == t,
                None => r == Err::<(), SimplifyError>(SimplifyError::Overflow) && *final(self)
                    == *old(self),
            },
    {
        let mut r: Option<Option<Vec<Expr>>> = None;
        if let Expr::Sum(v) = &*self {
            r = Some(unify_vec(v));
        }
        match r {
            Some(Some(w)) => {
                *self = Expr::Sum(w);
                Ok(())
            },
            Some(None) => Err(SimplifyError::Overflow),
            None => Ok(()),
        }
    }

    /// Multiplies the constant factors of a product into one, which stands where
    /// the first constant stood: `5 * x * 6` becomes `30 * x`, `x * 2 * 3` becomes
    /// `x * 6`. Fails with `Overflow`, leaving the expression as it was, exactly
    /// where the product of all the constants does not fit.
    pub fn simplify_mult_consts(&mut self) -> (r: Result<(), SimplifyError>)
        ensures
            match mult_consts_rule(old(self)@) {
                Some(t) => r is Ok && final(self)@ == t,
                None => r == Err::<(), SimplifyError>(SimplifyError::Overflow) && *final(self)
                    == *old(self),
            },
    {
        let mut r: Option<Option<Expr>> = None;
        if let Expr::Prod(v) = &*self {
            if has_const_vec(v) {
                r = Some(
                    match const_product_vec(v) {
                        None => None,
                        Some(c) => Some(Expr::Prod(fold_consts_vec(v, c))),
                    },
                );
            }
        }
        match r {
            Some(Some(e)) => {
                *self = e;
                Ok(())
            },
            Some(None) => Err(SimplifyError::Overflow),
            None => Ok(()),
        }
    }

    /// Multiplies the constants of a product together, as
    /// [`Expr::simplify_mult_consts`] does.
    pub fn simplify_multiply_consts(&mut self) -> (r: Result<(), SimplifyError>)
        ensures
            match mult_consts_rule(old(self)@) {
                Some(t) => r is Ok && final(self)@ == t,
                None => r == Err::<(), SimplifyError>(SimplifyError::Overflow) && *final(self)
                    == *old(self),
            },
    {
        self.simplify_mult_consts()
    }

    /// Adds the constant terms of a sum into one leading term. Fails with
    /// `Overflow`, leaving the expression as it was, exactly where the sum of the
    /// constants does not fit.
    pub fn simplify_add_consts(&mut self) -> (r: Result<(), SimplifyError>)
        ensures
            match add_consts_rule(old(self)@) {
                Some(t) => r is Ok && final(self)@ == t,
                None => r == Err::<(), SimplifyError>(SimplifyError::Overflow) && *final(self)
                    == *old(self),
            },
    {
        let mut r: Option<Option<Expr>> = None;
        if let Expr::Sum(v) = &*self {
            if has_const_vec(v) {
                r = Some(
                    match const_sum_vec(v) {
                        None => None,
                        Some(c) => {
                            let rest = non_consts_vec(v);
                            let mut w: Vec<Expr> = Vec::new();
                            push_one(&mut w, Expr::Const(c));
                            append_copies(&mut w, &rest);
                            assert(views(Seq::<Expr>::empty()) =~= seq![]);
                            Some(Expr::Sum(w))
                        },
                    },
                );
            }
        }
        match r {
            Some(Some(e)) => {
                *self = e;
                Ok(())
            },
            Some(None) => Err(SimplifyError::Overflow),
            None => Ok(()),
        }
    }

    /// Merges the factors of a product that have equal bases into one power: two
    /// equal factors that are not powers give the square (`x * x` becomes
    /// `x^2`), otherwise the exponents are added (`x^5 * x^-2` becomes
    /// `x^(5 + -2)`).
    pub fn simplify_mult_pows(&mut self)
        ensures
            final(self)@ == mult_pows_rule(old(self)@),
    {
        if let Expr::Prod(v) = &*self {
            let w = consolidate_vec(v);
            *self = Expr::Prod(w);
        }
    }

    /// Cancels each factor of a product against an earlier factor that is its
    /// reciprocal, leaving a 1 that is itself checked again: `5 * x * x^-1`
    /// becomes `5 * 1`. No reciprocal pair remains (`lemma_cancel_leaves_no_pair`).
    pub fn simplify_cancel_fracs(&mut self)
        ensures
            final(self)@ == cancel_fracs_rule(old(self)@),
    {
        if let Expr::Prod(v) = &*self {
            let w = cancel_vec(v);
            *self = Expr::Prod(w);
        }
    }

    /// Adds the coefficient of `term` to this one's where the two are like terms;
    /// leaves this term as it was where they are not. Fails with `Overflow`,
    /// leaving it as it was, where the coefficient does not fit.
    pub fn add_like_term(&mut self, term: &Expr) -> (r: Result<(), SimplifyError>)
        ensures
            !like(old(self)@, term@) ==> r is Ok && *final(self) == *old(self),
            like(old(self)@, term@) ==> match merge_like(old(self)@, term@) {
                Some(m) => r is Ok && final(self)@ == m,
                None => r == Err::<(), SimplifyError>(SimplifyError::Overflow) && *final(self)
                    == *old(self),
            },
    {
        if !self.like_terms_with(term) {
            return Ok(());
        }
        match self.merged_with(term) {
            Some(m) => {
                *self = m;
                Ok(())
            },
            None => Err(SimplifyError::Overflow),
        }
    }
}


/// The rules of a sum, in order, on children that have been simplified.
pub open spec fn sum_rules(w: Seq<Term>) -> Option<Term> {
    match apply_sums_rule(plus_zero_rule(sums_in_sums_rule(Term::Sum(w)))) {
        None => None,
        Some(u) => Some(singleton_rule(u)),
    }
}

/// The rules of a product, in order, on factors that have been simplified.
pub open spec fn prod_rules(w: Seq<Term>) -> Option<Term> {
    let a = cancel_fracs_rule(times_zero_rule(prods_in_prods_rule(Term::Prod(w))));
    match mult_consts_rule(a) {
        None => None,
        Some(b) => Some(singleton_rule(mult_pows_rule(times_one_rule(b)))),
    }
}

/// The rules of a negation, in order, on an operand that has been simplified.
pub open spec fn neg_rules(x: Term) -> Option<Term> {
    match negative_consts_rule(Term::Neg(Box::new(x))) {
        None => None,
        Some(u) => Some(distribute_negative_rule(double_negative_rule(u))),
    }
}

/// The rules of a power, on a base and an exponent that have been simplified.
pub open spec fn pow_rules(a: Term, b: Term) -> Term {
    one_pow_rule(zero_pow_rule(Term::Pow(Box::new(a), Box::new(b))))
}

/// One bottom-up pass: every child first, then the node's own rules. `None` where
/// a constant overflows.
pub open spec fn pass(t: Term) -> Option<Term>
    decreases t,
{
    match t {
        Term::Const(_) => Some(t),
        Term::X => Some(t),
        Term::Sum(s) => match pass_all(s) {
            None => None,
            Some(w) => sum_rules(w),
        },
        Term::Prod(s) => match pass_all(s) {
            None => None,
            Some(w) => prod_rules(w),
        },
        Term::Neg(a) => match pass(*a) {
            None => None,
            Some(x) => neg_rules(x),
        },
        Term::Pow(a, b) => match pass(*a) {
            None => None,
            Some(x) => match pass(*b) {
                None => None,
                Some(y) => Some(pow_rules(x, y)),
            },
        },
        Term::Ln(a) => match pass(*a) {
            None => None,
            Some(x) => Some(Term::Ln(Box::new(x))),
        },
        Term::Sin(a) => match pass(*a) {
            None => None,
            Some(x) => Some(Term::Sin(Box::new(x))),
        },
        Term::Cos(a) => match pass(*a) {
            None => None,
            Some(x) => Some(Term::Cos(Box::new(x))),
        },
        Term::Arcsin(a) => match pass(*a) {
            None => None,
            Some(x) => Some(Term::Arcsin(Box::new(x))),
        },
        Term::Arccos(a) => match pass(*a) {
            None => None,
            Some(x) => Some(Term::Arccos(Box::new(x))),
        },
        Term::Arctan(a) => match pass(*a) {
            None => None,
            Some(x) => Some(Term::Arctan(Box::new(x))),
        },
    }
}

/// The pass on each element.
pub open spec fn pass_all(s: Seq<Term>) -> Option<Seq<Term>>
    decreases s,
{
    if s.len() == 0 {
        Some(s)
    } else {
        match pass_all(s.subrange(0, s.len() - 1)) {
            None => None,
            Some(r) => match pass(s[s.len() - 1]) {
                None => None,
                Some(x) => Some(r.push(x)),
            },
        }
    }
}

/// Every sum and product with its children in canonical order.
pub open spec fn sort_all(t: Term) -> Term
    decreases t,
{
    match t {
        Term::Const(_) => t,
        Term::X => t,
        Term::Sum(s) => Term::Sum(sort_seq(sort_each(s))),
        Term::Prod(s) => Term::Prod(sort_seq(sort_each(s))),
        Term::Neg(a) => Term::Neg(Box::new(sort_all(*a))),
        Term::Pow(a, b) => Term::Pow(Box::new(sort_all(*a)), Box::new(sort_all(*b))),
        Term::Ln(a) => Term::Ln(Box::new(sort_all(*a))),
        Term::Sin(a) => Term::Sin(Box::new(sort_all(*a))),
        Term::Cos(a) => Term::Cos(Box::new(sort_all(*a))),
        Term::Arcsin(a) => Term::Arcsin(Box::new(sort_all(*a))),
        Term::Arccos(a) => Term::Arccos(Box::new(sort_all(*a))),
        Term::Arctan(a) => Term::Arctan(Box::new(sort_all(*a))),
    }
}

pub open spec fn sort_each(s: Seq<Term>) -> Seq<Term>
    decreases s,
{
    if s.len() == 0 {
        s
    } else {
        sort_each(s.subrange(0, s.len() - 1)).push(sort_all(s[s.len() - 1]))
    }
}

/// The children of every sum and product, at every depth, are in canonical order.
pub open spec fn deep_sorted(t: Term) -> bool
    decreases t,
{
    match t {
        Term::Const(_) => true,
        Term::X => true,
        Term::Sum(s) => sorted(s) && forall|i: int| 0 <= i < s.len() ==> deep_sorted(#[trigger] s[i]),
        Term::Prod(s) => sorted(s) && forall|i: int|
            0 <= i < s.len() ==> deep_sorted(#[trigger] s[i]),
        Term::Neg(a) => deep_sorted(*a),
        Term::Pow(a, b) => deep_sorted(*a) && deep_sorted(*b),
        Term::Ln(a) => deep_sorted(*a),
        Term::Sin(a) => deep_sorted(*a),
        Term::Cos(a) => deep_sorted(*a),
        Term::Arcsin(a) => deep_sorted(*a),
        Term::Arccos(a) => deep_sorted(*a),
        Term::Arctan(a) => deep_sorted(*a),
    }
}

/// One step of simplification: a pass, then canonical order everywhere.
pub open spec fn step(t: Term) -> Option<Term> {
    match pass(t) {
        None => None,
        Some(u) => Some(sort_all(u)),
    }
}

/// The bound on the number of passes that `simplify` makes.
pub const MAX_PASSES: usize = 64;

/// Steps from `t` until a step changes nothing, within `fuel` steps.
pub open spec fn settle(t: Term, fuel: nat) -> Result<Term, SimplifyError>
    decreases fuel,
{
    if fuel == 0 {
        Err(SimplifyError::Unsettled)
    } else {
        match step(t) {
            None => Err(SimplifyError::Overflow),
            Some(u) => if u == t {
                Ok(t)
            } else {
                settle(u, (fuel - 1) as nat)
            },
        }
    }
}

/// What `simplify` makes of `t`.
#[verifier::opaque]
pub open spec fn simplified(t: Term) -> Result<Term, SimplifyError> {
    settle(t, MAX_PASSES as nat)
}


/// Each element simplified, from left to right; the first failure is returned.
pub open spec fn simplified_all(s: Seq<Term>) -> Result<Seq<Term>, SimplifyError>
    decreases s.len(),
{
    if s.len() == 0 {
        Ok(s)
    } else {
        match simplified_all(s.drop_last()) {
            Err(e) => Err(e),
            Ok(r) => match simplified(s.last()) {
                Err(e) => Err(e),
                Ok(x) => Ok(r.push(x)),
            },
        }
    }
}

/// The operand of a one-argument node replaced by its simplified form.
pub open spec fn simplified_operand(t: Term, a: Term) -> Result<Term, SimplifyError> {
    match simplified(a) {
        Err(e) => Err(e),
        Ok(x) => Ok(
            match t {
                Term::Neg(_) => Term::Neg(Box::new(x)),
                Term::Ln(_) => Term::Ln(Box::new(x)),
                Term::Sin(_) => Term::Sin(Box::new(x)),
                Term::Cos(_) => Term::Cos(Box::new(x)),
                Term::Arcsin(_) => Term::Arcsin(Box::new(x)),
                Term::Arccos(_) => Term::Arccos(Box::new(x)),
                _ => Term::Arctan(Box::new(x)),
            },
        ),
    }
}

/// Every child simplified on its own; the node itself is left as it is.
pub open spec fn terms_rule(t: Term) -> Result<Term, SimplifyError> {
    match t {
        Term::Const(_) => Ok(t),
        Term::X => Ok(t),
        Term::Sum(s) => match simplified_all(s) {
            Err(e) => Err(e),
            Ok(w) => Ok(Term::Sum(w)),
        },
        Term::Prod(s) => match simplified_all(s) {
            Err(e) => Err(e),
            Ok(w) => Ok(Term::Prod(w)),
        },
        Term::Pow(a, b) => match simplified(*a) {
            Err(e) => Err(e),
            Ok(x) => match simplified(*b) {
                Err(e) => Err(e),
                Ok(y) => Ok(Term::Pow(Box::new(x), Box::new(y))),
            },
        },
        Term::Neg(a) => simplified_operand(t, *a),
        Term::Ln(a) => simplified_operand(t, *a),
        Term::Sin(a) => simplified_operand(t, *a),
        Term::Cos(a) => simplified_operand(t, *a),
        Term::Arcsin(a) => simplified_operand(t, *a),
        Term::Arccos(a) => simplified_operand(t, *a),
        Term::Arctan(a) => simplified_operand(t, *a),
    }
}

/// The pass on each element.
fn pass_vec(v: &Vec<Expr>) -> (r: Result<Vec<Expr>, SimplifyError>)
    ensures
        match pass_all(views(v@)) {
            Some(t) => r is Ok && views(r->Ok_0@) == t,
            None => r == Err::<Vec<Expr>, SimplifyError>(SimplifyError::Overflow),
        },
    decreases v,
{
    proof {
        lemma_views(v@);
    }
    let ghost s = views(v@);
    let mut r: Vec<Expr> = Vec::new();
    let mut i: usize = 0;
    while i < v.len()
        invariant
            i <= v.len(),
            s == views(v@),
            s.len() == v.len(),
            forall|j: int| 0 <= j < v.len() ==> #[trigger] s[j] == v@[j]@,
            pass_all(s.subrange(0, i as int)) == Some(views(r@)),
        decreases v.len() - i,
    {
        proof {
            lemma_prefix(s, i as int);
        }
        match v[i].pass_once() {
            Err(e) => {
                proof {
                    lemma_none_pass_all(s, i as int + 1);
                }
                return Err(e);
            },
            Ok(x) => {
                proof {
                    lemma_views_push(r@, x);
                }
                r.push(x);
            },
        }
        i = i + 1;
    }
    assert(s.subrange(0, s.len() as int) =~= s);
    Ok(r)
}

proof fn lemma_none_pass_all(s: Seq<Term>, i: int)
    requires
        0 <= i <= s.len(),
        pass_all(s.subrange(0, i)) is None,
    ensures
        pass_all(s) is None,
    decreases s.len() - i,
{
    if i < s.len() {
        lemma_prefix(s, i);
        lemma_none_pass_all(s, i + 1);
    } else {
        assert(s.subrange(0, i) =~= s);
    }
}

/// Each element with its sums and products put in canonical order.
fn sort_each_vec(v: &Vec<Expr>) -> (r: Vec<Expr>)
    ensures
        views(r@) == sort_each(views(v@)),
    decreases v,
{
    proof {
        lemma_views(v@);
    }
    let ghost s = views(v@);
    let mut r: Vec<Expr> = Vec::new();
    let mut i: usize = 0;
    while i < v.len()
        invariant
            i <= v.len(),
            s == views(v@),
            s.len() == v.len(),
            forall|j: int| 0 <= j < v.len() ==> #[trigger] s[j] == v@[j]@,
            sort_each(s.subrange(0, i as int)) == views(r@),
        decreases v.len() - i,
    {
        proof {
            lemma_prefix(s, i as int);
        }
        let x = v[i].sorted_deep();
        proof {
            lemma_views_push(r@, x);
        }
        r.push(x);
        i = i + 1;
    }
    assert(s.subrange(0, s.len() as int) =~= s);
    r
}

impl Expr {
    /// One bottom-up pass of the rules.
    fn pass_once(&self) -> (r: Result<Expr, SimplifyError>)
        ensures
            match pass(self@) {
                Some(t) => r is Ok && r->Ok_0@ == t,
                None => r == Err::<Expr, SimplifyError>(SimplifyError::Overflow),
            },
        decreases self,
    {
        match self {
            Expr::Const(c) => Ok(Expr::Const(*c)),
            Expr::X => Ok(Expr::X),
            Expr::Sum(v) => match pass_vec(v) {
                Err(e) => Err(e),
                Ok(w) => {
                    let mut e = Expr::Sum(w);
                    e.simplify_sums_in_sums();
                    e.simplify_plus_zero();
                    match e.simplify_apply_sums() {
                        Err(x) => Err(x),
                        Ok(()) => {
                            e.simplify_singleton();
                            Ok(e)
                        },
                    }
                },
            },
            Expr::Prod(v) => match pass_vec(v) {
                Err(e) => Err(e),
                Ok(w) => {
                    let mut e = Expr::Prod(w);
                    e.simplify_prods_in_prods();
                    e.simplify_times_zero();
                    e.simplify_cancel_fracs();
                    match e.simplify_mult_consts() {
                        Err(x) => Err(x),
                        Ok(()) => {
                            e.simplify_times_one();
                            e.simplify_mult_pows();
                            e.simplify_singleton();
                            Ok(e)
                        },
                    }
                },
            },
            Expr::Neg(a) => match a.pass_once() {
                Err(e) => Err(e),
                Ok(x) => {
                    let mut e = Expr::Neg(Box::new(x));
                    match e.simplify_negative_consts() {
                        Err(y) => Err(y),
                        Ok(()) => {
                            e.simplify_double_negative();
                            e.distribute_negation();
                            Ok(e)
                        },
                    }
                },
            },
            Expr::Pow(a, b) => match a.pass_once() {
                Err(e) => Err(e),
                Ok(x) => match b.pass_once() {
                    Err(e) => Err(e),
                    Ok(y) => {
                        let mut e = Expr::Pow(Box::new(x), Box::new(y));
                        e.simplify_zero_pow();
                        e.simplify_one_pow();
                        Ok(e)
                    },
                },
            },
            Expr::Ln(a) => match a.pass_once() {
                Err(e) => Err(e),
                Ok(x) => Ok(Expr::Ln(Box::new(x))),
            },
            Expr::Sin(a) => match a.pass_once() {
                Err(e) => Err(e),
                Ok(x) => Ok(Expr::Sin(Box::new(x))),
            },
            Expr::Cos(a) => match a.pass_once() {
                Err(e) => Err(e),
                Ok(x) => Ok(Expr::Cos(Box::new(x))),
            },
            Expr::Arcsin(a) => match a.pass_once() {
                Err(e) => Err(e),
                Ok(x) => Ok(Expr::Arcsin(Box::new(x))),
            },
            Expr::Arccos(a) => match a.pass_once() {
                Err(e) => Err(e),
                Ok(x) => Ok(Expr::Arccos(Box::new(x))),
            },
            Expr::Arctan(a) => match a.pass_once() {
                Err(e) => Err(e),
                Ok(x) => Ok(Expr::Arctan(Box::new(x))),
            },
        }
    }

    /// A copy with the children of every sum and product in canonical order.
    pub fn sorted_deep(&self) -> (r: Expr)
        ensures
            r@ == sort_all(self@),
        decreases self,
    {
        match self {
            Expr::Const(c) => Expr::Const(*c),
            Expr::X => Expr::X,
            Expr::Sum(v) => Expr::Sum(sort_vec(&sort_each_vec(v))),
            Expr::Prod(v) => Expr::Prod(sort_vec(&sort_each_vec(v))),
            Expr::Neg(a) => Expr::Neg(Box::new(a.sorted_deep())),
            Expr::Pow(a, b) => Expr::Pow(Box::new(a.sorted_deep()), Box::new(b.sorted_deep())),
            Expr::Ln(a) => Expr::Ln(Box::new(a.sorted_deep())),
            Expr::Sin(a) => Expr::Sin(Box::new(a.sorted_deep())),
            Expr::Cos(a) => Expr::Cos(Box::new(a.sorted_deep())),
            Expr::Arcsin(a) => Expr::Arcsin(Box::new(a.sorted_deep())),
            Expr::Arccos(a) => Expr::Arccos(Box::new(a.sorted_deep())),
            Expr::Arctan(a) => Expr::Arctan(Box::new(a.sorted_deep())),
        }
    }

    /// Rewrites the expression to its normal form: passes of the rules, each
    /// followed by canonical ordering, until one changes nothing. Fails with
    /// `Overflow` where a constant leaves the range of `isize`, and with
    /// `Unsettled` where no fixed point is reached within `MAX_PASSES` passes;
    /// the expression is then left as it was.
    pub fn simplify(&mut self) -> (r: Result<(), SimplifyError>)
        ensures
            match simplified(old(self)@) {
                Ok(t) => r is Ok && final(self)@ == t,
                Err(e) => r == Err::<(), SimplifyError>(e) && *final(self) == *old(self),
            },
    {
        proof {
            reveal(simplified);
        }
        let mut cur = self.copy();
        let mut fuel: usize = MAX_PASSES;
        while fuel > 0
            invariant
                fuel <= MAX_PASSES,
                *self == *old(self),
                simplified(old(self)@) == settle(cur@, fuel as nat),
            decreases fuel,
        {
            let next = match cur.pass_once() {
                Err(e) => {
                    return Err(e);
                },
                Ok(p) => p.sorted_deep(),
            };
            if next.equals(&cur) {
                *self = cur;
                return Ok(());
            }
            cur = next;
            fuel = fuel - 1;
        }
        Err(SimplifyError::Unsettled)
    }
}


/// Each element simplified.
fn simplify_vec(v: &Vec<Expr>) -> (r: Result<Vec<Expr>, SimplifyError>)
    ensures
        match simplified_all(views(v@)) {
            Ok(t) => r is Ok && views(r->Ok_0@) == t,
            Err(e) => r == Err::<Vec<Expr>, SimplifyError>(e),
        },
{
    proof {
        lemma_views(v@);
    }
    let ghost s = views(v@);
    let mut r: Vec<Expr> = Vec::new();
    assert(s.subrange(0, 0) =~= views(r@));
    let mut i: usize = 0;
    while i < v.len()
        invariant
            i <= v.len(),
            s == views(v@),
            s.len() == v.len(),
            forall|j: int| 0 <= j < v.len() ==> #[trigger] s[j] == v@[j]@,
            simplified_all(s.subrange(0, i as int)) == Ok::<Seq<Term>, SimplifyError>(views(r@)),
        decreases v.len() - i,
    {
        proof {
            lemma_prefix(s, i as int);
        }
        let mut x = v[i].copy();
        match x.simplify() {
            Err(e) => {
                proof {
                    lemma_err_simplified_all(s, i as int + 1, e);
                }
                return Err(e);
            },
            Ok(()) => {
                proof {
                    lemma_views_push(r@, x);
                }
                r.push(x);
            },
        }
        i = i + 1;
    }
    assert(s.subrange(0, s.len() as int) =~= s);
    Ok(r)
}

proof fn lemma_err_simplified_all(s: Seq<Term>, i: int, e: SimplifyError)
    requires
        0 <= i <= s.len(),
        simplified_all(s.subrange(0, i)) == Err::<Seq<Term>, SimplifyError>(e),
    ensures
        simplified_all(s) == Err::<Seq<Term>, SimplifyError>(e),
    decreases s.len() - i,
{
    if i < s.len() {
        lemma_prefix(s, i);
        lemma_err_simplified_all(s, i + 1, e);
    } else {
        assert(s.subrange(0, i) =~= s);
    }
}

/// The operand simplified and put back under the same node.
fn simplify_operand(a: &Expr) -> (r: Result<Expr, SimplifyError>)
    ensures
        match simplified(a@) {
            Ok(t) => r is Ok && r->Ok_0@ == t,
            Err(e) => r == Err::<Expr, SimplifyError>(e),
        },
{
    let mut x = a.copy();
    match x.simplify() {
        Err(e) => Err(e),
        Ok(()) => Ok(x),
    }
}

/// The expression with every child simplified on its own.
fn terms_of(e: &Expr) -> (r: Result<Expr, SimplifyError>)
    ensures
        match terms_rule(e@) {
            Ok(t) => r is Ok && r->Ok_0@ == t,
            Err(x) => r == Err::<Expr, SimplifyError>(x),
        },
{
    match e {
        Expr::Const(c) => Ok(Expr::Const(*c)),
        Expr::X => Ok(Expr::X),
        Expr::Sum(v) => match simplify_vec(v) {
            Err(x) => Err(x),
            Ok(w) => Ok(Expr::Sum(w)),
        },
        Expr::Prod(v) => match simplify_vec(v) {
            Err(x) => Err(x),
            Ok(w) => Ok(Expr::Prod(w)),
        },
        Expr::Pow(a, b) => match simplify_operand(a) {
            Err(x) => Err(x),
            Ok(p) => match simplify_operand(b) {
                Err(x) => Err(x),
                Ok(q) => Ok(Expr::Pow(Box::new(p), Box::new(q))),
            },
        },
        _ => simplify_unary(e),
    }
}

/// A one-argument node with its operand simplified.
fn simplify_unary(e: &Expr) -> (r: Result<Expr, SimplifyError>)
    requires
        e@ is Neg || e@ is Ln || e@ is Sin || e@ is Cos || e@ is Arcsin || e@ is Arccos
            || e@ is Arctan,
    ensures
        match simplified_operand(e@, crate::order::operand(e@)) {
            Ok(t) => r is Ok && r->Ok_0@ == t,
            Err(x) => r == Err::<Expr, SimplifyError>(x),
        },
{
    match e {
        Expr::Neg(a) => match simplify_operand(a) {
            Err(x) => Err(x),
            Ok(p) => Ok(Expr::Neg(Box::new(p))),
        },
        Expr::Ln(a) => match simplify_operand(a) {
            Err(x) => Err(x),
            Ok(p) => Ok(Expr::Ln(Box::new(p))),
        },
        Expr::Sin(a) => match simplify_operand(a) {
            Err(x) => Err(x),
            Ok(p) => Ok(Expr::Sin(Box::new(p))),
        },
        Expr::Cos(a) => match simplify_operand(a) {
            Err(x) => Err(x),
            Ok(p) => Ok(Expr::Cos(Box::new(p))),
        },
        Expr::Arcsin(a) => match simplify_operand(a) {
            Err(x) => Err(x),
            Ok(p) => Ok(Expr::Arcsin(Box::new(p))),
        },
        Expr::Arccos(a) => match simplify_operand(a) {
            Err(x) => Err(x),
            Ok(p) => Ok(Expr::Arccos(Box::new(p))),
        },
        Expr::Arctan(a) => match simplify_operand(a) {
            Err(x) => Err(x),
            Ok(p) => Ok(Expr::Arctan(Box::new(p))),
        },
        _ => Ok(Expr::X),
    }
}

impl Expr {
    /// Simplifies every child of the expression on its own, leaving the node
    /// itself as it is. Fails with the first child's failure, leaving the
    /// expression as it was.
    pub fn simplify_terms(&mut self) -> (r: Result<(), SimplifyError>)
        ensures
            match terms_rule(old(self)@) {
                Ok(t) => r is Ok && final(self)@ == t,
                Err(e) => r == Err::<(), SimplifyError>(e) && *final(self) == *old(self),
            },
    {
        match terms_of(self) {
            Err(e) => Err(e),
            Ok(x) => {
                *self = x;
                Ok(())
            },
        }
    }
}

/// Where settling succeeds, a step from its result changes nothing.
proof fn lemma_settle_fixed(t: Term, fuel: nat)
    requires
        settle(t, fuel) is Ok,
    ensures
        step(settle(t, fuel)->Ok_0) == Some(settle(t, fuel)->Ok_0),
    decreases fuel,
{
    if fuel > 0 {
        match step(t) {
            None => {},
            Some(u) => if u != t {
                lemma_settle_fixed(u, (fuel - 1) as nat);
            },
        }
    }
}

/// Simplification is idempotent: simplifying the normal form of an expression
/// succeeds and gives that normal form back.
pub proof fn lemma_simplify_idempotent(t: Term)
    requires
        simplified(t) is Ok,
    ensures
        simplified(simplified(t)->Ok_0) == simplified(t),
{
    reveal(simplified);
    lemma_settle_fixed(t, MAX_PASSES as nat);
}

/// Canonical ordering reaches every sum and product.
proof fn lemma_sort_all_sorted(t: Term)
    ensures
        deep_sorted(sort_all(t)),
    decreases t,
{
    match t {
        Term::Sum(s) => lemma_sort_children(s),
        Term::Prod(s) => lemma_sort_children(s),
        Term::Neg(a) => lemma_sort_all_sorted(*a),
        Term::Pow(a, b) => {
            lemma_sort_all_sorted(*a);
            lemma_sort_all_sorted(*b);
        },
        Term::Ln(a) => lemma_sort_all_sorted(*a),
        Term::Sin(a) => lemma_sort_all_sorted(*a),
        Term::Cos(a) => lemma_sort_all_sorted(*a),
        Term::Arcsin(a) => lemma_sort_all_sorted(*a),
        Term::Arccos(a) => lemma_sort_all_sorted(*a),
        Term::Arctan(a) => lemma_sort_all_sorted(*a),
        _ => {},
    }
}

proof fn lemma_sort_each(s: Seq<Term>)
    ensures
        sort_each(s).len() == s.len(),
        forall|i: int| 0 <= i < s.len() ==> #[trigger] sort_each(s)[i] == sort_all(s[i]),
    decreases s,
{
    if s.len() > 0 {
        lemma_sort_each(s.subrange(0, s.len() - 1));
    }
}

proof fn lemma_sort_children(s: Seq<Term>)
    ensures
        sorted(sort_seq(sort_each(s))),
        forall|i: int|
            0 <= i < sort_seq(sort_each(s)).len() ==> deep_sorted(
                #[trigger] sort_seq(sort_each(s))[i],
            ),
    decreases s,
{
    let e = sort_each(s);
    let r = sort_seq(e);
    lemma_sort_each(s);
    lemma_sort_seq(e);
    assert forall|i: int| 0 <= i < r.len() implies deep_sorted(#[trigger] r[i]) by {
        assert(r.contains(r[i]));
        vstd::seq_lib::to_multiset_contains(r, r[i]);
        vstd::seq_lib::to_multiset_contains(e, r[i]);
        assert(e.contains(r[i]));
        let j = choose|j: int| 0 <= j < e.len() && e[j] == r[i];
        lemma_sort_all_sorted(s[j]);
    }
}

/// In the normal form of an expression, the children of every sum and product
/// are in non-decreasing canonical order.
pub proof fn lemma_simplified_sorted(t: Term)
    requires
        simplified(t) is Ok,
    ensures
        deep_sorted(simplified(t)->Ok_0),
{
    reveal(simplified);
    lemma_settle_fixed(t, MAX_PASSES as nat);
    let s = simplified(t)->Ok_0;
    lemma_sort_all_sorted(pass(s)->Some_0);
}

/// Flattening does not depend on how a sum is nested: `(a + b) + c` flattens as
/// `a + b + c` does, and to `a + b + c` itself when none of them is a sum.
pub proof fn lemma_flatten_nested_sum(a: Term, b: Term, c: Term)
    ensures
        sums_in_sums_rule(Term::Sum(seq![Term::Sum(seq![a, b]), c])) == sums_in_sums_rule(
            Term::Sum(seq![a, b, c]),
        ),
        !(a is Sum) && !(b is Sum) && !(c is Sum) ==> sums_in_sums_rule(
            Term::Sum(seq![a, b, c]),
        ) == Term::Sum(seq![a, b, c]),
{
    let e = Seq::<Term>::empty();
    assert(flat_sums(e) == e);
    assert(e.push(a) =~= seq![a]);
    assert(seq![a].push(b) =~= seq![a, b]);
    assert(seq![a, b].push(c) =~= seq![a, b, c]);
    assert(e.push(Term::Sum(seq![a, b])) =~= seq![Term::Sum(seq![a, b])]);
    assert(seq![Term::Sum(seq![a, b])].push(c) =~= seq![Term::Sum(seq![a, b]), c]);
    lemma_flat_sums_push(e, a);
    lemma_flat_sums_push(seq![a], b);
    lemma_flat_sums_push(seq![a, b], c);
    lemma_flat_sums_push(e, Term::Sum(seq![a, b]));
    lemma_flat_sums_push(seq![Term::Sum(seq![a, b])], c);
    assert(flat_sums(seq![Term::Sum(seq![a, b])]) =~= flat_sums(seq![a, b]));
    assert(flat_sums(seq![Term::Sum(seq![a, b]), c]) =~= flat_sums(seq![a, b, c]));
    if !(a is Sum) && !(b is Sum) && !(c is Sum) {
        assert(flat_sums(seq![a, b, c]) =~= seq![a, b, c]);
    }
}

/// Two terms whose steps agree simplify alike.
proof fn lemma_same_step(t1: Term, t2: Term, fuel: nat)
    requires
        step(t1) == step(t2),
        fuel >= 2,
    ensures
        settle(t1, fuel) == settle(t2, fuel),
{
    if let Some(u) = step(t1) {
        if u == t1 && u != t2 {
            assert(settle(u, (fuel - 1) as nat) == Ok::<Term, SimplifyError>(u));
        } else if u == t2 && u != t1 {
            assert(settle(u, (fuel - 1) as nat) == Ok::<Term, SimplifyError>(u));
        }
    }
}

proof fn lemma_pass_all_push(s: Seq<Term>, x: Term)
    ensures
        pass_all(s.push(x)) == match pass_all(s) {
            None => None,
            Some(r) => match pass(x) {
                None => None,
                Some(y) => Some(r.push(y)),
            },
        },
{
    assert(s.push(x).subrange(0, s.len() as int) =~= s);
}

proof fn lemma_flat_sums_push(s: Seq<Term>, x: Term)
    ensures
        flat_sums(s.push(x)) == flat_sums(s) + match x {
            Term::Sum(w) => flat_sums(w),
            y => seq![y],
        },
{
    assert(s.push(x).subrange(0, s.len() as int) =~= s);
}

/// The sum of two terms that are not sums, not zero and not like terms passes
/// the rules of a sum unchanged.
proof fn lemma_sum_of_two(p: Term, q: Term)
    requires
        !(p is Sum),
        !(q is Sum),
        p != Term::Const(0),
        q != Term::Const(0),
        !like(q, p),
    ensures
        sum_rules(seq![p, q]) == Some(Term::Sum(seq![p, q])),
{
    let w = seq![p, q];
    let e = Seq::<Term>::empty();
    assert(e.push(p) =~= seq![p]);
    assert(seq![p].push(q) =~= w);
    lemma_flat_sums_push(e, p);
    lemma_flat_sums_push(seq![p], q);
    assert(flat_sums(w) =~= w);
    assert(w.drop_last() =~= seq![p]);
    assert(seq![p].drop_last() =~= e);
    assert(drop_zeros(e) == e);
    assert(drop_zeros(seq![p]) == seq![p]);
    assert(drop_zeros(w) =~= w);
    let gp = TermGroup { first: p, total: coef(p), merged: false };
    let gq = TermGroup { first: q, total: coef(q), merged: false };
    assert(group_like(e) == Seq::<TermGroup>::empty());
    assert(group_firsts(Seq::<TermGroup>::empty()) =~= e);
    lemma_first_index(e, like_to(p));
    assert(group_like(seq![p]) =~= seq![gp]);
    assert(group_firsts(seq![gp]) =~= seq![p]);
    lemma_first_index(seq![p], like_to(q));
    assert(first_index(seq![p], like_to(q)) == 1);
    assert(group_like(w) =~= seq![gp, gq]);
    assert(seq![gp, gq].map_values(|x: TermGroup| group_term(x)) =~= w);
    assert(unify(w) == Some(w));
}

/// Simplification does not depend on how a sum is nested: `(a + b) + c`
/// simplifies as `a + b + c` does, where one pass makes of `a` and of `b` two
/// terms that are not sums, not zero and not like terms.
pub proof fn lemma_simplify_nested_sum(a: Term, b: Term, c: Term)
    requires
        pass(a) is Some,
        pass(b) is Some,
        !(pass(a)->Some_0 is Sum),
        !(pass(b)->Some_0 is Sum),
        pass(a)->Some_0 != Term::Const(0),
        pass(b)->Some_0 != Term::Const(0),
        !like(pass(b)->Some_0, pass(a)->Some_0),
    ensures
        simplified(Term::Sum(seq![Term::Sum(seq![a, b]), c])) == simplified(
            Term::Sum(seq![a, b, c]),
        ),
{
    reveal(simplified);
    let pa = pass(a)->Some_0;
    let pb = pass(b)->Some_0;
    let e = Seq::<Term>::empty();
    let inner = seq![a, b];
    assert(e.push(a) =~= seq![a]);
    assert(seq![a].push(b) =~= inner);
    assert(inner.push(c) =~= seq![a, b, c]);
    lemma_pass_all_push(e, a);
    lemma_pass_all_push(seq![a], b);
    lemma_pass_all_push(inner, c);
    assert(pass_all(inner) == Some(seq![pa, pb]));
    assert(seq![pa].push(pb) =~= seq![pa, pb]);
    lemma_sum_of_two(pa, pb);
    let w = seq![pa, pb];
    assert(pass(Term::Sum(inner)) == Some(Term::Sum(w)));
    let s1 = seq![Term::Sum(inner), c];
    assert(e.push(Term::Sum(inner)) =~= seq![Term::Sum(inner)]);
    assert(seq![Term::Sum(inner)].push(c) =~= s1);
    lemma_pass_all_push(e, Term::Sum(inner));
    lemma_pass_all_push(seq![Term::Sum(inner)], c);
    if let Some(pc) = pass(c) {
        let v1 = seq![Term::Sum(w), pc];
        let v2 = seq![pa, pb, pc];
        assert(seq![Term::Sum(w)].push(pc) =~= v1);
        assert(w.push(pc) =~= v2);
        assert(e.push(Term::Sum(w)) =~= seq![Term::Sum(w)]);
        assert(e.push(pa) =~= seq![pa]);
        assert(seq![pa].push(pb) =~= w);
        lemma_flat_sums_push(e, Term::Sum(w));
        lemma_flat_sums_push(seq![Term::Sum(w)], pc);
        lemma_flat_sums_push(e, pa);
        lemma_flat_sums_push(seq![pa], pb);
        lemma_flat_sums_push(w, pc);
        assert(flat_sums(seq![Term::Sum(w)]) =~= w);
        assert(flat_sums(w) =~= w);
        assert(flat_sums(v1) =~= flat_sums(v2));
    }
    assert(pass(Term::Sum(s1)) == pass(Term::Sum(seq![a, b, c])));
    lemma_same_step(
        Term::Sum(seq![Term::Sum(seq![a, b]), c]),
        Term::Sum(seq![a, b, c]),
        MAX_PASSES as nat,
    );
}

} // verus!
