//! The node-local rewrite rules of the simplifier, each stated on the model.
//! A rule leaves every node that it does not apply to unchanged.
use vstd::prelude::*;
use crate::construct::{term_add, term_neg, term_recip};
use crate::expr::Term;

verus! {

/// Why a simplification failed.
#[derive(Debug, PartialEq, Eq, Structural, Clone, Copy)]
pub enum SimplifyError {
    /// An integer constant left the range of `isize`.
    Overflow,
    /// The rewriting did not reach a fixed point within its bound of passes.
    Unsettled,
}

/// Whether `c` can be held in an `isize`.
pub open spec fn fits(c: int) -> bool {
    isize::MIN <= c <= isize::MAX
}

/// The first index whose element satisfies `p`, or the length when none does.
pub open spec fn first_index(s: Seq<Term>, p: spec_fn(Term) -> bool) -> int
    decreases s.len(),
{
    if s.len() == 0 {
        0
    } else if p(s[0]) {
        0
    } else {
        1 + first_index(s.subrange(1, s.len() as int), p)
    }
}

pub proof fn lemma_first_index(s: Seq<Term>, p: spec_fn(Term) -> bool)
    ensures
        0 <= first_index(s, p) <= s.len(),
        forall|i: int| 0 <= i < first_index(s, p) ==> !p(#[trigger] s[i]),
        first_index(s, p) < s.len() ==> p(s[first_index(s, p)]),
    decreases s.len(),
{
    if s.len() > 0 && !p(s[0]) {
        let t = s.subrange(1, s.len() as int);
        lemma_first_index(t, p);
        assert forall|i: int| 0 <= i < first_index(s, p) implies !p(#[trigger] s[i]) by {
            if i > 0 {
                assert(s[i] == t[i - 1]);
            }
        }
    }
}

// ---- sums and products with no child or one child

/// An empty sum or product becomes 0; one with a single child becomes that child.
pub open spec fn singleton_rule(t: Term) -> Term {
    match t {
        Term::Sum(s) => if s.len() == 0 {
            Term::Const(0)
        } else if s.len() == 1 {
            s[0]
        } else {
            t
        },
        Term::Prod(s) => if s.len() == 0 {
            Term::Const(0)
        } else if s.len() == 1 {
            s[0]
        } else {
            t
        },
        _ => t,
    }
}

// ---- flattening

/// The terms of the sum, with every child sum, at any depth, replaced by its
/// flattened terms where it stood.
pub open spec fn flat_sums(s: Seq<Term>) -> Seq<Term>
    decreases s,
{
    if s.len() == 0 {
        s
    } else {
        flat_sums(s.subrange(0, s.len() - 1)) + match s[s.len() - 1] {
            Term::Sum(w) => flat_sums(w),
            x => seq![x],
        }
    }
}

/// The factors of the product, with every child product, at any depth, replaced
/// by its flattened factors where it stood.
pub open spec fn flat_prods(s: Seq<Term>) -> Seq<Term>
    decreases s,
{
    if s.len() == 0 {
        s
    } else {
        flat_prods(s.subrange(0, s.len() - 1)) + match s[s.len() - 1] {
            Term::Prod(w) => flat_prods(w),
            x => seq![x],
        }
    }
}

pub open spec fn sums_in_sums_rule(t: Term) -> Term {
    match t {
        Term::Sum(s) => Term::Sum(flat_sums(s)),
        _ => t,
    }
}

pub open spec fn prods_in_prods_rule(t: Term) -> Term {
    match t {
        Term::Prod(s) => Term::Prod(flat_prods(s)),
        _ => t,
    }
}

// ---- zeros

/// The sequence without its zero constants.
pub open spec fn drop_zeros(s: Seq<Term>) -> Seq<Term>
    decreases s.len(),
{
    if s.len() == 0 {
        s
    } else if s.last() == Term::Const(0) {
        drop_zeros(s.drop_last())
    } else {
        drop_zeros(s.drop_last()).push(s.last())
    }
}

/// Zero terms of a sum are dropped.
pub open spec fn plus_zero_rule(t: Term) -> Term {
    match t {
        Term::Sum(s) => Term::Sum(drop_zeros(s)),
        _ => t,
    }
}

/// A product with a zero factor is zero.
pub open spec fn times_zero_rule(t: Term) -> Term {
    match t {
        Term::Prod(s) => if s.contains(Term::Const(0)) {
            Term::Const(0)
        } else {
            t
        },
        _ => t,
    }
}

// ---- powers

/// Anything to the power 0 is 1.
pub open spec fn zero_pow_rule(t: Term) -> Term {
    match t {
        Term::Pow(_, b) => if *b == Term::Const(0) {
            Term::Const(1)
        } else {
            t
        },
        _ => t,
    }
}

/// Anything to the power 1 is itself.
pub open spec fn one_pow_rule(t: Term) -> Term {
    match t {
        Term::Pow(a, b) => if *b == Term::Const(1) {
            *a
        } else {
            t
        },
        _ => t,
    }
}

// ---- negation

/// The negation of a constant is the negated constant; `None` where that
/// overflows.
pub open spec fn negative_consts_rule(t: Term) -> Option<Term> {
    match t {
        Term::Neg(a) => match *a {
            Term::Const(c) => if fits(-c) {
                Some(Term::Const(-c))
            } else {
                None
            },
            _ => Some(t),
        },
        _ => Some(t),
    }
}

/// Every pair of nested negations is removed.
pub open spec fn double_negative_rule(t: Term) -> Term
    decreases t,
{
    match t {
        Term::Neg(a) => match *a {
            Term::Neg(x) => double_negative_rule(*x),
            _ => t,
        },
        _ => t,
    }
}

/// Each element negated.
pub open spec fn negate_all(s: Seq<Term>) -> Seq<Term>
    decreases s.len(),
{
    if s.len() == 0 {
        s
    } else {
        negate_all(s.drop_last()).push(term_neg(s.last()))
    }
}

/// The negation of a sum is the sum of the negations.
pub open spec fn distribute_negative_rule(t: Term) -> Term {
    match t {
        Term::Neg(a) => match *a {
            Term::Sum(s) => Term::Sum(negate_all(s)),
            _ => t,
        },
        _ => t,
    }
}


// ---- constants

pub open spec fn has_const(s: Seq<Term>) -> bool {
    exists|i: int| 0 <= i < s.len() && #[trigger] s[i] is Const
}

/// The elements that are not constants, in order.
pub open spec fn non_consts(s: Seq<Term>) -> Seq<Term>
    decreases s.len(),
{
    if s.len() == 0 {
        s
    } else if s.last() is Const {
        non_consts(s.drop_last())
    } else {
        non_consts(s.drop_last()).push(s.last())
    }
}

/// The value of a constant factor, and 1 for anything else.
pub open spec fn const_value(t: Term, neutral: int) -> int {
    match t {
        Term::Const(c) => c,
        _ => neutral,
    }
}

/// The product of the constants.
pub open spec fn const_prod(s: Seq<Term>) -> int
    decreases s.len(),
{
    if s.len() == 0 {
        1
    } else {
        const_prod(s.drop_last()) * const_value(s.last(), 1)
    }
}

/// The sum of the constants.
pub open spec fn const_total(s: Seq<Term>) -> int
    decreases s.len(),
{
    if s.len() == 0 {
        0
    } else {
        const_total(s.drop_last()) + const_value(s.last(), 0)
    }
}

/// The sequence with its first constant replaced by `Const(p)` and its other
/// constants left out.
pub open spec fn fold_consts_at(s: Seq<Term>, p: int) -> Seq<Term>
    decreases s.len(),
{
    if s.len() == 0 {
        s
    } else if s.last() is Const {
        if has_const(s.drop_last()) {
            fold_consts_at(s.drop_last(), p)
        } else {
            fold_consts_at(s.drop_last(), p).push(Term::Const(p))
        }
    } else {
        fold_consts_at(s.drop_last(), p).push(s.last())
    }
}

/// The constant factors of a product multiplied into one, which stands where the
/// first constant stood; `None` where that product does not fit an `isize`.
pub open spec fn mult_consts_rule(t: Term) -> Option<Term> {
    match t {
        Term::Prod(s) => if !has_const(s) {
            Some(t)
        } else if fits(const_prod(s)) {
            Some(Term::Prod(fold_consts_at(s, const_prod(s))))
        } else {
            None
        },
        _ => Some(t),
    }
}

/// The factors other than the constant 1.
pub open spec fn drop_ones(s: Seq<Term>) -> Seq<Term>
    decreases s.len(),
{
    if s.len() == 0 {
        s
    } else if s.last() == Term::Const(1) {
        drop_ones(s.drop_last())
    } else {
        drop_ones(s.drop_last()).push(s.last())
    }
}

/// Factors 1 of a product are left out, unless nothing else would remain.
pub open spec fn times_one_rule(t: Term) -> Term {
    match t {
        Term::Prod(s) => if drop_ones(s).len() > 0 {
            Term::Prod(drop_ones(s))
        } else {
            t
        },
        _ => t,
    }
}

/// The constant terms of a sum added into one leading term; `None` where their
/// sum does not fit an `isize`.
pub open spec fn add_consts_rule(t: Term) -> Option<Term> {
    match t {
        Term::Sum(s) => if !has_const(s) {
            Some(t)
        } else {
            if fits(const_total(s)) {
                Some(Term::Sum(seq![Term::Const(const_total(s))] + non_consts(s)))
            } else {
                None
            }
        },
        _ => Some(t),
    }
}

// ---- like terms

/// The numeric coefficient of a term: a constant is its own coefficient, a
/// product led by a constant has that constant, anything else has 1.
pub open spec fn coef(t: Term) -> int {
    match t {
        Term::Const(c) => c,
        Term::Prod(s) => if s.len() > 0 && s[0] is Const {
            s[0]->Const_0
        } else {
            1
        },
        _ => 1,
    }
}

/// The factors of a term other than its coefficient.
pub open spec fn key(t: Term) -> Seq<Term> {
    match t {
        Term::Const(_) => seq![],
        Term::Prod(s) => if s.len() > 0 && s[0] is Const {
            s.subrange(1, s.len() as int)
        } else {
            s
        },
        _ => seq![t],
    }
}

/// Two terms are like terms when they differ at most in their coefficient: their
/// other factors are the same, in any order.
pub open spec fn like(a: Term, b: Term) -> bool {
    key(a).to_multiset() == key(b).to_multiset()
}

/// The term with coefficient `c` and the factors `k`.
pub open spec fn make_term(c: int, k: Seq<Term>) -> Term {
    if k.len() == 0 {
        Term::Const(c)
    } else {
        Term::Prod(seq![Term::Const(c)] + k)
    }
}

/// The terms like `x`.
pub open spec fn like_to(x: Term) -> spec_fn(Term) -> bool {
    |y: Term| like(y, x)
}

/// `a` with the coefficient of `b` added to its own; `None` on overflow.
pub open spec fn merge_like(a: Term, b: Term) -> Option<Term> {
    if fits(coef(a) + coef(b)) {
        Some(make_term(coef(a) + coef(b), key(a)))
    } else {
        None
    }
}

/// A group of like terms of a sum: the first of them, the total of their
/// coefficients, and whether another term joined it.
pub struct TermGroup {
    pub first: Term,
    pub total: int,
    pub merged: bool,
}

/// The first term of each group.
pub open spec fn group_firsts(g: Seq<TermGroup>) -> Seq<Term> {
    g.map_values(|x: TermGroup| x.first)
}

/// The terms grouped from left to right: each term joins the first earlier group
/// of like terms, or starts a group of its own where there is none.
pub open spec fn group_like(s: Seq<Term>) -> Seq<TermGroup>
    decreases s.len(),
{
    if s.len() == 0 {
        seq![]
    } else {
        let g = group_like(s.drop_last());
        let x = s.last();
        let j = first_index(group_firsts(g), like_to(x));
        if j < g.len() {
            g.update(j, TermGroup { first: g[j].first, total: g[j].total + coef(x), merged: true })
        } else {
            g.push(TermGroup { first: x, total: coef(x), merged: false })
        }
    }
}

/// The term that a group becomes: a lone term stays as it is; a merged group is
/// the total coefficient with the common factors.
pub open spec fn group_term(x: TermGroup) -> Term {
    if x.merged {
        make_term(x.total, key(x.first))
    } else {
        x.first
    }
}

/// Like terms added together, each group where its first term stood; `None`
/// where the total coefficient of a merged group does not fit an `isize`.
pub open spec fn unify(s: Seq<Term>) -> Option<Seq<Term>> {
    let g = group_like(s);
    if forall|i: int| 0 <= i < g.len() && #[trigger] g[i].merged ==> fits(g[i].total) {
        Some(g.map_values(|x: TermGroup| group_term(x)))
    } else {
        None
    }
}

pub open spec fn apply_sums_rule(t: Term) -> Option<Term> {
    match t {
        Term::Sum(s) => match unify(s) {
            None => None,
            Some(r) => Some(Term::Sum(r)),
        },
        _ => Some(t),
    }
}

// ---- powers of equal bases

/// The base of a power, or the term itself.
pub open spec fn base(t: Term) -> Term {
    match t {
        Term::Pow(a, _) => *a,
        _ => t,
    }
}

/// The exponent of a power, or 1.
pub open spec fn exponent(t: Term) -> Term {
    match t {
        Term::Pow(_, b) => *b,
        _ => Term::Const(1),
    }
}

/// The factors with the base of `x`.
pub open spec fn same_base(x: Term) -> spec_fn(Term) -> bool {
    |y: Term| base(y) == base(x)
}

/// The power that two factors with equal bases make: two factors that are not
/// powers give the square; otherwise the exponents are added.
pub open spec fn merged_power(y: Term, x: Term) -> Term {
    if !(y is Pow) && !(x is Pow) {
        Term::Pow(Box::new(base(x)), Box::new(Term::Const(2)))
    } else {
        Term::Pow(Box::new(base(x)), Box::new(term_add(exponent(y), exponent(x))))
    }
}

/// Each factor, from left to right, is merged into the first earlier factor with
/// the same base, or kept where there is none.
pub open spec fn consolidate(s: Seq<Term>) -> Seq<Term>
    decreases s.len(),
{
    if s.len() == 0 {
        s
    } else {
        let r = consolidate(s.drop_last());
        let x = s.last();
        let j = first_index(r, same_base(x));
        if j < r.len() {
            r.update(j, merged_power(r[j], x))
        } else {
            r.push(x)
        }
    }
}

pub open spec fn mult_pows_rule(t: Term) -> Term {
    match t {
        Term::Prod(s) => Term::Prod(consolidate(s)),
        _ => t,
    }
}

// ---- reciprocals

/// One of the two is the reciprocal of the other.
pub open spec fn recip_pair(a: Term, b: Term) -> bool {
    a == term_recip(b) || b == term_recip(a)
}

/// The factors that form a reciprocal pair with `x`.
pub open spec fn recip_of(x: Term) -> spec_fn(Term) -> bool {
    |y: Term| recip_pair(y, x)
}

/// `x` added to factors `r`: where an earlier factor forms a reciprocal pair with
/// it, the first such factor is removed and a 1 is added in the same way in
/// place of the pair; otherwise `x` is appended.
pub open spec fn cancel_into(r: Seq<Term>, x: Term) -> Seq<Term>
    decreases r.len(),
{
    let j = first_index(r, recip_of(x));
    if 0 <= j < r.len() {
        cancel_into(r.remove(j), Term::Const(1))
    } else {
        r.push(x)
    }
}

/// The factors added one by one, from left to right, by `cancel_into`.
pub open spec fn cancel(s: Seq<Term>) -> Seq<Term>
    decreases s.len(),
{
    if s.len() == 0 {
        s
    } else {
        cancel_into(cancel(s.drop_last()), s.last())
    }
}

/// No two factors form a reciprocal pair.
pub open spec fn no_recip_pair(s: Seq<Term>) -> bool {
    forall|i: int, j: int| 0 <= i < j < s.len() ==> !recip_pair(#[trigger] s[i], #[trigger] s[j])
}

proof fn lemma_cancel_into_no_pair(r: Seq<Term>, x: Term)
    requires
        no_recip_pair(r),
    ensures
        no_recip_pair(cancel_into(r, x)),
    decreases r.len(),
{
    lemma_first_index(r, recip_of(x));
    let j = first_index(r, recip_of(x));
    if j < r.len() {
        let q = r.remove(j);
        assert forall|a: int, b: int| 0 <= a < b < q.len() implies !recip_pair(
            #[trigger] q[a],
            #[trigger] q[b],
        ) by {
            let ra = if a < j {
                a
            } else {
                a + 1
            };
            let rb = if b < j {
                b
            } else {
                b + 1
            };
            assert(q[a] == r[ra] && q[b] == r[rb]);
        }
        lemma_cancel_into_no_pair(q, Term::Const(1));
    } else {
        let q = r.push(x);
        assert forall|a: int, b: int| 0 <= a < b < q.len() implies !recip_pair(
            #[trigger] q[a],
            #[trigger] q[b],
        ) by {
            if b == r.len() {
                assert(!recip_of(x)(r[a]));
            } else {
                assert(q[a] == r[a] && q[b] == r[b]);
            }
        }
    }
}

/// No reciprocal pair is left among the factors after cancellation.
pub proof fn lemma_cancel_leaves_no_pair(s: Seq<Term>)
    ensures
        no_recip_pair(cancel(s)),
    decreases s.len(),
{
    if s.len() > 0 {
        lemma_cancel_leaves_no_pair(s.drop_last());
        lemma_cancel_into_no_pair(cancel(s.drop_last()), s.last());
    }
}

pub open spec fn cancel_fracs_rule(t: Term) -> Term {
    match t {
        Term::Prod(s) => Term::Prod(cancel(s)),
        _ => t,
    }
}

} // verus!
