//! The rewrite rules on vectors of children, each proved against its statement
//! on the model.
use vstd::prelude::*;
use vstd::multiset::Multiset;
use crate::construct::term_recip;
use crate::expr::{
    Expr, Term, views, lemma_views, lemma_views_push, lemma_prefix, copy_vec,
};
use crate::rules::{
    flat_sums, flat_prods, drop_zeros, negate_all, fits, has_const, non_consts, const_prod,
    const_total, const_value, coef, key, like, make_term, merge_like, like_to, unify, first_index,
    TermGroup, group_firsts, group_like, group_term,
    lemma_first_index, base, exponent, same_base, consolidate, recip_of, cancel, cancel_into,
    merged_power, fold_consts_at, drop_ones,
};

verus! {

/// Appends a copy of each element of `w` to `r`.
pub fn append_copies(r: &mut Vec<Expr>, w: &Vec<Expr>)
    ensures
        views(final(r)@) == views(old(r)@) + views(w@),
{
    proof {
        lemma_views(w@);
    }
    let ghost r0 = views(r@);
    let ghost t = views(w@);
    let mut k: usize = 0;
    while k < w.len()
        invariant
            k <= w.len(),
            t == views(w@),
            t.len() == w.len(),
            forall|j: int| 0 <= j < w.len() ==> #[trigger] t[j] == w@[j]@,
            views(r@) == r0 + t.subrange(0, k as int),
        decreases w.len() - k,
    {
        let c = w[k].copy();
        proof {
            lemma_views_push(r@, c);
            assert(r0 + t.subrange(0, k + 1) =~= (r0 + t.subrange(0, k as int)).push(c@));
        }
        r.push(c);
        k = k + 1;
    }
    assert(t.subrange(0, w.len() as int) =~= t);
}

/// Pushes `e` onto `r`.
pub fn push_one(r: &mut Vec<Expr>, e: Expr)
    ensures
        views(final(r)@) == views(old(r)@) + seq![e@],
{
    proof {
        lemma_views_push(r@, e);
        assert(views(r@).push(e@) =~= views(r@) + seq![e@]);
    }
    r.push(e);
}

/// The terms of child sums, at any depth, spliced in.
pub fn flat_sums_vec(v: &Vec<Expr>) -> (r: Vec<Expr>)
    ensures
        views(r@) == flat_sums(views(v@)),
    decreases v,
{
    proof {
        lemma_views(v@);
    }
    let ghost s = views(v@);
    let mut r: Vec<Expr> = Vec::new();
    let mut i: usize = 0;
    while i < v.len()
        invariant
            i <= v.len(),
            s == views(v@),
            s.len() == v.len(),
            forall|j: int| 0 <= j < v.len() ==> #[trigger] s[j] == v@[j]@,
            views(r@) == flat_sums(s.subrange(0, i as int)),
        decreases v.len() - i,
    {
        proof {
            lemma_prefix(s, i as int);
        }
        match &v[i] {
            Expr::Sum(w) => {
                assert(s[i as int] == Term::Sum(views(w@)));
                let inner = flat_sums_vec(w);
                append_copies(&mut r, &inner);
            },
            e => push_one(&mut r, e.copy()),
        }
        i = i + 1;
    }
    assert(s.subrange(0, s.len() as int) =~= s);
    r
}

/// The factors of child products, at any depth, spliced in.
pub fn flat_prods_vec(v: &Vec<Expr>) -> (r: Vec<Expr>)
    ensures
        views(r@) == flat_prods(views(v@)),
    decreases v,
{
    proof {
        lemma_views(v@);
    }
    let ghost s = views(v@);
    let mut r: Vec<Expr> = Vec::new();
    let mut i: usize = 0;
    while i < v.len()
        invariant
            i <= v.len(),
            s == views(v@),
            s.len() == v.len(),
            forall|j: int| 0 <= j < v.len() ==> #[trigger] s[j] == v@[j]@,
            views(r@) == flat_prods(s.subrange(0, i as int)),
        decreases v.len() - i,
    {
        proof {
            lemma_prefix(s, i as int);
        }
        match &v[i] {
            Expr::Prod(w) => {
                assert(s[i as int] == Term::Prod(views(w@)));
                let inner = flat_prods_vec(w);
                append_copies(&mut r, &inner);
            },
            e => push_one(&mut r, e.copy()),
        }
        i = i + 1;
    }
    assert(s.subrange(0, s.len() as int) =~= s);
    r
}

/// The elements other than zero constants.
pub fn drop_zeros_vec(v: &Vec<Expr>) -> (r: Vec<Expr>)
    ensures
        views(r@) == drop_zeros(views(v@)),
{
    proof {
        lemma_views(v@);
    }
    let ghost s = views(v@);
    let mut r: Vec<Expr> = Vec::new();
    let mut i: usize = 0;
    while i < v.len()
        invariant
            i <= v.len(),
            s == views(v@),
            s.len() == v.len(),
            forall|j: int| 0 <= j < v.len() ==> #[trigger] s[j] == v@[j]@,
            views(r@) == drop_zeros(s.subrange(0, i as int)),
        decreases v.len() - i,
    {
        proof {
            lemma_prefix(s, i as int);
        }
        let is_zero = match &v[i] {
            Expr::Const(c) => *c == 0,
            _ => false,
        };
        if !is_zero {
            let c = v[i].copy();
            proof {
                lemma_views_push(r@, c);
            }
            r.push(c);
        }
        i = i + 1;
    }
    assert(s.subrange(0, s.len() as int) =~= s);
    r
}

/// Each element negated.
pub fn negate_all_vec(v: &Vec<Expr>) -> (r: Vec<Expr>)
    ensures
        views(r@) == negate_all(views(v@)),
{
    proof {
        lemma_views(v@);
    }
    let ghost s = views(v@);
    let mut r: Vec<Expr> = Vec::new();
    let mut i: usize = 0;
    while i < v.len()
        invariant
            i <= v.len(),
            s == views(v@),
            s.len() == v.len(),
            forall|j: int| 0 <= j < v.len() ==> #[trigger] s[j] == v@[j]@,
            views(r@) == negate_all(s.subrange(0, i as int)),
        decreases v.len() - i,
    {
        proof {
            lemma_prefix(s, i as int);
        }
        let c = v[i].copy().negate();
        proof {
            lemma_views_push(r@, c);
        }
        r.push(c);
        i = i + 1;
    }
    assert(s.subrange(0, s.len() as int) =~= s);
    r
}


/// Whether some element is a constant.
pub fn has_const_vec(v: &Vec<Expr>) -> (r: bool)
    ensures
        r == has_const(views(v@)),
{
    proof {
        lemma_views(v@);
    }
    let ghost s = views(v@);
    let mut i: usize = 0;
    while i < v.len()
        invariant
            i <= v.len(),
            s == views(v@),
            s.len() == v.len(),
            forall|j: int| 0 <= j < v.len() ==> #[trigger] s[j] == v@[j]@,
            forall|j: int| 0 <= j < i ==> !(#[trigger] s[j] is Const),
        decreases v.len() - i,
    {
        if let Expr::Const(_) = &v[i] {
            assert(s[i as int] is Const);
            return true;
        }
        i = i + 1;
    }
    false
}

/// The elements that are not constants.
pub fn non_consts_vec(v: &Vec<Expr>) -> (r: Vec<Expr>)
    ensures
        views(r@) == non_consts(views(v@)),
{
    proof {
        lemma_views(v@);
    }
    let ghost s = views(v@);
    let mut r: Vec<Expr> = Vec::new();
    let mut i: usize = 0;
    while i < v.len()
        invariant
            i <= v.len(),
            s == views(v@),
            s.len() == v.len(),
            forall|j: int| 0 <= j < v.len() ==> #[trigger] s[j] == v@[j]@,
            views(r@) == non_consts(s.subrange(0, i as int)),
        decreases v.len() - i,
    {
        proof {
            lemma_prefix(s, i as int);
        }
        let is_const = match &v[i] {
            Expr::Const(_) => true,
            _ => false,
        };
        if !is_const {
            let c = v[i].copy();
            proof {
                lemma_views_push(r@, c);
            }
            r.push(c);
        }
        i = i + 1;
    }
    assert(s.subrange(0, s.len() as int) =~= s);
    r
}

pub open spec fn abs(x: int) -> int {
    if x < 0 {
        -x
    } else {
        x
    }
}

/// A product with a zero constant is zero.
proof fn lemma_prod_zero(s: Seq<Term>, k: int)
    requires
        0 <= k < s.len(),
        s[k] == Term::Const(0),
    ensures
        const_prod(s) == 0,
    decreases s.len(),
{
    if k < s.len() - 1 {
        lemma_prod_zero(s.drop_last(), k);
    }
}

/// Without a zero constant, the size of the running product never shrinks.
proof fn lemma_prod_grows(s: Seq<Term>, i: int)
    requires
        0 <= i <= s.len(),
        forall|k: int| 0 <= k < s.len() ==> #[trigger] s[k] != Term::Const(0),
    ensures
        abs(const_prod(s)) >= abs(const_prod(s.subrange(0, i))),
    decreases s.len() - i,
{
    if i < s.len() {
        lemma_prefix(s, i);
        lemma_prod_grows(s, i + 1);
        let p = const_prod(s.subrange(0, i));
        let c = const_value(s[i], 1);
        assert(c != 0);
        assert(abs(p * c) >= abs(p)) by (nonlinear_arith)
            requires
                c != 0,
                abs(p) == if p < 0 {
                    -p
                } else {
                    p
                },
                abs(p * c) == if p * c < 0 {
                    -(p * c)
                } else {
                    p * c
                },
        ;
    } else {
        assert(s.subrange(0, i) =~= s);
    }
}

/// The product of the constant elements, where it fits an `isize`.
pub fn const_product_vec(v: &Vec<Expr>) -> (r: Option<isize>)
    ensures
        r == if fits(const_prod(views(v@))) {
            Some(const_prod(views(v@)) as isize)
        } else {
            None::<isize>
        },
{
    proof {
        lemma_views(v@);
    }
    let ghost s = views(v@);
    let mut i: usize = 0;
    while i < v.len()
        invariant
            i <= v.len(),
            s == views(v@),
            s.len() == v.len(),
            forall|j: int| 0 <= j < v.len() ==> #[trigger] s[j] == v@[j]@,
            forall|k: int| 0 <= k < i ==> #[trigger] s[k] != Term::Const(0),
        decreases v.len() - i,
    {
        if let Expr::Const(c) = &v[i] {
            if *c == 0 {
                proof {
                    lemma_prod_zero(s, i as int);
                }
                return Some(0);
            }
        }
        i = i + 1;
    }
    let lim: u128 = isize::MAX as u128 + 1;
    assert(lim <= 0x8000_0000_0000_0000u128);
    let mut m: u128 = 1;
    let mut neg = false;
    i = 0;
    assert(s.subrange(0, 0) =~= Seq::<Term>::empty());
    while i < v.len()
        invariant
            i <= v.len(),
            s == views(v@),
            s.len() == v.len(),
            forall|j: int| 0 <= j < v.len() ==> #[trigger] s[j] == v@[j]@,
            forall|k: int| 0 <= k < s.len() ==> #[trigger] s[k] != Term::Const(0),
            lim == isize::MAX as int + 1,
            lim <= 0x8000_0000_0000_0000u128,
            1 <= m <= lim,
            const_prod(s.subrange(0, i as int)) == if neg {
                -(m as int)
            } else {
                m as int
            },
        decreases v.len() - i,
    {
        proof {
            lemma_prefix(s, i as int);
        }
        if let Expr::Const(c) = &v[i] {
            let ghost p = const_prod(s.subrange(0, i as int));
            let ci = *c as i128;
            let a: u128 = if ci < 0 {
                (-ci) as u128
            } else {
                ci as u128
            };
            assert(a <= 0x8000_0000_0000_0000u128);
            assert(m * a <= 0x4000_0000_0000_0000_0000_0000_0000_0000u128) by (nonlinear_arith)
                requires
                    m <= 0x8000_0000_0000_0000u128,
                    a <= 0x8000_0000_0000_0000u128,
            ;
            let m2 = m * a;
            proof {
                let ca = *c as int;
                assert(const_prod(s.subrange(0, i + 1)) == p * ca);
                if ca < 0 {
                    assert(p * ca == if neg {
                        m2 as int
                    } else {
                        -(m2 as int)
                    }) by (nonlinear_arith)
                        requires
                            a as int == -ca,
                            m2 as int == (m as int) * (a as int),
                            p == if neg {
                                -(m as int)
                            } else {
                                m as int
                            },
                    ;
                } else {
                    assert(p * ca == if neg {
                        -(m2 as int)
                    } else {
                        m2 as int
                    }) by (nonlinear_arith)
                        requires
                            a as int == ca,
                            m2 as int == (m as int) * (a as int),
                            p == if neg {
                                -(m as int)
                            } else {
                                m as int
                            },
                    ;
                }
                assert(m2 >= 1) by (nonlinear_arith)
                    requires
                        m >= 1,
                        a >= 1,
                        m2 == m * a,
                ;
            }
            if m2 > lim {
                proof {
                    lemma_prod_grows(s, i + 1);
                }
                return None;
            }
            m = m2;
            if ci < 0 {
                neg = !neg;
            }
        }
        i = i + 1;
    }
    assert(s.subrange(0, s.len() as int) =~= s);
    assert(1 <= m <= lim);
    let mi = m as i128;
    assert(mi as int == m as int);
    if neg {
        assert(const_prod(s) == -(mi as int));
        Some((-mi) as isize)
    } else if mi <= isize::MAX as i128 {
        assert(const_prod(s) == mi as int);
        Some(mi as isize)
    } else {
        None
    }
}

/// The sum of the constant elements, where it fits an `isize`.
pub fn const_sum_vec(v: &Vec<Expr>) -> (r: Option<isize>)
    ensures
        r == if fits(const_total(views(v@))) {
            Some(const_total(views(v@)) as isize)
        } else {
            None::<isize>
        },
{
    proof {
        lemma_views(v@);
    }
    let ghost s = views(v@);
    let mut acc: i128 = 0;
    let mut i: usize = 0;
    assert(s.subrange(0, 0) =~= Seq::<Term>::empty());
    while i < v.len()
        invariant
            i <= v.len(),
            s == views(v@),
            s.len() == v.len(),
            forall|j: int| 0 <= j < v.len() ==> #[trigger] s[j] == v@[j]@,
            const_total(s.subrange(0, i as int)) == acc as int,
            -(i as int) * 0x8000_0000_0000_0000 <= acc <= (i as int) * 0x8000_0000_0000_0000,
        decreases v.len() - i,
    {
        proof {
            lemma_prefix(s, i as int);
        }
        if let Expr::Const(c) = &v[i] {
            acc = acc + *c as i128;
        }
        i = i + 1;
    }
    assert(s.subrange(0, s.len() as int) =~= s);
    if acc < isize::MIN as i128 || acc > isize::MAX as i128 {
        None
    } else {
        Some(acc as isize)
    }
}

pub proof fn lemma_views_update(s: Seq<Expr>, j: int, e: Expr)
    requires
        0 <= j < s.len(),
    ensures
        views(s.update(j, e)) == views(s).update(j, e@),
{
    lemma_views(s);
    lemma_views(s.update(j, e));
    assert(views(s.update(j, e)) =~= views(s).update(j, e@));
}

/// Copies of the elements from index `from` on.
fn copy_from(v: &Vec<Expr>, from: usize) -> (r: Vec<Expr>)
    requires
        from <= v.len(),
    ensures
        views(r@) == views(v@).subrange(from as int, v.len() as int),
{
    proof {
        lemma_views(v@);
    }
    let ghost s = views(v@);
    let mut r: Vec<Expr> = Vec::new();
    let mut i: usize = from;
    while i < v.len()
        invariant
            from <= i <= v.len(),
            s == views(v@),
            s.len() == v.len(),
            forall|j: int| 0 <= j < v.len() ==> #[trigger] s[j] == v@[j]@,
            views(r@) == s.subrange(from as int, i as int),
        decreases v.len() - i,
    {
        let c = v[i].copy();
        proof {
            lemma_views_push(r@, c);
            assert(s.subrange(from as int, i + 1) =~= s.subrange(from as int, i as int).push(c@));
        }
        r.push(c);
        i = i + 1;
    }
    r
}

impl Expr {
    /// The numeric coefficient: a constant itself, the leading constant of a
    /// product, or 1.
    pub fn coefficient(&self) -> (r: isize)
        ensures
            r as int == coef(self@),
    {
        match self {
            Expr::Const(c) => *c,
            Expr::Prod(v) => {
                proof {
                    lemma_views(v@);
                }
                if v.len() > 0 {
                    if let Expr::Const(c) = &v[0] {
                        return *c;
                    }
                }
                1
            },
            _ => 1,
        }
    }

    /// The factors other than the coefficient.
    pub fn key_factors(&self) -> (r: Vec<Expr>)
        ensures
            views(r@) == key(self@),
    {
        match self {
            Expr::Const(_) => {
                assert(views(Seq::<Expr>::empty()) =~= seq![]);
                Vec::new()
            },
            Expr::Prod(v) => {
                proof {
                    lemma_views(v@);
                }
                if v.len() > 0 {
                    if let Expr::Const(_) = &v[0] {
                        return copy_from(v, 1);
                    }
                }
                copy_vec(v)
            },
            _ => {
                let mut r: Vec<Expr> = Vec::new();
                push_one(&mut r, self.copy());
                assert(views(Seq::<Expr>::empty()) =~= seq![]);
                r
            },
        }
    }

    /// Whether the two are like terms: equal but for their coefficients.
    pub fn like_terms_with(&self, term: &Expr) -> (r: bool)
        ensures
            r == like(self@, term@),
    {
        same_elements(&self.key_factors(), &term.key_factors())
    }

    /// This term with the coefficient of `term` added to its own; `None` on
    /// overflow.
    pub fn merged_with(&self, term: &Expr) -> (r: Option<Expr>)
        ensures
            match merge_like(self@, term@) {
                Some(m) => r is Some && r->Some_0@ == m,
                None => r is None,
            },
    {
        let a = self.coefficient();
        let b = term.coefficient();
        match a.checked_add(b) {
            None => None,
            Some(c) => Some(make_term_exec(c, self.key_factors())),
        }
    }
}

/// The term with coefficient `c` and the factors `k`.
pub fn make_term_exec(c: isize, k: Vec<Expr>) -> (r: Expr)
    ensures
        r@ == make_term(c as int, views(k@)),
{
    proof {
        lemma_views(k@);
    }
    if k.len() == 0 {
        Expr::Const(c)
    } else {
        let mut v: Vec<Expr> = Vec::new();
        push_one(&mut v, Expr::Const(c));
        append_copies(&mut v, &k);
        assert(views(Seq::<Expr>::empty()) =~= seq![]);
        Expr::Prod(v)
    }
}

/// The first index of `r` holding a like term of `x`.
fn find_like(r: &Vec<Expr>, x: &Expr) -> (j: usize)
    ensures
        j as int == first_index(views(r@), like_to(x@)),
{
    proof {
        lemma_views(r@);
        lemma_first_index(views(r@), like_to(x@));
    }
    let ghost s = views(r@);
    let ghost p = like_to(x@);
    let mut j: usize = 0;
    while j < r.len() && !r[j].like_terms_with(x)
        invariant
            j <= r.len(),
            p == like_to(x@),
            s == views(r@),
            s.len() == r.len(),
            forall|i: int| 0 <= i < r.len() ==> #[trigger] s[i] == r@[i]@,
            forall|i: int| 0 <= i < j ==> !p(#[trigger] s[i]),
            0 <= first_index(s, p) <= s.len(),
            forall|i: int| 0 <= i < first_index(s, p) ==> !p(#[trigger] s[i]),
            first_index(s, p) < s.len() ==> p(s[first_index(s, p)]),
        decreases r.len() - j,
    {
        j = j + 1;
    }
    proof {
        let k = first_index(s, p);
        if k < j {
            assert(!p(s[k]));
        }
        if k > j {
            assert(!p(s[j as int]));
        }
    }
    j
}

/// The first index of `r` holding a factor with the base of `x`.
fn find_base(r: &Vec<Expr>, x: &Expr) -> (j: usize)
    ensures
        j as int == first_index(views(r@), same_base(x@)),
{
    proof {
        lemma_views(r@);
        lemma_first_index(views(r@), same_base(x@));
    }
    let ghost s = views(r@);
    let ghost p = same_base(x@);
    let xb = x.base_of();
    let mut j: usize = 0;
    while j < r.len() && !r[j].base_of().equals(xb)
        invariant
            j <= r.len(),
            p == same_base(x@),
            s == views(r@),
            s.len() == r.len(),
            xb@ == base(x@),
            forall|i: int| 0 <= i < r.len() ==> #[trigger] s[i] == r@[i]@,
            forall|i: int| 0 <= i < j ==> !p(#[trigger] s[i]),
            0 <= first_index(s, p) <= s.len(),
            forall|i: int| 0 <= i < first_index(s, p) ==> !p(#[trigger] s[i]),
            first_index(s, p) < s.len() ==> p(s[first_index(s, p)]),
        decreases r.len() - j,
    {
        j = j + 1;
    }
    proof {
        let k = first_index(s, p);
        if k < j {
            assert(!p(s[k]));
        }
        if k > j {
            assert(!p(s[j as int]));
        }
    }
    j
}

/// The first index of `r` holding a factor that forms a reciprocal pair with `x`.
fn find_recip(r: &Vec<Expr>, x: &Expr) -> (j: usize)
    ensures
        j as int == first_index(views(r@), recip_of(x@)),
{
    proof {
        lemma_views(r@);
        lemma_first_index(views(r@), recip_of(x@));
    }
    let ghost s = views(r@);
    let ghost p = recip_of(x@);
    let xr = x.copy().recip();
    let mut j: usize = 0;
    while j < r.len() && !(r[j].equals(&xr) || x.equals(&r[j].copy().recip()))
        invariant
            j <= r.len(),
            p == recip_of(x@),
            s == views(r@),
            s.len() == r.len(),
            xr@ == term_recip(x@),
            forall|i: int| 0 <= i < r.len() ==> #[trigger] s[i] == r@[i]@,
            forall|i: int| 0 <= i < j ==> !p(#[trigger] s[i]),
            0 <= first_index(s, p) <= s.len(),
            forall|i: int| 0 <= i < first_index(s, p) ==> !p(#[trigger] s[i]),
            first_index(s, p) < s.len() ==> p(s[first_index(s, p)]),
        decreases r.len() - j,
    {
        j = j + 1;
    }
    proof {
        let k = first_index(s, p);
        if k < j {
            assert(!p(s[k]));
        }
        if k > j {
            assert(!p(s[j as int]));
        }
    }
    j
}

impl Expr {
    /// The base of a power, or the expression itself.
    pub fn base_of(&self) -> (r: &Expr)
        ensures
            r@ == base(self@),
    {
        match self {
            Expr::Pow(a, _) => a,
            _ => self,
        }
    }

    /// The exponent of a power, or 1.
    pub fn exponent_of(&self) -> (r: Expr)
        ensures
            r@ == exponent(self@),
    {
        match self {
            Expr::Pow(_, b) => b.copy(),
            _ => {
                let one = Expr::Const(1);
                assert(one@ == Term::Const(1));
                one
            },
        }
    }
}

/// Like terms added together, each group where its first term stood; `None`
/// where a merged group's total coefficient does not fit an `isize`.
pub fn unify_vec(v: &Vec<Expr>) -> (r: Option<Vec<Expr>>)
    ensures
        match unify(views(v@)) {
            Some(t) => r is Some && views(r->Some_0@) == t,
            None => r is None,
        },
{
    proof {
        lemma_views(v@);
    }
    let ghost s = views(v@);
    let mut reps: Vec<Expr> = Vec::new();
    let mut totals: Vec<i128> = Vec::new();
    let mut merged: Vec<bool> = Vec::new();
    let mut i: usize = 0;
    assert(s.subrange(0, 0) =~= Seq::<Term>::empty());
    assert(views(reps@) =~= group_firsts(seq![]));
    while i < v.len()
        invariant
            i <= v.len(),
            s == views(v@),
            s.len() == v.len(),
            forall|j: int| 0 <= j < v.len() ==> #[trigger] s[j] == v@[j]@,
            views(reps@) == group_firsts(group_like(s.subrange(0, i as int))),
            totals.len() == group_like(s.subrange(0, i as int)).len(),
            merged.len() == group_like(s.subrange(0, i as int)).len(),
            forall|k: int|
                0 <= k < totals.len() ==> {
                    let g = #[trigger] group_like(s.subrange(0, i as int))[k];
                    &&& totals@[k] as int == g.total
                    &&& merged@[k] == g.merged
                    &&& -(i as int) * 0x8000_0000_0000_0000 <= g.total <= (i as int)
                        * 0x8000_0000_0000_0000
                },
        decreases v.len() - i,
    {
        let ghost g = group_like(s.subrange(0, i as int));
        proof {
            lemma_prefix(s, i as int);
            lemma_views(reps@);
        }
        let x = &v[i];
        let c = x.coefficient() as i128;
        let j = find_like(&reps, x);
        let ghost g2 = group_like(s.subrange(0, i + 1));
        if j < reps.len() {
            let t = totals[j] + c;
            totals.set(j, t);
            merged.set(j, true);
            proof {
                assert(group_firsts(g2) =~= group_firsts(g));
            }
        } else {
            let e = x.copy();
            proof {
                lemma_views_push(reps@, e);
                assert(group_firsts(g2) =~= group_firsts(g).push(e@));
            }
            reps.push(e);
            totals.push(c);
            merged.push(false);
        }
        assert forall|k: int| 0 <= k < totals.len() implies {
            let h = #[trigger] g2[k];
            &&& totals@[k] as int == h.total
            &&& merged@[k] == h.merged
            &&& -((i + 1) as int) * 0x8000_0000_0000_0000 <= h.total <= ((i + 1) as int)
                * 0x8000_0000_0000_0000
        } by {
            if k < g.len() {
                let gk = group_like(s.subrange(0, i as int))[k];
                assert(-(i as int) * 0x8000_0000_0000_0000 <= gk.total);
            }
        }
        i = i + 1;
    }
    assert(s.subrange(0, s.len() as int) =~= s);
    let ghost g = group_like(s);
    let mut k: usize = 0;
    while k < totals.len()
        invariant
            k <= totals.len(),
            s == views(v@),
            g == group_like(s),
            totals.len() == g.len(),
            merged.len() == g.len(),
            forall|q: int|
                0 <= q < totals.len() ==> {
                    let h = #[trigger] g[q];
                    &&& totals@[q] as int == h.total
                    &&& merged@[q] == h.merged
                },
            forall|q: int| 0 <= q < k && #[trigger] g[q].merged ==> fits(g[q].total),
        decreases totals.len() - k,
    {
        if merged[k] && (totals[k] < isize::MIN as i128 || totals[k] > isize::MAX as i128) {
            assert(g[k as int].merged && !fits(g[k as int].total));
            assert(!(forall|q: int| 0 <= q < g.len() && #[trigger] g[q].merged ==> fits(g[q].total)));
            assert(unify(s) is None);
            return None;
        }
        k = k + 1;
    }
    proof {
        lemma_views(reps@);
    }
    let mut out: Vec<Expr> = Vec::new();
    let ghost target = g.map_values(|x: TermGroup| group_term(x));
    k = 0;
    while k < reps.len()
        invariant
            k <= reps.len(),
            s == views(v@),
            g == group_like(s),
            reps.len() == g.len(),
            totals.len() == g.len(),
            merged.len() == g.len(),
            views(reps@) == group_firsts(g),
            views(reps@).len() == reps.len(),
            forall|q: int| 0 <= q < reps.len() ==> #[trigger] views(reps@)[q] == reps@[q]@,
            forall|q: int|
                0 <= q < totals.len() ==> {
                    let h = #[trigger] g[q];
                    &&& totals@[q] as int == h.total
                    &&& merged@[q] == h.merged
                },
            forall|q: int| 0 <= q < g.len() && #[trigger] g[q].merged ==> fits(g[q].total),
            target == g.map_values(|x: TermGroup| group_term(x)),
            views(out@) == target.subrange(0, k as int),
        decreases reps.len() - k,
    {
        assert(group_firsts(g)[k as int] == g[k as int].first);
        assert(reps@[k as int]@ == g[k as int].first);
        let t = if merged[k] {
            assert(g[k as int].merged);
            make_term_exec(totals[k] as isize, reps[k].key_factors())
        } else {
            reps[k].copy()
        };
        proof {
            lemma_views_push(out@, t);
            assert(target.subrange(0, k + 1) =~= target.subrange(0, k as int).push(t@));
        }
        out.push(t);
        k = k + 1;
    }
    assert(target.subrange(0, reps.len() as int) =~= target);
    Some(out)
}

/// Factors with equal bases merged, each into the first earlier one.
pub fn consolidate_vec(v: &Vec<Expr>) -> (r: Vec<Expr>)
    ensures
        views(r@) == consolidate(views(v@)),
{
    proof {
        lemma_views(v@);
    }
    let ghost s = views(v@);
    let mut r: Vec<Expr> = Vec::new();
    let mut i: usize = 0;
    while i < v.len()
        invariant
            i <= v.len(),
            s == views(v@),
            s.len() == v.len(),
            forall|j: int| 0 <= j < v.len() ==> #[trigger] s[j] == v@[j]@,
            consolidate(s.subrange(0, i as int)) == views(r@),
        decreases v.len() - i,
    {
        proof {
            lemma_prefix(s, i as int);
            lemma_views(r@);
        }
        let x = &v[i];
        let j = find_base(&r, x);
        if j < r.len() {
            let m = merged_power_exec(&r[j], x);
            proof {
                lemma_views_update(r@, j as int, m);
            }
            r.set(j, m);
        } else {
            let c = x.copy();
            proof {
                lemma_views_push(r@, c);
            }
            r.push(c);
        }
        i = i + 1;
    }
    assert(s.subrange(0, s.len() as int) =~= s);
    r
}

/// Reciprocal pairs cancelled, each factor against the first earlier one.
pub fn cancel_vec(v: &Vec<Expr>) -> (r: Vec<Expr>)
    ensures
        views(r@) == cancel(views(v@)),
{
    proof {
        lemma_views(v@);
    }
    let ghost s = views(v@);
    let mut r: Vec<Expr> = Vec::new();
    let mut i: usize = 0;
    while i < v.len()
        invariant
            i <= v.len(),
            s == views(v@),
            s.len() == v.len(),
            forall|j: int| 0 <= j < v.len() ==> #[trigger] s[j] == v@[j]@,
            cancel(s.subrange(0, i as int)) == views(r@),
        decreases v.len() - i,
    {
        proof {
            lemma_prefix(s, i as int);
            lemma_views(r@);
        }
        let mut x = v[i].copy();
        let ghost target = cancel_into(views(r@), x@);
        proof {
            lemma_prefix(s, i as int);
        }
        loop
            invariant_except_break
                cancel_into(views(r@), x@) == target,
            ensures
                views(r@) == target,
            decreases r.len(),
        {
            proof {
                lemma_views(r@);
            }
            let j = find_recip(&r, &x);
            if j < r.len() {
                proof {
                    lemma_views(r@.remove(j as int));
                    assert(views(r@.remove(j as int)) =~= views(r@).remove(j as int));
                }
                r.remove(j);
                x = Expr::Const(1);
                assert(x@ == Term::Const(1));
            } else {
                proof {
                    lemma_views_push(r@, x);
                }
                r.push(x);
                break;
            }
        }
        i = i + 1;
    }
    assert(s.subrange(0, s.len() as int) =~= s);
    r
}


/// The power that two factors with equal bases make.
fn merged_power_exec(y: &Expr, x: &Expr) -> (r: Expr)
    ensures
        r@ == merged_power(y@, x@),
{
    let y_pow = match y {
        Expr::Pow(_, _) => true,
        _ => false,
    };
    let x_pow = match x {
        Expr::Pow(_, _) => true,
        _ => false,
    };
    if !y_pow && !x_pow {
        let two = Expr::Const(2);
        assert(two@ == Term::Const(2));
        Expr::Pow(Box::new(x.base_of().copy()), Box::new(two))
    } else {
        let e = y.exponent_of().plus(x.exponent_of());
        Expr::Pow(Box::new(x.base_of().copy()), Box::new(e))
    }
}

/// Whether the two vectors hold the same elements, each as often, in any order.
pub fn same_elements(v: &Vec<Expr>, w: &Vec<Expr>) -> (r: bool)
    ensures
        r == (views(v@).to_multiset() == views(w@).to_multiset()),
{
    broadcast use vstd::seq_lib::to_multiset_remove, vstd::seq_lib::to_multiset_len,
        vstd::seq_lib::to_multiset_contains, vstd::multiset::group_multiset_axioms;

    proof {
        lemma_views(v@);
    }
    let ghost s = views(v@);
    let ghost t = views(w@);
    let mut rest = copy_vec(w);
    let mut i: usize = 0;
    assert(s.subrange(0, 0).to_multiset() =~= Multiset::empty());
    while i < v.len()
        invariant
            i <= v.len(),
            s == views(v@),
            t == views(w@),
            s.len() == v.len(),
            forall|j: int| 0 <= j < v.len() ==> #[trigger] s[j] == v@[j]@,
            s.subrange(0, i as int).to_multiset().add(views(rest@).to_multiset())
                == t.to_multiset(),
        decreases v.len() - i,
    {
        proof {
            lemma_views(rest@);
        }
        let ghost q = views(rest@);
        let x = &v[i];
        let mut j: usize = 0;
        while j < rest.len() && !rest[j].equals(x)
            invariant
                j <= rest.len(),
                q == views(rest@),
                q.len() == rest.len(),
                forall|k: int| 0 <= k < rest.len() ==> #[trigger] q[k] == rest@[k]@,
                forall|k: int| 0 <= k < j ==> q[k] != x@,
            decreases rest.len() - j,
        {
            j = j + 1;
        }
        proof {
            vstd::seq_lib::lemma_multiset_commutative(s.subrange(0, i as int), seq![s[i as int]]);
            assert(s.subrange(0, i as int) + seq![s[i as int]] =~= s.subrange(0, i + 1));
            let e = Seq::<Term>::empty();
            vstd::seq_lib::to_multiset_build(e, x@);
            assert(e.push(x@) =~= seq![x@]);
            assert(e.to_multiset() =~= Multiset::empty()) by {
                vstd::seq_lib::to_multiset_len(e);
                vstd::multiset::lemma_multiset_empty_len(e.to_multiset());
            }
            assert(seq![s[i as int]].to_multiset() =~= Multiset::empty().insert(x@));
        }
        if j == rest.len() {
            proof {
                assert(!q.contains(x@));
                vstd::seq_lib::to_multiset_contains(q, x@);
                assert(q.to_multiset().count(x@) == 0);
                let pre = s.subrange(0, i + 1);
                let post = s.subrange(i + 1, s.len() as int);
                vstd::seq_lib::lemma_multiset_commutative(pre, post);
                assert(pre + post =~= s);
                assert(pre.to_multiset().count(x@) == s.subrange(0, i as int).to_multiset().count(
                    x@,
                ) + 1);
                assert(s.to_multiset().count(x@) > t.to_multiset().count(x@));
            }
            return false;
        }
        proof {
            assert(q[j as int] == x@);
            assert(views(rest@.remove(j as int)) =~= q.remove(j as int)) by {
                lemma_views(rest@.remove(j as int));
            }
            vstd::seq_lib::to_multiset_remove(q, j as int);
            vstd::seq_lib::to_multiset_contains(q, x@);
            assert(q.contains(x@));
            assert(s.subrange(0, i + 1).to_multiset().add(q.remove(j as int).to_multiset())
                =~= t.to_multiset());
        }
        rest.remove(j);
        i = i + 1;
    }
    proof {
        assert(s.subrange(0, s.len() as int) =~= s);
        lemma_views(rest@);
    }
    if rest.len() == 0 {
        assert(views(rest@).to_multiset() =~= Multiset::empty());
        assert(s.to_multiset().add(Multiset::empty()) =~= s.to_multiset());
        true
    } else {
        proof {
            assert(t.to_multiset().len() == s.to_multiset().len() + views(rest@).to_multiset().len());
            assert(t.len() > s.len());
        }
        false
    }
}

/// The elements with the first constant replaced by `Const(p)` and the other
/// constants left out.
pub fn fold_consts_vec(v: &Vec<Expr>, p: isize) -> (r: Vec<Expr>)
    ensures
        views(r@) == fold_consts_at(views(v@), p as int),
{
    proof {
        lemma_views(v@);
    }
    let ghost s = views(v@);
    let mut r: Vec<Expr> = Vec::new();
    let mut seen = false;
    let mut i: usize = 0;
    while i < v.len()
        invariant
            i <= v.len(),
            s == views(v@),
            s.len() == v.len(),
            forall|j: int| 0 <= j < v.len() ==> #[trigger] s[j] == v@[j]@,
            views(r@) == fold_consts_at(s.subrange(0, i as int), p as int),
            seen == has_const(s.subrange(0, i as int)),
        decreases v.len() - i,
    {
        proof {
            lemma_prefix(s, i as int);
            let pre = s.subrange(0, i + 1);
            if has_const(s.subrange(0, i as int)) {
                let k = choose|k: int| 0 <= k < i && #[trigger] s.subrange(0, i as int)[k] is Const;
                assert(pre[k] is Const);
            }
            if has_const(pre) && !(s[i as int] is Const) {
                let k = choose|k: int| 0 <= k < i + 1 && #[trigger] pre[k] is Const;
                assert(s.subrange(0, i as int)[k] is Const);
            }
            if s[i as int] is Const {
                assert(pre[i as int] is Const);
            }
        }
        let is_const = match &v[i] {
            Expr::Const(_) => true,
            _ => false,
        };
        if is_const {
            if !seen {
                let c = Expr::Const(p);
                assert(c@ == Term::Const(p as int));
                proof {
                    lemma_views_push(r@, c);
                }
                r.push(c);
                seen = true;
            }
        } else {
            let c = v[i].copy();
            proof {
                lemma_views_push(r@, c);
            }
            r.push(c);
        }
        i = i + 1;
    }
    assert(s.subrange(0, s.len() as int) =~= s);
    r
}

/// The elements other than the constant 1.
pub fn drop_ones_vec(v: &Vec<Expr>) -> (r: Vec<Expr>)
    ensures
        views(r@) == drop_ones(views(v@)),
{
    proof {
        lemma_views(v@);
    }
    let ghost s = views(v@);
    let mut r: Vec<Expr> = Vec::new();
    let mut i: usize = 0;
    while i < v.len()
        invariant
            i <= v.len(),
            s == views(v@),
            s.len() == v.len(),
            forall|j: int| 0 <= j < v.len() ==> #[trigger] s[j] == v@[j]@,
            views(r@) == drop_ones(s.subrange(0, i as int)),
        decreases v.len() - i,
    {
        proof {
            lemma_prefix(s, i as int);
        }
        let is_one = match &v[i] {
            Expr::Const(c) => *c == 1,
            _ => false,
        };
        if !is_one {
            let c = v[i].copy();
            proof {
                lemma_views_push(r@, c);
            }
            r.push(c);
        }
        i = i + 1;
    }
    assert(s.subrange(0, s.len() as int) =~= s);
    r
}

} // verus!
