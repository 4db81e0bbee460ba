//! The canonical order on expressions: by variant, in declaration order, then by
//! payload, recursively. It has no algebraic meaning; it fixes the order of the
//! children of sums and products in normal form.
use vstd::prelude::*;
use crate::expr::{Expr, Term, views, lemma_views};

verus! {

/// Position of the variant in the declaration order.
pub open spec fn rank(t: Term) -> int {
    match t {
        Term::Const(_) => 0,
        Term::X => 1,
        Term::Sum(_) => 2,
        Term::Prod(_) => 3,
        Term::Neg(_) => 4,
        Term::Pow(_, _) => 5,
        Term::Ln(_) => 6,
        Term::Sin(_) => 7,
        Term::Cos(_) => 8,
        Term::Arcsin(_) => 9,
        Term::Arccos(_) => 10,
        Term::Arctan(_) => 11,
    }
}

/// -1, 0 or 1 as `a` is below, equal to or above `b`.
pub open spec fn int_cmp(a: int, b: int) -> int {
    if a < b {
        -1
    } else if a > b {
        1
    } else {
        0
    }
}

/// The operand of a one-argument variant.
pub open spec fn operand(t: Term) -> Term {
    match t {
        Term::Neg(a) => *a,
        Term::Ln(a) => *a,
        Term::Sin(a) => *a,
        Term::Cos(a) => *a,
        Term::Arcsin(a) => *a,
        Term::Arccos(a) => *a,
        Term::Arctan(a) => *a,
        _ => t,
    }
}

/// The canonical order: -1, 0 or 1 as `a` comes before, with, or after `b`.
pub open spec fn term_cmp(a: Term, b: Term) -> int
    decreases a,
{
    if rank(a) != rank(b) {
        int_cmp(rank(a), rank(b))
    } else {
        match a {
            Term::Const(x) => match b {
                Term::Const(y) => int_cmp(x, y),
                _ => 0,
            },
            Term::X => 0,
            Term::Sum(s) => match b {
                Term::Sum(t) => seq_cmp(s, t),
                _ => 0,
            },
            Term::Prod(s) => match b {
                Term::Prod(t) => seq_cmp(s, t),
                _ => 0,
            },
            Term::Pow(x1, x2) => match b {
                Term::Pow(y1, y2) => {
                    let c = term_cmp(*x1, *y1);
                    if c != 0 {
                        c
                    } else {
                        term_cmp(*x2, *y2)
                    }
                },
                _ => 0,
            },
            Term::Neg(x) => term_cmp(*x, operand(b)),
            Term::Ln(x) => term_cmp(*x, operand(b)),
            Term::Sin(x) => term_cmp(*x, operand(b)),
            Term::Cos(x) => term_cmp(*x, operand(b)),
            Term::Arcsin(x) => term_cmp(*x, operand(b)),
            Term::Arccos(x) => term_cmp(*x, operand(b)),
            Term::Arctan(x) => term_cmp(*x, operand(b)),
        }
    }
}

/// Lexicographic order on sequences; a proper prefix comes first.
pub open spec fn seq_cmp(s: Seq<Term>, t: Seq<Term>) -> int
    decreases s,
{
    if s.len() == 0 {
        if t.len() == 0 {
            0
        } else {
            -1
        }
    } else if t.len() == 0 {
        1
    } else {
        let c = term_cmp(s[0], t[0]);
        if c != 0 {
            c
        } else {
            seq_cmp(s.subrange(1, s.len() as int), t.subrange(1, t.len() as int))
        }
    }
}

/// Swapping the arguments negates the comparison.
pub proof fn lemma_cmp_antisym(a: Term, b: Term)
    ensures
        term_cmp(a, b) == -term_cmp(b, a),
        -1 <= term_cmp(a, b) <= 1,
    decreases a,
{
    if rank(a) == rank(b) {
        match a {
            Term::Sum(s) => {
                if let Term::Sum(t) = b {
                    lemma_seq_cmp_antisym(s, t);
                }
            },
            Term::Prod(s) => {
                if let Term::Prod(t) = b {
                    lemma_seq_cmp_antisym(s, t);
                }
            },
            Term::Pow(x1, x2) => {
                if let Term::Pow(y1, y2) = b {
                    lemma_cmp_antisym(*x1, *y1);
                    lemma_cmp_antisym(*x2, *y2);
                }
            },
            Term::Neg(x) => lemma_cmp_antisym(*x, operand(b)),
            Term::Ln(x) => lemma_cmp_antisym(*x, operand(b)),
            Term::Sin(x) => lemma_cmp_antisym(*x, operand(b)),
            Term::Cos(x) => lemma_cmp_antisym(*x, operand(b)),
            Term::Arcsin(x) => lemma_cmp_antisym(*x, operand(b)),
            Term::Arccos(x) => lemma_cmp_antisym(*x, operand(b)),
            Term::Arctan(x) => lemma_cmp_antisym(*x, operand(b)),
            _ => {},
        }
    }
}

pub proof fn lemma_seq_cmp_antisym(s: Seq<Term>, t: Seq<Term>)
    ensures
        seq_cmp(s, t) == -seq_cmp(t, s),
        -1 <= seq_cmp(s, t) <= 1,
    decreases s,
{
    if s.len() > 0 && t.len() > 0 {
        lemma_cmp_antisym(s[0], t[0]);
        lemma_seq_cmp_antisym(s.subrange(1, s.len() as int), t.subrange(1, t.len() as int));
    }
}

/// The comparison result as a std ordering.
pub open spec fn ordering_of(c: int) -> core::cmp::Ordering {
    if c < 0 {
        core::cmp::Ordering::Less
    } else if c > 0 {
        core::cmp::Ordering::Greater
    } else {
        core::cmp::Ordering::Equal
    }
}

fn cmp_isize(a: isize, b: isize) -> (r: i8)
    ensures
        r as int == int_cmp(a as int, b as int),
{
    if a < b {
        -1
    } else if a > b {
        1
    } else {
        0
    }
}

fn rank_of(e: &Expr) -> (r: i8)
    ensures
        r as int == rank(e@),
{
    match e {
        Expr::Const(_) => 0,
        Expr::X => 1,
        Expr::Sum(_) => 2,
        Expr::Prod(_) => 3,
        Expr::Neg(_) => 4,
        Expr::Pow(_, _) => 5,
        Expr::Ln(_) => 6,
        Expr::Sin(_) => 7,
        Expr::Cos(_) => 8,
        Expr::Arcsin(_) => 9,
        Expr::Arccos(_) => 10,
        Expr::Arctan(_) => 11,
    }
}

fn operand_of(e: &Expr) -> (r: &Expr)
    requires
        4 == rank(e@) || 6 <= rank(e@),
    ensures
        r@ == operand(e@),
{
    match e {
        Expr::Neg(a) => a,
        Expr::Ln(a) => a,
        Expr::Sin(a) => a,
        Expr::Cos(a) => a,
        Expr::Arcsin(a) => a,
        Expr::Arccos(a) => a,
        Expr::Arctan(a) => a,
        _ => e,
    }
}

impl Expr {
    /// The canonical order as -1, 0 or 1.
    pub fn cmp_value(&self, other: &Expr) -> (r: i8)
        ensures
            r as int == term_cmp(self@, other@),
        decreases self,
    {
        let ra = rank_of(self);
        let rb = rank_of(other);
        if ra != rb {
            return if ra < rb {
                -1
            } else {
                1
            };
        }
        match self {
            Expr::Const(x) => match other {
                Expr::Const(y) => cmp_isize(*x, *y),
                _ => 0,
            },
            Expr::X => 0,
            Expr::Sum(s) => match other {
                Expr::Sum(t) => cmp_vec(s, t),
                _ => 0,
            },
            Expr::Prod(s) => match other {
                Expr::Prod(t) => cmp_vec(s, t),
                _ => 0,
            },
            Expr::Pow(x1, x2) => match other {
                Expr::Pow(y1, y2) => {
                    let c = x1.cmp_value(y1);
                    if c != 0 {
                        c
                    } else {
                        x2.cmp_value(y2)
                    }
                },
                _ => 0,
            },
            Expr::Neg(x) => x.cmp_value(operand_of(other)),
            Expr::Ln(x) => x.cmp_value(operand_of(other)),
            Expr::Sin(x) => x.cmp_value(operand_of(other)),
            Expr::Cos(x) => x.cmp_value(operand_of(other)),
            Expr::Arcsin(x) => x.cmp_value(operand_of(other)),
            Expr::Arccos(x) => x.cmp_value(operand_of(other)),
            Expr::Arctan(x) => x.cmp_value(operand_of(other)),
        }
    }

    /// The canonical order.
    pub fn compare(&self, other: &Expr) -> (r: core::cmp::Ordering)
        ensures
            r == ordering_of(term_cmp(self@, other@)),
    {
        let c = self.cmp_value(other);
        if c < 0 {
            core::cmp::Ordering::Less
        } else if c > 0 {
            core::cmp::Ordering::Greater
        } else {
            core::cmp::Ordering::Equal
        }
    }
}

/// Lexicographic comparison of two vectors of expressions.
pub fn cmp_vec(v: &Vec<Expr>, w: &Vec<Expr>) -> (r: i8)
    ensures
        r as int == seq_cmp(views(v@), views(w@)),
    decreases v,
{
    proof {
        lemma_views(v@);
        lemma_views(w@);
    }
    let ghost s = views(v@);
    let ghost t = views(w@);
    assert(s.subrange(0, s.len() as int) =~= s);
    assert(t.subrange(0, t.len() as int) =~= t);
    let mut i: usize = 0;
    while i < v.len() && i < w.len()
        invariant
            i <= v.len(),
            i <= w.len(),
            s == views(v@),
            t == views(w@),
            s.len() == v.len(),
            t.len() == w.len(),
            forall|j: int| 0 <= j < v.len() ==> #[trigger] s[j] == v@[j]@,
            forall|j: int| 0 <= j < w.len() ==> #[trigger] t[j] == w@[j]@,
            seq_cmp(s, t) == seq_cmp(
                s.subrange(i as int, s.len() as int),
                t.subrange(i as int, t.len() as int),
            ),
        decreases v.len() - i,
    {
        let ghost si = s.subrange(i as int, s.len() as int);
        let ghost ti = t.subrange(i as int, t.len() as int);
        assert(si[0] == s[i as int]);
        assert(ti[0] == t[i as int]);
        assert(si.subrange(1, si.len() as int) =~= s.subrange(i + 1, s.len() as int));
        assert(ti.subrange(1, ti.len() as int) =~= t.subrange(i + 1, t.len() as int));
        let c = v[i].cmp_value(&w[i]);
        if c != 0 {
            assert(seq_cmp(si, ti) == c as int);
            return c;
        }
        i = i + 1;
    }
    if v.len() == w.len() {
        0
    } else if i == v.len() {
        -1
    } else {
        1
    }
}

impl PartialOrd for Expr {
    fn partial_cmp(&self, other: &Expr) -> (r: Option<core::cmp::Ordering>) {
        Some(self.compare(other))
    }
}

impl vstd::std_specs::cmp::PartialOrdSpecImpl for Expr {
    open spec fn obeys_partial_cmp_spec() -> bool {
        true
    }

    open spec fn partial_cmp_spec(&self, other: &Expr) -> Option<core::cmp::Ordering> {
        Some(ordering_of(term_cmp(self@, other@)))
    }
}


/// Children in non-decreasing canonical order.
pub open spec fn sorted(s: Seq<Term>) -> bool {
    forall|i: int| 0 <= i < s.len() - 1 ==> term_cmp(#[trigger] s[i], s[i + 1]) <= 0
}

/// Where `x` goes in `s`: before the first element that it does not exceed.
pub open spec fn insert_pos(s: Seq<Term>, x: Term) -> int
    decreases s.len(),
{
    if s.len() == 0 {
        0
    } else if term_cmp(x, s[0]) <= 0 {
        0
    } else {
        1 + insert_pos(s.subrange(1, s.len() as int), x)
    }
}

/// Insertion sort under the canonical order; equal elements keep their order.
pub open spec fn sort_seq(s: Seq<Term>) -> Seq<Term>
    decreases s.len(),
{
    if s.len() == 0 {
        s
    } else {
        let r = sort_seq(s.drop_last());
        r.insert(insert_pos(r, s.last()), s.last())
    }
}

pub proof fn lemma_insert_pos(s: Seq<Term>, x: Term)
    ensures
        0 <= insert_pos(s, x) <= s.len(),
        forall|i: int| 0 <= i < insert_pos(s, x) ==> term_cmp(x, #[trigger] s[i]) > 0,
        insert_pos(s, x) < s.len() ==> term_cmp(x, s[insert_pos(s, x)]) <= 0,
    decreases s.len(),
{
    if s.len() > 0 && term_cmp(x, s[0]) > 0 {
        let t = s.subrange(1, s.len() as int);
        lemma_insert_pos(t, x);
        assert forall|i: int| 0 <= i < insert_pos(s, x) implies term_cmp(x, #[trigger] s[i]) > 0 by {
            if i > 0 {
                assert(s[i] == t[i - 1]);
            }
        }
    }
}

/// Inserting at `insert_pos` keeps a sorted sequence sorted.
pub proof fn lemma_insert_sorted(s: Seq<Term>, x: Term)
    requires
        sorted(s),
    ensures
        sorted(s.insert(insert_pos(s, x), x)),
{
    lemma_insert_pos(s, x);
    let k = insert_pos(s, x);
    let r = s.insert(k, x);
    assert forall|i: int| 0 <= i < r.len() - 1 implies term_cmp(#[trigger] r[i], r[i + 1]) <= 0 by {
        if i + 1 < k {
            assert(r[i] == s[i] && r[i + 1] == s[i + 1]);
        } else if i + 1 == k {
            lemma_cmp_antisym(x, s[i]);
        } else if i > k {
            assert(r[i] == s[i - 1] && r[i + 1] == s[i]);
        }
    }
}

/// The sorted sequence is sorted and holds the same elements.
pub proof fn lemma_sort_seq(s: Seq<Term>)
    ensures
        sorted(sort_seq(s)),
        sort_seq(s).to_multiset() == s.to_multiset(),
        sort_seq(s).len() == s.len(),
    decreases s.len(),
{
    broadcast use vstd::seq_lib::to_multiset_insert, vstd::seq_lib::to_multiset_build;

    if s.len() > 0 {
        let r = sort_seq(s.drop_last());
        lemma_sort_seq(s.drop_last());
        lemma_insert_pos(r, s.last());
        lemma_insert_sorted(r, s.last());
        assert(s.drop_last().push(s.last()) =~= s);
    }
}

/// Sorts a vector of expressions by insertion under the canonical order.
pub fn sort_vec(v: &Vec<Expr>) -> (r: Vec<Expr>)
    ensures
        views(r@) == sort_seq(views(v@)),
{
    proof {
        lemma_views(v@);
    }
    let mut r: Vec<Expr> = Vec::new();
    let mut i: usize = 0;
    while i < v.len()
        invariant
            i <= v.len(),
            views(v@).len() == v.len(),
            forall|j: int| 0 <= j < v.len() ==> #[trigger] views(v@)[j] == v@[j]@,
            views(r@) == sort_seq(views(v@).subrange(0, i as int)),
        decreases v.len() - i,
    {
        let e = v[i].copy();
        let ghost s = views(r@);
        proof {
            lemma_views(r@);
            lemma_insert_pos(s, e@);
        }
        let mut k: usize = 0;
        while k < r.len() && r[k].cmp_value(&e) < 0
            invariant
                k <= r.len(),
                s == views(r@),
                s.len() == r.len(),
                forall|j: int| 0 <= j < r.len() ==> #[trigger] s[j] == r@[j]@,
                forall|j: int| 0 <= j < k ==> term_cmp(e@, #[trigger] s[j]) > 0,
                0 <= insert_pos(s, e@) <= s.len(),
                forall|j: int| 0 <= j < insert_pos(s, e@) ==> term_cmp(e@, #[trigger] s[j]) > 0,
                insert_pos(s, e@) < s.len() ==> term_cmp(e@, s[insert_pos(s, e@)]) <= 0,
            decreases r.len() - k,
        {
            proof {
                lemma_cmp_antisym(r@[k as int]@, e@);
            }
            k = k + 1;
        }
        proof {
            let ip = insert_pos(s, e@);
            if k < r.len() {
                lemma_cmp_antisym(r@[k as int]@, e@);
                assert(term_cmp(e@, s[k as int]) <= 0);
            }
            if ip < k {
                assert(term_cmp(e@, s[ip]) > 0);
            }
            assert(k == ip);
            let ghost p = views(v@).subrange(0, i + 1);
            assert(p.drop_last() =~= views(v@).subrange(0, i as int));
        }
        r.insert(k, e);
        proof {
            lemma_views(r@);
            assert(views(r@) =~= s.insert(k as int, e@));
        }
        i = i + 1;
    }
    assert(views(v@).subrange(0, v.len() as int) =~= views(v@));
    r
}

} // verus!
