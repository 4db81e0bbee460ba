use vstd::prelude::*;

verus! {

/// A mathematical expression in the single free variable `x`.
#[derive(Debug, Eq, Ord)]
pub enum Expr {
    /// An integer constant.
    Const(isize),
    /// The free variable.
    X,
    /// The sum of the children.
    Sum(Vec<Expr>),
    /// The product of the children.
    Prod(Vec<Expr>),
    /// The negation of the child.
    Neg(Box<Expr>),
    /// The base raised to the exponent.
    Pow(Box<Expr>, Box<Expr>),
    /// Natural logarithm.
    Ln(Box<Expr>),
    /// Sine.
    Sin(Box<Expr>),
    /// Cosine.
    Cos(Box<Expr>),
    /// Inverse sine.
    Arcsin(Box<Expr>),
    /// Inverse cosine.
    Arccos(Box<Expr>),
    /// Inverse tangent.
    Arctan(Box<Expr>),
}

/// The mathematical model of an [`Expr`]: the same tree, with unbounded integer
/// constants and sequences in place of vectors.
pub enum Term {
    /// An integer constant.
    Const(int),
    /// The free variable.
    X,
    /// The sum of the children.
    Sum(Seq<Term>),
    /// The product of the children.
    Prod(Seq<Term>),
    /// The negation of the child.
    Neg(Box<Term>),
    /// The base raised to the exponent.
    Pow(Box<Term>, Box<Term>),
    /// Natural logarithm.
    Ln(Box<Term>),
    /// Sine.
    Sin(Box<Term>),
    /// Cosine.
    Cos(Box<Term>),
    /// Inverse sine.
    Arcsin(Box<Term>),
    /// Inverse cosine.
    Arccos(Box<Term>),
    /// Inverse tangent.
    Arctan(Box<Term>),
}

/// The models of a sequence of expressions, element by element.
pub open spec fn views(s: Seq<Expr>) -> Seq<Term>
    decreases s,
{
    if s.len() == 0 {
        Seq::empty()
    } else {
        views(s.drop_last()).push(s.last().model())
    }
}

impl Expr {
    /// The model of this expression.
    pub open spec fn model(&self) -> Term
        decreases self,
    {
        match self {
            Expr::Const(c) => Term::Const(*c as int),
            Expr::X => Term::X,
            Expr::Sum(v) => Term::Sum(views(v@)),
            Expr::Prod(v) => Term::Prod(views(v@)),
            Expr::Neg(a) => Term::Neg(Box::new(a.model())),
            Expr::Pow(a, b) => Term::Pow(Box::new(a.model()), Box::new(b.model())),
            Expr::Ln(a) => Term::Ln(Box::new(a.model())),
            Expr::Sin(a) => Term::Sin(Box::new(a.model())),
            Expr::Cos(a) => Term::Cos(Box::new(a.model())),
            Expr::Arcsin(a) => Term::Arcsin(Box::new(a.model())),
            Expr::Arccos(a) => Term::Arccos(Box::new(a.model())),
            Expr::Arctan(a) => Term::Arctan(Box::new(a.model())),
        }
    }
}

impl View for Expr {
    type V = Term;

    open spec fn view(&self) -> Term {
        self.model()
    }
}

/// The models of a sequence have its length and hold the model of each element.
pub proof fn lemma_views(s: Seq<Expr>)
    ensures
        views(s).len() == s.len(),
        forall|i: int| 0 <= i < s.len() ==> #[trigger] views(s)[i] == s[i]@,
    decreases s.len(),
{
    if s.len() > 0 {
        lemma_views(s.drop_last());
    }
}


impl Expr {
    /// A deep copy of this expression.
    pub fn copy(&self) -> (r: Expr)
        ensures
            r@ == self@,
        decreases self,
    {
        match self {
            Expr::Const(c) => Expr::Const(*c),
            Expr::X => Expr::X,
            Expr::Sum(v) => Expr::Sum(copy_vec(v)),
            Expr::Prod(v) => Expr::Prod(copy_vec(v)),
            Expr::Neg(a) => Expr::Neg(Box::new(a.copy())),
            Expr::Pow(a, b) => Expr::Pow(Box::new(a.copy()), Box::new(b.copy())),
            Expr::Ln(a) => Expr::Ln(Box::new(a.copy())),
            Expr::Sin(a) => Expr::Sin(Box::new(a.copy())),
            Expr::Cos(a) => Expr::Cos(Box::new(a.copy())),
            Expr::Arcsin(a) => Expr::Arcsin(Box::new(a.copy())),
            Expr::Arccos(a) => Expr::Arccos(Box::new(a.copy())),
            Expr::Arctan(a) => Expr::Arctan(Box::new(a.copy())),
        }
    }

    /// Structural equality of the two trees.
    pub fn equals(&self, other: &Expr) -> (r: bool)
        ensures
            r == (self@ == other@),
        decreases self,
    {
        match (self, other) {
            (Expr::Const(a), Expr::Const(b)) => *a == *b,
            (Expr::X, Expr::X) => true,
            (Expr::Sum(v), Expr::Sum(w)) => equals_vec(v, w),
            (Expr::Prod(v), Expr::Prod(w)) => equals_vec(v, w),
            (Expr::Neg(a), Expr::Neg(b)) => a.equals(b),
            (Expr::Pow(a, b), Expr::Pow(c, d)) => a.equals(c) && b.equals(d),
            (Expr::Ln(a), Expr::Ln(b)) => a.equals(b),
            (Expr::Sin(a), Expr::Sin(b)) => a.equals(b),
            (Expr::Cos(a), Expr::Cos(b)) => a.equals(b),
            (Expr::Arcsin(a), Expr::Arcsin(b)) => a.equals(b),
            (Expr::Arccos(a), Expr::Arccos(b)) => a.equals(b),
            (Expr::Arctan(a), Expr::Arctan(b)) => a.equals(b),
            _ => false,
        }
    }
}

/// A deep copy of each element.
pub fn copy_vec(v: &Vec<Expr>) -> (r: Vec<Expr>)
    ensures
        views(r@) == views(v@),
    decreases v,
{
    let mut r: Vec<Expr> = Vec::new();
    let mut i: usize = 0;
    while i < v.len()
        invariant
            i <= v.len(),
            views(r@) == views(v@.subrange(0, i as int)),
        decreases v.len() - i,
    {
        let e = v[i].copy();
        proof {
            assert(v@.subrange(0, i + 1).drop_last() =~= v@.subrange(0, i as int));
            assert(r@.push(e).drop_last() =~= r@);
        }
        r.push(e);
        i = i + 1;
    }
    assert(v@.subrange(0, v.len() as int) =~= v@);
    r
}

/// Element-wise structural equality.
pub fn equals_vec(v: &Vec<Expr>, w: &Vec<Expr>) -> (r: bool)
    ensures
        r == (views(v@) == views(w@)),
    decreases v,
{
    proof {
        lemma_views(v@);
        lemma_views(w@);
    }
    if v.len() != w.len() {
        return false;
    }
    let mut i: usize = 0;
    while i < v.len()
        invariant
            i <= v.len(),
            v.len() == w.len(),
            views(v@).len() == v.len(),
            views(w@).len() == w.len(),
            forall|j: int| 0 <= j < v.len() ==> #[trigger] views(v@)[j] == v@[j]@,
            forall|j: int| 0 <= j < w.len() ==> #[trigger] views(w@)[j] == w@[j]@,
            forall|j: int| 0 <= j < i ==> v@[j]@ == w@[j]@,
        decreases v.len() - i,
    {
        if !v[i].equals(&w[i]) {
            assert(views(v@)[i as int] != views(w@)[i as int]);
            return false;
        }
        i = i + 1;
    }
    assert(views(v@) =~= views(w@));
    true
}

impl Clone for Expr {
    fn clone(&self) -> (r: Expr)
        ensures
            r@ == self@,
    {
        self.copy()
    }
}

impl PartialEq for Expr {
    fn eq(&self, other: &Expr) -> (r: bool) {
        self.equals(other)
    }
}

impl vstd::std_specs::cmp::PartialEqSpecImpl for Expr {
    open spec fn obeys_eq_spec() -> bool {
        true
    }

    open spec fn eq_spec(&self, other: &Expr) -> bool {
        self@ == other@
    }
}


pub proof fn lemma_views_push(s: Seq<Expr>, e: Expr)
    ensures
        views(s.push(e)) == views(s).push(e@),
{
    assert(s.push(e).drop_last() =~= s);
}

/// The prefix of length `i + 1` is the prefix of length `i` and then `s[i]`.
pub proof fn lemma_prefix<A>(s: Seq<A>, i: int)
    requires
        0 <= i < s.len(),
    ensures
        s.subrange(0, i + 1).drop_last() == s.subrange(0, i),
        s.subrange(0, i + 1).last() == s[i],
        s.subrange(0, i + 1).len() == i + 1,
{
    assert(s.subrange(0, i + 1).drop_last() =~= s.subrange(0, i));
}

} // verus!
