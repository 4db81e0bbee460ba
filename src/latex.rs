//! Rendering as a LaTeX math-mode fragment.
use vstd::prelude::*;
use crate::expr::{Expr, Term, views, lemma_views};

verus! {

/// The decimal digit `d`.
pub open spec fn digit_text(d: int) -> Seq<char> {
    if d == 0 {
        "0"@
    } else if d == 1 {
        "1"@
    } else if d == 2 {
        "2"@
    } else if d == 3 {
        "3"@
    } else if d == 4 {
        "4"@
    } else if d == 5 {
        "5"@
    } else if d == 6 {
        "6"@
    } else if d == 7 {
        "7"@
    } else if d == 8 {
        "8"@
    } else {
        "9"@
    }
}

/// The decimal digits of `n`, most significant first, without leading zeros.
pub open spec fn nat_text(n: nat) -> Seq<char>
    decreases n,
{
    if n < 10 {
        digit_text(n as int)
    } else {
        nat_text(n / 10) + digit_text((n % 10) as int)
    }
}

/// An integer in decimal, with a leading minus sign when negative.
pub open spec fn int_text(c: int) -> Seq<char> {
    if c < 0 {
        "-"@ + nat_text((-c) as nat)
    } else {
        nat_text(c as nat)
    }
}

/// Whether the term is a sum, a product or a negation.
pub open spec fn is_compound(t: Term) -> bool {
    t is Sum || t is Prod || t is Neg
}

/// The text of `t` inside parentheses.
pub open spec fn parenthesized(t: Term) -> Seq<char>
    decreases t, 3int,
{
    "("@ + latex(t) + ")"@
}

/// The LaTeX text of an expression. Children of a product that are sums,
/// constants or negations are parenthesized, and a factor 1 is left out; the base
/// of a power is parenthesized when it is a sum, a product or a negation; a
/// negated term of a sum is written with a minus in place of the plus.
pub open spec fn latex(t: Term) -> Seq<char>
    decreases t, 2int,
{
    match t {
        Term::Const(c) => int_text(c),
        Term::X => "x"@,
        Term::Neg(a) => "-"@ + parenthesized(*a),
        Term::Sum(s) => if s.len() == 0 {
            "0"@
        } else {
            latex(s[0]) + sum_rest(s.subrange(1, s.len() as int))
        },
        Term::Prod(s) => if s.len() == 0 {
            "0"@
        } else {
            factors_text(s)
        },
        Term::Pow(a, b) => (if is_compound(*a) {
            parenthesized(*a)
        } else {
            latex(*a)
        }) + "^{"@ + latex(*b) + "}"@,
        Term::Ln(a) => "ln"@ + parenthesized(*a),
        Term::Sin(a) => "sin"@ + parenthesized(*a),
        Term::Cos(a) => "cos"@ + parenthesized(*a),
        Term::Arcsin(a) => "arcsin"@ + parenthesized(*a),
        Term::Arccos(a) => "arccos"@ + parenthesized(*a),
        Term::Arctan(a) => "arctan"@ + parenthesized(*a),
    }
}

/// The terms of a sum after its first, each with its sign.
pub open spec fn sum_rest(s: Seq<Term>) -> Seq<char>
    decreases s, 0int,
{
    if s.len() == 0 {
        seq![]
    } else {
        sum_rest(s.subrange(0, s.len() - 1)) + match s[s.len() - 1] {
            Term::Neg(a) => "-"@ + latex(*a),
            x => "+"@ + latex(x),
        }
    }
}

/// The factors of a product, one after another.
pub open spec fn factors_text(s: Seq<Term>) -> Seq<char>
    decreases s, 0int,
{
    if s.len() == 0 {
        seq![]
    } else {
        factors_text(s.subrange(0, s.len() - 1)) + factor_text(s[s.len() - 1])
    }
}

/// One factor of a product.
pub open spec fn factor_text(t: Term) -> Seq<char>
    decreases t, 4int,
{
    if t == Term::Const(1) {
        seq![]
    } else if t is Sum || t is Const || t is Neg {
        parenthesized(t)
    } else {
        latex(t)
    }
}


fn write_digit(d: usize, out: &mut String)
    requires
        d < 10,
    ensures
        final(out)@ == old(out)@ + digit_text(d as int),
{
    let t = if d == 0 {
        "0"
    } else if d == 1 {
        "1"
    } else if d == 2 {
        "2"
    } else if d == 3 {
        "3"
    } else if d == 4 {
        "4"
    } else if d == 5 {
        "5"
    } else if d == 6 {
        "6"
    } else if d == 7 {
        "7"
    } else if d == 8 {
        "8"
    } else {
        "9"
    };
    out.append(t);
}

fn write_nat(n: usize, out: &mut String)
    ensures
        final(out)@ == old(out)@ + nat_text(n as nat),
    decreases n,
{
    if n >= 10 {
        write_nat(n / 10, out);
    }
    write_digit(n % 10, out);
    proof {
        if n >= 10 {
            assert(final(out)@ =~= old(out)@ + nat_text(n as nat));
        }
    }
}

fn write_int(c: isize, out: &mut String)
    ensures
        final(out)@ == old(out)@ + int_text(c as int),
{
    if c < 0 {
        out.append("-");
        let m: usize = if c == isize::MIN {
            (isize::MAX as usize) + 1
        } else {
            (-c) as usize
        };
        write_nat(m, out);
        assert(final(out)@ =~= old(out)@ + int_text(c as int));
    } else {
        write_nat(c as usize, out);
    }
}

/// Writes the text of the terms of `v` after the first.
fn write_sum_rest(v: &Vec<Expr>, out: &mut String)
    requires
        v.len() > 0,
    ensures
        final(out)@ == old(out)@ + sum_rest(views(v@).subrange(1, v.len() as int)),
    decreases v, 0int,
{
    proof {
        lemma_views(v@);
    }
    let ghost s = views(v@);
    let ghost start = out@;
    let mut i: usize = 1;
    assert(s.subrange(1, 1).len() == 0);
    assert(out@ =~= start + sum_rest(s.subrange(1, 1)));
    while i < v.len()
        invariant
            1 <= i <= v.len(),
            s == views(v@),
            s.len() == v.len(),
            forall|j: int| 0 <= j < v.len() ==> #[trigger] s[j] == v@[j]@,
            out@ == start + sum_rest(s.subrange(1, i as int)),
        decreases v.len() - i,
    {
        let ghost before = out@;
        let ghost p = s.subrange(1, i + 1);
        assert(p.subrange(0, p.len() - 1) =~= s.subrange(1, i as int));
        assert(p[p.len() - 1] == s[i as int]);
        match &v[i] {
            Expr::Neg(a) => {
                out.append("-");
                a.write_latex(out);
            },
            e => {
                out.append("+");
                e.write_latex(out);
            },
        }
        assert(out@ =~= start + sum_rest(p));
        i = i + 1;
    }
}

/// Writes the text of the factors of `v`.
fn write_factors(v: &Vec<Expr>, out: &mut String)
    ensures
        final(out)@ == old(out)@ + factors_text(views(v@)),
    decreases v, 0int,
{
    proof {
        lemma_views(v@);
    }
    let ghost s = views(v@);
    let ghost start = out@;
    let mut i: usize = 0;
    assert(out@ =~= start + factors_text(s.subrange(0, 0)));
    while i < v.len()
        invariant
            i <= v.len(),
            s == views(v@),
            s.len() == v.len(),
            forall|j: int| 0 <= j < v.len() ==> #[trigger] s[j] == v@[j]@,
            out@ == start + factors_text(s.subrange(0, i as int)),
        decreases v.len() - i,
    {
        let ghost p = s.subrange(0, i + 1);
        assert(p.subrange(0, p.len() - 1) =~= s.subrange(0, i as int));
        assert(p[p.len() - 1] == s[i as int]);
        v[i].write_factor(out);
        assert(out@ =~= start + factors_text(p));
        i = i + 1;
    }
    assert(s.subrange(0, s.len() as int) =~= s);
}

impl Expr {
    /// Writes the text of this expression inside parentheses.
    fn write_parenthesized(&self, out: &mut String)
        ensures
            final(out)@ == old(out)@ + parenthesized(self@),
        decreases self, 3int,
    {
        out.append("(");
        self.write_latex(out);
        out.append(")");
        assert(final(out)@ =~= old(out)@ + parenthesized(self@));
    }

    /// Writes the text of this expression as a factor of a product.
    fn write_factor(&self, out: &mut String)
        ensures
            final(out)@ == old(out)@ + factor_text(self@),
        decreases self, 4int,
    {
        let (is_one, paren) = match self {
            Expr::Const(c) => (*c == 1, true),
            Expr::Sum(_) => (false, true),
            Expr::Neg(_) => (false, true),
            _ => (false, false),
        };
        if is_one {
            assert(old(out)@ + factor_text(self@) =~= old(out)@);
        } else if paren {
            self.write_parenthesized(out);
        } else {
            self.write_latex(out);
        }
    }

    /// Appends the text of this expression to `out`.
    fn write_latex(&self, out: &mut String)
        ensures
            final(out)@ == old(out)@ + latex(self@),
        decreases self, 2int,
    {
        let ghost start = out@;
        match self {
            Expr::Const(c) => write_int(*c, out),
            Expr::X => out.append("x"),
            Expr::Neg(a) => {
                out.append("-");
                a.write_parenthesized(out);
            },
            Expr::Sum(v) => {
                proof {
                    lemma_views(v@);
                }
                if v.len() == 0 {
                    out.append("0");
                } else {
                    v[0].write_latex(out);
                    write_sum_rest(v, out);
                }
            },
            Expr::Prod(v) => {
                proof {
                    lemma_views(v@);
                }
                if v.len() == 0 {
                    out.append("0");
                } else {
                    write_factors(v, out);
                }
            },
            Expr::Pow(a, b) => {
                let paren = match &**a {
                    Expr::Sum(_) => true,
                    Expr::Prod(_) => true,
                    Expr::Neg(_) => true,
                    _ => false,
                };
                if paren {
                    a.write_parenthesized(out);
                } else {
                    a.write_latex(out);
                }
                out.append("^{");
                b.write_latex(out);
                out.append("}");
            },
            Expr::Ln(a) => {
                out.append("ln");
                a.write_parenthesized(out);
            },
            Expr::Sin(a) => {
                out.append("sin");
                a.write_parenthesized(out);
            },
            Expr::Cos(a) => {
                out.append("cos");
                a.write_parenthesized(out);
            },
            Expr::Arcsin(a) => {
                out.append("arcsin");
                a.write_parenthesized(out);
            },
            Expr::Arccos(a) => {
                out.append("arccos");
                a.write_parenthesized(out);
            },
            Expr::Arctan(a) => {
                out.append("arctan");
                a.write_parenthesized(out);
            },
        }
        assert(out@ =~= start + latex(self@));
    }

    /// The expression as a LaTeX math-mode fragment, without enclosing `$`.
    pub fn to_latex(&self) -> (r: String)
        ensures
            r@ == latex(self@),
    {
        let mut out = String::new();
        self.write_latex(&mut out);
        assert(out@ =~= latex(self@));
        out
    }
}

} // verus!
