use std::cmp::Ordering;
use symalg::{Expr, SimplifyError};

fn pow(a: Expr, b: Expr) -> Expr {
    Expr::Pow(Box::new(a), Box::new(b))
}

fn simplified(mut e: Expr) -> Expr {
    e.simplify().unwrap();
    e
}

fn children_sorted(e: &Expr) -> bool {
    match e {
        Expr::Sum(v) | Expr::Prod(v) => {
            v.windows(2).all(|w| w[0].compare(&w[1]) != Ordering::Greater)
                && v.iter().all(children_sorted)
        }
        Expr::Pow(a, b) => children_sorted(a) && children_sorted(b),
        Expr::Neg(a)
        | Expr::Ln(a)
        | Expr::Sin(a)
        | Expr::Cos(a)
        | Expr::Arcsin(a)
        | Expr::Arccos(a)
        | Expr::Arctan(a) => children_sorted(a),
        _ => true,
    }
}

fn samples() -> Vec<Expr> {
    vec![
        Expr::X + Expr::Const(3) + Expr::X * Expr::Const(2),
        (Expr::X + Expr::Const(1)) * (Expr::Const(2) + Expr::X) * Expr::X,
        -(Expr::X + Expr::Const(4)),
        pow(Expr::X, Expr::Const(2)) * Expr::X / Expr::X,
        Expr::X.sin() + Expr::Const(2) * Expr::X.cos() + Expr::X.sin(),
        pow(Expr::X, Expr::X).derivative(),
        Expr::Arctan(Box::new(Expr::X)).derivative(),
    ]
}

#[test]
fn simplify_is_idempotent() {
    for e in samples() {
        let once = simplified(e);
        let mut twice = once.clone();
        assert_eq!(twice.simplify(), Ok(()));
        assert_eq!(twice, once);
    }
}

#[test]
fn simplified_children_are_in_canonical_order() {
    for e in samples() {
        assert!(children_sorted(&simplified(e)));
    }
    let e = simplified(Expr::X.sin() + Expr::X + Expr::Const(7));
    assert_eq!(
        e,
        Expr::Sum(vec![Expr::Const(7), Expr::X, Expr::X.sin()])
    );
}

#[test]
fn nested_sum_is_flattened() {
    let a = Expr::X.sin();
    let b = Expr::X.cos();
    let c = Expr::X.ln();
    let mut e = Expr::Sum(vec![Expr::Sum(vec![a.clone(), b.clone()]), c.clone()]);
    e.simplify_sums_in_sums();
    assert_eq!(e, Expr::Sum(vec![a.clone(), b.clone(), c.clone()]));
    let left = simplified(Expr::Sum(vec![Expr::Sum(vec![a.clone(), b.clone()]), c.clone()]));
    let right = simplified(Expr::Sum(vec![a, b, c]));
    assert_eq!(left, right);
}

#[test]
fn like_terms_unify() {
    assert_eq!(
        simplified(Expr::X + Expr::X),
        simplified(Expr::Const(2) * Expr::X)
    );
    assert_eq!(
        simplified(Expr::Const(2) * Expr::X + Expr::Const(3) * Expr::X),
        simplified(Expr::Const(5) * Expr::X)
    );
    assert_eq!(
        simplified(Expr::X + Expr::X),
        Expr::Prod(vec![Expr::Const(2), Expr::X])
    );
}

#[test]
fn powers_consolidate() {
    assert_eq!(simplified(Expr::X * Expr::X), pow(Expr::X, Expr::Const(2)));
    assert_eq!(
        simplified(pow(Expr::X, Expr::Const(2)) * Expr::X),
        pow(Expr::X, Expr::Const(3))
    );
}

#[test]
fn fractions_cancel() {
    assert_eq!(simplified(Expr::X / Expr::X), Expr::Const(1));
    assert_eq!(simplified(Expr::X * Expr::X / Expr::X), Expr::X);
}

#[test]
fn derivatives() {
    assert_eq!(
        simplified(pow(Expr::X, Expr::Const(3)).derivative()),
        simplified(Expr::Const(3) * pow(Expr::X, Expr::Const(2)))
    );
    assert_eq!(simplified(Expr::X.sin().derivative()), Expr::X.cos());
    assert_eq!(Expr::Const(5).derivative(), Expr::Const(0));
    assert_eq!(Expr::X.derivative(), Expr::Const(1));
}

#[test]
fn derivative_structure() {
    // product rule on head and tail
    let d = (Expr::X * Expr::X.sin()).derivative();
    assert_eq!(
        d,
        Expr::Sum(vec![
            Expr::Prod(vec![Expr::X, Expr::Prod(vec![Expr::Const(1), Expr::X.cos()])]),
            Expr::Prod(vec![Expr::X.sin(), Expr::Const(1)]),
        ])
    );
    // logarithm
    assert_eq!(
        Expr::X.ln().derivative(),
        Expr::Prod(vec![Expr::Const(1), pow(Expr::X, Expr::Const(-1))])
    );
    // cosine
    assert_eq!(
        Expr::X.cos().derivative(),
        Expr::Prod(vec![Expr::Const(1), Expr::Neg(Box::new(Expr::X.sin()))])
    );
    // negation
    assert_eq!(
        Expr::Neg(Box::new(Expr::X)).derivative(),
        Expr::Neg(Box::new(Expr::Const(1)))
    );
    // sum
    assert_eq!(
        (Expr::X + Expr::Const(4)).derivative(),
        Expr::Sum(vec![Expr::Const(1), Expr::Const(0)])
    );
    // exponent 0 and exponent 1
    assert_eq!(pow(Expr::X.sin(), Expr::Const(0)).derivative(), Expr::Const(0));
    assert_eq!(pow(Expr::X.sin(), Expr::Const(1)).derivative(), Expr::X.sin().derivative());
    // arctangent
    assert_eq!(
        simplified(Expr::Arctan(Box::new(Expr::X)).derivative()),
        pow(Expr::Sum(vec![Expr::Const(1), pow(Expr::X, Expr::Const(2))]), Expr::Const(-1))
    );
}

#[test]
fn rendering_after_cancellation() {
    let mut e = Expr::X + Expr::Const(3) + Expr::Const(2);
    e.simplify().unwrap();
    let mut q = e / (Expr::Const(5) + Expr::X);
    q.simplify().unwrap();
    assert_eq!(q, Expr::Const(1));
    assert_eq!(q.to_latex(), "1");
}

#[test]
fn end_to_end() {
    let mut e = Expr::X;
    e = e + Expr::X * Expr::Const(5);
    e = e / Expr::X;
    e.simplify().unwrap();
    assert_eq!(e, simplified(Expr::Const(6)));
    assert_eq!(e, Expr::Const(6));
}

#[test]
fn latex_rendering() {
    assert_eq!(Expr::Const(-42).to_latex(), "-42");
    assert_eq!(Expr::Const(isize::MIN).to_latex(), "-9223372036854775808");
    assert_eq!((Expr::X - Expr::Const(2)).to_latex(), "x-2");
    assert_eq!(Expr::Neg(Box::new(Expr::X)).to_latex(), "-(x)");
    assert_eq!(
        pow(Expr::X + Expr::Const(1), Expr::Const(2)).to_latex(),
        "(x+1)^{2}"
    );
    assert_eq!((Expr::Const(1) * Expr::X).to_latex(), "x");
    assert_eq!((Expr::X * Expr::Const(1)).to_latex(), "x");
    assert_eq!(Expr::X.sin().to_latex(), "sin(x)");
    assert_eq!(Expr::Arccos(Box::new(Expr::X)).to_latex(), "arccos(x)");
    assert_eq!(Expr::Sum(vec![]).to_latex(), "0");
}

#[test]
fn constructors() {
    assert_eq!(-(-Expr::X), Expr::X);
    assert_eq!(
        Expr::X - Expr::Const(1),
        Expr::Sum(vec![Expr::X, Expr::Neg(Box::new(Expr::Const(1)))])
    );
    assert_eq!(
        (Expr::X + Expr::X) + Expr::Const(1),
        Expr::Sum(vec![Expr::X, Expr::X, Expr::Const(1)])
    );
    assert_eq!(
        Expr::X + (Expr::X + Expr::Const(1)),
        Expr::Sum(vec![Expr::X, Expr::Sum(vec![Expr::X, Expr::Const(1)])])
    );
    assert_eq!(Expr::X.recip(), pow(Expr::X, Expr::Const(-1)));
    assert_eq!(
        pow(Expr::X, Expr::Const(2)).recip(),
        pow(Expr::X, Expr::Neg(Box::new(Expr::Const(2))))
    );
    assert_eq!(
        pow(Expr::X, Expr::Neg(Box::new(Expr::Const(2)))).recip(),
        pow(Expr::X, Expr::Const(2))
    );
    assert_eq!(Expr::X * 3, Expr::Prod(vec![Expr::X, Expr::Const(3)]));
    assert_eq!(2 + Expr::X, Expr::Sum(vec![Expr::Const(2), Expr::X]));
    assert_eq!(
        1 / Expr::X,
        Expr::Prod(vec![Expr::Const(1), pow(Expr::X, Expr::Const(-1))])
    );
}

#[test]
fn canonical_order() {
    assert_eq!(Expr::Const(100).compare(&Expr::X), Ordering::Less);
    assert_eq!(Expr::X.compare(&Expr::Sum(vec![])), Ordering::Less);
    assert_eq!(Expr::Const(-1).compare(&Expr::Const(2)), Ordering::Less);
    assert_eq!(
        Expr::Sum(vec![Expr::X]).compare(&Expr::Sum(vec![Expr::X, Expr::X])),
        Ordering::Less
    );
    assert_eq!(Expr::X.sin().compare(&Expr::X.sin()), Ordering::Equal);
    assert_eq!(Expr::Arctan(Box::new(Expr::X)).compare(&Expr::X.ln()), Ordering::Greater);
    let mut v = vec![Expr::X.cos(), Expr::Const(3), Expr::X, Expr::Const(-2)];
    v.sort();
    assert_eq!(v, vec![Expr::Const(-2), Expr::Const(3), Expr::X, Expr::X.cos()]);
}

#[test]
fn rule_methods() {
    let mut e = Expr::Sum(vec![Expr::X, Expr::Const(0), Expr::Const(2)]);
    e.simplify_plus_zero();
    assert_eq!(e, Expr::Sum(vec![Expr::X, Expr::Const(2)]));

    let mut e = Expr::Prod(vec![Expr::X, Expr::Const(0)]);
    e.simplify_times_zero();
    assert_eq!(e, Expr::Const(0));

    let mut e = pow(Expr::X, Expr::Const(0));
    e.simplify_zero_pow();
    assert_eq!(e, Expr::Const(1));

    let mut e = pow(Expr::X.sin(), Expr::Const(1));
    e.simplify_one_pow();
    assert_eq!(e, Expr::X.sin());

    let mut e = Expr::Neg(Box::new(Expr::Const(4)));
    e.simplify_negative_consts().unwrap();
    assert_eq!(e, Expr::Const(-4));

    let neg = |x: Expr| Expr::Neg(Box::new(x));
    let mut e = neg(neg(neg(Expr::X)));
    e.simplify_double_negative();
    assert_eq!(e, neg(Expr::X));
    let mut e = neg(neg(neg(neg(Expr::X))));
    e.simplify_double_negative();
    assert_eq!(e, Expr::X);

    let mut e = neg(Expr::Sum(vec![Expr::X, neg(Expr::Const(2))]));
    e.simplify_distribute_negative_in_sum().unwrap();
    assert_eq!(e, Expr::Sum(vec![neg(Expr::X), Expr::Const(2)]));

    let mut e = neg(Expr::Const(2) + Expr::X);
    e.simplify_distribute_negative_in_sum().unwrap();
    assert_eq!(e, Expr::Sum(vec![Expr::Const(-2), neg(Expr::X)]));

    let mut e = neg(Expr::Sum(vec![Expr::Const(isize::MIN), Expr::X]));
    let before = e.clone();
    assert_eq!(e.simplify_distribute_negative_in_sum(), Err(SimplifyError::Overflow));
    assert_eq!(e, before);

    let mut e = neg(Expr::X);
    assert_eq!(e.simplify_distribute_negative_in_sum(), Ok(()));
    assert_eq!(e, neg(Expr::X));

    let mut e = Expr::X * Expr::Const(2) * Expr::Const(3);
    e.simplify_mult_consts().unwrap();
    assert_eq!(e, Expr::Prod(vec![Expr::X, Expr::Const(6)]));

    let mut e = Expr::X * Expr::Const(1);
    e.simplify_mult_consts().unwrap();
    assert_eq!(e, Expr::Prod(vec![Expr::X, Expr::Const(1)]));
    e.simplify_times_one();
    assert_eq!(e, Expr::Prod(vec![Expr::X]));

    let mut e = Expr::Prod(vec![Expr::Const(1), Expr::Const(1)]);
    e.simplify_times_one();
    assert_eq!(e, Expr::Prod(vec![Expr::Const(1), Expr::Const(1)]));

    let mut e = Expr::X * Expr::X;
    e.simplify_mult_pows();
    assert_eq!(e, Expr::Prod(vec![pow(Expr::X, Expr::Const(2))]));

    let mut e = Expr::X * Expr::X * Expr::X;
    e.simplify_mult_pows();
    assert_eq!(
        e,
        Expr::Prod(vec![pow(Expr::X, Expr::Sum(vec![Expr::Const(2), Expr::Const(1)]))])
    );

    let mut e = Expr::Prod(vec![
        pow(Expr::Const(1), Expr::Const(-1)),
        Expr::X,
        pow(Expr::X, Expr::Const(-1)),
    ]);
    e.simplify_cancel_fracs();
    assert_eq!(e, Expr::Prod(vec![Expr::Const(1)]));

    let mut e = Expr::Sum(vec![Expr::X, Expr::Sum(vec![Expr::Sum(vec![Expr::X, Expr::X])])]);
    e.simplify_sums_in_sums();
    assert_eq!(e, Expr::Sum(vec![Expr::X, Expr::X, Expr::X]));

    let mut e = Expr::Sum(vec![Expr::Const(2), Expr::X, Expr::Const(5)]);
    e.simplify_add_consts().unwrap();
    assert_eq!(e, Expr::Sum(vec![Expr::Const(7), Expr::X]));

    let mut e = Expr::Prod(vec![Expr::Const(2), Expr::X, Expr::Const(5)]);
    e.simplify_multiply_consts().unwrap();
    assert_eq!(e, Expr::Prod(vec![Expr::Const(10), Expr::X]));

    let mut e = Expr::Prod(vec![Expr::Const(2), Expr::X, Expr::Prod(vec![Expr::X, Expr::X])]);
    e.simplify_prods_in_prods();
    assert_eq!(e, Expr::Prod(vec![Expr::Const(2), Expr::X, Expr::X, Expr::X]));

    let mut e = Expr::Prod(vec![pow(Expr::X, Expr::Const(5)), pow(Expr::X, Expr::Const(-2))]);
    e.simplify_mult_pows();
    assert_eq!(
        e,
        Expr::Prod(vec![pow(
            Expr::X,
            Expr::Sum(vec![Expr::Const(5), Expr::Const(-2)])
        )])
    );

    let mut e = Expr::Prod(vec![Expr::Const(5), Expr::X, pow(Expr::X, Expr::Const(-1))]);
    e.simplify_cancel_fracs();
    assert_eq!(e, Expr::Prod(vec![Expr::Const(5), Expr::Const(1)]));

    let mut e = Expr::Sum(vec![Expr::X.sin(), Expr::Prod(vec![Expr::X, Expr::X])]);
    e.simplify_terms().unwrap();
    assert_eq!(
        e,
        Expr::Sum(vec![Expr::X.sin(), pow(Expr::X, Expr::Const(2))])
    );
}

#[test]
fn overflow_is_reported() {
    let mut e = Expr::Const(isize::MAX) + Expr::Const(1);
    let before = e.clone();
    assert_eq!(e.simplify(), Err(SimplifyError::Overflow));
    assert_eq!(e, before);

    let mut e = Expr::Const(isize::MAX) * Expr::Const(2);
    assert_eq!(e.simplify(), Err(SimplifyError::Overflow));

    let mut e = Expr::Neg(Box::new(Expr::Const(isize::MIN)));
    assert_eq!(e.simplify_negative_consts(), Err(SimplifyError::Overflow));
    assert_eq!(e, Expr::Neg(Box::new(Expr::Const(isize::MIN))));

    let mut a = Expr::Const(isize::MAX);
    assert_eq!(a.add_like_term(&Expr::Const(1)), Err(SimplifyError::Overflow));
    assert_eq!(a, Expr::Const(isize::MAX));

    let mut e = Expr::Sum(vec![Expr::Const(isize::MAX), Expr::Const(1)]);
    assert_eq!(e.simplify_add_consts(), Err(SimplifyError::Overflow));
}

#[test]
fn only_the_final_total_can_overflow() {
    let max = isize::MAX;
    let min = isize::MIN;

    let mut e = Expr::Prod(vec![Expr::Const(max), Expr::Const(2), Expr::Const(0)]);
    e.simplify_mult_consts().unwrap();
    assert_eq!(e, Expr::Prod(vec![Expr::Const(0)]));
    let e = Expr::Prod(vec![Expr::Const(max), Expr::Const(2), Expr::Const(0)]);
    assert_eq!(simplified(e), Expr::Const(0));

    let e = Expr::Prod(vec![Expr::Const(min), Expr::Const(-1), Expr::Const(-1)]);
    assert_eq!(simplified(e), Expr::Const(min));
    let mut e = Expr::Prod(vec![Expr::X, Expr::Const(min), Expr::Const(-1)]);
    assert_eq!(e.simplify_mult_consts(), Err(SimplifyError::Overflow));

    let e = Expr::Sum(vec![Expr::Const(max), Expr::Const(1), Expr::Const(-1)]);
    assert_eq!(simplified(e), Expr::Const(max));
    let mut e = Expr::Sum(vec![Expr::Const(max), Expr::Const(1), Expr::Const(-1)]);
    e.simplify_add_consts().unwrap();
    assert_eq!(e, Expr::Sum(vec![Expr::Const(max)]));

    let mut e = Expr::Sum(vec![
        Expr::Prod(vec![Expr::Const(max), Expr::X]),
        Expr::X,
        Expr::Prod(vec![Expr::Const(-1), Expr::X]),
    ]);
    e.simplify_apply_sums().unwrap();
    assert_eq!(e, Expr::Sum(vec![Expr::Prod(vec![Expr::Const(max), Expr::X])]));

    let mut e = Expr::Sum(vec![Expr::Prod(vec![Expr::Const(max), Expr::X]), Expr::X]);
    assert_eq!(e.simplify_apply_sums(), Err(SimplifyError::Overflow));
}

#[test]
fn zero_product_and_empty_nodes() {
    assert_eq!(simplified(Expr::X * Expr::Const(0)), Expr::Const(0));
    assert_eq!(simplified(Expr::Sum(vec![])), Expr::Const(0));
    assert_eq!(simplified(Expr::Prod(vec![])), Expr::Const(0));
    assert_eq!(simplified(Expr::X + Expr::Const(0)), Expr::X);
    assert_eq!(
        simplified(Expr::Const(2) * Expr::X + Expr::Const(-2) * Expr::X),
        Expr::Const(0)
    );
}

#[test]
fn like_terms_ignore_factor_order() {
    let a = Expr::X * Expr::X.sin();
    let b = Expr::X.sin() * Expr::X;
    assert!(a.like_terms_with(&b));
    assert!(b.like_terms_with(&a));
    let c = Expr::Const(3) * Expr::X.sin() * Expr::X;
    assert!(a.like_terms_with(&c));
    assert!(!a.like_terms_with(&(Expr::X * Expr::X)));
    let mut s = Expr::Sum(vec![a, c]);
    s.simplify_apply_sums().unwrap();
    assert_eq!(
        s,
        Expr::Sum(vec![Expr::Prod(vec![Expr::Const(4), Expr::X, Expr::X.sin()])])
    );
}

#[test]
fn unlike_terms_are_kept() {
    let mut a = Expr::X;
    assert!(!a.like_terms_with(&Expr::X.sin()));
    assert_eq!(a.add_like_term(&Expr::X.sin()), Ok(()));
    assert_eq!(a, Expr::X);
}
