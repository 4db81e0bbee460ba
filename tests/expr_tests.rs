use symalg::Expr;

#[test]
fn lib_latex() {
    let mut e = Expr::X;
    e += Expr::X * Expr::Const(5);
    e /= Expr::X;

    // Division multiplies by a power with exponent -1, and a sum standing as a
    // factor is parenthesized.
    assert_eq!(e.to_latex(), "(x+x(5))x^{-1}");
}

#[test]
fn like_terms() {
    let mut a = Expr::Prod(vec![Expr::Const(2), Expr::X]);
    let b = Expr::X;

    assert!(a.like_terms_with(&b));
    assert!(b.like_terms_with(&a));

    a.add_like_term(&b).unwrap();
    assert_eq!(a, Expr::Prod(vec![Expr::Const(3), Expr::X]));

    let mut a = Expr::Const(2);
    let b = Expr::Const(3);

    assert!(a.like_terms_with(&b));

    a.add_like_term(&b).unwrap();
    assert_eq!(a, Expr::Const(5));
}

#[test]
fn lib_simplification() {
    // Singleton test
    let mut e = Expr::Sum(vec![Expr::X]);
    e.simplify_singleton();
    assert_eq!(e, Expr::X);

    // Sums in sums
    let mut e = Expr::X;
    e += Expr::X + Expr::X;
    e.simplify_sums_in_sums();
    assert_eq!(e, Expr::Sum(vec![Expr::X, Expr::X, Expr::X]));

    // Apply sums
    let mut e = Expr::X + Expr::X + Expr::X;
    e.simplify_apply_sums().unwrap();
    e.simplify_singleton();
    assert_eq!(e, Expr::Prod(vec![Expr::Const(3), Expr::X]));

    // Multiply consts
    let mut e = Expr::Const(6) * Expr::X * Expr::Const(5);
    e.simplify().unwrap();
    assert_eq!(e, Expr::Prod(vec![Expr::Const(30), Expr::X]));

    // Multiply into powers
    let mut e = Expr::X * Expr::X;
    e.simplify().unwrap();
    assert_eq!(e, Expr::Pow(Box::new(Expr::X), Box::new(Expr::Const(2))));
    e *= Expr::X;
    e.simplify().unwrap();
    assert_eq!(e, Expr::Pow(Box::new(Expr::X), Box::new(Expr::Const(3))));
    e *= e.clone();
    e.simplify().unwrap();
    assert_eq!(e, Expr::Pow(Box::new(Expr::X), Box::new(Expr::Const(6))));

    // Fraction cancellation 1
    let mut e = Expr::X / Expr::X;
    e.simplify().unwrap();
    assert_eq!(e.to_latex(), "1");

    // Fraction cancellation 2
    let mut e = Expr::X * Expr::X / Expr::X;
    e.simplify().unwrap();
    assert_eq!(e.to_latex(), "x");

    // A bunch of stuff
    let mut e = Expr::X;
    e += Expr::Const(3) + Expr::Const(2);
    e /= Expr::Const(5) + Expr::X;
    e.simplify().unwrap();
    assert_eq!(e, Expr::Const(1));
}

#[test]
fn latex_latex() {
    let mut e = Expr::X;
    e += Expr::X * Expr::Const(5);
    e /= Expr::X;

    println!("{:?}", e);
    assert_eq!(e.to_latex(), "(x+x(5))x^{-1}");
}

#[test]
fn mod_simplification() {
    // Singleton test
    let mut e = Expr::Sum(vec![Expr::X]);
    e.simplify_singleton();
    assert_eq!(e, Expr::X);
}
