use solhop_types::{Clause, LBool, Lit, Solution, Var};

#[test]
fn var_literals_belong_to_var() {
    for k in [0usize, 1, 7, 1000, 123456789] {
        let v = Var::new(k);
        assert_eq!(v.index(), k);
        assert_eq!(v.pos_lit().var(), v);
        assert_eq!(v.neg_lit().var(), v);
        assert!(!v.pos_lit().sign());
        assert!(v.neg_lit().sign());
    }
}

#[test]
fn literal_encoding() {
    assert_eq!(Var::new(0).pos_lit().index(), 0);
    assert_eq!(Var::new(0).neg_lit().index(), 1);
    assert_eq!(Var::new(5).pos_lit().index(), 10);
    assert_eq!(Var::new(5).neg_lit().index(), 11);
}

#[test]
fn double_negation() {
    for k in [0usize, 3, 42] {
        for s in [false, true] {
            let l = Lit::new(Var::new(k), s);
            assert_eq!(!!l, l);
            assert_eq!((!l).var(), l.var());
            assert_ne!((!l).sign(), l.sign());
        }
    }
    assert_eq!(!Var::new(2).pos_lit(), Var::new(2).neg_lit());
    assert_eq!((!Var::new(2).neg_lit()).index(), 4);
}

#[test]
fn round_trip() {
    for k in [0usize, 1, 99, 4_000_000_000] {
        for s in [false, true] {
            let l = Lit::new(Var::new(k), s);
            assert_eq!(l.var().index(), k);
            assert_eq!(l.sign(), s);
        }
    }
}

#[test]
fn undef_lit_is_no_literal() {
    let u = Lit::undef();
    assert_eq!(u.index(), usize::MAX);
    assert_ne!(Var::new(0).pos_lit(), u);
    assert_ne!(Var::new(usize::MAX / 2 - 1).neg_lit(), u);
}

#[test]
fn lbool_from_bool() {
    assert_eq!(LBool::from(true), LBool::True);
    assert_eq!(LBool::from(false), LBool::False);
    assert_ne!(LBool::from(true), LBool::Undef);
    assert_ne!(LBool::from(false), LBool::Undef);
}

#[test]
fn lbool_not() {
    assert_eq!(!LBool::True, LBool::False);
    assert_eq!(!LBool::False, LBool::True);
    assert_eq!(!LBool::Undef, LBool::Undef);
    for x in [LBool::True, LBool::False, LBool::Undef] {
        assert_eq!(!!x, x);
    }
}

#[test]
fn containers_hold_values() {
    let c = Clause { lits: vec![Var::new(1).pos_lit(), Var::new(1).pos_lit()] };
    assert_eq!(c.lits.len(), 2);
    assert_eq!(Solution::Sat(vec![true, false]), Solution::Sat(vec![true, false]));
    assert_ne!(Solution::Best(vec![true]), Solution::Sat(vec![true]));
    assert_ne!(Solution::Unsat, Solution::Unknown);
}
