use solhop_types::dimacs::{parse_dimacs_lines, parse_dimacs_str, Dimacs, DimacsError, DimacsParser};
use solhop_types::Var;

#[test]
fn it_works() {
    let wcnf = "p wcnf 1 2\n\
        2 1 0\n\
        3 -1 0
        ";
    let var_1 = Var::new(0);
    assert_eq!(
        parse_dimacs_str(wcnf),
        Ok(Dimacs::Wcnf {
            n_vars: 1,
            hard_weight: None,
            clauses: vec![(vec![var_1.pos_lit()], 2), (vec![var_1.neg_lit()], 3)]
        })
    );
}

#[test]
fn cnf_two_literals() {
    assert_eq!(
        parse_dimacs_str("p cnf 2 1\n1 -2 0"),
        Ok(Dimacs::Cnf {
            n_vars: 2,
            clauses: vec![vec![Var::new(0).pos_lit(), Var::new(1).neg_lit()]]
        })
    );
}

#[test]
fn stops_after_declared_count() {
    let text = "p cnf 3 2\n1 0\n2 0\n3 0\n-1 -2 -3 0\n";
    assert_eq!(
        parse_dimacs_str(text),
        Ok(Dimacs::Cnf {
            n_vars: 3,
            clauses: vec![vec![Var::new(0).pos_lit()], vec![Var::new(1).pos_lit()]]
        })
    );
}

#[test]
fn lines_after_declared_count_are_not_read() {
    // the trailing line would overflow, yet it is never read
    let text = "p cnf 1 1\n1 0\n99999999999 0\n";
    assert_eq!(
        parse_dimacs_str(text),
        Ok(Dimacs::Cnf { n_vars: 1, clauses: vec![vec![Var::new(0).pos_lit()]] })
    );
}

#[test]
fn hard_weight_recorded() {
    let r = parse_dimacs_str("p wcnf 3 5 10\n");
    assert_eq!(
        r,
        Ok(Dimacs::Wcnf { n_vars: 3, clauses: vec![], hard_weight: Some(10) })
    );
}

#[test]
fn hard_weight_absent() {
    let r = parse_dimacs_str("p wcnf 3 5\n");
    assert_eq!(r, Ok(Dimacs::Wcnf { n_vars: 3, clauses: vec![], hard_weight: None }));
}

#[test]
fn comments_do_not_matter() {
    let plain = parse_dimacs_str("p cnf 2 2\n1 2 0\n-1 0\n");
    let commented =
        parse_dimacs_str("c first\n  c indented\np cnf 2 2\nc between\n1 2 0\n\nc again\n-1 0\n");
    assert_eq!(plain, commented);
    assert_eq!(
        commented,
        Ok(Dimacs::Cnf {
            n_vars: 2,
            clauses: vec![
                vec![Var::new(0).pos_lit(), Var::new(1).pos_lit()],
                vec![Var::new(0).neg_lit()]
            ]
        })
    );
}

#[test]
fn literal_overflow_is_fatal() {
    assert_eq!(
        parse_dimacs_str("p cnf 1 1\n2147483648 0\n"),
        Err(DimacsError::MalformedToken)
    );
    assert_eq!(
        parse_dimacs_str("p cnf 1 1\n-2147483649 0\n"),
        Err(DimacsError::MalformedToken)
    );
}

#[test]
fn literal_at_i32_bounds() {
    assert_eq!(
        parse_dimacs_str("2147483647 -2147483648 0\n"),
        Ok(Dimacs::Cnf {
            n_vars: 0,
            clauses: vec![vec![Var::new(2147483646).pos_lit(), Var::new(2147483647).neg_lit()]]
        })
    );
}

#[test]
fn weight_overflow_is_fatal() {
    assert_eq!(
        parse_dimacs_str("p wcnf 1 1\n18446744073709551616 1 0\n"),
        Err(DimacsError::MalformedToken)
    );
    assert_eq!(
        parse_dimacs_str("p wcnf 1 1\n18446744073709551615 1 0\n"),
        Ok(Dimacs::Wcnf {
            n_vars: 1,
            clauses: vec![(vec![Var::new(0).pos_lit()], 18446744073709551615)],
            hard_weight: None
        })
    );
}

#[test]
fn negative_weight_is_fatal() {
    assert_eq!(parse_dimacs_str("p wcnf 1 1\n-3 1 0\n"), Err(DimacsError::MalformedToken));
}

#[test]
fn header_overflow_is_fatal() {
    assert_eq!(
        parse_dimacs_str("p cnf 99999999999999999999 1\n"),
        Err(DimacsError::MalformedToken)
    );
    assert_eq!(
        parse_dimacs_str("p wcnf 1 1 99999999999999999999\n"),
        Err(DimacsError::MalformedToken)
    );
}

#[test]
fn no_header_gives_empty_cnf() {
    assert_eq!(parse_dimacs_str(""), Ok(Dimacs::Cnf { n_vars: 0, clauses: vec![] }));
    assert_eq!(
        parse_dimacs_str("c only a comment\n\n   \n"),
        Ok(Dimacs::Cnf { n_vars: 0, clauses: vec![] })
    );
}

#[test]
fn unrecognised_header_is_ignored() {
    assert_eq!(
        parse_dimacs_str("p dnf 4 1\n1 0\n"),
        Ok(Dimacs::Cnf { n_vars: 0, clauses: vec![vec![Var::new(0).pos_lit()]] })
    );
    assert_eq!(
        parse_dimacs_str("p cnf 4\n1 0\n"),
        Ok(Dimacs::Cnf { n_vars: 0, clauses: vec![vec![Var::new(0).pos_lit()]] })
    );
}

#[test]
fn header_tolerates_whitespace_runs() {
    assert_eq!(
        parse_dimacs_str("  p \t cnf   3\t\t7  \n"),
        Ok(Dimacs::Cnf { n_vars: 3, clauses: vec![] })
    );
}

#[test]
fn zero_inside_line_is_skipped() {
    assert_eq!(
        parse_dimacs_str("1 0 -2 0\n"),
        Ok(Dimacs::Cnf {
            n_vars: 0,
            clauses: vec![vec![Var::new(0).pos_lit(), Var::new(1).neg_lit()]]
        })
    );
}

#[test]
fn tokens_are_signed_digit_runs() {
    assert_eq!(
        parse_dimacs_str("x3y 4-5 --6 - 7\n"),
        Ok(Dimacs::Cnf {
            n_vars: 0,
            clauses: vec![vec![
                Var::new(2).pos_lit(),
                Var::new(3).pos_lit(),
                Var::new(4).neg_lit(),
                Var::new(5).neg_lit(),
                Var::new(6).pos_lit()
            ]]
        })
    );
}

#[test]
fn weight_only_line_gives_empty_clause() {
    assert_eq!(
        parse_dimacs_str("p wcnf 2 2\n7\n\n4 -2 0\n"),
        Ok(Dimacs::Wcnf {
            n_vars: 2,
            clauses: vec![(vec![], 7), (vec![Var::new(1).neg_lit()], 4)],
            hard_weight: None
        })
    );
}

#[test]
fn duplicates_and_complements_kept() {
    assert_eq!(
        parse_dimacs_str("p cnf 1 1\n1 1 -1 0\n"),
        Ok(Dimacs::Cnf {
            n_vars: 1,
            clauses: vec![vec![
                Var::new(0).pos_lit(),
                Var::new(0).pos_lit(),
                Var::new(0).neg_lit()
            ]]
        })
    );
}

#[test]
fn n_vars_not_checked() {
    assert_eq!(
        parse_dimacs_str("p cnf 1 1\n5 0\n"),
        Ok(Dimacs::Cnf { n_vars: 1, clauses: vec![vec![Var::new(4).pos_lit()]] })
    );
}

#[test]
fn crlf_lines() {
    assert_eq!(
        parse_dimacs_str("p cnf 2 1\r\n1 -2 0\r\n"),
        Ok(Dimacs::Cnf {
            n_vars: 2,
            clauses: vec![vec![Var::new(0).pos_lit(), Var::new(1).neg_lit()]]
        })
    );
}

#[test]
fn later_cnf_header_sets_cnf() {
    assert_eq!(
        parse_dimacs_str("p wcnf 1 5 9\np cnf 2 1\n1 0\n"),
        Ok(Dimacs::Cnf { n_vars: 2, clauses: vec![vec![Var::new(0).pos_lit()]] })
    );
}

#[test]
fn parse_given_lines() {
    let lines: Vec<String> = vec!["p cnf 2 1".to_string(), "c x".to_string(), "-1 2 0".to_string()];
    assert_eq!(
        parse_dimacs_lines(&lines),
        Ok(Dimacs::Cnf {
            n_vars: 2,
            clauses: vec![vec![Var::new(0).neg_lit(), Var::new(1).pos_lit()]]
        })
    );
}

#[test]
fn feed_lines_one_by_one() {
    let mut p = DimacsParser::new();
    assert_eq!(p.feed_line("p wcnf 2 2 100"), Ok(false));
    assert_eq!(p.feed_line("c note"), Ok(false));
    assert_eq!(p.feed_line("100 1 2 0"), Ok(false));
    assert_eq!(p.feed_line("99999999999999999999 1 0"), Err(DimacsError::MalformedToken));
    assert_eq!(p.feed_line("x"), Ok(true));
    assert_eq!(
        p.finish(),
        Dimacs::Wcnf {
            n_vars: 2,
            clauses: vec![
                (vec![Var::new(0).pos_lit(), Var::new(1).pos_lit()], 100),
                (vec![], 0)
            ],
            hard_weight: Some(100)
        }
    );
}
