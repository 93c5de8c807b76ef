use crate::{Lit, Var, VAR_INDEX_LIMIT};
use vstd::prelude::*;

verus! {

// ---------------------------------------------------------------------------
// Characters and runs
// ---------------------------------------------------------------------------

/// Unicode White_Space: what trimming removes and what separates the parts
/// of a problem line.
pub open spec fn is_ws(c: char) -> bool {
    ('\u{9}' <= c && c <= '\u{d}') || c == ' ' || c == '\u{85}' || c == '\u{a0}'
        || c == '\u{1680}' || ('\u{2000}' <= c && c <= '\u{200a}') || c == '\u{2028}'
        || c == '\u{2029}' || c == '\u{202f}' || c == '\u{205f}' || c == '\u{3000}'
}

/// An ASCII decimal digit.
pub open spec fn is_digit(c: char) -> bool {
    '0' <= c && c <= '9'
}

/// The value of a decimal digit.
pub open spec fn digit_value(c: char) -> nat {
    (c as int - '0' as int) as nat
}

/// The value of a sequence of decimal digits, most significant first.
pub open spec fn digits_value(d: Seq<char>) -> nat
    decreases d.len(),
{
    if d.len() == 0 {
        0
    } else {
        10 * digits_value(d.drop_last()) + digit_value(d.last())
    }
}

/// The end of the run of whitespace that starts at `i`.
pub open spec fn ws_end(s: Seq<char>, i: int) -> int
    decreases s.len() - i,
{
    if 0 <= i < s.len() && is_ws(s[i]) {
        ws_end(s, i + 1)
    } else {
        i
    }
}

/// The end of the run of digits that starts at `i`.
pub open spec fn digit_end(s: Seq<char>, i: int) -> int
    decreases s.len() - i,
{
    if 0 <= i < s.len() && is_digit(s[i]) {
        digit_end(s, i + 1)
    } else {
        i
    }
}

proof fn lemma_digit_end(s: Seq<char>, i: int)
    requires
        0 <= i <= s.len(),
    ensures
        i <= digit_end(s, i) <= s.len(),
        forall|k: int| i <= k < digit_end(s, i) ==> is_digit(#[trigger] s[k]),
        digit_end(s, i) < s.len() ==> !is_digit(s[digit_end(s, i)]),
    decreases s.len() - i,
{
    if i < s.len() && is_digit(s[i]) {
        lemma_digit_end(s, i + 1);
    }
}

/// The value of the digits from `i` to `j`.
pub open spec fn value_at(s: Seq<char>, i: int, j: int) -> nat {
    digits_value(s.subrange(i, j))
}

// ---------------------------------------------------------------------------
// Clause lines
// ---------------------------------------------------------------------------

/// A number on a clause line: whether a minus sign leads it, and its magnitude.
pub struct Token {
    pub neg: bool,
    pub mag: nat,
}

/// The numbers of `s` from position `i` on: each maximal run of digits, with
/// the minus sign that stands right before it, from left to right.
pub open spec fn tokens_from(s: Seq<char>, i: int) -> Seq<Token>
    decreases s.len() - i,
{
    if i < 0 || i >= s.len() {
        Seq::empty()
    } else if is_digit(s[i]) {
        let j = digit_end(s, i);
        if j <= i || j > s.len() {
            Seq::empty()
        } else {
            seq![Token { neg: false, mag: value_at(s, i, j) }] + tokens_from(s, j)
        }
    } else if s[i] == '-' && i + 1 < s.len() && is_digit(s[i + 1]) {
        let j = digit_end(s, i + 1);
        if j <= i || j > s.len() {
            Seq::empty()
        } else {
            seq![Token { neg: true, mag: value_at(s, i + 1, j) }] + tokens_from(s, j)
        }
    } else {
        tokens_from(s, i + 1)
    }
}

/// The numbers of a line.
pub open spec fn tokens(s: Seq<char>) -> Seq<Token> {
    tokens_from(s, 0)
}

/// A weight is read as a `u64`: no sign, and no more than `u64::MAX`.
pub open spec fn weight_fits(t: Token) -> bool {
    !t.neg && t.mag <= u64::MAX
}

/// A literal is read as an `i32`, and its variable must be encodable.
pub open spec fn lit_fits(t: Token) -> bool {
    &&& if t.neg { t.mag <= 0x8000_0000 } else { t.mag <= 0x7fff_ffff }
    &&& t.mag == 0 || t.mag - 1 < VAR_INDEX_LIMIT
}

/// The literal that a nonzero number stands for.
pub open spec fn lit_of(t: Token) -> Lit {
    Var::spec_new((t.mag - 1) as usize).spec_lit(t.neg)
}

/// The literals of a sequence of numbers, zeros left out.
pub open spec fn lits_of(ts: Seq<Token>) -> Seq<Lit>
    decreases ts.len(),
{
    if ts.len() == 0 {
        Seq::empty()
    } else if ts.last().mag == 0 {
        lits_of(ts.drop_last())
    } else {
        lits_of(ts.drop_last()).push(lit_of(ts.last()))
    }
}

/// Whether a weighted clause line begins with a weight.
pub open spec fn has_weight(ts: Seq<Token>, is_wcnf: bool) -> bool {
    is_wcnf && ts.len() > 0
}

/// The numbers of a clause line that stand for literals.
pub open spec fn lit_tokens(ts: Seq<Token>, is_wcnf: bool) -> Seq<Token> {
    if has_weight(ts, is_wcnf) {
        ts.drop_first()
    } else {
        ts
    }
}

/// Whether every number of a clause line fits the type it is read into.
pub open spec fn clause_fits(ts: Seq<Token>, is_wcnf: bool) -> bool {
    &&& has_weight(ts, is_wcnf) ==> weight_fits(ts[0])
    &&& forall|i: int|
        0 <= i < lit_tokens(ts, is_wcnf).len() ==> #[trigger] lit_fits(
            lit_tokens(ts, is_wcnf)[i],
        )
}

/// The weight of a clause line: its first number in a weighted formula, else 0.
pub open spec fn clause_weight(ts: Seq<Token>, is_wcnf: bool) -> u64 {
    if has_weight(ts, is_wcnf) {
        ts[0].mag as u64
    } else {
        0
    }
}

// ---------------------------------------------------------------------------
// Problem lines
// ---------------------------------------------------------------------------

/// What a problem line declares.
pub struct HeaderModel {
    pub is_wcnf: bool,
    pub n_vars: nat,
    pub n_clauses: nat,
    pub hard_weight: Option<nat>,
}

/// Whether `w` stands in `s` at position `a`.
pub open spec fn word_at(s: Seq<char>, a: int, w: Seq<char>) -> bool {
    0 <= a && a + w.len() <= s.len() && s.subrange(a, a + w.len()) == w
}

/// Whitespace, digits, whitespace, digits from `b` on: the two values and
/// the position after the second.
pub open spec fn two_numbers(s: Seq<char>, b: int) -> Option<(nat, nat, int)> {
    let c = ws_end(s, b);
    let d = digit_end(s, c);
    let e = ws_end(s, d);
    let f = digit_end(s, e);
    if c > b && d > c && e > d && f > e {
        Some((value_at(s, c, d), value_at(s, e, f), f))
    } else {
        None
    }
}

/// Whitespace and digits from `f` on, if they stand there: their value.
pub open spec fn opt_number(s: Seq<char>, f: int) -> Option<nat> {
    let g = ws_end(s, f);
    let h = digit_end(s, g);
    if g > f && h > g {
        Some(value_at(s, g, h))
    } else {
        None
    }
}

/// The problem line that starts with the `p` at position `k`, if it has
/// either form `p cnf <vars> <clauses>` or `p wcnf <vars> <clauses> [<hard>]`;
/// what follows the form is not looked at.
pub open spec fn header_of(s: Seq<char>, k: int) -> Option<HeaderModel> {
    let a = ws_end(s, k + 1);
    if a <= k + 1 {
        None
    } else if word_at(s, a, seq!['c', 'n', 'f']) {
        match two_numbers(s, a + 3) {
            Some((v, c, _)) => Some(
                HeaderModel { is_wcnf: false, n_vars: v, n_clauses: c, hard_weight: None },
            ),
            None => None,
        }
    } else if word_at(s, a, seq!['w', 'c', 'n', 'f']) {
        match two_numbers(s, a + 4) {
            Some((v, c, f)) => Some(
                HeaderModel {
                    is_wcnf: true,
                    n_vars: v,
                    n_clauses: c,
                    hard_weight: opt_number(s, f),
                },
            ),
            None => None,
        }
    } else {
        None
    }
}

/// Counts are read as `usize` and the hard weight as `u64`.
pub open spec fn header_fits(h: HeaderModel) -> bool {
    &&& h.n_vars <= usize::MAX
    &&& h.n_clauses <= usize::MAX
    &&& h.hard_weight matches Some(w) ==> w <= u64::MAX
}

// ---------------------------------------------------------------------------
// Scanning
// ---------------------------------------------------------------------------

fn char_is_ws(c: char) -> (r: bool)
    ensures
        r == is_ws(c),
{
    ('\u{9}' <= c && c <= '\u{d}') || c == ' ' || c == '\u{85}' || c == '\u{a0}'
        || c == '\u{1680}' || ('\u{2000}' <= c && c <= '\u{200a}') || c == '\u{2028}'
        || c == '\u{2029}' || c == '\u{202f}' || c == '\u{205f}' || c == '\u{3000}'
}

fn char_is_digit(c: char) -> (r: bool)
    ensures
        r == is_digit(c),
{
    '0' <= c && c <= '9'
}

/// The end of the whitespace run at `i`.
fn skip_ws(s: &Vec<char>, i: usize) -> (j: usize)
    requires
        i <= s.len(),
    ensures
        j == ws_end(s@, i as int),
        i <= j <= s.len(),
{
    let mut j = i;
    while j < s.len() && char_is_ws(s[j])
        invariant
            i <= j <= s.len(),
            ws_end(s@, i as int) == ws_end(s@, j as int),
        decreases s.len() - j,
    {
        j = j + 1;
    }
    j
}

proof fn lemma_value_step(s: Seq<char>, i: int, j: int)
    requires
        0 <= i <= j < s.len(),
    ensures
        value_at(s, i, j + 1) == 10 * value_at(s, i, j) + digit_value(s[j]),
{
    assert(s.subrange(i, j + 1).drop_last() =~= s.subrange(i, j));
}

/// The digit run at `i`: its end, and its value where that fits a `u64`.
fn scan_number(s: &Vec<char>, i: usize) -> (r: (usize, u64, bool))
    requires
        i <= s.len(),
    ensures
        r.0 == digit_end(s@, i as int),
        i <= r.0 <= s.len(),
        r.2 <==> value_at(s@, i as int, r.0 as int) <= u64::MAX,
        r.2 ==> r.1 == value_at(s@, i as int, r.0 as int),
{
    let mut j = i;
    let mut v: u64 = 0;
    let mut fits = true;
    assert(s@.subrange(i as int, i as int) =~= Seq::<char>::empty());
    while j < s.len() && char_is_digit(s[j])
        invariant
            i <= j <= s.len(),
            digit_end(s@, i as int) == digit_end(s@, j as int),
            fits ==> v == value_at(s@, i as int, j as int),
            !fits ==> value_at(s@, i as int, j as int) > u64::MAX,
        decreases s.len() - j,
    {
        let d = (s[j] as u32 - '0' as u32) as u64;
        proof {
            lemma_value_step(s@, i as int, j as int);
        }
        if fits {
            if v <= (u64::MAX - d) / 10 {
                v = v * 10 + d;
            } else {
                fits = false;
            }
        }
        j = j + 1;
    }
    (j, v, fits)
}

// ---------------------------------------------------------------------------
// Reading a problem line
// ---------------------------------------------------------------------------

/// The error of a parse.
#[derive(Clone, Copy, PartialEq, Eq, Structural, Debug)]
pub enum DimacsError {
    /// A number does not fit the integer type that it is read into.
    MalformedToken,
}

/// A problem line, read.
struct Header {
    is_wcnf: bool,
    n_vars: usize,
    n_clauses: usize,
    hard_weight: Option<u64>,
}

spec fn header_matches(x: Header, h: HeaderModel) -> bool {
    &&& x.is_wcnf == h.is_wcnf
    &&& x.n_vars == h.n_vars
    &&& x.n_clauses == h.n_clauses
    &&& match h.hard_weight {
        Some(w) => x.hard_weight == Some(w as u64),
        None => x.hard_weight is None,
    }
}

/// Whether the three characters of `w` stand in `s` at `a`.
fn word3_at(s: &Vec<char>, a: usize, w0: char, w1: char, w2: char) -> (r: bool)
    ensures
        r == word_at(s@, a as int, seq![w0, w1, w2]),
{
    if a <= s.len() && s.len() - a >= 3 {
        let r = s[a] == w0 && s[a + 1] == w1 && s[a + 2] == w2;
        assert(r == (s@.subrange(a as int, a + 3) =~= seq![w0, w1, w2]));
        r
    } else {
        false
    }
}

fn word4_at(s: &Vec<char>, a: usize, w0: char, w1: char, w2: char, w3: char) -> (r: bool)
    ensures
        r == word_at(s@, a as int, seq![w0, w1, w2, w3]),
{
    if a <= s.len() && s.len() - a >= 4 {
        let r = s[a] == w0 && s[a + 1] == w1 && s[a + 2] == w2 && s[a + 3] == w3;
        assert(r == (s@.subrange(a as int, a + 4) =~= seq![w0, w1, w2, w3]));
        r
    } else {
        false
    }
}

/// A number read as a `usize`.
fn count_of(r: (usize, u64, bool)) -> (c: Option<usize>)
    ensures
        c matches Some(v) ==> r.2 && v == r.1,
        c is None ==> !r.2 || r.1 > usize::MAX,
{
    if r.2 && r.1 <= usize::MAX as u64 {
        Some(r.1 as usize)
    } else {
        None
    }
}

/// Reads the two counts of a problem line from `b` on.
fn read_two_numbers(s: &Vec<char>, b: usize) -> (r: Result<Option<(usize, usize, usize)>, DimacsError>)
    requires
        b <= s.len(),
    ensures
        match two_numbers(s@, b as int) {
            None => r == Ok::<Option<(usize, usize, usize)>, DimacsError>(None),
            Some((v, c, f)) => if v <= usize::MAX && c <= usize::MAX {
                r == Ok::<Option<(usize, usize, usize)>, DimacsError>(
                    Some((v as usize, c as usize, f as usize)),
                )
            } else {
                r is Err
            },
        },
        r matches Ok(Some(t)) ==> t.2 <= s.len() && two_numbers(s@, b as int)->Some_0.2
            == t.2 as int,
{
    let c = skip_ws(s, b);
    let (d, v, v_fits) = scan_number(s, c);
    let e = skip_ws(s, d);
    let (f, n, n_fits) = scan_number(s, e);
    if !(c > b && d > c && e > d && f > e) {
        return Ok(None);
    }
    match (count_of((d, v, v_fits)), count_of((f, n, n_fits))) {
        (Some(v), Some(n)) => Ok(Some((v, n, f))),
        _ => Err(DimacsError::MalformedToken),
    }
}

/// Reads the problem line whose `p` stands at `k`.
fn read_header(s: &Vec<char>, k: usize) -> (r: Result<Option<Header>, DimacsError>)
    requires
        k < s.len(),
    ensures
        match header_of(s@, k as int) {
            None => r matches Ok(None),
            Some(h) => if header_fits(h) {
                r matches Ok(Some(x)) && header_matches(x, h)
            } else {
                r is Err
            },
        },
{
    let a = skip_ws(s, k + 1);
    if a <= k + 1 {
        return Ok(None);
    }
    if word3_at(s, a, 'c', 'n', 'f') {
        match read_two_numbers(s, a + 3) {
            Err(e) => Err(e),
            Ok(None) => Ok(None),
            Ok(Some((v, c, _))) => Ok(
                Some(Header { is_wcnf: false, n_vars: v, n_clauses: c, hard_weight: None }),
            ),
        }
    } else if word4_at(s, a, 'w', 'c', 'n', 'f') {
        match read_two_numbers(s, a + 4) {
            Err(e) => Err(e),
            Ok(None) => Ok(None),
            Ok(Some((v, c, f))) => {
                let g = skip_ws(s, f);
                let (h, w, w_fits) = scan_number(s, g);
                if g > f && h > g {
                    if w_fits {
                        Ok(
                            Some(
                                Header {
                                    is_wcnf: true,
                                    n_vars: v,
                                    n_clauses: c,
                                    hard_weight: Some(w),
                                },
                            ),
                        )
                    } else {
                        Err(DimacsError::MalformedToken)
                    }
                } else {
                    Ok(
                        Some(
                            Header { is_wcnf: true, n_vars: v, n_clauses: c, hard_weight: None },
                        ),
                    )
                }
            },
        }
    } else {
        Ok(None)
    }
}

// ---------------------------------------------------------------------------
// Reading a clause line
// ---------------------------------------------------------------------------

proof fn lemma_lits_of_push(ts: Seq<Token>, t: Token)
    ensures
        lits_of(ts.push(t)) == if t.mag == 0 {
            lits_of(ts)
        } else {
            lits_of(ts).push(lit_of(t))
        },
{
    assert(ts.push(t).drop_last() =~= ts);
}

proof fn lemma_lit_tokens_push(ts: Seq<Token>, t: Token, is_wcnf: bool)
    ensures
        has_weight(ts, is_wcnf) ==> lit_tokens(ts.push(t), is_wcnf) =~= lit_tokens(
            ts,
            is_wcnf,
        ).push(t),
        !has_weight(ts, is_wcnf) && !is_wcnf ==> lit_tokens(ts.push(t), is_wcnf) =~= ts.push(t),
        !has_weight(ts, is_wcnf) && is_wcnf ==> lit_tokens(ts.push(t), is_wcnf) =~= seq![],
{
}

/// The literal that a fitting nonzero number stands for.
fn make_lit(neg: bool, mag: u64) -> (l: Lit)
    requires
        lit_fits(Token { neg, mag: mag as nat }),
        mag != 0,
    ensures
        l == lit_of(Token { neg, mag: mag as nat }),
{
    let v = Var::new((mag - 1) as usize);
    if neg {
        v.neg_lit()
    } else {
        v.pos_lit()
    }
}

/// Reads a clause line: its literals and its weight.
fn read_clause(s: &Vec<char>, is_wcnf: bool) -> (r: Result<(Vec<Lit>, u64), DimacsError>)
    ensures
        clause_fits(tokens(s@), is_wcnf) ==> (r matches Ok((cl, w)) && cl@ == lits_of(
            lit_tokens(tokens(s@), is_wcnf),
        ) && w == clause_weight(tokens(s@), is_wcnf)),
        !clause_fits(tokens(s@), is_wcnf) ==> r is Err,
{
    let mut cl: Vec<Lit> = Vec::new();
    let mut weight: u64 = 0;
    let mut i: usize = 0;
    let mut first = true;
    let ghost mut seen: Seq<Token> = Seq::empty();
    assert(seen + tokens_from(s@, 0) =~= tokens_from(s@, 0));
    while i < s.len()
        invariant
            i <= s.len(),
            tokens(s@) == seen + tokens_from(s@, i as int),
            clause_fits(seen, is_wcnf),
            cl@ == lits_of(lit_tokens(seen, is_wcnf)),
            weight == clause_weight(seen, is_wcnf),
            first == (seen.len() == 0),
        decreases s.len() - i,
    {
        let ghost old_seen = seen;
        let c = s[i];
        let mut found = false;
        let mut neg = false;
        let mut start: usize = i;
        if char_is_digit(c) {
            found = true;
        } else if c == '-' && i + 1 < s.len() && char_is_digit(s[i + 1]) {
            found = true;
            neg = true;
            start = i + 1;
        }
        if !found {
            i = i + 1;
        } else {
            proof {
                lemma_digit_end(s@, start as int);
            }
            let (j, mag, fits) = scan_number(s, start);
            let ghost t = Token { neg, mag: value_at(s@, start as int, j as int) };
            assert(tokens_from(s@, i as int) == seq![t] + tokens_from(s@, j as int));
            proof {
                seen = seen.push(t);
            }
            assert(tokens(s@) =~= seen + tokens_from(s@, j as int));
            proof {
                lemma_lit_tokens_push(old_seen, t, is_wcnf);
            }
            if is_wcnf && first {
                if neg || !fits {
                    assert(!weight_fits(tokens(s@)[0]));
                    return Err(DimacsError::MalformedToken);
                }
                weight = mag;
                assert(cl@ =~= lits_of(lit_tokens(seen, is_wcnf)));
            } else {
                let ok = fits && (if neg {
                    mag <= 0x8000_0000
                } else {
                    mag <= 0x7fff_ffff
                }) && (mag == 0 || ((mag - 1) as usize) < VAR_INDEX_LIMIT);
                let ghost lt = lit_tokens(seen, is_wcnf);
                if !ok {
                    assert(lt[lt.len() - 1] == t);
                    assert(lit_tokens(tokens(s@), is_wcnf)[lt.len() - 1] == t);
                    assert(!lit_fits(t));
                    return Err(DimacsError::MalformedToken);
                }
                proof {
                    lemma_lits_of_push(lit_tokens(old_seen, is_wcnf), t);
                }
                if mag != 0 {
                    let l = make_lit(neg, mag);
                    cl.push(l);
                }
                assert forall|k: int| 0 <= k < lt.len() implies #[trigger] lit_fits(lt[k]) by {
                    if k < lt.len() - 1 {
                        assert(lt[k] == lit_tokens(old_seen, is_wcnf)[k]);
                    }
                }
            }
            first = false;
            i = j;
        }
    }
    assert(tokens(s@) =~= seen);
    Ok((cl, weight))
}

// ---------------------------------------------------------------------------
// The parse, line by line
// ---------------------------------------------------------------------------

/// What the parse has gathered so far.
pub struct ParseState {
    pub n_vars: usize,
    pub n_clauses: usize,
    pub is_wcnf: bool,
    pub hard_weight: Option<u64>,
    pub clauses: Seq<Seq<Lit>>,
    pub weights: Seq<u64>,
}

/// The state before the first line: an unweighted formula with no variables
/// and no clauses.
pub open spec fn initial_state() -> ParseState {
    ParseState {
        n_vars: 0,
        n_clauses: 0,
        is_wcnf: false,
        hard_weight: None,
        clauses: Seq::empty(),
        weights: Seq::empty(),
    }
}

/// Each clause has its weight.
pub open spec fn state_wf(st: ParseState) -> bool {
    st.weights.len() == st.clauses.len()
}

/// A problem line sets the format and the counts; a weighted one also sets
/// the hard weight.
pub open spec fn apply_header(st: ParseState, h: HeaderModel) -> ParseState {
    ParseState {
        n_vars: h.n_vars as usize,
        n_clauses: h.n_clauses as usize,
        is_wcnf: h.is_wcnf,
        hard_weight: if h.is_wcnf {
            match h.hard_weight {
                Some(w) => Some(w as u64),
                None => None,
            }
        } else {
            st.hard_weight
        },
        ..st
    }
}

/// The position of the first character of `s` that is not whitespace.
pub open spec fn first_visible(s: Seq<char>) -> int {
    ws_end(s, 0)
}

/// A line that is empty once trimmed.
pub open spec fn is_blank(s: Seq<char>) -> bool {
    first_visible(s) >= s.len()
}

/// A line whose first visible character is `c`.
pub open spec fn is_comment(s: Seq<char>) -> bool {
    !is_blank(s) && s[first_visible(s)] == 'c'
}

/// A line whose first visible character is `p`.
pub open spec fn is_problem_line(s: Seq<char>) -> bool {
    !is_blank(s) && s[first_visible(s)] == 'p'
}

/// Any other line holds a clause.
pub open spec fn is_clause_line(s: Seq<char>) -> bool {
    !is_blank(s) && !is_comment(s) && !is_problem_line(s)
}

/// One line read in state `st`: the next state, and whether that line
/// completed the declared number of clauses.
pub open spec fn line_step(st: ParseState, s: Seq<char>) -> Result<(ParseState, bool), DimacsError> {
    if is_blank(s) || is_comment(s) {
        Ok((st, false))
    } else if is_problem_line(s) {
        match header_of(s, first_visible(s)) {
            None => Ok((st, false)),
            Some(h) => if header_fits(h) {
                Ok((apply_header(st, h), false))
            } else {
                Err(DimacsError::MalformedToken)
            },
        }
    } else {
        let ts = tokens(s);
        if clause_fits(ts, st.is_wcnf) {
            let clauses = st.clauses.push(lits_of(lit_tokens(ts, st.is_wcnf)));
            let weights = st.weights.push(clause_weight(ts, st.is_wcnf));
            Ok((ParseState { clauses, weights, ..st }, clauses.len() == st.n_clauses))
        } else {
            Err(DimacsError::MalformedToken)
        }
    }
}

/// The lines read one after another from state `st`, up to the first error
/// or to the line that completes the declared number of clauses.
pub open spec fn run(st: ParseState, lines: Seq<Seq<char>>) -> Result<ParseState, DimacsError>
    decreases lines.len(),
{
    if lines.len() == 0 {
        Ok(st)
    } else {
        match line_step(st, lines[0]) {
            Err(e) => Err(e),
            Ok((next, done)) => if done {
                Ok(next)
            } else {
                run(next, lines.drop_first())
            },
        }
    }
}

/// A formula, as values.
pub enum DimacsModel {
    Cnf { n_vars: usize, clauses: Seq<Seq<Lit>> },
    Wcnf { n_vars: usize, clauses: Seq<(Seq<Lit>, u64)>, hard_weight: Option<u64> },
}

/// The formula that a state stands for.
pub open spec fn model_of(st: ParseState) -> DimacsModel {
    if st.is_wcnf {
        DimacsModel::Wcnf {
            n_vars: st.n_vars,
            clauses: Seq::new(st.clauses.len(), |i: int| (st.clauses[i], st.weights[i])),
            hard_weight: st.hard_weight,
        }
    } else {
        DimacsModel::Cnf { n_vars: st.n_vars, clauses: st.clauses }
    }
}

/// The outcome of parsing the given lines.
pub open spec fn parse_lines_spec(lines: Seq<Seq<char>>) -> Result<DimacsModel, DimacsError> {
    match run(initial_state(), lines) {
        Ok(st) => Ok(model_of(st)),
        Err(e) => Err(e),
    }
}

/// Dimacs formula.
#[derive(Debug, PartialEq, Clone)]
pub enum Dimacs {
    /// Unweighted formula.
    Cnf {
        /// Number of variables.
        n_vars: usize,
        /// Clauses.
        clauses: Vec<Vec<Lit>>,
    },
    /// Weighted formula.
    Wcnf {
        /// Number of variables.
        n_vars: usize,
        /// Clauses with their weights.
        clauses: Vec<(Vec<Lit>, u64)>,
        /// Weight corresponding to hard clause.
        hard_weight: Option<u64>,
    },
}

impl View for Dimacs {
    type V = DimacsModel;

    open spec fn view(&self) -> DimacsModel {
        match self {
            Dimacs::Cnf { n_vars, clauses } => DimacsModel::Cnf {
                n_vars: *n_vars,
                clauses: clauses@.map_values(|c: Vec<Lit>| c@),
            },
            Dimacs::Wcnf { n_vars, clauses, hard_weight } => DimacsModel::Wcnf {
                n_vars: *n_vars,
                clauses: clauses@.map_values(|p: (Vec<Lit>, u64)| (p.0@, p.1)),
                hard_weight: *hard_weight,
            },
        }
    }
}

/// A parse that is fed one line at a time.
pub struct DimacsParser {
    n_vars: usize,
    n_clauses: usize,
    is_wcnf: bool,
    hard_weight: Option<u64>,
    clauses: Vec<Vec<Lit>>,
    weights: Vec<u64>,
}

impl View for DimacsParser {
    type V = ParseState;

    closed spec fn view(&self) -> ParseState {
        ParseState {
            n_vars: self.n_vars,
            n_clauses: self.n_clauses,
            is_wcnf: self.is_wcnf,
            hard_weight: self.hard_weight,
            clauses: self.clauses@.map_values(|c: Vec<Lit>| c@),
            weights: self.weights@,
        }
    }
}

/// The characters of a string.
fn chars_of(s: &str) -> (r: Vec<char>)
    ensures
        r@ == s@,
{
    let mut r: Vec<char> = Vec::new();
    for c in it: s.chars()
        invariant
            r@ == it.seq().take(it.index() as int),
    {
        r.push(c);
    }
    r
}

impl DimacsParser {
    /// A parse that has read no line yet.
    pub fn new() -> (r: DimacsParser)
        ensures
            r@ == initial_state(),
    {
        let r = DimacsParser {
            n_vars: 0,
            n_clauses: 0,
            is_wcnf: false,
            hard_weight: None,
            clauses: Vec::new(),
            weights: Vec::new(),
        };
        assert(r@.clauses =~= Seq::<Seq<Lit>>::empty());
        r
    }

    fn feed_chars(&mut self, s: &Vec<char>) -> (r: Result<bool, DimacsError>)
        requires
            state_wf(old(self)@),
        ensures
            state_wf(final(self)@),
            match line_step(old(self)@, s@) {
                Ok((st, done)) => r == Ok::<bool, DimacsError>(done) && final(self)@ == st,
                Err(e) => r == Err::<bool, DimacsError>(e) && final(self)@ == old(self)@,
            },
    {
        let k = skip_ws(s, 0);
        if k >= s.len() || s[k] == 'c' {
            return Ok(false);
        }
        if s[k] == 'p' {
            match read_header(s, k) {
                Err(e) => Err(e),
                Ok(None) => Ok(false),
                Ok(Some(h)) => {
                    self.n_vars = h.n_vars;
                    self.n_clauses = h.n_clauses;
                    self.is_wcnf = h.is_wcnf;
                    if h.is_wcnf {
                        self.hard_weight = h.hard_weight;
                    }
                    Ok(false)
                },
            }
        } else {
            match read_clause(s, self.is_wcnf) {
                Err(e) => Err(e),
                Ok((cl, w)) => {
                    let ghost before = self.clauses@;
                    self.clauses.push(cl);
                    self.weights.push(w);
                    assert(self.clauses@.map_values(|c: Vec<Lit>| c@) =~= before.map_values(
                        |c: Vec<Lit>| c@,
                    ).push(cl@));
                    Ok(self.clauses.len() == self.n_clauses)
                },
            }
        }
    }

    /// Reads one line. Returns whether the line completed the number of
    /// clauses that the problem line declared, after which the parse is done;
    /// an error where a number on the line does not fit its type, and then
    /// the parse is left as it was.
    pub fn feed_line(&mut self, line: &str) -> (r: Result<bool, DimacsError>)
        requires
            state_wf(old(self)@),
        ensures
            state_wf(final(self)@),
            match line_step(old(self)@, line@) {
                Ok((st, done)) => r == Ok::<bool, DimacsError>(done) && final(self)@ == st,
                Err(e) => r == Err::<bool, DimacsError>(e) && final(self)@ == old(self)@,
            },
    {
        let s = chars_of(line);
        self.feed_chars(&s)
    }

    /// The formula gathered so far.
    pub fn finish(self) -> (r: Dimacs)
        requires
            state_wf(self@),
        ensures
            r@ == model_of(self@),
    {
        let ghost st = self@;
        if self.is_wcnf {
            let ghost cs = self.clauses@;
            let weights = self.weights;
            let mut out: Vec<(Vec<Lit>, u64)> = Vec::new();
            for c in it: self.clauses.into_iter()
                invariant
                    it.seq() == cs,
                    weights@ == st.weights,
                    weights.len() == cs.len(),
                    out.len() == it.index(),
                    forall|j: int|
                        0 <= j < out.len() ==> #[trigger] out@[j].0@ == cs[j]@ && out@[j].1
                            == weights@[j],
            {
                let i = out.len();
                let ghost prev = out@;
                out.push((c, weights[i]));
                assert(out@[i as int].0@ == cs[i as int]@);
                assert forall|j: int| 0 <= j < out.len() implies #[trigger] out@[j].0@ == cs[j]@
                    && out@[j].1 == weights@[j] by {
                    if j < i {
                        assert(out@[j] == prev[j]);
                        assert(prev[j].0@ == cs[j]@);
                    }
                }
            }
            let r = Dimacs::Wcnf { n_vars: self.n_vars, clauses: out, hard_weight: self.hard_weight };
            assert(out@.map_values(|p: (Vec<Lit>, u64)| (p.0@, p.1)) =~= Seq::new(
                st.clauses.len(),
                |i: int| (st.clauses[i], st.weights[i]),
            ));
            r
        } else {
            Dimacs::Cnf { n_vars: self.n_vars, clauses: self.clauses }
        }
    }
}

/// The views of a sequence of strings.
pub open spec fn lines_view(lines: Seq<String>) -> Seq<Seq<char>> {
    lines.map_values(|l: String| l@)
}

/// The end of the line that starts at `i`: the next newline, or the end.
pub open spec fn line_end(s: Seq<char>, i: int) -> int
    decreases s.len() - i,
{
    if 0 <= i < s.len() && s[i] != '\n' {
        line_end(s, i + 1)
    } else {
        i
    }
}

proof fn lemma_line_end(s: Seq<char>, i: int)
    requires
        0 <= i <= s.len(),
    ensures
        i <= line_end(s, i) <= s.len(),
        line_end(s, i) < s.len() ==> s[line_end(s, i)] == '\n',
    decreases s.len() - i,
{
    if i < s.len() && s[i] != '\n' {
        lemma_line_end(s, i + 1);
    }
}

/// The lines of `s` from position `i` on, split at each newline; the part
/// after the last newline is a line too, empty where `s` ends with one.
pub open spec fn lines_from(s: Seq<char>, i: int) -> Seq<Seq<char>>
    decreases s.len() - i,
{
    let j = line_end(s, i);
    if i < 0 || i > s.len() || j < i || j >= s.len() {
        seq![s.subrange(i, s.len() as int)]
    } else {
        seq![s.subrange(i, j)] + lines_from(s, j + 1)
    }
}

/// Parses the given lines. Reading stops after the line that completes the
/// number of clauses that the problem line declared.
pub fn parse_dimacs_lines(lines: &Vec<String>) -> (r: Result<Dimacs, DimacsError>)
    ensures
        match parse_lines_spec(lines_view(lines@)) {
            Ok(m) => r matches Ok(d) && d@ == m,
            Err(e) => r matches Err(f) && f == e,
        },
{
    let ghost all = lines_view(lines@);
    let mut p = DimacsParser::new();
    let mut i: usize = 0;
    assert(all.skip(0) =~= all);
    while i < lines.len()
        invariant
            i <= lines.len(),
            all == lines_view(lines@),
            state_wf(p@),
            run(initial_state(), all) == run(p@, all.skip(i as int)),
        decreases lines.len() - i,
    {
        let ghost before = p@;
        let line = lines[i].as_str();
        assert(all.skip(i as int)[0] == line@);
        match p.feed_line(line) {
            Err(e) => {
                return Err(e);
            },
            Ok(done) => {
                if done {
                    return Ok(p.finish());
                }
            },
        }
        assert(all.skip(i as int).drop_first() =~= all.skip(i + 1));
        i = i + 1;
    }
    assert(all.skip(i as int) =~= Seq::<Seq<char>>::empty());
    assert(run(p@, Seq::<Seq<char>>::empty()) == Ok::<ParseState, DimacsError>(p@));
    Ok(p.finish())
}

/// Parses a whole text, split into lines at each newline.
pub fn parse_dimacs_str(text: &str) -> (r: Result<Dimacs, DimacsError>)
    ensures
        match parse_lines_spec(lines_from(text@, 0)) {
            Ok(m) => r matches Ok(d) && d@ == m,
            Err(e) => r matches Err(f) && f == e,
        },
{
    let s = chars_of(text);
    let mut p = DimacsParser::new();
    let mut i: usize = 0;
    loop
        invariant
            i <= s.len(),
            s@ == text@,
            state_wf(p@),
            run(initial_state(), lines_from(s@, 0)) == run(p@, lines_from(s@, i as int)),
        decreases s.len() - i,
    {
        let mut line: Vec<char> = Vec::new();
        let mut j = i;
        assert(s@.subrange(i as int, i as int) =~= Seq::<char>::empty());
        while j < s.len() && s[j] != '\n'
            invariant
                i <= j <= s.len(),
                line_end(s@, i as int) == line_end(s@, j as int),
                line@ == s@.subrange(i as int, j as int),
            decreases s.len() - j,
        {
            line.push(s[j]);
            assert(line@ =~= s@.subrange(i as int, j + 1));
            j = j + 1;
        }
        proof {
            lemma_line_end(s@, i as int);
        }
        assert(lines_from(s@, i as int)[0] == line@);
        match p.feed_chars(&line) {
            Err(e) => {
                return Err(e);
            },
            Ok(done) => {
                if done {
                    return Ok(p.finish());
                }
                if j >= s.len() {
                    assert(lines_from(s@, i as int).drop_first() =~= Seq::<Seq<char>>::empty());
                    assert(run(p@, Seq::<Seq<char>>::empty()) == Ok::<ParseState, DimacsError>(p@));
                    return Ok(p.finish());
                }
            },
        }
        assert(lines_from(s@, i as int).drop_first() =~= lines_from(s@, j + 1));
        i = j + 1;
    }
}

// ---------------------------------------------------------------------------
// Laws of the parse
// ---------------------------------------------------------------------------

/// Whether, from state `st`, some line of `lines` completes the declared
/// number of clauses before any error.
pub open spec fn stops_within(st: ParseState, lines: Seq<Seq<char>>) -> bool
    decreases lines.len(),
{
    if lines.len() == 0 {
        false
    } else {
        match line_step(st, lines[0]) {
            Err(_) => false,
            Ok((next, done)) => done || stops_within(next, lines.drop_first()),
        }
    }
}

/// Once the declared number of clauses is reached, the lines that follow are
/// not read, and exactly the declared number of clauses has been gathered.
pub proof fn lemma_stop_at_declared_count(
    st: ParseState,
    lines: Seq<Seq<char>>,
    rest: Seq<Seq<char>>,
)
    requires
        stops_within(st, lines),
    ensures
        run(st, lines + rest) == run(st, lines),
        run(st, lines) matches Ok(fin) && fin.clauses.len() == fin.n_clauses,
    decreases lines.len(),
{
    assert((lines + rest)[0] == lines[0]);
    if let Ok((next, done)) = line_step(st, lines[0]) {
        if !done {
            assert((lines + rest).drop_first() =~= lines.drop_first() + rest);
            lemma_stop_at_declared_count(next, lines.drop_first(), rest);
        }
    }
}

/// A comment line or a blank line, wherever it stands, changes nothing.
pub proof fn lemma_comment_lines_ignored(
    st: ParseState,
    before: Seq<Seq<char>>,
    line: Seq<char>,
    after: Seq<Seq<char>>,
)
    requires
        is_comment(line) || is_blank(line),
    ensures
        run(st, before + seq![line] + after) == run(st, before + after),
    decreases before.len(),
{
    let with = before + seq![line] + after;
    let without = before + after;
    if before.len() == 0 {
        assert(with[0] == line);
        assert(with.drop_first() =~= without);
    } else {
        assert(with[0] == before[0]);
        assert(without[0] == before[0]);
        if let Ok((next, done)) = line_step(st, before[0]) {
            if !done {
                assert(with.drop_first() =~= before.drop_first() + seq![line] + after);
                assert(without.drop_first() =~= before.drop_first() + after);
                lemma_comment_lines_ignored(next, before.drop_first(), line, after);
            }
        }
    }
}

/// A literal number outside the range of `i32`.
pub open spec fn outside_i32(t: Token) -> bool {
    if t.neg {
        t.mag > 0x8000_0000
    } else {
        t.mag > 0x7fff_ffff
    }
}

/// A number too large for the type it is read into ends the parse with an
/// error: a literal outside the range of `i32`, a weight over `u64::MAX`, a
/// count of a problem line over `usize::MAX`, or a hard weight over `u64::MAX`.
pub proof fn lemma_overflow_is_fatal(st: ParseState, line: Seq<char>, rest: Seq<Seq<char>>)
    requires
        ({
            let ts = tokens(line);
            ||| is_clause_line(line) && has_weight(ts, st.is_wcnf) && ts[0].mag > u64::MAX
            ||| is_clause_line(line) && exists|i: int|
                0 <= i < lit_tokens(ts, st.is_wcnf).len() && outside_i32(
                    #[trigger] lit_tokens(ts, st.is_wcnf)[i],
                )
            ||| is_problem_line(line) && (header_of(line, first_visible(line)) matches Some(h) && (
            h.n_vars > usize::MAX || h.n_clauses > usize::MAX || (h.hard_weight matches Some(w)
                && w > u64::MAX)))
        }),
    ensures
        line_step(st, line) is Err,
        run(st, seq![line] + rest) == Err::<ParseState, DimacsError>(DimacsError::MalformedToken),
{
    let ts = tokens(line);
    let bad_weight = has_weight(ts, st.is_wcnf) && ts[0].mag > u64::MAX;
    if is_clause_line(line) && !bad_weight {
        let i = choose|i: int|
            0 <= i < lit_tokens(ts, st.is_wcnf).len() && outside_i32(
                #[trigger] lit_tokens(ts, st.is_wcnf)[i],
            );
        assert(!lit_fits(lit_tokens(ts, st.is_wcnf)[i]));
    }
    assert((seq![line] + rest)[0] == line);
}

} // verus!
