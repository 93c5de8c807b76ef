//! Common types used in SolHOP: variables, literals, lifted booleans,
//! clauses, solutions, and a DIMACS CNF/WCNF reader.

use vstd::prelude::*;

/// Dimacs module
pub mod dimacs;

verus! {

/// Largest variable index (exclusive) whose literals can be encoded without
/// reaching the placeholder `Lit::undef()`.
pub const VAR_INDEX_LIMIT: usize = usize::MAX / 2;

/// A variable.
#[derive(Debug, Clone, Copy, PartialEq, Eq, Structural, Hash)]
pub struct Var(usize);

impl Var {
    /// The 0-based index of the variable.
    pub closed spec fn spec_index(self) -> usize {
        self.0
    }

    /// The variable with the given index.
    pub closed spec fn spec_new(index: usize) -> Var {
        Var(index)
    }

    /// Whether both literals of this variable have an encoding distinct from `Lit::undef()`.
    pub open spec fn encodable(self) -> bool {
        self.spec_index() < VAR_INDEX_LIMIT
    }

    /// The literal of this variable with the given sign.
    pub closed spec fn spec_lit(self, sign: bool) -> Lit {
        Lit((2 * self.0 + if sign { 1int } else { 0int }) as usize)
    }

    /// Create new var
    pub fn new(index: usize) -> (r: Var)
        ensures
            r == Var::spec_new(index),
            r.spec_index() == index,
    {
        Var(index)
    }

    /// Returns the actual value stored inside that can be used to index arrays.
    pub fn index(self) -> (r: usize)
        ensures
            r == self.spec_index(),
    {
        self.0
    }

    /// Create positive literal from variable.
    pub fn pos_lit(self) -> (r: Lit)
        requires
            self.encodable(),
        ensures
            r == self.spec_lit(false),
            r.spec_var() == self,
            !r.spec_sign(),
    {
        Lit::new(self, false)
    }

    /// Create negative literal from variable.
    pub fn neg_lit(self) -> (r: Lit)
        requires
            self.encodable(),
        ensures
            r == self.spec_lit(true),
            r.spec_var() == self,
            r.spec_sign(),
    {
        Lit::new(self, true)
    }
}

/// A literal: a variable together with a polarity, packed as `2 * var + sign`.
#[derive(Clone, Copy, PartialEq, Eq, Structural, Debug)]
pub struct Lit(usize);

impl Lit {
    /// The packed encoding of the literal.
    pub closed spec fn spec_index(self) -> usize {
        self.0
    }

    /// Whether the literal is negated.
    pub closed spec fn spec_sign(self) -> bool {
        self.0 % 2 == 1
    }

    /// The variable of the literal.
    pub closed spec fn spec_var(self) -> Var {
        Var(self.0 / 2)
    }

    /// The literal of the same variable with the opposite sign.
    pub closed spec fn spec_not(self) -> Lit {
        Lit(if self.0 % 2 == 1 { (self.0 - 1) as usize } else { (self.0 + 1) as usize })
    }

    /// The placeholder literal, encoded as the largest index.
    pub closed spec fn spec_undef() -> Lit {
        Lit(usize::MAX)
    }

    /// Placeholder Lit, which no literal of an encodable variable equals.
    pub fn undef() -> (r: Lit)
        ensures
            r == Lit::spec_undef(),
    {
        Lit(usize::MAX)
    }

    /// Returns true if literal is signed (i.e. a negated literal).
    pub fn sign(self) -> (r: bool)
        ensures
            r == self.spec_sign(),
    {
        let x = self.0;
        assert(x & 1 == x % 2) by (bit_vector);
        x & 1 == 1
    }

    /// Returns the var corresponding to the literal.
    pub fn var(self) -> (r: Var)
        ensures
            r == self.spec_var(),
    {
        let x = self.0;
        assert(x >> 1 == x / 2) by (bit_vector);
        Var(x >> 1)
    }

    /// Returns the actual value stored inside that can be used to index arrays.
    pub fn index(self) -> (r: usize)
        ensures
            r == self.spec_index(),
    {
        self.0
    }

    /// Create lit from var and sign
    pub fn new(var: Var, sign: bool) -> (r: Lit)
        requires
            var.encodable(),
        ensures
            r == var.spec_lit(sign),
            r.spec_var() == var,
            r.spec_sign() == sign,
            r != Lit::spec_undef(),
    {
        Lit(var.0 + var.0 + (sign as usize))
    }
}

impl core::ops::Not for Lit {
    type Output = Self;

    /// Returns x for -x and -x for x.
    fn not(self) -> (r: Self)
        ensures
            r == self.spec_not(),
    {
        let x = self.0;
        assert(x ^ 1 == if x % 2 == 1 { (x - 1) as usize } else { (x + 1) as usize })
            by (bit_vector);
        Lit(x ^ 1)
    }
}

impl vstd::std_specs::ops::NotSpecImpl for Lit {
    open spec fn obeys_not_spec() -> bool {
        true
    }

    open spec fn not_req(self) -> bool {
        true
    }

    open spec fn not_spec(self) -> Lit {
        self.spec_not()
    }
}

/// Encoding `Lit::new(Var::new(k), s)` and reading back gives `k` and `s`.
pub proof fn lemma_lit_round_trip(k: usize, s: bool)
    requires
        k < VAR_INDEX_LIMIT,
    ensures
        Var::spec_new(k).spec_lit(s).spec_var().spec_index() == k,
        Var::spec_new(k).spec_lit(s).spec_sign() == s,
        Var::spec_new(k).spec_lit(s) != Lit::spec_undef(),
{
}

/// The positive and negative literals of a variable both belong to it, the
/// first unsigned and the second signed.
pub proof fn lemma_var_lits(v: Var)
    requires
        v.encodable(),
    ensures
        v.spec_lit(false).spec_var() == v,
        v.spec_lit(true).spec_var() == v,
        !v.spec_lit(false).spec_sign(),
        v.spec_lit(true).spec_sign(),
{
}

/// Distinct pairs of variable and sign have distinct literals.
pub proof fn lemma_lit_injective(v: Var, s: bool, w: Var, t: bool)
    requires
        v.encodable(),
        w.encodable(),
        v.spec_lit(s) == w.spec_lit(t),
    ensures
        v == w,
        s == t,
{
}

/// Negation is its own inverse, keeps the variable and flips the sign.
pub proof fn lemma_lit_not(l: Lit)
    ensures
        l.spec_not().spec_not() == l,
        l.spec_not().spec_var() == l.spec_var(),
        l.spec_not().spec_sign() != l.spec_sign(),
{
}

/// A Lifted boolean.
#[derive(Clone, Copy, PartialEq, Eq, Structural, Debug)]
pub enum LBool {
    /// Represents True.
    True,
    /// Represents False.
    False,
    /// Represents neither True nor False, usually used when variable is unassigned.
    Undef,
}

impl LBool {
    /// True for False, False for True, Undef for Undef.
    pub open spec fn spec_not(self) -> LBool {
        match self {
            LBool::True => LBool::False,
            LBool::False => LBool::True,
            LBool::Undef => LBool::Undef,
        }
    }

    /// The lifted value of a plain boolean.
    pub open spec fn spec_from(b: bool) -> LBool {
        if b {
            LBool::True
        } else {
            LBool::False
        }
    }
}

impl core::ops::Not for LBool {
    type Output = Self;

    /// Returns True for False and False for True.
    /// If the input is Undef, then Undef is returned.
    fn not(self) -> (r: Self)
        ensures
            r == self.spec_not(),
    {
        match self {
            LBool::True => LBool::False,
            LBool::False => LBool::True,
            LBool::Undef => LBool::Undef,
        }
    }
}

impl vstd::std_specs::ops::NotSpecImpl for LBool {
    open spec fn obeys_not_spec() -> bool {
        true
    }

    open spec fn not_req(self) -> bool {
        true
    }

    open spec fn not_spec(self) -> LBool {
        self.spec_not()
    }
}

impl From<bool> for LBool {
    /// Convert bool to LBool.
    fn from(b: bool) -> (r: Self)
        ensures
            r == LBool::spec_from(b),
    {
        if b {
            LBool::True
        } else {
            LBool::False
        }
    }
}

impl vstd::std_specs::convert::FromSpecImpl<bool> for LBool {
    open spec fn obeys_from_spec() -> bool {
        true
    }

    open spec fn from_spec(b: bool) -> LBool {
        LBool::spec_from(b)
    }
}

/// Lifting a boolean gives True exactly for true, False exactly for false,
/// and never Undef.
pub proof fn lemma_lbool_from(b: bool)
    ensures
        (LBool::spec_from(b) == LBool::True) <==> b,
        (LBool::spec_from(b) == LBool::False) <==> !b,
        LBool::spec_from(b) != LBool::Undef,
{
}

/// Negating a lifted boolean twice gives it back, and Undef is fixed.
pub proof fn lemma_lbool_not(x: LBool)
    ensures
        x.spec_not().spec_not() == x,
        LBool::Undef.spec_not() == LBool::Undef,
{
}

/// A Clause.
#[derive(Clone, Debug)]
pub struct Clause {
    /// A vector of literals forming the clause.
    pub lits: Vec<Lit>,
}

/// Solution to the SAT Formula.
#[derive(Debug, PartialEq)]
pub enum Solution {
    /// The formula is unsatisfiable.
    Unsat,
    /// Neither SAT or UNSAT was proven. Best model known so far.
    Best(Vec<bool>),
    /// The formula is satisfiable. A satifying model for the formula.
    Sat(Vec<bool>),
    /// No solution could be found.
    Unknown,
}

} // verus!
