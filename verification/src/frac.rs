use vstd::prelude::*;

verus! {

/// A mathematical rational number, used only inside specifications.
/// The value it denotes is `num / den`; every constructor keeps `den > 0`.
pub ghost struct Frac {
    pub num: int,
    pub den: int,
}

pub open spec fn frac_wf(a: Frac) -> bool {
    a.den > 0
}

pub open spec fn frac_zero() -> Frac {
    Frac { num: 0, den: 1 }
}

pub open spec fn frac_add(a: Frac, b: Frac) -> Frac {
    Frac { num: a.num * b.den + b.num * a.den, den: a.den * b.den }
}

/// `a <= b` as values, assuming both denominators are positive.
pub open spec fn frac_le(a: Frac, b: Frac) -> bool {
    a.num * b.den <= b.num * a.den
}

/// `a < b` as values, assuming both denominators are positive.
pub open spec fn frac_lt(a: Frac, b: Frac) -> bool {
    a.num * b.den < b.num * a.den
}

/// `a == b` as values, assuming both denominators are positive.
pub open spec fn frac_eq(a: Frac, b: Frac) -> bool {
    a.num * b.den == b.num * a.den
}

pub proof fn lemma_frac_eq_trans(a: Frac, b: Frac, c: Frac)
    requires
        frac_wf(a),
        frac_wf(b),
        frac_wf(c),
        frac_eq(a, b),
        frac_eq(b, c),
    ensures
        frac_eq(a, c),
{
    assert(a.num * c.den == c.num * a.den) by (nonlinear_arith)
        requires
            a.den > 0,
            b.den > 0,
            c.den > 0,
            a.num * b.den == b.num * a.den,
            b.num * c.den == c.num * b.den,
    ;
}

pub proof fn lemma_frac_add_wf(a: Frac, b: Frac)
    requires
        frac_wf(a),
        frac_wf(b),
    ensures
        frac_wf(frac_add(a, b)),
{
    assert(a.den * b.den > 0) by (nonlinear_arith)
        requires
            a.den > 0,
            b.den > 0,
    ;
}

/// Replacing one summand by an equal-valued fraction keeps the sum's value.
pub proof fn lemma_frac_add_congruence(a: Frac, b: Frac, c: Frac)
    requires
        frac_wf(a),
        frac_wf(b),
        frac_wf(c),
        frac_eq(a, b),
    ensures
        frac_eq(frac_add(a, c), frac_add(b, c)),
{
    assert((a.num * c.den + c.num * a.den) * (b.den * c.den) == (b.num * c.den + c.num * b.den)
        * (a.den * c.den)) by (nonlinear_arith)
        requires
            a.num * b.den == b.num * a.den,
    ;
}

/// Adding a zero-numerator fraction does not change the value.
pub proof fn lemma_frac_add_zero(a: Frac, z: Frac)
    requires
        frac_wf(a),
        frac_wf(z),
        z.num == 0,
    ensures
        frac_eq(frac_add(a, z), a),
{
    assert((a.num * z.den + z.num * a.den) * a.den == a.num * (a.den * z.den)) by (nonlinear_arith)
        requires
            z.num == 0,
    ;
}

/// Equal-valued right-hand sides order the same way against any bound.
pub proof fn lemma_frac_le_congruence(r: Frac, a: Frac, b: Frac)
    requires
        frac_wf(r),
        frac_wf(a),
        frac_wf(b),
        frac_eq(a, b),
    ensures
        frac_le(r, a) <==> frac_le(r, b),
{
    assert((r.num * a.den <= a.num * r.den) <==> (r.num * b.den <= b.num * r.den))
        by (nonlinear_arith)
        requires
            r.den > 0,
            a.den > 0,
            b.den > 0,
            a.num * b.den == b.num * a.den,
    ;
}

/// An executable non-negative rational: `num / den` with `den > 0`.
#[derive(Debug, Clone, Copy, PartialEq, Eq, Structural)]
pub struct Rat {
    pub num: u64,
    pub den: u64,
}

impl View for Rat {
    type V = Frac;

    open spec fn view(&self) -> Frac {
        Frac { num: self.num as int, den: self.den as int }
    }
}

impl Rat {
    pub open spec fn wf(&self) -> bool {
        self.den > 0
    }

    /// The rational `num / 1`.
    pub fn whole(num: u64) -> (r: Rat)
        ensures
            r@ == (Frac { num: num as int, den: 1int }),
            r.wf(),
    {
        Rat { num, den: 1 }
    }
}

} // verus!
