use vstd::prelude::*;
use vstd::seq_lib::commutative_foldr;
use vstd::seq_lib::lemma_fold_right_permutation;

use crate::frac::{
    frac_add, frac_eq, frac_le, frac_wf, frac_zero, lemma_frac_add_congruence, lemma_frac_add_wf,
    lemma_frac_add_zero, lemma_frac_eq_trans, lemma_frac_le_congruence, Frac,
};
use crate::item::{Resource, ResourceType};
use crate::model::{balance_row_ok, demand_row_ok, term_matches, Constraint, Term};
use crate::recipe::{lemma_sum_q_absent, produces, sum_q, touches, Recipe, RecipeV};

verus! {

/// A production mix in mathematical form: each recipe of the catalog
/// paired with its chosen instance count.
pub open spec fn mix(rs: Seq<Recipe>, counts: Seq<Frac>) -> Seq<(RecipeV, Frac)> {
    Seq::new(rs.len(), |i: int| (rs[i]@, counts[i]))
}

/// Every entry has a positive cycle time, a positive count
/// denominator and a non-negative count.
pub open spec fn mix_wf(m: Seq<(RecipeV, Frac)>) -> bool {
    forall|i: int|
        0 <= i < m.len() ==> (#[trigger] m[i]).0.wf() && m[i].1.den > 0 && m[i].1.num >= 0
}

/// Production rate of `rt` contributed by one mix entry.
pub open spec fn prod_contrib(p: (RecipeV, Frac), rt: ResourceType) -> Frac {
    Frac { num: sum_q(p.0.results, rt) * p.1.num, den: p.0.time * p.1.den }
}

/// Consumption rate of `rt` contributed by one mix entry.
pub open spec fn cons_contrib(p: (RecipeV, Frac), rt: ResourceType) -> Frac {
    Frac { num: sum_q(p.0.items, rt) * p.1.num, den: p.0.time * p.1.den }
}

/// Net production rate of `rt` contributed by one mix entry.
pub open spec fn net_contrib(p: (RecipeV, Frac), rt: ResourceType) -> Frac {
    Frac {
        num: (sum_q(p.0.results, rt) - sum_q(p.0.items, rt)) * p.1.num,
        den: p.0.time * p.1.den,
    }
}

pub open spec fn add_prod(rt: ResourceType) -> spec_fn((RecipeV, Frac), Frac) -> Frac {
    |p: (RecipeV, Frac), acc: Frac| frac_add(acc, prod_contrib(p, rt))
}

pub open spec fn add_cons(rt: ResourceType) -> spec_fn((RecipeV, Frac), Frac) -> Frac {
    |p: (RecipeV, Frac), acc: Frac| frac_add(acc, cons_contrib(p, rt))
}

pub open spec fn add_net(rt: ResourceType) -> spec_fn((RecipeV, Frac), Frac) -> Frac {
    |p: (RecipeV, Frac), acc: Frac| frac_add(acc, net_contrib(p, rt))
}

/// Aggregate production rate of `rt` across the whole mix.
pub open spec fn production_sum(m: Seq<(RecipeV, Frac)>, rt: ResourceType) -> Frac {
    m.fold_right(add_prod(rt), frac_zero())
}

/// Aggregate consumption rate of `rt` across the whole mix.
pub open spec fn consumption_sum(m: Seq<(RecipeV, Frac)>, rt: ResourceType) -> Frac {
    m.fold_right(add_cons(rt), frac_zero())
}

/// Aggregate net production rate of `rt` across the whole mix.
pub open spec fn net_sum(m: Seq<(RecipeV, Frac)>, rt: ResourceType) -> Frac {
    m.fold_right(add_net(rt), frac_zero())
}

/// Value of one constraint term under the given counts.
pub open spec fn term_frac(t: Term, counts: Seq<Frac>) -> Frac {
    Frac {
        num: (t.out_q - t.in_q) * counts[t.var as int].num,
        den: t.time * counts[t.var as int].den,
    }
}

/// Left-hand side of a constraint row under the given counts.
pub open spec fn row_sum(terms: Seq<Term>, counts: Seq<Frac>) -> Frac
    decreases terms.len(),
{
    if terms.len() == 0 {
        frac_zero()
    } else {
        frac_add(row_sum(terms.drop_last(), counts), term_frac(terms.last(), counts))
    }
}

/// The counts satisfy the linear inequality of the row.
pub open spec fn satisfies(c: Constraint, counts: Seq<Frac>) -> bool {
    frac_le(c.rhs@, row_sum(c.terms@, counts))
}

/// Swapping the two most recent summands leaves the literal result
/// unchanged, so mix sums may be folded in any order.
proof fn lemma_frac_add_swap(a: Frac, b: Frac, c: Frac)
    ensures
        frac_add(frac_add(a, b), c) == frac_add(frac_add(a, c), b),
{
    assert((a.num * b.den + b.num * a.den) * c.den == (a.num * b.den) * c.den + (b.num * a.den)
        * c.den) by (nonlinear_arith);
    assert((a.num * c.den + c.num * a.den) * b.den == (a.num * c.den) * b.den + (c.num * a.den)
        * b.den) by (nonlinear_arith);
    assert((a.num * b.den) * c.den == (a.num * c.den) * b.den) by (nonlinear_arith);
    assert((b.num * a.den) * c.den == b.num * (a.den * c.den)) by (nonlinear_arith);
    assert(c.num * (a.den * b.den) == (c.num * a.den) * b.den) by (nonlinear_arith);
    assert((a.den * b.den) * c.den == (a.den * c.den) * b.den) by (nonlinear_arith);
}

proof fn lemma_add_net_commutative(rt: ResourceType)
    ensures
        commutative_foldr(add_net(rt)),
{
    let f = add_net(rt);
    assert forall|x: (RecipeV, Frac), y: (RecipeV, Frac), v: Frac| #[trigger]
        f(x, f(y, v)) == f(y, f(x, v)) by {
        lemma_frac_add_swap(v, net_contrib(y, rt), net_contrib(x, rt));
    }
}

proof fn lemma_add_prod_commutative(rt: ResourceType)
    ensures
        commutative_foldr(add_prod(rt)),
{
    let f = add_prod(rt);
    assert forall|x: (RecipeV, Frac), y: (RecipeV, Frac), v: Frac| #[trigger]
        f(x, f(y, v)) == f(y, f(x, v)) by {
        lemma_frac_add_swap(v, prod_contrib(y, rt), prod_contrib(x, rt));
    }
}

proof fn lemma_add_cons_commutative(rt: ResourceType)
    ensures
        commutative_foldr(add_cons(rt)),
{
    let f = add_cons(rt);
    assert forall|x: (RecipeV, Frac), y: (RecipeV, Frac), v: Frac| #[trigger]
        f(x, f(y, v)) == f(y, f(x, v)) by {
        lemma_frac_add_swap(v, cons_contrib(y, rt), cons_contrib(x, rt));
    }
}

/// Peeling the last mix entry off each aggregate sum.
proof fn lemma_sums_unfold(m: Seq<(RecipeV, Frac)>, rt: ResourceType)
    requires
        m.len() > 0,
    ensures
        net_sum(m, rt) == frac_add(net_sum(m.drop_last(), rt), net_contrib(m.last(), rt)),
        production_sum(m, rt) == frac_add(
            production_sum(m.drop_last(), rt),
            prod_contrib(m.last(), rt),
        ),
        consumption_sum(m, rt) == frac_add(
            consumption_sum(m.drop_last(), rt),
            cons_contrib(m.last(), rt),
        ),
{
    lemma_add_net_commutative(rt);
    lemma_add_prod_commutative(rt);
    lemma_add_cons_commutative(rt);
    m.drop_last().lemma_fold_right_commute_one(m.last(), add_net(rt), frac_zero());
    m.drop_last().lemma_fold_right_commute_one(m.last(), add_prod(rt), frac_zero());
    m.drop_last().lemma_fold_right_commute_one(m.last(), add_cons(rt), frac_zero());
}

/// The net sum is the difference of the production and consumption
/// sums: all three share one denominator, and the numerators subtract.
proof fn lemma_net_split(m: Seq<(RecipeV, Frac)>, rt: ResourceType)
    requires
        mix_wf(m),
    ensures
        frac_wf(net_sum(m, rt)),
        net_sum(m, rt).den == production_sum(m, rt).den,
        net_sum(m, rt).den == consumption_sum(m, rt).den,
        net_sum(m, rt).num == production_sum(m, rt).num - consumption_sum(m, rt).num,
    decreases m.len(),
{
    if m.len() == 0 {
    } else {
        let pre = m.drop_last();
        assert(forall|i: int| 0 <= i < pre.len() ==> pre[i] == m[i]);
        lemma_net_split(pre, rt);
        lemma_sums_unfold(m, rt);
        let p = m.last();
        assert(p.0.wf() && p.1.den > 0);
        let d = p.0.time * p.1.den;
        assert(p.0.time * p.1.den > 0) by (nonlinear_arith)
            requires
                p.0.time > 0,
                p.1.den > 0,
        ;
        assert(d > 0);
        let np = net_sum(pre, rt);
        let pp = production_sum(pre, rt);
        let cp = consumption_sum(pre, rt);
        let o = sum_q(p.0.results, rt);
        let q = sum_q(p.0.items, rt);
        assert(net_sum(m, rt).den > 0) by (nonlinear_arith)
            requires
                np.den > 0,
                d > 0,
                net_sum(m, rt).den == np.den * d,
        ;
        assert(net_sum(m, rt).num == production_sum(m, rt).num - consumption_sum(m, rt).num)
            by (nonlinear_arith)
            requires
                net_sum(m, rt).num == np.num * d + ((o - q) * p.1.num) * np.den,
                production_sum(m, rt).num == pp.num * d + (o * p.1.num) * pp.den,
                consumption_sum(m, rt).num == cp.num * d + (q * p.1.num) * cp.den,
                np.num == pp.num - cp.num,
                np.den == pp.den,
                np.den == cp.den,
        ;
    }
}

/// An untouched recipe contributes a zero-valued fraction to the net.
proof fn lemma_net_untouched_zero(p: (RecipeV, Frac), rt: ResourceType)
    requires
        !touches(p.0, rt),
    ensures
        net_contrib(p, rt).num == 0,
{
    lemma_sum_q_absent(p.0.results, rt);
    lemma_sum_q_absent(p.0.items, rt);
    assert((sum_q(p.0.results, rt) - sum_q(p.0.items, rt)) * p.1.num == 0) by (nonlinear_arith)
        requires
            sum_q(p.0.results, rt) == 0,
            sum_q(p.0.items, rt) == 0,
    ;
}

/// Every recipe of the catalog has a positive cycle time.
pub open spec fn recipes_wf(rs: Seq<Recipe>) -> bool {
    forall|i: int| 0 <= i < rs.len() ==> (#[trigger] rs[i])@.wf()
}

/// Every count is a non-negative fraction with positive denominator.
pub open spec fn counts_wf(counts: Seq<Frac>) -> bool {
    forall|i: int| 0 <= i < counts.len() ==> (#[trigger] counts[i]).den > 0 && counts[i].num >= 0
}

proof fn lemma_mix_wf(rs: Seq<Recipe>, counts: Seq<Frac>)
    requires
        rs.len() == counts.len(),
        recipes_wf(rs),
        counts_wf(counts),
    ensures
        mix_wf(mix(rs, counts)),
{
    let m = mix(rs, counts);
    assert forall|i: int| 0 <= i < m.len() implies (#[trigger] m[i]).0.wf() && m[i].1.den > 0
        && m[i].1.num >= 0 by {
        assert(m[i] == (rs[i]@, counts[i]));
        assert(rs[i]@.wf());
    }
}

/// The value of a row depends only on the counts its terms index.
proof fn lemma_row_sum_counts_agree(terms: Seq<Term>, c1: Seq<Frac>, c2: Seq<Frac>)
    requires
        forall|k: int|
            0 <= k < terms.len() ==> (#[trigger] terms[k]).var < c1.len() && terms[k].var
                < c2.len() && c1[terms[k].var as int] == c2[terms[k].var as int],
    ensures
        row_sum(terms, c1) == row_sum(terms, c2),
    decreases terms.len(),
{
    if terms.len() > 0 {
        assert(forall|k: int|
            0 <= k < terms.len() - 1 ==> terms.drop_last()[k] == terms[k]);
        lemma_row_sum_counts_agree(terms.drop_last(), c1, c2);
        assert(terms.last() == terms[terms.len() - 1]);
    }
}

proof fn lemma_term_frac_wf(t: Term, counts: Seq<Frac>, rs: Seq<Recipe>, rt: ResourceType)
    requires
        term_matches(t, rs, rt),
        rs.len() == counts.len(),
        recipes_wf(rs),
        counts_wf(counts),
    ensures
        frac_wf(term_frac(t, counts)),
{
    assert(rs[t.var as int]@.wf());
    assert(rs[t.var as int].time * counts[t.var as int].den > 0) by (nonlinear_arith)
        requires
            rs[t.var as int].time > 0,
            counts[t.var as int].den > 0,
    ;
}

/// The value of a demand row is exactly the mix's aggregate net
/// production rate of the row's resource type.
proof fn lemma_dense_row_value(terms: Seq<Term>, rs: Seq<Recipe>, rt: ResourceType, counts: Seq<Frac>)
    requires
        crate::model::demand_terms_ok(terms, rs, rt),
        rs.len() == counts.len(),
        recipes_wf(rs),
        counts_wf(counts),
    ensures
        frac_wf(row_sum(terms, counts)),
        frac_eq(row_sum(terms, counts), net_sum(mix(rs, counts), rt)),
    decreases rs.len(),
{
    let m = mix(rs, counts);
    lemma_mix_wf(rs, counts);
    if rs.len() == 0 {
        assert(terms.len() == 0);
        assert(m.len() == 0);
    } else {
        let n = rs.len();
        let rs2 = rs.drop_last();
        let counts2 = counts.drop_last();
        let terms2 = terms.drop_last();
        assert(forall|k: int| 0 <= k < n - 1 ==> rs2[k] == rs[k]);
        assert(forall|k: int| 0 <= k < n - 1 ==> counts2[k] == counts[k]);
        assert(forall|k: int| 0 <= k < n - 1 ==> terms2[k] == terms[k]);
        assert(crate::model::demand_terms_ok(terms2, rs2, rt));
        lemma_dense_row_value(terms2, rs2, rt, counts2);
        lemma_row_sum_counts_agree(terms2, counts, counts2);
        assert(m.drop_last() =~= mix(rs2, counts2));
        lemma_sums_unfold(m, rt);
        let t = terms.last();
        assert(t == terms[n - 1] && t.var == n - 1);
        assert(m.last() == (rs[n - 1]@, counts[n - 1]));
        assert(term_frac(t, counts) == net_contrib(m.last(), rt));
        lemma_term_frac_wf(t, counts, rs, rt);
        lemma_net_split(mix(rs2, counts2), rt);
        lemma_frac_add_congruence(
            row_sum(terms2, counts2),
            net_sum(mix(rs2, counts2), rt),
            term_frac(t, counts),
        );
        lemma_frac_add_wf(row_sum(terms2, counts2), term_frac(t, counts));
    }
}

/// The value of a balance row (whose terms cover exactly the recipes
/// touching `rt`) is the mix's aggregate net production rate of `rt`.
proof fn lemma_sparse_row_value(
    terms: Seq<Term>,
    rs: Seq<Recipe>,
    rt: ResourceType,
    counts: Seq<Frac>,
)
    requires
        crate::model::balance_terms_ok(terms, rs, rt),
        rs.len() == counts.len(),
        recipes_wf(rs),
        counts_wf(counts),
    ensures
        frac_wf(row_sum(terms, counts)),
        frac_eq(row_sum(terms, counts), net_sum(mix(rs, counts), rt)),
    decreases rs.len(),
{
    let m = mix(rs, counts);
    lemma_mix_wf(rs, counts);
    if rs.len() == 0 {
        assert(terms.len() == 0) by {
            if terms.len() > 0 {
                assert(term_matches(terms[0], rs, rt));
            }
        }
        assert(m.len() == 0);
    } else {
        let n = rs.len();
        let rs2 = rs.drop_last();
        let counts2 = counts.drop_last();
        assert(forall|k: int| 0 <= k < n - 1 ==> rs2[k] == rs[k]);
        assert(forall|k: int| 0 <= k < n - 1 ==> counts2[k] == counts[k]);
        assert(m.drop_last() =~= mix(rs2, counts2));
        lemma_sums_unfold(m, rt);
        assert(m.last() == (rs[n - 1]@, counts[n - 1]));
        lemma_net_split(mix(rs2, counts2), rt);
        if touches(rs[n - 1]@, rt) {
            assert(exists|k: int| 0 <= k < terms.len() && (#[trigger] terms[k]).var == n - 1);
            let k0 = choose|k: int| 0 <= k < terms.len() && (#[trigger] terms[k]).var == n - 1;
            assert(k0 == terms.len() - 1) by {
                if k0 < terms.len() - 1 {
                    assert(terms[k0].var < terms[terms.len() - 1].var);
                    assert(term_matches(terms[terms.len() - 1], rs, rt));
                }
            }
            let t = terms.last();
            assert(t.var == n - 1);
            let terms2 = terms.drop_last();
            assert(forall|k: int| 0 <= k < terms.len() - 1 ==> terms2[k] == terms[k]);
            assert(crate::model::balance_terms_ok(terms2, rs2, rt)) by {
                assert forall|k: int|
                    0 <= k < terms2.len() implies term_matches(#[trigger] terms2[k], rs2, rt)
                    && touches(rs2[terms2[k].var as int]@, rt) by {
                    assert(terms2[k] == terms[k]);
                    assert(terms[k].var < terms[terms.len() - 1].var);
                    assert(rs2[terms[k].var as int] == rs[terms[k].var as int]);
                }
                assert forall|j: int|
                    0 <= j < rs2.len() && touches(rs2[j]@, rt) implies exists|k: int|
                    0 <= k < terms2.len() && (#[trigger] terms2[k]).var == j by {
                    assert(rs2[j] == rs[j]);
                    assert(exists|k: int| 0 <= k < terms.len() && (#[trigger] terms[k]).var == j);
                    let k1 = choose|k: int|
                        0 <= k < terms.len() && (#[trigger] terms[k]).var == j;
                    assert(k1 != terms.len() - 1);
                    assert(terms2[k1].var == j);
                }
            }
            lemma_sparse_row_value(terms2, rs2, rt, counts2);
            lemma_row_sum_counts_agree(terms2, counts, counts2);
            assert(term_frac(t, counts) == net_contrib(m.last(), rt));
            lemma_term_frac_wf(t, counts, rs, rt);
            lemma_frac_add_congruence(
                row_sum(terms2, counts2),
                net_sum(mix(rs2, counts2), rt),
                term_frac(t, counts),
            );
            lemma_frac_add_wf(row_sum(terms2, counts2), term_frac(t, counts));
        } else {
            assert(crate::model::balance_terms_ok(terms, rs2, rt)) by {
                assert forall|k: int|
                    0 <= k < terms.len() implies term_matches(#[trigger] terms[k], rs2, rt)
                    && touches(rs2[terms[k].var as int]@, rt) by {
                    assert(terms[k].var != n - 1);
                    assert(rs2[terms[k].var as int] == rs[terms[k].var as int]);
                }
                assert forall|j: int|
                    0 <= j < rs2.len() && touches(rs2[j]@, rt) implies exists|k: int|
                    0 <= k < terms.len() && (#[trigger] terms[k]).var == j by {
                    assert(rs2[j] == rs[j]);
                }
            }
            lemma_sparse_row_value(terms, rs2, rt, counts2);
            assert forall|k: int|
                0 <= k < terms.len() implies (#[trigger] terms[k]).var < counts.len()
                && terms[k].var < counts2.len()
                && counts[terms[k].var as int] == counts2[terms[k].var as int] by {
                assert(terms[k].var != n - 1);
            }
            lemma_row_sum_counts_agree(terms, counts, counts2);
            lemma_net_untouched_zero(m.last(), rt);
            let net2 = net_sum(mix(rs2, counts2), rt);
            let cl = net_contrib(m.last(), rt);
            assert(frac_wf(cl)) by {
                assert(rs[n - 1]@.wf());
                assert(rs[n - 1].time * counts[n - 1].den > 0) by (nonlinear_arith)
                    requires
                        rs[n - 1].time > 0,
                        counts[n - 1].den > 0,
                ;
            }
            lemma_frac_add_zero(net2, cl);
            assert(frac_eq(frac_add(net2, cl), net2));
            assert(frac_eq(net2, frac_add(net2, cl)));
            lemma_frac_add_wf(net2, cl);
            lemma_frac_eq_trans(row_sum(terms, counts), net2, net_sum(m, rt));
        }
    }
}

/// Law: a mix satisfies the balance row built for resource type `rt`
/// exactly when its aggregate production rate of `rt` is at least its
/// aggregate consumption rate. Resource types no recipe produces get
/// no balance row, so raw inputs stay unconstrained.
pub proof fn lemma_balance_row_semantics(
    c: Constraint,
    rs: Seq<Recipe>,
    rt: ResourceType,
    counts: Seq<Frac>,
)
    requires
        balance_row_ok(c, rs, rt),
        rs.len() == counts.len(),
        recipes_wf(rs),
        counts_wf(counts),
    ensures
        satisfies(c, counts) <==> frac_le(
            consumption_sum(mix(rs, counts), rt),
            production_sum(mix(rs, counts), rt),
        ),
{
    let m = mix(rs, counts);
    lemma_mix_wf(rs, counts);
    lemma_sparse_row_value(c.terms@, rs, rt, counts);
    lemma_net_split(m, rt);
    lemma_frac_le_congruence(frac_zero(), row_sum(c.terms@, counts), net_sum(m, rt));
    let net = net_sum(m, rt);
    let pr = production_sum(m, rt);
    let co = consumption_sum(m, rt);
    assert(frac_le(frac_zero(), net) <==> net.num >= 0);
    assert((co.num * pr.den <= pr.num * co.den) <==> net.num >= 0) by (nonlinear_arith)
        requires
            net.den == pr.den,
            net.den == co.den,
            net.num == pr.num - co.num,
            net.den > 0,
    ;
}

/// Law: a mix satisfies the demand row built for a need exactly when
/// its aggregate net production rate of the needed resource type is
/// at least the demanded rate.
pub proof fn lemma_demand_row_semantics(
    c: Constraint,
    rs: Seq<Recipe>,
    need: Resource,
    counts: Seq<Frac>,
)
    requires
        demand_row_ok(c, rs, need),
        rs.len() == counts.len(),
        recipes_wf(rs),
        counts_wf(counts),
    ensures
        satisfies(c, counts) <==> frac_le(
            Frac { num: need.num as int, den: 1 },
            net_sum(mix(rs, counts), need.resource_type),
        ),
{
    let rt = need.resource_type;
    let m = mix(rs, counts);
    lemma_mix_wf(rs, counts);
    lemma_dense_row_value(c.terms@, rs, rt, counts);
    lemma_net_split(m, rt);
    lemma_frac_le_congruence(
        Frac { num: need.num as int, den: 1 },
        row_sum(c.terms@, counts),
        net_sum(m, rt),
    );
}

proof fn lemma_net_nonpos(m: Seq<(RecipeV, Frac)>, rt: ResourceType)
    requires
        mix_wf(m),
        forall|i: int| 0 <= i < m.len() ==> sum_q((#[trigger] m[i]).0.results, rt) == 0,
    ensures
        net_sum(m, rt).num <= 0,
        net_sum(m, rt).den > 0,
    decreases m.len(),
{
    if m.len() == 0 {
    } else {
        let pre = m.drop_last();
        assert(forall|i: int| 0 <= i < pre.len() ==> pre[i] == m[i]);
        lemma_net_nonpos(pre, rt);
        lemma_sums_unfold(m, rt);
        let p = m.last();
        crate::recipe::lemma_sum_q_bound(p.0.items, rt);
        let np = net_sum(pre, rt);
        let cn = net_contrib(p, rt);
        assert(cn.num <= 0) by (nonlinear_arith)
            requires
                cn.num == (sum_q(p.0.results, rt) - sum_q(p.0.items, rt)) * p.1.num,
                sum_q(p.0.results, rt) == 0,
                sum_q(p.0.items, rt) >= 0,
                p.1.num >= 0,
        ;
        assert(cn.den > 0) by (nonlinear_arith)
            requires
                cn.den == p.0.time * p.1.den,
                p.0.time > 0,
                p.1.den > 0,
        ;
        assert(net_sum(m, rt).num <= 0 && net_sum(m, rt).den > 0) by (nonlinear_arith)
            requires
                net_sum(m, rt).num == np.num * cn.den + cn.num * np.den,
                net_sum(m, rt).den == np.den * cn.den,
                np.num <= 0,
                np.den > 0,
                cn.num <= 0,
                cn.den > 0,
        ;
    }
}

/// Law: a demand for a positive rate of a resource type that no
/// catalog recipe produces cannot be met by any mix; its demand row
/// is unsatisfiable, so such a problem must end in solver
/// infeasibility rather than a silent pass.
pub proof fn lemma_unproducible_demand_infeasible(
    c: Constraint,
    rs: Seq<Recipe>,
    need: Resource,
    counts: Seq<Frac>,
)
    requires
        demand_row_ok(c, rs, need),
        rs.len() == counts.len(),
        recipes_wf(rs),
        counts_wf(counts),
        need.num > 0,
        forall|j: int| 0 <= j < rs.len() ==> !produces((#[trigger] rs[j])@, need.resource_type),
    ensures
        !satisfies(c, counts),
{
    let rt = need.resource_type;
    let m = mix(rs, counts);
    lemma_mix_wf(rs, counts);
    lemma_demand_row_semantics(c, rs, need, counts);
    assert forall|i: int| 0 <= i < m.len() implies sum_q((#[trigger] m[i]).0.results, rt)
        == 0 by {
        assert(m[i] == (rs[i]@, counts[i]));
        assert(!produces(rs[i]@, rt));
        lemma_sum_q_absent(rs[i]@.results, rt);
    }
    lemma_net_nonpos(m, rt);
    let net = net_sum(m, rt);
    assert(!frac_le(Frac { num: need.num as int, den: 1 }, net)) by (nonlinear_arith)
        requires
            net.num <= 0,
            net.den > 0,
            need.num > 0,
    ;
}

/// Law: any counts that satisfy every row of a model built from a
/// problem form a valid production mix. For every resource type the
/// catalog can produce, the mix's aggregate production rate covers
/// its aggregate consumption rate; and for every need, the mix's
/// aggregate net production rate of the needed type reaches the
/// demanded amount.
pub proof fn lemma_model_semantics(
    m: crate::model::LpModel,
    rs: Seq<Recipe>,
    needs: Seq<Resource>,
    ws: Seq<u64>,
    counts: Seq<Frac>,
)
    requires
        m.encodes(rs, needs, ws),
        rs.len() == counts.len(),
        recipes_wf(rs),
        counts_wf(counts),
        forall|k: int| 0 <= k < m.balances@.len() ==> satisfies(#[trigger] m.balances@[k], counts),
        forall|k: int| 0 <= k < m.demands@.len() ==> satisfies(#[trigger] m.demands@[k], counts),
    ensures
        forall|rt: ResourceType|
            #[trigger] crate::calc::catalog_produces(rs, rt) ==> frac_le(
                consumption_sum(mix(rs, counts), rt),
                production_sum(mix(rs, counts), rt),
            ),
        forall|k: int|
            0 <= k < needs.len() ==> frac_le(
                Frac { num: (#[trigger] needs[k]).num as int, den: 1 },
                net_sum(mix(rs, counts), needs[k].resource_type),
            ),
{
    assert forall|rt: ResourceType|
        #[trigger] crate::calc::catalog_produces(rs, rt) implies frac_le(
        consumption_sum(mix(rs, counts), rt),
        production_sum(mix(rs, counts), rt),
    ) by {
        assert(crate::calc::has_balance_for(m.balances@, rt));
        let k = choose|k: int|
            0 <= k < m.balances@.len() && (#[trigger] m.balances@[k]).resource_type == rt;
        assert(balance_row_ok(m.balances@[k], rs, m.balances@[k].resource_type));
        lemma_balance_row_semantics(m.balances@[k], rs, rt, counts);
    }
    assert forall|k: int| 0 <= k < needs.len() implies frac_le(
        Frac { num: (#[trigger] needs[k]).num as int, den: 1 },
        net_sum(mix(rs, counts), needs[k].resource_type),
    ) by {
        assert(demand_row_ok(m.demands@[k], rs, needs[k]));
        lemma_demand_row_semantics(m.demands@[k], rs, needs[k], counts);
    }
}

/// Law: a demand row is determined by the catalog and its need alone.
/// Any two rows built for the same need over the same catalog accept
/// exactly the same mixes, so reordering the needs list only reorders
/// the rows and cannot change which mixes are feasible.
pub proof fn lemma_demand_row_determined(
    c1: Constraint,
    c2: Constraint,
    rs: Seq<Recipe>,
    need: Resource,
    counts: Seq<Frac>,
)
    requires
        demand_row_ok(c1, rs, need),
        demand_row_ok(c2, rs, need),
        rs.len() == counts.len(),
        recipes_wf(rs),
        counts_wf(counts),
    ensures
        satisfies(c1, counts) <==> satisfies(c2, counts),
{
    lemma_demand_row_semantics(c1, rs, need, counts);
    lemma_demand_row_semantics(c2, rs, need, counts);
}

/// Law: two mixes made of the same recipe-count pairs, in any order,
/// have identical aggregate production, consumption and net rates for
/// every resource type: reordering the catalog (with its counts)
/// cannot change what the plan produces or consumes.
pub proof fn lemma_mix_reorder(
    m1: Seq<(RecipeV, Frac)>,
    m2: Seq<(RecipeV, Frac)>,
    rt: ResourceType,
)
    requires
        m1.to_multiset() == m2.to_multiset(),
    ensures
        production_sum(m1, rt) == production_sum(m2, rt),
        consumption_sum(m1, rt) == consumption_sum(m2, rt),
        net_sum(m1, rt) == net_sum(m2, rt),
{
    lemma_add_prod_commutative(rt);
    lemma_add_cons_commutative(rt);
    lemma_add_net_commutative(rt);
    lemma_fold_right_permutation(m1, m2, add_prod(rt), frac_zero());
    lemma_fold_right_permutation(m1, m2, add_cons(rt), frac_zero());
    lemma_fold_right_permutation(m1, m2, add_net(rt), frac_zero());
}

} // verus!
