use vstd::prelude::*;

use crate::frac::{frac_zero, Frac, Rat};
use crate::index::{idx_list, lists_touching, ResourceIndex};
use crate::item::{Resource, ResourceType};
use crate::recipe::{produces, sum_q, touches, Recipe};
use crate::stats::RecipeStats;

verus! {

/// One recipe bound to its decision variable slot and objective weight.
/// Variables are allocated in catalog order, so `variable` equals the
/// recipe's index in the catalog.
#[derive(Debug)]
pub struct RecipeExtra {
    pub recipe: Recipe,
    pub variable: usize,
    pub weight: u64,
}

/// One linear term of a constraint row: decision variable `var`
/// contributes `(out_q - in_q) / time` per instance of its recipe.
#[derive(Debug, Clone, Copy)]
pub struct Term {
    pub var: usize,
    pub out_q: u128,
    pub in_q: u128,
    pub time: u64,
}

/// A linear inequality over the decision variables: the sum of the
/// terms must be at least `rhs`.
#[derive(Debug)]
pub struct Constraint {
    pub resource_type: ResourceType,
    pub terms: Vec<Term>,
    pub rhs: Rat,
}

/// A solver-ready model: one variable per recipe in catalog order,
/// one balance row per producible resource type, one demand row per
/// need, and the per-variable objective weights.
#[derive(Debug)]
pub struct LpModel {
    pub variables: Vec<RecipeExtra>,
    pub balances: Vec<Constraint>,
    pub demands: Vec<Constraint>,
}

/// The term reads exactly the aggregated quantities and cycle time of
/// the recipe its variable stands for.
pub open spec fn term_matches(t: Term, rs: Seq<Recipe>, rt: ResourceType) -> bool {
    &&& t.var < rs.len()
    &&& t.out_q == sum_q(rs[t.var as int].results@, rt)
    &&& t.in_q == sum_q(rs[t.var as int].items@, rt)
    &&& t.time == rs[t.var as int].time
}

/// Balance-row shape: one term per recipe that touches `rt`, in
/// increasing variable order, each with that recipe's quantities.
pub open spec fn balance_terms_ok(terms: Seq<Term>, rs: Seq<Recipe>, rt: ResourceType) -> bool {
    &&& forall|k: int|
        0 <= k < terms.len() ==> term_matches(#[trigger] terms[k], rs, rt) && touches(
            rs[terms[k].var as int]@,
            rt,
        )
    &&& forall|a: int, b: int| 0 <= a < b < terms.len() ==> terms[a].var < terms[b].var
    &&& forall|j: int|
        0 <= j < rs.len() && touches(rs[j]@, rt) ==> exists|k: int|
            0 <= k < terms.len() && (#[trigger] terms[k]).var == j
}

/// Demand-row shape: one term per recipe, aligned with the catalog.
pub open spec fn demand_terms_ok(terms: Seq<Term>, rs: Seq<Recipe>, rt: ResourceType) -> bool {
    &&& terms.len() == rs.len()
    &&& forall|k: int|
        0 <= k < terms.len() ==> (#[trigger] terms[k]).var == k && term_matches(terms[k], rs, rt)
}

/// A balance row forbids net consumption of `rt`: terms sum `>= 0`.
pub open spec fn balance_row_ok(c: Constraint, rs: Seq<Recipe>, rt: ResourceType) -> bool {
    &&& c.resource_type == rt
    &&& c.rhs@ == frac_zero()
    &&& balance_terms_ok(c.terms@, rs, rt)
}

/// A demand row asks for a net production rate of at least `need.num`.
pub open spec fn demand_row_ok(c: Constraint, rs: Seq<Recipe>, need: Resource) -> bool {
    &&& c.resource_type == need.resource_type
    &&& c.rhs@ == (Frac { num: need.num as int, den: 1 })
    &&& demand_terms_ok(c.terms@, rs, need.resource_type)
}

/// The resource types produced by at least one recipe of the catalog,
/// each listed once.
pub fn find_all_production(recipes: &Vec<Recipe>) -> (types: Vec<ResourceType>)
    ensures
        forall|a: int, b: int| 0 <= a < b < types@.len() ==> types@[a] != types@[b],
        forall|rt: ResourceType|
            types@.contains(rt) <==> exists|j: int|
                0 <= j < recipes@.len() && produces(recipes@[j]@, rt),
{
    let mut types: Vec<ResourceType> = Vec::new();
    let n = recipes.len();
    for j in 0..n
        invariant
            n == recipes@.len(),
            forall|a: int, b: int| 0 <= a < b < types@.len() ==> types@[a] != types@[b],
            forall|rt: ResourceType|
                types@.contains(rt) <==> exists|h: int|
                    0 <= h < j && produces(recipes@[h]@, rt),
    {
        let ghost before = types@;
        let recipe = &recipes[j];
        types = crate::index::add_types_from(types, &recipe.results);
        proof {
            assert forall|rt: ResourceType|
                types@.contains(rt) <==> exists|h: int|
                    0 <= h < j + 1 && produces(recipes@[h]@, rt) by {
                assert(types@.contains(rt) <==> before.contains(rt) || crate::recipe::has_type(
                    recipe.results@,
                    rt,
                ));
                if types@.contains(rt) {
                    if !before.contains(rt) {
                        assert(0 <= j < j + 1 && produces(recipes@[j as int]@, rt));
                    }
                }
                if exists|h: int| 0 <= h < j + 1 && produces(recipes@[h]@, rt) {
                    let h = choose|h: int| 0 <= h < j + 1 && produces(recipes@[h]@, rt);
                    if h < j {
                        assert(before.contains(rt));
                    }
                }
            }
        }
    }
    types
}

/// Per-recipe aggregated stats for the whole catalog, index-aligned.
pub fn all_stats(recipes: &Vec<Recipe>) -> (stats: Vec<RecipeStats>)
    ensures
        stats@.len() == recipes@.len(),
        forall|i: int|
            0 <= i < stats@.len() ==> (#[trigger] stats@[i]).consistent_with(recipes@[i]@),
{
    let mut stats: Vec<RecipeStats> = Vec::new();
    let n = recipes.len();
    for i in 0..n
        invariant
            n == recipes@.len(),
            stats@.len() == i,
            forall|h: int|
                0 <= h < i ==> (#[trigger] stats@[h]).consistent_with(recipes@[h]@),
    {
        stats.push(RecipeStats::new(&recipes[i]));
    }
    stats
}

/// Builds the balance row for one producible resource type: total
/// production rate of `rt` must cover total consumption rate.
pub fn constraint_recipe(
    recipes: &Vec<Recipe>,
    stats: &Vec<RecipeStats>,
    index: &ResourceIndex,
    production: &ResourceType,
) -> (c: Constraint)
    requires
        stats@.len() == recipes@.len(),
        forall|i: int|
            0 <= i < stats@.len() ==> (#[trigger] stats@[i]).consistent_with(recipes@[i]@),
        index.consistent_with(recipes@),
    ensures
        balance_row_ok(c, recipes@, *production),
{
    let relevant = index.recipes_of(production);
    let ghost idxs = idx_list(index.entries@, *production);
    proof {
        assert(lists_touching(idxs, recipes@, *production));
    }
    let mut terms: Vec<Term> = Vec::new();
    let m = relevant.len();
    for k in 0..m
        invariant
            m == relevant@.len(),
            relevant@ == idxs,
            stats@.len() == recipes@.len(),
            forall|i: int|
                0 <= i < stats@.len() ==> (#[trigger] stats@[i]).consistent_with(recipes@[i]@),
            lists_touching(idxs, recipes@, *production),
            terms@.len() == k,
            forall|h: int| 0 <= h < k ==> (#[trigger] terms@[h]).var == idxs[h],
            forall|h: int|
                0 <= h < k ==> term_matches(#[trigger] terms@[h], recipes@, *production),
    {
        let var = relevant[k];
        proof {
            assert(idxs[k as int] < recipes@.len() && touches(
                recipes@[idxs[k as int] as int]@,
                *production,
            ));
        }
        let t = Term {
            var,
            out_q: stats[var].get_output(production),
            in_q: stats[var].get_input(production),
            time: recipes[var].time,
        };
        terms.push(t);
    }
    let c = Constraint { resource_type: *production, terms, rhs: Rat { num: 0, den: 1 } };
    proof {
        assert(balance_terms_ok(c.terms@, recipes@, *production)) by {
            assert(forall|h: int| 0 <= h < c.terms@.len() ==> (#[trigger] c.terms@[h]).var == idxs[h]);
            assert forall|j: int|
                0 <= j < recipes@.len() && touches(recipes@[j]@, *production) implies exists|k2: int|
                    0 <= k2 < c.terms@.len() && (#[trigger] c.terms@[k2]).var == j by {
                assert(idxs.contains(j as usize));
                assert(exists|k2: int| 0 <= k2 < idxs.len() && idxs[k2] == j as usize);
                let k2 = choose|k2: int| 0 <= k2 < idxs.len() && idxs[k2] == j as usize;
                assert(c.terms@[k2].var == idxs[k2]);
                assert(recipes@.len() <= usize::MAX) by {
                    assert(recipes@.len() == recipes.len());
                }
                assert(c.terms@[k2].var == j);
            }
        }
    }
    c
}

/// Builds all balance rows, one per entry of `productions`.
pub fn constraint_recipes(
    recipes: &Vec<Recipe>,
    stats: &Vec<RecipeStats>,
    index: &ResourceIndex,
    productions: &Vec<ResourceType>,
) -> (cs: Vec<Constraint>)
    requires
        stats@.len() == recipes@.len(),
        forall|i: int|
            0 <= i < stats@.len() ==> (#[trigger] stats@[i]).consistent_with(recipes@[i]@),
        index.consistent_with(recipes@),
    ensures
        cs@.len() == productions@.len(),
        forall|k: int|
            0 <= k < cs@.len() ==> balance_row_ok(#[trigger] cs@[k], recipes@, productions@[k]),
{
    let mut cs: Vec<Constraint> = Vec::new();
    let n = productions.len();
    for k in 0..n
        invariant
            n == productions@.len(),
            stats@.len() == recipes@.len(),
            forall|i: int|
                0 <= i < stats@.len() ==> (#[trigger] stats@[i]).consistent_with(recipes@[i]@),
            index.consistent_with(recipes@),
            cs@.len() == k,
            forall|h: int|
                0 <= h < k ==> balance_row_ok(#[trigger] cs@[h], recipes@, productions@[h]),
    {
        cs.push(constraint_recipe(recipes, stats, index, &productions[k]));
    }
    cs
}

/// Builds the demand row for one need: net production rate of the
/// needed resource type must reach `need.num`.
pub fn constraint_need(
    recipes: &Vec<Recipe>,
    stats: &Vec<RecipeStats>,
    need: Resource,
) -> (c: Constraint)
    requires
        stats@.len() == recipes@.len(),
        forall|i: int|
            0 <= i < stats@.len() ==> (#[trigger] stats@[i]).consistent_with(recipes@[i]@),
    ensures
        demand_row_ok(c, recipes@, need),
{
    let mut terms: Vec<Term> = Vec::new();
    let n = recipes.len();
    for j in 0..n
        invariant
            n == recipes@.len(),
            stats@.len() == recipes@.len(),
            forall|i: int|
                0 <= i < stats@.len() ==> (#[trigger] stats@[i]).consistent_with(recipes@[i]@),
            terms@.len() == j,
            forall|h: int|
                0 <= h < j ==> (#[trigger] terms@[h]).var == h && term_matches(
                    terms@[h],
                    recipes@,
                    need.resource_type,
                ),
    {
        let t = Term {
            var: j,
            out_q: stats[j].get_output(&need.resource_type),
            in_q: stats[j].get_input(&need.resource_type),
            time: recipes[j].time,
        };
        terms.push(t);
    }
    Constraint { resource_type: need.resource_type, terms, rhs: Rat { num: need.num, den: 1 } }
}

/// Builds all demand rows, one per need, in the needs' order.
pub fn constraint_needs(
    recipes: &Vec<Recipe>,
    stats: &Vec<RecipeStats>,
    needs: &Vec<Resource>,
) -> (cs: Vec<Constraint>)
    requires
        stats@.len() == recipes@.len(),
        forall|i: int|
            0 <= i < stats@.len() ==> (#[trigger] stats@[i]).consistent_with(recipes@[i]@),
    ensures
        cs@.len() == needs@.len(),
        forall|k: int|
            0 <= k < cs@.len() ==> demand_row_ok(#[trigger] cs@[k], recipes@, needs@[k]),
{
    let mut cs: Vec<Constraint> = Vec::new();
    let n = needs.len();
    for k in 0..n
        invariant
            n == needs@.len(),
            stats@.len() == recipes@.len(),
            forall|i: int|
                0 <= i < stats@.len() ==> (#[trigger] stats@[i]).consistent_with(recipes@[i]@),
            cs@.len() == k,
            forall|h: int|
                0 <= h < k ==> demand_row_ok(#[trigger] cs@[h], recipes@, needs@[h]),
    {
        cs.push(constraint_need(recipes, stats, needs[k]));
    }
    cs
}

/// The uniform objective: weight 1 for each of the `n` variables, so
/// minimizing the objective minimizes the total building count.
pub fn minimize_buildings_count(n: usize) -> (w: Vec<u64>)
    ensures
        w@.len() == n,
        forall|i: int| 0 <= i < n ==> w@[i] == 1u64,
{
    let mut w: Vec<u64> = Vec::new();
    for i in 0..n
        invariant
            w@.len() == i,
            forall|h: int| 0 <= h < i ==> w@[h] == 1u64,
    {
        w.push(1);
    }
    w
}

} // verus!
