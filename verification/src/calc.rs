use vstd::prelude::*;

use crate::error::DspCalError;
use crate::frac::{frac_lt, Frac, Rat};
use crate::index::ResourceIndex;
use crate::item::Resource;
use crate::model::{
    balance_row_ok, constraint_needs, constraint_recipes, demand_row_ok, find_all_production,
    all_stats, LpModel, RecipeExtra,
};
use crate::recipe::{produces, Recipe, RecipeV};

verus! {

/// Threshold below which a solved variable value is treated as
/// numerical noise and dropped from the decoded solution.
pub open spec fn eps_frac() -> Frac {
    Frac { num: 1, den: 8388608 }
}

/// A production problem: a recipe catalog, a list of demanded net
/// production rates, and one objective weight per recipe.
#[derive(Debug)]
pub struct Problem {
    pub recipes: Vec<Recipe>,
    pub needs: Vec<Resource>,
    pub weights: Vec<u64>,
}

/// One line of a production plan: run `num` concurrent instances of
/// `recipe`; `num` is always strictly positive.
#[derive(Debug)]
pub struct Solution {
    pub recipe: Recipe,
    pub num: Rat,
}

/// A decoded solver answer, independent of the solving backend.
#[derive(Debug)]
pub struct CalculatorSolution {
    pub recipe: Recipe,
    pub num: Rat,
}

/// Whether at least one recipe of the catalog produces `rt`.
pub open spec fn catalog_produces(rs: Seq<Recipe>, rt: crate::item::ResourceType) -> bool {
    exists|j: int| 0 <= j < rs.len() && produces(rs[j]@, rt)
}

/// Whether some balance row answers for `rt`.
pub open spec fn has_balance_for(
    balances: Seq<crate::model::Constraint>,
    rt: crate::item::ResourceType,
) -> bool {
    exists|k: int| 0 <= k < balances.len() && (#[trigger] balances[k]).resource_type == rt
}

impl LpModel {
    /// The model faithfully encodes the problem: variables in catalog
    /// order, a correct balance row for exactly the producible
    /// resource types, and a correct demand row per need, in order.
    pub open spec fn encodes(&self, rs: Seq<Recipe>, needs: Seq<Resource>, ws: Seq<u64>) -> bool {
        &&& self.variables@.len() == rs.len()
        &&& forall|i: int|
            0 <= i < rs.len() ==> (#[trigger] self.variables@[i]).variable == i
                && self.variables@[i].recipe@ == rs[i]@ && self.variables@[i].weight == ws[i]
        &&& forall|k: int|
            0 <= k < self.balances@.len() ==> balance_row_ok(
                #[trigger] self.balances@[k],
                rs,
                self.balances@[k].resource_type,
            )
        &&& forall|a: int, b: int|
            0 <= a < b < self.balances@.len() ==> self.balances@[a].resource_type
                != self.balances@[b].resource_type
        &&& forall|rt: crate::item::ResourceType|
            #[trigger] catalog_produces(rs, rt) <==> has_balance_for(self.balances@, rt)
        &&& self.demands@.len() == needs.len()
        &&& forall|k: int|
            0 <= k < needs.len() ==> demand_row_ok(#[trigger] self.demands@[k], rs, needs[k])
    }
}

impl Problem {
    /// Validates the problem and assembles the solver-ready model:
    /// one non-negative variable per recipe, balance rows for every
    /// producible resource type, demand rows for every need, and the
    /// weighted objective. Fails only on a recipe/weight count
    /// mismatch, before anything is built.
    pub fn build_model(&self) -> (r: Result<LpModel, DspCalError>)
        ensures
            (self.recipes@.len() == self.weights@.len()) <==> r is Ok,
            self.recipes@.len() != self.weights@.len() ==> r == Err::<LpModel, DspCalError>(
                DspCalError::MismatchedRecipeWeights(self.recipes.len(), self.weights.len()),
            ),
            r matches Ok(m) ==> m.encodes(self.recipes@, self.needs@, self.weights@),
    {
        if self.recipes.len() != self.weights.len() {
            return Err(DspCalError::MismatchedRecipeWeights(
                self.recipes.len(),
                self.weights.len(),
            ));
        }
        let n = self.recipes.len();
        let mut variables: Vec<RecipeExtra> = Vec::new();
        for i in 0..n
            invariant
                n == self.recipes@.len(),
                n == self.weights@.len(),
                variables@.len() == i,
                forall|h: int|
                    0 <= h < i ==> (#[trigger] variables@[h]).variable == h
                        && variables@[h].recipe@ == self.recipes@[h]@ && variables@[h].weight
                        == self.weights@[h],
        {
            variables.push(RecipeExtra {
                recipe: self.recipes[i].duplicate(),
                variable: i,
                weight: self.weights[i],
            });
        }
        let productions = find_all_production(&self.recipes);
        let stats = all_stats(&self.recipes);
        let index = ResourceIndex::new(&self.recipes);
        let balances = constraint_recipes(&self.recipes, &stats, &index, &productions);
        let demands = constraint_needs(&self.recipes, &stats, &self.needs);
        let m = LpModel { variables, balances, demands };
        proof {
            assert forall|rt: crate::item::ResourceType|
                #[trigger] catalog_produces(self.recipes@, rt) <==> has_balance_for(
                    m.balances@,
                    rt,
                ) by {
                if catalog_produces(self.recipes@, rt) {
                    assert(productions@.contains(rt));
                    let k = choose|k: int| 0 <= k < productions@.len() && productions@[k] == rt;
                    assert(m.balances@[k].resource_type == rt);
                    assert(has_balance_for(m.balances@, rt));
                }
                if has_balance_for(m.balances@, rt) {
                    let k = choose|k: int|
                        0 <= k < m.balances@.len() && m.balances@[k].resource_type == rt;
                    assert(m.balances@[k].resource_type == productions@[k]);
                    assert(productions@.contains(rt));
                }
            }
            assert forall|a: int, b: int|
                0 <= a < b < m.balances@.len() implies m.balances@[a].resource_type
                != m.balances@[b].resource_type by {
                assert(m.balances@[a].resource_type == productions@[a]);
                assert(m.balances@[b].resource_type == productions@[b]);
            }
        }
        Ok(m)
    }
}

/// The decoded plan, in specification form: scanning the variable
/// table in order, keep each recipe whose solved value is above the
/// noise threshold, paired with that value.
pub open spec fn decode_spec(vars: Seq<RecipeExtra>, values: Seq<Rat>) -> Seq<(RecipeV, Frac)>
    decreases vars.len(),
{
    if vars.len() == 0 {
        Seq::empty()
    } else {
        let prefix = decode_spec(vars.drop_last(), values);
        let v = values[vars.last().variable as int]@;
        if frac_lt(eps_frac(), v) {
            prefix.push((vars.last().recipe@, v))
        } else {
            prefix
        }
    }
}

/// Translates raw per-variable solver values into a production plan.
/// Values at or below the noise threshold are dropped; the catalog
/// order of the remaining recipes is preserved. Fails only when a
/// variable slot lies outside the value table, and then names the
/// first recipe index whose slot is out of range.
pub fn from_solution_values(
    variables: &Vec<RecipeExtra>,
    values: &Vec<Rat>,
) -> (r: Result<Vec<CalculatorSolution>, DspCalError>)
    requires
        forall|i: int| 0 <= i < values@.len() ==> (#[trigger] values@[i]).wf(),
    ensures
        (forall|i: int|
            0 <= i < variables@.len() ==> (#[trigger] variables@[i]).variable < values@.len())
            <==> r is Ok,
        r matches Ok(sols) ==> {
            let d = decode_spec(variables@, values@);
            &&& sols@.len() == d.len()
            &&& forall|k: int|
                0 <= k < d.len() ==> ((#[trigger] sols@[k]).recipe@, sols@[k].num@) == d[k]
            &&& forall|k: int|
                0 <= k < sols@.len() ==> (#[trigger] sols@[k]).num.wf() && sols@[k].num@.num > 0
                    && frac_lt(eps_frac(), sols@[k].num@)
        },
        r matches Err(e) ==> exists|i: int|
            0 <= i < variables@.len() && e == DspCalError::UnknownLpVarId(i as usize) && (
            #[trigger] variables@[i]).variable >= values@.len() && (forall|h: int|
                0 <= h < i ==> (#[trigger] variables@[h]).variable < values@.len()),
{
    let mut sols: Vec<CalculatorSolution> = Vec::new();
    let n = variables.len();
    proof {
        assert(variables@.take(0) =~= Seq::<RecipeExtra>::empty());
    }
    for i in 0..n
        invariant
            n == variables@.len(),
            forall|h: int| 0 <= h < values@.len() ==> (#[trigger] values@[h]).wf(),
            forall|h: int|
                0 <= h < i ==> (#[trigger] variables@[h]).variable < values@.len(),
            sols@.len() == decode_spec(variables@.take(i as int), values@).len(),
            forall|k: int|
                0 <= k < sols@.len() ==> ((#[trigger] sols@[k]).recipe@, sols@[k].num@)
                    == decode_spec(variables@.take(i as int), values@)[k],
            forall|k: int|
                0 <= k < sols@.len() ==> (#[trigger] sols@[k]).num.wf() && sols@[k].num@.num > 0
                    && frac_lt(eps_frac(), sols@[k].num@),
    {
        let ghost pre = sols@;
        let var = variables[i].variable;
        if var >= values.len() {
            return Err(DspCalError::UnknownLpVarId(i));
        }
        let val = values[var];
        proof {
            assert(val.wf());
            assert(variables@.take(i + 1).drop_last() =~= variables@.take(i as int));
            assert(variables@.take(i + 1).last() == variables@[i as int]);
        }
        if (val.den as u128) < (val.num as u128) * 8388608 {
            proof {
                assert(frac_lt(eps_frac(), val@));
                assert(val@.num > 0);
            }
            sols.push(CalculatorSolution { recipe: variables[i].recipe.duplicate(), num: val });
            proof {
                let d = decode_spec(variables@.take(i + 1), values@);
                assert(d == decode_spec(variables@.take(i as int), values@).push(
                    (variables@[i as int].recipe@, val@),
                ));
                assert(forall|k: int|
                    0 <= k < pre.len() ==> sols@[k] == pre[k]);
                assert((sols@[sols@.len() - 1].recipe@, sols@[sols@.len() - 1].num@)
                    == d[d.len() - 1]);
            }
        } else {
            proof {
                assert(!frac_lt(eps_frac(), val@));
                assert(decode_spec(variables@.take(i + 1), values@) == decode_spec(
                    variables@.take(i as int),
                    values@,
                ));
            }
        }
    }
    proof {
        assert(variables@.take(n as int) =~= variables@);
    }
    Ok(sols)
}

} // verus!
