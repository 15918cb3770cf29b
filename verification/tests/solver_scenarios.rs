use dsp_calc::calc::{from_solution_values, CalculatorSolution, Problem};
use dsp_calc::error::{DspCalError, SolverFailure};
use dsp_calc::frac::Rat;
use dsp_calc::item::{Resource, ResourceType};
use dsp_calc::model::LpModel;
use dsp_calc::recipe::Recipe;

use good_lp::{clarabel, variable, Expression, ProblemVariables, ResolutionError, SolverModel};

fn rt(id: u64) -> ResourceType {
    ResourceType { id }
}

fn res(id: u64, num: u64) -> Resource {
    Resource { resource_type: rt(id), num }
}

fn recipe(items: Vec<Resource>, results: Vec<Resource>, time: u64) -> Recipe {
    Recipe { items, results, time }
}

fn f64_to_rat(x: f64) -> Rat {
    if !(x > 0.0) {
        return Rat { num: 0, den: 1 };
    }
    let den: u64 = 1 << 32;
    let num = (x * den as f64).round() as u64;
    Rat { num, den }
}

fn rat_to_f64(r: &Rat) -> f64 {
    r.num as f64 / r.den as f64
}

fn solve_problem(p: &Problem) -> Result<Vec<CalculatorSolution>, DspCalError> {
    let model = p.build_model()?;
    let values = run_values(&model)?;
    let rats: Vec<Rat> = values.iter().map(|v| f64_to_rat(*v)).collect();
    from_solution_values(&model.variables, &rats)
}

fn run_values(m: &LpModel) -> Result<Vec<f64>, DspCalError> {
    let mut vars = ProblemVariables::new();
    let n = m.variables.len();
    let mut vs = Vec::new();
    for _ in 0..n {
        vs.push(vars.add(variable().min(0.0)));
    }
    let mut objective = Expression::from(0.0);
    for re in &m.variables {
        objective += vs[re.variable] * (re.weight as f64);
    }
    let mut problem = vars.minimise(objective).using(clarabel);
    for c in m.balances.iter().chain(m.demands.iter()) {
        let mut expr = Expression::from(0.0);
        for t in &c.terms {
            let coef = (t.out_q as f64 - t.in_q as f64) / (t.time as f64);
            expr += vs[t.var] * coef;
        }
        let rhs = c.rhs.num as f64 / c.rhs.den as f64;
        problem.add_constraint(expr.geq(rhs));
    }
    let sol = problem.solve().map_err(|e| {
        DspCalError::LpSolverError(match e {
            ResolutionError::Infeasible => SolverFailure::Infeasible,
            ResolutionError::Unbounded => SolverFailure::Unbounded,
            _ => SolverFailure::Other,
        })
    })?;
    Ok(vs.iter().map(|v| good_lp::Solution::value(&sol, *v)).collect())
}

/// Aggregate production minus consumption rate of `r` in the plan.
fn net_rate(plan: &[CalculatorSolution], r: ResourceType) -> f64 {
    let mut net = 0.0;
    for entry in plan {
        let count = rat_to_f64(&entry.num);
        for item in &entry.recipe.items {
            if item.resource_type == r {
                net -= count * item.num as f64 / entry.recipe.time as f64;
            }
        }
        for result in &entry.recipe.results {
            if result.resource_type == r {
                net += count * result.num as f64 / entry.recipe.time as f64;
            }
        }
    }
    net
}

fn production_rate(plan: &[CalculatorSolution], r: ResourceType) -> f64 {
    let mut total = 0.0;
    for entry in plan {
        let count = rat_to_f64(&entry.num);
        for result in &entry.recipe.results {
            if result.resource_type == r {
                total += count * result.num as f64 / entry.recipe.time as f64;
            }
        }
    }
    total
}

fn consumption_rate(plan: &[CalculatorSolution], r: ResourceType) -> f64 {
    let mut total = 0.0;
    for entry in plan {
        let count = rat_to_f64(&entry.num);
        for item in &entry.recipe.items {
            if item.resource_type == r {
                total += count * item.num as f64 / entry.recipe.time as f64;
            }
        }
    }
    total
}

#[test]
fn scenario_single_producer() {
    // Recipe P consumes nothing, produces 2 X per 1-second cycle; need X at rate 4.
    let p = Problem {
        recipes: vec![recipe(vec![], vec![res(1, 2)], 1)],
        needs: vec![res(1, 4)],
        weights: vec![1],
    };
    let plan = solve_problem(&p).expect("solvable");
    assert_eq!(plan.len(), 1);
    assert!((rat_to_f64(&plan[0].num) - 2.0).abs() < 1e-6);
    assert_eq!(plan[0].recipe.results[0].resource_type, rt(1));
}

#[test]
fn scenario_chained_producers() {
    // Q: 1 Y -> 1 X per second; R: nothing -> 1 Y per second; need X at 3.
    let q = recipe(vec![res(2, 1)], vec![res(1, 1)], 1);
    let r = recipe(vec![], vec![res(2, 1)], 1);
    let p = Problem { recipes: vec![q, r], needs: vec![res(1, 3)], weights: vec![1, 1] };
    let plan = solve_problem(&p).expect("solvable");
    assert_eq!(plan.len(), 2);
    // Catalog order is preserved: Q first, then R.
    assert_eq!(plan[0].recipe.items.len(), 1);
    assert_eq!(plan[1].recipe.items.len(), 0);
    assert!((rat_to_f64(&plan[0].num) - 3.0).abs() < 1e-6);
    assert!((rat_to_f64(&plan[1].num) - 3.0).abs() < 1e-6);
}

#[test]
fn scenario_unproducible_demand() {
    // The needed resource type has no producer: the solve must end infeasible.
    let q = recipe(vec![res(2, 1)], vec![res(1, 1)], 1);
    let p = Problem { recipes: vec![q], needs: vec![res(9, 5)], weights: vec![1] };
    match solve_problem(&p) {
        Err(DspCalError::LpSolverError(_)) => {}
        other => panic!("expected a solver error, got {:?}", other.is_ok()),
    }
}

#[test]
fn validation_gate_rejects_mismatched_weights() {
    // Wrong weight count: the input-validation error comes before any
    // variable, constraint or solver work.
    let p = Problem {
        recipes: vec![recipe(vec![], vec![res(1, 2)], 1), recipe(vec![], vec![res(2, 1)], 1)],
        needs: vec![res(1, 4)],
        weights: vec![1],
    };
    match p.build_model() {
        Err(DspCalError::MismatchedRecipeWeights(r, w)) => {
            assert_eq!(r, 2);
            assert_eq!(w, 1);
        }
        Ok(_) => panic!("mismatched weights must be rejected"),
        Err(e) => panic!("wrong error {:?}", e),
    }
}

#[test]
fn returned_counts_are_strictly_positive() {
    let q = recipe(vec![res(2, 1)], vec![res(1, 1)], 1);
    let r = recipe(vec![], vec![res(2, 1)], 1);
    let unused = recipe(vec![], vec![res(7, 1)], 1);
    let p = Problem {
        recipes: vec![q, r, unused],
        needs: vec![res(1, 3)],
        weights: vec![1, 1, 1],
    };
    let plan = solve_problem(&p).expect("solvable");
    // The unused producer is dropped entirely, not reported with zero.
    assert_eq!(plan.len(), 2);
    for entry in &plan {
        assert!(rat_to_f64(&entry.num) > 0.0);
        assert!(entry.num.num > 0);
    }
}

#[test]
fn conservation_and_demand_hold_in_solved_mix() {
    let q = recipe(vec![res(2, 1)], vec![res(1, 1)], 1);
    let r = recipe(vec![], vec![res(2, 1)], 1);
    let p = Problem { recipes: vec![q, r], needs: vec![res(1, 3)], weights: vec![1, 1] };
    let plan = solve_problem(&p).expect("solvable");
    // Conservation: every produced type is made at least as fast as it is consumed.
    for produced in [rt(1), rt(2)] {
        assert!(production_rate(&plan, produced) >= consumption_rate(&plan, produced) - 1e-6);
    }
    // Demand satisfaction: the needed net rate is reached.
    assert!(net_rate(&plan, rt(1)) >= 3.0 - 1e-6);
}

#[test]
fn formulation_stable_under_reordering() {
    let q = recipe(vec![res(2, 1)], vec![res(1, 1)], 1);
    let r = recipe(vec![], vec![res(2, 1)], 1);
    let extra = recipe(vec![res(2, 2)], vec![res(3, 1)], 2);
    let needs_a = vec![res(1, 3), res(3, 1)];
    let needs_b = vec![res(3, 1), res(1, 3)];
    let p1 = Problem {
        recipes: vec![q.clone(), r.clone(), extra.clone()],
        needs: needs_a,
        weights: vec![1, 1, 1],
    };
    let p2 = Problem {
        recipes: vec![extra, q, r],
        needs: needs_b,
        weights: vec![1, 1, 1],
    };
    let plan1 = solve_problem(&p1).expect("solvable");
    let plan2 = solve_problem(&p2).expect("solvable");
    for r0 in [rt(1), rt(2), rt(3)] {
        assert!((production_rate(&plan1, r0) - production_rate(&plan2, r0)).abs() < 1e-5);
        assert!((consumption_rate(&plan1, r0) - consumption_rate(&plan2, r0)).abs() < 1e-5);
    }
}

#[test]
fn weights_steer_the_chosen_producer() {
    // Two ways to make X at the same rate; the cheap one must win.
    let pricey = recipe(vec![], vec![res(1, 1)], 1);
    let cheap = recipe(vec![], vec![res(1, 1)], 1);
    let p = Problem {
        recipes: vec![pricey, cheap],
        needs: vec![res(1, 2)],
        weights: vec![10, 1],
    };
    let plan = solve_problem(&p).expect("solvable");
    assert_eq!(plan.len(), 1);
    assert!((rat_to_f64(&plan[0].num) - 2.0).abs() < 1e-5);
}

#[test]
fn decode_reports_out_of_range_variable() {
    let p = Problem {
        recipes: vec![recipe(vec![], vec![res(1, 2)], 1)],
        needs: vec![],
        weights: vec![1],
    };
    let model = p.build_model().expect("valid");
    let values: Vec<Rat> = vec![];
    match from_solution_values(&model.variables, &values) {
        Err(DspCalError::UnknownLpVarId(i)) => assert_eq!(i, 0),
        _ => panic!("expected the internal index error"),
    }
}

#[test]
fn decode_drops_noise_values() {
    let p = Problem {
        recipes: vec![recipe(vec![], vec![res(1, 2)], 1), recipe(vec![], vec![res(2, 1)], 1)],
        needs: vec![],
        weights: vec![1, 1],
    };
    let model = p.build_model().expect("valid");
    // First value far below the float32-epsilon threshold, second well above.
    let values = vec![Rat { num: 1, den: 1 << 30 }, Rat { num: 3, den: 2 }];
    let plan = from_solution_values(&model.variables, &values).expect("in range");
    assert_eq!(plan.len(), 1);
    assert_eq!(plan[0].num.num, 3);
    assert_eq!(plan[0].num.den, 2);
    assert_eq!(plan[0].recipe.results[0].resource_type, rt(2));
}
