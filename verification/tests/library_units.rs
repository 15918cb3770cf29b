use dsp_calc::frac::Rat;
use dsp_calc::index::ResourceIndex;
use dsp_calc::item::{Resource, ResourceType};
use dsp_calc::model::{find_all_production, minimize_buildings_count};
use dsp_calc::proliferator::Proliferator;
use dsp_calc::recipe::Recipe;
use dsp_calc::stats::RecipeStats;

fn rt(id: u64) -> ResourceType {
    ResourceType { id }
}

fn res(id: u64, num: u64) -> Resource {
    Resource { resource_type: rt(id), num }
}

#[test]
fn stats_sum_duplicate_entries() {
    // The same resource type listed twice in one recipe is summed, not overwritten.
    let r = Recipe {
        items: vec![res(1, 2), res(1, 3), res(2, 1)],
        results: vec![res(3, 4), res(3, 1)],
        time: 2,
    };
    let stats = RecipeStats::new(&r);
    assert_eq!(stats.get_input(&rt(1)), 5);
    assert_eq!(stats.get_input(&rt(2)), 1);
    assert_eq!(stats.get_output(&rt(3)), 5);
}

#[test]
fn stats_absent_type_reads_zero() {
    let r = Recipe { items: vec![res(1, 2)], results: vec![res(3, 4)], time: 1 };
    let stats = RecipeStats::new(&r);
    assert_eq!(stats.get_input(&rt(42)), 0);
    assert_eq!(stats.get_output(&rt(42)), 0);
    assert_eq!(stats.get_input(&rt(3)), 0);
    assert_eq!(stats.get_output(&rt(1)), 0);
}

#[test]
fn index_lists_touching_recipes_in_order() {
    let a = Recipe { items: vec![res(1, 1)], results: vec![res(2, 1)], time: 1 };
    let b = Recipe { items: vec![res(2, 1)], results: vec![res(3, 1)], time: 1 };
    let c = Recipe { items: vec![res(1, 1)], results: vec![res(3, 2)], time: 1 };
    let recipes = vec![a, b, c];
    let index = ResourceIndex::new(&recipes);
    assert_eq!(index.recipes_of(&rt(1)), vec![0, 2]);
    assert_eq!(index.recipes_of(&rt(2)), vec![0, 1]);
    assert_eq!(index.recipes_of(&rt(3)), vec![1, 2]);
}

#[test]
fn index_default_is_empty_for_unknown_type() {
    let a = Recipe { items: vec![], results: vec![res(2, 1)], time: 1 };
    let index = ResourceIndex::new(&vec![a]);
    let empty: Vec<usize> = vec![];
    assert_eq!(index.recipes_of(&rt(77)), empty);
}

#[test]
fn production_set_covers_outputs_only() {
    let a = Recipe { items: vec![res(1, 1)], results: vec![res(2, 1)], time: 1 };
    let b = Recipe { items: vec![res(2, 1)], results: vec![res(2, 2), res(3, 1)], time: 1 };
    let recipes = vec![a, b];
    let types = find_all_production(&recipes);
    // Raw input 1 is never produced; 2 appears once despite two producers.
    assert_eq!(types.len(), 2);
    assert!(types.contains(&rt(2)));
    assert!(types.contains(&rt(3)));
    assert!(!types.contains(&rt(1)));
}

#[test]
fn uniform_objective_is_all_ones() {
    let w = minimize_buildings_count(4);
    assert_eq!(w, vec![1, 1, 1, 1]);
}

#[test]
fn rat_whole_numbers() {
    let r = Rat::whole(7);
    assert_eq!(r.num, 7);
    assert_eq!(r.den, 1);
}

#[test]
fn proliferator_item_ids() {
    assert_eq!(Proliferator::MK1.item_id(), 1141);
    assert_eq!(Proliferator::MK2.item_id(), 1142);
    assert_eq!(Proliferator::MK3.item_id(), 1143);
}

#[test]
fn proliferator_inc_levels() {
    assert_eq!(Proliferator::MK1.inc_level(), 1);
    assert_eq!(Proliferator::MK2.inc_level(), 2);
    assert_eq!(Proliferator::MK3.inc_level(), 4);
    assert_eq!(Proliferator::MAX_INC_LEVEL, 4);
}

#[test]
fn proliferator_life_scales_with_level() {
    // Unproliferated: the base spray counts.
    assert_eq!(Proliferator::MK1.life(0), 12);
    assert_eq!(Proliferator::MK2.life(0), 24);
    assert_eq!(Proliferator::MK3.life(0), 60);
    // Sprayed at level 4: factor 1.25.
    assert_eq!(Proliferator::MK1.life(4), 15);
    assert_eq!(Proliferator::MK2.life(4), 30);
    assert_eq!(Proliferator::MK3.life(4), 75);
    // Levels past the table end are clamped.
    assert_eq!(Proliferator::MK3.life(10), 84);
    assert_eq!(Proliferator::MK3.life(200), 84);
}

#[test]
fn proliferator_level_clamping() {
    assert_eq!(Proliferator::clamp_inc_level(0), 0);
    assert_eq!(Proliferator::clamp_inc_level(9), 9);
    assert_eq!(Proliferator::clamp_inc_level(10), 10);
    assert_eq!(Proliferator::clamp_inc_level(255), 10);
}

#[test]
fn proliferator_bonus_tables() {
    assert_eq!(Proliferator::increase_milli(0), 1000);
    assert_eq!(Proliferator::increase_milli(1), 1125);
    assert_eq!(Proliferator::increase_milli(4), 1250);
    assert_eq!(Proliferator::increase_milli(10), 1400);
    assert_eq!(Proliferator::increase_milli(99), 1400);
    assert_eq!(Proliferator::accelerate_milli(0), 1000);
    assert_eq!(Proliferator::accelerate_milli(1), 1250);
    assert_eq!(Proliferator::accelerate_milli(10), 3500);
    assert_eq!(Proliferator::power_milli(0), 1000);
    assert_eq!(Proliferator::power_milli(1), 1300);
    assert_eq!(Proliferator::power_milli(10), 4900);
}
