use warehouse_aco::colony::{aco, update_incumbent};
use warehouse_aco::construct::{ant_weight, construct_ant, roulette_pick};
use warehouse_aco::eval::{calculate_total_cost, count_open_warehouses, penalized_cost};
use warehouse_aco::model::{CandidateSolution, Config, Customer, Instance, Warehouse};
use warehouse_aco::pheromone::{reinforcement_delta, PheromoneField, PHEROMONE_SCALE};
use rand::SeedableRng;

fn make_instance(warehouses: Vec<(u64, u64, Vec<u64>)>, demands: Vec<u32>) -> Instance {
    Instance {
        warehouses: warehouses
            .into_iter()
            .map(|(opening_cost, capacity, service_costs)| Warehouse {
                opening_cost,
                capacity,
                service_costs,
            })
            .collect(),
        customers: demands.into_iter().map(|demand| Customer { demand }).collect(),
    }
}

fn small_config(min_warehouses: usize) -> Config {
    let mut cfg = Config::standard();
    cfg.min_warehouses = min_warehouses;
    cfg.iterations = 20;
    cfg.num_ants = 10;
    cfg
}

#[test]
fn config_standard_has_stock_values() {
    let cfg = Config::standard();
    assert_eq!(cfg.num_ants, 50);
    assert_eq!(cfg.iterations, 100);
    assert_eq!(cfg.alpha, 1);
    assert_eq!(cfg.beta, 2);
    assert_eq!(cfg.evaporation_keep_num, 1);
    assert_eq!(cfg.evaporation_keep_den, 2);
    assert_eq!(cfg.q, 100);
    assert_eq!(cfg.min_warehouses, 5);
    assert_eq!(cfg.penalty_factor, 1000);
}

#[test]
fn count_open_warehouses_counts_true_flags() {
    assert_eq!(count_open_warehouses(&vec![]), 0);
    assert_eq!(count_open_warehouses(&vec![false, false]), 0);
    assert_eq!(count_open_warehouses(&vec![true, false, true, true]), 3);
}

#[test]
fn total_cost_sums_opening_and_service() {
    let inst = make_instance(vec![(10, 100, vec![1, 2])], vec![10, 10]);
    let assignment = vec![Some(0), Some(0)];
    let open_flags = vec![true];
    assert_eq!(calculate_total_cost(&inst, &assignment, &open_flags), 13);
}

#[test]
fn total_cost_skips_unassigned_customers() {
    let inst = make_instance(vec![(10, 100, vec![1, 2])], vec![10, 10]);
    let assignment = vec![Some(0), None];
    let open_flags = vec![true];
    assert_eq!(calculate_total_cost(&inst, &assignment, &open_flags), 11);
}

#[test]
fn total_cost_of_all_closed_is_zero() {
    let inst = make_instance(vec![(10, 100, vec![1, 2])], vec![10, 10]);
    let assignment = vec![None, None];
    let open_flags = vec![false];
    assert_eq!(calculate_total_cost(&inst, &assignment, &open_flags), 0);
}

#[test]
fn penalized_cost_adds_deficit_penalty() {
    let inst = make_instance(vec![(10, 100, vec![1, 2])], vec![10, 10]);
    let assignment = vec![Some(0), Some(0)];
    let open_flags = vec![true];
    let mut cfg = Config::standard();
    cfg.min_warehouses = 5;
    cfg.penalty_factor = 1000;
    // one open warehouse, four missing: 13 + 4 * 1000
    assert_eq!(penalized_cost(&inst, &assignment, &open_flags, &cfg), 4013);
}

#[test]
fn penalized_cost_charges_nothing_when_count_met() {
    let inst = make_instance(vec![(10, 100, vec![1, 2])], vec![10, 10]);
    let assignment = vec![Some(0), Some(0)];
    let open_flags = vec![true];
    let mut cfg = Config::standard();
    cfg.min_warehouses = 1;
    assert_eq!(penalized_cost(&inst, &assignment, &open_flags, &cfg), 13);
}

#[test]
fn pheromone_starts_uniform_and_evaporates_exactly() {
    let mut field = PheromoneField::new(2, 2);
    for w in 0..2 {
        for c in 0..2 {
            assert_eq!(field.get(w, c), PHEROMONE_SCALE);
        }
    }
    field.evaporate(1, 2);
    for w in 0..2 {
        for c in 0..2 {
            assert_eq!(field.get(w, c), PHEROMONE_SCALE / 2);
        }
    }
}

#[test]
fn pheromone_reinforces_only_used_pairs() {
    let mut field = PheromoneField::new(2, 2);
    let assignment = vec![Some(0), None];
    field.reinforce(&assignment, 10);
    assert_eq!(field.get(0, 0), PHEROMONE_SCALE + 10);
    assert_eq!(field.get(0, 1), PHEROMONE_SCALE);
    assert_eq!(field.get(1, 0), PHEROMONE_SCALE);
    assert_eq!(field.get(1, 1), PHEROMONE_SCALE);
}

#[test]
fn pheromone_reinforcement_saturates_at_cap() {
    let mut field = PheromoneField::new(1, 1);
    let assignment = vec![Some(0)];
    field.reinforce(&assignment, u64::MAX);
    assert_eq!(field.get(0, 0), u64::MAX);
}

#[test]
fn reinforcement_delta_divides_q_by_cost() {
    assert_eq!(reinforcement_delta(100, 13), 100 * 1_000_000 / 13);
    // a zero-cost candidate contributes the full scaled constant
    assert_eq!(reinforcement_delta(100, 0), 100 * 1_000_000);
    assert_eq!(reinforcement_delta(100, 1), 100 * 1_000_000);
}

#[test]
fn ant_weight_follows_trail_and_cost() {
    // trail 1.0, effective cost 2, alpha 1, beta 2:
    // 10^6 * 10^12 / 4
    assert_eq!(ant_weight(PHEROMONE_SCALE, 2, 1, 2), 250_000_000_000_000_000);
    // zero effective cost is taken as one
    assert_eq!(ant_weight(PHEROMONE_SCALE, 0, 1, 2), 1_000_000_000_000_000_000);
    // a stronger trail weighs more
    assert!(ant_weight(2 * PHEROMONE_SCALE, 2, 1, 2) > ant_weight(PHEROMONE_SCALE, 2, 1, 2));
}

#[test]
fn roulette_pick_selects_by_cumulative_weight() {
    let cands = vec![(3usize, 10u128), (7usize, 5u128)];
    assert_eq!(roulette_pick(&cands, 0), 3);
    assert_eq!(roulette_pick(&cands, 9), 3);
    assert_eq!(roulette_pick(&cands, 10), 7);
    assert_eq!(roulette_pick(&cands, 14), 7);
}

#[test]
fn construct_ant_assigns_only_open_warehouses() {
    let inst = make_instance(
        vec![
            (5, 30, vec![1, 2, 3, 4]),
            (7, 25, vec![4, 3, 2, 1]),
            (3, 10, vec![2, 2, 2, 2]),
        ],
        vec![10, 8, 6, 12],
    );
    let cfg = small_config(2);
    let field = PheromoneField::new(3, 4);
    let mut rng = rand::rngs::StdRng::seed_from_u64(7);
    for _ in 0..25 {
        let sol: CandidateSolution = construct_ant(&inst, &cfg, &field, &mut rng);
        assert_eq!(sol.assignment.len(), 4);
        assert_eq!(sol.open_flags.len(), 3);
        for entry in &sol.assignment {
            if let Some(w) = entry {
                assert!(*w < 3);
                assert!(sol.open_flags[*w]);
            }
        }
    }
}

#[test]
fn single_warehouse_instance_finds_exact_optimum() {
    let inst = make_instance(vec![(10, 100, vec![1, 2])], vec![10, 10]);
    let cfg = small_config(1);
    let best = aco(&inst, &cfg, 42).expect("a feasible solution exists");
    assert_eq!(best.cost, 13);
    assert_eq!(best.assignment, vec![Some(0), Some(0)]);
    assert_eq!(best.open_flags, vec![true]);
}

#[test]
fn overloaded_capacity_still_terminates() {
    // total demand 20 exceeds total capacity 5
    let inst = make_instance(vec![(10, 5, vec![1, 2])], vec![10, 10]);
    let cfg = small_config(1);
    let best = aco(&inst, &cfg, 3).expect("the seeding phase always opens the warehouse");
    let unassigned = best.assignment.iter().filter(|entry| entry.is_none()).count();
    assert_eq!(unassigned, 1);
    assert!(best.cost == 11 || best.cost == 12);
    assert_eq!(best.open_flags, vec![true]);
}

#[test]
fn min_warehouses_above_warehouse_count_yields_none() {
    let inst = make_instance(vec![(10, 100, vec![1, 2])], vec![10, 10]);
    let cfg = small_config(2);
    assert!(aco(&inst, &cfg, 5).is_none());
}

#[test]
fn seeded_runs_agree() {
    let inst = make_instance(
        vec![
            (5, 30, vec![1, 2, 3, 4]),
            (7, 25, vec![4, 3, 2, 1]),
            (3, 20, vec![2, 2, 2, 2]),
        ],
        vec![10, 8, 6, 12],
    );
    let cfg = small_config(2);
    let first = aco(&inst, &cfg, 12345).expect("feasible");
    let second = aco(&inst, &cfg, 12345).expect("feasible");
    assert_eq!(first.cost, second.cost);
    assert_eq!(first.assignment, second.assignment);
    assert_eq!(first.open_flags, second.open_flags);
}

#[test]
fn incumbent_update_prefers_cheaper_feasible() {
    let feasible = CandidateSolution {
        assignment: vec![Some(0), Some(0)],
        open_flags: vec![true],
    };
    let infeasible = CandidateSolution {
        assignment: vec![None, None],
        open_flags: vec![false],
    };

    // an infeasible candidate never seeds the incumbent
    assert!(update_incumbent(None, 1, &infeasible, 1).is_none());

    // a feasible one does
    let best = update_incumbent(None, 20, &feasible, 1);
    assert_eq!(best.as_ref().unwrap().cost, 20);

    // a costlier feasible candidate is ignored
    let best = update_incumbent(best, 30, &feasible, 1);
    assert_eq!(best.as_ref().unwrap().cost, 20);

    // a cheaper feasible candidate replaces it
    let best = update_incumbent(best, 13, &feasible, 1);
    assert_eq!(best.as_ref().unwrap().cost, 13);

    // a cheaper but infeasible candidate does not
    let best = update_incumbent(best, 1, &infeasible, 1);
    assert_eq!(best.as_ref().unwrap().cost, 13);
}
