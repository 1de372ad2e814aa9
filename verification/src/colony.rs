//! The colony loop: each round runs many independent ants, scores
//! them, updates the incumbent (the best feasible candidate seen so
//! far), and then evaporates and reinforces the pheromone field.

use vstd::prelude::*;
use crate::model::{Instance, Config, CandidateSolution, solution_wf};
use crate::eval::{
    open_count, lemma_open_count_bounds, penalized_cost, penalized_cost_spec, total_cost_spec,
    count_open_warehouses,
};
use crate::pheromone::{PheromoneField, reinforcement_delta};
use crate::construct::construct_ant;
use crate::sampling::rng_from_seed;

verus! {

/// The incumbent: the best feasible candidate seen so far, with its
/// total cost.
pub struct BestSolution {
    pub cost: u128,
    pub assignment: Vec<Option<usize>>,
    pub open_flags: Vec<bool>,
}

impl BestSolution {
    /// Structurally sound, with the recorded cost equal to the total
    /// cost of the recorded candidate.
    pub open spec fn wf(self, inst: Instance) -> bool {
        &&& solution_wf(inst, self.assignment@, self.open_flags@)
        &&& self.cost == total_cost_spec(inst, self.assignment@, self.open_flags@)
    }
}

fn copy_vec<T: Copy>(v: &Vec<T>) -> (r: Vec<T>)
    ensures
        r@ == v@,
{
    let mut r: Vec<T> = Vec::new();
    let mut i: usize = 0;
    while i < v.len()
        invariant
            i <= v@.len(),
            r@ == v@.take(i as int),
        decreases v@.len() - i,
    {
        proof {
            assert(v@.take(i as int + 1) =~= v@.take(i as int).push(v@[i as int]));
        }
        r.push(v[i]);
        i = i + 1;
    }
    proof {
        assert(v@.take(v@.len() as int) =~= v@);
    }
    r
}

/// Incumbent update. A candidate replaces the incumbent exactly when
/// it meets the minimum open-warehouse count and is strictly cheaper
/// than the incumbent so far. Hence the incumbent's cost never rises,
/// and after the call it lies at or below the penalized cost of every
/// feasible candidate offered so far.
pub fn update_incumbent(
    best: Option<BestSolution>,
    cost: u128,
    sol: &CandidateSolution,
    min_warehouses: usize,
) -> (r: Option<BestSolution>)
    ensures
        ({
            let accept = open_count(sol.open_flags@) >= min_warehouses && (best is None || cost
                < best->Some_0.cost);
            if accept {
                r matches Some(b) && b.cost == cost && b.assignment@ == sol.assignment@
                    && b.open_flags@ == sol.open_flags@
            } else {
                r == best
            }
        }),
        best matches Some(b0) ==> (r matches Some(b1) && b1.cost <= b0.cost),
        open_count(sol.open_flags@) >= min_warehouses ==> (r matches Some(b1) && b1.cost
            <= cost),
{
    let cnt = count_open_warehouses(&sol.open_flags);
    let feasible = cnt >= min_warehouses;
    match best {
        None => {
            if feasible {
                Some(
                    BestSolution {
                        cost,
                        assignment: copy_vec(&sol.assignment),
                        open_flags: copy_vec(&sol.open_flags),
                    },
                )
            } else {
                None
            }
        },
        Some(b) => {
            if feasible && cost < b.cost {
                Some(
                    BestSolution {
                        cost,
                        assignment: copy_vec(&sol.assignment),
                        open_flags: copy_vec(&sol.open_flags),
                    },
                )
            } else {
                Some(b)
            }
        },
    }
}

/// The whole solver: a fixed number of rounds, each constructing
/// `num_ants` candidates against the frozen pheromone field, scoring
/// them with the warehouse-count penalty, updating the incumbent with
/// the feasible ones, and then evaporating and reinforcing the field.
///
/// `None` means no candidate with enough open warehouses was ever
/// seen; in particular, when `min_warehouses` exceeds the number of
/// warehouses, no candidate can qualify and the result is always
/// `None`. Conversely, when the minimum count is achievable (at most
/// the number of warehouses and at most the number of customers) and
/// at least one candidate is built, a solution is always returned.
/// Any returned solution is structurally sound, meets the minimum
/// open count, and carries its exact total cost.
pub fn aco(inst: &Instance, cfg: &Config, seed: u64) -> (r: Option<BestSolution>)
    requires
        inst.wf(),
        cfg.wf(),
        1 <= inst.n_spec(),
    ensures
        r matches Some(b) ==> b.wf(*inst) && open_count(b.open_flags@) >= cfg.min_warehouses,
        cfg.min_warehouses > inst.n_spec() ==> r is None,
        cfg.min_warehouses <= inst.n_spec() && cfg.min_warehouses <= inst.m_spec()
            && 1 <= cfg.iterations && 1 <= cfg.num_ants ==> r is Some,
{
    let n = inst.n();
    let m = inst.m();
    let mut rng = rng_from_seed(seed);
    let mut pheromones = PheromoneField::new(n, m);
    let mut best: Option<BestSolution> = None;
    let mut it: usize = 0;
    while it < cfg.iterations
        invariant
            inst.wf(),
            cfg.wf(),
            1 <= inst.n_spec(),
            n == inst.n_spec(),
            m == inst.m_spec(),
            it <= cfg.iterations,
            pheromones.wf(n as int, m as int),
            best matches Some(b) ==> b.wf(*inst) && open_count(b.open_flags@)
                >= cfg.min_warehouses,
            cfg.min_warehouses > inst.n_spec() ==> best is None,
            cfg.min_warehouses <= inst.n_spec() && cfg.min_warehouses <= inst.m_spec()
                && 1 <= cfg.num_ants && 1 <= it ==> best is Some,
        decreases cfg.iterations - it,
    {
        let mut ants: Vec<(u128, CandidateSolution)> = Vec::new();
        let mut a: usize = 0;
        while a < cfg.num_ants
            invariant
                inst.wf(),
                cfg.wf(),
                1 <= inst.n_spec(),
                n == inst.n_spec(),
                m == inst.m_spec(),
                a <= cfg.num_ants,
                pheromones.wf(n as int, m as int),
                forall|j: int|
                    0 <= j < ants@.len() ==> {
                        let e = #[trigger] ants@[j];
                        e.1.wf(*inst)
                    },
                best matches Some(b) ==> b.wf(*inst) && open_count(b.open_flags@)
                    >= cfg.min_warehouses,
                cfg.min_warehouses > inst.n_spec() ==> best is None,
                cfg.min_warehouses <= inst.n_spec() && cfg.min_warehouses <= inst.m_spec() && 1
                    <= a ==> best is Some,
            decreases cfg.num_ants - a,
        {
            let sol = construct_ant(inst, cfg, &pheromones, &mut rng);
            let cost = penalized_cost(inst, &sol.assignment, &sol.open_flags, cfg);
            proof {
                lemma_open_count_bounds(sol.open_flags@);
            }
            best = update_incumbent(best, cost, &sol, cfg.min_warehouses);
            proof {
                if open_count(sol.open_flags@) >= cfg.min_warehouses {
                    assert(penalized_cost_spec(*inst, sol.assignment@, sol.open_flags@, *cfg)
                        == total_cost_spec(*inst, sol.assignment@, sol.open_flags@));
                }
            }
            ants.push((cost, sol));
            a = a + 1;
        }
        pheromones.evaporate(cfg.evaporation_keep_num, cfg.evaporation_keep_den);
        while ants.len() > 0
            invariant
                inst.wf(),
                cfg.wf(),
                n == inst.n_spec(),
                m == inst.m_spec(),
                pheromones.wf(n as int, m as int),
            decreases ants@.len(),
        {
            match ants.pop() {
                Some((cost, sol)) => {
                    let cnt = count_open_warehouses(&sol.open_flags);
                    if cnt >= cfg.min_warehouses {
                        let delta = reinforcement_delta(cfg.q, cost);
                        pheromones.reinforce(&sol.assignment, delta);
                    }
                },
                None => {},
            }
        }
        it = it + 1;
    }
    best
}

} // verus!
