//! The construction procedure: one ant builds one candidate solution
//! in two phases. Phase one seeds diversity by opening warehouses for
//! the first few customers of a shuffled order; phase two assigns the
//! remaining customers by a pheromone- and cost-weighted draw over the
//! warehouses with enough remaining capacity.

use vstd::prelude::*;
use vstd::pervasive::VecAdditionalExecFns;
use vstd::seq_lib::group_to_multiset_ensures;
use vstd::arithmetic::mul::lemma_mul_inequality;
use crate::model::{Instance, Config, CandidateSolution, DIM_CAP};
use crate::eval::{
    open_count, lemma_open_count_bounds, lemma_open_count_update_true, lemma_open_count_all_true,
};
use crate::pheromone::{PheromoneField, PHEROMONE_SCALE};
use crate::numeric::{sat_add, sat_mul, pow_sat, sat_mul_spec, pow_sat_spec, lemma_pow_sat_pos};
use crate::sampling::{random_index, random_below, shuffle};

verus! {

/// Attraction weight of a (warehouse, customer) pair: the trail
/// strength raised to `alpha`, times the reciprocal of the effective
/// cost raised to `beta`, carried in fixed point (one fixed-point unit
/// per unit of inverse cost) and capped at `u128::MAX`.
pub open spec fn ant_weight_spec(pheromone: int, eff_cost: int, alpha: nat, beta: nat) -> int {
    let den_base = if eff_cost < 1 {
        1int
    } else {
        eff_cost
    };
    sat_mul_spec(pow_sat_spec(pheromone, alpha), pow_sat_spec(PHEROMONE_SCALE as int, beta))
        / pow_sat_spec(den_base, beta)
}

/// The attraction weight, computed exactly as `ant_weight_spec` says.
pub fn ant_weight(pheromone: u64, eff_cost: u64, alpha: u32, beta: u32) -> (r: u128)
    ensures
        r as int == ant_weight_spec(pheromone as int, eff_cost as int, alpha as nat, beta as nat),
{
    let num = sat_mul(pow_sat(pheromone, alpha), pow_sat(PHEROMONE_SCALE, beta));
    let den_base = if eff_cost < 1 {
        1u64
    } else {
        eff_cost
    };
    let den_wide = pow_sat(den_base, beta);
    proof {
        lemma_pow_sat_pos(den_base as int, beta as nat);
    }
    num / den_wide
}

/// Sum of the weights in a candidate list.
pub open spec fn weights_sum(s: Seq<(usize, u128)>) -> int
    decreases s.len(),
{
    if s.len() == 0 {
        0
    } else {
        s.first().1 + weights_sum(s.drop_first())
    }
}

pub proof fn lemma_weights_sum_nonneg(s: Seq<(usize, u128)>)
    ensures
        0 <= weights_sum(s),
    decreases s.len(),
{
    if s.len() > 0 {
        lemma_weights_sum_nonneg(s.drop_first());
    }
}

pub proof fn lemma_weights_sum_push(s: Seq<(usize, u128)>, x: (usize, u128))
    ensures
        weights_sum(s.push(x)) == weights_sum(s) + x.1,
    decreases s.len(),
{
    if s.len() == 0 {
        assert(s.push(x).drop_first() =~= s);
    } else {
        assert(s.push(x).first() == s.first());
        assert(s.push(x).drop_first() =~= s.drop_first().push(x));
        lemma_weights_sum_push(s.drop_first(), x);
    }
}

/// The warehouse a roulette draw selects: walk the list and take the
/// first entry whose weight exceeds what is left of the draw.
pub open spec fn roulette_spec(s: Seq<(usize, u128)>, draw: int) -> int
    decreases s.len(),
{
    if s.len() == 0 {
        0
    } else if draw < s.first().1 {
        s.first().0 as int
    } else {
        roulette_spec(s.drop_first(), draw - s.first().1)
    }
}

/// Roulette-wheel selection: subtract each weight from the draw in
/// turn and stop at the entry that brings it below zero. The draw must
/// lie below the total weight, so some entry is always selected.
pub fn roulette_pick(cands: &Vec<(usize, u128)>, draw: u128) -> (w: usize)
    requires
        (draw as int) < weights_sum(cands@),
    ensures
        w as int == roulette_spec(cands@, draw as int),
        exists|j: int| 0 <= j < cands@.len() && (#[trigger] cands@[j]).0 == w,
{
    let mut i: usize = 0;
    let mut rem = draw;
    proof {
        assert(cands@.skip(0) =~= cands@);
    }
    while i < cands.len()
        invariant
            i <= cands@.len(),
            (rem as int) < weights_sum(cands@.skip(i as int)),
            roulette_spec(cands@, draw as int) == roulette_spec(
                cands@.skip(i as int),
                rem as int,
            ),
        decreases cands@.len() - i,
    {
        proof {
            assert(cands@.skip(i as int).first() == cands@[i as int]);
            assert(cands@.skip(i as int).drop_first() =~= cands@.skip(i as int + 1));
        }
        let entry = cands[i];
        if rem < entry.1 {
            proof {
                assert(cands@[i as int].0 == entry.0);
            }
            return entry.0;
        }
        rem = rem - entry.1;
        i = i + 1;
    }
    proof {
        assert(cands@.skip(cands@.len() as int) =~= Seq::<(usize, u128)>::empty());
        assert(false);
    }
    0
}

/// Build one candidate solution. Whatever the random draws return, the
/// result is structurally sound: every assigned customer's warehouse
/// exists and is flagged open. And whenever the minimum open count is
/// achievable at all (no more than the number of warehouses, and no
/// more than the number of customers available to seed them), the
/// seeding phase reaches it: each of its steps opens one more
/// warehouse, or finds every warehouse open already.
pub fn construct_ant(
    inst: &Instance,
    cfg: &Config,
    pheromones: &PheromoneField,
    rng: &mut rand::rngs::StdRng,
) -> (sol: CandidateSolution)
    requires
        inst.wf(),
        cfg.wf(),
        pheromones.wf(inst.n_spec(), inst.m_spec()),
        1 <= inst.n_spec(),
    ensures
        sol.wf(*inst),
        cfg.min_warehouses <= inst.n_spec() && cfg.min_warehouses <= inst.m_spec()
            ==> open_count(sol.open_flags@) >= cfg.min_warehouses,
{
    let n = inst.warehouses.len();
    let m = inst.customers.len();

    let mut assignment: Vec<Option<usize>> = Vec::new();
    let mut c0: usize = 0;
    while c0 < m
        invariant
            c0 <= m,
            assignment@.len() == c0,
            forall|j: int| 0 <= j < c0 ==> (#[trigger] assignment@[j]) is None,
        decreases m - c0,
    {
        assignment.push(None);
        c0 = c0 + 1;
    }

    let mut open_flags: Vec<bool> = Vec::new();
    let mut w0: usize = 0;
    while w0 < n
        invariant
            w0 <= n,
            open_flags@.len() == w0,
        decreases n - w0,
    {
        open_flags.push(false);
        w0 = w0 + 1;
    }

    let mut used: Vec<u64> = Vec::new();
    let mut u0: usize = 0;
    while u0 < n
        invariant
            u0 <= n,
            used@.len() == u0,
            forall|j: int| 0 <= j < u0 ==> (#[trigger] used@[j]) == 0,
        decreases n - u0,
    {
        used.push(0);
        u0 = u0 + 1;
    }

    let mut order: Vec<usize> = Vec::new();
    let mut k0: usize = 0;
    while k0 < m
        invariant
            k0 <= m,
            order@.len() == k0,
            forall|j: int| 0 <= j < k0 ==> (#[trigger] order@[j]) == j,
        decreases m - k0,
    {
        order.push(k0);
        k0 = k0 + 1;
    }

    let ghost order0 = order@;
    shuffle(rng, &mut order);
    proof {
        broadcast use group_to_multiset_ensures;

        assert forall|k: int| 0 <= k < order@.len() implies (#[trigger] order@[k]) < m by {
            assert(order@.contains(order@[k]));
            assert(order0.to_multiset().count(order@[k]) > 0);
            assert(order0.contains(order@[k]));
            let j = choose|j: int| 0 <= j < order0.len() && order0[j] == order@[k];
            assert(order0[j] == j);
        }
    }

    // Phase one: diversity seeding over the first customers of the
    // shuffled order, one customer (and at most one newly opened
    // warehouse) per step.
    let a_end = if cfg.min_warehouses < m {
        cfg.min_warehouses
    } else {
        m
    };
    let mut idx: usize = 0;
    proof {
        lemma_open_count_bounds(open_flags@);
    }
    while idx < a_end
        invariant
            inst.wf(),
            n == inst.n_spec(),
            m == inst.m_spec(),
            1 <= n,
            a_end <= m,
            idx <= a_end,
            assignment@.len() == m,
            open_flags@.len() == n,
            used@.len() == n,
            order@.len() == m,
            forall|k: int| 0 <= k < m ==> (#[trigger] order@[k]) < m,
            forall|c2: int|
                0 <= c2 < m ==> ((#[trigger] assignment@[c2]) matches Some(wa) ==> wa < n
                    && open_flags@[wa as int]),
            forall|w2: int|
                0 <= w2 < n ==> (#[trigger] used@[w2]) as int <= (idx as int) * (
                0xFFFF_FFFFu64 as int),
            cfg.min_warehouses <= n && cfg.min_warehouses <= m ==> open_count(open_flags@)
                >= idx as int,
            a_end == if cfg.min_warehouses < m {
                cfg.min_warehouses as int
            } else {
                m as int
            },
        decreases a_end - idx,
    {
        let c = order[idx];
        let demand = inst.customers[c].demand as u64;
        let mut assigned = false;
        let mut attempts: usize = 0;
        while !assigned && attempts < n
            invariant
                inst.wf(),
                n == inst.n_spec(),
                m == inst.m_spec(),
                1 <= n,
                idx < a_end <= m,
                c < m,
                demand <= 0xFFFF_FFFFu64,
                attempts <= n,
                assignment@.len() == m,
                open_flags@.len() == n,
                used@.len() == n,
                forall|c2: int|
                    0 <= c2 < m ==> ((#[trigger] assignment@[c2]) matches Some(wa) ==> wa < n
                        && open_flags@[wa as int]),
                forall|w2: int|
                    0 <= w2 < n ==> (#[trigger] used@[w2]) as int <= (idx as int + if assigned {
                        1int
                    } else {
                        0int
                    }) * (0xFFFF_FFFFu64 as int),
                cfg.min_warehouses <= n && cfg.min_warehouses <= m ==> open_count(open_flags@)
                    >= idx as int + (if assigned {
                        1int
                    } else {
                        0int
                    }),
            decreases n - attempts,
        {
            let wpick = random_index(rng, n);
            if !open_flags[wpick] {
                let cap = inst.warehouses[wpick].capacity;
                if (used[wpick] as u128) + (demand as u128) <= (cap as u128) {
                    proof {
                        assert((idx as int) * (0xFFFF_FFFFu64 as int) + 0xFFFF_FFFFu64 as int
                            == (idx as int + 1) * (0xFFFF_FFFFu64 as int)) by (nonlinear_arith);
                        lemma_mul_inequality(
                            idx as int + 1,
                            DIM_CAP as int,
                            0xFFFF_FFFFu64 as int,
                        );
                    }
                    let ghost flags_before = open_flags@;
                    assignment.set(c, Some(wpick));
                    used.set(wpick, used[wpick] + demand);
                    open_flags.set(wpick, true);
                    proof {
                        lemma_open_count_update_true(flags_before, wpick as int);
                    }
                    assigned = true;
                }
            }
            attempts = attempts + 1;
        }
        if !assigned {
            // Deterministic fallback: force the customer onto the
            // cheapest-to-open warehouse that is still closed, with no
            // capacity check (a known, deliberate capacity-violating
            // repair that keeps the seeding phase moving).
            let mut best_w: usize = 0;
            let mut min_cost: u64 = u64::MAX;
            let mut ws: usize = 0;
            while ws < n
                invariant
                    inst.wf(),
                    n == inst.n_spec(),
                    ws <= n,
                    1 <= n,
                    best_w < n,
                    open_flags@.len() == n,
                    min_cost < u64::MAX ==> !open_flags@[best_w as int],
                    (exists|w2: int| 0 <= w2 < ws && !(#[trigger] open_flags@[w2]))
                        ==> min_cost < u64::MAX,
                decreases n - ws,
            {
                if !open_flags[ws] && inst.warehouses[ws].opening_cost < min_cost {
                    min_cost = inst.warehouses[ws].opening_cost;
                    best_w = ws;
                }
                ws = ws + 1;
            }
            proof {
                assert((idx as int) * (0xFFFF_FFFFu64 as int) + 0xFFFF_FFFFu64 as int == (
                idx as int + 1) * (0xFFFF_FFFFu64 as int)) by (nonlinear_arith);
                lemma_mul_inequality(idx as int + 1, DIM_CAP as int, 0xFFFF_FFFFu64 as int);
            }
            let ghost flags_before = open_flags@;
            assignment.set(c, Some(best_w));
            used.set(best_w, used[best_w] + demand);
            open_flags.set(best_w, true);
            proof {
                lemma_open_count_update_true(flags_before, best_w as int);
                if min_cost == u64::MAX {
                    assert(forall|w2: int| 0 <= w2 < n ==> flags_before[w2]);
                    lemma_open_count_all_true(flags_before);
                }
            }
        }
        idx = idx + 1;
    }

    // Phase two: pheromone-guided assignment of the remaining
    // customers, in the same shuffled order.
    let mut k = idx;
    while k < m
        invariant
            inst.wf(),
            cfg.wf(),
            pheromones.wf(inst.n_spec(), inst.m_spec()),
            n == inst.n_spec(),
            m == inst.m_spec(),
            1 <= n,
            k <= m,
            assignment@.len() == m,
            open_flags@.len() == n,
            used@.len() == n,
            order@.len() == m,
            forall|k2: int| 0 <= k2 < m ==> (#[trigger] order@[k2]) < m,
            forall|c2: int|
                0 <= c2 < m ==> ((#[trigger] assignment@[c2]) matches Some(wa) ==> wa < n
                    && open_flags@[wa as int]),
            forall|w2: int|
                0 <= w2 < n ==> (#[trigger] used@[w2]) as int <= (k as int) * (
                0xFFFF_FFFFu64 as int),
            cfg.min_warehouses <= n && cfg.min_warehouses <= m ==> open_count(open_flags@)
                >= cfg.min_warehouses as int,
        decreases m - k,
    {
        let c = order[k];
        let demand = inst.customers[c].demand as u64;

        let mut cands: Vec<(usize, u128)> = Vec::new();
        let mut wsum: u128 = 0;
        let mut ws: usize = 0;
        while ws < n
            invariant
                inst.wf(),
                cfg.wf(),
                pheromones.wf(inst.n_spec(), inst.m_spec()),
                n == inst.n_spec(),
                m == inst.m_spec(),
                c < m,
                ws <= n,
                used@.len() == n,
                open_flags@.len() == n,
                forall|j: int|
                    0 <= j < cands@.len() ==> {
                        let e = #[trigger] cands@[j];
                        e.0 < n && (used@[e.0 as int] as int) + (demand as int)
                            <= inst.warehouses@[e.0 as int].capacity as int
                    },
                wsum as int == (if weights_sum(cands@) > u128::MAX as int {
                    u128::MAX as int
                } else {
                    weights_sum(cands@)
                }),
            decreases n - ws,
        {
            let cap = inst.warehouses[ws].capacity;
            if (used[ws] as u128) + (demand as u128) <= (cap as u128) {
                let eff = if open_flags[ws] {
                    inst.warehouses[ws].service_costs[c]
                } else {
                    inst.warehouses[ws].opening_cost + inst.warehouses[ws].service_costs[c]
                };
                let wt = ant_weight(pheromones.get(ws, c), eff, cfg.alpha, cfg.beta);
                proof {
                    lemma_weights_sum_push(cands@, (ws, wt));
                    lemma_weights_sum_nonneg(cands@);
                }
                cands.push((ws, wt));
                wsum = sat_add(wsum, wt);
            }
            ws = ws + 1;
        }

        if cands.len() > 0 && wsum > 0 {
            let draw = random_below(rng, wsum);
            proof {
                lemma_weights_sum_nonneg(cands@);
            }
            let wpick = roulette_pick(&cands, draw);
            proof {
                let j = choose|j: int| 0 <= j < cands@.len() && (#[trigger] cands@[j]).0
                    == wpick;
                assert((used@[wpick as int] as int) + (demand as int)
                    <= inst.warehouses@[wpick as int].capacity as int);
                assert((k as int) * (0xFFFF_FFFFu64 as int) + 0xFFFF_FFFFu64 as int == (
                k as int + 1) * (0xFFFF_FFFFu64 as int)) by (nonlinear_arith);
                lemma_mul_inequality(k as int + 1, DIM_CAP as int, 0xFFFF_FFFFu64 as int);
            }
            let ghost flags_before = open_flags@;
            assignment.set(c, Some(wpick));
            used.set(wpick, used[wpick] + demand);
            open_flags.set(wpick, true);
            proof {
                lemma_open_count_update_true(flags_before, wpick as int);
            }
        } else {
            // Deterministic fallback: the capacity-feasible warehouse
            // with the lowest effective cost, if any; otherwise the
            // customer stays unassigned.
            let mut found = false;
            let mut best_w: usize = 0;
            let mut min_cost: u64 = u64::MAX;
            let mut ws2: usize = 0;
            while ws2 < n
                invariant
                    inst.wf(),
                    n == inst.n_spec(),
                    m == inst.m_spec(),
                    c < m,
                    ws2 <= n,
                    used@.len() == n,
                    open_flags@.len() == n,
                    found ==> (best_w < n && (used@[best_w as int] as int) + (demand as int)
                        <= inst.warehouses@[best_w as int].capacity as int),
                decreases n - ws2,
            {
                let cap = inst.warehouses[ws2].capacity;
                if (used[ws2] as u128) + (demand as u128) <= (cap as u128) {
                    let eff = if open_flags[ws2] {
                        inst.warehouses[ws2].service_costs[c]
                    } else {
                        inst.warehouses[ws2].opening_cost + inst.warehouses[ws2].service_costs[c]
                    };
                    if !found || eff < min_cost {
                        found = true;
                        best_w = ws2;
                        min_cost = eff;
                    }
                }
                ws2 = ws2 + 1;
            }
            if found {
                proof {
                    assert((k as int) * (0xFFFF_FFFFu64 as int) + 0xFFFF_FFFFu64 as int == (
                    k as int + 1) * (0xFFFF_FFFFu64 as int)) by (nonlinear_arith);
                    lemma_mul_inequality(k as int + 1, DIM_CAP as int, 0xFFFF_FFFFu64 as int);
                }
                let ghost flags_before = open_flags@;
                assignment.set(c, Some(best_w));
                used.set(best_w, used[best_w] + demand);
                open_flags.set(best_w, true);
                proof {
                    lemma_open_count_update_true(flags_before, best_w as int);
                }
            }
        }
        k = k + 1;
    }

    CandidateSolution { assignment, open_flags }
}

} // verus!
