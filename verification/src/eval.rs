//! The solution evaluator: counting open warehouses and summing the
//! total cost (opening costs of open warehouses plus service costs of
//! assigned customers) of a candidate solution.

use vstd::prelude::*;
use vstd::arithmetic::mul::lemma_mul_inequality;
use crate::model::{Instance, Warehouse, Config, DIM_CAP};

verus! {

/// How many flags in the sequence are set.
pub open spec fn open_count(s: Seq<bool>) -> int
    decreases s.len(),
{
    if s.len() == 0 {
        0
    } else {
        open_count(s.drop_last()) + if s.last() {
            1int
        } else {
            0int
        }
    }
}

/// The count of set flags lies between zero and the sequence length.
pub proof fn lemma_open_count_bounds(s: Seq<bool>)
    ensures
        0 <= open_count(s) <= s.len(),
    decreases s.len(),
{
    if s.len() > 0 {
        lemma_open_count_bounds(s.drop_last());
    }
}

/// Setting one flag raises the count by one when the flag was clear,
/// and leaves it unchanged when it was already set.
pub proof fn lemma_open_count_update_true(s: Seq<bool>, i: int)
    requires
        0 <= i < s.len(),
    ensures
        open_count(s.update(i, true)) == open_count(s) + if s[i] {
            0int
        } else {
            1int
        },
    decreases s.len(),
{
    let t = s.update(i, true);
    if i == s.len() - 1 {
        assert(t.drop_last() =~= s.drop_last());
        assert(t.last());
    } else {
        assert(t.drop_last() =~= s.drop_last().update(i, true));
        assert(t.last() == s.last());
        lemma_open_count_update_true(s.drop_last(), i);
    }
}

/// A sequence with every flag set counts its full length.
pub proof fn lemma_open_count_all_true(s: Seq<bool>)
    requires
        forall|i: int| 0 <= i < s.len() ==> s[i],
    ensures
        open_count(s) == s.len(),
    decreases s.len(),
{
    if s.len() > 0 {
        lemma_open_count_all_true(s.drop_last());
    }
}

/// Number of warehouses flagged open.
pub fn count_open_warehouses(open_flags: &Vec<bool>) -> (r: usize)
    ensures
        r == open_count(open_flags@),
{
    let mut cnt: usize = 0;
    let mut w: usize = 0;
    while w < open_flags.len()
        invariant
            w <= open_flags@.len(),
            cnt <= w,
            cnt == open_count(open_flags@.take(w as int)),
        decreases open_flags@.len() - w,
    {
        proof {
            assert(open_flags@.take(w as int + 1).drop_last() =~= open_flags@.take(w as int));
            assert(open_flags@.take(w as int + 1).last() == open_flags@[w as int]);
        }
        if open_flags[w] {
            cnt = cnt + 1;
        }
        w = w + 1;
    }
    proof {
        assert(open_flags@.take(open_flags@.len() as int) =~= open_flags@);
    }
    cnt
}

/// Sum of the opening costs of the first `k` warehouses that are
/// flagged open.
pub open spec fn opening_sum(ws: Seq<Warehouse>, open_flags: Seq<bool>, k: int) -> int
    decreases k,
{
    if k <= 0 {
        0
    } else {
        opening_sum(ws, open_flags, k - 1) + if open_flags[k - 1] {
            ws[k - 1].opening_cost as int
        } else {
            0int
        }
    }
}

/// Sum of the service costs of the first `k` customers that are
/// assigned; an unassigned customer contributes nothing.
pub open spec fn service_sum(ws: Seq<Warehouse>, asg: Seq<Option<usize>>, k: int) -> int
    decreases k,
{
    if k <= 0 {
        0
    } else {
        service_sum(ws, asg, k - 1) + (match asg[k - 1] {
            Some(w) => ws[w as int].service_costs@[k - 1] as int,
            None => 0int,
        })
    }
}

/// Total cost of a candidate: opening costs of the open warehouses plus
/// service costs of the assigned customers.
pub open spec fn total_cost_spec(inst: Instance, asg: Seq<Option<usize>>, open_flags: Seq<bool>) -> int {
    opening_sum(inst.warehouses@, open_flags, inst.n_spec()) + service_sum(
        inst.warehouses@,
        asg,
        inst.m_spec(),
    )
}

/// Total cost of a candidate solution, as an exact integer. Pure: the
/// result depends only on the instance, the assignment and the flags.
pub fn calculate_total_cost(
    inst: &Instance,
    assignment: &Vec<Option<usize>>,
    open_flags: &Vec<bool>,
) -> (r: u128)
    requires
        inst.wf(),
        assignment@.len() == inst.m_spec(),
        open_flags@.len() == inst.n_spec(),
        forall|c: int|
            0 <= c < assignment@.len() ==> ((#[trigger] assignment@[c]) matches Some(w) ==> w
                < inst.n_spec()),
    ensures
        r == total_cost_spec(*inst, assignment@, open_flags@),
        r <= (inst.n_spec() + inst.m_spec()) * (u64::MAX as int),
{
    let n = inst.warehouses.len();
    let m = inst.customers.len();
    let mut total: u128 = 0;
    let mut w: usize = 0;
    while w < n
        invariant
            inst.wf(),
            open_flags@.len() == n == inst.n_spec(),
            w <= n,
            total == opening_sum(inst.warehouses@, open_flags@, w as int),
            total <= (w as int) * (u64::MAX as int),
        decreases n - w,
    {
        proof {
            lemma_mul_inequality(w as int, DIM_CAP as int, u64::MAX as int);
            assert((w as int) * (u64::MAX as int) + u64::MAX as int == (w as int + 1) * (
            u64::MAX as int)) by (nonlinear_arith);
        }
        if open_flags[w] {
            total = total + inst.warehouses[w].opening_cost as u128;
        }
        w = w + 1;
    }
    proof {
        lemma_mul_inequality(inst.n_spec(), DIM_CAP as int, u64::MAX as int);
    }
    let mut c: usize = 0;
    while c < m
        invariant
            inst.wf(),
            assignment@.len() == m == inst.m_spec(),
            forall|c2: int|
                0 <= c2 < assignment@.len() ==> ((#[trigger] assignment@[c2]) matches Some(w2)
                    ==> w2 < inst.n_spec()),
            c <= m,
            total == total_cost_spec(*inst, assignment@, open_flags@) - service_sum(
                inst.warehouses@,
                assignment@,
                inst.m_spec(),
            ) + service_sum(inst.warehouses@, assignment@, c as int),
            total <= (inst.n_spec() + c as int) * (u64::MAX as int),
        decreases m - c,
    {
        proof {
            lemma_mul_inequality(
                inst.n_spec() + c as int,
                2 * DIM_CAP as int,
                u64::MAX as int,
            );
            assert((inst.n_spec() + c as int) * (u64::MAX as int) + u64::MAX as int == (
            inst.n_spec() + c as int + 1) * (u64::MAX as int)) by (nonlinear_arith);
        }
        match assignment[c] {
            Some(wh) => {
                total = total + inst.warehouses[wh].service_costs[c] as u128;
            },
            None => {},
        }
        c = c + 1;
    }
    total
}

/// The service-cost term one customer contributes under a fixed
/// assignment.
pub open spec fn service_term(ws: Seq<Warehouse>, asg: Seq<Option<usize>>, c: int) -> int {
    match asg[c] {
        Some(w) => ws[w as int].service_costs@[c] as int,
        None => 0int,
    }
}

/// The service cost accumulated by visiting the customers in the
/// order `ord` gives.
pub open spec fn service_sum_in_order(
    ws: Seq<Warehouse>,
    asg: Seq<Option<usize>>,
    ord: Seq<int>,
) -> int
    decreases ord.len(),
{
    if ord.len() == 0 {
        0
    } else {
        service_sum_in_order(ws, asg, ord.drop_last()) + service_term(ws, asg, ord.last())
    }
}

pub proof fn lemma_service_sum_in_order_remove(
    ws: Seq<Warehouse>,
    asg: Seq<Option<usize>>,
    ord: Seq<int>,
    j: int,
)
    requires
        0 <= j < ord.len(),
    ensures
        service_sum_in_order(ws, asg, ord.remove(j)) == service_sum_in_order(ws, asg, ord)
            - service_term(ws, asg, ord[j]),
    decreases ord.len(),
{
    if j == ord.len() - 1 {
        assert(ord.remove(j) =~= ord.drop_last());
    } else {
        let s = ord.remove(j);
        assert(s.last() == ord.last());
        assert(s.drop_last() =~= ord.drop_last().remove(j));
        lemma_service_sum_in_order_remove(ws, asg, ord.drop_last(), j);
    }
}

/// The service sum is invariant under reordering of the
/// customer-processing order: two visiting orders made of the same
/// visits accumulate the same service cost over a fixed assignment.
pub proof fn lemma_service_sum_order_invariant(
    ws: Seq<Warehouse>,
    asg: Seq<Option<usize>>,
    ord1: Seq<int>,
    ord2: Seq<int>,
)
    requires
        ord1.to_multiset() == ord2.to_multiset(),
    ensures
        service_sum_in_order(ws, asg, ord1) == service_sum_in_order(ws, asg, ord2),
    decreases ord1.len(),
{
    broadcast use vstd::seq_lib::group_to_multiset_ensures;
    broadcast use vstd::multiset::group_multiset_axioms;

    if ord1.len() == 0 {
        assert(ord1.to_multiset().len() == ord1.len());
        assert(ord2.to_multiset().len() == ord2.len());
        assert(ord2.len() == 0);
    } else {
        let x = ord1.last();
        assert(ord1.contains(x));
        assert(ord2.to_multiset().count(x) > 0);
        assert(ord2.contains(x));
        let j = choose|j: int| 0 <= j < ord2.len() && ord2[j] == x;
        lemma_service_sum_in_order_remove(ws, asg, ord2, j);
        assert(ord1 =~= ord1.drop_last().push(x));
        assert(ord1.drop_last().push(x).to_multiset() =~= ord1.drop_last().to_multiset().insert(
            x,
        ));
        assert(ord2.remove(j).to_multiset() =~= ord2.to_multiset().remove(x));
        assert(ord1.drop_last().to_multiset() =~= ord2.remove(j).to_multiset());
        lemma_service_sum_order_invariant(ws, asg, ord1.drop_last(), ord2.remove(j));
    }
}

/// Visiting the customers in plain index order accumulates exactly
/// the service sum of the evaluator.
pub proof fn lemma_service_sum_index_order(ws: Seq<Warehouse>, asg: Seq<Option<usize>>, k: int)
    requires
        0 <= k,
    ensures
        service_sum_in_order(ws, asg, Seq::new(k as nat, |i: int| i)) == service_sum(
            ws,
            asg,
            k,
        ),
    decreases k,
{
    let ord = Seq::new(k as nat, |i: int| i);
    if k > 0 {
        assert(ord.drop_last() =~= Seq::new((k - 1) as nat, |i: int| i));
        assert(ord.last() == k - 1);
        lemma_service_sum_index_order(ws, asg, k - 1);
    }
}

/// The total cost is invariant under reordering of the
/// customer-processing order: for a fixed assignment and open-set, any
/// visiting order that is a rearrangement of all the customers
/// accumulates, together with the opening costs, exactly the total
/// cost.
pub proof fn lemma_total_cost_order_invariant(
    inst: Instance,
    asg: Seq<Option<usize>>,
    open_flags: Seq<bool>,
    ord: Seq<int>,
)
    requires
        ord.to_multiset() == Seq::new(inst.m_spec() as nat, |i: int| i).to_multiset(),
    ensures
        opening_sum(inst.warehouses@, open_flags, inst.n_spec()) + service_sum_in_order(
            inst.warehouses@,
            asg,
            ord,
        ) == total_cost_spec(inst, asg, open_flags),
{
    lemma_service_sum_order_invariant(
        inst.warehouses@,
        asg,
        ord,
        Seq::new(inst.m_spec() as nat, |i: int| i),
    );
    lemma_service_sum_index_order(inst.warehouses@, asg, inst.m_spec());
}

/// Penalized score of a candidate: its total cost, plus
/// `penalty_factor` for each warehouse missing from the minimum open
/// count.
pub open spec fn penalized_cost_spec(
    inst: Instance,
    asg: Seq<Option<usize>>,
    open_flags: Seq<bool>,
    cfg: Config,
) -> int {
    total_cost_spec(inst, asg, open_flags) + if open_count(open_flags) < cfg.min_warehouses {
        (cfg.penalty_factor as int) * (cfg.min_warehouses as int - open_count(open_flags))
    } else {
        0int
    }
}

/// Penalized score of a candidate, as an exact integer.
pub fn penalized_cost(
    inst: &Instance,
    assignment: &Vec<Option<usize>>,
    open_flags: &Vec<bool>,
    cfg: &Config,
) -> (r: u128)
    requires
        inst.wf(),
        cfg.wf(),
        assignment@.len() == inst.m_spec(),
        open_flags@.len() == inst.n_spec(),
        forall|c: int|
            0 <= c < assignment@.len() ==> ((#[trigger] assignment@[c]) matches Some(w) ==> w
                < inst.n_spec()),
    ensures
        r == penalized_cost_spec(*inst, assignment@, open_flags@, *cfg),
{
    let total = calculate_total_cost(inst, assignment, open_flags);
    let cnt = count_open_warehouses(open_flags);
    proof {
        lemma_open_count_bounds(open_flags@);
        lemma_mul_inequality(inst.n_spec() + inst.m_spec(), 2 * DIM_CAP as int, u64::MAX as int);
    }
    if cnt < cfg.min_warehouses {
        let deficit = cfg.min_warehouses - cnt;
        proof {
            assert((cfg.penalty_factor as int) * (deficit as int) <= (u64::MAX as int) * (
            0xFFFF_FFFFint)) by (nonlinear_arith)
                requires
                    cfg.penalty_factor <= u64::MAX,
                    0 <= deficit <= 0xFFFF_FFFF,
            ;
        }
        total + (cfg.penalty_factor as u128) * (deficit as u128)
    } else {
        total
    }
}

} // verus!
