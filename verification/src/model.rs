//! The problem instance: warehouses with opening costs, capacities and
//! per-customer service costs, and customers with demands; plus the
//! solver's configuration and the shape of a candidate solution.

use vstd::prelude::*;

verus! {

/// Largest cost value an instance may carry, so that the sum of any two
/// costs still fits in a `u64`.
pub const COST_CAP: u64 = 0x7FFF_FFFF_FFFF_FFFF;

/// Largest warehouse or customer count an instance may carry, so that
/// accumulated totals stay within machine bounds.
pub const DIM_CAP: usize = 0xFFFF_FFFF;

/// A candidate warehouse: what opening it costs, how much demand it can
/// carry, and what serving each customer from it costs.
pub struct Warehouse {
    pub opening_cost: u64,
    pub capacity: u64,
    pub service_costs: Vec<u64>,
}

/// A customer, described by its demand alone.
pub struct Customer {
    pub demand: u32,
}

/// An immutable problem instance: the warehouses and the customers.
pub struct Instance {
    pub warehouses: Vec<Warehouse>,
    pub customers: Vec<Customer>,
}

impl Instance {
    /// Number of warehouses.
    pub open spec fn n_spec(self) -> int {
        self.warehouses@.len() as int
    }

    /// Number of customers.
    pub open spec fn m_spec(self) -> int {
        self.customers@.len() as int
    }

    /// A well-formed instance: counts within machine bounds, every
    /// warehouse carries one service cost per customer, and every cost
    /// is at most `COST_CAP`.
    pub open spec fn wf(self) -> bool {
        &&& self.warehouses@.len() <= DIM_CAP
        &&& self.customers@.len() <= DIM_CAP
        &&& forall|w: int|
            0 <= w < self.n_spec() ==> (#[trigger] self.warehouses@[w]).service_costs@.len()
                == self.m_spec()
        &&& forall|w: int|
            0 <= w < self.n_spec() ==> (#[trigger] self.warehouses@[w]).opening_cost <= COST_CAP
        &&& forall|w: int, c: int|
            0 <= w < self.n_spec() && 0 <= c < self.m_spec()
                ==> (#[trigger] self.warehouses@[w].service_costs@[c]) <= COST_CAP
    }

    /// Number of warehouses.
    pub fn n(&self) -> (r: usize)
        ensures
            r == self.n_spec(),
    {
        self.warehouses.len()
    }

    /// Number of customers.
    pub fn m(&self) -> (r: usize)
        ensures
            r == self.m_spec(),
    {
        self.customers.len()
    }
}

/// Solver configuration. Evaporation keeps the fraction
/// `evaporation_keep_num / evaporation_keep_den` of every trail value
/// each round.
pub struct Config {
    pub num_ants: usize,
    pub iterations: usize,
    pub alpha: u32,
    pub beta: u32,
    pub evaporation_keep_num: u64,
    pub evaporation_keep_den: u64,
    pub q: u64,
    pub min_warehouses: usize,
    pub penalty_factor: u64,
}

impl Config {
    /// A usable configuration: the kept evaporation fraction is at most
    /// one, and the reinforcement constant and minimum warehouse count
    /// are small enough that derived quantities fit their types.
    pub open spec fn wf(self) -> bool {
        &&& 1 <= self.evaporation_keep_den
        &&& self.evaporation_keep_num <= self.evaporation_keep_den
        &&& self.q <= 0xFFFF_FFFF
        &&& self.min_warehouses <= 0xFFFF_FFFF
    }

    /// The standard configuration: 50 ants, 100 rounds, pheromone
    /// exponent 1, cost exponent 2, half of each trail kept per round,
    /// reinforcement constant 100, at least 5 open warehouses, and a
    /// penalty of 1000 cost units per missing warehouse.
    pub fn standard() -> (r: Config)
        ensures
            r.wf(),
            r.num_ants == 50,
            r.iterations == 100,
            r.alpha == 1,
            r.beta == 2,
            r.evaporation_keep_num == 1,
            r.evaporation_keep_den == 2,
            r.q == 100,
            r.min_warehouses == 5,
            r.penalty_factor == 1000,
    {
        Config {
            num_ants: 50,
            iterations: 100,
            alpha: 1,
            beta: 2,
            evaporation_keep_num: 1,
            evaporation_keep_den: 2,
            q: 100,
            min_warehouses: 5,
            penalty_factor: 1000,
        }
    }
}

/// What one construction run produces: an assignment (per customer,
/// either the index of the warehouse serving it or nothing) and the
/// open flags, one per warehouse.
pub struct CandidateSolution {
    pub assignment: Vec<Option<usize>>,
    pub open_flags: Vec<bool>,
}

/// A structurally sound candidate: right lengths, and every assigned
/// customer's warehouse exists and is flagged open.
pub open spec fn solution_wf(inst: Instance, asg: Seq<Option<usize>>, open_flags: Seq<bool>) -> bool {
    &&& asg.len() == inst.m_spec()
    &&& open_flags.len() == inst.n_spec()
    &&& forall|c: int|
        0 <= c < asg.len() ==> ((#[trigger] asg[c]) matches Some(w) ==> w < inst.n_spec()
            && open_flags[w as int])
}

impl CandidateSolution {
    pub open spec fn wf(self, inst: Instance) -> bool {
        solution_wf(inst, self.assignment@, self.open_flags@)
    }
}

} // verus!
