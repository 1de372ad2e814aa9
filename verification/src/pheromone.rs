//! The pheromone field: an n-by-m matrix of trail strengths in
//! fixed-point units, evaporated and reinforced once per colony round.

use vstd::prelude::*;
use vstd::pervasive::VecAdditionalExecFns;
use vstd::arithmetic::mul::{lemma_mul_inequality, lemma_mul_is_commutative, lemma_mul_nonnegative};
use vstd::arithmetic::div_mod::{lemma_div_is_ordered, lemma_div_multiples_vanish, lemma_div_pos_is_pos, lemma_div_nonincreasing};

verus! {

/// Fixed-point unit: this value stands for a trail strength of one.
pub const PHEROMONE_SCALE: u64 = 1_000_000;

/// One evaporation step on a single cell: the kept fraction
/// `num / den` of the old value, rounded down.
pub open spec fn evaporated_cell(p: int, num: int, den: int) -> int {
    (p * num) / den
}

/// One reinforcement step on a single cell: the delta is added, capped
/// at the largest representable strength.
pub open spec fn reinforced_cell(p: int, delta: int) -> int {
    if p + delta > u64::MAX as int {
        u64::MAX as int
    } else {
        p + delta
    }
}

/// A cell after a whole sequence of rounds, each round evaporating by
/// its kept fraction and then adding its reinforcement delta.
pub open spec fn cell_after_rounds(p: int, rounds: Seq<(int, int, int)>) -> int
    decreases rounds.len(),
{
    if rounds.len() == 0 {
        p
    } else {
        cell_after_rounds(
            reinforced_cell(
                evaporated_cell(p, rounds.first().0, rounds.first().1),
                rounds.first().2,
            ),
            rounds.drop_first(),
        )
    }
}

/// Trail strengths never go negative: evaporation scales a non-negative
/// value by a non-negative fraction, reinforcement only adds a
/// non-negative delta, so any number of rounds keeps every cell at or
/// above zero.
pub proof fn lemma_pheromone_stays_nonnegative(p: int, rounds: Seq<(int, int, int)>)
    requires
        0 <= p,
        forall|i: int|
            0 <= i < rounds.len() ==> {
                let r = #[trigger] rounds[i];
                r.0 >= 0 && r.1 >= 1 && r.2 >= 0
            },
    ensures
        cell_after_rounds(p, rounds) >= 0,
    decreases rounds.len(),
{
    if rounds.len() > 0 {
        let r0 = rounds.first();
        assert(r0 == rounds[0]);
        lemma_mul_nonnegative(p, r0.0);
        lemma_div_pos_is_pos(p * r0.0, r0.1);
        lemma_pheromone_stays_nonnegative(
            reinforced_cell(evaporated_cell(p, r0.0, r0.1), r0.2),
            rounds.drop_first(),
        );
    }
}

/// Scaling by a fraction of at most one never raises a cell.
pub proof fn lemma_evaporated_cell_le(p: int, num: int, den: int)
    requires
        0 <= p,
        0 <= num <= den,
        1 <= den,
    ensures
        0 <= evaporated_cell(p, num, den) <= p,
{
    lemma_mul_nonnegative(p, num);
    lemma_div_pos_is_pos(p * num, den);
    lemma_mul_inequality(num, den, p);
    lemma_mul_is_commutative(num, p);
    lemma_mul_is_commutative(den, p);
    lemma_div_is_ordered(p * num, p * den, den);
    lemma_div_multiples_vanish(p, den);
    lemma_mul_is_commutative(den, p);
}

/// The trail matrix, one strength per (warehouse, customer) pair.
pub struct PheromoneField {
    pub cells: Vec<Vec<u64>>,
}

impl PheromoneField {
    /// An n-by-m matrix.
    pub open spec fn wf(self, n: int, m: int) -> bool {
        &&& self.cells@.len() == n
        &&& forall|w: int| 0 <= w < n ==> (#[trigger] self.cells@[w])@.len() == m
    }

    /// The trail strength of one (warehouse, customer) pair.
    pub open spec fn at(self, w: int, c: int) -> u64 {
        self.cells@[w]@[c]
    }

    /// A fresh field with every trail strength at one (in fixed-point
    /// units, `PHEROMONE_SCALE`).
    pub fn new(n: usize, m: usize) -> (r: PheromoneField)
        ensures
            r.wf(n as int, m as int),
            forall|w: int, c: int|
                0 <= w < n && 0 <= c < m ==> #[trigger] r.at(w, c) == PHEROMONE_SCALE,
    {
        let mut cells: Vec<Vec<u64>> = Vec::new();
        let mut w: usize = 0;
        while w < n
            invariant
                w <= n,
                cells@.len() == w,
                forall|w2: int| 0 <= w2 < w ==> (#[trigger] cells@[w2])@.len() == m,
                forall|w2: int, c2: int|
                    0 <= w2 < w && 0 <= c2 < m ==> (#[trigger] cells@[w2]@[c2]) == PHEROMONE_SCALE,
            decreases n - w,
        {
            let mut row: Vec<u64> = Vec::new();
            let mut c: usize = 0;
            while c < m
                invariant
                    c <= m,
                    row@.len() == c,
                    forall|c2: int| 0 <= c2 < c ==> (#[trigger] row@[c2]) == PHEROMONE_SCALE,
                decreases m - c,
            {
                row.push(PHEROMONE_SCALE);
                c = c + 1;
            }
            cells.push(row);
            w = w + 1;
        }
        PheromoneField { cells }
    }

    /// Read one trail strength.
    pub fn get(&self, w: usize, c: usize) -> (r: u64)
        requires
            w < self.cells@.len(),
            c < self.cells@[w as int]@.len(),
        ensures
            r == self.at(w as int, c as int),
    {
        self.cells[w][c]
    }

    /// Evaporate: every cell keeps the fraction `keep_num / keep_den`
    /// of its strength, rounded down.
    pub fn evaporate(&mut self, keep_num: u64, keep_den: u64)
        requires
            1 <= keep_den,
            keep_num <= keep_den,
        ensures
            final(self).cells@.len() == old(self).cells@.len(),
            forall|w: int|
                0 <= w < old(self).cells@.len() ==> (#[trigger] final(self).cells@[w])@.len()
                    == old(self).cells@[w]@.len(),
            forall|w: int, c: int|
                0 <= w < old(self).cells@.len() && 0 <= c < old(self).cells@[w]@.len()
                    ==> #[trigger] final(self).at(w, c) == evaporated_cell(
                    old(self).at(w, c) as int,
                    keep_num as int,
                    keep_den as int,
                ),
    {
        let n = self.cells.len();
        let mut w: usize = 0;
        while w < n
            invariant
                n == self.cells@.len() == old(self).cells@.len(),
                w <= n,
                1 <= keep_den,
                keep_num <= keep_den,
                forall|w2: int|
                    w <= w2 < n ==> #[trigger] self.cells@[w2] == old(self).cells@[w2],
                forall|w2: int|
                    0 <= w2 < w ==> (#[trigger] self.cells@[w2])@.len()
                        == old(self).cells@[w2]@.len(),
                forall|w2: int, c2: int|
                    0 <= w2 < w && 0 <= c2 < old(self).cells@[w2]@.len()
                        ==> #[trigger] self.at(w2, c2) == evaporated_cell(
                        old(self).at(w2, c2) as int,
                        keep_num as int,
                        keep_den as int,
                    ),
            decreases n - w,
        {
            let row_len = self.cells[w].len();
            let mut row: Vec<u64> = Vec::new();
            let mut c: usize = 0;
            while c < row_len
                invariant
                    n == self.cells@.len(),
                    w < n,
                    row_len == self.cells@[w as int]@.len(),
                    self.cells@[w as int] == old(self).cells@[w as int],
                    c <= row_len,
                    row@.len() == c,
                    1 <= keep_den,
                    keep_num <= keep_den,
                    forall|c2: int|
                        0 <= c2 < c ==> #[trigger] row@[c2] == evaporated_cell(
                            self.cells@[w as int]@[c2] as int,
                            keep_num as int,
                            keep_den as int,
                        ),
                decreases row_len - c,
            {
                let p = self.cells[w][c];
                proof {
                    assert((p as int) * (keep_num as int) <= (u64::MAX as int) * (
                    u64::MAX as int) < u128::MAX as int) by (nonlinear_arith)
                        requires
                            0 <= p <= u64::MAX,
                            0 <= keep_num <= u64::MAX,
                    ;
                }
                let kept_wide = ((p as u128) * (keep_num as u128)) / (keep_den as u128);
                proof {
                    lemma_evaporated_cell_le(p as int, keep_num as int, keep_den as int);
                }
                let kept = kept_wide as u64;
                row.push(kept);
                c = c + 1;
            }
            let ghost pre = *self;
            self.cells.set(w, row);
            proof {
                assert(self.cells@ == pre.cells@.update(w as int, row));
                assert forall|w2: int, c2: int|
                    0 <= w2 < w + 1 && 0 <= c2 < old(self).cells@[w2]@.len()
                        implies #[trigger] self.at(w2, c2) == evaporated_cell(
                    old(self).at(w2, c2) as int,
                    keep_num as int,
                    keep_den as int,
                ) by {
                    if w2 == w as int {
                        assert(self.cells@[w2] == row);
                        assert(row@[c2] == evaporated_cell(
                            old(self).at(w2, c2) as int,
                            keep_num as int,
                            keep_den as int,
                        ));
                    } else {
                        assert(self.cells@[w2] == pre.cells@[w2]);
                        assert(pre.at(w2, c2) == evaporated_cell(
                            old(self).at(w2, c2) as int,
                            keep_num as int,
                            keep_den as int,
                        ));
                    }
                }
            }
            w = w + 1;
        }
    }

    /// Reinforce: every cell whose (warehouse, customer) pair the
    /// assignment uses gains `delta`, capped at the largest
    /// representable strength; every other cell is untouched.
    pub fn reinforce(&mut self, assignment: &Vec<Option<usize>>, delta: u64)
        ensures
            final(self).cells@.len() == old(self).cells@.len(),
            forall|w: int|
                0 <= w < old(self).cells@.len() ==> (#[trigger] final(self).cells@[w])@.len()
                    == old(self).cells@[w]@.len(),
            forall|w: int, c: int|
                0 <= w < old(self).cells@.len() && 0 <= c < old(self).cells@[w]@.len()
                    ==> #[trigger] final(self).at(w, c) == (if 0 <= c < assignment@.len()
                    && assignment@[c] == Some(w as usize) {
                    reinforced_cell(old(self).at(w, c) as int, delta as int)
                } else {
                    old(self).at(w, c) as int
                }),
    {
        let n = self.cells.len();
        let mut w: usize = 0;
        while w < n
            invariant
                n == self.cells@.len() == old(self).cells@.len(),
                w <= n,
                forall|w2: int|
                    w <= w2 < n ==> #[trigger] self.cells@[w2] == old(self).cells@[w2],
                forall|w2: int|
                    0 <= w2 < w ==> (#[trigger] self.cells@[w2])@.len()
                        == old(self).cells@[w2]@.len(),
                forall|w2: int, c2: int|
                    0 <= w2 < w && 0 <= c2 < old(self).cells@[w2]@.len()
                        ==> #[trigger] self.at(w2, c2) == (if 0 <= c2 < assignment@.len()
                        && assignment@[c2] == Some(w2 as usize) {
                        reinforced_cell(old(self).at(w2, c2) as int, delta as int)
                    } else {
                        old(self).at(w2, c2) as int
                    }),
            decreases n - w,
        {
            let row_len = self.cells[w].len();
            let mut row: Vec<u64> = Vec::new();
            let mut c: usize = 0;
            while c < row_len
                invariant
                    n == self.cells@.len(),
                    w < n,
                    row_len == self.cells@[w as int]@.len(),
                    self.cells@[w as int] == old(self).cells@[w as int],
                    c <= row_len,
                    row@.len() == c,
                    forall|c2: int|
                        0 <= c2 < c ==> #[trigger] row@[c2] == (if 0 <= c2 < assignment@.len()
                            && assignment@[c2] == Some(w as usize) {
                            reinforced_cell(self.cells@[w as int]@[c2] as int, delta as int)
                        } else {
                            self.cells@[w as int]@[c2] as int
                        }),
                decreases row_len - c,
            {
                let p = self.cells[w][c];
                let used_here = if c < assignment.len() {
                    match assignment[c] {
                        Some(aw) => aw == w,
                        None => false,
                    }
                } else {
                    false
                };
                let next = if used_here {
                    if p <= u64::MAX - delta {
                        p + delta
                    } else {
                        u64::MAX
                    }
                } else {
                    p
                };
                row.push(next);
                c = c + 1;
            }
            let ghost pre = *self;
            self.cells.set(w, row);
            proof {
                assert(self.cells@ == pre.cells@.update(w as int, row));
                assert forall|w2: int, c2: int|
                    0 <= w2 < w + 1 && 0 <= c2 < old(self).cells@[w2]@.len()
                        implies #[trigger] self.at(w2, c2) == (if 0 <= c2 < assignment@.len()
                        && assignment@[c2] == Some(w2 as usize) {
                    reinforced_cell(old(self).at(w2, c2) as int, delta as int)
                } else {
                    old(self).at(w2, c2) as int
                }) by {
                    if w2 == w as int {
                        assert(self.cells@[w2] == row);
                        assert(row@[c2] == (if 0 <= c2 < assignment@.len() && assignment@[c2]
                            == Some(w as usize) {
                            reinforced_cell(old(self).at(w2, c2) as int, delta as int)
                        } else {
                            old(self).at(w2, c2) as int
                        }));
                    } else {
                        assert(self.cells@[w2] == pre.cells@[w2]);
                        assert(pre.at(w2, c2) == (if 0 <= c2 < assignment@.len()
                            && assignment@[c2] == Some(w2 as usize) {
                            reinforced_cell(old(self).at(w2, c2) as int, delta as int)
                        } else {
                            old(self).at(w2, c2) as int
                        }));
                    }
                }
            }
            w = w + 1;
        }
    }
}

/// The reinforcement delta one candidate contributes: the constant `q`
/// in fixed-point units, divided by the candidate's penalized cost
/// (taken as at least one).
pub open spec fn delta_spec(q: int, cost: int) -> int {
    (q * PHEROMONE_SCALE as int) / (if cost < 1 {
        1int
    } else {
        cost
    })
}

/// The reinforcement delta for a candidate of the given penalized cost.
pub fn reinforcement_delta(q: u64, cost: u128) -> (r: u64)
    requires
        q <= 0xFFFF_FFFF,
    ensures
        r as int == delta_spec(q as int, cost as int),
{
    proof {
        assert((q as int) * (PHEROMONE_SCALE as int) <= 0xFFFF_FFFFu64 * 1_000_000u64)
            by (nonlinear_arith)
            requires
                0 <= q <= 0xFFFF_FFFF,
        ;
    }
    let scaled: u128 = (q as u128) * (PHEROMONE_SCALE as u128);
    let divisor: u128 = if cost < 1 {
        1
    } else {
        cost
    };
    let wide = scaled / divisor;
    proof {
        lemma_div_nonincreasing(scaled as int, divisor as int);
        lemma_div_pos_is_pos(scaled as int, divisor as int);
    }
    wide as u64
}

} // verus!
