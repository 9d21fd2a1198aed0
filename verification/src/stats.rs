use std::collections::VecDeque;
use vstd::prelude::*;

verus! {

/// What one pass of a frame loop did: whether the simulation advanced, and
/// how long one step took, in nanoseconds.
#[derive(Clone, Copy, Debug, PartialEq, Eq, Structural)]
pub struct DemoLoopResult {
    pub updated: bool,
    pub step_cost: u128,
}

impl DemoLoopResult {
    /// The result of a pass in which the simulation did not advance.
    pub fn not_updated() -> (result: Self)
        ensures
            result == (DemoLoopResult { updated: false, step_cost: 0 }),
    {
        Self { updated: false, step_cost: 0 }
    }
}

/// The sum of `costs`.
pub open spec fn total(costs: Seq<u128>) -> int
    decreases costs.len(),
{
    if costs.len() == 0 {
        0
    } else {
        total(costs.drop_last()) + costs.last()
    }
}

/// The sum of at most one cost is that cost, or zero.
proof fn lemma_total_small(costs: Seq<u128>)
    requires
        costs.len() <= 1,
    ensures
        total(costs) == if costs.len() == 0 {
            0
        } else {
            costs[0] as int
        },
{
    if costs.len() == 1 {
        assert(costs.drop_last().len() == 0);
        assert(total(costs.drop_last()) == 0);
    }
}

/// The mean of `costs`, rounded down; zero where there are none.
pub open spec fn mean(costs: Seq<u128>) -> int {
    if costs.len() == 0 {
        0
    } else {
        total(costs) / (costs.len() as int)
    }
}

/// The costs of the most recent steps, in nanoseconds, and their sum. The
/// window holds one step.
pub struct Stats {
    step_costs: VecDeque<u128>,
    sum_step_costs: u128,
}

impl Stats {
    /// The costs in the window, oldest first.
    pub closed spec fn costs(&self) -> Seq<u128> {
        self.step_costs@
    }

    #[verifier::type_invariant]
    spec fn consistent(&self) -> bool {
        &&& self.step_costs@.len() <= 1
        &&& self.sum_step_costs == total(self.step_costs@)
    }

    /// Statistics with an empty window.
    pub fn new() -> (stats: Self)
        ensures
            stats.costs().len() == 0,
    {
        Stats { step_costs: VecDeque::new(), sum_step_costs: 0 }
    }

    /// Records the cost of a step; it replaces the one in the window.
    pub fn add_step_cost(&mut self, cost: u128)
        ensures
            final(self).costs() == seq![cost],
    {
        proof {
            use_type_invariant(&*self);
        }
        let mut step_costs: VecDeque<u128> = VecDeque::new();
        let mut sum_step_costs: u128 = self.sum_step_costs;
        if self.step_costs.len() == 1 {
            let first = self.step_costs[0];
            proof {
                lemma_total_small(self.step_costs@);
            }
            sum_step_costs = sum_step_costs - first;
        }
        step_costs.push_back(cost);
        sum_step_costs = sum_step_costs + cost;
        proof {
            assert(step_costs@ == seq![cost]);
            lemma_total_small(self.step_costs@);
            lemma_total_small(step_costs@);
        }
        *self = Stats { step_costs, sum_step_costs };
    }

    /// The mean cost of the steps in the window, zero for an empty window.
    pub fn avg_step_cost(&self) -> (avg: u128)
        ensures
            avg == mean(self.costs()),
    {
        proof {
            use_type_invariant(self);
        }
        if self.step_costs.len() == 0 {
            return 0;
        }
        self.sum_step_costs / (self.step_costs.len() as u128)
    }
}

impl Default for Stats {
    fn default() -> (stats: Self)
        ensures
            stats.costs().len() == 0,
    {
        Stats::new()
    }
}

} // verus!
