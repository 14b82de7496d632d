//! Choosing an endpoint for each request.

use crate::config::LoadBalanceStrategy;
use crate::model::Endpoint;
use crate::stamp::now_subsec_nanos;
use vstd::prelude::*;

verus! {

/// Distributes requests across endpoints.
pub struct LoadBalancer {
    /// Load balancing strategy
    strategy: LoadBalanceStrategy,
    /// Requests served by the round-robin count
    counter: usize,
}

/// The position that a balancer in `strategy` with round-robin count
/// `counter` picks among `len` endpoints, given the clock reading `seed`.
pub open spec fn pick(strategy: LoadBalanceStrategy, counter: usize, seed: usize, len: nat) -> int {
    match strategy {
        LoadBalanceStrategy::Random => (seed as int) % (len as int),
        _ => (counter as int) % (len as int),
    }
}

/// The round-robin count after one more pick: it advances, wrapping around,
/// except for the random strategy.
pub open spec fn next_counter(strategy: LoadBalanceStrategy, counter: usize) -> usize {
    match strategy {
        LoadBalanceStrategy::Random => counter,
        _ => if counter == usize::MAX {
            0
        } else {
            (counter + 1) as usize
        },
    }
}

impl LoadBalancer {
    /// The round-robin count.
    pub closed spec fn counter(&self) -> usize {
        self.counter
    }

    /// The strategy.
    pub closed spec fn strategy_spec(&self) -> LoadBalanceStrategy {
        self.strategy
    }

    /// A balancer with `strategy` whose round-robin count starts at 0.
    pub fn new(strategy: LoadBalanceStrategy) -> (r: Self)
        ensures
            r.strategy_spec() == strategy,
            r.counter() == 0,
    {
        LoadBalancer { strategy, counter: 0 }
    }

    /// Picks an endpoint, with `seed` standing for the clock that the random
    /// strategy reads: `None` when there are none; otherwise the one at the
    /// round-robin count (which then advances) or, for the random strategy,
    /// the one at `seed`, both modulo the number of endpoints.
    pub fn select_with_seed<'a>(&mut self, endpoints: &'a [Endpoint], seed: usize) -> (r: Option<
        &'a Endpoint,
    >)
        ensures
            final(self).strategy_spec() == old(self).strategy_spec(),
            endpoints@.len() == 0 ==> r is None && final(self).counter() == old(self).counter(),
            endpoints@.len() > 0 ==> {
                &&& r matches Some(e) && *e == endpoints@[pick(
                    old(self).strategy_spec(),
                    old(self).counter(),
                    seed,
                    endpoints@.len(),
                )]
                &&& final(self).counter() == next_counter(old(self).strategy_spec(), old(self).counter())
            },
    {
        if endpoints.len() == 0 {
            return None;
        }
        let index = match self.strategy {
            LoadBalanceStrategy::Random => seed % endpoints.len(),
            _ => {
                let idx = self.counter % endpoints.len();
                self.counter = self.counter.wrapping_add(1);
                idx
            },
        };
        Some(&endpoints[index])
    }

    /// Picks an endpoint: `None` when there are none; round robin (for the
    /// least-connections strategy too) picks as `select_with_seed` says; the
    /// random strategy picks one of them by the clock.
    pub fn select<'a>(&mut self, endpoints: &'a [Endpoint]) -> (r: Option<&'a Endpoint>)
        ensures
            final(self).strategy_spec() == old(self).strategy_spec(),
            endpoints@.len() == 0 ==> r is None && final(self).counter() == old(self).counter(),
            endpoints@.len() > 0 ==> {
                &&& r matches Some(e) && endpoints@.contains(*e)
                &&& final(self).counter() == next_counter(old(self).strategy_spec(), old(self).counter())
            },
            endpoints@.len() > 0 && old(self).strategy_spec() != LoadBalanceStrategy::Random ==> (r matches Some(
                e,
            ) && *e == endpoints@[(old(self).counter() as int) % (endpoints@.len() as int)]),
    {
        let seed = if self.strategy == LoadBalanceStrategy::Random {
            now_subsec_nanos() as usize
        } else {
            0
        };
        let r = self.select_with_seed(endpoints, seed);
        if endpoints.len() > 0 {
            let ghost i = pick(old(self).strategy, old(self).counter, seed, endpoints@.len());
            assert(endpoints@[i] == endpoints@[i]);
            assert(0 <= i < endpoints@.len());
        }
        r
    }

    /// The strategy.
    pub fn strategy(&self) -> (r: LoadBalanceStrategy)
        ensures
            r == self.strategy_spec(),
    {
        self.strategy
    }
}

impl Default for LoadBalancer {
    fn default() -> (r: Self)
        ensures
            r.strategy_spec() == LoadBalanceStrategy::RoundRobin,
            r.counter() == 0,
    {
        LoadBalancer::new(LoadBalanceStrategy::RoundRobin)
    }
}

} // verus!
