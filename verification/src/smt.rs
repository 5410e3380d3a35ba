use vstd::prelude::*;

use crate::order::{
    goes_before, is_index_permutation, law_stable_desc_order, lemma_sorted_permutation_unique,
    sorted_by_key, stable_desc_order, stable_desc_order_of,
};

verus! {

/// An invariant issue proved by the SMT solver.
#[derive(Debug, Clone)]
pub struct SmtInvariantIssue {
    /// Function under verification.
    pub function_name: String,
    /// Human-readable description of the violation.
    pub description: String,
    /// Source location.
    pub location: String,
}

/// The constraint-generation strategy used for an SMT proof.
#[derive(Debug, Clone, Copy, PartialEq, Eq, Structural)]
#[non_exhaustive]
pub enum SmtProofStrategy {
    /// Full u64 range.
    UnconstrainedOverflow,
    /// Bounded to 5 * 10^9.
    BoundedDomainOverflow,
    /// Bounded to 10 000.
    SmallDomainOverflow,
}

/// Latency statistics for a single [`SmtProofStrategy`].
#[derive(Debug, Clone)]
pub struct SmtStrategyLatency {
    /// Which strategy was measured.
    pub strategy: SmtProofStrategy,
    /// Number of iterations.
    pub runs: usize,
    /// Fastest run in microseconds.
    pub min_micros: u128,
    /// Slowest run in microseconds.
    pub max_micros: u128,
    /// Mean duration in microseconds.
    pub avg_micros: u128,
    /// 95th-percentile duration in microseconds.
    pub p95_micros: u128,
}

/// Aggregate benchmark across all [`SmtProofStrategy`] variants.
#[derive(Debug, Clone)]
pub struct SmtLatencyBenchmarkReport {
    /// How many iterations were run per strategy.
    pub iterations_per_strategy: usize,
    /// Per-strategy results.
    pub strategies: Vec<SmtStrategyLatency>,
}

/// The ordering key of a latency entry: its mean duration.
pub open spec fn latency_keys(s: Seq<SmtStrategyLatency>) -> Seq<(u128, u128)> {
    s.map_values(|l: SmtStrategyLatency| (l.avg_micros, 0u128))
}

/// The entries ordered by descending mean duration, entries with equal means in their
/// original order.
pub open spec fn by_descending_latency(s: Seq<SmtStrategyLatency>) -> Seq<SmtStrategyLatency> {
    stable_desc_order(latency_keys(s)).map_values(|i: usize| s[i as int])
}

fn copy_latency(l: &SmtStrategyLatency) -> (r: SmtStrategyLatency)
    ensures
        r == *l,
{
    SmtStrategyLatency {
        strategy: l.strategy,
        runs: l.runs,
        min_micros: l.min_micros,
        max_micros: l.max_micros,
        avg_micros: l.avg_micros,
        p95_micros: l.p95_micros,
    }
}

impl SmtLatencyBenchmarkReport {
    /// Return strategies ordered by descending average latency (a stable ordering: entries
    /// with the same average keep their order).
    pub fn most_expensive_first(&self) -> (sorted: Vec<SmtStrategyLatency>)
        ensures
            sorted@ == by_descending_latency(self.strategies@),
            sorted@.len() == self.strategies@.len(),
            forall|a: int, b: int|
                0 <= a < b < sorted@.len() ==> sorted@[a].avg_micros >= sorted@[b].avg_micros,
            exists|p: Seq<usize>|
                is_index_permutation(p, self.strategies@.len()) && forall|a: int|
                    0 <= a < sorted@.len() ==> #[trigger] sorted@[a] == self.strategies@[p[a] as int],
    {
        let mut keys: Vec<(u128, u128)> = Vec::new();
        let mut i: usize = 0;
        while i < self.strategies.len()
            invariant
                i <= self.strategies.len(),
                keys@ == latency_keys(self.strategies@).take(i as int),
            decreases self.strategies.len() - i,
        {
            keys.push((self.strategies[i].avg_micros, 0));
            assert(keys@ =~= latency_keys(self.strategies@).take(i + 1));
            i = i + 1;
        }
        assert(keys@ =~= latency_keys(self.strategies@));
        let order = stable_desc_order_of(&keys);
        proof {
            law_stable_desc_order(keys@);
        }
        let mut sorted: Vec<SmtStrategyLatency> = Vec::new();
        let mut k: usize = 0;
        while k < order.len()
            invariant
                keys@ == latency_keys(self.strategies@),
                order@ == stable_desc_order(keys@),
                order@.len() == self.strategies@.len(),
                forall|a: int| 0 <= a < order@.len() ==> order@[a] < self.strategies@.len(),
                k <= order.len(),
                sorted@ == by_descending_latency(self.strategies@).take(k as int),
            decreases order.len() - k,
        {
            sorted.push(copy_latency(&self.strategies[order[k]]));
            assert(sorted@ =~= by_descending_latency(self.strategies@).take(k + 1));
            k = k + 1;
        }
        assert(sorted@ =~= by_descending_latency(self.strategies@));
        assert forall|a: int, b: int| 0 <= a < b < sorted@.len() implies sorted@[a].avg_micros
            >= sorted@[b].avg_micros by {
            assert(crate::order::goes_before(keys@, order@[a] as int, order@[b] as int));
        }
        assert(forall|a: int|
            0 <= a < sorted@.len() ==> #[trigger] sorted@[a] == self.strategies@[order@[a] as int]);
        sorted
    }
}

/// The upper bound that a strategy puts on each operand of the addition it checks (both
/// operands are also at least 0).
pub open spec fn operand_bound(strategy: SmtProofStrategy) -> u64 {
    match strategy {
        SmtProofStrategy::UnconstrainedOverflow => u64::MAX,
        SmtProofStrategy::BoundedDomainOverflow => 5_000_000_000u64,
        SmtProofStrategy::SmallDomainOverflow => 10_000u64,
    }
}

/// The upper bound that `strategy` puts on each operand of the checked addition; the query
/// then asks whether the sum can exceed `u64::MAX`.
pub fn strategy_operand_bound(strategy: SmtProofStrategy) -> (bound: u64)
    ensures
        bound == operand_bound(strategy),
{
    match strategy {
        SmtProofStrategy::UnconstrainedOverflow => u64::MAX,
        SmtProofStrategy::BoundedDomainOverflow => 5_000_000_000u64,
        SmtProofStrategy::SmallDomainOverflow => 10_000u64,
    }
}

/// The strategies that the latency benchmark measures, in order.
pub fn benchmark_strategies() -> (strategies: Vec<SmtProofStrategy>)
    ensures
        strategies@ == seq![
            SmtProofStrategy::UnconstrainedOverflow,
            SmtProofStrategy::BoundedDomainOverflow,
            SmtProofStrategy::SmallDomainOverflow,
        ],
{
    let mut strategies: Vec<SmtProofStrategy> = Vec::new();
    strategies.push(SmtProofStrategy::UnconstrainedOverflow);
    strategies.push(SmtProofStrategy::BoundedDomainOverflow);
    strategies.push(SmtProofStrategy::SmallDomainOverflow);
    strategies
}

/// The number of iterations the benchmark runs per strategy: as requested, but at least one.
pub fn benchmark_iterations(iterations_per_strategy: usize) -> (n: usize)
    ensures
        n == if iterations_per_strategy >= 1 {
            iterations_per_strategy
        } else {
            1
        },
{
    if iterations_per_strategy >= 1 {
        iterations_per_strategy
    } else {
        1
    }
}

/// The issue raised for the addition in `fn_name` at `location`, when the solver found a
/// model in which the sum exceeds `u64::MAX` (`overflow_possible`); none otherwise.
pub fn addition_overflow_issue(fn_name: &str, location: &str, overflow_possible: bool) -> (issue:
    Option<SmtInvariantIssue>)
    ensures
        overflow_possible <==> issue is Some,
        issue matches Some(i) ==> {
            &&& i.function_name@ == fn_name@
            &&& i.location@ == location@
            &&& i.description@ == "SMT Solver (Z3) proved that this addition can overflow u64 bounds."@
        },
{
    if overflow_possible {
        Some(
            SmtInvariantIssue {
                function_name: fn_name.to_owned(),
                description: String::from_str(
                    "SMT Solver (Z3) proved that this addition can overflow u64 bounds.",
                ),
                location: location.to_owned(),
            },
        )
    } else {
        None
    }
}

/// The sum of the samples.
pub open spec fn total(s: Seq<u128>) -> int
    decreases s.len(),
{
    if s.len() == 0 {
        0
    } else {
        total(s.drop_last()) + s.last()
    }
}

/// The samples in ascending order.
pub open spec fn ascending(s: Seq<u128>) -> Seq<u128> {
    stable_desc_order(s.map_values(|x: u128| (x, 0u128))).map_values(|i: usize| s[i as int]).reverse()
}

/// The latency statistics of `strategy` from its samples: fastest, slowest, mean (rounded
/// down) and the sample at `p95_index` of the samples in ascending order.
pub fn summarize_samples(
    strategy: SmtProofStrategy,
    runs: usize,
    samples: &Vec<u128>,
    p95_index: usize,
) -> (l: SmtStrategyLatency)
    requires
        samples@.len() > 0,
        p95_index < samples@.len(),
        total(samples@) <= u128::MAX,
    ensures
        l.strategy == strategy,
        l.runs == runs,
        l.min_micros == ascending(samples@)[0],
        l.max_micros == ascending(samples@)[samples@.len() - 1],
        l.avg_micros == total(samples@) / (samples@.len() as int),
        l.p95_micros == ascending(samples@)[p95_index as int],
{
    let n = samples.len();
    let mut keys: Vec<(u128, u128)> = Vec::new();
    let mut sum: u128 = 0;
    let mut i: usize = 0;
    assert(samples@.take(0) =~= Seq::<u128>::empty());
    while i < n
        invariant
            n == samples.len(),
            i <= n,
            keys@ == samples@.map_values(|x: u128| (x, 0u128)).take(i as int),
            sum == total(samples@.take(i as int)),
            total(samples@) <= u128::MAX,
        decreases n - i,
    {
        assert(samples@.take(i + 1).drop_last() =~= samples@.take(i as int));
        proof {
            lemma_total_prefix_bounded(samples@, (i + 1) as int);
        }
        sum = sum + samples[i];
        keys.push((samples[i], 0));
        assert(keys@ =~= samples@.map_values(|x: u128| (x, 0u128)).take(i + 1));
        i = i + 1;
    }
    assert(samples@.take(n as int) =~= samples@);
    assert(keys@ =~= samples@.map_values(|x: u128| (x, 0u128)));
    let order = stable_desc_order_of(&keys);
    proof {
        law_stable_desc_order(keys@);
    }
    let ghost desc = stable_desc_order(keys@).map_values(|j: usize| samples@[j as int]);
    let mut asc: Vec<u128> = Vec::new();
    let mut k: usize = n;
    while k > 0
        invariant
            n == samples.len(),
            order@ == stable_desc_order(keys@),
            order@.len() == n,
            forall|a: int| 0 <= a < n ==> order@[a] < n,
            desc == order@.map_values(|j: usize| samples@[j as int]),
            k <= n,
            asc@ == desc.reverse().take(n - k),
        decreases k,
    {
        asc.push(samples[order[k - 1]]);
        assert(asc@ =~= desc.reverse().take(n - k + 1));
        k = k - 1;
    }
    assert(asc@ =~= ascending(samples@));
    let count = n as u128;
    SmtStrategyLatency {
        strategy,
        runs,
        min_micros: asc[0],
        max_micros: asc[n - 1],
        avg_micros: sum / count,
        p95_micros: asc[p95_index],
    }
}

/// The samples in ascending order are the samples rearranged, in non-decreasing order.
pub proof fn law_ascending(s: Seq<u128>)
    requires
        s.len() <= usize::MAX,
    ensures
        ascending(s).len() == s.len(),
        forall|a: int, b: int| 0 <= a < b < s.len() ==> ascending(s)[a] <= ascending(s)[b],
        exists|p: Seq<usize>|
            is_index_permutation(p, s.len()) && forall|a: int|
                0 <= a < s.len() ==> #[trigger] ascending(s)[a] == s[p[a] as int],
{
    let keys = s.map_values(|x: u128| (x, 0u128));
    law_stable_desc_order(keys);
    let order = stable_desc_order(keys);
    let n = s.len();
    let p = order.reverse();
    assert forall|a: int, b: int| 0 <= a < b < n implies ascending(s)[a] <= ascending(s)[b] by {
        assert(crate::order::goes_before(keys, order[n - 1 - b] as int, order[n - 1 - a] as int));
    }
    assert(is_index_permutation(p, n)) by {
        assert forall|a: int| 0 <= a < p.len() implies p[a] < n by {
            assert(p[a] == order[n - 1 - a]);
        }
        assert forall|k: usize| k < n implies #[trigger] p.contains(k) by {
            assert(order.contains(k));
            let m = choose|m: int| 0 <= m < order.len() && order[m] == k;
            assert(p[n - 1 - m] == k);
        }
        assert forall|a: int, b: int| 0 <= a < b < p.len() implies p[a] != p[b] by {
            assert(p[a] == order[n - 1 - a] && p[b] == order[n - 1 - b]);
        }
    }
    assert(forall|a: int| 0 <= a < n ==> #[trigger] ascending(s)[a] == s[p[a] as int]);
}

proof fn lemma_total_prefix_bounded(s: Seq<u128>, k: int)
    requires
        0 <= k <= s.len(),
    ensures
        0 <= total(s.take(k)) <= total(s),
    decreases s.len(),
{
    if s.len() > 0 {
        if k == s.len() {
            assert(s.take(k) =~= s);
            lemma_total_prefix_bounded(s.drop_last(), k - 1);
        } else {
            assert(s.drop_last().take(k) =~= s.take(k));
            lemma_total_prefix_bounded(s.drop_last(), k);
        }
    }
}


/// The entries are already in non-increasing order of their mean durations.
pub open spec fn is_by_descending_latency(s: Seq<SmtStrategyLatency>) -> bool {
    forall|a: int, b: int| 0 <= a < b < s.len() ==> s[a].avg_micros >= s[b].avg_micros
}

/// Ordering entries that are already ordered by descending mean duration leaves them as they
/// are, in the same order.
pub proof fn law_ordered_latencies_stay(s: Seq<SmtStrategyLatency>)
    requires
        s.len() <= usize::MAX,
        is_by_descending_latency(s),
    ensures
        by_descending_latency(s) == s,
{
    let keys = latency_keys(s);
    let n = s.len();
    law_stable_desc_order(keys);
    let identity = Seq::new(n, |i: int| i as usize);
    assert(is_index_permutation(identity, n)) by {
        assert forall|k: usize| k < n implies #[trigger] identity.contains(k) by {
            assert(identity[k as int] == k);
        }
    }
    assert(sorted_by_key(keys, identity)) by {
        assert forall|a: int, b: int| 0 <= a < b < identity.len() implies goes_before(
            keys,
            identity[a] as int,
            identity[b] as int,
        ) by {
            assert(s[a].avg_micros >= s[b].avg_micros);
        }
    }
    lemma_sorted_permutation_unique(keys, identity, stable_desc_order(keys));
    assert(by_descending_latency(s) =~= s);
}

/// Ordering by descending mean duration twice gives what ordering once gives.
pub proof fn law_ordering_latencies_is_idempotent(s: Seq<SmtStrategyLatency>)
    requires
        s.len() <= usize::MAX,
    ensures
        by_descending_latency(by_descending_latency(s)) == by_descending_latency(s),
{
    let keys = latency_keys(s);
    law_stable_desc_order(keys);
    let order = stable_desc_order(keys);
    let sorted = by_descending_latency(s);
    assert(is_by_descending_latency(sorted)) by {
        assert forall|a: int, b: int| 0 <= a < b < sorted.len() implies sorted[a].avg_micros
            >= sorted[b].avg_micros by {
            assert(goes_before(keys, order[a] as int, order[b] as int));
        }
    }
    law_ordered_latencies_stay(sorted);
}


/// Every sample lies between the first and the last of the samples in ascending order, and
/// both of those are samples: the fastest and slowest run that `summarize_samples` reports
/// bound every run.
pub proof fn law_min_and_max_bound_every_sample(s: Seq<u128>)
    requires
        0 < s.len() <= usize::MAX,
    ensures
        forall|k: int| 0 <= k < s.len() ==> ascending(s)[0] <= #[trigger] s[k] <= ascending(s)[s.len() - 1],
        exists|k: int| 0 <= k < s.len() && s[k] == ascending(s)[0],
        exists|k: int| 0 <= k < s.len() && s[k] == ascending(s)[s.len() - 1],
{
    law_ascending(s);
    let n = s.len();
    let p = choose|p: Seq<usize>|
        is_index_permutation(p, s.len()) && forall|a: int|
            0 <= a < s.len() ==> #[trigger] ascending(s)[a] == s[p[a] as int];
    assert forall|k: int| 0 <= k < n implies ascending(s)[0] <= #[trigger] s[k] <= ascending(s)[n - 1] by {
        assert(p.contains(k as usize));
        let a = choose|a: int| 0 <= a < p.len() && p[a] == k as usize;
        assert(ascending(s)[a] == s[k]);
        if a > 0 {
            assert(ascending(s)[0] <= ascending(s)[a]);
        }
        if a < n - 1 {
            assert(ascending(s)[a] <= ascending(s)[n - 1]);
        }
    }
    assert(s[p[0] as int] == ascending(s)[0]);
    assert(s[p[n - 1] as int] == ascending(s)[n - 1]);
}

} // verus!
