//! Decisions: who is served first, what counts as well, and what is let go.

use crate::exact::Valued;
use crate::inference::batch::{Priority, RequestView};
use crate::inference::versioning::{
    FallbackStrategy, LatencyMath, ModelStats, ModelVersion, VersionedModelEntry,
    VersioningConfig,
};
use crate::number::{Double, Single};
use vstd::prelude::*;

verus! {

/// Nothing waits before what is more urgent, and what is as urgent is served in
/// the order in which it came.
pub proof fn urgent_requests_come_first(queue: Seq<RequestView>, i: int, j: int)
    requires
        crate::inference::batch::by_priority(queue),
        0 <= i < j < queue.len(),
    ensures
        queue[j].priority is Critical ==> queue[i].priority is Critical,
        queue[j].priority is High ==> queue[i].priority is Critical || queue[i].priority is High,
        queue[j].priority is Normal ==> !(queue[i].priority is Low),
        queue[i].priority is Low ==> queue[j].priority is Low,
        queue[i].priority == queue[j].priority ==> queue[i].id < queue[j].id,
{
    assert(crate::inference::batch::goes_before(queue[i], queue[j]));
}

/// A request joins behind all that are as urgent as it is, and before all that
/// are less so.
pub proof fn requests_join_behind_their_equals(queue: Seq<RequestView>, priority: Priority, i: int)
    requires
        crate::inference::batch::by_priority(queue),
        0 <= i < queue.len(),
    ensures
        crate::inference::batch::join_place(queue, priority, 0) <= queue.len(),
        queue[i].priority == priority ==> i < crate::inference::batch::join_place(
            queue,
            priority,
            0,
        ),
        queue[i].priority is Critical ==> i < crate::inference::batch::join_place(
            queue,
            priority,
            0,
        ),
        queue[i].priority is Low && !(priority is Low) ==> i
            >= crate::inference::batch::join_place(queue, priority, 0),
{
    joins(queue, priority, 0, i);
}

proof fn joins(queue: Seq<RequestView>, priority: Priority, from: nat, i: int)
    requires
        crate::inference::batch::by_priority(queue),
        0 <= i < queue.len(),
        from <= queue.len(),
        queue[i].priority is Low && !(priority is Low) ==> from <= i || i
            >= crate::inference::batch::join_place(queue, priority, from),
    ensures
        from <= crate::inference::batch::join_place(queue, priority, from) <= queue.len(),
        queue[i].priority == priority ==> i < crate::inference::batch::join_place(
            queue,
            priority,
            from,
        ),
        queue[i].priority is Critical ==> i < crate::inference::batch::join_place(
            queue,
            priority,
            from,
        ),
        queue[i].priority is Low && !(priority is Low) ==> i
            >= crate::inference::batch::join_place(queue, priority, from),
    decreases queue.len() - from,
{
    if from < queue.len() {
        if i > from {
            assert(crate::inference::batch::goes_before(queue[from as int], queue[i]));
        }
        if i < from {
            assert(crate::inference::batch::goes_before(queue[i], queue[from as int]));
        }
        if queue[from as int].priority.rank() >= priority.rank() {
            joins(queue, priority, from + 1, i);
        }
    }
}

/// A model is unhealthy where errors are more often than allowed, degraded where
/// it only takes longer than allowed, and healthy where neither holds.
pub proof fn health_goes_by_the_limits(config: VersioningConfig, rate: Double, latency: Double)
    requires
        config.max_error_rate.sound(),
        config.max_latency_ms.sound(),
        rate.sound(),
        latency.sound(),
    ensures
        ({
            let status = crate::inference::versioning::status_of(config, rate, latency);
            let failing = rate.value() > config.max_error_rate.value();
            let slow = latency.value() > config.max_latency_ms.value();
            &&& status is Unhealthy <==> failing
            &&& status is Degraded <==> !failing && slow
            &&& status is Healthy <==> !failing && !slow
        }),
{
    crate::exact::doubles_stand_for_reals(config.max_error_rate, rate);
    crate::exact::doubles_stand_for_reals(config.max_latency_ms, latency);
}

/// Whether latencies are added up and divided without loss.
pub open spec fn counts_exactly<L: LatencyMath>(l: &L) -> bool {
    &&& forall|a: Double, b: Double, r: Double| #[trigger]
        call_ensures(L::sum, (l, a, b), r) ==> r.value() == a.value() + b.value()
    &&& forall|a: Double, n: usize, r: Double| #[trigger]
        call_ensures(L::mean, (l, a, n), r) && n > 0 ==> r.value() * (n as int as real)
            == a.value()
    &&& forall|m: usize, n: usize, r: Double| #[trigger]
        call_ensures(L::ratio, (l, m, n), r) && n > 0 ==> r.value() * (n as int as real)
            == m as int as real
}

/// Recording a request moves the average latency towards it: the averages before
/// and after, each as often as there were requests, differ by its latency, and
/// so do the error rates by one for an error.
pub proof fn records_enter_the_averages<L: LatencyMath>(
    l: L,
    before: ModelStats,
    after: ModelStats,
    latency: Double,
    is_error: bool,
    averages: (Double, Double),
    rates: (Double, Double),
)
    requires
        counts_exactly(&l),
        before.total_requests > 0,
        before.records(l, latency, is_error, &after),
        before.is_latency(l, averages.0),
        after.is_latency(l, averages.1),
        before.is_rate(l, rates.0),
        after.is_rate(l, rates.1),
    ensures
        averages.1.value() * ((before.total_requests + 1) as real) == averages.0.value() * (
        before.total_requests as int as real) + latency.value(),
        is_error ==> rates.1.value() * ((before.total_requests + 1) as real) == rates.0.value() * (
        before.total_requests as int as real) + 1real,
        !is_error ==> rates.1.value() * ((before.total_requests + 1) as real) == rates.0.value() * (
        before.total_requests as int as real),
{
    assert(after.total_requests == before.total_requests + 1);
}

/// Nothing newer than the current version stands in for it, nor the version
/// itself, and where it is to be a stable one nothing else does.
pub proof fn older_versions_stand_in(
    strategy: FallbackStrategy,
    entry: VersionedModelEntry,
    current: ModelVersion,
)
    requires
        crate::inference::versioning::can_replace(strategy, entry, current),
    ensures
        entry.metadata.version != current,
        entry.metadata.version.major <= current.major,
        entry.metadata.version.major == current.major ==> entry.metadata.version.minor
            <= current.minor,
        strategy is PreviousStable ==> entry.is_stable,
        strategy is PreviousStable || strategy is NextVersion,
{
}

/// What is nearer to zero than the threshold becomes zero, and all else is kept.
pub proof fn small_values_are_dropped(x: Single, threshold: Single)
    requires
        x.sound(),
        threshold.sound(),
    ensures
        ({
            let r = crate::inference::engine::prune_value(x, threshold);
            &&& -threshold.value() < x.value() < threshold.value() ==> r.value() == 0real
            &&& !(-threshold.value() < x.value() < threshold.value()) ==> r == x
        }),
{
    let zero = Single { bits: 0 };
    crate::exact::singles_stand_for_reals(zero, zero);
    crate::exact::singles_stand_for_reals(x, x);
    crate::exact::singles_stand_for_reals(x.absolute(), threshold);
}

/// A value is kept in a sparse table where it is farther from zero than the
/// threshold.
pub proof fn large_values_are_kept(x: Single, threshold: Single)
    requires
        x.sound(),
        threshold.sound(),
    ensures
        crate::inference::compression::is_kept(x, threshold) <==> x.value() > threshold.value()
            || -x.value() > threshold.value(),
{
    crate::exact::singles_stand_for_reals(x, x);
    crate::exact::singles_stand_for_reals(threshold, x.absolute());
}

/// A temperature scales logits where it is more than a millionth off one.
pub proof fn only_one_leaves_logits_alone(temperature: Single)
    requires
        temperature.sound(),
    ensures
        crate::inference::engine::is_hot(temperature) <==> crate::exact::distance(
            temperature.value(),
            1real,
        ) * 1000000real > 1real,
{
    let (a, b) = (Single { bits: 0x3f7f_ffef }, Single { bits: 0x3f7f_fff0 });
    let (c, d) = (Single { bits: 0x3f80_0008 }, Single { bits: 0x3f80_0009 });
    vstd::arithmetic::power2::lemma2_to64();
    crate::exact::single_of_parts(a, 24, 0x0100_0000);
    crate::exact::single_of_parts(b, 24, 0x0100_0000);
    crate::exact::single_of_parts(c, 23, 0x0080_0000);
    crate::exact::single_of_parts(d, 23, 0x0080_0000);
    assert(a.value() * 16777216real == 16777199real);
    assert(b.value() * 16777216real == 16777200real);
    assert(c.value() * 8388608real == 8388616real);
    assert(d.value() * 8388608real == 8388617real);
    crate::exact::singles_stand_for_reals(a, temperature);
    crate::exact::singles_stand_for_reals(temperature, b);
    crate::exact::singles_stand_for_reals(c, temperature);
    crate::exact::singles_stand_for_reals(temperature, d);
}

} // verus!
