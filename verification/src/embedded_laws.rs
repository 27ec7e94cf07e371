//! How budgets are shared out, and what a runtime comes to.

use vstd::prelude::*;

use crate::embedded::{
    next_state, path_below, ram_plan, resized_cache, ssd_plan, state_after, stripes_of, tier_on_ssd,
    EmbeddedTelemetryConfig, EmbeddedTelemetryState, LifecycleEvent, ObjectTierConfig,
    SsdCacheConfig, SsdPlan,
};

verus! {

/// Whether a part is a share of a whole: so many of `parts` equal pieces, rounded
/// down.
pub open spec fn is_share(part: int, whole: int, pieces: int, parts: int) -> bool {
    &&& part * parts <= whole * pieces
    &&& whole * pieces < (part + 1) * parts
}

proof fn lemma_share(whole: int, pieces: int, parts: int)
    requires
        parts > 0,
    ensures
        is_share((whole * pieces) / parts, whole, pieces, parts),
{
    let product = whole * pieces;
    assert((product / parts) * parts <= product < (product / parts + 1) * parts)
        by (nonlinear_arith)
        requires
            parts > 0,
    ;
}

proof fn lemma_twice(whole: int, a: int, b: int)
    requires
        whole >= 0,
        a > 0,
        b > 0,
    ensures
        whole / a / b >= 0,
        (whole / a / b) * (a * b) <= whole,
        whole < (whole / a / b + 1) * (a * b),
{
    let first = whole / a;
    let second = first / b;
    assert(first * a <= whole && whole <= first * a + a - 1 && first >= 0) by (nonlinear_arith)
        requires
            first == whole / a,
            a > 0,
            whole >= 0,
    ;
    assert(second * b <= first && first <= second * b + b - 1 && second >= 0) by (nonlinear_arith)
        requires
            second == first / b,
            b > 0,
            first >= 0,
    ;
    assert(second * (a * b) <= whole && whole < (second + 1) * (a * b)) by (nonlinear_arith)
        requires
            first * a <= whole,
            whole <= first * a + a - 1,
            second * b <= first,
            first <= second * b + b - 1,
            a > 0,
            b > 0,
    ;
}

/// Of a RAM budget two thirds go to the heads: an eighth of them to the logs, a
/// quarter to the traces, the rest to the metrics. A twelfth goes to the
/// dictionaries. Of what is left a quarter goes to the control cache, a quarter of
/// that to its parsed entries, and the rest to the payload cache.
pub proof fn ram_is_shared_out(max_bytes: u64, stripes: int)
    requires
        stripes >= 1,
        max_bytes * 2 <= u64::MAX,
        max_bytes >= 12 * stripes,
    ensures
        ({
            let plan = ram_plan(max_bytes, stripes);
            let heads = plan.logs + plan.traces + plan.metrics;
            let left = max_bytes - stripes * heads - stripes * plan.dictionaries;
            let control = left - plan.payload;
            &&& is_share(heads, max_bytes as int, 2, 3 * stripes)
            &&& is_share(plan.logs, heads, 1, 8)
            &&& is_share(plan.traces, heads, 1, 4)
            &&& is_share(plan.dictionaries, max_bytes as int, 1, 12 * stripes)
            &&& left >= 0
            &&& is_share(control, left, 1, 4)
            &&& is_share(plan.control, control, 3, 4)
            &&& is_share(plan.parsed, control, 1, 4)
        }),
{
    let plan = ram_plan(max_bytes, stripes);
    let head = max_bytes * 2 / 3 / stripes;
    lemma_twice(max_bytes * 2, 3, stripes);
    lemma_twice(max_bytes as int, 12, stripes);
    let dictionaries = max_bytes as int / 12 / stripes;
    assert(head >= 8) by (nonlinear_arith)
        requires
            max_bytes * 2 < (head + 1) * (3 * stripes),
            max_bytes >= 12 * stripes,
            stripes >= 1,
    ;
    assert(dictionaries >= 1) by (nonlinear_arith)
        requires
            max_bytes < (dictionaries + 1) * (12 * stripes),
            max_bytes >= 12 * stripes,
            stripes >= 1,
    ;
    assert(plan.logs == head / 8 && plan.traces == head / 4);
    assert(plan.metrics == head - head / 8 - head / 4);
    assert(plan.logs + plan.traces + plan.metrics == head);
    assert(plan.dictionaries == dictionaries);
    assert(stripes * head >= 0 && stripes * head * 3 <= max_bytes * 2) by (nonlinear_arith)
        requires
            head * (3 * stripes) <= max_bytes * 2,
            head >= 8,
            stripes >= 1,
    ;
    assert(stripes * dictionaries >= 0 && stripes * dictionaries * 12 <= max_bytes)
        by (nonlinear_arith)
        requires
            dictionaries * (12 * stripes) <= max_bytes,
            dictionaries >= 1,
            stripes >= 1,
    ;
    assert(head <= stripes * head) by (nonlinear_arith)
        requires
            head >= 8,
            stripes >= 1,
    ;
    let left = max_bytes - stripes * head - stripes * dictionaries;
    assert(left >= 0);
    assert(plan.payload == left - left / 4);
    assert(plan.control == (left / 4) * 3 / 4);
}

/// Of an SSD budget a sixteenth goes to the rollups. Before remote objects an eighth
/// of the rest goes to the control cache and what is left to the payload cache;
/// before local ones each cache has a sixteenth, and three quarters are shared by
/// the three catalogs of every partition.
pub proof fn ssd_is_shared_out(max_bytes: u64, remote: bool, tenant_partitions: u32)
    requires
        max_bytes * 3 <= u64::MAX,
        tenant_partitions > 0,
        max_bytes >= 16,
        max_bytes >= 4 * tenant_partitions,
    ensures
        ({
            let plan = ssd_plan(max_bytes, remote, tenant_partitions);
            &&& is_share(plan.rollups, max_bytes as int, 1, 16)
            &&& remote ==> plan.per_partition is None && is_share(
                plan.control,
                max_bytes - plan.rollups,
                1,
                8,
            ) && plan.rollups + plan.control + plan.payload == max_bytes
            &&& !remote ==> is_share(plan.control, max_bytes as int, 1, 16) && is_share(
                plan.payload,
                max_bytes as int,
                1,
                16,
            ) && (plan.per_partition matches Some(bytes) && is_share(
                bytes,
                max_bytes as int,
                3,
                4 * (3 * tenant_partitions),
            ))
        }),
{
    let plan = ssd_plan(max_bytes, remote, tenant_partitions);
    if !remote {
        let catalogs = tenant_partitions * 3;
        lemma_twice(max_bytes * 3, 4, catalogs);
        let bytes = max_bytes * 3 / 4 / catalogs;
        assert(bytes >= 1) by (nonlinear_arith)
            requires
                max_bytes * 3 < (bytes + 1) * (4 * catalogs),
                max_bytes * 3 >= 4 * catalogs,
                catalogs >= 1,
        ;
        assert(plan.per_partition == Some(bytes));
    }
}

/// The stripes that share a budget are as many as the shards or the partitions,
/// whichever are fewer, and at least one.
pub proof fn stripes_are_the_fewer(shard_count: u32, tenant_partitions: u32)
    ensures
        stripes_of(shard_count, tenant_partitions) >= 1,
        shard_count > 0 ==> stripes_of(shard_count, tenant_partitions) <= shard_count,
        tenant_partitions > 0 ==> stripes_of(shard_count, tenant_partitions) <= tenant_partitions,
        stripes_of(shard_count, tenant_partitions) == shard_count || stripes_of(
            shard_count,
            tenant_partitions,
        ) == tenant_partitions || shard_count == 0 || tenant_partitions == 0,
{
}

/// A resized cache has the size that it was given, its chunks fit it and its reads
/// hold a chunk; what fits is left as it was.
pub proof fn resized_caches_hold_their_chunks(config: SsdCacheConfig, max_bytes: int)
    requires
        1 <= max_bytes <= u64::MAX,
    ensures
        ({
            let resized = resized_cache(config, max_bytes);
            &&& resized.max_bytes == max_bytes
            &&& 1 <= resized.chunk_bytes <= resized.max_bytes
            &&& resized.chunk_bytes <= resized.max_read_bytes
            &&& 1 <= config.chunk_bytes <= max_bytes ==> resized.chunk_bytes == config.chunk_bytes
            &&& config.chunk_bytes > max_bytes ==> resized.chunk_bytes == max_bytes
            &&& config.max_read_bytes >= resized.chunk_bytes ==> resized.max_read_bytes
                == config.max_read_bytes
            &&& resized.memory_bytes == config.memory_bytes
            &&& resized.parsed_memory_bytes == config.parsed_memory_bytes
        }),
{
}

/// A group of objects fits the share of its partition, and its target half of a
/// group; targets and groups that fit are left as they were.
pub proof fn groups_fit_their_partition(tier: ObjectTierConfig, plan: SsdPlan)
    requires
        plan.per_partition matches Some(bytes) ==> 1 <= bytes <= u64::MAX,
    ensures
        plan.per_partition is None ==> tier_on_ssd(tier, plan) == tier,
        plan.per_partition matches Some(bytes) ==> {
            let sized = tier_on_ssd(tier, plan);
            &&& sized.max_group_payload_bytes <= bytes
            &&& sized.max_group_payload_bytes <= tier.max_group_payload_bytes
            &&& sized.max_group_payload_bytes == bytes || sized.max_group_payload_bytes
                == tier.max_group_payload_bytes
            &&& sized.target_group_payload_bytes <= tier.target_group_payload_bytes
            &&& sized.max_group_payload_bytes >= 2 ==> sized.target_group_payload_bytes * 2
                <= sized.max_group_payload_bytes
            &&& tier.target_group_payload_bytes * 2 <= sized.max_group_payload_bytes
                ==> sized.target_group_payload_bytes == tier.target_group_payload_bytes
            &&& sized.retirement_grace == tier.retirement_grace
        },
{
}

/// A path below a directory starts with the directory and ends with the name, with
/// one separator between them; where there is no directory it is the name.
pub proof fn paths_end_with_their_name(directory: Seq<char>, leaf: Seq<char>)
    ensures
        ({
            let path = path_below(directory, leaf);
            let start = path.len() - leaf.len();
            &&& path.skip(start) == leaf
            &&& directory.len() == 0 ==> path == leaf
            &&& directory.len() > 0 ==> start >= 1 && path[start - 1] == '/' && path.take(
                directory.len() as int,
            ) == directory && start <= directory.len() + 1
            &&& directory.len() > 0 && directory.last() == '/' ==> start == directory.len()
        }),
{
    let path = path_below(directory, leaf);
    let start = path.len() - leaf.len();
    assert(path.skip(start) =~= leaf);
    if directory.len() == 0 {
        assert(path =~= leaf);
    } else {
        assert(path.take(directory.len() as int) =~= directory);
    }
}

/// RAM that the components of a configuration take together.
pub open spec fn ram_taken(config: EmbeddedTelemetryConfig) -> int {
    let limits = config.local_limits;
    let heads = limits.signals.logs.head_memory_bytes_per_stripe
        + limits.signals.traces.head_memory_bytes_per_stripe
        + limits.signals.metrics.head_memory_bytes_per_stripe;
    heads * config.stripes() + config.store.stripe.dictionary_cache_bytes * config.stripes()
        + limits.control_cache.memory_bytes + limits.control_cache.parsed_memory_bytes
        + limits.payload_cache.memory_bytes + limits.payload_cache.parsed_memory_bytes
}

/// SSD bytes that the components of a configuration take together: three catalogs of
/// every partition where objects are kept locally, and rollups where there are any.
pub open spec fn ssd_taken(config: EmbeddedTelemetryConfig) -> int {
    let limits = config.local_limits;
    limits.control_cache.max_bytes + limits.payload_cache.max_bytes + (
    match limits.max_object_payload_bytes_per_partition {
        Some(bytes) => bytes * (config.store.tenant_partitions * 3),
        None => 0int,
    }) + (match limits.max_lifetime_rollup_series {
        Some(_) => limits.max_lifetime_rollup_bytes as int,
        None => 0int,
    })
}

proof fn lemma_ram(config: EmbeddedTelemetryConfig, max: int)
    requires
        0 <= max < u64::MAX,
    ensures
        config.ram_total() <= max <==> ram_taken(config) <= max,
{
    let limits = config.local_limits;
    let stripes = config.stripes();
    let three = limits.signals.logs.head_memory_bytes_per_stripe
        + limits.signals.traces.head_memory_bytes_per_stripe
        + limits.signals.metrics.head_memory_bytes_per_stripe;
    let dictionary = config.store.stripe.dictionary_cache_bytes as int;
    assert(stripes >= 1);
    assert(three * stripes >= three && dictionary * stripes >= 0) by (nonlinear_arith)
        requires
            stripes >= 1,
            three >= 0,
            dictionary >= 0,
    ;
    if three > u64::MAX {
        assert(u64::MAX * stripes >= u64::MAX) by (nonlinear_arith)
            requires
                stripes >= 1,
        ;
    }
}

proof fn lemma_ssd(config: EmbeddedTelemetryConfig, max: int)
    requires
        0 <= max < u64::MAX,
    ensures
        config.ssd_total() <= max <==> ssd_taken(config) <= max,
{
    if let Some(bytes) = config.local_limits.max_object_payload_bytes_per_partition {
        let catalogs = config.store.tenant_partitions * 3;
        assert(bytes * catalogs >= 0) by (nonlinear_arith)
            requires
                catalogs >= 0,
                bytes >= 0,
        ;
    }
}

/// A configuration is accepted exactly where its flush may take time, its budgets are
/// not empty and its components fit them.
pub proof fn accepted_configurations_fit_their_budgets(config: EmbeddedTelemetryConfig)
    requires
        config.max_ram_bytes != Some(u64::MAX),
        config.max_ssd_bytes != Some(u64::MAX),
    ensures
        config.complaint() is None <==> config.shutdown_flush_timeout.nanos > 0 && (
        config.max_ram_bytes matches Some(max) ==> 0 < max && ram_taken(config) <= max) && (
        config.max_ssd_bytes matches Some(max) ==> 0 < max && ssd_taken(config) <= max),
{
    if let Some(max) = config.max_ram_bytes {
        lemma_ram(config, max as int);
    }
    if let Some(max) = config.max_ssd_bytes {
        lemma_ssd(config, max as int);
    }
}

/// Whether a drain was followed by a flush that succeeded.
pub open spec fn flushed_after_drain(events: Seq<LifecycleEvent>) -> bool {
    exists|i: int, j: int|
        0 <= i < j < events.len() && #[trigger] events[i] == LifecycleEvent::Drain
            && #[trigger] events[j] == LifecycleEvent::Flushed(true)
}

/// A runtime that waits for attachment becomes ready when it is marked so, as long as
/// nothing drained it; it drains from the first drain on, and stops when a flush
/// behind that succeeds.
pub proof fn lifecycles_follow_their_events(events: Seq<LifecycleEvent>)
    ensures
        ({
            let state = state_after(EmbeddedTelemetryState::AwaitingAttachment, events);
            let marked = events.contains(LifecycleEvent::MarkReady);
            let drained = events.contains(LifecycleEvent::Drain);
            &&& state == EmbeddedTelemetryState::AwaitingAttachment <==> !marked && !drained
            &&& state == EmbeddedTelemetryState::Ready <==> marked && !drained
            &&& state == EmbeddedTelemetryState::Draining <==> drained && !flushed_after_drain(
                events,
            )
            &&& state == EmbeddedTelemetryState::Stopped <==> flushed_after_drain(events)
        }),
    decreases events.len(),
{
    if events.len() > 0 {
        let earlier = events.drop_last();
        let event = events.last();
        let last = events.len() - 1;
        lifecycles_follow_their_events(earlier);
        assert(forall|i: int| 0 <= i < last ==> earlier[i] == #[trigger] events[i]);
        assert(events[last] == event);
        assert(events.contains(LifecycleEvent::MarkReady) <==> earlier.contains(
            LifecycleEvent::MarkReady,
        ) || event == LifecycleEvent::MarkReady) by {
            lemma_contains(events, LifecycleEvent::MarkReady);
        }
        assert(events.contains(LifecycleEvent::Drain) <==> earlier.contains(LifecycleEvent::Drain)
            || event == LifecycleEvent::Drain) by {
            lemma_contains(events, LifecycleEvent::Drain);
        }
        if flushed_after_drain(earlier) {
            let (i, j) = choose|i: int, j: int|
                0 <= i < j < earlier.len() && #[trigger] earlier[i] == LifecycleEvent::Drain
                    && #[trigger] earlier[j] == LifecycleEvent::Flushed(true);
            assert(events[i] == LifecycleEvent::Drain && events[j] == LifecycleEvent::Flushed(true));
            assert(flushed_after_drain(events));
            assert(earlier.contains(LifecycleEvent::Drain));
        }
        if event == LifecycleEvent::Flushed(true) && earlier.contains(LifecycleEvent::Drain) {
            let i = choose|i: int| 0 <= i < earlier.len() && earlier[i] == LifecycleEvent::Drain;
            assert(events[i] == LifecycleEvent::Drain && events[last] == LifecycleEvent::Flushed(
                true,
            ));
            assert(flushed_after_drain(events));
        }
        if flushed_after_drain(events) {
            let (i, j) = choose|i: int, j: int|
                0 <= i < j < events.len() && #[trigger] events[i] == LifecycleEvent::Drain
                    && #[trigger] events[j] == LifecycleEvent::Flushed(true);
            assert(earlier[i] == LifecycleEvent::Drain);
            if j < last {
                assert(earlier[j] == LifecycleEvent::Flushed(true));
                assert(flushed_after_drain(earlier));
            }
        }
    }
}

proof fn lemma_contains(events: Seq<LifecycleEvent>, wanted: LifecycleEvent)
    requires
        events.len() > 0,
    ensures
        events.contains(wanted) <==> events.drop_last().contains(wanted) || events.last() == wanted,
{
    let earlier = events.drop_last();
    if events.contains(wanted) {
        let i = choose|i: int| 0 <= i < events.len() && events[i] == wanted;
        if i < earlier.len() {
            assert(earlier[i] == wanted);
        }
    }
    if earlier.contains(wanted) {
        let i = choose|i: int| 0 <= i < earlier.len() && earlier[i] == wanted;
        assert(events[i] == wanted);
    }
    if events.last() == wanted {
        assert(events[events.len() - 1] == wanted);
    }
}

/// The states of a runtime are numbered in the order in which it passes them, each
/// number up to four is that of another state, and every other number is that of a
/// recovering one.
pub proof fn states_are_numbered_in_order(value: u8, other: u8)
    ensures
        EmbeddedTelemetryState::numbered(0) == EmbeddedTelemetryState::Recovering,
        next_state(EmbeddedTelemetryState::numbered(1), LifecycleEvent::MarkReady)
            == EmbeddedTelemetryState::numbered(2),
        next_state(EmbeddedTelemetryState::numbered(2), LifecycleEvent::Drain)
            == EmbeddedTelemetryState::numbered(3),
        next_state(EmbeddedTelemetryState::numbered(3), LifecycleEvent::Flushed(true))
            == EmbeddedTelemetryState::numbered(4),
        value < other <= 4 ==> EmbeddedTelemetryState::numbered(value)
            != EmbeddedTelemetryState::numbered(other),
        value > 4 ==> EmbeddedTelemetryState::numbered(value)
            == EmbeddedTelemetryState::Recovering,
{
}

} // verus!
