//! What a correlation index gives back of everything that was indexed.

use vstd::prelude::*;

use crate::correlation::{
    lemma_matching_members, lemma_posted_names, lemma_shortest_in_range, matching, names, ordered,
    posted, selected, shortest, slot_of, wanted, CorrelationConfig, CorrelationPosting, IndexState,
    Slot,
};
use crate::correlation_query::{
    key_parts_identify_the_key, log_index_keys, metric_index_keys, span_index_keys, CorrelationKey,
    CorrelationQuery,
};
use crate::model::{record_order_is_total, record_order_is_transitive, TelemetryRecordRef};
use crate::records::{DurableLog, DurableMetricPoint, DurableSpan};

verus! {

/// One record on its way into an index.
pub struct IndexingStep {
    /// Tenant of the record.
    pub tenant: Seq<char>,
    /// Keys that the record carries.
    pub keys: Seq<CorrelationKey>,
    /// The record and its event time.
    pub posting: CorrelationPosting,
}

/// How `CorrelationIndex::index_log` indexes a log.
pub open spec fn log_step(tenant: Seq<char>, log: DurableLog) -> IndexingStep {
    IndexingStep {
        tenant,
        keys: log_index_keys(log),
        posting: CorrelationPosting {
            record_ref: log.record_ref,
            timestamp_unix_nanos: log.timestamp_unix_nanos,
        },
    }
}

/// How `CorrelationIndex::index_span` indexes a span.
pub open spec fn span_step(span: DurableSpan) -> IndexingStep {
    IndexingStep {
        tenant: span.tenant@,
        keys: span_index_keys(span),
        posting: CorrelationPosting {
            record_ref: span.record_ref,
            timestamp_unix_nanos: span.start_time_unix_nanos,
        },
    }
}

/// How `CorrelationIndex::index_metric` indexes a metric point.
pub open spec fn metric_step(point: DurableMetricPoint) -> IndexingStep {
    IndexingStep {
        tenant: point.identity.tenant@,
        keys: metric_index_keys(point),
        posting: CorrelationPosting {
            record_ref: point.record_ref,
            timestamp_unix_nanos: point.timestamp_unix_nanos,
        },
    }
}

/// What an index holds after one more step.
pub open spec fn recorded(
    state: IndexState,
    config: CorrelationConfig,
    step: IndexingStep,
) -> IndexState {
    state.recording(config, step.tenant, step.keys, step.posting)
}

/// What a new index holds.
pub open spec fn empty_state() -> IndexState {
    IndexState {
        tenants: Seq::empty(),
        postings: Map::empty(),
        refs: 0,
        dropped_postings: 0,
    }
}

/// What an index holds after some steps.
pub open spec fn state_after(config: CorrelationConfig, steps: Seq<IndexingStep>) -> IndexState
    decreases steps.len(),
{
    if steps.len() == 0 {
        empty_state()
    } else {
        state_after(config, steps.drop_last()).recording(
            config,
            steps.last().tenant,
            steps.last().keys,
            steps.last().posting,
        )
    }
}

/// One more step records one more record, as `CorrelationIndex::index_log`,
/// `index_span` and `index_metric` do with the steps of their records.
pub proof fn steps_are_recorded(
    config: CorrelationConfig,
    steps: Seq<IndexingStep>,
    step: IndexingStep,
)
    ensures
        state_after(config, steps.push(step)) == state_after(config, steps).recording(
            config,
            step.tenant,
            step.keys,
            step.posting,
        ),
{
    assert(steps.push(step).drop_last() =~= steps);
}

/// Whether some step indexed a record of a tenant under a key.
pub open spec fn carries(
    steps: Seq<IndexingStep>,
    tenant: Seq<char>,
    key: CorrelationKey,
    record: TelemetryRecordRef,
) -> bool {
    exists|i: int|
        0 <= i < steps.len() && (#[trigger] steps[i]).tenant == tenant && steps[i].keys.contains(
            key,
        ) && steps[i].posting.record_ref == record
}

/// Whether a posting has the signal and the time that a query asks for and comes
/// after its continuation point.
pub open spec fn in_reach(query: CorrelationQuery, posting: CorrelationPosting) -> bool {
    &&& query.after matches Some(after) ==> after.precedes(posting.record_ref)
    &&& query.signal matches Some(signal) ==> posting.record_ref.signal == signal
    &&& query.start_time_unix_nanos matches Some(start) ==> posting.timestamp_unix_nanos >= start
    &&& query.end_time_unix_nanos matches Some(end) ==> posting.timestamp_unix_nanos <= end
}

/// Whether a record was indexed for the tenant of a query, lies within its reach
/// and carries every key of it.
pub open spec fn answers(
    steps: Seq<IndexingStep>,
    query: CorrelationQuery,
    record: TelemetryRecordRef,
) -> bool {
    &&& exists|i: int|
        0 <= i < steps.len() && (#[trigger] steps[i]).tenant == query.tenant@
            && steps[i].posting.record_ref == record && in_reach(query, steps[i].posting)
    &&& forall|i: int|
        0 <= i < query.keys().len() ==> carries(
            steps,
            query.tenant@,
            #[trigger] query.keys()[i],
            record,
        )
}

/// Whether every record was indexed with one event time.
pub open spec fn one_time_each(steps: Seq<IndexingStep>) -> bool {
    forall|i: int, j: int|
        0 <= i < steps.len() && 0 <= j < steps.len() && (#[trigger] steps[i]).posting.record_ref == (
        #[trigger] steps[j]).posting.record_ref ==> steps[i].posting.timestamp_unix_nanos
            == steps[j].posting.timestamp_unix_nanos
}

/// Whether records strictly rise.
pub open spec fn rising(records: Seq<TelemetryRecordRef>) -> bool {
    forall|i: int, j: int|
        0 <= i < j < records.len() ==> (#[trigger] records[i]).precedes(#[trigger] records[j])
}

/// Whether a state holds a posting in a slot.
spec fn holds(state: IndexState, slot: Slot, posting: CorrelationPosting) -> bool {
    state.postings.contains_key(slot) && state.postings[slot].contains(posting)
}

/// Whether every posting list of a state is ordered.
spec fn all_ordered(state: IndexState) -> bool {
    forall|slot: Slot| #[trigger]
        state.postings.contains_key(slot) ==> ordered(state.postings[slot])
}

/// A grown list holds what the list held and the new posting at most, in order.
proof fn lemma_posted_holds(list: Seq<CorrelationPosting>, posting: CorrelationPosting)
    requires
        ordered(list),
    ensures
        ordered(posted(list, posting)),
        forall|held: CorrelationPosting| #[trigger]
            list.contains(held) ==> posted(list, posting).contains(held),
        forall|held: CorrelationPosting| #[trigger]
            posted(list, posting).contains(held) ==> list.contains(held) || held == posting,
    decreases list.len(),
{
    let grown = posted(list, posting);
    if list.len() == 0 {
    } else if list.last().record_ref.precedes(posting.record_ref) {
        assert forall|i: int, j: int| 0 <= i < j < grown.len() implies (
        #[trigger] grown[i]).record_ref.precedes((#[trigger] grown[j]).record_ref) by {
            if j == list.len() && i < list.len() - 1 {
                assert(list[i].record_ref.precedes(list[list.len() - 1].record_ref));
                record_order_is_transitive(
                    list[i].record_ref,
                    list.last().record_ref,
                    posting.record_ref,
                );
            }
        }
        assert forall|held: CorrelationPosting| #[trigger] list.contains(held) implies grown.contains(
            held,
        ) by {
            let i = choose|i: int| 0 <= i < list.len() && list[i] == held;
            assert(grown[i] == held);
        }
    } else if list.last().record_ref == posting.record_ref {
    } else {
        let rest = list.drop_last();
        let last = list.last();
        assert forall|i: int, j: int| 0 <= i < j < rest.len() implies (
        #[trigger] rest[i]).record_ref.precedes((#[trigger] rest[j]).record_ref) by {
            assert(list[i].record_ref.precedes(list[j].record_ref));
        }
        lemma_posted_holds(rest, posting);
        record_order_is_total(last.record_ref, posting.record_ref);
        let shorter = posted(rest, posting);
        assert forall|i: int| 0 <= i < shorter.len() implies (
        #[trigger] shorter[i]).record_ref.precedes(last.record_ref) by {
            assert(shorter.contains(shorter[i]));
            if rest.contains(shorter[i]) {
                let at = choose|at: int| 0 <= at < rest.len() && rest[at] == shorter[i];
                assert(list[at].record_ref.precedes(list[list.len() - 1].record_ref));
            }
        }
        assert forall|i: int, j: int| 0 <= i < j < grown.len() implies (
        #[trigger] grown[i]).record_ref.precedes((#[trigger] grown[j]).record_ref) by {
            assert(grown[i] == shorter[i]);
            if j < shorter.len() {
                assert(grown[j] == shorter[j]);
            }
        }
        assert forall|held: CorrelationPosting| #[trigger] list.contains(held) implies grown.contains(
            held,
        ) by {
            let i = choose|i: int| 0 <= i < list.len() && list[i] == held;
            if i < rest.len() {
                assert(rest[i] == held);
                assert(rest.contains(held));
                assert(shorter.contains(held));
                let at = choose|at: int| 0 <= at < shorter.len() && shorter[at] == held;
                assert(grown[at] == held);
            } else {
                assert(grown[shorter.len() as int] == held);
            }
        }
        assert forall|held: CorrelationPosting| #[trigger] grown.contains(held) implies list.contains(
            held,
        ) || held == posting by {
            let i = choose|i: int| 0 <= i < grown.len() && grown[i] == held;
            if i < shorter.len() {
                assert(shorter[i] == held);
                assert(shorter.contains(held));
                if rest.contains(held) {
                    let at = choose|at: int| 0 <= at < rest.len() && rest[at] == held;
                    assert(list[at] == held);
                }
            } else {
                assert(list[list.len() - 1] == held);
            }
        }
    }
}

/// What one offer does to a state from which nothing was dropped.
proof fn lemma_inserted(
    state: IndexState,
    config: CorrelationConfig,
    tenant_id: u32,
    key: CorrelationKey,
    posting: CorrelationPosting,
)
    requires
        all_ordered(state),
        state.inserted(config, tenant_id, key, posting).dropped_postings == 0,
    ensures
        ({
            let after = state.inserted(config, tenant_id, key, posting);
            let slot = slot_of(tenant_id, key);
            &&& state.dropped_postings == 0
            &&& after.tenants == state.tenants
            &&& all_ordered(after)
            &&& names(after.list(tenant_id, key), posting.record_ref)
            &&& forall|other: Slot, held: CorrelationPosting|
                holds(state, other, held) ==> #[trigger] holds(after, other, held)
            &&& forall|other: Slot, held: CorrelationPosting| #[trigger]
                holds(after, other, held) ==> holds(state, other, held) || other == slot && held
                    == posting
            &&& forall|other: Slot| #[trigger]
                after.postings.contains_key(other) ==> state.postings.contains_key(other) || other
                    == slot
        }),
{
    let after = state.inserted(config, tenant_id, key, posting);
    let slot = slot_of(tenant_id, key);
    let list = state.list(tenant_id, key);
    if list.len() > 0 && list.last().record_ref == posting.record_ref {
        assert(list[list.len() - 1].record_ref == posting.record_ref);
    } else {
        assert(ordered(list));
        lemma_posted_holds(list, posting);
        lemma_posted_names(list, posting);
        assert(after.postings == state.postings.insert(slot, posted(list, posting)));
        assert forall|other: Slot, held: CorrelationPosting| holds(
            state,
            other,
            held,
        ) implies #[trigger] holds(after, other, held) by {
            if other == slot {
                assert(list.contains(held));
            }
        }
        assert forall|other: Slot, held: CorrelationPosting| #[trigger] holds(
            after,
            other,
            held,
        ) implies holds(state, other, held) || other == slot && held == posting by {
            if other == slot {
                assert(posted(list, posting).contains(held));
                if list.contains(held) {
                    assert(state.postings.contains_key(slot));
                }
            }
        }
    }
}

/// What a list names stays named where everything it holds stays held.
proof fn lemma_names_stay(
    before: IndexState,
    after: IndexState,
    tenant_id: u32,
    key: CorrelationKey,
    record: TelemetryRecordRef,
)
    requires
        names(before.list(tenant_id, key), record),
        forall|other: Slot, held: CorrelationPosting|
            holds(before, other, held) ==> #[trigger] holds(after, other, held),
    ensures
        names(after.list(tenant_id, key), record),
{
    let slot = slot_of(tenant_id, key);
    let list = before.list(tenant_id, key);
    let i = choose|i: int| 0 <= i < list.len() && (#[trigger] list[i]).record_ref == record;
    assert(list.contains(list[i]));
    assert(holds(before, slot, list[i]));
    assert(holds(after, slot, list[i]));
    let grown = after.list(tenant_id, key);
    let at = choose|at: int| 0 <= at < grown.len() && grown[at] == list[i];
    assert(grown[at].record_ref == record);
}

/// What offering a record to several keys does to a state from which nothing was
/// dropped.
proof fn lemma_indexed(
    state: IndexState,
    config: CorrelationConfig,
    tenant_id: u32,
    keys: Seq<CorrelationKey>,
    posting: CorrelationPosting,
)
    requires
        all_ordered(state),
        state.indexed(config, tenant_id, keys, posting).dropped_postings == 0,
    ensures
        ({
            let after = state.indexed(config, tenant_id, keys, posting);
            &&& state.dropped_postings == 0
            &&& after.tenants == state.tenants
            &&& all_ordered(after)
            &&& forall|i: int|
                0 <= i < keys.len() ==> names(
                    after.list(tenant_id, #[trigger] keys[i]),
                    posting.record_ref,
                )
            &&& forall|other: Slot, held: CorrelationPosting|
                holds(state, other, held) ==> #[trigger] holds(after, other, held)
            &&& forall|other: Slot, held: CorrelationPosting| #[trigger]
                holds(after, other, held) ==> holds(state, other, held) || held == posting && exists|
                    i: int,
                |
                    0 <= i < keys.len() && other == slot_of(tenant_id, #[trigger] keys[i])
            &&& forall|other: Slot| #[trigger]
                after.postings.contains_key(other) ==> state.postings.contains_key(other) || other.0
                    == tenant_id
        }),
    decreases keys.len(),
{
    if keys.len() > 0 {
        let rest = keys.drop_last();
        let middle = state.indexed(config, tenant_id, rest, posting);
        let after = state.indexed(config, tenant_id, keys, posting);
        lemma_drops_stay(state, config, tenant_id, rest, posting);
        assert(middle.dropped_postings == 0) by {
            lemma_drop_stays(middle, config, tenant_id, keys.last(), posting);
        }
        lemma_indexed(state, config, tenant_id, rest, posting);
        lemma_inserted(middle, config, tenant_id, keys.last(), posting);
        assert forall|i: int| 0 <= i < keys.len() implies names(
            after.list(tenant_id, #[trigger] keys[i]),
            posting.record_ref,
        ) by {
            if i < rest.len() {
                assert(rest[i] == keys[i]);
                lemma_names_stay(middle, after, tenant_id, keys[i], posting.record_ref);
            }
        }
        assert forall|other: Slot, held: CorrelationPosting| holds(
            state,
            other,
            held,
        ) implies #[trigger] holds(after, other, held) by {
            assert(holds(middle, other, held));
        }
        assert forall|other: Slot, held: CorrelationPosting| #[trigger] holds(
            after,
            other,
            held,
        ) implies holds(state, other, held) || held == posting && exists|i: int|
            0 <= i < keys.len() && other == slot_of(tenant_id, #[trigger] keys[i]) by {
            if holds(middle, other, held) {
                if !holds(state, other, held) {
                    let i = choose|i: int|
                        0 <= i < rest.len() && other == slot_of(tenant_id, #[trigger] rest[i]);
                    assert(keys[i] == rest[i]);
                }
            } else {
                assert(other == slot_of(tenant_id, keys[keys.len() - 1]));
            }
        }
        assert forall|other: Slot| #[trigger] after.postings.contains_key(
            other,
        ) implies state.postings.contains_key(other) || other.0 == tenant_id by {
            if middle.postings.contains_key(other) {
            }
        }
    }
}

/// An offer never takes back that a posting was dropped.
proof fn lemma_drop_stays(
    state: IndexState,
    config: CorrelationConfig,
    tenant_id: u32,
    key: CorrelationKey,
    posting: CorrelationPosting,
)
    ensures
        state.inserted(config, tenant_id, key, posting).dropped_postings >= state.dropped_postings,
{
}

proof fn lemma_drops_stay(
    state: IndexState,
    config: CorrelationConfig,
    tenant_id: u32,
    keys: Seq<CorrelationKey>,
    posting: CorrelationPosting,
)
    ensures
        state.indexed(config, tenant_id, keys, posting).dropped_postings >= state.dropped_postings,
    decreases keys.len(),
{
    if keys.len() > 0 {
        lemma_drops_stay(state, config, tenant_id, keys.drop_last(), posting);
        lemma_drop_stays(
            state.indexed(config, tenant_id, keys.drop_last(), posting),
            config,
            tenant_id,
            keys.last(),
            posting,
        );
    }
}

/// Whether the tenants of a state are distinct and their numbers fit.
spec fn tenants_distinct(state: IndexState) -> bool {
    &&& state.tenants.len() <= u32::MAX + 1
    &&& forall|i: int, j: int|
        0 <= i < j < state.tenants.len() ==> #[trigger] state.tenants[i]
            != #[trigger] state.tenants[j]
}

/// The number of a tenant is its position.
proof fn lemma_tenant_number(state: IndexState, at: int)
    requires
        tenants_distinct(state),
        0 <= at < state.tenants.len(),
    ensures
        state.tenant_number(state.tenants[at]) == Some(at as u32),
        at as u32 == at,
{
    let tenant = state.tenants[at];
    let chosen = choose|i: int| 0 <= i < state.tenants.len() && state.tenants[i] == tenant;
    assert(0 <= chosen < state.tenants.len() && state.tenants[chosen] == tenant);
    if chosen < at {
        assert(state.tenants[chosen] != state.tenants[at]);
    } else if at < chosen {
        assert(state.tenants[at] != state.tenants[chosen]);
    }
}

/// What ties a state to the steps behind it: everything held comes from a step,
/// every step of a known tenant is named under its keys, and every tenant is known
/// while there are numbers left.
spec fn tells(state: IndexState, steps: Seq<IndexingStep>) -> bool {
    &&& all_ordered(state)
    &&& tenants_distinct(state)
    &&& forall|slot: Slot| #[trigger]
        state.postings.contains_key(slot) ==> slot.0 < state.tenants.len()
    &&& forall|slot: Slot, held: CorrelationPosting| #[trigger]
        holds(state, slot, held) ==> exists|i: int| #[trigger]
            stems_from(state, slot, held, steps, i)
    &&& forall|i: int, k: int|
        #![trigger steps[i].keys[k]]
        0 <= i < steps.len() && 0 <= k < steps[i].keys.len() ==> match state.tenant_number(
            steps[i].tenant,
        ) {
            Some(tenant_id) => names(
                state.list(tenant_id, steps[i].keys[k]),
                steps[i].posting.record_ref,
            ),
            None => true,
        }
    &&& state.tenants.len() <= u32::MAX ==> forall|i: int|
        0 <= i < steps.len() ==> state.tenant_number((#[trigger] steps[i]).tenant) is Some
}

/// Whether a held posting is that of a step, under one of its keys.
spec fn stems_from(
    state: IndexState,
    slot: Slot,
    held: CorrelationPosting,
    steps: Seq<IndexingStep>,
    i: int,
) -> bool {
    &&& 0 <= i < steps.len()
    &&& steps[i].posting == held
    &&& slot.0 < state.tenants.len() && state.tenants[slot.0 as int] == steps[i].tenant
    &&& exists|k: int|
        0 <= k < steps[i].keys.len() && slot == slot_of(slot.0, #[trigger] steps[i].keys[k])
}

/// A tenant that is known stays known under its number.
proof fn lemma_number_stays(before: IndexState, after: IndexState, tenant: Seq<char>)
    requires
        tenants_distinct(before),
        tenants_distinct(after),
        before.tenants.len() <= after.tenants.len(),
        forall|i: int|
            0 <= i < before.tenants.len() ==> #[trigger] before.tenants[i] == after.tenants[i],
        before.tenant_number(tenant) is Some,
    ensures
        after.tenant_number(tenant) == before.tenant_number(tenant),
{
    let at = choose|i: int| 0 <= i < before.tenants.len() && before.tenants[i] == tenant;
    lemma_tenant_number(before, at);
    assert(after.tenants[at] == tenant);
    lemma_tenant_number(after, at);
}

proof fn lemma_tells(config: CorrelationConfig, steps: Seq<IndexingStep>)
    requires
        state_after(config, steps).dropped_postings == 0,
    ensures
        tells(state_after(config, steps), steps),
    decreases steps.len(),
{
    if steps.len() > 0 {
        let rest = steps.drop_last();
        let step = steps.last();
        let before = state_after(config, rest);
        let after = state_after(config, steps);
        let (admitted, number) = before.admitting(config, step.tenant);
        if let Some(tenant_id) = number {
            lemma_drops_stay(admitted, config, tenant_id, step.keys, step.posting);
        }
        lemma_tells(config, rest);
        if number is None {
            lemma_refused_step(before, rest, steps);
        } else {
            lemma_admitted(before, config, step.tenant);
            lemma_indexed(admitted, config, number->0, step.keys, step.posting);
            lemma_recorded_step(before, admitted, after, number->0, rest, steps);
        }
    }
}

/// A step whose tenant finds no number left changes nothing.
proof fn lemma_refused_step(
    state: IndexState,
    rest: Seq<IndexingStep>,
    steps: Seq<IndexingStep>,
)
    requires
        steps.len() > 0,
        rest == steps.drop_last(),
        tells(state, rest),
        state.tenant_number(steps.last().tenant) is None,
        state.tenants.len() > u32::MAX,
    ensures
        tells(state, steps),
{
    assert forall|slot: Slot, held: CorrelationPosting| #[trigger] holds(
        state,
        slot,
        held,
    ) implies exists|i: int| #[trigger] stems_from(state, slot, held, steps, i) by {
        let i = choose|i: int| #[trigger] stems_from(state, slot, held, rest, i);
        assert(rest[i] == steps[i]);
        assert(stems_from(state, slot, held, steps, i));
    }
    assert forall|i: int, k: int|
        #![trigger steps[i].keys[k]]
        0 <= i < steps.len() && 0 <= k < steps[i].keys.len() implies match state.tenant_number(
        steps[i].tenant,
    ) {
        Some(tenant_id) => names(
            state.list(tenant_id, steps[i].keys[k]),
            steps[i].posting.record_ref,
        ),
        None => true,
    } by {
        if i < rest.len() {
            assert(rest[i] == steps[i]);
            assert(rest[i].keys[k] == steps[i].keys[k]);
        }
    }
}

/// Admitting a tenant keeps the others and their numbers.
proof fn lemma_admitted(state: IndexState, config: CorrelationConfig, tenant: Seq<char>)
    requires
        tenants_distinct(state),
        state.admitting(config, tenant).1 is Some,
    ensures
        ({
            let (admitted, number) = state.admitting(config, tenant);
            &&& tenants_distinct(admitted)
            &&& admitted.postings == state.postings
            &&& admitted.tenant_number(tenant) == number
            &&& state.tenants.len() <= admitted.tenants.len()
            &&& forall|i: int|
                0 <= i < state.tenants.len() ==> #[trigger] state.tenants[i] == admitted.tenants[i]
            &&& number->0 < admitted.tenants.len() && admitted.tenants[number->0 as int] == tenant
            &&& state.tenant_number(tenant) is None ==> state.tenants.len() <= u32::MAX
                && number->0 == state.tenants.len()
            &&& forall|other: Seq<char>|
                other != tenant && state.tenant_number(other) is None ==> (
                #[trigger] admitted.tenant_number(other)) is None
        }),
{
    let (admitted, number) = state.admitting(config, tenant);
    if state.tenant_number(tenant) is Some {
        let at = choose|i: int| 0 <= i < state.tenants.len() && state.tenants[i] == tenant;
        lemma_tenant_number(state, at);
    } else {
        let at = state.tenants.len() as int;
        assert(admitted.tenants == state.tenants.push(tenant));
        assert forall|i: int, j: int| 0 <= i < j < admitted.tenants.len() implies #[trigger]
            admitted.tenants[i] != #[trigger] admitted.tenants[j] by {
            assert(admitted.tenants[i] == state.tenants[i]);
            if j < at {
                assert(admitted.tenants[j] == state.tenants[j]);
            } else {
                assert(0 <= i < state.tenants.len());
            }
        }
        assert(admitted.tenants[at] == tenant);
        lemma_tenant_number(admitted, at);
        assert forall|other: Seq<char>| other != tenant && state.tenant_number(
            other,
        ) is None implies (#[trigger] admitted.tenant_number(other)) is None by {
            if admitted.tenant_number(other) is Some {
                let i = choose|i: int|
                    0 <= i < admitted.tenants.len() && admitted.tenants[i] == other;
                assert(i < at);
                assert(state.tenants[i] == other);
            }
        }
    }
}

/// A step whose tenant is admitted is told from then on.
proof fn lemma_recorded_step(
    before: IndexState,
    admitted: IndexState,
    after: IndexState,
    tenant_id: u32,
    rest: Seq<IndexingStep>,
    steps: Seq<IndexingStep>,
)
    requires
        steps.len() > 0,
        rest == steps.drop_last(),
        tells(before, rest),
        tenants_distinct(admitted),
        admitted.postings == before.postings,
        admitted.tenant_number(steps.last().tenant) == Some(tenant_id),
        before.tenants.len() <= admitted.tenants.len(),
        forall|i: int|
            0 <= i < before.tenants.len() ==> #[trigger] before.tenants[i] == admitted.tenants[i],
        tenant_id < admitted.tenants.len(),
        admitted.tenants[tenant_id as int] == steps.last().tenant,
        before.tenant_number(steps.last().tenant) is None ==> before.tenants.len() <= u32::MAX
            && tenant_id == before.tenants.len(),
        forall|other: Seq<char>|
            other != steps.last().tenant && before.tenant_number(other) is None ==> (
            #[trigger] admitted.tenant_number(other)) is None,
        after.tenants == admitted.tenants,
        all_ordered(after),
        forall|i: int|
            0 <= i < steps.last().keys.len() ==> names(
                after.list(tenant_id, #[trigger] steps.last().keys[i]),
                steps.last().posting.record_ref,
            ),
        forall|other: Slot, held: CorrelationPosting|
            holds(admitted, other, held) ==> #[trigger] holds(after, other, held),
        forall|other: Slot, held: CorrelationPosting| #[trigger]
            holds(after, other, held) ==> holds(admitted, other, held) || held
                == steps.last().posting && exists|i: int|
                0 <= i < steps.last().keys.len() && other == slot_of(
                    tenant_id,
                    #[trigger] steps.last().keys[i],
                ),
        forall|other: Slot| #[trigger]
            after.postings.contains_key(other) ==> admitted.postings.contains_key(other) || other.0
                == tenant_id,
    ensures
        tells(after, steps),
{
    let step = steps.last();
    let end = rest.len() as int;
    assert(tenants_distinct(after));
    assert forall|slot: Slot, held: CorrelationPosting| #[trigger] holds(
        after,
        slot,
        held,
    ) implies exists|i: int| #[trigger] stems_from(after, slot, held, steps, i) by {
        if holds(admitted, slot, held) {
            assert(holds(before, slot, held));
            let i = choose|i: int| #[trigger] stems_from(before, slot, held, rest, i);
            assert(rest[i] == steps[i]);
            assert(before.tenants[slot.0 as int] == admitted.tenants[slot.0 as int]);
            assert(stems_from(after, slot, held, steps, i));
        } else {
            let k = choose|k: int|
                0 <= k < step.keys.len() && slot == slot_of(tenant_id, #[trigger] step.keys[k]);
            assert(steps[end] == step);
            assert(slot == slot_of(slot.0, steps[end].keys[k]));
            assert(stems_from(after, slot, held, steps, end));
        }
    }
    assert forall|i: int, k: int|
        #![trigger steps[i].keys[k]]
        0 <= i < steps.len() && 0 <= k < steps[i].keys.len() implies match after.tenant_number(
        steps[i].tenant,
    ) {
        Some(number) => names(after.list(number, steps[i].keys[k]), steps[i].posting.record_ref),
        None => true,
    } by {
        assert(after.tenant_number(steps[i].tenant) == admitted.tenant_number(steps[i].tenant));
        if i < end {
            assert(rest[i] == steps[i]);
            assert(rest[i].keys[k] == steps[i].keys[k]);
            if before.tenant_number(steps[i].tenant) is Some {
                let number = before.tenant_number(steps[i].tenant)->0;
                lemma_number_stays(before, admitted, steps[i].tenant);
                lemma_names_stay(
                    before,
                    after,
                    number,
                    steps[i].keys[k],
                    steps[i].posting.record_ref,
                );
            } else if steps[i].tenant == step.tenant {
                assert(before.tenant_number(rest[i].tenant) is Some);
            }
        } else {
            assert(steps[i] == step);
            assert(step.keys[k] == steps[i].keys[k]);
        }
    }
    assert(after.tenants.len() <= u32::MAX ==> forall|i: int|
        0 <= i < steps.len() ==> after.tenant_number((#[trigger] steps[i]).tenant) is Some) by {
        if after.tenants.len() <= u32::MAX {
            assert forall|i: int| 0 <= i < steps.len() implies after.tenant_number(
                (#[trigger] steps[i]).tenant,
            ) is Some by {
                assert(after.tenant_number(steps[i].tenant) == admitted.tenant_number(
                    steps[i].tenant,
                ));
                if i < end {
                    assert(rest[i] == steps[i]);
                    lemma_number_stays(before, admitted, steps[i].tenant);
                }
            }
        }
    }
}

/// The wanted records of an ordered list come out, in order.
proof fn lemma_matching_all(
    list: Seq<CorrelationPosting>,
    lists: Seq<Seq<CorrelationPosting>>,
    query: CorrelationQuery,
)
    requires
        ordered(list),
    ensures
        rising(matching(list, lists, query)),
        forall|i: int|
            0 <= i < list.len() && wanted(#[trigger] list[i], lists, query) ==> matching(
                list,
                lists,
                query,
            ).contains(list[i].record_ref),
    decreases list.len(),
{
    if list.len() > 0 {
        let rest = list.drop_last();
        assert forall|i: int, j: int| 0 <= i < j < rest.len() implies (
        #[trigger] rest[i]).record_ref.precedes((#[trigger] rest[j]).record_ref) by {
            assert(list[i].record_ref.precedes(list[j].record_ref));
        }
        lemma_matching_all(rest, lists, query);
        let all = matching(list, lists, query);
        let earlier = matching(rest, lists, query);
        assert forall|i: int, j: int| 0 <= i < j < all.len() implies (#[trigger] all[i]).precedes(
            #[trigger] all[j],
        ) by {
            assert(all[i] == earlier[i]);
            if j < earlier.len() {
                assert(all[j] == earlier[j]);
            } else {
                lemma_matching_members(rest, lists, query, i);
                let at = choose|at: int|
                    0 <= at < rest.len() && (#[trigger] rest[at]).record_ref == earlier[i]
                        && wanted(rest[at], lists, query);
                assert(list[at].record_ref.precedes(list[list.len() - 1].record_ref));
            }
        }
        assert forall|i: int| 0 <= i < list.len() && wanted(
            #[trigger] list[i],
            lists,
            query,
        ) implies all.contains(list[i].record_ref) by {
            if i < rest.len() {
                assert(rest[i] == list[i]);
                let at = choose|at: int|
                    0 <= at < earlier.len() && earlier[at] == list[i].record_ref;
                assert(all[at] == list[i].record_ref);
            } else {
                assert(all[all.len() - 1] == list[i].record_ref);
            }
        }
    }
}

/// A posting of the list of a key comes from a step that carries the key.
proof fn lemma_listed_posting(
    state: IndexState,
    steps: Seq<IndexingStep>,
    tenant: Seq<char>,
    tenant_id: u32,
    key: CorrelationKey,
    at: int,
) -> (i: int)
    requires
        tells(state, steps),
        state.tenant_number(tenant) == Some(tenant_id),
        0 <= at < state.list(tenant_id, key).len(),
    ensures
        0 <= i < steps.len(),
        steps[i].tenant == tenant,
        steps[i].posting == state.list(tenant_id, key)[at],
        steps[i].keys.contains(key),
{
    let slot = slot_of(tenant_id, key);
    let held = state.list(tenant_id, key)[at];
    assert(state.postings[slot].contains(held));
    assert(holds(state, slot, held));
    let i = choose|i: int| #[trigger] stems_from(state, slot, held, steps, i);
    let place = choose|i: int| 0 <= i < state.tenants.len() && state.tenants[i] == tenant;
    lemma_tenant_number(state, place);
    let k = choose|k: int|
        0 <= k < steps[i].keys.len() && slot == slot_of(slot.0, #[trigger] steps[i].keys[k]);
    key_parts_identify_the_key(steps[i].keys[k], key);
    i
}

/// A record that the list of a key names carries the key.
proof fn lemma_named_carries(
    state: IndexState,
    steps: Seq<IndexingStep>,
    tenant: Seq<char>,
    tenant_id: u32,
    key: CorrelationKey,
    record: TelemetryRecordRef,
)
    requires
        tells(state, steps),
        state.tenant_number(tenant) == Some(tenant_id),
        names(state.list(tenant_id, key), record),
    ensures
        carries(steps, tenant, key, record),
{
    let list = state.list(tenant_id, key);
    let at = choose|at: int| 0 <= at < list.len() && (#[trigger] list[at]).record_ref == record;
    let i = lemma_listed_posting(state, steps, tenant, tenant_id, key, at);
    assert(steps[i].posting.record_ref == record);
}

/// A record that carries a key is named in the list of the key.
proof fn lemma_carried_named(
    state: IndexState,
    steps: Seq<IndexingStep>,
    tenant: Seq<char>,
    tenant_id: u32,
    key: CorrelationKey,
    record: TelemetryRecordRef,
)
    requires
        tells(state, steps),
        state.tenant_number(tenant) == Some(tenant_id),
        carries(steps, tenant, key, record),
    ensures
        names(state.list(tenant_id, key), record),
{
    let i = choose|i: int|
        0 <= i < steps.len() && (#[trigger] steps[i]).tenant == tenant && steps[i].keys.contains(
            key,
        ) && steps[i].posting.record_ref == record;
    let k = choose|k: int| 0 <= k < steps[i].keys.len() && steps[i].keys[k] == key;
    assert(steps[i].keys[k] == key);
}

/// What belongs to the answer of a query, in terms of the steps.
proof fn lemma_matching_answers(
    state: IndexState,
    steps: Seq<IndexingStep>,
    query: CorrelationQuery,
    tenant_id: u32,
    record: TelemetryRecordRef,
)
    requires
        tells(state, steps),
        one_time_each(steps),
        state.tenant_number(query.tenant@) == Some(tenant_id),
        query.keys().len() > 0,
    ensures
        ({
            let lists = state.lists(tenant_id, query.keys());
            matching(lists[shortest(lists)], lists, query).contains(record) <==> answers(
                steps,
                query,
                record,
            )
        }),
{
    let keys = query.keys();
    let lists = state.lists(tenant_id, keys);
    lemma_shortest_in_range(lists);
    let best = shortest(lists);
    let first = lists[best];
    assert forall|i: int| 0 <= i < lists.len() implies #[trigger] lists[i] == state.list(
        tenant_id,
        keys[i],
    ) by {}
    assert(ordered(first));
    let all = matching(first, lists, query);
    lemma_matching_all(first, lists, query);
    if all.contains(record) {
        let at = choose|at: int| 0 <= at < all.len() && all[at] == record;
        lemma_matching_members(first, lists, query, at);
        let place = choose|i: int|
            0 <= i < first.len() && (#[trigger] first[i]).record_ref == record && wanted(
                first[i],
                lists,
                query,
            );
        let i = lemma_listed_posting(
            state,
            steps,
            query.tenant@,
            tenant_id,
            keys[best],
            place,
        );
        assert(in_reach(query, steps[i].posting));
        assert forall|k: int| 0 <= k < keys.len() implies carries(
            steps,
            query.tenant@,
            #[trigger] keys[k],
            record,
        ) by {
            assert(names(lists[k], record));
            lemma_named_carries(state, steps, query.tenant@, tenant_id, keys[k], record);
        }
    }
    if answers(steps, query, record) {
        assert forall|k: int| 0 <= k < lists.len() implies names(#[trigger] lists[k], record) by {
            assert(carries(steps, query.tenant@, keys[k], record));
            lemma_carried_named(state, steps, query.tenant@, tenant_id, keys[k], record);
        }
        assert(names(lists[best], record));
        let place = choose|i: int| 0 <= i < first.len() && (#[trigger] first[i]).record_ref == record;
        let source = lemma_listed_posting(
            state,
            steps,
            query.tenant@,
            tenant_id,
            keys[best],
            place,
        );
        let i = choose|i: int|
            0 <= i < steps.len() && (#[trigger] steps[i]).tenant == query.tenant@
                && steps[i].posting.record_ref == record && in_reach(query, steps[i].posting);
        assert(steps[source].posting.timestamp_unix_nanos
            == steps[i].posting.timestamp_unix_nanos);
        assert(wanted(first[place], lists, query));
    }
}

/// As long as no posting was dropped, a query that names a key gives back the
/// first records, up to its limit, of all that were indexed for its tenant, carry
/// every key of it, have its signal and an event time within its bounds, and come
/// after its continuation point; they strictly rise.
///
/// Every record is indexed with one event time. A tenant that was indexed and yet
/// is not known, because all tenant numbers were taken, is left out.
pub proof fn queries_give_back_what_was_indexed(
    config: CorrelationConfig,
    steps: Seq<IndexingStep>,
    query: CorrelationQuery,
)
    requires
        state_after(config, steps).dropped_postings == 0,
        one_time_each(steps),
        query.keys().len() > 0,
        forall|i: int|
            0 <= i < steps.len() && (#[trigger] steps[i]).tenant == query.tenant@ ==> state_after(
                config,
                steps,
            ).tenant_number(query.tenant@) is Some,
    ensures
        ({
            let found = state_after(config, steps).found(query);
            &&& rising(found)
            &&& found.len() <= query.limit
            &&& forall|i: int|
                0 <= i < found.len() ==> answers(steps, query, #[trigger] found[i])
            &&& forall|record: TelemetryRecordRef| #[trigger]
                answers(steps, query, record) ==> found.contains(record) || found.len()
                    == query.limit && forall|i: int|
                    0 <= i < found.len() ==> (#[trigger] found[i]).precedes(record)
        }),
{
    let state = state_after(config, steps);
    let found = state.found(query);
    lemma_tells(config, steps);
    if state.tenant_number(query.tenant@) is None {
        assert(found =~= Seq::<TelemetryRecordRef>::empty());
        assert forall|record: TelemetryRecordRef| !(#[trigger] answers(steps, query, record)) by {
            if answers(steps, query, record) {
                let i = choose|i: int|
                    0 <= i < steps.len() && (#[trigger] steps[i]).tenant == query.tenant@
                        && steps[i].posting.record_ref == record && in_reach(
                        query,
                        steps[i].posting,
                    );
                assert(state.tenant_number(steps[i].tenant) is Some);
            }
        }
    } else {
        let tenant_id = state.tenant_number(query.tenant@)->0;
        let lists = state.lists(tenant_id, query.keys());
        lemma_shortest_in_range(lists);
        let first = lists[shortest(lists)];
        let all = matching(first, lists, query);
        assert(first == state.list(tenant_id, query.keys()[shortest(lists)]));
        assert(ordered(first));
        lemma_matching_all(first, lists, query);
        assert(found == selected(lists, query));
        assert forall|i: int| 0 <= i < found.len() implies answers(
            steps,
            query,
            #[trigger] found[i],
        ) by {
            assert(all[i] == found[i]);
            lemma_matching_answers(state, steps, query, tenant_id, found[i]);
        }
        assert forall|record: TelemetryRecordRef| #[trigger] answers(
            steps,
            query,
            record,
        ) implies found.contains(record) || found.len() == query.limit && forall|i: int|
            0 <= i < found.len() ==> (#[trigger] found[i]).precedes(record) by {
            lemma_matching_answers(state, steps, query, tenant_id, record);
            let at = choose|at: int| 0 <= at < all.len() && all[at] == record;
            if at < found.len() {
                assert(found[at] == record);
            } else {
                assert forall|i: int| 0 <= i < found.len() implies (
                #[trigger] found[i]).precedes(record) by {
                    assert(found[i] == all[i]);
                    assert(all[i].precedes(all[at]));
                }
            }
        }
        assert forall|i: int, j: int| 0 <= i < j < found.len() implies (
        #[trigger] found[i]).precedes(#[trigger] found[j]) by {
            assert(all[i].precedes(all[j]));
        }
    }
}

} // verus!
