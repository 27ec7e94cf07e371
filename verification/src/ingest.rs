//! Log events on their way into a pack: their cohorts and their order.

use std::sync::Arc;

use vstd::prelude::*;

use crate::attributes::{TelemetryAttribute, TelemetryValue};
use crate::dictionary::CompressionCohortId;
use crate::error::{TelemetryError, TelemetryResult};
use crate::records::{MetadataField, ResourceContext, ScopeContext, SpanId, TraceId};

verus! {

/// One log event before it has a durable position.
#[derive(Debug, PartialEq, Eq)]
pub struct OtlpLogEvent {
    /// Event time.
    pub timestamp_unix_nanos: u64,
    /// Collection time, or zero.
    pub observed_timestamp_unix_nanos: u64,
    /// Typed body.
    pub body: Option<TelemetryValue>,
    /// Rendered body.
    pub message: String,
    /// Indexed text fields.
    pub fields: Arc<Vec<MetadataField>>,
    /// Record attributes.
    pub attributes: Arc<Vec<TelemetryAttribute>>,
    /// Producing entity.
    pub resource: Arc<ResourceContext>,
    /// Emitting scope.
    pub scope: Arc<ScopeContext>,
    /// Severity as a number.
    pub severity_number: i32,
    /// Severity as text.
    pub severity_text: String,
    /// Attributes that the producer discarded.
    pub dropped_attributes_count: u32,
    /// Record flags.
    pub flags: u32,
    /// Linked trace.
    pub trace_id: Option<TraceId>,
    /// Linked span.
    pub span_id: Option<SpanId>,
    /// Event name.
    pub event_name: String,
    /// Group of alike records that compress together.
    pub compression_cohort: CompressionCohortId,
}

/// Whether a resource says anything.
pub open spec fn resource_says(resource: ResourceContext) -> bool {
    resource.attributes@.len() > 0 || resource.dropped_attributes_count != 0
        || resource.schema_url@.len() > 0
}

/// Whether a scope says anything.
pub open spec fn scope_says(scope: ScopeContext) -> bool {
    scope.name@.len() > 0 || scope.version@.len() > 0 || scope.attributes@.len() > 0
        || scope.dropped_attributes_count != 0 || scope.schema_url@.len() > 0
}

impl OtlpLogEvent {
    /// Whether the event holds more than a time, a message and text fields.
    pub open spec fn has_metadata(&self) -> bool {
        ||| self.observed_timestamp_unix_nanos != 0
        ||| self.body is Some
        ||| self.attributes@.len() > 0
        ||| resource_says(*self.resource)
        ||| scope_says(*self.scope)
        ||| self.severity_number != 0
        ||| self.severity_text@.len() > 0
        ||| self.dropped_attributes_count != 0
        ||| self.flags != 0
        ||| self.trace_id is Some
        ||| self.span_id is Some
        ||| self.event_name@.len() > 0
    }

    /// An event with a time, a message and text fields.
    pub fn new(
        timestamp_unix_nanos: u64,
        message: &str,
        fields: Vec<MetadataField>,
        compression_cohort: CompressionCohortId,
    ) -> (event: Self)
        ensures
            event.timestamp_unix_nanos == timestamp_unix_nanos,
            event.message@ == message@,
            event.fields@ == fields@,
            event.compression_cohort == compression_cohort,
            !event.has_metadata(),
    {
        let nothing = "";
        proof {
            reveal_strlit("");
        }
        Self {
            timestamp_unix_nanos,
            observed_timestamp_unix_nanos: 0,
            body: None,
            message: message.to_owned(),
            fields: Arc::new(fields),
            attributes: Arc::new(Vec::new()),
            resource: Arc::new(ResourceContext::new()),
            scope: Arc::new(ScopeContext::new()),
            severity_number: 0,
            severity_text: nothing.to_owned(),
            dropped_attributes_count: 0,
            flags: 0,
            trace_id: None,
            span_id: None,
            event_name: nothing.to_owned(),
            compression_cohort,
        }
    }

    /// Whether the structural encoding of this event carries metadata.
    pub fn structural_log_metadata(&self) -> (present: bool)
        ensures
            present == self.has_metadata(),
    {
        self.observed_timestamp_unix_nanos != 0 || self.body.is_some() || self.attributes.len() > 0
            || !resource_is_empty(&self.resource) || !scope_is_empty(&self.scope)
            || self.severity_number != 0 || !is_blank(&self.severity_text)
            || self.dropped_attributes_count != 0 || self.flags != 0 || self.trace_id.is_some()
            || self.span_id.is_some() || !is_blank(&self.event_name)
    }
}

fn is_blank(text: &String) -> (blank: bool)
    ensures
        blank == (text@.len() == 0),
{
    text.as_str().is_empty()
}

fn resource_is_empty(resource: &ResourceContext) -> (empty: bool)
    ensures
        empty == !resource_says(*resource),
{
    resource.attributes.len() == 0 && resource.dropped_attributes_count == 0 && is_blank(
        &resource.schema_url,
    )
}

fn scope_is_empty(scope: &ScopeContext) -> (empty: bool)
    ensures
        empty == !scope_says(*scope),
{
    is_blank(&scope.name) && is_blank(&scope.version) && scope.attributes.len() == 0
        && scope.dropped_attributes_count == 0 && is_blank(&scope.schema_url)
}

/// Positions at which a cohort occurs, in order.
pub open spec fn ordinals_of(cohorts: Seq<u64>, cohort: u64) -> Seq<u32>
    decreases cohorts.len(),
{
    if cohorts.len() == 0 {
        Seq::empty()
    } else if cohorts.last() == cohort {
        ordinals_of(cohorts.drop_last(), cohort).push((cohorts.len() - 1) as u32)
    } else {
        ordinals_of(cohorts.drop_last(), cohort)
    }
}

/// Records of one cohort, by their position in the batch.
#[derive(Debug, PartialEq, Eq)]
pub struct CohortGroup {
    /// Cohort of the records.
    pub cohort: u64,
    /// Positions of the records.
    pub ordinals: Vec<u32>,
}

/// Whether groups split a batch by cohort: each cohort once, in ascending
/// order, with all its records in their order.
pub open spec fn grouped(groups: Seq<CohortGroup>, cohorts: Seq<u64>) -> bool {
    &&& forall|i: int, j: int|
        0 <= i < j < groups.len() ==> (#[trigger] groups[i]).cohort < (#[trigger] groups[j]).cohort
    &&& forall|i: int|
        0 <= i < groups.len() ==> (#[trigger] groups[i]).ordinals@ == ordinals_of(
            cohorts,
            groups[i].cohort,
        )
    &&& forall|i: int| 0 <= i < groups.len() ==> (#[trigger] groups[i]).ordinals@.len() > 0
    &&& forall|k: int|
        0 <= k < cohorts.len() ==> exists|i: int|
            0 <= i < groups.len() && (#[trigger] groups[i]).cohort == #[trigger] cohorts[k]
}

/// Splits a batch by cohort.
pub fn group_by_cohort(cohorts: &Vec<u64>) -> (groups: TelemetryResult<Vec<CohortGroup>>)
    ensures
        match groups {
            Ok(groups) => cohorts@.len() <= u32::MAX && grouped(groups@, cohorts@),
            Err(error) => cohorts@.len() > u32::MAX && error is RecordTooLarge,
        },
{
    if cohorts.len() as u64 > u32::MAX as u64 {
        return Err(TelemetryError::RecordTooLarge);
    }
    let mut groups: Vec<CohortGroup> = Vec::new();
    let mut next: usize = 0;
    while next < cohorts.len()
        invariant
            next <= cohorts@.len() <= u32::MAX,
            grouped(groups@, cohorts@.take(next as int)),
        decreases cohorts@.len() - next,
    {
        let cohort = cohorts[next];
        let ghost before = groups@;
        let ghost seen = cohorts@.take(next as int);
        let ghost longer = cohorts@.take(next + 1);
        assert(longer.drop_last() =~= seen);
        let mut place: usize = 0;
        while place < groups.len() && groups[place].cohort < cohort
            invariant
                place <= groups@.len(),
                forall|i: int| 0 <= i < place ==> (#[trigger] groups@[i]).cohort < cohort,
            decreases groups@.len() - place,
        {
            place = place + 1;
        }
        if place < groups.len() && groups[place].cohort == cohort {
            let mut found = groups.remove(place);
            found.ordinals.push(next as u32);
            groups.insert(place, found);
            proof {
                assert forall|k: int| 0 <= k < longer.len() implies exists|i: int|
                    0 <= i < groups@.len() && (#[trigger] groups@[i]).cohort == #[trigger] longer[k] by {
                    if k < next {
                        assert(longer[k] == seen[k]);
                        let i = choose|i: int|
                            0 <= i < before.len() && (#[trigger] before[i]).cohort == seen[k];
                        assert(groups@[i].cohort == before[i].cohort);
                    } else {
                        assert(groups@[place as int].cohort == longer[k]);
                    }
                }
                assert forall|i: int, j: int| 0 <= i < j < groups@.len() implies (
                #[trigger] groups@[i]).cohort < (#[trigger] groups@[j]).cohort by {
                    assert(groups@[i].cohort == before[i].cohort);
                    assert(groups@[j].cohort == before[j].cohort);
                }
                assert forall|i: int| 0 <= i < groups@.len() implies (
                #[trigger] groups@[i]).ordinals@ == ordinals_of(longer, groups@[i].cohort) by {
                    assert(groups@[i].cohort == before[i].cohort);
                    assert(before[i].ordinals@ == ordinals_of(seen, before[i].cohort));
                    if i != place {
                        assert(groups@[i] == before[i]);
                        assert(before[i].cohort != before[place as int].cohort);
                    }
                }
                assert forall|i: int| 0 <= i < groups@.len() implies (
                #[trigger] groups@[i]).ordinals@.len() > 0 by {
                    if i != place {
                        assert(groups@[i] == before[i]);
                    }
                }
            }
        } else {
            let mut ordinals: Vec<u32> = Vec::new();
            ordinals.push(next as u32);
            groups.insert(place, CohortGroup { cohort, ordinals });
            proof {
                assert(forall|i: int| place <= i < before.len() ==> (#[trigger] before[i]).cohort
                    > cohort) by {
                    assert forall|i: int| place <= i < before.len() implies (
                    #[trigger] before[i]).cohort > cohort by {
                        if i > place {
                            assert(before[place as int].cohort < before[i].cohort);
                        }
                    }
                }
                assert(forall|k: int| 0 <= k < seen.len() ==> #[trigger] seen[k] != cohort) by {
                    assert forall|k: int| 0 <= k < seen.len() implies #[trigger] seen[k]
                        != cohort by {
                        let i = choose|i: int|
                            0 <= i < before.len() && (#[trigger] before[i]).cohort == seen[k];
                        if i < place {
                            assert(before[i].cohort < cohort);
                        } else {
                            assert(before[i].cohort > cohort);
                        }
                    }
                }
                lemma_absent_cohort(seen, cohort);
                assert(groups@[place as int].ordinals@ =~= ordinals_of(longer, cohort));
                assert forall|i: int| 0 <= i < groups@.len() implies (
                #[trigger] groups@[i]).ordinals@ == ordinals_of(longer, groups@[i].cohort) by {
                    if i < place {
                        assert(groups@[i] == before[i]);
                    } else if i > place {
                        assert(groups@[i] == before[i - 1]);
                    }
                }
                assert forall|i: int| 0 <= i < groups@.len() implies (
                #[trigger] groups@[i]).ordinals@.len() > 0 by {
                    if i < place {
                        assert(groups@[i] == before[i]);
                    } else if i > place {
                        assert(groups@[i] == before[i - 1]);
                    }
                }
                assert forall|i: int, j: int| 0 <= i < j < groups@.len() implies (
                #[trigger] groups@[i]).cohort < (#[trigger] groups@[j]).cohort by {
                    let a = if i < place {
                        i
                    } else {
                        i - 1
                    };
                    let b = if j < place {
                        j
                    } else {
                        j - 1
                    };
                    if i != place {
                        assert(groups@[i] == before[a]);
                    }
                    if j != place {
                        assert(groups@[j] == before[b]);
                    }
                }
                assert forall|k: int| 0 <= k < longer.len() implies exists|i: int|
                    0 <= i < groups@.len() && (#[trigger] groups@[i]).cohort == #[trigger] longer[k] by {
                    if k < next {
                        assert(longer[k] == seen[k]);
                        let i = choose|i: int|
                            0 <= i < before.len() && (#[trigger] before[i]).cohort == seen[k];
                        if i < place {
                            assert(groups@[i] == before[i]);
                        } else {
                            assert(groups@[i + 1] == before[i]);
                        }
                    } else {
                        assert(groups@[place as int].cohort == longer[k]);
                    }
                }
            }
        }
        next = next + 1;
    }
    assert(cohorts@.take(next as int) =~= cohorts@);
    Ok(groups)
}

proof fn lemma_absent_cohort(cohorts: Seq<u64>, cohort: u64)
    requires
        forall|k: int| 0 <= k < cohorts.len() ==> #[trigger] cohorts[k] != cohort,
    ensures
        ordinals_of(cohorts, cohort) == Seq::<u32>::empty(),
    decreases cohorts.len(),
{
    if cohorts.len() > 0 {
        assert(cohorts.last() == cohorts[cohorts.len() - 1]);
        assert forall|k: int| 0 <= k < cohorts.drop_last().len() implies #[trigger] cohorts.drop_last()[k]
            != cohort by {
            assert(cohorts.drop_last()[k] == cohorts[k]);
        }
        lemma_absent_cohort(cohorts.drop_last(), cohort);
    }
}

/// The positions of a cohort are exactly those at which it occurs, in order.
pub proof fn ordinals_name_the_cohort(cohorts: Seq<u64>, cohort: u64)
    requires
        cohorts.len() <= u32::MAX,
    ensures
        forall|k: int|
            0 <= k < cohorts.len() ==> (cohorts[k] == cohort <==> #[trigger] ordinals_of(
                cohorts,
                cohort,
            ).contains(k as u32)),
        forall|i: int|
            0 <= i < ordinals_of(cohorts, cohort).len() ==> (#[trigger] ordinals_of(
                cohorts,
                cohort,
            )[i]) < cohorts.len(),
        forall|i: int, j: int|
            0 <= i < j < ordinals_of(cohorts, cohort).len() ==> (#[trigger] ordinals_of(
                cohorts,
                cohort,
            )[i]) < (#[trigger] ordinals_of(cohorts, cohort)[j]),
    decreases cohorts.len(),
{
    if cohorts.len() > 0 {
        let shorter = cohorts.drop_last();
        ordinals_name_the_cohort(shorter, cohort);
        let last = cohorts.len() - 1;
        let inner = ordinals_of(shorter, cohort);
        let all = ordinals_of(cohorts, cohort);
        assert forall|k: int| 0 <= k < cohorts.len() implies (cohorts[k] == cohort
            <==> #[trigger] all.contains(k as u32)) by {
            if k < last {
                assert(shorter[k] == cohorts[k]);
                if inner.contains(k as u32) {
                    let i = choose|i: int| 0 <= i < inner.len() && inner[i] == k as u32;
                    assert(all[i] == k as u32);
                }
                if all.contains(k as u32) {
                    let i = choose|i: int| 0 <= i < all.len() && all[i] == k as u32;
                    if i < inner.len() {
                        assert(inner[i] == k as u32);
                    }
                }
            } else {
                if cohorts.last() == cohort {
                    assert(all[all.len() - 1] == k as u32);
                } else if all.contains(k as u32) {
                    let i = choose|i: int| 0 <= i < all.len() && all[i] == k as u32;
                    assert(inner[i] < shorter.len());
                }
            }
        }
    }
}

/// Whether an ordinal is refused as too large or as out of range.
pub open spec fn ordinal_refused(ordinal: u64, expected: u32) -> bool {
    ordinal >= expected
}

/// Puts decoded records back in their batch order. The result holds, for each
/// place of the batch, the position of its record among the decoded ones.
pub fn arrange_by_ordinal(ordinals: &Vec<u64>, expected_record_count: u32) -> (order: TelemetryResult<
    Vec<usize>,
>)
    ensures
        match order {
            Ok(order) => {
                &&& ordinals@.len() == expected_record_count
                &&& order@.len() == expected_record_count
                &&& forall|k: int|
                    0 <= k < order@.len() ==> (#[trigger] order@[k]) < ordinals@.len()
                        && ordinals@[order@[k] as int] == k
            },
            Err(TelemetryError::RecordTooLarge) => exists|i: int|
                0 <= i < ordinals@.len() && #[trigger] ordinals@[i] > u32::MAX && forall|j: int|
                    0 <= j < i ==> !ordinal_refused(#[trigger] ordinals@[j], expected_record_count),
            Err(TelemetryError::InvalidBlockEncoding(message)) => {
                ||| message@ == "compressed ingest ordinal is out of range"@ && exists|i: int|
                    0 <= i < ordinals@.len() && expected_record_count <= #[trigger] ordinals@[i]
                        <= u32::MAX && forall|j: int|
                        0 <= j < i ==> !ordinal_refused(
                            #[trigger] ordinals@[j],
                            expected_record_count,
                        )
                ||| message@ == "compressed ingest ordinals are not contiguous"@ && (forall|j: int|
                    0 <= j < ordinals@.len() ==> !ordinal_refused(
                        #[trigger] ordinals@[j],
                        expected_record_count,
                    )) && (ordinals@.len() != expected_record_count || exists|k: u64|
                    k < expected_record_count && !#[trigger] ordinals@.contains(k))
            },
            Err(_) => false,
        },
{
    let mut places: Vec<Option<usize>> = Vec::new();
    let mut made: u32 = 0;
    while made < expected_record_count
        invariant
            made <= expected_record_count,
            places@.len() == made,
            forall|k: int| 0 <= k < made ==> (#[trigger] places@[k]) is None,
        decreases expected_record_count - made,
    {
        places.push(None);
        made = made + 1;
    }
    let mut next: usize = 0;
    while next < ordinals.len()
        invariant
            next <= ordinals@.len(),
            places@.len() == expected_record_count,
            forall|j: int|
                0 <= j < next ==> !ordinal_refused(#[trigger] ordinals@[j], expected_record_count),
            forall|k: int|
                0 <= k < places@.len() ==> match #[trigger] places@[k] {
                    Some(place) => place < next && ordinals@[place as int] == k,
                    None => forall|j: int| 0 <= j < next ==> #[trigger] ordinals@[j] != k,
                },
        decreases ordinals@.len() - next,
    {
        let ordinal = ordinals[next];
        if ordinal > u32::MAX as u64 {
            return Err(TelemetryError::RecordTooLarge);
        }
        if ordinal >= expected_record_count as u64 {
            return Err(
                TelemetryError::InvalidBlockEncoding("compressed ingest ordinal is out of range"),
            );
        }
        places.set(ordinal as usize, Some(next));
        next = next + 1;
    }
    if ordinals.len() as u64 != expected_record_count as u64 {
        return Err(
            TelemetryError::InvalidBlockEncoding("compressed ingest ordinals are not contiguous"),
        );
    }
    let mut order: Vec<usize> = Vec::new();
    let mut rank: usize = 0;
    while rank < places.len()
        invariant
            rank <= places@.len(),
            places@.len() == expected_record_count,
            ordinals@.len() == expected_record_count,
            order@.len() == rank,
            forall|j: int|
                0 <= j < ordinals@.len() ==> !ordinal_refused(
                    #[trigger] ordinals@[j],
                    expected_record_count,
                ),
            forall|k: int|
                0 <= k < places@.len() ==> match #[trigger] places@[k] {
                    Some(place) => place < ordinals@.len() && ordinals@[place as int] == k,
                    None => forall|j: int|
                        0 <= j < ordinals@.len() ==> #[trigger] ordinals@[j] != k,
                },
            forall|k: int|
                0 <= k < rank ==> (#[trigger] order@[k]) < ordinals@.len()
                    && ordinals@[order@[k] as int] == k,
        decreases places@.len() - rank,
    {
        match places[rank] {
            Some(place) => {
                order.push(place);
            },
            None => {
                assert(!ordinals@.contains(rank as u64));
                return Err(
                    TelemetryError::InvalidBlockEncoding(
                        "compressed ingest ordinals are not contiguous",
                    ),
                );
            },
        }
        rank = rank + 1;
    }
    Ok(order)
}

} // verus!
