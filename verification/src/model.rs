//! Identifiers of stripes, partitions, signals and durable records.

use vstd::prelude::*;

verus! {

/// Physical owner stripe.
#[derive(Debug, Clone, Copy, PartialEq, Eq, PartialOrd, Ord, Hash, Structural)]
pub struct ShardId(pub u32);

impl ShardId {
    /// Wraps a stripe number.
    pub fn new(value: u32) -> (id: Self)
        ensures
            id.0 == value,
    {
        Self(value)
    }

    /// The stripe number.
    pub fn get(self) -> (value: u32)
        ensures
            value == self.0,
    {
        self.0
    }
}

/// Position of a record within its partition.
#[derive(Debug, Clone, Copy, PartialEq, Eq, PartialOrd, Ord, Hash, Structural)]
pub struct LogicalOffset(pub u64);

impl LogicalOffset {
    /// Wraps an offset.
    pub fn new(value: u64) -> (offset: Self)
        ensures
            offset.0 == value,
    {
        Self(value)
    }

    /// The offset as an integer.
    pub fn get(self) -> (value: u64)
        ensures
            value == self.0,
    {
        self.0
    }
}

/// Stable logical partition of a topic.
#[derive(Debug, Clone, Copy, PartialEq, Eq, PartialOrd, Ord, Hash, Structural)]
pub struct LogicalPartitionId(pub u32);

impl LogicalPartitionId {
    /// Wraps a partition number.
    pub fn new(value: u32) -> (id: Self)
        ensures
            id.0 == value,
    {
        Self(value)
    }

    /// The partition number.
    pub fn get(self) -> (value: u32)
        ensures
            value == self.0,
    {
        self.0
    }
}

/// Durable topic.
#[derive(Debug, Clone, Copy, PartialEq, Eq, PartialOrd, Ord, Hash, Structural)]
pub struct TopicId(pub u64);

impl TopicId {
    /// Wraps a topic number.
    pub fn new(value: u64) -> (id: Self)
        ensures
            id.0 == value,
    {
        Self(value)
    }

    /// The topic number.
    pub fn get(self) -> (value: u64)
        ensures
            value == self.0,
    {
        self.0
    }
}

/// Topic of log envelopes.
pub const LOGS_TOPIC_ID: u64 = 1;

/// Topic of trace envelopes.
pub const TRACES_TOPIC_ID: u64 = 2;

/// Topic of metric envelopes.
pub const METRICS_TOPIC_ID: u64 = 3;

/// One partition of one topic.
#[derive(Debug, Clone, Copy, PartialEq, Eq, PartialOrd, Ord, Hash, Structural)]
pub struct TopicPartition {
    /// Topic that owns the partition.
    pub topic_id: TopicId,
    /// Partition within the topic.
    pub partition_id: LogicalPartitionId,
}

impl TopicPartition {
    /// Names one partition of one topic.
    pub fn new(topic_id: TopicId, partition_id: LogicalPartitionId) -> (partition: Self)
        ensures
            partition == (Self { topic_id, partition_id }),
    {
        Self { topic_id, partition_id }
    }
}

/// Telemetry signal of a record.
#[derive(Debug, Clone, Copy, PartialEq, Eq, PartialOrd, Ord, Hash, Structural)]
pub enum TelemetrySignal {
    /// Log records.
    Logs,
    /// Trace spans.
    Traces,
    /// Metric points.
    Metrics,
}

impl TelemetrySignal {
    /// Wire tag of a signal.
    pub open spec fn tag(self) -> u8 {
        match self {
            TelemetrySignal::Logs => 1,
            TelemetrySignal::Traces => 2,
            TelemetrySignal::Metrics => 3,
        }
    }

    /// Signal with a given wire tag.
    pub open spec fn tagged(tag: u8) -> Option<TelemetrySignal> {
        if tag == 1 {
            Some(TelemetrySignal::Logs)
        } else if tag == 2 {
            Some(TelemetrySignal::Traces)
        } else if tag == 3 {
            Some(TelemetrySignal::Metrics)
        } else {
            None
        }
    }

    /// Wire tag of this signal.
    pub fn to_wire(self) -> (tag: u8)
        ensures
            tag == self.tag(),
    {
        match self {
            TelemetrySignal::Logs => 1,
            TelemetrySignal::Traces => 2,
            TelemetrySignal::Metrics => 3,
        }
    }

    /// Signal named by a wire tag.
    pub fn from_wire(tag: u8) -> (signal: Option<Self>)
        ensures
            signal == Self::tagged(tag),
    {
        match tag {
            1 => Some(TelemetrySignal::Logs),
            2 => Some(TelemetrySignal::Traces),
            3 => Some(TelemetrySignal::Metrics),
            _ => None,
        }
    }
}

/// Every signal is recovered from its own wire tag.
pub proof fn signal_tags_read_back(signal: TelemetrySignal)
    ensures
        TelemetrySignal::tagged(signal.tag()) == Some(signal),
{
}

/// Stable reference to one durable record.
#[derive(Debug, Clone, Copy, PartialEq, Eq, PartialOrd, Ord, Hash, Structural)]
pub struct TelemetryRecordRef {
    /// Signal of the record.
    pub signal: TelemetrySignal,
    /// Partition that holds the record.
    pub topic_partition: TopicPartition,
    /// Position within the partition.
    pub offset: LogicalOffset,
}

impl TelemetryRecordRef {
    /// Refers to one record of one signal.
    pub fn for_signal(
        signal: TelemetrySignal,
        topic_partition: TopicPartition,
        offset: LogicalOffset,
    ) -> (record: Self)
        ensures
            record == (Self { signal, topic_partition, offset }),
    {
        Self { signal, topic_partition, offset }
    }

    /// Whether this reference sorts strictly before `other`: by signal, topic,
    /// partition and offset.
    pub open spec fn precedes(self, other: Self) -> bool {
        let (a, b) = (self, other);
        ||| a.signal.tag() < b.signal.tag()
        ||| a.signal == b.signal && a.topic_partition.topic_id.0 < b.topic_partition.topic_id.0
        ||| a.signal == b.signal && a.topic_partition.topic_id == b.topic_partition.topic_id
            && a.topic_partition.partition_id.0 < b.topic_partition.partition_id.0
        ||| a.signal == b.signal && a.topic_partition == b.topic_partition && a.offset.0
            < b.offset.0
    }

    /// Compares two references in their stable order.
    pub fn is_before(&self, other: &Self) -> (before: bool)
        ensures
            before == self.precedes(*other),
    {
        if self.signal != other.signal {
            return self.signal.to_wire() < other.signal.to_wire();
        }
        if self.topic_partition.topic_id.0 != other.topic_partition.topic_id.0 {
            return self.topic_partition.topic_id.0 < other.topic_partition.topic_id.0;
        }
        if self.topic_partition.partition_id.0 != other.topic_partition.partition_id.0 {
            return self.topic_partition.partition_id.0 < other.topic_partition.partition_id.0;
        }
        self.offset.0 < other.offset.0
    }
}

/// Record references are totally ordered.
pub proof fn record_order_is_total(a: TelemetryRecordRef, b: TelemetryRecordRef)
    ensures
        a == b || a.precedes(b) || b.precedes(a),
        !(a.precedes(b) && b.precedes(a)),
        !a.precedes(a),
{
}

/// The record order is transitive.
pub proof fn record_order_is_transitive(
    a: TelemetryRecordRef,
    b: TelemetryRecordRef,
    c: TelemetryRecordRef,
)
    requires
        a.precedes(b),
        b.precedes(c),
    ensures
        a.precedes(c),
{
}

} // verus!
