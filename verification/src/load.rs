//! The load generator: its arguments, its spans, its batches and its requests.

use vstd::bytes::spec_u64_to_le_bytes;
use vstd::prelude::*;
use vstd::utf8::encode_utf8;

use crate::text::{decimal, push_decimal, same_str};
use crate::wire::{push_bytes, push_u64};

verus! {

/// Wire protocol of the load generator.
#[derive(Debug, Clone, Copy, PartialEq, Eq, Structural)]
pub enum LoadProtocol {
    /// Loki push requests.
    Loki,
    /// Native frames.
    Native,
}

/// What the load generator is asked for.
#[derive(Debug, Clone, Copy, PartialEq, Eq, Structural)]
pub struct LoadPlan {
    /// Parallel workers.
    pub workers: usize,
    /// Bytes of a batch.
    pub batch_bytes: usize,
    /// Requests in flight on a connection.
    pub pipeline_depth: usize,
    /// Partitions of the server.
    pub partitions: u16,
    /// Partitions of a request.
    pub partitions_per_request: usize,
    /// Wire protocol.
    pub protocol: LoadProtocol,
    /// Whether requests keep receipts.
    pub retryable: bool,
}

/// Whether a plan can be carried out.
pub open spec fn plan_is_sound(plan: LoadPlan) -> bool {
    &&& plan.workers > 0
    &&& plan.batch_bytes >= 1_024
    &&& 0 < plan.pipeline_depth <= 64
    &&& plan.partitions > 0
    &&& 0 < plan.partitions_per_request <= plan.partitions
    &&& plan.retryable ==> plan.protocol == LoadProtocol::Native && plan.partitions_per_request == 1
}

/// Checks a plan.
pub fn check_plan(plan: &LoadPlan) -> (verdict: Result<(), String>)
    ensures
        match verdict {
            Ok(_) => plan_is_sound(*plan),
            Err(text) => !plan_is_sound(*plan) && text@
                == "workers must be nonzero, batch-bytes must be at least 1024, pipeline-depth must be in 1..=64, partitions must be nonzero, partitions-per-request must be in 1..=partitions, and retryable native mode requires one partition per request"@,
        },
{
    if plan.workers == 0 || plan.batch_bytes < 1_024 || plan.pipeline_depth == 0
        || plan.pipeline_depth > 64 || plan.partitions == 0 || plan.partitions_per_request == 0
        || plan.partitions_per_request > plan.partitions as usize || (plan.retryable && plan.protocol
        != LoadProtocol::Native) || (plan.retryable && plan.partitions_per_request != 1) {
        return Err(
            "workers must be nonzero, batch-bytes must be at least 1024, pipeline-depth must be in 1..=64, partitions must be nonzero, partitions-per-request must be in 1..=partitions, and retryable native mode requires one partition per request".to_owned(),
        );
    }
    Ok(())
}

/// Where the span of a worker starts.
pub open spec fn span_start(source_bytes: u64, worker: nat, workers: nat) -> int {
    (if source_bytes * worker > u64::MAX {
        u64::MAX as int
    } else {
        source_bytes * worker
    }) / workers as int
}

/// The span of a worker.
pub fn worker_span(source_bytes: u64, worker: usize, workers: usize) -> (span: (u64, u64))
    requires
        worker < workers,
    ensures
        span.0 == span_start(source_bytes, worker as nat, workers as nat),
        span.1 == span_start(source_bytes, (worker + 1) as nat, workers as nat),
{
    let start = match source_bytes.checked_mul(worker as u64) {
        Some(product) => product,
        None => u64::MAX,
    };
    let end = match source_bytes.checked_mul(worker as u64 + 1) {
        Some(product) => product,
        None => u64::MAX,
    };
    (start / workers as u64, end / workers as u64)
}

/// The spans of all workers cover the source, each from where the one before it
/// ended, as long as the source times the workers can be counted.
pub proof fn spans_cover_the_source(source_bytes: u64, workers: nat)
    requires
        workers > 0,
        source_bytes * workers <= u64::MAX,
    ensures
        span_start(source_bytes, 0, workers) == 0,
        span_start(source_bytes, workers, workers) == source_bytes,
        forall|worker: nat|
            worker < workers ==> #[trigger] span_start(source_bytes, worker, workers)
                <= span_start(source_bytes, worker + 1, workers),
{
    assert(0int / workers as int == 0) by (nonlinear_arith)
        requires
            workers > 0,
    ;
    assert((source_bytes * workers) / workers as int == source_bytes) by (nonlinear_arith)
        requires
            workers > 0,
    ;
    assert forall|worker: nat| worker < workers implies #[trigger] span_start(
        source_bytes,
        worker,
        workers,
    ) <= span_start(source_bytes, worker + 1, workers) by {
        assert(source_bytes * worker <= source_bytes * (worker + 1) <= source_bytes * workers)
            by (nonlinear_arith)
            requires
                worker < workers,
                source_bytes >= 0,
        ;
        let (left, right) = (source_bytes * worker, source_bytes * (worker + 1));
        assert(left / workers as int <= right / workers as int) by (nonlinear_arith)
            requires
                left <= right,
                workers > 0,
        ;
    }
}

/// The source that a worker names.
pub open spec fn source_name(worker: nat) -> Seq<char> {
    "clickhouse-docker-"@ + decimal(worker)
}

/// The source that a worker names.
pub fn worker_source(worker: usize) -> (source: String)
    ensures
        source@ == source_name(worker as nat),
{
    let mut source = "clickhouse-docker-".to_owned();
    push_decimal(&mut source, worker as u128);
    source
}

/// The identity by which the records of a worker are routed.
pub open spec fn route_identity(worker: nat) -> Seq<u8> {
    let source = encode_utf8(source_name(worker));
    spec_u64_to_le_bytes(6) + seq![0x73u8, 0x6fu8, 0x75u8, 0x72u8, 0x63u8, 0x65u8]
        + spec_u64_to_le_bytes(source.len() as u64) + source
}

/// The identity by which the records of a worker are routed.
pub fn worker_route_identity(worker: usize) -> (identity: Vec<u8>)
    ensures
        identity@ == route_identity(worker as nat),
{
    let source = worker_source(worker);
    let bytes = source.as_str().as_bytes();
    let mut identity: Vec<u8> = Vec::new();
    push_u64(&mut identity, 6);
    let label: [u8; 6] = [0x73, 0x6f, 0x75, 0x72, 0x63, 0x65];
    assert(label@ =~= seq![0x73u8, 0x6fu8, 0x75u8, 0x72u8, 0x63u8, 0x65u8]);
    push_bytes(&mut identity, label.as_slice());
    push_u64(&mut identity, bytes.len() as u64);
    push_bytes(&mut identity, bytes);
    assert(identity@ =~= route_identity(worker as nat));
    identity
}

proof fn lemma_decimal_is_injective(left: nat, right: nat)
    requires
        decimal(left) == decimal(right),
    ensures
        left == right,
    decreases left,
{
    let (a, b) = (decimal(left), decimal(right));
    assert(a.len() == b.len());
    assert(a.last() == b.last());
    if left >= 10 && right >= 10 {
        assert(a.drop_last() =~= decimal(left / 10));
        assert(b.drop_last() =~= decimal(right / 10));
        lemma_decimal_is_injective(left / 10, right / 10);
    } else if left >= 10 {
        assert(a.drop_last() =~= decimal(left / 10));
        lemma_decimal_is_nonempty(left / 10);
    } else if right >= 10 {
        assert(b.drop_last() =~= decimal(right / 10));
        lemma_decimal_is_nonempty(right / 10);
    }
}

proof fn lemma_decimal_is_nonempty(value: nat)
    ensures
        decimal(value).len() > 0,
{
}

/// Two workers never share a source or a routing identity.
pub proof fn workers_are_told_apart(left: nat, right: nat)
    requires
        left != right,
    ensures
        source_name(left) != source_name(right),
        route_identity(left) != route_identity(right),
{
    if source_name(left) == source_name(right) {
        let words = "clickhouse-docker-"@.len() as int;
        assert(source_name(left).skip(words) =~= decimal(left));
        assert(source_name(right).skip(words) =~= decimal(right));
        lemma_decimal_is_injective(left, right);
    }
    if route_identity(left) == route_identity(right) {
        crate::wire::fields_read_back();
        assert(route_identity(left).skip(22) =~= encode_utf8(source_name(left)));
        assert(route_identity(right).skip(22) =~= encode_utf8(source_name(right)));
        vstd::utf8::encode_utf8_decode_utf8(source_name(left));
        vstd::utf8::encode_utf8_decode_utf8(source_name(right));
    }
}

/// Stream of a container record.
#[derive(Debug, PartialEq, Eq)]
pub enum DockerLogStream {
    /// None named.
    Empty,
    /// Standard output.
    Stdout,
    /// Standard error.
    Stderr,
    /// Another name.
    Other(String),
}

/// Whether a stream has a name.
pub open spec fn stream_named(stream: DockerLogStream, name: Seq<char>) -> bool {
    match stream {
        DockerLogStream::Empty => name == ""@,
        DockerLogStream::Stdout => name == "stdout"@,
        DockerLogStream::Stderr => name == "stderr"@,
        DockerLogStream::Other(other) => other@ == name && name != ""@ && name != "stdout"@ && name
            != "stderr"@,
    }
}

/// The stream with a name.
pub fn docker_stream(name: &str) -> (stream: DockerLogStream)
    ensures
        stream_named(stream, name@),
{
    if same_str(name, "") {
        DockerLogStream::Empty
    } else if same_str(name, "stdout") {
        DockerLogStream::Stdout
    } else if same_str(name, "stderr") {
        DockerLogStream::Stderr
    } else {
        DockerLogStream::Other(name.to_owned())
    }
}

/// One container record.
#[derive(Debug, PartialEq, Eq)]
pub struct DockerLogRecord {
    /// Unix nanoseconds.
    pub timestamp_unix_nanos: u64,
    /// Message.
    pub message: String,
    /// Stream.
    pub stream: DockerLogStream,
}

/// A text as a JSON string.
pub uninterp spec fn json_quoted(text: Seq<char>) -> Seq<char>;

/// Calls `serde_json::to_string` on a string. The claim is that the outcome
/// depends on the text alone.
#[verifier::external_body]
fn json_text(text: &str) -> (quoted: String)
    ensures
        quoted@ == json_quoted(text@),
{
    serde_json::to_string(text).unwrap_or_default()
}

/// Records on their way into one request.
#[derive(Debug)]
pub enum LoadBatch {
    /// Values of a Loki stream.
    Loki {
        /// The values, as JSON.
        values: String,
        /// Number of records.
        records: usize,
    },
    /// Records of a native request.
    Native {
        /// The records.
        entries: Vec<DockerLogRecord>,
        /// Bytes that they are taken to need.
        estimated_bytes: usize,
    },
}

/// One value of a Loki stream.
pub open spec fn loki_value(timestamp: u64, log: Seq<char>, stream: Seq<char>) -> Seq<char> {
    let metadata = if stream.len() == 0 {
        Seq::empty()
    } else {
        ",{\"docker_stream\":"@ + json_quoted(stream) + "}"@
    };
    "[\""@ + decimal(timestamp as nat) + "\","@ + json_quoted(log) + metadata + "]"@
}

/// Bytes that a batch is taken to need after one more record.
pub open spec fn estimate_after(estimated_bytes: usize, log: Seq<char>, stream: Seq<char>) -> int {
    let sum = estimated_bytes + encode_utf8(log).len() + encode_utf8(stream).len() + 32;
    if sum > usize::MAX {
        usize::MAX as int
    } else {
        sum
    }
}

fn push_loki_value(values: &mut String, first: bool, timestamp: u64, log: &str, stream: &str)
    ensures
        final(values)@ == old(values)@ + if first {
            loki_value(timestamp, log@, stream@)
        } else {
            ","@ + loki_value(timestamp, log@, stream@)
        },
{
    if !first {
        values.append(",");
    }
    values.append("[\"");
    push_decimal(values, timestamp as u128);
    values.append("\",");
    values.append(json_text(log).as_str());
    if !stream.is_empty() {
        values.append(",{\"docker_stream\":");
        values.append(json_text(stream).as_str());
        values.append("}");
    }
    values.append("]");
    assert(values@ =~= old(values)@ + if first {
        loki_value(timestamp, log@, stream@)
    } else {
        ","@ + loki_value(timestamp, log@, stream@)
    });
}

impl LoadBatch {
    /// An empty batch.
    pub fn new(protocol: LoadProtocol) -> (batch: Self)
        ensures
            match batch {
                LoadBatch::Loki { values, records } => protocol == LoadProtocol::Loki && values@
                    == Seq::<char>::empty() && records == 0,
                LoadBatch::Native { entries, estimated_bytes } => protocol == LoadProtocol::Native
                    && entries@.len() == 0 && estimated_bytes == 0,
            },
    {
        match protocol {
            LoadProtocol::Loki => LoadBatch::Loki { values: String::new(), records: 0 },
            LoadProtocol::Native => LoadBatch::Native { entries: Vec::new(), estimated_bytes: 0 },
        }
    }

    /// Whether one more record was added.
    pub open spec fn gained(
        before: LoadBatch,
        after: LoadBatch,
        timestamp: u64,
        log: Seq<char>,
        stream: Seq<char>,
    ) -> bool {
        match (before, after) {
            (
                LoadBatch::Loki { values, records },
                LoadBatch::Loki { values: more, records: count },
            ) => count == records + 1 && more@ == values@ + if records == 0 {
                loki_value(timestamp, log, stream)
            } else {
                ","@ + loki_value(timestamp, log, stream)
            },
            (
                LoadBatch::Native { entries, estimated_bytes },
                LoadBatch::Native { entries: more, estimated_bytes: estimate },
            ) => {
                &&& estimate == estimate_after(estimated_bytes, log, stream)
                &&& more@.len() == entries@.len() + 1
                &&& more@.drop_last() == entries@
                &&& more@.last().timestamp_unix_nanos == timestamp
                &&& more@.last().message@ == log
                &&& stream_named(more@.last().stream, stream)
            },
            _ => false,
        }
    }

    /// Adds a record.
    pub fn push(self, timestamp: u64, log: &str, stream: &str) -> (batch: Self)
        requires
            self matches LoadBatch::Loki { values, records } ==> records < usize::MAX,
        ensures
            Self::gained(self, batch, timestamp, log@, stream@),
    {
        match self {
            LoadBatch::Loki { values, records } => {
                let mut more = values;
                push_loki_value(&mut more, records == 0, timestamp, log, stream);
                LoadBatch::Loki { values: more, records: records + 1 }
            },
            LoadBatch::Native { entries, estimated_bytes } => {
                let estimate = estimated_bytes.saturating_add(log.as_bytes().len()).saturating_add(
                    stream.as_bytes().len(),
                ).saturating_add(32);
                let ghost before = entries@;
                let mut more = entries;
                more.push(
                    DockerLogRecord {
                        timestamp_unix_nanos: timestamp,
                        message: log.to_owned(),
                        stream: docker_stream(stream),
                    },
                );
                assert(more@.drop_last() =~= before);
                LoadBatch::Native { entries: more, estimated_bytes: estimate }
            },
        }
    }

    /// Bytes that the batch is taken to need.
    pub fn estimated_bytes(&self) -> (bytes: usize)
        ensures
            match self {
                LoadBatch::Loki { values, .. } => bytes == encode_utf8(values@).len(),
                LoadBatch::Native { estimated_bytes, .. } => bytes == *estimated_bytes,
            },
    {
        match self {
            LoadBatch::Loki { values, .. } => values.as_str().as_bytes().len(),
            LoadBatch::Native { estimated_bytes, .. } => *estimated_bytes,
        }
    }

    /// Whether the batch holds no record.
    pub fn is_empty(&self) -> (empty: bool)
        ensures
            empty == match self {
                LoadBatch::Loki { records, .. } => *records == 0,
                LoadBatch::Native { entries, .. } => entries@.len() == 0,
            },
    {
        match self {
            LoadBatch::Loki { records, .. } => *records == 0,
            LoadBatch::Native { entries, .. } => entries.len() == 0,
        }
    }
}

/// What a worker makes of a line.
#[derive(Debug, Clone, Copy, PartialEq, Eq, Structural)]
pub enum LineStep {
    /// The line is to be read as a record.
    Read,
    /// The worker is done: nothing was left, or only a line that another worker
    /// or nobody completes.
    Stop,
}

/// How far a worker has come, and what it counted on the way.
#[derive(Debug, Clone, Copy, PartialEq, Eq, Structural)]
pub struct WorkerProgress {
    /// Place of the next byte in the source.
    pub position: u64,
    /// Place behind the span of the worker.
    pub end: u64,
    /// Bytes read.
    pub source_bytes: u64,
    /// Records read.
    pub records: u64,
    /// Lines that are no records.
    pub malformed_records: u64,
    /// Bytes sent.
    pub pushed_bytes: u64,
}

impl WorkerProgress {
    /// A worker at its span. One that does not start with the source has skipped
    /// the rest of the line that its span starts in.
    pub fn new(span: (u64, u64), skipped: u64) -> (progress: Self)
        requires
            span.0 + skipped <= u64::MAX,
        ensures
            progress == (WorkerProgress {
                position: (span.0 + skipped) as u64,
                end: span.1,
                source_bytes: 0,
                records: 0,
                malformed_records: 0,
                pushed_bytes: 0,
            }),
    {
        WorkerProgress {
            position: span.0 + skipped,
            end: span.1,
            source_bytes: 0,
            records: 0,
            malformed_records: 0,
            pushed_bytes: 0,
        }
    }

    /// Whether lines of the span are left.
    pub fn wants_more(&self) -> (wanted: bool)
        ensures
            wanted == (self.position < self.end),
    {
        self.position < self.end
    }

    /// Counts a line, which is empty at the end of the source.
    pub fn take_line(&mut self, line: &[u8]) -> (step: LineStep)
        requires
            old(self).position + line@.len() <= u64::MAX,
            old(self).source_bytes + line@.len() <= u64::MAX,
        ensures
            *final(self) == (WorkerProgress {
                position: (old(self).position + line@.len()) as u64,
                source_bytes: (old(self).source_bytes + line@.len()) as u64,
                ..*old(self)
            }),
            step == if line@.len() == 0 || line@.last() != 0x0a && old(self).position
                + line@.len() >= old(self).end {
                LineStep::Stop
            } else {
                LineStep::Read
            },
    {
        assert(line.len() == line@.len());
        if line.len() == 0 {
            return LineStep::Stop;
        }
        self.position = self.position + line.len() as u64;
        self.source_bytes = self.source_bytes + line.len() as u64;
        if line[line.len() - 1] != 0x0a && self.position >= self.end {
            LineStep::Stop
        } else {
            LineStep::Read
        }
    }

    /// Counts a line that is no record.
    pub fn reject(&mut self)
        ensures
            *final(self) == (WorkerProgress {
                malformed_records: if old(self).malformed_records == u64::MAX {
                    u64::MAX
                } else {
                    (old(self).malformed_records + 1) as u64
                },
                ..*old(self)
            }),
    {
        self.malformed_records = self.malformed_records.saturating_add(1);
    }

    /// Counts a record.
    pub fn accept(&mut self)
        requires
            old(self).records < u64::MAX,
        ensures
            *final(self) == (WorkerProgress {
                records: (old(self).records + 1) as u64,
                ..*old(self)
            }),
    {
        self.records = self.records + 1;
    }

    /// Counts what was sent.
    pub fn send(&mut self, bytes: usize)
        requires
            old(self).pushed_bytes + bytes <= u64::MAX,
        ensures
            *final(self) == (WorkerProgress {
                pushed_bytes: (old(self).pushed_bytes + bytes) as u64,
                ..*old(self)
            }),
    {
        self.pushed_bytes = self.pushed_bytes + bytes as u64;
    }
}

} // verus!
