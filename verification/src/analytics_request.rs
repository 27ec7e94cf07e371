//! Bounded analytical scan requests and their query-string form.

use vstd::prelude::*;
use vstd::utf8::encode_utf8;

use crate::analytics_columns::{
    column_names_are_distinct, AnalyticsColumn, AnalyticsRelation, AnalyticsScanOrder,
    AnalyticsWireFormat,
};
use crate::error::{ApiErrorKind, LokiApiError};
use crate::records::{be_value, read_be, MetadataField, SeriesFingerprint, SpanId, TraceId};
use crate::string_map::{pair_view, pair_views};
use crate::text::{
    all_hex, characters, debug_quoted, debug_text, decode_hex_pairs, has_prefix, hex_bytes,
    parse_unsigned, same_str, split, split_on, string_from, strip_prefix, text_views,
    unsigned_value, views,
};

verus! {

/// Bounded storage-level scan requested by ClickHouse.
#[derive(Debug, PartialEq, Eq)]
pub struct AnalyticsScanRequest {
    /// Authenticated tenant.
    pub tenant: String,
    /// Scanned relation.
    pub relation: AnalyticsRelation,
    /// Inclusive lower time bound.
    pub start_timestamp_unix_nanos: Option<u64>,
    /// Exclusive upper time bound.
    pub end_timestamp_unix_nanos: Option<u64>,
    /// Terms that the message must hold.
    pub terms: Vec<String>,
    /// Exact tokens that the message must hold.
    pub message_tokens: Vec<String>,
    /// Tokens that the message must hold in any case.
    pub case_insensitive_message_tokens: Vec<String>,
    /// Required labels.
    pub labels: Vec<MetadataField>,
    /// Required metadata.
    pub metadata: Vec<MetadataField>,
    /// Required record attributes.
    pub attributes: Vec<MetadataField>,
    /// Required resource attributes.
    pub resource_attributes: Vec<MetadataField>,
    /// Required scope attributes.
    pub scope_attributes: Vec<MetadataField>,
    /// Required trace.
    pub trace_id: Option<TraceId>,
    /// Required span.
    pub span_id: Option<SpanId>,
    /// Required metric series.
    pub series_id: Option<SeriesFingerprint>,
    /// Required name.
    pub name: Option<String>,
    /// Projected columns.
    pub columns: Vec<AnalyticsColumn>,
    /// Maximum rows.
    pub limit: Option<usize>,
    /// Whether only the number of rows matters.
    pub cardinality_only: bool,
    /// Order of a bounded log scan.
    pub order: Option<AnalyticsScanOrder>,
    /// Response encoding.
    pub wire_format: AnalyticsWireFormat,
}

/// What a request asks for.
#[verifier::ext_equal]
pub struct ScanContent {
    /// Tenant.
    pub tenant: Seq<char>,
    /// Relation.
    pub relation: AnalyticsRelation,
    /// Inclusive lower time bound.
    pub start: Option<u64>,
    /// Exclusive upper time bound.
    pub end: Option<u64>,
    /// Message terms.
    pub terms: Seq<Seq<char>>,
    /// Message tokens.
    pub message_tokens: Seq<Seq<char>>,
    /// Message tokens in any case.
    pub case_insensitive_message_tokens: Seq<Seq<char>>,
    /// Labels.
    pub labels: Seq<(Seq<char>, Seq<char>)>,
    /// Metadata.
    pub metadata: Seq<(Seq<char>, Seq<char>)>,
    /// Record attributes.
    pub attributes: Seq<(Seq<char>, Seq<char>)>,
    /// Resource attributes.
    pub resource_attributes: Seq<(Seq<char>, Seq<char>)>,
    /// Scope attributes.
    pub scope_attributes: Seq<(Seq<char>, Seq<char>)>,
    /// Trace.
    pub trace_id: Option<TraceId>,
    /// Span.
    pub span_id: Option<SpanId>,
    /// Series.
    pub series_id: Option<SeriesFingerprint>,
    /// Name.
    pub name: Option<Seq<char>>,
    /// Columns.
    pub columns: Seq<AnalyticsColumn>,
    /// Maximum rows.
    pub limit: Option<usize>,
    /// Whether only the number of rows matters.
    pub cardinality_only: bool,
    /// Order.
    pub order: Option<AnalyticsScanOrder>,
    /// Encoding.
    pub wire_format: AnalyticsWireFormat,
}

/// Key and value of each field.
pub open spec fn field_views(fields: Seq<MetadataField>) -> Seq<(Seq<char>, Seq<char>)> {
    fields.map_values(|field: MetadataField| (field.key@, field.value@))
}

/// Text of an optional string.
pub open spec fn optional_view(text: Option<String>) -> Option<Seq<char>> {
    match text {
        Some(found) => Some(found@),
        None => None,
    }
}

impl ScanContent {
    /// A full-column scan of one relation.
    pub open spec fn full(tenant: Seq<char>, relation: AnalyticsRelation) -> ScanContent {
        ScanContent {
            tenant,
            relation,
            start: None,
            end: None,
            terms: Seq::empty(),
            message_tokens: Seq::empty(),
            case_insensitive_message_tokens: Seq::empty(),
            labels: Seq::empty(),
            metadata: Seq::empty(),
            attributes: Seq::empty(),
            resource_attributes: Seq::empty(),
            scope_attributes: Seq::empty(),
            trace_id: None,
            span_id: None,
            series_id: None,
            name: None,
            columns: relation.declared(),
            limit: None,
            cardinality_only: false,
            order: None,
            wire_format: AnalyticsWireFormat::ArrowStream,
        }
    }

    /// Whether every column belongs to the relation and none occurs twice.
    pub open spec fn columns_fit(self) -> bool {
        &&& self.columns.no_duplicates()
        &&& forall|i: int|
            0 <= i < self.columns.len() ==> self.relation.declared().contains(
                #[trigger] self.columns[i],
            )
    }

    /// Whether only a count is wanted in a form that cannot carry one.
    pub open spec fn cardinality_misfit(self) -> bool {
        self.cardinality_only && (self.columns.len() != 1 || (self.wire_format is ArrowStream
            && self.columns[0] != AnalyticsColumn::Offset) || self.wire_format is JsonLines)
    }

    /// Why this request is refused, if it is.
    pub open spec fn complaint(self) -> Option<Seq<char>> {
        if self.tenant.len() == 0 {
            Some("analytics tenant must not be empty"@)
        } else if self.columns.len() == 0 {
            Some("analytics columns must not be empty"@)
        } else if !self.columns_fit() {
            Some("analytics columns contain a duplicate or relation-incompatible column"@)
        } else if self.cardinality_misfit() {
            Some("cardinality_only requires one RowBinary column or the Arrow offset column"@)
        } else if self.order is Some && !(self.relation is Logs) {
            Some("ordered analytical scans are currently log-only"@)
        } else if self.order is Some && self.limit is None {
            Some("ordered analytical scans require a bounded limit"@)
        } else if self.start is Some && self.end is Some && self.start->0 >= self.end->0 {
            Some("analytics timestamp range must be non-empty"@)
        } else if !(self.relation is Logs) && (self.terms.len() > 0 || self.message_tokens.len() > 0
            || self.case_insensitive_message_tokens.len() > 0) {
            Some("term filtering is available only on the logs relation"@)
        } else {
            None
        }
    }
}

impl AnalyticsScanRequest {
    /// What this request asks for.
    pub open spec fn content(&self) -> ScanContent {
        ScanContent {
            tenant: self.tenant@,
            relation: self.relation,
            start: self.start_timestamp_unix_nanos,
            end: self.end_timestamp_unix_nanos,
            terms: text_views(self.terms@),
            message_tokens: text_views(self.message_tokens@),
            case_insensitive_message_tokens: text_views(self.case_insensitive_message_tokens@),
            labels: field_views(self.labels@),
            metadata: field_views(self.metadata@),
            attributes: field_views(self.attributes@),
            resource_attributes: field_views(self.resource_attributes@),
            scope_attributes: field_views(self.scope_attributes@),
            trace_id: self.trace_id,
            span_id: self.span_id,
            series_id: self.series_id,
            name: optional_view(self.name),
            columns: self.columns@,
            limit: self.limit,
            cardinality_only: self.cardinality_only,
            order: self.order,
            wire_format: self.wire_format,
        }
    }

    /// Creates a full-column log scan for one tenant.
    #[must_use]
    pub fn new(tenant: &str) -> (request: Self)
        ensures
            request.content() == ScanContent::full(tenant@, AnalyticsRelation::Logs),
    {
        Self::for_relation(tenant, AnalyticsRelation::Logs)
    }

    /// Creates a full-column scan for one relation.
    #[must_use]
    pub fn for_relation(tenant: &str, relation: AnalyticsRelation) -> (request: Self)
        ensures
            request.content() == ScanContent::full(tenant@, relation),
    {
        let request = Self {
            tenant: tenant.to_owned(),
            relation,
            start_timestamp_unix_nanos: None,
            end_timestamp_unix_nanos: None,
            terms: Vec::new(),
            message_tokens: Vec::new(),
            case_insensitive_message_tokens: Vec::new(),
            labels: Vec::new(),
            metadata: Vec::new(),
            attributes: Vec::new(),
            resource_attributes: Vec::new(),
            scope_attributes: Vec::new(),
            trace_id: None,
            span_id: None,
            series_id: None,
            name: None,
            columns: relation.columns(),
            limit: None,
            cardinality_only: false,
            order: None,
            wire_format: AnalyticsWireFormat::ArrowStream,
        };
        assert(request.content() =~= ScanContent::full(tenant@, relation));
        request
    }

    /// Refuses requests that no scan can answer.
    pub fn validate(&self) -> (result: Result<(), LokiApiError>)
        ensures
            match (result, self.content().complaint()) {
                (Ok(()), None) => true,
                (Err(error), Some(message)) => error.says(ApiErrorKind::BadRequest, message),
                _ => false,
            },
    {
        if self.tenant.as_str().is_empty() {
            return Err(LokiApiError::bad_request("analytics tenant must not be empty"));
        }
        if self.columns.len() == 0 {
            return Err(LokiApiError::bad_request("analytics columns must not be empty"));
        }
        if !self.has_fitting_columns() {
            return Err(
                LokiApiError::bad_request(
                    "analytics columns contain a duplicate or relation-incompatible column",
                ),
            );
        }
        if self.cardinality_only && (self.columns.len() != 1 || (self.wire_format
            == AnalyticsWireFormat::ArrowStream && self.columns[0] != AnalyticsColumn::Offset)
            || self.wire_format == AnalyticsWireFormat::JsonLines) {
            return Err(
                LokiApiError::bad_request(
                    "cardinality_only requires one RowBinary column or the Arrow offset column",
                ),
            );
        }
        if self.order.is_some() && self.relation != AnalyticsRelation::Logs {
            return Err(
                LokiApiError::bad_request("ordered analytical scans are currently log-only"),
            );
        }
        if self.order.is_some() && self.limit.is_none() {
            return Err(
                LokiApiError::bad_request("ordered analytical scans require a bounded limit"),
            );
        }
        if let (Some(start), Some(end)) = (
            self.start_timestamp_unix_nanos,
            self.end_timestamp_unix_nanos,
        ) {
            if start >= end {
                return Err(LokiApiError::bad_request("analytics timestamp range must be non-empty"));
            }
        }
        if self.relation != AnalyticsRelation::Logs && (self.terms.len() > 0
            || self.message_tokens.len() > 0 || self.case_insensitive_message_tokens.len() > 0) {
            return Err(
                LokiApiError::bad_request("term filtering is available only on the logs relation"),
            );
        }
        Ok(())
    }

    fn has_fitting_columns(&self) -> (fit: bool)
        ensures
            fit == self.content().columns_fit(),
    {
        let allowed = self.relation.columns();
        let mut index: usize = 0;
        while index < self.columns.len()
            invariant
                allowed@ == self.relation.declared(),
                index <= self.columns@.len(),
                forall|i: int|
                    0 <= i < index ==> self.relation.declared().contains(
                        #[trigger] self.columns@[i],
                    ),
                forall|i: int, j: int| 0 <= i < j < index ==> self.columns@[i] != self.columns@[j],
            decreases self.columns@.len() - index,
        {
            let column = self.columns[index];
            if !lists(&allowed, column, allowed.len()) {
                assert(self.content().columns[index as int] == column);
                assert(!allowed@.contains(column)) by {
                    if allowed@.contains(column) {
                        let i = choose|i: int| 0 <= i < allowed@.len() && allowed@[i] == column;
                    }
                }
                return false;
            }
            if lists(&self.columns, column, index) {
                assert(!self.columns@.no_duplicates());
                return false;
            }
            index = index + 1;
        }
        true
    }
}

/// Whether a column occurs among the first `count` of a list.
fn lists(columns: &Vec<AnalyticsColumn>, column: AnalyticsColumn, count: usize) -> (listed: bool)
    requires
        count <= columns@.len(),
    ensures
        listed == (exists|i: int| 0 <= i < count && #[trigger] columns@[i] == column),
{
    let mut index: usize = 0;
    while index < count
        invariant
            count <= columns@.len(),
            forall|i: int| 0 <= i < index ==> #[trigger] columns@[i] != column,
        decreases count - index,
    {
        if columns[index] == column {
            return true;
        }
        index = index + 1;
    }
    false
}

/// The key/value pairs that the `application/x-www-form-urlencoded` parser
/// finds in a query string.
pub uninterp spec fn form_urlencoded_pairs(query: Seq<char>) -> Seq<(Seq<char>, Seq<char>)>;

/// Calls `form_urlencoded::parse`: the decoded pairs of the query string, in
/// order.
#[verifier::external_body]
fn decode_pairs(query: &str) -> (pairs: Vec<(String, String)>)
    ensures
        pair_views(pairs@) == form_urlencoded_pairs(query@),
{
    form_urlencoded::parse(query.as_bytes()).map(
        |(key, value)| (key.into_owned(), value.into_owned()),
    ).collect()
}

/// The values given for `relation`.
pub open spec fn relation_values(pairs: Seq<(Seq<char>, Seq<char>)>) -> Seq<Seq<char>>
    decreases pairs.len(),
{
    if pairs.len() == 0 {
        Seq::empty()
    } else if pairs.last().0 == "relation"@ {
        relation_values(pairs.drop_last()).push(pairs.last().1)
    } else {
        relation_values(pairs.drop_last())
    }
}

/// The relation that a query string asks for, or why none.
pub open spec fn wanted_relation(pairs: Seq<(Seq<char>, Seq<char>)>) -> Result<
    AnalyticsRelation,
    Seq<char>,
> {
    let values = relation_values(pairs);
    if values.len() > 1 {
        Err("relation may be specified only once"@)
    } else if values.len() == 0 {
        Ok(AnalyticsRelation::Logs)
    } else {
        match AnalyticsRelation::named(values[0]) {
            Some(relation) => Ok(relation),
            None => Err("unknown analytics relation"@),
        }
    }
}

/// The bytes of an identifier of `length` bytes in hexadecimal, or why not.
pub open spec fn hex_identifier(value: Seq<char>, length: nat) -> Result<Seq<u8>, Seq<char>> {
    let digits = encode_utf8(value);
    if digits.len() != 2 * length {
        Err("hex identifier has the wrong length"@)
    } else if !all_hex(digits) {
        Err("identifier contains non-hex bytes"@)
    } else {
        Ok(hex_bytes(digits))
    }
}

/// The column of a name.
pub open spec fn column_named(name: Seq<char>) -> Option<AnalyticsColumn> {
    if exists|column: AnalyticsColumn| #[trigger] column.wire_name() == name {
        Some(choose|column: AnalyticsColumn| #[trigger] column.wire_name() == name)
    } else {
        None
    }
}

/// The columns of a list of names, or the complaint about the first unknown.
pub open spec fn columns_named(names: Seq<Seq<char>>) -> Result<Seq<AnalyticsColumn>, Seq<char>>
    decreases names.len(),
{
    if names.len() == 0 {
        Ok(Seq::empty())
    } else {
        match columns_named(names.drop_last()) {
            Err(message) => Err(message),
            Ok(columns) => match column_named(names.last()) {
                Some(column) => Ok(columns.push(column)),
                None => Err("unknown analytics column "@ + debug_quoted(names.last())),
            },
        }
    }
}

/// A request while its query string is read.
#[verifier::ext_equal]
pub struct ScanProgress {
    /// The request so far.
    pub content: ScanContent,
    /// Whether columns were given.
    pub columns_seen: bool,
    /// Whether `cardinality_only` was given.
    pub cardinality_seen: bool,
    /// Whether an order was given.
    pub order_seen: bool,
    /// Whether a wire format was given.
    pub wire_seen: bool,
}

/// One more prefixed field.
pub open spec fn with_field(
    fields: Seq<(Seq<char>, Seq<char>)>,
    name: Seq<char>,
    value: Seq<char>,
) -> Result<Seq<(Seq<char>, Seq<char>)>, Seq<char>> {
    if name.len() == 0 {
        Err("attribute name must not be empty"@)
    } else {
        Ok(fields.push((name, value)))
    }
}

impl ScanProgress {
    /// The next request.
    pub open spec fn with(self, content: ScanContent) -> Result<ScanProgress, Seq<char>> {
        Ok(ScanProgress { content, ..self })
    }

    /// The effect of one parameter, or why it is refused.
    pub open spec fn step(self, key: Seq<char>, value: Seq<char>) -> Result<
        ScanProgress,
        Seq<char>,
    > {
        let content = self.content;
        if key == "relation"@ {
            Ok(self)
        } else if key == "start_ns"@ {
            match unsigned_value(value, u64::MAX as nat) {
                Some(number) => self.with(
                    ScanContent { start: Some(number as u64), ..content },
                ),
                None => Err("start_ns is not a u64"@),
            }
        } else if key == "end_ns"@ {
            match unsigned_value(value, u64::MAX as nat) {
                Some(number) => self.with(ScanContent { end: Some(number as u64), ..content }),
                None => Err("end_ns is not a u64"@),
            }
        } else if key == "limit"@ {
            match unsigned_value(value, usize::MAX as nat) {
                Some(number) => self.with(
                    ScanContent { limit: Some(number as usize), ..content },
                ),
                None => Err("limit is not a usize"@),
            }
        } else if key == "cardinality_only"@ {
            if self.cardinality_seen {
                Err("cardinality_only may be specified only once"@)
            } else if value == "1"@ || value == "true"@ {
                Ok(
                    ScanProgress {
                        content: ScanContent { cardinality_only: true, ..content },
                        cardinality_seen: true,
                        ..self
                    },
                )
            } else if value == "0"@ || value == "false"@ {
                Ok(
                    ScanProgress {
                        content: ScanContent { cardinality_only: false, ..content },
                        cardinality_seen: true,
                        ..self
                    },
                )
            } else {
                Err("cardinality_only is not a boolean"@)
            }
        } else if key == "order"@ {
            if self.order_seen {
                Err("order may be specified only once"@)
            } else if value == "timestamp_asc"@ {
                Ok(
                    ScanProgress {
                        content: ScanContent {
                            order: Some(AnalyticsScanOrder::TimestampAscending),
                            ..content
                        },
                        order_seen: true,
                        ..self
                    },
                )
            } else if value == "timestamp_desc"@ {
                Ok(
                    ScanProgress {
                        content: ScanContent {
                            order: Some(AnalyticsScanOrder::TimestampDescending),
                            ..content
                        },
                        order_seen: true,
                        ..self
                    },
                )
            } else {
                Err("unknown analytics order"@)
            }
        } else if key == "wire"@ {
            if self.wire_seen {
                Err("wire may be specified only once"@)
            } else {
                match wire_named(value) {
                    Some(wire_format) => Ok(
                        ScanProgress {
                            content: ScanContent { wire_format, ..content },
                            wire_seen: true,
                            ..self
                        },
                    ),
                    None => Err("unknown analytics wire format"@),
                }
            }
        } else if key == "term"@ {
            self.with(ScanContent { terms: content.terms.push(value), ..content })
        } else if key == "message_token"@ {
            self.with(
                ScanContent { message_tokens: content.message_tokens.push(value), ..content },
            )
        } else if key == "message_token_ci"@ {
            self.with(
                ScanContent {
                    case_insensitive_message_tokens: content.case_insensitive_message_tokens.push(
                        value,
                    ),
                    ..content
                },
            )
        } else if key == "trace_id"@ {
            match hex_identifier(value, 16) {
                Err(message) => Err(message),
                Ok(bytes) => if be_value(bytes) == 0 {
                    Err("trace_id is not a valid nonzero 128-bit hex ID"@)
                } else {
                    self.with(
                        ScanContent {
                            trace_id: Some(TraceId(be_value(bytes) as u128)),
                            ..content
                        },
                    )
                },
            }
        } else if key == "span_id"@ {
            match hex_identifier(value, 8) {
                Err(message) => Err(message),
                Ok(bytes) => if be_value(bytes) == 0 {
                    Err("span_id is not a valid nonzero 64-bit hex ID"@)
                } else {
                    self.with(
                        ScanContent { span_id: Some(SpanId(be_value(bytes) as u64)), ..content },
                    )
                },
            }
        } else if key == "series_id"@ {
            match hex_identifier(value, 16) {
                Err(message) => Err(message),
                Ok(bytes) => self.with(
                    ScanContent {
                        series_id: Some(SeriesFingerprint(be_value(bytes) as u128)),
                        ..content
                    },
                ),
            }
        } else if key == "name"@ {
            self.with(ScanContent { name: Some(value), ..content })
        } else if key == "columns"@ {
            if self.columns_seen {
                Err("columns may be specified only once"@)
            } else {
                match columns_named(split_on(value, ',')) {
                    Err(message) => Err(message),
                    Ok(columns) => Ok(
                        ScanProgress {
                            content: ScanContent { columns, ..content },
                            columns_seen: true,
                            ..self
                        },
                    ),
                }
            }
        } else {
            self.field_step(key, value)
        }
    }

    /// The effect of a prefixed parameter, or why it is refused.
    pub open spec fn field_step(self, key: Seq<char>, value: Seq<char>) -> Result<
        ScanProgress,
        Seq<char>,
    > {
        let content = self.content;
        if has_prefix(key, "label."@) {
            match with_field(content.labels, key.skip("label."@.len() as int), value) {
                Err(message) => Err(message),
                Ok(labels) => self.with(ScanContent { labels, ..content }),
            }
        } else if has_prefix(key, "metadata."@) {
            match with_field(content.metadata, key.skip("metadata."@.len() as int), value) {
                Err(message) => Err(message),
                Ok(metadata) => self.with(ScanContent { metadata, ..content }),
            }
        } else if has_prefix(key, "attribute."@) {
            match with_field(content.attributes, key.skip("attribute."@.len() as int), value) {
                Err(message) => Err(message),
                Ok(attributes) => self.with(ScanContent { attributes, ..content }),
            }
        } else if has_prefix(key, "resource."@) {
            match with_field(
                content.resource_attributes,
                key.skip("resource."@.len() as int),
                value,
            ) {
                Err(message) => Err(message),
                Ok(resource_attributes) => self.with(
                    ScanContent { resource_attributes, ..content },
                ),
            }
        } else if has_prefix(key, "scope."@) {
            match with_field(content.scope_attributes, key.skip("scope."@.len() as int), value) {
                Err(message) => Err(message),
                Ok(scope_attributes) => self.with(ScanContent { scope_attributes, ..content }),
            }
        } else {
            Err("unknown analytics parameter "@ + debug_quoted(key))
        }
    }

    /// The effect of all parameters in turn, or the first refusal.
    pub open spec fn read(self, pairs: Seq<(Seq<char>, Seq<char>)>) -> Result<
        ScanProgress,
        Seq<char>,
    >
        decreases pairs.len(),
    {
        if pairs.len() == 0 {
            Ok(self)
        } else {
            match self.read(pairs.drop_last()) {
                Err(message) => Err(message),
                Ok(progress) => progress.step(pairs.last().0, pairs.last().1),
            }
        }
    }
}

/// The wire format of a name.
pub open spec fn wire_named(value: Seq<char>) -> Option<AnalyticsWireFormat> {
    if value == "arrow"@ || value == "arrow_stream"@ {
        Some(AnalyticsWireFormat::ArrowStream)
    } else if value == "rowbinary"@ {
        Some(AnalyticsWireFormat::RowBinary)
    } else if value == "json"@ || value == "jsonl"@ || value == "ndjson"@ {
        Some(AnalyticsWireFormat::JsonLines)
    } else {
        None
    }
}

/// The request that a tenant's parameters spell, or the first refusal.
pub open spec fn requested(tenant: Seq<char>, pairs: Seq<(Seq<char>, Seq<char>)>) -> Result<
    ScanContent,
    Seq<char>,
> {
    match wanted_relation(pairs) {
        Err(message) => Err(message),
        Ok(relation) => {
            let start = ScanProgress {
                content: ScanContent::full(tenant, relation),
                columns_seen: false,
                cardinality_seen: false,
                order_seen: false,
                wire_seen: false,
            };
            match start.read(pairs) {
                Err(message) => Err(message),
                Ok(progress) => match progress.content.complaint() {
                    Some(message) => Err(message),
                    None => Ok(progress.content),
                },
            }
        },
    }
}

/// Whether a parse ended as stated.
pub open spec fn parsed_as(
    result: Result<AnalyticsScanRequest, LokiApiError>,
    expected: Result<ScanContent, Seq<char>>,
) -> bool {
    match (result, expected) {
        (Ok(request), Ok(content)) => request.content() == content,
        (Err(error), Err(message)) => error.says(ApiErrorKind::BadRequest, message),
        _ => false,
    }
}

/// A request while its query string is read.
struct RequestReader {
    request: AnalyticsScanRequest,
    columns_seen: bool,
    cardinality_seen: bool,
    order_seen: bool,
    wire_seen: bool,
}

/// Whether a step ended as stated.
spec fn stepped_as(
    result: Result<(), LokiApiError>,
    after: ScanProgress,
    expected: Result<ScanProgress, Seq<char>>,
) -> bool {
    match (result, expected) {
        (Ok(()), Ok(progress)) => after == progress,
        (Err(error), Err(message)) => error.says(ApiErrorKind::BadRequest, message),
        _ => false,
    }
}

/// Parses a number of at most `limit`.
fn parse_number(value: &str, limit: u64) -> (number: Option<u64>)
    ensures
        match number {
            Some(found) => unsigned_value(value@, limit as nat) == Some(found as nat),
            None => unsigned_value(value@, limit as nat) is None,
        },
{
    let digits = characters(value);
    parse_unsigned(digits.as_slice(), limit)
}

/// Decodes an identifier of `length` bytes from hexadecimal text.
pub fn decode_hex(value: &str, length: usize) -> (result: Result<Vec<u8>, LokiApiError>)
    requires
        length <= 64,
    ensures
        match (result, hex_identifier(value@, length as nat)) {
            (Ok(bytes), Ok(expected)) => bytes@ == expected && bytes@.len() == length,
            (Err(error), Err(message)) => error.says(ApiErrorKind::BadRequest, message),
            _ => false,
        },
{
    let digits = value.as_bytes();
    if digits.len() != 2 * length {
        return Err(LokiApiError::bad_request("hex identifier has the wrong length"));
    }
    match decode_hex_pairs(digits) {
        Some(bytes) => Ok(bytes),
        None => Err(LokiApiError::bad_request("identifier contains non-hex bytes")),
    }
}

/// Parses the columns of a comma-separated list.
fn parse_columns(value: &str) -> (result: Result<Vec<AnalyticsColumn>, LokiApiError>)
    ensures
        match (result, columns_named(split_on(value@, ','))) {
            (Ok(columns), Ok(expected)) => columns@ == expected,
            (Err(error), Err(message)) => error.says(ApiErrorKind::BadRequest, message),
            _ => false,
        },
{
    let list = characters(value);
    let names = split(list.as_slice(), ',');
    let ghost all = views(names@);
    let mut columns: Vec<AnalyticsColumn> = Vec::new();
    let mut index: usize = 0;
    assert(all.take(0) =~= Seq::<Seq<char>>::empty());
    while index < names.len()
        invariant
            index <= names@.len(),
            all == views(names@),
            all == split_on(value@, ','),
            columns_named(all.take(index as int)) == Ok::<Seq<AnalyticsColumn>, Seq<char>>(
                columns@,
            ),
        decreases names@.len() - index,
    {
        let name = string_from(names[index].as_slice());
        let ghost longer = all.take(index + 1);
        assert(longer.drop_last() =~= all.take(index as int));
        assert(longer.last() == name@);
        match AnalyticsColumn::parse(name.as_str()) {
            Some(column) => {
                proof {
                    let chosen = column_named(name@)->0;
                    assert(column.wire_name() == name@);
                    assert(chosen.wire_name() == name@);
                    column_names_are_distinct(column, chosen);
                }
                columns.push(column);
            },
            None => {
                let mut message = "unknown analytics column ".to_owned();
                let quoted = debug_text(name.as_str());
                message.append(quoted.as_str());
                proof {
                    assert(columns_named(longer) is Err);
                    lemma_columns_named_prefix(all, index + 1);
                }
                return Err(LokiApiError::bad_request(message.as_str()));
            },
        }
        index = index + 1;
    }
    assert(all.take(index as int) =~= all);
    Ok(columns)
}

/// The complaint about a list is that about its first unknown name.
proof fn lemma_columns_named_prefix(names: Seq<Seq<char>>, length: int)
    requires
        0 <= length <= names.len(),
        columns_named(names.take(length)) is Err,
    ensures
        columns_named(names) == columns_named(names.take(length)),
    decreases names.len(),
{
    if length < names.len() {
        assert(names.drop_last().take(length) =~= names.take(length));
        lemma_columns_named_prefix(names.drop_last(), length);
    } else {
        assert(names.take(length) =~= names);
    }
}

/// A refused parameter refuses the whole list.
proof fn lemma_read_prefix(
    progress: ScanProgress,
    pairs: Seq<(Seq<char>, Seq<char>)>,
    length: int,
)
    requires
        0 <= length <= pairs.len(),
        progress.read(pairs.take(length)) is Err,
    ensures
        progress.read(pairs) == progress.read(pairs.take(length)),
    decreases pairs.len(),
{
    if length < pairs.len() {
        assert(pairs.drop_last().take(length) =~= pairs.take(length));
        lemma_read_prefix(progress, pairs.drop_last(), length);
    } else {
        assert(pairs.take(length) =~= pairs);
    }
}

/// Appends a named field, where it has a name.
fn push_field(fields: &mut Vec<MetadataField>, name: &str, value: &str) -> (result: Result<
    (),
    LokiApiError,
>)
    ensures
        match (result, with_field(field_views(old(fields)@), name@, value@)) {
            (Ok(()), Ok(expected)) => field_views(final(fields)@) == expected,
            (Err(error), Err(message)) => error.says(ApiErrorKind::BadRequest, message),
            _ => false,
        },
{
    if name.is_empty() {
        return Err(LokiApiError::bad_request("attribute name must not be empty"));
    }
    fields.push(MetadataField::new(name, value));
    assert(field_views(fields@) =~= field_views(old(fields)@).push((name@, value@)));
    Ok(())
}

impl RequestReader {
    spec fn progress(&self) -> ScanProgress {
        ScanProgress {
            content: self.request.content(),
            columns_seen: self.columns_seen,
            cardinality_seen: self.cardinality_seen,
            order_seen: self.order_seen,
            wire_seen: self.wire_seen,
        }
    }

    fn step(&mut self, key: &str, value: &str) -> (result: Result<(), LokiApiError>)
        ensures
            stepped_as(result, final(self).progress(), old(self).progress().step(key@, value@)),
    {
        if same_str(key, "relation") {
            return Ok(());
        }
        if same_str(key, "start_ns") {
            return match parse_number(value, u64::MAX) {
                Some(number) => {
                    self.request.start_timestamp_unix_nanos = Some(number);
                    Ok(())
                },
                None => Err(LokiApiError::bad_request("start_ns is not a u64")),
            };
        }
        if same_str(key, "end_ns") {
            return match parse_number(value, u64::MAX) {
                Some(number) => {
                    self.request.end_timestamp_unix_nanos = Some(number);
                    Ok(())
                },
                None => Err(LokiApiError::bad_request("end_ns is not a u64")),
            };
        }
        if same_str(key, "limit") {
            return match parse_number(value, usize::MAX as u64) {
                Some(number) => {
                    self.request.limit = Some(number as usize);
                    Ok(())
                },
                None => Err(LokiApiError::bad_request("limit is not a usize")),
            };
        }
        if same_str(key, "cardinality_only") {
            return self.set_cardinality(key, value);
        }
        if same_str(key, "order") {
            return self.set_order(key, value);
        }
        if same_str(key, "wire") {
            return self.set_wire(key, value);
        }
        if same_str(key, "term") {
            self.request.terms.push(value.to_owned());
            assert(text_views(self.request.terms@) =~= text_views(old(self).request.terms@).push(
                value@,
            ));
            return Ok(());
        }
        if same_str(key, "message_token") {
            self.request.message_tokens.push(value.to_owned());
            assert(text_views(self.request.message_tokens@) =~= text_views(
                old(self).request.message_tokens@,
            ).push(value@));
            return Ok(());
        }
        if same_str(key, "message_token_ci") {
            self.request.case_insensitive_message_tokens.push(value.to_owned());
            assert(text_views(self.request.case_insensitive_message_tokens@) =~= text_views(
                old(self).request.case_insensitive_message_tokens@,
            ).push(value@));
            return Ok(());
        }
        if same_str(key, "trace_id") {
            return self.set_trace(key, value);
        }
        if same_str(key, "span_id") {
            return self.set_span(key, value);
        }
        if same_str(key, "series_id") {
            return self.set_series(key, value);
        }
        if same_str(key, "name") {
            self.request.name = Some(value.to_owned());
            return Ok(());
        }
        if same_str(key, "columns") {
            return self.set_columns(key, value);
        }
        self.set_field(key, value)
    }

    fn set_cardinality(&mut self, key: &str, value: &str) -> (result: Result<(), LokiApiError>)
        requires
            key@ == "cardinality_only"@,
        ensures
            stepped_as(result, final(self).progress(), old(self).progress().step(key@, value@)),
    {
        proof {
            lemma_parameter_names();
        }
        if self.cardinality_seen {
            return Err(LokiApiError::bad_request("cardinality_only may be specified only once"));
        }
        self.cardinality_seen = true;
        if same_str(value, "1") || same_str(value, "true") {
            self.request.cardinality_only = true;
        } else if same_str(value, "0") || same_str(value, "false") {
            self.request.cardinality_only = false;
        } else {
            return Err(LokiApiError::bad_request("cardinality_only is not a boolean"));
        }
        Ok(())
    }

    fn set_order(&mut self, key: &str, value: &str) -> (result: Result<(), LokiApiError>)
        requires
            key@ == "order"@,
        ensures
            stepped_as(result, final(self).progress(), old(self).progress().step(key@, value@)),
    {
        proof {
            lemma_parameter_names();
        }
        if self.order_seen {
            return Err(LokiApiError::bad_request("order may be specified only once"));
        }
        self.order_seen = true;
        if same_str(value, "timestamp_asc") {
            self.request.order = Some(AnalyticsScanOrder::TimestampAscending);
        } else if same_str(value, "timestamp_desc") {
            self.request.order = Some(AnalyticsScanOrder::TimestampDescending);
        } else {
            return Err(LokiApiError::bad_request("unknown analytics order"));
        }
        Ok(())
    }

    fn set_wire(&mut self, key: &str, value: &str) -> (result: Result<(), LokiApiError>)
        requires
            key@ == "wire"@,
        ensures
            stepped_as(result, final(self).progress(), old(self).progress().step(key@, value@)),
    {
        proof {
            lemma_parameter_names();
        }
        if self.wire_seen {
            return Err(LokiApiError::bad_request("wire may be specified only once"));
        }
        self.wire_seen = true;
        if same_str(value, "arrow") || same_str(value, "arrow_stream") {
            self.request.wire_format = AnalyticsWireFormat::ArrowStream;
        } else if same_str(value, "rowbinary") {
            self.request.wire_format = AnalyticsWireFormat::RowBinary;
        } else if same_str(value, "json") || same_str(value, "jsonl") || same_str(value, "ndjson") {
            self.request.wire_format = AnalyticsWireFormat::JsonLines;
        } else {
            return Err(LokiApiError::bad_request("unknown analytics wire format"));
        }
        Ok(())
    }

    fn set_trace(&mut self, key: &str, value: &str) -> (result: Result<(), LokiApiError>)
        requires
            key@ == "trace_id"@,
        ensures
            stepped_as(result, final(self).progress(), old(self).progress().step(key@, value@)),
    {
        proof {
            lemma_parameter_names();
        }
        let bytes = match decode_hex(value, 16) {
            Ok(bytes) => bytes,
            Err(error) => {
                return Err(error);
            },
        };
        match TraceId::from_bytes(bytes.as_slice()) {
            Ok(id) => {
                self.request.trace_id = Some(id);
                Ok(())
            },
            Err(_) => Err(
                LokiApiError::bad_request("trace_id is not a valid nonzero 128-bit hex ID"),
            ),
        }
    }

    fn set_span(&mut self, key: &str, value: &str) -> (result: Result<(), LokiApiError>)
        requires
            key@ == "span_id"@,
        ensures
            stepped_as(result, final(self).progress(), old(self).progress().step(key@, value@)),
    {
        proof {
            lemma_parameter_names();
        }
        let bytes = match decode_hex(value, 8) {
            Ok(bytes) => bytes,
            Err(error) => {
                return Err(error);
            },
        };
        match SpanId::from_bytes(bytes.as_slice()) {
            Ok(id) => {
                self.request.span_id = Some(id);
                Ok(())
            },
            Err(_) => Err(LokiApiError::bad_request("span_id is not a valid nonzero 64-bit hex ID")),
        }
    }

    fn set_series(&mut self, key: &str, value: &str) -> (result: Result<(), LokiApiError>)
        requires
            key@ == "series_id"@,
        ensures
            stepped_as(result, final(self).progress(), old(self).progress().step(key@, value@)),
    {
        proof {
            lemma_parameter_names();
        }
        let bytes = match decode_hex(value, 16) {
            Ok(bytes) => bytes,
            Err(error) => {
                return Err(error);
            },
        };
        self.request.series_id = Some(SeriesFingerprint::from_raw(read_be(bytes.as_slice())));
        Ok(())
    }

    fn set_columns(&mut self, key: &str, value: &str) -> (result: Result<(), LokiApiError>)
        requires
            key@ == "columns"@,
        ensures
            stepped_as(result, final(self).progress(), old(self).progress().step(key@, value@)),
    {
        proof {
            lemma_parameter_names();
        }
        if self.columns_seen {
            return Err(LokiApiError::bad_request("columns may be specified only once"));
        }
        self.columns_seen = true;
        match parse_columns(value) {
            Ok(columns) => {
                self.request.columns = columns;
                Ok(())
            },
            Err(error) => Err(error),
        }
    }

    fn set_field(&mut self, key: &str, value: &str) -> (result: Result<(), LokiApiError>)
        ensures
            stepped_as(
                result,
                final(self).progress(),
                old(self).progress().field_step(key@, value@),
            ),
    {
        if let Some(name) = strip_prefix(key, "label.") {
            return push_field(&mut self.request.labels, name.as_str(), value);
        }
        if let Some(name) = strip_prefix(key, "metadata.") {
            return push_field(&mut self.request.metadata, name.as_str(), value);
        }
        if let Some(name) = strip_prefix(key, "attribute.") {
            return push_field(&mut self.request.attributes, name.as_str(), value);
        }
        if let Some(name) = strip_prefix(key, "resource.") {
            return push_field(&mut self.request.resource_attributes, name.as_str(), value);
        }
        if let Some(name) = strip_prefix(key, "scope.") {
            return push_field(&mut self.request.scope_attributes, name.as_str(), value);
        }
        let mut message = "unknown analytics parameter ".to_owned();
        let quoted = debug_text(key);
        message.append(quoted.as_str());
        Err(LokiApiError::bad_request(message.as_str()))
    }
}

/// The parameter names that share a length are told apart.
proof fn lemma_parameter_names()
    ensures
        "cardinality_only"@.len() == 16,
        "order"@.len() == 5,
        "wire"@.len() == 4,
        "trace_id"@.len() == 8,
        "span_id"@.len() == 7,
        "series_id"@.len() == 9,
        "columns"@.len() == 7,
        "relation"@.len() == 8,
        "start_ns"@.len() == 8,
        "end_ns"@.len() == 6,
        "limit"@.len() == 5,
        "term"@.len() == 4,
        "message_token"@.len() == 13,
        "message_token_ci"@.len() == 16,
        "name"@.len() == 4,
        "cardinality_only"@ != "message_token_ci"@,
        "order"@ != "limit"@,
        "wire"@ != "term"@,
        "trace_id"@ != "relation"@,
        "trace_id"@ != "start_ns"@,
        "span_id"@ != "columns"@,
{
    reveal_strlit("cardinality_only");
    reveal_strlit("order");
    reveal_strlit("wire");
    reveal_strlit("trace_id");
    reveal_strlit("span_id");
    reveal_strlit("series_id");
    reveal_strlit("columns");
    reveal_strlit("relation");
    reveal_strlit("start_ns");
    reveal_strlit("end_ns");
    reveal_strlit("limit");
    reveal_strlit("term");
    reveal_strlit("message_token");
    reveal_strlit("message_token_ci");
    reveal_strlit("name");
    assert("cardinality_only"@[0] != "message_token_ci"@[0]);
    assert("order"@[0] != "limit"@[0]);
    assert("wire"@[0] != "term"@[0]);
    assert("trace_id"@[0] != "relation"@[0]);
    assert("trace_id"@[0] != "start_ns"@[0]);
    assert("span_id"@[0] != "columns"@[0]);
}

/// Counts the values given for `relation` and keeps the first.
fn find_relation(pairs: &Vec<(String, String)>) -> (result: Result<AnalyticsRelation, LokiApiError>)
    ensures
        match (result, wanted_relation(pair_views(pairs@))) {
            (Ok(relation), Ok(expected)) => relation == expected,
            (Err(error), Err(message)) => error.says(ApiErrorKind::BadRequest, message),
            _ => false,
        },
{
    let ghost all = pair_views(pairs@);
    let mut count: usize = 0;
    let mut first: usize = 0;
    let mut index: usize = 0;
    assert(all.take(0) =~= Seq::<(Seq<char>, Seq<char>)>::empty());
    while index < pairs.len()
        invariant
            index <= pairs@.len(),
            all == pair_views(pairs@),
            count == relation_values(all.take(index as int)).len(),
            count <= index,
            count > 0 ==> first < pairs@.len() && relation_values(all.take(index as int))[0]
                == pairs@[first as int].1@,
        decreases pairs@.len() - index,
    {
        let ghost longer = all.take(index + 1);
        assert(longer.drop_last() =~= all.take(index as int));
        assert(longer.last() == pair_view(pairs@[index as int]));
        if same_str(pairs[index].0.as_str(), "relation") {
            if count == 0 {
                first = index;
            }
            count = count + 1;
        }
        index = index + 1;
    }
    assert(all.take(index as int) =~= all);
    if count > 1 {
        return Err(LokiApiError::bad_request("relation may be specified only once"));
    }
    if count == 0 {
        return Ok(AnalyticsRelation::Logs);
    }
    match AnalyticsRelation::parse(pairs[first].1.as_str()) {
        Some(relation) => Ok(relation),
        None => Err(LokiApiError::bad_request("unknown analytics relation")),
    }
}

/// Reads a request from decoded parameters.
pub fn request_from_pairs(tenant: &str, pairs: &Vec<(String, String)>) -> (result: Result<
    AnalyticsScanRequest,
    LokiApiError,
>)
    ensures
        parsed_as(result, requested(tenant@, pair_views(pairs@))),
{
    let relation = match find_relation(pairs) {
        Ok(relation) => relation,
        Err(error) => {
            return Err(error);
        },
    };
    let mut reader = RequestReader {
        request: AnalyticsScanRequest::for_relation(tenant, relation),
        columns_seen: false,
        cardinality_seen: false,
        order_seen: false,
        wire_seen: false,
    };
    let ghost start = reader.progress();
    let ghost all = pair_views(pairs@);
    let mut index: usize = 0;
    assert(all.take(0) =~= Seq::<(Seq<char>, Seq<char>)>::empty());
    while index < pairs.len()
        invariant
            index <= pairs@.len(),
            all == pair_views(pairs@),
            wanted_relation(all) == Ok::<AnalyticsRelation, Seq<char>>(relation),
            start == (ScanProgress {
                content: ScanContent::full(tenant@, relation),
                columns_seen: false,
                cardinality_seen: false,
                order_seen: false,
                wire_seen: false,
            }),
            start.read(all.take(index as int)) == Ok::<ScanProgress, Seq<char>>(reader.progress()),
        decreases pairs@.len() - index,
    {
        let ghost longer = all.take(index + 1);
        assert(longer.drop_last() =~= all.take(index as int));
        assert(longer.last() == pair_view(pairs@[index as int]));
        if let Err(error) = reader.step(pairs[index].0.as_str(), pairs[index].1.as_str()) {
            proof {
                lemma_read_prefix(start, all, index + 1);
            }
            return Err(error);
        }
        index = index + 1;
    }
    assert(all.take(index as int) =~= all);
    if let Err(error) = reader.request.validate() {
        return Err(error);
    }
    Ok(reader.request)
}

/// Reads a request from a raw query string.
pub fn parse_scan_request(tenant: &str, raw_query: Option<&str>) -> (result: Result<
    AnalyticsScanRequest,
    LokiApiError,
>)
    ensures
        parsed_as(
            result,
            requested(
                tenant@,
                form_urlencoded_pairs(
                    match raw_query {
                        Some(query) => query@,
                        None => ""@,
                    },
                ),
            ),
        ),
{
    let pairs = match raw_query {
        Some(query) => decode_pairs(query),
        None => decode_pairs(""),
    };
    request_from_pairs(tenant, &pairs)
}

/// A request that was accepted names columns of its relation, none twice.
pub proof fn accepted_requests_name_declared_columns(
    tenant: Seq<char>,
    pairs: Seq<(Seq<char>, Seq<char>)>,
)
    requires
        requested(tenant, pairs) is Ok,
    ensures
        requested(tenant, pairs)->Ok_0.columns.len() > 0,
        requested(tenant, pairs)->Ok_0.columns.no_duplicates(),
        forall|i: int|
            0 <= i < requested(tenant, pairs)->Ok_0.columns.len() ==> requested(
                tenant,
                pairs,
            )->Ok_0.relation.declared().contains(
                #[trigger] requested(tenant, pairs)->Ok_0.columns[i],
            ),
{
}

} // verus!
