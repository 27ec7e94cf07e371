//! Row predicates and scans of buffered log entries.

use vstd::prelude::*;

use crate::analytics_columns::{AnalyticsColumn, AnalyticsRelation, AnalyticsScanOrder};
use crate::analytics_request::{field_views, AnalyticsScanRequest};
use crate::analytics_row::{base_cell, AnalyticsRow, Cell};
use crate::analytics_scan_laws::{
    row_fits, rows_match_by_their_fields, scanned_rows_lie_within_the_bounds,
};
use crate::error::{ApiErrorKind, LokiApiError};
use crate::records::{hex_text, MetadataField};
use crate::string_map::StringMap;
use crate::text::{ascii_lower, characters, hex_fixed, same_str, text_views, to_ascii_lower};

verus! {

/// Rows handed over at once.
pub const DEFAULT_SCAN_BATCH_ROWS: usize = 8_192;

/// Whether letters of different case are told apart.
#[derive(Debug, Clone, Copy, PartialEq, Eq, Structural)]
pub enum CaseSensitivity {
    /// `a` is not `A`.
    Sensitive,
    /// `a` is `A`.
    Insensitive,
}

/// Whether a character ends a token: ASCII that is no letter and no digit.
pub open spec fn separates(character: char) -> bool {
    character < '\u{80}' && !('0' <= character <= '9') && !('a' <= character <= 'z') && !('A'
        <= character <= 'Z')
}

fn is_separator(character: char) -> (result: bool)
    ensures
        result == separates(character),
{
    character < '\u{80}' && !(character >= '0' && character <= '9') && !(character >= 'a'
        && character <= 'z') && !(character >= 'A' && character <= 'Z')
}

/// Whether two characters are the same in the given sense.
pub open spec fn alike(left: char, right: char, case: CaseSensitivity) -> bool {
    match case {
        CaseSensitivity::Sensitive => left == right,
        CaseSensitivity::Insensitive => ascii_lower(left) == ascii_lower(right),
    }
}

/// Whether `token` stands at `start` of `message`, bounded on both sides.
pub open spec fn token_at(
    message: Seq<char>,
    token: Seq<char>,
    start: int,
    case: CaseSensitivity,
) -> bool {
    &&& 0 <= start
    &&& start + token.len() <= message.len()
    &&& start > 0 ==> separates(message[start - 1])
    &&& start + token.len() < message.len() ==> separates(message[start + token.len()])
    &&& forall|i: int|
        0 <= i < token.len() ==> alike(#[trigger] message[start + i], token[i], case)
}

/// Whether a message holds a token.
pub open spec fn holds_token(message: Seq<char>, token: Seq<char>, case: CaseSensitivity) -> bool {
    exists|start: int| #[trigger] token_at(message, token, start, case)
}

fn is_token_at(message: &Vec<char>, token: &Vec<char>, start: usize, case: CaseSensitivity) -> (at:
    bool)
    requires
        start + token@.len() <= message@.len(),
    ensures
        at == token_at(message@, token@, start as int, case),
{
    assert(message.len() == message@.len());
    let end: usize = start + token.len();
    if start > 0 && !is_separator(message[start - 1]) {
        return false;
    }
    if end < message.len() && !is_separator(message[end]) {
        return false;
    }
    let mut index: usize = 0;
    while index < token.len()
        invariant
            start + token@.len() <= message@.len(),
            message.len() == message@.len(),
            forall|i: int|
                0 <= i < index ==> alike(#[trigger] message@[start + i], token@[i], case),
        decreases token@.len() - index,
    {
        let same = match case {
            CaseSensitivity::Sensitive => message[start + index] == token[index],
            CaseSensitivity::Insensitive => to_ascii_lower(message[start + index])
                == to_ascii_lower(token[index]),
        };
        if !same {
            assert(!alike(message@[start + index], token@[index as int], case));
            return false;
        }
        index = index + 1;
    }
    true
}

/// Returns whether a message holds a token.
pub fn message_has_clickhouse_token(message: &str, token: &str, case: CaseSensitivity) -> (held:
    bool)
    ensures
        held == holds_token(message@, token@, case),
{
    let message_characters = characters(message);
    let token_characters = characters(token);
    if token_characters.len() > message_characters.len() {
        return false;
    }
    let last: usize = message_characters.len() - token_characters.len();
    let mut start: usize = 0;
    while start <= last
        invariant
            message_characters@ == message@,
            token_characters@ == token@,
            last == message@.len() - token@.len(),
            start <= last + 1,
            last < usize::MAX || start <= last,
            forall|i: int| 0 <= i < start ==> !(#[trigger] token_at(message@, token@, i, case)),
        decreases last + 1 - start,
    {
        if is_token_at(&message_characters, &token_characters, start, case) {
            return true;
        }
        if start == last {
            assert forall|i: int| !(#[trigger] token_at(message@, token@, i, case)) by {};
            return false;
        }
        start = start + 1;
    }
    false
}

/// Returns whether a message holds a term in any case.
pub fn message_has_term(message: &str, term: &str) -> (held: bool)
    ensures
        held == holds_token(message@, term@, CaseSensitivity::Insensitive),
{
    message_has_clickhouse_token(message, term, CaseSensitivity::Insensitive)
}

/// Whether a map cell holds every wanted field.
pub open spec fn holds_fields(cell: Cell, wanted: Seq<(Seq<char>, Seq<char>)>) -> bool {
    forall|i: int|
        0 <= i < wanted.len() ==> cell->TextMap_0.contains_key((#[trigger] wanted[i]).0)
            && cell->TextMap_0[wanted[i].0] == wanted[i].1
}

fn fields_match(values: &StringMap, expected: &Vec<MetadataField>) -> (all: bool)
    ensures
        all == holds_fields(Cell::TextMap(values@), field_views(expected@)),
{
    let ghost wanted = field_views(expected@);
    let mut index: usize = 0;
    while index < expected.len()
        invariant
            wanted == field_views(expected@),
            forall|i: int|
                0 <= i < index ==> values@.contains_key((#[trigger] wanted[i]).0)
                    && values@[wanted[i].0] == wanted[i].1,
        decreases expected@.len() - index,
    {
        let field = &expected[index];
        assert(wanted[index as int] == (field.key@, field.value@));
        match values.get(field.key.as_str()) {
            Some(value) => {
                if !same_str(value.as_str(), field.value.as_str()) {
                    return false;
                }
            },
            None => {
                return false;
            },
        }
        index = index + 1;
    }
    true
}

/// Whether a message cell holds every wanted token.
pub open spec fn holds_tokens(cell: Cell, wanted: Seq<Seq<char>>, case: CaseSensitivity) -> bool {
    forall|i: int|
        0 <= i < wanted.len() ==> cell is Text && holds_token(
            cell->Text_0,
            #[trigger] wanted[i],
            case,
        )
}

fn tokens_match(message: &Option<String>, wanted: &Vec<String>, case: CaseSensitivity) -> (all:
    bool)
    ensures
        all == holds_tokens(
            crate::analytics_row::text_cell(*message),
            text_views(wanted@),
            case,
        ),
{
    let ghost tokens = text_views(wanted@);
    let mut index: usize = 0;
    while index < wanted.len()
        invariant
            tokens == text_views(wanted@),
            index <= wanted@.len(),
            forall|i: int|
                0 <= i < index ==> message is Some && holds_token(
                    message->0@,
                    #[trigger] tokens[i],
                    case,
                ),
        decreases wanted@.len() - index,
    {
        assert(tokens[index as int] == wanted@[index as int]@);
        match message {
            Some(text) => {
                if !message_has_clickhouse_token(text.as_str(), wanted[index].as_str(), case) {
                    return false;
                }
            },
            None => {
                return false;
            },
        }
        index = index + 1;
    }
    proof {
        if tokens.len() > 0 {
            assert(holds_token(message->0@, tokens[0], case));
        }
    }
    true
}

/// Whether cells satisfy a request.
pub open spec fn satisfied(
    cells: spec_fn(AnalyticsColumn) -> Cell,
    request: AnalyticsScanRequest,
) -> bool {
    let content = request.content();
    let time = cells(AnalyticsColumn::Timestamp)->Timestamp_0;
    let message = cells(AnalyticsColumn::Message);
    &&& content.start matches Some(start) ==> time >= 0 && time >= start
    &&& content.end matches Some(end) ==> time >= 0 && time < end
    &&& content.trace_id matches Some(id) ==> cells(AnalyticsColumn::TraceId) == Cell::Text(
        hex_fixed(id.0 as nat, 32),
    )
    &&& content.span_id matches Some(id) ==> cells(AnalyticsColumn::SpanId) == Cell::Text(
        hex_fixed(id.0 as nat, 16),
    )
    &&& content.series_id matches Some(id) ==> cells(AnalyticsColumn::SeriesId) == Cell::Text(
        hex_fixed(id.0 as nat, 32),
    )
    &&& content.name matches Some(name) ==> cells(AnalyticsColumn::Name) == Cell::Text(name)
    &&& holds_fields(cells(AnalyticsColumn::Labels), content.labels)
    &&& holds_fields(cells(AnalyticsColumn::Metadata), content.metadata)
    &&& holds_fields(cells(AnalyticsColumn::Attributes), content.attributes)
    &&& holds_fields(cells(AnalyticsColumn::ResourceAttributes), content.resource_attributes)
    &&& holds_fields(cells(AnalyticsColumn::ScopeAttributes), content.scope_attributes)
    &&& holds_tokens(message, content.terms, CaseSensitivity::Insensitive)
    &&& holds_tokens(message, content.message_tokens, CaseSensitivity::Sensitive)
    &&& holds_tokens(
        message,
        content.case_insensitive_message_tokens,
        CaseSensitivity::Insensitive,
    )
}

/// The cells of a row.
pub open spec fn row_cells(row: AnalyticsRow) -> spec_fn(AnalyticsColumn) -> Cell {
    |column: AnalyticsColumn| row.cell(column)
}

fn holds_text(cell: &Option<String>, text: &str) -> (same: bool)
    ensures
        same == (crate::analytics_row::text_cell(*cell) == Cell::Text(text@)),
{
    match cell {
        Some(found) => same_str(found.as_str(), text),
        None => false,
    }
}

fn identities_match(row: &AnalyticsRow, request: &AnalyticsScanRequest) -> (all: bool)
    ensures
        all == {
            &&& request.trace_id matches Some(id) ==> row.cell(AnalyticsColumn::TraceId)
                == Cell::Text(hex_fixed(id.0 as nat, 32))
            &&& request.span_id matches Some(id) ==> row.cell(AnalyticsColumn::SpanId)
                == Cell::Text(hex_fixed(id.0 as nat, 16))
            &&& request.series_id matches Some(id) ==> row.cell(AnalyticsColumn::SeriesId)
                == Cell::Text(hex_fixed(id.0 as nat, 32))
            &&& request.name matches Some(name) ==> row.cell(AnalyticsColumn::Name) == Cell::Text(
                name@,
            )
        },
{
    if let Some(id) = request.trace_id {
        if !holds_text(&row.trace_id, id.text().as_str()) {
            return false;
        }
    }
    if let Some(id) = request.span_id {
        if !holds_text(&row.span_id, id.text().as_str()) {
            return false;
        }
    }
    if let Some(id) = request.series_id {
        if !holds_text(&row.series_id, hex_text(id.get(), 32).as_str()) {
            return false;
        }
    }
    if let Some(name) = &request.name {
        if !holds_text(&row.name, name.as_str()) {
            return false;
        }
    }
    true
}

/// Returns whether a row satisfies a request.
pub fn row_matches(row: &AnalyticsRow, request: &AnalyticsScanRequest) -> (matches: bool)
    ensures
        matches == satisfied(row_cells(*row), *request),
        matches == row_fits(*row, *request),
{
    proof {
        rows_match_by_their_fields(*row, *request);
    }
    let time = row.timestamp_unix_nanos;
    if let Some(start) = request.start_timestamp_unix_nanos {
        if time < 0 || (time as u64) < start {
            return false;
        }
    }
    if let Some(end) = request.end_timestamp_unix_nanos {
        if time < 0 || time as u64 >= end {
            return false;
        }
    }
    identities_match(row, request) && fields_match(&row.labels, &request.labels) && fields_match(
        &row.metadata,
        &request.metadata,
    ) && fields_match(&row.attributes, &request.attributes) && fields_match(
        &row.resource_attributes,
        &request.resource_attributes,
    ) && fields_match(&row.scope_attributes, &request.scope_attributes) && tokens_match(
        &row.message,
        &request.terms,
        CaseSensitivity::Insensitive,
    ) && tokens_match(&row.message, &request.message_tokens, CaseSensitivity::Sensitive)
        && tokens_match(
        &row.message,
        &request.case_insensitive_message_tokens,
        CaseSensitivity::Insensitive,
    )
}

/// One buffered log line.
#[derive(Debug, PartialEq, Eq)]
pub struct LokiEntry {
    /// Event time, negative before the epoch.
    pub timestamp_unix_nanos: i64,
    /// Stream labels.
    pub labels: StringMap,
    /// Text of the line.
    pub line: String,
    /// Structured metadata.
    pub structured_metadata: StringMap,
}

/// The cell of a buffered line.
pub open spec fn entry_cell(
    tenant: Seq<char>,
    entry: LokiEntry,
    ordinal: int,
    column: AnalyticsColumn,
) -> Cell {
    match column {
        AnalyticsColumn::Message => Cell::Text(entry.line@),
        AnalyticsColumn::Labels => Cell::TextMap(entry.labels@),
        AnalyticsColumn::Metadata => Cell::TextMap(entry.structured_metadata@),
        _ => base_cell(
            tenant,
            "logs"@,
            entry.timestamp_unix_nanos as u64,
            0,
            ordinal as u64,
            column,
        ),
    }
}

/// Whether a row is that of a buffered line.
pub open spec fn is_entry_row(
    row: AnalyticsRow,
    tenant: Seq<char>,
    entry: LokiEntry,
    ordinal: int,
) -> bool {
    forall|column: AnalyticsColumn| #[trigger]
        row.cell(column) == entry_cell(tenant, entry, ordinal, column)
}

/// Whether a buffered line satisfies a request.
pub open spec fn entry_satisfies(
    entry: LokiEntry,
    ordinal: int,
    request: AnalyticsScanRequest,
) -> bool {
    satisfied(
        |column: AnalyticsColumn| entry_cell(request.tenant@, entry, ordinal, column),
        request,
    )
}

fn entry_row(tenant: &str, entry: &LokiEntry, ordinal: usize) -> (result: Result<
    AnalyticsRow,
    LokiApiError,
>)
    ensures
        match result {
            Ok(row) => entry.timestamp_unix_nanos >= 0 && is_entry_row(
                row,
                tenant@,
                *entry,
                ordinal as int,
            ),
            Err(error) => entry.timestamp_unix_nanos < 0 && error.says(
                ApiErrorKind::Internal,
                "pre-epoch log timestamp"@,
            ),
        },
{
    if entry.timestamp_unix_nanos < 0 {
        return Err(LokiApiError::internal("pre-epoch log timestamp"));
    }
    let mut row = match AnalyticsRow::empty(
        tenant,
        "logs",
        entry.timestamp_unix_nanos as u64,
        0,
        ordinal as u64,
    ) {
        Ok(row) => row,
        Err(error) => {
            return Err(error);
        },
    };
    row.message = Some(entry.line.clone());
    row.labels = entry.labels.copy();
    row.metadata = entry.structured_metadata.copy();
    Ok(row)
}

/// What a scan has gathered: the positions of the lines that satisfy the
/// request, and whether a line before the epoch stopped it.
pub struct ScanState {
    /// Positions in the order of the rows.
    pub matched: Seq<int>,
    /// Whether a line before the epoch was met.
    pub failed: bool,
}

/// What an unordered scan has gathered from the first `count` lines: it stops
/// at its limit and at the first line before the epoch.
pub open spec fn scanned(
    entries: Seq<LokiEntry>,
    request: AnalyticsScanRequest,
    limit: nat,
    count: int,
) -> ScanState
    decreases count,
{
    if count <= 0 {
        ScanState { matched: Seq::empty(), failed: false }
    } else {
        let before = scanned(entries, request, limit, count - 1);
        let entry = entries[count - 1];
        if before.failed || before.matched.len() >= limit {
            before
        } else if entry.timestamp_unix_nanos < 0 {
            ScanState { failed: true, ..before }
        } else if entry_satisfies(entry, count - 1, request) {
            ScanState { matched: before.matched.push(count - 1), ..before }
        } else {
            before
        }
    }
}

/// An ascending list with one more position, after all that are not later.
pub open spec fn placed(list: Seq<int>, entries: Seq<LokiEntry>, position: int) -> Seq<int>
    decreases list.len(),
{
    if list.len() == 0 || entries[list.last()].timestamp_unix_nanos
        <= entries[position].timestamp_unix_nanos {
        list.push(position)
    } else {
        placed(list.drop_last(), entries, position).push(list.last())
    }
}

/// What an ordered scan has gathered from the first `count` lines, oldest
/// first, equal times in the order of arrival.
pub open spec fn sorted(
    entries: Seq<LokiEntry>,
    request: AnalyticsScanRequest,
    count: int,
) -> ScanState
    decreases count,
{
    if count <= 0 {
        ScanState { matched: Seq::empty(), failed: false }
    } else {
        let before = sorted(entries, request, count - 1);
        let entry = entries[count - 1];
        if before.failed || entry.timestamp_unix_nanos < 0 {
            ScanState { failed: true, ..before }
        } else if entry_satisfies(entry, count - 1, request) {
            ScanState { matched: placed(before.matched, entries, count - 1), ..before }
        } else {
            before
        }
    }
}

/// The first `limit` positions of a list.
pub open spec fn first_of(list: Seq<int>, limit: nat) -> Seq<int> {
    if list.len() <= limit {
        list
    } else {
        list.take(limit as int)
    }
}

/// The limit of a request, in rows.
pub open spec fn row_limit(request: AnalyticsScanRequest) -> nat {
    match request.limit {
        Some(limit) => limit as nat,
        None => usize::MAX as nat,
    }
}

/// The rows that a scan hands over and whether it then fails.
pub open spec fn scan_of(entries: Seq<LokiEntry>, request: AnalyticsScanRequest) -> ScanState {
    let limit = row_limit(request);
    match request.order {
        None => {
            let all = scanned(entries, request, limit, entries.len() as int);
            if all.failed {
                // Only full batches left before the failure.
                ScanState {
                    matched: all.matched.take(
                        (all.matched.len() / 8_192) as int * 8_192,
                    ),
                    ..all
                }
            } else {
                all
            }
        },
        Some(order) => {
            let all = sorted(entries, request, entries.len() as int);
            if all.failed {
                ScanState { matched: Seq::empty(), failed: true }
            } else {
                ScanState {
                    matched: first_of(
                        match order {
                            AnalyticsScanOrder::TimestampAscending => all.matched,
                            AnalyticsScanOrder::TimestampDescending => all.matched.reverse(),
                        },
                        limit,
                    ),
                    failed: false,
                }
            }
        },
    }
}

/// Whether batches hold the rows of the given lines, in order: all batches are
/// full but the last, and none is empty.
pub open spec fn batches_hold(
    batches: Seq<Vec<AnalyticsRow>>,
    tenant: Seq<char>,
    entries: Seq<LokiEntry>,
    matched: Seq<int>,
) -> bool {
    &&& (batches.len() - 1) * 8_192 < matched.len() <= batches.len() * 8_192
    &&& forall|b: int|
        0 <= b < batches.len() ==> (#[trigger] batches[b])@.len() == (if (b + 1) * 8_192
            <= matched.len() {
            8_192
        } else {
            matched.len() - b * 8_192
        })
    &&& forall|b: int, r: int|
        0 <= b < batches.len() && 0 <= r < batches[b]@.len() ==> is_entry_row(
            #[trigger] batches[b]@[r],
            tenant,
            entries[matched[b * 8_192 + r]],
            matched[b * 8_192 + r],
        )
}

/// What a scan hands over, and the failure that comes after it.
#[derive(Debug, PartialEq, Eq)]
pub struct ScanOutcome {
    /// Rows in batches, to be handed over in order.
    pub batches: Vec<Vec<AnalyticsRow>>,
    /// How the scan ends once they were.
    pub result: Result<(), LokiApiError>,
}

/// Rows gathered so far: full batches and the batch that is being filled.
struct BatchWriter {
    batches: Vec<Vec<AnalyticsRow>>,
    rows: Vec<AnalyticsRow>,
}

impl BatchWriter {
    spec fn holds(
        &self,
        tenant: Seq<char>,
        entries: Seq<LokiEntry>,
        matched: Seq<int>,
    ) -> bool {
        &&& matched.len() == self.batches@.len() * 8_192 + self.rows@.len()
        &&& self.rows@.len() < 8_192
        &&& forall|b: int| 0 <= b < self.batches@.len() ==> (#[trigger] self.batches@[b])@.len() == 8_192
        &&& forall|b: int, r: int|
            0 <= b < self.batches@.len() && 0 <= r < 8_192 ==> is_entry_row(
                #[trigger] self.batches@[b]@[r],
                tenant,
                entries[matched[b * 8_192 + r]],
                matched[b * 8_192 + r],
            )
        &&& forall|r: int|
            0 <= r < self.rows@.len() ==> is_entry_row(
                #[trigger] self.rows@[r],
                tenant,
                entries[matched[self.batches@.len() * 8_192 + r]],
                matched[self.batches@.len() * 8_192 + r],
            )
    }

    fn new() -> (writer: Self)
        ensures
            forall|tenant: Seq<char>, entries: Seq<LokiEntry>| #[trigger]
                writer.holds(tenant, entries, Seq::empty()),
            writer.batches@.len() == 0,
            writer.rows@.len() == 0,
    {
        Self { batches: Vec::new(), rows: Vec::new() }
    }

    fn push(
        &mut self,
        row: AnalyticsRow,
        Ghost(tenant): Ghost<Seq<char>>,
        Ghost(entries): Ghost<Seq<LokiEntry>>,
        Ghost(matched): Ghost<Seq<int>>,
        Ghost(position): Ghost<int>,
    )
        requires
            old(self).holds(tenant, entries, matched),
            is_entry_row(row, tenant, entries[position], position),
        ensures
            final(self).holds(tenant, entries, matched.push(position)),
    {
        let ghost longer = matched.push(position);
        let ghost base = self.batches@.len() as int;
        self.rows.push(row);
        proof {
            assert forall|r: int| 0 <= r < self.rows@.len() implies is_entry_row(
                #[trigger] self.rows@[r],
                tenant,
                entries[longer[base * 8_192 + r]],
                longer[base * 8_192 + r],
            ) by {
                if r < self.rows@.len() - 1 {
                    assert(self.rows@[r] == old(self).rows@[r]);
                    assert(longer[base * 8_192 + r] == matched[base * 8_192 + r]);
                }
            }
            assert forall|b: int, r: int|
                0 <= b < self.batches@.len() && 0 <= r < 8_192 implies is_entry_row(
                #[trigger] self.batches@[b]@[r],
                tenant,
                entries[longer[b * 8_192 + r]],
                longer[b * 8_192 + r],
            ) by {
                assert(b * 8_192 + r < base * 8_192);
                assert(longer[b * 8_192 + r] == matched[b * 8_192 + r]);
            }
        }
        if self.rows.len() == DEFAULT_SCAN_BATCH_ROWS {
            let ghost full = self.rows@;
            let mut empty: Vec<AnalyticsRow> = Vec::new();
            std::mem::swap(&mut empty, &mut self.rows);
            self.batches.push(empty);
            proof {
                assert(self.batches@[base]@ == full);
                assert forall|b: int, r: int|
                    0 <= b < self.batches@.len() && 0 <= r < 8_192 implies is_entry_row(
                    #[trigger] self.batches@[b]@[r],
                    tenant,
                    entries[longer[b * 8_192 + r]],
                    longer[b * 8_192 + r],
                ) by {
                    if b < base {
                        assert(self.batches@[b] == old(self).batches@[b]);
                        assert(b * 8_192 + r < base * 8_192);
                    } else {
                        assert(self.batches@[b]@[r] == full[r]);
                    }
                }
            }
        }
    }

    /// Closes the last batch.
    fn finish(
        self,
        Ghost(tenant): Ghost<Seq<char>>,
        Ghost(entries): Ghost<Seq<LokiEntry>>,
        Ghost(matched): Ghost<Seq<int>>,
    ) -> (batches: Vec<Vec<AnalyticsRow>>)
        requires
            self.holds(tenant, entries, matched),
        ensures
            batches_hold(batches@, tenant, entries, matched),
    {
        let mut batches = self.batches;
        let rows = self.rows;
        let ghost base = batches@.len() as int;
        let ghost last = rows@;
        if rows.len() > 0 {
            batches.push(rows);
        }
        proof {
            assert forall|b: int| 0 <= b < batches@.len() implies (#[trigger] batches@[b])@.len()
                == (if (b + 1) * 8_192 <= matched.len() {
                8_192
            } else {
                matched.len() - b * 8_192
            }) by {
                if b < base {
                    assert(batches@[b] == self.batches@[b]);
                    assert((b + 1) * 8_192 <= base * 8_192);
                }
            }
            assert forall|b: int, r: int|
                0 <= b < batches@.len() && 0 <= r < batches@[b]@.len() implies is_entry_row(
                #[trigger] batches@[b]@[r],
                tenant,
                entries[matched[b * 8_192 + r]],
                matched[b * 8_192 + r],
            ) by {
                if b < base {
                    assert(batches@[b] == self.batches@[b]);
                    assert(self.batches@[b]@.len() == 8_192);
                } else {
                    assert(batches@[b]@[r] == last[r]);
                }
            }
        }
        batches
    }

    /// Gives up the batch that is being filled.
    fn abandon(
        self,
        Ghost(tenant): Ghost<Seq<char>>,
        Ghost(entries): Ghost<Seq<LokiEntry>>,
        Ghost(matched): Ghost<Seq<int>>,
    ) -> (batches: Vec<Vec<AnalyticsRow>>)
        requires
            self.holds(tenant, entries, matched),
        ensures
            batches_hold(
                batches@,
                tenant,
                entries,
                matched.take((matched.len() / 8_192) as int * 8_192),
            ),
    {
        let batches = self.batches;
        proof {
            let full = batches@.len() as int;
            assert(matched.len() / 8_192 == full);
            let kept = matched.take(full * 8_192);
            assert forall|b: int| 0 <= b < batches@.len() implies (#[trigger] batches@[b])@.len()
                == (if (b + 1) * 8_192 <= kept.len() {
                8_192
            } else {
                kept.len() - b * 8_192
            }) by {
                assert((b + 1) * 8_192 <= full * 8_192);
            }
            assert forall|b: int, r: int|
                0 <= b < batches@.len() && 0 <= r < batches@[b]@.len() implies is_entry_row(
                #[trigger] batches@[b]@[r],
                tenant,
                entries[kept[b * 8_192 + r]],
                kept[b * 8_192 + r],
            ) by {
                assert(b * 8_192 + r < full * 8_192);
                assert(kept[b * 8_192 + r] == matched[b * 8_192 + r]);
            }
        }
        batches
    }
}

fn pre_epoch() -> (error: LokiApiError)
    ensures
        error.says(ApiErrorKind::Internal, "pre-epoch log timestamp"@),
{
    LokiApiError::internal("pre-epoch log timestamp")
}

/// Scans buffered lines for one request.
pub fn scan_entries(entries: &Vec<LokiEntry>, request: &AnalyticsScanRequest) -> (outcome:
    ScanOutcome)
    ensures
        match request.content().complaint() {
            Some(message) => outcome.batches@.len() == 0 && (outcome.result matches Err(error)
                && error.says(ApiErrorKind::BadRequest, message)),
            None => if !(request.relation is Logs) {
                outcome.batches@.len() == 0 && (outcome.result matches Err(error) && error.says(
                    ApiErrorKind::BadRequest,
                    "the in-memory Loki store exposes only the logs analytical relation"@,
                ))
            } else {
                let scan = scan_of(entries@, *request);
                &&& batches_hold(outcome.batches@, request.tenant@, entries@, scan.matched)
                &&& scan.failed ==> (outcome.result matches Err(error) && error.says(
                    ApiErrorKind::Internal,
                    "pre-epoch log timestamp"@,
                ))
                &&& !scan.failed ==> outcome.result is Ok
            },
        },
        forall|b: int, r: int|
            0 <= b < outcome.batches@.len() && 0 <= r < outcome.batches@[b]@.len() ==> row_fits(
                #[trigger] outcome.batches@[b]@[r],
                *request,
            ),
{
    if let Err(error) = request.validate() {
        return ScanOutcome { batches: Vec::new(), result: Err(error) };
    }
    if request.relation != AnalyticsRelation::Logs {
        return ScanOutcome {
            batches: Vec::new(),
            result: Err(
                LokiApiError::bad_request(
                    "the in-memory Loki store exposes only the logs analytical relation",
                ),
            ),
        };
    }
    let outcome = match request.order {
        Some(order) => scan_ordered(entries, request, order),
        None => scan_unordered(entries, request),
    };
    proof {
        scanned_rows_lie_within_the_bounds(outcome.batches@, entries@, *request);
    }
    outcome
}

fn limit_of(request: &AnalyticsScanRequest) -> (limit: usize)
    ensures
        limit == row_limit(*request),
{
    match request.limit {
        Some(limit) => limit,
        None => usize::MAX,
    }
}

/// A row of a line satisfies a request exactly where the line does.
proof fn lemma_entry_row_satisfies(
    row: AnalyticsRow,
    entry: LokiEntry,
    ordinal: int,
    request: AnalyticsScanRequest,
)
    requires
        is_entry_row(row, request.tenant@, entry, ordinal),
    ensures
        satisfied(row_cells(row), request) == entry_satisfies(entry, ordinal, request),
{
    let cells = |column: AnalyticsColumn| entry_cell(request.tenant@, entry, ordinal, column);
    assert(row_cells(row) =~= cells);
}

fn scan_unordered(entries: &Vec<LokiEntry>, request: &AnalyticsScanRequest) -> (outcome:
    ScanOutcome)
    requires
        request.order is None,
    ensures
        ({
            let scan = scan_of(entries@, *request);
            &&& batches_hold(outcome.batches@, request.tenant@, entries@, scan.matched)
            &&& scan.failed ==> (outcome.result matches Err(error) && error.says(
                ApiErrorKind::Internal,
                "pre-epoch log timestamp"@,
            ))
            &&& !scan.failed ==> outcome.result is Ok
        }),
{
    let limit = limit_of(request);
    let mut writer = BatchWriter::new();
    let mut emitted: usize = 0;
    let mut index: usize = 0;
    let ghost mut state = scanned(entries@, *request, limit as nat, 0);
    assert(writer.holds(request.tenant@, entries@, Seq::empty()));
    while index < entries.len() && emitted < limit
        invariant
            index <= entries@.len(),
            limit == row_limit(*request),
            state == scanned(entries@, *request, limit as nat, index as int),
            !state.failed,
            emitted == state.matched.len(),
            emitted <= index,
            writer.holds(request.tenant@, entries@, state.matched),
            request.order is None,
        decreases entries@.len() - index,
    {
        let ghost next = scanned(entries@, *request, limit as nat, index + 1);
        match entry_row(request.tenant.as_str(), &entries[index], index) {
            Err(_) => {
                proof {
                    assert(next.failed && next.matched == state.matched);
                    lemma_scan_stops(entries@, *request, limit as nat, index + 1, entries@.len() as int);
                }
                let batches = writer.abandon(
                    Ghost(request.tenant@),
                    Ghost(entries@),
                    Ghost(state.matched),
                );
                return ScanOutcome { batches, result: Err(pre_epoch()) };
            },
            Ok(row) => {
                proof {
                    lemma_entry_row_satisfies(row, entries@[index as int], index as int, *request);
                }
                if row_matches(&row, request) {
                    writer.push(
                        row,
                        Ghost(request.tenant@),
                        Ghost(entries@),
                        Ghost(state.matched),
                        Ghost(index as int),
                    );
                    emitted = emitted + 1;
                }
            },
        }
        proof {
            state = next;
        }
        index = index + 1;
    }
    proof {
        if index < entries@.len() {
            lemma_scan_stops(entries@, *request, limit as nat, index as int, entries@.len() as int);
        }
    }
    let batches = writer.finish(Ghost(request.tenant@), Ghost(entries@), Ghost(state.matched));
    ScanOutcome { batches, result: Ok(()) }
}

/// A scan that failed or met its limit gathers nothing more.
proof fn lemma_scan_stops(
    entries: Seq<LokiEntry>,
    request: AnalyticsScanRequest,
    limit: nat,
    count: int,
    total: int,
)
    requires
        0 <= count <= total,
        scanned(entries, request, limit, count).failed || scanned(
            entries,
            request,
            limit,
            count,
        ).matched.len() >= limit,
    ensures
        scanned(entries, request, limit, total) == scanned(entries, request, limit, count),
    decreases total - count,
{
    if count < total {
        lemma_scan_stops(entries, request, limit, count, total - 1);
    }
}

/// A sort that failed stays failed.
proof fn lemma_sort_fails(
    entries: Seq<LokiEntry>,
    request: AnalyticsScanRequest,
    count: int,
    total: int,
)
    requires
        0 <= count <= total,
        sorted(entries, request, count).failed,
    ensures
        sorted(entries, request, total).failed,
    decreases total - count,
{
    if count < total {
        lemma_sort_fails(entries, request, count, total - 1);
    }
}

/// A list of positions goes from old to new.
pub open spec fn oldest_first(list: Seq<int>, entries: Seq<LokiEntry>) -> bool {
    forall|i: int, j: int|
        0 <= i < j < list.len() ==> entries[#[trigger] list[i]].timestamp_unix_nanos
            <= entries[#[trigger] list[j]].timestamp_unix_nanos
}

proof fn lemma_placed(list: Seq<int>, entries: Seq<LokiEntry>, position: int, at: int)
    requires
        oldest_first(list, entries),
        0 <= at <= list.len(),
        forall|i: int|
            0 <= i < at ==> entries[#[trigger] list[i]].timestamp_unix_nanos
                <= entries[position].timestamp_unix_nanos,
        forall|i: int|
            at <= i < list.len() ==> entries[#[trigger] list[i]].timestamp_unix_nanos
                > entries[position].timestamp_unix_nanos,
    ensures
        placed(list, entries, position) == list.insert(at, position),
        oldest_first(list.insert(at, position), entries),
    decreases list.len(),
{
    let grown = list.insert(at, position);
    if at == list.len() {
        if list.len() > 0 {
            assert(entries[list[list.len() - 1]].timestamp_unix_nanos
                <= entries[position].timestamp_unix_nanos);
        }
        assert(grown =~= list.push(position));
    } else {
        let shorter = list.drop_last();
        assert(entries[list[list.len() - 1]].timestamp_unix_nanos
            > entries[position].timestamp_unix_nanos);
        assert forall|i: int, j: int| 0 <= i < j < shorter.len() implies entries[
        #[trigger] shorter[i]].timestamp_unix_nanos <= entries[
        #[trigger] shorter[j]].timestamp_unix_nanos by {
            assert(entries[list[i]].timestamp_unix_nanos <= entries[list[j]].timestamp_unix_nanos);
        }
        lemma_placed(shorter, entries, position, at);
        assert(grown =~= shorter.insert(at, position).push(list.last()));
    }
    assert forall|i: int, j: int| 0 <= i < j < grown.len() implies entries[
    #[trigger] grown[i]].timestamp_unix_nanos <= entries[#[trigger] grown[j]].timestamp_unix_nanos by {
        let from_i = if i < at {
            i
        } else {
            i - 1
        };
        let from_j = if j < at {
            j
        } else {
            j - 1
        };
        if i != at {
            assert(grown[i] == list[from_i]);
        }
        if j != at {
            assert(grown[j] == list[from_j]);
        }
        if i != at && j != at {
            assert(entries[list[from_i]].timestamp_unix_nanos
                <= entries[list[from_j]].timestamp_unix_nanos);
        }
    }
}

/// Positions as integers.
spec fn as_positions(positions: Seq<usize>) -> Seq<int> {
    positions.map_values(|position: usize| position as int)
}

/// Positions of lines that satisfy a request, oldest first.
fn sort_entries(entries: &Vec<LokiEntry>, request: &AnalyticsScanRequest) -> (result: Result<
    Vec<usize>,
    LokiApiError,
>)
    ensures
        ({
            let all = sorted(entries@, *request, entries@.len() as int);
            match result {
                Ok(positions) => !all.failed && as_positions(positions@)
                    == all.matched && forall|i: int|
                    0 <= i < positions@.len() ==> #[trigger] positions@[i] < entries@.len()
                        && entries@[positions@[i] as int].timestamp_unix_nanos >= 0,
                Err(error) => all.failed && error.says(
                    ApiErrorKind::Internal,
                    "pre-epoch log timestamp"@,
                ),
            }
        }),
{
    let mut positions: Vec<usize> = Vec::new();
    let mut index: usize = 0;
    assert(as_positions(positions@) =~= Seq::<int>::empty());
    while index < entries.len()
        invariant
            index <= entries@.len(),
            !sorted(entries@, *request, index as int).failed,
            as_positions(positions@) == sorted(
                entries@,
                *request,
                index as int,
            ).matched,
            oldest_first(sorted(entries@, *request, index as int).matched, entries@),
            forall|i: int|
                0 <= i < positions@.len() ==> #[trigger] positions@[i] < entries@.len()
                    && entries@[positions@[i] as int].timestamp_unix_nanos >= 0,
        decreases entries@.len() - index,
    {
        match entry_row(request.tenant.as_str(), &entries[index], index) {
            Err(error) => {
                proof {
                    assert(sorted(entries@, *request, index + 1).failed);
                    lemma_sort_fails(entries@, *request, index + 1, entries@.len() as int);
                }
                return Err(error);
            },
            Ok(row) => {
                proof {
                    lemma_entry_row_satisfies(row, entries@[index as int], index as int, *request);
                }
                if row_matches(&row, request) {
                    let ghost list = as_positions(positions@);
                    let at = upper_bound(&positions, entries, index);
                    proof {
                        lemma_placed(list, entries@, index as int, at as int);
                    }
                    positions.insert(at, index);
                    assert(as_positions(positions@) =~= list.insert(
                        at as int,
                        index as int,
                    ));
                }
            },
        }
        index = index + 1;
    }
    Ok(positions)
}

/// First position of a sorted list that is later than a line.
fn upper_bound(positions: &Vec<usize>, entries: &Vec<LokiEntry>, index: usize) -> (at: usize)
    requires
        index < entries@.len(),
        oldest_first(as_positions(positions@), entries@),
        forall|i: int| 0 <= i < positions@.len() ==> #[trigger] positions@[i] < entries@.len(),
    ensures
        at <= positions@.len(),
        forall|i: int|
            0 <= i < at ==> entries@[#[trigger] as_positions(positions@)[i]].timestamp_unix_nanos <= entries@[index as int].timestamp_unix_nanos,
        forall|i: int|
            at <= i < positions@.len() ==> entries@[#[trigger] as_positions(positions@)[i]].timestamp_unix_nanos > entries@[index as int].timestamp_unix_nanos,
{
    let ghost list = as_positions(positions@);
    let time = entries[index].timestamp_unix_nanos;
    let mut low: usize = 0;
    let mut high: usize = positions.len();
    while low < high
        invariant
            low <= high <= positions@.len(),
            list == as_positions(positions@),
            oldest_first(list, entries@),
            time == entries@[index as int].timestamp_unix_nanos,
            forall|i: int| 0 <= i < positions@.len() ==> #[trigger] positions@[i] < entries@.len(),
            forall|i: int| 0 <= i < low ==> entries@[#[trigger] list[i]].timestamp_unix_nanos <= time,
            forall|i: int|
                high <= i < positions@.len() ==> entries@[#[trigger] list[i]].timestamp_unix_nanos
                    > time,
        decreases high - low,
    {
        let middle = low + (high - low) / 2;
        assert(list[middle as int] == positions@[middle as int]);
        if entries[positions[middle]].timestamp_unix_nanos <= time {
            assert forall|i: int| 0 <= i < middle + 1 implies entries@[
            #[trigger] list[i]].timestamp_unix_nanos <= time by {
                if i < middle {
                    assert(entries@[list[i]].timestamp_unix_nanos
                        <= entries@[list[middle as int]].timestamp_unix_nanos);
                }
            }
            low = middle + 1;
        } else {
            assert forall|i: int| middle <= i < positions@.len() implies entries@[
            #[trigger] list[i]].timestamp_unix_nanos > time by {
                if i > middle {
                    assert(entries@[list[middle as int]].timestamp_unix_nanos
                        <= entries@[list[i]].timestamp_unix_nanos);
                }
            }
            high = middle;
        }
    }
    low
}

fn scan_ordered(
    entries: &Vec<LokiEntry>,
    request: &AnalyticsScanRequest,
    order: AnalyticsScanOrder,
) -> (outcome: ScanOutcome)
    requires
        request.order == Some(order),
    ensures
        ({
            let scan = scan_of(entries@, *request);
            &&& batches_hold(outcome.batches@, request.tenant@, entries@, scan.matched)
            &&& scan.failed ==> (outcome.result matches Err(error) && error.says(
                ApiErrorKind::Internal,
                "pre-epoch log timestamp"@,
            ))
            &&& !scan.failed ==> outcome.result is Ok
        }),
{
    let limit = limit_of(request);
    let positions = match sort_entries(entries, request) {
        Ok(positions) => positions,
        Err(error) => {
            let writer = BatchWriter::new();
            assert(writer.holds(request.tenant@, entries@, Seq::empty()));
            let batches = writer.finish(
                Ghost(request.tenant@),
                Ghost(entries@),
                Ghost(Seq::empty()),
            );
            return ScanOutcome { batches, result: Err(error) };
        },
    };
    let ghost ascending = as_positions(positions@);
    let ghost wanted = match order {
        AnalyticsScanOrder::TimestampAscending => ascending,
        AnalyticsScanOrder::TimestampDescending => ascending.reverse(),
    };
    let mut writer = BatchWriter::new();
    let mut index: usize = 0;
    assert(writer.holds(request.tenant@, entries@, Seq::empty()));
    assert(wanted.take(0) =~= Seq::<int>::empty());
    while index < positions.len() && index < limit
        invariant
            index <= positions@.len(),
            index <= limit,
            ascending == as_positions(positions@),
            wanted == (match order {
                AnalyticsScanOrder::TimestampAscending => ascending,
                AnalyticsScanOrder::TimestampDescending => ascending.reverse(),
            }),
            forall|i: int|
                0 <= i < positions@.len() ==> #[trigger] positions@[i] < entries@.len()
                    && entries@[positions@[i] as int].timestamp_unix_nanos >= 0,
            writer.holds(request.tenant@, entries@, wanted.take(index as int)),
        decreases positions@.len() - index,
    {
        let position = match order {
            AnalyticsScanOrder::TimestampAscending => positions[index],
            AnalyticsScanOrder::TimestampDescending => positions[positions.len() - 1 - index],
        };
        assert(wanted[index as int] == position);
        match entry_row(request.tenant.as_str(), &entries[position], position) {
            Ok(row) => {
                writer.push(
                    row,
                    Ghost(request.tenant@),
                    Ghost(entries@),
                    Ghost(wanted.take(index as int)),
                    Ghost(position as int),
                );
            },
            Err(_) => {
                assert(false);
            },
        }
        assert(wanted.take(index as int).push(position as int) =~= wanted.take(index + 1));
        index = index + 1;
    }
    proof {
        if wanted.len() <= limit {
            assert(wanted.take(index as int) =~= wanted);
        }
    }
    let batches = writer.finish(
        Ghost(request.tenant@),
        Ghost(entries@),
        Ghost(wanted.take(index as int)),
    );
    ScanOutcome { batches, result: Ok(()) }
}

/// An ordered scan gathers exactly the lines that satisfy the request, oldest
/// first.
pub proof fn ordered_scans_are_sorted(
    entries: Seq<LokiEntry>,
    request: AnalyticsScanRequest,
    count: int,
)
    requires
        0 <= count <= entries.len(),
        !sorted(entries, request, count).failed,
    ensures
        oldest_first(sorted(entries, request, count).matched, entries),
        forall|i: int|
            0 <= i < count ==> (#[trigger] sorted(entries, request, count).matched.contains(i)
                <==> entry_satisfies(entries[i], i, request)),
        forall|i: int|
            0 <= i < sorted(entries, request, count).matched.len() ==> 0 <= #[trigger] sorted(
                entries,
                request,
                count,
            ).matched[i] < count,
    decreases count,
{
    if count > 0 {
        ordered_scans_are_sorted(entries, request, count - 1);
        let before = sorted(entries, request, count - 1).matched;
        let after = sorted(entries, request, count).matched;
        if entry_satisfies(entries[count - 1], count - 1, request) {
            let at = lemma_place_exists(before, entries, count - 1);
            lemma_placed(before, entries, count - 1, at);
            assert(after == before.insert(at, count - 1));
            assert forall|i: int| 0 <= i < count implies (#[trigger] after.contains(i)
                <==> entry_satisfies(entries[i], i, request)) by {
                if before.contains(i) {
                    let k = choose|k: int| 0 <= k < before.len() && before[k] == i;
                    let to = if k < at {
                        k
                    } else {
                        k + 1
                    };
                    assert(after[to] == i);
                }
                if i == count - 1 {
                    assert(after[at] == i);
                }
                if after.contains(i) && i < count - 1 {
                    let k = choose|k: int| 0 <= k < after.len() && after[k] == i;
                    let from = if k < at {
                        k
                    } else {
                        k - 1
                    };
                    assert(before[from] == i);
                }
            }
            assert forall|i: int| 0 <= i < after.len() implies 0 <= #[trigger] after[i] < count by {
                if i < at {
                    assert(after[i] == before[i]);
                } else if i > at {
                    assert(after[i] == before[i - 1]);
                }
            }
        } else {
            assert forall|i: int| 0 <= i < count implies (#[trigger] after.contains(i)
                <==> entry_satisfies(entries[i], i, request)) by {
                if i == count - 1 && after.contains(i) {
                    let k = choose|k: int| 0 <= k < before.len() && before[k] == i;
                    assert(before[k] < count - 1);
                }
            }
        }
    }
}

proof fn lemma_place_exists(list: Seq<int>, entries: Seq<LokiEntry>, position: int) -> (at: int)
    requires
        oldest_first(list, entries),
    ensures
        0 <= at <= list.len(),
        forall|i: int|
            0 <= i < at ==> entries[#[trigger] list[i]].timestamp_unix_nanos
                <= entries[position].timestamp_unix_nanos,
        forall|i: int|
            at <= i < list.len() ==> entries[#[trigger] list[i]].timestamp_unix_nanos
                > entries[position].timestamp_unix_nanos,
    decreases list.len(),
{
    if list.len() == 0 {
        0
    } else if entries[list.last()].timestamp_unix_nanos <= entries[position].timestamp_unix_nanos {
        assert forall|i: int| 0 <= i < list.len() implies entries[
        #[trigger] list[i]].timestamp_unix_nanos <= entries[position].timestamp_unix_nanos by {
            if i < list.len() - 1 {
                assert(entries[list[i]].timestamp_unix_nanos <= entries[list[list.len()
                    - 1]].timestamp_unix_nanos);
            }
        }
        list.len() as int
    } else {
        let shorter = list.drop_last();
        assert forall|i: int, j: int| 0 <= i < j < shorter.len() implies entries[
        #[trigger] shorter[i]].timestamp_unix_nanos <= entries[
        #[trigger] shorter[j]].timestamp_unix_nanos by {
            assert(entries[list[i]].timestamp_unix_nanos <= entries[list[j]].timestamp_unix_nanos);
        }
        let at = lemma_place_exists(shorter, entries, position);
        assert forall|i: int| 0 <= i < at implies entries[#[trigger] list[i]].timestamp_unix_nanos
            <= entries[position].timestamp_unix_nanos by {
            assert(shorter[i] == list[i]);
        }
        assert forall|i: int| at <= i < list.len() implies entries[
        #[trigger] list[i]].timestamp_unix_nanos > entries[position].timestamp_unix_nanos by {
            if i < list.len() - 1 {
                assert(shorter[i] == list[i]);
            }
        }
        at
    }
}

} // verus!
