//! Which lines a scan of buffered entries hands over.

use vstd::prelude::*;

use crate::analytics_columns::{AnalyticsColumn, AnalyticsScanOrder};
use crate::analytics_request::{field_views, AnalyticsScanRequest};
use crate::analytics_row::{AnalyticsRow, Cell};
use crate::analytics_scan::{
    alike, batches_hold, entry_cell, entry_satisfies, holds_fields, holds_token, holds_tokens,
    is_entry_row, placed, row_cells, row_limit, satisfied, scan_of, scanned, separates, sorted,
    token_at, CaseSensitivity, LokiEntry,
};
use crate::records::MetadataField;
use crate::text::{hex_fixed, text_views};

verus! {

/// Whether a map has every wanted field.
pub open spec fn has_fields(
    values: Map<Seq<char>, Seq<char>>,
    wanted: Seq<MetadataField>,
) -> bool {
    forall|i: int|
        0 <= i < wanted.len() ==> values.contains_pair(
            (#[trigger] wanted[i]).key@,
            wanted[i].value@,
        )
}

/// Whether a message has every wanted token, where it is there.
pub open spec fn has_tokens(
    message: Option<Seq<char>>,
    wanted: Seq<String>,
    case: CaseSensitivity,
) -> bool {
    forall|i: int|
        0 <= i < wanted.len() ==> message is Some && holds_token(
            message->0,
            (#[trigger] wanted[i])@,
            case,
        )
}

/// Whether a time lies between the inclusive lower and the exclusive upper bound
/// of a request.
pub open spec fn within_bounds(time: int, request: AnalyticsScanRequest) -> bool {
    &&& request.start_timestamp_unix_nanos matches Some(start) ==> start <= time
    &&& request.end_timestamp_unix_nanos matches Some(end) ==> 0 <= time < end
}

/// Whether a row fits a request, field by field.
pub open spec fn row_fits(row: AnalyticsRow, request: AnalyticsScanRequest) -> bool {
    let message = match row.message {
        Some(text) => Some(text@),
        None => None,
    };
    &&& within_bounds(row.timestamp_unix_nanos as int, request)
    &&& request.trace_id matches Some(id) ==> (row.trace_id matches Some(text) && text@
        == hex_fixed(id.0 as nat, 32))
    &&& request.span_id matches Some(id) ==> (row.span_id matches Some(text) && text@ == hex_fixed(
        id.0 as nat,
        16,
    ))
    &&& request.series_id matches Some(id) ==> (row.series_id matches Some(text) && text@
        == hex_fixed(id.0 as nat, 32))
    &&& request.name matches Some(name) ==> (row.name matches Some(text) && text@ == name@)
    &&& has_fields(row.labels@, request.labels@)
    &&& has_fields(row.metadata@, request.metadata@)
    &&& has_fields(row.attributes@, request.attributes@)
    &&& has_fields(row.resource_attributes@, request.resource_attributes@)
    &&& has_fields(row.scope_attributes@, request.scope_attributes@)
    &&& has_tokens(message, request.terms@, CaseSensitivity::Insensitive)
    &&& has_tokens(message, request.message_tokens@, CaseSensitivity::Sensitive)
    &&& has_tokens(
        message,
        request.case_insensitive_message_tokens@,
        CaseSensitivity::Insensitive,
    )
}

/// Whether a buffered line fits a request. A line has no trace, no span, no
/// series, no name and no attributes.
pub open spec fn line_fits(entry: LokiEntry, request: AnalyticsScanRequest) -> bool {
    let message = Some(entry.line@);
    &&& within_bounds(entry.timestamp_unix_nanos as int, request)
    &&& request.trace_id is None
    &&& request.span_id is None
    &&& request.series_id is None
    &&& request.name is None
    &&& has_fields(entry.labels@, request.labels@)
    &&& has_fields(entry.structured_metadata@, request.metadata@)
    &&& request.attributes@.len() == 0
    &&& request.resource_attributes@.len() == 0
    &&& request.scope_attributes@.len() == 0
    &&& has_tokens(message, request.terms@, CaseSensitivity::Insensitive)
    &&& has_tokens(message, request.message_tokens@, CaseSensitivity::Sensitive)
    &&& has_tokens(
        message,
        request.case_insensitive_message_tokens@,
        CaseSensitivity::Insensitive,
    )
}

proof fn lemma_fields(values: Map<Seq<char>, Seq<char>>, wanted: Seq<MetadataField>)
    ensures
        holds_fields(Cell::TextMap(values), field_views(wanted)) <==> has_fields(values, wanted),
{
    let views = field_views(wanted);
    assert forall|i: int| 0 <= i < wanted.len() implies #[trigger] views[i] == (
        wanted[i].key@,
        wanted[i].value@,
    ) by {}
    if holds_fields(Cell::TextMap(values), views) {
        assert forall|i: int| 0 <= i < wanted.len() implies values.contains_pair(
            (#[trigger] wanted[i]).key@,
            wanted[i].value@,
        ) by {
            assert(values.contains_key(views[i].0) && values[views[i].0] == views[i].1);
        }
    }
    if has_fields(values, wanted) {
        assert forall|i: int| 0 <= i < views.len() implies values.contains_key(
            (#[trigger] views[i]).0,
        ) && values[views[i].0] == views[i].1 by {
            assert(values.contains_pair(wanted[i].key@, wanted[i].value@));
        }
    }
}

proof fn lemma_tokens(
    cell: Cell,
    message: Option<Seq<char>>,
    wanted: Seq<String>,
    case: CaseSensitivity,
)
    requires
        cell == (match message {
            Some(text) => Cell::Text(text),
            None => Cell::Null,
        }),
    ensures
        holds_tokens(cell, text_views(wanted), case) <==> has_tokens(message, wanted, case),
{
    let views = text_views(wanted);
    assert forall|i: int| 0 <= i < wanted.len() implies #[trigger] views[i] == wanted[i]@ by {}
    if wanted.len() > 0 {
        assert(views[0] == wanted[0]@);
    }
    if holds_tokens(cell, views, case) {
        assert forall|i: int| 0 <= i < wanted.len() implies message is Some && holds_token(
            message->0,
            (#[trigger] wanted[i])@,
            case,
        ) by {
            assert(views[i] == wanted[i]@);
        }
    }
    if has_tokens(message, wanted, case) {
        assert forall|i: int| 0 <= i < views.len() implies cell is Text && holds_token(
            cell->Text_0,
            #[trigger] views[i],
            case,
        ) by {
            assert(views[i] == wanted[i]@);
        }
    }
}

/// A row satisfies a request exactly where each of its fields does: its time lies
/// from the lower bound on and before the upper one, its identities and its name
/// are those that the request names, its maps have the fields and its message has
/// the tokens.
pub proof fn rows_match_by_their_fields(row: AnalyticsRow, request: AnalyticsScanRequest)
    ensures
        satisfied(row_cells(row), request) <==> row_fits(row, request),
{
    let message = match row.message {
        Some(text) => Some(text@),
        None => None,
    };
    let cell = row.cell(AnalyticsColumn::Message);
    lemma_fields(row.labels@, request.labels@);
    lemma_fields(row.metadata@, request.metadata@);
    lemma_fields(row.attributes@, request.attributes@);
    lemma_fields(row.resource_attributes@, request.resource_attributes@);
    lemma_fields(row.scope_attributes@, request.scope_attributes@);
    lemma_tokens(cell, message, request.terms@, CaseSensitivity::Insensitive);
    lemma_tokens(cell, message, request.message_tokens@, CaseSensitivity::Sensitive);
    lemma_tokens(
        cell,
        message,
        request.case_insensitive_message_tokens@,
        CaseSensitivity::Insensitive,
    );
}

proof fn lemma_no_fields(wanted: Seq<MetadataField>)
    ensures
        has_fields(Map::empty(), wanted) <==> wanted.len() == 0,
{
    if wanted.len() > 0 && has_fields(Map::empty(), wanted) {
        assert(Map::<Seq<char>, Seq<char>>::empty().contains_pair(wanted[0].key@, wanted[0].value@));
    }
}

/// A buffered line satisfies a request exactly where each of its fields does.
pub proof fn lines_match_by_their_fields(
    entry: LokiEntry,
    ordinal: int,
    request: AnalyticsScanRequest,
)
    requires
        entry.timestamp_unix_nanos >= 0,
    ensures
        entry_satisfies(entry, ordinal, request) <==> line_fits(entry, request),
{
    let message = Some(entry.line@);
    let cell = entry_cell(request.tenant@, entry, ordinal, AnalyticsColumn::Message);
    lemma_fields(entry.labels@, request.labels@);
    lemma_fields(entry.structured_metadata@, request.metadata@);
    lemma_fields(Map::empty(), request.attributes@);
    lemma_fields(Map::empty(), request.resource_attributes@);
    lemma_fields(Map::empty(), request.scope_attributes@);
    lemma_no_fields(request.attributes@);
    lemma_no_fields(request.resource_attributes@);
    lemma_no_fields(request.scope_attributes@);
    lemma_tokens(cell, message, request.terms@, CaseSensitivity::Insensitive);
    lemma_tokens(cell, message, request.message_tokens@, CaseSensitivity::Sensitive);
    lemma_tokens(
        cell,
        message,
        request.case_insensitive_message_tokens@,
        CaseSensitivity::Insensitive,
    );
}

/// Whether a line comes before another in time, the earlier position first where
/// the times are equal.
pub open spec fn older(entries: Seq<LokiEntry>, left: int, right: int) -> bool {
    ||| entries[left].timestamp_unix_nanos < entries[right].timestamp_unix_nanos
    ||| entries[left].timestamp_unix_nanos == entries[right].timestamp_unix_nanos && left < right
}

/// Whether each line of a list is older than those after it.
pub open spec fn aging(entries: Seq<LokiEntry>, list: Seq<int>) -> bool {
    forall|i: int, j: int|
        0 <= i < j < list.len() ==> older(entries, #[trigger] list[i], #[trigger] list[j])
}

proof fn lemma_placed(list: Seq<int>, entries: Seq<LokiEntry>, position: int)
    requires
        aging(entries, list),
        forall|i: int| 0 <= i < list.len() ==> #[trigger] list[i] < position,
    ensures
        aging(entries, placed(list, entries, position)),
        placed(list, entries, position).len() == list.len() + 1,
        forall|i: int|
            0 <= i < placed(list, entries, position).len() ==> list.contains(
                #[trigger] placed(list, entries, position)[i],
            ) || placed(list, entries, position)[i] == position,
        forall|i: int|
            0 <= i < list.len() ==> placed(list, entries, position).contains(#[trigger] list[i]),
        placed(list, entries, position).contains(position),
    decreases list.len(),
{
    let result = placed(list, entries, position);
    if list.len() == 0 || entries[list.last()].timestamp_unix_nanos
        <= entries[position].timestamp_unix_nanos {
        assert(result[list.len() as int] == position);
        assert forall|i: int| 0 <= i < list.len() implies result.contains(#[trigger] list[i]) by {
            assert(result[i] == list[i]);
        }
        assert forall|i: int, j: int| 0 <= i < j < result.len() implies older(
            entries,
            #[trigger] result[i],
            #[trigger] result[j],
        ) by {
            assert(result[i] == list[i]);
            if j == list.len() {
                if i < list.len() - 1 {
                    assert(older(entries, list[i], list[list.len() - 1]));
                }
            } else {
                assert(result[j] == list[j]);
            }
        }
    } else {
        let rest = list.drop_last();
        assert forall|i: int, j: int| 0 <= i < j < rest.len() implies older(
            entries,
            #[trigger] rest[i],
            #[trigger] rest[j],
        ) by {
            assert(older(entries, list[i], list[j]));
        }
        lemma_placed(rest, entries, position);
        let shorter = placed(rest, entries, position);
        assert(result == shorter.push(list.last()));
        assert(result[shorter.len() as int] == list.last());
        assert forall|i: int| 0 <= i < result.len() implies list.contains(#[trigger] result[i])
            || result[i] == position by {
            if i < shorter.len() {
                assert(result[i] == shorter[i]);
                if rest.contains(shorter[i]) {
                    let k = choose|k: int| 0 <= k < rest.len() && rest[k] == shorter[i];
                    assert(list[k] == shorter[i]);
                }
            } else {
                assert(list[list.len() - 1] == list.last());
            }
        }
        assert forall|i: int| 0 <= i < list.len() implies result.contains(#[trigger] list[i]) by {
            if i < rest.len() {
                assert(shorter.contains(rest[i]));
                let k = choose|k: int| 0 <= k < shorter.len() && shorter[k] == rest[i];
                assert(result[k] == list[i]);
            }
        }
        assert(result.contains(position)) by {
            let k = choose|k: int| 0 <= k < shorter.len() && shorter[k] == position;
            assert(result[k] == position);
        }
        assert forall|i: int, j: int| 0 <= i < j < result.len() implies older(
            entries,
            #[trigger] result[i],
            #[trigger] result[j],
        ) by {
            assert(result[i] == shorter[i]);
            if j < shorter.len() {
                assert(result[j] == shorter[j]);
            } else if rest.contains(shorter[i]) {
                let k = choose|k: int| 0 <= k < rest.len() && rest[k] == shorter[i];
                assert(older(entries, list[k], list[list.len() - 1]));
            }
        }
    }
}

proof fn lemma_sorted(entries: Seq<LokiEntry>, request: AnalyticsScanRequest, count: int)
    requires
        0 <= count <= entries.len(),
    ensures
        sorted(entries, request, count).failed <==> exists|i: int|
            0 <= i < count && (#[trigger] entries[i]).timestamp_unix_nanos < 0,
        !sorted(entries, request, count).failed ==> {
            let matched = sorted(entries, request, count).matched;
            &&& aging(entries, matched)
            &&& forall|k: int|
                0 <= k < matched.len() ==> 0 <= #[trigger] matched[k] < count && line_fits(
                    entries[matched[k]],
                    request,
                )
            &&& forall|i: int|
                0 <= i < count && line_fits(#[trigger] entries[i], request) ==> matched.contains(i)
        },
    decreases count,
{
    if count > 0 {
        lemma_sorted(entries, request, count - 1);
        let before = sorted(entries, request, count - 1);
        let after = sorted(entries, request, count);
        let entry = entries[count - 1];
        if !before.failed && entry.timestamp_unix_nanos >= 0 {
            lines_match_by_their_fields(entry, count - 1, request);
            if entry_satisfies(entry, count - 1, request) {
                lemma_placed(before.matched, entries, count - 1);
                assert forall|k: int| 0 <= k < after.matched.len() implies 0
                    <= #[trigger] after.matched[k] < count && line_fits(
                    entries[after.matched[k]],
                    request,
                ) by {
                    if before.matched.contains(after.matched[k]) {
                        let at = choose|at: int|
                            0 <= at < before.matched.len() && before.matched[at]
                                == after.matched[k];
                        assert(before.matched[at] < count - 1);
                    }
                }
                assert forall|i: int|
                    0 <= i < count && line_fits(
                        #[trigger] entries[i],
                        request,
                    ) implies after.matched.contains(i) by {
                    if i < count - 1 {
                        let at = choose|at: int|
                            0 <= at < before.matched.len() && before.matched[at] == i;
                        assert(after.matched.contains(before.matched[at]));
                    }
                }
            }
        }
    }
}

proof fn lemma_scanned(
    entries: Seq<LokiEntry>,
    request: AnalyticsScanRequest,
    limit: nat,
    count: int,
)
    requires
        0 <= count <= entries.len(),
    ensures
        ({
            let scan = scanned(entries, request, limit, count);
            let matched = scan.matched;
            &&& matched.len() <= limit
            &&& forall|i: int, j: int|
                0 <= i < j < matched.len() ==> #[trigger] matched[i] < #[trigger] matched[j]
            &&& forall|k: int|
                0 <= k < matched.len() ==> 0 <= #[trigger] matched[k] < count && line_fits(
                    entries[matched[k]],
                    request,
                ) && entries[matched[k]].timestamp_unix_nanos >= 0
            &&& scan.failed ==> exists|i: int|
                0 <= i < count && (#[trigger] entries[i]).timestamp_unix_nanos < 0
            &&& !scan.failed && matched.len() < limit ==> forall|i: int|
                0 <= i < count ==> (#[trigger] entries[i]).timestamp_unix_nanos >= 0
            &&& !scan.failed ==> forall|i: int|
                0 <= i < count && (matched.len() < limit || matched.len() > 0 && i
                    < matched.last()) && line_fits(#[trigger] entries[i], request)
                    ==> matched.contains(i)
        }),
    decreases count,
{
    if count > 0 {
        lemma_scanned(entries, request, limit, count - 1);
        let before = scanned(entries, request, limit, count - 1);
        let after = scanned(entries, request, limit, count);
        let entry = entries[count - 1];
        if before.failed || before.matched.len() >= limit {
        } else if entry.timestamp_unix_nanos < 0 {
            assert(entries[count - 1].timestamp_unix_nanos < 0);
        } else {
            lines_match_by_their_fields(entry, count - 1, request);
            if entry_satisfies(entry, count - 1, request) {
                assert forall|i: int|
                    0 <= i < count && line_fits(
                        #[trigger] entries[i],
                        request,
                    ) implies after.matched.contains(i) by {
                    if i < count - 1 {
                        let at = choose|at: int|
                            0 <= at < before.matched.len() && before.matched[at] == i;
                        assert(after.matched[at] == i);
                    } else {
                        assert(after.matched[before.matched.len() as int] == i);
                    }
                }
            }
        }
    }
}

/// Whether a line comes before another in what a request asks for: in time, or
/// against it, or by position.
pub open spec fn ahead(
    entries: Seq<LokiEntry>,
    order: Option<AnalyticsScanOrder>,
    left: int,
    right: int,
) -> bool {
    match order {
        None => left < right,
        Some(AnalyticsScanOrder::TimestampAscending) => older(entries, left, right),
        Some(AnalyticsScanOrder::TimestampDescending) => older(entries, right, left),
    }
}

proof fn lemma_ordered_scan(entries: Seq<LokiEntry>, request: AnalyticsScanRequest)
    requires
        request.order is Some,
        !scan_of(entries, request).failed,
    ensures
        ({
            let matched = scan_of(entries, request).matched;
            &&& matched.len() <= row_limit(request)
            &&& forall|k: int|
                0 <= k < matched.len() ==> 0 <= #[trigger] matched[k] < entries.len() && line_fits(
                    entries[matched[k]],
                    request,
                )
            &&& forall|i: int, j: int|
                0 <= i < j < matched.len() ==> ahead(
                    entries,
                    request.order,
                    #[trigger] matched[i],
                    #[trigger] matched[j],
                )
            &&& forall|i: int|
                0 <= i < entries.len() && line_fits(#[trigger] entries[i], request)
                    ==> matched.contains(i) || matched.len() == row_limit(request) && forall|k: int|
                    0 <= k < matched.len() ==> ahead(entries, request.order, #[trigger] matched[k], i)
        }),
{
    let count = entries.len() as int;
    lemma_sorted(entries, request, count);
    let all = sorted(entries, request, count).matched;
    let limit = row_limit(request);
    let matched = scan_of(entries, request).matched;
    let ranked = match request.order->0 {
        AnalyticsScanOrder::TimestampAscending => all,
        AnalyticsScanOrder::TimestampDescending => all.reverse(),
    };
    assert forall|i: int, j: int| 0 <= i < j < ranked.len() implies ahead(
        entries,
        request.order,
        #[trigger] ranked[i],
        #[trigger] ranked[j],
    ) by {
        if request.order->0 is TimestampDescending {
            assert(ranked[i] == all[all.len() - 1 - i]);
            assert(ranked[j] == all[all.len() - 1 - j]);
        }
    }
    assert forall|k: int| 0 <= k < ranked.len() implies 0 <= #[trigger] ranked[k] < entries.len()
        && line_fits(entries[ranked[k]], request) by {
        if request.order->0 is TimestampDescending {
            assert(ranked[k] == all[all.len() - 1 - k]);
        }
    }
    assert forall|k: int| 0 <= k < matched.len() implies #[trigger] matched[k] == ranked[k] by {}
    assert forall|i: int|
        0 <= i < entries.len() && line_fits(
            #[trigger] entries[i],
            request,
        ) implies matched.contains(i) || matched.len() == limit && forall|k: int|
        0 <= k < matched.len() ==> ahead(entries, request.order, #[trigger] matched[k], i) by {
        assert(all.contains(i));
        let at = choose|at: int| 0 <= at < all.len() && all[at] == i;
        let to = match request.order->0 {
            AnalyticsScanOrder::TimestampAscending => at,
            AnalyticsScanOrder::TimestampDescending => all.len() - 1 - at,
        };
        assert(ranked[to] == i);
        if to < matched.len() {
            assert(matched[to] == i);
        } else {
            assert forall|k: int| 0 <= k < matched.len() implies ahead(
                entries,
                request.order,
                #[trigger] matched[k],
                i,
            ) by {
                assert(ahead(entries, request.order, ranked[k], ranked[to]));
            }
        }
    }
}

/// A scan that does not fail hands over lines that fit the request, in its order
/// and at most as many as its limit; a line that fits and is not handed over comes
/// after all that were, which are then as many as the limit.
pub proof fn scans_hand_over_the_fitting_lines(
    entries: Seq<LokiEntry>,
    request: AnalyticsScanRequest,
)
    requires
        !scan_of(entries, request).failed,
    ensures
        ({
            let matched = scan_of(entries, request).matched;
            &&& request.limit matches Some(limit) ==> matched.len() <= limit
            &&& forall|k: int|
                0 <= k < matched.len() ==> 0 <= #[trigger] matched[k] < entries.len() && line_fits(
                    entries[matched[k]],
                    request,
                )
            &&& forall|i: int, j: int|
                0 <= i < j < matched.len() ==> ahead(
                    entries,
                    request.order,
                    #[trigger] matched[i],
                    #[trigger] matched[j],
                )
            &&& entries.len() <= usize::MAX ==> forall|i: int|
                0 <= i < entries.len() && line_fits(#[trigger] entries[i], request)
                    ==> matched.contains(i) || request.limit == Some(matched.len() as usize)
                    && forall|k: int|
                    0 <= k < matched.len() ==> ahead(entries, request.order, #[trigger] matched[k], i)
        }),
{
    let matched = scan_of(entries, request).matched;
    if request.order is Some {
        lemma_ordered_scan(entries, request);
        assert forall|i: int|
            entries.len() <= usize::MAX && 0 <= i < entries.len() && line_fits(
                #[trigger] entries[i],
                request,
            ) implies matched.contains(i) || request.limit == Some(matched.len() as usize)
            && forall|k: int|
            0 <= k < matched.len() ==> ahead(entries, request.order, #[trigger] matched[k], i) by {
            if !matched.contains(i) {
                lemma_count_distinct(entries, request, matched, i);
            }
        }
    } else {
        lemma_scanned(entries, request, row_limit(request), entries.len() as int);
        assert forall|i: int|
            entries.len() <= usize::MAX && 0 <= i < entries.len() && line_fits(
                #[trigger] entries[i],
                request,
            ) implies matched.contains(i) || request.limit == Some(matched.len() as usize)
            && forall|k: int|
            0 <= k < matched.len() ==> ahead(entries, request.order, #[trigger] matched[k], i) by {
            if !matched.contains(i) {
                lemma_count_distinct(entries, request, matched, i);
                assert(matched.len() == row_limit(request));
                if matched.len() > 0 {
                    assert(i >= matched.last());
                    assert(matched[matched.len() - 1] == matched.last());
                    assert(i != matched.last());
                    assert forall|k: int| 0 <= k < matched.len() implies ahead(
                        entries,
                        request.order,
                        #[trigger] matched[k],
                        i,
                    ) by {
                        if k < matched.len() - 1 {
                            assert(matched[k] < matched[matched.len() - 1]);
                        }
                    }
                }
            }
        }
    }
}

/// A list of different positions that misses one is shorter than the lines are.
proof fn lemma_count_distinct(
    entries: Seq<LokiEntry>,
    request: AnalyticsScanRequest,
    matched: Seq<int>,
    missing: int,
)
    requires
        forall|k: int| 0 <= k < matched.len() ==> 0 <= #[trigger] matched[k] < entries.len(),
        forall|i: int, j: int|
            0 <= i < j < matched.len() ==> ahead(
                entries,
                request.order,
                #[trigger] matched[i],
                #[trigger] matched[j],
            ),
        0 <= missing < entries.len(),
        !matched.contains(missing),
    ensures
        matched.len() < entries.len(),
{
    let all = vstd::set_lib::set_int_range(0, entries.len() as int);
    vstd::set_lib::lemma_int_range(0, entries.len() as int);
    assert(matched.no_duplicates());
    matched.unique_seq_to_set();
    assert(matched.to_set().subset_of(all.remove(missing)));
    vstd::set_lib::lemma_len_subset(matched.to_set(), all.remove(missing));
}

/// A scan of some lines fails only where a line stands before the epoch.
pub proof fn scans_fail_only_before_the_epoch(
    entries: Seq<LokiEntry>,
    request: AnalyticsScanRequest,
)
    requires
        forall|i: int|
            0 <= i < entries.len() ==> (#[trigger] entries[i]).timestamp_unix_nanos >= 0,
    ensures
        !scan_of(entries, request).failed,
{
    lemma_sorted(entries, request, entries.len() as int);
    lemma_scanned(entries, request, row_limit(request), entries.len() as int);
}

/// A scan without a limit fails where a line stands before the epoch: an ordered one
/// hands nothing over, another only whole batches.
pub proof fn lines_before_the_epoch_fail_the_scan(
    entries: Seq<LokiEntry>,
    request: AnalyticsScanRequest,
    place: int,
)
    requires
        0 <= place < entries.len(),
        entries[place].timestamp_unix_nanos < 0,
        request.order is Some || (request.limit is None && entries.len() <= usize::MAX),
    ensures
        scan_of(entries, request).failed,
        request.order is Some ==> scan_of(entries, request).matched.len() == 0,
        scan_of(entries, request).matched.len() % 8_192 == 0,
{
    let count = entries.len() as int;
    if request.order is Some {
        lemma_sorted_fails(entries, request, place, count);
    } else {
        lemma_scanned_fails(entries, request, place, count);
        let all = scanned(entries, request, row_limit(request), count);
        let whole = (all.matched.len() / 8_192) as int * 8_192;
        assert(all.matched.take(whole).len() == whole);
    }
}

proof fn lemma_sorted_fails(
    entries: Seq<LokiEntry>,
    request: AnalyticsScanRequest,
    place: int,
    count: int,
)
    requires
        0 <= place < count <= entries.len(),
        entries[place].timestamp_unix_nanos < 0,
    ensures
        sorted(entries, request, count).failed,
    decreases count,
{
    if place < count - 1 {
        lemma_sorted_fails(entries, request, place, count - 1);
    }
}

proof fn lemma_scanned_fails(
    entries: Seq<LokiEntry>,
    request: AnalyticsScanRequest,
    place: int,
    count: int,
)
    requires
        0 <= place < count <= entries.len(),
        entries[place].timestamp_unix_nanos < 0,
        entries.len() <= usize::MAX,
        request.limit is None,
    ensures
        scanned(entries, request, row_limit(request), count).failed,
    decreases count,
{
    if place < count - 1 {
        lemma_scanned_fails(entries, request, place, count - 1);
    } else {
        lemma_scanned_length(entries, request, count - 1);
    }
}

proof fn lemma_scanned_length(entries: Seq<LokiEntry>, request: AnalyticsScanRequest, count: int)
    requires
        0 <= count <= entries.len(),
    ensures
        scanned(entries, request, row_limit(request), count).matched.len() <= count,
    decreases count,
{
    if count > 0 {
        lemma_scanned_length(entries, request, count - 1);
    }
}

/// Every row that a scan hands over, whether or not it then fails, has a time from
/// the lower bound of the request on and before its upper bound, and the labels,
/// the metadata and the tokens that the request names.
pub proof fn scanned_rows_lie_within_the_bounds(
    batches: Seq<Vec<AnalyticsRow>>,
    entries: Seq<LokiEntry>,
    request: AnalyticsScanRequest,
)
    requires
        batches_hold(batches, request.tenant@, entries, scan_of(entries, request).matched),
    ensures
        forall|b: int, r: int|
            0 <= b < batches.len() && 0 <= r < batches[b]@.len() ==> row_fits(
                #[trigger] batches[b]@[r],
                request,
            ),
{
    let matched = scan_of(entries, request).matched;
    assert forall|k: int| 0 <= k < matched.len() implies 0 <= #[trigger] matched[k] < entries.len()
        && line_fits(entries[matched[k]], request) && entries[matched[k]].timestamp_unix_nanos
        >= 0 by {
        if request.order is Some {
            if !scan_of(entries, request).failed {
                lemma_ordered_scan(entries, request);
                lemma_sorted(entries, request, entries.len() as int);
            }
        } else {
            lemma_scanned(entries, request, row_limit(request), entries.len() as int);
        }
    }
    assert forall|b: int, r: int|
        0 <= b < batches.len() && 0 <= r < batches[b]@.len() implies row_fits(
        #[trigger] batches[b]@[r],
        request,
    ) by {
        let row = batches[b]@[r];
        let k = b * 8_192 + r;
        assert(is_entry_row(row, request.tenant@, entries[matched[k]], matched[k]));
        assert(0 <= k < matched.len());
        let entry = entries[matched[k]];
        lines_match_by_their_fields(entry, matched[k], request);
        let cells = |column: AnalyticsColumn|
            entry_cell(request.tenant@, entry, matched[k], column);
        assert(row_cells(row) =~= cells);
        rows_match_by_their_fields(row, request);
    }
}

/// The row of a line has the tenant, the time, the text, the labels and the
/// metadata of the line, counts its position, and has nothing else.
pub proof fn rows_carry_their_line(
    row: AnalyticsRow,
    tenant: Seq<char>,
    entry: LokiEntry,
    ordinal: int,
)
    requires
        is_entry_row(row, tenant, entry, ordinal),
        entry.timestamp_unix_nanos >= 0,
        0 <= ordinal <= u64::MAX,
    ensures
        row.tenant@ == tenant,
        row.signal@ == "logs"@,
        row.timestamp_unix_nanos == entry.timestamp_unix_nanos,
        row.message matches Some(text) && text@ == entry.line@,
        row.labels@ == entry.labels@,
        row.metadata@ == entry.structured_metadata@,
        row.partition == 0,
        row.offset == ordinal,
        row.trace_id is None,
        row.span_id is None,
        row.series_id is None,
        row.name is None,
        row.attributes@ == Map::<Seq<char>, Seq<char>>::empty(),
        row.resource_attributes@ == Map::<Seq<char>, Seq<char>>::empty(),
        row.scope_attributes@ == Map::<Seq<char>, Seq<char>>::empty(),
{
    assert(row.cell(AnalyticsColumn::Tenant) == entry_cell(
        tenant,
        entry,
        ordinal,
        AnalyticsColumn::Tenant,
    ));
    let shown = |column: AnalyticsColumn| entry_cell(tenant, entry, ordinal, column);
    assert(row.cell(AnalyticsColumn::Signal) == shown(AnalyticsColumn::Signal));
    assert(row.cell(AnalyticsColumn::Timestamp) == shown(AnalyticsColumn::Timestamp));
    assert(row.cell(AnalyticsColumn::Message) == shown(AnalyticsColumn::Message));
    assert(row.cell(AnalyticsColumn::Labels) == shown(AnalyticsColumn::Labels));
    assert(row.cell(AnalyticsColumn::Metadata) == shown(AnalyticsColumn::Metadata));
    assert(row.cell(AnalyticsColumn::Partition) == shown(AnalyticsColumn::Partition));
    assert(row.cell(AnalyticsColumn::Offset) == shown(AnalyticsColumn::Offset));
    assert(row.cell(AnalyticsColumn::TraceId) == shown(AnalyticsColumn::TraceId));
    assert(row.cell(AnalyticsColumn::SpanId) == shown(AnalyticsColumn::SpanId));
    assert(row.cell(AnalyticsColumn::SeriesId) == shown(AnalyticsColumn::SeriesId));
    assert(row.cell(AnalyticsColumn::Name) == shown(AnalyticsColumn::Name));
    assert(row.cell(AnalyticsColumn::Attributes) == shown(AnalyticsColumn::Attributes));
    assert(row.cell(AnalyticsColumn::ResourceAttributes) == shown(
        AnalyticsColumn::ResourceAttributes,
    ));
    assert(row.cell(AnalyticsColumn::ScopeAttributes) == shown(AnalyticsColumn::ScopeAttributes));
}

/// A token that stands between separators, or at an end of the message, is held.
pub proof fn separated_tokens_are_held(
    before: Seq<char>,
    token: Seq<char>,
    after: Seq<char>,
    case: CaseSensitivity,
)
    requires
        before.len() == 0 || separates(before.last()),
        after.len() == 0 || separates(after[0]),
    ensures
        holds_token(before + token + after, token, case),
{
    let message = before + token + after;
    assert forall|i: int| 0 <= i < token.len() implies alike(
        #[trigger] message[before.len() + i],
        token[i],
        case,
    ) by {
        assert(message[before.len() + i] == token[i]);
    }
    assert(token_at(message, token, before.len() as int, case));
}

/// A message without separators holds only the token that it is.
pub proof fn words_hold_only_themselves(
    message: Seq<char>,
    token: Seq<char>,
    case: CaseSensitivity,
)
    requires
        forall|i: int| 0 <= i < message.len() ==> !separates(#[trigger] message[i]),
        holds_token(message, token, case),
    ensures
        message.len() == token.len(),
        case is Sensitive ==> message == token,
{
    let start = choose|start: int| #[trigger] token_at(message, token, start, case);
    if start > 0 {
        assert(separates(message[start - 1]));
    }
    if start + token.len() < message.len() {
        assert(separates(message[start + token.len()]));
    }
    if case is Sensitive {
        assert forall|i: int| 0 <= i < token.len() implies message[i] == token[i] by {
            assert(alike(message[start + i], token[i], case));
        }
        assert(message =~= token);
    }
}

/// Letters, digits and everything beyond ASCII belong to words; what else there
/// is in ASCII separates them.
pub proof fn words_are_letters_and_digits(character: char)
    ensures
        'a' <= character <= 'z' ==> !separates(character),
        'A' <= character <= 'Z' ==> !separates(character),
        '0' <= character <= '9' ==> !separates(character),
        character as u32 >= 128 ==> !separates(character),
        separates(' ') && separates('_') && separates('-') && separates('.') && separates('\n'),
        separates(character) ==> (character as u32) < 128,
        (character as u32) < 48 ==> separates(character),
        58 <= (character as u32) < 65 ==> separates(character),
        91 <= (character as u32) < 97 ==> separates(character),
        123 <= (character as u32) < 128 ==> separates(character),
{
}

/// Sensitive matching tells all characters apart; insensitive matching takes an
/// ASCII capital for its small letter, and nothing else for another.
pub proof fn only_ascii_case_is_ignored(left: char, right: char)
    ensures
        alike(left, right, CaseSensitivity::Sensitive) <==> left == right,
        alike(left, right, CaseSensitivity::Insensitive) <==> {
            ||| left == right
            ||| 65 <= left as u32 <= 90 && right as u32 == left as u32 + 32
            ||| 65 <= right as u32 <= 90 && left as u32 == right as u32 + 32
        },
{
}

} // verus!
