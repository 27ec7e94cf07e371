//! What each parameter of a scan request sets.

use vstd::prelude::*;
use vstd::utf8::{encode_utf8, is_ascii_chars, is_ascii_chars_encode_utf8};

use crate::analytics_columns::{
    column_names_are_distinct, relation_columns_are_unique, relation_names_read_back,
    AnalyticsColumn, AnalyticsRelation, AnalyticsScanOrder, AnalyticsWireFormat,
};
use crate::analytics_projection_laws::identities_are_spelled;
use crate::analytics_request::{
    column_named, columns_named, hex_identifier, relation_values, requested, wanted_relation,
    ScanContent, ScanProgress,
};
use crate::records::{be_value, SeriesFingerprint, SpanId, TraceId};
use crate::text::{all_hex, decimal, hex_bytes, hex_fixed, nibble, split_on};
use crate::text_laws::{all_small_hex, decimals_read_back, digit_worth, spelled_number};

verus! {

proof fn lemma_words()
    ensures
        "relation"@.len() == 8 && "relation"@[5] == 'i' && "relation"@[0] == 'r' && "relation"@[1]
            == 'e' && "relation"@[2] == 'l',
        "start_ns"@.len() == 8 && "start_ns"@[5] == '_' && "start_ns"@[0] == 's' && "start_ns"@[1]
            == 't',
        "end_ns"@.len() == 6 && "end_ns"@[5] == 's' && "end_ns"@[0] == 'e',
        "limit"@.len() == 5 && "limit"@[0] == 'l',
        "cardinality_only"@.len() == 16 && "cardinality_only"@[5] == 'n' && "cardinality_only"@[0]
            == 'c' && "cardinality_only"@[8] == 'i' && "cardinality_only"@[9] == 't',
        "order"@.len() == 5 && "order"@[0] == 'o',
        "wire"@.len() == 4 && "wire"@[0] == 'w',
        "term"@.len() == 4 && "term"@[0] == 't',
        "message_token"@.len() == 13 && "message_token"@[5] == 'g' && "message_token"@[0] == 'm'
            && "message_token"@[8] == 't' && "message_token"@[9] == 'o',
        "message_token_ci"@.len() == 16 && "message_token_ci"@[5] == 'g' && "message_token_ci"@[0]
            == 'm' && "message_token_ci"@[8] == 't' && "message_token_ci"@[9] == 'o',
        "trace_id"@.len() == 8 && "trace_id"@[5] == '_' && "trace_id"@[0] == 't',
        "span_id"@.len() == 7 && "span_id"@[5] == 'i' && "span_id"@[0] == 's' && "span_id"@[1]
            == 'p',
        "series_id"@.len() == 9 && "series_id"@[5] == 's' && "series_id"@[0] == 's'
            && "series_id"@[8] == 'd' && "series_id"@[1] == 'e',
        "name"@.len() == 4 && "name"@[0] == 'n',
        "columns"@.len() == 7 && "columns"@[5] == 'n' && "columns"@[0] == 'c',
{
    reveal_strlit("relation");
    reveal_strlit("start_ns");
    reveal_strlit("end_ns");
    reveal_strlit("limit");
    reveal_strlit("cardinality_only");
    reveal_strlit("order");
    reveal_strlit("wire");
    reveal_strlit("term");
    reveal_strlit("message_token");
    reveal_strlit("message_token_ci");
    reveal_strlit("trace_id");
    reveal_strlit("span_id");
    reveal_strlit("series_id");
    reveal_strlit("name");
    reveal_strlit("columns");
}

/// A bound or a limit in decimal is taken over exactly, and changes nothing else.
pub proof fn bounds_are_taken_over(progress: ScanProgress, time: u64, limit: usize)
    ensures
        progress.step("start_ns"@, decimal(time as nat)) == Ok::<ScanProgress, Seq<char>>(
            ScanProgress {
                content: ScanContent { start: Some(time), ..progress.content },
                ..progress
            },
        ),
        progress.step("end_ns"@, decimal(time as nat)) == Ok::<ScanProgress, Seq<char>>(
            ScanProgress {
                content: ScanContent { end: Some(time), ..progress.content },
                ..progress
            },
        ),
        progress.step("limit"@, decimal(limit as nat)) == Ok::<ScanProgress, Seq<char>>(
            ScanProgress {
                content: ScanContent { limit: Some(limit), ..progress.content },
                ..progress
            },
        ),
{
    lemma_words();
    decimals_read_back(time as nat, u64::MAX as nat);
    decimals_read_back(limit as nat, usize::MAX as nat);
}

/// Terms, tokens and a name are taken over as they are: each repeated one is added
/// behind those before it.
pub proof fn words_are_taken_over(progress: ScanProgress, value: Seq<char>)
    ensures
        progress.step("term"@, value) == Ok::<ScanProgress, Seq<char>>(
            ScanProgress {
                content: ScanContent {
                    terms: progress.content.terms.push(value),
                    ..progress.content
                },
                ..progress
            },
        ),
        progress.step("message_token"@, value) == Ok::<ScanProgress, Seq<char>>(
            ScanProgress {
                content: ScanContent {
                    message_tokens: progress.content.message_tokens.push(value),
                    ..progress.content
                },
                ..progress
            },
        ),
        progress.step("message_token_ci"@, value) == Ok::<ScanProgress, Seq<char>>(
            ScanProgress {
                content: ScanContent {
                    case_insensitive_message_tokens:
                        progress.content.case_insensitive_message_tokens.push(value),
                    ..progress.content
                },
                ..progress
            },
        ),
        progress.step("name"@, value) == Ok::<ScanProgress, Seq<char>>(
            ScanProgress {
                content: ScanContent { name: Some(value), ..progress.content },
                ..progress
            },
        ),
{
    lemma_words();
}

/// A field behind a prefix is added to the fields of that prefix, under the rest of
/// its name.
pub proof fn fields_are_taken_over(progress: ScanProgress, name: Seq<char>, value: Seq<char>)
    requires
        name.len() > 0,
    ensures
        progress.step("label."@ + name, value) == Ok::<ScanProgress, Seq<char>>(
            ScanProgress {
                content: ScanContent {
                    labels: progress.content.labels.push((name, value)),
                    ..progress.content
                },
                ..progress
            },
        ),
        progress.step("metadata."@ + name, value) == Ok::<ScanProgress, Seq<char>>(
            ScanProgress {
                content: ScanContent {
                    metadata: progress.content.metadata.push((name, value)),
                    ..progress.content
                },
                ..progress
            },
        ),
        progress.step("attribute."@ + name, value) == Ok::<ScanProgress, Seq<char>>(
            ScanProgress {
                content: ScanContent {
                    attributes: progress.content.attributes.push((name, value)),
                    ..progress.content
                },
                ..progress
            },
        ),
        progress.step("resource."@ + name, value) == Ok::<ScanProgress, Seq<char>>(
            ScanProgress {
                content: ScanContent {
                    resource_attributes: progress.content.resource_attributes.push((name, value)),
                    ..progress.content
                },
                ..progress
            },
        ),
        progress.step("scope."@ + name, value) == Ok::<ScanProgress, Seq<char>>(
            ScanProgress {
                content: ScanContent {
                    scope_attributes: progress.content.scope_attributes.push((name, value)),
                    ..progress.content
                },
                ..progress
            },
        ),
{
    lemma_words();
    reveal_strlit("label.");
    reveal_strlit("metadata.");
    reveal_strlit("attribute.");
    reveal_strlit("resource.");
    reveal_strlit("scope.");
    lemma_prefixed("label."@, name);
    lemma_prefixed("metadata."@, name);
    lemma_prefixed("attribute."@, name);
    lemma_prefixed("resource."@, name);
    lemma_prefixed("scope."@, name);
    assert(("label."@ + name)[5] == '.' && ("label."@ + name)[0] == 'l');
    let (metadata, attribute, resource, scope) = (
        "metadata."@ + name,
        "attribute."@ + name,
        "resource."@ + name,
        "scope."@ + name,
    );
    assert(metadata[0] == 'm' && metadata[8] == '.');
    assert(attribute[0] == 'a' && attribute[9] == '.');
    assert(resource[0] == 'r' && resource[2] == 's' && resource[8] == '.');
    assert(scope[0] == 's' && scope[1] == 'c');
    assert(metadata.take(6)[0] != "label."@[0]);
    assert(attribute.take(6)[0] != "label."@[0]);
    assert(attribute.take(9)[0] != "metadata."@[0]);
    assert(resource.take(6)[0] != "label."@[0]);
    assert(resource.take(9)[0] != "metadata."@[0]);
    assert(resource.len() >= 10 ==> resource.take(10)[0] != "attribute."@[0]);
    assert(scope.take(6)[0] != "label."@[0]);
    assert(scope.len() >= 9 ==> scope.take(9)[0] != "metadata."@[0]);
    assert(scope.len() >= 10 ==> scope.take(10)[0] != "attribute."@[0]);
    assert(scope.len() >= 9 ==> scope.take(9)[0] != "resource."@[0]);
}

proof fn lemma_prefixed(prefix: Seq<char>, name: Seq<char>)
    ensures
        (prefix + name).take(prefix.len() as int) == prefix,
        (prefix + name).skip(prefix.len() as int) == name,
{
    assert((prefix + name).take(prefix.len() as int) =~= prefix);
    assert((prefix + name).skip(prefix.len() as int) =~= name);
}

/// A field whose name is its prefix alone is refused, and so is a parameter that is
/// not known.
pub proof fn nameless_fields_are_refused(progress: ScanProgress, value: Seq<char>)
    ensures
        progress.step("label."@, value) is Err,
        progress.step("metadata."@, value) is Err,
        progress.step("attribute."@, value) is Err,
        progress.step("resource."@, value) is Err,
        progress.step("scope."@, value) is Err,
        progress.step("unknown"@, value) is Err,
{
    lemma_words();
    reveal_strlit("label.");
    reveal_strlit("metadata.");
    reveal_strlit("attribute.");
    reveal_strlit("resource.");
    reveal_strlit("scope.");
    reveal_strlit("unknown");
    let unknown = "unknown"@;
    assert(unknown[0] == 'u');
    assert(unknown.take(6)[0] != "label."@[0]);
    assert(unknown.take(6)[0] != "scope."@[0]);
    assert("metadata."@.take(6)[0] != "label."@[0]);
    assert("attribute."@.take(6)[0] != "label."@[0]);
    assert("attribute."@.take(9)[0] != "metadata."@[0]);
    assert("resource."@.take(6)[0] != "label."@[0]);
    assert("resource."@.take(9)[0] != "metadata."@[0]);
    assert("scope."@.take(6)[0] != "label."@[0]);
    lemma_prefixed("label."@, Seq::empty());
    lemma_prefixed("metadata."@, Seq::empty());
    lemma_prefixed("attribute."@, Seq::empty());
    lemma_prefixed("resource."@, Seq::empty());
    lemma_prefixed("scope."@, Seq::empty());
    assert("label."@ + Seq::<char>::empty() =~= "label."@);
    assert("metadata."@ + Seq::<char>::empty() =~= "metadata."@);
    assert("attribute."@ + Seq::<char>::empty() =~= "attribute."@);
    assert("resource."@ + Seq::<char>::empty() =~= "resource."@);
    assert("scope."@ + Seq::<char>::empty() =~= "scope."@);
}

/// The bytes that hexadecimal text spells make the number that it spells.
proof fn lemma_spelled_bytes(text: Seq<char>)
    requires
        all_small_hex(text),
        text.len() % 2 == 0,
    ensures
        all_hex(encode_utf8(text)),
        encode_utf8(text).len() == text.len(),
        be_value(hex_bytes(encode_utf8(text))) == spelled_number(text, 16),
    decreases text.len(),
{
    let bytes = encode_utf8(text);
    assert(is_ascii_chars(text)) by {
        assert forall|i: int| 0 <= i < text.len() implies '\0' <= #[trigger] text[i] <= '\u{7f}' by {
            assert('0' <= text[i] <= '9' || 'a' <= text[i] <= 'f');
        }
    }
    is_ascii_chars_encode_utf8(text);
    assert forall|i: int| 0 <= i < bytes.len() implies (#[trigger] nibble(bytes[i])) is Some
        && nibble(bytes[i])->0 == digit_worth(text[i]) by {
        assert(bytes[i] == text[i] as u8);
        assert('0' <= text[i] <= '9' || 'a' <= text[i] <= 'f');
    }
    if text.len() > 0 {
        let length = text.len() as int;
        let shorter = text.take(length - 2);
        assert forall|i: int| 0 <= i < shorter.len() implies ('0' <= (#[trigger] shorter[i]) <= '9'
            || 'a' <= shorter[i] <= 'f') by {
            assert(shorter[i] == text[i]);
        }
        lemma_spelled_bytes(shorter);
        assert(is_ascii_chars(shorter)) by {
            assert forall|i: int| 0 <= i < shorter.len() implies '\0' <= #[trigger] shorter[i]
                <= '\u{7f}' by {
                assert('0' <= shorter[i] <= '9' || 'a' <= shorter[i] <= 'f');
            }
        }
        is_ascii_chars_encode_utf8(shorter);
        let fewer = encode_utf8(shorter);
        assert forall|i: int| 0 <= i < fewer.len() implies fewer[i] == bytes[i] by {
            assert(fewer[i] == shorter[i] as u8 && bytes[i] == text[i] as u8);
        }
        let all = hex_bytes(bytes);
        assert(all.drop_last() =~= hex_bytes(fewer));
        assert(2 * (length / 2 - 1) == length - 2);
        assert(all.last() == nibble(bytes[length - 2])->0 * 16 + nibble(bytes[length - 1])->0);
        assert(text.drop_last().drop_last() =~= shorter);
        assert(text.drop_last().last() == text[length - 2]);
        assert(nibble(bytes[length - 2])->0 == digit_worth(text[length - 2]));
        assert(nibble(bytes[length - 1])->0 == digit_worth(text[length - 1]));
        assert(be_value(all) == be_value(hex_bytes(fewer)) * 256 + all.last());
        assert(spelled_number(text.drop_last(), 16) == 16 * spelled_number(shorter, 16)
            + digit_worth(text[length - 2]));
        assert(spelled_number(text, 16) == 16 * spelled_number(text.drop_last(), 16) + digit_worth(
            text[length - 1],
        ));
    } else {
        assert(hex_bytes(bytes) =~= Seq::empty());
    }
}

/// The text of an identity, as rows show it, asks for that identity; a trace and a
/// span of zero are refused.
pub proof fn identities_are_taken_over(
    progress: ScanProgress,
    trace_id: TraceId,
    span_id: SpanId,
    series_id: SeriesFingerprint,
)
    ensures
        progress.step("trace_id"@, hex_fixed(trace_id.0 as nat, 32)) == (if trace_id.0 == 0 {
            Err::<ScanProgress, Seq<char>>("trace_id is not a valid nonzero 128-bit hex ID"@)
        } else {
            Ok(
                ScanProgress {
                    content: ScanContent { trace_id: Some(trace_id), ..progress.content },
                    ..progress
                },
            )
        }),
        progress.step("span_id"@, hex_fixed(span_id.0 as nat, 16)) == (if span_id.0 == 0 {
            Err::<ScanProgress, Seq<char>>("span_id is not a valid nonzero 64-bit hex ID"@)
        } else {
            Ok(
                ScanProgress {
                    content: ScanContent { span_id: Some(span_id), ..progress.content },
                    ..progress
                },
            )
        }),
        progress.step("series_id"@, hex_fixed(series_id.0 as nat, 32)) == Ok::<
            ScanProgress,
            Seq<char>,
        >(
            ScanProgress {
                content: ScanContent { series_id: Some(series_id), ..progress.content },
                ..progress
            },
        ),
{
    lemma_words();
    identities_are_spelled(trace_id.0, span_id.0);
    identities_are_spelled(series_id.0, 0);
    lemma_spelled_bytes(hex_fixed(trace_id.0 as nat, 32));
    lemma_spelled_bytes(hex_fixed(span_id.0 as nat, 16));
    lemma_spelled_bytes(hex_fixed(series_id.0 as nat, 32));
}

/// An identity with too few or too many digits is refused.
pub proof fn identities_have_their_width(value: Seq<char>, length: nat)
    requires
        encode_utf8(value).len() != 2 * length,
    ensures
        hex_identifier(value, length) is Err,
{
}

/// Names with commas between them.
pub open spec fn listed_names(names: Seq<Seq<char>>) -> Seq<char>
    decreases names.len(),
{
    if names.len() == 0 {
        Seq::empty()
    } else if names.len() == 1 {
        names[0]
    } else {
        listed_names(names.drop_last()).push(',') + names.last()
    }
}

proof fn lemma_split_tail(front: Seq<char>, tail: Seq<char>)
    requires
        !tail.contains(','),
    ensures
        split_on(front.push(',') + tail, ',') == split_on(front, ',').push(tail),
    decreases tail.len(),
{
    let text = front.push(',') + tail;
    if tail.len() == 0 {
        assert(text =~= front.push(','));
        assert(text.drop_last() =~= front);
        assert(tail =~= Seq::empty());
    } else {
        let shorter = tail.drop_last();
        assert(!shorter.contains(',')) by {
            if shorter.contains(',') {
                let i = choose|i: int| 0 <= i < shorter.len() && shorter[i] == ',';
                assert(tail[i] == ',');
            }
        }
        lemma_split_tail(front, shorter);
        assert(text.drop_last() =~= front.push(',') + shorter);
        assert(text.last() == tail[tail.len() - 1]);
        assert(text.last() != ',');
        let before = split_on(front, ',');
        assert(before.push(shorter).update(before.len() as int, shorter.push(text.last()))
            =~= before.push(tail)) by {
            assert(shorter.push(text.last()) =~= tail);
        }
    }
}

proof fn lemma_split_word(word: Seq<char>)
    requires
        !word.contains(','),
    ensures
        split_on(word, ',') == seq![word],
    decreases word.len(),
{
    if word.len() == 0 {
        assert(word =~= Seq::empty());
    } else {
        let shorter = word.drop_last();
        assert(!shorter.contains(',')) by {
            if shorter.contains(',') {
                let i = choose|i: int| 0 <= i < shorter.len() && shorter[i] == ',';
                assert(word[i] == ',');
            }
        }
        lemma_split_word(shorter);
        assert(word.last() == word[word.len() - 1]);
        assert(shorter.push(word.last()) =~= word);
        assert(seq![shorter].update(0, word) =~= seq![word]);
    }
}

proof fn lemma_split_list(names: Seq<Seq<char>>)
    requires
        names.len() > 0,
        forall|i: int| 0 <= i < names.len() ==> !(#[trigger] names[i]).contains(','),
    ensures
        split_on(listed_names(names), ',') == names,
    decreases names.len(),
{
    if names.len() == 1 {
        lemma_split_word(names[0]);
        assert(seq![names[0]] =~= names);
    } else {
        let shorter = names.drop_last();
        assert forall|i: int| 0 <= i < shorter.len() implies !(#[trigger] shorter[i]).contains(
            ',',
        ) by {
            assert(shorter[i] == names[i]);
        }
        lemma_split_list(shorter);
        assert(names.last() == names[names.len() - 1]);
        lemma_split_tail(listed_names(shorter), names.last());
        assert(shorter.push(names.last()) =~= names);
    }
}

/// The names of columns.
pub open spec fn names_of(columns: Seq<AnalyticsColumn>) -> Seq<Seq<char>> {
    Seq::new(columns.len(), |i: int| columns[i].wire_name())
}

proof fn lemma_columns_named(columns: Seq<AnalyticsColumn>)
    ensures
        columns_named(names_of(columns)) == Ok::<Seq<AnalyticsColumn>, Seq<char>>(columns),
    decreases columns.len(),
{
    if columns.len() == 0 {
        assert(columns =~= Seq::empty());
    } else {
        let shorter = columns.drop_last();
        lemma_columns_named(shorter);
        assert(names_of(columns).drop_last() =~= names_of(shorter));
        let last = columns.last();
        let name = last.wire_name();
        assert(names_of(columns).last() == name);
        let found = choose|column: AnalyticsColumn| #[trigger] column.wire_name() == name;
        column_names_are_distinct(found, last);
        assert(column_named(name) == Some(last));
        assert(shorter.push(last) =~= columns);
    }
}

/// A list of column names asks for those columns, in that order, once; a second list
/// is refused.
pub proof fn columns_are_taken_over(progress: ScanProgress, columns: Seq<AnalyticsColumn>)
    requires
        columns.len() > 0,
        forall|i: int|
            0 <= i < columns.len() ==> !(#[trigger] columns[i]).wire_name().contains(','),
    ensures
        progress.step("columns"@, listed_names(names_of(columns))) == (if progress.columns_seen {
            Err::<ScanProgress, Seq<char>>("columns may be specified only once"@)
        } else {
            Ok(
                ScanProgress {
                    content: ScanContent { columns, ..progress.content },
                    columns_seen: true,
                    ..progress
                },
            )
        }),
{
    lemma_words();
    let names = names_of(columns);
    assert forall|i: int| 0 <= i < names.len() implies !(#[trigger] names[i]).contains(',') by {
        assert(names[i] == columns[i].wire_name());
    }
    lemma_split_list(names);
    lemma_columns_named(columns);
}

/// The two orders are told by their names, each once.
pub proof fn orders_are_taken_over(progress: ScanProgress)
    requires
        !progress.order_seen,
    ensures
        progress.step("order"@, "timestamp_asc"@) == Ok::<ScanProgress, Seq<char>>(
            ScanProgress {
                content: ScanContent {
                    order: Some(AnalyticsScanOrder::TimestampAscending),
                    ..progress.content
                },
                order_seen: true,
                ..progress
            },
        ),
        progress.step("order"@, "timestamp_desc"@) == Ok::<ScanProgress, Seq<char>>(
            ScanProgress {
                content: ScanContent {
                    order: Some(AnalyticsScanOrder::TimestampDescending),
                    ..progress.content
                },
                order_seen: true,
                ..progress
            },
        ),
{
    lemma_words();
    reveal_strlit("timestamp_asc");
    reveal_strlit("timestamp_desc");
    assert("timestamp_asc"@.len() != "timestamp_desc"@.len());
}

/// The relation is the one that the parameters name, wherever they name it, and the
/// logs where they name none; two names are refused.
pub proof fn relations_are_taken_over(
    before: Seq<(Seq<char>, Seq<char>)>,
    relation: AnalyticsRelation,
    after: Seq<(Seq<char>, Seq<char>)>,
)
    requires
        forall|i: int| 0 <= i < before.len() ==> (#[trigger] before[i]).0 != "relation"@,
        forall|i: int| 0 <= i < after.len() ==> (#[trigger] after[i]).0 != "relation"@,
    ensures
        wanted_relation(before.push(("relation"@, relation.wire_name())) + after) == Ok::<
            AnalyticsRelation,
            Seq<char>,
        >(relation),
        wanted_relation(before) == Ok::<AnalyticsRelation, Seq<char>>(AnalyticsRelation::Logs),
        wanted_relation(
            before.push(("relation"@, relation.wire_name())).push(
                ("relation"@, relation.wire_name()),
            ),
        ) is Err,
{
    let name = relation.wire_name();
    let named = before.push(("relation"@, name));
    relation_names_read_back(relation);
    lemma_no_relation(Seq::empty(), before);
    assert(Seq::<(Seq<char>, Seq<char>)>::empty() + before =~= before);
    assert(named.drop_last() =~= before);
    assert(relation_values(named) =~= seq![name]);
    lemma_no_relation(named, after);
    let twice = named.push(("relation"@, name));
    assert(twice.drop_last() =~= named);
    assert(relation_values(twice).len() == 2);
}

proof fn lemma_no_relation(
    front: Seq<(Seq<char>, Seq<char>)>,
    pairs: Seq<(Seq<char>, Seq<char>)>,
)
    requires
        forall|i: int| 0 <= i < pairs.len() ==> (#[trigger] pairs[i]).0 != "relation"@,
    ensures
        relation_values(front + pairs) == relation_values(front),
    decreases pairs.len(),
{
    let all = front + pairs;
    if pairs.len() == 0 {
        assert(all =~= front);
    } else {
        let shorter = pairs.drop_last();
        assert forall|i: int| 0 <= i < shorter.len() implies (#[trigger] shorter[i]).0
            != "relation"@ by {
            assert(shorter[i] == pairs[i]);
        }
        lemma_no_relation(front, shorter);
        assert(all.drop_last() =~= front + shorter);
        assert(all.last() == pairs[pairs.len() - 1]);
    }
}

/// Whether a request can be served: it has a tenant and columns of its relation, each
/// once; a lone count fits its wire; an ordered scan is a bounded one of the logs; its
/// times leave room; and only logs are searched for words.
pub open spec fn can_be_served(content: ScanContent) -> bool {
    &&& content.tenant.len() > 0
    &&& content.columns.len() > 0
    &&& forall|i: int, j: int|
        0 <= i < j < content.columns.len() ==> #[trigger] content.columns[i]
            != #[trigger] content.columns[j]
    &&& forall|i: int|
        0 <= i < content.columns.len() ==> content.relation.declared().contains(
            #[trigger] content.columns[i],
        )
    &&& content.cardinality_only ==> content.columns.len() == 1 && match content.wire_format {
        AnalyticsWireFormat::RowBinary => true,
        AnalyticsWireFormat::ArrowStream => content.columns[0] == AnalyticsColumn::Offset,
        AnalyticsWireFormat::JsonLines => false,
    }
    &&& content.order is Some ==> content.relation == AnalyticsRelation::Logs && content.limit is Some
    &&& (content.start matches Some(start) ==> (content.end matches Some(end) ==> start < end))
    &&& content.relation == AnalyticsRelation::Logs || content.terms.len()
        + content.message_tokens.len() + content.case_insensitive_message_tokens.len() == 0
}

/// A request is accepted exactly where it can be served.
pub proof fn servable_requests_are_accepted(content: ScanContent)
    ensures
        content.complaint() is None <==> can_be_served(content),
{
    let columns = content.columns;
    if can_be_served(content) {
        assert(columns.no_duplicates()) by {
            assert forall|i: int, j: int|
                0 <= i < columns.len() && 0 <= j < columns.len() && i != j implies columns[i]
                != columns[j] by {
                if i < j {
                    assert(content.columns[i] != content.columns[j]);
                } else {
                    assert(content.columns[j] != content.columns[i]);
                }
            }
        }
    }
}

/// Parameters take effect one after the other: what a list does is what its parts do
/// in turn, and a refused part refuses the list.
pub proof fn parameters_take_effect_in_turn(
    progress: ScanProgress,
    pairs: Seq<(Seq<char>, Seq<char>)>,
    more: Seq<(Seq<char>, Seq<char>)>,
)
    ensures
        progress.read(Seq::empty()) == Ok::<ScanProgress, Seq<char>>(progress),
        progress.read(pairs + more) == (match progress.read(pairs) {
            Ok(reached) => reached.read(more),
            Err(message) => Err(message),
        }),
    decreases more.len(),
{
    if more.len() == 0 {
        assert(pairs + more =~= pairs);
    } else {
        parameters_take_effect_in_turn(progress, pairs, more.drop_last());
        assert((pairs + more).drop_last() =~= pairs + more.drop_last());
    }
}

/// Where nothing is asked, all columns of all logs are wanted: without bounds,
/// without words and without fields, in the order of arrival, as an Arrow stream.
pub proof fn nothing_asked_is_everything(tenant: Seq<char>)
    requires
        tenant.len() > 0,
    ensures
        requested(tenant, Seq::empty()) matches Ok(content) && {
            &&& content.tenant == tenant
            &&& content.relation == AnalyticsRelation::Logs
            &&& content.columns == AnalyticsRelation::Logs.declared()
            &&& content.start is None && content.end is None && content.limit is None
            &&& content.trace_id is None && content.span_id is None && content.series_id is None
            &&& content.name is None && content.order is None && !content.cardinality_only
            &&& content.terms.len() == 0 && content.message_tokens.len() == 0
            &&& content.case_insensitive_message_tokens.len() == 0
            &&& content.labels.len() == 0 && content.metadata.len() == 0
            &&& content.attributes.len() == 0 && content.resource_attributes.len() == 0
            &&& content.scope_attributes.len() == 0
            &&& content.wire_format == AnalyticsWireFormat::ArrowStream
        },
{
    let columns = AnalyticsRelation::Logs.declared();
    relation_columns_are_unique(AnalyticsRelation::Logs);
    let content = ScanContent::full(tenant, AnalyticsRelation::Logs);
    assert(columns.len() > 0);
    assert forall|i: int| 0 <= i < columns.len() implies columns.contains(
        #[trigger] columns[i],
    ) by {}
    assert(content.complaint() is None);
}

/// The wire formats are told by their names, each once, and no other name is taken.
pub proof fn wires_are_taken_over(progress: ScanProgress, value: Seq<char>)
    requires
        !progress.wire_seen,
    ensures
        match progress.step("wire"@, value) {
            Ok(next) => {
                &&& next.wire_seen
                &&& next.content == (ScanContent {
                    wire_format: next.content.wire_format,
                    ..progress.content
                })
                &&& next.content.wire_format is ArrowStream <==> value == "arrow"@ || value
                    == "arrow_stream"@
                &&& next.content.wire_format is RowBinary <==> value == "rowbinary"@
                &&& next.content.wire_format is JsonLines <==> value == "json"@ || value == "jsonl"@
                    || value == "ndjson"@
                &&& next.step("wire"@, value) is Err
            },
            Err(_) => value != "arrow"@ && value != "arrow_stream"@ && value != "rowbinary"@
                && value != "json"@ && value != "jsonl"@ && value != "ndjson"@,
        },
{
    lemma_words();
    lemma_wires();
}

proof fn lemma_wires()
    ensures
        "arrow"@.len() == 5 && "arrow"@[0] == 'a',
        "arrow_stream"@.len() == 12,
        "rowbinary"@.len() == 9,
        "json"@.len() == 4,
        "jsonl"@.len() == 5 && "jsonl"@[0] == 'j',
        "ndjson"@.len() == 6,
{
    reveal_strlit("arrow");
    reveal_strlit("arrow_stream");
    reveal_strlit("rowbinary");
    reveal_strlit("json");
    reveal_strlit("jsonl");
    reveal_strlit("ndjson");
}

/// A lone count is asked for by one or true and declined by zero or false, once.
pub proof fn counts_are_taken_over(progress: ScanProgress, value: Seq<char>)
    requires
        !progress.cardinality_seen,
    ensures
        match progress.step("cardinality_only"@, value) {
            Ok(next) => {
                &&& next.cardinality_seen
                &&& next.content == (ScanContent {
                    cardinality_only: next.content.cardinality_only,
                    ..progress.content
                })
                &&& next.content.cardinality_only <==> value == "1"@ || value == "true"@
                &&& !next.content.cardinality_only <==> value == "0"@ || value == "false"@
                &&& next.step("cardinality_only"@, value) is Err
            },
            Err(_) => value != "1"@ && value != "true"@ && value != "0"@ && value != "false"@,
        },
{
    lemma_words();
    reveal_strlit("1");
    reveal_strlit("0");
    reveal_strlit("true");
    reveal_strlit("false");
    assert("1"@[0] == '1' && "0"@[0] == '0');
}

} // verus!
