//! Records that differ have canonical bytes that differ.

use vstd::bytes::{spec_u32_to_le_bytes, spec_u64_to_le_bytes};
use vstd::prelude::*;
use vstd::utf8::{encode_utf8, encode_utf8_decode_utf8};

use crate::attributes::{
    canonical_attribute, canonical_attributes, canonical_value, canonical_values, sized,
    sized_text, TelemetryAttribute, TelemetryValue,
};
use crate::records::{
    be_value, canonical_kind, canonical_resource, canonical_scope, canonical_series, MetricIdentity,
    MetricKind, ResourceContext, ScopeContext,
};
use crate::wire::fields_read_back;

verus! {

/// Whether the length of a text fits into 64 bits.
pub open spec fn text_fits(text: Seq<char>) -> bool {
    encode_utf8(text).len() <= u64::MAX
}

/// Whether every length within a value fits into 64 bits.
pub open spec fn value_fits(value: TelemetryValue) -> bool
    decreases value,
{
    match value {
        TelemetryValue::String(text) => text_fits(text@),
        TelemetryValue::Bytes(bytes) => bytes@.len() <= u64::MAX,
        TelemetryValue::Array(items) => items@.len() <= u64::MAX && values_fit(items@),
        TelemetryValue::KeyValues(entries) => entries@.len() <= u64::MAX && attributes_fit(
            entries@,
        ),
        _ => true,
    }
}

/// Whether every length within values fits into 64 bits.
pub open spec fn values_fit(items: Seq<TelemetryValue>) -> bool
    decreases items,
{
    items.len() == 0 || (value_fits(items[0]) && values_fit(items.skip(1)))
}

/// Whether every length within an attribute fits into 64 bits.
pub open spec fn attribute_fits(attribute: TelemetryAttribute) -> bool
    decreases attribute,
{
    text_fits(attribute.key@) && match attribute.value {
        Some(value) => value_fits(value),
        None => true,
    }
}

/// Whether every length within attributes fits into 64 bits.
pub open spec fn attributes_fit(attributes: Seq<TelemetryAttribute>) -> bool
    decreases attributes,
{
    attributes.len() == 0 || (attribute_fits(attributes[0]) && attributes_fit(attributes.skip(1)))
}

/// Whether two values say the same.
pub open spec fn same_value(left: TelemetryValue, right: TelemetryValue) -> bool
    decreases left,
{
    match (left, right) {
        (TelemetryValue::Empty, TelemetryValue::Empty) => true,
        (TelemetryValue::String(a), TelemetryValue::String(b)) => a@ == b@,
        (TelemetryValue::Boolean(a), TelemetryValue::Boolean(b)) => a == b,
        (TelemetryValue::Integer(a), TelemetryValue::Integer(b)) => a == b,
        (TelemetryValue::DoubleBits(a), TelemetryValue::DoubleBits(b)) => a == b,
        (TelemetryValue::Bytes(a), TelemetryValue::Bytes(b)) => a@ == b@,
        (TelemetryValue::StringTableIndex(a), TelemetryValue::StringTableIndex(b)) => a == b,
        (TelemetryValue::Array(a), TelemetryValue::Array(b)) => same_values(a@, b@),
        (TelemetryValue::KeyValues(a), TelemetryValue::KeyValues(b)) => same_attributes(a@, b@),
        _ => false,
    }
}

/// Whether values say the same, one by one.
pub open spec fn same_values(left: Seq<TelemetryValue>, right: Seq<TelemetryValue>) -> bool
    decreases left,
{
    if left.len() == 0 || right.len() == 0 {
        left.len() == right.len()
    } else {
        same_value(left[0], right[0]) && same_values(left.skip(1), right.skip(1))
    }
}

/// Whether two attributes have one key and values that say the same.
pub open spec fn same_attribute(left: TelemetryAttribute, right: TelemetryAttribute) -> bool
    decreases left,
{
    left.key@ == right.key@ && match (left.value, right.value) {
        (Some(a), Some(b)) => same_value(a, b),
        (None, None) => true,
        _ => false,
    }
}

/// Whether attributes are the same, one by one.
pub open spec fn same_attributes(
    left: Seq<TelemetryAttribute>,
    right: Seq<TelemetryAttribute>,
) -> bool
    decreases left,
{
    if left.len() == 0 || right.len() == 0 {
        left.len() == right.len()
    } else {
        same_attribute(left[0], right[0]) && same_attributes(left.skip(1), right.skip(1))
    }
}

/// Two joined sequences with fronts of one length are equal only in both parts.
proof fn lemma_parts(a: Seq<u8>, rest_a: Seq<u8>, b: Seq<u8>, rest_b: Seq<u8>)
    requires
        a + rest_a == b + rest_b,
        a.len() == b.len(),
    ensures
        a == b,
        rest_a == rest_b,
{
    assert((a + rest_a).take(a.len() as int) =~= a);
    assert((b + rest_b).take(b.len() as int) =~= b);
    assert((a + rest_a).skip(a.len() as int) =~= rest_a);
    assert((b + rest_b).skip(b.len() as int) =~= rest_b);
}

proof fn lemma_number(a: u64, rest_a: Seq<u8>, b: u64, rest_b: Seq<u8>)
    requires
        spec_u64_to_le_bytes(a) + rest_a == spec_u64_to_le_bytes(b) + rest_b,
    ensures
        a == b,
        rest_a == rest_b,
{
    fields_read_back();
    assert(spec_u64_to_le_bytes(a).len() == 8 && spec_u64_to_le_bytes(b).len() == 8);
    lemma_parts(spec_u64_to_le_bytes(a), rest_a, spec_u64_to_le_bytes(b), rest_b);
}

proof fn lemma_small_number(a: u32, rest_a: Seq<u8>, b: u32, rest_b: Seq<u8>)
    requires
        spec_u32_to_le_bytes(a) + rest_a == spec_u32_to_le_bytes(b) + rest_b,
    ensures
        a == b,
        rest_a == rest_b,
{
    fields_read_back();
    assert(spec_u32_to_le_bytes(a).len() == 4 && spec_u32_to_le_bytes(b).len() == 4);
    lemma_parts(spec_u32_to_le_bytes(a), rest_a, spec_u32_to_le_bytes(b), rest_b);
}

proof fn lemma_sized(a: Seq<u8>, rest_a: Seq<u8>, b: Seq<u8>, rest_b: Seq<u8>)
    requires
        sized(a) + rest_a == sized(b) + rest_b,
        a.len() <= u64::MAX,
        b.len() <= u64::MAX,
    ensures
        a == b,
        rest_a == rest_b,
{
    let (length_a, length_b) = (
        spec_u64_to_le_bytes(a.len() as u64),
        spec_u64_to_le_bytes(b.len() as u64),
    );
    assert(sized(a) + rest_a =~= length_a + (a + rest_a));
    assert(sized(b) + rest_b =~= length_b + (b + rest_b));
    lemma_number(a.len() as u64, a + rest_a, b.len() as u64, b + rest_b);
    lemma_parts(a, rest_a, b, rest_b);
}

proof fn lemma_text(a: Seq<char>, rest_a: Seq<u8>, b: Seq<char>, rest_b: Seq<u8>)
    requires
        sized_text(a) + rest_a == sized_text(b) + rest_b,
        text_fits(a),
        text_fits(b),
    ensures
        a == b,
        rest_a == rest_b,
{
    lemma_sized(encode_utf8(a), rest_a, encode_utf8(b), rest_b);
    encode_utf8_decode_utf8(a);
    encode_utf8_decode_utf8(b);
}

proof fn lemma_first_value(items: Seq<TelemetryValue>)
    requires
        items.len() > 0,
    ensures
        canonical_values(items) == canonical_value(items[0]) + canonical_values(items.skip(1)),
    decreases items.len(),
{
    if items.len() == 1 {
        assert(items.drop_last() =~= Seq::empty());
        assert(items.skip(1) =~= Seq::empty());
        assert(items.last() == items[0]);
        assert(canonical_values(items.drop_last()) =~= Seq::<u8>::empty());
        assert(canonical_values(items.skip(1)) =~= Seq::<u8>::empty());
        assert(canonical_values(items) =~= canonical_value(items[0]) + canonical_values(
            items.skip(1),
        ));
    } else {
        let shorter = items.drop_last();
        let later = items.skip(1);
        lemma_first_value(shorter);
        assert(shorter.skip(1) =~= later.drop_last());
        assert(later.last() == items.last());
        assert(shorter[0] == items[0]);
        assert(canonical_values(items) =~= canonical_value(items[0]) + canonical_values(later));
    }
}

proof fn lemma_first_attribute(attributes: Seq<TelemetryAttribute>)
    requires
        attributes.len() > 0,
    ensures
        canonical_attributes(attributes) == canonical_attribute(attributes[0])
            + canonical_attributes(attributes.skip(1)),
    decreases attributes.len(),
{
    if attributes.len() == 1 {
        assert(attributes.drop_last() =~= Seq::empty());
        assert(attributes.skip(1) =~= Seq::empty());
        assert(attributes.last() == attributes[0]);
        assert(canonical_attributes(attributes.drop_last()) =~= Seq::<u8>::empty());
        assert(canonical_attributes(attributes.skip(1)) =~= Seq::<u8>::empty());
        assert(canonical_attributes(attributes) =~= canonical_attribute(attributes[0])
            + canonical_attributes(attributes.skip(1)));
    } else {
        let shorter = attributes.drop_last();
        let later = attributes.skip(1);
        lemma_first_attribute(shorter);
        assert(shorter.skip(1) =~= later.drop_last());
        assert(later.last() == attributes.last());
        assert(shorter[0] == attributes[0]);
        assert(canonical_attributes(attributes) =~= canonical_attribute(attributes[0])
            + canonical_attributes(later));
    }
}

/// What follows the kind of a value in its canonical bytes.
spec fn content_of(value: TelemetryValue) -> Seq<u8> {
    canonical_value(value).skip(1)
}

/// The kind of a value as its canonical bytes tell it.
spec fn kind_of(value: TelemetryValue) -> u8 {
    canonical_value(value)[0]
}

proof fn lemma_kind(value: TelemetryValue, rest: Seq<u8>)
    ensures
        canonical_value(value).len() > 0,
        (canonical_value(value) + rest)[0] == kind_of(value),
        (canonical_value(value) + rest).skip(1) == content_of(value) + rest,
        kind_of(value) == (match value {
            TelemetryValue::Empty => 1u8,
            TelemetryValue::String(_) => 2u8,
            TelemetryValue::Boolean(_) => 3u8,
            TelemetryValue::Integer(_) => 4u8,
            TelemetryValue::DoubleBits(_) => 5u8,
            TelemetryValue::Bytes(_) => 6u8,
            TelemetryValue::StringTableIndex(_) => 7u8,
            TelemetryValue::Array(_) => 8u8,
            TelemetryValue::KeyValues(_) => 9u8,
        }),
        content_of(value) == (match value {
            TelemetryValue::Empty => Seq::<u8>::empty(),
            TelemetryValue::String(text) => sized_text(text@),
            TelemetryValue::Boolean(flag) => seq![
                if flag {
                    1u8
                } else {
                    0u8
                },
            ],
            TelemetryValue::Integer(number) => spec_u64_to_le_bytes(number as u64),
            TelemetryValue::DoubleBits(bits) => spec_u64_to_le_bytes(bits),
            TelemetryValue::Bytes(bytes) => sized(bytes@),
            TelemetryValue::StringTableIndex(index) => spec_u32_to_le_bytes(index),
            TelemetryValue::Array(items) => spec_u64_to_le_bytes(items@.len() as u64)
                + canonical_values(items@),
            TelemetryValue::KeyValues(entries) => spec_u64_to_le_bytes(entries@.len() as u64)
                + canonical_attributes(entries@),
        }),
{
    let all = canonical_value(value) + rest;
    let content = match value {
        TelemetryValue::Empty => Seq::<u8>::empty(),
        TelemetryValue::String(text) => sized_text(text@),
        TelemetryValue::Boolean(flag) => seq![
            if flag {
                1u8
            } else {
                0u8
            },
        ],
        TelemetryValue::Integer(number) => spec_u64_to_le_bytes(number as u64),
        TelemetryValue::DoubleBits(bits) => spec_u64_to_le_bytes(bits),
        TelemetryValue::Bytes(bytes) => sized(bytes@),
        TelemetryValue::StringTableIndex(index) => spec_u32_to_le_bytes(index),
        TelemetryValue::Array(items) => spec_u64_to_le_bytes(items@.len() as u64)
            + canonical_values(items@),
        TelemetryValue::KeyValues(entries) => spec_u64_to_le_bytes(entries@.len() as u64)
            + canonical_attributes(entries@),
    };
    assert(content_of(value) =~= content);
    assert(all.skip(1) =~= content_of(value) + rest);
}

/// Values whose canonical bytes agree up to where one of them ends say the same.
pub proof fn values_encode_apart(
    left: TelemetryValue,
    after_left: Seq<u8>,
    right: TelemetryValue,
    after_right: Seq<u8>,
)
    requires
        value_fits(left),
        value_fits(right),
        canonical_value(left) + after_left == canonical_value(right) + after_right,
    ensures
        same_value(left, right),
        after_left == after_right,
    decreases left,
{
    lemma_kind(left, after_left);
    lemma_kind(right, after_right);
    match (left, right) {
        (TelemetryValue::Empty, TelemetryValue::Empty) => {
            assert(content_of(left) + after_left =~= after_left);
            assert(content_of(right) + after_right =~= after_right);
        },
        (TelemetryValue::String(a), TelemetryValue::String(b)) => {
            lemma_text(a@, after_left, b@, after_right);
        },
        (TelemetryValue::Boolean(a), TelemetryValue::Boolean(b)) => {
            lemma_parts(content_of(left), after_left, content_of(right), after_right);
            assert(content_of(left)[0] == content_of(right)[0]);
        },
        (TelemetryValue::Integer(a), TelemetryValue::Integer(b)) => {
            lemma_number(a as u64, after_left, b as u64, after_right);
            assert(a as u64 == b as u64 ==> a == b) by (bit_vector);
        },
        (TelemetryValue::DoubleBits(a), TelemetryValue::DoubleBits(b)) => {
            lemma_number(a, after_left, b, after_right);
        },
        (TelemetryValue::Bytes(a), TelemetryValue::Bytes(b)) => {
            lemma_sized(a@, after_left, b@, after_right);
        },
        (TelemetryValue::StringTableIndex(a), TelemetryValue::StringTableIndex(b)) => {
            lemma_small_number(a, after_left, b, after_right);
        },
        (TelemetryValue::Array(a), TelemetryValue::Array(b)) => {
            let (count_a, count_b) = (
                spec_u64_to_le_bytes(a@.len() as u64),
                spec_u64_to_le_bytes(b@.len() as u64),
            );
            assert(content_of(left) + after_left =~= count_a + (canonical_values(a@)
                + after_left));
            assert(content_of(right) + after_right =~= count_b + (canonical_values(b@)
                + after_right));
            lemma_number(
                a@.len() as u64,
                canonical_values(a@) + after_left,
                b@.len() as u64,
                canonical_values(b@) + after_right,
            );
            lemma_values(a@, after_left, b@, after_right);
        },
        (TelemetryValue::KeyValues(a), TelemetryValue::KeyValues(b)) => {
            let (count_a, count_b) = (
                spec_u64_to_le_bytes(a@.len() as u64),
                spec_u64_to_le_bytes(b@.len() as u64),
            );
            assert(content_of(left) + after_left =~= count_a + (canonical_attributes(a@)
                + after_left));
            assert(content_of(right) + after_right =~= count_b + (canonical_attributes(b@)
                + after_right));
            lemma_number(
                a@.len() as u64,
                canonical_attributes(a@) + after_left,
                b@.len() as u64,
                canonical_attributes(b@) + after_right,
            );
            lemma_attributes(a@, after_left, b@, after_right);
        },
        _ => {},
    }
}

proof fn lemma_values(
    left: Seq<TelemetryValue>,
    after_left: Seq<u8>,
    right: Seq<TelemetryValue>,
    after_right: Seq<u8>,
)
    requires
        values_fit(left),
        values_fit(right),
        left.len() == right.len(),
        canonical_values(left) + after_left == canonical_values(right) + after_right,
    ensures
        same_values(left, right),
        after_left == after_right,
    decreases left,
{
    if left.len() == 0 {
        assert(canonical_values(left) + after_left =~= after_left);
        assert(canonical_values(right) + after_right =~= after_right);
    } else {
        let (later_left, later_right) = (left.skip(1), right.skip(1));
        lemma_first_value(left);
        lemma_first_value(right);
        assert(canonical_values(left) + after_left =~= canonical_value(left[0]) + (
        canonical_values(later_left) + after_left));
        assert(canonical_values(right) + after_right =~= canonical_value(right[0]) + (
        canonical_values(later_right) + after_right));
        values_encode_apart(
            left[0],
            canonical_values(later_left) + after_left,
            right[0],
            canonical_values(later_right) + after_right,
        );
        lemma_values(later_left, after_left, later_right, after_right);
    }
}

/// Attributes whose canonical bytes agree up to where one of them ends have one
/// key and values that say the same, an absent value being none.
pub proof fn attributes_encode_apart(
    left: TelemetryAttribute,
    after_left: Seq<u8>,
    right: TelemetryAttribute,
    after_right: Seq<u8>,
)
    requires
        attribute_fits(left),
        attribute_fits(right),
        canonical_attribute(left) + after_left == canonical_attribute(right) + after_right,
    ensures
        same_attribute(left, right),
        after_left == after_right,
    decreases left,
{
    let (value_left, value_right) = (
        match left.value {
            None => seq![0u8],
            Some(value) => canonical_value(value),
        },
        match right.value {
            None => seq![0u8],
            Some(value) => canonical_value(value),
        },
    );
    assert(canonical_attribute(left) + after_left =~= sized_text(left.key@) + (value_left
        + after_left));
    assert(canonical_attribute(right) + after_right =~= sized_text(right.key@) + (value_right
        + after_right));
    lemma_text(left.key@, value_left + after_left, right.key@, value_right + after_right);
    if let Some(value) = left.value {
        lemma_kind(value, after_left);
    } else {
        assert((value_left + after_left)[0] == 0);
    }
    if let Some(value) = right.value {
        lemma_kind(value, after_right);
    } else {
        assert((value_right + after_right)[0] == 0);
    }
    match (left.value, right.value) {
        (Some(a), Some(b)) => {
            values_encode_apart(a, after_left, b, after_right);
        },
        (None, None) => {
            lemma_parts(value_left, after_left, value_right, after_right);
        },
        _ => {},
    }
}

proof fn lemma_attributes(
    left: Seq<TelemetryAttribute>,
    after_left: Seq<u8>,
    right: Seq<TelemetryAttribute>,
    after_right: Seq<u8>,
)
    requires
        attributes_fit(left),
        attributes_fit(right),
        left.len() == right.len(),
        canonical_attributes(left) + after_left == canonical_attributes(right) + after_right,
    ensures
        same_attributes(left, right),
        after_left == after_right,
    decreases left,
{
    if left.len() == 0 {
        assert(canonical_attributes(left) + after_left =~= after_left);
        assert(canonical_attributes(right) + after_right =~= after_right);
    } else {
        let (later_left, later_right) = (left.skip(1), right.skip(1));
        lemma_first_attribute(left);
        lemma_first_attribute(right);
        assert(canonical_attributes(left) + after_left =~= canonical_attribute(left[0]) + (
        canonical_attributes(later_left) + after_left));
        assert(canonical_attributes(right) + after_right =~= canonical_attribute(right[0]) + (
        canonical_attributes(later_right) + after_right));
        attributes_encode_apart(
            left[0],
            canonical_attributes(later_left) + after_left,
            right[0],
            canonical_attributes(later_right) + after_right,
        );
        lemma_attributes(later_left, after_left, later_right, after_right);
    }
}

proof fn lemma_counted_attributes(
    left: Seq<TelemetryAttribute>,
    after_left: Seq<u8>,
    right: Seq<TelemetryAttribute>,
    after_right: Seq<u8>,
)
    requires
        attributes_fit(left),
        attributes_fit(right),
        left.len() <= u64::MAX,
        right.len() <= u64::MAX,
        spec_u64_to_le_bytes(left.len() as u64) + (canonical_attributes(left) + after_left)
            == spec_u64_to_le_bytes(right.len() as u64) + (canonical_attributes(right)
            + after_right),
    ensures
        same_attributes(left, right),
        after_left == after_right,
{
    lemma_number(
        left.len() as u64,
        canonical_attributes(left) + after_left,
        right.len() as u64,
        canonical_attributes(right) + after_right,
    );
    lemma_attributes(left, after_left, right, after_right);
}

/// Whether two resources say the same.
pub open spec fn same_resource(left: ResourceContext, right: ResourceContext) -> bool {
    &&& same_attributes(left.attributes@, right.attributes@)
    &&& left.dropped_attributes_count == right.dropped_attributes_count
    &&& left.schema_url@ == right.schema_url@
}

/// Whether every length within a resource fits into 64 bits.
pub open spec fn resource_fits(context: ResourceContext) -> bool {
    context.attributes@.len() <= u64::MAX && attributes_fit(context.attributes@) && text_fits(
        context.schema_url@,
    )
}

/// Resources whose canonical bytes agree up to where one of them ends say the
/// same: attributes, discarded attributes and schema.
pub proof fn resources_encode_apart(
    left: ResourceContext,
    after_left: Seq<u8>,
    right: ResourceContext,
    after_right: Seq<u8>,
)
    requires
        resource_fits(left),
        resource_fits(right),
        canonical_resource(left) + after_left == canonical_resource(right) + after_right,
    ensures
        same_resource(left, right),
        after_left == after_right,
{
    let (url_left, url_right) = (
        sized_text(left.schema_url@) + after_left,
        sized_text(right.schema_url@) + after_right,
    );
    let (rest_left, rest_right) = (
        spec_u32_to_le_bytes(left.dropped_attributes_count) + url_left,
        spec_u32_to_le_bytes(right.dropped_attributes_count) + url_right,
    );
    assert(canonical_resource(left) + after_left =~= spec_u64_to_le_bytes(
        left.attributes@.len() as u64,
    ) + (canonical_attributes(left.attributes@) + rest_left));
    assert(canonical_resource(right) + after_right =~= spec_u64_to_le_bytes(
        right.attributes@.len() as u64,
    ) + (canonical_attributes(right.attributes@) + rest_right));
    lemma_counted_attributes(left.attributes@, rest_left, right.attributes@, rest_right);
    lemma_small_number(
        left.dropped_attributes_count,
        url_left,
        right.dropped_attributes_count,
        url_right,
    );
    lemma_text(left.schema_url@, after_left, right.schema_url@, after_right);
}

/// Whether two scopes say the same.
pub open spec fn same_scope(left: ScopeContext, right: ScopeContext) -> bool {
    &&& left.name@ == right.name@
    &&& left.version@ == right.version@
    &&& same_attributes(left.attributes@, right.attributes@)
    &&& left.dropped_attributes_count == right.dropped_attributes_count
    &&& left.schema_url@ == right.schema_url@
}

/// Whether every length within a scope fits into 64 bits.
pub open spec fn scope_fits(context: ScopeContext) -> bool {
    &&& text_fits(context.name@)
    &&& text_fits(context.version@)
    &&& context.attributes@.len() <= u64::MAX
    &&& attributes_fit(context.attributes@)
    &&& text_fits(context.schema_url@)
}

/// Scopes whose canonical bytes agree up to where one of them ends say the same:
/// name, version, attributes, discarded attributes and schema.
pub proof fn scopes_encode_apart(
    left: ScopeContext,
    after_left: Seq<u8>,
    right: ScopeContext,
    after_right: Seq<u8>,
)
    requires
        scope_fits(left),
        scope_fits(right),
        canonical_scope(left) + after_left == canonical_scope(right) + after_right,
    ensures
        same_scope(left, right),
        after_left == after_right,
{
    let (url_left, url_right) = (
        sized_text(left.schema_url@) + after_left,
        sized_text(right.schema_url@) + after_right,
    );
    let (dropped_left, dropped_right) = (
        spec_u32_to_le_bytes(left.dropped_attributes_count) + url_left,
        spec_u32_to_le_bytes(right.dropped_attributes_count) + url_right,
    );
    let (rest_left, rest_right) = (
        spec_u64_to_le_bytes(left.attributes@.len() as u64) + (canonical_attributes(
            left.attributes@,
        ) + dropped_left),
        spec_u64_to_le_bytes(right.attributes@.len() as u64) + (canonical_attributes(
            right.attributes@,
        ) + dropped_right),
    );
    assert(canonical_scope(left) + after_left =~= sized_text(left.name@) + (sized_text(
        left.version@,
    ) + rest_left));
    assert(canonical_scope(right) + after_right =~= sized_text(right.name@) + (sized_text(
        right.version@,
    ) + rest_right));
    lemma_text(
        left.name@,
        sized_text(left.version@) + rest_left,
        right.name@,
        sized_text(right.version@) + rest_right,
    );
    lemma_text(left.version@, rest_left, right.version@, rest_right);
    lemma_counted_attributes(left.attributes@, dropped_left, right.attributes@, dropped_right);
    lemma_small_number(
        left.dropped_attributes_count,
        url_left,
        right.dropped_attributes_count,
        url_right,
    );
    lemma_text(left.schema_url@, after_left, right.schema_url@, after_right);
}

/// Metric kinds whose canonical bytes agree up to where one of them ends are the
/// same, temporality and monotonicity included.
pub proof fn kinds_encode_apart(
    left: MetricKind,
    after_left: Seq<u8>,
    right: MetricKind,
    after_right: Seq<u8>,
)
    requires
        canonical_kind(left) + after_left == canonical_kind(right) + after_right,
    ensures
        left == right,
        after_left == after_right,
{
    let (all_left, all_right) = (
        canonical_kind(left) + after_left,
        canonical_kind(right) + after_right,
    );
    fields_read_back();
    assert(all_left[0] == canonical_kind(left)[0]);
    assert(all_right[0] == canonical_kind(right)[0]);
    assert(all_left.skip(1) == all_right.skip(1));
    match (left, right) {
        (
            MetricKind::Sum { temporality: a, monotonic: up_a },
            MetricKind::Sum { temporality: b, monotonic: up_b },
        ) => {
            assert(all_left[1] == all_right[1]);
            assert(all_left.skip(2) =~= spec_u32_to_le_bytes(a as u32) + after_left);
            assert(all_right.skip(2) =~= spec_u32_to_le_bytes(b as u32) + after_right);
            lemma_small_number(a as u32, after_left, b as u32, after_right);
            assert(a as u32 == b as u32 ==> a == b) by (bit_vector);
        },
        (
            MetricKind::ExplicitHistogram { temporality: a },
            MetricKind::ExplicitHistogram { temporality: b },
        ) => {
            assert(all_left.skip(1) =~= spec_u32_to_le_bytes(a as u32) + after_left);
            assert(all_right.skip(1) =~= spec_u32_to_le_bytes(b as u32) + after_right);
            lemma_small_number(a as u32, after_left, b as u32, after_right);
            assert(a as u32 == b as u32 ==> a == b) by (bit_vector);
        },
        (
            MetricKind::ExponentialHistogram { temporality: a },
            MetricKind::ExponentialHistogram { temporality: b },
        ) => {
            assert(all_left.skip(1) =~= spec_u32_to_le_bytes(a as u32) + after_left);
            assert(all_right.skip(1) =~= spec_u32_to_le_bytes(b as u32) + after_right);
            lemma_small_number(a as u32, after_left, b as u32, after_right);
            assert(a as u32 == b as u32 ==> a == b) by (bit_vector);
        },
        _ => {
            assert(all_left.skip(1) =~= after_left || !(left is Gauge || left is Summary));
            assert(all_right.skip(1) =~= after_right || !(right is Gauge || right is Summary));
        },
    }
}

/// The resource of a series.
spec fn resource_of(series: MetricIdentity) -> ResourceContext {
    *series.resource
}

/// The scope of a series.
spec fn scope_of(series: MetricIdentity) -> ScopeContext {
    *series.scope
}

/// Whether every length within a series identity fits into 64 bits.
pub open spec fn series_fits(series: MetricIdentity) -> bool {
    &&& text_fits(series.tenant@)
    &&& resource_fits(*series.resource)
    &&& scope_fits(*series.scope)
    &&& text_fits(series.name@)
    &&& text_fits(series.unit@)
    &&& series.point_attributes@.len() <= u64::MAX
    &&& attributes_fit(series.point_attributes@)
}

/// The attributes of a series in its canonical bytes.
spec fn pairs_part(series: MetricIdentity) -> Seq<u8> {
    spec_u64_to_le_bytes(series.point_attributes@.len() as u64) + (canonical_attributes(
        series.point_attributes@,
    ) + Seq::empty())
}

/// What follows the scope in the canonical bytes of a series.
spec fn named_part(series: MetricIdentity) -> Seq<u8> {
    sized_text(series.name@) + (sized_text(series.unit@) + (canonical_kind(series.kind)
        + pairs_part(series)))
}

proof fn lemma_regroup(
    a: Seq<u8>,
    b: Seq<u8>,
    c: Seq<u8>,
    d: Seq<u8>,
    e: Seq<u8>,
    f: Seq<u8>,
    g: Seq<u8>,
    h: Seq<u8>,
)
    ensures
        a + b + c + d + e + f + g + h == a + (b + (c + (d + (e + (f + (g + (h
            + Seq::<u8>::empty()))))))),
{
    assert(a + b + c + d + e + f + g + h =~= a + (b + (c + (d + (e + (f + (g + (h
        + Seq::<u8>::empty()))))))));
}

proof fn lemma_series_parts(series: MetricIdentity)
    ensures
        canonical_series(series) == sized_text(series.tenant@) + (canonical_resource(
            resource_of(series),
        ) + (canonical_scope(scope_of(series)) + named_part(series))),
{
    lemma_regroup(
        sized_text(series.tenant@),
        canonical_resource(resource_of(series)),
        canonical_scope(scope_of(series)),
        sized_text(series.name@),
        sized_text(series.unit@),
        canonical_kind(series.kind),
        spec_u64_to_le_bytes(series.point_attributes@.len() as u64),
        canonical_attributes(series.point_attributes@),
    );
}

proof fn lemma_named_parts(left: MetricIdentity, right: MetricIdentity)
    requires
        series_fits(left),
        series_fits(right),
        named_part(left) == named_part(right),
    ensures
        left.name@ == right.name@,
        left.unit@ == right.unit@,
        left.kind == right.kind,
        same_attributes(left.point_attributes@, right.point_attributes@),
{
    let (kind_l, kind_r) = (
        canonical_kind(left.kind) + pairs_part(left),
        canonical_kind(right.kind) + pairs_part(right),
    );
    lemma_text(
        left.name@,
        sized_text(left.unit@) + kind_l,
        right.name@,
        sized_text(right.unit@) + kind_r,
    );
    lemma_text(left.unit@, kind_l, right.unit@, kind_r);
    kinds_encode_apart(left.kind, pairs_part(left), right.kind, pairs_part(right));
    lemma_counted_attributes(
        left.point_attributes@,
        Seq::empty(),
        right.point_attributes@,
        Seq::empty(),
    );
}

/// Series with one canonical encoding are one series: they agree in tenant,
/// resource, scope, name, unit, kind and attributes.
pub proof fn series_encode_apart(left: MetricIdentity, right: MetricIdentity)
    requires
        series_fits(left),
        series_fits(right),
        canonical_series(left) == canonical_series(right),
    ensures
        left.tenant@ == right.tenant@,
        same_resource(*left.resource, *right.resource),
        same_scope(*left.scope, *right.scope),
        left.name@ == right.name@,
        left.unit@ == right.unit@,
        left.kind == right.kind,
        same_attributes(left.point_attributes@, right.point_attributes@),
{
    lemma_series_parts(left);
    lemma_series_parts(right);
    lemma_text(
        left.tenant@,
        canonical_resource(resource_of(left)) + (canonical_scope(scope_of(left)) + named_part(
            left,
        )),
        right.tenant@,
        canonical_resource(resource_of(right)) + (canonical_scope(scope_of(right)) + named_part(
            right,
        )),
    );
    resources_encode_apart(
        resource_of(left),
        canonical_scope(scope_of(left)) + named_part(left),
        resource_of(right),
        canonical_scope(scope_of(right)) + named_part(right),
    );
    scopes_encode_apart(scope_of(left), named_part(left), scope_of(right), named_part(right));
    lemma_named_parts(left, right);
}

/// Bytes of one length spell one number only where they are the same: the first
/// byte counts most.
pub proof fn numbers_are_spelled_apart(left: Seq<u8>, right: Seq<u8>)
    requires
        left.len() == right.len(),
    ensures
        be_value(left) == be_value(right) ==> left == right,
        left.len() > 0 && left[0] < right[0] ==> be_value(left) < be_value(right),
    decreases left.len(),
{
    if left.len() > 0 {
        let (shorter_left, shorter_right) = (left.drop_last(), right.drop_last());
        numbers_are_spelled_apart(shorter_left, shorter_right);
        assert(left =~= shorter_left.push(left.last()));
        assert(right =~= shorter_right.push(right.last()));
        if left.len() > 1 {
            assert(shorter_left[0] == left[0] && shorter_right[0] == right[0]);
        } else {
            assert(be_value(shorter_left) == 0 && be_value(shorter_right) == 0);
        }
    } else {
        assert(left =~= right);
    }
}

} // verus!
