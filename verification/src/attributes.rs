//! Typed attribute values and the canonical encoding behind their identities.

use vstd::bytes::{spec_u32_to_le_bytes, spec_u64_to_le_bytes};
use vstd::prelude::*;

use crate::digest::{identity, identity_of};
use crate::wire::{fields_read_back, push_bytes, push_u32, push_u64};

verus! {

/// One OTLP attribute value.
#[derive(Debug, PartialEq, Eq)]
pub enum TelemetryValue {
    /// Present but empty value.
    Empty,
    /// UTF-8 text.
    String(String),
    /// Boolean.
    Boolean(bool),
    /// Signed 64-bit integer.
    Integer(i64),
    /// IEEE-754 bits of a double.
    DoubleBits(u64),
    /// Raw bytes.
    Bytes(Vec<u8>),
    /// Index into a string table.
    StringTableIndex(u32),
    /// Nested values.
    Array(Vec<TelemetryValue>),
    /// Nested attributes.
    KeyValues(Vec<TelemetryAttribute>),
}

/// One typed key/value pair.
#[derive(Debug, PartialEq, Eq)]
pub struct TelemetryAttribute {
    /// Attribute name.
    pub key: String,
    /// Attribute value, absent when the producer sent only a key.
    pub value: Option<TelemetryValue>,
}

/// Identity of one typed key/value pair.
#[derive(Debug, Clone, Copy, PartialEq, Eq, PartialOrd, Ord, Hash, Structural)]
pub struct AttributeFingerprint(pub u128);

impl AttributeFingerprint {
    /// The identity as an integer.
    pub fn get(self) -> (value: u128)
        ensures
            value == self.0,
    {
        self.0
    }
}

/// A length-prefixed byte string.
pub open spec fn sized(bytes: Seq<u8>) -> Seq<u8> {
    spec_u64_to_le_bytes(bytes.len() as u64) + bytes
}

/// Length-prefixed UTF-8 text.
pub open spec fn sized_text(text: Seq<char>) -> Seq<u8> {
    sized(vstd::utf8::encode_utf8(text))
}

/// Number that distinguishes the kinds of value.
pub open spec fn value_tag(value: Option<TelemetryValue>) -> u8 {
    match value {
        None => 0,
        Some(TelemetryValue::Empty) => 1,
        Some(TelemetryValue::String(_)) => 2,
        Some(TelemetryValue::Boolean(_)) => 3,
        Some(TelemetryValue::Integer(_)) => 4,
        Some(TelemetryValue::DoubleBits(_)) => 5,
        Some(TelemetryValue::Bytes(_)) => 6,
        Some(TelemetryValue::StringTableIndex(_)) => 7,
        Some(TelemetryValue::Array(_)) => 8,
        Some(TelemetryValue::KeyValues(_)) => 9,
    }
}

/// Canonical bytes of a value: its kind, then its content.
pub open spec fn canonical_value(value: TelemetryValue) -> Seq<u8>
    decreases value,
{
    match value {
        TelemetryValue::Empty => seq![1u8],
        TelemetryValue::String(text) => seq![2u8] + sized_text(text@),
        TelemetryValue::Boolean(flag) => seq![3u8, if flag { 1u8 } else { 0u8 }],
        TelemetryValue::Integer(number) => seq![4u8] + spec_u64_to_le_bytes(number as u64),
        TelemetryValue::DoubleBits(bits) => seq![5u8] + spec_u64_to_le_bytes(bits),
        TelemetryValue::Bytes(bytes) => seq![6u8] + sized(bytes@),
        TelemetryValue::StringTableIndex(index) => seq![7u8] + spec_u32_to_le_bytes(index),
        TelemetryValue::Array(items) => seq![8u8] + spec_u64_to_le_bytes(items@.len() as u64)
            + canonical_values(items@),
        TelemetryValue::KeyValues(entries) => seq![9u8] + spec_u64_to_le_bytes(entries@.len() as u64)
            + canonical_attributes(entries@),
    }
}

/// Canonical bytes of consecutive values.
pub open spec fn canonical_values(items: Seq<TelemetryValue>) -> Seq<u8>
    decreases items,
{
    if items.len() == 0 {
        Seq::empty()
    } else {
        canonical_values(items.drop_last()) + canonical_value(items.last())
    }
}

/// Canonical bytes of an attribute: its key, then its typed value.
pub open spec fn canonical_attribute(attribute: TelemetryAttribute) -> Seq<u8>
    decreases attribute,
{
    sized_text(attribute.key@) + match attribute.value {
        None => seq![0u8],
        Some(value) => canonical_value(value),
    }
}

/// Canonical bytes of consecutive attributes.
pub open spec fn canonical_attributes(attributes: Seq<TelemetryAttribute>) -> Seq<u8>
    decreases attributes,
{
    if attributes.len() == 0 {
        Seq::empty()
    } else {
        canonical_attributes(attributes.drop_last()) + canonical_attribute(attributes.last())
    }
}

/// Appends a length-prefixed byte string.
pub fn push_sized(output: &mut Vec<u8>, bytes: &[u8])
    ensures
        final(output)@ == old(output)@ + sized(bytes@),
{
    push_u64(output, bytes.len() as u64);
    push_bytes(output, bytes);
    assert(output@ =~= old(output)@ + sized(bytes@));
}

/// Appends length-prefixed UTF-8 text.
pub fn push_sized_text(output: &mut Vec<u8>, text: &str)
    ensures
        final(output)@ == old(output)@ + sized_text(text@),
{
    push_sized(output, text.as_bytes());
}

/// Appends the canonical bytes of a value.
pub fn encode_value(value: &TelemetryValue, output: &mut Vec<u8>)
    ensures
        final(output)@ == old(output)@ + canonical_value(*value),
    decreases value,
{
    match value {
        TelemetryValue::Empty => {
            output.push(1);
        },
        TelemetryValue::String(text) => {
            output.push(2);
            push_sized_text(output, text.as_str());
        },
        TelemetryValue::Boolean(flag) => {
            output.push(3);
            output.push(if *flag {
                1
            } else {
                0
            });
        },
        TelemetryValue::Integer(number) => {
            output.push(4);
            push_u64(output, *number as u64);
        },
        TelemetryValue::DoubleBits(bits) => {
            output.push(5);
            push_u64(output, *bits);
        },
        TelemetryValue::Bytes(bytes) => {
            output.push(6);
            push_sized(output, bytes.as_slice());
        },
        TelemetryValue::StringTableIndex(index) => {
            output.push(7);
            push_u32(output, *index);
        },
        TelemetryValue::Array(items) => {
            output.push(8);
            push_u64(output, items.len() as u64);
            encode_values(items, output);
        },
        TelemetryValue::KeyValues(entries) => {
            output.push(9);
            push_u64(output, entries.len() as u64);
            encode_attributes(entries, output);
        },
    }
    assert(output@ =~= old(output)@ + canonical_value(*value));
}

fn encode_values(items: &Vec<TelemetryValue>, output: &mut Vec<u8>)
    ensures
        final(output)@ == old(output)@ + canonical_values(items@),
    decreases items,
{
    let mut index: usize = 0;
    assert(items@.take(0) =~= Seq::<TelemetryValue>::empty());
    assert(output@ =~= old(output)@ + canonical_values(items@.take(0)));
    while index < items.len()
        invariant
            index <= items@.len(),
            output@ == old(output)@ + canonical_values(items@.take(index as int)),
        decreases items@.len() - index,
    {
        let ghost before = output@;
        assert(decreases_to!(items => items@[index as int]));
        encode_value(&items[index], output);
        proof {
            let longer = items@.take(index + 1);
            assert(longer.drop_last() =~= items@.take(index as int));
            assert(output@ =~= old(output)@ + canonical_values(longer));
        }
        index = index + 1;
    }
    assert(items@.take(index as int) =~= items@);
}

/// Appends the canonical bytes of consecutive attributes.
pub fn encode_attributes(attributes: &Vec<TelemetryAttribute>, output: &mut Vec<u8>)
    ensures
        final(output)@ == old(output)@ + canonical_attributes(attributes@),
    decreases attributes,
{
    let mut index: usize = 0;
    assert(attributes@.take(0) =~= Seq::<TelemetryAttribute>::empty());
    assert(output@ =~= old(output)@ + canonical_attributes(attributes@.take(0)));
    while index < attributes.len()
        invariant
            index <= attributes@.len(),
            output@ == old(output)@ + canonical_attributes(attributes@.take(index as int)),
        decreases attributes@.len() - index,
    {
        assert(decreases_to!(attributes => attributes@[index as int]));
        encode_attribute(&attributes[index], output);
        proof {
            let longer = attributes@.take(index + 1);
            assert(longer.drop_last() =~= attributes@.take(index as int));
            assert(output@ =~= old(output)@ + canonical_attributes(longer));
        }
        index = index + 1;
    }
    assert(attributes@.take(index as int) =~= attributes@);
}

/// Appends the canonical bytes of one attribute.
pub fn encode_attribute(attribute: &TelemetryAttribute, output: &mut Vec<u8>)
    ensures
        final(output)@ == old(output)@ + canonical_attribute(*attribute),
    decreases attribute,
{
    push_sized_text(output, attribute.key.as_str());
    match &attribute.value {
        None => {
            output.push(0);
        },
        Some(value) => {
            encode_value(value, output);
        },
    }
    assert(output@ =~= old(output)@ + canonical_attribute(*attribute));
}

/// Identity of an attribute.
pub open spec fn attribute_identity(attribute: TelemetryAttribute) -> AttributeFingerprint {
    AttributeFingerprint(identity_of(canonical_attribute(attribute)))
}

/// Identity of the attribute that maps `key` to the text `text`.
pub open spec fn text_identity(key: Seq<char>, text: Seq<char>) -> AttributeFingerprint {
    AttributeFingerprint(identity_of(sized_text(key) + (seq![2u8] + sized_text(text))))
}

impl TelemetryAttribute {
    /// Creates a valued attribute.
    pub fn new(key: &str, value: TelemetryValue) -> (attribute: Self)
        ensures
            attribute.key@ == key@,
            attribute.value == Some(value),
    {
        Self { key: key.to_owned(), value: Some(value) }
    }

    /// Identity of this typed key/value pair.
    pub fn fingerprint(&self) -> (fingerprint: AttributeFingerprint)
        ensures
            fingerprint == attribute_identity(*self),
    {
        let mut encoding: Vec<u8> = Vec::new();
        encode_attribute(self, &mut encoding);
        assert(encoding@ =~= canonical_attribute(*self));
        AttributeFingerprint(identity(&encoding))
    }
}

/// Two attributes with one key but values of different kinds have different
/// canonical bytes, however alike those values are rendered.
pub proof fn kinds_encode_differently(left: TelemetryAttribute, right: TelemetryAttribute)
    requires
        left.key@ == right.key@,
        value_tag(left.value) != value_tag(right.value),
    ensures
        canonical_attribute(left) != canonical_attribute(right),
{
    let position = sized_text(left.key@).len() as int;
    assert(canonical_attribute(left)[position] == value_tag(left.value));
    assert(canonical_attribute(right)[position] == value_tag(right.value));
}

/// Two attributes with different key lengths have different canonical bytes.
pub proof fn key_lengths_encode_differently(left: TelemetryAttribute, right: TelemetryAttribute)
    requires
        vstd::utf8::encode_utf8(left.key@).len() != vstd::utf8::encode_utf8(right.key@).len(),
        vstd::utf8::encode_utf8(left.key@).len() <= u64::MAX,
        vstd::utf8::encode_utf8(right.key@).len() <= u64::MAX,
    ensures
        canonical_attribute(left) != canonical_attribute(right),
{
    fields_read_back();
    let left_length = vstd::utf8::encode_utf8(left.key@).len() as u64;
    let right_length = vstd::utf8::encode_utf8(right.key@).len() as u64;
    assert(canonical_attribute(left).take(8) =~= spec_u64_to_le_bytes(left_length));
    assert(canonical_attribute(right).take(8) =~= spec_u64_to_le_bytes(right_length));
}

} // verus!
