//! Log lines as templates and the values that vary in them.

use vstd::prelude::*;

use crate::byte_map::{entry_views, lemma_listed, rising, ByteMap};
use crate::wire::push_bytes;

verus! {

/// What stands in a template for a varying token.
pub const PLACEHOLDER: u8 = 0x1e;

/// Whether a byte is ASCII white space.
pub open spec fn is_space(byte: u8) -> bool {
    byte == 0x20 || byte == 0x09 || byte == 0x0a || byte == 0x0c || byte == 0x0d
}

/// Whether a byte is a decimal digit.
pub open spec fn is_digit_byte(byte: u8) -> bool {
    0x30 <= byte <= 0x39
}

/// Whether a byte is an ASCII letter.
pub open spec fn is_letter(byte: u8) -> bool {
    0x41 <= byte <= 0x5a || 0x61 <= byte <= 0x7a
}

/// Whether a byte is an ASCII letter or digit.
pub open spec fn is_term_byte(byte: u8) -> bool {
    is_letter(byte) || is_digit_byte(byte)
}

/// An ASCII letter in lower case; other bytes as they are.
pub open spec fn lower(byte: u8) -> u8 {
    if 0x41 <= byte <= 0x5a {
        (byte + 0x20) as u8
    } else {
        byte
    }
}

/// Whether a token varies: whether it holds a digit.
pub open spec fn varies(token: Seq<u8>) -> bool {
    exists|i: int| 0 <= i < token.len() && is_digit_byte(#[trigger] token[i])
}

/// Where the run of bytes that are, or are not, white space ends.
pub open spec fn run_end(line: Seq<u8>, cursor: int, space: bool) -> int
    decreases line.len() - cursor,
{
    if cursor < 0 || cursor >= line.len() || is_space(line[cursor]) != space {
        cursor
    } else {
        run_end(line, cursor + 1, space)
    }
}

/// The template of the rest of a line, and the values that vary in it.
pub open spec fn template_from(line: Seq<u8>, cursor: int) -> (Seq<u8>, Seq<Seq<u8>>)
    decreases line.len() - cursor,
{
    if cursor < 0 || cursor >= line.len() {
        (Seq::empty(), Seq::empty())
    } else {
        let space = is_space(line[cursor]);
        let end = run_end(line, cursor + 1, space);
        if end <= cursor || end > line.len() {
            (Seq::empty(), Seq::empty())
        } else {
            let part = line.subrange(cursor, end);
            let (template, values) = template_from(line, end);
            if !space && varies(part) {
                (seq![PLACEHOLDER] + template, seq![part] + values)
            } else {
                (part + template, values)
            }
        }
    }
}

/// The template of a line.
pub open spec fn template_of(line: Seq<u8>) -> Seq<u8> {
    template_from(line, 0).0
}

/// The values that vary in a line.
pub open spec fn values_of(line: Seq<u8>) -> Seq<Seq<u8>> {
    template_from(line, 0).1
}

proof fn lemma_run_end(line: Seq<u8>, cursor: int, space: bool)
    requires
        0 <= cursor <= line.len(),
    ensures
        cursor <= run_end(line, cursor, space) <= line.len(),
    decreases line.len() - cursor,
{
    if cursor < line.len() && is_space(line[cursor]) == space {
        lemma_run_end(line, cursor + 1, space);
    }
}

/// A template with values put where they were taken out.
pub open spec fn filled(template: Seq<u8>, values: Seq<Seq<u8>>) -> Seq<u8>
    decreases template.len(),
{
    if template.len() == 0 {
        Seq::empty()
    } else if template[0] == PLACEHOLDER && values.len() > 0 {
        values[0] + filled(template.drop_first(), values.drop_first())
    } else {
        seq![template[0]] + filled(template.drop_first(), values)
    }
}

proof fn lemma_plain_part_is_kept(part: Seq<u8>, template: Seq<u8>, values: Seq<Seq<u8>>)
    requires
        !part.contains(PLACEHOLDER),
    ensures
        filled(part + template, values) == part + filled(template, values),
    decreases part.len(),
{
    if part.len() == 0 {
        assert(part + template =~= template);
        assert(part + filled(template, values) =~= filled(template, values));
    } else {
        let rest = part.drop_first();
        assert(!rest.contains(PLACEHOLDER)) by {
            assert forall|i: int| 0 <= i < rest.len() implies rest[i] != PLACEHOLDER by {
                assert(part.contains(part[i + 1]));
            }
        }
        lemma_plain_part_is_kept(rest, template, values);
        assert(part.contains(part[0]));
        assert((part + template).drop_first() =~= rest + template);
        assert(seq![part[0]] + (rest + filled(template, values)) =~= part + filled(template, values));
    }
}

proof fn lemma_rest_is_rebuilt(line: Seq<u8>, cursor: int)
    requires
        0 <= cursor <= line.len(),
        !line.contains(PLACEHOLDER),
    ensures
        ({
            let (template, values) = template_from(line, cursor);
            filled(template, values) == line.skip(cursor)
        }),
    decreases line.len() - cursor,
{
    if cursor < line.len() {
        let space = is_space(line[cursor]);
        lemma_run_end(line, cursor + 1, space);
        let end = run_end(line, cursor + 1, space);
        let part = line.subrange(cursor, end);
        let (template, values) = template_from(line, end);
        lemma_rest_is_rebuilt(line, end);
        assert(part + line.skip(end) =~= line.skip(cursor));
        if !space && varies(part) {
            let (whole, all) = template_from(line, cursor);
            assert(whole == seq![PLACEHOLDER] + template);
            assert(all == seq![part] + values);
            assert(whole.drop_first() =~= template);
            assert(all.drop_first() =~= values);
        } else {
            assert(!part.contains(PLACEHOLDER)) by {
                assert forall|i: int| 0 <= i < part.len() implies part[i] != PLACEHOLDER by {
                    assert(line.contains(line[cursor + i]));
                }
            }
            lemma_plain_part_is_kept(part, template, values);
        }
    } else {
        assert(line.skip(cursor) =~= Seq::<u8>::empty());
    }
}

/// A line is its template with the values put back, as long as it holds no
/// placeholder of its own.
pub proof fn templates_rebuild_lines(line: Seq<u8>)
    requires
        !line.contains(PLACEHOLDER),
    ensures
        filled(template_of(line), values_of(line)) == line,
{
    lemma_rest_is_rebuilt(line, 0);
    assert(line.skip(0) =~= line);
}

/// Bytes of slices.
pub open spec fn slice_views(slices: Seq<&[u8]>) -> Seq<Seq<u8>> {
    Seq::new(slices.len(), |i: int| slices[i]@)
}

fn is_ascii_space(byte: u8) -> (space: bool)
    ensures
        space == is_space(byte),
{
    byte == 0x20 || byte == 0x09 || byte == 0x0a || byte == 0x0c || byte == 0x0d
}

fn is_ascii_letter(byte: u8) -> (letter: bool)
    ensures
        letter == is_letter(byte),
{
    (byte >= 0x41 && byte <= 0x5a) || (byte >= 0x61 && byte <= 0x7a)
}

fn is_ascii_digit(byte: u8) -> (digit: bool)
    ensures
        digit == is_digit_byte(byte),
{
    byte >= 0x30 && byte <= 0x39
}

/// Whether a token varies.
pub fn is_variable(token: &[u8]) -> (variable: bool)
    ensures
        variable == varies(token@),
{
    let mut index: usize = 0;
    while index < token.len()
        invariant
            index <= token@.len(),
            forall|i: int| 0 <= i < index ==> !is_digit_byte(#[trigger] token@[i]),
        decreases token@.len() - index,
    {
        if is_ascii_digit(token[index]) {
            assert(is_digit_byte(token@[index as int]));
            return true;
        }
        index = index + 1;
    }
    false
}

fn find_run_end(line: &[u8], cursor: usize, space: bool) -> (end: usize)
    requires
        cursor <= line@.len(),
    ensures
        end == run_end(line@, cursor as int, space),
        cursor <= end <= line@.len(),
{
    let mut end = cursor;
    while end < line.len() && is_ascii_space(line[end]) == space
        invariant
            cursor <= end <= line@.len(),
            run_end(line@, cursor as int, space) == run_end(line@, end as int, space),
        decreases line@.len() - end,
    {
        end = end + 1;
    }
    end
}

/// Splits a line into its template and the values that vary.
pub fn split_template<'a>(line: &'a [u8]) -> (split: (Vec<u8>, Vec<&'a [u8]>))
    ensures
        split.0@ == template_of(line@),
        slice_views(split.1@) == values_of(line@),
{
    let mut template: Vec<u8> = Vec::new();
    let mut values: Vec<&'a [u8]> = Vec::new();
    let mut cursor: usize = 0;
    proof {
        let (whole, all) = template_from(line@, 0);
        assert(template@ + whole =~= whole);
        assert(slice_views(values@) + all =~= all);
    }
    while cursor < line.len()
        invariant
            cursor <= line@.len(),
            template_of(line@) == template@ + template_from(line@, cursor as int).0,
            values_of(line@) == slice_views(values@) + template_from(line@, cursor as int).1,
        decreases line@.len() - cursor,
    {
        let ghost before = template@;
        let ghost earlier = slice_views(values@);
        let (start, space) = (cursor, is_ascii_space(line[cursor]));
        let end = find_run_end(line, cursor + 1, space);
        let part = vstd::slice::slice_subrange(line, start, end);
        let ghost (rest, later) = template_from(line@, end as int);
        if !space && is_variable(part) {
            template.push(PLACEHOLDER);
            values.push(part);
            proof {
                assert(template@ + rest =~= before + (seq![PLACEHOLDER] + rest));
                assert(slice_views(values@) =~= earlier.push(part@));
                assert(slice_views(values@) + later =~= earlier + (seq![part@] + later));
            }
        } else {
            push_bytes(&mut template, part);
            proof {
                assert(template@ + rest =~= before + (part@ + rest));
            }
        }
        cursor = end;
    }
    assert(template@ + template_from(line@, cursor as int).0 =~= template@);
    assert(slice_views(values@) + template_from(line@, cursor as int).1 =~= slice_views(values@));
    (template, values)
}

/// Where the next letter stands.
pub open spec fn next_letter(template: Seq<u8>, cursor: int) -> int
    decreases template.len() - cursor,
{
    if cursor < 0 || cursor >= template.len() || is_letter(template[cursor]) {
        cursor
    } else {
        next_letter(template, cursor + 1)
    }
}

/// Where a term ends.
pub open spec fn term_end(template: Seq<u8>, cursor: int) -> int
    decreases template.len() - cursor,
{
    if cursor < 0 || cursor >= template.len() || !is_term_byte(template[cursor]) {
        cursor
    } else {
        term_end(template, cursor + 1)
    }
}

/// Bytes in lower case.
pub open spec fn lowered(bytes: Seq<u8>) -> Seq<u8> {
    Seq::new(bytes.len(), |i: int| lower(bytes[i]))
}

/// The terms of the rest of a template.
pub open spec fn terms_from(template: Seq<u8>, cursor: int) -> Set<Seq<u8>>
    decreases template.len() - cursor,
{
    let start = next_letter(template, cursor);
    let end = term_end(template, start);
    if cursor < 0 || start < cursor || start >= template.len() || end <= start || end
        > template.len() {
        Set::empty()
    } else {
        terms_from(template, end).insert(lowered(template.subrange(start, end)))
    }
}

/// The terms of a template: its words, in lower case.
pub open spec fn terms_of(template: Seq<u8>) -> Set<Seq<u8>> {
    terms_from(template, 0)
}

fn lower_bytes(bytes: &[u8]) -> (result: Vec<u8>)
    ensures
        result@ == lowered(bytes@),
{
    let mut result: Vec<u8> = Vec::new();
    let mut index: usize = 0;
    while index < bytes.len()
        invariant
            index <= bytes@.len(),
            result@ == lowered(bytes@).take(index as int),
        decreases bytes@.len() - index,
    {
        let byte = bytes[index];
        let small = if byte >= 0x41 && byte <= 0x5a {
            byte + 0x20
        } else {
            byte
        };
        result.push(small);
        assert(result@ =~= lowered(bytes@).take(index + 1));
        index = index + 1;
    }
    assert(lowered(bytes@).take(index as int) =~= lowered(bytes@));
    result
}

/// Bytes of byte strings.
pub open spec fn byte_views(strings: Seq<Vec<u8>>) -> Seq<Seq<u8>> {
    Seq::new(strings.len(), |i: int| strings[i]@)
}

fn find_term(template: &[u8], cursor: usize) -> (bounds: (usize, usize))
    requires
        cursor <= template@.len(),
    ensures
        bounds.0 == next_letter(template@, cursor as int),
        bounds.1 == term_end(template@, bounds.0 as int),
        cursor <= bounds.0 <= bounds.1 <= template@.len(),
        bounds.0 < template@.len() ==> bounds.0 < bounds.1,
{
    let mut start = cursor;
    while start < template.len() && !is_ascii_letter(template[start])
        invariant
            cursor <= start <= template@.len(),
            next_letter(template@, cursor as int) == next_letter(template@, start as int),
        decreases template@.len() - start,
    {
        start = start + 1;
    }
    let mut end = start;
    while end < template.len() && (is_ascii_letter(template[end]) || is_ascii_digit(template[end]))
        invariant
            start <= end <= template@.len(),
            start < template@.len() ==> is_letter(template@[start as int]),
            term_end(template@, start as int) == term_end(template@, end as int),
        decreases template@.len() - end,
    {
        end = end + 1;
    }
    (start, end)
}

/// Collects the terms of a template, in byte order.
pub fn extract_terms(template: &[u8]) -> (terms: Vec<Vec<u8>>)
    ensures
        byte_views(terms@).to_set() == terms_of(template@),
        forall|i: int, j: int|
            0 <= i < j < terms@.len() ==> crate::string_map::bytes_precede(
                #[trigger] terms@[i]@,
                #[trigger] terms@[j]@,
            ),
{
    let mut found: ByteMap<()> = ByteMap::new();
    let mut cursor: usize = 0;
    assert(found@.dom().union(terms_from(template@, 0)) =~= terms_of(template@));
    while cursor < template.len()
        invariant
            cursor <= template@.len(),
            found@.dom().union(terms_from(template@, cursor as int)) == terms_of(template@),
        decreases template@.len() - cursor,
    {
        let (start, end) = find_term(template, cursor);
        let ghost before = found@.dom();
        if end > start {
            let term = lower_bytes(vstd::slice::slice_subrange(template, start, end));
            let ghost view = term@;
            found.insert(term, ());
            proof {
                assert(found@.dom() =~= before.insert(view));
                assert(before.union(terms_from(template@, end as int).insert(view)) =~= found@.dom().union(
                    terms_from(template@, end as int),
                ));
            }
        } else {
            proof {
                assert(terms_from(template@, cursor as int) =~= Set::<Seq<u8>>::empty());
                assert(terms_from(template@, end as int) =~= Set::<Seq<u8>>::empty());
            }
        }
        cursor = end;
    }
    assert(terms_from(template@, cursor as int) =~= Set::<Seq<u8>>::empty());
    assert(found@.dom() =~= terms_of(template@));
    let terms = copy_keys(&found);
    assert(byte_views(terms@).to_set() =~= terms_of(template@));
    terms
}

fn copy_keys(map: &ByteMap<()>) -> (keys: Vec<Vec<u8>>)
    ensures
        keys@.len() == map.listed().len(),
        forall|i: int| 0 <= i < keys@.len() ==> #[trigger] keys@[i]@ == map.listed()[i].0,
        rising(map.listed()),
        byte_views(keys@).to_set() == map@.dom(),
{
    let entries = map.entries();
    let mut keys: Vec<Vec<u8>> = Vec::new();
    let mut index: usize = 0;
    while index < entries.len()
        invariant
            index <= entries@.len(),
            entry_views(entries@) == map.listed(),
            keys@.len() == index,
            forall|i: int| 0 <= i < index ==> #[trigger] keys@[i]@ == map.listed()[i].0,
        decreases entries@.len() - index,
    {
        assert(map.listed()[index as int].0 == entries@[index as int].0@);
        keys.push(vstd::slice::slice_to_vec(entries[index].0.as_slice()));
        index = index + 1;
    }
    proof {
        let listed = map.listed();
        assert(listed.len() == entries@.len());
        assert forall|key: Seq<u8>| byte_views(keys@).to_set().contains(key) <==> map@.dom().contains(
            key,
        ) by {
            if byte_views(keys@).to_set().contains(key) {
                let at = choose|at: int| 0 <= at < byte_views(keys@).len() && byte_views(keys@)[at] == key;
                assert(listed[at].0 == keys@[at]@);
                lemma_listed(listed, at);
            }
            if map@.dom().contains(key) {
                let at = choose|at: int| 0 <= at < listed.len() && #[trigger] listed[at].0 == key;
                assert(byte_views(keys@)[at] == keys@[at]@);
                assert(byte_views(keys@).contains(key));
            }
        }
        assert(byte_views(keys@).to_set() =~= map@.dom());
    }
    keys
}

} // verus!
