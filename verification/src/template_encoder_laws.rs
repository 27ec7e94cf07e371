//! Reading encoded templates, records and term indexes back.

use vstd::prelude::*;

use crate::template::{filled, template_of, templates_rebuild_lines, values_of, PLACEHOLDER};
use crate::template_encoder::{
    block_numbers_rise, counted, counted_all, index_bytes, index_entry, numbers_rise, record_bytes,
    sorted_distinct, steps, template_place, templates_after,
};
use crate::wire::{leb128, leb128_read, leb128_reads_back};

verus! {

/// Reads a number and gives what stands behind it.
pub open spec fn read_number(bytes: Seq<u8>) -> Option<(nat, Seq<u8>)> {
    match leb128_read(bytes) {
        Some((number, width)) => Some((number, bytes.skip(width as int))),
        None => None,
    }
}

/// Reads a byte string behind its length.
pub open spec fn read_string(bytes: Seq<u8>) -> Option<(Seq<u8>, Seq<u8>)> {
    match read_number(bytes) {
        Some((length, rest)) => if length <= rest.len() {
            Some((rest.take(length as int), rest.skip(length as int)))
        } else {
            None
        },
        None => None,
    }
}

/// Reads so many byte strings, each behind its length.
pub open spec fn read_strings(bytes: Seq<u8>, count: nat) -> Option<(Seq<Seq<u8>>, Seq<u8>)>
    decreases count,
{
    if count == 0 {
        Some((Seq::empty(), bytes))
    } else {
        match read_string(bytes) {
            Some((first, after)) => match read_strings(after, (count - 1) as nat) {
                Some((others, rest)) => Some((seq![first] + others, rest)),
                None => None,
            },
            None => None,
        }
    }
}

/// Reads a record against templates: the number of its template, the number of its
/// values, the values; gives the line that they make.
pub open spec fn read_record(templates: Seq<Seq<u8>>, bytes: Seq<u8>) -> Option<
    (Seq<u8>, Seq<u8>),
> {
    match read_number(bytes) {
        Some((template, after_template)) => match read_number(after_template) {
            Some((count, after_count)) => match read_strings(after_count, count) {
                Some((values, rest)) => if template < templates.len() {
                    Some((filled(templates[template as int], values), rest))
                } else {
                    None
                },
                None => None,
            },
            None => None,
        },
        None => None,
    }
}

/// Reads so many rising numbers, each but the first as its distance from the one
/// before.
pub open spec fn read_steps(bytes: Seq<u8>, count: nat, before: nat) -> Option<
    (Seq<nat>, Seq<u8>),
>
    decreases count,
{
    if count == 0 {
        Some((Seq::empty(), bytes))
    } else {
        match read_number(bytes) {
            Some((step, after)) => match read_steps(after, (count - 1) as nat, before + step) {
                Some((others, rest)) => Some((seq![before + step] + others, rest)),
                None => None,
            },
            None => None,
        }
    }
}

/// Reads one term of an index and the blocks that hold it.
pub open spec fn read_entry(bytes: Seq<u8>) -> Option<(Seq<u8>, Seq<nat>, Seq<u8>)> {
    match read_string(bytes) {
        Some((term, after_term)) => match read_number(after_term) {
            Some((count, after_count)) => match read_steps(after_count, count, 0) {
                Some((blocks, rest)) => Some((term, blocks, rest)),
                None => None,
            },
            None => None,
        },
        None => None,
    }
}

proof fn lemma_number(number: nat, rest: Seq<u8>)
    ensures
        read_number(leb128(number) + rest) == Some((number, rest)),
{
    leb128_reads_back(number, rest);
    assert((leb128(number) + rest).skip(leb128(number).len() as int) =~= rest);
}

/// A byte string reads back as itself, whatever follows it.
pub proof fn strings_read_back(bytes: Seq<u8>, rest: Seq<u8>)
    ensures
        read_string(counted(bytes) + rest) == Some((bytes, rest)),
{
    assert(counted(bytes) + rest =~= leb128(bytes.len()) + (bytes + rest));
    lemma_number(bytes.len(), bytes + rest);
    assert((bytes + rest).take(bytes.len() as int) =~= bytes);
    assert((bytes + rest).skip(bytes.len() as int) =~= rest);
}

proof fn lemma_first_string(strings: Seq<Seq<u8>>)
    requires
        strings.len() > 0,
    ensures
        counted_all(strings) == counted(strings[0]) + counted_all(strings.skip(1)),
    decreases strings.len(),
{
    if strings.len() == 1 {
        assert(strings.drop_last() =~= Seq::empty());
        assert(strings.skip(1) =~= Seq::empty());
        assert(strings.last() == strings[0]);
        assert(counted_all(strings) =~= counted(strings[0]) + counted_all(strings.skip(1)));
    } else {
        let shorter = strings.drop_last();
        let later = strings.skip(1);
        lemma_first_string(shorter);
        assert(shorter.skip(1) =~= later.drop_last());
        assert(later.last() == strings.last());
        assert(shorter[0] == strings[0]);
        assert(counted_all(strings) =~= counted(strings[0]) + counted_all(later));
    }
}

/// Byte strings, such as the templates of an encoder, read back in order, whatever
/// follows them.
pub proof fn string_lists_read_back(strings: Seq<Seq<u8>>, rest: Seq<u8>)
    ensures
        read_strings(counted_all(strings) + rest, strings.len()) == Some((strings, rest)),
    decreases strings.len(),
{
    if strings.len() == 0 {
        assert(counted_all(strings) + rest =~= rest);
        assert(strings =~= Seq::empty());
    } else {
        let later = strings.skip(1);
        lemma_first_string(strings);
        assert(counted_all(strings) + rest =~= counted(strings[0]) + (counted_all(later) + rest));
        strings_read_back(strings[0], counted_all(later) + rest);
        string_lists_read_back(later, rest);
        assert(seq![strings[0]] + later =~= strings);
    }
}

/// A line that holds no placeholder reads back from its record and the templates
/// seen up to it, whatever follows the record and however many templates come
/// later.
pub proof fn records_read_back(
    templates: Seq<Seq<u8>>,
    line: Seq<u8>,
    later: Seq<Seq<u8>>,
    rest: Seq<u8>,
)
    requires
        !line.contains(PLACEHOLDER),
    ensures
        read_record(
            templates_after(templates, template_of(line)) + later,
            record_bytes(template_place(templates, template_of(line)), values_of(line)) + rest,
        ) == Some((line, rest)),
{
    let template = template_of(line);
    let values = values_of(line);
    let place = template_place(templates, template);
    let known = templates_after(templates, template) + later;
    assert(record_bytes(place, values) + rest =~= leb128(place) + (leb128(values.len()) + (
    counted_all(values) + rest)));
    lemma_number(place, leb128(values.len()) + (counted_all(values) + rest));
    lemma_number(values.len(), counted_all(values) + rest);
    string_lists_read_back(values, rest);
    if templates.contains(template) {
        let i = choose|i: int| 0 <= i < templates.len() && templates[i] == template;
        assert(templates[templates.index_of(template)] == template);
    }
    assert(known[place as int] == template);
    templates_rebuild_lines(line);
}

/// Numbers as natural numbers.
pub open spec fn widened(numbers: Seq<u32>) -> Seq<nat> {
    Seq::new(numbers.len(), |i: int| numbers[i] as nat)
}

/// The distances between rising numbers, from a number on.
spec fn distances(numbers: Seq<u32>, before: nat) -> Seq<u8>
    decreases numbers.len(),
{
    if numbers.len() == 0 {
        Seq::empty()
    } else {
        leb128((numbers[0] - before) as nat) + distances(numbers.skip(1), numbers[0] as nat)
    }
}

proof fn lemma_last_distance(numbers: Seq<u32>, before: nat)
    requires
        numbers.len() > 1,
    ensures
        distances(numbers, before) == distances(numbers.drop_last(), before) + leb128(
            (numbers.last() - numbers[numbers.len() - 2]) as nat,
        ),
    decreases numbers.len(),
{
    let later = numbers.skip(1);
    let shorter = numbers.drop_last();
    assert(shorter[0] == numbers[0]);
    assert(shorter.skip(1) =~= later.drop_last());
    if numbers.len() == 2 {
        assert(later.skip(1) =~= Seq::empty());
        assert(shorter.skip(1) =~= Seq::empty());
        assert(distances(later.skip(1), later[0] as nat) =~= Seq::<u8>::empty());
        assert(distances(shorter.skip(1), shorter[0] as nat) =~= Seq::<u8>::empty());
        assert(later[0] == numbers.last());
        assert(distances(later, numbers[0] as nat) =~= leb128(
            (numbers.last() - numbers[0]) as nat,
        ));
        assert(distances(shorter, before) =~= leb128((numbers[0] - before) as nat));
    } else {
        lemma_last_distance(later, numbers[0] as nat);
        assert(later.last() == numbers.last());
        assert(later[later.len() - 2] == numbers[numbers.len() - 2]);
    }
    assert(distances(numbers, before) =~= distances(shorter, before) + leb128(
        (numbers.last() - numbers[numbers.len() - 2]) as nat,
    ));
}

proof fn lemma_steps_are_distances(numbers: Seq<u32>)
    ensures
        steps(numbers) == distances(numbers, 0),
    decreases numbers.len(),
{
    if numbers.len() == 1 {
        assert(numbers.skip(1) =~= Seq::empty());
        assert(distances(numbers.skip(1), numbers[0] as nat) =~= Seq::<u8>::empty());
        assert(distances(numbers, 0) =~= leb128(numbers[0] as nat));
    } else if numbers.len() > 1 {
        lemma_steps_are_distances(numbers.drop_last());
        lemma_last_distance(numbers, 0);
    }
}

proof fn lemma_distances_read_back(numbers: Seq<u32>, before: nat, rest: Seq<u8>)
    requires
        numbers_rise(numbers),
        numbers.len() > 0 ==> before <= numbers[0],
    ensures
        read_steps(distances(numbers, before) + rest, numbers.len(), before) == Some(
            (widened(numbers), rest),
        ),
    decreases numbers.len(),
{
    if numbers.len() == 0 {
        assert(distances(numbers, before) + rest =~= rest);
        assert(widened(numbers) =~= Seq::empty());
    } else {
        let later = numbers.skip(1);
        let first = numbers[0] as nat;
        assert(distances(numbers, before) + rest =~= leb128((first - before) as nat) + (distances(
            later,
            first,
        ) + rest));
        lemma_number((first - before) as nat, distances(later, first) + rest);
        assert forall|i: int, j: int| 0 <= i < j < later.len() implies later[i] < later[j] by {
            assert(numbers[i + 1] < numbers[j + 1]);
        }
        if later.len() > 0 {
            assert(numbers[0] < numbers[1]);
        }
        lemma_distances_read_back(later, first, rest);
        assert(seq![first] + widened(later) =~= widened(numbers));
    }
}

/// An entry of the index reads back as its term and its blocks, in rising order and
/// each once, whatever follows it.
pub proof fn entries_read_back(term: Seq<u8>, blocks: Seq<u32>, rest: Seq<u8>)
    ensures
        read_entry(index_entry(term, blocks) + rest) matches Some((read, numbers, after)) && read
            == term && after == rest && numbers == widened(sorted_distinct(blocks)),
        numbers_rise(sorted_distinct(blocks)),
        forall|block: u32| #[trigger]
            sorted_distinct(blocks).contains(block) <==> blocks.contains(block),
{
    let sorted = sorted_distinct(blocks);
    block_numbers_rise(blocks);
    assert(index_entry(term, blocks) + rest =~= counted(term) + (leb128(sorted.len()) + (steps(
        sorted,
    ) + rest)));
    strings_read_back(term, leb128(sorted.len()) + (steps(sorted) + rest));
    lemma_number(sorted.len(), steps(sorted) + rest);
    lemma_steps_are_distances(sorted);
    lemma_distances_read_back(sorted, 0, rest);
}

/// An index is its entries, one behind the other: the first can be read off and
/// leaves the index of the others.
pub proof fn indexes_start_with_their_first_entry(listed: Seq<(Seq<u8>, Vec<u32>)>)
    requires
        listed.len() > 0,
    ensures
        index_bytes(listed) == index_entry(listed[0].0, listed[0].1@) + index_bytes(
            listed.skip(1),
        ),
    decreases listed.len(),
{
    if listed.len() == 1 {
        assert(listed.drop_last() =~= Seq::empty());
        assert(listed.skip(1) =~= Seq::empty());
        assert(listed.last() == listed[0]);
        assert(index_bytes(listed) =~= index_entry(listed[0].0, listed[0].1@) + index_bytes(
            listed.skip(1),
        ));
    } else {
        let shorter = listed.drop_last();
        let later = listed.skip(1);
        indexes_start_with_their_first_entry(shorter);
        assert(shorter.skip(1) =~= later.drop_last());
        assert(later.last() == listed.last());
        assert(shorter[0] == listed[0]);
        assert(index_bytes(listed) =~= index_entry(listed[0].0, listed[0].1@) + index_bytes(
            later,
        ));
    }
}

} // verus!
