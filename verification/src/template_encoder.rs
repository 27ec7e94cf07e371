//! Records as references to templates, and the index of template terms.

use vstd::prelude::*;

use crate::byte_map::{entry_views, lemma_listed, rising, ByteMap};
use crate::template::{
    byte_views, extract_terms, slice_views, split_template, template_of, terms_of, values_of,
};
use crate::wire::{leb128, push_bytes, write_varint};

verus! {

/// A byte string with its length in front.
pub open spec fn counted(bytes: Seq<u8>) -> Seq<u8> {
    leb128(bytes.len()) + bytes
}

/// Byte strings, each with its length in front.
pub open spec fn counted_all(strings: Seq<Seq<u8>>) -> Seq<u8>
    decreases strings.len(),
{
    if strings.len() == 0 {
        Seq::empty()
    } else {
        counted_all(strings.drop_last()) + counted(strings.last())
    }
}

/// A record: the number of its template, then its values.
pub open spec fn record_bytes(template_id: nat, values: Seq<Seq<u8>>) -> Seq<u8> {
    leb128(template_id) + leb128(values.len()) + counted_all(values)
}

/// Appends a byte string with its length in front.
pub fn push_counted(output: &mut Vec<u8>, bytes: &[u8])
    ensures
        final(output)@ == old(output)@ + counted(bytes@),
{
    assert(bytes.len() == bytes@.len());
    write_varint(bytes.len() as u64, output);
    push_bytes(output, bytes);
    assert(output@ =~= old(output)@ + counted(bytes@));
}

/// Templates in the order in which they were first seen.
pub struct TemplateEncoder {
    templates: Ghost<Seq<Seq<u8>>>,
    template_ids: ByteMap<u32>,
    template_terms: Vec<Vec<Vec<u8>>>,
    encoded_templates: Vec<u8>,
}

impl View for TemplateEncoder {
    type V = Seq<Seq<u8>>;

    closed spec fn view(&self) -> Seq<Seq<u8>> {
        self.templates@
    }
}

/// The place of a template among those seen, behind them where it is new.
pub open spec fn template_place(templates: Seq<Seq<u8>>, template: Seq<u8>) -> nat {
    if templates.contains(template) {
        templates.index_of(template) as nat
    } else {
        templates.len()
    }
}

/// Templates after one more was seen.
pub open spec fn templates_after(templates: Seq<Seq<u8>>, template: Seq<u8>) -> Seq<Seq<u8>> {
    if templates.contains(template) {
        templates
    } else {
        templates.push(template)
    }
}

impl TemplateEncoder {
    /// What the parts say of one another.
    pub closed spec fn wf(self) -> bool {
        let templates = self.templates@;
        &&& templates.no_duplicates()
        &&& templates.len() <= u32::MAX + 1
        &&& self.template_terms@.len() == templates.len()
        &&& self.encoded_templates@ == counted_all(templates)
        &&& forall|i: int|
            0 <= i < templates.len() ==> byte_views(#[trigger] self.template_terms@[i]@).to_set()
                == terms_of(templates[i])
        &&& forall|i: int|
            0 <= i < templates.len() ==> self.template_ids@.dom().contains(#[trigger] templates[i])
                && self.template_ids@[templates[i]] == i
        &&& forall|template: Seq<u8>| #[trigger]
            self.template_ids@.dom().contains(template) ==> templates.contains(template)
    }

    /// No template yet.
    pub fn new() -> (encoder: Self)
        ensures
            encoder.wf(),
            encoder@ == Seq::<Seq<u8>>::empty(),
    {
        Self {
            templates: Ghost(Seq::empty()),
            template_ids: ByteMap::new(),
            template_terms: Vec::new(),
            encoded_templates: Vec::new(),
        }
    }

    /// Number of templates.
    pub fn template_count(&self) -> (count: usize)
        requires
            self.wf(),
        ensures
            count == self@.len(),
    {
        self.template_terms.len()
    }

    /// The templates, each with its length in front.
    pub fn encoded_templates(&self) -> (encoded: &Vec<u8>)
        requires
            self.wf(),
        ensures
            encoded@ == counted_all(self@),
    {
        &self.encoded_templates
    }

    fn template_id(&mut self, template: Vec<u8>) -> (id: u32)
        requires
            old(self).wf(),
            old(self)@.contains(template@) || old(self)@.len() <= u32::MAX,
        ensures
            final(self).wf(),
            id == template_place(old(self)@, template@),
            final(self)@ == templates_after(old(self)@, template@),
    {
        let ghost templates = self.templates@;
        if let Some(id) = self.template_ids.get(template.as_slice()) {
            proof {
                assert(templates.contains(template@));
                assert(templates[templates.index_of(template@)] == template@);
            }
            return *id;
        }
        proof {
            if templates.contains(template@) {
                let place = choose|place: int|
                    0 <= place < templates.len() && templates[place] == template@;
                assert(self.template_ids@.dom().contains(templates[place]));
            }
        }
        let id = self.template_terms.len() as u32;
        push_counted(&mut self.encoded_templates, template.as_slice());
        let terms = extract_terms(template.as_slice());
        self.template_terms.push(terms);
        let ghost before = self.template_ids@;
        let ghost longer = templates.push(template@);
        proof {
            assert(longer.drop_last() =~= templates);
            self.templates@ = longer;
        }
        self.template_ids.insert(template, id);
        proof {
            assert forall|i: int| 0 <= i < longer.len() implies self.template_ids@.dom().contains(
                #[trigger] longer[i],
            ) && self.template_ids@[longer[i]] == i by {
                if i < templates.len() {
                    assert(templates[i] == longer[i]);
                    assert(before.dom().contains(templates[i]));
                }
            }
            assert forall|other: Seq<u8>| #[trigger]
                self.template_ids@.dom().contains(other) implies longer.contains(other) by {
                if other == template@ {
                    assert(longer[templates.len() as int] == other);
                } else {
                    assert(before.dom().contains(other));
                    let place = choose|place: int|
                        0 <= place < templates.len() && templates[place] == other;
                    assert(longer[place] == other);
                }
            }
            assert forall|i: int| 0 <= i < longer.len() implies byte_views(
                #[trigger] self.template_terms@[i]@,
            ).to_set() == terms_of(longer[i]) by {
                if i < templates.len() {
                    assert(longer[i] == templates[i]);
                }
            }
        }
        id
    }

    /// Appends a record to `output` and its terms to those of the block.
    pub fn encode_record(
        &mut self,
        line: &[u8],
        output: &mut Vec<u8>,
        block_terms: &mut ByteMap<()>,
    )
        requires
            old(self).wf(),
            old(self)@.contains(template_of(line@)) || old(self)@.len() <= u32::MAX,
        ensures
            final(self).wf(),
            final(self)@ == templates_after(old(self)@, template_of(line@)),
            final(output)@ == old(output)@ + record_bytes(
                template_place(old(self)@, template_of(line@)),
                values_of(line@),
            ),
            final(block_terms)@.dom() == old(block_terms)@.dom().union(
                terms_of(template_of(line@)),
            ),
    {
        let (template, values) = split_template(line);
        let ghost view = template@;
        let id = self.template_id(template);
        proof {
            let templates = self.templates@;
            if old(self)@.contains(view) {
                assert(templates[id as int] == view);
            } else {
                assert(templates[id as int] == view);
            }
        }
        write_varint(id as u64, output);
        push_values(output, &values);
        assert(output@ =~= old(output)@ + record_bytes(id as nat, values_of(line@)));
        insert_terms(block_terms, &self.template_terms[id as usize]);
    }
}

fn push_values(output: &mut Vec<u8>, values: &Vec<&[u8]>)
    ensures
        final(output)@ == old(output)@ + leb128(values@.len()) + counted_all(slice_views(values@)),
{
    let ghost all = slice_views(values@);
    assert(values.len() == values@.len());
    write_varint(values.len() as u64, output);
    let ghost header = output@;
    let mut index: usize = 0;
    assert(all.take(0) =~= Seq::<Seq<u8>>::empty());
    assert(output@ =~= header + counted_all(all.take(0)));
    while index < values.len()
        invariant
            index <= values@.len(),
            all == slice_views(values@),
            output@ == header + counted_all(all.take(index as int)),
        decreases values@.len() - index,
    {
        push_counted(output, values[index]);
        proof {
            let longer = all.take(index + 1);
            assert(longer.drop_last() =~= all.take(index as int));
            assert(longer.last() == values@[index as int]@);
            assert(output@ =~= header + counted_all(longer));
        }
        index = index + 1;
    }
    assert(all.take(index as int) =~= all);
}

fn insert_terms(block_terms: &mut ByteMap<()>, terms: &Vec<Vec<u8>>)
    ensures
        final(block_terms)@.dom() == old(block_terms)@.dom().union(byte_views(terms@).to_set()),
{
    let ghost all = byte_views(terms@);
    let mut index: usize = 0;
    assert(block_terms@.dom() =~= old(block_terms)@.dom().union(all.take(0).to_set()));
    while index < terms.len()
        invariant
            index <= terms@.len(),
            all == byte_views(terms@),
            block_terms@.dom() == old(block_terms)@.dom().union(all.take(index as int).to_set()),
        decreases terms@.len() - index,
    {
        let ghost before = block_terms@.dom();
        let term = vstd::slice::slice_to_vec(terms[index].as_slice());
        let ghost view = term@;
        block_terms.insert(term, ());
        proof {
            let shorter = all.take(index as int);
            let longer = all.take(index + 1);
            assert(longer =~= shorter.push(view));
            assert forall|key: Seq<u8>| longer.to_set().contains(key) <==> shorter.to_set().insert(
                view,
            ).contains(key) by {
                if longer.contains(key) {
                    let at = choose|at: int| 0 <= at < longer.len() && longer[at] == key;
                    if at < shorter.len() {
                        assert(shorter[at] == key);
                    }
                }
                if shorter.contains(key) {
                    let at = choose|at: int| 0 <= at < shorter.len() && shorter[at] == key;
                    assert(longer[at] == key);
                }
                assert(longer[shorter.len() as int] == view);
            }
            assert(block_terms@.dom() =~= old(block_terms)@.dom().union(longer.to_set()));
        }
        index = index + 1;
    }
    assert(all.take(index as int) =~= all);
}

/// The blocks of a term after one more block.
pub open spec fn blocks_after(
    before: Map<Seq<u8>, Vec<u32>>,
    terms: Set<Seq<u8>>,
    block_id: u32,
    term: Seq<u8>,
) -> Seq<u32> {
    let earlier = if before.dom().contains(term) {
        before[term]@
    } else {
        Seq::empty()
    };
    if terms.contains(term) {
        earlier.push(block_id)
    } else {
        earlier
    }
}

/// Moves the terms of a block to the index, under the number of the block.
pub fn flush_terms(
    block_terms: &mut ByteMap<()>,
    term_blocks: &mut ByteMap<Vec<u32>>,
    block_id: u32,
)
    ensures
        final(block_terms)@ == Map::<Seq<u8>, ()>::empty(),
        final(term_blocks)@.dom() == old(term_blocks)@.dom().union(old(block_terms)@.dom()),
        forall|term: Seq<u8>| #[trigger]
            final(term_blocks)@.dom().contains(term) ==> final(term_blocks)@[term]@ == blocks_after(
                old(term_blocks)@,
                old(block_terms)@.dom(),
                block_id,
                term,
            ),
{
    let mut drained: ByteMap<()> = ByteMap::new();
    std::mem::swap(&mut drained, block_terms);
    let entries = drained.entries();
    let ghost listed = drained.listed();
    let ghost before = term_blocks@;
    let mut index: usize = 0;
    assert(term_blocks@.dom() =~= before.dom().union(listed_before(listed, 0)));
    while index < entries.len()
        invariant
            index <= entries@.len(),
            entry_views(entries@) == listed,
            rising(listed),
            term_blocks@.dom() == before.dom().union(listed_before(listed, index as int)),
            forall|term: Seq<u8>| #[trigger]
                term_blocks@.dom().contains(term) ==> term_blocks@[term]@ == blocks_after(
                    before,
                    listed_before(listed, index as int),
                    block_id,
                    term,
                ),
        decreases entries@.len() - index,
    {
        let ghost earlier = term_blocks@;
        let ghost seen = listed_before(listed, index as int);
        let ghost more = listed_before(listed, index + 1);
        let ghost key = listed[index as int].0;
        assert(key == entries@[index as int].0@);
        term_blocks.append(entries[index].0.as_slice(), block_id);
        proof {
            lemma_listed(listed, index as int);
            assert(!seen.contains(key));
            assert(more =~= seen.insert(key));
            assert(term_blocks@.dom() =~= before.dom().union(more));
            assert forall|term: Seq<u8>| #[trigger]
                term_blocks@.dom().contains(term) implies term_blocks@[term]@ == blocks_after(
                before,
                more,
                block_id,
                term,
            ) by {
                if term != key {
                    assert(earlier.dom().contains(term));
                } else if !earlier.dom().contains(key) {
                    assert(term_blocks@[key]@ =~= Seq::<u32>::empty().push(block_id));
                }
            }
        }
        index = index + 1;
    }
    proof {
        let every = listed_before(listed, index as int);
        assert forall|term: Seq<u8>| every.contains(term) <==> drained@.dom().contains(term) by {
            if drained@.dom().contains(term) {
                let at = choose|at: int| 0 <= at < listed.len() && #[trigger] listed[at].0 == term;
                assert(every.contains(listed[at].0));
            }
            if every.contains(term) {
                let at = choose|at: int| 0 <= at < index && #[trigger] listed[at].0 == term;
                lemma_listed(listed, at);
            }
        }
        assert(every =~= drained@.dom());
    }
}

/// The keys of the first entries.
pub open spec fn listed_before(listed: Seq<(Seq<u8>, ())>, count: int) -> Set<Seq<u8>> {
    Set::new(
        |key: Seq<u8>| exists|place: int| 0 <= place < count && #[trigger] listed[place].0 == key,
    )
}

/// A rising sequence with one more number in its place.
pub open spec fn with_number(sorted: Seq<u32>, number: u32) -> Seq<u32>
    decreases sorted.len(),
{
    if sorted.len() == 0 || sorted.last() < number {
        sorted.push(number)
    } else if sorted.last() == number {
        sorted
    } else {
        with_number(sorted.drop_last(), number).push(sorted.last())
    }
}

/// Numbers in rising order, each once.
pub open spec fn sorted_distinct(numbers: Seq<u32>) -> Seq<u32>
    decreases numbers.len(),
{
    if numbers.len() == 0 {
        Seq::empty()
    } else {
        with_number(sorted_distinct(numbers.drop_last()), numbers.last())
    }
}

/// Whether numbers rise strictly.
pub open spec fn numbers_rise(numbers: Seq<u32>) -> bool {
    forall|i: int, j: int| 0 <= i < j < numbers.len() ==> numbers[i] < numbers[j]
}

proof fn lemma_with_number(sorted: Seq<u32>, number: u32)
    requires
        numbers_rise(sorted),
    ensures
        numbers_rise(with_number(sorted, number)),
        forall|other: u32| #[trigger]
            with_number(sorted, number).contains(other) <==> (sorted.contains(other) || other
                == number),
    decreases sorted.len(),
{
    let result = with_number(sorted, number);
    if sorted.len() == 0 || sorted.last() < number {
        assert(result[sorted.len() as int] == number);
        assert forall|other: u32| result.contains(other) <==> (sorted.contains(other) || other
            == number) by {
            if sorted.contains(other) {
                let at = choose|at: int| 0 <= at < sorted.len() && sorted[at] == other;
                assert(result[at] == other);
            }
        }
    } else if sorted.last() == number {
        assert(sorted[sorted.len() - 1] == number);
    } else {
        let shorter = sorted.drop_last();
        let inner = with_number(shorter, number);
        lemma_with_number(shorter, number);
        assert forall|i: int, j: int| 0 <= i < j < result.len() implies result[i] < result[j] by {
            if j == inner.len() {
                assert(inner.contains(inner[i]));
                if inner[i] != number {
                    assert(shorter.contains(inner[i]));
                    let at = choose|at: int| 0 <= at < shorter.len() && shorter[at] == inner[i];
                    assert(sorted[at] < sorted.last());
                }
            }
        }
        assert forall|other: u32| result.contains(other) <==> (sorted.contains(other) || other
            == number) by {
            if result.contains(other) {
                let at = choose|at: int| 0 <= at < result.len() && result[at] == other;
                if at < inner.len() {
                    assert(inner.contains(other));
                    if other != number {
                        let from = choose|from: int| 0 <= from < shorter.len() && shorter[from] == other;
                        assert(sorted[from] == other);
                    }
                } else {
                    assert(sorted[sorted.len() - 1] == other);
                }
            }
            if sorted.contains(other) {
                let at = choose|at: int| 0 <= at < sorted.len() && sorted[at] == other;
                if at < shorter.len() {
                    assert(shorter[at] == other);
                    assert(inner.contains(other));
                    let to = choose|to: int| 0 <= to < inner.len() && inner[to] == other;
                    assert(result[to] == other);
                } else {
                    assert(result[inner.len() as int] == other);
                }
            }
            if other == number {
                assert(inner.contains(other));
                let to = choose|to: int| 0 <= to < inner.len() && inner[to] == other;
                assert(result[to] == other);
            }
        }
    }
}

/// The block numbers of a term rise, and they are the numbers that it was given.
pub proof fn block_numbers_rise(numbers: Seq<u32>)
    ensures
        numbers_rise(sorted_distinct(numbers)),
        forall|number: u32| #[trigger]
            sorted_distinct(numbers).contains(number) <==> numbers.contains(number),
    decreases numbers.len(),
{
    if numbers.len() > 0 {
        let shorter = numbers.drop_last();
        block_numbers_rise(shorter);
        lemma_with_number(sorted_distinct(shorter), numbers.last());
        assert forall|number: u32| sorted_distinct(numbers).contains(number) <==> numbers.contains(
            number,
        ) by {
            if shorter.contains(number) {
                let at = choose|at: int| 0 <= at < shorter.len() && shorter[at] == number;
                assert(numbers[at] == number);
            }
            if numbers.contains(number) {
                let at = choose|at: int| 0 <= at < numbers.len() && numbers[at] == number;
                if at < shorter.len() {
                    assert(shorter[at] == number);
                }
            }
            assert(numbers[numbers.len() - 1] == numbers.last());
        }
    }
}

fn insert_number(sorted: &mut Vec<u32>, number: u32)
    requires
        numbers_rise(old(sorted)@),
    ensures
        final(sorted)@ == with_number(old(sorted)@, number),
        numbers_rise(final(sorted)@),
{
    let ghost before = sorted@;
    let mut place: usize = sorted.len();
    proof {
        lemma_with_number(before, number);
        assert(before.take(place as int) =~= before);
        assert(before.skip(place as int) =~= Seq::<u32>::empty());
        assert(with_number(before, number) =~= with_number(before.take(place as int), number)
            + before.skip(place as int));
    }
    while place > 0 && sorted[place - 1] > number
        invariant
            place <= sorted@.len(),
            sorted@ == before,
            with_number(before, number) == with_number(before.take(place as int), number)
                + before.skip(place as int),
        decreases place,
    {
        proof {
            let head = before.take(place as int);
            assert(head.last() == before[place - 1]);
            assert(head.drop_last() =~= before.take(place - 1));
            assert(with_number(head, number) == with_number(head.drop_last(), number).push(
                head.last(),
            ));
            assert(with_number(head, number) + before.skip(place as int) =~= with_number(
                before.take(place - 1),
                number,
            ) + before.skip(place - 1));
        }
        place = place - 1;
    }
    let ghost head = before.take(place as int);
    if place > 0 && sorted[place - 1] == number {
        assert(head.last() == number);
        assert(head + before.skip(place as int) =~= before);
    } else {
        proof {
            if place > 0 {
                assert(head.last() == before[place - 1]);
            }
            assert(with_number(head, number) == head.push(number));
        }
        sorted.insert(place, number);
        assert(sorted@ =~= head.push(number) + before.skip(place as int));
    }
}

pub fn sort_distinct(numbers: &Vec<u32>) -> (sorted: Vec<u32>)
    ensures
        sorted@ == sorted_distinct(numbers@),
        numbers_rise(sorted@),
{
    let mut sorted: Vec<u32> = Vec::new();
    let mut index: usize = 0;
    assert(numbers@.take(0) =~= Seq::<u32>::empty());
    assert(sorted@ =~= sorted_distinct(numbers@.take(0)));
    while index < numbers.len()
        invariant
            index <= numbers@.len(),
            numbers_rise(sorted@),
            sorted@ == sorted_distinct(numbers@.take(index as int)),
        decreases numbers@.len() - index,
    {
        insert_number(&mut sorted, numbers[index]);
        assert(numbers@.take(index + 1).drop_last() =~= numbers@.take(index as int));
        index = index + 1;
    }
    assert(numbers@.take(index as int) =~= numbers@);
    sorted
}

/// Rising numbers as a first number and the steps to the next ones.
pub open spec fn steps(numbers: Seq<u32>) -> Seq<u8>
    decreases numbers.len(),
{
    if numbers.len() == 0 {
        Seq::empty()
    } else if numbers.len() == 1 {
        leb128(numbers[0] as nat)
    } else {
        steps(numbers.drop_last()) + leb128(
            (numbers.last() - numbers[numbers.len() - 2]) as nat,
        )
    }
}

/// One term of the index: its bytes, then the steps of its blocks.
pub open spec fn index_entry(term: Seq<u8>, blocks: Seq<u32>) -> Seq<u8> {
    let sorted = sorted_distinct(blocks);
    counted(term) + leb128(sorted.len()) + steps(sorted)
}

/// The terms of the index, one behind the other.
pub open spec fn index_bytes(listed: Seq<(Seq<u8>, Vec<u32>)>) -> Seq<u8>
    decreases listed.len(),
{
    if listed.len() == 0 {
        Seq::empty()
    } else {
        index_bytes(listed.drop_last()) + index_entry(listed.last().0, listed.last().1@)
    }
}

fn push_steps(output: &mut Vec<u8>, numbers: &Vec<u32>)
    requires
        numbers_rise(numbers@),
    ensures
        final(output)@ == old(output)@ + leb128(numbers@.len()) + steps(numbers@),
{
    assert(numbers.len() == numbers@.len());
    write_varint(numbers.len() as u64, output);
    let ghost header = output@;
    let mut index: usize = 0;
    assert(numbers@.take(0) =~= Seq::<u32>::empty());
    assert(output@ =~= header + steps(numbers@.take(0)));
    while index < numbers.len()
        invariant
            index <= numbers@.len(),
            numbers_rise(numbers@),
            output@ == header + steps(numbers@.take(index as int)),
        decreases numbers@.len() - index,
    {
        let step = if index == 0 {
            numbers[index]
        } else {
            assert(numbers@[index - 1] < numbers@[index as int]);
            numbers[index] - numbers[index - 1]
        };
        write_varint(step as u64, output);
        proof {
            let longer = numbers@.take(index + 1);
            assert(longer.drop_last() =~= numbers@.take(index as int));
            assert(output@ =~= header + steps(longer));
        }
        index = index + 1;
    }
    assert(numbers@.take(index as int) =~= numbers@);
}

/// Writes the index: terms in byte order, each with its blocks.
pub fn encode_term_index(term_blocks: &ByteMap<Vec<u32>>) -> (encoded: Vec<u8>)
    ensures
        encoded@ == index_bytes(term_blocks.listed()),
        rising(term_blocks.listed()),
{
    let entries = term_blocks.entries();
    let ghost listed = term_blocks.listed();
    let mut encoded: Vec<u8> = Vec::new();
    let mut index: usize = 0;
    assert(listed.take(0) =~= Seq::<(Seq<u8>, Vec<u32>)>::empty());
    assert(encoded@ =~= index_bytes(listed.take(0)));
    while index < entries.len()
        invariant
            index <= entries@.len(),
            entry_views(entries@) == listed,
            encoded@ == index_bytes(listed.take(index as int)),
        decreases entries@.len() - index,
    {
        let ghost before = encoded@;
        let blocks = sort_distinct(&entries[index].1);
        push_counted(&mut encoded, entries[index].0.as_slice());
        push_steps(&mut encoded, &blocks);
        proof {
            let longer = listed.take(index + 1);
            assert(longer.drop_last() =~= listed.take(index as int));
            assert(longer.last() == listed[index as int]);
            assert(encoded@ =~= before + index_entry(
                listed[index as int].0,
                listed[index as int].1@,
            ));
        }
        index = index + 1;
    }
    assert(listed.take(index as int) =~= listed);
    encoded
}

} // verus!
