//! How tallies add up, and which count a flag sets.

use vstd::prelude::*;

use crate::block_results::BlockResult;
use crate::count_flags::{count_flag, count_flags, flag_place, FlagWords};
use crate::docker_blocks::saturated;
use crate::interleave::{interleave_arguments, interleave_plan, InterleavePlan};
use crate::native_query::given_labels;
use crate::sizes_laws::numbers_read_back;
use crate::structural_bench::{
    merged_locality, passed_marks, with_block, with_blocks, CompressionLocalityStats,
    StructuralTotals,
};
use crate::text::decimal;
use crate::workloads::matches_before;

verus! {

/// The statistics of a worker that did nothing.
pub open spec fn idle_statistics() -> CompressionLocalityStats {
    CompressionLocalityStats {
        observations: 0,
        blocks_scored: 0,
        blocks_split: 0,
        subblocks_created: 0,
        split_explorations_suppressed: 0,
        base_placements: 0,
        collated_placements: 0,
        records_reassigned: 0,
        bytes_reassigned: 0,
        active_compression_shards: 0,
        max_internal_variance_q8: 0,
        handoff_membership_bytes: 0,
        allocated_state_bytes: 0,
    }
}

/// It does not matter which worker is merged into which, nor in which order three
/// are; a worker that did nothing changes nothing; and the largest variance is that
/// of one of the two, not their sum.
pub proof fn merged_statistics_add_up(
    a: CompressionLocalityStats,
    b: CompressionLocalityStats,
    c: CompressionLocalityStats,
)
    ensures
        merged_locality(a, b) == merged_locality(b, a),
        merged_locality(merged_locality(a, b), c) == merged_locality(a, merged_locality(b, c)),
        merged_locality(a, idle_statistics()) == a,
        merged_locality(a, a).max_internal_variance_q8 == a.max_internal_variance_q8,
        a.observations <= u64::MAX / 2 ==> merged_locality(a, a).observations == 2 * a.observations,
        a.blocks_split <= u64::MAX / 2 ==> merged_locality(a, a).blocks_split == 2 * a.blocks_split,
        a.allocated_state_bytes <= u64::MAX / 2 ==> merged_locality(a, a).allocated_state_bytes == 2
            * a.allocated_state_bytes,
{
}

/// Totals of blocks are the same however the blocks are taken together, and a block
/// adds its own numbers, as far as they can be told.
pub proof fn block_totals_add_up(
    totals: StructuralTotals,
    blocks: Seq<BlockResult>,
    more: Seq<BlockResult>,
    block: BlockResult,
)
    ensures
        with_blocks(totals, Seq::empty()) == totals,
        with_blocks(totals, seq![block]) == with_block(totals, block),
        with_blocks(totals, blocks + more) == with_blocks(with_blocks(totals, blocks), more),
        with_block(totals, block).records == saturated(totals.records + block.record_count),
        with_block(totals, block).source_bytes == saturated(
            totals.source_bytes + block.source_bytes,
        ),
        with_block(totals, block).structural_stored_bytes == saturated(
            totals.structural_stored_bytes + block.structural_stored_bytes,
        ),
        with_block(totals, block).input_bytes == totals.input_bytes,
        with_block(totals, block).blocks == totals.blocks,
    decreases more.len(),
{
    assert(seq![block].drop_last() =~= Seq::<BlockResult>::empty());
    assert(seq![block].last() == block);
    assert(with_blocks(totals, seq![block].drop_last()) == totals);
    if more.len() == 0 {
        assert(blocks + more =~= blocks);
    } else {
        block_totals_add_up(totals, blocks, more.drop_last(), block);
        assert((blocks + more).drop_last() =~= blocks + more.drop_last());
    }
}

/// The marks that are passed are those beyond the bytes before and not beyond the
/// bytes after, in rising order.
pub proof fn marks_lie_on_the_way(previous: u64, bytes: u64, mark: u64)
    requires
        previous + bytes <= u64::MAX,
    ensures
        passed_marks(previous, bytes).contains(mark) <==> previous < mark * 0x4000_0000
            && mark * 0x4000_0000 <= previous + bytes,
        forall|i: int, j: int|
            0 <= i < j < passed_marks(previous, bytes).len() ==> (#[trigger] passed_marks(
                previous,
                bytes,
            )[i]) < (#[trigger] passed_marks(previous, bytes)[j]),
{
    let marks = passed_marks(previous, bytes);
    let first = previous as int / 1_073_741_824 + 1;
    let last = (previous + bytes) / 1_073_741_824;
    assert(marks.contains(mark) <==> first <= mark <= last) by {
        if marks.contains(mark) {
            let i = choose|i: int| 0 <= i < marks.len() && marks[i] == mark;
        }
        if first <= mark <= last {
            assert(marks[mark - first] == mark);
        }
    }
}

/// Each round of a step holds as many places as remainders are wanted.
pub proof fn rounds_have_their_matches(limit: nat, step: nat, remainders: nat)
    requires
        0 < step,
        remainders <= step,
    ensures
        matches_before(0, step, remainders) == 0,
        limit <= step ==> matches_before(limit, step, remainders) == if limit < remainders {
            limit
        } else {
            remainders
        },
        matches_before(limit + step, step, remainders) == matches_before(limit, step, remainders)
            + remainders,
    decreases limit,
{
    lemma_first_round(limit, step, remainders);
    if limit == 0 {
        lemma_first_round(step, step, remainders);
    } else {
        let before = (limit - 1) as nat;
        rounds_have_their_matches(before, step, remainders);
        assert((before + step) % step == before % step) by {
            vstd::arithmetic::div_mod::lemma_mod_add_multiples_vanish(before as int, step as int);
        }
        assert((limit + step - 1) as nat == before + step);
    }
}

proof fn lemma_first_round(limit: nat, step: nat, remainders: nat)
    requires
        0 < step,
        remainders <= step,
    ensures
        limit <= step ==> matches_before(limit, step, remainders) == if limit < remainders {
            limit
        } else {
            remainders
        },
    decreases limit,
{
    if 0 < limit <= step {
        let before = (limit - 1) as nat;
        lemma_first_round(before, step, remainders);
        vstd::arithmetic::div_mod::lemma_small_mod(before, step);
    }
}

/// Of labels with one key the last counts, and no key is there that was not given.
pub proof fn last_labels_count(labels: Seq<(String, String)>, key: Seq<char>)
    ensures
        given_labels(labels).contains_key(key) <==> exists|i: int|
            0 <= i < labels.len() && (#[trigger] labels[i]).0@ == key,
        given_labels(labels).contains_key(key) ==> exists|i: int|
            0 <= i < labels.len() && (#[trigger] labels[i]).0@ == key && given_labels(labels)[key]
                == labels[i].1@ && forall|j: int|
                i < j < labels.len() ==> (#[trigger] labels[j]).0@ != key,
    decreases labels.len(),
{
    if labels.len() > 0 {
        let last = labels.len() - 1;
        let earlier = labels.drop_last();
        last_labels_count(earlier, key);
        assert(forall|i: int| 0 <= i < last ==> earlier[i] == #[trigger] labels[i]);
        if labels[last].0@ == key {
            assert(given_labels(labels)[key] == labels[last].1@);
        } else {
            if given_labels(earlier).contains_key(key) {
                let i = choose|i: int|
                    0 <= i < earlier.len() && (#[trigger] earlier[i]).0@ == key && given_labels(
                        earlier,
                    )[key] == earlier[i].1@ && forall|j: int|
                        i < j < earlier.len() ==> (#[trigger] earlier[j]).0@ != key;
                assert(labels[i].0@ == key);
                assert forall|j: int| i < j < labels.len() implies (#[trigger] labels[j]).0@
                    != key by {
                    if j < last {
                        assert(earlier[j].0@ != key);
                    }
                }
            }
            if exists|i: int| 0 <= i < labels.len() && (#[trigger] labels[i]).0@ == key {
                let i = choose|i: int| 0 <= i < labels.len() && (#[trigger] labels[i]).0@ == key;
                assert(earlier[i].0@ == key);
            }
        }
    }
}

proof fn lemma_place(flags: Seq<FlagWords>, place: int)
    requires
        0 <= place < flags.len(),
        forall|i: int| 0 <= i < place ==> (#[trigger] flags[i]).name != flags[place].name,
    ensures
        flag_place(flags, flags[place].name) == place,
    decreases place,
{
    if place > 0 {
        assert(flags[0].name != flags[place].name);
        let later = flags.drop_first();
        assert(later[place - 1] == flags[place]);
        assert forall|i: int| 0 <= i < place - 1 implies (#[trigger] later[i]).name != later[place
            - 1].name by {
            assert(later[i] == flags[i + 1]);
        }
        lemma_place(later, place - 1);
    }
}

/// A flag with a number sets its own count to that number and leaves the others; a
/// number beyond the limit of the flag is refused, and so is a flag without a value.
pub proof fn flags_set_their_count(
    flags: Seq<FlagWords>,
    counts: Seq<u64>,
    unknown: Seq<char>,
    place: int,
    number: u64,
)
    requires
        0 <= place < flags.len(),
        counts.len() == flags.len(),
        forall|i: int| 0 <= i < place ==> (#[trigger] flags[i]).name != flags[place].name,
    ensures
        ({
            let set = count_flags(
                flags,
                counts,
                unknown,
                seq![flags[place].name, decimal(number as nat)],
                0,
            );
            &&& number <= flags[place].limit ==> (set matches Ok(next) && next.len() == counts.len()
                && next[place] == number && forall|i: int|
                0 <= i < counts.len() && i != place ==> #[trigger] next[i] == counts[i])
            &&& number > flags[place].limit ==> set is Err
            &&& count_flags(flags, counts, unknown, seq![flags[place].name], 0) == Err::<
                Seq<u64>,
                Seq<char>,
            >(flags[place].missing)
            &&& count_flags(flags, counts, unknown, Seq::empty(), 0) == Ok::<Seq<u64>, Seq<char>>(
                counts,
            )
        }),
{
    lemma_place(flags, place);
    numbers_read_back(number as nat, flags[place].limit as nat);
    let name = flags[place].name;
    let both = seq![name, decimal(number as nat)];
    assert(both[0] == name && both[1] == decimal(number as nat) && both.len() == 2);
    let first = count_flag(flags, counts, unknown, name, Some(decimal(number as nat)));
    if number <= flags[place].limit {
        assert(first == Ok::<Seq<u64>, Seq<char>>(counts.update(place, number)));
        assert(count_flags(flags, counts.update(place, number), unknown, both, 2) == Ok::<
            Seq<u64>,
            Seq<char>,
        >(counts.update(place, number)));
    }
    let alone = seq![name];
    assert(alone[0] == name && alone.len() == 1);
}

/// A flag that is not known is refused.
pub proof fn unknown_flags_are_refused(
    flags: Seq<FlagWords>,
    counts: Seq<u64>,
    unknown: Seq<char>,
    name: Seq<char>,
    value: Option<Seq<char>>,
)
    requires
        forall|i: int| 0 <= i < flags.len() ==> (#[trigger] flags[i]).name != name,
    ensures
        count_flag(flags, counts, unknown, name, value) == Err::<Seq<u64>, Seq<char>>(
            unknown + name,
        ),
{
    lemma_no_place(flags, name);
}

proof fn lemma_no_place(flags: Seq<FlagWords>, name: Seq<char>)
    requires
        forall|i: int| 0 <= i < flags.len() ==> (#[trigger] flags[i]).name != name,
    ensures
        flag_place(flags, name) == flags.len(),
    decreases flags.len(),
{
    if flags.len() > 0 {
        let later = flags.drop_first();
        assert(flags[0].name != name);
        assert forall|i: int| 0 <= i < later.len() implies (#[trigger] later[i]).name != name by {
            assert(later[i] == flags[i + 1]);
        }
        lemma_no_place(later, name);
    }
}

proof fn lemma_inputs(plan: InterleavePlan, arguments: Seq<Seq<char>>, position: int)
    requires
        0 <= position <= arguments.len(),
        forall|i: int| 0 <= i < arguments.len() ==> #[trigger] arguments[i] != "--limit-bytes"@,
    ensures
        interleave_arguments(plan, arguments, position) == Ok::<InterleavePlan, Seq<char>>(
            InterleavePlan { inputs: plan.inputs + arguments.skip(position), ..plan },
        ),
    decreases arguments.len() - position,
{
    if position == arguments.len() {
        assert(plan.inputs + arguments.skip(position) =~= plan.inputs);
    } else {
        let next = InterleavePlan { inputs: plan.inputs.push(arguments[position]), ..plan };
        lemma_inputs(next, arguments, position + 1);
        assert(next.inputs + arguments.skip(position + 1) =~= plan.inputs + arguments.skip(
            position,
        ));
    }
}

/// The first argument is the output and the others, in order, are the inputs, of
/// which there are at least two.
pub proof fn inputs_follow_the_output(arguments: Seq<Seq<char>>)
    requires
        arguments.len() > 0,
        forall|i: int| 0 <= i < arguments.len() ==> #[trigger] arguments[i] != "--limit-bytes"@,
    ensures
        arguments.len() < 3 <==> interleave_plan(arguments) is Err,
        interleave_plan(arguments) matches Ok(plan) ==> plan.output == arguments[0] && plan.inputs
            == arguments.skip(1) && plan.limit_bytes == u64::MAX,
{
    let start = InterleavePlan {
        output: arguments[0],
        inputs: Seq::empty(),
        limit_bytes: u64::MAX as nat,
    };
    lemma_inputs(start, arguments, 1);
    assert(start.inputs + arguments.skip(1) =~= arguments.skip(1));
}

/// A limit is taken from behind its flag, wherever the flag stands before inputs.
pub proof fn limits_stand_behind_their_flag(
    plan: InterleavePlan,
    inputs: Seq<Seq<char>>,
    limit: u64,
)
    requires
        forall|i: int| 0 <= i < inputs.len() ==> #[trigger] inputs[i] != "--limit-bytes"@,
    ensures
        interleave_arguments(plan, seq!["--limit-bytes"@, decimal(limit as nat)], 0) == Ok::<
            InterleavePlan,
            Seq<char>,
        >(InterleavePlan { limit_bytes: limit as nat, ..plan }),
        interleave_arguments(plan, inputs, 0) == Ok::<InterleavePlan, Seq<char>>(
            InterleavePlan { inputs: plan.inputs + inputs, ..plan },
        ),
        interleave_arguments(plan, seq!["--limit-bytes"@], 0) is Err,
{
    numbers_read_back(limit as nat, u64::MAX as nat);
    let both = seq!["--limit-bytes"@, decimal(limit as nat)];
    assert(both[0] == "--limit-bytes"@ && both[1] == decimal(limit as nat) && both.len() == 2);
    let next = InterleavePlan { limit_bytes: limit as nat, ..plan };
    assert(interleave_arguments(next, both, 2) == Ok::<InterleavePlan, Seq<char>>(next));
    lemma_inputs(plan, inputs, 0);
    assert(inputs.skip(0) =~= inputs);
    let alone = seq!["--limit-bytes"@];
    assert(alone[0] == "--limit-bytes"@ && alone.len() == 1);
}

} // verus!
