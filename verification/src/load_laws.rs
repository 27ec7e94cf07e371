//! How loads deal entries out and read their times.

use vstd::prelude::*;
use vstd::utf8::encode_utf8;

use crate::docker_time::{formula_counts_civil_days, timestamp_of};
use crate::load_requests::{dealt, load_time};

verus! {

/// Every entry is dealt to the partition that its place leaves, and to no other;
/// the entries of a partition rise.
pub proof fn entries_are_dealt_in_turn(count: nat, partitions: nat, partition: nat)
    requires
        partition < partitions,
        count <= usize::MAX,
    ensures
        forall|place: usize|
            place < count ==> (#[trigger] dealt(count, partitions, partition).contains(place)
                <==> place as int % partitions as int == partition),
        forall|i: int|
            0 <= i < dealt(count, partitions, partition).len() ==> (#[trigger] dealt(
                count,
                partitions,
                partition,
            )[i]) < count,
        forall|i: int, j: int|
            0 <= i < j < dealt(count, partitions, partition).len() ==> (#[trigger] dealt(
                count,
                partitions,
                partition,
            )[i]) < (#[trigger] dealt(count, partitions, partition)[j]),
    decreases count,
{
    if count > 0 {
        let last = (count - 1) as nat;
        let before = dealt(last, partitions, partition);
        let after = dealt(count, partitions, partition);
        entries_are_dealt_in_turn(last, partitions, partition);
        assert forall|place: usize| place < count implies (#[trigger] after.contains(place)
            <==> place as int % partitions as int == partition) by {
            if before.contains(place) {
                let i = choose|i: int| 0 <= i < before.len() && before[i] == place;
                assert(after[i] == place);
                assert(before[i] < last);
            }
            if after.contains(place) {
                let i = choose|i: int| 0 <= i < after.len() && after[i] == place;
                if i < before.len() {
                    assert(before[i] == place);
                }
            }
            if after.len() > before.len() {
                assert(after[before.len() as int] == last as usize);
            }
        }
    }
}

/// Where the reader of Docker timestamps takes a text, the reader of loads gives the
/// same time.
pub proof fn loads_read_docker_times(input: Seq<char>)
    requires
        timestamp_of(encode_utf8(input)) is Ok,
    ensures
        load_time(input) == Ok::<nat, Seq<char>>(timestamp_of(encode_utf8(input))->Ok_0),
{
    let bytes = encode_utf8(input);
    if let Some(time) = crate::docker_time::civil_fields(bytes) {
        formula_counts_civil_days(time.year as int, time.month as int, time.day as int);
    }
}

} // verus!
