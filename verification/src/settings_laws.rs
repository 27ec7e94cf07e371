//! What flags and settings come to.

use vstd::bytes::spec_u64_to_le_bytes;
use vstd::prelude::*;

use crate::bench_settings::{tier_cache_conflict, TierCacheSettings};
use crate::compression_bench::{compression_conflict, CompressionPlan};
use crate::load_requests::header_length;
use crate::query_settings::{
    first_of, pack_query_flag, pack_query_plan, server_conflict, split_pair, PackQueryPlan,
    ServerPlan,
};
use crate::signal_settings::{kept_block, signal_flag, signal_plan, SignalPlan};
use crate::sizes_laws::numbers_read_back;
use crate::structural_settings::{structural_conflict, structural_flag, StructuralChoice};
use crate::text::{decimal, lowercase, white_space};
use crate::text_laws::{decimals_read_back, framed_texts_are_trimmed};
use crate::wire::fields_read_back;
use crate::wire_layout_laws::u64_at;

verus! {

proof fn lemma_first(front: Seq<char>, wanted: char, back: Seq<char>)
    requires
        !front.contains(wanted),
    ensures
        first_of(front + seq![wanted] + back, wanted) == front.len(),
    decreases front.len(),
{
    let text = front + seq![wanted] + back;
    if front.len() == 0 {
        assert(text[0] == wanted);
    } else {
        let rest = front.drop_first();
        assert(text[0] == front[0]);
        assert(front.contains(front[0]));
        assert(!rest.contains(wanted)) by {
            if rest.contains(wanted) {
                let i = choose|i: int| 0 <= i < rest.len() && rest[i] == wanted;
                assert(front[i + 1] == wanted);
            }
        }
        lemma_first(rest, wanted, back);
        assert(text.drop_first() =~= rest + seq![wanted] + back);
    }
}

proof fn lemma_absent(text: Seq<char>, wanted: char)
    requires
        !text.contains(wanted),
    ensures
        first_of(text, wanted) == text.len(),
    decreases text.len(),
{
    if text.len() > 0 {
        let rest = text.drop_first();
        assert(text.contains(text[0]));
        assert(!rest.contains(wanted)) by {
            if rest.contains(wanted) {
                let i = choose|i: int| 0 <= i < rest.len() && rest[i] == wanted;
                assert(text[i + 1] == wanted);
            }
        }
        lemma_absent(rest, wanted);
    }
}

/// A pair is split at its first sign of equality: the name holds none, the value may;
/// a text without one is no pair.
pub proof fn pairs_split_at_the_first_sign(name: Seq<char>, value: Seq<char>)
    requires
        !name.contains('='),
    ensures
        split_pair(name + seq!['='] + value) == Some((name, value)),
        split_pair(name) is None,
{
    lemma_first(name, '=', value);
    lemma_absent(name, '=');
    let text = name + seq!['='] + value;
    assert(text.take(name.len() as int) =~= name);
    assert(text.skip(name.len() as int + 1) =~= value);
}

/// A header that gives the length of a body is read back, in whatever case its name is
/// written.
pub proof fn length_headers_read_back(name: Seq<char>, length: nat)
    requires
        lowercase(name) == "content-length"@,
        length <= usize::MAX,
    ensures
        header_length(name + seq![':', ' '] + decimal(length)) == Ok::<Option<nat>, Seq<char>>(
            Some(length),
        ),
{
    reveal_strlit("content-length");
    assert(!name.contains(':')) by {
        if name.contains(':') {
            let i = choose|i: int| 0 <= i < name.len() && name[i] == ':';
            let word = "content-length"@;
            assert(word.len() == name.len()) by {
                assert(lowercase(name).len() == name.len());
            }
            assert(lowercase(name)[i] == ':' && word[i] == ':');
            assert(word[0] == 'c');
            assert(word[1] == 'o');
            assert(word[2] == 'n');
            assert(word[3] == 't');
            assert(word[4] == 'e');
            assert(word[5] == 'n');
            assert(word[6] == 't');
            assert(word[7] == '-');
            assert(word[8] == 'l');
            assert(word[9] == 'e');
            assert(word[10] == 'n');
            assert(word[11] == 'g');
            assert(word[12] == 't');
            assert(word[13] == 'h');
            assert(i == 0 || i == 1 || i == 2 || i == 3 || i == 4 || i == 5 || i == 6 || i == 7 || i
                == 8 || i == 9 || i == 10 || i == 11 || i == 12 || i == 13);
        }
    }
    let digits = decimal(length);
    let header = name + seq![':', ' '] + digits;
    assert(header =~= name + seq![':'] + (seq![' '] + digits));
    lemma_first(name, ':', seq![' '] + digits);
    assert(header.take(name.len() as int) =~= name);
    assert(header.skip(name.len() as int + 1) =~= seq![' '] + digits + Seq::<char>::empty());
    decimals_read_back(length, length);
    lemma_digits_are_dark(length);
    framed_texts_are_trimmed(seq![' '], digits, Seq::empty());
    numbers_read_back(length, usize::MAX as nat);
}

proof fn lemma_digits_are_dark(value: nat)
    ensures
        decimal(value).len() > 0,
        !white_space(decimal(value)[0]),
        !white_space(decimal(value).last()),
    decreases value,
{
    if value >= 10 {
        lemma_digits_are_dark(value / 10);
    }
}

/// Whether a server can be run: its limits and times are not zero, it is either open
/// on purpose or guarded, it keeps its objects where it is guarded, and its partitions
/// can be numbered.
pub open spec fn can_be_run(plan: ServerPlan) -> bool {
    &&& plan.max_query_limit > 0
    &&& plan.flush_timeout_seconds > 0
    &&& plan.query_timeout_seconds > 0
    &&& plan.native_auth_timeout_seconds > 0
    &&& plan.retention_seconds > 0 ==> plan.retention_compaction_interval_seconds > 0
    &&& plan.insecure_development_mode != plan.has_auth_token_file
    &&& plan.has_auth_token_file ==> plan.has_object_store
    &&& 1 <= plan.tenant_partitions < 65_536
}

/// A plan of the server is accepted exactly where it can be run.
pub proof fn runnable_servers_are_accepted(plan: ServerPlan)
    ensures
        server_conflict(plan) is None <==> can_be_run(plan),
{
}

/// A choice is accepted exactly where nothing of it is zero and collation stands
/// alone.
pub proof fn structural_choices_go_together(choice: StructuralChoice)
    ensures
        structural_conflict(choice) is None <==> choice.limit_bytes > 0 && choice.block_bytes > 0
            && choice.workers > 0 && (choice.locality_routing ==> !choice.realtime_dictionary
            && !choice.persistent_query_index),
{
}

/// Settings of the cache benchmark are accepted exactly where nothing is zero, the
/// ranges fit a chunk and a chunk fits an object.
pub proof fn ranges_fit_their_chunk(settings: TierCacheSettings)
    ensures
        tier_cache_conflict(settings) is None <==> settings.object_bytes > 0
            && settings.chunk_bytes > 0 && settings.range_bytes > 0 && settings.ranges > 0
            && settings.iterations > 0 && settings.range_bytes * settings.ranges
            <= settings.chunk_bytes <= settings.object_bytes,
{
}

proof fn lemma_query_words()
    ensures
        "--term"@.len() == 6,
        "--field"@.len() == 7 && "--field"@[2] == 'f',
        "--contains"@.len() == 10,
        "--regex"@.len() == 7 && "--regex"@[2] == 'r',
        "--emit-results"@.len() == 14,
        "--oldest"@.len() == 8,
        "--limit"@.len() == 7 && "--limit"@[2] == 'l',
        "--iterations"@.len() == 12,
        "--cold-iterations"@.len() == 17,
        "--workers"@.len() == 9,
{
    reveal_strlit("--term");
    reveal_strlit("--field");
    reveal_strlit("--contains");
    reveal_strlit("--regex");
    reveal_strlit("--emit-results");
    reveal_strlit("--oldest");
    reveal_strlit("--limit");
    reveal_strlit("--iterations");
    reveal_strlit("--cold-iterations");
    reveal_strlit("--workers");
}

/// The flags of a pack query with a text add it to what they name and change nothing
/// else.
pub proof fn query_texts_are_taken_over(plan: PackQueryPlan, text: Seq<char>)
    ensures
        pack_query_flag(plan, "--term"@, Some(text)) == Ok::<PackQueryPlan, Seq<char>>(
            PackQueryPlan { terms: plan.terms.push(text), ..plan },
        ),
        pack_query_flag(plan, "--contains"@, Some(text)) == Ok::<PackQueryPlan, Seq<char>>(
            PackQueryPlan { contains: plan.contains.push(text), ..plan },
        ),
        pack_query_flag(plan, "--regex"@, Some(text)) == Ok::<PackQueryPlan, Seq<char>>(
            PackQueryPlan { regexes: plan.regexes.push(text), ..plan },
        ),
        pack_query_flag(plan, "--emit-results"@, Some(text)) == Ok::<PackQueryPlan, Seq<char>>(
            PackQueryPlan { emit_results: Some(text), ..plan },
        ),
        pack_query_flag(plan, "--oldest"@, Some(text)) == Ok::<PackQueryPlan, Seq<char>>(
            PackQueryPlan { newest_first: false, ..plan },
        ),
{
    lemma_query_words();
}

/// The flags of a pack query with a number set what they name to it and change nothing
/// else; a field is given as a pair.
pub proof fn query_numbers_are_taken_over(
    plan: PackQueryPlan,
    number: usize,
    name: Seq<char>,
    value: Seq<char>,
)
    requires
        !name.contains('='),
    ensures
        pack_query_flag(plan, "--limit"@, Some(decimal(number as nat))) == Ok::<
            PackQueryPlan,
            Seq<char>,
        >(PackQueryPlan { limit: number as nat, ..plan }),
        pack_query_flag(plan, "--iterations"@, Some(decimal(number as nat))) == Ok::<
            PackQueryPlan,
            Seq<char>,
        >(PackQueryPlan { iterations: number as nat, ..plan }),
        pack_query_flag(plan, "--cold-iterations"@, Some(decimal(number as nat))) == Ok::<
            PackQueryPlan,
            Seq<char>,
        >(PackQueryPlan { cold_iterations: number as nat, ..plan }),
        pack_query_flag(plan, "--workers"@, Some(decimal(number as nat))) == Ok::<
            PackQueryPlan,
            Seq<char>,
        >(PackQueryPlan { workers: number as nat, ..plan }),
        pack_query_flag(plan, "--field"@, Some(name + seq!['='] + value)) == Ok::<
            PackQueryPlan,
            Seq<char>,
        >(PackQueryPlan { fields: plan.fields.push((name, value)), ..plan }),
        pack_query_flag(plan, "--field"@, Some(name)) is Err,
{
    lemma_query_words();
    numbers_read_back(number as nat, usize::MAX as nat);
    pairs_split_at_the_first_sign(name, value);
}

/// A query plan that is accepted asks for something: no limit, count or number of
/// workers is zero.
pub proof fn accepted_queries_ask_for_something(arguments: Seq<Seq<char>>)
    requires
        pack_query_plan(arguments) is Ok,
    ensures
        pack_query_plan(arguments)->Ok_0.limit > 0,
        pack_query_plan(arguments)->Ok_0.iterations > 0,
        pack_query_plan(arguments)->Ok_0.workers > 0,
{
}

proof fn lemma_structural_words()
    ensures
        "--report"@.len() == 8,
        "--output-dir"@.len() == 12 && "--output-dir"@[2] == 'o',
        "--limit-bytes"@.len() == 13 && "--limit-bytes"@[2] == 'l',
        "--block-bytes"@.len() == 13 && "--block-bytes"@[2] == 'b',
        "--workers"@.len() == 9,
        "--locality"@.len() == 10,
        "--dictionary"@.len() == 12 && "--dictionary"@[2] == 'd',
        "--index"@.len() == 7,
        "enabled"@.len() == 7,
        "disabled"@.len() == 8 && "disabled"@[0] == 'd',
        "realtime"@.len() == 8 && "realtime"@[0] == 'r',
        "persistent"@.len() == 10,
{
    reveal_strlit("--report");
    reveal_strlit("--output-dir");
    reveal_strlit("--limit-bytes");
    reveal_strlit("--block-bytes");
    reveal_strlit("--workers");
    reveal_strlit("--locality");
    reveal_strlit("--dictionary");
    reveal_strlit("--index");
    reveal_strlit("enabled");
    reveal_strlit("disabled");
    reveal_strlit("realtime");
    reveal_strlit("persistent");
}

/// The flags of the structural benchmark set what they name and change nothing else.
pub proof fn structural_flags_are_taken_over(
    choice: StructuralChoice,
    path: Seq<char>,
    number: usize,
)
    ensures
        structural_flag(choice, "--report"@, Some(path)) == Ok::<StructuralChoice, Seq<char>>(
            StructuralChoice { report_path: Some(path), ..choice },
        ),
        structural_flag(choice, "--output-dir"@, Some(path)) == Ok::<StructuralChoice, Seq<char>>(
            StructuralChoice { output_dir: Some(path), ..choice },
        ),
        structural_flag(choice, "--workers"@, Some(decimal(number as nat))) == Ok::<
            StructuralChoice,
            Seq<char>,
        >(StructuralChoice { workers: number as nat, ..choice }),
        structural_flag(choice, "--locality"@, Some("enabled"@)) == Ok::<
            StructuralChoice,
            Seq<char>,
        >(StructuralChoice { locality_routing: true, ..choice }),
        structural_flag(choice, "--locality"@, Some("disabled"@)) == Ok::<
            StructuralChoice,
            Seq<char>,
        >(StructuralChoice { locality_routing: false, ..choice }),
        structural_flag(choice, "--dictionary"@, Some("realtime"@)) == Ok::<
            StructuralChoice,
            Seq<char>,
        >(StructuralChoice { realtime_dictionary: true, ..choice }),
        structural_flag(choice, "--dictionary"@, Some("disabled"@)) == Ok::<
            StructuralChoice,
            Seq<char>,
        >(StructuralChoice { realtime_dictionary: false, ..choice }),
        structural_flag(choice, "--index"@, Some("persistent"@)) == Ok::<
            StructuralChoice,
            Seq<char>,
        >(StructuralChoice { persistent_query_index: true, ..choice }),
        structural_flag(choice, "--index"@, Some("disabled"@)) == Ok::<
            StructuralChoice,
            Seq<char>,
        >(StructuralChoice { persistent_query_index: false, ..choice }),
{
    lemma_structural_words();
    numbers_read_back(number as nat, usize::MAX as nat);
}

proof fn lemma_signal_words()
    ensures
        "--records"@.len() == 9,
        "--iterations"@.len() == 12,
        "--clickhouse-dir"@.len() == 16,
        "--durable-output-dir"@.len() == 20,
        "--server-data-directory"@.len() == 23,
        "--server-shards"@.len() == 15,
{
    reveal_strlit("--records");
    reveal_strlit("--iterations");
    reveal_strlit("--clickhouse-dir");
    reveal_strlit("--durable-output-dir");
    reveal_strlit("--server-data-directory");
    reveal_strlit("--server-shards");
}

/// The flags of the signal benchmark set what they name and change nothing else.
pub proof fn signal_flags_are_taken_over(plan: SignalPlan, path: Seq<char>, number: usize)
    ensures
        signal_flag(plan, "--records"@, Some(decimal(number as nat))) == Ok::<
            SignalPlan,
            Seq<char>,
        >(SignalPlan { records: number as nat, ..plan }),
        signal_flag(plan, "--iterations"@, Some(decimal(number as nat))) == Ok::<
            SignalPlan,
            Seq<char>,
        >(SignalPlan { iterations: number as nat, ..plan }),
        signal_flag(plan, "--server-shards"@, Some(decimal(number as nat))) == Ok::<
            SignalPlan,
            Seq<char>,
        >(SignalPlan { server_shards: number as nat, ..plan }),
        signal_flag(plan, "--clickhouse-dir"@, Some(path)) == Ok::<SignalPlan, Seq<char>>(
            SignalPlan { clickhouse_dir: Some(path), ..plan },
        ),
        signal_flag(plan, "--durable-output-dir"@, Some(path)) == Ok::<SignalPlan, Seq<char>>(
            SignalPlan { durable_output_dir: Some(path), ..plan },
        ),
        signal_flag(plan, "--server-data-directory"@, Some(path)) == Ok::<SignalPlan, Seq<char>>(
            SignalPlan { server_data_directory: Some(path), ..plan },
        ),
{
    lemma_signal_words();
    numbers_read_back(number as nat, usize::MAX as nat);
}

/// A plan of the signal benchmark that is accepted has records for every series, asks
/// for something and numbers its shards in a byte.
pub proof fn accepted_signal_plans_are_sound(arguments: Seq<Seq<char>>)
    requires
        signal_plan(arguments) is Ok,
    ensures
        signal_plan(arguments)->Ok_0.records >= 128,
        signal_plan(arguments)->Ok_0.iterations > 0,
        1 <= signal_plan(arguments)->Ok_0.server_shards <= 256,
{
}

/// A compression plan is accepted exactly where nothing of it is zero and input from
/// the terminal, and only that, is spooled.
pub proof fn only_terminal_input_is_spooled(plan: CompressionPlan)
    ensures
        compression_conflict(plan) is None <==> plan.limit_bytes > 0 && plan.block_bytes > 0 && (
        plan.input == "-"@ <==> plan.stdin_spool_path is Some),
{
}

/// A block and its filter are found behind their lengths.
pub proof fn kept_blocks_read_back(payload: Seq<u8>, filter: Seq<u8>)
    requires
        payload.len() <= u64::MAX,
        filter.len() <= u64::MAX,
    ensures
        ({
            let kept = kept_block(payload, filter);
            let middle = 16 + payload.len() as int;
            &&& u64_at(kept, 0) == payload.len()
            &&& u64_at(kept, 8) == filter.len()
            &&& kept.subrange(16, middle) == payload
            &&& kept.skip(middle) == filter
        }),
{
    fields_read_back();
    let kept = kept_block(payload, filter);
    let first = spec_u64_to_le_bytes(payload.len() as u64);
    let second = spec_u64_to_le_bytes(filter.len() as u64);
    assert(first.len() == 8 && second.len() == 8);
    assert(kept.subrange(0, 8) =~= first);
    assert(kept.subrange(8, 16) =~= second);
    assert(kept.subrange(16, 16 + payload.len() as int) =~= payload);
    assert(kept.skip(16 + payload.len() as int) =~= filter);
}

} // verus!
