//! Checks of written blocks and the report of the structural benchmark.

use vstd::prelude::*;

use crate::block_results::BlockResult;
use crate::checksum::{fnv1a64, fnv1a64_of};
use crate::dictionary::DictionaryId;
use crate::docker_blocks::saturated;
use crate::structural_bench::{RealtimeDictionaryStats, StructuralTotals};
use crate::structural_settings::StructuralSettings;
use crate::text::{
    decimal, hex_fixed, push_decimal, push_hex, push_zero_padded, zero_padded,
};

verus! {

/// Whether blocks are numbered from zero.
pub open spec fn contiguous(entries: Seq<BlockResult>) -> bool {
    forall|i: int| 0 <= i < entries.len() ==> (#[trigger] entries[i]).ordinal == i
}

/// Whether each block starts where the one before ended.
pub open spec fn adjoining(entries: Seq<BlockResult>) -> bool {
    forall|i: int|
        0 < i < entries.len() ==> (#[trigger] entries[i]).source_offset == saturated(
            entries[i - 1].source_offset + entries[i - 1].input_bytes,
        )
}

/// Checks that the blocks of a manifest cover their source.
pub fn check_manifest(entries: &Vec<BlockResult>) -> (checked: Result<(), String>)
    ensures
        match checked {
            Ok(_) => contiguous(entries@) && adjoining(entries@),
            Err(complaint) => if !contiguous(entries@) {
                complaint@ == "manifest block ordinals are not contiguous"@
            } else {
                !adjoining(entries@) && complaint@
                    == "manifest source spans contain a gap or overlap"@
            },
        },
{
    let mut next: usize = 0;
    while next < entries.len()
        invariant
            next <= entries@.len(),
            forall|i: int| 0 <= i < next ==> (#[trigger] entries@[i]).ordinal == i,
        decreases entries@.len() - next,
    {
        if entries[next].ordinal != next as u64 {
            assert(entries@[next as int].ordinal != next);
            return Err("manifest block ordinals are not contiguous".to_owned());
        }
        next = next + 1;
    }
    let mut place: usize = 1;
    while place < entries.len()
        invariant
            1 <= place,
            contiguous(entries@),
            forall|i: int|
                0 < i < place && i < entries@.len() ==> (#[trigger] entries@[i]).source_offset
                    == saturated(entries@[i - 1].source_offset + entries@[i - 1].input_bytes),
        decreases entries@.len() - place,
    {
        let before = entries[place - 1];
        let end = if before.source_offset > u64::MAX - before.input_bytes {
            u64::MAX
        } else {
            before.source_offset + before.input_bytes
        };
        if entries[place].source_offset != end {
            assert(entries@[place as int].source_offset != saturated(
                entries@[place - 1].source_offset + entries@[place - 1].input_bytes,
            ));
            return Err("manifest source spans contain a gap or overlap".to_owned());
        }
        place = place + 1;
    }
    Ok(())
}

/// Checks that a block of the query index is the one in the manifest.
pub fn check_query_block(entries: &Vec<BlockResult>, block_ordinal: u32, record_count: u32) -> (checked:
    Result<(), String>)
    ensures
        match checked {
            Ok(_) => block_ordinal < entries@.len() && entries@[block_ordinal as int].ordinal
                == block_ordinal && entries@[block_ordinal as int].record_count == record_count,
            Err(complaint) => if block_ordinal >= entries@.len() {
                complaint@ == "query index references an unknown manifest block"@
            } else {
                (entries@[block_ordinal as int].ordinal != block_ordinal
                    || entries@[block_ordinal as int].record_count != record_count) && complaint@
                    == "query index block metadata does not match the manifest"@
            },
        },
{
    if block_ordinal as u64 >= entries.len() as u64 {
        return Err("query index references an unknown manifest block".to_owned());
    }
    let entry = entries[block_ordinal as usize];
    if entry.ordinal != block_ordinal as u64 || entry.record_count != record_count as u64 {
        return Err("query index block metadata does not match the manifest".to_owned());
    }
    Ok(())
}

/// Checks the stored bytes of a block.
pub fn check_payload(entry: &BlockResult, payload: &[u8]) -> (checked: Result<(), String>)
    ensures
        match checked {
            Ok(_) => fnv1a64_of(payload@) == entry.payload_checksum,
            Err(complaint) => fnv1a64_of(payload@) != entry.payload_checksum && complaint@
                == "payload checksum mismatch for block "@ + decimal(entry.ordinal as nat),
        },
{
    if fnv1a64(payload) != entry.payload_checksum {
        let mut complaint = "payload checksum mismatch for block ".to_owned();
        push_decimal(&mut complaint, entry.ordinal as u128);
        return Err(complaint);
    }
    Ok(())
}

/// Whether a block is decoded when the output is verified: the first, the
/// middle and the last one are.
pub open spec fn sampled(entries: Seq<BlockResult>, ordinal: u64) -> bool {
    entries.len() > 0 && (ordinal == entries[0].ordinal || ordinal == entries[entries.len() as int
        / 2].ordinal || ordinal == entries.last().ordinal)
}

/// Tells whether a block is decoded when the output is verified.
pub fn is_sampled(entries: &Vec<BlockResult>, ordinal: u64) -> (chosen: bool)
    ensures
        chosen == sampled(entries@, ordinal),
{
    entries.len() > 0 && (ordinal == entries[0].ordinal || ordinal == entries[entries.len()
        / 2].ordinal || ordinal == entries[entries.len() - 1].ordinal)
}

/// Checks the number of records that a sampled block was decoded to.
pub fn check_decoded(entry: &BlockResult, decoded: u64) -> (checked: Result<(), String>)
    ensures
        match checked {
            Ok(_) => decoded == entry.record_count,
            Err(complaint) => decoded != entry.record_count && complaint@ == "sampled block "@
                + decimal(entry.ordinal as nat) + " decoded "@ + decimal(decoded as nat)
                + " records, expected "@ + decimal(entry.record_count as nat),
        },
{
    if decoded != entry.record_count {
        let mut complaint = "sampled block ".to_owned();
        push_decimal(&mut complaint, entry.ordinal as u128);
        complaint.append(" decoded ");
        push_decimal(&mut complaint, decoded as u128);
        complaint.append(" records, expected ");
        push_decimal(&mut complaint, entry.record_count as u128);
        return Err(complaint);
    }
    Ok(())
}

/// The file of a dictionary.
pub fn dictionary_file_name(dictionary_id: DictionaryId) -> (name: String)
    ensures
        name@ == hex_fixed(dictionary_id.0 as nat, 32) + ".zdict"@,
{
    let mut name = String::new();
    push_hex(&mut name, dictionary_id.get(), 32);
    name.append(".zdict");
    assert(name@ =~= hex_fixed(dictionary_id.0 as nat, 32) + ".zdict"@);
    name
}

/// The file of the blocks of a worker.
pub fn pack_file_name(worker: u64) -> (name: String)
    ensures
        name@ == "worker-"@ + zero_padded(worker as nat, 2) + ".pack"@,
{
    let mut name = "worker-".to_owned();
    push_zero_padded(&mut name, worker as u128, 2);
    name.append(".pack");
    name
}

/// Figures of the report that are quotients: ratios, percentages, rates and
/// seconds, as they are shown.
#[derive(Debug, PartialEq, Eq)]
pub struct StructuralFigures {
    /// Ratio and percentage of the bytes before compression.
    pub structural: StorageFigures,
    /// Ratio and percentage of the embedded indexes.
    pub embedded_index: StorageFigures,
    /// Ratio and percentage of the bytes after compression.
    pub stored: StorageFigures,
    /// Ratio and percentage of everything durable.
    pub durable: StorageFigures,
    /// Rate of compression.
    pub compression_mib: String,
    /// Rate of ingestion.
    pub ingest_mib: String,
    /// Seconds of ingestion.
    pub elapsed_seconds: String,
    /// Records left where they were, by records looked at.
    pub fallback_rate: String,
    /// Seconds of training.
    pub training_seconds: String,
    /// Seconds of evaluation.
    pub evaluation_seconds: String,
    /// Seconds of verification.
    pub verification_seconds: String,
}

/// A ratio and a percentage.
#[derive(Debug, PartialEq, Eq)]
pub struct StorageFigures {
    /// Source bytes by stored bytes.
    pub ratio: String,
    /// Stored bytes by source bytes.
    pub retained: String,
}

/// One line of a report.
pub open spec fn report_line(label: Seq<char>, value: Seq<char>) -> Seq<char> {
    label + value + "\n"@
}

/// Bytes with their ratio.
pub open spec fn storage_text(stored: u64, figures: StorageFigures) -> Seq<char> {
    decimal(stored as nat) + " bytes ("@ + figures.ratio@ + "x, "@ + figures.retained@
        + "% of source)"@
}

/// Whether something is on.
pub open spec fn enabled_text(enabled: bool) -> Seq<char> {
    if enabled {
        "enabled"@
    } else {
        "disabled"@
    }
}

/// Numbers with slashes between them.
pub open spec fn slashed(numbers: Seq<u64>) -> Seq<char>
    decreases numbers.len(),
{
    if numbers.len() == 0 {
        Seq::empty()
    } else if numbers.len() == 1 {
        decimal(numbers[0] as nat)
    } else {
        slashed(numbers.drop_last()) + "/"@ + decimal(numbers.last() as nat)
    }
}

/// Appends a line.
pub fn push_line(report: &mut String, label: &str, value: &str)
    ensures
        final(report)@ == old(report)@ + report_line(label@, value@),
{
    report.append(label);
    report.append(value);
    report.append("\n");
    assert(report@ =~= old(report)@ + report_line(label@, value@));
}

/// Appends a line with a number.
pub fn push_number(report: &mut String, label: &str, value: u64)
    ensures
        final(report)@ == old(report)@ + report_line(label@, decimal(value as nat)),
{
    report.append(label);
    push_decimal(report, value as u128);
    report.append("\n");
    assert(report@ =~= old(report)@ + report_line(label@, decimal(value as nat)));
}

/// Appends a line with numbers.
pub fn push_numbers(report: &mut String, label: &str, values: &Vec<u64>)
    ensures
        final(report)@ == old(report)@ + report_line(label@, slashed(values@)),
{
    report.append(label);
    let ghost head = report@;
    let mut next: usize = 0;
    assert(head + slashed(values@.take(0)) =~= head);
    while next < values.len()
        invariant
            next <= values@.len(),
            report@ == head + slashed(values@.take(next as int)),
        decreases values@.len() - next,
    {
        let ghost before = report@;
        if next > 0 {
            report.append("/");
        }
        push_decimal(report, values[next] as u128);
        proof {
            let longer = values@.take(next + 1);
            assert(longer.drop_last() =~= values@.take(next as int));
            assert(longer.last() == values@[next as int]);
            assert(report@ =~= head + slashed(longer));
        }
        next = next + 1;
    }
    assert(values@.take(next as int) =~= values@);
    report.append("\n");
    assert(report@ =~= old(report)@ + report_line(label@, slashed(values@)));
}

fn push_storage(report: &mut String, label: &str, stored: u64, figures: &StorageFigures)
    ensures
        final(report)@ == old(report)@ + report_line(label@, storage_text(stored, *figures)),
{
    report.append(label);
    push_decimal(report, stored as u128);
    report.append(" bytes (");
    report.append(figures.ratio.as_str());
    report.append("x, ");
    report.append(figures.retained.as_str());
    report.append("% of source)");
    report.append("\n");
    assert(report@ =~= old(report)@ + report_line(label@, storage_text(stored, *figures)));
}

/// The lines on the source.
#[verifier::opaque]
pub open spec fn source_lines(settings: StructuralSettings, totals: StructuralTotals) -> Seq<char> {
    "shard-telemetry Docker JSON structural benchmark\n"@ + report_line("input: "@, settings.input@)
        + (match settings.output_dir {
        Some(directory) => report_line("output directory: "@, directory@),
        None => Seq::empty(),
    }) + report_line("complete-line input bytes: "@, decimal(totals.input_bytes as nat))
        + report_line(
        "leading partial bytes discarded: "@,
        decimal(totals.leading_discarded_bytes as nat),
    ) + report_line("source bytes: "@, decimal(totals.source_bytes as nat)) + report_line(
        "rejected complete records: "@,
        decimal(totals.rejected_records as nat),
    ) + report_line("rejected complete-record bytes: "@, decimal(totals.rejected_bytes as nat))
        + report_line("block target: "@, decimal(settings.block_bytes as nat)) + report_line(
        "workers: "@,
        decimal(totals.workers as nat),
    ) + report_line("locality routing: "@, enabled_text(settings.locality_routing)) + report_line(
        "real-time dictionary: "@,
        enabled_text(settings.realtime_dictionary),
    ) + report_line("persistent query index: "@, enabled_text(settings.persistent_query_index))
        + report_line("blocks: "@, decimal(totals.blocks as nat)) + report_line(
        "records: "@,
        decimal(totals.records as nat),
    )
}

/// Everything durable.
pub open spec fn durable_bytes(totals: StructuralTotals) -> u64 {
    saturated(
        saturated(
            saturated(totals.structural_stored_bytes + totals.manifest_bytes)
                + totals.query_index_bytes,
        ) + totals.dictionary_bytes,
    )
}

/// The lines on storage.
#[verifier::opaque]
pub open spec fn storage_lines(totals: StructuralTotals, figures: StructuralFigures) -> Seq<char> {
    report_line(
        "structural payload before zstd: "@,
        storage_text(totals.structural_bytes, figures.structural),
    ) + report_line(
        "embedded compression-derived index before zstd: "@,
        storage_text(totals.embedded_index_bytes, figures.embedded_index),
    ) + report_line(
        "structural payload zstd-1: "@,
        storage_text(totals.structural_stored_bytes, figures.stored),
    ) + report_line("manifest bytes: "@, decimal(totals.manifest_bytes as nat)) + report_line(
        "persistent term/field index bytes: "@,
        decimal(totals.query_index_bytes as nat),
    ) + report_line("compression dictionary bytes: "@, decimal(totals.dictionary_bytes as nat))
        + report_line(
        "durable pack plus manifest: "@,
        storage_text(durable_bytes(totals), figures.durable),
    ) + report_line(
        "structural zstd-1 CPU-time throughput: "@,
        figures.compression_mib@ + " MiB/s"@,
    ) + report_line(
        "durable end-to-end ingest throughput: "@,
        figures.ingest_mib@ + " MiB/s"@,
    ) + report_line("ingest elapsed seconds: "@, figures.elapsed_seconds@)
}

/// The lines on collation.
#[verifier::opaque]
pub open spec fn locality_lines(totals: StructuralTotals, figures: StructuralFigures) -> Seq<char> {
    let locality = totals.locality;
    report_line(
        "temperature placement distribution collated/base: "@,
        slashed(seq![locality.collated_placements, locality.base_placements]),
    ) + report_line("locality fallback rate: "@, figures.fallback_rate@) + report_line(
        "blocks scored/split/sub-blocks: "@,
        slashed(seq![locality.blocks_scored, locality.blocks_split, locality.subblocks_created]),
    ) + report_line(
        "split explorations suppressed: "@,
        decimal(locality.split_explorations_suppressed as nat),
    ) + report_line(
        "reassigned records/bytes: "@,
        slashed(seq![locality.records_reassigned, locality.bytes_reassigned]),
    ) + report_line(
        "active compression shards: "@,
        decimal(locality.active_compression_shards as nat),
    ) + report_line(
        "maximum internal variance Q8: "@,
        decimal(locality.max_internal_variance_q8 as nat),
    ) + report_line(
        "bytes-handoff membership bytes: "@,
        decimal(locality.handoff_membership_bytes as nat),
    ) + report_line(
        "collator state bytes across workers: "@,
        decimal(locality.allocated_state_bytes as nat),
    )
}

/// Blocks that training saw and did not drop.
pub open spec fn sampled_blocks(stats: RealtimeDictionaryStats) -> u64 {
    if stats.observed_blocks < stats.dropped_blocks {
        0
    } else {
        (stats.observed_blocks - stats.dropped_blocks) as u64
    }
}

/// The lines on dictionaries.
#[verifier::opaque]
pub open spec fn dictionary_lines(stats: RealtimeDictionaryStats, figures: StructuralFigures) -> Seq<char> {
    report_line(
        "dictionary observed/sampled/dropped blocks: "@,
        slashed(seq![stats.observed_blocks, sampled_blocks(stats), stats.dropped_blocks]),
    ) + report_line(
        "dictionary placement budget rejections/max tracked: "@,
        slashed(seq![stats.placement_budget_rejections, stats.max_tracked_placements]),
    ) + report_line(
        "dictionary observed/sampled bytes: "@,
        slashed(seq![stats.observed_bytes, stats.sampled_bytes]),
    ) + report_line(
        "dictionary training runs/failures/rejections/publications: "@,
        slashed(
            seq![
                stats.training_runs,
                stats.training_failures,
                stats.candidates_rejected,
                stats.dictionaries_published,
            ],
        ),
    ) + report_line(
        "dictionary holdout baseline/candidate bytes: "@,
        slashed(seq![stats.holdout_baseline_bytes, stats.holdout_candidate_bytes]),
    ) + report_line(
        "dictionary training/evaluation seconds: "@,
        figures.training_seconds@ + "/"@ + figures.evaluation_seconds@,
    )
}

/// The notes at the end.
#[verifier::opaque]
pub open spec fn structural_notes() -> Seq<char> {
    "note: elapsed time includes deterministic line-boundary discovery, Docker JSON parsing, structural encoding, zstd-1 compression, pack writes, sync_all, manifest creation, and manifest sync.\n"@
        + "note: post-ingest checksum and sampled decode verification is intentionally excluded from ingest throughput.\n"@
        + "note: Docker JSON is normalized into body, RFC3339 timestamp, and docker.stream before structural encoding; the durable representation retains those typed semantics but not JSON wrapper bytes.\n"@
}

/// The whole report.
pub open spec fn structural_report(
    settings: StructuralSettings,
    totals: StructuralTotals,
    figures: StructuralFigures,
) -> Seq<char> {
    source_lines(settings, totals) + storage_lines(totals, figures) + locality_lines(
        totals,
        figures,
    ) + (if settings.realtime_dictionary {
        dictionary_lines(totals.dictionary_stats, figures)
    } else {
        Seq::empty()
    }) + (if totals.verified_blocks > 0 {
        report_line(
            "post-ingest verification: "@,
            decimal(totals.verified_blocks as nat)
                + " block checksums plus first/middle/last decode in "@
                + figures.verification_seconds@ + " seconds"@,
        )
    } else {
        Seq::empty()
    }) + structural_notes()
}

fn enabled_word(enabled: bool) -> (word: &'static str)
    ensures
        word@ == enabled_text(enabled),
{
    if enabled {
        "enabled"
    } else {
        "disabled"
    }
}

fn render_source(settings: &StructuralSettings, totals: &StructuralTotals) -> (lines: String)
    ensures
        lines@ == source_lines(*settings, *totals),
{
    reveal(source_lines);
    let mut report = "shard-telemetry Docker JSON structural benchmark\n".to_owned();
    push_line(&mut report, "input: ", settings.input.as_str());
    match &settings.output_dir {
        Some(directory) => {
            push_line(&mut report, "output directory: ", directory.as_str());
        },
        None => {
            assert(report@ + Seq::<char>::empty() =~= report@);
        },
    }
    push_number(&mut report, "complete-line input bytes: ", totals.input_bytes);
    push_number(&mut report, "leading partial bytes discarded: ", totals.leading_discarded_bytes);
    push_number(&mut report, "source bytes: ", totals.source_bytes);
    push_number(&mut report, "rejected complete records: ", totals.rejected_records);
    push_number(&mut report, "rejected complete-record bytes: ", totals.rejected_bytes);
    push_number(&mut report, "block target: ", settings.block_bytes as u64);
    push_number(&mut report, "workers: ", totals.workers);
    push_line(&mut report, "locality routing: ", enabled_word(settings.locality_routing));
    push_line(&mut report, "real-time dictionary: ", enabled_word(settings.realtime_dictionary));
    push_line(
        &mut report,
        "persistent query index: ",
        enabled_word(settings.persistent_query_index),
    );
    push_number(&mut report, "blocks: ", totals.blocks);
    push_number(&mut report, "records: ", totals.records);
    report
}

fn total(a: u64, b: u64) -> (sum: u64)
    ensures
        sum == saturated(a + b),
{
    if a > u64::MAX - b {
        u64::MAX
    } else {
        a + b
    }
}

fn push_rate(report: &mut String, label: &str, rate: &str)
    ensures
        final(report)@ == old(report)@ + report_line(label@, rate@ + " MiB/s"@),
{
    report.append(label);
    report.append(rate);
    report.append(" MiB/s");
    report.append("\n");
    assert(report@ =~= old(report)@ + report_line(label@, rate@ + " MiB/s"@));
}

fn render_storage(totals: &StructuralTotals, figures: &StructuralFigures) -> (lines: String)
    ensures
        lines@ == storage_lines(*totals, *figures),
{
    reveal(storage_lines);
    let mut report = String::new();
    push_storage(
        &mut report,
        "structural payload before zstd: ",
        totals.structural_bytes,
        &figures.structural,
    );
    assert(report@ =~= report_line(
        "structural payload before zstd: "@,
        storage_text(totals.structural_bytes, figures.structural),
    ));
    push_storage(
        &mut report,
        "embedded compression-derived index before zstd: ",
        totals.embedded_index_bytes,
        &figures.embedded_index,
    );
    push_storage(
        &mut report,
        "structural payload zstd-1: ",
        totals.structural_stored_bytes,
        &figures.stored,
    );
    push_number(&mut report, "manifest bytes: ", totals.manifest_bytes);
    push_number(&mut report, "persistent term/field index bytes: ", totals.query_index_bytes);
    push_number(&mut report, "compression dictionary bytes: ", totals.dictionary_bytes);
    let durable = total(
        total(
            total(totals.structural_stored_bytes, totals.manifest_bytes),
            totals.query_index_bytes,
        ),
        totals.dictionary_bytes,
    );
    push_storage(&mut report, "durable pack plus manifest: ", durable, &figures.durable);
    push_rate(
        &mut report,
        "structural zstd-1 CPU-time throughput: ",
        figures.compression_mib.as_str(),
    );
    push_rate(
        &mut report,
        "durable end-to-end ingest throughput: ",
        figures.ingest_mib.as_str(),
    );
    push_line(&mut report, "ingest elapsed seconds: ", figures.elapsed_seconds.as_str());
    report
}

fn pair(first: u64, second: u64) -> (numbers: Vec<u64>)
    ensures
        numbers@ == seq![first, second],
{
    let mut numbers: Vec<u64> = Vec::new();
    numbers.push(first);
    numbers.push(second);
    assert(numbers@ =~= seq![first, second]);
    numbers
}

fn triple(first: u64, second: u64, third: u64) -> (numbers: Vec<u64>)
    ensures
        numbers@ == seq![first, second, third],
{
    let mut numbers = pair(first, second);
    numbers.push(third);
    assert(numbers@ =~= seq![first, second, third]);
    numbers
}

fn render_locality(totals: &StructuralTotals, figures: &StructuralFigures) -> (lines: String)
    ensures
        lines@ == locality_lines(*totals, *figures),
{
    reveal(locality_lines);
    let locality = totals.locality;
    let mut report = String::new();
    push_numbers(
        &mut report,
        "temperature placement distribution collated/base: ",
        &pair(locality.collated_placements, locality.base_placements),
    );
    assert(report@ =~= report_line(
        "temperature placement distribution collated/base: "@,
        slashed(seq![locality.collated_placements, locality.base_placements]),
    ));
    push_line(&mut report, "locality fallback rate: ", figures.fallback_rate.as_str());
    push_numbers(
        &mut report,
        "blocks scored/split/sub-blocks: ",
        &triple(locality.blocks_scored, locality.blocks_split, locality.subblocks_created),
    );
    push_number(
        &mut report,
        "split explorations suppressed: ",
        locality.split_explorations_suppressed,
    );
    push_numbers(
        &mut report,
        "reassigned records/bytes: ",
        &pair(locality.records_reassigned, locality.bytes_reassigned),
    );
    push_number(&mut report, "active compression shards: ", locality.active_compression_shards);
    push_number(&mut report, "maximum internal variance Q8: ", locality.max_internal_variance_q8);
    push_number(&mut report, "bytes-handoff membership bytes: ", locality.handoff_membership_bytes);
    push_number(
        &mut report,
        "collator state bytes across workers: ",
        locality.allocated_state_bytes,
    );
    report
}

fn render_dictionary(stats: &RealtimeDictionaryStats, figures: &StructuralFigures) -> (lines: String)
    ensures
        lines@ == dictionary_lines(*stats, *figures),
{
    reveal(dictionary_lines);
    let mut report = String::new();
    let kept = if stats.observed_blocks < stats.dropped_blocks {
        0
    } else {
        stats.observed_blocks - stats.dropped_blocks
    };
    push_numbers(
        &mut report,
        "dictionary observed/sampled/dropped blocks: ",
        &triple(stats.observed_blocks, kept, stats.dropped_blocks),
    );
    assert(report@ =~= report_line(
        "dictionary observed/sampled/dropped blocks: "@,
        slashed(seq![stats.observed_blocks, sampled_blocks(*stats), stats.dropped_blocks]),
    ));
    push_numbers(
        &mut report,
        "dictionary placement budget rejections/max tracked: ",
        &pair(stats.placement_budget_rejections, stats.max_tracked_placements),
    );
    push_numbers(
        &mut report,
        "dictionary observed/sampled bytes: ",
        &pair(stats.observed_bytes, stats.sampled_bytes),
    );
    let mut runs = triple(stats.training_runs, stats.training_failures, stats.candidates_rejected);
    runs.push(stats.dictionaries_published);
    assert(runs@ =~= seq![
        stats.training_runs,
        stats.training_failures,
        stats.candidates_rejected,
        stats.dictionaries_published,
    ]);
    push_numbers(
        &mut report,
        "dictionary training runs/failures/rejections/publications: ",
        &runs,
    );
    push_numbers(
        &mut report,
        "dictionary holdout baseline/candidate bytes: ",
        &pair(stats.holdout_baseline_bytes, stats.holdout_candidate_bytes),
    );
    let mut seconds = figures.training_seconds.clone();
    seconds.append("/");
    seconds.append(figures.evaluation_seconds.as_str());
    push_line(&mut report, "dictionary training/evaluation seconds: ", seconds.as_str());
    report
}

/// Appends the notes at the end.
fn push_notes(report: &mut String)
    ensures
        final(report)@ == old(report)@ + structural_notes(),
{
    reveal(structural_notes);
    report.append(
        "note: elapsed time includes deterministic line-boundary discovery, Docker JSON parsing, structural encoding, zstd-1 compression, pack writes, sync_all, manifest creation, and manifest sync.\n",
    );
    report.append(
        "note: post-ingest checksum and sampled decode verification is intentionally excluded from ingest throughput.\n",
    );
    report.append(
        "note: Docker JSON is normalized into body, RFC3339 timestamp, and docker.stream before structural encoding; the durable representation retains those typed semantics but not JSON wrapper bytes.\n",
    );
    assert(report@ =~= old(report)@ + structural_notes());
}

/// The report of the structural benchmark.
pub fn render_report(
    settings: &StructuralSettings,
    totals: &StructuralTotals,
    figures: &StructuralFigures,
) -> (report: String)
    ensures
        report@ == structural_report(*settings, *totals, *figures),
{
    let mut report = render_source(settings, totals);
    let storage = render_storage(totals, figures);
    report.append(storage.as_str());
    let locality = render_locality(totals, figures);
    report.append(locality.as_str());
    if settings.realtime_dictionary {
        let dictionary = render_dictionary(&totals.dictionary_stats, figures);
        report.append(dictionary.as_str());
    } else {
        assert(report@ + Seq::<char>::empty() =~= report@);
    }
    if totals.verified_blocks > 0 {
        let mut value = String::new();
        push_decimal(&mut value, totals.verified_blocks as u128);
        assert(value@ =~= decimal(totals.verified_blocks as nat));
        value.append(" block checksums plus first/middle/last decode in ");
        value.append(figures.verification_seconds.as_str());
        value.append(" seconds");
        push_line(&mut report, "post-ingest verification: ", value.as_str());
    } else {
        assert(report@ + Seq::<char>::empty() =~= report@);
    }
    push_notes(&mut report);
    report
}

} // verus!
