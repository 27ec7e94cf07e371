//! What the report of the structural benchmark says.

use vstd::prelude::*;

use crate::docker_blocks::saturated;
use crate::structural_bench::StructuralTotals;
use crate::structural_report::{
    dictionary_lines, durable_bytes, locality_lines, report_line, slashed, source_lines,
    storage_lines, structural_notes, structural_report, StructuralFigures,
};
use crate::structural_settings::StructuralSettings;
use crate::text::decimal;

verus! {

/// Whether a report holds a line with a label and a value.
pub open spec fn has_line(report: Seq<char>, label: Seq<char>, value: Seq<char>) -> bool {
    exists|before: Seq<char>, after: Seq<char>|
        report == #[trigger] (before + (label + value + "\n"@) + after)
}

/// The word for something that is on or off.
pub open spec fn on_or_off(on: bool) -> Seq<char> {
    if on {
        "enabled"@
    } else {
        "disabled"@
    }
}

/// Two numbers with a slash between them.
pub open spec fn two(first: u64, second: u64) -> Seq<char> {
    decimal(first as nat) + "/"@ + decimal(second as nat)
}

/// The bytes of payload, manifest, query index and dictionaries, as far as they can be
/// told.
pub open spec fn everything_durable(totals: StructuralTotals) -> u64 {
    saturated(
        totals.structural_stored_bytes + totals.manifest_bytes + totals.query_index_bytes
            + totals.dictionary_bytes,
    )
}

proof fn lemma_last(front: Seq<char>, label: Seq<char>, value: Seq<char>)
    ensures
        has_line(front + report_line(label, value), label, value),
{
    let line = label + value + "\n"@;
    assert(front + report_line(label, value) =~= front + line + Seq::<char>::empty());
}

proof fn lemma_more(front: Seq<char>, back: Seq<char>)
    ensures
        forall|label: Seq<char>, value: Seq<char>|
            has_line(front, label, value) ==> #[trigger] has_line(front + back, label, value),
{
    assert forall|label: Seq<char>, value: Seq<char>| has_line(front, label, value)
        implies #[trigger] has_line(front + back, label, value) by {
        let line = label + value + "\n"@;
        let (before, after) = choose|before: Seq<char>, after: Seq<char>|
            front == #[trigger] (before + (label + value + "\n"@) + after);
        assert(front + back =~= before + line + (after + back));
    }
}

proof fn lemma_behind(front: Seq<char>, back: Seq<char>)
    ensures
        forall|label: Seq<char>, value: Seq<char>|
            has_line(back, label, value) ==> #[trigger] has_line(front + back, label, value),
{
    assert forall|label: Seq<char>, value: Seq<char>| has_line(back, label, value)
        implies #[trigger] has_line(front + back, label, value) by {
        let line = label + value + "\n"@;
        let (before, after) = choose|before: Seq<char>, after: Seq<char>|
            back == #[trigger] (before + (label + value + "\n"@) + after);
        assert(front + back =~= (front + before) + line + after);
    }
}

proof fn lemma_source(settings: StructuralSettings, totals: StructuralTotals)
    ensures
        has_line(source_lines(settings, totals), "input: "@, settings.input@),
        has_line(
            source_lines(settings, totals),
            "complete-line input bytes: "@,
            decimal(totals.input_bytes as nat),
        ),
        has_line(
            source_lines(settings, totals),
            "leading partial bytes discarded: "@,
            decimal(totals.leading_discarded_bytes as nat),
        ),
        has_line(
            source_lines(settings, totals),
            "source bytes: "@,
            decimal(totals.source_bytes as nat),
        ),
        has_line(
            source_lines(settings, totals),
            "rejected complete records: "@,
            decimal(totals.rejected_records as nat),
        ),
        has_line(
            source_lines(settings, totals),
            "rejected complete-record bytes: "@,
            decimal(totals.rejected_bytes as nat),
        ),
        has_line(
            source_lines(settings, totals),
            "block target: "@,
            decimal(settings.block_bytes as nat),
        ),
        has_line(source_lines(settings, totals), "workers: "@, decimal(totals.workers as nat)),
        has_line(
            source_lines(settings, totals),
            "locality routing: "@,
            on_or_off(settings.locality_routing),
        ),
        has_line(
            source_lines(settings, totals),
            "real-time dictionary: "@,
            on_or_off(settings.realtime_dictionary),
        ),
        has_line(
            source_lines(settings, totals),
            "persistent query index: "@,
            on_or_off(settings.persistent_query_index),
        ),
        has_line(source_lines(settings, totals), "blocks: "@, decimal(totals.blocks as nat)),
        has_line(source_lines(settings, totals), "records: "@, decimal(totals.records as nat)),
        settings.output_dir matches Some(directory) ==> has_line(
            source_lines(settings, totals),
            "output directory: "@,
            directory@,
        ),
{
    reveal(source_lines);
    let p0 = "shard-telemetry Docker JSON structural benchmark\n"@;
    let l1 = report_line("input: "@, settings.input@);
    let p1 = p0 + l1;
    lemma_last(p0, "input: "@, settings.input@);
    lemma_more(p0, l1);
    let part = match settings.output_dir {
        Some(directory) => report_line("output directory: "@, directory@),
        None => Seq::empty(),
    };
    let p2 = p1 + part;
    if let Some(directory) = settings.output_dir {
        lemma_last(p1, "output directory: "@, directory@);
    }
    lemma_more(p1, part);
    let l3 = report_line("complete-line input bytes: "@, decimal(totals.input_bytes as nat));
    let p3 = p2 + l3;
    lemma_last(p2, "complete-line input bytes: "@, decimal(totals.input_bytes as nat));
    lemma_more(p2, l3);
    let l4 = report_line(
        "leading partial bytes discarded: "@,
        decimal(totals.leading_discarded_bytes as nat),
    );
    let p4 = p3 + l4;
    lemma_last(
        p3,
        "leading partial bytes discarded: "@,
        decimal(totals.leading_discarded_bytes as nat),
    );
    lemma_more(p3, l4);
    let l5 = report_line("source bytes: "@, decimal(totals.source_bytes as nat));
    let p5 = p4 + l5;
    lemma_last(p4, "source bytes: "@, decimal(totals.source_bytes as nat));
    lemma_more(p4, l5);
    let l6 = report_line("rejected complete records: "@, decimal(totals.rejected_records as nat));
    let p6 = p5 + l6;
    lemma_last(p5, "rejected complete records: "@, decimal(totals.rejected_records as nat));
    lemma_more(p5, l6);
    let l7 = report_line(
        "rejected complete-record bytes: "@,
        decimal(totals.rejected_bytes as nat),
    );
    let p7 = p6 + l7;
    lemma_last(p6, "rejected complete-record bytes: "@, decimal(totals.rejected_bytes as nat));
    lemma_more(p6, l7);
    let l8 = report_line("block target: "@, decimal(settings.block_bytes as nat));
    let p8 = p7 + l8;
    lemma_last(p7, "block target: "@, decimal(settings.block_bytes as nat));
    lemma_more(p7, l8);
    let l9 = report_line("workers: "@, decimal(totals.workers as nat));
    let p9 = p8 + l9;
    lemma_last(p8, "workers: "@, decimal(totals.workers as nat));
    lemma_more(p8, l9);
    let l10 = report_line("locality routing: "@, on_or_off(settings.locality_routing));
    let p10 = p9 + l10;
    lemma_last(p9, "locality routing: "@, on_or_off(settings.locality_routing));
    lemma_more(p9, l10);
    let l11 = report_line("real-time dictionary: "@, on_or_off(settings.realtime_dictionary));
    let p11 = p10 + l11;
    lemma_last(p10, "real-time dictionary: "@, on_or_off(settings.realtime_dictionary));
    lemma_more(p10, l11);
    let l12 = report_line("persistent query index: "@, on_or_off(settings.persistent_query_index));
    let p12 = p11 + l12;
    lemma_last(p11, "persistent query index: "@, on_or_off(settings.persistent_query_index));
    lemma_more(p11, l12);
    let l13 = report_line("blocks: "@, decimal(totals.blocks as nat));
    let p13 = p12 + l13;
    lemma_last(p12, "blocks: "@, decimal(totals.blocks as nat));
    lemma_more(p12, l13);
    let l14 = report_line("records: "@, decimal(totals.records as nat));
    let p14 = p13 + l14;
    lemma_last(p13, "records: "@, decimal(totals.records as nat));
    lemma_more(p13, l14);
    assert(source_lines(settings, totals) == p14);
}

proof fn lemma_storage(totals: StructuralTotals, figures: StructuralFigures)
    ensures
        has_line(
            storage_lines(totals, figures),
            "structural payload before zstd: "@,
            decimal(totals.structural_bytes as nat) + " bytes ("@ + figures.structural.ratio@
                + "x, "@ + figures.structural.retained@ + "% of source)"@,
        ),
        has_line(
            storage_lines(totals, figures),
            "embedded compression-derived index before zstd: "@,
            decimal(totals.embedded_index_bytes as nat) + " bytes ("@
                + figures.embedded_index.ratio@ + "x, "@ + figures.embedded_index.retained@
                + "% of source)"@,
        ),
        has_line(
            storage_lines(totals, figures),
            "structural payload zstd-1: "@,
            decimal(totals.structural_stored_bytes as nat) + " bytes ("@ + figures.stored.ratio@
                + "x, "@ + figures.stored.retained@ + "% of source)"@,
        ),
        has_line(
            storage_lines(totals, figures),
            "manifest bytes: "@,
            decimal(totals.manifest_bytes as nat),
        ),
        has_line(
            storage_lines(totals, figures),
            "persistent term/field index bytes: "@,
            decimal(totals.query_index_bytes as nat),
        ),
        has_line(
            storage_lines(totals, figures),
            "compression dictionary bytes: "@,
            decimal(totals.dictionary_bytes as nat),
        ),
        has_line(
            storage_lines(totals, figures),
            "durable pack plus manifest: "@,
            decimal(everything_durable(totals) as nat) + " bytes ("@ + figures.durable.ratio@
                + "x, "@ + figures.durable.retained@ + "% of source)"@,
        ),
        has_line(
            storage_lines(totals, figures),
            "structural zstd-1 CPU-time throughput: "@,
            figures.compression_mib@ + " MiB/s"@,
        ),
        has_line(
            storage_lines(totals, figures),
            "durable end-to-end ingest throughput: "@,
            figures.ingest_mib@ + " MiB/s"@,
        ),
        has_line(
            storage_lines(totals, figures),
            "ingest elapsed seconds: "@,
            figures.elapsed_seconds@,
        ),
{
    reveal(storage_lines);
    lemma_last(
        Seq::empty(),
        "structural payload before zstd: "@,
        decimal(totals.structural_bytes as nat) + " bytes ("@ + figures.structural.ratio@ + "x, "@
            + figures.structural.retained@ + "% of source)"@,
    );
    let p0 = report_line(
        "structural payload before zstd: "@,
        decimal(totals.structural_bytes as nat) + " bytes ("@ + figures.structural.ratio@ + "x, "@
            + figures.structural.retained@ + "% of source)"@,
    );
    let l1 = report_line(
        "embedded compression-derived index before zstd: "@,
        decimal(totals.embedded_index_bytes as nat) + " bytes ("@ + figures.embedded_index.ratio@
            + "x, "@ + figures.embedded_index.retained@ + "% of source)"@,
    );
    let p1 = p0 + l1;
    lemma_last(
        p0,
        "embedded compression-derived index before zstd: "@,
        decimal(totals.embedded_index_bytes as nat) + " bytes ("@ + figures.embedded_index.ratio@
            + "x, "@ + figures.embedded_index.retained@ + "% of source)"@,
    );
    lemma_more(p0, l1);
    let l2 = report_line(
        "structural payload zstd-1: "@,
        decimal(totals.structural_stored_bytes as nat) + " bytes ("@ + figures.stored.ratio@
            + "x, "@ + figures.stored.retained@ + "% of source)"@,
    );
    let p2 = p1 + l2;
    lemma_last(
        p1,
        "structural payload zstd-1: "@,
        decimal(totals.structural_stored_bytes as nat) + " bytes ("@ + figures.stored.ratio@
            + "x, "@ + figures.stored.retained@ + "% of source)"@,
    );
    lemma_more(p1, l2);
    let l3 = report_line("manifest bytes: "@, decimal(totals.manifest_bytes as nat));
    let p3 = p2 + l3;
    lemma_last(p2, "manifest bytes: "@, decimal(totals.manifest_bytes as nat));
    lemma_more(p2, l3);
    let l4 = report_line(
        "persistent term/field index bytes: "@,
        decimal(totals.query_index_bytes as nat),
    );
    let p4 = p3 + l4;
    lemma_last(
        p3,
        "persistent term/field index bytes: "@,
        decimal(totals.query_index_bytes as nat),
    );
    lemma_more(p3, l4);
    let l5 = report_line(
        "compression dictionary bytes: "@,
        decimal(totals.dictionary_bytes as nat),
    );
    let p5 = p4 + l5;
    lemma_last(p4, "compression dictionary bytes: "@, decimal(totals.dictionary_bytes as nat));
    lemma_more(p4, l5);
    let l6 = report_line(
        "durable pack plus manifest: "@,
        decimal(everything_durable(totals) as nat) + " bytes ("@ + figures.durable.ratio@ + "x, "@
            + figures.durable.retained@ + "% of source)"@,
    );
    let p6 = p5 + l6;
    lemma_last(
        p5,
        "durable pack plus manifest: "@,
        decimal(everything_durable(totals) as nat) + " bytes ("@ + figures.durable.ratio@ + "x, "@
            + figures.durable.retained@ + "% of source)"@,
    );
    lemma_more(p5, l6);
    let l7 = report_line(
        "structural zstd-1 CPU-time throughput: "@,
        figures.compression_mib@ + " MiB/s"@,
    );
    let p7 = p6 + l7;
    lemma_last(
        p6,
        "structural zstd-1 CPU-time throughput: "@,
        figures.compression_mib@ + " MiB/s"@,
    );
    lemma_more(p6, l7);
    let l8 = report_line(
        "durable end-to-end ingest throughput: "@,
        figures.ingest_mib@ + " MiB/s"@,
    );
    let p8 = p7 + l8;
    lemma_last(p7, "durable end-to-end ingest throughput: "@, figures.ingest_mib@ + " MiB/s"@);
    lemma_more(p7, l8);
    let l9 = report_line("ingest elapsed seconds: "@, figures.elapsed_seconds@);
    let p9 = p8 + l9;
    lemma_last(p8, "ingest elapsed seconds: "@, figures.elapsed_seconds@);
    lemma_more(p8, l9);
    assert(Seq::<char>::empty() + p0 =~= p0);
    lemma_durable(totals);
    assert(storage_lines(totals, figures) == p9);
}

proof fn lemma_durable(totals: StructuralTotals)
    ensures
        durable_bytes(totals) == everything_durable(totals),
{
}

proof fn lemma_locality(totals: StructuralTotals, figures: StructuralFigures)
    ensures
        has_line(
            locality_lines(totals, figures),
            "temperature placement distribution collated/base: "@,
            two(totals.locality.collated_placements, totals.locality.base_placements),
        ),
        has_line(
            locality_lines(totals, figures),
            "locality fallback rate: "@,
            figures.fallback_rate@,
        ),
        has_line(
            locality_lines(totals, figures),
            "blocks scored/split/sub-blocks: "@,
            two(totals.locality.blocks_scored, totals.locality.blocks_split) + "/"@
                + decimal(totals.locality.subblocks_created as nat),
        ),
        has_line(
            locality_lines(totals, figures),
            "split explorations suppressed: "@,
            decimal(totals.locality.split_explorations_suppressed as nat),
        ),
        has_line(
            locality_lines(totals, figures),
            "reassigned records/bytes: "@,
            two(totals.locality.records_reassigned, totals.locality.bytes_reassigned),
        ),
        has_line(
            locality_lines(totals, figures),
            "active compression shards: "@,
            decimal(totals.locality.active_compression_shards as nat),
        ),
        has_line(
            locality_lines(totals, figures),
            "maximum internal variance Q8: "@,
            decimal(totals.locality.max_internal_variance_q8 as nat),
        ),
        has_line(
            locality_lines(totals, figures),
            "bytes-handoff membership bytes: "@,
            decimal(totals.locality.handoff_membership_bytes as nat),
        ),
        has_line(
            locality_lines(totals, figures),
            "collator state bytes across workers: "@,
            decimal(totals.locality.allocated_state_bytes as nat),
        ),
{
    reveal(locality_lines);
    lemma_last(
        Seq::empty(),
        "temperature placement distribution collated/base: "@,
        two(totals.locality.collated_placements, totals.locality.base_placements),
    );
    let p0 = report_line(
        "temperature placement distribution collated/base: "@,
        two(totals.locality.collated_placements, totals.locality.base_placements),
    );
    let l1 = report_line("locality fallback rate: "@, figures.fallback_rate@);
    let p1 = p0 + l1;
    lemma_last(p0, "locality fallback rate: "@, figures.fallback_rate@);
    lemma_more(p0, l1);
    let l2 = report_line(
        "blocks scored/split/sub-blocks: "@,
        two(totals.locality.blocks_scored, totals.locality.blocks_split) + "/"@
            + decimal(totals.locality.subblocks_created as nat),
    );
    let p2 = p1 + l2;
    lemma_last(
        p1,
        "blocks scored/split/sub-blocks: "@,
        two(totals.locality.blocks_scored, totals.locality.blocks_split) + "/"@
            + decimal(totals.locality.subblocks_created as nat),
    );
    lemma_more(p1, l2);
    let l3 = report_line(
        "split explorations suppressed: "@,
        decimal(totals.locality.split_explorations_suppressed as nat),
    );
    let p3 = p2 + l3;
    lemma_last(
        p2,
        "split explorations suppressed: "@,
        decimal(totals.locality.split_explorations_suppressed as nat),
    );
    lemma_more(p2, l3);
    let l4 = report_line(
        "reassigned records/bytes: "@,
        two(totals.locality.records_reassigned, totals.locality.bytes_reassigned),
    );
    let p4 = p3 + l4;
    lemma_last(
        p3,
        "reassigned records/bytes: "@,
        two(totals.locality.records_reassigned, totals.locality.bytes_reassigned),
    );
    lemma_more(p3, l4);
    let l5 = report_line(
        "active compression shards: "@,
        decimal(totals.locality.active_compression_shards as nat),
    );
    let p5 = p4 + l5;
    lemma_last(
        p4,
        "active compression shards: "@,
        decimal(totals.locality.active_compression_shards as nat),
    );
    lemma_more(p4, l5);
    let l6 = report_line(
        "maximum internal variance Q8: "@,
        decimal(totals.locality.max_internal_variance_q8 as nat),
    );
    let p6 = p5 + l6;
    lemma_last(
        p5,
        "maximum internal variance Q8: "@,
        decimal(totals.locality.max_internal_variance_q8 as nat),
    );
    lemma_more(p5, l6);
    let l7 = report_line(
        "bytes-handoff membership bytes: "@,
        decimal(totals.locality.handoff_membership_bytes as nat),
    );
    let p7 = p6 + l7;
    lemma_last(
        p6,
        "bytes-handoff membership bytes: "@,
        decimal(totals.locality.handoff_membership_bytes as nat),
    );
    lemma_more(p6, l7);
    let l8 = report_line(
        "collator state bytes across workers: "@,
        decimal(totals.locality.allocated_state_bytes as nat),
    );
    let p8 = p7 + l8;
    lemma_last(
        p7,
        "collator state bytes across workers: "@,
        decimal(totals.locality.allocated_state_bytes as nat),
    );
    lemma_more(p7, l8);
    assert(Seq::<char>::empty() + p0 =~= p0);
    let locality = totals.locality;
    lemma_slashed(locality.collated_placements, locality.base_placements, 0);
    lemma_slashed(locality.blocks_scored, locality.blocks_split, locality.subblocks_created);
    lemma_slashed(locality.records_reassigned, locality.bytes_reassigned, 0);
    assert(locality_lines(totals, figures) == p8);
}

proof fn lemma_slashed(a: u64, b: u64, c: u64)
    ensures
        slashed(seq![a, b]) == two(a, b),
        slashed(seq![a, b, c]) == two(a, b) + "/"@ + decimal(c as nat),
{
    assert(seq![a, b].drop_last() =~= seq![a]);
    assert(seq![a, b, c].drop_last() =~= seq![a, b]);
    assert(slashed(seq![a]) == decimal(a as nat));
    assert(seq![a, b].last() == b);
    assert(slashed(seq![a, b]) == two(a, b));
    assert(seq![a, b, c].last() == c && seq![a, b, c].len() == 3);
    assert(slashed(seq![a, b, c]) == slashed(seq![a, b]) + "/"@ + decimal(c as nat));
}

/// The report gives each number under its own label: what was read and rejected, what
/// was stored, and how records were placed.
pub proof fn reports_give_every_number(
    settings: StructuralSettings,
    totals: StructuralTotals,
    figures: StructuralFigures,
)
    ensures
        has_line(structural_report(settings, totals, figures), "input: "@, settings.input@),
        has_line(
            structural_report(settings, totals, figures),
            "complete-line input bytes: "@,
            decimal(totals.input_bytes as nat),
        ),
        has_line(
            structural_report(settings, totals, figures),
            "leading partial bytes discarded: "@,
            decimal(totals.leading_discarded_bytes as nat),
        ),
        has_line(
            structural_report(settings, totals, figures),
            "source bytes: "@,
            decimal(totals.source_bytes as nat),
        ),
        has_line(
            structural_report(settings, totals, figures),
            "rejected complete records: "@,
            decimal(totals.rejected_records as nat),
        ),
        has_line(
            structural_report(settings, totals, figures),
            "rejected complete-record bytes: "@,
            decimal(totals.rejected_bytes as nat),
        ),
        has_line(
            structural_report(settings, totals, figures),
            "block target: "@,
            decimal(settings.block_bytes as nat),
        ),
        has_line(
            structural_report(settings, totals, figures),
            "workers: "@,
            decimal(totals.workers as nat),
        ),
        has_line(
            structural_report(settings, totals, figures),
            "locality routing: "@,
            on_or_off(settings.locality_routing),
        ),
        has_line(
            structural_report(settings, totals, figures),
            "real-time dictionary: "@,
            on_or_off(settings.realtime_dictionary),
        ),
        has_line(
            structural_report(settings, totals, figures),
            "persistent query index: "@,
            on_or_off(settings.persistent_query_index),
        ),
        has_line(
            structural_report(settings, totals, figures),
            "blocks: "@,
            decimal(totals.blocks as nat),
        ),
        has_line(
            structural_report(settings, totals, figures),
            "records: "@,
            decimal(totals.records as nat),
        ),
        has_line(
            structural_report(settings, totals, figures),
            "structural payload before zstd: "@,
            decimal(totals.structural_bytes as nat) + " bytes ("@ + figures.structural.ratio@
                + "x, "@ + figures.structural.retained@ + "% of source)"@,
        ),
        has_line(
            structural_report(settings, totals, figures),
            "embedded compression-derived index before zstd: "@,
            decimal(totals.embedded_index_bytes as nat) + " bytes ("@
                + figures.embedded_index.ratio@ + "x, "@ + figures.embedded_index.retained@
                + "% of source)"@,
        ),
        has_line(
            structural_report(settings, totals, figures),
            "structural payload zstd-1: "@,
            decimal(totals.structural_stored_bytes as nat) + " bytes ("@ + figures.stored.ratio@
                + "x, "@ + figures.stored.retained@ + "% of source)"@,
        ),
        has_line(
            structural_report(settings, totals, figures),
            "manifest bytes: "@,
            decimal(totals.manifest_bytes as nat),
        ),
        has_line(
            structural_report(settings, totals, figures),
            "persistent term/field index bytes: "@,
            decimal(totals.query_index_bytes as nat),
        ),
        has_line(
            structural_report(settings, totals, figures),
            "compression dictionary bytes: "@,
            decimal(totals.dictionary_bytes as nat),
        ),
        has_line(
            structural_report(settings, totals, figures),
            "durable pack plus manifest: "@,
            decimal(everything_durable(totals) as nat) + " bytes ("@ + figures.durable.ratio@
                + "x, "@ + figures.durable.retained@ + "% of source)"@,
        ),
        has_line(
            structural_report(settings, totals, figures),
            "structural zstd-1 CPU-time throughput: "@,
            figures.compression_mib@ + " MiB/s"@,
        ),
        has_line(
            structural_report(settings, totals, figures),
            "durable end-to-end ingest throughput: "@,
            figures.ingest_mib@ + " MiB/s"@,
        ),
        has_line(
            structural_report(settings, totals, figures),
            "ingest elapsed seconds: "@,
            figures.elapsed_seconds@,
        ),
        has_line(
            structural_report(settings, totals, figures),
            "temperature placement distribution collated/base: "@,
            two(totals.locality.collated_placements, totals.locality.base_placements),
        ),
        has_line(
            structural_report(settings, totals, figures),
            "locality fallback rate: "@,
            figures.fallback_rate@,
        ),
        has_line(
            structural_report(settings, totals, figures),
            "blocks scored/split/sub-blocks: "@,
            two(totals.locality.blocks_scored, totals.locality.blocks_split) + "/"@
                + decimal(totals.locality.subblocks_created as nat),
        ),
        has_line(
            structural_report(settings, totals, figures),
            "split explorations suppressed: "@,
            decimal(totals.locality.split_explorations_suppressed as nat),
        ),
        has_line(
            structural_report(settings, totals, figures),
            "reassigned records/bytes: "@,
            two(totals.locality.records_reassigned, totals.locality.bytes_reassigned),
        ),
        has_line(
            structural_report(settings, totals, figures),
            "active compression shards: "@,
            decimal(totals.locality.active_compression_shards as nat),
        ),
        has_line(
            structural_report(settings, totals, figures),
            "maximum internal variance Q8: "@,
            decimal(totals.locality.max_internal_variance_q8 as nat),
        ),
        has_line(
            structural_report(settings, totals, figures),
            "bytes-handoff membership bytes: "@,
            decimal(totals.locality.handoff_membership_bytes as nat),
        ),
        has_line(
            structural_report(settings, totals, figures),
            "collator state bytes across workers: "@,
            decimal(totals.locality.allocated_state_bytes as nat),
        ),
{
    lemma_source(settings, totals);
    lemma_storage(totals, figures);
    lemma_locality(totals, figures);
    let source = source_lines(settings, totals);
    let storage = storage_lines(totals, figures);
    let locality = locality_lines(totals, figures);
    lemma_more(source, storage);
    lemma_behind(source, storage);
    lemma_more(source + storage, locality);
    lemma_behind(source + storage, locality);
    let front = source + storage + locality;
    let dictionary = if settings.realtime_dictionary {
        dictionary_lines(totals.dictionary_stats, figures)
    } else {
        Seq::empty()
    };
    lemma_more(front, dictionary);
    let verified = if totals.verified_blocks > 0 {
        report_line(
            "post-ingest verification: "@,
            decimal(totals.verified_blocks as nat)
                + " block checksums plus first/middle/last decode in "@
                + figures.verification_seconds@ + " seconds"@,
        )
    } else {
        Seq::empty()
    };
    lemma_more(front + dictionary, verified);
    lemma_more(front + dictionary + verified, structural_notes());
    assert(structural_report(settings, totals, figures) == front + dictionary + verified
        + structural_notes());
}

} // verus!
