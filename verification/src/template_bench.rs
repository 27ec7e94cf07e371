//! Lines on their way into template blocks, and the report on what they take.

use vstd::prelude::*;

use crate::byte_map::ByteMap;
use crate::codec_bench::capped_sum;
use crate::compression_bench::{accept_line, BlockCompression, CompressionSettings, ZSTD_LEVEL};
use crate::structural_report::{push_line, push_number, report_line};
use crate::template::{template_of, terms_of, values_of};
use crate::template_encoder::{
    blocks_after, counted_all, encode_term_index, flush_terms, index_bytes, record_bytes,
    template_place, templates_after, TemplateEncoder,
};
use crate::text::{decimal, push_decimal};
use crate::zstd_frames::{zstd_compress, zstd_content, zstd_frames, zstd_refuses};

verus! {

/// What templates take.
#[derive(Debug, Clone, Copy, PartialEq, Eq, Structural)]
pub struct TemplateCompression {
    /// Bytes read.
    pub source_bytes: u64,
    /// Bytes of the compressed records.
    pub record_bytes: u64,
    /// Bytes of the compressed templates.
    pub template_bytes: u64,
    /// Bytes of the compressed index.
    pub index_bytes: u64,
    /// Templates.
    pub template_count: u64,
    /// Terms of the index.
    pub index_terms: u64,
    /// Blocks.
    pub blocks: u64,
}

impl TemplateCompression {
    /// Bytes of the records and their templates.
    pub fn payload_bytes(self) -> (bytes: u64)
        requires
            self.record_bytes + self.template_bytes <= u64::MAX,
        ensures
            bytes == self.record_bytes + self.template_bytes,
    {
        self.record_bytes + self.template_bytes
    }

    /// Bytes of everything.
    pub fn total_bytes(self) -> (bytes: u64)
        requires
            self.record_bytes + self.template_bytes + self.index_bytes <= u64::MAX,
        ensures
            bytes == self.record_bytes + self.template_bytes + self.index_bytes,
    {
        self.payload_bytes() + self.index_bytes
    }
}

/// Lines on their way into template blocks.
pub struct TemplateCompressor {
    /// Templates seen so far.
    pub encoder: TemplateEncoder,
    /// Records of the block that is being filled.
    pub record_block: Vec<u8>,
    /// Terms of that block.
    pub block_terms: ByteMap<()>,
    /// Terms of the stored blocks.
    pub term_blocks: ByteMap<Vec<u32>>,
    /// Number of that block.
    pub block_id: u32,
    /// Bytes read.
    pub source_bytes: u64,
    /// Bytes of the stored blocks.
    pub record_bytes: u64,
    /// Stored blocks.
    pub blocks: u64,
}

/// Whether the records of a block were counted with `bytes` and its terms
/// indexed.
pub open spec fn records_counted(
    before: TemplateCompressor,
    after: TemplateCompressor,
    bytes: nat,
) -> bool {
    &&& after.record_block@ == Seq::<u8>::empty()
    &&& after.block_terms@ == Map::<Seq<u8>, ()>::empty()
    &&& after.blocks == capped_sum(before.blocks, 1)
    &&& after.source_bytes == before.source_bytes
    &&& after.encoder == before.encoder
    &&& after.record_bytes == capped_sum(before.record_bytes, bytes as int)
    &&& after.term_blocks@.dom() == before.term_blocks@.dom().union(before.block_terms@.dom())
    &&& forall|term: Seq<u8>| #[trigger]
        after.term_blocks@.dom().contains(term) ==> after.term_blocks@[term]@ == blocks_after(
            before.term_blocks@,
            before.block_terms@.dom(),
            before.block_id,
            term,
        )
}

/// Whether the records of a block were stored: the size of some frame that holds
/// them was counted.
pub open spec fn records_stored(before: TemplateCompressor, after: TemplateCompressor) -> bool {
    exists|frame: Seq<u8>| #[trigger]
        zstd_frames(before.record_block@, ZSTD_LEVEL).contains(frame) && zstd_content(frame)
            == Some(before.record_block@) && records_counted(before, after, frame.len())
}

/// A state in which one more line was encoded.
pub open spec fn line_encoded(
    before: TemplateCompressor,
    after: TemplateCompressor,
    line: Seq<u8>,
) -> bool {
    &&& after.encoder@ == templates_after(before.encoder@, template_of(line))
    &&& after.record_block@ == before.record_block@ + record_bytes(
        template_place(before.encoder@, template_of(line)),
        values_of(line),
    )
    &&& after.block_terms@.dom() == before.block_terms@.dom().union(terms_of(template_of(line)))
    &&& after.term_blocks == before.term_blocks
    &&& after.block_id == before.block_id
    &&& after.source_bytes == capped_sum(before.source_bytes, line.len() as int)
    &&& after.record_bytes == before.record_bytes
    &&& after.blocks == before.blocks
}

impl TemplateCompressor {
    /// Nothing read yet.
    pub fn new() -> (compressor: Self)
        ensures
            compressor.encoder.wf(),
            compressor.encoder@ == Seq::<Seq<u8>>::empty(),
            compressor.record_block@ == Seq::<u8>::empty(),
            compressor.block_terms@ == Map::<Seq<u8>, ()>::empty(),
            compressor.term_blocks@ == Map::<Seq<u8>, Vec<u32>>::empty(),
            compressor.block_id == 0,
            compressor.source_bytes == 0,
            compressor.record_bytes == 0,
            compressor.blocks == 0,
    {
        Self {
            encoder: TemplateEncoder::new(),
            record_block: Vec::new(),
            block_terms: ByteMap::new(),
            term_blocks: ByteMap::new(),
            block_id: 0,
            source_bytes: 0,
            record_bytes: 0,
            blocks: 0,
        }
    }

    /// Counts the frame that the compressor made of the records, indexes their
    /// terms and empties the block, or passes its complaint on.
    pub fn count_frame(&mut self, made: Result<Vec<u8>, String>) -> (counted: Result<(), String>)
        ensures
            final(self).block_id == old(self).block_id,
            match made {
                Ok(frame) => counted is Ok && records_counted(
                    *old(self),
                    *final(self),
                    frame@.len(),
                ),
                Err(text) => counted == Err::<(), String>(text) && *final(self) == *old(self),
            },
    {
        let frame = match made {
            Ok(frame) => frame,
            Err(text) => {
                return Err(text);
            },
        };
        self.record_bytes = self.record_bytes.saturating_add(frame.len() as u64);
        flush_terms(&mut self.block_terms, &mut self.term_blocks, self.block_id);
        self.record_block.clear();
        self.blocks = self.blocks.saturating_add(1);
        assert(self.record_block@ =~= Seq::<u8>::empty());
        Ok(())
    }

    fn store_block(&mut self) -> (stored: Result<(), String>)
        requires
            2 * old(self).record_block@.len() + 0x2_0000 <= isize::MAX,
        ensures
            final(self).encoder == old(self).encoder,
            final(self).block_id == old(self).block_id,
            match stored {
                Ok(_) => records_stored(*old(self), *final(self)),
                Err(text) => *final(self) == *old(self) && zstd_refuses(
                    old(self).record_block@,
                    ZSTD_LEVEL,
                    text@,
                ),
            },
    {
        let made = zstd_compress(self.record_block.as_slice(), ZSTD_LEVEL);
        proof {
            if made is Ok {
                assert(zstd_frames(old(self).record_block@, ZSTD_LEVEL).contains(made->Ok_0@));
            }
        }
        self.count_frame(made)
    }

    /// Adds a line, and stores the block where it is full. `false` says that the
    /// line is past the limit.
    pub fn add_line(&mut self, line: &[u8], limit_bytes: u64, block_bytes: usize) -> (added: Result<
        bool,
        String,
    >)
        requires
            old(self).encoder.wf(),
            old(self).encoder@.contains(template_of(line@)) || old(self).encoder@.len() <= u32::MAX,
            2 * (old(self).record_block@.len() + record_bytes(
                template_place(old(self).encoder@, template_of(line@)),
                values_of(line@),
            ).len()) + 0x2_0000 <= isize::MAX,
        ensures
            final(self).encoder.wf(),
            ({
                let read = capped_sum(old(self).source_bytes, line@.len() as int);
                let full = old(self).record_block@.len() + record_bytes(
                    template_place(old(self).encoder@, template_of(line@)),
                    values_of(line@),
                ).len() >= block_bytes;
                match added {
                    Ok(false) => read > limit_bytes && *final(self) == *old(self),
                    Ok(true) => read <= limit_bytes && if full {
                        exists|middle: TemplateCompressor| #[trigger]
                            line_encoded(*old(self), middle, line@) && records_stored(
                                middle,
                                *final(self),
                            ) && final(self).block_id == old(self).block_id + 1
                    } else {
                        line_encoded(*old(self), *final(self), line@)
                    },
                    Err(text) => read <= limit_bytes && full && exists|
                        middle: TemplateCompressor,
                    | #[trigger]
                        line_encoded(*old(self), middle, line@) && {
                            ||| *final(self) == middle && zstd_refuses(
                                middle.record_block@,
                                ZSTD_LEVEL,
                                text@,
                            )
                            ||| records_stored(middle, *final(self)) && old(self).block_id
                                == u32::MAX && final(self).block_id == u32::MAX && text@
                                == "template block identifier overflow"@
                        },
                }
            }),
    {
        assert(line.len() == line@.len());
        let mut source_bytes = self.source_bytes;
        if !accept_line(&mut source_bytes, line.len(), limit_bytes) {
            return Ok(false);
        }
        self.source_bytes = source_bytes;
        self.encoder.encode_record(line, &mut self.record_block, &mut self.block_terms);
        if self.record_block.len() >= block_bytes {
            let ghost middle = *self;
            assert(line_encoded(*old(self), middle, line@));
            self.store_block()?;
            if self.block_id == u32::MAX {
                return Err("template block identifier overflow".to_owned());
            }
            self.block_id = self.block_id + 1;
            assert(records_stored(middle, *self));
        }
        Ok(true)
    }

    /// Stores the records that are left.
    pub fn store_rest(&mut self) -> (stored: Result<(), String>)
        requires
            2 * old(self).record_block@.len() + 0x2_0000 <= isize::MAX,
        ensures
            final(self).encoder == old(self).encoder,
            old(self).record_block@.len() == 0 ==> stored is Ok && *final(self) == *old(self),
            (stored is Ok && old(self).record_block@.len() > 0) ==> records_stored(
                *old(self),
                *final(self),
            ),
            stored matches Err(text) ==> old(self).record_block@.len() > 0 && *final(self) == *old(
                self,
            ) && zstd_refuses(old(self).record_block@, ZSTD_LEVEL, text@),
    {
        if self.record_block.len() > 0 {
            return self.store_block();
        }
        Ok(())
    }

    /// What everything takes, once the templates and the index are compressed to
    /// these bytes.
    pub fn totals(&self, templates: &Vec<u8>, index: &Vec<u8>) -> (totals: TemplateCompression)
        requires
            self.encoder.wf(),
        ensures
            totals.source_bytes == self.source_bytes,
            totals.record_bytes == self.record_bytes,
            totals.template_bytes == templates@.len(),
            totals.index_bytes == index@.len(),
            totals.template_count == self.encoder@.len(),
            totals.index_terms == self.term_blocks.listed().len(),
            totals.blocks == self.blocks,
    {
        TemplateCompression {
            source_bytes: self.source_bytes,
            record_bytes: self.record_bytes,
            template_bytes: templates.len() as u64,
            index_bytes: index.len() as u64,
            template_count: self.encoder.template_count() as u64,
            index_terms: self.term_blocks.len() as u64,
            blocks: self.blocks,
        }
    }

    /// Compresses the templates, then the index of the stored blocks. The
    /// compressor decides whether they come back; its complaint is passed on.
    pub fn finish(&self) -> (totals: Result<TemplateCompression, String>)
        requires
            self.encoder.wf(),
            2 * counted_all(self.encoder@).len() + 0x2_0000 <= isize::MAX,
            2 * index_bytes(self.term_blocks.listed()).len() + 0x2_0000 <= isize::MAX,
        ensures
            match totals {
                Ok(totals) => {
                    &&& totals.source_bytes == self.source_bytes
                    &&& totals.record_bytes == self.record_bytes
                    &&& totals.blocks == self.blocks
                    &&& totals.template_count == self.encoder@.len()
                    &&& totals.index_terms == self.term_blocks.listed().len()
                    &&& exists|frame: Seq<u8>| #[trigger]
                        zstd_frames(counted_all(self.encoder@), ZSTD_LEVEL).contains(frame)
                            && zstd_content(frame) == Some(counted_all(self.encoder@))
                            && totals.template_bytes == frame.len()
                    &&& exists|frame: Seq<u8>| #[trigger]
                        zstd_frames(index_bytes(self.term_blocks.listed()), ZSTD_LEVEL).contains(
                        frame,
                    ) && zstd_content(frame) == Some(index_bytes(self.term_blocks.listed()))
                            && totals.index_bytes == frame.len()
                },
                Err(text) => {
                    ||| zstd_refuses(counted_all(self.encoder@), ZSTD_LEVEL, text@)
                    ||| zstd_refuses(index_bytes(self.term_blocks.listed()), ZSTD_LEVEL, text@)
                        && exists|frame: Seq<u8>| #[trigger]
                        zstd_frames(counted_all(self.encoder@), ZSTD_LEVEL).contains(frame)
                },
            },
    {
        let templates = zstd_compress(self.encoder.encoded_templates().as_slice(), ZSTD_LEVEL)?;
        assert(zstd_frames(counted_all(self.encoder@), ZSTD_LEVEL).contains(templates@));
        let index = encode_term_index(&self.term_blocks);
        let packed = zstd_compress(index.as_slice(), ZSTD_LEVEL)?;
        assert(zstd_frames(index_bytes(self.term_blocks.listed()), ZSTD_LEVEL).contains(packed@));
        Ok(self.totals(&templates, &packed))
    }
}

/// The ratio and the percentage of a layout, as text.
#[derive(Debug, PartialEq, Eq)]
pub struct LayoutFigures {
    /// Source bytes for each stored byte.
    pub ratio: String,
    /// Stored bytes of a hundred source bytes.
    pub percent: String,
}

/// The line of one layout.
pub open spec fn layout_line(label: Seq<char>, stored_bytes: nat, figures: LayoutFigures) -> Seq<char> {
    label + ": "@ + decimal(stored_bytes) + " bytes ("@ + figures.ratio@ + "x, "@
        + figures.percent@ + "% of source)\n"@
}

/// Appends the line of one layout.
pub fn result_line(report: &mut String, label: &str, stored_bytes: u64, figures: &LayoutFigures)
    ensures
        final(report)@ == old(report)@ + layout_line(label@, stored_bytes as nat, *figures),
{
    report.append(label);
    report.append(": ");
    push_decimal(report, stored_bytes as u128);
    report.append(" bytes (");
    report.append(figures.ratio.as_str());
    report.append("x, ");
    report.append(figures.percent.as_str());
    report.append("% of source)\n");
    assert(report@ =~= old(report)@ + layout_line(label@, stored_bytes as nat, *figures));
}

/// What the report compares.
#[derive(Debug)]
pub struct CompressionResults {
    /// Blocks of lines.
    pub raw: BlockCompression,
    /// Blocks of lines under a dictionary.
    pub raw_with_dictionary: BlockCompression,
    /// Bytes of the dictionary.
    pub dictionary_bytes: usize,
    /// Blocks of templates.
    pub template: TemplateCompression,
    /// Figures of the blocks of lines.
    pub raw_figures: LayoutFigures,
    /// Figures of the blocks under a dictionary, and the dictionary.
    pub dictionary_figures: LayoutFigures,
    /// Figures of the records and templates.
    pub payload_figures: LayoutFigures,
    /// Figures of the records, templates and index.
    pub total_figures: LayoutFigures,
}

/// The lines on the layouts.
#[verifier::opaque]
pub open spec fn layout_lines(results: CompressionResults) -> Seq<char> {
    layout_line("zstd block payload"@, results.raw.stored_bytes as nat, results.raw_figures)
        + layout_line(
        "zstd + trained dictionary (dictionary included)"@,
        capped_sum(results.raw_with_dictionary.stored_bytes, results.dictionary_bytes as int) as nat,
        results.dictionary_figures,
    ) + layout_line(
        "template column payload"@,
        (results.template.record_bytes + results.template.template_bytes) as nat,
        results.payload_figures,
    ) + layout_line(
        "template payload + block-term index"@,
        (results.template.record_bytes + results.template.template_bytes
            + results.template.index_bytes) as nat,
        results.total_figures,
    )
}

/// The lines on counts.
#[verifier::opaque]
pub open spec fn count_lines(results: CompressionResults) -> Seq<char> {
    report_line("raw blocks: "@, decimal(results.raw.blocks as nat)) + report_line(
        "template blocks: "@,
        decimal(results.template.blocks as nat),
    ) + report_line("unique templates: "@, decimal(results.template.template_count as nat))
        + report_line("indexed static terms: "@, decimal(results.template.index_terms as nat))
        + "template components: records="@ + decimal(results.template.record_bytes as nat)
        + " templates="@ + decimal(results.template.template_bytes as nat) + " index="@ + decimal(
        results.template.index_bytes as nat,
    ) + "\n"@
}

/// The report of the log compression benchmark.
pub open spec fn compression_report(
    input: Seq<char>,
    block_bytes: nat,
    results: CompressionResults,
) -> Seq<char> {
    "shard-telemetry real-log compression benchmark\n"@ + report_line("input: "@, input)
        + report_line("source bytes: "@, decimal(results.raw.source_bytes as nat)) + report_line(
        "block target: "@,
        decimal(block_bytes),
    ) + report_line("dictionary bytes: "@, decimal(results.dictionary_bytes as nat)) + layout_lines(
        results,
    ) + count_lines(results)
        + "note: the final total includes a compressed block-level static-term index; it excludes\nper-record postings for high-cardinality variable values, which belong in metadata columns."@
}

fn push_layouts(report: &mut String, results: &CompressionResults)
    requires
        results.template.record_bytes + results.template.template_bytes
            + results.template.index_bytes <= u64::MAX,
    ensures
        final(report)@ == old(report)@ + layout_lines(*results),
{
    result_line(report, "zstd block payload", results.raw.stored_bytes, &results.raw_figures);
    result_line(
        report,
        "zstd + trained dictionary (dictionary included)",
        results.raw_with_dictionary.stored_bytes.saturating_add(results.dictionary_bytes as u64),
        &results.dictionary_figures,
    );
    result_line(
        report,
        "template column payload",
        results.template.payload_bytes(),
        &results.payload_figures,
    );
    result_line(
        report,
        "template payload + block-term index",
        results.template.total_bytes(),
        &results.total_figures,
    );
    proof {
        reveal(layout_lines);
        assert(report@ =~= old(report)@ + layout_lines(*results));
    }
}

fn push_counts(report: &mut String, results: &CompressionResults)
    ensures
        final(report)@ == old(report)@ + count_lines(*results),
{
    push_number(report, "raw blocks: ", results.raw.blocks);
    push_number(report, "template blocks: ", results.template.blocks);
    push_number(report, "unique templates: ", results.template.template_count);
    push_number(report, "indexed static terms: ", results.template.index_terms);
    report.append("template components: records=");
    push_decimal(report, results.template.record_bytes as u128);
    report.append(" templates=");
    push_decimal(report, results.template.template_bytes as u128);
    report.append(" index=");
    push_decimal(report, results.template.index_bytes as u128);
    report.append("\n");
    proof {
        reveal(count_lines);
        assert(report@ =~= old(report)@ + count_lines(*results));
    }
}

/// Writes the report of the log compression benchmark.
pub fn render_compression_report(settings: &CompressionSettings, results: &CompressionResults) -> (report:
    String)
    requires
        results.template.record_bytes + results.template.template_bytes
            + results.template.index_bytes <= u64::MAX,
    ensures
        report@ == compression_report(settings.input@, settings.block_bytes as nat, *results),
{
    let mut report = "shard-telemetry real-log compression benchmark\n".to_owned();
    push_line(&mut report, "input: ", settings.input.as_str());
    push_number(&mut report, "source bytes: ", results.raw.source_bytes);
    push_number(&mut report, "block target: ", settings.block_bytes as u64);
    push_number(&mut report, "dictionary bytes: ", results.dictionary_bytes as u64);
    push_layouts(&mut report, results);
    push_counts(&mut report, results);
    report.append(
        "note: the final total includes a compressed block-level static-term index; it excludes\nper-record postings for high-cardinality variable values, which belong in metadata columns.",
    );
    report
}

} // verus!
