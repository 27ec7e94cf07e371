//! The codec benchmark: its arguments, its blocks and its report.

use vstd::prelude::*;

use crate::arguments::{following, needed, optional_text, take_value};
use crate::codec::{codec_choice, codec_name, is_listed, parse_codecs, screen_codecs, Codec};
use crate::codec_formats::MAX_MINLZ_BYTES;
use crate::sizes::{number_complaint, parse_size, size_of_text};
use crate::text::{decimal, push_decimal, same_str, text_views};

verus! {

/// Bytes read when no limit is given.
pub const DEFAULT_LIMIT_BYTES: u64 = 1_073_741_824;

/// Bytes of a block when no size is given.
pub const DEFAULT_BLOCK_BYTES: usize = 8_388_608;

/// Settings of the codec benchmark.
#[derive(Debug, PartialEq, Eq)]
pub struct CodecSettings {
    /// Source file.
    pub input: String,
    /// Bytes of the source that are read.
    pub limit_bytes: u64,
    /// Bytes of a block.
    pub block_bytes: usize,
    /// Codecs to compare.
    pub codecs: Vec<Codec>,
    /// Where the report is written.
    pub report_path: Option<String>,
}

/// What settings of the codec benchmark say.
#[verifier::ext_equal]
pub struct CodecPlan {
    /// Source file.
    pub input: Seq<char>,
    /// Bytes of the source that are read.
    pub limit_bytes: nat,
    /// Bytes of a block.
    pub block_bytes: nat,
    /// Codecs to compare.
    pub codecs: Seq<Codec>,
    /// Where the report is written.
    pub report_path: Option<Seq<char>>,
}

impl View for CodecSettings {
    type V = CodecPlan;

    open spec fn view(&self) -> CodecPlan {
        CodecPlan {
            input: self.input@,
            limit_bytes: self.limit_bytes as nat,
            block_bytes: self.block_bytes as nat,
            codecs: self.codecs@,
            report_path: optional_text(self.report_path),
        }
    }
}

/// A size that can be addressed.
pub open spec fn addressable_size(value: Seq<char>) -> Result<nat, Seq<char>> {
    match size_of_text(value) {
        Err(fault) => Err(number_complaint(fault)),
        Ok(size) => if size > usize::MAX {
            Err("out of range integral type conversion attempted"@)
        } else {
            Ok(size)
        },
    }
}

/// Reads a size that can be addressed.
pub fn parse_addressable_size(value: &str) -> (size: Result<usize, String>)
    ensures
        match size {
            Ok(size) => addressable_size(value@) == Ok::<nat, Seq<char>>(size as nat),
            Err(text) => addressable_size(value@) == Err::<nat, Seq<char>>(text@),
        },
{
    let size = parse_size(value)?;
    if size > usize::MAX as u64 {
        Err("out of range integral type conversion attempted".to_owned())
    } else {
        Ok(size as usize)
    }
}

/// What one flag and its value change.
pub open spec fn codec_flag(plan: CodecPlan, flag: Seq<char>, value: Option<Seq<char>>) -> Result<
    CodecPlan,
    Seq<char>,
> {
    if flag == "--limit-bytes"@ {
        match needed(value, "--limit-bytes requires a value"@) {
            Err(text) => Err(text),
            Ok(value) => match size_of_text(value) {
                Err(fault) => Err(number_complaint(fault)),
                Ok(limit_bytes) => Ok(CodecPlan { limit_bytes, ..plan }),
            },
        }
    } else if flag == "--block-bytes"@ {
        match needed(value, "--block-bytes requires a value"@) {
            Err(text) => Err(text),
            Ok(value) => match addressable_size(value) {
                Err(text) => Err(text),
                Ok(block_bytes) => Ok(CodecPlan { block_bytes, ..plan }),
            },
        }
    } else if flag == "--codecs"@ {
        match needed(value, "--codecs requires comma-separated names"@) {
            Err(text) => Err(text),
            Ok(value) => match codec_choice(value) {
                Err(text) => Err(text),
                Ok(codecs) => Ok(CodecPlan { codecs, ..plan }),
            },
        }
    } else if flag == "--report"@ {
        match needed(value, "--report requires a path"@) {
            Err(text) => Err(text),
            Ok(path) => Ok(CodecPlan { report_path: Some(path), ..plan }),
        }
    } else {
        Err("unknown argument "@ + flag)
    }
}

/// What the flags from a position on change.
pub open spec fn codec_flags(plan: CodecPlan, arguments: Seq<Seq<char>>, position: int) -> Result<
    CodecPlan,
    Seq<char>,
>
    decreases arguments.len() - position,
{
    if position < 0 || position >= arguments.len() {
        Ok(plan)
    } else {
        match codec_flag(plan, arguments[position], following(arguments, position)) {
            Err(text) => Err(text),
            Ok(next) => codec_flags(next, arguments, position + 2),
        }
    }
}

/// Settings before any flag.
pub open spec fn codec_defaults(input: Seq<char>) -> CodecPlan {
    CodecPlan {
        input,
        limit_bytes: DEFAULT_LIMIT_BYTES as nat,
        block_bytes: DEFAULT_BLOCK_BYTES as nat,
        codecs: screen_codecs(),
        report_path: None,
    }
}

/// The settings that arguments give.
pub open spec fn codec_plan(arguments: Seq<Seq<char>>) -> Result<CodecPlan, Seq<char>> {
    if arguments.len() == 0 {
        Err(
            "usage: shard-telemetry-codec-bench <raw-log-file> [--codecs NAMES|screen|archive|all] [--limit-bytes N] [--block-bytes N] [--report PATH]"@,
        )
    } else {
        match codec_flags(codec_defaults(arguments[0]), arguments, 1) {
            Err(text) => Err(text),
            Ok(plan) => if plan.limit_bytes == 0 || plan.block_bytes == 0 {
                Err("byte limits must be nonzero"@)
            } else if plan.codecs.contains(Codec::MinLzBalanced) && plan.block_bytes
                > MAX_MINLZ_BYTES {
                Err("minlz_balanced supports at most 8388608 bytes per block"@)
            } else {
                Ok(plan)
            },
        }
    }
}

fn apply_codec_flag(settings: &mut CodecSettings, arguments: &Vec<String>, position: usize) -> (applied:
    Result<(), String>)
    requires
        position < arguments@.len(),
    ensures
        ({
            let given = following(text_views(arguments@), position as int);
            match applied {
                Ok(_) => codec_flag(old(settings)@, arguments@[position as int]@, given) == Ok::<
                    CodecPlan,
                    Seq<char>,
                >(final(settings)@),
                Err(text) => codec_flag(old(settings)@, arguments@[position as int]@, given)
                    == Err::<CodecPlan, Seq<char>>(text@),
            }
        }),
{
    let flag = arguments[position].as_str();
    if same_str(flag, "--limit-bytes") {
        let value = take_value(arguments, position, "--limit-bytes requires a value")?;
        settings.limit_bytes = parse_size(value.as_str())?;
    } else if same_str(flag, "--block-bytes") {
        let value = take_value(arguments, position, "--block-bytes requires a value")?;
        settings.block_bytes = parse_addressable_size(value.as_str())?;
    } else if same_str(flag, "--codecs") {
        let value = take_value(arguments, position, "--codecs requires comma-separated names")?;
        settings.codecs = parse_codecs(value.as_str())?;
    } else if same_str(flag, "--report") {
        let value = take_value(arguments, position, "--report requires a path")?;
        settings.report_path = Some(value.clone());
    } else {
        let mut text = "unknown argument ".to_owned();
        text.append(flag);
        return Err(text);
    }
    Ok(())
}

/// Reads the arguments of the codec benchmark.
pub fn parse_settings(arguments: &Vec<String>) -> (settings: Result<CodecSettings, String>)
    ensures
        match settings {
            Ok(settings) => codec_plan(text_views(arguments@)) == Ok::<CodecPlan, Seq<char>>(
                settings@,
            ),
            Err(text) => codec_plan(text_views(arguments@)) == Err::<CodecPlan, Seq<char>>(text@),
        },
{
    let ghost views = text_views(arguments@);
    if arguments.len() == 0 {
        return Err(
            "usage: shard-telemetry-codec-bench <raw-log-file> [--codecs NAMES|screen|archive|all] [--limit-bytes N] [--block-bytes N] [--report PATH]".to_owned(),
        );
    }
    let mut settings = CodecSettings {
        input: arguments[0].clone(),
        limit_bytes: DEFAULT_LIMIT_BYTES,
        block_bytes: DEFAULT_BLOCK_BYTES,
        codecs: Codec::screen(),
        report_path: None,
    };
    assert(settings@ == codec_defaults(views[0]));
    let mut position: usize = 1;
    while position < arguments.len()
        invariant
            1 <= position,
            views == text_views(arguments@),
            views.len() > 0,
            codec_flags(codec_defaults(views[0]), views, 1) == codec_flags(
                settings@,
                views,
                position as int,
            ),
        decreases arguments@.len() - position,
    {
        assert(views[position as int] == arguments@[position as int]@);
        apply_codec_flag(&mut settings, arguments, position)?;
        if position + 1 < arguments.len() {
            position = position + 2;
        } else {
            position = position + 1;
        }
    }
    if settings.limit_bytes == 0 || settings.block_bytes == 0 {
        return Err("byte limits must be nonzero".to_owned());
    }
    if is_listed(&settings.codecs, Codec::MinLzBalanced) && settings.block_bytes > MAX_MINLZ_BYTES {
        return Err("minlz_balanced supports at most 8388608 bytes per block".to_owned());
    }
    Ok(settings)
}

/// Bytes and blocks that passed through one codec.
#[derive(Debug, Clone, Copy, PartialEq, Eq, Structural)]
pub struct CodecTotals {
    /// Bytes read.
    pub source_bytes: u64,
    /// Bytes of the compressed blocks.
    pub stored_bytes: u64,
    /// Blocks.
    pub blocks: u64,
}

/// The sum of two counts, at most the largest count.
pub open spec fn capped_sum(left: u64, right: int) -> int {
    if left + right > u64::MAX {
        u64::MAX as int
    } else {
        left + right
    }
}

impl CodecTotals {
    /// Nothing yet.
    pub fn new() -> (totals: Self)
        ensures
            totals == (Self { source_bytes: 0, stored_bytes: 0, blocks: 0 }),
    {
        Self { source_bytes: 0, stored_bytes: 0, blocks: 0 }
    }

    /// How many bytes the next block may take, or none when the limit is
    /// reached.
    pub fn next_target(&self, limit_bytes: u64, block_bytes: usize) -> (target: Option<usize>)
        ensures
            match target {
                None => self.source_bytes >= limit_bytes,
                Some(target) => self.source_bytes < limit_bytes && target == if block_bytes
                    <= limit_bytes - self.source_bytes {
                    block_bytes as int
                } else {
                    limit_bytes - self.source_bytes
                },
            },
    {
        if self.source_bytes >= limit_bytes {
            return None;
        }
        let remaining = limit_bytes - self.source_bytes;
        if (block_bytes as u64) <= remaining {
            Some(block_bytes)
        } else {
            Some(remaining as usize)
        }
    }

    /// Counts one block.
    pub fn add_block(&mut self, read: usize, stored: usize)
        ensures
            final(self).source_bytes == capped_sum(old(self).source_bytes, read as int),
            final(self).stored_bytes == capped_sum(old(self).stored_bytes, stored as int),
            final(self).blocks == capped_sum(old(self).blocks, 1),
    {
        self.source_bytes = self.source_bytes.saturating_add(read as u64);
        self.stored_bytes = self.stored_bytes.saturating_add(stored as u64);
        self.blocks = self.blocks.saturating_add(1);
    }

    /// The totals of a run, where it read anything.
    pub fn finish(self) -> (totals: Result<Self, String>)
        ensures
            match totals {
                Ok(totals) => self.source_bytes > 0 && totals == self,
                Err(text) => self.source_bytes == 0 && text@ == "input contained no bytes"@,
            },
    {
        if self.source_bytes == 0 {
            Err("input contained no bytes".to_owned())
        } else {
            Ok(self)
        }
    }
}

/// One line of the report: the totals of a codec and the figures drawn from
/// them, as text.
#[derive(Debug, PartialEq, Eq)]
pub struct CodecResult {
    /// Codec.
    pub codec: Codec,
    /// Bytes and blocks.
    pub totals: CodecTotals,
    /// Source bytes for each stored byte.
    pub ratio: String,
    /// Stored bytes of a hundred source bytes.
    pub retained_percent: String,
    /// Time spent compressing.
    pub compression_seconds: String,
    /// Source mebibytes compressed in a second.
    pub mib_per_second: String,
}

/// Names between commas.
pub open spec fn joined_names(codecs: Seq<Codec>) -> Seq<char>
    decreases codecs.len(),
{
    if codecs.len() == 0 {
        Seq::empty()
    } else if codecs.len() == 1 {
        codec_name(codecs[0])
    } else {
        joined_names(codecs.drop_last()) + ","@ + codec_name(codecs.last())
    }
}

/// The line of one result.
pub open spec fn result_text(result: CodecResult) -> Seq<char> {
    codec_name(result.codec) + ","@ + decimal(result.totals.source_bytes as nat) + ","@ + decimal(
        result.totals.stored_bytes as nat,
    ) + ","@ + result.ratio@ + ","@ + result.retained_percent@ + ","@ + result.compression_seconds@
        + ","@ + result.mib_per_second@ + ","@ + decimal(result.totals.blocks as nat) + "\n"@
}

/// The lines of all results.
pub open spec fn result_texts(results: Seq<CodecResult>) -> Seq<char>
    decreases results.len(),
{
    if results.len() == 0 {
        Seq::empty()
    } else {
        result_texts(results.drop_last()) + result_text(results.last())
    }
}

/// The report of a benchmark.
pub open spec fn codec_report(plan: CodecPlan, results: Seq<CodecResult>) -> Seq<char> {
    "shard-telemetry codec compression benchmark\ninput: "@ + plan.input + "\nblock target: "@
        + decimal(plan.block_bytes) + "\ncodecs: "@ + joined_names(plan.codecs)
        + "\ncodec,source_bytes,stored_bytes,ratio,retained_percent,compression_seconds,compression_mib_per_second,blocks\n"@
        + result_texts(results)
        + "note: every codec uses independent blocks and passes first-block round-trip verification; codec throughput excludes input read time. `screen` omits slow archival candidates, while `all` includes every configured engine.\n"@
}

fn push_names(report: &mut String, codecs: &Vec<Codec>)
    ensures
        final(report)@ == old(report)@ + joined_names(codecs@),
{
    let mut index: usize = 0;
    assert(codecs@.take(0) =~= Seq::<Codec>::empty());
    assert(report@ =~= old(report)@ + joined_names(codecs@.take(0)));
    while index < codecs.len()
        invariant
            index <= codecs@.len(),
            report@ == old(report)@ + joined_names(codecs@.take(index as int)),
        decreases codecs@.len() - index,
    {
        if index > 0 {
            report.append(",");
        }
        report.append(codecs[index].name());
        proof {
            let longer = codecs@.take(index + 1);
            assert(longer.drop_last() =~= codecs@.take(index as int));
            assert(report@ =~= old(report)@ + joined_names(longer));
        }
        index = index + 1;
    }
    assert(codecs@.take(index as int) =~= codecs@);
}

fn push_result(report: &mut String, result: &CodecResult)
    ensures
        final(report)@ == old(report)@ + result_text(*result),
{
    report.append(result.codec.name());
    report.append(",");
    push_decimal(report, result.totals.source_bytes as u128);
    report.append(",");
    push_decimal(report, result.totals.stored_bytes as u128);
    report.append(",");
    report.append(result.ratio.as_str());
    report.append(",");
    report.append(result.retained_percent.as_str());
    report.append(",");
    report.append(result.compression_seconds.as_str());
    report.append(",");
    report.append(result.mib_per_second.as_str());
    report.append(",");
    push_decimal(report, result.totals.blocks as u128);
    report.append("\n");
    assert(report@ =~= old(report)@ + result_text(*result));
}

/// Writes the report of a benchmark.
pub fn format_report(settings: &CodecSettings, results: &Vec<CodecResult>) -> (report: String)
    ensures
        report@ == codec_report(settings@, results@),
{
    let mut report = "shard-telemetry codec compression benchmark\ninput: ".to_owned();
    report.append(settings.input.as_str());
    report.append("\nblock target: ");
    push_decimal(&mut report, settings.block_bytes as u128);
    report.append("\ncodecs: ");
    push_names(&mut report, &settings.codecs);
    report.append(
        "\ncodec,source_bytes,stored_bytes,ratio,retained_percent,compression_seconds,compression_mib_per_second,blocks\n",
    );
    let ghost header = report@;
    let mut index: usize = 0;
    assert(results@.take(0) =~= Seq::<CodecResult>::empty());
    assert(report@ =~= header + result_texts(results@.take(0)));
    while index < results.len()
        invariant
            index <= results@.len(),
            report@ == header + result_texts(results@.take(index as int)),
        decreases results@.len() - index,
    {
        push_result(&mut report, &results[index]);
        proof {
            let longer = results@.take(index + 1);
            assert(longer.drop_last() =~= results@.take(index as int));
            assert(report@ =~= header + result_texts(longer));
        }
        index = index + 1;
    }
    assert(results@.take(index as int) =~= results@);
    report.append(
        "note: every codec uses independent blocks and passes first-block round-trip verification; codec throughput excludes input read time. `screen` omits slow archival candidates, while `all` includes every configured engine.\n",
    );
    report
}

} // verus!
