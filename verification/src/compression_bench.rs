//! The log compression benchmark: blocks of lines, of templates, and its report.

use vstd::prelude::*;

use crate::arguments::{following, needed, optional_text, take_value};
use crate::codec_bench::{
    addressable_size, capped_sum, parse_addressable_size, DEFAULT_BLOCK_BYTES, DEFAULT_LIMIT_BYTES,
};
use crate::sizes::{number_complaint, parse_size, size_of_text};
use crate::text::{same_str, text_views};
use crate::wire::push_bytes;
use crate::zstd_frames::{
    zstd_dictionary_compress, zstd_dictionary_content, zstd_dictionary_frames,
    zstd_dictionary_refuses,
};

verus! {

/// Bytes of lines that a dictionary is trained on.
pub const DICTIONARY_SAMPLE_BYTES: usize = 67_108_864;

/// Bytes of a trained dictionary, at most.
pub const DICTIONARY_BYTES: usize = 114_688;

/// Lines that a dictionary needs.
pub const LEAST_SAMPLES: usize = 8;

/// Compression level of the benchmark.
pub const ZSTD_LEVEL: i32 = 3;

/// Settings of the log compression benchmark.
#[derive(Debug, PartialEq, Eq)]
pub struct CompressionSettings {
    /// Source file, or `-` for standard input.
    pub input: String,
    /// Where standard input is kept.
    pub stdin_spool_path: Option<String>,
    /// Where the report is written.
    pub report_path: Option<String>,
    /// Bytes of the source that are read.
    pub limit_bytes: u64,
    /// Bytes of a block.
    pub block_bytes: usize,
}

/// What settings of the log compression benchmark say.
#[verifier::ext_equal]
pub struct CompressionPlan {
    /// Source file, or `-` for standard input.
    pub input: Seq<char>,
    /// Where standard input is kept.
    pub stdin_spool_path: Option<Seq<char>>,
    /// Where the report is written.
    pub report_path: Option<Seq<char>>,
    /// Bytes of the source that are read.
    pub limit_bytes: nat,
    /// Bytes of a block.
    pub block_bytes: nat,
}

impl View for CompressionSettings {
    type V = CompressionPlan;

    open spec fn view(&self) -> CompressionPlan {
        CompressionPlan {
            input: self.input@,
            stdin_spool_path: optional_text(self.stdin_spool_path),
            report_path: optional_text(self.report_path),
            limit_bytes: self.limit_bytes as nat,
            block_bytes: self.block_bytes as nat,
        }
    }
}

/// What one flag and its value change.
pub open spec fn compression_flag(
    plan: CompressionPlan,
    flag: Seq<char>,
    value: Option<Seq<char>>,
) -> Result<CompressionPlan, Seq<char>> {
    if flag == "--report"@ {
        match needed(value, "--report requires a path"@) {
            Err(text) => Err(text),
            Ok(path) => Ok(CompressionPlan { report_path: Some(path), ..plan }),
        }
    } else if flag == "--spool-stdin-to"@ {
        match needed(value, "--spool-stdin-to requires a path"@) {
            Err(text) => Err(text),
            Ok(path) => Ok(CompressionPlan { stdin_spool_path: Some(path), ..plan }),
        }
    } else if flag == "--limit-bytes"@ {
        match needed(value, "--limit-bytes requires a value"@) {
            Err(text) => Err(text),
            Ok(value) => match size_of_text(value) {
                Err(fault) => Err(number_complaint(fault)),
                Ok(limit_bytes) => Ok(CompressionPlan { limit_bytes, ..plan }),
            },
        }
    } else if flag == "--block-bytes"@ {
        match needed(value, "--block-bytes requires a value"@) {
            Err(text) => Err(text),
            Ok(value) => match addressable_size(value) {
                Err(text) => Err(text),
                Ok(block_bytes) => Ok(CompressionPlan { block_bytes, ..plan }),
            },
        }
    } else {
        Err("unknown argument "@ + flag)
    }
}

/// What the flags from a position on change.
pub open spec fn compression_flags(
    plan: CompressionPlan,
    arguments: Seq<Seq<char>>,
    position: int,
) -> Result<CompressionPlan, Seq<char>>
    decreases arguments.len() - position,
{
    if position < 0 || position >= arguments.len() {
        Ok(plan)
    } else {
        match compression_flag(plan, arguments[position], following(arguments, position)) {
            Err(text) => Err(text),
            Ok(next) => compression_flags(next, arguments, position + 2),
        }
    }
}

/// What speaks against settings.
pub open spec fn compression_conflict(plan: CompressionPlan) -> Option<Seq<char>> {
    if plan.limit_bytes == 0 || plan.block_bytes == 0 {
        Some("byte limits must be nonzero"@)
    } else if plan.input == "-"@ && plan.stdin_spool_path is None {
        Some("stdin requires --spool-stdin-to PATH so every layout reads identical input"@)
    } else if plan.input != "-"@ && plan.stdin_spool_path is Some {
        Some("--spool-stdin-to is valid only when input is -"@)
    } else {
        None
    }
}

/// Settings before any flag.
pub open spec fn compression_defaults(input: Seq<char>) -> CompressionPlan {
    CompressionPlan {
        input,
        stdin_spool_path: None,
        report_path: None,
        limit_bytes: DEFAULT_LIMIT_BYTES as nat,
        block_bytes: DEFAULT_BLOCK_BYTES as nat,
    }
}

/// The settings that arguments give.
pub open spec fn compression_plan(arguments: Seq<Seq<char>>) -> Result<CompressionPlan, Seq<char>> {
    if arguments.len() == 0 {
        Err(
            "usage: shard-telemetry-compress-bench <raw-log-file|-> [--spool-stdin-to PATH] [--report PATH] [--limit-bytes N] [--block-bytes N]"@,
        )
    } else {
        match compression_flags(compression_defaults(arguments[0]), arguments, 1) {
            Err(text) => Err(text),
            Ok(plan) => match compression_conflict(plan) {
                Some(text) => Err(text),
                None => Ok(plan),
            },
        }
    }
}

fn apply_compression_flag(
    settings: &mut CompressionSettings,
    arguments: &Vec<String>,
    position: usize,
) -> (applied: Result<(), String>)
    requires
        position < arguments@.len(),
    ensures
        ({
            let given = following(text_views(arguments@), position as int);
            match applied {
                Ok(_) => compression_flag(old(settings)@, arguments@[position as int]@, given)
                    == Ok::<CompressionPlan, Seq<char>>(final(settings)@),
                Err(text) => compression_flag(old(settings)@, arguments@[position as int]@, given)
                    == Err::<CompressionPlan, Seq<char>>(text@),
            }
        }),
{
    let flag = arguments[position].as_str();
    if same_str(flag, "--report") {
        let value = take_value(arguments, position, "--report requires a path")?;
        settings.report_path = Some(value.clone());
    } else if same_str(flag, "--spool-stdin-to") {
        let value = take_value(arguments, position, "--spool-stdin-to requires a path")?;
        settings.stdin_spool_path = Some(value.clone());
    } else if same_str(flag, "--limit-bytes") {
        let value = take_value(arguments, position, "--limit-bytes requires a value")?;
        settings.limit_bytes = parse_size(value.as_str())?;
    } else if same_str(flag, "--block-bytes") {
        let value = take_value(arguments, position, "--block-bytes requires a value")?;
        settings.block_bytes = parse_addressable_size(value.as_str())?;
    } else {
        let mut text = "unknown argument ".to_owned();
        text.append(flag);
        return Err(text);
    }
    Ok(())
}

/// Reads the arguments of the log compression benchmark.
pub fn parse_settings(arguments: &Vec<String>) -> (settings: Result<CompressionSettings, String>)
    ensures
        match settings {
            Ok(settings) => compression_plan(text_views(arguments@)) == Ok::<
                CompressionPlan,
                Seq<char>,
            >(settings@),
            Err(text) => compression_plan(text_views(arguments@)) == Err::<
                CompressionPlan,
                Seq<char>,
            >(text@),
        },
{
    let ghost views = text_views(arguments@);
    if arguments.len() == 0 {
        return Err(
            "usage: shard-telemetry-compress-bench <raw-log-file|-> [--spool-stdin-to PATH] [--report PATH] [--limit-bytes N] [--block-bytes N]".to_owned(),
        );
    }
    let mut settings = CompressionSettings {
        input: arguments[0].clone(),
        stdin_spool_path: None,
        report_path: None,
        limit_bytes: DEFAULT_LIMIT_BYTES,
        block_bytes: DEFAULT_BLOCK_BYTES,
    };
    assert(settings@ == compression_defaults(views[0]));
    let mut position: usize = 1;
    while position < arguments.len()
        invariant
            1 <= position,
            views == text_views(arguments@),
            views.len() > 0,
            compression_flags(compression_defaults(views[0]), views, 1) == compression_flags(
                settings@,
                views,
                position as int,
            ),
        decreases arguments@.len() - position,
    {
        assert(views[position as int] == arguments@[position as int]@);
        apply_compression_flag(&mut settings, arguments, position)?;
        if position + 1 < arguments.len() {
            position = position + 2;
        } else {
            position = position + 1;
        }
    }
    if settings.limit_bytes == 0 || settings.block_bytes == 0 {
        return Err("byte limits must be nonzero".to_owned());
    }
    let reads_stdin = same_str(settings.input.as_str(), "-");
    if reads_stdin && settings.stdin_spool_path.is_none() {
        return Err(
            "stdin requires --spool-stdin-to PATH so every layout reads identical input".to_owned(),
        );
    }
    if !reads_stdin && settings.stdin_spool_path.is_some() {
        return Err("--spool-stdin-to is valid only when input is -".to_owned());
    }
    Ok(settings)
}

/// Counts a line where it still fits the limit.
pub fn accept_line(source_bytes: &mut u64, line_bytes: usize, limit_bytes: u64) -> (accepted: bool)
    ensures
        accepted == (capped_sum(*old(source_bytes), line_bytes as int) <= limit_bytes),
        *final(source_bytes) == if accepted {
            capped_sum(*old(source_bytes), line_bytes as int)
        } else {
            *old(source_bytes) as int
        },
{
    let next = source_bytes.saturating_add(line_bytes as u64);
    if next > limit_bytes {
        return false;
    }
    *source_bytes = next;
    true
}

/// Bytes of byte strings.
pub open spec fn sample_views(samples: Seq<Vec<u8>>) -> Seq<Seq<u8>> {
    Seq::new(samples.len(), |i: int| samples[i]@)
}

/// Lines that a dictionary is trained on.
#[derive(Debug)]
pub struct DictionarySamples {
    /// The lines.
    pub lines: Vec<Vec<u8>>,
    /// Their bytes.
    pub sampled: usize,
}

impl DictionarySamples {
    /// No line yet.
    pub fn new() -> (samples: Self)
        ensures
            samples.lines@.len() == 0,
            samples.sampled == 0,
    {
        Self { lines: Vec::new(), sampled: 0 }
    }

    /// Whether more lines are wanted.
    pub fn wants_more(&self) -> (wanted: bool)
        ensures
            wanted == (self.sampled < DICTIONARY_SAMPLE_BYTES),
    {
        self.sampled < DICTIONARY_SAMPLE_BYTES
    }

    /// Adds a line, unless it is empty.
    pub fn add_line(&mut self, line: Vec<u8>)
        ensures
            line@.len() == 0 ==> *final(self) == *old(self),
            line@.len() > 0 ==> final(self).lines@ == old(self).lines@.push(line) && final(self).sampled == if old(self).sampled + line@.len() > usize::MAX {
                usize::MAX as int
            } else {
                old(self).sampled + line@.len()
            },
    {
        if line.len() == 0 {
            return;
        }
        self.sampled = self.sampled.saturating_add(line.len());
        self.lines.push(line);
    }

    /// Trains a dictionary, where there are lines enough.
    pub fn train(&self) -> (dictionary: Result<Vec<u8>, String>)
        ensures
            self.lines@.len() < LEAST_SAMPLES ==> (dictionary matches Err(text) && text@
                == "input has too few lines to train a zstd dictionary"@),
            match dictionary {
                Ok(dictionary) => self.lines@.len() >= LEAST_SAMPLES && zstd_trainings(
                    sample_views(self.lines@),
                    DICTIONARY_BYTES as nat,
                ).contains(Ok::<Seq<u8>, Seq<char>>(dictionary@)),
                Err(text) => self.lines@.len() >= LEAST_SAMPLES ==> zstd_trainings(
                    sample_views(self.lines@),
                    DICTIONARY_BYTES as nat,
                ).contains(Err::<Seq<u8>, Seq<char>>(text@)),
            },
    {
        if self.lines.len() < LEAST_SAMPLES {
            return Err("input has too few lines to train a zstd dictionary".to_owned());
        }
        zstd_train(&self.lines, DICTIONARY_BYTES)
    }
}

/// What `zstd::dict::from_samples` may return for samples within a limit: a
/// dictionary, or the text of an error.
pub uninterp spec fn zstd_trainings(samples: Seq<Seq<u8>>, limit: nat) -> Set<Result<Seq<u8>, Seq<char>>>;

/// Calls `zstd::dict::from_samples`. The claim is that a dictionary or an error
/// it returns is an outcome for these samples and this limit. Which outcome comes
/// back stays open.
#[verifier::external_body]
fn zstd_train(samples: &Vec<Vec<u8>>, limit: usize) -> (dictionary: Result<Vec<u8>, String>)
    requires
        limit <= isize::MAX,
    ensures
        match dictionary {
            Ok(dictionary) => zstd_trainings(sample_views(samples@), limit as nat).contains(
                Ok::<Seq<u8>, Seq<char>>(dictionary@),
            ),
            Err(text) => zstd_trainings(sample_views(samples@), limit as nat).contains(
                Err::<Seq<u8>, Seq<char>>(text@),
            ),
        },
{
    zstd::dict::from_samples(samples, limit).map_err(|error| error.to_string())
}

/// Bytes and blocks of a compressed source.
#[derive(Debug, Clone, Copy, PartialEq, Eq, Structural)]
pub struct BlockCompression {
    /// Bytes read.
    pub source_bytes: u64,
    /// Bytes of the compressed blocks.
    pub stored_bytes: u64,
    /// Blocks.
    pub blocks: u64,
}

/// What was stored, after one more block that takes `bytes`.
pub open spec fn block_counted(before: BlockCompression, bytes: nat) -> BlockCompression {
    BlockCompression {
        source_bytes: before.source_bytes,
        stored_bytes: capped_sum(before.stored_bytes, bytes as int) as u64,
        blocks: capped_sum(before.blocks, 1) as u64,
    }
}

/// Whether a block was stored: the size of some frame that holds it was counted.
pub open spec fn block_stored(
    before: BlockCompression,
    after: BlockCompression,
    block: Seq<u8>,
    dictionary: Seq<u8>,
) -> bool {
    exists|frame: Seq<u8>| #[trigger]
        zstd_dictionary_frames(block, ZSTD_LEVEL, dictionary).contains(frame)
            && zstd_dictionary_content(frame, dictionary) == Some(block) && after == block_counted(
            before,
            frame.len(),
        )
}

/// Lines on their way into compressed blocks.
#[derive(Debug)]
pub struct RawCompressor {
    /// Dictionary, or no bytes.
    pub dictionary: Vec<u8>,
    /// Bytes of the source that are read.
    pub limit_bytes: u64,
    /// Bytes of a block.
    pub block_bytes: usize,
    /// Lines of the block that is being filled.
    pub block: Vec<u8>,
    /// What was read and stored so far.
    pub totals: BlockCompression,
}

impl RawCompressor {
    /// Nothing read yet.
    pub fn new(settings: &CompressionSettings, dictionary: Vec<u8>) -> (compressor: Self)
        ensures
            compressor.dictionary == dictionary,
            compressor.limit_bytes == settings.limit_bytes,
            compressor.block_bytes == settings.block_bytes,
            compressor.block@ == Seq::<u8>::empty(),
            compressor.totals == (BlockCompression { source_bytes: 0, stored_bytes: 0, blocks: 0 }),
    {
        Self {
            dictionary,
            limit_bytes: settings.limit_bytes,
            block_bytes: settings.block_bytes,
            block: Vec::new(),
            totals: BlockCompression { source_bytes: 0, stored_bytes: 0, blocks: 0 },
        }
    }

    /// Counts the frame that the compressor made of the block and empties the
    /// block, or passes its complaint on.
    pub fn count_frame(&mut self, made: Result<Vec<u8>, String>) -> (counted: Result<(), String>)
        ensures
            final(self).dictionary == old(self).dictionary,
            final(self).limit_bytes == old(self).limit_bytes,
            final(self).block_bytes == old(self).block_bytes,
            match made {
                Ok(frame) => counted is Ok && final(self).block@ == Seq::<u8>::empty()
                    && final(self).totals == block_counted(old(self).totals, frame@.len()),
                Err(text) => counted == Err::<(), String>(text) && *final(self) == *old(self),
            },
    {
        let frame = match made {
            Ok(frame) => frame,
            Err(text) => {
                return Err(text);
            },
        };
        self.totals.stored_bytes = self.totals.stored_bytes.saturating_add(frame.len() as u64);
        self.totals.blocks = self.totals.blocks.saturating_add(1);
        self.block.clear();
        assert(self.block@ =~= Seq::<u8>::empty());
        Ok(())
    }

    fn store_block(&mut self) -> (stored: Result<(), String>)
        requires
            2 * old(self).block@.len() + 0x2_0000 <= isize::MAX,
        ensures
            final(self).dictionary == old(self).dictionary,
            final(self).limit_bytes == old(self).limit_bytes,
            final(self).block_bytes == old(self).block_bytes,
            match stored {
                Ok(_) => final(self).block@ == Seq::<u8>::empty() && block_stored(
                    old(self).totals,
                    final(self).totals,
                    old(self).block@,
                    old(self).dictionary@,
                ),
                Err(text) => *final(self) == *old(self) && zstd_dictionary_refuses(
                    old(self).block@,
                    ZSTD_LEVEL,
                    old(self).dictionary@,
                    text@,
                ),
            },
    {
        let made = zstd_dictionary_compress(
            self.block.as_slice(),
            ZSTD_LEVEL,
            self.dictionary.as_slice(),
        );
        proof {
            if made is Ok {
                assert(zstd_dictionary_frames(
                    old(self).block@,
                    ZSTD_LEVEL,
                    old(self).dictionary@,
                ).contains(made->Ok_0@));
            }
        }
        self.count_frame(made)
    }

    /// Adds a line, and stores the block where it is full. `false` says that the
    /// line is past the limit.
    pub fn add_line(&mut self, line: &[u8]) -> (added: Result<bool, String>)
        requires
            2 * (old(self).block@.len() + line@.len()) + 0x2_0000 <= isize::MAX,
        ensures
            final(self).dictionary == old(self).dictionary,
            final(self).limit_bytes == old(self).limit_bytes,
            final(self).block_bytes == old(self).block_bytes,
            ({
                let read = capped_sum(old(self).totals.source_bytes, line@.len() as int);
                let joined = old(self).block@ + line@;
                let counted = BlockCompression { source_bytes: read as u64, ..old(self).totals };
                match added {
                    Ok(false) => read > old(self).limit_bytes && final(self).block == old(self).block
                        && final(self).totals == old(self).totals,
                    Ok(true) => read <= old(self).limit_bytes && if joined.len() >= old(self).block_bytes {
                        final(self).block@ == Seq::<u8>::empty() && block_stored(
                            counted,
                            final(self).totals,
                            joined,
                            old(self).dictionary@,
                        )
                    } else {
                        final(self).block@ == joined && final(self).totals == counted
                    },
                    Err(text) => read <= old(self).limit_bytes && joined.len() >= old(
                        self,
                    ).block_bytes && final(self).block@ == joined && final(self).totals == counted
                        && zstd_dictionary_refuses(
                        joined,
                        ZSTD_LEVEL,
                        old(self).dictionary@,
                        text@,
                    ),
                }
            }),
    {
        assert(line.len() == line@.len());
        let mut source_bytes = self.totals.source_bytes;
        if !accept_line(&mut source_bytes, line.len(), self.limit_bytes) {
            return Ok(false);
        }
        self.totals.source_bytes = source_bytes;
        push_bytes(&mut self.block, line);
        if self.block.len() >= self.block_bytes {
            self.store_block()?;
        }
        Ok(true)
    }

    /// Stores what is left.
    pub fn finish(&mut self) -> (totals: Result<BlockCompression, String>)
        requires
            2 * old(self).block@.len() + 0x2_0000 <= isize::MAX,
        ensures
            match totals {
                Ok(totals) => totals == final(self).totals && if old(self).block@.len() == 0 {
                    totals == old(self).totals
                } else {
                    block_stored(old(self).totals, totals, old(self).block@, old(self).dictionary@)
                },
                Err(text) => old(self).block@.len() > 0 && *final(self) == *old(self)
                    && zstd_dictionary_refuses(
                    old(self).block@,
                    ZSTD_LEVEL,
                    old(self).dictionary@,
                    text@,
                ),
            },
    {
        if self.block.len() > 0 {
            self.store_block()?;
        }
        Ok(self.totals)
    }
}

} // verus!
