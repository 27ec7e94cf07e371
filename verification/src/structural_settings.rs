//! Arguments of the structural benchmark.

use vstd::prelude::*;

use crate::arguments::{needed, optional_text, take_value};
use crate::sizes::{
    byte_count, complain_number, number_complaint, number_of, parse_byte_count, read_number,
};
use crate::text::{characters, same_str, text_views};

verus! {

/// Bytes read when no limit is given.
pub const DEFAULT_LIMIT_BYTES: u64 = 1_073_741_824;

/// Bytes of a block when no size is given.
pub const DEFAULT_BLOCK_BYTES: usize = 8_388_608;

/// Settings of the structural benchmark.
#[derive(Debug, PartialEq, Eq)]
pub struct StructuralSettings {
    /// Source file.
    pub input: String,
    /// Where the report is written.
    pub report_path: Option<String>,
    /// Bytes of the source that are read.
    pub limit_bytes: u64,
    /// Bytes of a block.
    pub block_bytes: usize,
    /// Workers.
    pub workers: usize,
    /// Where blocks are written.
    pub output_dir: Option<String>,
    /// Whether records are collated by content.
    pub locality_routing: bool,
    /// Whether dictionaries are trained on the way.
    pub realtime_dictionary: bool,
    /// Whether a query index is kept.
    pub persistent_query_index: bool,
}

/// What settings say.
#[verifier::ext_equal]
pub struct StructuralChoice {
    /// Source file.
    pub input: Seq<char>,
    /// Where the report is written.
    pub report_path: Option<Seq<char>>,
    /// Bytes of the source that are read.
    pub limit_bytes: nat,
    /// Bytes of a block.
    pub block_bytes: nat,
    /// Workers.
    pub workers: nat,
    /// Where blocks are written.
    pub output_dir: Option<Seq<char>>,
    /// Whether records are collated by content.
    pub locality_routing: bool,
    /// Whether dictionaries are trained on the way.
    pub realtime_dictionary: bool,
    /// Whether a query index is kept.
    pub persistent_query_index: bool,
}

impl View for StructuralSettings {
    type V = StructuralChoice;

    open spec fn view(&self) -> StructuralChoice {
        StructuralChoice {
            input: self.input@,
            report_path: optional_text(self.report_path),
            limit_bytes: self.limit_bytes as nat,
            block_bytes: self.block_bytes as nat,
            workers: self.workers as nat,
            output_dir: optional_text(self.output_dir),
            locality_routing: self.locality_routing,
            realtime_dictionary: self.realtime_dictionary,
            persistent_query_index: self.persistent_query_index,
        }
    }
}

/// The first of two words, the second, or what is said of another.
pub open spec fn choose_word(
    value: Seq<char>,
    yes: Seq<char>,
    no: Seq<char>,
    complaint: Seq<char>,
) -> Result<bool, Seq<char>> {
    if value == yes {
        Ok(true)
    } else if value == no {
        Ok(false)
    } else {
        Err(complaint + value)
    }
}

/// A byte count that can be addressed.
pub open spec fn addressable_count(value: Seq<char>) -> Result<nat, Seq<char>> {
    match byte_count(value) {
        Err(text) => Err(text),
        Ok(count) => if count > usize::MAX {
            Err("out of range integral type conversion attempted"@)
        } else {
            Ok(count)
        },
    }
}

/// A number that can be addressed.
pub open spec fn addressable_number(value: Seq<char>) -> Result<nat, Seq<char>> {
    match number_of(value, usize::MAX as nat) {
        Err(fault) => Err(number_complaint(fault)),
        Ok(number) => Ok(number),
    }
}

/// What one flag and its value change.
pub open spec fn structural_flag(
    choice: StructuralChoice,
    flag: Seq<char>,
    value: Option<Seq<char>>,
) -> Result<StructuralChoice, Seq<char>> {
    if flag == "--report"@ {
        match needed(value, "--report requires a path"@) {
            Err(text) => Err(text),
            Ok(path) => Ok(StructuralChoice { report_path: Some(path), ..choice }),
        }
    } else if flag == "--output-dir"@ {
        match needed(value, "--output-dir requires a path"@) {
            Err(text) => Err(text),
            Ok(path) => Ok(StructuralChoice { output_dir: Some(path), ..choice }),
        }
    } else if flag == "--limit-bytes"@ {
        match needed(value, "--limit-bytes requires a value"@) {
            Err(text) => Err(text),
            Ok(count) => match byte_count(count) {
                Err(text) => Err(text),
                Ok(limit_bytes) => Ok(StructuralChoice { limit_bytes, ..choice }),
            },
        }
    } else if flag == "--block-bytes"@ {
        match needed(value, "--block-bytes requires a value"@) {
            Err(text) => Err(text),
            Ok(count) => match addressable_count(count) {
                Err(text) => Err(text),
                Ok(block_bytes) => Ok(StructuralChoice { block_bytes, ..choice }),
            },
        }
    } else if flag == "--workers"@ {
        match needed(value, "--workers requires a value"@) {
            Err(text) => Err(text),
            Ok(count) => match addressable_number(count) {
                Err(text) => Err(text),
                Ok(workers) => Ok(StructuralChoice { workers, ..choice }),
            },
        }
    } else if flag == "--locality"@ {
        match needed(value, "--locality requires enabled or disabled"@) {
            Err(text) => Err(text),
            Ok(word) => match choose_word(
                word,
                "enabled"@,
                "disabled"@,
                "--locality must be enabled or disabled, got "@,
            ) {
                Err(text) => Err(text),
                Ok(locality_routing) => Ok(StructuralChoice { locality_routing, ..choice }),
            },
        }
    } else if flag == "--dictionary"@ {
        match needed(value, "--dictionary requires disabled or realtime"@) {
            Err(text) => Err(text),
            Ok(word) => match choose_word(
                word,
                "realtime"@,
                "disabled"@,
                "--dictionary must be disabled or realtime, got "@,
            ) {
                Err(text) => Err(text),
                Ok(realtime_dictionary) => Ok(StructuralChoice { realtime_dictionary, ..choice }),
            },
        }
    } else if flag == "--index"@ {
        match needed(value, "--index requires disabled or persistent"@) {
            Err(text) => Err(text),
            Ok(word) => match choose_word(
                word,
                "persistent"@,
                "disabled"@,
                "--index must be disabled or persistent, got "@,
            ) {
                Err(text) => Err(text),
                Ok(persistent_query_index) => Ok(
                    StructuralChoice { persistent_query_index, ..choice },
                ),
            },
        }
    } else {
        Err("unknown argument: "@ + flag)
    }
}

/// What the flags from a position on make of settings.
pub open spec fn structural_flags(
    choice: StructuralChoice,
    arguments: Seq<Seq<char>>,
    position: int,
) -> Result<StructuralChoice, Seq<char>>
    decreases arguments.len() - position,
{
    if position < 0 || position >= arguments.len() {
        Ok(choice)
    } else {
        let value = if position + 1 < arguments.len() {
            Some(arguments[position + 1])
        } else {
            None
        };
        match structural_flag(choice, arguments[position], value) {
            Err(text) => Err(text),
            Ok(next) => structural_flags(next, arguments, position + 2),
        }
    }
}

/// What is said of settings that do not go together.
pub open spec fn structural_conflict(choice: StructuralChoice) -> Option<Seq<char>> {
    if choice.limit_bytes == 0 || choice.block_bytes == 0 || choice.workers == 0 {
        Some("byte limits must be nonzero"@)
    } else if choice.realtime_dictionary && choice.locality_routing {
        Some("the real-time dictionary benchmark currently requires --locality disabled"@)
    } else if choice.persistent_query_index && choice.locality_routing {
        Some("the persistent query-index benchmark currently requires --locality disabled"@)
    } else {
        None
    }
}

/// Settings before any flag.
pub open spec fn structural_defaults(input: Seq<char>) -> StructuralChoice {
    StructuralChoice {
        input,
        report_path: None,
        limit_bytes: DEFAULT_LIMIT_BYTES as nat,
        block_bytes: DEFAULT_BLOCK_BYTES as nat,
        workers: 1,
        output_dir: None,
        locality_routing: false,
        realtime_dictionary: false,
        persistent_query_index: false,
    }
}

/// What arguments choose.
pub open spec fn structural_choice(arguments: Seq<Seq<char>>) -> Result<StructuralChoice, Seq<char>> {
    if arguments.len() == 0 {
        Err(structural_usage()@)
    } else {
        match structural_flags(structural_defaults(arguments[0]), arguments, 1) {
            Err(text) => Err(text),
            Ok(choice) => match structural_conflict(choice) {
                Some(text) => Err(text),
                None => Ok(choice),
            },
        }
    }
}

/// How the benchmark is called.
pub open spec fn structural_usage() -> &'static str {
    "usage: shard-telemetry-structural-bench <docker-json.log> [--report PATH] [--output-dir PATH] [--limit-bytes N] [--block-bytes N] [--workers N] [--locality enabled|disabled] [--dictionary disabled|realtime] [--index disabled|persistent]"
}

/// Reads one of two words.
fn take_word(value: &String, yes: &str, no: &str, complaint: &str) -> (chosen: Result<bool, String>)
    ensures
        match chosen {
            Ok(chosen) => choose_word(value@, yes@, no@, complaint@) == Ok::<bool, Seq<char>>(
                chosen,
            ),
            Err(text) => choose_word(value@, yes@, no@, complaint@) == Err::<bool, Seq<char>>(
                text@,
            ),
        },
{
    if same_str(value.as_str(), yes) {
        Ok(true)
    } else if same_str(value.as_str(), no) {
        Ok(false)
    } else {
        let mut text = complaint.to_owned();
        text.append(value.as_str());
        Err(text)
    }
}

/// Reads a byte count that can be addressed.
pub fn parse_addressable_count(value: &str) -> (count: Result<usize, String>)
    ensures
        match count {
            Ok(count) => addressable_count(value@) == Ok::<nat, Seq<char>>(count as nat),
            Err(text) => addressable_count(value@) == Err::<nat, Seq<char>>(text@),
        },
{
    match parse_byte_count(value) {
        Err(text) => Err(text),
        Ok(count) => if count > usize::MAX as u64 {
            Err("out of range integral type conversion attempted".to_owned())
        } else {
            Ok(count as usize)
        },
    }
}

/// Reads a number that can be addressed.
pub fn parse_addressable_number(value: &str) -> (number: Result<usize, String>)
    ensures
        match number {
            Ok(number) => addressable_number(value@) == Ok::<nat, Seq<char>>(number as nat),
            Err(text) => addressable_number(value@) == Err::<nat, Seq<char>>(text@),
        },
{
    let letters = characters(value);
    match read_number(letters.as_slice(), usize::MAX as u64) {
        Err(fault) => Err(complain_number(fault)),
        Ok(number) => Ok(number as usize),
    }
}

/// Applies one flag.
fn apply_structural_flag(settings: &mut StructuralSettings, arguments: &Vec<String>, position: usize) -> (applied:
    Result<(), String>)
    requires
        position < arguments@.len(),
    ensures
        ({
            let given = if position + 1 < arguments@.len() {
                Some(arguments@[position + 1]@)
            } else {
                None
            };
            match applied {
                Ok(_) => structural_flag(old(settings)@, arguments@[position as int]@, given)
                    == Ok::<StructuralChoice, Seq<char>>(final(settings)@),
                Err(text) => structural_flag(old(settings)@, arguments@[position as int]@, given)
                    == Err::<StructuralChoice, Seq<char>>(text@),
            }
        }),
{
    let flag = arguments[position].as_str();
    if same_str(flag, "--report") {
        let value = take_value(arguments, position, "--report requires a path")?;
        settings.report_path = Some(value.clone());
    } else if same_str(flag, "--output-dir") {
        let value = take_value(arguments, position, "--output-dir requires a path")?;
        settings.output_dir = Some(value.clone());
    } else if same_str(flag, "--limit-bytes") {
        let value = take_value(arguments, position, "--limit-bytes requires a value")?;
        settings.limit_bytes = parse_byte_count(value.as_str())?;
    } else if same_str(flag, "--block-bytes") {
        let value = take_value(arguments, position, "--block-bytes requires a value")?;
        settings.block_bytes = parse_addressable_count(value.as_str())?;
    } else if same_str(flag, "--workers") {
        let value = take_value(arguments, position, "--workers requires a value")?;
        settings.workers = parse_addressable_number(value.as_str())?;
    } else if same_str(flag, "--locality") {
        let value = take_value(arguments, position, "--locality requires enabled or disabled")?;
        settings.locality_routing =
        take_word(
            value,
            "enabled",
            "disabled",
            "--locality must be enabled or disabled, got ",
        )?;
    } else if same_str(flag, "--dictionary") {
        let value = take_value(arguments, position, "--dictionary requires disabled or realtime")?;
        settings.realtime_dictionary =
        take_word(
            value,
            "realtime",
            "disabled",
            "--dictionary must be disabled or realtime, got ",
        )?;
    } else if same_str(flag, "--index") {
        let value = take_value(arguments, position, "--index requires disabled or persistent")?;
        settings.persistent_query_index =
        take_word(
            value,
            "persistent",
            "disabled",
            "--index must be disabled or persistent, got ",
        )?;
    } else {
        let mut text = "unknown argument: ".to_owned();
        text.append(flag);
        return Err(text);
    }
    Ok(())
}

/// Reads the arguments of the structural benchmark, without the program name.
pub fn parse_settings(arguments: &Vec<String>) -> (settings: Result<StructuralSettings, String>)
    ensures
        match settings {
            Ok(settings) => structural_choice(text_views(arguments@)) == Ok::<
                StructuralChoice,
                Seq<char>,
            >(settings@),
            Err(text) => structural_choice(text_views(arguments@)) == Err::<
                StructuralChoice,
                Seq<char>,
            >(text@),
        },
{
    let ghost views = text_views(arguments@);
    if arguments.len() == 0 {
        return Err(
            "usage: shard-telemetry-structural-bench <docker-json.log> [--report PATH] [--output-dir PATH] [--limit-bytes N] [--block-bytes N] [--workers N] [--locality enabled|disabled] [--dictionary disabled|realtime] [--index disabled|persistent]".to_owned(),
        );
    }
    let mut settings = StructuralSettings {
        input: arguments[0].clone(),
        report_path: None,
        limit_bytes: DEFAULT_LIMIT_BYTES,
        block_bytes: DEFAULT_BLOCK_BYTES,
        workers: 1,
        output_dir: None,
        locality_routing: false,
        realtime_dictionary: false,
        persistent_query_index: false,
    };
    assert(settings@ == structural_defaults(views[0]));
    let mut position: usize = 1;
    while position < arguments.len()
        invariant
            1 <= position,
            views == text_views(arguments@),
            views.len() > 0,
            structural_flags(structural_defaults(views[0]), views, 1) == structural_flags(
                settings@,
                views,
                position as int,
            ),
        decreases arguments@.len() - position,
    {
        assert(views[position as int] == arguments@[position as int]@);
        if position + 1 < arguments.len() {
            assert(views[position + 1] == arguments@[position + 1]@);
        }
        apply_structural_flag(&mut settings, arguments, position)?;
        if position + 1 < arguments.len() {
            position = position + 2;
        } else {
            position = position + 1;
        }
    }
    if settings.limit_bytes == 0 || settings.block_bytes == 0 || settings.workers == 0 {
        return Err("byte limits must be nonzero".to_owned());
    }
    if settings.realtime_dictionary && settings.locality_routing {
        return Err(
            "the real-time dictionary benchmark currently requires --locality disabled".to_owned(),
        );
    }
    if settings.persistent_query_index && settings.locality_routing {
        return Err(
            "the persistent query-index benchmark currently requires --locality disabled".to_owned(),
        );
    }
    Ok(settings)
}

} // verus!
