//! Arguments of the signal benchmark, and how its blocks are kept.

use vstd::bytes::spec_u64_to_le_bytes;
use vstd::prelude::*;

use crate::arguments::{following, needed, optional_text, take_value};
use crate::structural_settings::{addressable_number, parse_addressable_number};
use crate::text::{same_str, text_views};
use crate::wire::{push_bytes, push_u64};

verus! {

/// Settings of the signal benchmark.
#[derive(Debug, PartialEq, Eq)]
pub struct SignalSettings {
    /// Records of each signal.
    pub records: usize,
    /// Lookups of each signal.
    pub iterations: usize,
    /// Where rows are exported.
    pub clickhouse_dir: Option<String>,
    /// Where blocks are kept.
    pub durable_output_dir: Option<String>,
    /// Where a server store is built.
    pub server_data_directory: Option<String>,
    /// Shards of that store.
    pub server_shards: usize,
}

/// What settings of the signal benchmark say.
#[verifier::ext_equal]
pub struct SignalPlan {
    /// Records of each signal.
    pub records: nat,
    /// Lookups of each signal.
    pub iterations: nat,
    /// Where rows are exported.
    pub clickhouse_dir: Option<Seq<char>>,
    /// Where blocks are kept.
    pub durable_output_dir: Option<Seq<char>>,
    /// Where a server store is built.
    pub server_data_directory: Option<Seq<char>>,
    /// Shards of that store.
    pub server_shards: nat,
}

impl View for SignalSettings {
    type V = SignalPlan;

    open spec fn view(&self) -> SignalPlan {
        SignalPlan {
            records: self.records as nat,
            iterations: self.iterations as nat,
            clickhouse_dir: optional_text(self.clickhouse_dir),
            durable_output_dir: optional_text(self.durable_output_dir),
            server_data_directory: optional_text(self.server_data_directory),
            server_shards: self.server_shards as nat,
        }
    }
}

/// The count behind a flag.
pub open spec fn counted_value(value: Option<Seq<char>>, flag: Seq<char>) -> Result<nat, Seq<char>> {
    match needed(value, "missing value for "@ + flag) {
        Err(text) => Err(text),
        Ok(count) => addressable_number(count),
    }
}

/// What one flag and its value change.
pub open spec fn signal_flag(plan: SignalPlan, flag: Seq<char>, value: Option<Seq<char>>) -> Result<
    SignalPlan,
    Seq<char>,
> {
    if flag == "--records"@ {
        match counted_value(value, flag) {
            Err(text) => Err(text),
            Ok(records) => Ok(SignalPlan { records, ..plan }),
        }
    } else if flag == "--iterations"@ {
        match counted_value(value, flag) {
            Err(text) => Err(text),
            Ok(iterations) => Ok(SignalPlan { iterations, ..plan }),
        }
    } else if flag == "--clickhouse-dir"@ {
        match needed(value, "missing value for --clickhouse-dir"@) {
            Err(text) => Err(text),
            Ok(path) => Ok(SignalPlan { clickhouse_dir: Some(path), ..plan }),
        }
    } else if flag == "--durable-output-dir"@ {
        match needed(value, "missing value for --durable-output-dir"@) {
            Err(text) => Err(text),
            Ok(path) => Ok(SignalPlan { durable_output_dir: Some(path), ..plan }),
        }
    } else if flag == "--server-data-directory"@ {
        match needed(value, "missing value for --server-data-directory"@) {
            Err(text) => Err(text),
            Ok(path) => Ok(SignalPlan { server_data_directory: Some(path), ..plan }),
        }
    } else if flag == "--server-shards"@ {
        match counted_value(value, flag) {
            Err(text) => Err(text),
            Ok(server_shards) => Ok(SignalPlan { server_shards, ..plan }),
        }
    } else {
        Err("unknown argument "@ + flag)
    }
}

/// What the flags from a position on change.
pub open spec fn signal_flags(plan: SignalPlan, arguments: Seq<Seq<char>>, position: int) -> Result<
    SignalPlan,
    Seq<char>,
>
    decreases arguments.len() - position,
{
    if position < 0 || position >= arguments.len() {
        Ok(plan)
    } else {
        match signal_flag(plan, arguments[position], following(arguments, position)) {
            Err(text) => Err(text),
            Ok(next) => signal_flags(next, arguments, position + 2),
        }
    }
}

/// Settings before any flag.
pub open spec fn signal_defaults() -> SignalPlan {
    SignalPlan {
        records: 32_768,
        iterations: 2_000,
        clickhouse_dir: None,
        durable_output_dir: None,
        server_data_directory: None,
        server_shards: 1,
    }
}

/// The settings that arguments give.
pub open spec fn signal_plan(arguments: Seq<Seq<char>>) -> Result<SignalPlan, Seq<char>> {
    match signal_flags(signal_defaults(), arguments, 0) {
        Err(text) => Err(text),
        Ok(plan) => if plan.records < 128 || plan.iterations == 0 || plan.server_shards == 0
            || plan.server_shards > 256 {
            Err(
                "--records must be at least 128, --iterations must be nonzero, and --server-shards must be in 1..=256"@,
            )
        } else {
            Ok(plan)
        },
    }
}

fn take_count(arguments: &Vec<String>, position: usize) -> (count: Result<usize, String>)
    requires
        position < arguments@.len(),
    ensures
        ({
            let outcome = counted_value(
                following(text_views(arguments@), position as int),
                arguments@[position as int]@,
            );
            match count {
                Ok(count) => outcome == Ok::<nat, Seq<char>>(count as nat),
                Err(text) => outcome == Err::<nat, Seq<char>>(text@),
            }
        }),
{
    let mut missing = "missing value for ".to_owned();
    missing.append(arguments[position].as_str());
    let value = take_value(arguments, position, missing.as_str())?;
    parse_addressable_number(value.as_str())
}

fn apply_signal_flag(settings: &mut SignalSettings, arguments: &Vec<String>, position: usize) -> (applied:
    Result<(), String>)
    requires
        position < arguments@.len(),
    ensures
        ({
            let outcome = signal_flag(
                old(settings)@,
                arguments@[position as int]@,
                following(text_views(arguments@), position as int),
            );
            match applied {
                Ok(_) => outcome == Ok::<SignalPlan, Seq<char>>(final(settings)@),
                Err(text) => outcome == Err::<SignalPlan, Seq<char>>(text@),
            }
        }),
{
    let flag = arguments[position].as_str();
    if same_str(flag, "--records") {
        settings.records = take_count(arguments, position)?;
    } else if same_str(flag, "--iterations") {
        settings.iterations = take_count(arguments, position)?;
    } else if same_str(flag, "--clickhouse-dir") {
        let value = take_value(arguments, position, "missing value for --clickhouse-dir")?;
        settings.clickhouse_dir = Some(value.clone());
    } else if same_str(flag, "--durable-output-dir") {
        let value = take_value(arguments, position, "missing value for --durable-output-dir")?;
        settings.durable_output_dir = Some(value.clone());
    } else if same_str(flag, "--server-data-directory") {
        let value = take_value(arguments, position, "missing value for --server-data-directory")?;
        settings.server_data_directory = Some(value.clone());
    } else if same_str(flag, "--server-shards") {
        settings.server_shards = take_count(arguments, position)?;
    } else {
        let mut text = "unknown argument ".to_owned();
        text.append(flag);
        return Err(text);
    }
    Ok(())
}

/// Reads the arguments of the signal benchmark.
pub fn parse_settings(arguments: &Vec<String>) -> (settings: Result<SignalSettings, String>)
    ensures
        match settings {
            Ok(settings) => signal_plan(text_views(arguments@)) == Ok::<SignalPlan, Seq<char>>(
                settings@,
            ),
            Err(text) => signal_plan(text_views(arguments@)) == Err::<SignalPlan, Seq<char>>(text@),
        },
{
    let ghost views = text_views(arguments@);
    let mut settings = SignalSettings {
        records: 32_768,
        iterations: 2_000,
        clickhouse_dir: None,
        durable_output_dir: None,
        server_data_directory: None,
        server_shards: 1,
    };
    let mut position: usize = 0;
    while position < arguments.len()
        invariant
            views == text_views(arguments@),
            signal_flags(signal_defaults(), views, 0) == signal_flags(
                settings@,
                views,
                position as int,
            ),
        decreases arguments@.len() - position,
    {
        assert(views[position as int] == arguments@[position as int]@);
        apply_signal_flag(&mut settings, arguments, position)?;
        if position + 1 < arguments.len() {
            position = position + 2;
        } else {
            position = position + 1;
        }
    }
    if settings.records < 128 || settings.iterations == 0 || settings.server_shards == 0
        || settings.server_shards > 256 {
        return Err(
            "--records must be at least 128, --iterations must be nonzero, and --server-shards must be in 1..=256".to_owned(),
        );
    }
    Ok(settings)
}

/// One encoded block and its filter, with their lengths in front.
pub open spec fn kept_block(payload: Seq<u8>, filter: Seq<u8>) -> Seq<u8> {
    spec_u64_to_le_bytes(payload.len() as u64) + spec_u64_to_le_bytes(filter.len() as u64) + payload
        + filter
}

/// Encoded blocks and their filters, one behind the other.
pub open spec fn kept_blocks(encoded: Seq<(Vec<u8>, Vec<u8>)>) -> Seq<u8>
    decreases encoded.len(),
{
    if encoded.len() == 0 {
        Seq::empty()
    } else {
        kept_blocks(encoded.drop_last()) + kept_block(encoded.last().0@, encoded.last().1@)
    }
}

/// Frames encoded blocks and their filters for one file.
pub fn frame_blocks(encoded: &Vec<(Vec<u8>, Vec<u8>)>) -> (framed: Vec<u8>)
    ensures
        framed@ == kept_blocks(encoded@),
{
    let mut framed: Vec<u8> = Vec::new();
    let mut index: usize = 0;
    assert(encoded@.take(0) =~= Seq::<(Vec<u8>, Vec<u8>)>::empty());
    assert(framed@ =~= kept_blocks(encoded@.take(0)));
    while index < encoded.len()
        invariant
            index <= encoded@.len(),
            framed@ == kept_blocks(encoded@.take(index as int)),
        decreases encoded@.len() - index,
    {
        let ghost before = framed@;
        push_u64(&mut framed, encoded[index].0.len() as u64);
        push_u64(&mut framed, encoded[index].1.len() as u64);
        push_bytes(&mut framed, encoded[index].0.as_slice());
        push_bytes(&mut framed, encoded[index].1.as_slice());
        proof {
            let longer = encoded@.take(index + 1);
            assert(longer.drop_last() =~= encoded@.take(index as int));
            assert(framed@ =~= before + kept_block(
                encoded@[index as int].0@,
                encoded@[index as int].1@,
            ));
        }
        index = index + 1;
    }
    assert(encoded@.take(index as int) =~= encoded@);
    framed
}

} // verus!
