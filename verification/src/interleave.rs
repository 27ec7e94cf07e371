//! Merging logs line by line.

use vstd::prelude::*;

use crate::arguments::{following, needed, take_value};
use crate::codec_bench::capped_sum;
use crate::sizes::{complain_number, number_complaint, number_of, read_number};
use crate::text::{characters, same_str, text_views};

verus! {

/// Settings of the merge.
#[derive(Debug, PartialEq, Eq)]
pub struct InterleaveSettings {
    /// Merged log.
    pub output: String,
    /// Logs to merge.
    pub inputs: Vec<String>,
    /// Bytes of the merged log, at most.
    pub limit_bytes: u64,
}

/// What settings of the merge say.
#[verifier::ext_equal]
pub struct InterleavePlan {
    /// Merged log.
    pub output: Seq<char>,
    /// Logs to merge.
    pub inputs: Seq<Seq<char>>,
    /// Bytes of the merged log, at most.
    pub limit_bytes: nat,
}

impl View for InterleaveSettings {
    type V = InterleavePlan;

    open spec fn view(&self) -> InterleavePlan {
        InterleavePlan {
            output: self.output@,
            inputs: text_views(self.inputs@),
            limit_bytes: self.limit_bytes as nat,
        }
    }
}

/// What the arguments from a position on add.
pub open spec fn interleave_arguments(
    plan: InterleavePlan,
    arguments: Seq<Seq<char>>,
    position: int,
) -> Result<InterleavePlan, Seq<char>>
    decreases arguments.len() - position,
{
    if position < 0 || position >= arguments.len() {
        Ok(plan)
    } else if arguments[position] == "--limit-bytes"@ {
        match needed(following(arguments, position), "--limit-bytes requires a value"@) {
            Err(text) => Err(text),
            Ok(value) => match number_of(value, u64::MAX as nat) {
                Err(fault) => Err(number_complaint(fault)),
                Ok(limit_bytes) => interleave_arguments(
                    InterleavePlan { limit_bytes, ..plan },
                    arguments,
                    position + 2,
                ),
            },
        }
    } else {
        interleave_arguments(
            InterleavePlan { inputs: plan.inputs.push(arguments[position]), ..plan },
            arguments,
            position + 1,
        )
    }
}

/// The settings that arguments give.
pub open spec fn interleave_plan(arguments: Seq<Seq<char>>) -> Result<InterleavePlan, Seq<char>> {
    if arguments.len() == 0 {
        Err(
            "usage: shard-telemetry-interleave <output.log> [--limit-bytes N] <input.log>..."@,
        )
    } else {
        match interleave_arguments(
            InterleavePlan {
                output: arguments[0],
                inputs: Seq::empty(),
                limit_bytes: u64::MAX as nat,
            },
            arguments,
            1,
        ) {
            Err(text) => Err(text),
            Ok(plan) => if plan.inputs.len() < 2 {
                Err("at least two input logs are required"@)
            } else if plan.limit_bytes == 0 {
                Err("--limit-bytes must be nonzero"@)
            } else {
                Ok(plan)
            },
        }
    }
}

/// Reads the arguments of the merge.
pub fn parse_settings(arguments: &Vec<String>) -> (settings: Result<InterleaveSettings, String>)
    ensures
        match settings {
            Ok(settings) => interleave_plan(text_views(arguments@)) == Ok::<
                InterleavePlan,
                Seq<char>,
            >(settings@),
            Err(text) => interleave_plan(text_views(arguments@)) == Err::<
                InterleavePlan,
                Seq<char>,
            >(text@),
        },
{
    let ghost views = text_views(arguments@);
    if arguments.len() == 0 {
        return Err(
            "usage: shard-telemetry-interleave <output.log> [--limit-bytes N] <input.log>...".to_owned(),
        );
    }
    let mut settings = InterleaveSettings {
        output: arguments[0].clone(),
        inputs: Vec::new(),
        limit_bytes: u64::MAX,
    };
    let ghost start = settings@;
    proof {
        assert(start.inputs =~= Seq::<Seq<char>>::empty());
        assert(start == (InterleavePlan {
            output: views[0],
            inputs: Seq::empty(),
            limit_bytes: u64::MAX as nat,
        }));
    }
    let mut position: usize = 1;
    while position < arguments.len()
        invariant
            views == text_views(arguments@),
            1 <= position,
            interleave_arguments(start, views, 1) == interleave_arguments(
                settings@,
                views,
                position as int,
            ),
            interleave_plan(views) == (match interleave_arguments(start, views, 1) {
                Err(text) => Err(text),
                Ok(plan) => if plan.inputs.len() < 2 {
                    Err("at least two input logs are required"@)
                } else if plan.limit_bytes == 0 {
                    Err("--limit-bytes must be nonzero"@)
                } else {
                    Ok(plan)
                },
            }),
        decreases arguments@.len() - position,
    {
        assert(views[position as int] == arguments@[position as int]@);
        if same_str(arguments[position].as_str(), "--limit-bytes") {
            let value = take_value(arguments, position, "--limit-bytes requires a value")?;
            let digits = characters(value.as_str());
            match read_number(digits.as_slice(), u64::MAX) {
                Err(fault) => {
                    return Err(complain_number(fault));
                },
                Ok(number) => {
                    settings.limit_bytes = number;
                },
            }
            if position + 1 < arguments.len() {
                position = position + 2;
            } else {
                position = position + 1;
            }
        } else {
            let ghost before = settings@;
            settings.inputs.push(arguments[position].clone());
            assert(settings@ =~= (InterleavePlan {
                inputs: before.inputs.push(views[position as int]),
                ..before
            }));
            position = position + 1;
        }
    }
    if settings.inputs.len() < 2 {
        return Err("at least two input logs are required".to_owned());
    }
    if settings.limit_bytes == 0 {
        return Err("--limit-bytes must be nonzero".to_owned());
    }
    Ok(settings)
}

/// What became of a line.
#[derive(Debug, Clone, Copy, PartialEq, Eq, Structural)]
pub enum LineOutcome {
    /// Written.
    Written,
    /// Not a complete line: its log has ended.
    Closed,
    /// Past the limit: the merge has ended.
    Full,
}

/// A merge under way.
#[derive(Debug)]
pub struct Interleaver {
    /// Which logs still give lines.
    pub active: Vec<bool>,
    /// Bytes written.
    pub written: u64,
    /// Lines written.
    pub records: u64,
}

impl Interleaver {
    /// A merge of some logs.
    pub fn new(inputs: usize) -> (merge: Self)
        ensures
            merge.active@ == Seq::new(inputs as nat, |i: int| true),
            merge.written == 0,
            merge.records == 0,
    {
        let mut active: Vec<bool> = Vec::new();
        while active.len() < inputs
            invariant
                active@.len() <= inputs,
                forall|i: int| 0 <= i < active@.len() ==> active@[i],
            decreases inputs - active@.len(),
        {
            active.push(true);
        }
        assert(active@ =~= Seq::new(inputs as nat, |i: int| true));
        Self { active, written: 0, records: 0 }
    }

    /// Whether any log still gives lines.
    pub fn is_active(&self) -> (active: bool)
        ensures
            active == self.active@.contains(true),
    {
        let mut index: usize = 0;
        while index < self.active.len()
            invariant
                index <= self.active@.len(),
                forall|i: int| 0 <= i < index ==> !self.active@[i],
            decreases self.active@.len() - index,
        {
            if self.active[index] {
                assert(self.active@[index as int]);
                return true;
            }
            index = index + 1;
        }
        false
    }

    /// What becomes of a line of some bytes.
    pub open spec fn outcome(self, line: Seq<u8>, limit_bytes: u64) -> LineOutcome {
        if line.len() == 0 || line.last() != 0x0a {
            LineOutcome::Closed
        } else if capped_sum(self.written, line.len() as int) > limit_bytes {
            LineOutcome::Full
        } else {
            LineOutcome::Written
        }
    }

    /// Takes what was read of a log.
    pub fn take_line(&mut self, source: usize, line: &[u8], limit_bytes: u64) -> (outcome:
        LineOutcome)
        requires
            source < old(self).active@.len(),
        ensures
            outcome == old(self).outcome(line@, limit_bytes),
            final(self).active@ == if outcome == LineOutcome::Closed {
                old(self).active@.update(source as int, false)
            } else {
                old(self).active@
            },
            final(self).written == if outcome == LineOutcome::Written {
                capped_sum(old(self).written, line@.len() as int)
            } else {
                old(self).written as int
            },
            final(self).records == if outcome == LineOutcome::Written {
                capped_sum(old(self).records, 1)
            } else {
                old(self).records as int
            },
            old(self).written <= limit_bytes ==> final(self).written <= limit_bytes,
    {
        assert(line.len() == line@.len());
        if line.len() == 0 || line[line.len() - 1] != 0x0a {
            self.active.set(source, false);
            return LineOutcome::Closed;
        }
        let written = self.written.saturating_add(line.len() as u64);
        if written > limit_bytes {
            return LineOutcome::Full;
        }
        self.written = written;
        self.records = self.records.saturating_add(1);
        LineOutcome::Written
    }
}

} // verus!
