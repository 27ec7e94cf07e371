//! Command lines whose flags all take a count.

use vstd::prelude::*;

use crate::arguments::{following, needed, take_value};
use crate::sizes::{complain_number, number_complaint, number_of, read_number, NumberFault};
use crate::text::{characters, same_str, text_views};

verus! {

/// One flag.
#[derive(Debug, PartialEq, Eq)]
pub struct CountFlag {
    /// The flag.
    pub name: String,
    /// What is said where its value is missing.
    pub missing: String,
    /// What is said where its value is no count.
    pub invalid: String,
    /// Whether the reason follows.
    pub with_reason: bool,
    /// Largest count.
    pub limit: u64,
}

/// What one flag says.
#[verifier::ext_equal]
pub struct FlagWords {
    /// The flag.
    pub name: Seq<char>,
    /// What is said where its value is missing.
    pub missing: Seq<char>,
    /// What is said where its value is no count.
    pub invalid: Seq<char>,
    /// Whether the reason follows.
    pub with_reason: bool,
    /// Largest count.
    pub limit: u64,
}

impl View for CountFlag {
    type V = FlagWords;

    open spec fn view(&self) -> FlagWords {
        FlagWords {
            name: self.name@,
            missing: self.missing@,
            invalid: self.invalid@,
            with_reason: self.with_reason,
            limit: self.limit,
        }
    }
}

/// What flags say.
pub open spec fn flag_views(flags: Seq<CountFlag>) -> Seq<FlagWords> {
    Seq::new(flags.len(), |i: int| flags[i]@)
}

impl CountFlag {
    /// A flag.
    pub fn new(name: &str, missing: &str, invalid: &str, with_reason: bool, limit: u64) -> (flag: Self)
        ensures
            flag@ == (FlagWords {
                name: name@,
                missing: missing@,
                invalid: invalid@,
                with_reason,
                limit,
            }),
    {
        Self {
            name: name.to_owned(),
            missing: missing.to_owned(),
            invalid: invalid.to_owned(),
            with_reason,
            limit,
        }
    }
}

/// What is said of a value that is no count.
pub open spec fn count_complaint(flag: FlagWords, fault: NumberFault) -> Seq<char> {
    if flag.with_reason {
        flag.invalid + number_complaint(fault)
    } else {
        flag.invalid
    }
}

/// The place of a flag, or the number of flags.
pub open spec fn flag_place(flags: Seq<FlagWords>, name: Seq<char>) -> nat
    decreases flags.len(),
{
    if flags.len() == 0 {
        0
    } else if flags[0].name == name {
        0
    } else {
        1 + flag_place(flags.drop_first(), name)
    }
}

/// What one flag and its value change.
pub open spec fn count_flag(
    flags: Seq<FlagWords>,
    counts: Seq<u64>,
    unknown: Seq<char>,
    name: Seq<char>,
    value: Option<Seq<char>>,
) -> Result<Seq<u64>, Seq<char>> {
    let place = flag_place(flags, name) as int;
    if place >= flags.len() {
        Err(unknown + name)
    } else {
        match needed(value, flags[place].missing) {
            Err(text) => Err(text),
            Ok(text) => match number_of(text, flags[place].limit as nat) {
                Err(fault) => Err(count_complaint(flags[place], fault)),
                Ok(number) => Ok(counts.update(place, number as u64)),
            },
        }
    }
}

/// What the flags from a position on change.
pub open spec fn count_flags(
    flags: Seq<FlagWords>,
    counts: Seq<u64>,
    unknown: Seq<char>,
    arguments: Seq<Seq<char>>,
    position: int,
) -> Result<Seq<u64>, Seq<char>>
    decreases arguments.len() - position,
{
    if position < 0 || position >= arguments.len() {
        Ok(counts)
    } else {
        match count_flag(
            flags,
            counts,
            unknown,
            arguments[position],
            following(arguments, position),
        ) {
            Err(text) => Err(text),
            Ok(next) => count_flags(flags, next, unknown, arguments, position + 2),
        }
    }
}

fn find_flag(flags: &Vec<CountFlag>, name: &str) -> (place: usize)
    ensures
        place == flag_place(flag_views(flags@), name@),
        place <= flags@.len(),
{
    let ghost words = flag_views(flags@);
    let mut index: usize = 0;
    assert(words.skip(0) =~= words);
    while index < flags.len()
        invariant
            index <= flags@.len(),
            words == flag_views(flags@),
            flag_place(words, name@) == index + flag_place(words.skip(index as int), name@),
        decreases flags@.len() - index,
    {
        assert(words.skip(index as int)[0] == flags@[index as int]@);
        if same_str(flags[index].name.as_str(), name) {
            return index;
        }
        assert(words.skip(index as int).drop_first() =~= words.skip(index + 1));
        index = index + 1;
    }
    assert(words.skip(index as int).len() == 0);
    index
}

fn complain_count(flag: &CountFlag, fault: NumberFault) -> (text: String)
    ensures
        text@ == count_complaint(flag@, fault),
{
    let mut text = flag.invalid.clone();
    if flag.with_reason {
        text.append(complain_number(fault).as_str());
    }
    text
}

fn apply_count(
    flags: &Vec<CountFlag>,
    counts: &mut Vec<u64>,
    unknown: &str,
    arguments: &Vec<String>,
    position: usize,
) -> (applied: Result<(), String>)
    requires
        position < arguments@.len(),
        old(counts)@.len() == flags@.len(),
    ensures
        final(counts)@.len() == flags@.len(),
        ({
            let views = text_views(arguments@);
            let outcome = count_flag(
                flag_views(flags@),
                old(counts)@,
                unknown@,
                views[position as int],
                following(views, position as int),
            );
            match applied {
                Ok(_) => outcome == Ok::<Seq<u64>, Seq<char>>(final(counts)@),
                Err(text) => outcome == Err::<Seq<u64>, Seq<char>>(text@),
            }
        }),
{
    let name = arguments[position].as_str();
    let place = find_flag(flags, name);
    if place >= flags.len() {
        let mut text = unknown.to_owned();
        text.append(name);
        return Err(text);
    }
    assert(flag_views(flags@)[place as int] == flags@[place as int]@);
    let value = take_value(arguments, position, flags[place].missing.as_str())?;
    let digits = characters(value.as_str());
    match read_number(digits.as_slice(), flags[place].limit) {
        Err(fault) => Err(complain_count(&flags[place], fault)),
        Ok(number) => {
            counts.set(place, number);
            Ok(())
        },
    }
}

/// Reads counts, each flag over its default.
pub fn parse_counts(
    arguments: &Vec<String>,
    flags: &Vec<CountFlag>,
    defaults: Vec<u64>,
    unknown: &str,
) -> (counts: Result<Vec<u64>, String>)
    requires
        defaults@.len() == flags@.len(),
    ensures
        ({
            let outcome = count_flags(
                flag_views(flags@),
                defaults@,
                unknown@,
                text_views(arguments@),
                0,
            );
            match counts {
                Ok(counts) => counts@.len() == flags@.len() && outcome == Ok::<
                    Seq<u64>,
                    Seq<char>,
                >(counts@),
                Err(text) => outcome == Err::<Seq<u64>, Seq<char>>(text@),
            }
        }),
{
    let ghost views = text_views(arguments@);
    let ghost start = defaults@;
    let mut counts = defaults;
    let mut position: usize = 0;
    while position < arguments.len()
        invariant
            views == text_views(arguments@),
            start == defaults@,
            counts@.len() == flags@.len(),
            count_flags(flag_views(flags@), start, unknown@, views, 0) == count_flags(
                flag_views(flags@),
                counts@,
                unknown@,
                views,
                position as int,
            ),
        decreases arguments@.len() - position,
    {
        apply_count(flags, &mut counts, unknown, arguments, position)?;
        if position + 1 < arguments.len() {
            position = position + 2;
        } else {
            position = position + 1;
        }
    }
    Ok(counts)
}

} // verus!
