//! Flags and values of a command line.

use vstd::prelude::*;

verus! {

/// The text of an optional argument.
pub open spec fn optional_text(text: Option<String>) -> Option<Seq<char>> {
    match text {
        Some(text) => Some(text@),
        None => None,
    }
}

/// The value of an argument, or what is said where it is missing.
pub open spec fn needed(value: Option<Seq<char>>, complaint: Seq<char>) -> Result<Seq<char>, Seq<char>> {
    match value {
        Some(value) => Ok(value),
        None => Err(complaint),
    }
}

/// What stands behind a position.
pub open spec fn following(arguments: Seq<Seq<char>>, position: int) -> Option<Seq<char>> {
    if position + 1 < arguments.len() {
        Some(arguments[position + 1])
    } else {
        None
    }
}

/// Reads the value of an argument.
pub fn take_value<'a>(arguments: &'a Vec<String>, position: usize, complaint: &str) -> (value: Result<
    &'a String,
    String,
>)
    requires
        position < arguments@.len(),
    ensures
        ({
            let given = if position + 1 < arguments@.len() {
                Some(arguments@[position + 1]@)
            } else {
                None
            };
            match value {
                Ok(value) => needed(given, complaint@) == Ok::<Seq<char>, Seq<char>>(value@),
                Err(text) => needed(given, complaint@) == Err::<Seq<char>, Seq<char>>(text@),
            }
        }),
{
    if arguments.len() - position > 1 {
        Ok(&arguments[position + 1])
    } else {
        Err(complaint.to_owned())
    }
}

} // verus!
