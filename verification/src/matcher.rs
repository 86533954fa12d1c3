//! Group access on a regex matcher: `(nth m i)` returns group `i` of the
//! most recent match, group 0 being the whole match.

use vstd::prelude::*;
use crate::text::{push_i64_decimal, push_str, int_decimal};

verus! {

/// Why a group cannot be read.
#[derive(Debug, PartialEq, Eq, Structural)]
pub enum GroupError {
    /// No match has been found yet (or the last search found none).
    NoMatch,
    /// The index is negative or above the number of groups.
    IndexOutOfBounds(i64),
}

/// Is `idx` a group of a match with `group_count` groups (0 included)?
pub open spec fn group_in_range(idx: i64, group_count: i64) -> bool {
    0 <= idx <= group_count
}

/// The group to read for `(nth m idx)`: an error without a match or for
/// an index out of range, else `idx` itself.
pub fn matcher_group(has_match: bool, idx: i64, group_count: i64) -> (r: Result<i64, GroupError>)
    ensures
        !has_match ==> r == Err::<i64, GroupError>(GroupError::NoMatch),
        has_match && !group_in_range(idx, group_count) ==> r == Err::<i64, GroupError>(
            GroupError::IndexOutOfBounds(idx),
        ),
        has_match && group_in_range(idx, group_count) ==> r == Ok::<i64, GroupError>(idx),
{
    if !has_match {
        return Err(GroupError::NoMatch);
    }
    if idx < 0 || idx > group_count {
        return Err(GroupError::IndexOutOfBounds(idx));
    }
    Ok(idx)
}

/// The group to read for `(nth m idx default)`: an error without a match,
/// `None` (meaning: the default) for an index out of range, else `idx`.
pub fn matcher_group_or_default(has_match: bool, idx: i64, group_count: i64) -> (r: Result<
    Option<i64>,
    GroupError,
>)
    ensures
        !has_match ==> r == Err::<Option<i64>, GroupError>(GroupError::NoMatch),
        has_match && !group_in_range(idx, group_count) ==> r == Ok::<Option<i64>, GroupError>(None),
        has_match && group_in_range(idx, group_count) ==> r == Ok::<Option<i64>, GroupError>(
            Some(idx),
        ),
{
    if !has_match {
        return Err(GroupError::NoMatch);
    }
    if idx < 0 || idx > group_count {
        return Ok(None);
    }
    Ok(Some(idx))
}

impl GroupError {
    /// The message of the raised error.
    pub fn message(&self) -> (r: String)
        ensures
            r@ == match *self {
                GroupError::NoMatch => "No match found"@,
                GroupError::IndexOutOfBounds(i) => "Matcher index out of bounds: "@ + int_decimal(
                    i as int,
                ),
            },
    {
        match self {
            GroupError::NoMatch => "No match found".to_string(),
            GroupError::IndexOutOfBounds(i) => {
                let mut s = String::new();
                push_str(&mut s, "Matcher index out of bounds: ");
                push_i64_decimal(&mut s, *i);
                proof {
                    assert(s@ =~= "Matcher index out of bounds: "@ + int_decimal(*i as int));
                }
                s
            },
        }
    }
}

} // verus!
