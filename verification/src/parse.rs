//! Parsing of paired command tokens such as `"400x300"` or `"-1.20,0.35"`:
//! a separator-delimited pair of values of one type.

use core::str::FromStr;
use vstd::prelude::*;
use vstd::string::StrSliceExecFns;

verus! {

/// Relies on `<T as FromStr>::from_str`: each component token is parsed by
/// the caller's chosen type. Which tokens that type accepts, and what value
/// it produces, is the type's own affair, so nothing is assumed of the
/// outcome.
#[verifier::external_body]
fn from_str_token<T: FromStr>(s: &str) -> Option<T> {
    T::from_str(s).ok()
}

/// Index of the first occurrence of `separator` in `s`, if there is one.
pub fn find_separator(s: &str, separator: char) -> (found: Option<usize>)
    ensures
        match found {
            Some(i) => i < s@.len() && s@[i as int] == separator && (forall|j: int|
                0 <= j < i ==> s@[j] != separator),
            None => forall|j: int| 0 <= j < s@.len() ==> s@[j] != separator,
        },
{
    let n = s.unicode_len();
    let mut i: usize = 0;
    while i < n
        invariant
            i <= n,
            n == s@.len(),
            forall|j: int| 0 <= j < i ==> s@[j] != separator,
        decreases n - i,
    {
        if s.get_char(i) == separator {
            return Some(i);
        }
        i = i + 1;
    }
    None
}

/// Splits `s` into the pieces strictly before and strictly after the first
/// occurrence of `separator`: exactly the component tokens that are then
/// parsed. Without a separator there is nothing to split.
pub fn split_at_separator<'a>(s: &'a str, separator: char) -> (pieces: Option<(&'a str, &'a str)>)
    ensures
        match pieces {
            Some(split) => exists|i: int|
                {
                    &&& 0 <= i < s@.len()
                    &&& #[trigger] s@[i] == separator
                    &&& forall|j: int| 0 <= j < i ==> s@[j] != separator
                    &&& split.0@ == s@.subrange(0, i)
                    &&& split.1@ == s@.subrange(i + 1, s@.len() as int)
                },
            None => forall|j: int| 0 <= j < s@.len() ==> s@[j] != separator,
        },
{
    match find_separator(s, separator) {
        None => None,
        Some(index) => {
            let n = s.unicode_len();
            let left = s.substring_char(0, index);
            let right = s.substring_char(index + 1, n);
            Some((left, right))
        },
    }
}

/// Combines the parses of the two component tokens: a pair exactly when both
/// parses succeeded, holding the two parsed values.
pub fn pair_of_parses<T>(left: Option<T>, right: Option<T>) -> (pair: Option<(T, T)>)
    ensures
        pair is Some <==> (left is Some && right is Some),
        left is Some && right is Some ==> pair == Some((left->0, right->0)),
{
    match (left, right) {
        (Some(l), Some(r)) => Some((l, r)),
        _ => None,
    }
}

/// Splits `s` at the first occurrence of `separator` and parses the two
/// sides as values of `T`.
///
/// The split is exact: the pieces handed to `T::from_str` are the characters
/// strictly before and strictly after the first separator. Which pieces
/// `from_str` then accepts is left to `T`, so the contract pins the
/// separator structure: without a separator there is no pair, and a pair is
/// only ever produced from a token that holds one.
pub fn parse_pair<T: FromStr>(s: &str, separator: char) -> (pair: Option<(T, T)>)
    ensures
        (forall|j: int| 0 <= j < s@.len() ==> s@[j] != separator) ==> pair is None,
        pair is Some ==> exists|j: int| 0 <= j < s@.len() && #[trigger] s@[j] == separator,
{
    match split_at_separator(s, separator) {
        None => None,
        Some((left, right)) => pair_of_parses(from_str_token(left), from_str_token(right)),
    }
}

} // verus!
