//! Sizes and positions given as text.
use vstd::prelude::*;
use vstd::string::*;

verus! {

/// Returned when a size or position is not given as a percentage.
#[derive(Debug)]
pub struct TryFromStrError;

/// The number part of a percentage such as `"50%"`: the text without its
/// trailing `%`, or an error when there is none.
pub fn percent_number(value: &str) -> (r: Result<&str, TryFromStrError>)
    ensures
        r is Ok <==> (value@.len() > 0 && value@.last() == '%'),
        r matches Ok(s) ==> s@ == value@.drop_last(),
{
    let n = value.unicode_len();
    if n > 0 && value.get_char(n - 1) == '%' {
        Ok(value.substring_char(0, n - 1))
    } else {
        Err(TryFromStrError)
    }
}

} // verus!
