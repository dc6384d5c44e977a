//! Environment access.  Variables live in an environment service reached
//! over IPC; until that service exists no variable is set.
use vstd::prelude::*;
use crate::elstd::string::ElString;

verus! {

/// Value of the environment variable `key`: never set yet.
pub fn var(_key: &str) -> (r: Option<ElString>)
    ensures
        r is None,
{
    None
}

/// Set the environment variable `key` to `value`: not stored yet.
pub fn set_var(_key: &str, _value: &str) {
}

} // verus!
