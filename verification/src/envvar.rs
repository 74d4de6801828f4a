//! Reading a tuning knob: an unset knob quietly takes its default, a set knob that parses takes
//! its value, and a set knob that does not parse is ignored (the caller warns about it).

use vstd::prelude::*;

verus! {

/// What is known of a knob: `None` when unset, `Some(None)` when set but unparseable, and
/// `Some(Some(v))` when it parses as `v`.
pub open spec fn knob_value<T>(knob: Option<Option<T>>) -> Option<T> {
    match knob {
        Some(Some(v)) => Some(v),
        _ => None,
    }
}

/// The knob's value, or `default` when it is unset or does not parse.
pub fn or<T>(knob: Option<Option<T>>, default: T) -> (r: T)
    ensures
        r == (match knob_value(knob) {
            Some(v) => v,
            None => default,
        }),
{
    match knob {
        Some(Some(v)) => v,
        _ => default,
    }
}

/// The knob's value when it is set and parses; `None` when it is unset or does not parse.
pub fn opt<T>(knob: Option<Option<T>>) -> (r: Option<T>)
    ensures
        r == knob_value(knob),
{
    match knob {
        Some(Some(v)) => Some(v),
        _ => None,
    }
}

} // verus!
