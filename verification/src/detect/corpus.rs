//! The shape of a narration corpus entry, shared by every suite that measures the
//! detector's precision.

use vstd::prelude::*;

verus! {

/// One line of narration and what should happen.
pub struct Case {
    pub text: &'static str,
    pub expected: Option<&'static str>,
}

/// A line that should fire `event`.
pub fn fires(text: &'static str, event: &'static str) -> (case: Case)
    ensures
        case.text == text,
        case.expected == Some(event),
{
    Case { text, expected: Some(event) }
}

/// A line that should fire nothing.
pub fn silent(text: &'static str) -> (case: Case)
    ensures
        case.text == text,
        case.expected is None,
{
    Case { text, expected: None }
}

} // verus!
