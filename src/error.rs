use vstd::prelude::*;

verus! {

/// A pitch-class spelling outside the twelve canonical sharp-only names.
#[derive(Debug, Clone, Copy, PartialEq, Eq, Structural)]
pub struct ParsePitchClassError;

/// An input that neither pitch notation accepts.
#[derive(Debug, Clone, Copy, PartialEq, Eq, Structural)]
pub struct ParsePitchError;

impl From<ParsePitchClassError> for ParsePitchError {
    fn from(e: ParsePitchClassError) -> (r: ParsePitchError)
        ensures
            r == ParsePitchError,
    {
        ParsePitchError
    }
}

impl vstd::std_specs::convert::FromSpecImpl<ParsePitchClassError> for ParsePitchError {
    open spec fn obeys_from_spec() -> bool {
        true
    }

    open spec fn from_spec(e: ParsePitchClassError) -> ParsePitchError {
        ParsePitchError
    }
}

} // verus!
