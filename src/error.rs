use vstd::prelude::*;

use crate::game::RuleError;

verus! {

/// Every error that the engine reports.
#[derive(Debug, PartialEq, Eq, Structural)]
pub enum Error {
    /// A move that breaks a rule of the game.
    Rule(RuleError),
}

impl From<RuleError> for Error {
    fn from(err: RuleError) -> Error {
        Error::Rule(err)
    }
}

impl vstd::std_specs::convert::FromSpecImpl<RuleError> for Error {
    open spec fn obeys_from_spec() -> bool {
        true
    }

    open spec fn from_spec(v: RuleError) -> Error {
        Error::Rule(v)
    }
}

} // verus!
