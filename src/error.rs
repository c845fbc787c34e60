use vstd::prelude::*;

verus! {

/// The stage at which an evaluation failed, with a message for the user.
#[derive(Debug)]
pub enum Error {
    LexingError(String),
    ParsingError(String),
    RuntimeError(String),
}

} // verus!
