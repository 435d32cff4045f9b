use vstd::prelude::*;

verus! {

/// Why a request to the tally engine was refused. A refused request changes nothing.
#[derive(Clone, Copy, Debug, PartialEq, Eq, Structural)]
pub enum ContractError {
    /// A poll with the requested identifier already exists.
    PollExists,
    /// No poll has the requested identifier.
    PollNotFound,
    /// A poll was requested with more options than the engine accepts.
    TooManyOptions,
    /// The chosen label is not one of the poll's options.
    OptionNotFound,
}

} // verus!
