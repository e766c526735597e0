use vstd::prelude::*;

verus! {

/// Why a run stopped. Every failure ends the run.
#[derive(Debug, Clone, Copy, PartialEq, Eq, Structural)]
pub enum NotifyError {
    /// Settings or credentials are missing or malformed.
    Config,
    /// A feed could not be retrieved or read as a channel.
    Fetch,
    /// A feed has no item, or its latest item lacks a required field.
    IncompleteItem,
    /// A publication date is not an RFC 2822 timestamp.
    DateParse,
    /// The stored snapshots cannot be read or written.
    Persistence,
    /// Connecting to the relay or sending a message failed.
    Dispatch,
}

} // verus!
