//! The recoverable failures that the engine reports to its caller.

use vstd::prelude::*;

verus! {

/// Why an operation of the engine did not go through.
#[derive(Clone, Copy, Debug, PartialEq, Eq, Structural)]
pub enum Error {
    /// The operation named a mod that the mod store does not know.
    UnknownMod,
    /// No preset is recorded under the given name.
    NotFound,
    /// The preset name is empty.
    InvalidName,
    /// A preset of that name is already recorded.
    AlreadyExists,
    /// The persisted state is malformed: a mod identifier occurs in more than
    /// one record, or a preset record has no name or a name that another
    /// record has too.
    LoadError,
}

} // verus!
