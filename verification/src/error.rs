use vstd::prelude::*;

verus! {

/// What the library's operations fail with.
#[derive(Clone, Copy, Debug, PartialEq, Eq, Structural)]
pub enum Error {
    /// A recurrence pattern does not follow the grammar, names no field, or holds a value
    /// outside its field's range.
    InvalidPattern,
    /// A task name is empty or holds a character other than a letter, a digit, `-` or `_`.
    InvalidName,
    /// No task has the given name.
    NoSuchTask,
    /// A task of that name is registered already.
    TaskExists,
    /// No day within the next years has the asked month and day.
    NoSuchDate,
    /// A stored result is not written as the library writes it.
    Corrupt,
    /// A response answers another request than the one that was sent.
    ProtocolError,
    /// The service runs already.
    AlreadyRunning,
}

} // verus!
