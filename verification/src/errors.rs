//! The kinds of failure that the library reports.

use vstd::prelude::*;

verus! {

/// Why an operation failed.
#[derive(Debug, Clone, Copy, PartialEq, Eq, Structural)]
pub enum ErrorKind {
    /// A path, or an entity that was referred to, does not exist.
    NotFound,
    /// The name that a rename asked for is taken.
    AlreadyExists,
    /// A statement that had to change exactly one row changed another number.
    IntegrityViolation,
    /// The file system failed.
    Io,
    /// The store failed.
    StoreAccess,
    /// A name is empty or holds a character that names may not hold.
    InvalidName,
    /// No root directory can be told from the place of the database.
    NoRoot,
    /// Placeholders were asked for without a value to bind.
    NoPlaceholder,
}

} // verus!
