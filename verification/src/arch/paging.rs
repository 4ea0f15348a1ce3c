//! The errors of the page-table layer, which the memory manager hands on.

use vstd::prelude::*;

verus! {

/// What can go wrong with a page table or a translation.
#[derive(Copy, Clone, Debug, PartialEq, Eq, Structural)]
pub enum PageError {
    /// An address is not aligned as its use demands.
    AlignError,
    /// The address has no translation.
    TranslationError,
    /// The domain of the entry does not allow the access.
    DomainError,
    /// The permissions of the entry do not allow the access.
    PermissionError,
    /// The entry does not describe memory.
    InvalidMemory,
    /// An index or address lies outside the range it is taken from.
    NotInRange,
    /// An index into a table is too large.
    IndexError,
}

} // verus!
