//! The error taxonomy shared by the serializer and the deserializer.

use vstd::prelude::*;

verus! {

/// Error type for this crate, shared by the serializer and deserializer.
#[derive(Debug)]
pub enum Error {
    /// Errors that don't fit into any other category.
    Generic(String),
    /// Errors related to the underlying byte channel: a read or write could
    /// not be completed because the source or sink ran out.
    Io(String),
    /// Errors related to usage of unsupported types.
    Unsupported(String),
    /// Errors related to values that are not valid for the given type.
    Invalid(String),
}

/// True when `e` is the invalid-data error carrying exactly the message `m`.
pub open spec fn is_invalid(e: Error, m: Seq<char>) -> bool {
    e matches Error::Invalid(s) && s@ == m
}

/// True when `e` is the catch-all error carrying exactly the message `m`.
pub open spec fn is_generic(e: Error, m: Seq<char>) -> bool {
    e matches Error::Generic(s) && s@ == m
}

/// True when `e` is the unsupported-shape error carrying exactly the message `m`.
pub open spec fn is_unsupported(e: Error, m: Seq<char>) -> bool {
    e matches Error::Unsupported(s) && s@ == m
}

} // verus!
