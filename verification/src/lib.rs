//! Credential lifecycle engine.
//!
//! The library owns the relational model binding users, clients, keys and
//! client-key associations; the generation and rotation of shared secrets;
//! and the request-time session check that turns a cookie value into a
//! verified identity.  All operations run against an in-memory store whose
//! invariants (unique ids, unique secrets, unique session tokens, and
//! referential integrity of associations) are proved to be preserved.

use vstd::prelude::*;

pub mod api;
pub mod auth;
pub mod database;
pub mod front;
pub mod rows;
pub mod secret;

verus! {

/// Outcome classification every operation reports through.
///
/// `NotFound`, `Conflict` and `Validation` are produced deliberately and are
/// distinguishable by callers; everything else collapses to `Internal`.
#[derive(Clone, Copy, Debug, PartialEq, Eq, Structural)]
pub enum Error {
    /// A referenced user, client, key or association id does not exist.
    NotFound,
    /// A duplicate client-key association, or a secret or token collision.
    Conflict,
    /// A malformed key name or an oversized description, rejected before any
    /// store mutation.
    Validation,
    /// No valid session; never defaults to an anonymous identity.
    Unauthenticated,
    /// Any store-layer failure not otherwise classified.
    Internal,
}

impl Error {
    /// The HTTP status code the boundary layer reports for this outcome.
    pub fn to_status(&self) -> (r: u16)
        ensures
            r == match *self {
                Error::NotFound => 404u16,
                Error::Conflict => 409u16,
                Error::Validation => 400u16,
                Error::Unauthenticated => 403u16,
                Error::Internal => 500u16,
            },
    {
        match *self {
            Error::NotFound => 404,
            Error::Conflict => 409,
            Error::Validation => 400,
            Error::Unauthenticated => 403,
            Error::Internal => 500,
        }
    }
}

/// A tri-state update field: left untouched, explicitly cleared, or set to a
/// new value.  Distinguishes "field absent" from "field present as null".
#[derive(Clone, Debug)]
pub enum Tri<T> {
    /// The field was not supplied: leave the stored value unchanged.
    Absent,
    /// The field was supplied as null: clear the stored value.
    Null,
    /// The field was supplied with a value: overwrite the stored value.
    Value(T),
}

/// What a stored optional value becomes once a tri-state field is applied.
pub open spec fn tri_apply<T: View>(t: Tri<T>, prev: Option<T::V>) -> Option<T::V> {
    match t {
        Tri::Absent => prev,
        Tri::Null => None,
        Tri::Value(v) => Some(v@),
    }
}

} // verus!
