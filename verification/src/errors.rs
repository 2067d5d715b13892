//! The error taxonomy of the library.

use vstd::prelude::*;

use crate::capability::RuntimeCapability;

verus! {

/// Everything that can go wrong inside the library's own logic.
///
/// - `MissingCapability` is a construction-time failure: a call was built
///   against a runtime description that does not declare a capability the
///   call family requires. It names the first absent capability. It is not
///   retryable; the caller must pick a different call family or runtime.
/// - `MalformedEncoding` is a decode-time, data-integrity failure: the
///   specific bytes are unusable, but surrounding data may still be valid
///   and scanning must continue past them.
/// - `TransportUnavailable` is a hard failure of the external block source,
///   distinct from "block not yet produced": it propagates and terminates
///   a polling session.
#[derive(Clone, Copy, Debug, PartialEq, Eq, Structural)]
pub enum ClientError {
    MissingCapability(RuntimeCapability),
    MalformedEncoding,
    TransportUnavailable,
}

} // verus!
