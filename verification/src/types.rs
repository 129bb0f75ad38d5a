//! The errors of a subscription.

use vstd::prelude::*;

verus! {

/// What a subscription can fail with. Failures of the transport are not among
/// these: a session mends them by itself and never shows them.
#[derive(Clone, Copy, PartialEq, Eq, Hash, Debug, Structural)]
pub enum Error {
    /// An inbound frame was neither text nor binary.
    Protocol,
    /// A payload was not a record of the exchange's wire schema.
    Decode,
    /// A wire record could not be mapped to the record that is handed on.
    Translation,
    /// The endpoint is not an absolute URL.
    Endpoint,
    /// The token of a private channel could not be had.
    Token,
}

} // verus!
