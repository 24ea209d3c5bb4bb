//! The kinds of failure that a run can meet.

use vstd::prelude::*;

verus! {

/// Why a step of a run failed.
#[derive(Clone, Copy, Debug, PartialEq, Eq, Structural)]
pub enum Error {
    /// The configuration is missing or malformed.
    Config,
    /// A request could not be completed.
    Network,
    /// Text that should hold a dotted-decimal IPv4 address does not.
    Parse,
    /// The DNS provider rejected a request.
    Provider,
}

} // verus!
