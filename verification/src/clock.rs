//! Wall-clock reading for components that stamp their work with a time.

use vstd::prelude::*;

verus! {

/// Relies on `std::time::SystemTime::now`: the current time as nanoseconds
/// since the Unix epoch, saturating to zero for a clock set before it.
/// Nothing is assumed of the reading; callers must cope with any value.
#[verifier::external_body]
pub(crate) fn now_nanos() -> u128 {
    std::time::SystemTime::now()
        .duration_since(std::time::UNIX_EPOCH)
        .unwrap_or(std::time::Duration::ZERO)
        .as_nanos()
}

} // verus!
