use vstd::prelude::*;

verus! {

/// Relies on std::time::SystemTime::now for a wall-clock reading, reduced
/// to nanoseconds since the Unix epoch. The reading depends on the moment
/// of the call, so nothing is promised of the value.
#[verifier::external_body]
pub(crate) fn now_ns() -> u64 {
    match std::time::SystemTime::now().duration_since(std::time::UNIX_EPOCH) {
        Ok(d) => d.as_nanos() as u64,
        Err(_) => 0,
    }
}

} // verus!
