use vstd::prelude::*;

use crate::types::CurrentTime;

verus! {

/// Relies on std::time::SystemTime::now and duration_since: the wall-clock
/// reading at the call, in whole milliseconds since the epoch. Nothing is
/// promised of the value.
#[verifier::external_body]
fn system_time_millis() -> u64 {
    match std::time::SystemTime::now().duration_since(std::time::UNIX_EPOCH) {
        Ok(elapsed) => elapsed.as_millis() as u64,
        Err(_) => 0,
    }
}

/// The ambient clock reading that callers inject into the ledger and router.
/// Every component takes timestamps as arguments, so their contracts hold
/// whatever this returns.
pub fn get_current_time() -> CurrentTime {
    system_time_millis()
}

} // verus!
