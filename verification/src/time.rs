//! Wall-clock time.

use vstd::prelude::*;

verus! {

/// `SystemTime::now` and `duration_since(UNIX_EPOCH)`: the whole nanoseconds
/// since the Unix epoch, or `None` where the clock is set before it. Nothing
/// is promised of the value, which is what the machine's clock says.
#[verifier::external_body]
fn since_epoch() -> (r: Option<u128>) {
    std::time::SystemTime::now().duration_since(std::time::UNIX_EPOCH).ok().map(|d| d.as_nanos())
}

/// A reading of the clock as 64-bit nanoseconds: the low 64 bits, or 0 where
/// the clock is set before the epoch.
pub fn epoch_ns(elapsed: Option<u128>) -> (r: u64)
    ensures
        r == (match elapsed {
            Some(n) => (n % 0x1_0000_0000_0000_0000) as u64,
            None => 0u64,
        }),
{
    match elapsed {
        Some(n) => (n % 0x1_0000_0000_0000_0000) as u64,
        None => 0,
    }
}

/// Nanoseconds since the Unix epoch, 0 where the clock is set before it.
/// What the clock says is all there is to the value.
pub fn now_ns() -> (r: u64) {
    epoch_ns(since_epoch())
}

} // verus!
