use vstd::prelude::*;

verus! {

/// A point in time, in milliseconds since an arbitrary epoch fixed by the caller.
pub type Tick = u64;

/// Time elapsed from `since` to `now`, saturating at zero when `now` is earlier.
pub open spec fn elapsed(since: Tick, now: Tick) -> nat {
    if now >= since { (now - since) as nat } else { 0 }
}

/// Elapsed time from `since` to `now`, zero when the clock reads earlier than `since`.
pub fn elapsed_since(since: Tick, now: Tick) -> (r: u64)
    ensures
        r as nat == elapsed(since, now),
{
    if now >= since { now - since } else { 0 }
}

} // verus!
