//! The events of a change as a log.
use vstd::prelude::*;

verus! {

/// Whether `r` are the positions of events in the order in which they are told.
pub open spec fn tells_log(
    events: usize,
    reverse: bool,
    r: Vec<usize>,
) -> bool {
    &&& r@.len() == events
    &&& forall|i: int|
            0 <= i < events ==> #[trigger] r@[i] == (if reverse {
                events - 1 - i
            } else {
                i
            })
}

/// The positions of events in the order in which they are told: as they were recorded, or the
/// newest first.
pub fn log(events: usize, reverse: bool) -> (r: Vec<usize>)
    ensures
        tells_log(events, reverse, r),
{
    let mut out: Vec<usize> = Vec::new();
    for i in 0..events
        invariant
            out@.len() == i,
            forall|j: int|
                0 <= j < i ==> #[trigger] out@[j] == (if reverse {
                    events - 1 - j
                } else {
                    j
                }),
    {
        out.push(
            if reverse {
                events - 1 - i
            } else {
                i
            },
        );
    }
    out
}

/// A log tells every event, and the reversed one tells them the other way round.
pub proof fn reversed_logs_mirror(events: usize, forward: Vec<usize>, backward: Vec<usize>, i: int)
    requires
        tells_log(events, false, forward),
        tells_log(events, true, backward),
        0 <= i < events,
    ensures
        forward@.len() == events,
        backward@.len() == events,
        forward@[i] == i,
        backward@[events - 1 - i] == forward@[i],
{
}

} // verus!
