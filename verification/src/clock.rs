//! Readings of the clocks of the machine. What a clock shows is not known; what is known of
//! a reading is that it came from the clock.
use crate::outside::unix_epoch;
use std::time::{Duration, Instant, SystemTime, SystemTimeError};
use vstd::prelude::*;

verus! {

/// Whether a time is the start of the Unix era.
pub closed spec fn era_start(t: SystemTime) -> bool {
    call_ensures(unix_epoch, (), t)
}

/// Whether a span is the distance between two times of the wall clock, whichever comes
/// first.
pub open spec fn apart(now: SystemTime, start: SystemTime, span: Duration) -> bool {
    ||| call_ensures(
        SystemTime::duration_since,
        (&now, start),
        Ok::<Duration, SystemTimeError>(span),
    )
    ||| exists|e: SystemTimeError|
        call_ensures(
            SystemTime::duration_since,
            (&now, start),
            Err::<Duration, SystemTimeError>(e),
        ) && #[trigger] call_ensures(SystemTimeError::duration, (&e,), span)
}

/// Whether a span is what a reading of the wall clock shows: the distance of the time that
/// was read from the start of the Unix era.
pub open spec fn wall_reading(span: Duration) -> bool {
    exists|now: SystemTime, start: SystemTime|
        call_ensures(SystemTime::now, (), now) && era_start(start) && #[trigger] apart(
            now,
            start,
            span,
        )
}

/// Whether an instant is a reading of the monotonic clock.
pub open spec fn monotonic_reading(i: Instant) -> bool {
    call_ensures(Instant::now, (), i)
}

/// Whether a span is what the monotonic clock shows since an instant.
pub open spec fn elapsed_since(start: Instant, span: Duration) -> bool {
    call_ensures(Instant::elapsed, (&start,), span)
}

/// Reads the wall clock: its distance from the start of the Unix era.
pub(crate) fn read_wall_clock() -> (r: Duration)
    ensures
        wall_reading(r),
{
    let now = SystemTime::now();
    let start = unix_epoch();
    let span = match now.duration_since(start) {
        Ok(span) => span,
        Err(e) => e.duration(),
    };
    assert(apart(now, start, span));
    span
}

/// What counts as a reading of the wall clock comes from the wall clock: the time is one that
/// `SystemTime::now` gave, and the span is what `SystemTime::duration_since` gave for it and
/// the start of the Unix era, or the distance that its error holds.
pub(crate) proof fn wall_readings_come_from_the_wall_clock(span: Duration)
    requires
        wall_reading(span),
    ensures
        exists|now: SystemTime, start: SystemTime|
            #![trigger call_ensures(SystemTime::now, (), now), call_ensures(unix_epoch, (), start)]
            call_ensures(SystemTime::now, (), now) && call_ensures(unix_epoch, (), start) && ({
                ||| call_ensures(
                    SystemTime::duration_since,
                    (&now, start),
                    Ok::<Duration, SystemTimeError>(span),
                )
                ||| exists|e: SystemTimeError|
                    call_ensures(
                        SystemTime::duration_since,
                        (&now, start),
                        Err::<Duration, SystemTimeError>(e),
                    ) && #[trigger] call_ensures(SystemTimeError::duration, (&e,), span)
            }),
{
    let (now, start) = choose|now: SystemTime, start: SystemTime|
        call_ensures(SystemTime::now, (), now) && era_start(start) && #[trigger] apart(
            now,
            start,
            span,
        );
    assert(call_ensures(unix_epoch, (), start));
}

} // verus!
