//! The clock that measures how long a puzzle has been worked on.

use stopwatch::Stopwatch;
use vstd::prelude::*;

verus! {

/// `stopwatch::Stopwatch`, a clock that can be started and stopped and adds
/// up the time during which it ran. Nothing inside it is visible here.
#[verifier::external_type_specification]
#[verifier::external_body]
pub struct ExStopwatch(stopwatch::Stopwatch);

/// Calls `Stopwatch::new`: a stopped clock that has measured nothing.
#[verifier::external_body]
pub(crate) fn clock_new() -> (clock: Stopwatch) {
    Stopwatch::new()
}

/// Calls `Stopwatch::start`. When the clock starts depends on the time of
/// the call, so nothing is stated of it.
#[verifier::external_body]
pub(crate) fn clock_start(clock: &mut Stopwatch) {
    clock.start();
}

/// Calls `Stopwatch::stop`. What the clock has measured by then depends on
/// the time of the call, so nothing is stated of it.
#[verifier::external_body]
pub(crate) fn clock_stop(clock: &mut Stopwatch) {
    clock.stop();
}

/// Calls `Stopwatch::elapsed` and takes the whole seconds of the duration.
/// The reading depends on the time of the call, so nothing is stated of it.
#[verifier::external_body]
pub(crate) fn clock_seconds(clock: &Stopwatch) -> (seconds: u64) {
    clock.elapsed().as_secs()
}

/// A time span split into hours, minutes below 60 and seconds below 60.
#[derive(Debug, Clone, Copy, PartialEq, Eq, Structural)]
pub struct ClockFace {
    pub hours: u64,
    pub minutes: u64,
    pub seconds: u64,
}

/// The clock face that shows `seconds`.
pub open spec fn clock_face_of(seconds: u64) -> ClockFace {
    ClockFace {
        hours: (seconds / 3600) as u64,
        minutes: ((seconds / 60) % 60) as u64,
        seconds: (seconds % 60) as u64,
    }
}

/// Splits a number of seconds into hours, minutes and seconds.
pub fn clock_face(seconds: u64) -> (face: ClockFace)
    ensures
        face == clock_face_of(seconds),
        face.hours * 3600 + face.minutes * 60 + face.seconds == seconds,
        face.minutes < 60,
        face.seconds < 60,
{
    let minutes: u64 = seconds / 60;
    let face = ClockFace { hours: minutes / 60, minutes: minutes % 60, seconds: seconds % 60 };
    assert(seconds / 60 / 60 == seconds / 3600) by (nonlinear_arith);
    assert(face.hours * 3600 + face.minutes * 60 + face.seconds == seconds) by (nonlinear_arith)
        requires
            face.hours == (seconds / 60) / 60,
            face.minutes == (seconds / 60) % 60,
            face.seconds == seconds % 60,
    ;
    face
}

} // verus!
