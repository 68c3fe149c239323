//! The trusted clock as the helper keeps it, and what one beat amounts to.
//!
//! The helper reads the clock from disk, asks the system for the time, and
//! writes it back; this decides the clock it writes. The clock only ever
//! moves forward: time while the machine was off is credited from the wall
//! clock, and time while Cairn runs only as far as the monotonic clock
//! corroborates it.
use vstd::prelude::*;
use crate::domain::gate::TrustedClock;
use crate::protocol::Response;

verus! {

/// How often the helper beats.
pub const HEARTBEAT_SECONDS: u64 = 60;

/// The clock as it is kept on disk.
#[derive(Clone, Copy, PartialEq, Eq, Debug, Structural)]
pub struct HelperClock {
    pub clock: TrustedClock,
    /// Total time Cairn has been observed running, for reporting.
    pub running_seconds: u64,
}

impl Default for HelperClock {
    fn default() -> (state: HelperClock)
        ensures
            state == (HelperClock {
                clock: TrustedClock { trusted_seconds: 0, last_wall_seconds: 0, last_monotonic_seconds: 0 },
                running_seconds: 0,
            }),
    {
        HelperClock {
            clock: TrustedClock { trusted_seconds: 0, last_wall_seconds: 0, last_monotonic_seconds: 0 },
            running_seconds: 0,
        }
    }
}

/// `a + b`, or `u64::MAX` when that does not fit.
pub open spec fn saturated(a: int, b: int) -> u64 {
    if a + b > u64::MAX {
        u64::MAX
    } else {
        (a + b) as u64
    }
}

impl HelperClock {
    /// The clock when the helper starts at `wall_seconds`: a clock never
    /// started before starts from there; otherwise the time the machine was
    /// off is credited from the wall clock. The monotonic clock starts again
    /// from zero with the process.
    pub fn on_start(self, wall_seconds: i64) -> (next: HelperClock)
        ensures
            next.running_seconds == self.running_seconds,
            self.clock.last_wall_seconds == 0 ==> next.clock == (TrustedClock {
                trusted_seconds: 0,
                last_wall_seconds: wall_seconds,
                last_monotonic_seconds: 0,
            }),
            self.clock.last_wall_seconds != 0 ==> next.clock == self.clock.after_resume(wall_seconds, 0),
            self.clock.last_wall_seconds != 0 ==> next.clock.trusted_seconds >= self.clock.trusted_seconds,
    {
        let clock = if self.clock.last_wall_seconds == 0 {
            TrustedClock::started(wall_seconds, 0)
        } else {
            self.clock.resumed(wall_seconds, 0)
        };
        HelperClock { clock, running_seconds: self.running_seconds }
    }

    /// The clock after one beat at `wall_seconds`, `monotonic_seconds` after
    /// the helper started: the trusted clock advances as the heartbeat rule
    /// allows, and one interval more of running time is counted.
    pub fn on_beat(self, wall_seconds: i64, monotonic_seconds: u64) -> (next: HelperClock)
        ensures
            next.clock == self.clock.after_heartbeat(wall_seconds, monotonic_seconds),
            next.running_seconds == saturated(self.running_seconds as int, HEARTBEAT_SECONDS as int),
            next.clock.trusted_seconds >= self.clock.trusted_seconds,
    {
        HelperClock {
            clock: self.clock.heartbeat(wall_seconds, monotonic_seconds),
            running_seconds: self.running_seconds.saturating_add(HEARTBEAT_SECONDS),
        }
    }

    /// The answer to a request to read the trusted clock.
    pub fn answer(&self) -> (answer: Response)
        ensures
            answer == (Response::TrustedClock {
                trusted_seconds: self.clock.trusted_seconds,
                running_seconds: self.running_seconds,
                last_heartbeat_wall: self.clock.last_wall_seconds,
            }),
    {
        Response::TrustedClock {
            trusted_seconds: self.clock.trusted_seconds,
            running_seconds: self.running_seconds,
            last_heartbeat_wall: self.clock.last_wall_seconds,
        }
    }
}

/// What one beat did.
#[derive(Clone, Copy, PartialEq, Eq, Debug, Default, Structural)]
pub struct Beat {
    pub trusted_seconds: u64,
    /// True when something outside Cairn had changed the file and Cairn put
    /// it back.
    pub repaired: bool,
}

/// Whether the answer to a beat's repair says Cairn put the file back.
pub open spec fn put_back(repair: Option<Response>) -> bool {
    repair matches Some(Response::HostsRepaired { repaired: true, .. })
}

/// The beat at trusted time `trusted_seconds` whose repair did, or did not,
/// put the file back: the time and that one fact, and nothing else.
pub open spec fn beat_for(trusted_seconds: u64, repaired: bool) -> Beat {
    Beat { trusted_seconds, repaired }
}

/// What a beat that left the trusted clock at `trusted_seconds` did, given
/// the answer to the repair it asked for (none when nothing was meant to be
/// in force).
pub fn beat_of(trusted_seconds: u64, repair: Option<&Response>) -> (beat: Beat)
    ensures
        beat.trusted_seconds == trusted_seconds,
        beat.repaired == (repair matches Some(Response::HostsRepaired { repaired: true, .. })),
        beat == beat_for(trusted_seconds, put_back(match repair {
            Some(answer) => Some(*answer),
            None => None,
        })),
{
    let repaired = match repair {
        Some(Response::HostsRepaired { repaired, .. }) => *repaired,
        _ => false,
    };
    Beat { trusted_seconds, repaired }
}

/// A beat says nothing of what is protected: two beats at the same trusted
/// time whose repairs both put the file back, or both did not, are the same
/// beat, however many names, or which, the repairs were about.
pub proof fn lemma_beats_carry_no_names(trusted_seconds: u64, first: Option<Response>, second: Option<Response>)
    requires
        put_back(first) == put_back(second),
    ensures
        beat_for(trusted_seconds, put_back(first)) == beat_for(trusted_seconds, put_back(second)),
{
}

} // verus!
