//! A reduction waits, whatever the clock says.
//!
//! Turning protection off, removing an entry and switching a category off are
//! all reductions, and each waits the same fixed period with protection fully
//! in force throughout. Increases never wait.
//!
//! The wait is measured on a trusted clock that only moves forward. While
//! Cairn runs, a wall-clock jump is credited only as far as the monotonic
//! clock corroborates it; time while the machine was off is credited from the
//! wall clock in full, since nothing on the machine could measure it.
use vstd::prelude::*;
use crate::domain::entries::{domain_views, CategoryId, Domain};

verus! {

/// Fixed at 24 hours, and not configurable.
pub const WAITING_PERIOD_SECONDS: u64 = 24 * 60 * 60;

/// A random identifier, as the `uuid` crate makes them.
#[verifier::external_type_specification]
#[verifier::external_body]
pub struct ExUuid(uuid::Uuid);

/// `uuid::Uuid`'s derived `clone`: the type is `Copy`, so the clone is the
/// same identifier.
pub assume_specification[<uuid::Uuid as Clone>::clone](id: &uuid::Uuid) -> (copy: uuid::Uuid)
    ensures
        copy == *id,
;

/// The sixteen bytes an identifier holds, as `uuid::Uuid::as_bytes` gives
/// them. Everything about an identifier (its text, whether two are the
/// same) is a function of these bytes.
pub uninterp spec fn uuid_bytes(id: uuid::Uuid) -> Seq<u8>;

/// `bytes` made into a version 4 identifier's bytes: the version (4) in the
/// high half of byte 6, and the variant (binary 10) in the top bits of
/// byte 8; the rest as given.
pub open spec fn v4_bytes(bytes: Seq<u8>) -> Seq<u8> {
    bytes.update(6, (bytes[6] & 0x0fu8) | 0x40u8).update(8, (bytes[8] & 0x3fu8) | 0x80u8)
}

/// `uuid::Builder::from_random_bytes` followed by `into_uuid`: the version 4
/// identifier whose bytes are `bytes` with the version and variant bits set
/// (`with_variant(RFC4122)` then `with_version(Random)` in the builder).
#[verifier::external_body]
fn id_from_random_bytes(bytes: [u8; 16]) -> (id: uuid::Uuid)
    ensures
        uuid_bytes(id) == v4_bytes(bytes@),
{
    uuid::Builder::from_random_bytes(bytes).into_uuid()
}

/// A fresh random identifier for a change that is about to wait, built from
/// sixteen bytes of the operating system's randomness; when there is no
/// randomness to be had, the reason.
pub fn draw_id() -> (drawn: Result<uuid::Uuid, String>)
    ensures
        drawn matches Ok(id) ==> exists|bytes: Seq<u8>| bytes.len() == 16 && uuid_bytes(id) == v4_bytes(bytes),
{
    let bytes = match crate::platform::credentials::random_bytes(16) {
        Ok(bytes) => bytes,
        Err(because) => {
            return Err(because);
        },
    };
    let mut raw: [u8; 16] = [0u8; 16];
    let mut i: usize = 0;
    while i < 16
        invariant
            i <= 16,
            bytes@.len() == 16,
        decreases 16 - i,
    {
        raw.set(i, bytes[i]);
        i = i + 1;
    }
    let id = id_from_random_bytes(raw);
    assert(raw@.len() == 16);
    Ok(id)
}

/// `x` clamped into `u64`.
pub open spec fn clamp_u64(x: int) -> u64 {
    if x > u64::MAX {
        u64::MAX
    } else if x < 0 {
        0
    } else {
        x as u64
    }
}

/// How far the wall clock moved from `before` to `after`, counting a move
/// backward as none and capping at `i64::MAX`.
pub open spec fn wall_advance(before: i64, after: i64) -> int {
    if after - before <= 0 {
        0
    } else if after - before > i64::MAX {
        i64::MAX as int
    } else {
        after - before
    }
}

/// The smaller of two numbers.
pub open spec fn least(a: int, b: int) -> int {
    if a <= b {
        a
    } else {
        b
    }
}

/// The advance-only clock a pending change is measured against.
#[derive(Clone, Copy, PartialEq, Eq, Debug, Structural)]
pub struct TrustedClock {
    /// Seconds credited so far. Never decreases.
    pub trusted_seconds: u64,
    /// The wall clock at the last heartbeat, for crediting downtime.
    pub last_wall_seconds: i64,
    /// The monotonic reading at the last heartbeat, for corroborating uptime.
    pub last_monotonic_seconds: u64,
}

impl Default for TrustedClock {
    fn default() -> (clock: TrustedClock)
        ensures
            clock == (TrustedClock {
                trusted_seconds: 0,
                last_wall_seconds: 0,
                last_monotonic_seconds: 0,
            }),
    {
        TrustedClock { trusted_seconds: 0, last_wall_seconds: 0, last_monotonic_seconds: 0 }
    }
}

/// How far the wall clock moved, computed without overflow.
fn wall_delta(before: i64, after: i64) -> (delta: u64)
    ensures
        delta == wall_advance(before, after),
{
    if after <= before {
        0
    } else {
        match after.checked_sub(before) {
            Some(difference) => difference as u64,
            None => i64::MAX as u64,
        }
    }
}

impl TrustedClock {
    /// The clock a heartbeat at `wall_seconds` and `monotonic_seconds` leaves.
    pub open spec fn after_heartbeat(self, wall_seconds: i64, monotonic_seconds: u64) -> TrustedClock {
        TrustedClock {
            trusted_seconds: clamp_u64(
                self.trusted_seconds + least(
                    wall_advance(self.last_wall_seconds, wall_seconds),
                    clamp_u64(monotonic_seconds - self.last_monotonic_seconds) as int,
                ),
            ),
            last_wall_seconds: if wall_seconds >= self.last_wall_seconds {
                wall_seconds
            } else {
                self.last_wall_seconds
            },
            last_monotonic_seconds: monotonic_seconds,
        }
    }

    /// The clock a start after downtime at `wall_seconds` leaves.
    pub open spec fn after_resume(self, wall_seconds: i64, monotonic_seconds: u64) -> TrustedClock {
        TrustedClock {
            trusted_seconds: clamp_u64(
                self.trusted_seconds + wall_advance(self.last_wall_seconds, wall_seconds),
            ),
            last_wall_seconds: if wall_seconds >= self.last_wall_seconds {
                wall_seconds
            } else {
                self.last_wall_seconds
            },
            last_monotonic_seconds: monotonic_seconds,
        }
    }

    /// Start a fresh clock from the current readings.
    pub fn started(wall_seconds: i64, monotonic_seconds: u64) -> (clock: TrustedClock)
        ensures
            clock == (TrustedClock {
                trusted_seconds: 0,
                last_wall_seconds: wall_seconds,
                last_monotonic_seconds: monotonic_seconds,
            }),
    {
        TrustedClock {
            trusted_seconds: 0,
            last_wall_seconds: wall_seconds,
            last_monotonic_seconds: monotonic_seconds,
        }
    }

    /// A heartbeat while Cairn is running: credits the smaller of what the
    /// wall clock claims and what the monotonic clock can vouch for. A
    /// backward wall-clock change credits nothing and takes nothing away.
    pub fn heartbeat(self, wall_seconds: i64, monotonic_seconds: u64) -> (next: TrustedClock)
        ensures
            next == self.after_heartbeat(wall_seconds, monotonic_seconds),
            next.trusted_seconds >= self.trusted_seconds,
            next.trusted_seconds - self.trusted_seconds <= wall_advance(
                self.last_wall_seconds,
                wall_seconds,
            ),
    {
        let wall = wall_delta(self.last_wall_seconds, wall_seconds);
        let monotonic = monotonic_seconds.saturating_sub(self.last_monotonic_seconds);
        let credit = if wall <= monotonic {
            wall
        } else {
            monotonic
        };
        TrustedClock {
            trusted_seconds: self.trusted_seconds.saturating_add(credit),
            last_wall_seconds: if wall_seconds >= self.last_wall_seconds {
                wall_seconds
            } else {
                self.last_wall_seconds
            },
            last_monotonic_seconds: monotonic_seconds,
        }
    }

    /// A start after the machine was off: the wall clock's advance is
    /// credited in full, since nothing was awake to measure the gap.
    pub fn resumed(self, wall_seconds: i64, monotonic_seconds: u64) -> (next: TrustedClock)
        ensures
            next == self.after_resume(wall_seconds, monotonic_seconds),
            next.trusted_seconds >= self.trusted_seconds,
    {
        let downtime = wall_delta(self.last_wall_seconds, wall_seconds);
        TrustedClock {
            trusted_seconds: self.trusted_seconds.saturating_add(downtime),
            last_wall_seconds: if wall_seconds >= self.last_wall_seconds {
                wall_seconds
            } else {
                self.last_wall_seconds
            },
            last_monotonic_seconds: monotonic_seconds,
        }
    }
}

/// What a pending change would do once it applies.
#[derive(PartialEq, Eq, Debug)]
pub enum PendingKind {
    /// Protection off entirely.
    TurnOffProtection,
    /// Specific entries the person typed.
    RemoveEntries { domains: Vec<Domain> },
    /// A whole preset category.
    DisableCategory { category: CategoryId },
}

/// The only route to reducing protection.
#[derive(PartialEq, Eq, Debug)]
pub struct PendingChange {
    pub id: uuid::Uuid,
    pub kind: PendingKind,
    /// For display only. Never used to decide eligibility.
    pub requested_at_wall: i64,
    /// The trusted clock when the change was asked for.
    pub trusted_clock_at_request: u64,
    /// The trusted-clock reading this change becomes eligible at.
    pub eligible_after_trusted: u64,
}

/// A kind of change as plain values: a tag (0 turn off, 1 remove entries,
/// 2 disable a category), the domains to remove and the category.
pub open spec fn kind_view(kind: PendingKind) -> (int, Seq<Seq<char>>, Option<CategoryId>) {
    match kind {
        PendingKind::TurnOffProtection => (0, Seq::empty(), None),
        PendingKind::RemoveEntries { domains } => (1, domain_views(domains@), None),
        PendingKind::DisableCategory { category } => (2, Seq::empty(), Some(category)),
    }
}

/// A pending change as plain values.
pub open spec fn pending_view(pending: PendingChange) -> (
    uuid::Uuid,
    (int, Seq<Seq<char>>, Option<CategoryId>),
    i64,
    u64,
    u64,
) {
    (
        pending.id,
        kind_view(pending.kind),
        pending.requested_at_wall,
        pending.trusted_clock_at_request,
        pending.eligible_after_trusted,
    )
}

/// A copy of a list of domains.
fn copy_domains(domains: &Vec<Domain>) -> (copy: Vec<Domain>)
    ensures
        domain_views(copy@) == domain_views(domains@),
{
    let mut copy: Vec<Domain> = Vec::new();
    let mut i: usize = 0;
    while i < domains.len()
        invariant
            i <= domains@.len(),
            copy@.len() == i,
            forall|j: int| 0 <= j < i ==> #[trigger] copy@[j]@ == domains@[j]@,
        decreases domains.len() - i,
    {
        copy.push(domains[i].clone());
        i = i + 1;
    }
    assert(domain_views(copy@) =~= domain_views(domains@));
    copy
}

impl Clone for PendingKind {
    fn clone(&self) -> (copy: PendingKind)
        ensures
            kind_view(copy) == kind_view(*self),
    {
        match self {
            PendingKind::TurnOffProtection => PendingKind::TurnOffProtection,
            PendingKind::RemoveEntries { domains } => PendingKind::RemoveEntries {
                domains: copy_domains(domains),
            },
            PendingKind::DisableCategory { category } => PendingKind::DisableCategory {
                category: *category,
            },
        }
    }
}

impl Clone for PendingChange {
    fn clone(&self) -> (copy: PendingChange)
        ensures
            pending_view(copy) == pending_view(*self),
    {
        PendingChange {
            id: self.id.clone(),
            kind: self.kind.clone(),
            requested_at_wall: self.requested_at_wall,
            trusted_clock_at_request: self.trusted_clock_at_request,
            eligible_after_trusted: self.eligible_after_trusted,
        }
    }
}

/// Whether two lists hold the same domains in the same order.
fn same_domains(x: &Vec<Domain>, y: &Vec<Domain>) -> (same: bool)
    ensures
        same == (domain_views(x@) == domain_views(y@)),
{
    if x.len() != y.len() {
        assert(domain_views(x@).len() != domain_views(y@).len());
        return false;
    }
    let mut i: usize = 0;
    while i < x.len()
        invariant
            i <= x@.len() == y@.len(),
            forall|j: int| 0 <= j < i ==> (#[trigger] x@[j])@ == y@[j]@,
        decreases x.len() - i,
    {
        let left = x[i].chars();
        let right = y[i].chars();
        if crate::domain::entries::compare_text(left.as_slice(), right.as_slice()) != 0 {
            assert(domain_views(x@)[i as int] == x@[i as int]@);
            assert(domain_views(y@)[i as int] == y@[i as int]@);
            return false;
        }
        i = i + 1;
    }
    assert(domain_views(x@) =~= domain_views(y@));
    true
}

/// Whether two kinds of change are the same change.
pub fn same_kind(a: &PendingKind, b: &PendingKind) -> (same: bool)
    ensures
        same == (kind_view(*a) == kind_view(*b)),
{
    match (a, b) {
        (PendingKind::TurnOffProtection, PendingKind::TurnOffProtection) => true,
        (PendingKind::RemoveEntries { domains: x }, PendingKind::RemoveEntries { domains: y }) => {
            same_domains(x, y)
        },
        (PendingKind::DisableCategory { category: x }, PendingKind::DisableCategory { category: y }) => {
            x.index() == y.index()
        },
        _ => false,
    }
}

/// `uuid::Uuid`'s derived `==`, which compares the identifiers' bytes: true
/// exactly when the two are the same identifier, that is, when their bytes
/// are the same.
#[verifier::external_body]
pub fn same_id(a: &uuid::Uuid, b: &uuid::Uuid) -> (same: bool)
    ensures
        same == (*a == *b),
        same == (uuid_bytes(*a) == uuid_bytes(*b)),
{
    *a == *b
}

/// The pending change may apply at trusted time `trusted_now`.
pub open spec fn eligible(pending: PendingChange, trusted_now: u64) -> bool {
    trusted_now >= pending.eligible_after_trusted
}

/// When a change asked for at trusted time `trusted` becomes eligible.
pub open spec fn eligible_from(trusted: u64) -> u64 {
    clamp_u64(trusted + WAITING_PERIOD_SECONDS)
}

impl PendingChange {
    /// Open a request under `id`, a fresh random identifier (see
    /// [`draw_id`]). The waiting period starts now, on the trusted clock.
    pub fn request(kind: PendingKind, clock: &TrustedClock, wall_seconds: i64, id: uuid::Uuid) -> (pending: PendingChange)
        ensures
            pending.id == id,
            pending.kind == kind,
            pending.requested_at_wall == wall_seconds,
            pending.trusted_clock_at_request == clock.trusted_seconds,
            pending.eligible_after_trusted == eligible_from(clock.trusted_seconds),
    {
        PendingChange {
            id,
            kind,
            requested_at_wall: wall_seconds,
            trusted_clock_at_request: clock.trusted_seconds,
            eligible_after_trusted: clock.trusted_seconds.saturating_add(WAITING_PERIOD_SECONDS),
        }
    }
}

/// Whether a pending change may apply yet. This is the whole gate: nothing
/// else decides that a reduction is allowed.
pub fn is_eligible(pending: &PendingChange, trusted_now: u64) -> (answer: bool)
    ensures
        answer == eligible(*pending, trusted_now),
{
    trusted_now >= pending.eligible_after_trusted
}

/// How long is left; zero means the change is eligible now.
pub fn remaining_seconds(pending: &PendingChange, trusted_now: u64) -> (left: u64)
    ensures
        left == clamp_u64(pending.eligible_after_trusted - trusted_now),
{
    pending.eligible_after_trusted.saturating_sub(trusted_now)
}

/// Once eligible, a pending change stays eligible as the trusted clock moves
/// on; and nothing is left to wait exactly when it is eligible.
pub proof fn lemma_eligibility_lasts(pending: PendingChange, earlier: u64, later: u64)
    requires
        earlier <= later,
    ensures
        eligible(pending, earlier) ==> eligible(pending, later),
        clamp_u64(pending.eligible_after_trusted - earlier) == 0 <==> eligible(pending, earlier),
{
}

/// A change asked for at trusted time `asked_at` is not eligible before a
/// full waiting period has been credited to the trusted clock (a clock so
/// near its end that the period cannot fit waits until the clock's last
/// second).
pub proof fn lemma_a_reduction_waits(pending: PendingChange, asked_at: u64, trusted_now: u64)
    requires
        pending.eligible_after_trusted == eligible_from(asked_at),
        trusted_now < asked_at + WAITING_PERIOD_SECONDS,
        trusted_now < u64::MAX,
    ensures
        !eligible(pending, trusted_now),
{
}

/// However the wall clock is set, a run of heartbeats credits the trusted
/// clock no more than the monotonic clock advanced.
pub proof fn lemma_heartbeats_follow_the_monotonic_clock(
    clock: TrustedClock,
    wall_seconds: i64,
    monotonic_seconds: u64,
)
    requires
        monotonic_seconds >= clock.last_monotonic_seconds,
    ensures
        clock.after_heartbeat(wall_seconds, monotonic_seconds).trusted_seconds
            <= clock.trusted_seconds + (monotonic_seconds - clock.last_monotonic_seconds),
        clock.after_heartbeat(wall_seconds, monotonic_seconds).trusted_seconds
            >= clock.trusted_seconds,
{
}

} // verus!
