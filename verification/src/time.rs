//! Instants in UTC and the seconds between them.
use vstd::prelude::*;

verus! {

/// The first second of the calendar: the year -262143.
pub const FIRST_SECOND: i64 = -8334601228800;

/// The last second of the calendar: the year 262142.
pub const LAST_SECOND: i64 = 8210266876799;

/// An instant in UTC: seconds since 1970 and nanoseconds within the second. A leap second is
/// the second before it with a billion nanoseconds more.
#[derive(Clone, Copy, Debug, PartialEq, Eq, Structural)]
pub struct Timestamp {
    seconds: i64,
    nanoseconds: u32,
}

impl Timestamp {
    pub closed spec fn secs(self) -> int {
        self.seconds as int
    }

    pub closed spec fn nanos(self) -> int {
        self.nanoseconds as int
    }

    #[verifier::type_invariant]
    spec fn well_formed(self) -> bool {
        calendar(self.seconds as int, self.nanoseconds as int)
    }

    /// The instant `seconds` after 1970 and `nanoseconds` within that second, where the
    /// calendar has it.
    pub fn new(seconds: i64, nanoseconds: u32) -> (r: Option<Timestamp>)
        ensures
            match r {
                Some(at) => calendar(seconds as int, nanoseconds as int) && at.secs() == seconds
                    && at.nanos() == nanoseconds,
                None => !calendar(seconds as int, nanoseconds as int),
            },
    {
        if seconds < FIRST_SECOND || seconds > LAST_SECOND {
            return None;
        }
        let within: i64 = (seconds - FIRST_SECOND) % 60;
        assert((seconds as int) % 60 == within) by {
            assert(FIRST_SECOND as int % 60 == 0);
            assert((seconds - FIRST_SECOND) % 60 == seconds as int % 60) by (nonlinear_arith)
                requires
                    FIRST_SECOND == -8334601228800int,
            ;
        }
        if nanoseconds < 1_000_000_000 || (nanoseconds < 2_000_000_000 && within == 59) {
            Some(Timestamp { seconds, nanoseconds })
        } else {
            None
        }
    }

    pub fn seconds(&self) -> (r: i64)
        ensures
            r == self.secs(),
    {
        self.seconds
    }

    pub fn nanoseconds(&self) -> (r: u32)
        ensures
            r == self.nanos(),
    {
        self.nanoseconds
    }

    /// Whether this instant comes before another.
    pub fn is_before(&self, other: &Timestamp) -> (r: bool)
        ensures
            r == before(*self, *other),
    {
        self.seconds < other.seconds || (self.seconds == other.seconds && self.nanoseconds
            < other.nanoseconds)
    }
}

/// Whether the calendar has an instant at these seconds and nanoseconds.
pub open spec fn calendar(secs: int, nanos: int) -> bool {
    &&& FIRST_SECOND <= secs <= LAST_SECOND
    &&& 0 <= nanos < 2_000_000_000
    &&& nanos >= 1_000_000_000 ==> secs % 60 == 59
}

/// The order of instants.
pub open spec fn before(a: Timestamp, b: Timestamp) -> bool {
    a.secs() < b.secs() || (a.secs() == b.secs() && a.nanos() < b.nanos())
}

/// Two instants neither of which comes before the other are the same.
pub proof fn lemma_instants_are_ordered(a: Timestamp, b: Timestamp)
    ensures
        before(a, b) || a == b || before(b, a),
        before(a, b) ==> !before(b, a),
{
}

/// The instant at these seconds and nanoseconds.
pub open spec fn instant(secs: int, nanos: int) -> Timestamp {
    choose|at: Timestamp| at.secs() == secs && at.nanos() == nanos
}

/// An instant is the one at its seconds and nanoseconds.
pub proof fn lemma_instant(at: Timestamp)
    ensures
        instant(at.secs(), at.nanos()) == at,
{
    let other = instant(at.secs(), at.nanos());
    assert(other.secs() == at.secs() && other.nanos() == at.nanos());
}

/// The nanoseconds from one instant to another. A leap second counts where the time of day of
/// one of the two lies beyond it on the side of the other.
pub open spec fn nanos_between(start: Timestamp, end: Timestamp) -> int {
    let from = start.secs() % 86400;
    let to = end.secs() % 86400;
    let leap: int = if to > from && start.nanos() >= 1_000_000_000 {
        1
    } else if to < from && end.nanos() >= 1_000_000_000 {
        -1
    } else {
        0
    };
    (end.secs() - start.secs() + leap) * 1_000_000_000 + (end.nanos() - start.nanos())
}

/// The whole seconds from `start` to `end`, and none where `end` does not come after `start`.
pub open spec fn elapsed(start: Timestamp, end: Timestamp) -> nat {
    let nanos = nanos_between(start, end);
    if nanos <= 0 {
        0
    } else {
        (nanos / 1_000_000_000) as nat
    }
}

/// The whole seconds from `start` to `end`, rounded toward zero: below zero where `end` comes
/// before `start`.
pub open spec fn whole_seconds(start: Timestamp, end: Timestamp) -> int {
    let nanos = nanos_between(start, end);
    if nanos >= 0 {
        nanos / 1_000_000_000
    } else {
        -((-nanos) / 1_000_000_000)
    }
}

/// `chrono::DateTime::signed_duration_since`, read with `TimeDelta::num_seconds`: the
/// nanoseconds between two instants of the calendar, in whole seconds, rounded toward zero.
#[verifier::external_body]
pub(crate) fn signed_seconds(start: Timestamp, end: Timestamp) -> (r: i64)
    ensures
        r == whole_seconds(start, end),
{
    let from = chrono::DateTime::from_timestamp(start.seconds, start.nanoseconds).unwrap();
    let to = chrono::DateTime::from_timestamp(end.seconds, end.nanoseconds).unwrap();
    to.signed_duration_since(from).num_seconds()
}

/// The whole seconds from `start` to `end`, and none where `end` does not come after `start`.
pub fn seconds_between(start: Timestamp, end: Timestamp) -> (r: u64)
    ensures
        r == elapsed(start, end),
        r <= LAST_SECOND - FIRST_SECOND + 3,
{
    proof {
        use_type_invariant(&start);
        use_type_invariant(&end);
    }
    let seconds: i64 = signed_seconds(start, end);
    assert(nanos_between(start, end) <= (LAST_SECOND - FIRST_SECOND + 3) * 1_000_000_000);
    if seconds > 0 {
        seconds as u64
    } else {
        0
    }
}

/// The text that `chrono::DateTime::format` gives for an instant, to the second and with a `Z`
/// behind it.
pub uninterp spec fn stamp_text(secs: int, nanos: int) -> Seq<char>;

/// `chrono::DateTime::format` with the date, a `T`, the time of day to the second and a `Z`: the
/// text for an instant.
#[verifier::external_body]
pub(crate) fn write_stamp(at: Timestamp) -> (r: String)
    ensures
        r@ == stamp_text(at.secs(), at.nanos()),
{
    let instant = chrono::DateTime::from_timestamp(at.seconds, at.nanoseconds).unwrap();
    instant.format("%Y-%m-%dT%H:%M:%SZ").to_string()
}

/// What `chrono::DateTime<Utc>` displays for an instant.
pub uninterp spec fn instant_text(secs: int, nanos: int) -> Seq<char>;

/// `ToString` for `chrono::DateTime<Utc>`: the text that it displays for an instant, which
/// depends on the instant alone.
#[verifier::external_body]
pub(crate) fn write_instant(at: Timestamp) -> (r: String)
    ensures
        r@ == instant_text(at.secs(), at.nanos()),
{
    let at = chrono::DateTime::from_timestamp(at.seconds, at.nanoseconds).unwrap();
    at.to_string()
}

/// What `chrono::DateTime::to_rfc3339` writes for an instant in UTC.
pub uninterp spec fn rfc3339_text(secs: int, nanos: int) -> Seq<char>;

/// `chrono::DateTime::to_rfc3339`: the text that it writes for an instant in UTC, which depends on
/// the instant alone.
#[verifier::external_body]
pub(crate) fn write_rfc3339(at: Timestamp) -> (r: String)
    ensures
        r@ == rfc3339_text(at.secs(), at.nanos()),
{
    let at = chrono::DateTime::from_timestamp(at.seconds, at.nanoseconds).unwrap();
    at.to_rfc3339()
}

/// The seconds and nanoseconds of the instant that a text is, where it is one.
pub uninterp spec fn instant_of(text: Seq<char>) -> Option<(int, int)>;

/// `chrono::DateTime::parse_from_rfc3339`, in UTC: the instant that a text is, where it is one.
#[verifier::external_body]
pub(crate) fn read_rfc3339(text: &str) -> (r: Option<Timestamp>)
    ensures
        match r {
            Some(at) => instant_of(text@) == Some((at.secs(), at.nanos())),
            None => instant_of(text@) is None,
        },
{
    let at = chrono::DateTime::parse_from_rfc3339(text).ok()?.with_timezone(&chrono::Utc);
    Some(Timestamp { seconds: at.timestamp(), nanoseconds: at.timestamp_subsec_nanos() })
}

/// The seconds of the instant `n` seconds after one.
pub open spec fn shifted_secs(at: Timestamp, n: int) -> int {
    if n < 0 && at.nanos() >= 1_000_000_000 {
        at.secs() + 1 + n
    } else {
        at.secs() + n
    }
}

/// The nanoseconds of the instant `n` seconds after one: a shift leaves a leap second.
pub open spec fn shifted_nanos(at: Timestamp, n: int) -> int {
    if n != 0 && at.nanos() >= 1_000_000_000 {
        at.nanos() - 1_000_000_000
    } else {
        at.nanos()
    }
}

/// `chrono::DateTime::checked_add_signed` with `TimeDelta::try_seconds`: the instant `n` seconds
/// later, where the calendar has it.
#[verifier::external_body]
pub(crate) fn shifted(at: Timestamp, n: i64) -> (r: Option<Timestamp>)
    ensures
        match r {
            Some(later) => later.secs() == shifted_secs(at, n as int) && later.nanos()
                == shifted_nanos(at, n as int),
            None => !calendar(shifted_secs(at, n as int), shifted_nanos(at, n as int)),
        },
{
    let start = chrono::DateTime::from_timestamp(at.seconds, at.nanoseconds).unwrap();
    let delta = chrono::TimeDelta::try_seconds(n)?;
    let later = start.checked_add_signed(delta)?;
    Some(
        Timestamp {
            seconds: later.timestamp(),
            nanoseconds: later.timestamp_subsec_nanos(),
        },
    )
}

/// No time passes from an instant to itself, and none is counted back to an earlier one.
pub proof fn time_is_not_counted_backwards(start: Timestamp, end: Timestamp)
    requires
        calendar(start.secs(), start.nanos()),
        calendar(end.secs(), end.nanos()),
        start == end || before(end, start),
    ensures
        elapsed(start, end) == 0,
{
}

/// Between two instants outside leap seconds as many seconds pass as their seconds differ by, but
/// for one that is not whole yet.
pub proof fn whole_seconds_are_counted(start: Timestamp, end: Timestamp)
    requires
        0 <= start.nanos() < 1_000_000_000,
        0 <= end.nanos() < 1_000_000_000,
        before(start, end),
    ensures
        start.nanos() <= end.nanos() ==> elapsed(start, end) == end.secs() - start.secs(),
        end.nanos() < start.nanos() ==> elapsed(start, end) == end.secs() - start.secs() - 1,
{
}

} // verus!
