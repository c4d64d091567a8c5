//! The period of a seasonal discount: its start must come before its end,
//! and the discount applies only at instants within the period.
use vstd::prelude::*;

verus! {

/// An instant in UTC: whole seconds since 1970-01-01T00:00:00 and the
/// nanoseconds within that second (past 10^9 only within a leap second).
#[derive(Debug, Clone, Copy, PartialEq, Eq)]
pub struct Timestamp {
    pub secs: i64,
    pub nanos: u32,
}

/// `a` comes strictly before `b`.
pub open spec fn earlier(a: Timestamp, b: Timestamp) -> bool {
    a.secs < b.secs || (a.secs == b.secs && a.nanos < b.nanos)
}

/// Why a period is refused.
#[derive(Debug, Clone, Copy, PartialEq, Eq)]
pub enum SeasonError {
    /// The start does not come before the end.
    StartNotBeforeEnd,
}

/// The discount's period does not hold the current instant.
#[derive(Debug, Clone, Copy, PartialEq, Eq)]
pub struct DiscountExpired;

/// Whether `a` comes strictly before `b`.
pub fn is_earlier(a: &Timestamp, b: &Timestamp) -> (r: bool)
    ensures
        r == earlier(*a, *b),
{
    a.secs < b.secs || (a.secs == b.secs && a.nanos < b.nanos)
}

/// Accepts a period whose start comes before its end.
pub fn validate_season_dates(from_: &Timestamp, to: &Timestamp) -> (r: Result<(), SeasonError>)
    ensures
        r is Ok <==> earlier(*from_, *to),
        r matches Err(e) ==> e == SeasonError::StartNotBeforeEnd,
{
    if is_earlier(from_, to) {
        Ok(())
    } else {
        Err(SeasonError::StartNotBeforeEnd)
    }
}

/// Calls `chrono::Utc::now` and reads the instant as seconds and
/// nanoseconds. The current time: nothing is claimed of it.
#[verifier::external_body]
fn utc_now() -> (t: Timestamp) {
    let now = chrono::Utc::now();
    Timestamp { secs: now.timestamp(), nanos: now.timestamp_subsec_nanos() }
}

/// The period of a seasonal discount.
pub struct SeasonalWindow {
    from_: Timestamp,
    to: Timestamp,
}

impl SeasonalWindow {
    #[verifier::type_invariant]
    spec fn ordered(self) -> bool {
        earlier(self.from_, self.to)
    }

    /// The start of the period.
    pub closed spec fn start(self) -> Timestamp {
        self.from_
    }

    /// The end of the period.
    pub closed spec fn end(self) -> Timestamp {
        self.to
    }

    /// The instant `now` lies outside the period: before its start or after
    /// its end.
    pub open spec fn outside(self, now: Timestamp) -> bool {
        earlier(self.end(), now) || earlier(now, self.start())
    }

    /// A period from `from_` to `to`, refused unless `from_` comes before `to`.
    pub fn new(from_: Timestamp, to: Timestamp) -> (r: Result<SeasonalWindow, SeasonError>)
        ensures
            r is Ok <==> earlier(from_, to),
            r matches Ok(w) ==> w.start() == from_ && w.end() == to,
            r matches Err(e) ==> e == SeasonError::StartNotBeforeEnd,
    {
        match validate_season_dates(&from_, &to) {
            Ok(()) => Ok(SeasonalWindow { from_, to }),
            Err(e) => Err(e),
        }
    }

    /// The start of the period, before its end.
    pub fn from_(&self) -> (r: Timestamp)
        ensures
            r == self.start(),
            earlier(r, self.end()),
    {
        proof {
            use_type_invariant(self);
        }
        self.from_
    }

    /// The end of the period, after its start.
    pub fn to(&self) -> (r: Timestamp)
        ensures
            r == self.end(),
            earlier(self.start(), r),
    {
        proof {
            use_type_invariant(self);
        }
        self.to
    }

    /// Moves the start to `from_`, unless it would not come before the end;
    /// a refused change leaves the period as it was.
    pub fn set_from(&mut self, from_: Timestamp) -> (r: Result<(), SeasonError>)
        ensures
            r is Ok <==> earlier(from_, old(self).end()),
            r is Ok ==> final(self).start() == from_ && final(self).end() == old(self).end(),
            r is Err ==> final(self).start() == old(self).start() && final(self).end() == old(
                self,
            ).end(),
    {
        match validate_season_dates(&from_, &self.to) {
            Ok(()) => {
                self.from_ = from_;
                Ok(())
            },
            Err(e) => Err(e),
        }
    }

    /// Moves the end to `to`, unless the start would not come before it; a
    /// refused change leaves the period as it was.
    pub fn set_to(&mut self, to: Timestamp) -> (r: Result<(), SeasonError>)
        ensures
            r is Ok <==> earlier(old(self).start(), to),
            r is Ok ==> final(self).end() == to && final(self).start() == old(self).start(),
            r is Err ==> final(self).start() == old(self).start() && final(self).end() == old(
                self,
            ).end(),
    {
        match validate_season_dates(&self.from_, &to) {
            Ok(()) => {
                self.to = to;
                Ok(())
            },
            Err(e) => Err(e),
        }
    }

    /// Whether the discount no longer or not yet applies at the instant
    /// `now`: the period has ended before it, or starts after it.
    pub fn is_expired_at(&self, now: &Timestamp) -> (r: bool)
        ensures
            r == self.outside(*now),
    {
        is_earlier(&self.to, now) || is_earlier(now, &self.from_)
    }

    /// Whether the discount may be applied at the instant `now`: refused
    /// exactly when `now` lies outside the period.
    pub fn check_active_at(&self, now: &Timestamp) -> (r: Result<(), DiscountExpired>)
        ensures
            r is Err <==> self.outside(*now),
    {
        if self.is_expired_at(now) {
            Err(DiscountExpired)
        } else {
            Ok(())
        }
    }

    /// Whether the discount may be applied now: the current instant is read
    /// from the clock and returned beside the answer, which refuses exactly
    /// when that instant lies outside the period.
    pub fn check_active(&self) -> (r: (Result<(), DiscountExpired>, Timestamp))
        ensures
            r.0 is Err <==> self.outside(r.1),
    {
        let now: Timestamp = utc_now();
        (self.check_active_at(&now), now)
    }
}

} // verus!
