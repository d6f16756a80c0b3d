use vstd::prelude::*;

verus! {

/// A calendar instant, broken into plain fields.  One instant is captured
/// per run and threaded into every due-decision and generated name, so all
/// decisions within a run are mutually consistent.
#[derive(Clone, Copy, PartialEq, Eq, Structural, Debug)]
pub struct Instant {
    pub year: u32,
    pub month: u32,
    pub day: u32,
    pub hour: u32,
    pub minute: u32,
    pub second: u32,
}

impl Instant {
    /// Field ranges that make the fixed-width, zero-padded name format
    /// possible: four digits of year, two of everything else.
    pub open spec fn wf(self) -> bool {
        &&& self.year <= 9999
        &&& 1 <= self.month <= 12
        &&& 1 <= self.day <= 31
        &&& self.hour <= 23
        &&& self.minute <= 59
        &&& self.second <= 59
    }

    /// Chronological order: field by field, most significant first.
    pub open spec fn time_le(self, other: Instant) -> bool {
        if self.year != other.year {
            self.year < other.year
        } else if self.month != other.month {
            self.month < other.month
        } else if self.day != other.day {
            self.day < other.day
        } else if self.hour != other.hour {
            self.hour < other.hour
        } else if self.minute != other.minute {
            self.minute < other.minute
        } else {
            self.second <= other.second
        }
    }

    /// Builds an instant, rejecting out-of-range fields.
    pub fn new(year: u32, month: u32, day: u32, hour: u32, minute: u32, second: u32) -> (r: Option<
        Instant,
    >)
        ensures
            r is Some <==> (Instant { year, month, day, hour, minute, second }).wf(),
            r is Some ==> r->0 == (Instant { year, month, day, hour, minute, second }),
    {
        let it = Instant { year, month, day, hour, minute, second };
        if year <= 9999 && 1 <= month && month <= 12 && 1 <= day && day <= 31 && hour <= 23
            && minute <= 59 && second <= 59 {
            Some(it)
        } else {
            None
        }
    }
}

} // verus!
