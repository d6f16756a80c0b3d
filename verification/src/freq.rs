use vstd::prelude::*;
use crate::instant::Instant;
use crate::order::str_eq;

verus! {

/// A snapshot frequency class: a closed, ordered set of cadences.  Each
/// class carries a lowercase tag that is the on-disk contract for
/// re-classifying snapshots on later runs.
#[derive(Clone, Copy, PartialEq, Eq, Structural, Debug)]
pub enum Freq {
    Frequently,
    Hourly,
    Daily,
    Monthly,
    Yearly,
}

impl Freq {
    /// The tag naming this class inside snapshot names.
    pub open spec fn tag(self) -> Seq<char> {
        match self {
            Freq::Frequently => "frequently"@,
            Freq::Hourly => "hourly"@,
            Freq::Daily => "daily"@,
            Freq::Monthly => "monthly"@,
            Freq::Yearly => "yearly"@,
        }
    }

    /// The tag as a string slice.
    pub fn as_str(&self) -> (r: &'static str)
        ensures
            r@ == self.tag(),
    {
        match self {
            Freq::Frequently => "frequently",
            Freq::Hourly => "hourly",
            Freq::Daily => "daily",
            Freq::Monthly => "monthly",
            Freq::Yearly => "yearly",
        }
    }

    /// The class a tag denotes, if any.
    pub open spec fn from_tag(s: Seq<char>) -> Option<Freq> {
        if s == "frequently"@ {
            Some(Freq::Frequently)
        } else if s == "hourly"@ {
            Some(Freq::Hourly)
        } else if s == "daily"@ {
            Some(Freq::Daily)
        } else if s == "monthly"@ {
            Some(Freq::Monthly)
        } else if s == "yearly"@ {
            Some(Freq::Yearly)
        } else {
            None
        }
    }

    /// Recognizes a class tag.
    pub fn from_str(s: &str) -> (r: Option<Freq>)
        ensures
            r == Self::from_tag(s@),
    {
        if str_eq(s, "frequently") {
            Some(Freq::Frequently)
        } else if str_eq(s, "hourly") {
            Some(Freq::Hourly)
        } else if str_eq(s, "daily") {
            Some(Freq::Daily)
        } else if str_eq(s, "monthly") {
            Some(Freq::Monthly)
        } else if str_eq(s, "yearly") {
            Some(Freq::Yearly)
        } else {
            None
        }
    }

    /// The tags are distinct: a class is always recovered from its own tag.
    pub proof fn lemma_tag_round_trip(f: Freq)
        ensures
            Self::from_tag(f.tag()) == Some(f),
    {
        reveal_strlit("frequently");
        reveal_strlit("hourly");
        reveal_strlit("daily");
        reveal_strlit("monthly");
        reveal_strlit("yearly");
        assert("frequently"@.len() == 10);
        assert("hourly"@.len() == 6);
        assert("daily"@.len() == 5);
        assert("monthly"@.len() == 7);
        assert("yearly"@.len() == 6);
        assert("hourly"@[0] != "yearly"@[0]);
        assert("yearly"@ != "hourly"@);
    }

    /// Whether `now` sits on this class's preferred cadence boundary.
    pub open spec fn preferred_spec(self, now: Instant) -> bool {
        match self {
            Freq::Frequently => now.minute % 15 == 0,
            Freq::Hourly => now.minute == 0,
            Freq::Daily => now.hour == 0 && now.minute == 0,
            Freq::Monthly => now.day == 1 && now.hour == 0 && now.minute == 0,
            Freq::Yearly => now.month == 1 && now.day == 1 && now.hour == 0 && now.minute == 0,
        }
    }

    /// Decides the cadence boundary for this class at `now`.
    pub fn preferred_time(&self, now: &Instant) -> (r: bool)
        ensures
            r == self.preferred_spec(*now),
    {
        match self {
            Freq::Frequently => now.minute % 15 == 0,
            Freq::Hourly => now.minute == 0,
            Freq::Daily => now.hour == 0 && now.minute == 0,
            Freq::Monthly => now.day == 1 && now.hour == 0 && now.minute == 0,
            Freq::Yearly => now.month == 1 && now.day == 1 && now.hour == 0 && now.minute == 0,
        }
    }
}

} // verus!
