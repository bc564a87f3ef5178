//! Weekdays with a fixed cyclic order and cyclic day-range expansion.
//!
//! Schedule ranges walk forward from a start day to an end day, wrapping
//! past Saturday to Sunday, so every ordered pair of days expands to a
//! well-defined non-empty sequence.

use vstd::prelude::*;

verus! {

/// One of the seven weekdays. The ordinal order (Sun first) is fixed by
/// [`Day::ord`]; schedule ranges are interpreted cyclically over it.
#[derive(Copy, Clone, Debug, PartialEq, Eq, Structural)]
pub enum Day {
    Sun,
    Mon,
    Tue,
    Wed,
    Thu,
    Fri,
    Sat,
}

/// The weekday with a given ordinal below seven.
pub open spec fn day_of_ord(n: nat) -> Day {
    if n == 0 {
        Day::Sun
    } else if n == 1 {
        Day::Mon
    } else if n == 2 {
        Day::Tue
    } else if n == 3 {
        Day::Wed
    } else if n == 4 {
        Day::Thu
    } else if n == 5 {
        Day::Fri
    } else {
        Day::Sat
    }
}

impl Day {
    /// The fixed ordinal of this weekday: Sun is 0, Sat is 6.
    pub open spec fn ord_spec(self) -> nat {
        match self {
            Day::Sun => 0,
            Day::Mon => 1,
            Day::Tue => 2,
            Day::Wed => 3,
            Day::Thu => 4,
            Day::Fri => 5,
            Day::Sat => 6,
        }
    }

    /// The fixed three-letter abbreviation of this weekday.
    pub open spec fn name_spec(self) -> Seq<char> {
        match self {
            Day::Sun => "Sun"@,
            Day::Mon => "Mon"@,
            Day::Tue => "Tue"@,
            Day::Wed => "Wed"@,
            Day::Thu => "Thu"@,
            Day::Fri => "Fri"@,
            Day::Sat => "Sat"@,
        }
    }

    /// The explicit day-to-ordinal table behind the token format.
    pub fn ord(&self) -> (r: u8)
        ensures
            r == self.ord_spec(),
    {
        match self {
            Day::Sun => 0,
            Day::Mon => 1,
            Day::Tue => 2,
            Day::Wed => 3,
            Day::Thu => 4,
            Day::Fri => 5,
            Day::Sat => 6,
        }
    }

    /// The display abbreviation of this weekday.
    pub fn name(&self) -> (r: &'static str)
        ensures
            r@ == self.name_spec(),
    {
        match self {
            Day::Sun => "Sun",
            Day::Mon => "Mon",
            Day::Tue => "Tue",
            Day::Wed => "Wed",
            Day::Thu => "Thu",
            Day::Fri => "Fri",
            Day::Sat => "Sat",
        }
    }

    /// All seven weekdays in ordinal order.
    pub fn iter() -> (r: Vec<Day>)
        ensures
            r@ == seq![Day::Sun, Day::Mon, Day::Tue, Day::Wed, Day::Thu, Day::Fri, Day::Sat],
            r@.len() == 7,
            forall|i: int| 0 <= i < 7 ==> (#[trigger] r@[i]).ord_spec() == i,
    {
        let v = vec![Day::Sun, Day::Mon, Day::Tue, Day::Wed, Day::Thu, Day::Fri, Day::Sat];
        proof {
            assert(v@ =~= seq![Day::Sun, Day::Mon, Day::Tue, Day::Wed, Day::Thu, Day::Fri, Day::Sat]);
        }
        v
    }
}

/// The weekday with ordinal `n`.
pub fn day_from_ord(n: u8) -> (r: Day)
    requires
        n < 7,
    ensures
        r == day_of_ord(n as nat),
{
    match n {
        0 => Day::Sun,
        1 => Day::Mon,
        2 => Day::Tue,
        3 => Day::Wed,
        4 => Day::Thu,
        5 => Day::Fri,
        _ => Day::Sat,
    }
}

/// Length of the inclusive forward walk from `d0` to `d1`, wrapping mod 7:
/// between 1 (equal endpoints) and 7 (a full week).
pub open spec fn cyclic_len(d0: Day, d1: Day) -> nat {
    ((d1.ord_spec() + 7 - d0.ord_spec()) % 7 + 1) as nat
}

/// The inclusive, direction-forward, week-wrapping sequence of days from
/// `d0` to `d1`.
pub open spec fn days_seq(d0: Day, d1: Day) -> Seq<Day> {
    Seq::new(cyclic_len(d0, d1), |i: int| day_of_ord(((d0.ord_spec() + i) % 7) as nat))
}

/// Expand an ordered day pair into the inclusive cyclic range of days from
/// the first to the second, advancing forward and wrapping past Saturday.
pub fn iter_days(days: (Day, Day)) -> (r: Vec<Day>)
    ensures
        r@ == days_seq(days.0, days.1),
{
    let start: u8 = days.0.ord();
    let end: u8 = days.1.ord();
    let len: u8 = (end + 7 - start) % 7 + 1;
    let mut v: Vec<Day> = Vec::new();
    let mut i: u8 = 0;
    while i < len
        invariant
            start == days.0.ord_spec(),
            start < 7,
            len == cyclic_len(days.0, days.1),
            i <= len,
            v@.len() == i as int,
            forall|j: int|
                0 <= j < i as int ==> v@[j] == day_of_ord(((start as int + j) % 7) as nat),
        decreases len - i,
    {
        v.push(day_from_ord((start + i) % 7));
        i = i + 1;
    }
    proof {
        assert(v@ =~= days_seq(days.0, days.1));
    }
    v
}

/// The cyclic range from `d0` to `d1` is non-empty, starts at `d0`, ends at
/// `d1`, and has length `(ord(d1) - ord(d0) + 7) % 7 + 1`. Together with the
/// exact contract of [`iter_days`], which pins the whole sequence, repeated
/// expansions of the same pair yield identical sequences.
pub proof fn lemma_days_seq_props(d0: Day, d1: Day)
    ensures
        days_seq(d0, d1).len() == cyclic_len(d0, d1),
        1 <= cyclic_len(d0, d1) <= 7,
        days_seq(d0, d1).first() == d0,
        days_seq(d0, d1).last() == d1,
{
    let s = d0.ord_spec();
    let e = d1.ord_spec();
    assert(day_of_ord(((s + 0) % 7) as nat) == d0);
    let l = cyclic_len(d0, d1);
    assert(days_seq(d0, d1).last() == day_of_ord(((s + (l - 1)) % 7) as nat));
    if s <= e {
        assert((e + 7 - s) % 7 == (if s == e { 0int } else { e - s }));
    } else {
        assert((e + 7 - s) % 7 == e + 7 - s);
    }
    assert((s + (l - 1)) % 7 == e);
    assert(day_of_ord(e) == d1);
}

} // verus!
