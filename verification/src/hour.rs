//! Wall-clock hour values with after-midnight wraparound.
//!
//! An [`Hour`] stores a raw `HHMM` encoding (hour times 100 plus minute).
//! Two sub-domains are legal: same-day values `0..=2359` and wraparound
//! values `2400..=2500`, which denote a time after midnight on the following
//! day. Validation enforces only the upper hour bound and the minute bound;
//! wraparound remaps the calendar day at display and bucketing time and is
//! never applied destructively at construction.

use crate::text::{
    append_two_digits, dec_digits, is_digit, lemma_dec_digits_props, two_digits, u16_string,
};
use vstd::prelude::*;
use vstd::string::StringExecFns;

verus! {

/// Latest hour a schedule may reach: raw values up to `END_HOUR * 100` are
/// accepted (with a legal minute part).
pub const END_HOUR: u16 = 25;

/// Earliest hour the front-end grid renders. A display-domain constant, not
/// a validity bound on `Hour`.
pub const START_HOUR: u16 = 9;

/// Why a raw hour encoding was rejected.
#[derive(Copy, Clone, Debug, PartialEq, Eq, Structural)]
pub enum ValidationError {
    /// Raw value outside the legal pre-wraparound bounds, or minutes > 59.
    InvalidHour,
}

/// A wall-clock time in `HHMM` encoding, validated on construction through
/// [`make_hour`].
#[derive(Copy, Clone, Debug, PartialEq, Eq, Structural)]
pub struct Hour(pub u16);

/// A raw `HHMM` value is legal when its pre-wraparound hour part is at most
/// `END_HOUR` and its minute part is at most 59.
pub open spec fn hour_valid(raw: u16) -> bool {
    raw / 100 <= END_HOUR && raw % 100 <= 59
}

/// The wraparound remapping on raw values: `2400..=2500` fold back to the
/// `0..=100` range of the following day; everything else is unchanged.
pub open spec fn wrap_spec(raw: u16) -> u16 {
    if 2400 <= raw && raw <= 2500 {
        (raw - 2400) as u16
    } else {
        raw
    }
}

impl Hour {
    /// Whether this hour satisfies the construction-time bounds.
    pub open spec fn valid(self) -> bool {
        hour_valid(self.0)
    }

    /// Whether this hour lands on a renderable wall-clock hour (0..=23)
    /// after wraparound, so 12-hour display is defined for it.
    pub open spec fn displayable(self) -> bool {
        self.valid() && wrap_spec(self.0) / 100 <= 23
    }

    /// Apply the after-midnight wraparound: values in `2400..=END_HOUR*100`
    /// are folded back into the `0..=100` range; all others are unchanged.
    pub fn wraparound(&self) -> (r: Self)
        ensures
            r.0 == wrap_spec(self.0),
    {
        if 2400 <= self.0 && self.0 <= END_HOUR * 100 {
            Hour(self.0 - 2400)
        } else {
            Hour(self.0)
        }
    }

    /// The hour part of the raw encoding (before wraparound).
    pub fn hours(&self) -> (r: u16)
        ensures
            r == self.0 / 100,
    {
        self.0 / 100
    }

    /// The minute part of the raw encoding.
    pub fn minutes(&self) -> (r: u16)
        ensures
            r == self.0 % 100,
    {
        self.0 % 100
    }
}

/// The hour shown on a 12-hour clock face for a wall-clock hour `0..=23`:
/// 0 shows as 12, 13 through 23 drop to 1 through 11.
pub open spec fn clock_hour(h: nat) -> nat
    recommends
        h <= 23,
{
    if h == 0 {
        12
    } else if h <= 12 {
        h
    } else {
        (h - 12) as nat
    }
}

/// The 12-hour rendering of a raw `HHMM` value: wraparound applied, the
/// clock hour without leading zero, minutes omitted when zero and rendered
/// as `:MM` otherwise, and an `am`/`pm` suffix.
pub open spec fn hour_display_spec(raw: u16) -> Seq<char> {
    let w = wrap_spec(raw);
    let h = (w / 100) as nat;
    let m = (w % 100) as nat;
    dec_digits(clock_hour(h)) + (if m == 0 {
        Seq::<char>::empty()
    } else {
        seq![':'] + two_digits(m)
    }) + (if h < 12 {
        "am"@
    } else {
        "pm"@
    })
}

impl Hour {
    /// Render this hour per the 12-hour display rule. Defined exactly for
    /// the hours that land on a wall-clock hour after wraparound.
    pub fn display(&self) -> (r: String)
        requires
            self.displayable(),
        ensures
            r@ == hour_display_spec(self.0),
    {
        let t = self.wraparound();
        let hours = t.0 / 100;
        let minutes = t.0 % 100;
        let dh: u16 = if hours == 0 {
            12
        } else if hours <= 12 {
            hours
        } else {
            hours - 12
        };
        let mut s = u16_string(dh);
        if minutes > 0 {
            proof {
                reveal_strlit(":");
            }
            s.append(":");
            append_two_digits(&mut s, minutes);
        }
        if hours < 12 {
            s.append("am");
        } else {
            s.append("pm");
        }
        proof {
            assert(s@ =~= hour_display_spec(self.0));
        }
        s
    }
}

/// The rendering of an hour span: both endpoints in 12-hour notation,
/// joined by a dash.
pub open spec fn hours_display_spec(h: Hours) -> Seq<char> {
    hour_display_spec(h.0.0) + seq!['-'] + hour_display_spec(h.1.0)
}

/// An ordered pair of hours denoting a continuous span; the end is an
/// exclusive bell. No ordering is forced on the raw values, since a
/// wraparound end may be numerically larger while later in wall-clock time.
#[derive(Copy, Clone, Debug, PartialEq, Eq, Structural)]
pub struct Hours(pub Hour, pub Hour);

/// The whole-hour grid bucket an endpoint contributes from: the raw hour
/// part, rounded up to the next whole hour when the endpoint carries
/// nonzero minutes.
pub open spec fn bucket_spec(raw: u16) -> int {
    raw / 100 + if raw % 100 > 0 {
        1int
    } else {
        0int
    }
}

impl Hours {
    /// Both endpoints satisfy the construction-time bounds.
    pub open spec fn valid(self) -> bool {
        self.0.valid() && self.1.valid()
    }

    /// Both endpoints land on renderable wall-clock hours.
    pub open spec fn displayable(self) -> bool {
        self.0.displayable() && self.1.displayable()
    }

    /// The half-open set of whole-hour buckets this span covers: each
    /// endpoint truncated to its containing hour and rounded up when it
    /// carries nonzero minutes.
    pub fn as_range(&self) -> (r: core::ops::Range<u16>)
        ensures
            r.start == bucket_spec(self.0.0),
            r.end == bucket_spec(self.1.0),
    {
        let mut start = self.0.hours();
        let mut end = self.1.hours();
        if self.0.minutes() > 0 {
            start = start + 1;
        }
        if self.1.minutes() > 0 {
            end = end + 1;
        }
        start..end
    }

    /// Render the span as `start-end` in 12-hour notation.
    pub fn display(&self) -> (r: String)
        requires
            self.displayable(),
        ensures
            r@ == hours_display_spec(*self),
    {
        let mut s = self.0.display();
        proof {
            reveal_strlit("-");
        }
        s.append("-");
        let e = self.1.display();
        s.append(e.as_str());
        proof {
            assert(s@ =~= hour_display_spec(self.0.0) + seq!['-'] + hour_display_spec(self.1.0));
        }
        s
    }
}

/// Shape of the 12-hour rendering of a legal, displayable raw value: it
/// starts with a nonzero digit, ends in an `am` or `pm` suffix, and renders
/// minutes (preceded by a colon) exactly when the raw minute part is
/// nonzero.
pub proof fn lemma_hour_display_shape(raw: u16)
    requires
        hour_valid(raw),
        wrap_spec(raw) / 100 <= 23,
    ensures
        hour_display_spec(raw).len() >= 3,
        is_digit(hour_display_spec(raw)[0]),
        hour_display_spec(raw)[0] != '0',
        hour_display_spec(raw).skip(hour_display_spec(raw).len() - 2) == "am"@
            || hour_display_spec(raw).skip(hour_display_spec(raw).len() - 2) == "pm"@,
        raw % 100 == 0 ==> hour_display_spec(raw) == dec_digits(
            clock_hour((wrap_spec(raw) / 100) as nat),
        ) + hour_display_spec(raw).skip(hour_display_spec(raw).len() - 2),
        raw % 100 != 0 ==> hour_display_spec(raw) == dec_digits(
            clock_hour((wrap_spec(raw) / 100) as nat),
        ) + seq![':'] + two_digits((raw % 100) as nat) + hour_display_spec(raw).skip(
            hour_display_spec(raw).len() - 2,
        ),
{
    let w = wrap_spec(raw);
    let h = (w / 100) as nat;
    let m = (w % 100) as nat;
    let s = hour_display_spec(raw);
    let sfx = if h < 12 {
        "am"@
    } else {
        "pm"@
    };
    lemma_dec_digits_props(clock_hour(h));
    reveal_strlit("am");
    reveal_strlit("pm");
    if m == 0 {
        assert(s =~= dec_digits(clock_hour(h)) + sfx);
    }
    assert(m == raw % 100);
    assert(s.skip(s.len() - 2) =~= sfx);
    assert(s[0] == dec_digits(clock_hour(h))[0]);
}

impl Hour {
    /// Whether 12-hour display is defined for this hour: the value is
    /// legal and lands on a wall-clock hour after wraparound.
    pub fn check_displayable(&self) -> (r: bool)
        ensures
            r == self.displayable(),
    {
        let w = self.wraparound();
        self.0 / 100 <= END_HOUR && self.0 % 100 <= 59 && w.0 / 100 <= 23
    }
}

impl Hours {
    /// Whether 12-hour display is defined for both endpoints.
    pub fn check_displayable(&self) -> (r: bool)
        ensures
            r == self.displayable(),
    {
        self.0.check_displayable() && self.1.check_displayable()
    }
}

/// Validating constructor for [`Hour`]: accepts exactly the raw values whose
/// pre-wraparound hour part is at most `END_HOUR` and whose minute part is at
/// most 59, and stores the original raw value unchanged.
pub fn make_hour(raw: u16) -> (r: Result<Hour, ValidationError>)
    ensures
        hour_valid(raw) <==> r is Ok,
        r is Ok ==> r->Ok_0 == Hour(raw),
        r is Err ==> r->Err_0 == ValidationError::InvalidHour,
{
    let h = Hour(raw);
    let ch = h.wraparound();
    let hours = h.hours();
    let minutes = ch.minutes();
    if hours > END_HOUR || minutes > 59 {
        Err(ValidationError::InvalidHour)
    } else {
        Ok(h)
    }
}

} // verus!
