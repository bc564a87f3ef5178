//! The restaurant directory model and the derived values the rendering
//! context is built from.
//!
//! A restaurant carries plain descriptive data and a [`Kind`]; only the
//! happy-hour kind holds a schedule. From a directory the library derives
//! the per-kind partition, the extreme schedule hours, and the option and
//! grid-cell lists the front end renders.

use crate::day::{day_of_ord, Day};
use crate::hour::Hour;
use crate::schedule::{all_hour_token, day_all_token, DayHours, HappyTimes};
use crate::text::{dec_digits, u16_string};
use vstd::prelude::*;
use vstd::string::StringExecFns;

verus! {

/// A calendar date as plain year, month and day values. Carried as data;
/// the library performs no calendar arithmetic on it.
#[derive(Copy, Clone, Debug, PartialEq, Eq, Structural)]
pub struct Date {
    pub year: i32,
    pub month: u8,
    pub day: u8,
}

/// What a directory entry is: a happy-hour listing with its schedule, or
/// one of the schedule-free kinds.
#[derive(Clone, Debug)]
pub enum Kind {
    Byob,
    Other,
    Closed,
    HappyHour { description: Vec<String>, menu_url: Option<String>, happytimes: HappyTimes },
}

/// One restaurant of the directory.
#[derive(Clone, Debug)]
pub struct Restaurant {
    pub name: String,
    pub url: String,
    /// Use with a maps short link.
    pub map_id: String,
    pub instagram_id: String,
    pub verified: Date,
    pub kind: Kind,
}

/// The whole directory, in source order.
#[derive(Clone, Debug)]
pub struct Restaurants(pub Vec<Restaurant>);

/// The smallest raw start hour of any schedule entry of any happy-hour
/// restaurant in the list, folded left with seed `acc`.
pub open spec fn fold_min_entries(es: Seq<DayHours>, acc: u16) -> u16
    decreases es.len(),
{
    if es.len() == 0 {
        acc
    } else {
        let prev = fold_min_entries(es.drop_last(), acc);
        if es.last().hours_spec().0.0 < prev {
            es.last().hours_spec().0.0
        } else {
            prev
        }
    }
}

/// The largest raw end hour of any schedule entry in the list, folded left
/// with seed `acc`.
pub open spec fn fold_max_entries(es: Seq<DayHours>, acc: u16) -> u16
    decreases es.len(),
{
    if es.len() == 0 {
        acc
    } else {
        let prev = fold_max_entries(es.drop_last(), acc);
        if es.last().hours_spec().1.0 > prev {
            es.last().hours_spec().1.0
        } else {
            prev
        }
    }
}

/// [`fold_min_entries`] taken over every happy-hour restaurant of the
/// list, in source order.
pub open spec fn fold_min_rest(rs: Seq<Restaurant>, acc: u16) -> u16
    decreases rs.len(),
{
    if rs.len() == 0 {
        acc
    } else {
        let prev = fold_min_rest(rs.drop_last(), acc);
        match rs.last().kind {
            Kind::HappyHour { happytimes, .. } => fold_min_entries(happytimes.0@, prev),
            _ => prev,
        }
    }
}

/// [`fold_max_entries`] taken over every happy-hour restaurant of the
/// list, in source order.
pub open spec fn fold_max_rest(rs: Seq<Restaurant>, acc: u16) -> u16
    decreases rs.len(),
{
    if rs.len() == 0 {
        acc
    } else {
        let prev = fold_max_rest(rs.drop_last(), acc);
        match rs.last().kind {
            Kind::HappyHour { happytimes, .. } => fold_max_entries(happytimes.0@, prev),
            _ => prev,
        }
    }
}

/// Seed for the minimum search: later than any legal hour.
pub const MIN_SEED: u16 = 2500;

impl Restaurants {
    /// Split the directory into its happy-hour, byob, other and closed
    /// entries, each list keeping source order.
    pub fn partition(self) -> (r: (Vec<Restaurant>, Vec<Restaurant>, Vec<Restaurant>, Vec<
        Restaurant,
    >))
        ensures
            r.0@ == self.0@.filter(|x: Restaurant| x.kind is HappyHour),
            r.1@ == self.0@.filter(|x: Restaurant| x.kind is Byob),
            r.2@ == self.0@.filter(|x: Restaurant| x.kind is Other),
            r.3@ == self.0@.filter(|x: Restaurant| x.kind is Closed),
    {
        let ghost rs = self.0@;
        let mut rest = self.0;
        let mut happy_hour: Vec<Restaurant> = Vec::new();
        let mut byob: Vec<Restaurant> = Vec::new();
        let mut other: Vec<Restaurant> = Vec::new();
        let mut closed: Vec<Restaurant> = Vec::new();
        let mut i: usize = 0;
        let n = rest.len();
        proof {
            reveal(Seq::filter);
            assert(rs.len() == n as int);
        }
        while rest.len() > 0
            invariant
                rs.len() <= usize::MAX,
                i + rest@.len() == rs.len(),
                rest@ == rs.subrange(i as int, rs.len() as int),
                happy_hour@ == rs.subrange(0, i as int).filter(
                    |x: Restaurant| x.kind is HappyHour,
                ),
                byob@ == rs.subrange(0, i as int).filter(|x: Restaurant| x.kind is Byob),
                other@ == rs.subrange(0, i as int).filter(|x: Restaurant| x.kind is Other),
                closed@ == rs.subrange(0, i as int).filter(|x: Restaurant| x.kind is Closed),
            decreases rest@.len(),
        {
            let r = rest.remove(0);
            proof {
                assert(r == rs[i as int]);
                assert(rest@ =~= rs.subrange(i + 1 as int, rs.len() as int));
                reveal(Seq::filter);
                assert(rs.subrange(0, i + 1 as int).drop_last() =~= rs.subrange(0, i as int));
                assert(rs.subrange(0, i + 1 as int).last() == rs[i as int]);
            }
            match r.kind {
                Kind::HappyHour { .. } => happy_hour.push(r),
                Kind::Byob => byob.push(r),
                Kind::Other => other.push(r),
                Kind::Closed => closed.push(r),
            }
            i = i + 1;
        }
        proof {
            assert(rs.subrange(0, rs.len() as int) =~= rs);
        }
        (happy_hour, byob, other, closed)
    }

    /// The extreme schedule hours across the whole directory: the smallest
    /// raw start hour and the largest raw end hour of any happy-hour
    /// entry, seeded so that a directory without schedules yields an
    /// empty hour span.
    pub fn hour_bounds(&self) -> (r: (Hour, Hour))
        ensures
            r.0.0 == fold_min_rest(self.0@, MIN_SEED),
            r.1.0 == fold_max_rest(self.0@, 0),
    {
        let ghost rs = self.0@;
        let mut min_hour = Hour(MIN_SEED);
        let mut max_hour = Hour(0);
        let mut i: usize = 0;
        while i < self.0.len()
            invariant
                rs == self.0@,
                i <= rs.len(),
                min_hour.0 == fold_min_rest(rs.subrange(0, i as int), MIN_SEED),
                max_hour.0 == fold_max_rest(rs.subrange(0, i as int), 0),
            decreases rs.len() - i,
        {
            let ghost prev_min = min_hour.0;
            let ghost prev_max = max_hour.0;
            match &self.0[i].kind {
                Kind::HappyHour { happytimes, .. } => {
                    let ghost es = happytimes.0@;
                    let mut j: usize = 0;
                    while j < happytimes.0.len()
                        invariant
                            es == happytimes.0@,
                            j <= es.len(),
                            min_hour.0 == fold_min_entries(es.subrange(0, j as int), prev_min),
                            max_hour.0 == fold_max_entries(es.subrange(0, j as int), prev_max),
                        decreases es.len() - j,
                    {
                        let hours = match &happytimes.0[j] {
                            DayHours::Single(_, hours) => *hours,
                            DayHours::Range(_, hours) => *hours,
                        };
                        if hours.0.0 < min_hour.0 {
                            min_hour = hours.0;
                        }
                        if hours.1.0 > max_hour.0 {
                            max_hour = hours.1;
                        }
                        proof {
                            assert(es.subrange(0, j + 1 as int).drop_last() =~= es.subrange(
                                0,
                                j as int,
                            ));
                            assert(es.subrange(0, j + 1 as int).last() == es[j as int]);
                        }
                        j = j + 1;
                    }
                    proof {
                        assert(es.subrange(0, es.len() as int) =~= es);
                    }
                },
                _ => {},
            }
            proof {
                assert(rs.subrange(0, i + 1 as int).drop_last() =~= rs.subrange(0, i as int));
                assert(rs.subrange(0, i + 1 as int).last() == rs[i as int]);
            }
            i = i + 1;
        }
        proof {
            assert(rs.subrange(0, rs.len() as int) =~= rs);
        }
        (min_hour, max_hour)
    }

    /// The half-open span of whole hours the front-end grid offers: from
    /// the truncated minimum start hour up to the maximum end hour,
    /// rounded up when it carries minutes.
    pub fn hour_options_range(&self) -> (r: core::ops::Range<u16>)
        ensures
            r.start == fold_min_rest(self.0@, MIN_SEED) / 100,
            r.end == fold_max_rest(self.0@, 0) / 100 + if fold_max_rest(self.0@, 0) % 100 > 0 {
                1int
            } else {
                0int
            },
    {
        let (min_hour, max_hour) = self.hour_bounds();
        if max_hour.minutes() > 0 {
            min_hour.hours()..(max_hour.hours() + 1)
        } else {
            min_hour.hours()..max_hour.hours()
        }
    }
}

/// The label the hour-option list shows for a whole hour: 12-hour
/// notation, with hours past 24 folded onto the following morning.
pub open spec fn option_hour_label(h: nat) -> Seq<char>
    recommends
        1 <= h,
{
    if h <= 11 {
        dec_digits(h) + "am"@
    } else if h <= 12 {
        dec_digits(12) + "pm"@
    } else if h <= 24 {
        dec_digits((h - 12) as nat) + "pm"@
    } else {
        dec_digits((h - 24) as nat) + "am"@
    }
}

/// The hour-option list for a half-open span of whole hours: each hour
/// paired with its label. The span must not start at hour zero, which has
/// no label.
pub fn hour_options(start: u16, end: u16) -> (r: Vec<(u16, String)>)
    requires
        start >= 1 || start >= end,
    ensures
        r@.len() == if end > start {
            end - start
        } else {
            0int
        },
        forall|i: int|
            0 <= i < r@.len() ==> (#[trigger] r@[i]).0 == start + i && r@[i].1@ == option_hour_label(
                (start + i) as nat,
            ),
{
    let mut r: Vec<(u16, String)> = Vec::new();
    let mut h = start;
    while h < end
        invariant
            start >= 1 || start >= end,
            start <= h,
            h <= end || h == start,
            r@.len() == h - start,
            forall|i: int|
                0 <= i < r@.len() ==> (#[trigger] r@[i]).0 == start + i && r@[i].1@
                    == option_hour_label((start + i) as nat),
        decreases end - h,
    {
        let label: String = if h <= 11 {
            let mut s = u16_string(h);
            s.append("am");
            s
        } else if h <= 12 {
            let mut s = u16_string(12);
            s.append("pm");
            s
        } else if h <= 24 {
            let mut s = u16_string(h - 12);
            s.append("pm");
            s
        } else {
            let mut s = u16_string(h - 24);
            s.append("am");
            s
        };
        proof {
            assert(label@ =~= option_hour_label(h as nat));
        }
        r.push((h, label));
        h = h + 1;
    }
    r
}

/// The day-option list: every weekday's ordinal paired with its display
/// abbreviation, in ordinal order.
pub fn day_options() -> (r: Vec<(u8, String)>)
    ensures
        r@.len() == 7,
        forall|i: int|
            0 <= i < 7 ==> (#[trigger] r@[i]).0 == i && r@[i].1@ == day_of_ord(
                i as nat,
            ).name_spec(),
{
    let days = Day::iter();
    let mut r: Vec<(u8, String)> = Vec::new();
    let mut i: usize = 0;
    while i < 7
        invariant
            days@.len() == 7,
            forall|m: int| 0 <= m < 7 ==> (#[trigger] days@[m]).ord_spec() == m,
            i <= 7,
            r@.len() == i as int,
            forall|m: int|
                0 <= m < i as int ==> (#[trigger] r@[m]).0 == m && r@[m].1@ == day_of_ord(
                    m as nat,
                ).name_spec(),
        decreases 7 - i,
    {
        let d = days[i];
        proof {
            assert(days@[i as int].ord_spec() == i as int);
            assert(day_of_ord(i as nat).ord_spec() == i as int);
            assert(d == day_of_ord(i as nat));
        }
        r.push((d.ord(), String::from_str(d.name())));
        i = i + 1;
    }
    r
}

/// One grid cell name `"{day_ordinal}-{hour}"`.
pub open spec fn grid_token(o: nat, h: nat) -> Seq<char> {
    dec_digits(o) + seq!['-'] + dec_digits(h)
}

/// The hour cells of one day row over the hour span.
pub open spec fn grid_row_cells(o: nat, start: int, end: int) -> Seq<Seq<char>> {
    if end <= start {
        Seq::empty()
    } else {
        Seq::new((end - start) as nat, |k: int| grid_token(o, (start + k) as nat))
    }
}

/// One day row: its hour cells, then its `-all` cell.
pub open spec fn grid_row(o: nat, start: int, end: int) -> Seq<Seq<char>> {
    grid_row_cells(o, start, end).push(day_all_token(o))
}

/// The first `n` day rows, concatenated.
pub open spec fn grid_rows(n: nat, start: int, end: int) -> Seq<Seq<char>>
    decreases n,
{
    if n == 0 {
        Seq::empty()
    } else {
        grid_rows((n - 1) as nat, start, end) + grid_row((n - 1) as nat, start, end)
    }
}

/// The `all-` column cells over the hour span.
pub open spec fn all_hour_cells(start: int, end: int) -> Seq<Seq<char>> {
    if end <= start {
        Seq::empty()
    } else {
        Seq::new((end - start) as nat, |k: int| all_hour_token((start + k) as nat))
    }
}

/// Every cell name of the front-end week-by-hour grid: for each of the
/// seven day rows its hour cells then its `-all` cell, then the `all-`
/// column cells. No `all-all` cell exists.
pub open spec fn dayhours_grid_spec(start: int, end: int) -> Seq<Seq<char>> {
    grid_rows(7, start, end) + all_hour_cells(start, end)
}

/// Build every grid cell name for the given half-open hour span.
pub fn dayhours_grid(start: u16, end: u16) -> (r: Vec<String>)
    ensures
        r@.map_values(|s: String| s@) == dayhours_grid_spec(start as int, end as int),
{
    let ghost st = start as int;
    let ghost en = end as int;
    let mut r: Vec<String> = Vec::new();
    proof {
        reveal_strlit("-");
        reveal_strlit("-all");
        reveal_strlit("all-");
        assert(r@.map_values(|s: String| s@) =~= grid_rows(0, st, en));
    }
    let mut o: u16 = 0;
    while o < 7
        invariant
            st == start as int,
            en == end as int,
            o <= 7,
            r@.map_values(|s: String| s@) == grid_rows(o as nat, st, en),
        decreases 7 - o,
    {
        let mut h = start;
        while h < end
            invariant
                st == start as int,
                en == end as int,
                o < 7,
                start <= h,
                h <= end || h == start,
                r@.map_values(|s: String| s@) == grid_rows(o as nat, st, en) + grid_row_cells(
                    o as nat,
                    st,
                    h as int,
                ),
            decreases en - h,
        {
            let ghost prev = r@.map_values(|s2: String| s2@);
            let mut s = u16_string(o);
            s.append("-");
            let hs = u16_string(h);
            s.append(hs.as_str());
            proof {
                reveal_strlit("-");
                assert(s@ =~= grid_token(o as nat, h as nat));
            }
            r.push(s);
            proof {
                assert(r@.map_values(|s2: String| s2@) =~= prev.push(grid_token(
                    o as nat,
                    h as nat,
                )));
                assert(grid_row_cells(o as nat, st, h + 1 as int) =~= grid_row_cells(
                    o as nat,
                    st,
                    h as int,
                ).push(grid_token(o as nat, h as nat)));
                assert(r@.map_values(|s2: String| s2@) =~= grid_rows(o as nat, st, en)
                    + grid_row_cells(o as nat, st, h + 1 as int));
            }
            h = h + 1;
        }
        let ghost prev = r@.map_values(|s2: String| s2@);
        let mut s = u16_string(o);
        s.append("-all");
        proof {
            reveal_strlit("-all");
            assert(s@ =~= day_all_token(o as nat));
        }
        r.push(s);
        proof {
            assert(r@.map_values(|s2: String| s2@) =~= prev.push(day_all_token(o as nat)));
            assert(grid_row_cells(o as nat, st, h as int) =~= grid_row_cells(o as nat, st, en));
            assert(grid_rows((o + 1) as nat, st, en) =~= grid_rows(o as nat, st, en) + grid_row(
                o as nat,
                st,
                en,
            ));
            assert(r@.map_values(|s2: String| s2@) =~= grid_rows((o + 1) as nat, st, en));
        }
        o = o + 1;
    }
    let mut h = start;
    while h < end
        invariant
            st == start as int,
            en == end as int,
            start <= h,
            h <= end || h == start,
            r@.map_values(|s: String| s@) == grid_rows(7, st, en) + all_hour_cells(st, h as int),
        decreases en - h,
    {
        let ghost prev = r@.map_values(|s2: String| s2@);
        let mut s = String::from_str("all-");
        let hs = u16_string(h);
        s.append(hs.as_str());
        proof {
            reveal_strlit("all-");
            assert(s@ =~= all_hour_token(h as nat));
        }
        r.push(s);
        proof {
            assert(r@.map_values(|s2: String| s2@) =~= prev.push(all_hour_token(h as nat)));
            assert(all_hour_cells(st, h + 1 as int) =~= all_hour_cells(st, h as int).push(
                all_hour_token(h as nat),
            ));
            assert(r@.map_values(|s2: String| s2@) =~= grid_rows(7, st, en) + all_hour_cells(
                st,
                h + 1 as int,
            ));
        }
        h = h + 1;
    }
    proof {
        assert(all_hour_cells(st, h as int) =~= all_hour_cells(st, en));
    }
    r
}

} // verus!
