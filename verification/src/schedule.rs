//! Schedule entries and whole weekly schedules, with their two derived
//! outputs: grid-highlight attribute tokens and human-readable text.
//!
//! A [`DayHours`] pairs a day selector (a single day or an inclusive cyclic
//! day range) with an hour span. A [`HappyTimes`] is an ordered list of
//! entries; order matters only for the human-readable rendering, since the
//! token set is deduplicated.

use crate::day::{day_from_ord, day_of_ord, days_seq, iter_days, Day};
use crate::hour::{bucket_spec, hour_display_spec, hours_display_spec, Hours};
use crate::ordset::{insert_one, insert_one_vec, lemma_insert_one_props, sorted_strict};
use crate::text::{
    dec_digits, digit_char, is_digit, join_spaced, join_with, lemma_dec_digits_injective,
    lemma_dec_digits_props, lemma_digit_char_injective, lemma_join_push, lemma_join_with_push,
    u16_string,
};
use vstd::prelude::*;
use vstd::string::StringExecFns;

verus! {

/// One schedule fact: on these day(s), open during this hour span.
#[derive(Copy, Clone, Debug, PartialEq, Eq)]
pub enum DayHours {
    /// A single weekday.
    Single(Day, Hours),
    /// An inclusive, cyclic range of weekdays; equal endpoints denote a
    /// single day.
    Range((Day, Day), Hours),
}

/// The day-hour pairs a single day contributes: one pair per whole-hour
/// bucket in the half-open bucket span.
pub open spec fn bucket_pairs(d: Day, start: int, end: int) -> Seq<(Day, u16)> {
    if end <= start {
        Seq::empty()
    } else {
        Seq::new((end - start) as nat, |k: int| (d, (start + k) as u16))
    }
}

/// The day-hour pairs of a list of days over one bucket span, day-major
/// then hour-minor.
pub open spec fn tuples_of_days(days: Seq<Day>, start: int, end: int) -> Seq<(Day, u16)>
    decreases days.len(),
{
    if days.len() == 0 {
        Seq::empty()
    } else {
        tuples_of_days(days.drop_last(), start, end) + bucket_pairs(days.last(), start, end)
    }
}

impl DayHours {
    /// The days this entry's selector covers, in cyclic order.
    pub open spec fn selector_days(self) -> Seq<Day> {
        match self {
            DayHours::Single(d, _) => days_seq(d, d),
            DayHours::Range((a, b), _) => days_seq(a, b),
        }
    }

    /// This entry's hour span.
    pub open spec fn hours_spec(self) -> Hours {
        match self {
            DayHours::Single(_, h) => h,
            DayHours::Range(_, h) => h,
        }
    }

    /// The full day-hour pair expansion of this entry: the cartesian
    /// product of its days and its hour buckets.
    pub open spec fn tuples_spec(self) -> Seq<(Day, u16)> {
        tuples_of_days(
            self.selector_days(),
            bucket_spec(self.hours_spec().0.0),
            bucket_spec(self.hours_spec().1.0),
        )
    }

    /// Both endpoints of the hour span land on renderable wall-clock hours.
    pub open spec fn displayable(self) -> bool {
        self.hours_spec().displayable()
    }

    /// The human-readable form: `"{day} {hours}"` for a single day,
    /// `"{start}-{end} {hours}"` for a day range.
    pub open spec fn display_spec(self) -> Seq<char> {
        match self {
            DayHours::Single(d, h) => d.name_spec() + seq![' '] + hours_display_spec(h),
            DayHours::Range((a, b), h) => a.name_spec() + seq!['-'] + b.name_spec() + seq![' ']
                + hours_display_spec(h),
        }
    }

    /// Expand this entry into its day-hour pairs: the selector's days in
    /// cyclic order, each paired with its ascending hour buckets.
    pub fn as_tuples(&self) -> (r: Vec<(Day, u16)>)
        ensures
            r@ == self.tuples_spec(),
    {
        let (days, hours): (Vec<Day>, Hours) = match self {
            DayHours::Single(day, hours) => (iter_days((*day, *day)), *hours),
            DayHours::Range(days, hours) => (iter_days(*days), *hours),
        };
        let range = hours.as_range();
        let start = range.start;
        let end = range.end;
        let ghost s = start as int;
        let ghost e = end as int;
        let mut v: Vec<(Day, u16)> = Vec::new();
        let mut di: usize = 0;
        while di < days.len()
            invariant
                days@ == self.selector_days(),
                s == start as int,
                e == end as int,
                di <= days@.len(),
                v@ == tuples_of_days(days@.subrange(0, di as int), s, e),
            decreases days@.len() - di,
        {
            let d = days[di];
            let mut h = start;
            while h < end
                invariant
                    days@ == self.selector_days(),
                    s == start as int,
                    e == end as int,
                    di < days@.len(),
                    d == days@[di as int],
                    start <= h,
                    h <= end || h == start,
                    v@ == tuples_of_days(days@.subrange(0, di as int), s, e) + bucket_pairs(
                        d,
                        s,
                        h as int,
                    ),
                decreases e - h,
            {
                v.push((d, h));
                proof {
                    assert(bucket_pairs(d, s, h + 1 as int) =~= bucket_pairs(d, s, h as int).push(
                        (d, h),
                    ));
                }
                h = h + 1;
            }
            proof {
                assert(bucket_pairs(d, s, h as int) =~= bucket_pairs(d, s, e));
                assert(days@.subrange(0, di + 1 as int).drop_last() =~= days@.subrange(
                    0,
                    di as int,
                ));
                assert(days@.subrange(0, di + 1 as int).last() == d);
                assert(v@ =~= tuples_of_days(days@.subrange(0, di + 1 as int), s, e));
            }
            di = di + 1;
        }
        proof {
            assert(days@.subrange(0, days@.len() as int) =~= days@);
        }
        v
    }

    /// This entry's hour span.
    pub fn hours(&self) -> (r: Hours)
        ensures
            r == self.hours_spec(),
    {
        match self {
            DayHours::Single(_, h) => *h,
            DayHours::Range(_, h) => *h,
        }
    }

    /// Whether the human-readable rendering is defined for this entry.
    pub fn check_displayable(&self) -> (r: bool)
        ensures
            r == self.displayable(),
    {
        self.hours().check_displayable()
    }

    /// Render this entry as human-readable text.
    pub fn display(&self) -> (r: String)
        requires
            self.displayable(),
        ensures
            r@ == self.display_spec(),
    {
        proof {
            reveal_strlit("-");
            reveal_strlit(" ");
        }
        match self {
            DayHours::Single(day, hours) => {
                let mut s = String::from_str(day.name());
                s.append(" ");
                let hs = hours.display();
                s.append(hs.as_str());
                proof {
                    assert(s@ =~= self.display_spec());
                }
                s
            },
            DayHours::Range((startday, endday), hours) => {
                let mut s = String::from_str(startday.name());
                s.append("-");
                s.append(endday.name());
                s.append(" ");
                let hs = hours.display();
                s.append(hs.as_str());
                proof {
                    assert(s@ =~= self.display_spec());
                }
                s
            },
        }
    }
}

/// The exact-cell token `"{day_ordinal}-{hour}"` of one day-hour pair.
pub open spec fn pair_token(p: (Day, u16)) -> Seq<char> {
    dec_digits(p.0.ord_spec()) + seq!['-'] + dec_digits(p.1 as nat)
}

/// The whole-row token `"{day_ordinal}-all"` of one day.
pub open spec fn day_all_token(o: nat) -> Seq<char> {
    dec_digits(o) + seq!['-', 'a', 'l', 'l']
}

/// The whole-column token `"all-{hour}"` of one hour.
pub open spec fn all_hour_token(h: nat) -> Seq<char> {
    seq!['a', 'l', 'l', '-'] + dec_digits(h)
}

/// The distinct day ordinals of a pair list, in ascending order.
pub open spec fn day_ords_of(t: Seq<(Day, u16)>) -> Seq<u32>
    decreases t.len(),
{
    if t.len() == 0 {
        Seq::empty()
    } else {
        insert_one(day_ords_of(t.drop_last()), t.last().0.ord_spec() as u32)
    }
}

/// The distinct hours of a pair list, in ascending order.
pub open spec fn hour_vals_of(t: Seq<(Day, u16)>) -> Seq<u32>
    decreases t.len(),
{
    if t.len() == 0 {
        Seq::empty()
    } else {
        insert_one(hour_vals_of(t.drop_last()), t.last().1 as u32)
    }
}

/// [`day_ords_of`] is strictly sorted and holds exactly the day ordinals
/// occurring in the pair list.
pub proof fn lemma_day_ords_props(t: Seq<(Day, u16)>)
    ensures
        sorted_strict(day_ords_of(t)),
        forall|y: u32| #[trigger]
            day_ords_of(t).contains(y) ==> exists|i: int|
                0 <= i < t.len() && t[i].0.ord_spec() == y,
        forall|i: int|
            0 <= i < t.len() ==> day_ords_of(t).contains(((#[trigger] t[i]).0.ord_spec()) as u32),
    decreases t.len(),
{
    if t.len() > 0 {
        let pre = t.drop_last();
        lemma_day_ords_props(pre);
        lemma_insert_one_props(day_ords_of(pre), t.last().0.ord_spec() as u32);
        assert forall|y: u32| #[trigger] day_ords_of(t).contains(y) implies exists|i: int|
            0 <= i < t.len() && t[i].0.ord_spec() == y by {
            if day_ords_of(pre).contains(y) {
                let i = choose|i: int| 0 <= i < pre.len() && pre[i].0.ord_spec() == y;
                assert(t[i].0.ord_spec() == y);
            } else {
                assert(t[t.len() - 1].0.ord_spec() == y);
            }
        }
        assert forall|i: int| 0 <= i < t.len() implies day_ords_of(t).contains(
            ((#[trigger] t[i]).0.ord_spec()) as u32,
        ) by {
            if i < t.len() - 1 {
                assert(pre[i] == t[i]);
                assert(day_ords_of(pre).contains((t[i].0.ord_spec()) as u32));
            }
        }
    }
}

/// [`hour_vals_of`] is strictly sorted and holds exactly the hours
/// occurring in the pair list.
pub proof fn lemma_hour_vals_props(t: Seq<(Day, u16)>)
    ensures
        sorted_strict(hour_vals_of(t)),
        forall|y: u32| #[trigger]
            hour_vals_of(t).contains(y) ==> exists|i: int| 0 <= i < t.len() && t[i].1 == y,
        forall|i: int| 0 <= i < t.len() ==> hour_vals_of(t).contains(((#[trigger] t[i]).1) as u32),
    decreases t.len(),
{
    if t.len() > 0 {
        let pre = t.drop_last();
        lemma_hour_vals_props(pre);
        lemma_insert_one_props(hour_vals_of(pre), t.last().1 as u32);
        assert forall|y: u32| #[trigger] hour_vals_of(t).contains(y) implies exists|i: int|
            0 <= i < t.len() && t[i].1 == y by {
            if hour_vals_of(pre).contains(y) {
                let i = choose|i: int| 0 <= i < pre.len() && pre[i].1 == y;
                assert(t[i].1 == y);
            } else {
                assert(t[t.len() - 1].1 == y);
            }
        }
        assert forall|i: int| 0 <= i < t.len() implies hour_vals_of(t).contains(
            ((#[trigger] t[i]).1) as u32,
        ) by {
            if i < t.len() - 1 {
                assert(pre[i] == t[i]);
                assert(hour_vals_of(pre).contains((t[i].1) as u32));
            }
        }
    }
}

/// The exact-cell tokens of a pair list, in list order.
pub open spec fn pair_tokens(t: Seq<(Day, u16)>) -> Seq<Seq<char>> {
    Seq::new(t.len(), |i: int| pair_token(t[i]))
}

/// The whole-row tokens of a day-ordinal list, in list order.
pub open spec fn day_tokens(ds: Seq<u32>) -> Seq<Seq<char>> {
    Seq::new(ds.len(), |i: int| day_all_token(ds[i] as nat))
}

/// The whole-column tokens of an hour list, in list order.
pub open spec fn hour_tokens(hs: Seq<u32>) -> Seq<Seq<char>> {
    Seq::new(hs.len(), |i: int| all_hour_token(hs[i] as nat))
}

/// The full token list of a pair list: one exact-cell token per pair in
/// list order, then one whole-row token per distinct day ascending, then
/// one whole-column token per distinct hour ascending.
pub open spec fn all_tokens(t: Seq<(Day, u16)>) -> Seq<Seq<char>> {
    pair_tokens(t) + day_tokens(day_ords_of(t)) + hour_tokens(hour_vals_of(t))
}

/// The space-joined token string of a pair list.
pub open spec fn data_daytimes_spec(t: Seq<(Day, u16)>) -> Seq<char> {
    join_spaced(all_tokens(t))
}

/// Append a single separating space unless this is the first token.
fn append_sep(out: &mut String, first: bool)
    ensures
        final(out)@ == old(out)@ + if first {
            Seq::<char>::empty()
        } else {
            seq![' ']
        },
{
    if !first {
        proof {
            reveal_strlit(" ");
        }
        out.append(" ");
    }
    proof {
        assert(out@ =~= old(out)@ + if first {
            Seq::<char>::empty()
        } else {
            seq![' ']
        });
    }
}

/// Append `"{day_ordinal}-{hour}"` for one pair, with a leading separator
/// unless it is the first token.
fn append_pair_token(out: &mut String, first: bool, d: Day, h: u16)
    ensures
        final(out)@ == old(out)@ + (if first {
            Seq::<char>::empty()
        } else {
            seq![' ']
        }) + pair_token((d, h)),
{
    append_sep(out, first);
    let s1 = u16_string(d.ord() as u16);
    out.append(s1.as_str());
    proof {
        reveal_strlit("-");
    }
    out.append("-");
    let s2 = u16_string(h);
    out.append(s2.as_str());
    proof {
        assert(out@ =~= old(out)@ + (if first {
            Seq::<char>::empty()
        } else {
            seq![' ']
        }) + pair_token((d, h)));
    }
}

/// Append `"{day_ordinal}-all"` for one day ordinal, with a leading
/// separator unless it is the first token.
fn append_day_all_token(out: &mut String, first: bool, o: u16)
    ensures
        final(out)@ == old(out)@ + (if first {
            Seq::<char>::empty()
        } else {
            seq![' ']
        }) + day_all_token(o as nat),
{
    append_sep(out, first);
    let s1 = u16_string(o);
    out.append(s1.as_str());
    proof {
        reveal_strlit("-all");
    }
    out.append("-all");
    proof {
        assert(out@ =~= old(out)@ + (if first {
            Seq::<char>::empty()
        } else {
            seq![' ']
        }) + day_all_token(o as nat));
    }
}

/// Append `"all-{hour}"` for one hour, with a leading separator unless it
/// is the first token.
fn append_all_hour_token(out: &mut String, first: bool, h: u16)
    ensures
        final(out)@ == old(out)@ + (if first {
            Seq::<char>::empty()
        } else {
            seq![' ']
        }) + all_hour_token(h as nat),
{
    append_sep(out, first);
    proof {
        reveal_strlit("all-");
    }
    out.append("all-");
    let s1 = u16_string(h);
    out.append(s1.as_str());
    proof {
        assert(out@ =~= old(out)@ + (if first {
            Seq::<char>::empty()
        } else {
            seq![' ']
        }) + all_hour_token(h as nat));
    }
}

/// One token was appended to a join: the resulting string is the join of
/// the extended token list.
proof fn lemma_join_step(ts: Seq<Seq<char>>, tok: Seq<char>, s0: Seq<char>, s1: Seq<char>)
    requires
        s0 == join_spaced(ts),
        s1 == s0 + (if ts.len() == 0 {
            Seq::<char>::empty()
        } else {
            seq![' ']
        }) + tok,
    ensures
        s1 == join_spaced(ts.push(tok)),
{
    lemma_join_push(ts, tok);
    if ts.len() == 0 {
        assert(s1 =~= tok);
    } else {
        assert(s1 =~= join_spaced(ts) + seq![' '] + tok);
    }
}

/// One business's full weekly happy-hour pattern: an ordered list of
/// schedule entries. Entries may overlap; overlap is resolved only by token
/// deduplication, never rejected.
#[derive(Clone, Debug, PartialEq, Eq)]
pub struct HappyTimes(pub Vec<DayHours>);

/// The distinct day ordinals of the pairs, ascending.
fn day_ord_set(tuples: &Vec<(Day, u16)>) -> (r: Vec<u32>)
    ensures
        r@ == day_ords_of(tuples@),
{
    let ghost t = tuples@;
    let mut dayset: Vec<u32> = Vec::new();
    let mut i: usize = 0;
    while i < tuples.len()
        invariant
            t == tuples@,
            i <= t.len(),
            dayset@ == day_ords_of(t.subrange(0, i as int)),
        decreases t.len() - i,
    {
        insert_one_vec(&mut dayset, tuples[i].0.ord() as u32);
        proof {
            assert(t.subrange(0, i + 1 as int).drop_last() =~= t.subrange(0, i as int));
        }
        i = i + 1;
    }
    proof {
        assert(t.subrange(0, t.len() as int) =~= t);
    }
    dayset
}

/// The distinct hours of the pairs, ascending.
fn hour_val_set(tuples: &Vec<(Day, u16)>) -> (r: Vec<u32>)
    ensures
        r@ == hour_vals_of(tuples@),
{
    let ghost t = tuples@;
    let mut hourset: Vec<u32> = Vec::new();
    let mut i: usize = 0;
    while i < tuples.len()
        invariant
            t == tuples@,
            i <= t.len(),
            hourset@ == hour_vals_of(t.subrange(0, i as int)),
        decreases t.len() - i,
    {
        insert_one_vec(&mut hourset, tuples[i].1 as u32);
        proof {
            assert(t.subrange(0, i + 1 as int).drop_last() =~= t.subrange(0, i as int));
        }
        i = i + 1;
    }
    proof {
        assert(t.subrange(0, t.len() as int) =~= t);
    }
    hourset
}

/// Emit the exact-cell token of every pair, in list order.
fn emit_pair_tokens(out: &mut String, first: &mut bool, tuples: &Vec<(Day, u16)>)
    requires
        old(out)@ == join_spaced(Seq::<Seq<char>>::empty()),
        *old(first),
    ensures
        final(out)@ == join_spaced(pair_tokens(tuples@)),
        *final(first) <==> tuples@.len() == 0,
{
    let ghost t = tuples@;
    let mut i: usize = 0;
    while i < tuples.len()
        invariant
            t == tuples@,
            i <= t.len(),
            *first <==> i == 0,
            out@ == join_spaced(pair_tokens(t).subrange(0, i as int)),
        decreases t.len() - i,
    {
        let (d, h) = tuples[i];
        let ghost pre = pair_tokens(t).subrange(0, i as int);
        let ghost s0 = out@;
        append_pair_token(out, *first, d, h);
        *first = false;
        proof {
            assert(pre.len() == i as int);
            lemma_join_step(pre, pair_token((d, h)), s0, out@);
            assert(pair_tokens(t).subrange(0, i + 1 as int) =~= pre.push(pair_token((d, h))));
        }
        i = i + 1;
    }
    proof {
        assert(pair_tokens(t).subrange(0, t.len() as int) =~= pair_tokens(t));
    }
}

/// Emit the whole-row token of every day ordinal in the list.
fn emit_day_tokens(out: &mut String, first: &mut bool, dayset: &Vec<u32>, Ghost(base): Ghost<
    Seq<Seq<char>>,
>)
    requires
        old(out)@ == join_spaced(base),
        *old(first) <==> base.len() == 0,
        forall|m: int| 0 <= m < dayset@.len() ==> dayset@[m] < 7,
    ensures
        final(out)@ == join_spaced(base + day_tokens(dayset@)),
        *final(first) <==> (base.len() + dayset@.len() == 0),
{
    let ghost ds = dayset@;
    let mut j: usize = 0;
    while j < dayset.len()
        invariant
            ds == dayset@,
            j <= ds.len(),
            forall|m: int| 0 <= m < ds.len() ==> ds[m] < 7,
            *first <==> (base.len() + j as int == 0),
            out@ == join_spaced(base + day_tokens(ds).subrange(0, j as int)),
        decreases ds.len() - j,
    {
        let o = dayset[j];
        let ghost ts = base + day_tokens(ds).subrange(0, j as int);
        let ghost s0 = out@;
        append_day_all_token(out, *first, o as u16);
        *first = false;
        proof {
            assert(ts.len() == base.len() + j as int);
            lemma_join_step(ts, day_all_token(o as nat), s0, out@);
            assert((base + day_tokens(ds).subrange(0, j + 1 as int)) =~= ts.push(
                day_all_token(o as nat),
            ));
        }
        j = j + 1;
    }
    proof {
        assert(base + day_tokens(ds).subrange(0, ds.len() as int) =~= base + day_tokens(ds));
    }
}

/// Emit the whole-column token of every hour in the list.
fn emit_hour_tokens(out: &mut String, first: &mut bool, hourset: &Vec<u32>, Ghost(base): Ghost<
    Seq<Seq<char>>,
>)
    requires
        old(out)@ == join_spaced(base),
        *old(first) <==> base.len() == 0,
        forall|m: int| 0 <= m < hourset@.len() ==> hourset@[m] < 65536,
    ensures
        final(out)@ == join_spaced(base + hour_tokens(hourset@)),
        *final(first) <==> (base.len() + hourset@.len() == 0),
{
    let ghost hs = hourset@;
    let mut k: usize = 0;
    while k < hourset.len()
        invariant
            hs == hourset@,
            k <= hs.len(),
            forall|m: int| 0 <= m < hs.len() ==> hs[m] < 65536,
            *first <==> (base.len() + k as int == 0),
            out@ == join_spaced(base + hour_tokens(hs).subrange(0, k as int)),
        decreases hs.len() - k,
    {
        let hv = hourset[k];
        let ghost ts = base + hour_tokens(hs).subrange(0, k as int);
        let ghost s0 = out@;
        append_all_hour_token(out, *first, hv as u16);
        *first = false;
        proof {
            assert(ts.len() == base.len() + k as int);
            lemma_join_step(ts, all_hour_token(hv as nat), s0, out@);
            assert((base + hour_tokens(hs).subrange(0, k + 1 as int)) =~= ts.push(
                all_hour_token(hv as nat),
            ));
        }
        k = k + 1;
    }
    proof {
        assert(base + hour_tokens(hs).subrange(0, hs.len() as int) =~= base + hour_tokens(hs));
    }
}

impl HappyTimes {
    /// Build the space-joined token string of a list of day-hour pairs:
    /// one `"{day}-{hour}"` token per pair in list order, then one
    /// `"{day}-all"` token per distinct day in ascending ordinal order,
    /// then one `"all-{hour}"` token per distinct hour in ascending order.
    pub fn data_daytimes(tuples: &Vec<(Day, u16)>) -> (r: String)
        ensures
            r@ == data_daytimes_spec(tuples@),
    {
        let ghost t = tuples@;
        let mut out = String::new();
        let mut first: bool = true;
        proof {
            assert(out@ =~= join_spaced(Seq::<Seq<char>>::empty()));
        }
        emit_pair_tokens(&mut out, &mut first, tuples);
        let dayset = day_ord_set(tuples);
        proof {
            lemma_day_ords_props(t);
            assert forall|m: int| 0 <= m < dayset@.len() implies dayset@[m] < 7 by {
                assert(dayset@.contains(dayset@[m]));
            }
        }
        emit_day_tokens(&mut out, &mut first, &dayset, Ghost(pair_tokens(t)));
        let hourset = hour_val_set(tuples);
        proof {
            lemma_hour_vals_props(t);
            assert forall|m: int| 0 <= m < hourset@.len() implies hourset@[m] < 65536 by {
                assert(hourset@.contains(hourset@[m]));
            }
        }
        emit_hour_tokens(
            &mut out,
            &mut first,
            &hourset,
            Ghost(pair_tokens(t) + day_tokens(day_ords_of(t))),
        );
        proof {
            assert((pair_tokens(t) + day_tokens(day_ords_of(t))) + hour_tokens(hour_vals_of(t))
                =~= all_tokens(t));
        }
        out
    }
}

/// An attribute string carrying a token list:
/// `data-daytimes="{tokens}"`.
pub open spec fn attr_spec(tokens: Seq<char>) -> Seq<char> {
    "data-daytimes=\""@ + tokens + "\""@
}

/// Wrap a token string in the `data-daytimes` attribute form.
fn wrap_attr(tokens: String) -> (r: String)
    ensures
        r@ == attr_spec(tokens@),
{
    let mut out = String::from_str("data-daytimes=\"");
    out.append(tokens.as_str());
    out.append("\"");
    proof {
        assert(out@ =~= attr_spec(tokens@));
    }
    out
}

/// One day-hour pair packed into a single integer that orders pairs
/// day-major then hour-minor.
pub open spec fn encode_pair(p: (Day, u16)) -> u32 {
    (p.0.ord_spec() * 65536 + p.1) as u32
}

/// The day-hour pair a packed integer stands for.
pub open spec fn decode_pair(v: u32) -> (Day, u16) {
    (day_of_ord((v / 65536) as nat), (v % 65536) as u16)
}

/// Packing a pair keeps it recoverable and below the packing bound.
pub proof fn lemma_decode_encode(p: (Day, u16))
    ensures
        decode_pair(encode_pair(p)) == p,
        encode_pair(p) < 0x70000,
{
    let o = p.0.ord_spec();
    assert(o < 7);
    assert((o * 65536 + p.1) / 65536 == o && (o * 65536 + p.1) % 65536 == p.1) by (nonlinear_arith)
        requires
            o <= 6,
            p.1 < 65536,
    ;
    assert(day_of_ord(o) == p.0);
}

/// The pair expansions of a list of entries, concatenated in entry order.
pub open spec fn all_pairs(entries: Seq<DayHours>) -> Seq<(Day, u16)>
    decreases entries.len(),
{
    if entries.len() == 0 {
        Seq::empty()
    } else {
        all_pairs(entries.drop_last()) + entries.last().tuples_spec()
    }
}

/// The distinct packed day-hour pairs of a pair list, in ascending packed
/// (day-major, hour-minor) order.
pub open spec fn pair_set_of(t: Seq<(Day, u16)>) -> Seq<u32>
    decreases t.len(),
{
    if t.len() == 0 {
        Seq::empty()
    } else {
        insert_one(pair_set_of(t.drop_last()), encode_pair(t.last()))
    }
}

/// The deduplicated pair list: distinct pairs in day-major then hour-minor
/// order.
pub open spec fn dedup_pairs(t: Seq<(Day, u16)>) -> Seq<(Day, u16)> {
    pair_set_of(t).map_values(|v: u32| decode_pair(v))
}

/// [`pair_set_of`] is strictly sorted and holds exactly the packed forms
/// of the pairs occurring in the list.
pub proof fn lemma_pair_set_props(t: Seq<(Day, u16)>)
    ensures
        sorted_strict(pair_set_of(t)),
        forall|y: u32| #[trigger]
            pair_set_of(t).contains(y) ==> exists|i: int|
                0 <= i < t.len() && encode_pair(t[i]) == y,
        forall|i: int| 0 <= i < t.len() ==> pair_set_of(t).contains(encode_pair(#[trigger] t[i])),
    decreases t.len(),
{
    if t.len() > 0 {
        let pre = t.drop_last();
        lemma_pair_set_props(pre);
        lemma_insert_one_props(pair_set_of(pre), encode_pair(t.last()));
        assert forall|y: u32| #[trigger] pair_set_of(t).contains(y) implies exists|i: int|
            0 <= i < t.len() && encode_pair(t[i]) == y by {
            if pair_set_of(pre).contains(y) {
                let i = choose|i: int| 0 <= i < pre.len() && encode_pair(pre[i]) == y;
                assert(encode_pair(t[i]) == y);
            } else {
                assert(encode_pair(t[t.len() - 1]) == y);
            }
        }
        assert forall|i: int| 0 <= i < t.len() implies pair_set_of(t).contains(
            encode_pair(#[trigger] t[i]),
        ) by {
            if i < t.len() - 1 {
                assert(pre[i] == t[i]);
                assert(pair_set_of(pre).contains(encode_pair(t[i])));
            }
        }
    }
}

/// A human-readable rendering of one schedule entry together with its
/// grid-highlight attribute.
#[derive(Clone, Debug)]
pub struct HumanTime {
    /// The entry as display text.
    pub description: String,
    /// The entry's `data-daytimes` attribute string.
    pub data_attributes: String,
}

impl HappyTimes {
    /// Every entry's hour span lands on renderable wall-clock hours.
    pub open spec fn displayable(self) -> bool {
        forall|i: int| 0 <= i < self.0@.len() ==> (#[trigger] self.0@[i]).displayable()
    }

    /// The pair expansions of all entries, concatenated in entry order.
    fn all_tuples(&self) -> (r: Vec<(Day, u16)>)
        ensures
            r@ == all_pairs(self.0@),
    {
        let ghost es = self.0@;
        let mut acc: Vec<(Day, u16)> = Vec::new();
        let mut ei: usize = 0;
        while ei < self.0.len()
            invariant
                es == self.0@,
                ei <= es.len(),
                acc@ == all_pairs(es.subrange(0, ei as int)),
            decreases es.len() - ei,
        {
            let mut tup = self.0[ei].as_tuples();
            acc.append(&mut tup);
            proof {
                assert(es.subrange(0, ei + 1 as int).drop_last() =~= es.subrange(0, ei as int));
                assert(es.subrange(0, ei + 1 as int).last() == es[ei as int]);
            }
            ei = ei + 1;
        }
        proof {
            assert(es.subrange(0, es.len() as int) =~= es);
        }
        acc
    }

    /// The whole schedule's `data-daytimes` attribute: the union of all
    /// entries' day-hour pairs, deduplicated into day-major then
    /// hour-minor order, rendered as tokens and wrapped as an attribute.
    pub fn as_data_attributes(&self) -> (r: String)
        ensures
            r@ == attr_spec(data_daytimes_spec(dedup_pairs(all_pairs(self.0@)))),
    {
        let flat = self.all_tuples();
        let pairs = dedup_pairs_vec(&flat);
        wrap_attr(Self::data_daytimes(&pairs))
    }

    /// Whether the human-readable rendering is defined for every entry.
    pub fn check_displayable(&self) -> (r: bool)
        ensures
            r == self.displayable(),
    {
        let mut i: usize = 0;
        while i < self.0.len()
            invariant
                i <= self.0@.len(),
                forall|m: int| 0 <= m < i as int ==> (#[trigger] self.0@[m]).displayable(),
            decreases self.0@.len() - i,
        {
            if !self.0[i].check_displayable() {
                return false;
            }
            i = i + 1;
        }
        true
    }

    /// Render every entry in source order, pairing its display text with
    /// its own `data-daytimes` attribute.
    pub fn as_human_readable(&self) -> (r: Vec<HumanTime>)
        requires
            self.displayable(),
        ensures
            r@.len() == self.0@.len(),
            forall|i: int|
                0 <= i < r@.len() ==> (#[trigger] r@[i]).description@ == self.0@[i].display_spec(),
            forall|i: int|
                0 <= i < r@.len() ==> (#[trigger] r@[i]).data_attributes@ == attr_spec(
                    data_daytimes_spec(dedup_pairs(self.0@[i].tuples_spec())),
                ),
    {
        let ghost es = self.0@;
        let mut r: Vec<HumanTime> = Vec::new();
        let mut i: usize = 0;
        while i < self.0.len()
            invariant
                es == self.0@,
                self.displayable(),
                i <= es.len(),
                r@.len() == i as int,
                forall|m: int|
                    0 <= m < i as int ==> (#[trigger] r@[m]).description@ == es[m].display_spec(),
                forall|m: int|
                    0 <= m < i as int ==> (#[trigger] r@[m]).data_attributes@ == attr_spec(
                        data_daytimes_spec(dedup_pairs(es[m].tuples_spec())),
                    ),
            decreases es.len() - i,
        {
            let entry = &self.0[i];
            let ht = HumanTime {
                description: entry.display(),
                data_attributes: entry.as_data_attributes(),
            };
            r.push(ht);
            i = i + 1;
        }
        r
    }
}

/// The deduplicated pair list of `tuples` as a vector, in day-major then
/// hour-minor order.
fn dedup_pairs_vec(tuples: &Vec<(Day, u16)>) -> (r: Vec<(Day, u16)>)
    ensures
        r@ == dedup_pairs(tuples@),
{
    let ghost t = tuples@;
    let mut pairset: Vec<u32> = Vec::new();
    let mut i: usize = 0;
    while i < tuples.len()
        invariant
            t == tuples@,
            i <= t.len(),
            pairset@ == pair_set_of(t.subrange(0, i as int)),
        decreases t.len() - i,
    {
        let (d, hh) = tuples[i];
        let o = d.ord();
        proof {
            assert(d.ord_spec() < 7);
        }
        let enc: u32 = (o as u32) * 65536 + (hh as u32);
        proof {
            assert(enc == encode_pair(t[i as int]));
        }
        insert_one_vec(&mut pairset, enc);
        proof {
            assert(t.subrange(0, i + 1 as int).drop_last() =~= t.subrange(0, i as int));
            assert(t.subrange(0, i + 1 as int).last() == t[i as int]);
        }
        i = i + 1;
    }
    proof {
        assert(t.subrange(0, t.len() as int) =~= t);
        lemma_pair_set_props(t);
        assert forall|m: int| 0 <= m < pairset@.len() implies pairset@[m] < 0x70000 by {
            assert(pairset@.contains(pairset@[m]));
            let i = choose|i: int| 0 <= i < t.len() && encode_pair(t[i]) == pairset@[m];
            lemma_decode_encode(t[i]);
        }
    }
    let mut pairs: Vec<(Day, u16)> = Vec::new();
    let mut j: usize = 0;
    while j < pairset.len()
        invariant
            pairset@ == pair_set_of(t),
            forall|m: int| 0 <= m < pairset@.len() ==> #[trigger] pairset@[m] < 0x70000,
            j <= pairset@.len(),
            pairs@.len() == j as int,
            forall|m: int| 0 <= m < j as int ==> #[trigger] pairs@[m] == decode_pair(pairset@[m]),
        decreases pairset@.len() - j,
    {
        let v = pairset[j];
        let dord = (v / 65536) as u8;
        let d = day_from_ord(dord);
        let hh = (v % 65536) as u16;
        pairs.push((d, hh));
        j = j + 1;
    }
    proof {
        assert(pairs@ =~= dedup_pairs(t));
    }
    pairs
}

impl DayHours {
    /// This entry's own `data-daytimes` attribute: its day-hour pairs
    /// deduplicated into day-major then hour-minor set order (a
    /// week-wrapping range expands its days cyclically, so the expansion
    /// order alone is not the set order), rendered as tokens and wrapped
    /// as an attribute.
    pub fn as_data_attributes(&self) -> (r: String)
        ensures
            r@ == attr_spec(data_daytimes_spec(dedup_pairs(self.tuples_spec()))),
    {
        let t = self.as_tuples();
        let pairs = dedup_pairs_vec(&t);
        wrap_attr(HappyTimes::data_daytimes(&pairs))
    }
}

/// How many tokens of a token list equal `x`.
pub open spec fn count_eq(ts: Seq<Seq<char>>, x: Seq<char>) -> nat {
    ts.filter(|tok: Seq<char>| tok == x).len()
}

/// A token list with no element equal to `x` counts `x` zero times.
proof fn lemma_count_zero(ts: Seq<Seq<char>>, x: Seq<char>)
    requires
        forall|i: int| 0 <= i < ts.len() ==> #[trigger] ts[i] != x,
    ensures
        count_eq(ts, x) == 0,
    decreases ts.len(),
{
    reveal(Seq::filter);
    if ts.len() > 0 {
        let pre = ts.drop_last();
        assert(forall|i: int| 0 <= i < pre.len() ==> #[trigger] pre[i] == ts[i]);
        lemma_count_zero(pre, x);
        assert(ts.last() != x);
    }
}

/// A duplicate-free token list counts `x` once when present, else zero
/// times.
proof fn lemma_count_unique(ts: Seq<Seq<char>>, x: Seq<char>)
    requires
        forall|i: int, j: int| 0 <= i < j < ts.len() ==> ts[i] != ts[j],
    ensures
        count_eq(ts, x) == if ts.contains(x) {
            1nat
        } else {
            0nat
        },
    decreases ts.len(),
{
    reveal(Seq::filter);
    if ts.len() == 0 {
        assert(!ts.contains(x));
    } else {
        let pre = ts.drop_last();
        assert(forall|i: int| 0 <= i < pre.len() ==> #[trigger] pre[i] == ts[i]);
        lemma_count_unique(pre, x);
        if ts.last() == x {
            assert(ts.contains(x)) by {
                assert(ts[ts.len() - 1] == x);
            }
            assert(!pre.contains(x)) by {
                if pre.contains(x) {
                    let i = choose|i: int| 0 <= i < pre.len() && pre[i] == x;
                    assert(ts[i] == ts[ts.len() - 1]);
                }
            }
        } else {
            if pre.contains(x) {
                let i = choose|i: int| 0 <= i < pre.len() && pre[i] == x;
                assert(ts[i] == x);
            }
            if ts.contains(x) {
                let i = choose|i: int| 0 <= i < ts.len() && ts[i] == x;
                assert(pre[i] == x);
            }
        }
    }
}

/// Counting distributes over token-list concatenation.
proof fn lemma_count_concat(a: Seq<Seq<char>>, b: Seq<Seq<char>>, x: Seq<char>)
    ensures
        count_eq(a + b, x) == count_eq(a, x) + count_eq(b, x),
{
    Seq::filter_distributes_over_add(a, b, |tok: Seq<char>| tok == x);
}

/// A pair is listed with day `d`.
pub open spec fn has_day(t: Seq<(Day, u16)>, d: Day) -> bool {
    exists|i: int| 0 <= i < t.len() && (#[trigger] t[i]).0 == d
}

/// A pair is listed with hour `h`.
pub open spec fn has_hour(t: Seq<(Day, u16)>, h: u16) -> bool {
    exists|i: int| 0 <= i < t.len() && (#[trigger] t[i]).1 == h
}

/// Shape of an exact-cell token: a single day digit, a dash, then the
/// hour digits.
proof fn lemma_pair_token_facts(p: (Day, u16))
    ensures
        pair_token(p) == seq![digit_char(p.0.ord_spec()), '-'] + dec_digits(p.1 as nat),
        pair_token(p).len() >= 3,
        is_digit(pair_token(p)[0]),
        pair_token(p)[1] == '-',
        is_digit(pair_token(p)[2]),
{
    assert(p.0.ord_spec() < 7);
    lemma_dec_digits_props(p.0.ord_spec());
    lemma_dec_digits_props(p.1 as nat);
    assert(dec_digits(p.0.ord_spec()) == seq![digit_char(p.0.ord_spec())]);
    assert(pair_token(p) =~= seq![digit_char(p.0.ord_spec()), '-'] + dec_digits(p.1 as nat));
    assert(pair_token(p)[2] == dec_digits(p.1 as nat)[0]);
}

/// Shape of a whole-row token for a single-digit day ordinal.
proof fn lemma_day_all_token_facts(o: nat)
    requires
        o < 10,
    ensures
        day_all_token(o) == seq![digit_char(o), '-', 'a', 'l', 'l'],
        is_digit(day_all_token(o)[0]),
        day_all_token(o)[2] == 'a',
{
    assert(day_all_token(o) =~= seq![digit_char(o), '-', 'a', 'l', 'l']);
}

/// Shape of a whole-column token: the `all-` prefix, then the hour
/// digits.
proof fn lemma_all_hour_token_facts(h: nat)
    ensures
        all_hour_token(h).len() >= 5,
        all_hour_token(h)[0] == 'a',
        all_hour_token(h)[1] == 'l',
        all_hour_token(h)[4] == dec_digits(h)[0],
        is_digit(all_hour_token(h)[4]),
        all_hour_token(h).skip(4) == dec_digits(h),
{
    lemma_dec_digits_props(h);
    assert(all_hour_token(h).skip(4) =~= dec_digits(h));
}

/// Whole-row tokens of distinct single-digit ordinals are distinct.
proof fn lemma_day_all_token_injective(a: nat, b: nat)
    requires
        a < 10,
        b < 10,
        day_all_token(a) == day_all_token(b),
    ensures
        a == b,
{
    lemma_day_all_token_facts(a);
    lemma_day_all_token_facts(b);
    assert(day_all_token(a)[0] == day_all_token(b)[0]);
    lemma_digit_char_injective(a, b);
}

/// Whole-column tokens of distinct hours are distinct.
proof fn lemma_all_hour_token_injective(a: nat, b: nat)
    requires
        all_hour_token(a) == all_hour_token(b),
    ensures
        a == b,
{
    lemma_all_hour_token_facts(a);
    lemma_all_hour_token_facts(b);
    lemma_dec_digits_injective(a, b);
}

/// Distinct weekdays have distinct ordinals.
proof fn lemma_ord_injective(a: Day, b: Day)
    requires
        a.ord_spec() == b.ord_spec(),
    ensures
        a == b,
{
}

/// The whole-row token of a day occurs exactly once when the day occurs
/// in the pair list, and never otherwise.
proof fn lemma_count_day_all(t: Seq<(Day, u16)>, d: Day)
    ensures
        count_eq(all_tokens(t), day_all_token(d.ord_spec())) == if has_day(t, d) {
            1nat
        } else {
            0nat
        },
{
    let p = pair_tokens(t);
    let ds = day_ords_of(t);
    let dt = day_tokens(ds);
    let hs = hour_vals_of(t);
    let ht = hour_tokens(hs);
    let x = day_all_token(d.ord_spec());
    lemma_day_ords_props(t);
    lemma_day_all_token_facts(d.ord_spec());
    lemma_count_concat(p + dt, ht, x);
    lemma_count_concat(p, dt, x);
    assert forall|i: int| 0 <= i < p.len() implies #[trigger] p[i] != x by {
        lemma_pair_token_facts(t[i]);
        if p[i] == x {
            assert(p[i][2] == x[2]);
        }
    }
    lemma_count_zero(p, x);
    assert forall|i: int| 0 <= i < ht.len() implies #[trigger] ht[i] != x by {
        lemma_all_hour_token_facts(hs[i] as nat);
        if ht[i] == x {
            assert(ht[i][0] == x[0]);
        }
    }
    lemma_count_zero(ht, x);
    assert forall|m: int| 0 <= m < ds.len() implies ds[m] < 7 by {
        assert(ds.contains(ds[m]));
        let i = choose|i: int| 0 <= i < t.len() && t[i].0.ord_spec() == ds[m];
        assert(t[i].0.ord_spec() < 7);
    }
    assert forall|i: int, j: int| 0 <= i < j < dt.len() implies dt[i] != dt[j] by {
        if dt[i] == dt[j] {
            lemma_day_all_token_injective(ds[i] as nat, ds[j] as nat);
        }
    }
    lemma_count_unique(dt, x);
    if has_day(t, d) {
        let i = choose|i: int| 0 <= i < t.len() && t[i].0 == d;
        assert(ds.contains(t[i].0.ord_spec() as u32));
        let m = choose|m: int| 0 <= m < ds.len() && ds[m] == d.ord_spec() as u32;
        assert(dt[m] == x);
        assert(dt.contains(x));
    } else {
        if dt.contains(x) {
            let m = choose|m: int| 0 <= m < dt.len() && dt[m] == x;
            lemma_day_all_token_injective(ds[m] as nat, d.ord_spec());
            assert(ds.contains(ds[m]));
            let i = choose|i: int| 0 <= i < t.len() && t[i].0.ord_spec() == ds[m];
            lemma_ord_injective(t[i].0, d);
            assert(has_day(t, d));
        }
        assert(!dt.contains(x));
    }
}

/// The whole-column token of an hour occurs exactly once when the hour
/// occurs in the pair list, and never otherwise.
#[verifier::rlimit(50)]
proof fn lemma_count_all_hour(t: Seq<(Day, u16)>, h: u16)
    ensures
        count_eq(all_tokens(t), all_hour_token(h as nat)) == if has_hour(t, h) {
            1nat
        } else {
            0nat
        },
{
    let p = pair_tokens(t);
    let ds = day_ords_of(t);
    let dt = day_tokens(ds);
    let hs = hour_vals_of(t);
    let ht = hour_tokens(hs);
    let x = all_hour_token(h as nat);
    lemma_hour_vals_props(t);
    lemma_day_ords_props(t);
    lemma_all_hour_token_facts(h as nat);
    lemma_count_concat(p + dt, ht, x);
    lemma_count_concat(p, dt, x);
    assert forall|i: int| 0 <= i < p.len() implies #[trigger] p[i] != x by {
        lemma_pair_token_facts(t[i]);
        if p[i] == x {
            assert(p[i][1] == x[1]);
        }
    }
    lemma_count_zero(p, x);
    assert forall|m: int| 0 <= m < ds.len() implies ds[m] < 7 by {
        assert(ds.contains(ds[m]));
        let i = choose|i: int| 0 <= i < t.len() && t[i].0.ord_spec() == ds[m];
        assert(t[i].0.ord_spec() < 7);
    }
    assert forall|i: int| 0 <= i < dt.len() implies #[trigger] dt[i] != x by {
        lemma_day_all_token_facts(ds[i] as nat);
        if dt[i] == x {
            assert(dt[i][0] == x[0]);
        }
    }
    lemma_count_zero(dt, x);
    assert forall|i: int, j: int| 0 <= i < j < ht.len() implies ht[i] != ht[j] by {
        if ht[i] == ht[j] {
            lemma_all_hour_token_injective(hs[i] as nat, hs[j] as nat);
        }
    }
    lemma_count_unique(ht, x);
    if has_hour(t, h) {
        let i = choose|i: int| 0 <= i < t.len() && t[i].1 == h;
        assert(hs.contains(t[i].1 as u32));
        assert(hs.contains(h as u32));
        let m = choose|m: int| 0 <= m < hs.len() && hs[m] == h as u32;
        assert(ht[m] == all_hour_token(hs[m] as nat));
        assert(hs[m] as nat == h as nat);
        assert(ht[m] == x);
        assert(ht.contains(x));
    } else {
        if ht.contains(x) {
            let m = choose|m: int| 0 <= m < ht.len() && ht[m] == x;
            lemma_all_hour_token_injective(hs[m] as nat, h as nat);
            assert(hs.contains(hs[m]));
            let i = choose|i: int| 0 <= i < t.len() && t[i].1 == hs[m];
            assert(has_hour(t, h));
        }
        assert(!ht.contains(x));
    }
}

/// No token of any pair list is `all-all`.
#[verifier::rlimit(50)]
proof fn lemma_no_all_all(t: Seq<(Day, u16)>)
    ensures
        forall|i: int| 0 <= i < all_tokens(t).len() ==> #[trigger] all_tokens(t)[i] != "all-all"@,
{
    let p = pair_tokens(t);
    let ds = day_ords_of(t);
    let dt = day_tokens(ds);
    let hs = hour_vals_of(t);
    let ht = hour_tokens(hs);
    lemma_day_ords_props(t);
    lemma_hour_vals_props(t);
    reveal_strlit("all-all");
    let aa = "all-all"@;
    assert(aa =~= seq!['a', 'l', 'l', '-', 'a', 'l', 'l']);
    assert forall|m: int| 0 <= m < ds.len() implies ds[m] < 7 by {
        assert(ds.contains(ds[m]));
        let i = choose|i: int| 0 <= i < t.len() && t[i].0.ord_spec() == ds[m];
        assert(t[i].0.ord_spec() < 7);
    }
    assert forall|i: int| 0 <= i < all_tokens(t).len() implies #[trigger] all_tokens(t)[i]
        != aa by {
        if i < p.len() {
            lemma_pair_token_facts(t[i]);
            assert(all_tokens(t)[i] == p[i]);
            if p[i] == aa {
                assert(p[i][0] == aa[0]);
            }
        } else if i < p.len() + dt.len() {
            let m = i - p.len();
            lemma_day_all_token_facts(ds[m] as nat);
            assert(all_tokens(t)[i] == dt[m]);
            if dt[m] == aa {
                assert(dt[m][0] == aa[0]);
            }
        } else {
            let m = i - p.len() - dt.len();
            lemma_all_hour_token_facts(hs[m] as nat);
            assert(all_tokens(t)[i] == ht[m]);
            if ht[m] == aa {
                assert(ht[m][4] == aa[4]);
            }
        }
    }
}

/// The token list of any pair list never contains `all-all`; it contains
/// exactly one `"{day}-all"` token per distinct day of the list and
/// exactly one `"all-{hour}"` token per distinct hour.
pub proof fn lemma_token_set_laws(t: Seq<(Day, u16)>)
    ensures
        forall|i: int| 0 <= i < all_tokens(t).len() ==> #[trigger] all_tokens(t)[i] != "all-all"@,
        forall|d: Day| #[trigger]
            count_eq(all_tokens(t), day_all_token(d.ord_spec())) == if has_day(t, d) {
                1nat
            } else {
                0nat
            },
        forall|h: u16| #[trigger]
            count_eq(all_tokens(t), all_hour_token(h as nat)) == if has_hour(t, h) {
                1nat
            } else {
                0nat
            },
{
    lemma_no_all_all(t);
    assert forall|d: Day| #[trigger] count_eq(all_tokens(t), day_all_token(d.ord_spec()))
        == if has_day(t, d) {
        1nat
    } else {
        0nat
    } by {
        lemma_count_day_all(t, d);
    }
    assert forall|h: u16| #[trigger] count_eq(all_tokens(t), all_hour_token(h as nat))
        == if has_hour(t, h) {
        1nat
    } else {
        0nat
    } by {
        lemma_count_all_hour(t, h);
    }
}

/// Day-major, hour-minor order on day-hour pairs.
pub open spec fn pair_lex_lt(p: (Day, u16), q: (Day, u16)) -> bool {
    p.0.ord_spec() < q.0.ord_spec() || (p.0.ord_spec() == q.0.ord_spec() && p.1 < q.1)
}

/// Packing respects the day-major, hour-minor order.
proof fn lemma_encode_lt(p: (Day, u16), q: (Day, u16))
    requires
        encode_pair(p) < encode_pair(q),
    ensures
        pair_lex_lt(p, q),
{
    let a = p.0.ord_spec();
    let b = q.0.ord_spec();
    assert(a < 7 && b < 7);
    if a > b {
        assert(a * 65536 >= b * 65536 + 65536) by (nonlinear_arith)
            requires
                a >= b + 1,
        ;
    }
    if a == b {
        assert(a * 65536 + p.1 < b * 65536 + q.1);
    }
}

/// The deduplicated pair list of any pair list is strictly ascending in
/// day-major, hour-minor order, and holds exactly the pairs occurring in
/// the list.
pub proof fn lemma_dedup_pairs_props(t: Seq<(Day, u16)>)
    ensures
        forall|i: int, j: int|
            0 <= i < j < dedup_pairs(t).len() ==> pair_lex_lt(
                dedup_pairs(t)[i],
                dedup_pairs(t)[j],
            ),
        forall|p: (Day, u16)| #[trigger] dedup_pairs(t).contains(p) <==> t.contains(p),
{
    lemma_pair_set_props(t);
    let s = pair_set_of(t);
    let dp = dedup_pairs(t);
    assert(dp.len() == s.len());
    assert forall|m: int| 0 <= m < s.len() implies dp[m] == decode_pair(s[m]) && exists|i: int|
        0 <= i < t.len() && encode_pair(t[i]) == s[m] by {
        assert(s.contains(s[m]));
    }
    assert forall|m: int| 0 <= m < s.len() implies encode_pair(dp[m]) == s[m] by {
        let i = choose|i: int| 0 <= i < t.len() && encode_pair(t[i]) == s[m];
        lemma_decode_encode(t[i]);
        assert(dp[m] == t[i]);
    }
    assert forall|i: int, j: int| 0 <= i < j < dp.len() implies pair_lex_lt(dp[i], dp[j]) by {
        assert(s[i] < s[j]);
        lemma_encode_lt(dp[i], dp[j]);
    }
    assert forall|p: (Day, u16)| #[trigger] dedup_pairs(t).contains(p) implies t.contains(p) by {
        let m = choose|m: int| 0 <= m < dp.len() && dp[m] == p;
        let i = choose|i: int| 0 <= i < t.len() && encode_pair(t[i]) == s[m];
        lemma_decode_encode(t[i]);
        assert(t[i] == p);
    }
    assert forall|p: (Day, u16)| t.contains(p) implies #[trigger] dedup_pairs(t).contains(p) by {
        let i = choose|i: int| 0 <= i < t.len() && t[i] == p;
        assert(s.contains(encode_pair(t[i])));
        let m = choose|m: int| 0 <= m < s.len() && s[m] == encode_pair(t[i]);
        lemma_decode_encode(p);
        assert(dp[m] == p);
    }
}

/// The whole schedule as display text: every entry's rendering, joined
/// with a comma and a space, in source order.
pub open spec fn human_text_spec(entries: Seq<DayHours>) -> Seq<char> {
    join_with(seq![',', ' '], Seq::new(entries.len(), |i: int| entries[i].display_spec()))
}

impl HappyTimes {
    /// Render the whole schedule as one comma-separated line.
    pub fn as_human_readable_text(&self) -> (r: String)
        requires
            self.displayable(),
        ensures
            r@ == human_text_spec(self.0@),
    {
        let ghost es = self.0@;
        let ghost texts = Seq::new(es.len(), |i: int| es[i].display_spec());
        let mut out = String::new();
        let mut i: usize = 0;
        proof {
            assert(out@ =~= join_with(seq![',', ' '], texts.subrange(0, 0)));
        }
        while i < self.0.len()
            invariant
                es == self.0@,
                self.displayable(),
                texts == Seq::new(es.len(), |i: int| es[i].display_spec()),
                i <= es.len(),
                out@ == join_with(seq![',', ' '], texts.subrange(0, i as int)),
            decreases es.len() - i,
        {
            if i > 0 {
                proof {
                    reveal_strlit(", ");
                }
                out.append(", ");
            }
            let entry_text = self.0[i].display();
            out.append(entry_text.as_str());
            proof {
                let pre = texts.subrange(0, i as int);
                lemma_join_with_push(seq![',', ' '], pre, texts[i as int]);
                assert(texts.subrange(0, i + 1 as int) =~= pre.push(texts[i as int]));
                reveal_strlit(", ");
                assert(", "@ =~= seq![',', ' ']);
                assert(out@ =~= join_with(seq![',', ' '], texts.subrange(0, i + 1 as int)));
            }
            i = i + 1;
        }
        proof {
            assert(texts.subrange(0, texts.len() as int) =~= texts);
        }
        out
    }
}

/// A single-day selector and the degenerate range with equal endpoints
/// denote the same schedule fact: same days, same pairs, same tokens.
pub proof fn lemma_single_equals_degenerate_range(d: Day, h: Hours)
    ensures
        DayHours::Single(d, h).selector_days() == DayHours::Range((d, d), h).selector_days(),
        DayHours::Single(d, h).tuples_spec() == DayHours::Range((d, d), h).tuples_spec(),
{
}

} // verus!
