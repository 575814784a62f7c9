//! The navigable range of days: from today back to the oldest entry on
//! disk, then a fixed number of further days into the past.
//!
//! The directory listing only supplies the oldest entry's date. The range
//! itself is every calendar day from today back to that date, so that days
//! without a file appear as missing entries and not as holes, followed by
//! padding that keeps the list scrollable even for an empty journal.

use crate::calendar::{
    date_prefix, day_before, lemma_back_descends, lemma_back_is_injective, lemma_back_on_calendar,
    lemma_prefix_is_text, lemma_prev_is_adjacent, lemma_prev_is_before, lemma_prev_on_calendar,
    lemma_rank_orders,
    parse_date_prefix, CalendarDate, Day, MIN_YEAR,
};
use crate::entry::{resolve, resolved, DiaryEntry, Presence};
use vstd::prelude::*;

verus! {

/// Number of days listed beyond the oldest entry.
pub const PADDING_DAYS: u32 = 100;

/// The earliest day that any of `names` starts with, if any of them starts
/// with a day. Names that do not start with a day count for nothing.
pub open spec fn earliest_day(names: Seq<String>) -> Option<Day>
    decreases names.len(),
{
    if names.len() == 0 {
        None
    } else {
        let rest = earliest_day(names.drop_last());
        match (date_prefix(names.last()@), rest) {
            (Some(d), Some(e)) => if d.before(e) {
                Some(d)
            } else {
                Some(e)
            },
            (Some(d), None) => Some(d),
            (None, _) => rest,
        }
    }
}

/// The earliest day is the day of one of the names, and no name has an
/// earlier one; there is none exactly when no name starts with a day.
pub proof fn lemma_earliest_day_is_least(names: Seq<String>)
    ensures
        earliest_day(names) is None <==> forall|i: int|
            0 <= i < names.len() ==> date_prefix(#[trigger] names[i]@) is None,
        earliest_day(names) matches Some(d) ==> {
            &&& exists|i: int| 0 <= i < names.len() && date_prefix(#[trigger] names[i]@) == Some(d)
            &&& forall|i: int|
                0 <= i < names.len() ==> (date_prefix(#[trigger] names[i]@) matches Some(e)
                    ==> d.not_after(e))
        },
    decreases names.len(),
{
    if names.len() > 0 {
        let front = names.drop_last();
        lemma_earliest_day_is_least(front);
        assert(forall|i: int| 0 <= i < front.len() ==> front[i] == names[i]);
        let last = names.len() - 1;
        match earliest_day(names) {
            Some(d) => {
                if date_prefix(names[last]@) == Some(d) {
                } else {
                    let i = choose|i: int|
                        0 <= i < front.len() && date_prefix(#[trigger] front[i]@) == Some(d);
                    assert(date_prefix(names[i]@) == Some(d));
                }
                assert forall|i: int| 0 <= i < names.len() implies (date_prefix(
                    #[trigger] names[i]@,
                ) matches Some(e) ==> d.not_after(e)) by {
                    if i < last {
                        assert(front[i] == names[i]);
                    }
                }
            },
            None => {
                assert forall|i: int| 0 <= i < names.len() implies date_prefix(
                    #[trigger] names[i]@,
                ) is None by {
                    if i < last {
                        assert(front[i] == names[i]);
                    }
                }
            },
        }
    }
}

/// The earliest day that any of the file names starts with. A name counts
/// only if its first ten characters are a calendar date written as
/// `YYYY-MM-DD`.
pub fn earliest_entry_date(file_names: &Vec<String>) -> (r: Option<CalendarDate>)
    ensures
        r is Some <==> earliest_day(file_names@) is Some,
        r matches Some(d) ==> earliest_day(file_names@) == Some(d@) && d.wf() && 0 <= d.year
            <= 9999,
        r matches Some(d) ==> exists|i: int|
            0 <= i < file_names.len() && date_prefix(#[trigger] file_names[i]@) == Some(d@),
        forall|i: int|
            0 <= i < file_names.len() ==> (date_prefix(#[trigger] file_names[i]@) matches Some(e)
                ==> r is Some && r->0@.not_after(e)),
{
    let mut best: Option<CalendarDate> = None;
    let mut i: usize = 0;
    while i < file_names.len()
        invariant
            i <= file_names.len(),
            best is Some <==> earliest_day(file_names@.take(i as int)) is Some,
            best matches Some(d) ==> earliest_day(file_names@.take(i as int)) == Some(d@) && d.wf()
                && 0 <= d.year <= 9999,
        decreases file_names.len() - i,
    {
        let parsed = parse_date_prefix(file_names[i].as_str());
        proof {
            let next = file_names@.take(i + 1);
            assert(next.drop_last() =~= file_names@.take(i as int));
            assert(next.last() == file_names@[i as int]);
            if let Some(d) = parsed {
                lemma_prefix_is_text(file_names@[i as int]@, d@);
            }
        }
        match (parsed, best) {
            (Some(d), Some(e)) => {
                if d.is_before(&e) {
                    best = Some(d);
                }
            },
            (Some(d), None) => {
                best = Some(d);
            },
            (None, _) => {},
        }
        i += 1;
    }
    assert(file_names@.take(i as int) =~= file_names@);
    proof {
        lemma_earliest_day_is_least(file_names@);
    }
    best
}

/// Number of days from `later` back to `earlier`.
pub open spec fn days_between(later: Day, earlier: Day) -> nat {
    choose|n: nat| later.back(n) == earlier
}

/// Number of days in the range: every day from today back to the earliest
/// entry, and `padding` days before that; `padding` days from today back
/// where there is no entry at all.
pub open spec fn range_len(today: Day, earliest: Option<Day>, padding: nat) -> nat {
    match earliest {
        Some(oldest) => days_between(today, oldest) + 1 + padding,
        None => padding,
    }
}

/// Whether the range can be listed: the earliest entry is not in the
/// future, and every day of the range lies in a supported year.
pub open spec fn listable(today: Day, earliest: Option<Day>, padding: nat) -> bool {
    &&& earliest matches Some(oldest) ==> oldest.not_after(today)
    &&& forall|k: nat| k < range_len(today, earliest, padding) ==> (#[trigger] today.back(k)).wf()
}

/// Whether `dates` is the range: today first, each further day the one
/// before its predecessor.
pub open spec fn is_range(
    dates: Seq<CalendarDate>,
    today: Day,
    earliest: Option<Day>,
    padding: nat,
) -> bool {
    &&& dates.len() == range_len(today, earliest, padding)
    &&& forall|k: int| 0 <= k < dates.len() ==> (#[trigger] dates[k])@ == today.back(k as nat)
}

/// Whether each date is an earlier day than the one before it.
pub open spec fn strictly_descending(dates: Seq<CalendarDate>) -> bool {
    forall|i: int, j: int|
        0 <= i < j < dates.len() ==> (#[trigger] dates[j])@.before((#[trigger] dates[i])@)
}

/// Going back `n` days from the day before is going back `n + 1` days.
pub proof fn lemma_back_from_prev(d: Day, n: nat)
    ensures
        d.prev().back(n) == d.back(n + 1),
    decreases n,
{
    if n > 0 {
        lemma_back_from_prev(d, (n - 1) as nat);
    }
    assert(d.back(1) == d.back(0).prev());
}

/// Every day of the calendar is reached by going back from any later day.
pub proof fn lemma_back_reaches(later: Day, earlier: Day)
    requires
        later.on_calendar(),
        earlier.on_calendar(),
        earlier.not_after(later),
    ensures
        later.back(days_between(later, earlier)) == earlier,
    decreases later.rank() - earlier.rank(),
{
    if earlier == later {
        assert(later.back(0) == earlier);
    } else {
        lemma_prev_is_adjacent(earlier, later);
        lemma_prev_on_calendar(later);
        lemma_prev_is_before(later);
        lemma_rank_orders(later.prev(), later);
        lemma_rank_orders(earlier, later.prev());
        lemma_back_reaches(later.prev(), earlier);
        let n = days_between(later.prev(), earlier);
        lemma_back_from_prev(later, n);
        assert(later.back(n + 1) == earlier);
    }
}

/// Going back `a` days and then `b` days is going back `a + b` days.
pub proof fn lemma_back_twice(d: Day, a: nat, b: nat)
    ensures
        d.back(a).back(b) == d.back(a + b),
    decreases b,
{
    if b > 0 {
        lemma_back_twice(d, a, (b - 1) as nat);
    }
}

/// A range can be listed whenever its earliest entry is not in the future
/// and its padding stays within the supported years.
pub proof fn lemma_range_in_supported_years_is_listable(
    today: Day,
    earliest: Option<Day>,
    padding: nat,
)
    requires
        today.wf(),
        earliest matches Some(oldest) ==> oldest.on_calendar() && oldest.not_after(today)
            && oldest.year - padding >= MIN_YEAR,
        earliest is None ==> today.year - padding >= MIN_YEAR,
    ensures
        listable(today, earliest, padding),
{
    assert forall|k: nat| k < range_len(today, earliest, padding) implies (#[trigger] today.back(
        k,
    )).wf() by {
        lemma_back_on_calendar(today, k);
        if let Some(oldest) = earliest {
            let gap = days_between(today, oldest);
            lemma_back_reaches(today, oldest);
            if k < gap {
                lemma_back_descends(today, k, gap);
            } else {
                lemma_back_twice(today, gap, (k - gap) as nat);
                lemma_back_on_calendar(oldest, (k - gap) as nat);
            }
        }
    }
}

/// A range is strictly descending by date, holds no day twice, and has at
/// least as many days as its padding.
pub proof fn lemma_range_descends(
    dates: Seq<CalendarDate>,
    today: Day,
    earliest: Option<Day>,
    padding: nat,
)
    requires
        is_range(dates, today, earliest, padding),
    ensures
        strictly_descending(dates),
        forall|i: int, j: int|
            0 <= i < dates.len() && 0 <= j < dates.len() && i != j ==> (#[trigger] dates[i])
                != (#[trigger] dates[j]),
        dates.len() >= padding,
{
    assert forall|i: int, j: int| 0 <= i < j < dates.len() implies (#[trigger] dates[j])@.before(
        (#[trigger] dates[i])@,
    ) by {
        lemma_back_descends(today, i as nat, j as nat);
    }
    assert forall|i: int, j: int|
        0 <= i < dates.len() && 0 <= j < dates.len() && i != j implies (#[trigger] dates[i])
        != (#[trigger] dates[j]) by {
        if i < j {
            lemma_back_descends(today, i as nat, j as nat);
        } else {
            lemma_back_descends(today, j as nat, i as nat);
        }
    }
}

/// In a range the earliest entry's day is the last one before the padding:
/// exactly `padding` days follow it.
pub proof fn lemma_range_holds_earliest(
    dates: Seq<CalendarDate>,
    today: Day,
    oldest: Day,
    padding: nat,
)
    requires
        today.on_calendar(),
        oldest.on_calendar(),
        oldest.not_after(today),
        is_range(dates, today, Some(oldest), padding),
    ensures
        dates.len() > padding,
        dates[dates.len() - padding - 1]@ == oldest,
{
    lemma_back_reaches(today, oldest);
}

/// Without any entry the range is `padding` days, today first.
pub proof fn lemma_range_of_empty_journal(dates: Seq<CalendarDate>, today: Day, padding: nat)
    requires
        is_range(dates, today, earliest_day(Seq::empty()), padding),
    ensures
        dates.len() == padding,
        padding > 0 ==> dates[0]@ == today,
{
}

/// The days to list, most recent first: from `today` back to the earliest
/// entry, then `padding` further days; without any entry, `padding` days
/// from `today` back. Nothing is listed where the earliest entry lies after
/// `today` or the range leaves the supported years.
pub fn navigable_dates(today: CalendarDate, earliest: Option<CalendarDate>, padding: u32) -> (r:
    Option<Vec<CalendarDate>>)
    requires
        today.wf(),
        earliest matches Some(oldest) ==> oldest.wf(),
    ensures
        r is Some <==> listable(today@, view_of(earliest), padding as nat),
        r matches Some(dates) ==> {
            &&& is_range(dates@, today@, view_of(earliest), padding as nat)
            &&& strictly_descending(dates@)
            &&& dates.len() >= padding
            &&& forall|k: int| 0 <= k < dates.len() ==> (#[trigger] dates[k]).wf()
            &&& earliest matches Some(oldest) ==> dates.len() > padding && dates[dates.len()
                - padding - 1] == oldest
            &&& earliest is None ==> dates.len() == padding
        },
{
    let mut dates: Vec<CalendarDate> = Vec::new();
    let mut date = today;
    let mut pending: u32 = padding;
    match earliest {
        Some(oldest) => {
            if today.is_before(&oldest) {
                return None;
            }
            loop
                invariant_except_break
                    date.wf(),
                    oldest.wf(),
                    oldest@.not_after(date@),
                    date@ == today@.back(dates.len() as nat),
                    forall|k: int|
                        0 <= k < dates.len() ==> (#[trigger] dates[k])@ == today@.back(k as nat),
                    forall|k: int| 0 <= k < dates.len() ==> (#[trigger] dates[k]).wf(),
                ensures
                    dates.len() >= 1,
                    date == oldest,
                    date.wf(),
                    date@ == today@.back((dates.len() - 1) as nat),
                    forall|k: int|
                        0 <= k < dates.len() ==> (#[trigger] dates[k])@ == today@.back(k as nat),
                    forall|k: int| 0 <= k < dates.len() ==> (#[trigger] dates[k]).wf(),
                decreases date@.rank() - oldest@.rank(),
            {
                dates.push(date);
                if date.is_same(&oldest) {
                    break;
                }
                proof {
                    lemma_prev_is_adjacent(oldest@, date@);
                    lemma_prev_on_calendar(date@);
                    lemma_prev_is_before(date@);
                    lemma_rank_orders(date@.prev(), date@);
                    lemma_rank_orders(oldest@, date@.prev());
                }
                date = day_before(date).unwrap();
            }
            proof {
                lemma_back_is_injective(
                    today@,
                    days_between(today@, oldest@),
                    (dates.len() - 1) as nat,
                );
            }
        },
        None => {
            if pending > 0 {
                dates.push(date);
                pending = pending - 1;
            }
        },
    }
    while pending > 0
        invariant
            dates.len() + pending == range_len(today@, view_of(earliest), padding as nat),
            pending > 0 ==> dates.len() >= 1 && date.wf() && date@ == today@.back(
                (dates.len() - 1) as nat,
            ),
            forall|k: int| 0 <= k < dates.len() ==> (#[trigger] dates[k])@ == today@.back(k as nat),
            forall|k: int| 0 <= k < dates.len() ==> (#[trigger] dates[k]).wf(),
            earliest matches Some(oldest) ==> oldest@.not_after(today@),
        decreases pending,
    {
        match day_before(date) {
            Some(earlier) => {
                date = earlier;
                dates.push(date);
                pending = pending - 1;
            },
            None => {
                assert(!today@.back(dates.len() as nat).wf());
                return None;
            },
        }
    }
    proof {
        assert forall|k: nat|
            k < range_len(today@, view_of(earliest), padding as nat) implies (
        #[trigger] today@.back(k)).wf() by {
            assert(dates[k as int].wf());
        }
        lemma_range_descends(dates@, today@, view_of(earliest), padding as nat);
        if let Some(oldest) = earliest {
            lemma_range_holds_earliest(dates@, today@, oldest@, padding as nat);
        }
    }
    Some(dates)
}

/// The days to list for a journal with the given file names, most recent
/// first: every day from `today` back to the oldest entry, and one hundred
/// days before that; one hundred days from `today` back for a journal
/// without entries.
pub fn listed_dates(today: CalendarDate, file_names: &Vec<String>) -> (r: Option<Vec<CalendarDate>>)
    requires
        today.wf(),
    ensures
        r is Some <==> listable(today@, earliest_day(file_names@), 100),
        r matches Some(dates) ==> {
            &&& is_range(dates@, today@, earliest_day(file_names@), 100)
            &&& strictly_descending(dates@)
            &&& dates.len() >= 100
            &&& forall|k: int| 0 <= k < dates.len() ==> (#[trigger] dates[k]).wf()
            &&& earliest_day(file_names@) matches Some(oldest) ==> dates[dates.len() - 101]@
                == oldest
            &&& earliest_day(file_names@) is None ==> dates.len() == 100 && dates[0] == today
        },
        (earliest_day(file_names@) matches Some(oldest) ==> oldest.not_after(today@)) && today.year
            >= MIN_YEAR + 100 ==> r is Some,
{
    let earliest = earliest_entry_date(file_names);
    proof {
        if (earliest_day(file_names@) matches Some(oldest) ==> oldest.not_after(today@))
            && today.year >= MIN_YEAR + 100 {
            lemma_range_in_supported_years_is_listable(today@, earliest_day(file_names@), 100);
        }
    }
    navigable_dates(today, earliest, PADDING_DAYS)
}

/// Whether `entries` are the days of `dates`, in their order, each resolved
/// under `base` with what was found for it.
pub open spec fn is_resolution(
    entries: Seq<DiaryEntry>,
    base: Seq<char>,
    dates: Seq<CalendarDate>,
    found: Seq<Presence>,
) -> bool {
    &&& entries.len() == dates.len()
    &&& forall|k: int|
        0 <= k < entries.len() ==> (#[trigger] entries[k])@ == resolved(base, dates[k]@, found[k])
}

/// The entry list of the journal under `path`: one entry for each of
/// `dates`, in their order, resolved with what was found on disk for that
/// day's two candidates.
pub fn get_entries_in_path(path: &String, dates: &Vec<CalendarDate>, found: &Vec<Presence>) -> (r:
    Vec<DiaryEntry>)
    requires
        dates.len() == found.len(),
        forall|k: int| 0 <= k < dates.len() ==> (#[trigger] dates[k]).wf(),
    ensures
        is_resolution(r@, path@, dates@, found@),
        forall|k: int| 0 <= k < r.len() ==> (#[trigger] r[k]).date == dates[k],
        forall|k: int| 0 <= k < r.len() ==> (#[trigger] r[k]).exists == (found[k].org || found[k].md),
{
    let mut entries: Vec<DiaryEntry> = Vec::new();
    let mut i: usize = 0;
    while i < dates.len()
        invariant
            i <= dates.len(),
            dates.len() == found.len(),
            entries.len() == i,
            forall|k: int| 0 <= k < dates.len() ==> (#[trigger] dates[k]).wf(),
            forall|k: int|
                0 <= k < i ==> (#[trigger] entries[k])@ == resolved(path@, dates[k]@, found[k]),
            forall|k: int| 0 <= k < i ==> (#[trigger] entries[k]).date == dates[k],
        decreases dates.len() - i,
    {
        entries.push(resolve(path.as_str(), dates[i], found[i]));
        i += 1;
    }
    entries
}

/// Entries resolved from strictly descending dates are strictly descending
/// by date, and no two of them are for the same day.
pub proof fn lemma_entries_descend(
    entries: Seq<DiaryEntry>,
    base: Seq<char>,
    dates: Seq<CalendarDate>,
    found: Seq<Presence>,
)
    requires
        is_resolution(entries, base, dates, found),
        strictly_descending(dates),
    ensures
        forall|i: int, j: int|
            0 <= i < j < entries.len() ==> (#[trigger] entries[j])@.date.before(
                (#[trigger] entries[i])@.date,
            ),
        forall|i: int, j: int|
            0 <= i < entries.len() && 0 <= j < entries.len() && i != j ==> (
            #[trigger] entries[i])@.date != (#[trigger] entries[j])@.date,
{
    assert forall|i: int, j: int| 0 <= i < j < entries.len() implies (
    #[trigger] entries[j])@.date.before((#[trigger] entries[i])@.date) by {
        assert(dates[j]@.before(dates[i]@));
    }
    assert forall|i: int, j: int|
        0 <= i < entries.len() && 0 <= j < entries.len() && i != j implies (
    #[trigger] entries[i])@.date != (#[trigger] entries[j])@.date by {
        if i < j {
            assert(dates[j]@.before(dates[i]@));
        } else {
            assert(dates[i]@.before(dates[j]@));
        }
    }
}

/// Listing twice from the same day, the same file names and the same
/// padding gives the same days.
pub proof fn lemma_range_is_repeatable(
    first: Seq<CalendarDate>,
    second: Seq<CalendarDate>,
    today: Day,
    names: Seq<String>,
    padding: nat,
)
    requires
        is_range(first, today, earliest_day(names), padding),
        is_range(second, today, earliest_day(names), padding),
    ensures
        first == second,
{
    assert forall|k: int| 0 <= k < first.len() implies first[k] == second[k] by {
        assert(first[k]@ == second[k]@);
    }
    assert(first =~= second);
}

/// Resolving the same days twice with nothing changed on disk gives the
/// same entries.
pub proof fn lemma_resolution_is_repeatable(
    first: Seq<DiaryEntry>,
    second: Seq<DiaryEntry>,
    base: Seq<char>,
    dates: Seq<CalendarDate>,
    found: Seq<Presence>,
)
    requires
        is_resolution(first, base, dates, found),
        is_resolution(second, base, dates, found),
    ensures
        first.len() == second.len(),
        forall|k: int| 0 <= k < first.len() ==> (#[trigger] first[k])@ == second[k]@,
{
}

/// The mathematical value of a date that may be missing.
pub open spec fn view_of(date: Option<CalendarDate>) -> Option<Day> {
    match date {
        Some(d) => Some(d@),
        None => None,
    }
}

} // verus!
