//! Calendar dates: validity, chronological order, the day before, and the
//! `YYYY-MM-DD` text that names a day's file.

use chrono::Datelike;
use vstd::prelude::*;

verus! {

/// First year a date may lie in.
pub const MIN_YEAR: i32 = -262143;

/// Last year a date may lie in.
pub const MAX_YEAR: i32 = 262142;

/// Whether `year` has a 29th of February.
pub open spec fn is_leap_year(year: int) -> bool {
    year % 4 == 0 && (year % 100 != 0 || year % 400 == 0)
}

/// Number of days of `month` in `year`; 0 for a month that does not exist.
pub open spec fn days_in_month(year: int, month: int) -> int {
    if month == 2 {
        if is_leap_year(year) {
            29
        } else {
            28
        }
    } else if month == 4 || month == 6 || month == 9 || month == 11 {
        30
    } else if 1 <= month <= 12 {
        31
    } else {
        0
    }
}

/// The mathematical value of a date: a year, a month and a day of the
/// proleptic Gregorian calendar, year 0 being 1 BCE.
pub ghost struct Day {
    pub year: int,
    pub month: int,
    pub day: int,
}

impl Day {
    /// The month and the day exist in the year.
    pub open spec fn on_calendar(self) -> bool {
        &&& 1 <= self.month <= 12
        &&& 1 <= self.day <= days_in_month(self.year, self.month)
    }

    /// The day exists and lies in a year this crate works with.
    pub open spec fn wf(self) -> bool {
        &&& self.on_calendar()
        &&& MIN_YEAR <= self.year <= MAX_YEAR
    }

    /// `self` is an earlier day than `other`.
    pub open spec fn before(self, other: Day) -> bool {
        ||| self.year < other.year
        ||| self.year == other.year && self.month < other.month
        ||| self.year == other.year && self.month == other.month && self.day < other.day
    }

    /// `self` is `other` or an earlier day.
    pub open spec fn not_after(self, other: Day) -> bool {
        self == other || self.before(other)
    }

    /// A number that grows from each day of the calendar to the next.
    pub open spec fn rank(self) -> int {
        (self.year * 12 + self.month) * 32 + self.day
    }

    /// The calendar day just before `self`.
    pub open spec fn prev(self) -> Day {
        if self.day > 1 {
            Day { year: self.year, month: self.month, day: self.day - 1 }
        } else if self.month > 1 {
            Day {
                year: self.year,
                month: self.month - 1,
                day: days_in_month(self.year, self.month - 1),
            }
        } else {
            Day { year: self.year - 1, month: 12, day: 31 }
        }
    }

    /// The day that lies `n` days before `self`.
    pub open spec fn back(self, n: nat) -> Day
        decreases n,
    {
        if n == 0 {
            self
        } else {
            self.back((n - 1) as nat).prev()
        }
    }
}

/// A calendar date as the program holds it.
#[derive(Clone, Copy, Debug, PartialEq, Eq, Structural)]
pub struct CalendarDate {
    pub year: i32,
    pub month: u32,
    pub day: u32,
}

impl View for CalendarDate {
    type V = Day;

    open spec fn view(&self) -> Day {
        Day { year: self.year as int, month: self.month as int, day: self.day as int }
    }
}

/// The decimal digit `n` as a character.
pub open spec fn digit_char(n: int) -> char {
    if n == 0 {
        '0'
    } else if n == 1 {
        '1'
    } else if n == 2 {
        '2'
    } else if n == 3 {
        '3'
    } else if n == 4 {
        '4'
    } else if n == 5 {
        '5'
    } else if n == 6 {
        '6'
    } else if n == 7 {
        '7'
    } else if n == 8 {
        '8'
    } else {
        '9'
    }
}

/// The last `width` decimal digits of `value`, most significant first.
pub open spec fn zero_padded(value: int, width: nat) -> Seq<char>
    decreases width,
{
    if width == 0 {
        Seq::empty()
    } else {
        zero_padded(value / 10, (width - 1) as nat).push(digit_char(value % 10))
    }
}

/// Number of digits a year of the given magnitude is written with.
pub open spec fn year_width(magnitude: int) -> nat {
    if magnitude < 10000 {
        4
    } else if magnitude < 100000 {
        5
    } else {
        6
    }
}

/// A year as text: four digits from 0 to 9999, otherwise a sign and at
/// least four digits.
pub open spec fn year_text(year: int) -> Seq<char> {
    if 0 <= year <= 9999 {
        zero_padded(year, 4)
    } else if year > 0 {
        seq!['+'] + zero_padded(year, year_width(year))
    } else {
        seq!['-'] + zero_padded(-year, year_width(-year))
    }
}

/// A day as `YYYY-MM-DD` text.
pub open spec fn iso_text(d: Day) -> Seq<char> {
    year_text(d.year) + seq!['-'] + zero_padded(d.month, 2) + seq!['-'] + zero_padded(d.day, 2)
}

/// The value of a decimal digit, or nothing for any other character.
pub open spec fn digit_value(c: char) -> Option<int> {
    if '0' <= c <= '9' {
        Some(c as int - '0' as int)
    } else {
        None
    }
}

/// The number that two decimal digits write, or nothing if either
/// character is no digit.
pub open spec fn two_digits(tens: char, ones: char) -> Option<int> {
    if digit_value(tens) is Some && digit_value(ones) is Some {
        Some(10 * digit_value(tens)->0 + digit_value(ones)->0)
    } else {
        None
    }
}

/// The day that the first ten characters of `s` name as `YYYY-MM-DD`, if
/// they have that shape and there is such a day.
pub open spec fn date_prefix(s: Seq<char>) -> Option<Day> {
    if s.len() >= 10 && s[4] == '-' && s[7] == '-' && two_digits(s[0], s[1]) is Some && two_digits(
        s[2],
        s[3],
    ) is Some && two_digits(s[5], s[6]) is Some && two_digits(s[8], s[9]) is Some {
        let d = Day {
            year: 100 * two_digits(s[0], s[1])->0 + two_digits(s[2], s[3])->0,
            month: two_digits(s[5], s[6])->0,
            day: two_digits(s[8], s[9])->0,
        };
        if d.on_calendar() {
            Some(d)
        } else {
            None
        }
    } else {
        None
    }
}

/// The value of a decimal digit, or nothing for any other character.
pub fn digit_of(c: char) -> (r: Option<u32>)
    ensures
        r is Some <==> digit_value(c) is Some,
        r matches Some(v) ==> digit_value(c) == Some(v as int) && v <= 9,
{
    if '0' <= c && c <= '9' {
        Some(c as u32 - '0' as u32)
    } else {
        None
    }
}

/// The number that two decimal digits write, or nothing if either
/// character is no digit.
pub fn two_digits_of(tens: char, ones: char) -> (r: Option<u32>)
    ensures
        r is Some <==> two_digits(tens, ones) is Some,
        r matches Some(v) ==> two_digits(tens, ones) == Some(v as int) && v <= 99,
{
    match (digit_of(tens), digit_of(ones)) {
        (Some(t), Some(o)) => Some(10 * t + o),
        _ => None,
    }
}

/// The date that the first ten characters of `name` give as `YYYY-MM-DD`,
/// if they have that shape and there is such a day.
pub fn parse_date_prefix(name: &str) -> (r: Option<CalendarDate>)
    ensures
        r is Some <==> date_prefix(name@) is Some,
        r matches Some(d) ==> date_prefix(name@) == Some(d@) && d.wf(),
{
    if name.unicode_len() < 10 {
        return None;
    }
    if name.get_char(4) != '-' || name.get_char(7) != '-' {
        return None;
    }
    let century = two_digits_of(name.get_char(0), name.get_char(1));
    let in_century = two_digits_of(name.get_char(2), name.get_char(3));
    let month = two_digits_of(name.get_char(5), name.get_char(6));
    let day = two_digits_of(name.get_char(8), name.get_char(9));
    match (century, in_century, month, day) {
        (Some(c), Some(y), Some(m), Some(d)) => {
            let year: u32 = 100 * c + y;
            CalendarDate::new(year as i32, m, d)
        },
        _ => None,
    }
}

/// Whether `year` has a 29th of February.
pub fn leap_year(year: i32) -> (r: bool)
    ensures
        r == is_leap_year(year as int),
{
    year % 4 == 0 && (year % 100 != 0 || year % 400 == 0)
}

/// Number of days of `month` in `year`; 0 for a month that does not exist.
pub fn month_length(year: i32, month: u32) -> (r: u32)
    ensures
        r == days_in_month(year as int, month as int),
{
    if month == 2 {
        if leap_year(year) {
            29
        } else {
            28
        }
    } else if month == 4 || month == 6 || month == 9 || month == 11 {
        30
    } else if 1 <= month && month <= 12 {
        31
    } else {
        0
    }
}

/// Calls `chrono::NaiveDate::pred_opt` on the date that `date` stands for.
/// Claims that chrono answers with the previous calendar day, and with
/// nothing exactly when that day lies before its first supported year.
#[verifier::external_body]
pub(crate) fn day_before(date: CalendarDate) -> (r: Option<CalendarDate>)
    requires
        date.wf(),
    ensures
        r is Some <==> date@.prev().wf(),
        r matches Some(p) ==> p@ == date@.prev(),
{
    let day = chrono::NaiveDate::from_ymd_opt(date.year, date.month, date.day).unwrap();
    match day.pred_opt() {
        Some(p) => Some(CalendarDate { year: p.year(), month: p.month(), day: p.day() }),
        None => None,
    }
}

/// Calls `chrono::NaiveDate::format` with the pattern `%Y-%m-%d` on the date
/// that `date` stands for. Claims that chrono writes the year zero-padded to
/// four digits (with a sign outside 0..=9999), the month and the day
/// zero-padded to two digits, and hyphens between them.
#[verifier::external_body]
pub(crate) fn iso_string(date: CalendarDate) -> (r: String)
    requires
        date.wf(),
    ensures
        r@ == iso_text(date@),
{
    let day = chrono::NaiveDate::from_ymd_opt(date.year, date.month, date.day).unwrap();
    day.format("%Y-%m-%d").to_string()
}

impl CalendarDate {
    /// The date exists and lies in a supported year.
    pub open spec fn wf(self) -> bool {
        self@.wf()
    }

    /// The date with the given year, month and day, if there is such a day
    /// in a supported year.
    pub fn new(year: i32, month: u32, day: u32) -> (r: Option<CalendarDate>)
        ensures
            r is Some <==> (Day { year: year as int, month: month as int, day: day as int }).wf(),
            r matches Some(d) ==> d.year == year && d.month == month && d.day == day,
    {
        if MIN_YEAR <= year && year <= MAX_YEAR && 1 <= month && month <= 12 && 1 <= day && day
            <= month_length(year, month) {
            Some(CalendarDate { year, month, day })
        } else {
            None
        }
    }

    /// Whether `self` and `other` are the same day.
    pub fn is_same(&self, other: &CalendarDate) -> (r: bool)
        ensures
            r == (self@ == other@),
            r == (*self == *other),
    {
        self.year == other.year && self.month == other.month && self.day == other.day
    }

    /// Whether `self` is an earlier day than `other`.
    pub fn is_before(&self, other: &CalendarDate) -> (r: bool)
        ensures
            r == self@.before(other@),
    {
        self.year < other.year || (self.year == other.year && (self.month < other.month || (
        self.month == other.month && self.day < other.day)))
    }
}

/// The day before a day is earlier than it.
pub proof fn lemma_prev_is_before(d: Day)
    ensures
        d.prev().before(d),
{
}

/// The day before a day of the calendar is a day of the calendar.
pub proof fn lemma_prev_on_calendar(d: Day)
    requires
        d.on_calendar(),
    ensures
        d.prev().on_calendar(),
{
}

/// No day of the calendar lies strictly between a day and the day before it.
pub proof fn lemma_prev_is_adjacent(a: Day, b: Day)
    requires
        a.on_calendar(),
        b.on_calendar(),
        a.before(b),
    ensures
        a.not_after(b.prev()),
{
}

/// Days of the calendar follow each other as their ranks do.
pub proof fn lemma_rank_orders(a: Day, b: Day)
    requires
        a.on_calendar(),
        b.on_calendar(),
    ensures
        a.before(b) <==> a.rank() < b.rank(),
        a == b <==> a.rank() == b.rank(),
{
}

/// Going back further reaches an earlier day.
pub proof fn lemma_back_descends(d: Day, i: nat, j: nat)
    requires
        i < j,
    ensures
        d.back(j).before(d.back(i)),
    decreases j,
{
    lemma_prev_is_before(d.back((j - 1) as nat));
    if i < j - 1 {
        lemma_back_descends(d, i, (j - 1) as nat);
    }
}

/// Going back by different numbers of days reaches different days.
pub proof fn lemma_back_is_injective(d: Day, i: nat, j: nat)
    requires
        d.back(i) == d.back(j),
    ensures
        i == j,
{
    if i < j {
        lemma_back_descends(d, i, j);
    } else if j < i {
        lemma_back_descends(d, j, i);
    }
}

/// Going back from a day of the calendar stays on the calendar, and never
/// reaches a later year.
pub proof fn lemma_back_on_calendar(d: Day, n: nat)
    requires
        d.on_calendar(),
    ensures
        d.back(n).on_calendar(),
        d.year - n <= d.back(n).year <= d.year,
    decreases n,
{
    if n > 0 {
        lemma_back_on_calendar(d, (n - 1) as nat);
        lemma_prev_on_calendar(d.back((n - 1) as nat));
    }
}

/// A digit's character has the digit as its value, and only a digit's
/// character has a value.
pub proof fn lemma_digit_round_trip(n: int, c: char)
    ensures
        0 <= n <= 9 ==> digit_value(digit_char(n)) == Some(n),
        digit_value(c) matches Some(v) ==> 0 <= v <= 9 && digit_char(v) == c,
{
}

/// Text padded to `width` digits has `width` characters.
pub proof fn lemma_zero_padded_len(value: int, width: nat)
    ensures
        zero_padded(value, width).len() == width,
    decreases width,
{
    if width > 0 {
        lemma_zero_padded_len(value / 10, (width - 1) as nat);
    }
}

/// The ten characters of the text of a day in the years 0 to 9999.
pub open spec fn plain_text(d: Day) -> Seq<char> {
    seq![
        digit_char(d.year / 10 / 10 / 10 % 10),
        digit_char(d.year / 10 / 10 % 10),
        digit_char(d.year / 10 % 10),
        digit_char(d.year % 10),
        '-',
        digit_char(d.month / 10 % 10),
        digit_char(d.month % 10),
        '-',
        digit_char(d.day / 10 % 10),
        digit_char(d.day % 10),
    ]
}

/// In the years 0 to 9999 a day's text is four digits, two digits and two
/// digits with hyphens between them; in other years it is longer.
pub proof fn lemma_iso_text_shape(d: Day)
    requires
        d.wf(),
    ensures
        0 <= d.year <= 9999 ==> iso_text(d) == plain_text(d),
        !(0 <= d.year <= 9999) ==> iso_text(d).len() > 10,
{
    lemma_zero_padded_len(d.year, year_width(d.year));
    lemma_zero_padded_len(-d.year, year_width(-d.year));
    lemma_zero_padded_len(d.month, 2);
    lemma_zero_padded_len(d.day, 2);
    if 0 <= d.year <= 9999 {
        reveal_with_fuel(zero_padded, 5);
        let y = zero_padded(d.year, 4);
        let m = zero_padded(d.month, 2);
        let dd = zero_padded(d.day, 2);
        assert(y =~= seq![
            digit_char(d.year / 10 / 10 / 10 % 10),
            digit_char(d.year / 10 / 10 % 10),
            digit_char(d.year / 10 % 10),
            digit_char(d.year % 10),
        ]);
        assert(m =~= seq![digit_char(d.month / 10 % 10), digit_char(d.month % 10)]);
        assert(dd =~= seq![digit_char(d.day / 10 % 10), digit_char(d.day % 10)]);
        assert(iso_text(d) =~= plain_text(d));
    }
}

/// Splitting off the last decimal digit.
proof fn lemma_last_digit(rest: int, last: int)
    requires
        0 <= last <= 9,
    ensures
        (10 * rest + last) / 10 == rest,
        (10 * rest + last) % 10 == last,
{
}

/// A name whose first ten characters give a day starts with that day's text.
pub proof fn lemma_prefix_is_text(s: Seq<char>, d: Day)
    requires
        date_prefix(s) == Some(d),
    ensures
        0 <= d.year <= 9999,
        d.wf(),
        s.subrange(0, 10) == iso_text(d),
{
    let y0 = digit_value(s[0])->0;
    let y1 = digit_value(s[1])->0;
    let y2 = digit_value(s[2])->0;
    let y3 = digit_value(s[3])->0;
    let m0 = digit_value(s[5])->0;
    let m1 = digit_value(s[6])->0;
    let d0 = digit_value(s[8])->0;
    let d1 = digit_value(s[9])->0;
    lemma_digit_round_trip(0, s[0]);
    lemma_digit_round_trip(0, s[1]);
    lemma_digit_round_trip(0, s[2]);
    lemma_digit_round_trip(0, s[3]);
    lemma_digit_round_trip(0, s[5]);
    lemma_digit_round_trip(0, s[6]);
    lemma_digit_round_trip(0, s[8]);
    lemma_digit_round_trip(0, s[9]);
    assert(d.year == 1000 * y0 + 100 * y1 + 10 * y2 + y3);
    assert(d.month == 10 * m0 + m1);
    assert(d.day == 10 * d0 + d1);
    lemma_last_digit(100 * y0 + 10 * y1 + y2, y3);
    lemma_last_digit(10 * y0 + y1, y2);
    lemma_last_digit(y0, y1);
    lemma_last_digit(0, y0);
    lemma_last_digit(m0, m1);
    lemma_last_digit(0, m0);
    lemma_last_digit(d0, d1);
    lemma_last_digit(0, d0);
    let text = plain_text(d);
    let head = s.subrange(0, 10);
    assert(text[0] == s[0] && text[1] == s[1] && text[2] == s[2] && text[3] == s[3]);
    assert(text[4] == s[4] && text[5] == s[5] && text[6] == s[6] && text[7] == s[7]);
    assert(text[8] == s[8] && text[9] == s[9]);
    assert(head =~= text);
    lemma_iso_text_shape(d);
}

/// A name that starts with the text of a day gives that day.
pub proof fn lemma_text_is_prefix(s: Seq<char>, d: Day)
    requires
        d.wf(),
        s.len() >= 10,
        s.subrange(0, 10) == iso_text(d),
    ensures
        date_prefix(s) == Some(d),
{
    lemma_iso_text_shape(d);
    let head = s.subrange(0, 10);
    assert(head.len() == 10);
    let text = plain_text(d);
    assert(forall|i: int| 0 <= i < 10 ==> s[i] == #[trigger] head[i]);
    assert(s[0] == text[0] && s[1] == text[1] && s[2] == text[2] && s[3] == text[3]);
    assert(s[4] == text[4] && s[5] == text[5] && s[6] == text[6] && s[7] == text[7]);
    assert(s[8] == text[8] && s[9] == text[9]);
    lemma_digit_round_trip(d.year / 10 / 10 / 10 % 10, '0');
    lemma_digit_round_trip(d.year / 10 / 10 % 10, '0');
    lemma_digit_round_trip(d.year / 10 % 10, '0');
    lemma_digit_round_trip(d.year % 10, '0');
    lemma_digit_round_trip(d.month / 10 % 10, '0');
    lemma_digit_round_trip(d.month % 10, '0');
    lemma_digit_round_trip(d.day / 10 % 10, '0');
    lemma_digit_round_trip(d.day % 10, '0');
    let y = d.year;
    assert(y == 10 * (y / 10) + y % 10);
    assert(y / 10 == 10 * (y / 10 / 10) + y / 10 % 10);
    assert(y / 10 / 10 == 10 * (y / 10 / 10 / 10) + y / 10 / 10 % 10);
    assert(y / 10 / 10 / 10 == y / 10 / 10 / 10 % 10);
    assert(d.month == 10 * (d.month / 10 % 10) + d.month % 10);
    assert(d.day == 10 * (d.day / 10 % 10) + d.day % 10);
}

} // verus!
