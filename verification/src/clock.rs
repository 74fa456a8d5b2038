//! The current time as text, on the clock of Beijing.

use vstd::prelude::*;

verus! {

/// What Beijing is ahead of UTC, in seconds.
pub const BEIJING_OFFSET: i32 = 28_800;

/// The last second that the calendar of `chrono` reaches, counted from the
/// start of 1970 in UTC.
pub const LAST_SECOND: i64 = 8_210_266_876_799;

/// The days from the start of year 0 to the start of 1970.
pub const EPOCH_DAY: i64 = 719_528;

/// A moment as a calendar and a clock on the wall show it.
pub ghost struct Stamp {
    pub year: int,
    pub month: int,
    pub day: int,
    pub hour: int,
    pub minute: int,
    pub second: int,
}

/// Whether a year has a 29 February in the Gregorian calendar.
pub open spec fn is_leap(year: int) -> bool {
    year % 4 == 0 && (year % 100 != 0 || year % 400 == 0)
}

/// The days in a year.
pub open spec fn days_in_year(year: int) -> int {
    if is_leap(year) {
        366
    } else {
        365
    }
}

/// The days in a month.
pub open spec fn days_in_month(year: int, month: int) -> int {
    if month == 2 {
        if is_leap(year) {
            29
        } else {
            28
        }
    } else if month == 4 || month == 6 || month == 9 || month == 11 {
        30
    } else {
        31
    }
}

/// The days from the start of year 0 to the start of `year`: 365 for each year
/// between, and one more for each leap year among them.
pub open spec fn days_before_year(year: int) -> int {
    365 * year + (year + 3) / 4 - (year + 99) / 100 + (year + 399) / 400
}

/// The days from the start of a year to the start of one of its months.
pub open spec fn days_before_month(year: int, month: int) -> int
    decreases month,
{
    if month <= 1 {
        0
    } else {
        days_before_month(year, month - 1) + days_in_month(year, month - 1)
    }
}

impl Stamp {
    /// Whether the fields name a moment in year 0 or later.
    pub open spec fn valid(self) -> bool {
        &&& 0 <= self.year
        &&& 1 <= self.month <= 12
        &&& 1 <= self.day <= days_in_month(self.year, self.month)
        &&& 0 <= self.hour < 24
        &&& 0 <= self.minute < 60
        &&& 0 <= self.second < 60
    }

    /// The days from the start of year 0 to the day named.
    pub open spec fn day_number(self) -> int {
        days_before_year(self.year) + days_before_month(self.year, self.month) + self.day - 1
    }

    /// The seconds from the start of 1970 to the moment named.
    pub open spec fn seconds(self) -> int {
        (self.day_number() - EPOCH_DAY) * 86_400 + self.hour * 3_600 + self.minute * 60
            + self.second
    }

    /// The moment as `YYYY-MM-DD HH:MM:SS`.
    pub open spec fn text(self) -> Seq<char> {
        year_text(self.year) + seq!['-'] + two_digits(self.month) + seq!['-'] + two_digits(self.day)
            + seq![' '] + two_digits(self.hour) + seq![':'] + two_digits(self.minute) + seq![':']
            + two_digits(self.second)
    }
}

/// The decimal digit of `n`, from 0 to 9.
pub open spec fn digit(n: int) -> char {
    (48 + n) as char
}

/// `n` in two decimal digits.
pub open spec fn two_digits(n: int) -> Seq<char> {
    seq![digit(n / 10 % 10), digit(n % 10)]
}

/// `n` in decimal digits, as many as it takes.
pub open spec fn decimal(n: int) -> Seq<char>
    decreases n,
{
    if n < 10 {
        seq![digit(n)]
    } else {
        decimal(n / 10).push(digit(n % 10))
    }
}

/// A year in four digits, or behind a plus sign where it has more.
pub open spec fn year_text(year: int) -> Seq<char> {
    if year <= 9999 {
        two_digits(year / 100) + two_digits(year)
    } else {
        seq!['+'] + decimal(year)
    }
}

/// The moment that lies `seconds` after the start of 1970.
pub open spec fn stamp_at(seconds: int) -> Stamp {
    choose|s: Stamp| s.valid() && #[trigger] s.seconds() == seconds
}

/// The text of the moment that lies `utc_seconds` after the start of 1970 in
/// UTC, on a clock that is `offset` seconds ahead of UTC.
pub open spec fn time_text(utc_seconds: int, offset: int) -> Seq<char> {
    stamp_at(utc_seconds + offset).text()
}

/// Whether a text has the form `YYYY-MM-DD HH:MM:SS`: digits, and the five
/// separators at their places.
pub open spec fn is_time_form(text: Seq<char>) -> bool {
    &&& text.len() == 19
    &&& text[4] == '-' && text[7] == '-' && text[10] == ' ' && text[13] == ':' && text[16] == ':'
    &&& forall|i: int|
        0 <= i < 19 && i != 4 && i != 7 && i != 10 && i != 13 && i != 16 ==> '0' <= #[trigger] text[i]
            <= '9'
}

/// Whether the clock was asked and showed `utc_seconds`.
pub closed spec fn clock_showed(utc_seconds: i64) -> bool {
    call_ensures(utc_now, (), utc_seconds)
}

/// Whether a text is the time in Beijing at a moment that the clock showed.
pub open spec fn is_beijing_time(text: Seq<char>) -> bool {
    exists|utc_seconds: i64| #[trigger]
        clock_showed(utc_seconds) && 0 <= utc_seconds <= LAST_SECOND && text == time_text(
            utc_seconds as int,
            BEIJING_OFFSET as int,
        )
}

/// The start of a year comes one year's days after the start of the year before.
pub proof fn law_years_add_up(year: int)
    requires
        0 <= year,
    ensures
        days_before_year(year + 1) == days_before_year(year) + days_in_year(year),
{
    assert((year + 4) / 4 - (year + 3) / 4 == (if year % 4 == 0 { 1int } else { 0 }));
    assert((year + 100) / 100 - (year + 99) / 100 == (if year % 100 == 0 { 1int } else { 0 }));
    assert((year + 400) / 400 - (year + 399) / 400 == (if year % 400 == 0 { 1int } else { 0 }));
    assert(year % 100 == 0 ==> year % 4 == 0);
    assert(year % 400 == 0 ==> year % 100 == 0);
}

/// Years start in order.
proof fn lemma_years_in_order(a: int, b: int)
    requires
        0 <= a <= b,
    ensures
        days_before_year(a) <= days_before_year(b),
    decreases b - a,
{
    if a < b {
        lemma_years_in_order(a, b - 1);
        law_years_add_up(b - 1);
    }
}

/// The months of a year add up to its days.
proof fn lemma_months_fill_year(year: int)
    ensures
        days_before_month(year, 12) + days_in_month(year, 12) == days_in_year(year),
{
    reveal_with_fuel(days_before_month, 13);
}

/// A month ends before a later one of the same year starts.
proof fn lemma_months_in_order(year: int, a: int, b: int)
    requires
        1 <= a < b,
    ensures
        days_before_month(year, a) + days_in_month(year, a) <= days_before_month(year, b),
    decreases b - a,
{
    if a < b - 1 {
        lemma_months_in_order(year, a, b - 1);
    }
}

/// A month starts at or after its year, and ends at or before the end of it.
proof fn lemma_month_within_year(year: int, month: int)
    requires
        1 <= month <= 12,
    ensures
        0 <= days_before_month(year, month),
        days_before_month(year, month) + days_in_month(year, month) <= days_in_year(year),
{
    lemma_months_fill_year(year);
    if month < 12 {
        lemma_months_in_order(year, month, 12);
    }
    if month > 1 {
        lemma_months_in_order(year, 1, month);
    }
}

/// A day of an earlier year has a smaller number.
proof fn lemma_earlier_year(a: Stamp, b: Stamp)
    requires
        a.valid(),
        b.valid(),
        a.year < b.year,
    ensures
        a.day_number() < b.day_number(),
{
    lemma_month_within_year(a.year, a.month);
    lemma_month_within_year(b.year, b.month);
    law_years_add_up(a.year);
    lemma_years_in_order(a.year + 1, b.year);
}

/// Two days with one number are the same day.
proof fn lemma_same_day(a: Stamp, b: Stamp)
    requires
        a.valid(),
        b.valid(),
        a.day_number() == b.day_number(),
    ensures
        a.year == b.year,
        a.month == b.month,
        a.day == b.day,
{
    if a.year < b.year {
        lemma_earlier_year(a, b);
    } else if b.year < a.year {
        lemma_earlier_year(b, a);
    } else if a.month < b.month {
        lemma_months_in_order(a.year, a.month, b.month);
    } else if b.month < a.month {
        lemma_months_in_order(a.year, b.month, a.month);
    }
}

/// Every day from the start of year 0 on has a date.
proof fn lemma_date_of(number: int) -> (s: Stamp)
    requires
        0 <= number,
    ensures
        s.valid(),
        s.day_number() == number,
    decreases number,
{
    if number == 0 {
        Stamp { year: 0, month: 1, day: 1, hour: 0, minute: 0, second: 0 }
    } else {
        let p = lemma_date_of(number - 1);
        if p.day < days_in_month(p.year, p.month) {
            Stamp { day: p.day + 1, ..p }
        } else if p.month < 12 {
            Stamp { month: p.month + 1, day: 1, ..p }
        } else {
            lemma_months_fill_year(p.year);
            law_years_add_up(p.year);
            Stamp { year: p.year + 1, month: 1, day: 1, ..p }
        }
    }
}

/// A second is split into a day and a time of day in one way only.
proof fn lemma_one_split(d1: int, h1: int, m1: int, s1: int, d2: int, h2: int, m2: int, s2: int)
    requires
        0 <= h1 < 24,
        0 <= m1 < 60,
        0 <= s1 < 60,
        0 <= h2 < 24,
        0 <= m2 < 60,
        0 <= s2 < 60,
        d1 * 86_400 + h1 * 3_600 + m1 * 60 + s1 == d2 * 86_400 + h2 * 3_600 + m2 * 60 + s2,
    ensures
        d1 == d2,
        h1 == h2,
        m1 == m2,
        s1 == s2,
{
    assert(d1 == d2);
    assert(h1 == h2);
    assert(m1 == m2);
}

/// Every second from the start of year 0 on is one moment of the calendar.
pub proof fn law_every_second_has_a_stamp(seconds: int)
    requires
        -EPOCH_DAY * 86_400 <= seconds,
    ensures
        stamp_at(seconds).valid(),
        stamp_at(seconds).seconds() == seconds,
{
    let date = lemma_date_of(seconds / 86_400 + EPOCH_DAY);
    let rest = seconds % 86_400;
    let s = Stamp { hour: rest / 3_600, minute: rest / 60 % 60, second: rest % 60, ..date };
    assert(s.day_number() == date.day_number());
    assert(s.valid() && s.seconds() == seconds);
}

/// No two moments of the calendar are the same second, so the moment at the
/// second of `s` is `s`.
pub proof fn law_one_stamp_per_second(s: Stamp)
    requires
        s.valid(),
    ensures
        stamp_at(s.seconds()) == s,
{
    let t = stamp_at(s.seconds());
    assert(t.valid() && t.seconds() == s.seconds());
    lemma_one_split(
        s.day_number() - EPOCH_DAY,
        s.hour,
        s.minute,
        s.second,
        t.day_number() - EPOCH_DAY,
        t.hour,
        t.minute,
        t.second,
    );
    lemma_same_day(s, t);
}

/// Two digits are two, and digits.
proof fn lemma_two_digits(n: int)
    requires
        0 <= n,
    ensures
        two_digits(n).len() == 2,
        '0' <= two_digits(n)[0] <= '9',
        '0' <= two_digits(n)[1] <= '9',
        two_digits(n)[0] as int == 48 + n / 10 % 10,
        two_digits(n)[1] as int == 48 + n % 10,
{
}

/// The characters of a moment in a year of up to four digits, one by one.
proof fn lemma_text_places(s: Stamp)
    requires
        s.year <= 9999,
    ensures
        s.text() == seq![
            two_digits(s.year / 100)[0], two_digits(s.year / 100)[1],
            two_digits(s.year)[0], two_digits(s.year)[1], '-',
            two_digits(s.month)[0], two_digits(s.month)[1], '-',
            two_digits(s.day)[0], two_digits(s.day)[1], ' ',
            two_digits(s.hour)[0], two_digits(s.hour)[1], ':',
            two_digits(s.minute)[0], two_digits(s.minute)[1], ':',
            two_digits(s.second)[0], two_digits(s.second)[1],
        ],
{
    let (c, y) = (two_digits(s.year / 100), two_digits(s.year));
    let (m, d) = (two_digits(s.month), two_digits(s.day));
    let (h, n, e) = (two_digits(s.hour), two_digits(s.minute), two_digits(s.second));
    assert(s.text() =~= seq![
        c[0], c[1], y[0], y[1], '-', m[0], m[1], '-', d[0], d[1], ' ',
        h[0], h[1], ':', n[0], n[1], ':', e[0], e[1],
    ]);
}

/// The moments of years of up to four digits read `YYYY-MM-DD HH:MM:SS`.
pub proof fn law_four_digit_years_have_time_form(s: Stamp)
    requires
        s.valid(),
        s.year <= 9999,
    ensures
        is_time_form(s.text()),
{
    lemma_two_digits(s.year / 100);
    lemma_two_digits(s.year);
    lemma_two_digits(s.month);
    lemma_two_digits(s.day);
    lemma_two_digits(s.hour);
    lemma_two_digits(s.minute);
    lemma_two_digits(s.second);
    lemma_text_places(s);
}

/// The time in Beijing reads `YYYY-MM-DD HH:MM:SS`, unless a plus sign before
/// it says that the year has more than four digits.
pub proof fn law_beijing_time_has_time_form(text: Seq<char>)
    requires
        is_beijing_time(text),
        text[0] != '+',
    ensures
        is_time_form(text),
{
    let utc_seconds = choose|utc_seconds: i64| #[trigger]
        clock_showed(utc_seconds) && 0 <= utc_seconds <= LAST_SECOND && text == time_text(
            utc_seconds as int,
            BEIJING_OFFSET as int,
        );
    let s = stamp_at(utc_seconds + BEIJING_OFFSET);
    law_every_second_has_a_stamp(utc_seconds + BEIJING_OFFSET);
    if s.year <= 9999 {
        law_four_digit_years_have_time_form(s);
    } else {
        assert(s.text()[0] == year_text(s.year)[0]);
    }
}

/// Seconds count from the start of 1970, a day has 86,400 of them, and each day is
/// followed by the next of its month, or else by the first of the next month, or else
/// by the first of the next year.
pub proof fn law_days_follow(s: Stamp)
    requires
        s.valid(),
    ensures
        (Stamp { year: 1970, month: 1, day: 1, hour: 0, minute: 0, second: 0 }).seconds() == 0,
        s.seconds() == (Stamp { hour: 0, minute: 0, second: 0, ..s }).seconds() + s.hour * 3_600
            + s.minute * 60 + s.second,
        (Stamp { day: s.day + 1, ..s }).seconds() == s.seconds() + 86_400,
        s.month < 12 && s.day == days_in_month(s.year, s.month) ==> (Stamp {
            month: s.month + 1,
            day: 1,
            ..s
        }).seconds() == s.seconds() + 86_400,
        s.month == 12 && s.day == 31 ==> (Stamp {
            year: s.year + 1,
            month: 1,
            day: 1,
            ..s
        }).seconds() == s.seconds() + 86_400,
        s.month == 1 || s.month == 3 || s.month == 5 || s.month == 7 || s.month == 8 || s.month
            == 10 || s.month == 12 ==> days_in_month(s.year, s.month) == 31,
        s.month == 4 || s.month == 6 || s.month == 9 || s.month == 11 ==> days_in_month(
            s.year,
            s.month,
        ) == 30,
        s.month == 2 ==> days_in_month(s.year, s.month) == (if s.year % 400 == 0 || (s.year % 4 == 0
            && s.year % 100 != 0) {
            29int
        } else {
            28int
        }),
{
    law_years_add_up(s.year);
    lemma_months_fill_year(s.year);
}

/// The text of a moment in a year of up to four digits has the digits of its fields in
/// their places.
#[verifier::spinoff_prover]
proof fn lemma_text_reads_out(s: Stamp)
    requires
        0 <= s.year <= 9999,
        1 <= s.month <= 12,
        1 <= s.day <= 31,
        0 <= s.hour < 24,
        0 <= s.minute < 60,
        0 <= s.second < 60,
    ensures
        s.text().len() == 19,
        s.text()[0] as int == 48 + s.year / 1000,
        s.text()[1] as int == 48 + s.year / 100 % 10,
        s.text()[2] as int == 48 + s.year / 10 % 10,
        s.text()[3] as int == 48 + s.year % 10,
        s.text()[4] == '-',
        s.text()[5] as int == 48 + s.month / 10,
        s.text()[6] as int == 48 + s.month % 10,
        s.text()[7] == '-',
        s.text()[8] as int == 48 + s.day / 10,
        s.text()[9] as int == 48 + s.day % 10,
        s.text()[10] == ' ',
        s.text()[11] as int == 48 + s.hour / 10,
        s.text()[12] as int == 48 + s.hour % 10,
        s.text()[13] == ':',
        s.text()[14] as int == 48 + s.minute / 10,
        s.text()[15] as int == 48 + s.minute % 10,
        s.text()[16] == ':',
        s.text()[17] as int == 48 + s.second / 10,
        s.text()[18] as int == 48 + s.second % 10,
{
    lemma_two_digits(s.year / 100);
    lemma_two_digits(s.year);
    lemma_two_digits(s.month);
    lemma_two_digits(s.day);
    lemma_two_digits(s.hour);
    lemma_two_digits(s.minute);
    lemma_two_digits(s.second);
    lemma_text_places(s);
}

/// The time in Beijing is eight hours ahead of UTC, and its text has the digits of
/// that moment in their places.
pub proof fn law_beijing_time_reads_out(utc_seconds: i64, text: String, s: Stamp)
    requires
        call_ensures(beijing_time, (utc_seconds,), text),
        s.valid(),
        s.seconds() == utc_seconds + 8 * 3_600,
        s.year <= 9999,
    ensures
        text@.len() == 19,
        text@[0] as int == 48 + s.year / 1000,
        text@[1] as int == 48 + s.year / 100 % 10,
        text@[2] as int == 48 + s.year / 10 % 10,
        text@[3] as int == 48 + s.year % 10,
        text@[4] == '-',
        text@[5] as int == 48 + s.month / 10,
        text@[6] as int == 48 + s.month % 10,
        text@[7] == '-',
        text@[8] as int == 48 + s.day / 10,
        text@[9] as int == 48 + s.day % 10,
        text@[10] == ' ',
        text@[11] as int == 48 + s.hour / 10,
        text@[12] as int == 48 + s.hour % 10,
        text@[13] == ':',
        text@[14] as int == 48 + s.minute / 10,
        text@[15] as int == 48 + s.minute % 10,
        text@[16] == ':',
        text@[17] as int == 48 + s.second / 10,
        text@[18] as int == 48 + s.second % 10,
{
    law_one_stamp_per_second(s);
    assert(text@ == s.text());
    lemma_text_reads_out(s);
}

/// The digits of a number: the last is its remainder by ten, and the ones before it
/// are those of its quotient.
pub proof fn law_decimal_digits(n: int)
    requires
        0 <= n,
    ensures
        decimal(n).len() > 0,
        decimal(n).last() as int == 48 + n % 10,
        n < 10 ==> decimal(n).len() == 1,
        n >= 10 ==> decimal(n).drop_last() == decimal(n / 10),
{
    if n >= 10 {
        assert(decimal(n).drop_last() =~= decimal(n / 10));
    }
}

/// The same of the years from 10000 on: a plus sign, the digits of the year, and
/// behind them the fifteen places of the rest.
#[verifier::spinoff_prover]
pub proof fn law_beijing_time_reads_out_late(utc_seconds: i64, text: String, s: Stamp)
    requires
        call_ensures(beijing_time, (utc_seconds,), text),
        s.valid(),
        s.seconds() == utc_seconds + 8 * 3_600,
        s.year > 9999,
    ensures
        ({
            let rest = text@.len() - 15;
            &&& rest > 1
            &&& text@[0] == '+'
            &&& text@.subrange(1, rest) == decimal(s.year)
            &&& text@[rest] == '-'
            &&& text@[rest + 1] as int == 48 + s.month / 10
            &&& text@[rest + 2] as int == 48 + s.month % 10
            &&& text@[rest + 3] == '-'
            &&& text@[rest + 4] as int == 48 + s.day / 10
            &&& text@[rest + 5] as int == 48 + s.day % 10
            &&& text@[rest + 6] == ' '
            &&& text@[rest + 7] as int == 48 + s.hour / 10
            &&& text@[rest + 8] as int == 48 + s.hour % 10
            &&& text@[rest + 9] == ':'
            &&& text@[rest + 10] as int == 48 + s.minute / 10
            &&& text@[rest + 11] as int == 48 + s.minute % 10
            &&& text@[rest + 12] == ':'
            &&& text@[rest + 13] as int == 48 + s.second / 10
            &&& text@[rest + 14] as int == 48 + s.second % 10
        }),
{
    law_one_stamp_per_second(s);
    law_decimal_digits(s.year);
    let (m, d) = (two_digits(s.month), two_digits(s.day));
    let (h, n, e) = (two_digits(s.hour), two_digits(s.minute), two_digits(s.second));
    let year = decimal(s.year);
    let tail = seq![
        '-', m[0], m[1], '-', d[0], d[1], ' ', h[0], h[1], ':', n[0], n[1], ':', e[0], e[1],
    ];
    assert(text@ =~= seq!['+'] + year + tail);
    let rest = text@.len() - 15;
    assert(text@.subrange(1, rest) =~= year);
    assert forall|i: int| 0 <= i < 15 implies text@[rest + i] == #[trigger] tail[i] by {}
    assert(text@[rest] == tail[0] && text@[rest + 1] == tail[1] && text@[rest + 2] == tail[2]);
    assert(text@[rest + 3] == tail[3] && text@[rest + 4] == tail[4] && text@[rest + 5] == tail[5]);
    assert(text@[rest + 6] == tail[6] && text@[rest + 7] == tail[7] && text@[rest + 8] == tail[8]);
    assert(text@[rest + 9] == tail[9] && text@[rest + 10] == tail[10]);
    assert(text@[rest + 11] == tail[11] && text@[rest + 12] == tail[12]);
    assert(text@[rest + 13] == tail[13] && text@[rest + 14] == tail[14]);
}

/// A time in Beijing is the text of the moment eight hours after one that the clock
/// showed when asked for UTC. That one is returned.
proof fn law_beijing_time_is_what_the_clock_showed(text: Seq<char>) -> (utc_seconds: i64)
    requires
        is_beijing_time(text),
    ensures
        call_ensures(utc_now, (), utc_seconds),
        stamp_at(utc_seconds + 8 * 3_600).seconds() == utc_seconds + 8 * 3_600,
        text == stamp_at(utc_seconds + 8 * 3_600).text(),
{
    let utc_seconds = choose|utc_seconds: i64| #[trigger]
        clock_showed(utc_seconds) && 0 <= utc_seconds <= LAST_SECOND && text == time_text(
            utc_seconds as int,
            BEIJING_OFFSET as int,
        );
    law_every_second_has_a_stamp(utc_seconds + BEIJING_OFFSET);
    utc_seconds
}

/// The seconds since the start of 1970 in UTC.
///
/// Calls `chrono::Utc::now` and takes the `timestamp` of what it gives. Claimed
/// of it: the clock stands between the start of 1970 and the end of the
/// calendar. `now` panics where the system clock stands outside of these.
#[verifier::external_body]
fn utc_now() -> (utc_seconds: i64)
    ensures
        0 <= utc_seconds <= LAST_SECOND,
{
    chrono::Utc::now().timestamp()
}

/// The text of a moment on a clock that is `offset` seconds ahead of UTC.
///
/// Calls `chrono::DateTime::format` on the moment, taken from its seconds by
/// `from_timestamp` and moved to the offset by `with_timezone`. Claimed of it:
/// with the one pattern admitted here the text names the proleptic Gregorian
/// date and the time of day, each field padded with zeros, and a year past 9999
/// behind a plus sign.
#[verifier::external_body]
fn format_time(utc_seconds: i64, offset: i32, pattern: &str) -> (text: String)
    requires
        0 <= utc_seconds <= LAST_SECOND,
        -86_400 < offset < 86_400,
        pattern@ == "%Y-%m-%d %H:%M:%S"@,
    ensures
        text@ == time_text(utc_seconds as int, offset as int),
{
    let zone = chrono::FixedOffset::east_opt(offset).unwrap();
    let moment = chrono::DateTime::from_timestamp(utc_seconds, 0).unwrap();
    moment.with_timezone(&zone).format(pattern).to_string()
}

/// The time in Beijing at a moment given in seconds since the start of 1970 in
/// UTC.
pub fn beijing_time(utc_seconds: i64) -> (text: String)
    requires
        0 <= utc_seconds <= LAST_SECOND,
    ensures
        text@ == time_text(utc_seconds as int, BEIJING_OFFSET as int),
{
    format_time(utc_seconds, BEIJING_OFFSET, "%Y-%m-%d %H:%M:%S")
}

/// The current time in Beijing, as `YYYY-MM-DD HH:MM:SS`.
pub fn get_current_time() -> (text: String)
    ensures
        is_beijing_time(text@),
        text@[0] != '+' ==> is_time_form(text@),
{
    let utc_seconds: i64 = utc_now();
    let text = beijing_time(utc_seconds);
    assert(clock_showed(utc_seconds));
    proof {
        if text@[0] != '+' {
            law_beijing_time_has_time_form(text@);
        }
    }
    text
}

} // verus!
