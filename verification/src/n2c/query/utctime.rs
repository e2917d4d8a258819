//! ISO-8601 UTC time stamps as (year, day of year, picoseconds of day).
use crate::text;
use vstd::prelude::*;
use vstd::string::StrSliceExecFns;

verus! {

/// Value of a decimal digit, if `c` is one.
pub open spec fn digit(c: char) -> Option<nat> {
    if '0' <= c <= '9' {
        Some((c as nat - '0' as nat) as nat)
    } else {
        None
    }
}

/// Whether every character is a decimal digit.
pub open spec fn all_digits(s: Seq<char>) -> bool {
    forall|i: int| 0 <= i < s.len() ==> digit(#[trigger] s[i]) is Some
}

/// The number that the digits of `s` write in base 10.
pub open spec fn decimal_value(s: Seq<char>) -> nat
    decreases s.len(),
{
    if s.len() == 0 {
        0
    } else {
        decimal_value(s.drop_last()) * 10 + digit(s.last())->0
    }
}

/// The digits of a number that may be written with a leading plus sign.
pub open spec fn without_plus(s: Seq<char>) -> Seq<char> {
    if s.len() > 0 && s[0] == '+' {
        s.skip(1)
    } else {
        s
    }
}

/// A `u64` in decimal, with an optional plus sign.
pub open spec fn parse_u64(s: Seq<char>) -> Option<u64> {
    let d = without_plus(s);
    if d.len() > 0 && all_digits(d) && decimal_value(d) <= u64::MAX {
        Some(decimal_value(d) as u64)
    } else {
        None
    }
}

/// The pieces of `s` between the separators.
pub open spec fn split(s: Seq<char>, sep: char) -> Seq<Seq<char>>
    decreases s.len(),
{
    if s.len() == 0 {
        seq![Seq::empty()]
    } else if s.last() == sep {
        split(s.drop_last(), sep).push(Seq::empty())
    } else {
        let pieces = split(s.drop_last(), sep);
        pieces.drop_last().push(pieces.last().push(s.last()))
    }
}

/// The pieces that are numbers, as numbers.
pub open spec fn numbers(pieces: Seq<Seq<char>>) -> Seq<u64>
    decreases pieces.len(),
{
    if pieces.len() == 0 {
        Seq::empty()
    } else {
        let init = numbers(pieces.drop_last());
        match parse_u64(pieces.last()) {
            Some(n) => init.push(n),
            None => init,
        }
    }
}

/// `s` without the `Z`s at its end.
pub open spec fn trim_z(s: Seq<char>) -> Seq<char>
    decreases s.len(),
{
    if s.len() > 0 && s.last() == 'Z' {
        trim_z(s.drop_last())
    } else {
        s
    }
}

/// Whether February of `year` has 29 days.
pub open spec fn is_leap(year: int) -> bool {
    (year % 4 == 0 && year % 100 != 0) || year % 400 == 0
}

/// Length of the month with the given number, counted from 0.
pub open spec fn month_days(month: int, leap: bool) -> int {
    if month == 1 {
        if leap {
            29
        } else {
            28
        }
    } else if month == 3 || month == 5 || month == 8 || month == 10 {
        30
    } else {
        31
    }
}

/// Days in the first `months` months of a year; a year has twelve.
pub open spec fn days_before(months: int, leap: bool) -> int
    decreases months,
{
    if months <= 0 {
        0
    } else if months > 12 {
        days_before(12, leap)
    } else {
        days_before(months - 1, leap) + month_days(months - 1, leap)
    }
}

/// Date and time of a time stamp that has both, as lists of numbers.
pub open spec fn date_and_time(s: Seq<char>) -> Option<(Seq<u64>, Seq<u64>)> {
    let halves = split(trim_z(s), 'T');
    if halves.len() != 2 {
        None
    } else {
        let date = numbers(split(halves[0], '-'));
        let time = numbers(split(halves[1], ':'));
        if date.len() < 3 || time.len() < 3 {
            None
        } else {
            Some((date, time))
        }
    }
}

/// Day of the year of a date.
pub open spec fn day_of_year(date: Seq<u64>) -> int {
    date[2] + days_before(date[1] - 1, is_leap(date[0] as int))
}

/// Picoseconds since midnight.
pub open spec fn picos_of_day(time: Seq<u64>) -> int {
    (time[0] * 3600 + time[1] * 60 + time[2]) * 1_000_000_000_000
}

/// Year, day of year and picoseconds of the day of a time stamp; the start of
/// mainnet where the text is no time stamp.
pub open spec fn utctime(s: Seq<char>) -> (int, int, int) {
    match date_and_time(s) {
        Some((date, time)) => (date[0] as int, day_of_year(date), picos_of_day(time)),
        None => (2017, 266, 0),
    }
}

/// A time stamp whose month is counted from 1 and whose parts fit 64 bits.
pub open spec fn utctime_fits(s: Seq<char>) -> bool {
    match date_and_time(s) {
        Some((date, time)) => {
            &&& date[1] >= 1
            &&& day_of_year(date) <= u64::MAX
            &&& picos_of_day(time) <= u64::MAX
        },
        None => true,
    }
}

/// There are no fewer than no days before a month.
pub proof fn lemma_days_are_not_negative(months: int, leap: bool)
    ensures
        days_before(months, leap) >= 0,
    decreases if months > 12 { 13 } else { months },
{
    if months > 12 {
        lemma_days_are_not_negative(12, leap);
    } else if months > 0 {
        lemma_days_are_not_negative(months - 1, leap);
    }
}

spec fn views(v: Seq<Vec<char>>) -> Seq<Seq<char>> {
    v.map_values(|x: Vec<char>| x@)
}

fn chars_of(s: &str) -> (r: Vec<char>)
    ensures
        r@ == s@,
{
    let n: usize = s.unicode_len();
    let mut r: Vec<char> = Vec::new();
    let mut i: usize = 0;
    while i < n
        invariant
            i <= n,
            n == s@.len(),
            r@ == s@.take(i as int),
        decreases n - i,
    {
        r.push(s.get_char(i));
        assert(r@ =~= s@.take(i + 1));
        i += 1;
    }
    assert(s@.take(n as int) =~= s@);
    r
}

fn split_at_separators(s: &Vec<char>, n: usize, sep: char) -> (r: Vec<Vec<char>>)
    requires
        n <= s.len(),
    ensures
        views(r@) == split(s@.take(n as int), sep),
{
    let mut r: Vec<Vec<char>> = Vec::new();
    let mut cur: Vec<char> = Vec::new();
    let mut i: usize = 0;
    assert(views(r@).push(cur@) =~= split(s@.take(0), sep)) by {
        assert(s@.take(0).len() == 0);
        assert(views(r@) =~= Seq::<Seq<char>>::empty());
    }
    while i < n
        invariant
            i <= n <= s.len(),
            views(r@).push(cur@) == split(s@.take(i as int), sep),
        decreases n - i,
    {
        let c: char = s[i];
        proof {
            assert(s@.take(i + 1).drop_last() =~= s@.take(i as int));
            assert(s@.take(i + 1).last() == c);
            assert(views(r@).push(cur@).drop_last() =~= views(r@));
        }
        if c == sep {
            let ghost before = r@;
            let ghost piece = cur;
            r.push(cur);
            cur = Vec::new();
            assert(views(r@) =~= views(before).push(piece@));
        } else {
            cur.push(c);
        }
        i += 1;
    }
    let ghost before = r@;
    let ghost piece = cur;
    r.push(cur);
    assert(views(r@) =~= views(before).push(piece@));
    r
}

fn number(s: &Vec<char>) -> (r: Option<u64>)
    ensures
        r == parse_u64(s@),
{
    let start: usize = if s.len() > 0 && s[0] == '+' {
        1
    } else {
        0
    };
    let ghost d = without_plus(s@);
    assert(d =~= s@.skip(start as int));
    if start == s.len() {
        return None;
    }
    let mut value: u64 = 0;
    let mut fits: bool = true;
    let mut i: usize = start;
    while i < s.len()
        invariant
            start <= i <= s.len(),
            d == s@.skip(start as int),
            d == without_plus(s@),
            all_digits(d.take(i - start)),
            fits ==> value == decimal_value(d.take(i - start)),
            !fits ==> decimal_value(d.take(i - start)) > u64::MAX,
        decreases s.len() - i,
    {
        let c: char = s[i];
        proof {
            assert(d[i - start] == c);
            assert(d.take(i + 1 - start).drop_last() =~= d.take(i - start));
            assert(d.take(i + 1 - start).last() == c);
        }
        if c < '0' || c > '9' {
            assert(digit(d[i - start]) is None);
            return None;
        }
        let v: u64 = c as u64 - '0' as u64;
        if fits {
            match value.checked_mul(10) {
                Some(m) => match m.checked_add(v) {
                    Some(sum) => {
                        value = sum;
                    },
                    None => {
                        fits = false;
                    },
                },
                None => {
                    fits = false;
                },
            }
        }
        assert(all_digits(d.take(i + 1 - start))) by {
            assert forall|j: int| 0 <= j < d.take(i + 1 - start).len() implies digit(
                #[trigger] d.take(i + 1 - start)[j],
            ) is Some by {
                if j < i - start {
                    assert(d.take(i + 1 - start)[j] == d.take(i - start)[j]);
                }
            }
        }
        i += 1;
    }
    assert(d.take(s.len() - start) =~= d);
    if fits {
        Some(value)
    } else {
        None
    }
}

fn numbers_of(pieces: &Vec<Vec<char>>) -> (r: Vec<u64>)
    ensures
        r@ == numbers(views(pieces@)),
{
    let mut r: Vec<u64> = Vec::new();
    let mut i: usize = 0;
    assert(r@ =~= numbers(views(pieces@).take(0)));
    while i < pieces.len()
        invariant
            i <= pieces.len(),
            r@ == numbers(views(pieces@).take(i as int)),
        decreases pieces.len() - i,
    {
        proof {
            assert(views(pieces@).take(i + 1).drop_last() =~= views(pieces@).take(i as int));
            assert(views(pieces@).take(i + 1).last() == pieces@[i as int]@);
        }
        if let Some(n) = number(&pieces[i]) {
            r.push(n);
        }
        i += 1;
    }
    assert(views(pieces@).take(pieces.len() as int) =~= views(pieces@));
    r
}

fn month_length(month: usize, leap: bool) -> (r: u64)
    requires
        month < 12,
    ensures
        r == month_days(month as int, leap),
{
    if month == 1 {
        if leap {
            29
        } else {
            28
        }
    } else if month == 3 || month == 5 || month == 8 || month == 10 {
        30
    } else {
        31
    }
}

/// Parses an ISO-8601 time stamp, as `parse_utctime` does; nothing if a part of it does
/// not fit 64 bits, or if its month is 0.
pub fn try_parse_utctime(s: &str) -> (r: Option<(u64, u64, u64)>)
    ensures
        r is Some <==> utctime_fits(s@),
        r matches Some(t) ==> (t.0 as int, t.1 as int, t.2 as int) == utctime(s@),
{
    let chars = chars_of(s);
    let mut n: usize = chars.len();
    assert(chars@.take(n as int) =~= chars@);
    while n > 0 && chars[n - 1] == 'Z'
        invariant
            n <= chars.len(),
            trim_z(chars@.take(n as int)) == trim_z(s@),
        decreases n,
    {
        assert(chars@.take(n as int).drop_last() =~= chars@.take(n - 1));
        n -= 1;
    }
    assert(trim_z(s@) == chars@.take(n as int));
    let halves = split_at_separators(&chars, n, 'T');
    if halves.len() != 2 {
        return Some((2017, 266, 0));
    }
    let date_pieces = split_at_separators(&halves[0], halves[0].len(), '-');
    let time_pieces = split_at_separators(&halves[1], halves[1].len(), ':');
    proof {
        assert(halves@[0]@.take(halves@[0].len() as int) =~= halves@[0]@);
        assert(halves@[1]@.take(halves@[1].len() as int) =~= halves@[1]@);
        assert(views(halves@)[0] == halves@[0]@);
        assert(views(halves@)[1] == halves@[1]@);
    }
    let date = numbers_of(&date_pieces);
    let time = numbers_of(&time_pieces);
    if date.len() < 3 || time.len() < 3 {
        return Some((2017, 266, 0));
    }
    assert(date_and_time(s@) == Some((date@, time@)));
    if date[1] == 0 {
        return None;
    }
    let year: u64 = date[0];
    let leap = (year % 4 == 0 && year % 100 != 0) || year % 400 == 0;
    let months: usize = if date[1] - 1 < 12 {
        (date[1] - 1) as usize
    } else {
        12
    };
    let mut day: u128 = date[2] as u128;
    let mut i: usize = 0;
    while i < months
        invariant
            i <= months <= 12,
            day == date@[2] + days_before(i as int, leap),
            day <= u64::MAX + 31 * i,
        decreases months - i,
    {
        day += month_length(i, leap) as u128;
        i += 1;
    }
    let seconds: u128 = time[0] as u128 * 3600 + time[1] as u128 * 60 + time[2] as u128;
    let picos: u128 = seconds * 1_000_000_000_000;
    if day > u64::MAX as u128 || picos > u64::MAX as u128 {
        return None;
    }
    Some((year, day as u64, picos as u64))
}

/// Parses an ISO-8601 time stamp such as `2022-04-01T00:00:00Z` into (year, day of
/// year, picoseconds of day).
///
/// Text that is no time stamp gives the start of mainnet.
pub fn parse_utctime(s: &str) -> (r: (u64, u64, u64))
    requires
        utctime_fits(s@),
    ensures
        (r.0 as int, r.1 as int, r.2 as int) == utctime(s@),
{
    match try_parse_utctime(s) {
        Some(t) => t,
        None => (0, 0, 0),
    }
}

// ---------------------------------------------------------------------------
// Laws
// ---------------------------------------------------------------------------

/// A year is a leap year where it is divisible by four, unless it ends a century that is not
/// divisible by four hundred.
pub proof fn lemma_leap_years(year: int)
    ensures
        year % 4 != 0 ==> !is_leap(year),
        year % 4 == 0 && year % 100 != 0 ==> is_leap(year),
        year % 400 == 0 ==> is_leap(year),
        year % 100 == 0 && year % 400 != 0 ==> !is_leap(year),
{
}

/// The months of a year follow on one another: so many days lie before each of them, and there
/// are 365 days in a year, or 366 in a leap year.
pub proof fn lemma_calendar(leap: bool)
    ensures
        ({
            let x: int = if leap {
                1
            } else {
                0
            };
            &&& days_before(0, leap) == 0
            &&& days_before(1, leap) == 31
            &&& days_before(2, leap) == 59 + x
            &&& days_before(3, leap) == 90 + x
            &&& days_before(4, leap) == 120 + x
            &&& days_before(5, leap) == 151 + x
            &&& days_before(6, leap) == 181 + x
            &&& days_before(7, leap) == 212 + x
            &&& days_before(8, leap) == 243 + x
            &&& days_before(9, leap) == 273 + x
            &&& days_before(10, leap) == 304 + x
            &&& days_before(11, leap) == 334 + x
            &&& days_before(12, leap) == 365 + x
        }),
{
    reveal_with_fuel(days_before, 13);
}

/// The day of the year grows by one from one day to the next, and starts with 1.
pub proof fn lemma_days_count_up(date: Seq<u64>, next: Seq<u64>)
    requires
        date.len() >= 3,
        next.len() >= 3,
        next[0] == date[0],
        next[1] == date[1],
        next[2] == date[2] + 1,
    ensures
        day_of_year(next) == day_of_year(date) + 1,
        date[1] == 1 ==> day_of_year(date) == date[2],
{
    lemma_calendar(true);
    lemma_calendar(false);
}

/// A second is a million million picoseconds, a minute sixty seconds, and an hour sixty
/// minutes.
pub proof fn lemma_picoseconds(time: Seq<u64>)
    requires
        time.len() >= 3,
    ensures
        picos_of_day(time) == 1_000_000_000_000 * time[2] + 60_000_000_000_000 * time[1]
            + 3_600_000_000_000_000 * time[0],
{
}

proof fn lemma_split_joined(a: Seq<char>, b: Seq<char>, sep: char)
    ensures
        split(a + seq![sep] + b, sep) == split(a, sep) + split(b, sep),
        split(b, sep).len() > 0,
    decreases b.len(),
{
    let s = a + seq![sep] + b;
    if b.len() == 0 {
        assert(s.drop_last() =~= a);
        assert(s.last() == sep);
        assert(split(s, sep) =~= split(a, sep) + split(b, sep));
    } else {
        let init = b.drop_last();
        lemma_split_joined(a, init, sep);
        assert(s.drop_last() =~= a + seq![sep] + init);
        assert(s.last() == b.last());
        assert(split(s, sep) =~= split(a, sep) + split(b, sep));
    }
}

proof fn lemma_split_nowhere(s: Seq<char>, sep: char)
    requires
        forall|i: int| 0 <= i < s.len() ==> #[trigger] s[i] != sep,
    ensures
        split(s, sep) == seq![s],
    decreases s.len(),
{
    if s.len() > 0 {
        assert(s[s.len() - 1] != sep);
        assert forall|i: int| 0 <= i < s.len() - 1 implies #[trigger] s.drop_last()[i] != sep by {
            assert(s[i] != sep);
        }
        lemma_split_nowhere(s.drop_last(), sep);
        assert(s.drop_last().push(s.last()) =~= s);
        assert(split(s, sep) =~= seq![s]);
    } else {
        assert(s =~= Seq::empty());
        assert(split(s, sep) =~= seq![s]);
    }
}

/// Whether this is a number of at least one digit, without a sign, that fits 64 bits.
pub open spec fn is_number(s: Seq<char>, n: u64) -> bool {
    &&& s.len() > 0
    &&& forall|i: int| 0 <= i < s.len() ==> '0' <= (#[trigger] s[i]) <= '9'
    &&& decimal_value(s) == n
}

proof fn lemma_number_is_parsed(s: Seq<char>, n: u64)
    requires
        is_number(s, n),
    ensures
        parse_u64(s) == Some(n),
{
    assert(s[0] != '+');
    assert(all_digits(s));
}

proof fn lemma_three_numbers(
    a: Seq<char>,
    b: Seq<char>,
    c: Seq<char>,
    x: u64,
    y: u64,
    z: u64,
    sep: char,
)
    requires
        is_number(a, x),
        is_number(b, y),
        is_number(c, z),
        sep == '-' || sep == ':',
    ensures
        numbers(split(a + seq![sep] + (b + seq![sep] + c), sep)) == seq![x, y, z],
{
    lemma_split_joined(a, b + seq![sep] + c, sep);
    lemma_split_joined(b, c, sep);
    lemma_split_nowhere(a, sep);
    lemma_split_nowhere(b, sep);
    lemma_split_nowhere(c, sep);
    lemma_number_is_parsed(a, x);
    lemma_number_is_parsed(b, y);
    lemma_number_is_parsed(c, z);
    let p = seq![a] + (seq![b] + seq![c]);
    assert(split(a + seq![sep] + (b + seq![sep] + c), sep) == p);
    reveal_with_fuel(numbers, 4);
    assert(p.drop_last() =~= seq![a, b]);
    assert(p.drop_last().drop_last() =~= seq![a]);
    assert(p.drop_last().drop_last().drop_last() =~= Seq::empty());
    assert(numbers(p) =~= seq![x, y, z]);
}

proof fn lemma_no_letter(s: Seq<char>, t: Seq<char>, sep: char)
    requires
        forall|i: int| 0 <= i < s.len() ==> #[trigger] s[i] != 'T' && s[i] != 'Z',
        forall|i: int| 0 <= i < t.len() ==> #[trigger] t[i] != 'T' && t[i] != 'Z',
        sep == '-' || sep == ':',
    ensures
        forall|i: int|
            0 <= i < (s + seq![sep] + t).len() ==> #[trigger] (s + seq![sep] + t)[i] != 'T' && (s
                + seq![sep] + t)[i] != 'Z',
{
}

/// A time stamp `year-month-dayThour:minute:secondZ` is read as its year, its day of the year
/// and the picoseconds of its day.
pub proof fn lemma_time_stamp_is_read(
    y: Seq<char>,
    m: Seq<char>,
    d: Seq<char>,
    h: Seq<char>,
    i: Seq<char>,
    s: Seq<char>,
    date: (u64, u64, u64),
    time: (u64, u64, u64),
)
    requires
        is_number(y, date.0) && is_number(m, date.1) && is_number(d, date.2),
        is_number(h, time.0) && is_number(i, time.1) && is_number(s, time.2),
    ensures
        utctime(
            y + seq!['-'] + (m + seq!['-'] + d) + seq!['T'] + (h + seq![':'] + (i + seq![':'] + s))
                + seq!['Z'],
        ) == (
            date.0 as int,
            date.2 + days_before(date.1 - 1, is_leap(date.0 as int)),
            1_000_000_000_000 * (3600 * time.0 + 60 * time.1 + time.2),
        ),
{
    let a = y + seq!['-'] + (m + seq!['-'] + d);
    let b = h + seq![':'] + (i + seq![':'] + s);
    let all = a + seq!['T'] + b + seq!['Z'];
    let t = a + seq!['T'] + b;
    lemma_no_letter(m, d, '-');
    lemma_no_letter(y, m + seq!['-'] + d, '-');
    lemma_no_letter(i, s, ':');
    lemma_no_letter(h, i + seq![':'] + s, ':');
    assert(all.drop_last() =~= t);
    assert(t.last() == b.last());
    assert(b[b.len() - 1] != 'Z');
    reveal_with_fuel(trim_z, 2);
    assert(trim_z(all) == t);
    lemma_split_joined(a, b, 'T');
    lemma_split_nowhere(a, 'T');
    lemma_split_nowhere(b, 'T');
    assert(split(t, 'T') =~= seq![a, b]);
    lemma_three_numbers(y, m, d, date.0, date.1, date.2, '-');
    lemma_three_numbers(h, i, s, time.0, time.1, time.2, ':');
}

/// The digits of a number, one after another, count ten times as much as the next ones; a
/// number in decimal is read as that number.
pub proof fn lemma_decimal_is_read(n: nat)
    ensures
        decimal_value(text::decimal(n)) == n,
    decreases n,
{
    text::lemma_decimal_digits(n);
    if n >= 10 {
        lemma_decimal_is_read(n / 10);
    } else {
        reveal_with_fuel(decimal_value, 2);
        assert(text::decimal(n).drop_last() =~= Seq::empty());
    }
}

} // verus!
