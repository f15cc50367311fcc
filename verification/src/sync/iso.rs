//! ISO 8601 timestamps of the changes feed.

use crate::text::{
    all_digits, chars_of, digits_value, drop_back, is_char, is_digit, lemma_one_piece,
    lemma_pieces_around, lemma_pieces_nonempty, parse_i64, pieces, split_on, text_i64, text_of, texts, trim_end_char,
};
use vstd::prelude::*;

verus! {

pub open spec fn leap(year: int) -> bool {
    (year % 4 == 0 && year % 100 != 0) || year % 400 == 0
}

/// The days of a month. Months beyond the twelfth count thirty.
pub open spec fn month_days(year: int, month: int) -> int {
    if month == 1 || month == 3 || month == 5 || month == 7 || month == 8 || month == 10 || month
        == 12 {
        31
    } else if month == 4 || month == 6 || month == 9 || month == 11 {
        30
    } else if month == 2 {
        if leap(year) {
            29
        } else {
            28
        }
    } else {
        30
    }
}

/// The days of the years from 1970 up to `year`.
pub open spec fn days_of_years(year: int) -> int
    decreases year,
{
    if year <= 1970 {
        0
    } else {
        days_of_years(year - 1) + (if leap(year - 1) {
            366int
        } else {
            365int
        })
    }
}

/// The days of the months of `year` before `month`.
pub open spec fn days_of_months(year: int, month: int) -> int
    decreases month,
{
    if month <= 1 {
        0
    } else {
        days_of_months(year, month - 1) + month_days(year, month - 1)
    }
}

/// The days from the epoch to a date.
pub open spec fn epoch_days(year: int, month: int, day: int) -> int {
    days_of_years(year) + days_of_months(year, month) + day - 1
}

/// `s` with its first `from` replaced by `to`.
pub open spec fn first_replaced(s: Seq<char>, from: char, to: char) -> Seq<char>
    decreases s.len(),
{
    if s.len() == 0 {
        s
    } else if s[0] == from {
        seq![to] + s.skip(1)
    } else {
        seq![s[0]] + first_replaced(s.skip(1), from, to)
    }
}

/// `s` split at its first `c`, if it has one.
pub open spec fn split_first(s: Seq<char>, c: char) -> Option<(Seq<char>, Seq<char>)>
    decreases s.len(),
{
    if s.len() == 0 {
        None
    } else if s[0] == c {
        Some((Seq::empty(), s.skip(1)))
    } else {
        match split_first(s.skip(1), c) {
            Some((a, b)) => Some((seq![s[0]] + a, b)),
            None => None,
        }
    }
}

/// The digits that `s` begins with.
pub open spec fn digit_prefix(s: Seq<char>) -> Seq<char>
    decreases s.len(),
{
    if s.len() > 0 && is_digit(s[0]) {
        seq![s[0]] + digit_prefix(s.skip(1))
    } else {
        Seq::empty()
    }
}

/// The milliseconds of the date and time `(date, time)`, if they can be read.
pub open spec fn date_time_ms(date: Seq<char>, time: Seq<char>) -> Option<int> {
    let d = pieces(date, '-');
    let t = pieces(time, ':');
    if d.len() < 3 || t.len() < 3 {
        None
    } else {
        match (
            text_i64(d[0]),
            text_i64(d[1]),
            text_i64(d[2]),
            text_i64(t[0]),
            text_i64(t[1]),
            text_i64(digit_prefix(t[2])),
        ) {
            (Some(year), Some(month), Some(day), Some(hour), Some(min), Some(sec)) => Some(
                (epoch_days(year as int, month as int, day as int) * 86400 + hour * 3600 + min * 60
                    + sec) * 1000,
            ),
            _ => None,
        }
    }
}

/// The epoch milliseconds of a timestamp: `2026-07-03T12:00:00.123Z`, or the
/// same with a space in place of the `T`. Fractions of a second and offsets are
/// ignored. A timestamp that cannot be read, or that is out of range, has none.
pub open spec fn iso_ms(s: Seq<char>) -> Option<i64> {
    match split_first(first_replaced(drop_back(s, is_char('Z')), ' ', 'T'), 'T') {
        None => None,
        Some((date, time)) => match date_time_ms(date, time) {
            Some(ms) => if i64::MIN <= ms <= i64::MAX {
                Some(ms as i64)
            } else {
                None
            },
            None => None,
        },
    }
}

/// The number of leap years before `year`.
spec fn leaps_before(year: int) -> int {
    (year - 1) / 4 - (year - 1) / 100 + (year - 1) / 400
}

proof fn lemma_leap_step(y: int)
    requires
        y >= 1970,
    ensures
        leaps_before(y + 1) == leaps_before(y) + (if leap(y) {
            1int
        } else {
            0int
        }),
{
    let m = y - 1;
    assert(y / 4 == m / 4 + (if y % 4 == 0 {
        1int
    } else {
        0int
    }));
    assert(y / 100 == m / 100 + (if y % 100 == 0 {
        1int
    } else {
        0int
    }));
    assert(y / 400 == m / 400 + (if y % 400 == 0 {
        1int
    } else {
        0int
    }));
    assert(y % 400 == 0 ==> y % 100 == 0);
    assert(y % 100 == 0 ==> y % 4 == 0);
}

proof fn lemma_days_of_years(year: int)
    requires
        year >= 1970,
    ensures
        days_of_years(year) == 365 * (year - 1970) + leaps_before(year) - leaps_before(1970),
    decreases year,
{
    if year > 1970 {
        lemma_days_of_years(year - 1);
        lemma_leap_step(year - 1);
    }
}

proof fn lemma_days_of_months(year: int, month: int)
    requires
        month >= 13,
    ensures
        days_of_months(year, month) == days_of_months(year, 13) + 30 * (month - 13),
    decreases month,
{
    if month > 13 {
        lemma_days_of_months(year, month - 1);
    }
}

fn days_in_month(leap_year: bool, month: i64) -> (r: i64)
    ensures
        forall|year: int| leap(year) == leap_year ==> r == #[trigger] month_days(year, month as int),
{
    match month {
        1 | 3 | 5 | 7 | 8 | 10 | 12 => 31,
        4 | 6 | 9 | 11 => 30,
        2 => if leap_year {
            29
        } else {
            28
        },
        _ => 30,
    }
}

/// Whether `year`, which may be negative, is a leap year.
fn is_leap(year: i64) -> (r: bool)
    ensures
        r == leap(year as int),
{
    let y: i128 = year as i128 + 0x1_0000_0000_0000_0000 * 400;
    proof {
        let k = 0x1_0000_0000_0000_0000int;
        assert((year + k * 400) % 4 == year as int % 4);
        assert((year + k * 400) % 100 == year as int % 100);
        assert((year + k * 400) % 400 == year as int % 400);
    }
    (y % 4 == 0 && y % 100 != 0) || y % 400 == 0
}

/// The days from the epoch to a date. Every date is counted, however far off.
pub fn days_from_epoch(year: i64, month: i64, day: i64) -> (r: i128)
    ensures
        r == epoch_days(year as int, month as int, day as int),
{
    let mut days: i128 = 0;
    if year > 1970 {
        proof {
            lemma_days_of_years(year as int);
        }
        let n: i128 = year as i128;
        let m: i128 = n - 1;
        days = 365 * (n - 1970) + (m / 4 - m / 100 + m / 400) - 477;
        assert(leaps_before(1970) == 477);
    }
    let leap_year = is_leap(year);
    let top: i64 = if month > 13 {
        13
    } else {
        month
    };
    let ghost base = days;
    let mut m: i64 = 1;
    let mut sum: i128 = 0;
    while m < top
        invariant
            top <= 13,
            1 <= m,
            m <= top || m == 1,
            leap_year == leap(year as int),
            sum == days_of_months(year as int, m as int),
            0 <= sum <= m * 31,
        decreases top - m,
    {
        let d: i64 = days_in_month(leap_year, m);
        assert(d == month_days(year as int, m as int));
        sum = sum + d as i128;
        m = m + 1;
    }
    if month > 13 {
        proof {
            lemma_days_of_months(year as int, month as int);
        }
        sum = sum + 30 * (month as i128 - 13);
    }
    days + sum + day as i128 - 1
}

/// Splits at the first `c`.
fn split_at_first(s: &str, c: char) -> (r: Option<(String, String)>)
    ensures
        match r {
            Some((a, b)) => split_first(s@, c) == Some((a@, b@)),
            None => split_first(s@, c) is None,
        },
{
    let v = chars_of(s);
    let mut i: usize = 0;
    assert(s@.skip(0) =~= s@);
    assert(s@.take(0) =~= Seq::empty());
    proof {
        match split_first(s@, c) {
            Some((a, b)) => {
                assert(s@.take(0) + a =~= a);
            },
            None => {},
        }
    }
    while i < v.len() && v[i] != c
        invariant
            v@ == s@,
            i <= v@.len(),
            split_first(s@, c) == (match split_first(s@.skip(i as int), c) {
                Some((a, b)) => Some((s@.take(i as int) + a, b)),
                None => None,
            }),
        decreases v@.len() - i,
    {
        proof {
            assert(s@.skip(i as int).skip(1) =~= s@.skip(i + 1));
            match split_first(s@.skip(i + 1), c) {
                Some((a, b)) => {
                    assert(s@.take(i as int) + (seq![s@[i as int]] + a) =~= s@.take(i + 1) + a);
                },
                None => {},
            }
        }
        i += 1;
    }
    if i == v.len() {
        return None;
    }
    let a = text_of(&v, 0, i);
    let b = text_of(&v, i + 1, v.len());
    proof {
        assert(a@ =~= s@.take(i as int) + Seq::<char>::empty());
        assert(b@ =~= s@.skip(i as int).skip(1));
    }
    Some((a, b))
}

/// Replaces the first `from`.
fn replace_first(s: &str, from: char, to: char) -> (r: String)
    ensures
        r@ == first_replaced(s@, from, to),
{
    let v = chars_of(s);
    let mut out = String::new();
    let mut i: usize = 0;
    assert(s@.skip(0) =~= s@);
    assert(out@ + first_replaced(s@.skip(0), from, to) =~= first_replaced(s@, from, to));
    while i < v.len() && v[i] != from
        invariant
            v@ == s@,
            i <= v@.len(),
            out@ + first_replaced(s@.skip(i as int), from, to) == first_replaced(s@, from, to),
        decreases v@.len() - i,
    {
        let ghost before = out@;
        out.push(v[i]);
        proof {
            assert(s@.skip(i as int).skip(1) =~= s@.skip(i + 1));
            let rest = first_replaced(s@.skip(i + 1), from, to);
            assert(before + (seq![s@[i as int]] + rest) =~= out@ + rest);
        }
        i += 1;
    }
    if i < v.len() {
        let ghost before = out@;
        out.push(to);
        let tail = text_of(&v, i + 1, v.len());
        proof {
            assert(tail@ =~= s@.skip(i as int).skip(1));
        }
        let ghost mid = out@;
        out.append(tail.as_str());
        assert(out@ =~= before + (seq![to] + s@.skip(i as int).skip(1)));
    } else {
        assert(s@.skip(i as int) =~= Seq::empty());
        assert(out@ + Seq::<char>::empty() =~= out@);
    }
    out
}

/// The digits at the front.
fn leading_digits(s: &str) -> (r: String)
    ensures
        r@ == digit_prefix(s@),
{
    let v = chars_of(s);
    let mut out = String::new();
    let mut i: usize = 0;
    assert(s@.skip(0) =~= s@);
    assert(out@ + digit_prefix(s@.skip(0)) =~= digit_prefix(s@));
    while i < v.len() && '0' <= v[i] && v[i] <= '9'
        invariant
            v@ == s@,
            i <= v@.len(),
            out@ + digit_prefix(s@.skip(i as int)) == digit_prefix(s@),
        decreases v@.len() - i,
    {
        let ghost before = out@;
        out.push(v[i]);
        proof {
            assert(s@.skip(i as int).skip(1) =~= s@.skip(i + 1));
            let rest = digit_prefix(s@.skip(i + 1));
            assert(before + (seq![s@[i as int]] + rest) =~= out@ + rest);
        }
        i += 1;
    }
    assert(out@ + Seq::<char>::empty() =~= out@);
    out
}

/// Parse an ISO 8601 datetime string to epoch milliseconds. Accepts both
/// `2026-07-03T12:00:00.123Z` (JSON dates) and `2026-07-03 12:00:00.123+00`
/// (Postgres text) shapes; the offset digits are ignored.
pub fn parse_iso8601_ms(s: &str) -> (r: Result<i64, ()>)
    ensures
        match r {
            Ok(ms) => iso_ms(s@) == Some(ms),
            Err(_) => iso_ms(s@) is None,
        },
{
    let base = trim_end_char(s, 'Z');
    let joined = replace_first(base.as_str(), ' ', 'T');
    let (date, time) = match split_at_first(joined.as_str(), 'T') {
        Some(x) => x,
        None => {
            return Err(());
        },
    };
    let d = split_on(date.as_str(), '-');
    let t = split_on(time.as_str(), ':');
    let ghost ds = texts(d@);
    let ghost ts = texts(t@);
    if d.len() < 3 || t.len() < 3 {
        return Err(());
    }
    assert(ds[0] == d@[0]@ && ds[1] == d@[1]@ && ds[2] == d@[2]@);
    assert(ts[0] == t@[0]@ && ts[1] == t@[1]@ && ts[2] == t@[2]@);
    let secs = leading_digits(t[2].as_str());
    match (
        parse_i64(d[0].as_str()),
        parse_i64(d[1].as_str()),
        parse_i64(d[2].as_str()),
        parse_i64(t[0].as_str()),
        parse_i64(t[1].as_str()),
        parse_i64(secs.as_str()),
    ) {
        (Some(year), Some(month), Some(day), Some(hour), Some(min), Some(sec)) => {
            let days: i128 = days_from_epoch(year, month, day);
            proof {
                lemma_epoch_days_bound(year, month, day);
            }
            let ms: i128 = (days * 86400 + hour as i128 * 3600 + min as i128 * 60 + sec as i128)
                * 1000;
            if i64::MIN as i128 <= ms && ms <= i64::MAX as i128 {
                Ok(ms as i64)
            } else {
                Err(())
            }
        },
        _ => Err(()),
    }
}

proof fn lemma_epoch_days_bound(year: i64, month: i64, day: i64)
    ensures
        -0x1_0000_0000_0000_0000 * 1000 <= epoch_days(year as int, month as int, day as int)
            <= 0x1_0000_0000_0000_0000 * 1000,
{
    if year > 1970 {
        lemma_days_of_years(year as int);
    }
    lemma_months_bound(year as int, month as int);
}

proof fn lemma_months_bound(year: int, month: int)
    ensures
        0 <= days_of_months(year, month) <= (if month > 0 {
            31 * month
        } else {
            0
        }),
    decreases month,
{
    if month > 1 {
        lemma_months_bound(year, month - 1);
    }
}

// ── Laws ────────────────────────────────────────────────────────────────────

/// Days are counted from the first of January 1970: each day is one further, a
/// month begins behind the last day of the one before it, and so does a year.
pub proof fn law_days_follow_each_other(year: int, month: int, day: int)
    requires
        year >= 1970,
        1 <= month <= 12,
    ensures
        epoch_days(1970, 1, 1) == 0,
        epoch_days(year, month, day + 1) == epoch_days(year, month, day) + 1,
        month < 12 ==> epoch_days(year, month + 1, 1) == epoch_days(year, month, 1) + (if month == 2
        {
            if leap(year) {
                29int
            } else {
                28
            }
        } else if month == 4 || month == 6 || month == 9 || month == 11 {
            30
        } else {
            31
        }),
        epoch_days(year + 1, 1, 1) == epoch_days(year, 12, 31) + 1,
{
    reveal_with_fuel(days_of_months, 13);
}

/// A leap year comes every four years, but only every fourth time at the turn of a
/// century. So four hundred years have 146097 days.
pub proof fn law_calendar_repeats(year: int, month: int, day: int)
    requires
        year >= 1970,
    ensures
        leap(year + 400) == leap(year),
        epoch_days(year + 400, month, day) == epoch_days(year, month, day) + 146_097,
        year % 100 != 0 ==> leap(year) == (year % 4 == 0),
        year % 100 == 0 ==> leap(year) == ((year / 100) % 4 == 0),
{
    lemma_leap_repeats(year);
    lemma_days_of_years(year);
    lemma_days_of_years(year + 400);
    lemma_months_alike(year, year + 400, month);
    assert(leaps_before(year + 400) == leaps_before(year) + 97) by {
        let m = year - 1;
        assert((m + 400) / 4 == m / 4 + 100);
        assert((m + 400) / 100 == m / 100 + 4);
        assert((m + 400) / 400 == m / 400 + 1);
    }
}

proof fn lemma_leap_repeats(year: int)
    ensures
        leap(year + 400) == leap(year),
        year % 100 != 0 ==> leap(year) == (year % 4 == 0),
        year % 100 == 0 ==> leap(year) == ((year / 100) % 4 == 0),
{
    assert((year + 400) % 4 == year % 4);
    assert((year + 400) % 100 == year % 100);
    assert((year + 400) % 400 == year % 400);
    if year % 100 != 0 {
        assert(year % 400 != 0);
    } else {
        let c = year / 100;
        assert(year == 100 * c);
        assert(year % 400 == 100 * (c % 4));
    }
}

proof fn lemma_months_alike(a: int, b: int, month: int)
    requires
        leap(a) == leap(b),
    ensures
        days_of_months(a, month) == days_of_months(b, month),
    decreases month,
{
    if month > 1 {
        lemma_months_alike(a, b, month - 1);
    }
}

/// A number in decimal digits that fits.
pub open spec fn is_number(s: Seq<char>) -> bool {
    s.len() > 0 && all_digits(s) && digits_value(s) <= i64::MAX
}

proof fn lemma_number_read(s: Seq<char>)
    requires
        is_number(s),
    ensures
        text_i64(s) == Some(digits_value(s) as i64),
        forall|i: int| 0 <= i < s.len() ==> is_digit(#[trigger] s[i]),
        !s.contains('-'),
        !s.contains(':'),
        !s.contains('T'),
        !s.contains(' '),
        !s.contains('Z'),
{
    assert(is_digit(s[0]));
    assert forall|c: char| s.contains(c) implies is_digit(c) by {
        let k = choose|k: int| 0 <= k < s.len() && s[k] == c;
        assert(is_digit(s[k]));
    }
}

/// Parts without the separator, joined by it, are its pieces.
proof fn lemma_three_pieces(a: Seq<char>, b: Seq<char>, c: Seq<char>, sep: char)
    requires
        !a.contains(sep),
        !b.contains(sep),
    ensures
        pieces(a.push(sep) + (b.push(sep) + c), sep) == seq![a, b] + pieces(c, sep),
{
    lemma_pieces_around(a, b.push(sep) + c, sep);
    lemma_pieces_around(b, c, sep);
    lemma_one_piece(a, sep);
    lemma_one_piece(b, sep);
    assert(seq![a] + (seq![b] + pieces(c, sep)) =~= seq![a, b] + pieces(c, sep));
}

proof fn lemma_digit_prefix(digits: Seq<char>, tail: Seq<char>)
    requires
        all_digits(digits),
        tail.len() == 0 || !is_digit(tail[0]),
    ensures
        digit_prefix(digits + tail) == digits,
    decreases digits.len(),
{
    let s = digits + tail;
    if digits.len() == 0 {
        assert(s =~= tail);
        assert(digits =~= Seq::empty());
    } else {
        assert(is_digit(digits[0]));
        assert(s.skip(1) =~= digits.skip(1) + tail);
        assert forall|i: int| 0 <= i < digits.skip(1).len() implies is_digit(
            #[trigger] digits.skip(1)[i],
        ) by {
            assert(is_digit(digits[i + 1]));
        }
        lemma_digit_prefix(digits.skip(1), tail);
        assert(seq![digits[0]] + digits.skip(1) =~= digits);
    }
}

/// The first piece of digits with something behind them.
proof fn lemma_front_digits(digits: Seq<char>, tail: Seq<char>)
    requires
        all_digits(digits),
        !digits.contains(':'),
        tail.len() == 0 || !is_digit(tail[0]),
    ensures
        pieces(digits + tail, ':').len() > 0,
        digit_prefix(pieces(digits + tail, ':')[0]) == digits,
    decreases tail.len(),
{
    let s = digits + tail;
    lemma_pieces_nonempty(s, ':');
    if tail.len() == 0 {
        assert(s =~= digits);
        lemma_one_piece(digits, ':');
        assert(digits + Seq::<char>::empty() =~= digits);
        lemma_digit_prefix(digits, Seq::empty());
    } else if tail[0] == ':' {
        lemma_pieces_around(digits, tail.skip(1), ':');
        assert(digits.push(':') + tail.skip(1) =~= s);
        lemma_one_piece(digits, ':');
        assert(pieces(s, ':')[0] == digits);
        assert(digits + Seq::<char>::empty() =~= digits);
        lemma_digit_prefix(digits, Seq::empty());
    } else {
        lemma_first_piece_of(digits, tail);
        let p = pieces(s, ':')[0];
        assert(p =~= digits + p.skip(digits.len() as int));
        lemma_digit_prefix(digits, p.skip(digits.len() as int));
    }
}

/// The first piece holds the digits and begins what follows as that begins.
proof fn lemma_first_piece_of(digits: Seq<char>, tail: Seq<char>)
    requires
        !digits.contains(':'),
        tail.len() > 0,
        tail[0] != ':',
    ensures
        ({
            let p = pieces(digits + tail, ':')[0];
            p.len() > digits.len() && p.take(digits.len() as int) == digits
                && p[digits.len() as int] == tail[0]
        }),
    decreases tail.len(),
{
    let s = digits + tail;
    if tail.len() == 1 {
        assert(!s.contains(':')) by {
            if s.contains(':') {
                let k = choose|k: int| 0 <= k < s.len() && s[k] == ':';
                if k < digits.len() {
                    assert(digits[k] == ':');
                }
            }
        }
        lemma_one_piece(s, ':');
        assert(s.take(digits.len() as int) =~= digits);
    } else {
        let f = tail.drop_last();
        lemma_first_piece_of(digits, f);
        assert(s.drop_last() =~= digits + f);
        let before = pieces(digits + f, ':');
        lemma_pieces_nonempty(digits + f, ':');
        let p = pieces(s, ':')[0];
        if tail.last() != ':' && before.len() == 1 {
            assert(p == before[0].push(tail.last()));
            assert(p.take(digits.len() as int) =~= before[0].take(digits.len() as int));
        }
    }
}

proof fn lemma_drop_back_behind(a: Seq<char>, tail: Seq<char>, c: char)
    requires
        a.len() > 0,
        a.last() != c,
    ensures
        drop_back(a + tail, is_char(c)) == a + drop_back(tail, is_char(c)),
        tail.len() > 0 && tail[0] != c ==> drop_back(tail, is_char(c)).len() > 0 && drop_back(
            tail,
            is_char(c),
        )[0] == tail[0],
        drop_back(tail, is_char(c)).len() > 0 ==> drop_back(tail, is_char(c))[0] == tail[0],
    decreases tail.len(),
{
    let s = a + tail;
    if tail.len() == 0 {
        assert(s =~= a);
        assert(a + tail =~= a);
    } else {
        assert(s.last() == tail.last());
        if tail.last() == c {
            assert(s.drop_last() =~= a + tail.drop_last());
            lemma_drop_back_behind(a, tail.drop_last(), c);
        }
    }
}

proof fn lemma_split_at(a: Seq<char>, b: Seq<char>, c: char)
    requires
        !a.contains(c),
    ensures
        split_first(a.push(c) + b, c) == Some((a, b)),
    decreases a.len(),
{
    let s = a.push(c) + b;
    if a.len() == 0 {
        assert(s.skip(1) =~= b);
        assert(a =~= Seq::empty());
    } else {
        assert(a.contains(a[0]));
        assert(s.skip(1) =~= a.skip(1).push(c) + b);
        assert forall|x: char| a.skip(1).contains(x) implies a.contains(x) by {
            let k = choose|k: int| 0 <= k < a.skip(1).len() && a.skip(1)[k] == x;
            assert(a[k + 1] == x);
        }
        lemma_split_at(a.skip(1), b, c);
        assert(seq![a[0]] + a.skip(1) =~= a);
    }
}

/// Only the first space is replaced, and one behind the first `T` does no harm.
proof fn lemma_replaced(a: Seq<char>, b: Seq<char>, from: char, to: char)
    requires
        !a.contains(from),
    ensures
        first_replaced(a.push(from) + b, from, to) == a.push(to) + b,
    decreases a.len(),
{
    let s = a.push(from) + b;
    if a.len() == 0 {
        assert(s.skip(1) =~= b);
        assert(seq![to] + b =~= a.push(to) + b);
    } else {
        assert(a.contains(a[0]));
        assert(s.skip(1) =~= a.skip(1).push(from) + b);
        assert forall|x: char| a.skip(1).contains(x) implies a.contains(x) by {
            let k = choose|k: int| 0 <= k < a.skip(1).len() && a.skip(1)[k] == x;
            assert(a[k + 1] == x);
        }
        lemma_replaced(a.skip(1), b, from, to);
        assert(seq![a[0]] + (a.skip(1).push(to) + b) =~= a.push(to) + b);
    }
}

/// What stands before the first space is not touched.
proof fn lemma_front_kept(a: Seq<char>, b: Seq<char>, from: char, to: char)
    requires
        !a.contains(from),
    ensures
        first_replaced(a + b, from, to) == a + first_replaced(b, from, to),
    decreases a.len(),
{
    if a.len() == 0 {
        assert(a + b =~= b);
        assert(a + first_replaced(b, from, to) =~= first_replaced(b, from, to));
    } else {
        assert(a.contains(a[0]));
        assert((a + b).skip(1) =~= a.skip(1) + b);
        assert forall|x: char| a.skip(1).contains(x) implies a.contains(x) by {
            let k = choose|k: int| 0 <= k < a.skip(1).len() && a.skip(1)[k] == x;
            assert(a[k + 1] == x);
        }
        lemma_front_kept(a.skip(1), b, from, to);
        assert(seq![a[0]] + (a.skip(1) + first_replaced(b, from, to)) =~= a + first_replaced(
            b,
            from,
            to,
        ));
    }
}

/// A date and a time that are written down are read: year, month and day with
/// hyphens, hour, minute and second with colons, and a `T` or a space between
/// them. A fraction, an offset or a `Z` behind the seconds makes no difference.
pub proof fn law_written_time_is_read(
    year: Seq<char>,
    month: Seq<char>,
    day: Seq<char>,
    hour: Seq<char>,
    minute: Seq<char>,
    second: Seq<char>,
    between: char,
    tail: Seq<char>,
)
    requires
        is_number(year),
        is_number(month),
        is_number(day),
        is_number(hour),
        is_number(minute),
        is_number(second),
        between == 'T' || between == ' ',
        tail.len() == 0 || !is_digit(tail[0]),
        !tail.contains(' '),
    ensures
        ({
            let text = (year.push('-') + (month.push('-') + day)).push(between) + (hour.push(':') + (
            minute.push(':') + (second + tail)));
            let ms = (epoch_days(
                digits_value(year) as int,
                digits_value(month) as int,
                digits_value(day) as int,
            ) * 86_400 + digits_value(hour) * 3_600 + digits_value(minute) * 60 + digits_value(
                second,
            )) * 1_000;
            iso_ms(text) == (if ms <= i64::MAX {
                Some(ms as i64)
            } else {
                None
            })
        }),
{
    let date = year.push('-') + (month.push('-') + day);
    let cut = drop_back(tail, is_char('Z'));
    let time = hour.push(':') + (minute.push(':') + (second + cut));
    let text = date.push(between) + (hour.push(':') + (minute.push(':') + (second + tail)));
    lemma_number_read(year);
    lemma_number_read(month);
    lemma_number_read(day);
    lemma_number_read(hour);
    lemma_number_read(minute);
    lemma_number_read(second);
    let head = date.push(between) + (hour.push(':') + (minute.push(':') + second));
    assert(text =~= head + tail);
    assert(head.last() == second.last());
    assert(is_digit(second[second.len() - 1]));
    lemma_drop_back_behind(head, tail, 'Z');
    assert(head + cut =~= date.push(between) + time);
    assert forall|c: char| date.contains(c) implies is_digit(c) || c == '-' by {
        let k = choose|k: int| 0 <= k < date.len() && date[k] == c;
        if k < year.len() {
            assert(date[k] == year[k]);
        } else if k > year.len() && k < year.len() + 1 + month.len() {
            assert(date[k] == month[k - year.len() - 1]);
        } else if k > year.len() + 1 + month.len() {
            assert(date[k] == day[k - year.len() - month.len() - 2]);
        }
    }
    assert(!date.contains(' ') && !date.contains('T'));
    assert(first_replaced(date.push(between) + time, ' ', 'T') == date.push('T') + time) by {
        if between == ' ' {
            lemma_replaced(date, time, ' ', 'T');
        } else {
            assert(!(date.push('T') + time).contains(' ')) by {
                lemma_no_space(date, hour, minute, second, tail);
            }
            lemma_nothing_to_replace(date.push('T') + time, ' ', 'T');
        }
    }
    lemma_split_at(date, time, 'T');
    lemma_three_pieces(year, month, day, '-');
    lemma_one_piece(day, '-');
    assert(pieces(date, '-') =~= seq![year, month, day]);
    lemma_three_pieces(hour, minute, second + cut, ':');
    lemma_front_digits(second, cut);
    let t = pieces(time, ':');
    assert(t[0] == hour && t[1] == minute);
    assert(t[2] == pieces(second + cut, ':')[0]);
    lemma_days_not_negative(
        digits_value(year) as int,
        digits_value(month) as int,
    );
}

proof fn lemma_days_not_negative(year: int, month: int)
    requires
        year >= 0,
    ensures
        days_of_years(year) >= 0,
        days_of_months(year, month) >= 0,
    decreases year, month,
{
    if month > 1 {
        lemma_days_not_negative(year, month - 1);
    } else if year > 1970 {
        lemma_days_not_negative(year - 1, month);
    }
}

proof fn lemma_nothing_to_replace(s: Seq<char>, from: char, to: char)
    requires
        !s.contains(from),
    ensures
        first_replaced(s, from, to) == s,
{
    let none = Seq::<char>::empty();
    assert(s + none =~= s);
    lemma_front_kept(s, none, from, to);
}

proof fn lemma_no_space(
    date: Seq<char>,
    hour: Seq<char>,
    minute: Seq<char>,
    second: Seq<char>,
    tail: Seq<char>,
)
    requires
        !date.contains(' '),
        !hour.contains(' '),
        !minute.contains(' '),
        !second.contains(' '),
        !tail.contains(' '),
    ensures
        !(date.push('T') + (hour.push(':') + (minute.push(':') + (second + drop_back(
            tail,
            is_char('Z'),
        ))))).contains(' '),
{
    let cut = drop_back(tail, is_char('Z'));
    lemma_cut_is_front(tail, 'Z');
    let s = date.push('T') + (hour.push(':') + (minute.push(':') + (second + cut)));
    if s.contains(' ') {
        let k = choose|k: int| 0 <= k < s.len() && s[k] == ' ';
        let a = date.len() as int;
        let b = a + 1 + hour.len();
        let c = b + 1 + minute.len();
        let d = c + 1 + second.len();
        if k < a {
            assert(date[k] == ' ');
        } else if a < k < b {
            assert(hour[k - a - 1] == ' ');
        } else if b < k < c {
            assert(minute[k - b - 1] == ' ');
        } else if c < k < d {
            assert(second[k - c - 1] == ' ');
        } else if k >= d {
            assert(cut[k - d] == ' ');
            assert(tail[k - d] == ' ');
        }
    }
}

proof fn lemma_cut_is_front(s: Seq<char>, c: char)
    ensures
        drop_back(s, is_char(c)).len() <= s.len(),
        forall|i: int|
            0 <= i < drop_back(s, is_char(c)).len() ==> #[trigger] drop_back(s, is_char(c))[i]
                == s[i],
    decreases s.len(),
{
    if s.len() > 0 && s.last() == c {
        lemma_cut_is_front(s.drop_last(), c);
    }
}

} // verus!
