//! Calendar timestamps in the change log's "YYMMDD HH:MM:SS" form: strict
//! parsing, formatting, a total order, and hour arithmetic delegated to a
//! civil-calendar library.

use vstd::prelude::*;
use crate::strutil::{
    all_digits, dec_val, digit_val, find_char, first_index_from, is_digit, digit_run_end,
    parse_dec,
};
use chrono::{Datelike, NaiveDate, TimeDelta, Timelike};

verus! {

/// A calendar instant at one-second resolution. A two-digit log year `YY`
/// stands for `2000 + YY`.
#[derive(Debug, Clone, Copy, PartialEq, Eq, Structural, PartialOrd, Ord, Hash)]
pub struct BinlogTimestamp {
    pub year: i32,
    pub month: u32,
    pub day: u32,
    pub hour: u32,
    pub minute: u32,
    pub second: u32,
}

/// Field ranges that every timestamp held by the library satisfies.
pub open spec fn ts_wf(t: BinlogTimestamp) -> bool {
    &&& 1 <= t.month <= 12
    &&& 1 <= t.day <= 31
    &&& t.hour < 24
    &&& t.minute < 60
    &&& t.second < 60
}

pub open spec fn is_leap_year(y: int) -> bool {
    y % 4 == 0 && (y % 100 != 0 || y % 400 == 0)
}

pub open spec fn days_in_month(y: int, m: int) -> int {
    if m == 2 {
        if is_leap_year(y) {
            29
        } else {
            28
        }
    } else if m == 4 || m == 6 || m == 9 || m == 11 {
        30
    } else {
        31
    }
}

/// A proper proleptic-Gregorian calendar date with in-range time fields.
pub open spec fn valid_civil(t: BinlogTimestamp) -> bool {
    &&& ts_wf(t)
    &&& t.day <= days_in_month(t.year as int, t.month as int)
}

/// What parsing "YYMMDD HH:MM:SS" yields: the date part is exactly six
/// digits, exactly one space separates date and time, the time part is three
/// colon-separated digit runs, and all fields are calendar-valid. Time
/// components need not be zero-padded, mirroring the log's header form.
pub open spec fn ts_parse(s: Seq<char>) -> Option<BinlogTimestamp> {
    let n = s.len() as int;
    let sp = first_index_from(s, ' ', 0);
    if sp != 6 || first_index_from(s, ' ', 7) != -1 || !all_digits(s.subrange(0, 6)) {
        None
    } else {
        let c1 = first_index_from(s, ':', 7);
        let c2 = first_index_from(s, ':', c1 + 1);
        if c1 < 0 || c2 < 0 || first_index_from(s, ':', c2 + 1) != -1 {
            None
        } else {
            let hs = s.subrange(7, c1);
            let ms = s.subrange(c1 + 1, c2);
            let ss = s.subrange(c2 + 1, n);
            if hs.len() == 0 || ms.len() == 0 || ss.len() == 0 || !all_digits(hs)
                || !all_digits(ms) || !all_digits(ss) {
                None
            } else {
                let yy = dec_val(s.subrange(0, 2));
                let mo = dec_val(s.subrange(2, 4));
                let dy = dec_val(s.subrange(4, 6));
                let h = dec_val(hs);
                let mi = dec_val(ms);
                let se = dec_val(ss);
                if 1 <= mo <= 12 && 1 <= dy <= days_in_month(2000 + yy as int, mo as int) && h < 24
                    && mi < 60 && se < 60 {
                    Some(
                        BinlogTimestamp {
                            year: (2000 + yy) as i32,
                            month: mo as u32,
                            day: dy as u32,
                            hour: h as u32,
                            minute: mi as u32,
                            second: se as u32,
                        },
                    )
                } else {
                    None
                }
            }
        }
    }
}

/// Lexicographic order on (year, month, day, hour, minute, second); on
/// calendar-valid timestamps this is chronological order, and on the
/// canonical 15-character form it is string order.
pub open spec fn ts_le(a: BinlogTimestamp, b: BinlogTimestamp) -> bool {
    if a.year != b.year {
        a.year < b.year
    } else if a.month != b.month {
        a.month < b.month
    } else if a.day != b.day {
        a.day < b.day
    } else if a.hour != b.hour {
        a.hour < b.hour
    } else if a.minute != b.minute {
        a.minute < b.minute
    } else {
        a.second <= b.second
    }
}

pub open spec fn digit_char(d: int) -> char {
    if d == 0 {
        '0'
    } else if d == 1 {
        '1'
    } else if d == 2 {
        '2'
    } else if d == 3 {
        '3'
    } else if d == 4 {
        '4'
    } else if d == 5 {
        '5'
    } else if d == 6 {
        '6'
    } else if d == 7 {
        '7'
    } else if d == 8 {
        '8'
    } else {
        '9'
    }
}

pub open spec fn two_digits(v: int) -> Seq<char> {
    seq![digit_char(v / 10), digit_char(v % 10)]
}

/// The canonical "YYMMDD HH:MM:SS" form. The year prints as its last two
/// digits.
pub open spec fn ts_format(t: BinlogTimestamp) -> Seq<char> {
    two_digits((t.year as int) % 100) + two_digits(t.month as int) + two_digits(t.day as int)
        + seq![' '] + two_digits(t.hour as int) + seq![':'] + two_digits(t.minute as int)
        + seq![':'] + two_digits(t.second as int)
}

/// Every digit character is a digit, carries its value, and is neither the
/// space nor the colon of the canonical form.
proof fn lemma_digit_char(d: int)
    requires
        0 <= d <= 9,
    ensures
        is_digit(digit_char(d)),
        digit_val(digit_char(d)) == d,
        digit_char(d) != ' ',
        digit_char(d) != ':',
{
}

/// A two-digit group reads back as its value.
proof fn lemma_two_digits_val(v: int)
    requires
        0 <= v < 100,
    ensures
        dec_val(two_digits(v)) == v,
        all_digits(two_digits(v)),
        two_digits(v).len() == 2,
{
    lemma_digit_char(v / 10);
    lemma_digit_char(v % 10);
    let s = two_digits(v);
    assert(s.drop_last() =~= seq![digit_char(v / 10)]);
    assert(s.drop_last().drop_last() =~= Seq::<char>::empty());
    assert(s.drop_last().last() == digit_char(v / 10));
    assert(s.last() == digit_char(v % 10));
    assert(dec_val(Seq::<char>::empty()) == 0);
    assert(dec_val(s.drop_last()) == digit_val(digit_char(v / 10)));
    assert(dec_val(s) == dec_val(s.drop_last()) * 10 + digit_val(s.last()));
    assert(dec_val(s) == (v / 10) * 10 + v % 10);
}

/// Formatting then parsing restores the timestamp, for every calendar-valid
/// instant in the two-digit-year range.
pub proof fn lemma_format_parse_round_trip(t: BinlogTimestamp)
    requires
        valid_civil(t),
        2000 <= t.year <= 2099,
    ensures
        ts_parse(ts_format(t)) == Some(t),
{
    let s = ts_format(t);
    let ym = (t.year as int) % 100;
    assert(0 <= ym < 100);
    lemma_two_digits_val(ym);
    lemma_two_digits_val(t.month as int);
    lemma_two_digits_val(t.day as int);
    lemma_two_digits_val(t.hour as int);
    lemma_two_digits_val(t.minute as int);
    lemma_two_digits_val(t.second as int);
    assert(s.len() == 15);
    assert(s[0] == digit_char(ym / 10) && s[1] == digit_char(ym % 10));
    assert(s[2] == digit_char(t.month as int / 10) && s[3] == digit_char(t.month as int % 10));
    assert(s[4] == digit_char(t.day as int / 10) && s[5] == digit_char(t.day as int % 10));
    assert(s[6] == ' ');
    assert(s[7] == digit_char(t.hour as int / 10) && s[8] == digit_char(t.hour as int % 10));
    assert(s[9] == ':');
    assert(s[10] == digit_char(t.minute as int / 10) && s[11] == digit_char(t.minute as int % 10));
    assert(s[12] == ':');
    assert(s[13] == digit_char(t.second as int / 10) && s[14] == digit_char(t.second as int % 10));
    assert forall|k: int| 0 <= k < 15 && k != 6 implies s[k] != ' ' by {
        lemma_digit_facts_at(t, k);
    }
    assert forall|k: int| 0 <= k < 15 && k != 9 && k != 12 implies s[k] != ':' by {
        lemma_digit_facts_at(t, k);
    }
    crate::strutil::lemma_first_index_is(s, ' ', 0, 6);
    crate::strutil::lemma_first_index_none(s, ' ', 7);
    crate::strutil::lemma_first_index_is(s, ':', 7, 9);
    crate::strutil::lemma_first_index_is(s, ':', 10, 12);
    crate::strutil::lemma_first_index_none(s, ':', 13);
    assert(s.subrange(0, 6) =~= two_digits(ym) + two_digits(t.month as int) + two_digits(
        t.day as int,
    ));
    assert forall|k: int| 0 <= k < 6 implies is_digit(#[trigger] s.subrange(0, 6)[k]) by {
        lemma_digit_facts_at(t, k);
    }
    assert(s.subrange(0, 2) =~= two_digits(ym));
    assert(s.subrange(2, 4) =~= two_digits(t.month as int));
    assert(s.subrange(4, 6) =~= two_digits(t.day as int));
    assert(s.subrange(7, 9) =~= two_digits(t.hour as int));
    assert(s.subrange(10, 12) =~= two_digits(t.minute as int));
    assert(s.subrange(13, 15) =~= two_digits(t.second as int));
    assert(2000 + dec_val(s.subrange(0, 2)) as int == t.year as int) by {
        assert(ym == t.year - 2000);
    }
    assert(ts_parse(s) == Some(t)) by {
        let u = ts_parse(s).unwrap();
        assert(u.year == t.year && u.month == t.month && u.day == t.day && u.hour == t.hour
            && u.minute == t.minute && u.second == t.second);
    }
}

/// The character at each position of the canonical form, for the space and
/// colon disjointness arguments.
proof fn lemma_digit_facts_at(t: BinlogTimestamp, k: int)
    requires
        ts_wf(t),
        0 <= k < 15,
    ensures
        k != 6 && k != 9 && k != 12 ==> is_digit(ts_format(t)[k]) && ts_format(t)[k] != ' '
            && ts_format(t)[k] != ':',
        k == 6 ==> ts_format(t)[k] == ' ',
        k == 9 || k == 12 ==> ts_format(t)[k] == ':',
{
    let s = ts_format(t);
    let ym = (t.year as int) % 100;
    if k == 0 || k == 1 {
        lemma_digit_char(if k == 0 {
            ym / 10
        } else {
            ym % 10
        });
    } else if k == 2 || k == 3 {
        lemma_digit_char(if k == 2 {
            t.month as int / 10
        } else {
            t.month as int % 10
        });
    } else if k == 4 || k == 5 {
        lemma_digit_char(if k == 4 {
            t.day as int / 10
        } else {
            t.day as int % 10
        });
    } else if k == 7 || k == 8 {
        lemma_digit_char(if k == 7 {
            t.hour as int / 10
        } else {
            t.hour as int % 10
        });
    } else if k == 10 || k == 11 {
        lemma_digit_char(if k == 10 {
            t.minute as int / 10
        } else {
            t.minute as int % 10
        });
    } else if k == 13 || k == 14 {
        lemma_digit_char(if k == 13 {
            t.second as int / 10
        } else {
            t.second as int % 10
        });
    }
}

/// What the civil-calendar library returns when shifting a timestamp by a
/// number of hours: a function of the fields and the hour count alone.
pub uninterp spec fn shifted_hours(t: BinlogTimestamp, hours: int) -> BinlogTimestamp;

/// Relies on chrono: `NaiveDate::from_ymd_opt` and `and_hms_opt` accept
/// exactly the calendar-valid field combinations, `TimeDelta::try_hours` and
/// `checked_add_signed` shift the instant by whole hours and fail only
/// outside chrono's huge supported range, and the accessors return fields in
/// their documented ranges (month 1-12, day 1-31, hour 0-23, minute and
/// second 0-59).
#[verifier::external_body]
fn chrono_shift_hours(t: &BinlogTimestamp, hours: i64) -> (r: Option<BinlogTimestamp>)
    ensures
        valid_civil(*t) && 2000 <= t.year <= 2099 && -1000000 <= hours <= 1000000 ==> r is Some,
        r matches Some(u) ==> u == shifted_hours(*t, hours as int) && ts_wf(u),
{
    let d = NaiveDate::from_ymd_opt(t.year, t.month, t.day)?
        .and_hms_opt(t.hour, t.minute, t.second)?;
    let dt = d.checked_add_signed(TimeDelta::try_hours(hours)?)?;
    Some(BinlogTimestamp {
        year: dt.year(),
        month: dt.month(),
        day: dt.day(),
        hour: dt.hour(),
        minute: dt.minute(),
        second: dt.second(),
    })
}

impl BinlogTimestamp {
    /// Parse the strict "YYMMDD HH:MM:SS" form.
    pub fn parse(timestamp: &str) -> (r: Result<BinlogTimestamp, String>)
        ensures
            match r {
                Ok(t) => ts_parse(timestamp@) == Some(t) && valid_civil(t) && 2000 <= t.year
                    <= 2099,
                Err(_) => ts_parse(timestamp@) is None,
            },
    {
        let n = timestamp.unicode_len();
        let sp = match find_char(timestamp, ' ', 0) {
            Some(i) => i,
            None => {
                return Err(parse_error());
            },
        };
        if sp != 6 {
            return Err(parse_error());
        }
        if find_char(timestamp, ' ', 7).is_some() {
            return Err(parse_error());
        }
        if !check_digits(timestamp, 0, 6) {
            return Err(parse_error());
        }
        let c1 = match find_char(timestamp, ':', 7) {
            Some(i) => i,
            None => {
                return Err(parse_error());
            },
        };
        let c2 = match find_char(timestamp, ':', c1 + 1) {
            Some(i) => i,
            None => {
                return Err(parse_error());
            },
        };
        if find_char(timestamp, ':', c2 + 1).is_some() {
            return Err(parse_error());
        }
        if c1 == 7 || c2 == c1 + 1 || c2 + 1 == n {
            return Err(parse_error());
        }
        let ghost hs = timestamp@.subrange(7, c1 as int);
        let ghost ms = timestamp@.subrange(c1 + 1, c2 as int);
        let ghost ss = timestamp@.subrange(c2 + 1, n as int);
        if !check_digits(timestamp, 7, c1) {
            return Err(parse_error());
        }
        if !check_digits(timestamp, c1 + 1, c2) {
            return Err(parse_error());
        }
        if !check_digits(timestamp, c2 + 1, n) {
            return Err(parse_error());
        }
        proof {
            lemma_dec_val_two(timestamp@.subrange(0, 2));
            assert(timestamp@.subrange(0, 2)[0] == timestamp@[0]);
            assert(timestamp@.subrange(0, 2)[1] == timestamp@[1]);
        }
        let yy = parse_in_range(timestamp, 0, 2, 99);
        let mo = parse_in_range(timestamp, 2, 4, 12);
        let dy = parse_in_range(timestamp, 4, 6, 31);
        let h = parse_in_range(timestamp, 7, c1, 23);
        let mi = parse_in_range(timestamp, c1 + 1, c2, 59);
        let se = parse_in_range(timestamp, c2 + 1, n, 59);
        let (yy, mo, dy, h, mi, se) = match (yy, mo, dy, h, mi, se) {
            (Some(a), Some(b), Some(c), Some(d), Some(e), Some(f)) => (a, b, c, d, e, f),
            _ => {
                return Err(parse_error());
            },
        };
        let year: i32 = 2000 + (yy as i32);
        if mo < 1 || dy < 1 || dy > days_in_month_exec(year, mo) {
            return Err(parse_error());
        }
        let t = BinlogTimestamp { year, month: mo, day: dy, hour: h, minute: mi, second: se };
        proof {
            assert(ts_parse(timestamp@) == Some(t));
        }
        Ok(t)
    }

    /// The canonical "YYMMDD HH:MM:SS" form of this timestamp.
    #[verifier::rlimit(50)]
    pub fn to_binlog_format(&self) -> (r: String)
        requires
            ts_wf(*self),
        ensures
            r@ == ts_format(*self),
    {
        let mut out = String::new();
        let ym = year_mod_100(self.year);
        push_two_digits(&mut out, ym);
        push_two_digits(&mut out, self.month);
        push_two_digits(&mut out, self.day);
        push_lit_space(&mut out);
        push_two_digits(&mut out, self.hour);
        push_lit_colon(&mut out);
        push_two_digits(&mut out, self.minute);
        push_lit_colon(&mut out);
        push_two_digits(&mut out, self.second);
        proof {
            assert(out@ =~= ts_format(*self));
        }
        out
    }

    /// Shift forward by whole hours; days, months and years carry over per
    /// the civil calendar.
    pub fn add_hours(&self, hours: i64) -> (r: BinlogTimestamp)
        requires
            valid_civil(*self),
            2000 <= self.year <= 2099,
            -1000000 <= hours <= 1000000,
        ensures
            r == shifted_hours(*self, hours as int),
            ts_wf(r),
    {
        chrono_shift_hours(self, hours).unwrap()
    }

    /// Shift backward by whole hours.
    pub fn subtract_hours(&self, hours: i64) -> (r: BinlogTimestamp)
        requires
            valid_civil(*self),
            2000 <= self.year <= 2099,
            -1000000 <= hours <= 1000000,
        ensures
            r == shifted_hours(*self, -(hours as int)),
            ts_wf(r),
    {
        chrono_shift_hours(self, -hours).unwrap()
    }

    /// `self` is at or before `other` in the total order.
    pub fn le(&self, other: &BinlogTimestamp) -> (r: bool)
        ensures
            r == ts_le(*self, *other),
    {
        if self.year != other.year {
            self.year < other.year
        } else if self.month != other.month {
            self.month < other.month
        } else if self.day != other.day {
            self.day < other.day
        } else if self.hour != other.hour {
            self.hour < other.hour
        } else if self.minute != other.minute {
            self.minute < other.minute
        } else {
            self.second <= other.second
        }
    }
}

proof fn lemma_dec_val_two(s: Seq<char>)
    requires
        s.len() == 2,
        all_digits(s),
    ensures
        dec_val(s) <= 99,
{
    let p = s.drop_last();
    assert(p.drop_last() =~= Seq::<char>::empty());
    assert(is_digit(s[0]) && is_digit(s[1]));
    assert(p.last() == s[0] && s.last() == s[1]);
    assert(dec_val(p) == dec_val(p.drop_last()) * 10 + digit_val(p.last()));
    assert(digit_val(s[0]) <= 9 && digit_val(s[1]) <= 9);
}

/// All characters in `s[from..to)` are decimal digits.
fn check_digits(s: &str, from: usize, to: usize) -> (r: bool)
    requires
        from <= to <= s@.len(),
    ensures
        r == all_digits(s@.subrange(from as int, to as int)),
        r ==> forall|k: int| from <= k < to ==> is_digit(#[trigger] s@[k]),
{
    let e = digit_run_end(s, from);
    if e >= to {
        proof {
            assert forall|k: int| 0 <= k < to - from implies is_digit(
                #[trigger] s@.subrange(from as int, to as int)[k],
            ) by {
                assert(s@.subrange(from as int, to as int)[k] == s@[from + k]);
            }
        }
        true
    } else {
        proof {
            assert(!is_digit(s@.subrange(from as int, to as int)[e - from])) by {
                assert(s@.subrange(from as int, to as int)[e - from] == s@[e as int]);
            }
        }
        false
    }
}

/// Parse the digits `s[from..to)` and check the value is at most `max`.
fn parse_in_range(s: &str, from: usize, to: usize, max: u32) -> (r: Option<u32>)
    requires
        from <= to <= s@.len(),
        forall|k: int| from <= k < to ==> is_digit(#[trigger] s@[k]),
    ensures
        ({
            let v = dec_val(s@.subrange(from as int, to as int));
            match r {
                Some(x) => x == v && v <= max,
                None => v > max,
            }
        }),
{
    match parse_dec(s, from, to) {
        Some(v) => {
            if v <= max as u64 {
                Some(v as u32)
            } else {
                None
            }
        },
        None => None,
    }
}

/// The year's last two digits, as the nonnegative remainder modulo 100.
fn year_mod_100(y: i32) -> (r: u32)
    ensures
        r as int == (y as int) % 100,
        r < 100,
{
    if y >= 0 {
        (y % 100) as u32
    } else {
        let k = -(y + 1);
        let t = k % 100;
        proof {
            let ki = k as int;
            let yi = y as int;
            let q = ki / 100;
            vstd::arithmetic::div_mod::lemma_fundamental_div_mod(ki, 100);
            assert(yi == 100 * (-q - 1) + (99 - t));
            vstd::arithmetic::div_mod::lemma_mod_multiples_vanish(-q - 1, 99 - t, 100);
            vstd::arithmetic::div_mod::lemma_small_mod((99 - t) as nat, 100);
        }
        (99 - t) as u32
    }
}

fn days_in_month_exec(y: i32, m: u32) -> (r: u32)
    ensures
        r == days_in_month(y as int, m as int),
{
    if m == 2 {
        if (y % 4 == 0) && (y % 100 != 0 || y % 400 == 0) {
            29
        } else {
            28
        }
    } else if m == 4 || m == 6 || m == 9 || m == 11 {
        30
    } else {
        31
    }
}

pub(crate) fn digit_str(d: u32) -> (r: &'static str)
    requires
        d < 10,
    ensures
        r@ == seq![digit_char(d as int)],
{
    let r: &'static str = if d == 0 {
        "0"
    } else if d == 1 {
        "1"
    } else if d == 2 {
        "2"
    } else if d == 3 {
        "3"
    } else if d == 4 {
        "4"
    } else if d == 5 {
        "5"
    } else if d == 6 {
        "6"
    } else if d == 7 {
        "7"
    } else if d == 8 {
        "8"
    } else {
        "9"
    };
    proof {
        reveal_strlit("0");
        reveal_strlit("1");
        reveal_strlit("2");
        reveal_strlit("3");
        reveal_strlit("4");
        reveal_strlit("5");
        reveal_strlit("6");
        reveal_strlit("7");
        reveal_strlit("8");
        reveal_strlit("9");
        assert(r@ =~= seq![digit_char(d as int)]);
    }
    r
}

fn push_two_digits(out: &mut String, v: u32)
    requires
        v < 100,
    ensures
        final(out)@ == old(out)@ + two_digits(v as int),
{
    out.append(digit_str(v / 10));
    out.append(digit_str(v % 10));
    proof {
        assert(old(out)@ + two_digits(v as int) =~= old(out)@ + seq![
            digit_char(v as int / 10),
            digit_char(v as int % 10),
        ]);
    }
}

fn push_lit_space(out: &mut String)
    ensures
        final(out)@ == old(out)@ + seq![' '],
{
    out.append(" ");
    proof {
        reveal_strlit(" ");
        assert(" "@ =~= seq![' ']);
    }
}

fn push_lit_colon(out: &mut String)
    ensures
        final(out)@ == old(out)@ + seq![':'],
{
    out.append(":");
    proof {
        reveal_strlit(":");
        assert(":"@ =~= seq![':']);
    }
}

fn parse_error() -> String {
    let s: &str = "invalid timestamp: expected 'YYMMDD HH:MM:SS'";
    s.to_owned()
}

} // verus!
