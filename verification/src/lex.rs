use vstd::prelude::*;
use crate::calendar::Date;
use crate::calendar::Time;
use crate::text::all_digits;
use crate::text::digit_val;
use crate::text::spec_digits_val;
use crate::text::spec_split;

verus! {

// ----- messages -----

/// "no {name} in {location}"
pub open spec fn msg_no_value(name: Seq<char>, location: Seq<char>) -> Seq<char> {
    "no "@ + name + " in "@ + location
}

/// "got {other} for {name}, expected {value}"
pub open spec fn msg_literal_mismatch(other: Seq<char>, name: Seq<char>, value: Seq<char>) -> Seq<
    char,
> {
    "got "@ + other + " for "@ + name + ", expected "@ + value
}

/// "no {name}, expected {value}"
pub open spec fn msg_literal_missing(name: Seq<char>, value: Seq<char>) -> Seq<char> {
    "no "@ + name + ", expected "@ + value
}

/// "bad {name} - expected a decimal number"
pub open spec fn msg_bad_number(name: Seq<char>) -> Seq<char> {
    "bad "@ + name + " - expected a decimal number"@
}

/// "bad {name} - number too large"
pub open spec fn msg_number_too_large(name: Seq<char>) -> Seq<char> {
    "bad "@ + name + " - number too large"@
}

/// "bad {name} - not a month/day/year date"
pub open spec fn msg_bad_date(name: Seq<char>) -> Seq<char> {
    "bad "@ + name + " - not a month/day/year date"@
}

/// "bad {name} - not an hour:minute clock time"
pub open spec fn msg_bad_time(name: Seq<char>) -> Seq<char> {
    "bad "@ + name + " - not an hour:minute clock time"@
}

// ----- token primitives -----

/// Return the next item of an iterator, or an error if there is none
pub fn expect_value<'a>(source: Option<&'a str>, name: &str, location: &str) -> (r: Result<
    &'a str,
    String,
>)
    ensures
        match r {
            Ok(v) => source is Some && v == source->Some_0,
            Err(e) => source is None && e@ == msg_no_value(name@, location@),
        },
{
    match source {
        Some(v) => Ok(v),
        None => {
            let mut m = String::from_str("no ");
            m.append(name);
            m.append(" in ");
            m.append(location);
            proof {
                assert(m@ =~= msg_no_value(name@, location@));
            }
            Err(m)
        },
    }
}

/// Expect a value as the next item of an iterator, returning an error if it
/// doesn't match
pub fn expect_literal(source: Option<&str>, value: &str, name: &str) -> (r: Result<(), String>)
    ensures
        match r {
            Ok(_) => source is Some && source->Some_0@ == value@,
            Err(e) => match source {
                Some(other) => other@ != value@ && e@ == msg_literal_mismatch(
                    other@,
                    name@,
                    value@,
                ),
                None => e@ == msg_literal_missing(name@, value@),
            },
        },
{
    match source {
        Some(next) => {
            if crate::text::str_eq(next, value) {
                Ok(())
            } else {
                let mut m = String::from_str("got ");
                m.append(next);
                m.append(" for ");
                m.append(name);
                m.append(", expected ");
                m.append(value);
                proof {
                    assert(m@ =~= msg_literal_mismatch(next@, name@, value@));
                }
                Err(m)
            }
        },
        None => {
            let mut m = String::from_str("no ");
            m.append(name);
            m.append(", expected ");
            m.append(value);
            proof {
                assert(m@ =~= msg_literal_missing(name@, value@));
            }
            Err(m)
        },
    }
}

// ----- numbers -----

/// Parse a string into a number
pub fn parse_number(string: &str, name: &str) -> (r: Result<u32, String>)
    ensures
        match r {
            Ok(v) => string@.len() > 0 && all_digits(string@) && v as int == spec_digits_val(
                string@,
            ),
            Err(e) => if string@.len() == 0 || !all_digits(string@) {
                e@ == msg_bad_number(name@)
            } else {
                spec_digits_val(string@) > u32::MAX && e@ == msg_number_too_large(name@)
            },
        },
{
    let n = string.unicode_len();
    if n == 0 {
        return Err(build_bad_number(name));
    }
    let mut acc: u32 = 0;
    let mut overflowed = false;
    let mut i: usize = 0;
    while i < n
        invariant
            i <= n,
            n == string@.len(),
            all_digits(string@.take(i as int)),
            !overflowed ==> acc as int == spec_digits_val(string@.take(i as int)),
            overflowed ==> spec_digits_val(string@.take(i as int)) > u32::MAX,
        decreases n - i,
    {
        let c = string.get_char(i);
        let d: u32 = if c == '0' {
            0
        } else if c == '1' {
            1
        } else if c == '2' {
            2
        } else if c == '3' {
            3
        } else if c == '4' {
            4
        } else if c == '5' {
            5
        } else if c == '6' {
            6
        } else if c == '7' {
            7
        } else if c == '8' {
            8
        } else if c == '9' {
            9
        } else {
            proof {
                assert(!all_digits(string@)) by {
                    assert(digit_val(string@[i as int]) < 0);
                }
            }
            return Err(build_bad_number(name));
        };
        proof {
            assert(d as int == digit_val(string@[i as int]));
            assert(string@.take(i + 1).drop_last() =~= string@.take(i as int));
            assert(all_digits(string@.take(i + 1)));
            assert(spec_digits_val(string@.take(i + 1)) == spec_digits_val(string@.take(i as int))
                * 10 + d as int);
            crate::text::lemma_digits_val_nonneg(string@.take(i as int));
        }
        if overflowed || acc > u32::MAX / 10 || (acc == u32::MAX / 10 && d > u32::MAX % 10) {
            overflowed = true;
        } else {
            acc = acc * 10 + d;
        }
        i += 1;
    }
    proof {
        assert(string@.take(i as int) =~= string@);
    }
    if overflowed {
        Err(build_number_too_large(name))
    } else {
        Ok(acc)
    }
}

fn build_bad_number(name: &str) -> (r: String)
    ensures
        r@ == msg_bad_number(name@),
{
    let mut m = String::from_str("bad ");
    m.append(name);
    m.append(" - expected a decimal number");
    proof {
        assert(m@ =~= msg_bad_number(name@));
    }
    m
}

fn build_number_too_large(name: &str) -> (r: String)
    ensures
        r@ == msg_number_too_large(name@),
{
    let mut m = String::from_str("bad ");
    m.append(name);
    m.append(" - number too large");
    proof {
        assert(m@ =~= msg_number_too_large(name@));
    }
    m
}

// ----- dates and times -----

/// The date denoted by `s` in `month/day/year` form: one or two digits of
/// month and day, four digits of year, and the values naming a real day.
pub open spec fn spec_parse_date(s: Seq<char>) -> Option<Date> {
    let parts = spec_split(s, seq!['/']);
    if parts.len() != 3 {
        None
    } else {
        let m = parts[0];
        let d = parts[1];
        let y = parts[2];
        if 1 <= m.len() <= 2 && 1 <= d.len() <= 2 && y.len() == 4 && all_digits(m) && all_digits(d)
            && all_digits(y) {
            let date = Date {
                year: spec_digits_val(y) as u32,
                month: spec_digits_val(m) as u32,
                day: spec_digits_val(d) as u32,
            };
            if date.valid() {
                Some(date)
            } else {
                None
            }
        } else {
            None
        }
    }
}

/// Parse a string into a date
pub fn parse_date(string: &str, name: &str) -> (r: Result<Date, String>)
    ensures
        match r {
            Ok(d) => spec_parse_date(string@) == Some(d),
            Err(e) => spec_parse_date(string@) is None && e@ == msg_bad_date(name@),
        },
{
    let slash = "/";
    proof {
        reveal_strlit("/");
        assert(slash@ =~= seq!['/']);
    }
    let parts = crate::text::split_str(string, slash);
    proof {
        assert(parts@.map_values(|t: &str| t@) == spec_split(string@, seq!['/']));
    }
    if parts.len() != 3 {
        return Err(build_bad_date(name));
    }
    let m = parts[0];
    let d = parts[1];
    let y = parts[2];
    proof {
        assert(m@ == spec_split(string@, seq!['/'])[0]);
        assert(d@ == spec_split(string@, seq!['/'])[1]);
        assert(y@ == spec_split(string@, seq!['/'])[2]);
    }
    let ml = m.unicode_len();
    let dl = d.unicode_len();
    let yl = y.unicode_len();
    if !(1 <= ml && ml <= 2 && 1 <= dl && dl <= 2 && yl == 4) {
        return Err(build_bad_date(name));
    }
    let mv = match parse_digits_small(m) {
        Some(v) => v,
        None => {
            return Err(build_bad_date(name));
        },
    };
    let dv = match parse_digits_small(d) {
        Some(v) => v,
        None => {
            return Err(build_bad_date(name));
        },
    };
    let yv = match parse_digits_small(y) {
        Some(v) => v,
        None => {
            return Err(build_bad_date(name));
        },
    };
    let date = Date { year: yv, month: mv, day: dv };
    if date.is_valid() {
        Ok(date)
    } else {
        Err(build_bad_date(name))
    }
}

/// The value of a short all-digit string, or `None` if some character is
/// not a digit.
fn parse_digits_small(s: &str) -> (r: Option<u32>)
    requires
        1 <= s@.len() <= 9,
    ensures
        match r {
            Some(v) => all_digits(s@) && v as int == spec_digits_val(s@),
            None => !all_digits(s@),
        },
{
    let n = s.unicode_len();
    let mut acc: u32 = 0;
    let mut i: usize = 0;
    while i < n
        invariant
            i <= n,
            n == s@.len(),
            n <= 9,
            all_digits(s@.take(i as int)),
            acc as int == spec_digits_val(s@.take(i as int)),
        decreases n - i,
    {
        let c = s.get_char(i);
        let d: u32 = if c == '0' {
            0
        } else if c == '1' {
            1
        } else if c == '2' {
            2
        } else if c == '3' {
            3
        } else if c == '4' {
            4
        } else if c == '5' {
            5
        } else if c == '6' {
            6
        } else if c == '7' {
            7
        } else if c == '8' {
            8
        } else if c == '9' {
            9
        } else {
            proof {
                assert(!all_digits(s@)) by {
                    assert(digit_val(s@[i as int]) < 0);
                }
            }
            return None;
        };
        proof {
            assert(d as int == digit_val(s@[i as int]));
            assert(s@.take(i + 1).drop_last() =~= s@.take(i as int));
            assert(all_digits(s@.take(i + 1)));
            crate::text::lemma_digits_val_bound(s@.take(i + 1));
            crate::text::lemma_digits_val_bound(s@.take(i as int));
        }
        acc = acc * 10 + d;
        i += 1;
    }
    proof {
        assert(s@.take(i as int) =~= s@);
    }
    Some(acc)
}

fn build_bad_date(name: &str) -> (r: String)
    ensures
        r@ == msg_bad_date(name@),
{
    let mut m = String::from_str("bad ");
    m.append(name);
    m.append(" - not a month/day/year date");
    proof {
        assert(m@ =~= msg_bad_date(name@));
    }
    m
}

/// The time of day denoted by a clock token `hour:minute` (twelve-hour
/// clock, one or two digits each) and a period token `AM` or `PM`.
pub open spec fn spec_parse_time(t: Seq<char>, p: Seq<char>) -> Option<Time> {
    let parts = spec_split(t, seq![':']);
    if parts.len() != 2 {
        None
    } else {
        let h = parts[0];
        let m = parts[1];
        if 1 <= h.len() <= 2 && 1 <= m.len() <= 2 && all_digits(h) && all_digits(m) {
            let hv = spec_digits_val(h);
            let mv = spec_digits_val(m);
            if 1 <= hv <= 12 && mv <= 59 && (p == "AM"@ || p == "PM"@) {
                let hour: int = if p == "AM"@ {
                    if hv == 12 {
                        0
                    } else {
                        hv
                    }
                } else {
                    if hv == 12 {
                        12
                    } else {
                        hv + 12
                    }
                };
                Some(Time { hour: hour as u32, minute: mv as u32 })
            } else {
                None
            }
        } else {
            None
        }
    }
}

/// Parse a clock token and a period token into a time of day
pub fn parse_time(clock: &str, period: &str, name: &str) -> (r: Result<Time, String>)
    ensures
        match r {
            Ok(t) => spec_parse_time(clock@, period@) == Some(t),
            Err(e) => spec_parse_time(clock@, period@) is None && e@ == msg_bad_time(name@),
        },
{
    let colon = ":";
    proof {
        reveal_strlit(":");
        assert(colon@ =~= seq![':']);
    }
    let parts = crate::text::split_str(clock, colon);
    proof {
        assert(parts@.map_values(|t: &str| t@) == spec_split(clock@, seq![':']));
    }
    if parts.len() != 2 {
        return Err(build_bad_time(name));
    }
    let h = parts[0];
    let m = parts[1];
    proof {
        assert(h@ == spec_split(clock@, seq![':'])[0]);
        assert(m@ == spec_split(clock@, seq![':'])[1]);
    }
    let hl = h.unicode_len();
    let ml = m.unicode_len();
    if !(1 <= hl && hl <= 2 && 1 <= ml && ml <= 2) {
        return Err(build_bad_time(name));
    }
    let hv = match parse_digits_small(h) {
        Some(v) => v,
        None => {
            return Err(build_bad_time(name));
        },
    };
    let mv = match parse_digits_small(m) {
        Some(v) => v,
        None => {
            return Err(build_bad_time(name));
        },
    };
    let is_am = crate::text::str_eq(period, "AM");
    let is_pm = crate::text::str_eq(period, "PM");
    if !(1 <= hv && hv <= 12 && mv <= 59 && (is_am || is_pm)) {
        return Err(build_bad_time(name));
    }
    let hour: u32 = if is_am {
        if hv == 12 {
            0
        } else {
            hv
        }
    } else {
        if hv == 12 {
            12
        } else {
            hv + 12
        }
    };
    Ok(Time { hour, minute: mv })
}

fn build_bad_time(name: &str) -> (r: String)
    ensures
        r@ == msg_bad_time(name@),
{
    let mut m = String::from_str("bad ");
    m.append(name);
    m.append(" - not an hour:minute clock time");
    proof {
        assert(m@ =~= msg_bad_time(name@));
    }
    m
}

} // verus!
