use crate::glyphs::{chars_of_str, string_from_chars};
use vstd::prelude::*;

verus! {

/// The decimal digit character for a value 0 through 9.
pub open spec fn spec_digit(d: int) -> char {
    if d == 0 {
        '0'
    } else if d == 1 {
        '1'
    } else if d == 2 {
        '2'
    } else if d == 3 {
        '3'
    } else if d == 4 {
        '4'
    } else if d == 5 {
        '5'
    } else if d == 6 {
        '6'
    } else if d == 7 {
        '7'
    } else if d == 8 {
        '8'
    } else {
        '9'
    }
}

/// The decimal digits of a nonnegative value, most significant first.
pub open spec fn spec_decimal(n: int) -> Seq<char>
    decreases n,
{
    if n < 10 {
        seq![spec_digit(n)]
    } else {
        spec_decimal(n / 10) + seq![spec_digit(n % 10)]
    }
}

/// The decimal digits of a nonnegative value, left-padded with '0' to at
/// least two characters.
pub open spec fn spec_pad2(n: int) -> Seq<char> {
    if n < 10 {
        seq!['0'] + spec_decimal(n)
    } else {
        spec_decimal(n)
    }
}

/// `s` with every non-overlapping occurrence of the non-empty pattern,
/// scanned left to right, replaced by `rep`.
pub open spec fn spec_replaced(s: Seq<char>, pat: Seq<char>, rep: Seq<char>) -> Seq<char>
    decreases s.len(),
{
    if s.len() == 0 {
        Seq::<char>::empty()
    } else if 0 < pat.len() <= s.len() && s.take(pat.len() as int) == pat {
        rep + spec_replaced(s.skip(pat.len() as int), pat, rep)
    } else {
        seq![s[0]] + spec_replaced(s.skip(1), pat, rep)
    }
}

/// Format a nonnegative duration of `ts` seconds per a pattern string:
/// each `{D:2}` / `{D}` / `{H:2}` / `{H}` / `{M:02}` / `{M}` / `{S:02}` /
/// `{S}` marker, replaced in that order, becomes the zero-padded or plain
/// decimal days, hours, minutes and seconds of the duration.
pub open spec fn spec_strfdelta(ts: int, format: Seq<char>) -> Seq<char> {
    let days = ts / 86400;
    let hours = (ts % 86400) / 3600;
    let minutes = ((ts % 86400) % 3600) / 60;
    let seconds = ((ts % 86400) % 3600) % 60;
    let s1 = spec_replaced(format, seq!['{', 'D', ':', '2', '}'], spec_pad2(days));
    let s2 = spec_replaced(s1, seq!['{', 'D', '}'], spec_decimal(days));
    let s3 = spec_replaced(s2, seq!['{', 'H', ':', '2', '}'], spec_pad2(hours));
    let s4 = spec_replaced(s3, seq!['{', 'H', '}'], spec_decimal(hours));
    let s5 = spec_replaced(s4, seq!['{', 'M', ':', '0', '2', '}'], spec_pad2(minutes));
    let s6 = spec_replaced(s5, seq!['{', 'M', '}'], spec_decimal(minutes));
    let s7 = spec_replaced(s6, seq!['{', 'S', ':', '0', '2', '}'], spec_pad2(seconds));
    spec_replaced(s7, seq!['{', 'S', '}'], spec_decimal(seconds))
}

/// The decimal digit character of a value 0 through 9.
fn digit_char(d: u64) -> (c: char)
    requires
        d < 10,
    ensures
        c == spec_digit(d as int),
{
    if d == 0 {
        '0'
    } else if d == 1 {
        '1'
    } else if d == 2 {
        '2'
    } else if d == 3 {
        '3'
    } else if d == 4 {
        '4'
    } else if d == 5 {
        '5'
    } else if d == 6 {
        '6'
    } else if d == 7 {
        '7'
    } else if d == 8 {
        '8'
    } else {
        '9'
    }
}

/// The decimal digits of `n`, most significant first.
fn decimal_chars(n: u64) -> (v: Vec<char>)
    ensures
        v@ == spec_decimal(n as int),
    decreases n,
{
    if n < 10 {
        let mut v: Vec<char> = Vec::new();
        v.push(digit_char(n));
        proof {
            assert(v@ =~= spec_decimal(n as int));
        }
        v
    } else {
        let mut v = decimal_chars(n / 10);
        v.push(digit_char(n % 10));
        proof {
            assert(v@ =~= spec_decimal(n as int));
        }
        v
    }
}

/// The decimal digits of `n`, zero-padded to at least two characters.
fn pad2_chars(n: u64) -> (v: Vec<char>)
    ensures
        v@ == spec_pad2(n as int),
{
    if n < 10 {
        let mut v: Vec<char> = Vec::new();
        v.push('0');
        v.push(digit_char(n));
        proof {
            assert(v@ =~= spec_pad2(n as int));
        }
        v
    } else {
        decimal_chars(n)
    }
}

/// The pattern occurs at position `i` of `s`.
fn matches_at(s: &Vec<char>, i: usize, pat: &Vec<char>) -> (r: bool)
    requires
        i + pat@.len() <= s@.len(),
    ensures
        r == (s@.skip(i as int).take(pat@.len() as int) == pat@),
{
    let m: usize = pat.len();
    let l: usize = s.len();
    proof {
        assert(l as int == s@.len());
    }
    let mut k: usize = 0;
    while k < m
        invariant
            i + m <= s@.len(),
            s@.len() <= usize::MAX as int,
            m == pat@.len(),
            k <= m,
            forall|t: int| 0 <= t < k ==> s@[i + t] == pat@[t],
        decreases m - k,
    {
        if s[i + k] != pat[k] {
            proof {
                assert(s@.skip(i as int).take(m as int)[k as int] != pat@[k as int]);
            }
            return false;
        }
        k = k + 1;
    }
    proof {
        assert(s@.skip(i as int).take(m as int) =~= pat@);
    }
    true
}

/// `s` from position `i` on, with each occurrence of the pattern replaced.
fn replace_from(s: &Vec<char>, i: usize, pat: &Vec<char>, rep: &Vec<char>) -> (v: Vec<char>)
    requires
        i <= s@.len(),
        pat@.len() > 0,
    ensures
        v@ == spec_replaced(s@.skip(i as int), pat@, rep@),
    decreases s@.len() - i,
{
    let n: usize = s.len();
    let m: usize = pat.len();
    if i == n {
        let v: Vec<char> = Vec::new();
        proof {
            assert(s@.skip(i as int) =~= Seq::<char>::empty());
        }
        return v;
    }
    if m <= n - i && matches_at(s, i, pat) {
        proof {
            assert(s@.skip(i as int + m as int) =~= s@.skip(i as int).skip(m as int));
        }
        let mut rest = replace_from(s, i + m, pat, rep);
        let mut v: Vec<char> = Vec::new();
        let mut k: usize = 0;
        while k < rep.len()
            invariant
                k <= rep@.len(),
                v@ == rep@.take(k as int),
            decreases rep@.len() - k,
        {
            v.push(rep[k]);
            proof {
                assert(v@ =~= rep@.take(k as int + 1));
            }
            k = k + 1;
        }
        proof {
            assert(rep@.take(rep@.len() as int) =~= rep@);
        }
        v.append(&mut rest);
        proof {
            assert(v@ =~= spec_replaced(s@.skip(i as int), pat@, rep@));
        }
        v
    } else {
        proof {
            assert(s@.skip(i as int + 1) =~= s@.skip(i as int).skip(1));
            if m <= n - i {
                assert(s@.skip(i as int).take(m as int) != pat@);
            } else {
                assert(s@.skip(i as int).len() < pat@.len());
            }
        }
        let mut rest = replace_from(s, i + 1, pat, rep);
        rest.insert(0, s[i]);
        proof {
            assert(rest@ =~= seq![s@.skip(i as int)[0]] + spec_replaced(s@.skip(i as int).skip(1),
                pat@, rep@));
        }
        rest
    }
}

/// Format a nonnegative duration in seconds per the marker pattern: the
/// `{D…}`, `{H…}`, `{M…}` and `{S…}` markers become the duration's days,
/// hours, minutes and seconds, zero-padded where the marker asks for it.
pub fn strfdelta(total_seconds: i64, format: &str) -> (r: String)
    requires
        total_seconds >= 0,
    ensures
        r@ == spec_strfdelta(total_seconds as int, format@),
{
    let ts: u64 = total_seconds as u64;
    let days: u64 = ts / 86400;
    let remaining: u64 = ts % 86400;
    let hours: u64 = remaining / 3600;
    let remaining: u64 = remaining % 3600;
    let minutes: u64 = remaining / 60;
    let seconds: u64 = remaining % 60;
    let fmt = chars_of_str(format);
    let mut p: Vec<char> = Vec::new();
    p.push('{');
    p.push('D');
    p.push(':');
    p.push('2');
    p.push('}');
    proof {
        assert(p@ =~= seq!['{', 'D', ':', '2', '}']);
    }
    let s1 = replace_from(&fmt, 0, &p, &pad2_chars(days));
    let mut p: Vec<char> = Vec::new();
    p.push('{');
    p.push('D');
    p.push('}');
    proof {
        assert(p@ =~= seq!['{', 'D', '}']);
    }
    let s2 = replace_from(&s1, 0, &p, &decimal_chars(days));
    let mut p: Vec<char> = Vec::new();
    p.push('{');
    p.push('H');
    p.push(':');
    p.push('2');
    p.push('}');
    proof {
        assert(p@ =~= seq!['{', 'H', ':', '2', '}']);
    }
    let s3 = replace_from(&s2, 0, &p, &pad2_chars(hours));
    let mut p: Vec<char> = Vec::new();
    p.push('{');
    p.push('H');
    p.push('}');
    proof {
        assert(p@ =~= seq!['{', 'H', '}']);
    }
    let s4 = replace_from(&s3, 0, &p, &decimal_chars(hours));
    let mut p: Vec<char> = Vec::new();
    p.push('{');
    p.push('M');
    p.push(':');
    p.push('0');
    p.push('2');
    p.push('}');
    proof {
        assert(p@ =~= seq!['{', 'M', ':', '0', '2', '}']);
    }
    let s5 = replace_from(&s4, 0, &p, &pad2_chars(minutes));
    let mut p: Vec<char> = Vec::new();
    p.push('{');
    p.push('M');
    p.push('}');
    proof {
        assert(p@ =~= seq!['{', 'M', '}']);
    }
    let s6 = replace_from(&s5, 0, &p, &decimal_chars(minutes));
    let mut p: Vec<char> = Vec::new();
    p.push('{');
    p.push('S');
    p.push(':');
    p.push('0');
    p.push('2');
    p.push('}');
    proof {
        assert(p@ =~= seq!['{', 'S', ':', '0', '2', '}']);
    }
    let s7 = replace_from(&s6, 0, &p, &pad2_chars(seconds));
    let mut p: Vec<char> = Vec::new();
    p.push('{');
    p.push('S');
    p.push('}');
    proof {
        assert(p@ =~= seq!['{', 'S', '}']);
    }
    let s8 = replace_from(&s7, 0, &p, &decimal_chars(seconds));
    proof {
        assert(fmt@.skip(0) =~= fmt@);
        assert(s1@.skip(0) =~= s1@);
        assert(s2@.skip(0) =~= s2@);
        assert(s3@.skip(0) =~= s3@);
        assert(s4@.skip(0) =~= s4@);
        assert(s5@.skip(0) =~= s5@);
        assert(s6@.skip(0) =~= s6@);
        assert(s7@.skip(0) =~= s7@);
        assert(fmt@ == format@);
    }
    string_from_chars(&s8)
}

/// The countdown pattern to use for a signed distance of `total_seconds`
/// from the target moment: shorter patterns as the distance drops under a
/// minute, an hour and a day.
pub fn select_countdown_format<'a>(total_seconds: i64, format: &'a str, format_0_day: &'a str, format_0_hour: &'a str, format_0_minute: &'a str) -> (r: &'a str)
    requires
        total_seconds > i64::MIN,
    ensures
        -60 < total_seconds < 60 ==> r@ == format_0_minute@,
        !(-60 < total_seconds < 60) && -3600 < total_seconds < 3600 ==> r@ == format_0_hour@,
        !(-3600 < total_seconds < 3600) && -86400 < total_seconds < 86400 ==> r@ == format_0_day@,
        !(-86400 < total_seconds < 86400) ==> r@ == format@,
{
    if (total_seconds >= 0 && total_seconds < 60) || (total_seconds < 0 && total_seconds > -60) {
        format_0_minute
    } else if (total_seconds > 0 && total_seconds < 3600) || (total_seconds < 0 && total_seconds
        > -3600) {
        format_0_hour
    } else if (total_seconds > 0 && total_seconds < 86400) || (total_seconds < 0 && total_seconds
        > -86400) {
        format_0_day
    } else {
        format
    }
}

/// The strftime pattern the clock renders with: the caller's own pattern
/// when one is given, else one of the four 12/24-hour patterns with or
/// without seconds.
pub fn get_clock_format(clock_format: &Option<String>, h12: bool, no_seconds: bool) -> (r: String)
    ensures
        clock_format matches Some(x) ==> r@ == x@,
        clock_format is None && h12 && no_seconds ==> r@ == "%-I:%M %p"@,
        clock_format is None && h12 && !no_seconds ==> r@ == "%-I:%M:%S %p"@,
        clock_format is None && !h12 && no_seconds ==> r@ == "%H:%M"@,
        clock_format is None && !h12 && !no_seconds ==> r@ == "%H:%M:%S"@,
{
    match clock_format {
        Some(x) => x.clone(),
        None => {
            if h12 {
                if no_seconds {
                    "%-I:%M %p".to_owned()
                } else {
                    "%-I:%M:%S %p".to_owned()
                }
            } else {
                if no_seconds {
                    "%H:%M".to_owned()
                } else {
                    "%H:%M:%S".to_owned()
                }
            }
        },
    }
}

} // verus!
