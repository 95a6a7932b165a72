use vstd::prelude::*;

verus! {

broadcast use {
    vstd::std_specs::vec::group_vec_axioms,
    vstd::seq::group_seq_axioms,
    vstd::seq_lib::group_seq_lib_default,
};

/// A decimal digit.
pub open spec fn is_digit(c: char) -> bool {
    48 <= c as int <= 57
}

pub open spec fn digit_val(c: char) -> int {
    c as int - 48
}

pub open spec fn all_digits(s: Seq<char>) -> bool {
    forall|i: int| 0 <= i < s.len() ==> is_digit(s[i])
}

/// Value of a string of decimal digits, most significant first.
pub open spec fn dec_val(s: Seq<char>) -> int
    decreases s.len(),
{
    if s.len() == 0 {
        0
    } else {
        dec_val(s.drop_last()) * 10 + digit_val(s.last())
    }
}

pub proof fn lemma_dec_val_bound(s: Seq<char>)
    requires
        all_digits(s),
    ensures
        0 <= dec_val(s),
        s.len() <= 1 ==> dec_val(s) <= 9,
        s.len() <= 2 ==> dec_val(s) <= 99,
        s.len() <= 3 ==> dec_val(s) <= 999,
        s.len() <= 4 ==> dec_val(s) <= 9999,
    decreases s.len(),
{
    if s.len() > 0 {
        assert(forall|i: int| 0 <= i < s.drop_last().len() ==> s.drop_last()[i] == s[i]);
        lemma_dec_val_bound(s.drop_last());
        assert(is_digit(s.last()));
    }
}

/// Reads the digits of `s` between `from` and `to` as a number.
/// Succeeds exactly when every character there is a decimal digit.
#[verifier::loop_isolation(false)]
pub fn read_digits(s: &str, from: usize, to: usize) -> (r: Option<u16>)
    requires
        from <= to <= s@.len(),
        to - from <= 4,
    ensures
        (match r {
            Option::Some(v) => all_digits(s@.subrange(from as int, to as int)) && v as int
                == dec_val(s@.subrange(from as int, to as int)),
            Option::None => !all_digits(s@.subrange(from as int, to as int)),
        }),
{
    let ghost sub = s@.subrange(from as int, to as int);
    let mut acc: u16 = 0;
    let mut i: usize = from;
    proof {
        assert(sub.take(0) =~= Seq::empty());
    }
    while i < to
        invariant
            from <= i <= to,
            all_digits(sub.take(i - from)),
            acc as int == dec_val(sub.take(i - from)),
            acc <= 9999,
        decreases to - i,
    {
        let c = s.get_char(i);
        let u = c as u32;
        if u < 48 || u > 57 {
            proof {
                assert(sub[i - from] == s@[i as int]);
            }
            return Option::None;
        }
        proof {
            assert(sub[i - from] == s@[i as int]);
            assert(sub.take(i - from + 1).drop_last() =~= sub.take(i - from));
            assert(sub.take(i - from + 1).last() == sub[i - from]);
            lemma_dec_val_bound(sub.take(i - from));
        }
        acc = acc * 10 + ((u - 48) as u16);
        i = i + 1;
    }
    proof {
        assert(sub.take(to - from) =~= sub);
    }
    Option::Some(acc)
}

/// Leap years of the proleptic Gregorian calendar.
pub open spec fn is_leap_year(y: int) -> bool {
    y % 4 == 0 && (y % 100 != 0 || y % 400 == 0)
}

pub open spec fn days_in_year(y: int) -> int {
    if is_leap_year(y) {
        366
    } else {
        365
    }
}

pub open spec fn days_in_month(y: int, m: int) -> int {
    if m == 1 {
        31
    } else if m == 2 {
        if is_leap_year(y) {
            29
        } else {
            28
        }
    } else if m == 3 {
        31
    } else if m == 4 {
        30
    } else if m == 5 {
        31
    } else if m == 6 {
        30
    } else if m == 7 {
        31
    } else if m == 8 {
        31
    } else if m == 9 {
        30
    } else if m == 10 {
        31
    } else if m == 11 {
        30
    } else {
        31
    }
}

/// Days from 1970-01-01 to January 1 of year `y` (negative before
/// 1970).
pub open spec fn days_before_year(y: int) -> int
    decreases (if y >= 1970 {
        y - 1970
    } else {
        1970 - y
    }),
{
    if y == 1970 {
        0
    } else if y > 1970 {
        days_before_year(y - 1) + days_in_year(y - 1)
    } else {
        days_before_year(y + 1) - days_in_year(y)
    }
}

/// Days from January 1 to the first day of month `m` in year `y`.
pub open spec fn days_before_month(y: int, m: int) -> int
    decreases m,
{
    if m <= 1 {
        0
    } else {
        days_before_month(y, m - 1) + days_in_month(y, m - 1)
    }
}

/// Days from 1970-01-01 to the civil date `y`-`m`-`d`.
pub open spec fn days_from_civil(y: int, m: int, d: int) -> int {
    days_before_year(y) + days_before_month(y, m) + (d - 1)
}

pub proof fn lemma_days_before_year_bounds(y: int)
    requires
        0 <= y <= 10000,
    ensures
        y >= 1970 ==> 365 * (y - 1970) <= days_before_year(y) <= 366 * (y - 1970),
        y < 1970 ==> -366 * (1970 - y) <= days_before_year(y) <= -365 * (1970 - y),
    decreases (if y >= 1970 {
        y - 1970
    } else {
        1970 - y
    }),
{
    if y > 1970 {
        lemma_days_before_year_bounds(y - 1);
    } else if y < 1970 {
        lemma_days_before_year_bounds(y + 1);
    }
}

pub proof fn lemma_days_before_month_bounds(y: int, m: int)
    requires
        1 <= m <= 13,
    ensures
        0 <= days_before_month(y, m) <= 31 * (m - 1),
    decreases m,
{
    if m > 1 {
        lemma_days_before_month_bounds(y, m - 1);
    }
}

/// Computes `days_before_year` by walking year by year from 1970.
#[verifier::loop_isolation(false)]
fn days_in_year_x(y: i64) -> (r: i64)
    requires
        0 <= y <= 10000,
    ensures
        r as int == days_in_year(y as int),
{
    if y % 4 == 0 && (y % 100 != 0 || y % 400 == 0) {
        366
    } else {
        365
    }
}

fn days_in_month_x(y: i64, m: i64) -> (r: i64)
    requires
        0 <= y <= 10000,
        1 <= m <= 12,
    ensures
        r as int == days_in_month(y as int, m as int),
{
    if m == 1 {
        31
    } else if m == 2 {
        if y % 4 == 0 && (y % 100 != 0 || y % 400 == 0) {
            29
        } else {
            28
        }
    } else if m == 3 {
        31
    } else if m == 4 {
        30
    } else if m == 5 {
        31
    } else if m == 6 {
        30
    } else if m == 7 {
        31
    } else if m == 8 {
        31
    } else if m == 9 {
        30
    } else if m == 10 {
        31
    } else if m == 11 {
        30
    } else {
        31
    }
}

/// Day number of a civil date, counted from 1970-01-01.
#[verifier::loop_isolation(false)]
pub fn civil_to_days(y: i64, m: i64, d: i64) -> (r: i64)
    requires
        0 <= y <= 9999,
        1 <= m <= 12,
        1 <= d <= 31,
    ensures
        r as int == days_from_civil(y as int, m as int, d as int),
        -730000 <= r <= 3000000,
{
    let mut acc: i64 = 0;
    if y >= 1970 {
        let mut yr: i64 = 1970;
        while yr < y
            invariant
                1970 <= yr <= y,
                acc as int == days_before_year(yr as int),
                365 * (yr - 1970) <= acc <= 366 * (yr - 1970),
            decreases y - yr,
        {
            acc = acc + days_in_year_x(yr);
            yr = yr + 1;
        }
    } else {
        let mut yr: i64 = 1970;
        while yr > y
            invariant
                y <= yr <= 1970,
                acc as int == days_before_year(yr as int),
                -366 * (1970 - yr) <= acc <= -365 * (1970 - yr),
            decreases yr - y,
        {
            acc = acc - days_in_year_x(yr - 1);
            yr = yr - 1;
        }
    }
    let mut mo: i64 = 1;
    let mut macc: i64 = 0;
    while mo < m
        invariant
            1 <= mo <= m,
            macc as int == days_before_month(y as int, mo as int),
            0 <= macc <= 372,
        decreases m - mo,
    {
        proof {
            lemma_days_before_month_bounds(y as int, mo as int + 1);
        }
        macc = macc + days_in_month_x(y, mo);
        mo = mo + 1;
    }
    proof {
        lemma_days_before_year_bounds(y as int);
    }
    acc + macc + (d - 1)
}

/// First position at or after `i` that does not hold a digit.
pub open spec fn run_end(s: Seq<char>, i: int) -> int
    decreases s.len() - i,
{
    if i < 0 || i >= s.len() || !is_digit(s[i]) {
        i
    } else {
        run_end(s, i + 1)
    }
}

pub proof fn lemma_run_end_at(s: Seq<char>, i: int, k: int)
    requires
        0 <= i <= k <= s.len(),
        forall|j: int| i <= j < k ==> is_digit(s[j]),
        k == s.len() || !is_digit(s[k]),
    ensures
        run_end(s, i) == k,
    decreases k - i,
{
    if i < k {
        lemma_run_end_at(s, i + 1, k);
    }
}

/// The date-and-time part of an RFC 3339 timestamp:
/// `YYYY-MM-DD` then `'T'`, `'t'` or `' '`, then `hh:mm:ss`, with
/// every field in range.
pub open spec fn iso_date_time_ok(s: Seq<char>) -> bool {
    &&& s.len() >= 20
    &&& all_digits(s.subrange(0, 4))
    &&& s[4] == '-'
    &&& all_digits(s.subrange(5, 7))
    &&& s[7] == '-'
    &&& all_digits(s.subrange(8, 10))
    &&& (s[10] == 'T' || s[10] == 't' || s[10] == ' ')
    &&& all_digits(s.subrange(11, 13))
    &&& s[13] == ':'
    &&& all_digits(s.subrange(14, 16))
    &&& s[16] == ':'
    &&& all_digits(s.subrange(17, 19))
    &&& 1 <= dec_val(s.subrange(5, 7)) <= 12
    &&& 1 <= dec_val(s.subrange(8, 10)) <= days_in_month(
        dec_val(s.subrange(0, 4)),
        dec_val(s.subrange(5, 7)),
    )
    &&& dec_val(s.subrange(11, 13)) <= 23
    &&& dec_val(s.subrange(14, 16)) <= 59
    &&& dec_val(s.subrange(17, 19)) <= 59
}

/// Where the UTC-offset part starts: right after the seconds, or
/// after the fractional digits when a `'.'` follows the seconds.
pub open spec fn iso_offset_start(s: Seq<char>) -> int {
    if s.len() > 19 && s[19] == '.' {
        run_end(s, 20)
    } else {
        19
    }
}

/// A `'.'` after the seconds must carry at least one digit.
pub open spec fn iso_frac_ok(s: Seq<char>) -> bool {
    (s.len() > 19 && s[19] == '.') ==> run_end(s, 20) > 20
}

/// The offset is `'Z'`/`'z'`, or a signed `hh:mm` in range, and ends
/// the string.
pub open spec fn iso_offset_ok(s: Seq<char>) -> bool {
    let p = iso_offset_start(s);
    ||| (p < s.len() && (s[p] == 'Z' || s[p] == 'z') && s.len() == p + 1)
    ||| (p < s.len() && (s[p] == '+' || s[p] == '-') && s.len() == p + 6 && all_digits(
        s.subrange(p + 1, p + 3),
    ) && s[p + 3] == ':' && all_digits(s.subrange(p + 4, p + 6)) && dec_val(
        s.subrange(p + 1, p + 3),
    ) <= 23 && dec_val(s.subrange(p + 4, p + 6)) <= 59)
}

/// An RFC 3339 timestamp with seconds (fractional seconds allowed and
/// ignored) and an explicit offset.
pub open spec fn iso_valid(s: Seq<char>) -> bool {
    iso_date_time_ok(s) && iso_frac_ok(s) && iso_offset_ok(s)
}

pub open spec fn iso_offset_secs(s: Seq<char>) -> int {
    let p = iso_offset_start(s);
    if p < s.len() && s[p] == '+' {
        dec_val(s.subrange(p + 1, p + 3)) * 3600 + dec_val(s.subrange(p + 4, p + 6)) * 60
    } else if p < s.len() && s[p] == '-' {
        -(dec_val(s.subrange(p + 1, p + 3)) * 3600 + dec_val(s.subrange(p + 4, p + 6)) * 60)
    } else {
        0
    }
}

/// The UTC instant an RFC 3339 timestamp denotes, in whole seconds
/// since 1970-01-01T00:00:00Z (fractional seconds truncated).
pub open spec fn iso_instant(s: Seq<char>) -> int {
    days_from_civil(
        dec_val(s.subrange(0, 4)),
        dec_val(s.subrange(5, 7)),
        dec_val(s.subrange(8, 10)),
    ) * 86400 + dec_val(s.subrange(11, 13)) * 3600 + dec_val(s.subrange(14, 16)) * 60 + dec_val(
        s.subrange(17, 19),
    ) - iso_offset_secs(s)
}

fn is_digit_x(c: char) -> (b: bool)
    ensures
        b == is_digit(c),
{
    let u = c as u32;
    48 <= u && u <= 57
}

/// Parses an RFC 3339 timestamp to the UTC instant it denotes, in
/// whole seconds since the epoch; fails exactly on strings that are
/// not a valid timestamp of that shape.
#[verifier::loop_isolation(false)]
pub fn parse_iso8601(s: &str) -> (r: Option<i64>)
    ensures
        (match r {
            Option::Some(t) => iso_valid(s@) && t as int == iso_instant(s@),
            Option::None => !iso_valid(s@),
        }),
{
    let n = s.unicode_len();
    if n < 20 {
        return Option::None;
    }
    let y = match read_digits(s, 0, 4) {
        Option::Some(v) => v,
        Option::None => {
            return Option::None;
        },
    };
    if s.get_char(4) != '-' {
        return Option::None;
    }
    let mo = match read_digits(s, 5, 7) {
        Option::Some(v) => v,
        Option::None => {
            return Option::None;
        },
    };
    if s.get_char(7) != '-' {
        return Option::None;
    }
    let d = match read_digits(s, 8, 10) {
        Option::Some(v) => v,
        Option::None => {
            return Option::None;
        },
    };
    let sep = s.get_char(10);
    if !(sep == 'T' || sep == 't' || sep == ' ') {
        return Option::None;
    }
    let h = match read_digits(s, 11, 13) {
        Option::Some(v) => v,
        Option::None => {
            return Option::None;
        },
    };
    if s.get_char(13) != ':' {
        return Option::None;
    }
    let mi = match read_digits(s, 14, 16) {
        Option::Some(v) => v,
        Option::None => {
            return Option::None;
        },
    };
    if s.get_char(16) != ':' {
        return Option::None;
    }
    let se = match read_digits(s, 17, 19) {
        Option::Some(v) => v,
        Option::None => {
            return Option::None;
        },
    };
    proof {
        lemma_dec_val_bound(s@.subrange(0, 4));
        lemma_dec_val_bound(s@.subrange(5, 7));
        lemma_dec_val_bound(s@.subrange(8, 10));
        lemma_dec_val_bound(s@.subrange(11, 13));
        lemma_dec_val_bound(s@.subrange(14, 16));
        lemma_dec_val_bound(s@.subrange(17, 19));
    }
    if mo < 1 || mo > 12 {
        return Option::None;
    }
    if d < 1 {
        return Option::None;
    }
    let dim = days_in_month_x(y as i64, mo as i64);
    if (d as i64) > dim {
        return Option::None;
    }
    if h > 23 || mi > 59 || se > 59 {
        return Option::None;
    }
    let mut p: usize = 19;
    if s.get_char(19) == '.' {
        let mut j: usize = 20;
        while j < n && is_digit_x(s.get_char(j))
            invariant
                20 <= j <= n,
                forall|k: int| 20 <= k < j ==> is_digit(s@[k]),
            decreases n - j,
        {
            j = j + 1;
        }
        proof {
            lemma_run_end_at(s@, 20, j as int);
        }
        if j == 20 {
            return Option::None;
        }
        p = j;
    }
    let off: i64;
    if p >= n {
        return Option::None;
    }
    let c = s.get_char(p);
    if c == 'Z' || c == 'z' {
        if n != p + 1 {
            return Option::None;
        }
        off = 0;
    } else if c == '+' || c == '-' {
        if n - p != 6 {
            return Option::None;
        }
        let oh = match read_digits(s, p + 1, p + 3) {
            Option::Some(v) => v,
            Option::None => {
                return Option::None;
            },
        };
        if s.get_char(p + 3) != ':' {
            return Option::None;
        }
        let om = match read_digits(s, p + 4, p + 6) {
            Option::Some(v) => v,
            Option::None => {
                return Option::None;
            },
        };
        proof {
            lemma_dec_val_bound(s@.subrange(p as int + 1, p as int + 3));
            lemma_dec_val_bound(s@.subrange(p as int + 4, p as int + 6));
        }
        if oh > 23 || om > 59 {
            return Option::None;
        }
        let mag = (oh as i64) * 3600 + (om as i64) * 60;
        off = if c == '-' {
            -mag
        } else {
            mag
        };
    } else {
        return Option::None;
    }
    let days = civil_to_days(y as i64, mo as i64, d as i64);
    let t = days * 86400 + (h as i64) * 3600 + (mi as i64) * 60 + (se as i64) - off;
    Option::Some(t)
}

/// The digits of an epoch-milliseconds string, after an optional
/// sign.
pub open spec fn millis_digits(s: Seq<char>) -> Seq<char> {
    if s.len() > 0 && (s[0] == '-' || s[0] == '+') {
        s.drop_first()
    } else {
        s
    }
}

pub open spec fn millis_negative(s: Seq<char>) -> bool {
    s.len() > 0 && s[0] == '-'
}

/// A string of epoch milliseconds: an optional sign and at least one
/// digit, denoting a value that fits a 64-bit signed integer.
pub open spec fn epoch_millis_valid(s: Seq<char>) -> bool {
    &&& millis_digits(s).len() > 0
    &&& all_digits(millis_digits(s))
    &&& i64::MIN <= epoch_millis_val(s) <= i64::MAX
}

/// The signed value an epoch-milliseconds string denotes.
pub open spec fn epoch_millis_val(s: Seq<char>) -> int {
    if millis_negative(s) {
        -dec_val(millis_digits(s))
    } else {
        dec_val(millis_digits(s))
    }
}

/// Whole seconds of an instant given in milliseconds, rounded toward
/// minus infinity.
pub open spec fn millis_to_secs(ms: int) -> int {
    ms / 1000
}

/// A longer digit string never denotes a smaller value.
proof fn lemma_dec_val_prefix_le(s: Seq<char>, i: int)
    requires
        all_digits(s),
        0 <= i <= s.len(),
    ensures
        dec_val(s.take(i)) <= dec_val(s),
    decreases s.len() - i,
{
    if i < s.len() {
        lemma_dec_val_prefix_le(s, i + 1);
        assert(s.take(i + 1).drop_last() =~= s.take(i));
        assert(s.take(i + 1).last() == s[i]);
        assert(forall|j: int| 0 <= j < i + 1 ==> s.take(i + 1)[j] == s[j]);
        lemma_dec_val_nonneg(s.take(i));
    } else {
        assert(s.take(i) =~= s);
    }
}

proof fn lemma_dec_val_nonneg(s: Seq<char>)
    requires
        all_digits(s),
    ensures
        dec_val(s) >= 0,
    decreases s.len(),
{
    if s.len() > 0 {
        assert(forall|i: int| 0 <= i < s.drop_last().len() ==> s.drop_last()[i] == s[i]);
        lemma_dec_val_nonneg(s.drop_last());
    }
}

/// Reads the digits after the sign, failing exactly when the value
/// cannot fit, i.e. exceeds `bound`.
#[verifier::loop_isolation(false)]
fn read_millis_digits(s: &str, from: usize, bound: u64) -> (r: Option<u64>)
    requires
        from <= s@.len(),
        bound >= 9,
    ensures
        (match r {
            Option::Some(v) => {
                &&& all_digits(s@.skip(from as int))
                &&& s@.len() - from > 0
                &&& v as int == dec_val(s@.skip(from as int))
                &&& v <= bound
            },
            Option::None => !(all_digits(s@.skip(from as int)) && s@.len() - from > 0 && dec_val(
                s@.skip(from as int),
            ) <= bound),
        }),
{
    let ghost digits = s@.skip(from as int);
    let n = s.unicode_len();
    if n == from {
        return Option::None;
    }
    let mut acc: u64 = 0;
    let mut i: usize = from;
    proof {
        assert(digits.take(0) =~= Seq::empty());
    }
    while i < n
        invariant
            from <= i <= n,
            n == s@.len(),
            digits == s@.skip(from as int),
            all_digits(digits.take(i - from)),
            acc as int == dec_val(digits.take(i - from)),
            acc <= bound,
        decreases n - i,
    {
        let c = s.get_char(i);
        let u = c as u32;
        if u < 48 || u > 57 {
            proof {
                assert(digits[i - from] == s@[i as int]);
            }
            return Option::None;
        }
        let d = (u - 48) as u64;
        proof {
            assert(digits[i - from] == s@[i as int]);
            assert(digits.take(i - from + 1).drop_last() =~= digits.take(i - from));
            assert(digits.take(i - from + 1).last() == digits[i - from]);
        }
        if acc > (bound - d) / 10 {
            proof {
                let q = (bound - d) as int;
                assert(acc as int * 10 + d > bound) by (nonlinear_arith)
                    requires
                        acc as int > q / 10,
                        q == bound - d,
                        0 <= d <= 9,
                        q >= 0,
                {}
                assert(dec_val(digits.take(i - from + 1)) > bound);
                if all_digits(digits) {
                    lemma_dec_val_prefix_le(digits, i - from + 1);
                }
            }
            return Option::None;
        }
        proof {
            let q = (bound - d) as int;
            assert(acc as int * 10 + d <= bound) by (nonlinear_arith)
                requires
                    acc as int <= q / 10,
                    q == bound - d,
                    0 <= d <= 9,
                    0 <= acc as int,
                    q >= 0,
            {}
        }
        acc = acc * 10 + d;
        i = i + 1;
    }
    proof {
        assert(digits.take(n - from) =~= digits);
    }
    Option::Some(acc)
}

/// Parses a string of epoch milliseconds and converts it to whole
/// seconds since the epoch, rounding toward minus infinity; fails
/// exactly on strings that are not a signed decimal numeral fitting
/// 64 bits.
pub fn parse_epoch_millis_secs(s: &str) -> (r: Option<i64>)
    ensures
        (match r {
            Option::Some(t) => epoch_millis_valid(s@) && t as int == millis_to_secs(
                epoch_millis_val(s@),
            ),
            Option::None => !epoch_millis_valid(s@),
        }),
{
    let n = s.unicode_len();
    if n == 0 {
        return Option::None;
    }
    let c0 = s.get_char(0);
    let neg = c0 == '-';
    let from: usize = if c0 == '-' || c0 == '+' {
        1
    } else {
        0
    };
    proof {
        if from == 1 {
            assert(millis_digits(s@) =~= s@.skip(1));
        } else {
            assert(millis_digits(s@) =~= s@.skip(0));
        }
    }
    let bound: u64 = if neg {
        9223372036854775808
    } else {
        9223372036854775807
    };
    let mag = match read_millis_digits(s, from, bound) {
        Option::Some(v) => v,
        Option::None => {
            return Option::None;
        },
    };
    if !neg {
        return Option::Some((mag / 1000) as i64);
    }
    let q = (mag + 999) / 1000;
    proof {
        let m = mag as int;
        let k = m / 1000;
        let rem = m % 1000;
        vstd::arithmetic::div_mod::lemma_fundamental_div_mod(m, 1000);
        vstd::arithmetic::div_mod::lemma_fundamental_div_mod(m + 999, 1000);
        vstd::arithmetic::div_mod::lemma_fundamental_div_mod(-m, 1000);
        assert(m == 1000 * k + rem && 0 <= rem < 1000);
        if rem == 0 {
            assert((m + 999) / 1000 == k) by (nonlinear_arith)
                requires
                    m == 1000 * k,
                    m >= 0,
            {}
            assert((-m) / 1000 == -k) by (nonlinear_arith)
                requires
                    m == 1000 * k,
                    m >= 0,
            {}
        } else {
            assert((m + 999) / 1000 == k + 1) by (nonlinear_arith)
                requires
                    m == 1000 * k + rem,
                    0 < rem < 1000,
                    m >= 0,
            {}
            assert((-m) / 1000 == -(k + 1)) by (nonlinear_arith)
                requires
                    m == 1000 * k + rem,
                    0 < rem < 1000,
                    m >= 0,
            {}
        }
    }
    Option::Some(-((q) as i64))
}

} // verus!
