//! Template filters and render-outcome handling.
//!
//! The rendering engine itself runs outside the library; what it calls back
//! into are these filters, each a pure function on a closed value model.
//! Numbers carry two implied decimals (hundredths), the precision every
//! filter renders.  A filter that receives a value kind it cannot coerce
//! fails with a typed error instead of guessing.
//!
//! A failed render never aborts the request: [`render_body`] replaces it
//! with a readable diagnostic body, a deliberate choice for this
//! operator-facing surface.

use vstd::prelude::*;
use crate::text::{
    spec_is_digit, spec_digit_value, is_digit, digit_value, spec_uint_chars, push_uint,
};
use crate::timefmt::{spec_is_time_of_day, is_time_of_day, spec_parse_datetime, parse_form_datetime};
use vstd::string::StrSliceExecFns;
use vstd::string::StringExecFns;

verus! {

/// Failure of a template filter.
#[derive(Clone, Copy, Debug, PartialEq, Eq, Structural)]
pub enum FilterError {
    /// The filter received a value kind it cannot coerce to a number.
    FilterTypeError,
    /// A time filter received a string that is neither a bare time of day
    /// nor a full date-time.
    InvalidTimeFormat,
}

/// A template-context value as the filters see it.  Numbers are in
/// hundredths; every other value kind the numeric filters reject.
#[derive(Debug)]
pub enum TemplateValue {
    /// A number, in hundredths.
    Num(i64),
    /// A string.
    Text(String),
    /// An absent or undefined value.
    Absent,
    /// Any other kind (a sequence, a record, a boolean).
    Other,
}

/// The value of the decimal digits `s[i..j)`, read most significant first.
pub open spec fn spec_digits_value(s: Seq<char>, i: int, j: int) -> int
    decreases j - i,
{
    if i >= j {
        0
    } else {
        spec_digits_value(s, i, j - 1) * 10 + spec_digit_value(s[j - 1])
    }
}

/// The index of the first `.` in `s` at or after `i`, or `s.len()`.
pub open spec fn spec_dot_pos(s: Seq<char>, i: int) -> int
    decreases s.len() - i,
{
    if i < 0 || i >= s.len() {
        s.len() as int
    } else if s[i] == '.' {
        i
    } else {
        spec_dot_pos(s, i + 1)
    }
}

/// Whether `s` is a decimal numeral: an optional minus sign, at least one
/// integer digit, and optionally a dot followed by at least one fraction
/// digit.
pub open spec fn spec_is_decimal(s: Seq<char>) -> bool {
    let st: int = if s.len() > 0 && s[0] == '-' {
        1
    } else {
        0
    };
    let dp = spec_dot_pos(s, st);
    &&& st < dp
    &&& (forall|i: int| st <= i < dp ==> spec_is_digit(#[trigger] s[i]))
    &&& (dp < s.len() ==> dp + 1 < s.len())
    &&& (forall|i: int| dp < i < s.len() ==> spec_is_digit(#[trigger] s[i]))
}

/// The value of a decimal numeral in hundredths, rounded half away from
/// zero on the third fraction digit (digits beyond the third are ignored).
pub open spec fn spec_decimal_centi(s: Seq<char>) -> int {
    let neg = s.len() > 0 && s[0] == '-';
    let st: int = if neg {
        1
    } else {
        0
    };
    let dp = spec_dot_pos(s, st);
    let whole = spec_digits_value(s, st, dp);
    let f1: int = if dp + 1 < s.len() {
        spec_digit_value(s[dp + 1])
    } else {
        0
    };
    let f2: int = if dp + 2 < s.len() {
        spec_digit_value(s[dp + 2])
    } else {
        0
    };
    let round: int = if dp + 3 < s.len() && spec_digit_value(s[dp + 3]) >= 5 {
        1
    } else {
        0
    };
    let magnitude = whole * 100 + f1 * 10 + f2 + round;
    if neg {
        -magnitude
    } else {
        magnitude
    }
}

/// The numeric reading of a template value, in hundredths: a number reads
/// as itself, a string as a decimal numeral when it is one and fits, and
/// nothing else reads as a number.
pub open spec fn spec_value_centi(v: TemplateValue) -> Option<int> {
    match v {
        TemplateValue::Num(c) => Some(c as int),
        TemplateValue::Text(s) => if spec_is_decimal(s@) && i64::MIN <= spec_decimal_centi(s@)
            <= i64::MAX {
            Some(spec_decimal_centi(s@))
        } else {
            None
        },
        _ => None,
    }
}

/// Reads the digits `s[start..end)` as an integer, in hundredths-safe
/// width.
fn read_digits(s: &str, start: usize, end: usize) -> (v: i128)
    requires
        start <= end <= s@.len(),
        s@.len() <= usize::MAX,
        forall|i: int| start <= i < end ==> spec_is_digit(#[trigger] s@[i]),
        end - start <= 17,
    ensures
        v == spec_digits_value(s@, start as int, end as int),
        0 <= v < 0x16345785d8a0000,
{
    let mut v: i128 = 0;
    let mut i = start;
    proof {
        assert(spec_digits_value(s@, start as int, start as int) == 0);
    }
    while i < end
        invariant
            start <= i <= end <= s@.len() <= usize::MAX,
            end - start <= 17,
            forall|j: int| start <= j < end ==> spec_is_digit(#[trigger] s@[j]),
            v == spec_digits_value(s@, start as int, i as int),
            0 <= v < pow10(i - start),
        decreases end - i,
    {
        let c = s.get_char(i);
        let d = digit_value(c);
        proof {
            lemma_pow10_step(i - start);
            lemma_pow10_le(i - start, 16);
            lemma_pow10_step(16);
        }
        v = v * 10 + (d as i128);
        i = i + 1;
    }
    proof {
        lemma_pow10_le(end - start, 17);
    }
    v
}

/// Ten to the `n`th, for digit-count bounds.
pub open spec fn pow10(n: int) -> int
    decreases n,
{
    if n <= 0 {
        1
    } else {
        10 * pow10(n - 1)
    }
}

proof fn lemma_pow10_step(n: int)
    requires
        n >= 0,
    ensures
        pow10(n + 1) == 10 * pow10(n),
        pow10(n) >= 1,
    decreases n,
{
    if n > 0 {
        lemma_pow10_step(n - 1);
    }
}

proof fn lemma_pow10_le(a: int, b: int)
    requires
        0 <= a <= b,
    ensures
        pow10(a) <= pow10(b),
        pow10(17) == 0x16345785d8a0000,
    decreases b,
{
    reveal_with_fuel(pow10, 19);
    assert(pow10(17) == 0x16345785d8a0000);
    if a < b {
        lemma_pow10_le(a, b - 1);
        lemma_pow10_step(b - 1);
    }
}

/// The numeric reading of a template value, in hundredths.  A number is
/// itself; a numeric string is parsed as a decimal numeral; any other kind
/// fails with `FilterTypeError`, as does a numeral too large to represent.
pub fn value_to_centi(v: &TemplateValue) -> (r: Result<i64, FilterError>)
    ensures
        r is Ok <==> spec_value_centi(*v) is Some,
        r matches Ok(c) ==> spec_value_centi(*v) == Some(c as int),
        r matches Err(e) ==> e == FilterError::FilterTypeError,
{
    match v {
        TemplateValue::Num(c) => Ok(*c),
        TemplateValue::Text(s) => parse_decimal_centi(s.as_str()),
        _ => Err(FilterError::FilterTypeError),
    }
}

/// Parses a decimal numeral into hundredths.
fn parse_decimal_centi(s: &str) -> (r: Result<i64, FilterError>)
    ensures
        r is Ok <==> spec_is_decimal(s@) && i64::MIN <= spec_decimal_centi(s@) <= i64::MAX,
        r matches Ok(c) ==> c as int == spec_decimal_centi(s@),
        r matches Err(e) ==> e == FilterError::FilterTypeError,
{
    let n = s.unicode_len();
    let neg = n > 0 && s.get_char(0) == '-';
    let st: usize = if neg {
        1
    } else {
        0
    };
    // locate the dot and check every other character is a digit
    let mut dp = n;
    let mut i = st;
    while i < n
        invariant
            st <= i <= n,
            n == s@.len(),
            s@.len() <= usize::MAX,
            st as int == (if s@.len() > 0 && s@[0] == '-' {
                1int
            } else {
                0int
            }),
            st <= dp <= n,
            i <= n,
            dp < n ==> dp < i && dp == spec_dot_pos(s@, st as int) && s@[dp as int] == '.',
            forall|j: int| st <= j < i && j != dp ==> spec_is_digit(#[trigger] s@[j]),
            dp == n ==> forall|j: int| st <= j < i ==> #[trigger] s@[j] != '.',
        decreases n - i,
    {
        let c = s.get_char(i);
        if c == '.' {
            if dp < n {
                // a second dot: not a numeral
                proof {
                    assert(st as int == if s@.len() > 0 && s@[0] == '-' {
                        1int
                    } else {
                        0int
                    });
                    assert(!spec_is_digit('.'));
                    assert(!spec_is_decimal(s@));
                }
                return Err(FilterError::FilterTypeError);
            }
            proof {
                lemma_dot_pos_found(s@, st as int, i as int);
            }
            dp = i;
        } else if !is_digit(c) {
            proof {
                assert(st as int == if s@.len() > 0 && s@[0] == '-' {
                    1int
                } else {
                    0int
                });
                if dp == n {
                    lemma_dot_pos_bound(s@, st as int, i as int);
                    lemma_dot_pos_cap(s@, st as int);
                    lemma_dot_pos_hits(s@, st as int);
                    assert(spec_dot_pos(s@, st as int) >= i);
                    assert(spec_dot_pos(s@, st as int) != i);
                }
                assert(!spec_is_decimal(s@));
            }
            return Err(FilterError::FilterTypeError);
        }
        i = i + 1;
    }
    proof {
        if dp == n {
            lemma_dot_pos_bound(s@, st as int, n as int);
            lemma_dot_pos_cap(s@, st as int);
        }
    }
    if dp == st {
        // no integer digits
        return Err(FilterError::FilterTypeError);
    }
    if dp < n && dp + 1 == n {
        // a trailing dot with no fraction digits
        return Err(FilterError::FilterTypeError);
    }
    assert(spec_is_decimal(s@));
    // skip leading zeros of the integer part
    let mut z = st;
    while z < dp
        invariant
            st <= z <= dp,
            n == s@.len(),
            s@.len() <= usize::MAX,
            dp <= n,
            forall|j: int| st <= j < z ==> #[trigger] s@[j] == '0',
        ensures
            st <= z <= dp,
            forall|j: int| st <= j < z ==> #[trigger] s@[j] == '0',
            z < dp ==> s@[z as int] != '0',
        decreases dp - z,
    {
        if s.get_char(z) != '0' {
            break ;
        }
        z = z + 1;
    }
    proof {
        lemma_digits_drop_zeros(s@, st as int, z as int, dp as int);
    }
    if dp - z > 17 {
        // at least eighteen significant digits: past any representable value
        proof {
            lemma_digits_too_long(s@, z as int, dp as int);
            assert(spec_decimal_centi(s@) > i64::MAX || spec_decimal_centi(s@) < i64::MIN) by {
                let w = spec_digits_value(s@, st as int, dp as int);
                let m = w * 100 + (if dp as int + 1 < s@.len() {
                    spec_digit_value(s@[dp as int + 1])
                } else {
                    0int
                }) * 10 + (if dp as int + 2 < s@.len() {
                    spec_digit_value(s@[dp as int + 2])
                } else {
                    0int
                }) + (if dp as int + 3 < s@.len() && spec_digit_value(s@[dp as int + 3]) >= 5 {
                    1int
                } else {
                    0int
                });
                assert(m >= w * 100);
            }
        }
        return Err(FilterError::FilterTypeError);
    }
    let whole = read_digits(s, z, dp);
    let f1: i128 = if n - dp > 1 {
        digit_value(s.get_char(dp + 1)) as i128
    } else {
        0
    };
    let f2: i128 = if n - dp > 2 {
        digit_value(s.get_char(dp + 2)) as i128
    } else {
        0
    };
    let round: i128 = if n - dp > 3 {
        if digit_value(s.get_char(dp + 3)) >= 5 {
            1
        } else {
            0
        }
    } else {
        0
    };
    let magnitude: i128 = whole * 100 + f1 * 10 + f2 + round;
    let value: i128 = if neg {
        -magnitude
    } else {
        magnitude
    };
    assert(value == spec_decimal_centi(s@));
    if value < i64::MIN as i128 || value > i64::MAX as i128 {
        return Err(FilterError::FilterTypeError);
    }
    Ok(value as i64)
}

proof fn lemma_dot_pos_found(s: Seq<char>, st: int, at: int)
    requires
        0 <= st <= at < s.len(),
        s[at] == '.',
        forall|j: int| st <= j < at ==> #[trigger] s[j] != '.',
    ensures
        spec_dot_pos(s, st) == at,
    decreases at - st,
{
    if st < at {
        lemma_dot_pos_found(s, st + 1, at);
    }
}

proof fn lemma_dot_pos_bound(s: Seq<char>, st: int, upto: int)
    requires
        0 <= st <= upto <= s.len(),
        forall|j: int| st <= j < upto ==> #[trigger] s[j] != '.',
    ensures
        spec_dot_pos(s, st) >= upto,
    decreases s.len() - st,
{
    if st < s.len() && s[st] != '.' {
        if upto > st + 1 {
            lemma_dot_pos_bound(s, st + 1, upto);
        } else {
            lemma_dot_pos_bound(s, st + 1, st + 1);
        }
    }
}

proof fn lemma_dot_pos_hits(s: Seq<char>, st: int)
    requires
        0 <= st <= s.len(),
    ensures
        spec_dot_pos(s, st) == s.len() || (st <= spec_dot_pos(s, st) < s.len() && s[spec_dot_pos(
            s,
            st,
        )] == '.'),
    decreases s.len() - st,
{
    if st < s.len() && s[st] != '.' {
        lemma_dot_pos_hits(s, st + 1);
    }
}

proof fn lemma_dot_pos_cap(s: Seq<char>, st: int)
    requires
        0 <= st,
    ensures
        spec_dot_pos(s, st) <= s.len(),
    decreases s.len() - st,
{
    if st < s.len() && s[st] != '.' {
        lemma_dot_pos_cap(s, st + 1);
    }
}

/// Dropping a leading zero does not change a digit run's value.
proof fn lemma_digits_drop_leading_zero(s: Seq<char>, st: int, dp: int)
    requires
        0 <= st < dp <= s.len(),
        s[st] == '0',
    ensures
        spec_digits_value(s, st, dp) == spec_digits_value(s, st + 1, dp),
    decreases dp - st,
{
    if dp > st + 1 {
        lemma_digits_drop_leading_zero(s, st, dp - 1);
        assert(spec_digits_value(s, st, dp) == spec_digits_value(s, st, dp - 1) * 10
            + spec_digit_value(s[dp - 1]));
    } else {
        assert(spec_digits_value(s, st, dp) == spec_digits_value(s, st, st) * 10
            + spec_digit_value(s[st]));
        assert(spec_digit_value(s[st]) == 0);
    }
}

/// Dropping any run of leading zeros does not change a digit run's value.
proof fn lemma_digits_drop_zeros(s: Seq<char>, st: int, z: int, dp: int)
    requires
        0 <= st <= z <= dp <= s.len(),
        forall|j: int| st <= j < z ==> #[trigger] s[j] == '0',
    ensures
        spec_digits_value(s, st, dp) == spec_digits_value(s, z, dp),
    decreases z - st,
{
    if st < z {
        lemma_digits_drop_leading_zero(s, st, dp);
        lemma_digits_drop_zeros(s, st + 1, z, dp);
    }
}

/// The value of a digit run is at least its first digit scaled by ten to
/// the remaining length.
proof fn lemma_digits_scale(s: Seq<char>, st: int, dp: int)
    requires
        0 <= st < dp <= s.len(),
        forall|i: int| st <= i < dp ==> spec_is_digit(#[trigger] s[i]),
    ensures
        spec_digits_value(s, st, dp) >= spec_digit_value(s[st]) * pow10(dp - st - 1),
        spec_digits_value(s, st, dp) >= 0,
    decreases dp - st,
{
    if dp - st == 1 {
        assert(spec_digits_value(s, st, dp) == spec_digits_value(s, st, st) * 10
            + spec_digit_value(s[st]));
    } else {
        lemma_digits_scale(s, st, dp - 1);
        lemma_pow10_step(dp - st - 2);
        assert(spec_digits_value(s, st, dp) == spec_digits_value(s, st, dp - 1) * 10
            + spec_digit_value(s[dp - 1]));
        assert(spec_digits_value(s, st, dp - 1) * 10 >= spec_digit_value(s[st]) * pow10(
            dp - st - 2,
        ) * 10) by (nonlinear_arith)
            requires
                spec_digits_value(s, st, dp - 1) >= spec_digit_value(s[st]) * pow10(dp - st - 2),
        ;
        assert(spec_digit_value(s[st]) * pow10(dp - st - 2) * 10 == spec_digit_value(s[st]) * (10
            * pow10(dp - st - 2))) by (nonlinear_arith);
    }
}

/// A digit run of at least eighteen significant digits denotes a value
/// whose hundredths form is past the representable range.
proof fn lemma_digits_too_long(s: Seq<char>, z: int, dp: int)
    requires
        0 <= z < dp <= s.len(),
        dp - z > 17,
        s[z] != '0',
        forall|i: int| z <= i < dp ==> spec_is_digit(#[trigger] s[i]),
    ensures
        spec_digits_value(s, z, dp) * 100 > i64::MAX,
{
    lemma_digits_scale(s, z, dp);
    assert(spec_digit_value(s[z]) >= 1);
    lemma_pow10_monotone(17, dp - z - 1);
    reveal_with_fuel(pow10, 19);
    assert(pow10(17) == 0x16345785d8a0000);
    assert(spec_digits_value(s, z, dp) >= pow10(dp - z - 1)) by (nonlinear_arith)
        requires
            spec_digits_value(s, z, dp) >= spec_digit_value(s[z]) * pow10(dp - z - 1),
            spec_digit_value(s[z]) >= 1,
            pow10(dp - z - 1) >= 1,
    ;
    assert(spec_digits_value(s, z, dp) * 100 >= pow10(17) * 100) by (nonlinear_arith)
        requires
            spec_digits_value(s, z, dp) >= pow10(17),
    ;
}

proof fn lemma_pow10_monotone(a: int, b: int)
    requires
        0 <= a <= b,
    ensures
        pow10(a) <= pow10(b),
        pow10(b) >= 1,
    decreases b,
{
    if a < b {
        lemma_pow10_monotone(a, b - 1);
        lemma_pow10_step(b - 1);
    } else {
        lemma_pow10_step(a);
    }
}

/// The signed two-decimal form of a value in hundredths.
pub open spec fn spec_format_centi(c: int) -> Seq<char> {
    let a: int = if c < 0 {
        -c
    } else {
        c
    };
    let sign: Seq<char> = if c < 0 {
        seq!['-']
    } else {
        Seq::empty()
    };
    sign + spec_uint_chars(a / 100) + seq!['.'] + crate::text::spec_two_digits(a % 100)
}

/// The two-decimal form wrapped in the positive style marker.
pub open spec fn spec_positive_span(c: int) -> Seq<char> {
    "<span class=\"positive\">"@ + spec_format_centi(c) + "</span>"@
}

/// The two-decimal form wrapped in the negative style marker.
pub open spec fn spec_negative_span(c: int) -> Seq<char> {
    "<span class=\"negative\">"@ + spec_format_centi(c) + "</span>"@
}

/// Writes a value in hundredths as a signed two-decimal numeral.
fn format_centi(c: i64) -> (r: String)
    ensures
        r@ == spec_format_centi(c as int),
{
    let mut out = String::new();
    let a: u64 = if c < 0 {
        (-(c as i128)) as u64
    } else {
        c as u64
    };
    if c < 0 {
        out.push('-');
    }
    push_uint(&mut out, a / 100);
    out.push('.');
    crate::text::push_two_digits(&mut out, (a % 100) as u8);
    proof {
        assert(out@ =~= spec_format_centi(c as int));
    }
    out
}

/// Two-decimal text of a numeric value, with no styling.
pub fn floatfmt(c: i64) -> (r: String)
    ensures
        r@ == spec_format_centi(c as int),
{
    format_centi(c)
}

/// Two-decimal text of a numeric or numeric-string value, wrapped in the
/// positive style marker when the value is positive and in the negative
/// one otherwise.  Any other value kind fails with `FilterTypeError`.
pub fn coloredfloat(v: &TemplateValue) -> (r: Result<String, FilterError>)
    ensures
        r is Ok <==> spec_value_centi(*v) is Some,
        r matches Ok(out) ==> spec_value_centi(*v) matches Some(c) && out@ == if c > 0 {
            spec_positive_span(c)
        } else {
            spec_negative_span(c)
        },
        r matches Err(e) ==> e == FilterError::FilterTypeError,
{
    let c = match value_to_centi(v) {
        Ok(c) => c,
        Err(e) => {
            return Err(e);
        },
    };
    let num = format_centi(c);
    if c > 0 {
        let mut out = "<span class=\"positive\">".to_owned();
        out.append(num.as_str());
        out.append("</span>");
        proof {
            assert(out@ =~= spec_positive_span(c as int));
        }
        Ok(out)
    } else {
        let mut out = "<span class=\"negative\">".to_owned();
        out.append(num.as_str());
        out.append("</span>");
        proof {
            assert(out@ =~= spec_negative_span(c as int));
        }
        Ok(out)
    }
}

/// Like [`coloredfloat`], but a positive value renders as plain text and
/// only a non-positive one is wrapped in the negative style marker.
pub fn coloredfloatnegative(v: &TemplateValue) -> (r: Result<String, FilterError>)
    ensures
        r is Ok <==> spec_value_centi(*v) is Some,
        r matches Ok(out) ==> spec_value_centi(*v) matches Some(c) && out@ == if c > 0 {
            spec_format_centi(c)
        } else {
            spec_negative_span(c)
        },
        r matches Err(e) ==> e == FilterError::FilterTypeError,
{
    let c = match value_to_centi(v) {
        Ok(c) => c,
        Err(e) => {
            return Err(e);
        },
    };
    if c > 0 {
        Ok(format_centi(c))
    } else {
        let mut out = "<span class=\"negative\">".to_owned();
        out.append(format_centi(c).as_str());
        out.append("</span>");
        proof {
            assert(out@ =~= spec_negative_span(c as int));
        }
        Ok(out)
    }
}

/// The string itself, or the empty string for an absent value.
pub fn orempty(value: Option<String>) -> (r: String)
    ensures
        match value {
            Some(s) => r@ == s@,
            None => r@ == Seq::<char>::empty(),
        },
{
    match value {
        Some(s) => s,
        None => String::new(),
    }
}

/// The `HH:MM` part of a value that is either a bare time of day
/// (`HH:MM:SS`) or a form-layout date-time (`YYYY-MM-DDTHH:MM:SS`); an
/// absent value renders as the empty string, and anything else fails with
/// `InvalidTimeFormat`.
pub fn hourminutes(value: Option<&str>) -> (r: Result<String, FilterError>)
    ensures
        match value {
            Some(s) => {
                &&& (r is Ok <==> spec_is_time_of_day(s@) || spec_parse_datetime(s@, 'T') is Some)
                &&& (spec_is_time_of_day(s@) ==> (r matches Ok(out) && out@ == s@.subrange(
                    0,
                    5,
                )))
                &&& (!spec_is_time_of_day(s@) && spec_parse_datetime(s@, 'T') is Some ==> (
                r matches Ok(out) && out@ == s@.subrange(11, 16)))
                &&& (r matches Err(e) ==> e == FilterError::InvalidTimeFormat)
            },
            None => (r matches Ok(out) && out@ == Seq::<char>::empty()),
        },
{
    let s = match value {
        Some(s) => s,
        None => {
            return Ok(String::new());
        },
    };
    if is_time_of_day(s) {
        Ok(s.substring_char(0, 5).to_owned())
    } else {
        match parse_form_datetime(s) {
            Some(_) => Ok(s.substring_char(11, 16).to_owned()),
            None => Err(FilterError::InvalidTimeFormat),
        }
    }
}

/// The sanitized HTML rendering of a lightweight-markup (markdown)
/// string: markup constructs (headings, emphasis, lists, links) become
/// HTML, while raw HTML in the input is demoted to escaped text, so no
/// script in a description can reach the page.
pub uninterp spec fn html_of_markdown(s: Seq<char>) -> Seq<char>;

/// Relies on pulldown-cmark's `Parser::new` and `html::push_html`, with
/// every raw-HTML event demoted to a text event first: text events are
/// written HTML-escaped, so raw input HTML never passes through, and the
/// rendering depends on the markdown text alone.
#[verifier::external_body]
fn markdown_html(value: &str) -> (r: String)
    ensures
        r@ == html_of_markdown(value@),
{
    let parser = pulldown_cmark::Parser::new(value).map(|event| match event {
        pulldown_cmark::Event::Html(raw) => pulldown_cmark::Event::Text(raw),
        pulldown_cmark::Event::InlineHtml(raw) => pulldown_cmark::Event::Text(raw),
        other => other,
    });
    let mut output = String::new();
    pulldown_cmark::html::push_html(&mut output, parser);
    output
}

/// Lightweight markup rendered to sanitized, embeddable HTML: headings,
/// emphasis, lists and links come through as markup; raw HTML in the
/// input comes through escaped, never executable.
pub fn markdown(value: &str) -> (r: String)
    ensures
        r@ == html_of_markdown(value@),
{
    markdown_html(value)
}

/// What one render attempt produced; a failure keeps the engine's own
/// description for the diagnostic body.
#[derive(Debug)]
pub enum RenderAttempt {
    /// The template rendered to this text.
    Rendered(String),
    /// The named template could not be found or loaded.
    MissingTemplate(String),
    /// The template was found but rendering it failed.
    RenderFailed(String),
}

/// The response body for a render attempt: the rendered text as is, or a
/// readable diagnostic in its place — a failed render never takes the
/// request down, it answers with the diagnostic instead.
pub fn render_body(attempt: &RenderAttempt) -> (r: String)
    ensures
        match attempt {
            RenderAttempt::Rendered(s) => r@ == s@,
            RenderAttempt::MissingTemplate(e) => r@ == "Failed getting template: "@ + e@,
            RenderAttempt::RenderFailed(e) => r@ == "Rendering error: "@ + e@,
        },
{
    match attempt {
        RenderAttempt::Rendered(s) => s.clone(),
        RenderAttempt::MissingTemplate(e) => {
            let mut out = "Failed getting template: ".to_owned();
            out.append(e.as_str());
            out
        },
        RenderAttempt::RenderFailed(e) => {
            let mut out = "Rendering error: ".to_owned();
            out.append(e.as_str());
            out
        },
    }
}

} // verus!