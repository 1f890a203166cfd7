//! Decimal rendering of integers, the thousands grouping used in reports,
//! and the elapsed-time shorthand of the stream logs.

use vstd::prelude::*;
use vstd::string::StringExecFns;

verus! {

/// The character of one decimal digit.
pub open spec fn spec_digit_char(d: int) -> char {
    ((d + 48) as u8) as char
}

/// The decimal digits of a non-negative number, most significant first,
/// without leading zeros (a lone zero for 0).
pub open spec fn spec_u64_digits(n: int) -> Seq<char>
    decreases n,
{
    if n < 10 {
        seq![spec_digit_char(n)]
    } else {
        spec_u64_digits(n / 10).push(spec_digit_char(n % 10))
    }
}

/// The decimal rendering of a signed number: a minus sign before the
/// digits of the magnitude when negative.
pub open spec fn spec_i64_digits(n: int) -> Seq<char> {
    if n < 0 {
        seq!['-'] + spec_u64_digits(-n)
    } else {
        spec_u64_digits(n)
    }
}

/// Digits grouped in threes from the right, separated by commas.
pub open spec fn spec_grouped(s: Seq<char>) -> Seq<char>
    decreases s.len(),
{
    if s.len() <= 3 {
        s
    } else {
        spec_grouped(s.take(s.len() - 3)) + seq![','] + s.skip(s.len() - 3)
    }
}

/// Relies on `String::push`: appends one character to the string.
#[verifier::external_body]
pub(crate) fn push_char(s: &mut String, c: char)
    ensures
        final(s)@ == old(s)@.push(c),
{
    s.push(c);
}

/// The character of a decimal digit.
fn digit_char(d: u8) -> (c: char)
    requires
        d < 10,
    ensures
        c == spec_digit_char(d as int),
{
    (d + 48) as char
}

/// A number always renders to at least one character.
pub proof fn lemma_u64_digits_len(n: int)
    ensures
        spec_u64_digits(n).len() >= 1,
    decreases n,
{
    if n >= 10 {
        lemma_u64_digits_len(n / 10);
    }
}

/// Numbers under a thousand render to at most three characters.
proof fn lemma_u64_digits_len_small(n: int)
    requires
        0 <= n < 1000,
    ensures
        spec_u64_digits(n).len() <= 3,
        n < 100 ==> spec_u64_digits(n).len() <= 2,
        n < 10 ==> spec_u64_digits(n).len() == 1,
    decreases n,
{
    if n >= 10 {
        lemma_u64_digits_len_small(n / 10);
    }
}

/// Render a number in decimal.
pub fn u64_to_string(n: u64) -> (r: String)
    ensures
        r@ == spec_u64_digits(n as int),
    decreases n,
{
    if n < 10 {
        let mut s = String::new();
        push_char(&mut s, digit_char(n as u8));
        s
    } else {
        let mut s = u64_to_string(n / 10);
        push_char(&mut s, digit_char((n % 10) as u8));
        s
    }
}

/// Render a signed number in decimal.
pub fn i64_to_string(n: i64) -> (r: String)
    ensures
        r@ == spec_i64_digits(n as int),
{
    if n >= 0 {
        u64_to_string(n as u64)
    } else {
        let mag: u64 = (-(n as i128)) as u64;
        let mut s = String::new();
        push_char(&mut s, '-');
        let digits = u64_to_string(mag);
        s.append(digits.as_str());
        s
    }
}

/// Append a number's decimal rendering.
pub fn append_u64(out: &mut String, v: u64)
    ensures
        final(out)@ == old(out)@ + spec_u64_digits(v as int),
{
    let s = u64_to_string(v);
    out.append(s.as_str());
}

/// Append a signed number's decimal rendering.
pub fn append_i64(out: &mut String, v: i64)
    ensures
        final(out)@ == old(out)@ + spec_i64_digits(v as int),
{
    let s = i64_to_string(v);
    out.append(s.as_str());
}

/// A large number splits into its leading digits and its last three.
proof fn lemma_u64_digits_split(n: int)
    requires
        n >= 1000,
    ensures
        spec_u64_digits(n) == spec_u64_digits(n / 1000) + seq![
            spec_digit_char((n / 100) % 10),
            spec_digit_char((n / 10) % 10),
            spec_digit_char(n % 10),
        ],
{
    reveal_with_fuel(spec_u64_digits, 4);
    assert(n / 10 / 10 == n / 100) by (nonlinear_arith);
    assert(n / 100 / 10 == n / 1000) by (nonlinear_arith);
    assert(n / 10 >= 10 && n / 100 >= 10);
    assert(spec_u64_digits(n) =~= spec_u64_digits(n / 1000) + seq![
        spec_digit_char((n / 100) % 10),
        spec_digit_char((n / 10) % 10),
        spec_digit_char(n % 10),
    ]);
}

/// Render a number in decimal with commas between groups of three digits.
pub fn with_separator(value: u64) -> (r: String)
    ensures
        r@ == spec_grouped(spec_u64_digits(value as int)),
    decreases value,
{
    if value < 1000 {
        let r = u64_to_string(value);
        proof {
            lemma_u64_digits_len_small(value as int);
        }
        r
    } else {
        let mut s = with_separator(value / 1000);
        push_char(&mut s, ',');
        push_char(&mut s, digit_char(((value / 100) % 10) as u8));
        push_char(&mut s, digit_char(((value / 10) % 10) as u8));
        push_char(&mut s, digit_char((value % 10) as u8));
        proof {
            lemma_u64_digits_split(value as int);
            lemma_u64_digits_len(value as int / 1000);
            let whole = spec_u64_digits(value as int);
            assert(whole.take(whole.len() - 3) =~= spec_u64_digits(value as int / 1000));
            assert(whole.skip(whole.len() - 3) =~= seq![
                spec_digit_char((value as int / 100) % 10),
                spec_digit_char((value as int / 10) % 10),
                spec_digit_char(value as int % 10),
            ]);
            assert(s@ =~= spec_grouped(whole));
        }
        s
    }
}

/// The elapsed-time shorthand: seconds alone under ten minutes, then
/// minutes and seconds, then hours and minutes, then days, hours and minutes.
pub open spec fn spec_duration_string(secs: int) -> Seq<char> {
    if secs < 600 {
        spec_u64_digits(secs) + seq!['s']
    } else if secs < 7200 {
        spec_u64_digits(secs / 60) + seq!['m'] + spec_u64_digits(secs % 60) + seq!['s']
    } else if secs < 172800 {
        spec_u64_digits(secs / 3600) + seq!['h'] + spec_u64_digits(secs % 3600 / 60) + seq!['m']
    } else {
        spec_u64_digits(secs / 86400) + seq!['d'] + spec_u64_digits(secs % 86400 / 3600)
            + seq!['h'] + spec_u64_digits(secs % 3600 / 60) + seq!['m']
    }
}

/// Render an elapsed time in seconds as the logs' shorthand.
pub fn duration_to_string(secs: u64) -> (r: String)
    ensures
        r@ == spec_duration_string(secs as int),
{
    if secs < 600 {
        let mut s = u64_to_string(secs);
        push_char(&mut s, 's');
        s
    } else if secs < 7200 {
        let mut s = u64_to_string(secs / 60);
        push_char(&mut s, 'm');
        let rest = u64_to_string(secs % 60);
        s.append(rest.as_str());
        push_char(&mut s, 's');
        s
    } else if secs < 172800 {
        let mut s = u64_to_string(secs / 3600);
        push_char(&mut s, 'h');
        let rest = u64_to_string(secs % 3600 / 60);
        s.append(rest.as_str());
        push_char(&mut s, 'm');
        s
    } else {
        let mut s = u64_to_string(secs / 86400);
        push_char(&mut s, 'd');
        let hours = u64_to_string(secs % 86400 / 3600);
        s.append(hours.as_str());
        push_char(&mut s, 'h');
        let minutes = u64_to_string(secs % 3600 / 60);
        s.append(minutes.as_str());
        push_char(&mut s, 'm');
        s
    }
}

} // verus!
