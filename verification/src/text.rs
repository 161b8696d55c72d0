//! Building texts: decimal numbers, times of the day and quoted names.

use crate::strings::push_char;
use crate::time::Time;
use vstd::prelude::*;

verus! {

/// The character of a decimal digit.
pub open spec fn digit(d: int) -> char {
    ((48 + d) as u8) as char
}

/// The decimal writing of a natural number, without leading zeros.
pub open spec fn decimal(n: nat) -> Seq<char>
    decreases n,
{
    if n < 10 {
        seq![digit(n as int)]
    } else {
        decimal(n / 10).push(digit((n % 10) as int))
    }
}

/// A text between single quotes.
pub open spec fn quoted(s: Seq<char>) -> Seq<char> {
    seq!['\''] + s + seq!['\'']
}

/// A time given in minutes, written as hours, a colon and two digits of minutes, such as
/// `10:00` or `8:05`.
pub open spec fn spec_format_time(m: int) -> Seq<char> {
    let h = m / 60;
    let mm = m % 60;
    (if h < 0 {
        seq!['-'] + decimal((-h) as nat)
    } else {
        decimal(h as nat)
    }) + seq![':', digit(mm / 10), digit(mm % 10)]
}

/// Appends the characters of `t`.
pub(crate) fn push_str(s: &mut String, t: &str)
    ensures
        final(s)@ == old(s)@ + t@,
{
    let len = t.unicode_len();
    let mut i: usize = 0;
    while i < len
        invariant
            len == t@.len(),
            i <= len,
            s@ == old(s)@ + t@.take(i as int),
        decreases len - i,
    {
        let c = t.get_char(i);
        push_char(s, c);
        i = i + 1;
        assert(s@ =~= old(s)@ + t@.take(i as int));
    }
    assert(t@.take(len as int) =~= t@);
}

/// Appends a text between single quotes.
pub(crate) fn push_quoted(s: &mut String, t: &str)
    ensures
        final(s)@ == old(s)@ + quoted(t@),
{
    push_char(s, '\'');
    push_str(s, t);
    push_char(s, '\'');
    assert(s@ =~= old(s)@ + quoted(t@));
}

/// Appends the decimal writing of the number.
pub(crate) fn push_decimal(s: &mut String, n: usize)
    ensures
        final(s)@ == old(s)@ + decimal(n as nat),
    decreases n,
{
    if n >= 10 {
        push_decimal(s, n / 10);
    }
    let d: u8 = (n % 10) as u8;
    push_char(s, (48u8 + d) as char);
    assert(s@ =~= old(s)@ + decimal(n as nat));
}

/// Writes the time as hours, a colon and two digits of minutes, such as `10:00`.
pub fn format_time(t: Time) -> (r: String)
    requires
        t.wf(),
    ensures
        r@ == spec_format_time(t@),
{
    let h = t.hours();
    let m = t.minutes();
    let mut r = String::new();
    if h < 0 {
        push_char(&mut r, '-');
        let n: usize = (-(h as i16)) as usize;
        push_decimal(&mut r, n);
    } else {
        push_decimal(&mut r, h as usize);
    }
    push_char(&mut r, ':');
    let tens: u8 = (m / 10) as u8;
    let units: u8 = (m % 10) as u8;
    push_char(&mut r, (48u8 + tens) as char);
    push_char(&mut r, (48u8 + units) as char);
    assert(r@ =~= spec_format_time(t@));
    r
}

} // verus!
