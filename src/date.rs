//! Calendar dates carried by dated model versions, and the two digit layouts
//! that providers write them in.
use vstd::prelude::*;
use vstd::string::*;
use vstd::arithmetic::div_mod::{lemma_breakdown, lemma_small_mod};
use crate::text::push_char;

verus! {

/// How a release date is written at the end of a model name.
#[derive(Debug, Clone, Copy, PartialEq, Eq, Structural, Hash)]
pub enum DateFormat {
    /// Eight digits, `%Y%m%d` (`20240229`).
    Compact,
    /// Year, month and day joined by dashes, `%Y-%m-%d` (`2024-02-29`).
    Dashed,
}

/// A calendar date (midnight UTC of that day).
#[derive(Debug, Clone, Copy, PartialEq, Eq, Structural, Hash)]
pub struct ReleaseDate {
    pub year: u16,
    pub month: u8,
    pub day: u8,
}

pub open spec fn is_digit(c: char) -> bool {
    '0' <= c && c <= '9'
}

pub open spec fn digit_value(c: char) -> int {
    c as int - '0' as int
}

pub open spec fn digit_char(d: int) -> char {
    if d == 0 { '0' }
    else if d == 1 { '1' }
    else if d == 2 { '2' }
    else if d == 3 { '3' }
    else if d == 4 { '4' }
    else if d == 5 { '5' }
    else if d == 6 { '6' }
    else if d == 7 { '7' }
    else if d == 8 { '8' }
    else { '9' }
}

pub open spec fn pow10(n: nat) -> int
    decreases n,
{
    if n == 0 { 1 } else { 10 * pow10((n - 1) as nat) }
}

/// The number that a run of decimal digits denotes.
pub open spec fn digits_value(s: Seq<char>) -> int
    decreases s.len(),
{
    if s.len() == 0 {
        0
    } else {
        digits_value(s.drop_last()) * 10 + digit_value(s.last())
    }
}

/// The last `w` decimal digits of `n`, zero-padded on the left.
pub open spec fn digits_text(n: int, w: nat) -> Seq<char>
    decreases w,
{
    if w == 0 {
        Seq::empty()
    } else {
        digits_text(n / 10, (w - 1) as nat).push(digit_char(n % 10))
    }
}

pub open spec fn is_leap_year(y: int) -> bool {
    y % 4 == 0 && (y % 100 != 0 || y % 400 == 0)
}

pub open spec fn days_in_month(y: int, m: int) -> int {
    if m == 2 {
        if is_leap_year(y) { 29 } else { 28 }
    } else if m == 4 || m == 6 || m == 9 || m == 11 {
        30
    } else {
        31
    }
}

/// A day that exists in the proleptic Gregorian calendar.
pub open spec fn is_valid_date(d: ReleaseDate) -> bool {
    1 <= d.month <= 12 && 1 <= d.day <= days_in_month(d.year as int, d.month as int)
}

impl DateFormat {
    /// Number of characters that a date takes in this layout.
    pub open spec fn width(self) -> nat {
        match self {
            DateFormat::Compact => 8,
            DateFormat::Dashed => 10,
        }
    }

    pub open spec fn month_start(self) -> int {
        match self {
            DateFormat::Compact => 4,
            DateFormat::Dashed => 5,
        }
    }

    pub open spec fn day_start(self) -> int {
        match self {
            DateFormat::Compact => 6,
            DateFormat::Dashed => 8,
        }
    }

    pub open spec fn is_separator_at(self, i: int) -> bool {
        self is Dashed && (i == 4 || i == 7)
    }

    /// The strftime-style pattern of this layout.
    pub fn pattern(&self) -> (r: &'static str)
        ensures
            r@ == (match self {
                DateFormat::Compact => "%Y%m%d"@,
                DateFormat::Dashed => "%Y-%m-%d"@,
            }),
    {
        match self {
            DateFormat::Compact => "%Y%m%d",
            DateFormat::Dashed => "%Y-%m-%d",
        }
    }
}

/// `s` has the shape of a date in layout `f`: digits, with dashes where the layout has them.
pub open spec fn has_date_shape(s: Seq<char>, f: DateFormat) -> bool {
    s.len() == f.width() && forall|i: int|
        0 <= i < s.len() ==> if f.is_separator_at(i) {
            #[trigger] s[i] == '-'
        } else {
            is_digit(s[i])
        }
}

/// The date that the digits of `s` spell out in layout `f`.
pub open spec fn date_from_text(s: Seq<char>, f: DateFormat) -> ReleaseDate {
    ReleaseDate {
        year: digits_value(s.subrange(0, 4)) as u16,
        month: digits_value(s.subrange(f.month_start(), f.month_start() + 2)) as u8,
        day: digits_value(s.subrange(f.day_start(), f.day_start() + 2)) as u8,
    }
}

/// A date written in layout `f`.
pub open spec fn date_text(d: ReleaseDate, f: DateFormat) -> Seq<char> {
    match f {
        DateFormat::Compact => digits_text(d.year as int, 4) + digits_text(d.month as int, 2)
            + digits_text(d.day as int, 2),
        DateFormat::Dashed => digits_text(d.year as int, 4) + seq!['-'] + digits_text(
            d.month as int,
            2,
        ) + seq!['-'] + digits_text(d.day as int, 2),
    }
}

pub proof fn lemma_pow10_small()
    ensures
        pow10(0) == 1,
        pow10(1) == 10,
        pow10(2) == 100,
        pow10(3) == 1000,
        pow10(4) == 10000,
{
    assert(pow10(0) == 1);
    assert(pow10(1) == 10);
    assert(pow10(2) == 100);
    assert(pow10(3) == 1000);
    assert(pow10(4) == 10000);
}

pub proof fn lemma_pow10_positive(n: nat)
    ensures
        pow10(n) > 0,
    decreases n,
{
    if n > 0 {
        lemma_pow10_positive((n - 1) as nat);
    }
}

/// A run of digits denotes a number below ten to the power of its length.
pub proof fn lemma_digits_value_bound(s: Seq<char>)
    requires
        forall|i: int| 0 <= i < s.len() ==> is_digit(#[trigger] s[i]),
    ensures
        0 <= digits_value(s) < pow10(s.len()),
    decreases s.len(),
{
    if s.len() > 0 {
        let t = s.drop_last();
        assert forall|i: int| 0 <= i < t.len() implies is_digit(#[trigger] t[i]) by {
            assert(t[i] == s[i]);
        }
        lemma_digits_value_bound(t);
        assert(is_digit(s[s.len() - 1]));
    }
}

/// Writing a number with `w` digits gives only digits.
pub proof fn lemma_digits_text_digits(n: int, w: nat)
    requires
        n >= 0,
    ensures
        digits_text(n, w).len() == w,
        forall|i: int| 0 <= i < w ==> is_digit(#[trigger] digits_text(n, w)[i]),
    decreases w,
{
    if w > 0 {
        lemma_digits_text_digits(n / 10, (w - 1) as nat);
    }
}

/// Reading back `w` written digits of `n` gives `n` modulo ten to the `w`.
pub proof fn lemma_digits_text_value(n: int, w: nat)
    requires
        n >= 0,
    ensures
        digits_value(digits_text(n, w)) == n % pow10(w),
    decreases w,
{
    if w > 0 {
        let p = pow10((w - 1) as nat);
        lemma_pow10_positive((w - 1) as nat);
        lemma_digits_text_value(n / 10, (w - 1) as nat);
        let t = digits_text(n, w);
        assert(t.drop_last() =~= digits_text(n / 10, (w - 1) as nat));
        let r = n % 10;
        assert(0 <= r < 10);
        assert(digit_value(digit_char(r)) == r);
        lemma_breakdown(n, 10, p);
    } else {
        assert(n % 1 == 0);
    }
}

/// Writing a number below ten to the `w` with `w` digits and reading it back gives it again.
pub proof fn lemma_digits_round_trip(n: int, w: nat)
    requires
        0 <= n < pow10(w),
    ensures
        digits_value(digits_text(n, w)) == n,
        digits_text(n, w).len() == w,
        forall|i: int| 0 <= i < w ==> is_digit(#[trigger] digits_text(n, w)[i]),
{
    lemma_digits_text_value(n, w);
    lemma_digits_text_digits(n, w);
    lemma_small_mod(n as nat, pow10(w) as nat);
}

fn digit_to_char(d: u32) -> (r: char)
    requires
        d < 10,
    ensures
        r == digit_char(d as int),
{
    if d == 0 { '0' }
    else if d == 1 { '1' }
    else if d == 2 { '2' }
    else if d == 3 { '3' }
    else if d == 4 { '4' }
    else if d == 5 { '5' }
    else if d == 6 { '6' }
    else if d == 7 { '7' }
    else if d == 8 { '8' }
    else { '9' }
}

/// Appends the last `w` decimal digits of `n`, zero-padded.
fn push_digits(s: &mut String, n: u32, w: usize)
    ensures
        final(s)@ == old(s)@ + digits_text(n as int, w as nat),
    decreases w,
{
    if w > 0 {
        push_digits(s, n / 10, w - 1);
        push_char(s, digit_to_char(n % 10));
        assert(final(s)@ =~= old(s)@ + digits_text(n as int, w as nat));
    } else {
        assert(final(s)@ =~= old(s)@ + digits_text(n as int, w as nat));
    }
}

/// The number spelled by `count` digits of `t` from `start`.
fn read_digits(t: &str, start: usize, count: usize) -> (r: u32)
    requires
        start + count <= t@.len(),
        start <= 8,
        count <= 4,
        forall|i: int| start <= i < start + count ==> is_digit(#[trigger] t@[i]),
    ensures
        r == digits_value(t@.subrange(start as int, start + count)),
        r < pow10(count as nat),
{
    proof {
        lemma_pow10_small();
    }
    let mut v: u32 = 0;
    let mut i: usize = 0;
    while i < count
        invariant
            start + count <= t@.len(),
            start <= 8,
            count <= 4,
            forall|k: int| start <= k < start + count ==> is_digit(#[trigger] t@[k]),
            i <= count,
            v == digits_value(t@.subrange(start as int, start + i)),
            v < pow10(i as nat),
            pow10(0) == 1,
            pow10(1) == 10,
            pow10(2) == 100,
            pow10(3) == 1000,
            pow10(4) == 10000,
        decreases count - i,
    {
        let c = t.get_char(start + i);
        assert(is_digit(t@[start + i]));
        proof {
            let s1 = t@.subrange(start as int, start + i + 1);
            assert(s1.drop_last() =~= t@.subrange(start as int, start + i));
            assert(s1.last() == c);
        }
        v = v * 10 + (c as u32 - '0' as u32);
        i = i + 1;
    }
    v
}

impl ReleaseDate {
    /// Reads a date written in layout `f`; `None` when `t` does not have that shape.
    /// The date read is not checked against the calendar.
    pub fn from_text(t: &str, f: DateFormat) -> (r: Option<ReleaseDate>)
        ensures
            r is Some <==> has_date_shape(t@, f),
            r matches Some(d) ==> d == date_from_text(t@, f),
    {
        let n = t.unicode_len();
        let width: usize = match f {
            DateFormat::Compact => 8,
            DateFormat::Dashed => 10,
        };
        if n != width {
            return None;
        }
        let mut i: usize = 0;
        while i < n
            invariant
                n == t@.len(),
                n == f.width(),
                i <= n,
                forall|k: int|
                    0 <= k < i ==> if f.is_separator_at(k) {
                        #[trigger] t@[k] == '-'
                    } else {
                        is_digit(t@[k])
                    },
            decreases n - i,
        {
            let c = t.get_char(i);
            let sep = match f {
                DateFormat::Compact => false,
                DateFormat::Dashed => i == 4 || i == 7,
            };
            if sep {
                if c != '-' {
                    return None;
                }
            } else if !('0' <= c && c <= '9') {
                return None;
            }
            i = i + 1;
        }
        let (ms, ds): (usize, usize) = match f {
            DateFormat::Compact => (4, 6),
            DateFormat::Dashed => (5, 8),
        };
        let year = read_digits(t, 0, 4);
        let month = read_digits(t, ms, 2);
        let day = read_digits(t, ds, 2);
        Some(ReleaseDate { year: year as u16, month: month as u8, day: day as u8 })
    }

    /// True when this day exists in the calendar.
    pub fn is_valid(&self) -> (r: bool)
        ensures
            r == is_valid_date(*self),
    {
        let y = self.year;
        let m = self.month;
        let d = self.day;
        if m < 1 || m > 12 {
            return false;
        }
        let leap = y % 4 == 0 && (y % 100 != 0 || y % 400 == 0);
        let dim: u8 = if m == 2 {
            if leap { 29 } else { 28 }
        } else if m == 4 || m == 6 || m == 9 || m == 11 {
            30
        } else {
            31
        };
        1 <= d && d <= dim
    }

    /// Appends this date written in layout `f`.
    pub fn write_to(&self, s: &mut String, f: DateFormat)
        ensures
            final(s)@ == old(s)@ + date_text(*self, f),
    {
        push_digits(s, self.year as u32, 4);
        if f == DateFormat::Dashed {
            push_char(s, '-');
        }
        push_digits(s, self.month as u32, 2);
        if f == DateFormat::Dashed {
            push_char(s, '-');
        }
        push_digits(s, self.day as u32, 2);
        assert(final(s)@ =~= old(s)@ + date_text(*self, f));
    }
}

} // verus!
