//! Calendar timestamps in the wire format `YYYY-MM-DDTHH:MM:SSZ`.

use crate::numbers::digit_char;
use crate::text::{digit_value, is_digit};
use vstd::prelude::*;

verus! {

/// A calendar timestamp, UTC.
#[derive(Debug, Clone, Copy, PartialEq, Eq, Structural)]
pub struct DateTime {
    pub year: u32,
    pub month: u32,
    pub day: u32,
    pub hour: u32,
    pub minute: u32,
    pub second: u32,
}

pub open spec fn is_leap_year(y: int) -> bool {
    (y % 4 == 0 && y % 100 != 0) || y % 400 == 0
}

pub open spec fn days_in_month(y: int, m: int) -> int {
    if m == 2 {
        if is_leap_year(y) {
            29
        } else {
            28
        }
    } else if m == 4 || m == 6 || m == 9 || m == 11 {
        30
    } else {
        31
    }
}

/// A datetime the wire format can carry: a four-digit year and fields within
/// calendar range.
pub open spec fn dt_valid(d: DateTime) -> bool {
    &&& d.year <= 9999
    &&& 1 <= d.month <= 12
    &&& 1 <= d.day <= days_in_month(d.year as int, d.month as int)
    &&& d.hour <= 23
    &&& d.minute <= 59
    &&& d.second <= 59
}

/// Four decimal digits, zero-padded.
pub open spec fn pad4(n: int) -> Seq<char> {
    seq![
        digit_char(n / 1000 % 10),
        digit_char(n / 100 % 10),
        digit_char(n / 10 % 10),
        digit_char(n % 10),
    ]
}

/// Two decimal digits, zero-padded.
pub open spec fn pad2(n: int) -> Seq<char> {
    seq![digit_char(n / 10 % 10), digit_char(n % 10)]
}

/// The wire text of a datetime: `YYYY-MM-DDTHH:MM:SSZ`.
pub open spec fn dt_text(d: DateTime) -> Seq<char> {
    pad4(d.year as int) + seq!['-'] + pad2(d.month as int) + seq!['-'] + pad2(d.day as int)
        + seq!['T'] + pad2(d.hour as int) + seq![':'] + pad2(d.minute as int) + seq![':'] + pad2(
        d.second as int,
    ) + seq!['Z']
}

proof fn lemma_pad2_value(n: int)
    requires
        0 <= n < 100,
    ensures
        digit_value(pad2(n)[0]) * 10 + digit_value(pad2(n)[1]) == n,
        is_digit(pad2(n)[0]),
        is_digit(pad2(n)[1]),
{
    assert(n / 10 % 10 == n / 10);
    assert(n / 10 * 10 + n % 10 == n);
}

proof fn lemma_pad4_value(n: int)
    requires
        0 <= n < 10000,
    ensures
        digit_value(pad4(n)[0]) * 1000 + digit_value(pad4(n)[1]) * 100 + digit_value(pad4(n)[2])
            * 10 + digit_value(pad4(n)[3]) == n,
        is_digit(pad4(n)[0]),
        is_digit(pad4(n)[1]),
        is_digit(pad4(n)[2]),
        is_digit(pad4(n)[3]),
{
    assert(n / 1000 % 10 == n / 1000);
    assert(n / 1000 * 1000 + n / 100 % 10 * 100 + n / 10 % 10 * 10 + n % 10 == n) by (nonlinear_arith)
        requires
            0 <= n < 10000,
    ;
}

/// The decimal digit character for a value below ten.
fn dchar(n: u32) -> (c: char)
    requires
        n < 10,
    ensures
        c == digit_char(n as int),
{
    if n == 0 {
        '0'
    } else if n == 1 {
        '1'
    } else if n == 2 {
        '2'
    } else if n == 3 {
        '3'
    } else if n == 4 {
        '4'
    } else if n == 5 {
        '5'
    } else if n == 6 {
        '6'
    } else if n == 7 {
        '7'
    } else if n == 8 {
        '8'
    } else {
        '9'
    }
}


/// The text of a valid datetime: its length, its separators, its digits,
/// and the value each digit group encodes.
#[verifier::rlimit(100)]
pub(crate) proof fn lemma_dt_text_digits(d: DateTime)
    requires
        dt_valid(d),
    ensures
        dt_text(d).len() == 20,
        dt_text(d)[4] == '-' && dt_text(d)[7] == '-' && dt_text(d)[10] == 'T' && dt_text(d)[13]
            == ':' && dt_text(d)[16] == ':' && dt_text(d)[19] == 'Z',
        is_digit(dt_text(d)[0]) && is_digit(dt_text(d)[1]) && is_digit(dt_text(d)[2]) && is_digit(
            dt_text(d)[3],
        ),
        is_digit(dt_text(d)[5]) && is_digit(dt_text(d)[6]),
        is_digit(dt_text(d)[8]) && is_digit(dt_text(d)[9]),
        is_digit(dt_text(d)[11]) && is_digit(dt_text(d)[12]),
        is_digit(dt_text(d)[14]) && is_digit(dt_text(d)[15]),
        is_digit(dt_text(d)[17]) && is_digit(dt_text(d)[18]),
        digit_value(dt_text(d)[0]) * 1000 + digit_value(dt_text(d)[1]) * 100 + digit_value(
            dt_text(d)[2],
        ) * 10 + digit_value(dt_text(d)[3]) == d.year,
        digit_value(dt_text(d)[5]) * 10 + digit_value(dt_text(d)[6]) == d.month,
        digit_value(dt_text(d)[8]) * 10 + digit_value(dt_text(d)[9]) == d.day,
        digit_value(dt_text(d)[11]) * 10 + digit_value(dt_text(d)[12]) == d.hour,
        digit_value(dt_text(d)[14]) * 10 + digit_value(dt_text(d)[15]) == d.minute,
        digit_value(dt_text(d)[17]) * 10 + digit_value(dt_text(d)[18]) == d.second,
{
    lemma_pad4_value(d.year as int);
    lemma_pad2_value(d.month as int);
    lemma_pad2_value(d.day as int);
    lemma_pad2_value(d.hour as int);
    lemma_pad2_value(d.minute as int);
    lemma_pad2_value(d.second as int);
    assert(dt_text(d)[0] == pad4(d.year as int)[0]);
    assert(dt_text(d)[1] == pad4(d.year as int)[1]);
    assert(dt_text(d)[2] == pad4(d.year as int)[2]);
    assert(dt_text(d)[3] == pad4(d.year as int)[3]);
    assert(dt_text(d)[5] == pad2(d.month as int)[0]);
    assert(dt_text(d)[6] == pad2(d.month as int)[1]);
    assert(dt_text(d)[8] == pad2(d.day as int)[0]);
    assert(dt_text(d)[9] == pad2(d.day as int)[1]);
    assert(dt_text(d)[11] == pad2(d.hour as int)[0]);
    assert(dt_text(d)[12] == pad2(d.hour as int)[1]);
    assert(dt_text(d)[14] == pad2(d.minute as int)[0]);
    assert(dt_text(d)[15] == pad2(d.minute as int)[1]);
    assert(dt_text(d)[17] == pad2(d.second as int)[0]);
    assert(dt_text(d)[18] == pad2(d.second as int)[1]);
}

/// A twenty-character text with the right separators and digit groups is the
/// text of the datetime those groups encode.
#[verifier::rlimit(100)]
proof fn lemma_assemble(s: Seq<char>, d: DateTime)
    requires
        s.len() == 20,
        s[4] == '-' && s[7] == '-' && s[10] == 'T' && s[13] == ':' && s[16] == ':' && s[19] == 'Z',
        dt_valid(d),
        is_digit(s[0]) && is_digit(s[1]) && is_digit(s[2]) && is_digit(s[3]),
        is_digit(s[5]) && is_digit(s[6]),
        is_digit(s[8]) && is_digit(s[9]),
        is_digit(s[11]) && is_digit(s[12]),
        is_digit(s[14]) && is_digit(s[15]),
        is_digit(s[17]) && is_digit(s[18]),
        digit_value(s[0]) * 1000 + digit_value(s[1]) * 100 + digit_value(s[2]) * 10 + digit_value(
            s[3],
        ) == d.year,
        digit_value(s[5]) * 10 + digit_value(s[6]) == d.month,
        digit_value(s[8]) * 10 + digit_value(s[9]) == d.day,
        digit_value(s[11]) * 10 + digit_value(s[12]) == d.hour,
        digit_value(s[14]) * 10 + digit_value(s[15]) == d.minute,
        digit_value(s[17]) * 10 + digit_value(s[18]) == d.second,
    ensures
        s == dt_text(d),
{
    lemma_digits_pad4(s, 0, d.year as int);
    lemma_digits_pad2(s, 5, d.month as int);
    lemma_digits_pad2(s, 8, d.day as int);
    lemma_digits_pad2(s, 11, d.hour as int);
    lemma_digits_pad2(s, 14, d.minute as int);
    lemma_digits_pad2(s, 17, d.second as int);
    assert(s =~= dt_text(d));
}

impl DateTime {
    /// The number of days in this datetime's month.
    pub fn month_days(year: u32, month: u32) -> (r: u32)
        requires
            1 <= month <= 12,
        ensures
            r as int == days_in_month(year as int, month as int),
    {
        if month == 2 {
            if (year % 4 == 0 && year % 100 != 0) || year % 400 == 0 {
                29
            } else {
                28
            }
        } else if month == 4 || month == 6 || month == 9 || month == 11 {
            30
        } else {
            31
        }
    }

    /// Whether the fields form a real calendar datetime with a four-digit
    /// year.
    pub fn check_valid(&self) -> (r: bool)
        ensures
            r == dt_valid(*self),
    {
        self.year <= 9999 && 1 <= self.month && self.month <= 12 && 1 <= self.day && self.hour
            <= 23 && self.minute <= 59 && self.second <= 59 && self.day <= Self::month_days(
            self.year,
            self.month,
        )
    }

    /// The wire text of this datetime.
    #[verifier::rlimit(80)]
    pub fn to_text(&self) -> (s: String)
        requires
            dt_valid(*self),
        ensures
            s@ == dt_text(*self),
    {
        let mut out: Vec<char> = Vec::new();
        out.push(dchar(self.year / 1000 % 10));
        out.push(dchar(self.year / 100 % 10));
        out.push(dchar(self.year / 10 % 10));
        out.push(dchar(self.year % 10));
        out.push('-');
        out.push(dchar(self.month / 10 % 10));
        out.push(dchar(self.month % 10));
        out.push('-');
        out.push(dchar(self.day / 10 % 10));
        out.push(dchar(self.day % 10));
        out.push('T');
        out.push(dchar(self.hour / 10 % 10));
        out.push(dchar(self.hour % 10));
        out.push(':');
        out.push(dchar(self.minute / 10 % 10));
        out.push(dchar(self.minute % 10));
        out.push(':');
        out.push(dchar(self.second / 10 % 10));
        out.push(dchar(self.second % 10));
        out.push('Z');
        proof {
            assert(out@ =~= dt_text(*self));
        }
        crate::text::chars_to_string(&out)
    }

    /// Read a datetime from its wire text: `Some` exactly for the text of a
    /// valid datetime.
    #[verifier::rlimit(100)]
    pub fn parse_text(s: &Vec<char>) -> (r: Option<DateTime>)
        ensures
            match r {
                Some(d) => dt_valid(d) && s@ == dt_text(d),
                None => forall|d: DateTime| dt_valid(d) ==> s@ != dt_text(d),
            },
    {
        if s.len() != 20 {
            proof {
                assert forall|d: DateTime| dt_valid(d) implies s@ != dt_text(d) by {
                    assert(dt_text(d).len() == 20);
                }
            }
            return None;
        }
        if !(s[4] == '-' && s[7] == '-' && s[10] == 'T' && s[13] == ':' && s[16] == ':' && s[19]
            == 'Z') {
            proof {
                assert forall|d: DateTime| dt_valid(d) implies s@ != dt_text(d) by {
                    assert(dt_text(d)[4] == '-' && dt_text(d)[7] == '-' && dt_text(d)[10] == 'T'
                        && dt_text(d)[13] == ':' && dt_text(d)[16] == ':' && dt_text(d)[19] == 'Z');
                }
            }
            return None;
        }
        let y = Self::read4(s, 0);
        let mo = Self::read2(s, 5);
        let da = Self::read2(s, 8);
        let h = Self::read2(s, 11);
        let mi = Self::read2(s, 14);
        let se = Self::read2(s, 17);
        match (y, mo, da, h, mi, se) {
            (Some(y), Some(mo), Some(da), Some(h), Some(mi), Some(se)) => {
                let d = DateTime {
                    year: y,
                    month: mo,
                    day: da,
                    hour: h,
                    minute: mi,
                    second: se,
                };
                if d.check_valid() {
                    proof {
                        lemma_assemble(s@, d);
                    }
                    Some(d)
                } else {
                    proof {
                        assert forall|d2: DateTime| dt_valid(d2) implies s@ != dt_text(d2) by {
                            if s@ == dt_text(d2) {
                                lemma_dt_text_digits(d2);
                                assert(d2.year == y && d2.month == mo && d2.day == da && d2.hour
                                    == h && d2.minute == mi && d2.second == se);
                            }
                        }
                    }
                    None
                }
            },
            _ => {
                proof {
                    assert forall|d2: DateTime| dt_valid(d2) implies s@ != dt_text(d2) by {
                        if s@ == dt_text(d2) {
                            lemma_dt_text_digits(d2);
                        }
                    }
                }
                None
            },
        }
    }

    /// Read four digits at index `i`.
    fn read4(s: &Vec<char>, i: usize) -> (r: Option<u32>)
        requires
            i + 4 <= s@.len(),
        ensures
            match r {
                Some(n) => n < 10000 && is_digit(s@[i as int]) && is_digit(s@[i + 1]) && is_digit(
                    s@[i + 2],
                ) && is_digit(s@[i + 3]) && digit_value(s@[i as int]) * 1000 + digit_value(
                    s@[i + 1],
                ) * 100 + digit_value(s@[i + 2]) * 10 + digit_value(s@[i + 3]) == n as int,
                None => !(is_digit(s@[i as int]) && is_digit(s@[i + 1]) && is_digit(s@[i + 2])
                    && is_digit(s@[i + 3])),
            },
    {
        let n = s.len();
        proof {
            assert(i + 4 <= n);
        }
        let c0 = s[i];
        let c1 = s[i + 1];
        let c2 = s[i + 2];
        let c3 = s[i + 3];
        if '0' <= c0 && c0 <= '9' && '0' <= c1 && c1 <= '9' && '0' <= c2 && c2 <= '9' && '0' <= c3
            && c3 <= '9' {
            let v0 = (c0 as u32) - 48;
            let v1 = (c1 as u32) - 48;
            let v2 = (c2 as u32) - 48;
            let v3 = (c3 as u32) - 48;
            Some(v0 * 1000 + v1 * 100 + v2 * 10 + v3)
        } else {
            None
        }
    }

    /// Read two digits at index `i`.
    fn read2(s: &Vec<char>, i: usize) -> (r: Option<u32>)
        requires
            i + 2 <= s@.len(),
        ensures
            match r {
                Some(n) => n < 100 && is_digit(s@[i as int]) && is_digit(s@[i + 1]) && digit_value(
                    s@[i as int],
                ) * 10 + digit_value(s@[i + 1]) == n as int,
                None => !(is_digit(s@[i as int]) && is_digit(s@[i + 1])),
            },
    {
        let n = s.len();
        proof {
            assert(i + 2 <= n);
        }
        let c0 = s[i];
        let c1 = s[i + 1];
        if '0' <= c0 && c0 <= '9' && '0' <= c1 && c1 <= '9' {
            let v0 = (c0 as u32) - 48;
            let v1 = (c1 as u32) - 48;
            Some(v0 * 10 + v1)
        } else {
            None
        }
    }
}

/// Digits at an index whose weighted sum is `n` are the padded text of `n`.
proof fn lemma_digits_pad2(s: Seq<char>, i: int, n: int)
    requires
        0 <= i,
        i + 2 <= s.len(),
        is_digit(s[i]),
        is_digit(s[i + 1]),
        digit_value(s[i]) * 10 + digit_value(s[i + 1]) == n,
    ensures
        s[i] == pad2(n)[0],
        s[i + 1] == pad2(n)[1],
{
    let a = digit_value(s[i]);
    let b = digit_value(s[i + 1]);
    assert(n / 10 % 10 == a && n % 10 == b) by (nonlinear_arith)
        requires
            0 <= a < 10,
            0 <= b < 10,
            a * 10 + b == n,
    ;
    crate::numbers::lemma_digit_char_complete_pub(s[i]);
    crate::numbers::lemma_digit_char_complete_pub(s[i + 1]);
}

/// Digits at an index whose weighted sum is `n` are the padded text of `n`.
proof fn lemma_digits_pad4(s: Seq<char>, i: int, n: int)
    requires
        0 <= i,
        i + 4 <= s.len(),
        is_digit(s[i]),
        is_digit(s[i + 1]),
        is_digit(s[i + 2]),
        is_digit(s[i + 3]),
        digit_value(s[i]) * 1000 + digit_value(s[i + 1]) * 100 + digit_value(s[i + 2]) * 10
            + digit_value(s[i + 3]) == n,
    ensures
        s[i] == pad4(n)[0],
        s[i + 1] == pad4(n)[1],
        s[i + 2] == pad4(n)[2],
        s[i + 3] == pad4(n)[3],
{
    let a = digit_value(s[i]);
    let b = digit_value(s[i + 1]);
    let c = digit_value(s[i + 2]);
    let d = digit_value(s[i + 3]);
    assert(n / 1000 % 10 == a && n / 100 % 10 == b && n / 10 % 10 == c && n % 10 == d)
        by (nonlinear_arith)
        requires
            0 <= a < 10,
            0 <= b < 10,
            0 <= c < 10,
            0 <= d < 10,
            a * 1000 + b * 100 + c * 10 + d == n,
    ;
    crate::numbers::lemma_digit_char_complete_pub(s[i]);
    crate::numbers::lemma_digit_char_complete_pub(s[i + 1]);
    crate::numbers::lemma_digit_char_complete_pub(s[i + 2]);
    crate::numbers::lemma_digit_char_complete_pub(s[i + 3]);
}

} // verus!

verus! {

/// Valid datetimes with the same text are the same.
pub proof fn lemma_dt_text_inj(a: DateTime, b: DateTime)
    requires
        dt_valid(a),
        dt_valid(b),
        dt_text(a) == dt_text(b),
    ensures
        a == b,
{
    lemma_dt_text_digits(a);
    lemma_dt_text_digits(b);
}

} // verus!
