//! Canonical decimal integer literals: the texts the codec writes for ids,
//! counts and timestamps, and the only texts it reads back into them.

use crate::text::{digit_value, is_digit};
use vstd::prelude::*;

verus! {

/// The decimal digit character for a value below ten.
pub open spec fn digit_char(n: int) -> char {
    if n == 0 {
        '0'
    } else if n == 1 {
        '1'
    } else if n == 2 {
        '2'
    } else if n == 3 {
        '3'
    } else if n == 4 {
        '4'
    } else if n == 5 {
        '5'
    } else if n == 6 {
        '6'
    } else if n == 7 {
        '7'
    } else if n == 8 {
        '8'
    } else {
        '9'
    }
}

/// The canonical decimal text of a natural number: no sign, no leading zero.
pub open spec fn dec_digits(n: nat) -> Seq<char>
    decreases n,
{
    if n < 10 {
        seq![digit_char(n as int)]
    } else {
        dec_digits(n / 10).push(digit_char((n % 10) as int))
    }
}

/// The canonical decimal text of an integer: a minus sign for negatives.
pub open spec fn int_digits(n: int) -> Seq<char> {
    if n < 0 {
        seq!['-'] + dec_digits((-n) as nat)
    } else {
        dec_digits(n as nat)
    }
}

proof fn lemma_digit_char_value(n: int)
    requires
        0 <= n < 10,
    ensures
        is_digit(digit_char(n)),
        digit_value(digit_char(n)) == n,
{
}

/// Appending one more digit to a canonical text.
proof fn lemma_dec_digits_snoc(v: nat, d: nat)
    requires
        v >= 1,
        d < 10,
    ensures
        dec_digits(v * 10 + d) == dec_digits(v).push(digit_char(d as int)),
{
    assert((v * 10 + d) / 10 == v && (v * 10 + d) % 10 == d) by (nonlinear_arith)
        requires
            v >= 1,
            d < 10,
    ;
    assert(v * 10 + d >= 10) by (nonlinear_arith)
        requires
            v >= 1,
            d < 10,
    ;
}

/// Parse the canonical decimal text of a `u64`: `Some` exactly when the text
/// is canonical and the value fits.
pub fn parse_u64_digits(t: &Vec<char>) -> (r: Option<u64>)
    ensures
        match r {
            Some(n) => t@ == dec_digits(n as nat),
            None => forall|n: u64| t@ != dec_digits(n as nat),
        },
{
    if t.len() == 0 {
        proof {
            assert forall|n: u64| t@ != dec_digits(n as nat) by {
                assert(dec_digits(n as nat).len() > 0);
            }
        }
        return None;
    }
    // A canonical text never has a leading zero, except for "0" itself.
    if t[0] == '0' {
        if t.len() == 1 {
            proof {
                assert(t@ =~= dec_digits(0));
            }
            return Some(0);
        } else {
            proof {
                assert forall|n: u64| t@ != dec_digits(n as nat) by {
                    lemma_dec_digits_first(n as nat);
                    if n >= 10 {
                        assert(dec_digits(n as nat)[0] != '0');
                    } else {
                        assert(dec_digits(n as nat).len() == 1);
                    }
                }
            }
            return None;
        }
    }
    let mut v: u64 = 0;
    let mut i: usize = 0;
    let mut ok: bool = true;
    // Read the digits left to right.
    while i < t.len() && ok
        invariant
            i <= t@.len(),
            t@.len() > 0,
            t@[0] != '0',
            ok ==> (i > 0 ==> v >= 1 && t@.subrange(0, i as int) == dec_digits(v as nat)),
            ok ==> (i == 0 ==> v == 0),
            !ok ==> (forall|n: u64| t@ != dec_digits(n as nat)),
        decreases t@.len() - i + (if ok { 1int } else { 0int }),
    {
        let c = t[i];
        if !('0' <= c && c <= '9') {
            // A canonical text holds digits only.
            proof {
                assert forall|n: u64| t@ != dec_digits(n as nat) by {
                    lemma_dec_digits_all(n as nat);
                    if t@ == dec_digits(n as nat) {
                        assert(is_digit(t@[i as int]));
                    }
                }
            }
            ok = false;
        } else {
            let d: u64 = (c as u32 as u64) - 48;
            proof {
                assert(digit_value(c) == d as int);
            }
            if i == 0 {
                v = d;
                proof {
                    assert(v >= 1) by {
                        assert(c != '0');
                    }
                    assert(t@.subrange(0, 1) =~= seq![c]);
                    assert(dec_digits(v as nat) == seq![digit_char(v as int)]);
                    lemma_digit_char_complete(c);
                }
            } else {
                if v > 0xFFFF_FFFF_FFFF_FFFFu64 / 10 || (v == 0xFFFF_FFFF_FFFF_FFFFu64 / 10 && d
                    > 0xFFFF_FFFF_FFFF_FFFFu64 % 10) {
                    // The value does not fit in 64 bits; no u64 has this text.
                    proof {
                        lemma_dec_digits_unique_prefix(t@, i as int, v as nat);
                    }
                    ok = false;
                } else {
                    proof {
                        lemma_dec_digits_snoc(v as nat, d as nat);
                        assert(t@.subrange(0, (i + 1) as int) =~= t@.subrange(0, i as int).push(
                            t@[i as int],
                        ));
                        lemma_digit_char_complete(c);
                        assert(digit_char(d as int) == c);
                    }
                    v = v * 10 + d;
                }
            }
            i = i + 1;
        }
    }
    if ok {
        proof {
            assert(t@.subrange(0, t@.len() as int) =~= t@);
        }
        Some(v)
    } else {
        None
    }
}

/// The first digit of a canonical text is nonzero unless the value is below
/// ten.
proof fn lemma_dec_digits_first(n: nat)
    ensures
        dec_digits(n).len() > 0,
        n >= 10 ==> dec_digits(n)[0] != '0' && dec_digits(n).len() >= 2,
        n >= 1 ==> dec_digits(n)[0] != '0',
    decreases n,
{
    if n >= 10 {
        lemma_dec_digits_first(n / 10);
        assert(n / 10 >= 1);
    }
}

/// Every character of a canonical text is a digit.
proof fn lemma_dec_digits_all(n: nat)
    ensures
        forall|k: int| 0 <= k < dec_digits(n).len() ==> is_digit(#[trigger] dec_digits(n)[k]),
    decreases n,
{
    if n < 10 {
        lemma_digit_char_value(n as int);
    } else {
        lemma_dec_digits_all(n / 10);
        lemma_digit_char_value((n % 10) as int);
        assert forall|k: int| 0 <= k < dec_digits(n).len() implies is_digit(
            #[trigger] dec_digits(n)[k],
        ) by {
            if k < dec_digits(n / 10).len() {
                assert(dec_digits(n)[k] == dec_digits(n / 10)[k]);
            }
        }
    }
}

/// Every digit character is `digit_char` of its value.
pub proof fn lemma_digit_char_complete_pub(c: char)
    requires
        is_digit(c),
    ensures
        digit_char(digit_value(c)) == c,
{
    lemma_digit_char_complete(c);
}

/// Every digit character is `digit_char` of its value.
proof fn lemma_digit_char_complete(c: char)
    requires
        is_digit(c),
    ensures
        digit_char(digit_value(c)) == c,
{
    if c == '0' {
    } else if c == '1' {
    } else if c == '2' {
    } else if c == '3' {
    } else if c == '4' {
    } else if c == '5' {
    } else if c == '6' {
    } else if c == '7' {
    } else if c == '8' {
    } else {
        assert(c == '9');
    }
}

/// The digits of `v` cannot begin the canonical text of any `u64` whose text
/// is longer, once `v` itself is too large to gain another digit.
proof fn lemma_dec_digits_unique_prefix(t: Seq<char>, i: int, v: nat)
    requires
        0 < i < t.len(),
        t.subrange(0, i) == dec_digits(v),
        is_digit(t[i]),
        v * 10 + digit_value(t[i]) > 0xFFFF_FFFF_FFFF_FFFF,
    ensures
        forall|n: u64| t != dec_digits(n as nat),
{
    assert forall|n: u64| t != dec_digits(n as nat) by {
        if t == dec_digits(n as nat) {
            lemma_dec_digits_extend(t, i, v, n as nat);
        }
    }
}

/// If the first `i` characters of the canonical text of `n` read `v`, and a
/// digit follows, then `n >= v * 10 + that digit`.
proof fn lemma_dec_digits_extend(t: Seq<char>, i: int, v: nat, n: nat)
    requires
        0 < i < t.len(),
        t == dec_digits(n),
        t.subrange(0, i) == dec_digits(v),
    ensures
        n >= v * 10 + digit_value(t[i]),
    decreases t.len() - i,
{
    if i + 1 == t.len() {
        // t == dec_digits(n) == dec_digits(v) ++ [last digit]
        assert(n >= 10) by {
            if n < 10 {
                assert(dec_digits(n).len() == 1);
            }
        }
        assert(dec_digits(n) == dec_digits(n / 10).push(digit_char((n % 10) as int)));
        assert(dec_digits(n / 10) =~= t.subrange(0, i)) by {
            assert(dec_digits(n / 10).len() == t.len() - 1);
            assert forall|k: int| 0 <= k < dec_digits(n / 10).len() implies dec_digits(n / 10)[k]
                == t.subrange(0, i)[k] by {
                assert(t[k] == dec_digits(n / 10)[k]);
            }
        }
        lemma_dec_digits_inj(n / 10, v);
        assert(n / 10 == v);
        assert(t[i] == digit_char((n % 10) as int));
        lemma_digit_char_value((n % 10) as int);
        assert(digit_value(t[i]) == n % 10);
        assert(n == n / 10 * 10 + n % 10);
    } else {
        assert(n >= 10) by {
            if n < 10 {
                assert(dec_digits(n).len() == 1);
            }
        }
        lemma_dec_digits_all(n);
        assert(is_digit(t[i]));
        assert(dec_digits(n) == dec_digits(n / 10).push(digit_char((n % 10) as int)));
        let t2 = dec_digits(n / 10);
        assert(t2 =~= t.subrange(0, t.len() - 1)) by {
            assert forall|k: int| 0 <= k < t2.len() implies t2[k] == t.subrange(0, t.len() - 1)[k]
                by {
                assert(t[k] == t2[k]);
            }
        }
        assert(t2.subrange(0, i) =~= t.subrange(0, i)) by {
            assert forall|k: int| 0 <= k < i implies t2.subrange(0, i)[k] == t.subrange(0, i)[k]
                by {
                assert(t2[k] == t[k]);
            }
        }
        assert(t2[i] == t[i]);
        lemma_dec_digits_extend(t2, i, v, n / 10);
        assert(n / 10 >= v * 10 + digit_value(t2[i]));
        assert(n >= (n / 10) * 10) by (nonlinear_arith);
        assert((v * 10 + digit_value(t[i])) * 10 >= v * 10 + digit_value(t[i])) by (nonlinear_arith)
            requires
                v >= 0,
                0 <= digit_value(t[i]),
        ;
        assert(n >= (v * 10 + digit_value(t2[i])) * 10) by (nonlinear_arith)
            requires
                n >= (n / 10) * 10,
                n / 10 >= v * 10 + digit_value(t2[i]),
        ;
    }
}

/// Canonical texts are unique.
pub proof fn lemma_dec_digits_inj(a: nat, b: nat)
    requires
        dec_digits(a) == dec_digits(b),
    ensures
        a == b,
    decreases a,
{
    if a < 10 && b < 10 {
        lemma_digit_char_value(a as int);
        lemma_digit_char_value(b as int);
        assert(digit_value(dec_digits(a)[0]) == a);
        assert(digit_value(dec_digits(b)[0]) == b);
    } else if a >= 10 && b >= 10 {
        assert(dec_digits(a) == dec_digits(a / 10).push(digit_char((a % 10) as int)));
        assert(dec_digits(b) == dec_digits(b / 10).push(digit_char((b % 10) as int)));
        assert(dec_digits(a / 10) =~= dec_digits(b / 10)) by {
            assert(dec_digits(a / 10).len() == dec_digits(b / 10).len());
            assert forall|k: int| 0 <= k < dec_digits(a / 10).len() implies #[trigger] dec_digits(
                a / 10,
            )[k] == dec_digits(b / 10)[k] by {
                assert(dec_digits(a)[k] == dec_digits(a / 10)[k]);
                assert(dec_digits(b)[k] == dec_digits(b / 10)[k]);
            }
        }
        lemma_dec_digits_inj(a / 10, b / 10);
        let la = dec_digits(a).len();
        assert(dec_digits(a)[la - 1] == digit_char((a % 10) as int));
        assert(dec_digits(b)[la - 1] == digit_char((b % 10) as int));
        lemma_digit_char_value((a % 10) as int);
        lemma_digit_char_value((b % 10) as int);
        assert(digit_value(digit_char((a % 10) as int)) == a % 10);
        assert(a % 10 == b % 10);
        assert(a == a / 10 * 10 + a % 10);
        assert(b == b / 10 * 10 + b % 10);
    } else {
        let lo = if a < 10 {
            a
        } else {
            b
        };
        let hi = if a < 10 {
            b
        } else {
            a
        };
        lemma_dec_digits_first(hi);
        assert(dec_digits(lo).len() == 1);
        assert(dec_digits(hi).len() >= 2);
    }
}

/// Write the canonical decimal text of a `u64` into a vector of characters.
fn write_u64_digits(out: &mut Vec<char>, n: u64)
    ensures
        final(out)@ == old(out)@ + dec_digits(n as nat),
    decreases n,
{
    if n < 10 {
        let c: char = digit_char_exec((n % 10) as u8);
        out.push(c);
        proof {
            assert(out@ =~= old(out)@ + dec_digits(n as nat));
        }
    } else {
        write_u64_digits(out, n / 10);
        let c: char = digit_char_exec((n % 10) as u8);
        out.push(c);
        proof {
            assert(out@ =~= old(out)@ + dec_digits(n as nat));
        }
    }
}

/// The decimal digit character for a value below ten.
fn digit_char_exec(n: u8) -> (c: char)
    requires
        n < 10,
    ensures
        c == digit_char(n as int),
{
    if n == 0 {
        '0'
    } else if n == 1 {
        '1'
    } else if n == 2 {
        '2'
    } else if n == 3 {
        '3'
    } else if n == 4 {
        '4'
    } else if n == 5 {
        '5'
    } else if n == 6 {
        '6'
    } else if n == 7 {
        '7'
    } else if n == 8 {
        '8'
    } else {
        '9'
    }
}

/// The canonical decimal text of a `u64`.
pub fn u64_to_text(n: u64) -> (s: String)
    ensures
        s@ == dec_digits(n as nat),
{
    let mut out: Vec<char> = Vec::new();
    write_u64_digits(&mut out, n);
    crate::text::chars_to_string(&out)
}

/// The canonical decimal text of an `i64`.
pub fn i64_to_text(n: i64) -> (s: String)
    ensures
        s@ == int_digits(n as int),
{
    if n >= 0 {
        u64_to_text(n as u64)
    } else {
        // The magnitude of any negative `i64` fits in a `u64`.
        let neg: i128 = -(n as i128);
        proof {
            assert(1 <= neg <= 0x8000_0000_0000_0000i128);
        }
        let m: u64 = neg as u64;
        proof {
            assert(m as int == -(n as int));
        }
        let mut out: Vec<char> = Vec::new();
        out.push('-');
        write_u64_digits(&mut out, m);
        proof {
            assert(out@ =~= seq!['-'] + dec_digits(m as nat));
        }
        crate::text::chars_to_string(&out)
    }
}

/// Parse the canonical decimal text of an `i64`: `Some` exactly when the
/// text is canonical and the value fits.
pub fn parse_i64_digits(t: &Vec<char>) -> (r: Option<i64>)
    ensures
        match r {
            Some(n) => t@ == int_digits(n as int),
            None => forall|n: i64| t@ != int_digits(n as int),
        },
{
    if t.len() > 0 && t[0] == '-' {
        let mag = crate::json_parse::copy_range(t, 1, t.len());
        match parse_u64_digits(&mag) {
            Some(m) => {
                if m == 0 {
                    // "-0" is not canonical.
                    proof {
                        assert forall|n: i64| t@ != int_digits(n as int) by {
                            if n >= 0 {
                                lemma_dec_digits_all(n as nat);
                                if t@ == int_digits(n as int) {
                                    assert(is_digit(t@[0]));
                                }
                            } else {
                                if t@ == int_digits(n as int) {
                                    assert(t@.subrange(1, t@.len() as int) =~= dec_digits(
                                        (-(n as int)) as nat,
                                    ));
                                    lemma_dec_digits_inj((-(n as int)) as nat, 0);
                                }
                            }
                        }
                    }
                    None
                } else if m <= 0x8000_0000_0000_0000u64 {
                    let n: i64 = if m == 0x8000_0000_0000_0000u64 {
                        i64::MIN
                    } else {
                        -(m as i64)
                    };
                    proof {
                        assert(t@ =~= seq!['-'] + dec_digits(m as nat));
                    }
                    Some(n)
                } else {
                    proof {
                        assert forall|n: i64| t@ != int_digits(n as int) by {
                            if n >= 0 {
                                lemma_dec_digits_all(n as nat);
                                if t@ == int_digits(n as int) {
                                    assert(is_digit(t@[0]));
                                }
                            } else {
                                if t@ == int_digits(n as int) {
                                    assert(t@.subrange(1, t@.len() as int) =~= dec_digits(
                                        (-(n as int)) as nat,
                                    ));
                                    lemma_dec_digits_inj((-(n as int)) as nat, m as nat);
                                }
                            }
                        }
                    }
                    None
                }
            },
            None => {
                proof {
                    assert forall|n: i64| t@ != int_digits(n as int) by {
                        if n >= 0 {
                            lemma_dec_digits_all(n as nat);
                            if t@ == int_digits(n as int) {
                                assert(is_digit(t@[0]));
                            }
                        } else {
                            if t@ == int_digits(n as int) {
                                assert(t@.subrange(1, t@.len() as int) =~= dec_digits(
                                    (-(n as int)) as nat,
                                ));
                            }
                        }
                    }
                }
                None
            },
        }
    } else {
        match parse_u64_digits(t) {
            Some(m) => {
                if m <= 0x7FFF_FFFF_FFFF_FFFFu64 {
                    Some(m as i64)
                } else {
                    proof {
                        assert forall|n: i64| t@ != int_digits(n as int) by {
                            if n >= 0 {
                                if t@ == int_digits(n as int) {
                                    lemma_dec_digits_inj(n as nat, m as nat);
                                }
                            } else {
                                if t@ == int_digits(n as int) {
                                    assert(t@[0] == '-');
                                }
                            }
                        }
                    }
                    None
                }
            },
            None => {
                proof {
                    assert forall|n: i64| t@ != int_digits(n as int) by {
                        if n >= 0 {
                            assert(t@ != dec_digits(n as nat));
                        } else {
                            if t@ == int_digits(n as int) {
                                assert(t@[0] == '-');
                            }
                        }
                    }
                }
                None
            },
        }
    }
}

/// Parse the canonical decimal text of a `u32`.
pub fn parse_u32_digits(t: &Vec<char>) -> (r: Option<u32>)
    ensures
        match r {
            Some(n) => t@ == dec_digits(n as nat),
            None => forall|n: u32| t@ != dec_digits(n as nat),
        },
{
    match parse_u64_digits(t) {
        Some(m) => {
            if m <= 0xFFFF_FFFFu64 {
                Some(m as u32)
            } else {
                proof {
                    assert forall|n: u32| t@ != dec_digits(n as nat) by {
                        if t@ == dec_digits(n as nat) {
                            lemma_dec_digits_inj(n as nat, m as nat);
                        }
                    }
                }
                None
            }
        },
        None => {
            proof {
                assert forall|n: u32| t@ != dec_digits(n as nat) by {
                    let m64: u64 = n as u64;
                    assert(dec_digits(m64 as nat) == dec_digits(n as nat));
                }
            }
            None
        },
    }
}

} // verus!

verus! {

/// The canonical text of a natural number is a valid JSON number literal.
pub proof fn lemma_dec_digits_valid_num(n: nat)
    ensures
        crate::json::valid_num(dec_digits(n)),
{
    let t = dec_digits(n);
    lemma_dec_digits_all(n);
    lemma_dec_digits_first(n);
    assert(!is_digit('-'));
    assert(t[0] != '-');
    lemma_all_digits_end(t, 0);
    assert(crate::json::digits_end(t, 0) == t.len());
    if n >= 10 {
        assert(t[0] != '0');
    } else {
        assert(t.len() == 1);
    }
}

/// The canonical text of an integer is a valid JSON number literal.
pub proof fn lemma_int_digits_valid_num(n: int)
    ensures
        crate::json::valid_num(int_digits(n)),
{
    if n < 0 {
        let t = int_digits(n);
        let u = dec_digits((-n) as nat);
        assert(t[0] == '-');
        assert(t.subrange(1, t.len() as int) =~= u);
        lemma_dec_digits_valid_num((-n) as nat);
        lemma_dec_digits_all((-n) as nat);
        lemma_dec_digits_first((-n) as nat);
        lemma_all_digits_end(u, 0);
    } else {
        lemma_dec_digits_valid_num(n as nat);
    }
}

/// A text of digits scans as digits to its end.
proof fn lemma_all_digits_end(t: Seq<char>, i: int)
    requires
        0 <= i <= t.len(),
        forall|k: int| 0 <= k < t.len() ==> is_digit(#[trigger] t[k]),
    ensures
        crate::json::digits_end(t, i) == t.len(),
    decreases t.len() - i,
{
    if i < t.len() {
        lemma_all_digits_end(t, i + 1);
    }
}

} // verus!

verus! {

/// Every character of a canonical text is a digit.
pub proof fn lemma_dec_digits_all_pub(n: nat)
    ensures
        forall|k: int| 0 <= k < dec_digits(n).len() ==> is_digit(#[trigger] dec_digits(n)[k]),
        dec_digits(n).len() > 0,
{
    lemma_dec_digits_all(n);
    lemma_dec_digits_first(n);
}

} // verus!

verus! {

/// The `u8` a text is the canonical form of, if any.
pub open spec fn canon_u8(t: Seq<char>) -> Option<u8> {
    if exists|n: u8| t == dec_digits(n as nat) {
        Some(choose|n: u8| t == dec_digits(n as nat))
    } else {
        None
    }
}

/// The `u16` a text is the canonical form of, if any.
pub open spec fn canon_u16(t: Seq<char>) -> Option<u16> {
    if exists|n: u16| t == dec_digits(n as nat) {
        Some(choose|n: u16| t == dec_digits(n as nat))
    } else {
        None
    }
}

/// The `u64` a text is the canonical form of, if any.
pub open spec fn canon_u64(t: Seq<char>) -> Option<u64> {
    if exists|n: u64| t == dec_digits(n as nat) {
        Some(choose|n: u64| t == dec_digits(n as nat))
    } else {
        None
    }
}

pub proof fn lemma_canon_u8_some(t: Seq<char>, n: u8)
    requires
        t == dec_digits(n as nat),
    ensures
        canon_u8(t) == Some(n),
{
    assert(exists|m: u8| t == dec_digits(m as nat)) by {
        assert(t == dec_digits(n as nat));
    }
    let m = choose|m: u8| t == dec_digits(m as nat);
    lemma_dec_digits_inj(m as nat, n as nat);
}

pub proof fn lemma_canon_u16_some(t: Seq<char>, n: u16)
    requires
        t == dec_digits(n as nat),
    ensures
        canon_u16(t) == Some(n),
{
    assert(exists|m: u16| t == dec_digits(m as nat)) by {
        assert(t == dec_digits(n as nat));
    }
    let m = choose|m: u16| t == dec_digits(m as nat);
    lemma_dec_digits_inj(m as nat, n as nat);
}

pub proof fn lemma_canon_u64_some(t: Seq<char>, n: u64)
    requires
        t == dec_digits(n as nat),
    ensures
        canon_u64(t) == Some(n),
{
    assert(exists|m: u64| t == dec_digits(m as nat)) by {
        assert(t == dec_digits(n as nat));
    }
    let m = choose|m: u64| t == dec_digits(m as nat);
    lemma_dec_digits_inj(m as nat, n as nat);
}

/// Parse the canonical decimal text of a `u8`.
pub fn parse_u8_digits(t: &Vec<char>) -> (r: Option<u8>)
    ensures
        match r {
            Some(n) => t@ == dec_digits(n as nat) && canon_u8(t@) == Some(n),
            None => canon_u8(t@) is None,
        },
{
    match parse_u64_digits(t) {
        Some(m) => {
            if m <= 0xFFu64 {
                proof {
                    lemma_canon_u8_some(t@, m as u8);
                }
                Some(m as u8)
            } else {
                proof {
                    assert(canon_u8(t@) is None) by {
                        if exists|n: u8| t@ == dec_digits(n as nat) {
                            let w = choose|n: u8| t@ == dec_digits(n as nat);
                            lemma_dec_digits_inj(w as nat, m as nat);
                        }
                    }
                }
                None
            }
        },
        None => {
            proof {
                assert(canon_u8(t@) is None) by {
                    if exists|n: u8| t@ == dec_digits(n as nat) {
                        let w = choose|n: u8| t@ == dec_digits(n as nat);
                        let w64: u64 = w as u64;
                        assert(t@ == dec_digits(w64 as nat));
                    }
                }
            }
            None
        },
    }
}

/// Parse the canonical decimal text of a `u16`.
pub fn parse_u16_digits(t: &Vec<char>) -> (r: Option<u16>)
    ensures
        match r {
            Some(n) => t@ == dec_digits(n as nat) && canon_u16(t@) == Some(n),
            None => canon_u16(t@) is None,
        },
{
    match parse_u64_digits(t) {
        Some(m) => {
            if m <= 0xFFFFu64 {
                proof {
                    lemma_canon_u16_some(t@, m as u16);
                }
                Some(m as u16)
            } else {
                proof {
                    assert(canon_u16(t@) is None) by {
                        if exists|n: u16| t@ == dec_digits(n as nat) {
                            let w = choose|n: u16| t@ == dec_digits(n as nat);
                            lemma_dec_digits_inj(w as nat, m as nat);
                        }
                    }
                }
                None
            }
        },
        None => {
            proof {
                assert(canon_u16(t@) is None) by {
                    if exists|n: u16| t@ == dec_digits(n as nat) {
                        let w = choose|n: u16| t@ == dec_digits(n as nat);
                        let w64: u64 = w as u64;
                        assert(t@ == dec_digits(w64 as nat));
                    }
                }
            }
            None
        },
    }
}

} // verus!
