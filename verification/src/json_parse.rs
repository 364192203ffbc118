//! Parsing JSON text.
//!
//! `sp_value` is the exact mathematical statement of what the parser accepts
//! and produces; the executable parser in this module implements it.

use crate::json::{Jv, JsonValue, digits_end, is_num_char, keys_unique, lemma_view_arr_index,
    lemma_view_arr_len, lemma_view_fields_index, lemma_view_fields_len, jv_wf, valid_exp_from,
    valid_num, valid_unsigned_num, view_arr, view_fields};
use crate::text::{check_digit, chars_to_string, is_digit, str_to_chars};
use vstd::prelude::*;

verus! {

/// JSON whitespace.
pub open spec fn is_ws(c: char) -> bool {
    c == ' ' || c == '\t' || c == '\n' || c == '\r'
}

/// The first index at or after `i` that does not hold whitespace.
pub open spec fn skip_ws(s: Seq<char>, i: int) -> int
    decreases s.len() - i when 0 <= i <= s.len()
{
    if i < s.len() && is_ws(s[i]) {
        skip_ws(s, i + 1)
    } else {
        i
    }
}

pub proof fn lemma_skip_ws(s: Seq<char>, i: int)
    requires
        0 <= i <= s.len(),
    ensures
        i <= skip_ws(s, i) <= s.len(),
        skip_ws(s, i) < s.len() ==> !is_ws(s[skip_ws(s, i)]),
        forall|k: int| i <= k < skip_ws(s, i) ==> is_ws(#[trigger] s[k]),
    decreases s.len() - i,
{
    if i < s.len() && is_ws(s[i]) {
        lemma_skip_ws(s, i + 1);
    }
}

/// The first index at or after `i` that does not hold a number character.
pub open spec fn num_end(s: Seq<char>, i: int) -> int
    decreases s.len() - i when 0 <= i <= s.len()
{
    if i < s.len() && is_num_char(s[i]) {
        num_end(s, i + 1)
    } else {
        i
    }
}

pub proof fn lemma_num_end(s: Seq<char>, i: int)
    requires
        0 <= i <= s.len(),
    ensures
        i <= num_end(s, i) <= s.len(),
        num_end(s, i) < s.len() ==> !is_num_char(s[num_end(s, i)]),
        forall|k: int| i <= k < num_end(s, i) ==> is_num_char(#[trigger] s[k]),
    decreases s.len() - i,
{
    if i < s.len() && is_num_char(s[i]) {
        lemma_num_end(s, i + 1);
    }
}

/// Does the word `w` stand at index `i` of `s`?
pub open spec fn match_at(s: Seq<char>, i: int, w: Seq<char>) -> bool {
    0 <= i && i + w.len() <= s.len() && s.subrange(i, i + w.len()) == w
}

/// The value of a hexadecimal digit, or -1.
pub open spec fn hex_val(c: char) -> int {
    if is_digit(c) {
        c as int - '0' as int
    } else if 'a' <= c && c <= 'f' {
        c as int - 'a' as int + 10
    } else if 'A' <= c && c <= 'F' {
        c as int - 'A' as int + 10
    } else {
        -1
    }
}

/// Four hexadecimal digits standing at index `i`.
pub open spec fn is_hex4(s: Seq<char>, i: int) -> bool {
    &&& 0 <= i
    &&& i + 4 <= s.len()
    &&& hex_val(s[i]) >= 0
    &&& hex_val(s[i + 1]) >= 0
    &&& hex_val(s[i + 2]) >= 0
    &&& hex_val(s[i + 3]) >= 0
}

/// The value of the four hexadecimal digits standing at index `i`.
pub open spec fn hex4_val(s: Seq<char>, i: int) -> int {
    hex_val(s[i]) * 4096 + hex_val(s[i + 1]) * 256 + hex_val(s[i + 2]) * 16 + hex_val(s[i + 3])
}

/// The scalar value of a character.
pub open spec fn char_code(c: char) -> int {
    c as int
}

/// The character whose scalar value is `n`.
pub open spec fn char_of(n: int) -> char {
    choose|c: char| char_code(c) == n
}

/// A scalar value that is a character: not a surrogate, at most 0x10FFFF.
pub open spec fn is_scalar_value(n: int) -> bool {
    0 <= n <= 0x10FFFF && !(0xD800 <= n <= 0xDFFF)
}

/// A high (leading) surrogate.
pub open spec fn is_high_surrogate(n: int) -> bool {
    0xD800 <= n <= 0xDBFF
}

/// A low (trailing) surrogate.
pub open spec fn is_low_surrogate(n: int) -> bool {
    0xDC00 <= n <= 0xDFFF
}

/// The scalar value of a surrogate pair.
pub open spec fn pair_value(hi: int, lo: int) -> int {
    0x10000 + (hi - 0xD800) * 0x400 + (lo - 0xDC00)
}

/// The character that one string escape stands for, with the index after it.
/// `i` is the index of the character after the backslash.
pub open spec fn sp_escape(s: Seq<char>, i: int) -> Option<(char, int)> {
    if i >= s.len() {
        None
    } else {
        let c = s[i];
        if c == '"' || c == '\\' || c == '/' {
            Some((c, i + 1))
        } else if c == 'b' {
            Some((char_of(8), i + 1))
        } else if c == 'f' {
            Some((char_of(12), i + 1))
        } else if c == 'n' {
            Some(('\n', i + 1))
        } else if c == 'r' {
            Some(('\r', i + 1))
        } else if c == 't' {
            Some(('\t', i + 1))
        } else if c == 'u' {
            if is_hex4(s, i + 1) {
                let n = hex4_val(s, i + 1);
                if is_scalar_value(n) {
                    Some((char_of(n), i + 5))
                } else if is_high_surrogate(n) && i + 11 <= s.len() && s[i + 5] == '\\' && s[i + 6]
                    == 'u' && is_hex4(s, i + 7) && is_low_surrogate(hex4_val(s, i + 7)) {
                    Some((char_of(pair_value(n, hex4_val(s, i + 7))), i + 11))
                } else {
                    None
                }
            } else {
                None
            }
        } else {
            None
        }
    }
}

/// The contents of a JSON string read from index `i` (just after the opening
/// quote) to its closing quote, with the index after that quote.
pub open spec fn sp_string(s: Seq<char>, i: int) -> Option<(Seq<char>, int)>
    decreases s.len() - i when 0 <= i <= s.len()
{
    if i >= s.len() {
        None
    } else if s[i] == '"' {
        Some((Seq::empty(), i + 1))
    } else if s[i] == '\\' {
        match sp_escape(s, i + 1) {
            None => None,
            Some((c, j)) => if i + 1 < j <= s.len() {
                match sp_string(s, j) {
                    None => None,
                    Some((rest, e)) => Some((seq![c] + rest, e)),
                }
            } else {
                None
            },
        }
    } else {
        match sp_string(s, i + 1) {
            None => None,
            Some((rest, e)) => Some((seq![s[i]] + rest, e)),
        }
    }
}

pub proof fn lemma_sp_string_pos(s: Seq<char>, i: int)
    requires
        0 <= i <= s.len(),
    ensures
        match sp_string(s, i) {
            Some((c, e)) => i < e <= s.len(),
            None => true,
        },
    decreases s.len() - i,
{
    if i < s.len() && s[i] == '\\' {
        match sp_escape(s, i + 1) {
            None => {},
            Some((c, j)) => {
                if i + 1 < j <= s.len() {
                    lemma_sp_string_pos(s, j);
                }
            },
        }
    } else if i < s.len() && s[i] != '"' {
        lemma_sp_string_pos(s, i + 1);
    }
}

/// A value read from index `i`: leading whitespace, then one JSON value.
/// The result carries the index just after the value.
pub open spec fn sp_value(s: Seq<char>, i: int) -> Option<(Jv, int)>
    decreases s.len() - i, 0int when 0 <= i <= s.len() via sp_value_dec
{
    let j = skip_ws(s, i);
    if j >= s.len() {
        None
    } else {
        let c = s[j];
        if c == 'n' {
            if match_at(s, j, seq!['n', 'u', 'l', 'l']) {
                Some((Jv::Null, j + 4))
            } else {
                None
            }
        } else if c == 't' {
            if match_at(s, j, seq!['t', 'r', 'u', 'e']) {
                Some((Jv::Bool(true), j + 4))
            } else {
                None
            }
        } else if c == 'f' {
            if match_at(s, j, seq!['f', 'a', 'l', 's', 'e']) {
                Some((Jv::Bool(false), j + 5))
            } else {
                None
            }
        } else if c == '"' {
            match sp_string(s, j + 1) {
                None => None,
                Some((cs, e)) => Some((Jv::Str(cs), e)),
            }
        } else if c == '[' {
            let j1 = skip_ws(s, j + 1);
            if j1 < s.len() && s[j1] == ']' {
                Some((Jv::Arr(Seq::empty()), j1 + 1))
            } else {
                match sp_arr_items(s, j + 1) {
                    None => None,
                    Some((xs, e)) => Some((Jv::Arr(xs), e)),
                }
            }
        } else if c == '{' {
            let j1 = skip_ws(s, j + 1);
            if j1 < s.len() && s[j1] == '}' {
                Some((Jv::Obj(Seq::empty()), j1 + 1))
            } else {
                match sp_obj_items(s, j + 1) {
                    None => None,
                    Some((fs, e)) => if keys_unique(fs) {
                        Some((Jv::Obj(fs), e))
                    } else {
                        None
                    },
                }
            }
        } else if c == '-' || is_digit(c) {
            let e = num_end(s, j);
            let t = s.subrange(j, e);
            if valid_num(t) {
                Some((Jv::Num(t), e))
            } else {
                None
            }
        } else {
            None
        }
    }
}

/// The elements of an array read from index `i` (just after `[` or a comma)
/// up to the closing bracket, with the index after that bracket.
pub open spec fn sp_arr_items(s: Seq<char>, i: int) -> Option<(Seq<Jv>, int)>
    decreases s.len() - i, 1int when 0 <= i <= s.len() via sp_arr_items_dec
{
    match sp_value(s, i) {
        None => None,
        Some((x, k)) => if i < k <= s.len() {
            let m = skip_ws(s, k);
            if k <= m && m < s.len() && s[m] == ',' {
                match sp_arr_items(s, m + 1) {
                    None => None,
                    Some((rest, e)) => Some((seq![x] + rest, e)),
                }
            } else if m < s.len() && s[m] == ']' {
                Some((seq![x], m + 1))
            } else {
                None
            }
        } else {
            None
        },
    }
}

/// The fields of an object read from index `i` (just after `{` or a comma)
/// up to the closing brace, with the index after that brace.
pub open spec fn sp_obj_items(s: Seq<char>, i: int) -> Option<(Seq<(Seq<char>, Jv)>, int)>
    decreases s.len() - i, 1int when 0 <= i <= s.len() via sp_obj_items_dec
{
    let j = skip_ws(s, i);
    if j < s.len() && s[j] == '"' {
        match sp_string(s, j + 1) {
            None => None,
            Some((key, k1)) => if j < k1 <= s.len() {
                let m1 = skip_ws(s, k1);
                if k1 <= m1 && m1 < s.len() && s[m1] == ':' {
                    match sp_value(s, m1 + 1) {
                        None => None,
                        Some((x, k)) => if m1 < k <= s.len() {
                            let m = skip_ws(s, k);
                            if k <= m && m < s.len() && s[m] == ',' {
                                match sp_obj_items(s, m + 1) {
                                    None => None,
                                    Some((rest, e)) => Some((seq![(key, x)] + rest, e)),
                                }
                            } else if m < s.len() && s[m] == '}' {
                                Some((seq![(key, x)], m + 1))
                            } else {
                                None
                            }
                        } else {
                            None
                        },
                    }
                } else {
                    None
                }
            } else {
                None
            },
        }
    } else {
        None
    }
}

#[via_fn]
proof fn sp_value_dec(s: Seq<char>, i: int) {
    lemma_skip_ws(s, i);
}

#[via_fn]
proof fn sp_arr_items_dec(s: Seq<char>, i: int) {
}

#[via_fn]
proof fn sp_obj_items_dec(s: Seq<char>, i: int) {
    lemma_skip_ws(s, i);
}

/// A whole JSON document: one value with nothing but whitespace around it.
pub open spec fn sp_json(s: Seq<char>) -> Option<Jv> {
    match sp_value(s, 0) {
        None => None,
        Some((v, k)) => if 0 <= k <= s.len() && skip_ws(s, k) == s.len() {
            Some(v)
        } else {
            None
        },
    }
}

} // verus!

verus! {

// ---------------------------------------------------------------------------
// The executable parser.
// ---------------------------------------------------------------------------
/// Executable whitespace check.
fn check_ws(c: char) -> (r: bool)
    ensures
        r == is_ws(c),
{
    c == ' ' || c == '\t' || c == '\n' || c == '\r'
}

/// Executable number-character check.
fn check_num_char(c: char) -> (r: bool)
    ensures
        r == is_num_char(c),
{
    ('0' <= c && c <= '9') || c == '-' || c == '+' || c == '.' || c == 'e' || c == 'E'
}

/// Skip whitespace from index `i`.
fn p_skip_ws(s: &Vec<char>, i: usize) -> (j: usize)
    requires
        i <= s@.len(),
    ensures
        j as int == skip_ws(s@, i as int),
        i <= j <= s@.len(),
    decreases s@.len() - i,
{
    let mut j = i;
    while j < s.len() && check_ws(s[j])
        invariant
            i <= j <= s@.len(),
            skip_ws(s@, i as int) == skip_ws(s@, j as int),
        decreases s@.len() - j,
    {
        proof {
            assert(skip_ws(s@, j as int) == skip_ws(s@, j + 1));
        }
        j = j + 1;
    }
    proof {
        assert(skip_ws(s@, j as int) == j as int);
    }
    j
}

/// Find the end of a run of number characters from index `i`.
fn p_num_end(s: &Vec<char>, i: usize) -> (j: usize)
    requires
        i <= s@.len(),
    ensures
        j as int == num_end(s@, i as int),
        i <= j <= s@.len(),
    decreases s@.len() - i,
{
    let mut j = i;
    while j < s.len() && check_num_char(s[j])
        invariant
            i <= j <= s@.len(),
            num_end(s@, i as int) == num_end(s@, j as int),
        decreases s@.len() - j,
    {
        proof {
            assert(num_end(s@, j as int) == num_end(s@, j + 1));
        }
        j = j + 1;
    }
    proof {
        assert(num_end(s@, j as int) == j as int);
    }
    j
}

/// The value of one hexadecimal digit.
fn p_hex_digit(c: char) -> (r: Option<u8>)
    ensures
        match r {
            Some(v) => hex_val(c) == v as int,
            None => hex_val(c) == -1,
        },
{
    if '0' <= c && c <= '9' {
        Some(((c as u32) - ('0' as u32)) as u8)
    } else if 'a' <= c && c <= 'f' {
        Some((((c as u32) - ('a' as u32)) + 10) as u8)
    } else if 'A' <= c && c <= 'F' {
        Some((((c as u32) - ('A' as u32)) + 10) as u8)
    } else {
        None
    }
}

/// The value of the four hexadecimal digits at index `i`.
fn p_hex4(s: &Vec<char>, i: usize) -> (r: Option<u32>)
    requires
        i <= s@.len(),
    ensures
        match r {
            Some(n) => is_hex4(s@, i as int) && n as int == hex4_val(s@, i as int) && n < 0x10000,
            None => !is_hex4(s@, i as int),
        },
{
    if s.len() < 4 || i > s.len() - 4 {
        return None;
    }
    let d0 = p_hex_digit(s[i]);
    let d1 = p_hex_digit(s[i + 1]);
    let d2 = p_hex_digit(s[i + 2]);
    let d3 = p_hex_digit(s[i + 3]);
    match (d0, d1, d2, d3) {
        (Some(a), Some(b), Some(c), Some(d)) => Some(
            (a as u32) * 4096 + (b as u32) * 256 + (c as u32) * 16 + (d as u32),
        ),
        _ => None,
    }
}

/// Relies on char::from_u32: `Some` exactly for Unicode scalar values, and
/// the character returned has that scalar value.
#[verifier::external_body]
fn char_from_u32(n: u32) -> (r: Option<char>)
    ensures
        match r {
            Some(c) => is_scalar_value(n as int) && c as u32 == n,
            None => !is_scalar_value(n as int),
        },
{
    char::from_u32(n)
}

/// Every character is the character of its own scalar value.
proof fn lemma_char_of_code(c: char)
    ensures
        char_of(c as int) == c,
{
    assert(char_code(c) == c as int);
    let w = char_of(c as int);
    assert(char_code(w) == c as int);
    assert(w as int == c as int);
    assert(w == c);
}

/// Parse one string escape; `i` is the index after the backslash.
fn p_escape(s: &Vec<char>, i: usize) -> (r: Option<(char, usize)>)
    requires
        i <= s@.len(),
    ensures
        match r {
            Some((c, j)) => sp_escape(s@, i as int) == Some((c, j as int)) && i < j <= s@.len(),
            None => sp_escape(s@, i as int) is None,
        },
{
    if i >= s.len() {
        return None;
    }
    let c = s[i];
    if c == '"' || c == '\\' || c == '/' {
        Some((c, i + 1))
    } else if c == 'b' {
        let b = char_from_u32(8);
        match b {
            Some(ch) => {
                proof {
                    lemma_char_of_code(ch);
                }
                Some((ch, i + 1))
            },
            None => None,
        }
    } else if c == 'f' {
        let b = char_from_u32(12);
        match b {
            Some(ch) => {
                proof {
                    lemma_char_of_code(ch);
                }
                Some((ch, i + 1))
            },
            None => None,
        }
    } else if c == 'n' {
        Some(('\n', i + 1))
    } else if c == 'r' {
        Some(('\r', i + 1))
    } else if c == 't' {
        Some(('\t', i + 1))
    } else if c == 'u' {
        match p_hex4(s, i + 1) {
            None => None,
            Some(n) => {
                if !(0xD800 <= n && n <= 0xDFFF) {
                    let ch = char_from_u32(n);
                    match ch {
                        Some(ch) => {
                            proof {
                                lemma_char_of_code(ch);
                            }
                            Some((ch, i + 5))
                        },
                        None => None,
                    }
                } else if n <= 0xDBFF {
                    // A high surrogate: a low surrogate escape must follow.
                    if s.len() >= 11 && i <= s.len() - 11 && s[i + 5] == '\\' && s[i + 6] == 'u' {
                        match p_hex4(s, i + 7) {
                            None => None,
                            Some(lo) => {
                                if 0xDC00 <= lo && lo <= 0xDFFF {
                                    let code: u32 = 0x10000 + (n - 0xD800) * 0x400 + (lo - 0xDC00);
                                    let ch = char_from_u32(code);
                                    match ch {
                                        Some(ch) => {
                                            proof {
                                                lemma_char_of_code(ch);
                                            }
                                            Some((ch, i + 11))
                                        },
                                        None => None,
                                    }
                                } else {
                                    None
                                }
                            },
                        }
                    } else {
                        None
                    }
                } else {
                    None
                }
            },
        }
    } else {
        None
    }
}

} // verus!

verus! {

/// Copy the characters of `s` from index `a` (inclusive) to `b` (exclusive).
pub(crate) fn copy_range(s: &Vec<char>, a: usize, b: usize) -> (v: Vec<char>)
    requires
        a <= b <= s@.len(),
    ensures
        v@ == s@.subrange(a as int, b as int),
{
    let mut v: Vec<char> = Vec::new();
    let mut k = a;
    while k < b
        invariant
            a <= k <= b <= s@.len(),
            v@ == s@.subrange(a as int, k as int),
        decreases b - k,
    {
        v.push(s[k]);
        proof {
            assert(s@.subrange(a as int, (k + 1) as int) =~= s@.subrange(a as int, k as int).push(
                s@[k as int],
            ));
        }
        k = k + 1;
    }
    v
}

/// Find the end of a run of decimal digits from index `i`.
fn p_digits_end(s: &Vec<char>, i: usize) -> (j: usize)
    requires
        i <= s@.len(),
    ensures
        j as int == digits_end(s@, i as int),
        i <= j <= s@.len(),
{
    let mut j = i;
    while j < s.len() && '0' <= s[j] && s[j] <= '9'
        invariant
            i <= j <= s@.len(),
            digits_end(s@, i as int) == digits_end(s@, j as int),
        decreases s@.len() - j,
    {
        proof {
            assert(digits_end(s@, j as int) == digits_end(s@, j + 1));
        }
        j = j + 1;
    }
    proof {
        assert(digits_end(s@, j as int) == j as int);
    }
    j
}

/// Check the exponent part of a number token, read from `p` to the end.
fn check_exp_from(t: &Vec<char>, p: usize) -> (r: bool)
    requires
        p <= t@.len(),
    ensures
        r == valid_exp_from(t@, p as int),
{
    if p >= t.len() {
        return false;
    }
    if !(t[p] == 'e' || t[p] == 'E') {
        return false;
    }
    let q = if p + 1 < t.len() && (t[p + 1] == '+' || t[p + 1] == '-') {
        p + 2
    } else {
        p + 1
    };
    if q >= t.len() {
        return false;
    }
    let g = p_digits_end(t, q);
    g == t.len()
}

/// Check a number token without its sign against the number grammar.
fn check_valid_unsigned(u: &Vec<char>) -> (r: bool)
    ensures
        r == valid_unsigned_num(u@),
{
    if u.len() == 0 {
        return false;
    }
    let d = p_digits_end(u, 0);
    if d == 0 {
        return false;
    }
    if u[0] == '0' && d != 1 {
        return false;
    }
    if d == u.len() {
        true
    } else if u[d] == '.' {
        let f = p_digits_end(u, d + 1);
        if f <= d + 1 {
            false
        } else if f == u.len() {
            true
        } else {
            check_exp_from(u, f)
        }
    } else {
        check_exp_from(u, d)
    }
}

/// Check a complete number token against the number grammar.
fn check_valid_num(t: &Vec<char>) -> (r: bool)
    ensures
        r == valid_num(t@),
{
    if t.len() > 0 && t[0] == '-' {
        let u = copy_range(t, 1, t.len());
        check_valid_unsigned(&u)
    } else {
        check_valid_unsigned(t)
    }
}

/// Parse the contents of a string from index `i` (just after the opening
/// quote) to its closing quote.
fn p_string(s: &Vec<char>, i: usize) -> (r: Option<(Vec<char>, usize)>)
    requires
        i <= s@.len(),
    ensures
        match r {
            Some((cs, e)) => sp_string(s@, i as int) == Some((cs@, e as int)) && i < e <= s@.len(),
            None => sp_string(s@, i as int) is None,
        },
{
    let mut acc: Vec<char> = Vec::new();
    let mut cur = i;
    loop
        invariant
            i <= cur <= s@.len(),
            match sp_string(s@, cur as int) {
                None => sp_string(s@, i as int) is None,
                Some((rest, e)) => sp_string(s@, i as int) == Some((acc@ + rest, e)),
            },
        decreases s@.len() - cur,
    {
        if cur >= s.len() {
            proof {
                assert(sp_string(s@, cur as int) is None);
            }
            return None;
        }
        let c = s[cur];
        if c == '"' {
            proof {
                assert(sp_string(s@, cur as int) == Some((Seq::<char>::empty(), cur + 1)));
                assert(acc@ + Seq::<char>::empty() =~= acc@);
            }
            return Some((acc, cur + 1));
        } else if c == '\\' {
            match p_escape(s, cur + 1) {
                None => {
                    proof {
                        assert(sp_string(s@, cur as int) is None);
                    }
                    return None;
                },
                Some((ch, j)) => {
                    proof {
                        let r2 = sp_string(s@, j as int);
                        assert(sp_string(s@, cur as int) == (match r2 {
                            None => None::<(Seq<char>, int)>,
                            Some((rest2, e)) => Some((seq![ch] + rest2, e)),
                        }));
                        if r2 is Some {
                            let rest2 = r2.unwrap().0;
                            assert(acc@ + (seq![ch] + rest2) =~= acc@.push(ch) + rest2);
                        }
                    }
                    acc.push(ch);
                    cur = j;
                },
            }
        } else {
            proof {
                let r2 = sp_string(s@, (cur + 1) as int);
                assert(sp_string(s@, cur as int) == (match r2 {
                    None => None::<(Seq<char>, int)>,
                    Some((rest2, e)) => Some((seq![c] + rest2, e)),
                }));
                if r2 is Some {
                    let rest2 = r2.unwrap().0;
                    assert(acc@ + (seq![c] + rest2) =~= acc@.push(c) + rest2);
                }
            }
            acc.push(c);
            cur = cur + 1;
        }
    }
}

} // verus!

verus! {

/// Check that no two fields of an object share a key.
#[verifier::loop_isolation(false)]
fn check_keys_unique(fs: &Vec<(String, JsonValue)>) -> (r: bool)
    ensures
        r == keys_unique(view_fields(fs@)),
{
    proof {
        lemma_view_fields_len(fs@);
        assert forall|k: int| 0 <= k < fs@.len() implies #[trigger] view_fields(fs@)[k] == (
        fs@[k].0@,
        fs@[k].1@,
        ) by {
            lemma_view_fields_index(fs@, k);
        }
    }
    let ghost fsv = view_fields(fs@);
    let n = fs.len();
    let mut a: usize = 0;
    while a < n
        invariant
            n == fs@.len(),
            a <= n,
            fsv == view_fields(fs@),
            fsv.len() == n,
            forall|x: int, y: int| 0 <= x < y < fsv.len() && x < a ==> (#[trigger] fsv[x]).0 != (
            #[trigger] fsv[y]).0,
        decreases n - a,
    {
        let mut b: usize = a + 1;
        while b < n
            invariant
                n == fs@.len(),
                a < b <= n || (a + 1 == b && b > n),
                a < n,
                fsv == view_fields(fs@),
                fsv.len() == n,
                forall|y: int| a < y < b ==> (fsv[a as int]).0 != (#[trigger] fsv[y]).0,
            decreases n - b,
        {
            if fs[a].0 == fs[b].0 {
                proof {
                    assert(fsv[a as int].0 == fsv[b as int].0);
                }
                return false;
            }
            b = b + 1;
        }
        a = a + 1;
    }
    true
}

/// Parse one JSON value from index `i`, after any leading whitespace.
#[verifier::loop_isolation(false)]
#[verifier::rlimit(100)]
#[verifier::spinoff_prover]
fn p_value(s: &Vec<char>, i: usize) -> (r: Option<(JsonValue, usize)>)
    requires
        i <= s@.len(),
    ensures
        match r {
            Some((v, k)) => sp_value(s@, i as int) == Some((v@, k as int)) && i < k <= s@.len()
                && jv_wf(v@),
            None => sp_value(s@, i as int) is None,
        },
    decreases s@.len() - i,
{
    let j = p_skip_ws(s, i);
    if j >= s.len() {
        return None;
    }
    let c = s[j];
    if c == 'n' {
        if s.len() - j >= 4 && s[j + 1] == 'u' && s[j + 2] == 'l' && s[j + 3] == 'l' {
            proof {
                assert(s@.subrange(j as int, j + 4) =~= seq!['n', 'u', 'l', 'l']);
            }
            Some((JsonValue::Null, j + 4))
        } else {
            proof {
                if match_at(s@, j as int, seq!['n', 'u', 'l', 'l']) {
                    assert(s@.subrange(j as int, j + 4)[1] == s@[j + 1]);
                    assert(s@.subrange(j as int, j + 4)[2] == s@[j + 2]);
                    assert(s@.subrange(j as int, j + 4)[3] == s@[j + 3]);
                    assert(false);
                }
            }
            None
        }
    } else if c == 't' {
        if s.len() - j >= 4 && s[j + 1] == 'r' && s[j + 2] == 'u' && s[j + 3] == 'e' {
            proof {
                assert(s@.subrange(j as int, j + 4) =~= seq!['t', 'r', 'u', 'e']);
            }
            Some((JsonValue::Bool(true), j + 4))
        } else {
            proof {
                if match_at(s@, j as int, seq!['t', 'r', 'u', 'e']) {
                    assert(s@.subrange(j as int, j + 4)[1] == s@[j + 1]);
                    assert(s@.subrange(j as int, j + 4)[2] == s@[j + 2]);
                    assert(s@.subrange(j as int, j + 4)[3] == s@[j + 3]);
                    assert(false);
                }
            }
            None
        }
    } else if c == 'f' {
        if s.len() - j >= 5 && s[j + 1] == 'a' && s[j + 2] == 'l' && s[j + 3] == 's' && s[j + 4]
            == 'e' {
            proof {
                assert(s@.subrange(j as int, j + 5) =~= seq!['f', 'a', 'l', 's', 'e']);
            }
            Some((JsonValue::Bool(false), j + 5))
        } else {
            proof {
                if match_at(s@, j as int, seq!['f', 'a', 'l', 's', 'e']) {
                    assert(s@.subrange(j as int, j + 5)[1] == s@[j + 1]);
                    assert(s@.subrange(j as int, j + 5)[2] == s@[j + 2]);
                    assert(s@.subrange(j as int, j + 5)[3] == s@[j + 3]);
                    assert(s@.subrange(j as int, j + 5)[4] == s@[j + 4]);
                    assert(false);
                }
            }
            None
        }
    } else if c == '"' {
        match p_string(s, j + 1) {
            None => None,
            Some((cs, e)) => {
                let txt = chars_to_string(&cs);
                Some((JsonValue::Str(txt), e))
            },
        }
    } else if c == '[' {
        let j1 = p_skip_ws(s, j + 1);
        if j1 < s.len() && s[j1] == ']' {
            let v = JsonValue::Arr(Vec::new());
            proof {
                assert(v@ == Jv::Arr(view_arr(Seq::empty())));
                assert(view_arr(Seq::<JsonValue>::empty()) =~= Seq::<Jv>::empty());
            }
            Some((v, j1 + 1))
        } else {
            proof {
                assert(sp_value(s@, i as int) == (match sp_arr_items(s@, j + 1) {
                    None => None::<(Jv, int)>,
                    Some((xs, e)) => Some((Jv::Arr(xs), e)),
                }));
            }
            let mut items: Vec<JsonValue> = Vec::new();
            let mut cur: usize = j + 1;
            proof {
                lemma_view_arr_len(items@);
            }
            loop
                invariant
                    j + 1 <= cur <= s@.len(),
                    view_arr(items@).len() == items@.len(),
                    forall|k: int| 0 <= k < items@.len() ==> jv_wf(#[trigger] items@[k]@),
                    match sp_arr_items(s@, cur as int) {
                        None => sp_arr_items(s@, (j + 1) as int) is None,
                        Some((rest, e)) => sp_arr_items(s@, (j + 1) as int) == Some(
                            (view_arr(items@) + rest, e),
                        ),
                    },
                decreases s@.len() - cur,
            {
                match p_value(s, cur) {
                    None => {
                        return None;
                    },
                    Some((x, k)) => {
                        let m = p_skip_ws(s, k);
                        proof {
                            lemma_view_arr_len(items@.push(x));
                            assert(items@.push(x).drop_last() =~= items@);
                            assert(view_arr(items@.push(x)) == view_arr(items@).push(x@));
                            assert forall|kk: int| 0 <= kk < items@.push(x).len() implies jv_wf(
                                #[trigger] items@.push(x)[kk]@,
                            ) by {
                                if kk < items@.len() {
                                    assert(items@.push(x)[kk] == items@[kk]);
                                }
                            }
                        }
                        if m < s.len() && s[m] == ',' {
                            proof {
                                let r2 = sp_arr_items(s@, (m + 1) as int);
                                assert(sp_arr_items(s@, cur as int) == (match r2 {
                                    None => None::<(Seq<Jv>, int)>,
                                    Some((rest2, e)) => Some((seq![x@] + rest2, e)),
                                }));
                                if r2 is Some {
                                    let rest2 = r2.unwrap().0;
                                    assert(view_arr(items@) + (seq![x@] + rest2) =~= view_arr(
                                        items@.push(x),
                                    ) + rest2);
                                }
                            }
                            items.push(x);
                            cur = m + 1;
                        } else if m < s.len() && s[m] == ']' {
                            proof {
                                assert(sp_arr_items(s@, cur as int) == Some((seq![x@], m + 1)));
                                assert(view_arr(items@) + seq![x@] =~= view_arr(items@.push(x)));
                            }
                            items.push(x);
                            let ghost iv = view_arr(items@);
                            proof {
                                crate::json::lemma_arr_wf_index(iv);
                                assert forall|kk: int| 0 <= kk < iv.len() implies jv_wf(
                                    #[trigger] iv[kk],
                                ) by {
                                    lemma_view_arr_index(items@, kk);
                                }
                            }
                            return Some((JsonValue::Arr(items), m + 1));
                        } else {
                            proof {
                                assert(sp_arr_items(s@, cur as int) is None);
                            }
                            return None;
                        }
                    },
                }
            }
        }
    } else if c == '{' {
        let j1 = p_skip_ws(s, j + 1);
        if j1 < s.len() && s[j1] == '}' {
            let v = JsonValue::Obj(Vec::new());
            proof {
                assert(v@ == Jv::Obj(view_fields(Seq::empty())));
                assert(view_fields(Seq::<(String, JsonValue)>::empty()) =~= Seq::<(
                    Seq<char>,
                    Jv,
                )>::empty());
            }
            Some((v, j1 + 1))
        } else {
            proof {
                assert(sp_value(s@, i as int) == (match sp_obj_items(s@, j + 1) {
                    None => None::<(Jv, int)>,
                    Some((fs, e)) => if keys_unique(fs) {
                        Some((Jv::Obj(fs), e))
                    } else {
                        None
                    },
                }));
            }
            let mut fields: Vec<(String, JsonValue)> = Vec::new();
            let mut cur: usize = j + 1;
            proof {
                lemma_view_fields_len(fields@);
            }
            loop
                invariant
                    j + 1 <= cur <= s@.len(),
                    view_fields(fields@).len() == fields@.len(),
                    forall|k: int| 0 <= k < fields@.len() ==> jv_wf(#[trigger] fields@[k].1@),
                    match sp_obj_items(s@, cur as int) {
                        None => sp_obj_items(s@, (j + 1) as int) is None,
                        Some((rest, e)) => sp_obj_items(s@, (j + 1) as int) == Some(
                            (view_fields(fields@) + rest, e),
                        ),
                    },
                decreases s@.len() - cur,
            {
                let m0 = p_skip_ws(s, cur);
                if !(m0 < s.len() && s[m0] == '"') {
                    return None;
                }
                match p_string(s, m0 + 1) {
                    None => {
                        return None;
                    },
                    Some((key, k1)) => {
                        let m1 = p_skip_ws(s, k1);
                        if !(m1 < s.len() && s[m1] == ':') {
                            return None;
                        }
                        match p_value(s, m1 + 1) {
                            None => {
                                return None;
                            },
                            Some((x, k)) => {
                                let m = p_skip_ws(s, k);
                                let keystr = chars_to_string(&key);
                                let ghost fld = (key@, x@);
                                proof {
                                    lemma_view_fields_len(fields@.push((keystr, x)));
                                    assert(fields@.push((keystr, x)).drop_last() =~= fields@);
                                    assert(view_fields(fields@.push((keystr, x)))
                                        == view_fields(fields@).push(fld));
                                    assert forall|kk: int|
                                        0 <= kk < fields@.push((keystr, x)).len() implies jv_wf(
                                        #[trigger] fields@.push((keystr, x))[kk].1@,
                                    ) by {
                                        if kk < fields@.len() {
                                            assert(fields@.push((keystr, x))[kk] == fields@[kk]);
                                        }
                                    }
                                }
                                if m < s.len() && s[m] == ',' {
                                    proof {
                                        let r2 = sp_obj_items(s@, (m + 1) as int);
                                        assert(sp_obj_items(s@, cur as int) == (match r2 {
                                            None => None::<(Seq<(Seq<char>, Jv)>, int)>,
                                            Some((rest2, e)) => Some((seq![fld] + rest2, e)),
                                        }));
                                        if r2 is Some {
                                            let rest2 = r2.unwrap().0;
                                            assert(view_fields(fields@) + (seq![fld] + rest2)
                                                =~= view_fields(fields@.push((keystr, x))) + rest2);
                                        }
                                    }
                                    fields.push((keystr, x));
                                    cur = m + 1;
                                } else if m < s.len() && s[m] == '}' {
                                    proof {
                                        assert(sp_obj_items(s@, cur as int) == Some(
                                            (seq![fld], m + 1),
                                        ));
                                        assert(view_fields(fields@) + seq![fld] =~= view_fields(
                                            fields@.push((keystr, x)),
                                        ));
                                    }
                                    fields.push((keystr, x));
                                    if check_keys_unique(&fields) {
                                        let ghost fv = view_fields(fields@);
                                        proof {
                                            crate::json::lemma_fields_wf_index(fv);
                                            assert forall|kk: int| 0 <= kk < fv.len() implies
                                                jv_wf((#[trigger] fv[kk]).1) by {
                                                lemma_view_fields_index(fields@, kk);
                                            }
                                        }
                                        return Some((JsonValue::Obj(fields), m + 1));
                                    } else {
                                        return None;
                                    }
                                } else {
                                    proof {
                                        assert(sp_obj_items(s@, cur as int) is None);
                                    }
                                    return None;
                                }
                            },
                        }
                    },
                }
            }
        }
    } else if c == '-' || check_digit(c) {
        let e = p_num_end(s, j);
        let t = copy_range(s, j, e);
        if check_valid_num(&t) {
            let txt = chars_to_string(&t);
            Some((JsonValue::Num(txt), e))
        } else {
            None
        }
    } else {
        None
    }
}

/// Parse a whole JSON document: one value, nothing but whitespace around it.
pub fn parse_text(s: &str) -> (r: Option<JsonValue>)
    ensures
        match r {
            Some(v) => sp_json(s@) == Some(v@) && jv_wf(v@),
            None => sp_json(s@) is None,
        },
{
    let cs = str_to_chars(s);
    match p_value(&cs, 0) {
        None => None,
        Some((v, k)) => {
            let e = p_skip_ws(&cs, k);
            if e == cs.len() {
                Some(v)
            } else {
                None
            }
        },
    }
}

} // verus!

verus! {

/// Parse a whole JSON document held as characters.
pub fn parse_chars(cs: &Vec<char>) -> (r: Option<JsonValue>)
    ensures
        match r {
            Some(v) => sp_json(cs@) == Some(v@) && jv_wf(v@),
            None => sp_json(cs@) is None,
        },
{
    match p_value(cs, 0) {
        None => None,
        Some((v, k)) => {
            let e = p_skip_ws(cs, k);
            if e == cs.len() {
                Some(v)
            } else {
                None
            }
        },
    }
}

} // verus!
