//! The print/parse round trip: the compact text of a well-formed document
//! parses back to exactly that document.

use crate::json::{Jv, arr_wf, digits_end, fields_wf, is_num_char, jv_wf, keys_unique,
    valid_exp_from, valid_num, valid_unsigned_num};
use crate::json_parse::{char_code, char_of, hex4_val, hex_val, is_hex4, is_scalar_value, is_ws,
    lemma_skip_ws, match_at, num_end, skip_ws, sp_escape, sp_json, sp_string, sp_value,
    sp_arr_items, sp_obj_items};
use crate::json_print::{escape_char, escape_str, hex_char, print_arr_items, print_field, print_jv,
    print_obj_items};
use crate::text::is_digit;
use vstd::prelude::*;

verus! {

/// A subrange of a subrange known to equal `p` equals the matching subrange
/// of `p`.
pub proof fn lemma_sub_piece(s: Seq<char>, i: int, p: Seq<char>, a: int, b: int)
    requires
        0 <= i,
        i + p.len() <= s.len(),
        s.subrange(i, i + p.len()) == p,
        0 <= a <= b <= p.len(),
    ensures
        s.subrange(i + a, i + b) == p.subrange(a, b),
{
    assert(s.subrange(i + a, i + b) =~= p.subrange(a, b)) by {
        assert forall|d: int| 0 <= d < b - a implies s.subrange(i + a, i + b)[d] == p.subrange(
            a,
            b,
        )[d] by {
            assert(s.subrange(i, i + p.len())[a + d] == p[a + d]);
        }
    }
}

/// One character of a piece of text known to stand at index `i`.
pub proof fn lemma_char_at(s: Seq<char>, i: int, p: Seq<char>, a: int)
    requires
        0 <= i,
        i + p.len() <= s.len(),
        s.subrange(i, i + p.len()) == p,
        0 <= a < p.len(),
    ensures
        s[i + a] == p[a],
{
    assert(s.subrange(i, i + p.len())[a] == p[a]);
}

/// Skipping whitespace does nothing where none stands.
pub proof fn lemma_skip_ws_none(s: Seq<char>, i: int)
    requires
        0 <= i <= s.len(),
        i < s.len() ==> !is_ws(s[i]),
    ensures
        skip_ws(s, i) == i,
{
}

/// A character's scalar value is the same through either cast.
proof fn lemma_char_bridge(c: char)
    ensures
        c as u32 == c as int,
{
}

/// The value of a hexadecimal digit character.
pub proof fn lemma_hex_char_val(n: int)
    requires
        0 <= n < 16,
    ensures
        hex_val(hex_char(n)) == n,
{
}

/// Parsing the escaped text of a string gives the string back.
pub proof fn lemma_parse_print_string(cs: Seq<char>, s: Seq<char>, i: int)
    requires
        0 <= i,
        i + escape_str(cs).len() + 1 <= s.len(),
        s.subrange(i, i + escape_str(cs).len()) == escape_str(cs),
        s[i + escape_str(cs).len()] == '"',
    ensures
        sp_string(s, i) == Some((cs, i + escape_str(cs).len() + 1)),
    decreases cs.len(),
{
    if cs.len() == 0 {
        assert(escape_str(cs).len() == 0);
        assert(s[i] == '"');
    } else {
        let c = cs[0];
        let e = escape_char(c);
        let rest = escape_str(cs.drop_first());
        assert(escape_str(cs) == e + rest);
        let l = e.len() + rest.len();
        assert(escape_str(cs).len() == l);
        // The escape of the first character stands at `i`, the rest after it.
        assert forall|d: int| 0 <= d < e.len() implies s[i + d] == e[d] by {
            lemma_char_at(s, i, escape_str(cs), d);
            assert(escape_str(cs)[d] == e[d]);
        }
        assert(s[i] == e[0]) by {
            lemma_char_at(s, i, escape_str(cs), 0);
        }
        lemma_sub_piece(s, i, escape_str(cs), e.len() as int, l as int);
        assert((e + rest).subrange(e.len() as int, l as int) =~= rest);
        lemma_parse_print_string(cs.drop_first(), s, i + e.len());
        assert(sp_string(s, i + e.len()) == Some(
            (cs.drop_first(), i + e.len() + rest.len() + 1),
        ));
        if c == '"' || c == '\\' {
            assert(e == seq!['\\', c]);
            assert(s[i] == '\\' && s[i + 1] == c);
            assert(sp_escape(s, i + 1) == Some((c, i + 2)));
            assert(seq![c] + cs.drop_first() =~= cs);
        } else if c == '\n' {
            assert(e == seq!['\\', 'n']);
            assert(s[i] == '\\' && s[i + 1] == 'n');
            assert(sp_escape(s, i + 1) == Some(('\n', i + 2)));
            assert(seq![c] + cs.drop_first() =~= cs);
        } else if c == '\r' {
            assert(e == seq!['\\', 'r']);
            assert(s[i] == '\\' && s[i + 1] == 'r');
            assert(sp_escape(s, i + 1) == Some(('\r', i + 2)));
            assert(seq![c] + cs.drop_first() =~= cs);
        } else if c == '\t' {
            assert(e == seq!['\\', 't']);
            assert(s[i] == '\\' && s[i + 1] == 't');
            assert(sp_escape(s, i + 1) == Some(('\t', i + 2)));
            assert(seq![c] + cs.drop_first() =~= cs);
        } else if (c as u32) < 32 {
            let hi = (c as u32 / 16) as int;
            let lo = (c as u32 % 16) as int;
            assert(e == seq!['\\', 'u', '0', '0', hex_char(hi), hex_char(lo)]);
            assert(s[i] == '\\' && s[i + 1] == 'u');
            assert(s[i + 2] == '0' && s[i + 3] == '0');
            assert(s[i + 4] == hex_char(hi) && s[i + 5] == hex_char(lo));
            lemma_hex_char_val(hi);
            lemma_hex_char_val(lo);
            assert(hex_val('0') == 0);
            assert(is_hex4(s, i + 2));
            assert(hex4_val(s, i + 2) == hi * 16 + lo);
            assert(hi * 16 + lo == c as u32) by {
                assert(c as u32 / 16 * 16 + c as u32 % 16 == c as u32) by (nonlinear_arith);
            }
            lemma_char_bridge(c);
            assert(c as u32 == c as int);
            assert(is_scalar_value(hex4_val(s, i + 2)));
            assert(char_code(c) == hex4_val(s, i + 2));
            let w = char_of(hex4_val(s, i + 2));
            assert(char_code(w) == hex4_val(s, i + 2));
            assert(w == c);
            assert(sp_escape(s, i + 1) == Some((c, i + 6)));
            assert(seq![c] + cs.drop_first() =~= cs);
        } else {
            assert(e == seq![c]);
            assert(s[i] == c);
            assert(c != '"' && c != '\\');
            assert(sp_string(s, i) == (match sp_string(s, i + 1) {
                None => None::<(Seq<char>, int)>,
                Some((r, e2)) => Some((seq![c] + r, e2)),
            }));
            assert(seq![c] + cs.drop_first() =~= cs);
        }
    }
}

} // verus!

verus! {

/// The characters of a valid exponent part are number characters.
proof fn lemma_exp_chars(u: Seq<char>, p: int)
    requires
        valid_exp_from(u, p),
    ensures
        forall|k: int| p <= k < u.len() ==> is_num_char(#[trigger] u[k]),
{
    let q = if p + 1 < u.len() && (u[p + 1] == '+' || u[p + 1] == '-') {
        p + 2
    } else {
        p + 1
    };
    crate::json::lemma_digits_end(u, q);
    assert forall|k: int| p <= k < u.len() implies is_num_char(#[trigger] u[k]) by {
        if k == p {
        } else if k < q {
        } else {
            assert(is_digit(u[k]));
        }
    }
}

/// The shape of a valid number token without its sign: it starts with a
/// digit, and every character is a number character.
pub proof fn lemma_valid_unsigned_chars(u: Seq<char>)
    requires
        valid_unsigned_num(u),
    ensures
        u.len() > 0,
        is_digit(u[0]),
        forall|k: int| 0 <= k < u.len() ==> is_num_char(#[trigger] u[k]),
{
    let d = digits_end(u, 0);
    crate::json::lemma_digits_end(u, 0);
    assert(is_digit(u[0]));
    if d == u.len() {
    } else if u[d] == '.' {
        let f = digits_end(u, d + 1);
        crate::json::lemma_digits_end(u, d + 1);
        if f == u.len() {
        } else {
            lemma_exp_chars(u, f);
        }
        assert forall|k: int| 0 <= k < u.len() implies is_num_char(#[trigger] u[k]) by {
            if k < d {
                assert(is_digit(u[k]));
            } else if k == d {
            } else if k < f {
                assert(is_digit(u[k]));
            }
        }
    } else {
        lemma_exp_chars(u, d);
        assert forall|k: int| 0 <= k < u.len() implies is_num_char(#[trigger] u[k]) by {
            if k < d {
                assert(is_digit(u[k]));
            }
        }
    }
}

/// The shape of a valid number token: it starts with a minus sign or a
/// digit, and every character is a number character.
pub proof fn lemma_valid_num_chars(t: Seq<char>)
    requires
        valid_num(t),
    ensures
        t.len() > 0,
        t[0] == '-' || is_digit(t[0]),
        forall|k: int| 0 <= k < t.len() ==> is_num_char(#[trigger] t[k]),
{
    if t.len() > 0 && t[0] == '-' {
        let u = t.subrange(1, t.len() as int);
        lemma_valid_unsigned_chars(u);
        assert forall|k: int| 0 <= k < t.len() implies is_num_char(#[trigger] t[k]) by {
            if k > 0 {
                assert(u[k - 1] == t[k]);
                assert(is_num_char(u[k - 1]));
            }
        }
    } else {
        lemma_valid_unsigned_chars(t);
    }
}

/// A run of number characters bounded on the right scans to its end.
pub proof fn lemma_num_end_exact(s: Seq<char>, i: int, j: int)
    requires
        0 <= i <= j <= s.len(),
        forall|k: int| i <= k < j ==> is_num_char(#[trigger] s[k]),
        j == s.len() || !is_num_char(s[j]),
    ensures
        num_end(s, i) == j,
    decreases j - i,
{
    if i < j {
        assert(is_num_char(s[i]));
        lemma_num_end_exact(s, i + 1, j);
    }
}

/// A character that can begin a JSON value.
pub open spec fn is_value_start(c: char) -> bool {
    c == 'n' || c == 't' || c == 'f' || c == '"' || c == '[' || c == '{' || c == '-' || is_digit(c)
}

/// The printed text of a well-formed value is not empty, and begins with a
/// character that can begin a value.
pub proof fn lemma_print_start(v: Jv)
    requires
        jv_wf(v),
    ensures
        print_jv(v).len() > 0,
        is_value_start(print_jv(v)[0]),
{
    match v {
        Jv::Null => {},
        Jv::Bool(b) => {},
        Jv::Num(t) => {
            lemma_valid_num_chars(t);
        },
        Jv::Str(cs) => {},
        Jv::Arr(xs) => {},
        Jv::Obj(fs) => {},
    }
}

/// Parsing the printed text of a well-formed value gives the value back.
/// If the value is a number, the text may not be followed by another number
/// character.
pub proof fn lemma_parse_print(v: Jv, s: Seq<char>, i: int)
    requires
        jv_wf(v),
        0 <= i,
        i + print_jv(v).len() <= s.len(),
        s.subrange(i, i + print_jv(v).len()) == print_jv(v),
        v is Num ==> i + print_jv(v).len() == s.len() || !is_num_char(s[i + print_jv(v).len()]),
    ensures
        sp_value(s, i) == Some((v, i + print_jv(v).len())),
    decreases v,
{
    let p = print_jv(v);
    lemma_print_start(v);
    assert(s[i] == p[0]) by {
        lemma_char_at(s, i, p, 0);
    }
    assert(skip_ws(s, i) == i) by {
        lemma_skip_ws_none(s, i);
    }
    match v {
        Jv::Null => {
            assert(p =~= seq!['n', 'u', 'l', 'l']);
            assert(match_at(s, i, seq!['n', 'u', 'l', 'l']));
            assert(sp_value(s, i) == Some((v, i + print_jv(v).len())));
        },
        Jv::Bool(b) => {
            if b {
                assert(p =~= seq!['t', 'r', 'u', 'e']);
                assert(match_at(s, i, seq!['t', 'r', 'u', 'e']));
            } else {
                assert(p =~= seq!['f', 'a', 'l', 's', 'e']);
                assert(match_at(s, i, seq!['f', 'a', 'l', 's', 'e']));
            }
            assert(sp_value(s, i) == Some((v, i + print_jv(v).len())));
        },
        Jv::Num(t) => {
            lemma_valid_num_chars(t);
            assert(p == t);
            assert forall|k: int| i <= k < i + t.len() implies is_num_char(#[trigger] s[k]) by {
                lemma_char_at(s, i, t, k - i);
            }
            lemma_num_end_exact(s, i, i + t.len());
            assert(s.subrange(i, i + t.len()) == t);
            assert(sp_value(s, i) == Some((v, i + print_jv(v).len())));
        },
        Jv::Str(cs) => {
            // p = '"' + escape_str(cs) + '"'
            let esc = escape_str(cs);
            assert(p == seq!['"'] + esc + seq!['"']);
            assert(s[i] == '"');
            lemma_sub_piece(s, i, p, 1, 1 + esc.len() as int);
            assert((seq!['"'] + esc + seq!['"']).subrange(1, 1 + esc.len() as int) =~= esc);
            assert(s[i + 1 + esc.len() as int] == '"') by {
                lemma_char_at(s, i, p, 1 + esc.len() as int);
                assert(p[1 + esc.len() as int] == '"');
            }
            lemma_parse_print_string(cs, s, i + 1);
            assert(sp_value(s, i) == Some((v, i + print_jv(v).len())));
        },
        Jv::Arr(xs) => {
            let items = print_arr_items(xs);
            assert(p == seq!['['] + items + seq![']']);
            assert(s[i] == '[');
            if xs.len() == 0 {
                assert(items.len() == 0);
                assert(xs =~= Seq::<Jv>::empty());
                assert(s[i + 1] == ']') by {
                    lemma_char_at(s, i, p, 1);
                    assert(p[1] == ']');
                }
                assert(skip_ws(s, i + 1) == i + 1) by {
                    lemma_skip_ws_none(s, i + 1);
                }
            } else {
                crate::json::lemma_arr_wf_index(xs);
                lemma_print_start(xs[0]);
                assert(items[0] == print_jv(xs[0])[0]) by {
                    if xs.len() == 1 {
                    } else {
                        assert(items == print_jv(xs[0]) + seq![','] + print_arr_items(
                            xs.drop_first(),
                        ));
                    }
                }
                assert(s[i + 1] == items[0]) by {
                    lemma_char_at(s, i, p, 1);
                    assert(p[1] == items[0]);
                }
                assert(skip_ws(s, i + 1) == i + 1) by {
                    lemma_skip_ws_none(s, i + 1);
                }
                assert(s[i + 1] != ']');
                lemma_sub_piece(s, i, p, 1, 1 + items.len() as int);
                assert((seq!['['] + items + seq![']']).subrange(1, 1 + items.len() as int) =~= items);
                assert(s[i + 1 + items.len() as int] == ']') by {
                    lemma_char_at(s, i, p, 1 + items.len() as int);
                    assert(p[1 + items.len() as int] == ']');
                }
                lemma_parse_print_arr(xs, s, i + 1);
                assert(sp_arr_items(s, i + 1) == Some((xs, i + 1 + print_arr_items(xs).len() + 1)));
                assert(skip_ws(s, i) == i);
                assert(s[i] == '[');
                assert(i + 1 < s.len());
                assert(!(skip_ws(s, i + 1) < s.len() && s[skip_ws(s, i + 1)] == ']'));
                assert(p.len() == items.len() + 2);
                assert(sp_value(s, i) == Some((Jv::Arr(xs), i + 1 + print_arr_items(xs).len() + 1)));
                assert(v == Jv::Arr(xs));
            }
            assert(sp_value(s, i) == Some((v, i + print_jv(v).len())));
        },
        Jv::Obj(fs) => {
            let items = print_obj_items(fs);
            assert(p == seq!['{'] + items + seq!['}']);
            assert(s[i] == '{');
            if fs.len() == 0 {
                assert(items.len() == 0);
                assert(fs =~= Seq::<(Seq<char>, Jv)>::empty());
                assert(s[i + 1] == '}') by {
                    lemma_char_at(s, i, p, 1);
                    assert(p[1] == '}');
                }
                assert(skip_ws(s, i + 1) == i + 1) by {
                    lemma_skip_ws_none(s, i + 1);
                }
            } else {
                assert(items.len() > 0 && items[0] == '"') by {
                    let pf0 = print_field(fs[0]);
                    assert(pf0 == seq!['"'] + escape_str(fs[0].0) + seq!['"', ':'] + print_jv(
                        fs[0].1,
                    ));
                    assert(pf0[0] == '"');
                    if fs.len() == 1 {
                        assert(items == pf0);
                    } else {
                        assert(items == pf0 + seq![','] + print_obj_items(fs.drop_first()));
                    }
                }
                assert(s[i + 1] == items[0]) by {
                    lemma_char_at(s, i, p, 1);
                    assert(p[1] == items[0]);
                }
                assert(skip_ws(s, i + 1) == i + 1) by {
                    lemma_skip_ws_none(s, i + 1);
                }
                assert(s[i + 1] != '}');
                lemma_sub_piece(s, i, p, 1, 1 + items.len() as int);
                assert((seq!['{'] + items + seq!['}']).subrange(1, 1 + items.len() as int) =~= items);
                assert(s[i + 1 + items.len() as int] == '}') by {
                    lemma_char_at(s, i, p, 1 + items.len() as int);
                    assert(p[1 + items.len() as int] == '}');
                }
                lemma_parse_print_obj(fs, s, i + 1);
                assert(keys_unique(fs));
            }
            assert(sp_value(s, i) == Some((v, i + print_jv(v).len())));
        },
    }
}

/// Parsing the printed elements of a non-empty array, followed by `]`,
/// gives the elements back.
pub proof fn lemma_parse_print_arr(xs: Seq<Jv>, s: Seq<char>, i: int)
    requires
        arr_wf(xs),
        xs.len() >= 1,
        0 <= i,
        i + print_arr_items(xs).len() + 1 <= s.len(),
        s.subrange(i, i + print_arr_items(xs).len()) == print_arr_items(xs),
        s[i + print_arr_items(xs).len()] == ']',
    ensures
        sp_arr_items(s, i) == Some((xs, i + print_arr_items(xs).len() + 1)),
    decreases xs,
{
    let items = print_arr_items(xs);
    let x = xs[0];
    let px = print_jv(x);
    assert(jv_wf(x));
    lemma_print_start(x);
    if xs.len() == 1 {
        assert(items == px);
        lemma_parse_print(x, s, i);
        let k = i + px.len();
        assert(skip_ws(s, k) == k) by {
            lemma_skip_ws_none(s, k);
        }
        assert(s[k] == ']');
        assert(seq![x] =~= xs);
    } else {
        let rest = print_arr_items(xs.drop_first());
        assert(items == px + seq![','] + rest);
        assert(items.len() == px.len() + 1 + rest.len() as int);
        lemma_sub_piece(s, i, items, 0, px.len() as int);
        assert((px + seq![','] + rest).subrange(0, px.len() as int) =~= px);
        assert(s[i + px.len()] == ',') by {
            lemma_char_at(s, i, items, px.len() as int);
            assert(items[px.len() as int] == ',');
        }
        lemma_parse_print(x, s, i);
        let k = i + px.len();
        assert(skip_ws(s, k) == k) by {
            lemma_skip_ws_none(s, k);
        }
        assert(s[k] == ',');
        lemma_sub_piece(s, i, items, px.len() as int + 1, items.len() as int);
        assert((px + seq![','] + rest).subrange(px.len() as int + 1, (px.len() + 1 + rest.len()) as int)
            =~= rest);
        assert(arr_wf(xs.drop_first()));
        lemma_parse_print_arr(xs.drop_first(), s, k + 1);
        assert(seq![x] + xs.drop_first() =~= xs);
    }
}

/// Parsing the printed fields of a non-empty object, followed by `}`,
/// gives the fields back.
pub proof fn lemma_parse_print_obj(fs: Seq<(Seq<char>, Jv)>, s: Seq<char>, i: int)
    requires
        fields_wf(fs),
        fs.len() >= 1,
        0 <= i,
        i + print_obj_items(fs).len() + 1 <= s.len(),
        s.subrange(i, i + print_obj_items(fs).len()) == print_obj_items(fs),
        s[i + print_obj_items(fs).len()] == '}',
    ensures
        sp_obj_items(s, i) == Some((fs, i + print_obj_items(fs).len() + 1)),
    decreases fs,
{
    let items = print_obj_items(fs);
    let f = fs[0];
    let pf = print_field(f);
    let esc = escape_str(f.0);
    let pv = print_jv(f.1);
    assert(jv_wf(f.1));
    lemma_print_start(f.1);
    assert(pf == seq!['"'] + esc + seq!['"', ':'] + pv);
    assert(pf.len() == esc.len() + 3 + pv.len() as int);
    // The first field stands at i.
    let sub_pf: Seq<char> = if fs.len() == 1 {
        items
    } else {
        let rest = print_obj_items(fs.drop_first());
        assert(items == pf + seq![','] + rest);
        lemma_sub_piece(s, i, items, 0, pf.len() as int);
        assert((pf + seq![','] + rest).subrange(0, pf.len() as int) =~= pf);
        pf
    };
    assert(s.subrange(i, i + pf.len()) == pf);
    assert(s[i] == '"') by {
        lemma_char_at(s, i, pf, 0);
    }
    assert(skip_ws(s, i) == i) by {
        lemma_skip_ws_none(s, i);
    }
    // The escaped key, its closing quote, and the colon.
    lemma_sub_piece(s, i, pf, 1, 1 + esc.len() as int);
    assert((seq!['"'] + esc + seq!['"', ':'] + pv).subrange(1, 1 + esc.len() as int) =~= esc);
    assert(s[i + 1 + esc.len() as int] == '"') by {
        lemma_char_at(s, i, pf, 1 + esc.len() as int);
        assert(pf[1 + esc.len() as int] == '"');
    }
    lemma_parse_print_string(f.0, s, i + 1);
    let k1 = i + 1 + esc.len() as int + 1;
    assert(sp_string(s, i + 1) == Some((f.0, k1)));
    assert(s[k1] == ':') by {
        lemma_char_at(s, i, pf, 2 + esc.len() as int);
        assert(pf[2 + esc.len() as int] == ':');
    }
    assert(skip_ws(s, k1) == k1) by {
        lemma_skip_ws_none(s, k1);
    }
    // The value.
    lemma_sub_piece(s, i, pf, 3 + esc.len() as int, pf.len() as int);
    assert((seq!['"'] + esc + seq!['"', ':'] + pv).subrange(3 + esc.len() as int, (esc.len() + 3
        + pv.len()) as int) =~= pv);
    let k = k1 + 1 + pv.len() as int;
    assert(k == i + pf.len());
    if fs.len() == 1 {
        lemma_parse_print(f.1, s, k1 + 1);
        assert(skip_ws(s, k) == k) by {
            lemma_skip_ws_none(s, k);
        }
        assert(s[k] == '}');
        assert(seq![(f.0, f.1)] =~= fs);
        assert((f.0, f.1) == f);
    } else {
        let rest = print_obj_items(fs.drop_first());
        assert(s[k] == ',') by {
            lemma_char_at(s, i, items, pf.len() as int);
            assert(items[pf.len() as int] == ',');
        }
        lemma_parse_print(f.1, s, k1 + 1);
        assert(skip_ws(s, k) == k) by {
            lemma_skip_ws_none(s, k);
        }
        lemma_sub_piece(s, i, items, pf.len() as int + 1, items.len() as int);
        assert((pf + seq![','] + rest).subrange(pf.len() as int + 1, (pf.len() + 1 + rest.len()) as int)
            =~= rest);
        assert(fields_wf(fs.drop_first()));
        lemma_parse_print_obj(fs.drop_first(), s, k + 1);
        assert(seq![(f.0, f.1)] + fs.drop_first() =~= fs);
        assert((f.0, f.1) == f);
    }
}

/// The round trip: the compact text of a well-formed document parses back
/// to exactly that document.
pub proof fn lemma_text_round_trip(v: Jv)
    requires
        jv_wf(v),
    ensures
        sp_json(print_jv(v)) == Some(v),
{
    let p = print_jv(v);
    assert(p.subrange(0, p.len() as int) =~= p);
    lemma_parse_print(v, p, 0);
    assert(skip_ws(p, p.len() as int) == p.len()) by {
        lemma_skip_ws_none(p, p.len() as int);
    }
}

} // verus!

verus! {

/// What the parser accepts is well formed: sound positions and valid
/// documents.
pub proof fn lemma_sp_value_wf(s: Seq<char>, i: int)
    requires
        0 <= i <= s.len(),
    ensures
        match sp_value(s, i) {
            Some((v, k)) => jv_wf(v) && i < k <= s.len(),
            None => true,
        },
    decreases s.len() - i, 0int,
{
    lemma_skip_ws(s, i);
    let j = skip_ws(s, i);
    if j < s.len() {
        let c = s[j];
        if c == '"' {
            crate::json_parse::lemma_sp_string_pos(s, j + 1);
        } else if c == '[' {
            lemma_skip_ws(s, j + 1);
            let j1 = skip_ws(s, j + 1);
            if j1 < s.len() && s[j1] == ']' {
            } else {
                lemma_sp_arr_items_wf(s, j + 1);
            }
        } else if c == '{' {
            lemma_skip_ws(s, j + 1);
            let j1 = skip_ws(s, j + 1);
            if j1 < s.len() && s[j1] == '}' {
            } else {
                lemma_sp_obj_items_wf(s, j + 1);
            }
        } else if c == '-' || is_digit(c) {
            crate::json::lemma_digits_end(s, j);
            crate::json_parse::lemma_num_end(s, j);
        }
    }
}

pub proof fn lemma_sp_arr_items_wf(s: Seq<char>, i: int)
    requires
        0 <= i <= s.len(),
    ensures
        match sp_arr_items(s, i) {
            Some((xs, k)) => arr_wf(xs) && i < k <= s.len(),
            None => true,
        },
    decreases s.len() - i, 1int,
{
    lemma_sp_value_wf(s, i);
    match sp_value(s, i) {
        None => {},
        Some((x, k)) => {
            if i < k <= s.len() {
                lemma_skip_ws(s, k);
                let m = skip_ws(s, k);
                if k <= m && m < s.len() && s[m] == ',' {
                    lemma_sp_arr_items_wf(s, m + 1);
                    match sp_arr_items(s, m + 1) {
                        None => {
                            assert(sp_arr_items(s, i) is None);
                        },
                        Some((rest, e)) => {
                            assert(sp_arr_items(s, i) == Some((seq![x] + rest, e)));
                            assert((seq![x] + rest).first() == x);
                            assert((seq![x] + rest).drop_first() =~= rest);
                            assert(arr_wf((seq![x] + rest).drop_first()) == arr_wf(rest));
                            assert(arr_wf(seq![x] + rest));
                        },
                    }
                } else if m < s.len() && s[m] == ']' {
                    assert(sp_arr_items(s, i) == Some((seq![x], m + 1)));
                    assert(seq![x].first() == x);
                    assert(seq![x].drop_first() =~= Seq::<Jv>::empty());
                    assert(arr_wf(Seq::<Jv>::empty()));
                    assert(arr_wf(seq![x]));
                } else {
                    assert(sp_arr_items(s, i) is None);
                }
            }
        },
    }
}

pub proof fn lemma_sp_obj_items_wf(s: Seq<char>, i: int)
    requires
        0 <= i <= s.len(),
    ensures
        match sp_obj_items(s, i) {
            Some((fs, k)) => fields_wf(fs) && i < k <= s.len(),
            None => true,
        },
    decreases s.len() - i, 1int,
{
    lemma_skip_ws(s, i);
    let j = skip_ws(s, i);
    if j < s.len() && s[j] == '"' {
        crate::json_parse::lemma_sp_string_pos(s, j + 1);
        match sp_string(s, j + 1) {
            None => {},
            Some((key, k1)) => {
                if j < k1 <= s.len() {
                    lemma_skip_ws(s, k1);
                    let m1 = skip_ws(s, k1);
                    if k1 <= m1 && m1 < s.len() && s[m1] == ':' {
                        lemma_sp_value_wf(s, m1 + 1);
                        match sp_value(s, m1 + 1) {
                            None => {},
                            Some((x, k)) => {
                                if m1 < k <= s.len() {
                                    lemma_skip_ws(s, k);
                                    let m = skip_ws(s, k);
                                    if k <= m && m < s.len() && s[m] == ',' {
                                        lemma_sp_obj_items_wf(s, m + 1);
                                        match sp_obj_items(s, m + 1) {
                                            None => {
                                                assert(sp_obj_items(s, i) is None);
                                            },
                                            Some((rest, e)) => {
                                                assert(sp_obj_items(s, i) == Some(
                                                    (seq![(key, x)] + rest, e),
                                                ));
                                                assert((seq![(key, x)] + rest).first() == (key, x));
                                                assert((seq![(key, x)] + rest).drop_first()
                                                    =~= rest);
                                                assert(fields_wf((seq![(key, x)]
                                                    + rest).drop_first()) == fields_wf(rest));
                                                assert(fields_wf(seq![(key, x)] + rest));
                                            },
                                        }
                                    } else if m < s.len() && s[m] == '}' {
                                        assert(sp_obj_items(s, i) == Some((seq![(key, x)], m + 1)));
                                        assert(seq![(key, x)].first() == (key, x));
                                        assert(seq![(key, x)].drop_first() =~= Seq::<(
                                            Seq<char>,
                                            Jv,
                                        )>::empty());
                                        assert(fields_wf(Seq::<(Seq<char>, Jv)>::empty()));
                                        assert(fields_wf(seq![(key, x)]));
                                    } else {
                                        assert(sp_obj_items(s, i) is None);
                                    }
                                }
                            },
                        }
                    }
                }
            },
        }
    }
}

/// A whole parsed document is well formed.
pub proof fn lemma_sp_json_wf(s: Seq<char>)
    ensures
        match sp_json(s) {
            Some(v) => jv_wf(v),
            None => true,
        },
{
    lemma_sp_value_wf(s, 0);
}

} // verus!

verus! {

/// A run of whitespace bounded on the right skips to its end.
pub proof fn lemma_skip_ws_exact(s: Seq<char>, i: int, j: int)
    requires
        0 <= i <= j <= s.len(),
        forall|k: int| i <= k < j ==> is_ws(#[trigger] s[k]),
        j == s.len() || !is_ws(s[j]),
    ensures
        skip_ws(s, i) == j,
    decreases j - i,
{
    if i < j {
        assert(is_ws(s[i]));
        lemma_skip_ws_exact(s, i + 1, j);
    }
}

/// Parsing the pretty-printed fields of a non-empty object, followed by a
/// line break and `}`, gives the fields back.
#[verifier::rlimit(100)]
#[verifier::spinoff_prover]
pub proof fn lemma_parse_pretty_obj(fs: Seq<(Seq<char>, Jv)>, s: Seq<char>, i: int)
    requires
        fields_wf(fs),
        fs.len() >= 1,
        0 <= i,
        i + crate::json_print::pretty_items(fs).len() + 2 <= s.len(),
        s.subrange(i, i + crate::json_print::pretty_items(fs).len())
            == crate::json_print::pretty_items(fs),
        s[i + crate::json_print::pretty_items(fs).len()] == '\n',
        s[i + crate::json_print::pretty_items(fs).len() + 1] == '}',
    ensures
        sp_obj_items(s, i) == Some((fs, i + crate::json_print::pretty_items(fs).len() + 2)),
    decreases fs,
{
    let items = crate::json_print::pretty_items(fs);
    let sep = crate::json_print::pretty_sep();
    let f = fs[0];
    let pf = print_field(f);
    let esc = escape_str(f.0);
    let pv = print_jv(f.1);
    assert(jv_wf(f.1));
    assert(pf == seq!['"'] + esc + seq!['"', ':'] + pv);
    assert(pf.len() == esc.len() + 3 + pv.len());
    let sub_pf: Seq<char> = if fs.len() == 1 {
        assert(items == sep + pf);
        lemma_sub_piece(s, i, items, 3, items.len() as int);
        assert((sep + pf).subrange(3, (3 + pf.len()) as int) =~= pf);
        pf
    } else {
        let rest = crate::json_print::pretty_items(fs.drop_first());
        assert(items == sep + pf + seq![','] + rest);
        lemma_sub_piece(s, i, items, 3, 3 + pf.len() as int);
        assert((sep + pf + seq![','] + rest).subrange(3, (3 + pf.len()) as int) =~= pf);
        pf
    };
    assert(s.subrange(i + 3, i + 3 + pf.len()) == pf);
    // The indent, then the field.
    assert(s[i] == '\n' && s[i + 1] == ' ' && s[i + 2] == ' ') by {
        lemma_char_at(s, i, items, 0);
        lemma_char_at(s, i, items, 1);
        lemma_char_at(s, i, items, 2);
        assert(items[0] == '\n' && items[1] == ' ' && items[2] == ' ');
    }
    assert(s[i + 3] == '"') by {
        lemma_char_at(s, i + 3, pf, 0);
    }
    assert(skip_ws(s, i) == i + 3) by {
        lemma_skip_ws_exact(s, i, i + 3);
    }
    // The key, the colon, the value: as in the compact layout.
    lemma_sub_piece(s, i + 3, pf, 1, 1 + esc.len() as int);
    assert((seq!['"'] + esc + seq!['"', ':'] + pv).subrange(1, 1 + esc.len() as int) =~= esc);
    assert(s[i + 4 + esc.len()] == '"') by {
        lemma_char_at(s, i + 3, pf, 1 + esc.len() as int);
        assert(pf[1 + esc.len() as int] == '"');
    }
    lemma_parse_print_string(f.0, s, i + 4);
    let k1 = i + 4 + esc.len() + 1;
    assert(sp_string(s, i + 4) == Some((f.0, k1)));
    assert(s[k1] == ':') by {
        lemma_char_at(s, i + 3, pf, 2 + esc.len() as int);
        assert(pf[2 + esc.len() as int] == ':');
    }
    assert(skip_ws(s, k1) == k1) by {
        lemma_skip_ws_none(s, k1);
    }
    lemma_sub_piece(s, i + 3, pf, 3 + esc.len() as int, pf.len() as int);
    assert((seq!['"'] + esc + seq!['"', ':'] + pv).subrange(3 + esc.len() as int, (esc.len() + 3
        + pv.len()) as int) =~= pv);
    let k = k1 + 1 + pv.len();
    assert(k == i + 3 + pf.len());
    if fs.len() == 1 {
        lemma_parse_print(f.1, s, k1 + 1);
        assert(skip_ws(s, k) == k + 1) by {
            assert(s[k] == '\n');
            assert(!is_ws(s[k + 1]));
            lemma_skip_ws_exact(s, k, k + 1);
        }
        assert(s[k + 1] == '}');
        assert(seq![(f.0, f.1)] =~= fs);
        assert((f.0, f.1) == f);
    } else {
        let rest = crate::json_print::pretty_items(fs.drop_first());
        assert(s[k] == ',') by {
            lemma_char_at(s, i, items, 3 + pf.len() as int);
            assert(items[3 + pf.len() as int] == ',');
        }
        lemma_parse_print(f.1, s, k1 + 1);
        assert(skip_ws(s, k) == k) by {
            lemma_skip_ws_none(s, k);
        }
        lemma_sub_piece(s, i, items, 3 + pf.len() as int + 1, items.len() as int);
        assert((sep + pf + seq![','] + rest).subrange(3 + pf.len() as int + 1, (3 + pf.len() + 1
            + rest.len()) as int) =~= rest);
        assert(fields_wf(fs.drop_first()));
        lemma_parse_pretty_obj(fs.drop_first(), s, k + 1);
        assert(seq![(f.0, f.1)] + fs.drop_first() =~= fs);
        assert((f.0, f.1) == f);
    }
}

/// The pretty text of a well-formed object parses back to exactly that
/// object.
#[verifier::rlimit(100)]
#[verifier::spinoff_prover]
pub proof fn lemma_pretty_round_trip(fs: Seq<(Seq<char>, Jv)>)
    requires
        keys_unique(fs),
        fields_wf(fs),
    ensures
        sp_json(crate::json_print::print_obj_pretty(fs)) == Some(Jv::Obj(fs)),
{
    let s = crate::json_print::print_obj_pretty(fs);
    if fs.len() == 0 {
        assert(s == seq!['{', '}']);
        assert(!is_ws('{'));
        lemma_skip_ws_none(s, 0);
        assert(skip_ws(s, 1) == 1) by {
            lemma_skip_ws_none(s, 1);
        }
        assert(sp_value(s, 0) == Some((Jv::Obj(Seq::<(Seq<char>, Jv)>::empty()), 2int)));
        assert(fs =~= Seq::<(Seq<char>, Jv)>::empty());
        assert(skip_ws(s, 2) == 2) by {
            lemma_skip_ws_none(s, 2);
        }
    } else {
        let items = crate::json_print::pretty_items(fs);
        assert(s == seq!['{'] + items + seq!['\n', '}']);
        assert(s[0] == '{');
        lemma_skip_ws_none(s, 0);
        assert(items[0] == '\n' && items[1] == ' ' && items[2] == ' ' && items[3] == '"') by {
            let pf = print_field(fs[0]);
            assert(pf[0] == '"');
            if fs.len() == 1 {
                assert(items == crate::json_print::pretty_sep() + pf);
            } else {
                assert(items == crate::json_print::pretty_sep() + pf + seq![',']
                    + crate::json_print::pretty_items(fs.drop_first()));
            }
        }
        assert(s[1] == '\n' && s[2] == ' ' && s[3] == ' ' && s[4] == '"');
        assert(skip_ws(s, 1) == 4) by {
            lemma_skip_ws_exact(s, 1, 4);
        }
        assert(s.subrange(1, 1 + items.len() as int) =~= items);
        assert(s[1 + items.len() as int] == '\n' && s[2 + items.len() as int] == '}');
        lemma_parse_pretty_obj(fs, s, 1);
        assert(sp_obj_items(s, 1) == Some((fs, s.len() as int)));
        assert(sp_value(s, 0) == Some((Jv::Obj(fs), s.len() as int)));
        assert(skip_ws(s, s.len() as int) == s.len()) by {
            lemma_skip_ws_none(s, s.len() as int);
        }
    }
}

} // verus!
