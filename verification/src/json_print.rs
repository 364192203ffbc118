//! Printing a JSON document as compact text.
//!
//! `print_jv` is the exact mathematical statement of the output;
//! `to_text` produces it.

use crate::json::{Jv, JsonValue, view_arr, view_fields, lemma_view_arr_index, lemma_view_arr_len,
    lemma_view_fields_index, lemma_view_fields_len};
use crate::text::chars_to_string;
use vstd::prelude::*;
use vstd::string::StrSliceExecFns;

verus! {

/// The hexadecimal digit for a value below sixteen.
pub open spec fn hex_char(n: int) -> char {
    if n == 0 {
        '0'
    } else if n == 1 {
        '1'
    } else if n == 2 {
        '2'
    } else if n == 3 {
        '3'
    } else if n == 4 {
        '4'
    } else if n == 5 {
        '5'
    } else if n == 6 {
        '6'
    } else if n == 7 {
        '7'
    } else if n == 8 {
        '8'
    } else if n == 9 {
        '9'
    } else if n == 10 {
        'a'
    } else if n == 11 {
        'b'
    } else if n == 12 {
        'c'
    } else if n == 13 {
        'd'
    } else if n == 14 {
        'e'
    } else {
        'f'
    }
}

/// How one character is written inside a JSON string: quotes, backslashes and
/// control characters are escaped, everything else stands as itself.
pub open spec fn escape_char(c: char) -> Seq<char> {
    if c == '"' {
        seq!['\\', '"']
    } else if c == '\\' {
        seq!['\\', '\\']
    } else if c == '\n' {
        seq!['\\', 'n']
    } else if c == '\r' {
        seq!['\\', 'r']
    } else if c == '\t' {
        seq!['\\', 't']
    } else if (c as u32) < 32 {
        seq!['\\', 'u', '0', '0', hex_char((c as u32 / 16) as int), hex_char((c as u32 % 16) as int)]
    } else {
        seq![c]
    }
}

pub open spec fn escape_str(s: Seq<char>) -> Seq<char>
    decreases s.len(),
{
    if s.len() == 0 {
        Seq::empty()
    } else {
        escape_char(s[0]) + escape_str(s.drop_first())
    }
}

/// The compact text of a document: no whitespace, fields in order, strings
/// escaped, number literals as they stand.
pub open spec fn print_jv(v: Jv) -> Seq<char>
    decreases v,
{
    match v {
        Jv::Null => seq!['n', 'u', 'l', 'l'],
        Jv::Bool(b) => if b {
            seq!['t', 'r', 'u', 'e']
        } else {
            seq!['f', 'a', 'l', 's', 'e']
        },
        Jv::Num(t) => t,
        Jv::Str(s) => seq!['"'] + escape_str(s) + seq!['"'],
        Jv::Arr(xs) => seq!['['] + print_arr_items(xs) + seq![']'],
        Jv::Obj(fs) => seq!['{'] + print_obj_items(fs) + seq!['}'],
    }
}

pub open spec fn print_arr_items(xs: Seq<Jv>) -> Seq<char>
    decreases xs,
{
    if xs.len() == 0 {
        Seq::empty()
    } else if xs.len() == 1 {
        print_jv(xs[0])
    } else {
        print_jv(xs[0]) + seq![','] + print_arr_items(xs.drop_first())
    }
}

pub open spec fn print_field(f: (Seq<char>, Jv)) -> Seq<char>
    decreases f,
{
    seq!['"'] + escape_str(f.0) + seq!['"', ':'] + print_jv(f.1)
}

pub open spec fn print_obj_items(fs: Seq<(Seq<char>, Jv)>) -> Seq<char>
    decreases fs,
{
    if fs.len() == 0 {
        Seq::empty()
    } else if fs.len() == 1 {
        print_field(fs[0])
    } else {
        print_field(fs[0]) + seq![','] + print_obj_items(fs.drop_first())
    }
}

// ---------------------------------------------------------------------------
// Appending one more element on the right.
// ---------------------------------------------------------------------------
pub proof fn lemma_escape_snoc(s: Seq<char>, c: char)
    ensures
        escape_str(s.push(c)) == escape_str(s) + escape_char(c),
    decreases s.len(),
{
    if s.len() == 0 {
        assert(s.push(c)[0] == c);
        assert(s.push(c).drop_first() =~= Seq::<char>::empty());
        assert(escape_str(s.push(c)) == escape_char(c) + escape_str(Seq::empty()));
        assert(escape_char(c) + Seq::empty() =~= escape_char(c));
        assert(escape_str(s) + escape_char(c) =~= escape_char(c));
    } else {
        lemma_escape_snoc(s.drop_first(), c);
        assert(s.push(c)[0] == s[0]);
        assert(s.push(c).drop_first() =~= s.drop_first().push(c));
        assert(escape_str(s.push(c)) == escape_char(s[0]) + escape_str(s.drop_first().push(c)));
        assert(escape_char(s[0]) + (escape_str(s.drop_first()) + escape_char(c)) =~= (escape_char(
            s[0],
        ) + escape_str(s.drop_first())) + escape_char(c));
    }
}

pub proof fn lemma_print_arr_items_snoc(xs: Seq<Jv>, x: Jv)
    requires
        xs.len() >= 1,
    ensures
        print_arr_items(xs.push(x)) == print_arr_items(xs) + seq![','] + print_jv(x),
    decreases xs,
{
    if xs.len() == 1 {
        assert(xs.push(x)[0] == xs[0]);
        assert(xs.push(x).drop_first() =~= seq![x]);
        assert(print_arr_items(seq![x]) == print_jv(x));
    } else {
        lemma_print_arr_items_snoc(xs.drop_first(), x);
        assert(xs.push(x)[0] == xs[0]);
        assert(xs.push(x).drop_first() =~= xs.drop_first().push(x));
        assert(print_arr_items(xs.push(x)) == print_jv(xs[0]) + seq![','] + print_arr_items(
            xs.drop_first().push(x),
        ));
        assert(print_jv(xs[0]) + seq![','] + (print_arr_items(xs.drop_first()) + seq![',']
            + print_jv(x)) =~= (print_jv(xs[0]) + seq![','] + print_arr_items(xs.drop_first()))
            + seq![','] + print_jv(x));
    }
}

pub proof fn lemma_print_obj_items_snoc(fs: Seq<(Seq<char>, Jv)>, f: (Seq<char>, Jv))
    requires
        fs.len() >= 1,
    ensures
        print_obj_items(fs.push(f)) == print_obj_items(fs) + seq![','] + print_field(f),
    decreases fs,
{
    if fs.len() == 1 {
        assert(fs.push(f)[0] == fs[0]);
        assert(fs.push(f).drop_first() =~= seq![f]);
        assert(print_obj_items(seq![f]) == print_field(f));
    } else {
        lemma_print_obj_items_snoc(fs.drop_first(), f);
        assert(fs.push(f)[0] == fs[0]);
        assert(fs.push(f).drop_first() =~= fs.drop_first().push(f));
        assert(print_obj_items(fs.push(f)) == print_field(fs[0]) + seq![','] + print_obj_items(
            fs.drop_first().push(f),
        ));
        assert(print_field(fs[0]) + seq![','] + (print_obj_items(fs.drop_first()) + seq![',']
            + print_field(f)) =~= (print_field(fs[0]) + seq![','] + print_obj_items(
            fs.drop_first(),
        )) + seq![','] + print_field(f));
    }
}

// ---------------------------------------------------------------------------
// The executable printer.
// ---------------------------------------------------------------------------
/// The hexadecimal digit for a value below sixteen.
fn hex_char_exec(n: u32) -> (c: char)
    requires
        n < 16,
    ensures
        c == hex_char(n as int),
{
    if n == 0 {
        '0'
    } else if n == 1 {
        '1'
    } else if n == 2 {
        '2'
    } else if n == 3 {
        '3'
    } else if n == 4 {
        '4'
    } else if n == 5 {
        '5'
    } else if n == 6 {
        '6'
    } else if n == 7 {
        '7'
    } else if n == 8 {
        '8'
    } else if n == 9 {
        '9'
    } else if n == 10 {
        'a'
    } else if n == 11 {
        'b'
    } else if n == 12 {
        'c'
    } else if n == 13 {
        'd'
    } else if n == 14 {
        'e'
    } else {
        'f'
    }
}

/// Append the characters of a plain string.
fn write_plain(out: &mut Vec<char>, s: &str)
    ensures
        final(out)@ == old(out)@ + s@,
{
    let n = s.unicode_len();
    let mut i: usize = 0;
    while i < n
        invariant
            n == s@.len(),
            i <= n,
            out@ == old(out)@ + s@.subrange(0, i as int),
        decreases n - i,
    {
        out.push(s.get_char(i));
        proof {
            assert(s@.subrange(0, (i + 1) as int) =~= s@.subrange(0, i as int).push(s@[i as int]));
        }
        i = i + 1;
    }
    proof {
        assert(s@.subrange(0, n as int) =~= s@);
    }
}

/// Append one character in its escaped form.
fn write_escaped_char(out: &mut Vec<char>, c: char)
    ensures
        final(out)@ == old(out)@ + escape_char(c),
{
    if c == '"' {
        out.push('\\');
        out.push('"');
    } else if c == '\\' {
        out.push('\\');
        out.push('\\');
    } else if c == '\n' {
        out.push('\\');
        out.push('n');
    } else if c == '\r' {
        out.push('\\');
        out.push('r');
    } else if c == '\t' {
        out.push('\\');
        out.push('t');
    } else if (c as u32) < 32 {
        out.push('\\');
        out.push('u');
        out.push('0');
        out.push('0');
        out.push(hex_char_exec((c as u32) / 16));
        out.push(hex_char_exec((c as u32) % 16));
    } else {
        out.push(c);
    }
    proof {
        assert(out@ =~= old(out)@ + escape_char(c));
    }
}

/// Append a string in its quoted, escaped form.
fn write_quoted(out: &mut Vec<char>, s: &str)
    ensures
        final(out)@ == old(out)@ + seq!['"'] + escape_str(s@) + seq!['"'],
{
    let n = s.unicode_len();
    out.push('"');
    let mut i: usize = 0;
    while i < n
        invariant
            n == s@.len(),
            i <= n,
            out@ == old(out)@ + seq!['"'] + escape_str(s@.subrange(0, i as int)),
        decreases n - i,
    {
        write_escaped_char(out, s.get_char(i));
        proof {
            assert(s@.subrange(0, (i + 1) as int) =~= s@.subrange(0, i as int).push(s@[i as int]));
            lemma_escape_snoc(s@.subrange(0, i as int), s@[i as int]);
        }
        i = i + 1;
    }
    out.push('"');
    proof {
        assert(s@.subrange(0, n as int) =~= s@);
        assert(out@ =~= old(out)@ + seq!['"'] + escape_str(s@) + seq!['"']);
    }
}

/// Append the compact text of a document.
#[verifier::loop_isolation(false)]
#[verifier::rlimit(100)]
#[verifier::spinoff_prover]
fn write_jv(out: &mut Vec<char>, v: &JsonValue)
    ensures
        final(out)@ == old(out)@ + print_jv(v@),
    decreases v,
{
    match v {
        JsonValue::Null => {
            write_plain(out, "null");
            proof {
                reveal_strlit("null");
                assert(out@ =~= old(out)@ + print_jv(v@));
            }
        },
        JsonValue::Bool(b) => {
            if *b {
                write_plain(out, "true");
                proof {
                    reveal_strlit("true");
                    assert(out@ =~= old(out)@ + print_jv(v@));
                }
            } else {
                write_plain(out, "false");
                proof {
                    reveal_strlit("false");
                    assert(out@ =~= old(out)@ + print_jv(v@));
                }
            }
        },
        JsonValue::Num(t) => {
            write_plain(out, t.as_str());
        },
        JsonValue::Str(s) => {
            write_quoted(out, s.as_str());
            proof {
                assert(out@ =~= old(out)@ + print_jv(v@));
            }
        },
        JsonValue::Arr(xs) => {
            out.push('[');
            let ghost xsv = view_arr(xs@);
            proof {
                lemma_view_arr_len(xs@);
                assert forall|j: int| 0 <= j < xs@.len() implies xsv[j] == #[trigger] xs@[j]@ by {
                    lemma_view_arr_index(xs@, j);
                }
            }
            let mut i: usize = 0;
            while i < xs.len()
                invariant
                    xsv == view_arr(xs@),
                    xsv.len() == xs@.len(),
                    i <= xs@.len(),
                    out@ == old(out)@ + seq!['['] + print_arr_items(xsv.take(i as int)),
                    forall|j: int| 0 <= j < xs@.len() ==> xsv[j] == #[trigger] xs@[j]@,
                decreases xs@.len() - i,
            {
                if i > 0 {
                    out.push(',');
                }
                proof {
                    assert(v->Arr_0 == *xs);
                    assert(decreases_to!(*v => v->Arr_0));
                    assert(decreases_to!(*xs => xs@));
                    assert(decreases_to!(xs@ => xs@[i as int]));
                }
                write_jv(out, &xs[i]);
                proof {
                    assert(xsv.take((i + 1) as int) =~= xsv.take(i as int).push(xsv[i as int]));
                    if i > 0 {
                        lemma_print_arr_items_snoc(xsv.take(i as int), xsv[i as int]);
                    } else {
                        assert(print_arr_items(seq![xsv[0]]) == print_jv(xsv[0]));
                        assert(xsv.take(1) =~= seq![xsv[0]]);
                    }
                    assert(out@ =~= old(out)@ + seq!['['] + print_arr_items(
                        xsv.take((i + 1) as int),
                    ));
                }
                i = i + 1;
            }
            out.push(']');
            proof {
                assert(xsv.take(xs@.len() as int) =~= xsv);
                assert(out@ =~= old(out)@ + print_jv(v@));
            }
        },
        JsonValue::Obj(fs) => {
            out.push('{');
            let ghost fsv = view_fields(fs@);
            proof {
                lemma_view_fields_len(fs@);
                assert forall|j: int| 0 <= j < fs@.len() implies #[trigger] fsv[j] == (
                fs@[j].0@,
                fs@[j].1@,
                ) by {
                    lemma_view_fields_index(fs@, j);
                }
            }
            let mut i: usize = 0;
            while i < fs.len()
                invariant
                    fsv == view_fields(fs@),
                    fsv.len() == fs@.len(),
                    i <= fs@.len(),
                    out@ == old(out)@ + seq!['{'] + print_obj_items(fsv.take(i as int)),
                    forall|j: int|
                        0 <= j < fs@.len() ==> #[trigger] fsv[j] == (fs@[j].0@, fs@[j].1@),
                decreases fs@.len() - i,
            {
                if i > 0 {
                    out.push(',');
                }
                write_quoted(out, fs[i].0.as_str());
                out.push(':');
                proof {
                    assert(v->Obj_0 == *fs);
                    assert(decreases_to!(*v => v->Obj_0));
                    assert(decreases_to!(*fs => fs@));
                    assert(decreases_to!(fs@ => fs@[i as int]));
                    assert(decreases_to!(fs@[i as int] => fs@[i as int].1));
                }
                write_jv(out, &fs[i].1);
                proof {
                    assert(fsv.take((i + 1) as int) =~= fsv.take(i as int).push(fsv[i as int]));
                    assert(print_field(fsv[i as int]) == seq!['"'] + escape_str(fs@[i as int].0@)
                        + seq!['"', ':'] + print_jv(fs@[i as int].1@));
                    if i > 0 {
                        lemma_print_obj_items_snoc(fsv.take(i as int), fsv[i as int]);
                    } else {
                        assert(print_obj_items(seq![fsv[0]]) == print_field(fsv[0]));
                        assert(fsv.take(1) =~= seq![fsv[0]]);
                    }
                    assert(out@ =~= old(out)@ + seq!['{'] + print_obj_items(
                        fsv.take((i + 1) as int),
                    ));
                }
                i = i + 1;
            }
            out.push('}');
            proof {
                assert(fsv.take(fs@.len() as int) =~= fsv);
                assert(out@ =~= old(out)@ + print_jv(v@));
            }
        },
    }
}

/// The compact text of a document.
pub fn to_text(v: &JsonValue) -> (s: String)
    ensures
        s@ == print_jv(v@),
{
    let mut out: Vec<char> = Vec::new();
    write_jv(&mut out, v);
    chars_to_string(&out)
}

} // verus!

verus! {

/// The separator a pretty-printed document puts before each field: a line
/// break and a two-space indent.
pub open spec fn pretty_sep() -> Seq<char> {
    seq!['\n', ' ', ' ']
}

/// The fields of a pretty-printed object: each on its own indented line,
/// the field itself compact.
pub open spec fn pretty_items(fs: Seq<(Seq<char>, Jv)>) -> Seq<char>
    decreases fs,
{
    if fs.len() == 0 {
        Seq::empty()
    } else if fs.len() == 1 {
        pretty_sep() + print_field(fs[0])
    } else {
        pretty_sep() + print_field(fs[0]) + seq![','] + pretty_items(fs.drop_first())
    }
}

/// One object as pretty text: every key on its own indented line, values
/// compact, the closing brace on its own line.
pub open spec fn print_obj_pretty(fs: Seq<(Seq<char>, Jv)>) -> Seq<char> {
    if fs.len() == 0 {
        seq!['{', '}']
    } else {
        seq!['{'] + pretty_items(fs) + seq!['\n', '}']
    }
}

pub proof fn lemma_pretty_items_snoc(fs: Seq<(Seq<char>, Jv)>, f: (Seq<char>, Jv))
    requires
        fs.len() >= 1,
    ensures
        pretty_items(fs.push(f)) == pretty_items(fs) + seq![','] + pretty_sep() + print_field(f),
    decreases fs,
{
    if fs.len() == 1 {
        assert(fs.push(f)[0] == fs[0]);
        assert(fs.push(f).drop_first() =~= seq![f]);
        assert(pretty_items(seq![f]) == pretty_sep() + print_field(f));
        assert(pretty_sep() + print_field(fs[0]) + seq![','] + (pretty_sep() + print_field(f)) =~= (
        pretty_sep() + print_field(fs[0])) + seq![','] + pretty_sep() + print_field(f));
    } else {
        lemma_pretty_items_snoc(fs.drop_first(), f);
        assert(fs.push(f)[0] == fs[0]);
        assert(fs.push(f).drop_first() =~= fs.drop_first().push(f));
        assert(pretty_items(fs.push(f)) == pretty_sep() + print_field(fs[0]) + seq![',']
            + pretty_items(fs.drop_first().push(f)));
        assert(pretty_sep() + print_field(fs[0]) + seq![','] + (pretty_items(fs.drop_first())
            + seq![','] + pretty_sep() + print_field(f)) =~= (pretty_sep() + print_field(fs[0])
            + seq![','] + pretty_items(fs.drop_first())) + seq![','] + pretty_sep()
            + print_field(f));
    }
}

/// One object as pretty text, executably.
#[verifier::loop_isolation(false)]
pub fn to_text_obj_pretty(fields: &Vec<(String, JsonValue)>) -> (s: String)
    ensures
        s@ == print_obj_pretty(view_fields(fields@)),
{
    let ghost fsv = view_fields(fields@);
    proof {
        lemma_view_fields_len(fields@);
        assert forall|j: int| 0 <= j < fields@.len() implies #[trigger] fsv[j] == (
        fields@[j].0@,
        fields@[j].1@,
        ) by {
            lemma_view_fields_index(fields@, j);
        }
    }
    let mut out: Vec<char> = Vec::new();
    out.push('{');
    let mut i: usize = 0;
    proof {
        assert(pretty_items(fsv.take(0)) =~= Seq::<char>::empty());
        assert(out@ =~= seq!['{'] + pretty_items(fsv.take(0)));
    }
    while i < fields.len()
        invariant
            i <= fields@.len(),
            out@ == seq!['{'] + pretty_items(fsv.take(i as int)),
        decreases fields@.len() - i,
    {
        if i > 0 {
            out.push(',');
        }
        out.push('\n');
        out.push(' ');
        out.push(' ');
        write_quoted(&mut out, fields[i].0.as_str());
        out.push(':');
        write_jv(&mut out, &fields[i].1);
        proof {
            assert(fsv.take(i + 1) =~= fsv.take(i as int).push(fsv[i as int]));
            assert(print_field(fsv[i as int]) == seq!['"'] + escape_str(fields@[i as int].0@)
                + seq!['"', ':'] + print_jv(fields@[i as int].1@));
            if i > 0 {
                lemma_pretty_items_snoc(fsv.take(i as int), fsv[i as int]);
            } else {
                assert(pretty_items(seq![fsv[0]]) == pretty_sep() + print_field(fsv[0]));
                assert(fsv.take(1) =~= seq![fsv[0]]);
            }
            assert(out@ =~= seq!['{'] + pretty_items(fsv.take(i + 1)));
        }
        i = i + 1;
    }
    if fields.len() > 0 {
        out.push('\n');
    }
    out.push('}');
    proof {
        assert(fsv.take(fields@.len() as int) =~= fsv);
        assert(out@ =~= print_obj_pretty(fsv));
    }
    crate::text::chars_to_string(&out)
}

} // verus!
