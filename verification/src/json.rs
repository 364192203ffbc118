//! The JSON document model shared by the wire codec, the resource cache and
//! the CDN client.
//!
//! A document is held as a tree of plain values. Numbers are kept as their
//! literal text, which lets a document round-trip through the printer and the
//! parser without loss. Object fields keep their order; keys are unique.

use crate::text::is_digit;
use vstd::prelude::*;

verus! {

/// Mathematical model of a JSON document.
#[verifier::ext_equal]
pub enum Jv {
    Null,
    Bool(bool),
    /// The literal text of the number, e.g. `-12.5e3`.
    Num(Seq<char>),
    /// The decoded (unescaped) contents of the string.
    Str(Seq<char>),
    Arr(Seq<Jv>),
    /// Fields in document order; keys are unique.
    Obj(Seq<(Seq<char>, Jv)>),
}

/// A JSON document as the library holds it.
#[derive(Debug)]
pub enum JsonValue {
    Null,
    Bool(bool),
    /// The literal text of the number.
    Num(String),
    /// The decoded (unescaped) contents of the string.
    Str(String),
    Arr(Vec<JsonValue>),
    /// Fields in document order; keys are unique.
    Obj(Vec<(String, JsonValue)>),
}

pub open spec fn view_arr(xs: Seq<JsonValue>) -> Seq<Jv>
    decreases xs,
{
    if xs.len() == 0 {
        Seq::empty()
    } else {
        view_arr(xs.drop_last()).push(xs.last()@)
    }
}

pub open spec fn view_fields(fs: Seq<(String, JsonValue)>) -> Seq<(Seq<char>, Jv)>
    decreases fs,
{
    if fs.len() == 0 {
        Seq::empty()
    } else {
        view_fields(fs.drop_last()).push((fs.last().0@, fs.last().1@))
    }
}

impl View for JsonValue {
    type V = Jv;

    open spec fn view(&self) -> Jv
        decreases self,
    {
        match self {
            JsonValue::Null => Jv::Null,
            JsonValue::Bool(b) => Jv::Bool(*b),
            JsonValue::Num(t) => Jv::Num(t@),
            JsonValue::Str(s) => Jv::Str(s@),
            JsonValue::Arr(xs) => Jv::Arr(view_arr(xs@)),
            JsonValue::Obj(fs) => Jv::Obj(view_fields(fs@)),
        }
    }
}

pub proof fn lemma_view_arr_len(xs: Seq<JsonValue>)
    ensures
        view_arr(xs).len() == xs.len(),
    decreases xs,
{
    if xs.len() > 0 {
        lemma_view_arr_len(xs.drop_last());
        assert(view_arr(xs) == view_arr(xs.drop_last()).push(xs.last()@));
    }
}

pub proof fn lemma_view_arr_index(xs: Seq<JsonValue>, i: int)
    requires
        0 <= i < xs.len(),
    ensures
        view_arr(xs).len() == xs.len(),
        view_arr(xs)[i] == xs[i]@,
    decreases xs,
{
    lemma_view_arr_len(xs);
    lemma_view_arr_len(xs.drop_last());
    assert(view_arr(xs) == view_arr(xs.drop_last()).push(xs.last()@));
    if i < xs.len() - 1 {
        lemma_view_arr_index(xs.drop_last(), i);
        assert(xs.drop_last()[i] == xs[i]);
    } else {
        assert(xs[i] == xs.last());
    }
}

pub proof fn lemma_view_fields_len(fs: Seq<(String, JsonValue)>)
    ensures
        view_fields(fs).len() == fs.len(),
    decreases fs,
{
    if fs.len() > 0 {
        lemma_view_fields_len(fs.drop_last());
        assert(view_fields(fs) == view_fields(fs.drop_last()).push((fs.last().0@, fs.last().1@)));
    }
}

pub proof fn lemma_view_fields_index(fs: Seq<(String, JsonValue)>, i: int)
    requires
        0 <= i < fs.len(),
    ensures
        view_fields(fs).len() == fs.len(),
        view_fields(fs)[i] == (fs[i].0@, fs[i].1@),
    decreases fs,
{
    lemma_view_fields_len(fs);
    lemma_view_fields_len(fs.drop_last());
    assert(view_fields(fs) == view_fields(fs.drop_last()).push((fs.last().0@, fs.last().1@)));
    if i < fs.len() - 1 {
        lemma_view_fields_index(fs.drop_last(), i);
        assert(fs.drop_last()[i] == fs[i]);
    } else {
        assert(fs[i] == fs.last());
    }
}

// ---------------------------------------------------------------------------
// The number grammar.
// ---------------------------------------------------------------------------
/// A character that can occur in a number literal.
pub open spec fn is_num_char(c: char) -> bool {
    is_digit(c) || c == '-' || c == '+' || c == '.' || c == 'e' || c == 'E'
}

/// The first index at or after `i` that does not hold a decimal digit.
pub open spec fn digits_end(s: Seq<char>, i: int) -> int
    decreases s.len() - i when 0 <= i <= s.len()
{
    if i < s.len() && is_digit(s[i]) {
        digits_end(s, i + 1)
    } else {
        i
    }
}

pub proof fn lemma_digits_end(s: Seq<char>, i: int)
    requires
        0 <= i <= s.len(),
    ensures
        i <= digits_end(s, i) <= s.len(),
        forall|k: int| i <= k < digits_end(s, i) ==> is_digit(#[trigger] s[k]),
        digits_end(s, i) < s.len() ==> !is_digit(s[digits_end(s, i)]),
    decreases s.len() - i,
{
    if i < s.len() && is_digit(s[i]) {
        lemma_digits_end(s, i + 1);
    }
}

/// The exponent part of a number literal, read from index `p` (which holds
/// `e` or `E`) to the very end of the token.
pub open spec fn valid_exp_from(t: Seq<char>, p: int) -> bool {
    &&& 0 <= p < t.len()
    &&& (t[p] == 'e' || t[p] == 'E')
    &&& {
        let q = if p + 1 < t.len() && (t[p + 1] == '+' || t[p + 1] == '-') {
            p + 2
        } else {
            p + 1
        };
        q < t.len() && digits_end(t, q) == t.len()
    }
}

/// A number literal without its optional leading minus sign: an integer part
/// with no superfluous leading zero, an optional fraction, an optional
/// exponent, nothing else.
pub open spec fn valid_unsigned_num(u: Seq<char>) -> bool {
    let d = digits_end(u, 0);
    &&& u.len() > 0
    &&& d > 0
    &&& (u[0] == '0' ==> d == 1)
    &&& if d == u.len() {
        true
    } else if u[d] == '.' {
        let f = digits_end(u, d + 1);
        f > d + 1 && (f == u.len() || valid_exp_from(u, f))
    } else {
        valid_exp_from(u, d)
    }
}

/// A complete JSON number literal.
pub open spec fn valid_num(t: Seq<char>) -> bool {
    if t.len() > 0 && t[0] == '-' {
        valid_unsigned_num(t.subrange(1, t.len() as int))
    } else {
        valid_unsigned_num(t)
    }
}

// ---------------------------------------------------------------------------
// Well-formedness: number literals valid, object keys unique.
// ---------------------------------------------------------------------------
/// No two fields share a key.
pub open spec fn keys_unique(fs: Seq<(Seq<char>, Jv)>) -> bool {
    forall|i: int, j: int| 0 <= i < j < fs.len() ==> (#[trigger] fs[i]).0 != (#[trigger] fs[j]).0
}

pub open spec fn jv_wf(v: Jv) -> bool
    decreases v,
{
    match v {
        Jv::Null => true,
        Jv::Bool(_) => true,
        Jv::Num(t) => valid_num(t),
        Jv::Str(_) => true,
        Jv::Arr(xs) => arr_wf(xs),
        Jv::Obj(fs) => keys_unique(fs) && fields_wf(fs),
    }
}

pub open spec fn arr_wf(xs: Seq<Jv>) -> bool
    decreases xs,
{
    if xs.len() == 0 {
        true
    } else {
        jv_wf(xs.first()) && arr_wf(xs.drop_first())
    }
}

pub open spec fn fields_wf(fs: Seq<(Seq<char>, Jv)>) -> bool
    decreases fs,
{
    if fs.len() == 0 {
        true
    } else {
        jv_wf(fs.first().1) && fields_wf(fs.drop_first())
    }
}

pub proof fn lemma_arr_wf_index(xs: Seq<Jv>)
    ensures
        arr_wf(xs) <==> (forall|i: int| 0 <= i < xs.len() ==> jv_wf(#[trigger] xs[i])),
    decreases xs,
{
    if xs.len() > 0 {
        lemma_arr_wf_index(xs.drop_first());
        assert forall|i: int| 0 <= i < xs.len() && arr_wf(xs) implies jv_wf(#[trigger] xs[i]) by {
            if i > 0 {
                assert(xs.drop_first()[i - 1] == xs[i]);
            }
        }
        if forall|i: int| 0 <= i < xs.len() ==> jv_wf(#[trigger] xs[i]) {
            assert forall|i: int| 0 <= i < xs.drop_first().len() implies jv_wf(
                #[trigger] xs.drop_first()[i],
            ) by {
                assert(xs.drop_first()[i] == xs[i + 1]);
            }
        }
    }
}

pub proof fn lemma_fields_wf_index(fs: Seq<(Seq<char>, Jv)>)
    ensures
        fields_wf(fs) <==> (forall|i: int| 0 <= i < fs.len() ==> jv_wf((#[trigger] fs[i]).1)),
    decreases fs,
{
    if fs.len() > 0 {
        lemma_fields_wf_index(fs.drop_first());
        assert forall|i: int| 0 <= i < fs.len() && fields_wf(fs) implies jv_wf(
            (#[trigger] fs[i]).1,
        ) by {
            if i > 0 {
                assert(fs.drop_first()[i - 1] == fs[i]);
            }
        }
        if forall|i: int| 0 <= i < fs.len() ==> jv_wf((#[trigger] fs[i]).1) {
            assert forall|i: int| 0 <= i < fs.drop_first().len() implies jv_wf(
                (#[trigger] fs.drop_first()[i]).1,
            ) by {
                assert(fs.drop_first()[i] == fs[i + 1]);
            }
        }
    }
}

// ---------------------------------------------------------------------------
// Objects as maps: structural JSON equivalence ignores field order.
// ---------------------------------------------------------------------------
/// The fields of an object as a map; on duplicate keys the later field wins.
pub open spec fn obj_map(fs: Seq<(Seq<char>, Jv)>) -> Map<Seq<char>, Jv>
    decreases fs,
{
    if fs.len() == 0 {
        Map::empty()
    } else {
        obj_map(fs.drop_last()).insert(fs.last().0, fs.last().1)
    }
}

pub proof fn lemma_obj_map_key(fs: Seq<(Seq<char>, Jv)>, k: Seq<char>)
    requires
        obj_map(fs).dom().contains(k),
    ensures
        exists|i: int| 0 <= i < fs.len() && (#[trigger] fs[i]).0 == k,
    decreases fs,
{
    if fs.len() > 0 {
        if k == fs.last().0 {
            assert(fs[fs.len() - 1].0 == k);
        } else {
            lemma_obj_map_key(fs.drop_last(), k);
            let i = choose|i: int| 0 <= i < fs.drop_last().len() && (#[trigger] fs.drop_last()[i]).0
                == k;
            assert(fs.drop_last()[i] == fs[i]);
            assert(fs[i].0 == k);
        }
    }
}

/// With unique keys, the map holds exactly the listed fields.
pub proof fn lemma_obj_map_index(fs: Seq<(Seq<char>, Jv)>, i: int)
    requires
        keys_unique(fs),
        0 <= i < fs.len(),
    ensures
        obj_map(fs).dom().contains(fs[i].0),
        obj_map(fs)[fs[i].0] == fs[i].1,
    decreases fs,
{
    if i < fs.len() - 1 {
        assert(keys_unique(fs.drop_last())) by {
            assert(forall|a: int, b: int|
                0 <= a < b < fs.drop_last().len() ==> (#[trigger] fs.drop_last()[a]) == fs[a]
                    && (#[trigger] fs.drop_last()[b]) == fs[b]);
        }
        lemma_obj_map_index(fs.drop_last(), i);
        assert(fs.drop_last()[i] == fs[i]);
        assert(fs[i].0 != fs.last().0);
    }
}

} // verus!

verus! {

/// The value of the first field with key `k`.
pub open spec fn obj_get(fs: Seq<(Seq<char>, Jv)>, k: Seq<char>) -> Option<Jv>
    decreases fs,
{
    if fs.len() == 0 {
        None
    } else if fs.first().0 == k {
        Some(fs.first().1)
    } else {
        obj_get(fs.drop_first(), k)
    }
}

pub proof fn lemma_obj_get_index(fs: Seq<(Seq<char>, Jv)>, k: Seq<char>)
    ensures
        match obj_get(fs, k) {
            Some(v) => exists|i: int| 0 <= i < fs.len() && #[trigger] fs[i] == (k, v),
            None => forall|i: int| 0 <= i < fs.len() ==> (#[trigger] fs[i]).0 != k,
        },
    decreases fs,
{
    if fs.len() > 0 {
        if fs.first().0 == k {
            assert(fs[0] == (k, fs.first().1));
        } else {
            lemma_obj_get_index(fs.drop_first(), k);
            match obj_get(fs.drop_first(), k) {
                Some(v) => {
                    let i = choose|i: int|
                        0 <= i < fs.drop_first().len() && #[trigger] fs.drop_first()[i] == (k, v);
                    assert(fs[i + 1] == (k, v));
                },
                None => {
                    assert forall|i: int| 0 <= i < fs.len() implies (#[trigger] fs[i]).0 != k by {
                        if i > 0 {
                            assert(fs.drop_first()[i - 1] == fs[i]);
                        }
                    }
                },
            }
        }
    }
}

/// With unique keys, `obj_get` reads the object's map.
pub proof fn lemma_obj_get_map(fs: Seq<(Seq<char>, Jv)>, k: Seq<char>)
    requires
        keys_unique(fs),
    ensures
        match obj_get(fs, k) {
            Some(v) => obj_map(fs).dom().contains(k) && obj_map(fs)[k] == v,
            None => !obj_map(fs).dom().contains(k),
        },
{
    lemma_obj_get_index(fs, k);
    match obj_get(fs, k) {
        Some(v) => {
            let i = choose|i: int| 0 <= i < fs.len() && #[trigger] fs[i] == (k, v);
            lemma_obj_map_index(fs, i);
        },
        None => {
            if obj_map(fs).dom().contains(k) {
                lemma_obj_map_key(fs, k);
            }
        },
    }
}

/// The map of a concatenation: fields on the right win.
pub proof fn lemma_obj_map_concat(a: Seq<(Seq<char>, Jv)>, b: Seq<(Seq<char>, Jv)>)
    ensures
        obj_map(a + b) == obj_map(a).union_prefer_right(obj_map(b)),
    decreases b,
{
    if b.len() == 0 {
        assert(a + b =~= a);
        assert(obj_map(a).union_prefer_right(obj_map(b)) =~= obj_map(a));
    } else {
        lemma_obj_map_concat(a, b.drop_last());
        assert((a + b).drop_last() =~= a + b.drop_last());
        assert((a + b).last() == b.last());
        assert(obj_map(a + b) == obj_map(a + b.drop_last()).insert(b.last().0, b.last().1));
        assert(obj_map(a).union_prefer_right(obj_map(b.drop_last())).insert(b.last().0, b.last().1)
            =~= obj_map(a).union_prefer_right(obj_map(b.drop_last()).insert(
            b.last().0,
            b.last().1,
        )));
    }
}

/// Views distribute over concatenation.
pub proof fn lemma_view_fields_app(a: Seq<(String, JsonValue)>, b: Seq<(String, JsonValue)>)
    ensures
        view_fields(a + b) == view_fields(a) + view_fields(b),
    decreases b,
{
    if b.len() == 0 {
        assert(a + b =~= a);
        assert(view_fields(a) + view_fields(b) =~= view_fields(a));
    } else {
        lemma_view_fields_app(a, b.drop_last());
        assert((a + b).drop_last() =~= a + b.drop_last());
        assert((a + b).last() == b.last());
        assert(view_fields(a + b) == view_fields(a + b.drop_last()).push(
            (b.last().0@, b.last().1@),
        ));
        assert(view_fields(b) == view_fields(b.drop_last()).push((b.last().0@, b.last().1@)));
        assert((view_fields(a) + view_fields(b.drop_last())).push((b.last().0@, b.last().1@)) =~= (
        view_fields(a) + view_fields(b.drop_last()).push((b.last().0@, b.last().1@))));
    }
}

} // verus!

verus! {

/// A deep copy of a document.
#[verifier::loop_isolation(false)]
pub fn clone_json(v: &JsonValue) -> (res: JsonValue)
    ensures
        res@ == v@,
    decreases v,
{
    match v {
        JsonValue::Null => JsonValue::Null,
        JsonValue::Bool(b) => JsonValue::Bool(*b),
        JsonValue::Num(t) => JsonValue::Num(t.clone()),
        JsonValue::Str(s) => JsonValue::Str(s.clone()),
        JsonValue::Arr(xs) => {
            let mut out: Vec<JsonValue> = Vec::new();
            let mut i: usize = 0;
            while i < xs.len()
                invariant
                    i <= xs@.len(),
                    out@.len() == i,
                    forall|j: int| 0 <= j < i ==> #[trigger] out@[j]@ == xs@[j]@,
                decreases xs@.len() - i,
            {
                proof {
                    assert(decreases_to!(*v => v->Arr_0));
                    assert(decreases_to!(*xs => xs@));
                    assert(decreases_to!(xs@ => xs@[i as int]));
                }
                let c = clone_json(&xs[i]);
                out.push(c);
                i = i + 1;
            }
            proof {
                lemma_view_arr_len(out@);
                lemma_view_arr_len(xs@);
                assert(view_arr(out@) =~= view_arr(xs@)) by {
                    assert forall|j: int| 0 <= j < xs@.len() implies view_arr(out@)[j] == view_arr(
                        xs@,
                    )[j] by {
                        lemma_view_arr_index(out@, j);
                        lemma_view_arr_index(xs@, j);
                    }
                }
            }
            JsonValue::Arr(out)
        },
        JsonValue::Obj(fs) => {
            let mut out: Vec<(String, JsonValue)> = Vec::new();
            let mut i: usize = 0;
            while i < fs.len()
                invariant
                    i <= fs@.len(),
                    out@.len() == i,
                    forall|j: int|
                        0 <= j < i ==> (#[trigger] out@[j]).0@ == fs@[j].0@ && out@[j].1@
                            == fs@[j].1@,
                decreases fs@.len() - i,
            {
                proof {
                    assert(decreases_to!(*v => v->Obj_0));
                    assert(decreases_to!(*fs => fs@));
                    assert(decreases_to!(fs@ => fs@[i as int]));
                    assert(decreases_to!(fs@[i as int] => fs@[i as int].1));
                }
                let k = fs[i].0.clone();
                let c = clone_json(&fs[i].1);
                out.push((k, c));
                i = i + 1;
            }
            proof {
                lemma_view_fields_len(out@);
                lemma_view_fields_len(fs@);
                assert(view_fields(out@) =~= view_fields(fs@)) by {
                    assert forall|j: int| 0 <= j < fs@.len() implies view_fields(out@)[j]
                        == view_fields(fs@)[j] by {
                        lemma_view_fields_index(out@, j);
                        lemma_view_fields_index(fs@, j);
                    }
                }
            }
            JsonValue::Obj(out)
        },
    }
}

impl Clone for JsonValue {
    /// A deep copy: the copy models the same document.
    fn clone(&self) -> (res: Self)
        ensures
            res@ == self@,
    {
        clone_json(self)
    }
}

/// The view of each constructor, written out.
pub proof fn lemma_view_unfold(v: JsonValue)
    ensures
        v is Null ==> v@ == Jv::Null,
        v is Bool ==> v@ == Jv::Bool(v->Bool_0),
        v is Num ==> v@ == Jv::Num(v->Num_0@),
        v is Str ==> v@ == Jv::Str(v->Str_0@),
        v is Arr ==> v@ == Jv::Arr(view_arr(v->Arr_0@)),
        v is Obj ==> v@ == Jv::Obj(view_fields(v->Obj_0@)),
{
    match v {
        JsonValue::Null => {
            assert(v@ == Jv::Null);
        },
        JsonValue::Bool(b) => {
            assert(v@ == Jv::Bool(b));
        },
        JsonValue::Num(t) => {
            assert(v@ == Jv::Num(t@));
        },
        JsonValue::Str(s) => {
            assert(v@ == Jv::Str(s@));
        },
        JsonValue::Arr(xs) => {
            assert(v@ == Jv::Arr(view_arr(xs@)));
        },
        JsonValue::Obj(fs) => {
            assert(v@ == Jv::Obj(view_fields(fs@)));
        },
    }
}

/// Structural equality of two documents.
#[verifier::loop_isolation(false)]
pub fn eq_json(a: &JsonValue, b: &JsonValue) -> (r: bool)
    ensures
        r <==> (a@ == b@),
    decreases a,
{
    proof {
        lemma_view_unfold(*a);
        lemma_view_unfold(*b);
    }
    match (a, b) {
        (JsonValue::Null, JsonValue::Null) => {
            proof {
                assert(*a is Null && *b is Null);
                assert(a@ == b@);
            }
            true
        },
        (JsonValue::Bool(x), JsonValue::Bool(y)) => {
            proof {
                assert(a@ == Jv::Bool(*x) && b@ == Jv::Bool(*y));
            }
            x == y
        },
        (JsonValue::Num(x), JsonValue::Num(y)) => {
            proof {
                assert(a@ == Jv::Num(x@) && b@ == Jv::Num(y@));
            }
            *x == *y
        },
        (JsonValue::Str(x), JsonValue::Str(y)) => {
            proof {
                assert(a@ == Jv::Str(x@) && b@ == Jv::Str(y@));
            }
            *x == *y
        },
        (JsonValue::Arr(xs), JsonValue::Arr(ys)) => {
            proof {
                lemma_view_arr_len(xs@);
                lemma_view_arr_len(ys@);
                assert(a@ == Jv::Arr(view_arr(xs@)));
                assert(b@ == Jv::Arr(view_arr(ys@)));
            }
            if xs.len() != ys.len() {
                proof {
                    assert(a@ != b@);
                }
                return false;
            }
            let mut i: usize = 0;
            while i < xs.len()
                invariant
                    i <= xs@.len(),
                    xs@.len() == ys@.len(),
                    forall|j: int| 0 <= j < i ==> #[trigger] xs@[j]@ == ys@[j]@,
                decreases xs@.len() - i,
            {
                proof {
                    assert(decreases_to!(*a => a->Arr_0));
                    assert(decreases_to!(*xs => xs@));
                    assert(decreases_to!(xs@ => xs@[i as int]));
                }
                if !eq_json(&xs[i], &ys[i]) {
                    proof {
                        lemma_view_arr_index(xs@, i as int);
                        lemma_view_arr_index(ys@, i as int);
                        assert(view_arr(xs@)[i as int] != view_arr(ys@)[i as int]);
                        assert(a@ == Jv::Arr(view_arr(xs@)));
                        assert(b@ == Jv::Arr(view_arr(ys@)));
                    }
                    proof {
                        assert(a@ != b@);
                    }
                    return false;
                }
                i = i + 1;
            }
            proof {
                assert(view_arr(xs@) =~= view_arr(ys@)) by {
                    assert forall|j: int| 0 <= j < xs@.len() implies view_arr(xs@)[j] == view_arr(
                        ys@,
                    )[j] by {
                        lemma_view_arr_index(xs@, j);
                        lemma_view_arr_index(ys@, j);
                    }
                }
                assert(a@ == Jv::Arr(view_arr(xs@)));
                assert(b@ == Jv::Arr(view_arr(ys@)));
            }
            true
        },
        (JsonValue::Obj(xs), JsonValue::Obj(ys)) => {
            proof {
                lemma_view_fields_len(xs@);
                lemma_view_fields_len(ys@);
                assert(a@ == Jv::Obj(view_fields(xs@)));
                assert(b@ == Jv::Obj(view_fields(ys@)));
            }
            if xs.len() != ys.len() {
                proof {
                    assert(a@ != b@);
                }
                return false;
            }
            let mut i: usize = 0;
            while i < xs.len()
                invariant
                    i <= xs@.len(),
                    xs@.len() == ys@.len(),
                    forall|j: int|
                        0 <= j < i ==> (#[trigger] xs@[j]).0@ == ys@[j].0@ && xs@[j].1@
                            == ys@[j].1@,
                decreases xs@.len() - i,
            {
                proof {
                    assert(decreases_to!(*a => a->Obj_0));
                    assert(decreases_to!(*xs => xs@));
                    assert(decreases_to!(xs@ => xs@[i as int]));
                    assert(decreases_to!(xs@[i as int] => xs@[i as int].1));
                }
                if !(xs[i].0 == ys[i].0) {
                    proof {
                        lemma_view_fields_index(xs@, i as int);
                        lemma_view_fields_index(ys@, i as int);
                        assert(view_fields(xs@)[i as int] != view_fields(ys@)[i as int]);
                        assert(a@ == Jv::Obj(view_fields(xs@)));
                        assert(b@ == Jv::Obj(view_fields(ys@)));
                    }
                    proof {
                        assert(a@ != b@);
                    }
                    return false;
                }
                if !eq_json(&xs[i].1, &ys[i].1) {
                    proof {
                        lemma_view_fields_index(xs@, i as int);
                        lemma_view_fields_index(ys@, i as int);
                        assert(view_fields(xs@)[i as int] != view_fields(ys@)[i as int]);
                        assert(a@ == Jv::Obj(view_fields(xs@)));
                        assert(b@ == Jv::Obj(view_fields(ys@)));
                    }
                    proof {
                        assert(a@ != b@);
                    }
                    return false;
                }
                i = i + 1;
            }
            proof {
                assert(view_fields(xs@) =~= view_fields(ys@)) by {
                    assert forall|j: int| 0 <= j < xs@.len() implies view_fields(xs@)[j]
                        == view_fields(ys@)[j] by {
                        lemma_view_fields_index(xs@, j);
                        lemma_view_fields_index(ys@, j);
                    }
                }
                assert(a@ == Jv::Obj(view_fields(xs@)));
                assert(b@ == Jv::Obj(view_fields(ys@)));
            }
            true
        },
        _ => {
            proof {
                lemma_view_neq(*a, *b);
                assert(a@ != b@);
            }
            false
        },
    }
}


impl PartialEq for JsonValue {
    /// Structural equality: equal exactly when the documents are equal.
    fn eq(&self, other: &JsonValue) -> (r: bool)
        ensures
            r == (self@ == other@),
    {
        eq_json(self, other)
    }
}

impl vstd::std_specs::cmp::PartialEqSpecImpl for JsonValue {
    open spec fn obeys_eq_spec() -> bool {
        true
    }

    open spec fn eq_spec(&self, other: &JsonValue) -> bool {
        self@ == other@
    }
}


/// Documents of different shapes are different.
proof fn lemma_view_neq(a: JsonValue, b: JsonValue)
    requires
        !(a is Null && b is Null),
        !(a is Bool && b is Bool),
        !(a is Num && b is Num),
        !(a is Str && b is Str),
        !(a is Arr && b is Arr),
        !(a is Obj && b is Obj),
    ensures
        a@ != b@,
{
    lemma_view_unfold(a);
    lemma_view_unfold(b);
    match a {
        JsonValue::Null => {
            assert(a@ is Null);
        },
        JsonValue::Bool(_) => {
            assert(a@ is Bool);
        },
        JsonValue::Num(_) => {
            assert(a@ is Num);
        },
        JsonValue::Str(_) => {
            assert(a@ is Str);
        },
        JsonValue::Arr(_) => {
            assert(a@ is Arr);
        },
        JsonValue::Obj(_) => {
            assert(a@ is Obj);
        },
    }
    match b {
        JsonValue::Null => {
            assert(b@ is Null);
        },
        JsonValue::Bool(_) => {
            assert(b@ is Bool);
        },
        JsonValue::Num(_) => {
            assert(b@ is Num);
        },
        JsonValue::Str(_) => {
            assert(b@ is Str);
        },
        JsonValue::Arr(_) => {
            assert(b@ is Arr);
        },
        JsonValue::Obj(_) => {
            assert(b@ is Obj);
        },
    }
}

} // verus!
