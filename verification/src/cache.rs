//! The resource cache: one JSON key-to-value document, held in memory and
//! mirrored to one file.
//!
//! The in-memory store is `cached`'s unbounded cache, behind trusted
//! contracts over its contents. Reading and writing the backing file is the
//! caller's part: [`JsonCache::save_text`] yields the full document to
//! persist after every mutation, and [`JsonCache::load_text`] rebuilds the
//! document from what was persisted.

use crate::ChatError;
use crate::json::{Jv, JsonValue, fields_wf, jv_wf, keys_unique, lemma_fields_wf_index,
    lemma_obj_map_index, lemma_obj_map_key, obj_map, view_fields};
use cached::{Cached, CachedIter, UnboundCache};
use vstd::prelude::*;

verus! {

#[verifier::external_type_specification]
#[verifier::external_body]
#[verifier::reject_recursive_types(K)]
#[verifier::reject_recursive_types(V)]
#[verifier::reject_recursive_types(S)]
pub struct ExUnboundCache<K, V, S>(UnboundCache<K, V, S>);

/// The store behind the document.
pub type Store = UnboundCache<String, JsonValue, cached::DefaultHashBuilder>;

/// What the unbounded cache holds: its key-to-value map.
pub uninterp spec fn cache_contents(c: Store) -> Map<Seq<char>, Jv>;



/// Relies on cached::UnboundCache::new: fills the slot with a fresh cache,
/// which holds nothing.
#[verifier::external_body]
fn cache_new_into(slot: &mut Option<Store>)
    ensures
        match *final(slot) {
            Some(c) => cache_contents(c) == Map::<Seq<char>, Jv>::empty(),
            None => false,
        },
{
    *slot = Some(UnboundCache::new());
}

/// Relies on cached::Cached::cache_get of the unbounded cache: a lookup in
/// the backing map; the contents stay as they are (only hit counters move).
#[verifier::external_body]
fn cache_get_clone(c: &mut Store, key: &String) -> (r: Option<JsonValue>)
    ensures
        cache_contents(*final(c)) == cache_contents(*old(c)),
        match r {
            Some(v) => cache_contents(*old(c)).dom().contains(key@) && cache_contents(*old(c))[
                key@] == v@,
            None => !cache_contents(*old(c)).dom().contains(key@),
        },
{
    c.cache_get(key).cloned()
}

/// Relies on cached::Cached::cache_set of the unbounded cache: maps the key
/// to the value and returns what it replaced.
#[verifier::external_body]
fn cache_set_raw(c: &mut Store, key: String, value: JsonValue) -> (r: Option<JsonValue>)
    ensures
        cache_contents(*final(c)) == cache_contents(*old(c)).insert(key@, value@),
        match r {
            Some(v) => cache_contents(*old(c)).dom().contains(key@) && cache_contents(*old(c))[
                key@] == v@,
            None => !cache_contents(*old(c)).dom().contains(key@),
        },
{
    c.cache_set(key, value)
}

/// Relies on cached::CachedIter::iter of the unbounded cache: every stored
/// pair exactly once, in no promised order.
#[verifier::external_body]
fn cache_pairs(c: &Store) -> (r: Vec<(String, JsonValue)>)
    ensures
        keys_unique(view_fields(r@)),
        view_fields(r@).len() == r@.len(),
        forall|i: int|
            0 <= i < r@.len() ==> cache_contents(*c).dom().contains(
                (#[trigger] view_fields(r@)[i]).0,
            ) && cache_contents(*c)[view_fields(r@)[i].0] == view_fields(r@)[i].1,
        forall|k: Seq<char>|
            cache_contents(*c).dom().contains(k) ==> exists|i: int|
                0 <= i < r@.len() && (#[trigger] view_fields(r@)[i]).0 == k,
{
    c.iter().map(|(k, v)| (k.clone(), v.clone())).collect()
}

/// An object whose fields name exactly the pairs of `m` maps to `m`.
proof fn lemma_pairs_to_map(fs: Seq<(Seq<char>, Jv)>, m: Map<Seq<char>, Jv>)
    requires
        keys_unique(fs),
        forall|i: int|
            0 <= i < fs.len() ==> m.dom().contains((#[trigger] fs[i]).0) && m[fs[i].0] == fs[i].1,
        forall|k: Seq<char>|
            m.dom().contains(k) ==> exists|i: int| 0 <= i < fs.len() && (#[trigger] fs[i]).0 == k,
    ensures
        obj_map(fs) == m,
{
    assert(obj_map(fs) =~= m) by {
        assert forall|k: Seq<char>| obj_map(fs).dom().contains(k) implies m.dom().contains(k) by {
            lemma_obj_map_key(fs, k);
            let i = choose|i: int| 0 <= i < fs.len() && (#[trigger] fs[i]).0 == k;
            assert(m.dom().contains(fs[i].0));
        }
        assert forall|k: Seq<char>| m.dom().contains(k) implies obj_map(fs).dom().contains(k) by {
            let i = choose|i: int| 0 <= i < fs.len() && (#[trigger] fs[i]).0 == k;
            lemma_obj_map_index(fs, i);
        }
        assert forall|k: Seq<char>| obj_map(fs).dom().contains(k) implies obj_map(fs)[k] == m[k]
            by {
            lemma_obj_map_key(fs, k);
            let i = choose|i: int| 0 <= i < fs.len() && (#[trigger] fs[i]).0 == k;
            lemma_obj_map_index(fs, i);
        }
    }
}

/// The persisted key-to-value document.
#[derive(Debug)]
pub struct JsonCache {
    cache: Store,
}

impl View for JsonCache {
    type V = Map<Seq<char>, Jv>;

    /// The key-to-value map this document holds.
    closed spec fn view(&self) -> Map<Seq<char>, Jv> {
        cache_contents(self.cache)
    }
}

impl JsonCache {
    /// Every stored value is a well-formed document.
    pub open spec fn inv(&self) -> bool {
        forall|k: Seq<char>|
            self@.dom().contains(k) ==> jv_wf(#[trigger] self@[k])
    }

    /// An empty document.
    pub fn new() -> (c: JsonCache)
        ensures
            c@ == Map::<Seq<char>, Jv>::empty(),
            c.inv(),
    {
        let mut slot: Option<Store> = None;
        cache_new_into(&mut slot);
        match slot {
            Some(cache) => JsonCache { cache },
            None => vstd::pervasive::unreached(),
        }
    }

    /// The value stored under `key`, if any. The document is unchanged.
    pub fn get(&mut self, key: String) -> (r: Option<JsonValue>)
        ensures
            final(self)@ == old(self)@,
            match r {
                Some(v) => old(self)@.dom().contains(key@) && old(self)@[key@]
                    == v@,
                None => !old(self)@.dom().contains(key@),
            },
    {
        cache_get_clone(&mut self.cache, &key)
    }

    /// Store `value` under `key`, returning what it replaced. The caller
    /// must persist [`JsonCache::save_text`] before relying on durability.
    pub fn set(&mut self, key: String, value: JsonValue) -> (r: Option<JsonValue>)
        ensures
            final(self)@ == old(self)@.insert(key@, value@),
            old(self).inv() && jv_wf(value@) ==> final(self).inv(),
            match r {
                Some(v) => old(self)@.dom().contains(key@) && old(self)@[key@]
                    == v@,
                None => !old(self)@.dom().contains(key@),
            },
    {
        let ghost k = key@;
        let ghost vv = value@;
        let r = cache_set_raw(&mut self.cache, key, value);
        proof {
            if old(self).inv() && jv_wf(vv) {
                assert forall|k2: Seq<char>| self@.dom().contains(k2) implies jv_wf(
                    #[trigger] self@[k2],
                ) by {
                    if k2 != k {
                        assert(old(self)@[k2] == self@[k2]);
                    }
                }
            }
        }
        r
    }

    /// The whole document as one JSON object, pretty-printed and ready to
    /// be written to the backing file in full: each key on its own indented
    /// line. While every stored value is well formed, parsing the text back
    /// yields an object holding exactly this document's map.
    pub fn save_text(&self) -> (s: String)
        ensures
            exists|gs: Seq<(Seq<char>, Jv)>|
                s@ == crate::json_print::print_obj_pretty(gs) && keys_unique(gs)
                    && #[trigger] obj_map(gs) == self@,
            self.inv() ==> (exists|gs: Seq<(Seq<char>, Jv)>|
                crate::json_parse::sp_json(s@) == Some(Jv::Obj(gs)) && #[trigger] obj_map(gs)
                    == self@),
    {
        let fields = cache_pairs(&self.cache);
        proof {
            let gs = view_fields(fields@);
            lemma_pairs_to_map(gs, self@);
            if self.inv() {
                assert(fields_wf(gs)) by {
                    lemma_fields_wf_index(gs);
                    assert forall|i: int| 0 <= i < gs.len() implies jv_wf((#[trigger] gs[i]).1)
                        by {
                        assert(self@.dom().contains(gs[i].0));
                    }
                }
                crate::json_laws::lemma_pretty_round_trip(gs);
            }
        }
        crate::json_print::to_text_obj_pretty(&fields)
    }

    /// Rebuild a document from its persisted text. Fails with `CacheIOError`
    /// exactly where the text is not one JSON object.
    pub fn load_text(s: &str) -> (r: Result<JsonCache, ChatError>)
        ensures
            match r {
                Ok(c) => (exists|gs: Seq<(Seq<char>, Jv)>|
                    crate::json_parse::sp_json(s@) == Some(Jv::Obj(gs)) && #[trigger] obj_map(gs)
                        == c@) && c.inv(),
                Err(e) => e is CacheIOError && (match crate::json_parse::sp_json(s@) {
                    Some(v) => !(v is Obj),
                    None => true,
                }),
            },
    {
        let v = match crate::json_parse::parse_text(s) {
            Some(v) => v,
            None => {
                return Err(
                    ChatError::CacheIOError(
                        String::from_str("the persisted cache file is not valid"),
                    ),
                );
            },
        };
        proof {
            crate::json::lemma_view_unfold(v);
        }
        let fields = match v {
            JsonValue::Obj(fields) => fields,
            _ => {
                return Err(
                    ChatError::CacheIOError(
                        String::from_str("the persisted cache file is not one object"),
                    ),
                );
            },
        };
        let ghost gs = view_fields(fields@);
        let mut c = JsonCache::new();
        let mut i: usize = 0;
        proof {
            crate::json::lemma_view_fields_len(fields@);
            assert forall|j: int| 0 <= j < fields@.len() implies #[trigger] gs[j] == (
            fields@[j].0@,
            fields@[j].1@,
            ) by {
                crate::json::lemma_view_fields_index(fields@, j);
            }
            assert(obj_map(gs.take(0)) =~= Map::<Seq<char>, Jv>::empty());
            crate::json::lemma_fields_wf_index(gs);
        }
        while i < fields.len()
            invariant
                i <= fields@.len(),
                gs == view_fields(fields@),
                gs.len() == fields@.len(),
                forall|j: int| 0 <= j < fields@.len() ==> #[trigger] gs[j] == (
                fields@[j].0@,
                fields@[j].1@,
                ),
                forall|j: int| 0 <= j < gs.len() ==> jv_wf((#[trigger] gs[j]).1),
                c@ == obj_map(gs.take(i as int)),
                c.inv(),
            decreases fields@.len() - i,
        {
            let key = fields[i].0.clone();
            let value = crate::json::clone_json(&fields[i].1);
            proof {
                assert(jv_wf((gs[i as int]).1));
            }
            c.set(key, value);
            proof {
                assert(c.inv());
            }
            proof {
                assert(gs.take(i + 1).drop_last() =~= gs.take(i as int));
                assert(gs.take(i + 1).last() == gs[i as int]);
                assert(obj_map(gs.take(i + 1)) == obj_map(gs.take(i as int)).insert(
                    gs[i as int].0,
                    gs[i as int].1,
                ));
            }
            i = i + 1;
        }
        proof {
            assert(gs.take(fields@.len() as int) =~= gs);
        }
        Ok(c)
    }
}

} // verus!
