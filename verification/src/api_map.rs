//! Translation of library calls (such as `db.findOne`) between languages.
use vstd::prelude::*;
use crate::naming::{dir_key, dir_key_chars, is_from_rust_key, is_to_rust_key, key_is_from_rust, key_is_to_rust, lemma_direction_keys_distinct};
use crate::data;

verus! {

/// Known call translations for one direction of migration.
pub struct ApiMapRegistry {
    mapping: Vec<(String, String)>,
}

pub open spec fn pair_views(m: Seq<(String, String)>) -> Seq<(Seq<char>, Seq<char>)> {
    m.map_values(|e: (String, String)| (e.0@, e.1@))
}

/// The translation of `call` by the first entry whose key is `call`, from entry `k` on.
pub open spec fn lookup_from(m: Seq<(Seq<char>, Seq<char>)>, call: Seq<char>, k: int) -> Option<Seq<char>>
    decreases m.len() - k,
{
    if k < 0 || k >= m.len() {
        None
    } else if m[k].0 == call {
        Some(m[k].1)
    } else {
        lookup_from(m, call, k + 1)
    }
}

pub open spec fn lookup_spec(m: Seq<(Seq<char>, Seq<char>)>, call: Seq<char>) -> Option<Seq<char>> {
    lookup_from(m, call, 0)
}

/// Each call of the chain, translated where a translation is known.
pub open spec fn chain_spec(m: Seq<(Seq<char>, Seq<char>)>, calls: Seq<Seq<char>>) -> Seq<Seq<char>> {
    calls.map_values(|c: Seq<char>| match lookup_spec(m, c) {
        Some(t) => t,
        None => c,
    })
}

impl ApiMapRegistry {
    pub closed spec fn entries(&self) -> Seq<(Seq<char>, Seq<char>)> {
        pair_views(self.mapping@)
    }

    /// The call translations for migrating from `source_lang` to `target_lang`; an
    /// unknown direction has none.
    pub fn new(source_lang: &str, target_lang: &str) -> (r: Self)
        ensures
            is_to_rust_key(dir_key(source_lang@, target_lang@)) ==> r.entries() == data::ts_to_rust_calls(),
            is_from_rust_key(dir_key(source_lang@, target_lang@)) ==> r.entries() == data::rust_to_ts_calls(),
            !is_to_rust_key(dir_key(source_lang@, target_lang@)) && !is_from_rust_key(
                dir_key(source_lang@, target_lang@),
            ) ==> r.entries().len() == 0,
    {
        let key = dir_key_chars(source_lang, target_lang);
        proof {
            lemma_direction_keys_distinct(key@);
        }
        if key_is_to_rust(&key) {
            ApiMapRegistry { mapping: data::ts_to_rust_calls_exec() }
        } else if key_is_from_rust(&key) {
            ApiMapRegistry { mapping: data::rust_to_ts_calls_exec() }
        } else {
            ApiMapRegistry { mapping: Vec::new() }
        }
    }

    /// The target-language call for `call`, if one is known.
    pub fn translate_call(&self, call: &str) -> (r: Option<&str>)
        ensures
            match r {
                Some(t) => lookup_spec(self.entries(), call@) == Some(t@),
                None => lookup_spec(self.entries(), call@).is_none(),
            },
    {
        let c = String::from_str(call);
        let mut k: usize = 0;
        while k < self.mapping.len()
            invariant
                k <= self.mapping.len(),
                c@ == call@,
                lookup_spec(self.entries(), call@) == lookup_from(self.entries(), call@, k as int),
            decreases self.mapping.len() - k,
        {
            if self.mapping[k].0 == c {
                return Some(self.mapping[k].1.as_str());
            }
            k = k + 1;
        }
        None
    }

    /// Translate every call of a chain; unknown calls stay as they are.
    pub fn translate_call_chain(&self, calls: &[String]) -> (r: Vec<String>)
        ensures
            crate::text::views(r@) == chain_spec(self.entries(), crate::text::views(calls@)),
    {
        let mut r: Vec<String> = Vec::new();
        let mut i: usize = 0;
        while i < calls.len()
            invariant
                i <= calls.len(),
                crate::text::views(r@) == chain_spec(self.entries(), crate::text::views(calls@)).subrange(0, i as int),
            decreases calls.len() - i,
        {
            let t = match self.translate_call(calls[i].as_str()) {
                Some(t) => String::from_str(t),
                None => calls[i].clone(),
            };
            let ghost tv = t@;
            proof {
                let ci = calls@[i as int]@;
                assert(crate::text::views(calls@)[i as int] == ci);
                assert(tv == (match lookup_spec(self.entries(), ci) { Some(x) => x, None => ci }));
            }
            let ghost before = crate::text::views(r@);
            r.push(t);
            i = i + 1;
            proof {
                assert(crate::text::views(r@) =~= before.push(tv));
                assert(crate::text::views(r@) =~= chain_spec(self.entries(), crate::text::views(calls@)).subrange(0, i as int));
            }
        }
        proof {
            assert(chain_spec(self.entries(), crate::text::views(calls@)).subrange(0, i as int) =~= chain_spec(self.entries(), crate::text::views(calls@)));
        }
        r
    }
}


/// Translating a chain of calls translates each call on its own: the chain keeps its
/// length, a known call becomes its translation and an unknown one stays as it is.
pub proof fn law_chain_elementwise(m: Seq<(Seq<char>, Seq<char>)>, calls: Seq<Seq<char>>, i: int)
    requires
        0 <= i < calls.len(),
    ensures
        chain_spec(m, calls).len() == calls.len(),
        chain_spec(m, calls)[i] == match lookup_spec(m, calls[i]) {
            Some(t) => t,
            None => calls[i],
        },
{
}

} // verus!
