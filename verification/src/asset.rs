//! Assets, their metadata, and the context that holds every asset of a pipeline by name.
use vstd::prelude::*;
use std::collections::BTreeMap;
use crate::source::Source;
use crate::text::{compare_text, lemma_text_lt_irreflexive, lemma_text_lt_total, lemma_text_lt_transitive, text_lt};
use crate::types::AssetRef;
use crate::yaml_value::YamlValue;

verus! {

/// The owner of a pipeline or an asset.
#[derive(Debug, Clone, PartialEq)]
pub struct Owner {
    pub name: String,
    pub email: String,
    pub owner_type: Option<String>,
}

/// Documentation of one column of an asset.
#[derive(Debug, PartialEq)]
pub struct ColumnMetadata {
    pub name: String,
    pub description: Option<String>,
    pub tags: Vec<String>,
    pub constraints: Vec<String>,
    pub meta: BTreeMap<String, YamlValue>,
    pub glossary_term: Option<String>,
}

/// Descriptive metadata of an asset.
#[derive(Debug, PartialEq)]
pub struct AssetMetadata {
    pub description: Option<String>,
    pub tags: Vec<String>,
    pub remove_tags: Vec<String>,
    pub meta: BTreeMap<String, YamlValue>,
    pub owner: Option<Owner>,
    pub columns: Vec<ColumnMetadata>,
    pub freshness: Option<String>,
    pub maturity: Option<String>,
}

impl Default for AssetMetadata {
    /// Metadata with nothing in it.
    fn default() -> (r: AssetMetadata)
        ensures
            r.description is None,
            r.tags@ == Seq::<String>::empty(),
            r.remove_tags@ == Seq::<String>::empty(),
            r.meta@ == Map::<String, YamlValue>::empty(),
            r.owner is None,
            r.columns@ == Seq::<ColumnMetadata>::empty(),
            r.freshness is None,
            r.maturity is None,
    {
        AssetMetadata {
            description: None,
            tags: Vec::new(),
            remove_tags: Vec::new(),
            meta: BTreeMap::new(),
            owner: None,
            columns: Vec::new(),
            freshness: None,
            maturity: None,
        }
    }
}

/// A named node of the pipeline graph.
#[derive(Debug, PartialEq)]
pub struct Asset {
    pub asset_ref: AssetRef,
    pub source: Source,
    pub metadata: AssetMetadata,
}

/// Every asset of a pipeline, keyed by name, in increasing order of names.
#[derive(Debug)]
pub struct Context {
    entries: Vec<(AssetRef, Asset)>,
}

/// The keys of an entry sequence strictly increase.
pub open spec fn keys_increasing(s: Seq<(Seq<char>, Asset)>) -> bool {
    forall|i: int, j: int| 0 <= i < j < s.len() ==> text_lt(#[trigger] s[i].0, #[trigger] s[j].0)
}

/// Does key `k` stand in `s`?
pub open spec fn has_key(s: Seq<(Seq<char>, Asset)>, k: Seq<char>) -> bool {
    exists|i: int| 0 <= i < s.len() && #[trigger] s[i].0 == k
}

/// An index of key `k` in `s`, where it stands.
pub open spec fn key_index(s: Seq<(Seq<char>, Asset)>, k: Seq<char>) -> int {
    choose|i: int| 0 <= i < s.len() && #[trigger] s[i].0 == k
}

/// The asset under key `k` in `s`, if any.
pub open spec fn lookup(s: Seq<(Seq<char>, Asset)>, k: Seq<char>) -> Option<Asset> {
    if has_key(s, k) {
        Some(s[key_index(s, k)].1)
    } else {
        None
    }
}

/// The keys of `s`, in order.
pub open spec fn key_seq(s: Seq<(Seq<char>, Asset)>) -> Seq<Seq<char>> {
    s.map_values(|e: (Seq<char>, Asset)| e.0)
}

/// In a sequence with increasing keys, key `k` at index `i` is what `lookup` finds.
pub proof fn lemma_lookup_at(s: Seq<(Seq<char>, Asset)>, i: int)
    requires
        keys_increasing(s),
        0 <= i < s.len(),
    ensures
        lookup(s, s[i].0) == Some(s[i].1),
        has_key(s, s[i].0),
        key_index(s, s[i].0) == i,
{
    let k = s[i].0;
    assert(has_key(s, k));
    let j = key_index(s, k);
    if j != i {
        if j < i {
            assert(text_lt(s[j].0, s[i].0));
        } else {
            assert(text_lt(s[i].0, s[j].0));
        }
        lemma_text_lt_irreflexive(k);
    }
}

impl Context {
    /// The keys of a context strictly increase.
    #[verifier::type_invariant]
    pub open spec fn inv(self) -> bool {
        keys_increasing(self@)
    }

    /// The entries, as (name, asset) pairs in increasing order of names.
    pub closed spec fn view(&self) -> Seq<(Seq<char>, Asset)> {
        self.entries@.map_values(|e: (AssetRef, Asset)| (e.0@, e.1))
    }

    /// An empty context.
    pub fn new() -> (r: Context)
        ensures
            r@ == Seq::<(Seq<char>, Asset)>::empty(),
    {
        let r = Context { entries: Vec::new() };
        assert(r@ =~= Seq::<(Seq<char>, Asset)>::empty());
        r
    }

    /// The number of assets.
    pub fn len(&self) -> (r: usize)
        ensures
            r == self@.len(),
    {
        self.entries.len()
    }

    /// Where key `k` stands, or where it would be inserted.
    fn position(&self, k: &str) -> (r: (usize, bool))
        ensures
            r.0 <= self@.len(),
            r.1 ==> r.0 < self@.len() && self@[r.0 as int].0 == k@,
            !r.1 ==> !has_key(self@, k@),
            forall|i: int| 0 <= i < r.0 ==> text_lt(#[trigger] self@[i].0, k@),
            forall|i: int| r.0 <= i < self@.len() ==> !text_lt(#[trigger] self@[i].0, k@),
    {
        proof {
            use_type_invariant(self);
        }
        let mut i: usize = 0;
        while i < self.entries.len()
            invariant
                i <= self@.len(),
                self@.len() == self.entries@.len(),
                keys_increasing(self@),
                forall|j: int| 0 <= j < i ==> text_lt(#[trigger] self@[j].0, k@),
            decreases self@.len() - i,
        {
            let c = compare_text(self.entries[i].0.as_str(), k);
            assert(self@[i as int].0 == self.entries@[i as int].0@);
            if c == 0 {
                proof {
                    assert forall|j: int| i <= j < self@.len() implies !text_lt(#[trigger] self@[j].0, k@) by {
                        if j > i {
                            assert(text_lt(self@[i as int].0, self@[j].0));
                            lemma_text_lt_total(self@[j].0, k@);
                        } else {
                            lemma_text_lt_irreflexive(k@);
                        }
                    }
                }
                return (i, true);
            } else if c > 0 {
                proof {
                    assert forall|j: int| i <= j < self@.len() implies !text_lt(#[trigger] self@[j].0, k@) by {
                        if j > i {
                            assert(text_lt(self@[i as int].0, self@[j].0));
                            if text_lt(self@[j].0, k@) {
                                lemma_text_lt_transitive(self@[i as int].0, self@[j].0, k@);
                                lemma_text_lt_total(self@[i as int].0, k@);
                            }
                        } else {
                            lemma_text_lt_total(self@[i as int].0, k@);
                        }
                    }
                    assert forall|j: int| 0 <= j < self@.len() implies #[trigger] self@[j].0 != k@ by {
                        if j >= i {
                            if j > i {
                                assert(text_lt(self@[i as int].0, self@[j].0));
                                if self@[j].0 == k@ {
                                    lemma_text_lt_total(self@[i as int].0, k@);
                                }
                            }
                        } else {
                            lemma_text_lt_irreflexive(k@);
                        }
                    }
                }
                return (i, false);
            }
            i = i + 1;
        }
        proof {
            assert forall|j: int| 0 <= j < self@.len() implies #[trigger] self@[j].0 != k@ by {
                lemma_text_lt_irreflexive(k@);
            }
        }
        (i, false)
    }

    /// The index, in the ordered entries, of the asset named `k`.
    pub fn find(&self, k: &str) -> (r: Option<usize>)
        ensures
            match r {
                Some(i) => i < self@.len() && self@[i as int].0 == k@ && key_index(self@, k@) == i,
                None => !has_key(self@, k@),
            },
    {
        proof {
            use_type_invariant(self);
        }
        let (i, found) = self.position(k);
        if found {
            proof {
                lemma_lookup_at(self@, i as int);
            }
            Some(i)
        } else {
            None
        }
    }

    /// Is there an asset named `k`?
    pub fn contains_key(&self, k: &str) -> (r: bool)
        ensures
            r == has_key(self@, k@),
    {
        let (_, found) = self.position(k);
        found
    }

    /// The asset named `k`, if any.
    pub fn get(&self, k: &str) -> (r: Option<&Asset>)
        ensures
            match r {
                Some(a) => lookup(self@, k@) == Some(*a),
                None => lookup(self@, k@) is None,
            },
    {
        proof {
            use_type_invariant(self);
        }
        let (i, found) = self.position(k);
        if found {
            proof {
                lemma_lookup_at(self@, i as int);
            }
            Some(&self.entries[i].1)
        } else {
            None
        }
    }

    /// The name and asset at index `i` of the ordered entries.
    pub fn entry(&self, i: usize) -> (r: (&AssetRef, &Asset))
        requires
            i < self@.len(),
        ensures
            r.0@ == self@[i as int].0,
            *r.1 == self@[i as int].1,
    {
        let e = &self.entries[i];
        (&e.0, &e.1)
    }

    /// The names of all assets, in increasing order.
    pub fn keys(&self) -> (r: Vec<AssetRef>)
        ensures
            r@.len() == self@.len(),
            forall|i: int| 0 <= i < r@.len() ==> (#[trigger] r@[i])@ == self@[i].0,
    {
        let mut r: Vec<AssetRef> = Vec::new();
        let mut i: usize = 0;
        while i < self.entries.len()
            invariant
                i <= self@.len(),
                self@.len() == self.entries@.len(),
                r@.len() == i,
                forall|j: int| 0 <= j < i ==> (#[trigger] r@[j])@ == self@[j].0,
            decreases self@.len() - i,
        {
            r.push(self.entries[i].0.clone());
            i = i + 1;
        }
        r
    }

    /// Puts `v` under key `k`, and gives back the asset that was there.
    pub fn insert(&mut self, k: AssetRef, v: Asset) -> (r: Option<Asset>)
        ensures
            r == lookup(old(self)@, k@),
            lookup(final(self)@, k@) == Some(v),
            forall|k2: Seq<char>| k2 != k@ ==> lookup(#[trigger] final(self)@, k2) == lookup(old(self)@, k2),
            final(self)@.len() == old(self)@.len() + (if has_key(old(self)@, k@) { 0int } else { 1int }),
    {
        proof {
            use_type_invariant(&*self);
        }
        let ghost s0 = self@;
        let (i, found) = self.position(k.as_str());
        let mut e: Vec<(AssetRef, Asset)> = Vec::new();
        std::mem::swap(&mut e, &mut self.entries);
        let ghost ev = e@;
        assert(s0 == ev.map_values(|x: (AssetRef, Asset)| (x.0@, x.1)));
        if found {
            let old_entry = e.remove(i);
            e.insert(i, (k, v));
            let ghost s1 = e@.map_values(|x: (AssetRef, Asset)| (x.0@, x.1));
            proof {
                assert(s1 =~= s0.update(i as int, (k@, v)));
                lemma_update_lookup(s0, i as int, v);
                lemma_lookup_at(s0, i as int);
            }
            self.entries = e;
            Some(old_entry.1)
        } else {
            e.insert(i, (k, v));
            let ghost s1 = e@.map_values(|x: (AssetRef, Asset)| (x.0@, x.1));
            proof {
                assert(s1 =~= s0.insert(i as int, (k@, v)));
                lemma_insert_lookup(s0, i as int, k@, v);
            }
            self.entries = e;
            None
        }
    }

    /// Replaces the tags of the asset at index `i` of the ordered entries.
    pub fn set_tags(&mut self, i: usize, tags: Vec<String>)
        requires
            i < old(self)@.len(),
        ensures
            final(self)@.len() == old(self)@.len(),
            forall|j: int| 0 <= j < old(self)@.len() && j != i ==> #[trigger] final(self)@[j] == old(self)@[j],
            final(self)@[i as int].0 == old(self)@[i as int].0,
            final(self)@[i as int].1.asset_ref == old(self)@[i as int].1.asset_ref,
            final(self)@[i as int].1.source == old(self)@[i as int].1.source,
            final(self)@[i as int].1.metadata == (AssetMetadata { tags, ..old(self)@[i as int].1.metadata }),
    {
        proof {
            use_type_invariant(&*self);
        }
        let ghost s0 = self@;
        let mut e: Vec<(AssetRef, Asset)> = Vec::new();
        std::mem::swap(&mut e, &mut self.entries);
        let (name, mut asset) = e.remove(i);
        asset.metadata.tags = tags;
        e.insert(i, (name, asset));
        proof {
            let s1 = e@.map_values(|x: (AssetRef, Asset)| (x.0@, x.1));
            assert(s1 =~= s0.update(i as int, (s0[i as int].0, s1[i as int].1)));
            assert forall|a: int, b: int| 0 <= a < b < s1.len() implies text_lt(#[trigger] s1[a].0, #[trigger] s1[b].0) by {
                assert(s1[a].0 == s0[a].0 && s1[b].0 == s0[b].0);
            }
        }
        self.entries = e;
    }
}

/// Replacing the asset at index `i` keeps every key and changes only what `i`'s key finds.
pub proof fn lemma_update_lookup(s: Seq<(Seq<char>, Asset)>, i: int, v: Asset)
    requires
        keys_increasing(s),
        0 <= i < s.len(),
    ensures
        keys_increasing(s.update(i, (s[i].0, v))),
        lookup(s.update(i, (s[i].0, v)), s[i].0) == Some(v),
        forall|k2: Seq<char>| k2 != s[i].0 ==> lookup(#[trigger] s.update(i, (s[i].0, v)), k2) == lookup(s, k2),
        has_key(s, s[i].0),
{
    let t = s.update(i, (s[i].0, v));
    assert forall|a: int, b: int| 0 <= a < b < t.len() implies text_lt(#[trigger] t[a].0, #[trigger] t[b].0) by {
        assert(t[a].0 == s[a].0 && t[b].0 == s[b].0);
    }
    lemma_lookup_at(t, i);
    assert(has_key(s, s[i].0));
    assert forall|k2: Seq<char>| k2 != s[i].0 implies lookup(#[trigger] s.update(i, (s[i].0, v)), k2) == lookup(s, k2) by {
        if has_key(s, k2) {
            let j = key_index(s, k2);
            assert(j != i);
            assert(t[j] == s[j]);
            lemma_lookup_at(s, j);
            lemma_lookup_at(t, j);
        } else {
            assert forall|j: int| 0 <= j < t.len() implies #[trigger] t[j].0 != k2 by {
                if j != i {
                    assert(t[j] == s[j]);
                }
            }
        }
    }
}

/// Inserting a new key where it keeps the keys increasing adds exactly that key.
pub proof fn lemma_insert_lookup(s: Seq<(Seq<char>, Asset)>, i: int, k: Seq<char>, v: Asset)
    requires
        keys_increasing(s),
        0 <= i <= s.len(),
        !has_key(s, k),
        forall|j: int| 0 <= j < i ==> text_lt(#[trigger] s[j].0, k),
        forall|j: int| i <= j < s.len() ==> !text_lt(#[trigger] s[j].0, k),
    ensures
        keys_increasing(s.insert(i, (k, v))),
        lookup(s.insert(i, (k, v)), k) == Some(v),
        forall|k2: Seq<char>| k2 != k ==> lookup(#[trigger] s.insert(i, (k, v)), k2) == lookup(s, k2),
{
    let t = s.insert(i, (k, v));
    assert forall|j: int| i <= j < s.len() implies text_lt(k, #[trigger] s[j].0) by {
        assert(s[j].0 != k);
        lemma_text_lt_total(s[j].0, k);
    }
    assert forall|a: int, b: int| 0 <= a < b < t.len() implies text_lt(#[trigger] t[a].0, #[trigger] t[b].0) by {
        if b < i {
            assert(t[a] == s[a] && t[b] == s[b]);
        } else if b == i {
            assert(t[a] == s[a]);
        } else if a == i {
            assert(t[b] == s[b - 1]);
        } else if a < i {
            assert(t[a] == s[a] && t[b] == s[b - 1]);
            lemma_text_lt_transitive(s[a].0, k, s[b - 1].0);
        } else {
            assert(t[a] == s[a - 1] && t[b] == s[b - 1]);
        }
    }
    lemma_lookup_at(t, i);
    assert forall|k2: Seq<char>| k2 != k implies lookup(#[trigger] s.insert(i, (k, v)), k2) == lookup(s, k2) by {
        if has_key(s, k2) {
            let j = key_index(s, k2);
            lemma_lookup_at(s, j);
            if j < i {
                assert(t[j] == s[j]);
                lemma_lookup_at(t, j);
            } else {
                assert(t[j + 1] == s[j]);
                lemma_lookup_at(t, j + 1);
            }
        } else {
            assert forall|j: int| 0 <= j < t.len() implies #[trigger] t[j].0 != k2 by {
                if j < i {
                    assert(t[j] == s[j]);
                } else if j > i {
                    assert(t[j] == s[j - 1]);
                }
            }
        }
    }
}

} // verus!
