//! The recipe cache: recipes keyed by section hash, written next to the
//! document as `<doc>.world.json` (the file itself is read and written by
//! the application).
//!
//! Lockfile semantics: the key is the hash of the section's heading + body,
//! so an unchanged section is never regenerated, editing one section
//! invalidates only its own entry, and entries for sections no longer in
//! the document are pruned on save. Everything that enters the store is
//! clamped.

use vstd::prelude::*;

use crate::doc::{Doc, DocView};
use crate::hash::SectionHash;
use crate::recipe::{
    clamp_bits, clamped_recipe, is_finite_bits, order_key, RegionRecipe, HALF_BITS, ONE_BITS,
    TWO_AND_A_HALF_BITS, ZERO_BITS,
};
use crate::text::{str_eq, string_of};

verus! {

/// The sidecar schema version; loaders reject other versions rather than
/// guessing.
pub const SIDECAR_VERSION: u32 = 1;

/// A hex digit, lower case.
pub open spec fn hex_digit(d: int) -> char {
    if d < 10 {
        ((d + 48) as u32) as char
    } else {
        ((d + 87) as u32) as char
    }
}

/// Bytes in lower-case hex, two digits each (`blake3::Hash::to_hex`).
pub open spec fn hex_of(b: Seq<u8>) -> Seq<char>
    decreases b.len(),
{
    if b.len() == 0 {
        seq![]
    } else {
        hex_of(b.drop_last()) + seq![hex_digit((b.last() / 16) as int), hex_digit((b.last() % 16) as int)]
    }
}

fn hex_char(d: u8) -> (c: char)
    requires
        d < 16,
    ensures
        c == hex_digit(d as int),
{
    if d < 10 {
        (d + 48) as char
    } else {
        (d + 87) as char
    }
}

/// The cache key of a section hash: its hex digest.
pub fn key(hash: &SectionHash) -> (k: String)
    ensures
        k@ == hex_of(hash@),
{
    let mut out: Vec<char> = Vec::new();
    let mut i: usize = 0;
    proof {
        assert(hash@.take(0) =~= Seq::<u8>::empty());
    }
    while i < 32
        invariant
            i <= 32,
            hash@.len() == 32,
            out@ == hex_of(hash@.take(i as int)),
        decreases 32 - i,
    {
        let b = hash.bytes[i];
        out.push(hex_char(b / 16));
        out.push(hex_char(b % 16));
        proof {
            assert(hash@.take(i + 1).drop_last() =~= hash@.take(i as int));
            assert(out@ =~= hex_of(hash@.take(i + 1)));
        }
        i = i + 1;
    }
    proof {
        assert(hash@.take(32) =~= hash@);
    }
    string_of(&out)
}

/// The map a list of keyed recipes describes, a later entry winning.
pub open spec fn entries_map(s: Seq<(String, RegionRecipe)>) -> Map<Seq<char>, RegionRecipe>
    decreases s.len(),
{
    if s.len() == 0 {
        Map::empty()
    } else {
        entries_map(s.drop_last()).insert(s.last().0@, s.last().1)
    }
}

/// No key occurs twice.
pub open spec fn distinct_entries(s: Seq<(String, RegionRecipe)>) -> bool {
    forall|i: int, j: int| 0 <= i < j < s.len() ==> s[i].0@ != s[j].0@
}

/// A recipe that clamping leaves as it is.
pub open spec fn is_clamped(r: RegionRecipe) -> bool {
    clamped_recipe(r) == r
}

proof fn lemma_entries_find(s: Seq<(String, RegionRecipe)>, k: Seq<char>)
    requires
        distinct_entries(s),
    ensures
        forall|i: int| 0 <= i < s.len() && s[i].0@ == k ==> entries_map(s).contains_key(k)
            && entries_map(s)[k] == s[i].1,
        (forall|i: int| 0 <= i < s.len() ==> s[i].0@ != k) ==> !entries_map(s).contains_key(k),
    decreases s.len(),
{
    if s.len() > 0 {
        lemma_entries_find(s.drop_last(), k);
        assert forall|i: int| 0 <= i < s.len() && s[i].0@ == k implies entries_map(
            s,
        ).contains_key(k) && entries_map(s)[k] == s[i].1 by {
            if i < s.len() - 1 {
                assert(s.drop_last()[i] == s[i]);
            }
        }
        if forall|i: int| 0 <= i < s.len() ==> s[i].0@ != k {
            assert forall|i: int| 0 <= i < s.drop_last().len() implies s.drop_last()[i].0@ != k by {
                assert(s.drop_last()[i] == s[i]);
            }
        }
    }
}

proof fn lemma_entries_update(s: Seq<(String, RegionRecipe)>, i: int, p: (String, RegionRecipe))
    requires
        distinct_entries(s),
        0 <= i < s.len(),
        s[i].0@ == p.0@,
    ensures
        entries_map(s.update(i, p)) =~= entries_map(s).insert(p.0@, p.1),
    decreases s.len(),
{
    let t = s.update(i, p);
    if i == s.len() - 1 {
        assert(t.drop_last() =~= s.drop_last());
    } else {
        assert(t.drop_last() =~= s.drop_last().update(i, p));
        lemma_entries_update(s.drop_last(), i, p);
    }
}

proof fn lemma_entries_len(s: Seq<(String, RegionRecipe)>)
    requires
        distinct_entries(s),
    ensures
        entries_map(s).dom().finite(),
        entries_map(s).dom().len() == s.len(),
    decreases s.len(),
{
    if s.len() > 0 {
        lemma_entries_len(s.drop_last());
        assert forall|i: int| 0 <= i < s.drop_last().len() implies s.drop_last()[i].0@
            != s.last().0@ by {
            assert(s.drop_last()[i] == s[i]);
        }
        lemma_entries_find(s.drop_last(), s.last().0@);
    }
}

proof fn lemma_clamp_bits_idempotent(v: u32, lo: u32, hi: u32)
    requires
        is_finite_bits(lo),
        is_finite_bits(hi),
        order_key(lo) <= order_key(hi),
    ensures
        clamp_bits(clamp_bits(v, lo, hi), lo, hi) == clamp_bits(v, lo, hi),
{
}

/// Clamping twice is clamping once.
pub proof fn lemma_clamped_idempotent(r: RegionRecipe)
    ensures
        is_clamped(clamped_recipe(r)),
{
    assert(order_key(ZERO_BITS) <= order_key(ONE_BITS));
    assert(order_key(HALF_BITS) <= order_key(TWO_AND_A_HALF_BITS));
    if let Some(c) = r.accent {
        lemma_clamp_bits_idempotent(c[0].bits, ZERO_BITS, ONE_BITS);
        lemma_clamp_bits_idempotent(c[1].bits, ZERO_BITS, ONE_BITS);
        lemma_clamp_bits_idempotent(c[2].bits, ZERO_BITS, ONE_BITS);
    }
    if let Some(c) = r.ground {
        lemma_clamp_bits_idempotent(c[0].bits, ZERO_BITS, ONE_BITS);
        lemma_clamp_bits_idempotent(c[1].bits, ZERO_BITS, ONE_BITS);
        lemma_clamp_bits_idempotent(c[2].bits, ZERO_BITS, ONE_BITS);
    }
    if let Some(l) = r.landmark {
        lemma_clamp_bits_idempotent(l.scale.bits, HALF_BITS, TWO_AND_A_HALF_BITS);
        lemma_clamp_bits_idempotent(l.emissive.bits, ZERO_BITS, ONE_BITS);
    }
    let c = clamped_recipe(r);
    assert(clamped_recipe(c) =~= c);
}

/// Recipes for a document, keyed by section-hash hex, with the sidecar path
/// they belong to (empty for a store with no file behind it).
#[derive(Debug)]
pub struct RecipeStore {
    path: String,
    recipes: Vec<(String, RegionRecipe)>,
}

impl View for RecipeStore {
    type V = Map<Seq<char>, RegionRecipe>;

    closed spec fn view(&self) -> Map<Seq<char>, RegionRecipe> {
        entries_map(self.recipes@)
    }
}

impl RecipeStore {
    /// Each key once, and every recipe already clamped.
    pub closed spec fn wf(&self) -> bool {
        &&& distinct_entries(self.recipes@)
        &&& forall|i: int| 0 <= i < self.recipes@.len() ==> is_clamped(#[trigger] self.recipes@[i].1)
    }

    /// The sidecar file the store belongs to.
    pub closed spec fn spec_path(&self) -> Seq<char> {
        self.path@
    }

    /// Every cached recipe is clamped.
    pub proof fn lemma_all_clamped(&self, k: Seq<char>)
        requires
            self.wf(),
            self@.contains_key(k),
        ensures
            is_clamped(self@[k]),
    {
        lemma_entries_find(self.recipes@, k);
        if forall|i: int| 0 <= i < self.recipes@.len() ==> self.recipes@[i].0@ != k {
        } else {
            let i = choose|i: int| 0 <= i < self.recipes@.len() && self.recipes@[i].0@ == k;
            assert(is_clamped(self.recipes@[i].1));
        }
    }

    /// An empty store belonging to the sidecar at `path`.
    pub fn with_path(path: String) -> (s: RecipeStore)
        ensures
            s.wf(),
            s@ == Map::<Seq<char>, RegionRecipe>::empty(),
            s.spec_path() == path@,
    {
        let s = RecipeStore { path, recipes: Vec::new() };
        assert(s@ =~= Map::<Seq<char>, RegionRecipe>::empty());
        s
    }

    /// An empty store with no file behind it.
    pub fn in_memory() -> (s: RecipeStore)
        ensures
            s.wf(),
            s@ == Map::<Seq<char>, RegionRecipe>::empty(),
            s.spec_path().len() == 0,
    {
        RecipeStore::with_path(String::new())
    }

    /// The sidecar path (empty for an in-memory store).
    pub fn path(&self) -> (p: &str)
        ensures
            p@ == self.spec_path(),
    {
        self.path.as_str()
    }

    /// Cache `recipe` under `key`, clamped.
    pub fn insert_key(&mut self, key: String, recipe: RegionRecipe)
        requires
            old(self).wf(),
        ensures
            final(self).wf(),
            final(self)@ == old(self)@.insert(key@, clamped_recipe(recipe)),
            final(self).spec_path() == old(self).spec_path(),
    {
        let clamped = recipe.clamped();
        proof {
            lemma_clamped_idempotent(recipe);
        }
        let found = self.position(key.as_str());
        let ghost before = self.recipes@;
        match found {
            Some(i) => {
                proof {
                    lemma_entries_update(before, i as int, (key, clamped));
                }
                self.recipes.set(i, (key, clamped));
                proof {
                    assert forall|a: int, b: int|
                        0 <= a < b < self.recipes@.len() implies self.recipes@[a].0@
                        != self.recipes@[b].0@ by {
                        assert(before[a].0@ != before[b].0@);
                    }
                }
            },
            None => {
                self.recipes.push((key, clamped));
                proof {
                    assert(self.recipes@.drop_last() =~= before);
                }
            },
        }
    }

    /// Where `key` sits among the entries.
    fn position(&self, key: &str) -> (r: Option<usize>)
        ensures
            r matches Some(i) ==> i < self.recipes@.len() && self.recipes@[i as int].0@ == key@,
            r is None ==> forall|k: int| 0 <= k < self.recipes@.len() ==> self.recipes@[k].0@ != key@,
    {
        let mut i: usize = 0;
        while i < self.recipes.len()
            invariant
                i <= self.recipes@.len(),
                forall|k: int| 0 <= k < i ==> self.recipes@[k].0@ != key@,
            decreases self.recipes.len() - i,
        {
            if str_eq(self.recipes[i].0.as_str(), key) {
                return Some(i);
            }
            i = i + 1;
        }
        None
    }

    /// Cache a recipe for a section, clamped — safe whatever the caller
    /// passes.
    pub fn insert(&mut self, hash: &SectionHash, recipe: RegionRecipe)
        requires
            old(self).wf(),
        ensures
            final(self).wf(),
            final(self)@ == old(self)@.insert(hex_of(hash@), clamped_recipe(recipe)),
            final(self).spec_path() == old(self).spec_path(),
    {
        let k = key(hash);
        self.insert_key(k, recipe);
    }

    /// The recipe cached under `key`, if any.
    pub fn get_key(&self, key: &str) -> (r: Option<&RegionRecipe>)
        requires
            self.wf(),
        ensures
            r matches Some(v) ==> self@.contains_key(key@) && self@[key@] == *v,
            r is None ==> !self@.contains_key(key@),
    {
        proof {
            lemma_entries_find(self.recipes@, key@);
        }
        let mut i: usize = 0;
        while i < self.recipes.len()
            invariant
                i <= self.recipes@.len(),
                self.wf(),
                forall|k: int| 0 <= k < i ==> self.recipes@[k].0@ != key@,
            decreases self.recipes.len() - i,
        {
            if str_eq(self.recipes[i].0.as_str(), key) {
                proof {
                    lemma_entries_find(self.recipes@, key@);
                }
                return Some(&self.recipes[i].1);
            }
            i = i + 1;
        }
        None
    }

    /// The recipe for a section, if authored (and still valid for its text).
    pub fn get(&self, hash: &SectionHash) -> (r: Option<&RegionRecipe>)
        requires
            self.wf(),
        ensures
            r matches Some(v) ==> self@.contains_key(hex_of(hash@)) && self@[hex_of(hash@)] == *v,
            r is None ==> !self@.contains_key(hex_of(hash@)),
    {
        let k = key(hash);
        self.get_key(k.as_str())
    }

    /// How many recipes are cached.
    pub fn len(&self) -> (n: usize)
        requires
            self.wf(),
        ensures
            self@.dom().finite(),
            n == self@.dom().len(),
    {
        proof {
            lemma_entries_len(self.recipes@);
        }
        self.recipes.len()
    }

    /// Nothing is cached.
    pub fn is_empty(&self) -> (e: bool)
        requires
            self.wf(),
        ensures
            e == (self@.dom().len() == 0),
    {
        self.len() == 0
    }

    /// The store a sidecar file holds: its entries clamped when the file is
    /// of the current version, nothing otherwise (a future or unknown
    /// version is rejected, not guessed).
    pub fn from_sidecar(path: String, version: u32, entries: Vec<(String, RegionRecipe)>) -> (s:
        RecipeStore)
        ensures
            s.wf(),
            s.spec_path() == path@,
            version != SIDECAR_VERSION ==> s@ == Map::<Seq<char>, RegionRecipe>::empty(),
            version == SIDECAR_VERSION ==> s@ == loaded_map(entries@),
    {
        let mut store = RecipeStore::with_path(path);
        if version != SIDECAR_VERSION {
            return store;
        }
        let mut i: usize = 0;
        proof {
            assert(entries@.take(0) =~= Seq::<(String, RegionRecipe)>::empty());
        }
        while i < entries.len()
            invariant
                i <= entries@.len(),
                store.wf(),
                store.spec_path() == path@,
                store@ == loaded_map(entries@.take(i as int)),
            decreases entries.len() - i,
        {
            let k = entries[i].0.clone();
            let r = entries[i].1;
            proof {
                assert(entries@.take(i + 1).drop_last() =~= entries@.take(i as int));
            }
            store.insert_key(k, r);
            i = i + 1;
        }
        proof {
            assert(entries@.take(entries@.len() as int) =~= entries@);
        }
        store
    }

    /// What the sidecar file should hold for `doc`: the recipes of the
    /// document's current sections only, pruned of every other entry.
    /// `None` for a store with no file behind it.
    pub fn sidecar_entries(&self, doc: &Doc) -> (r: Option<Vec<(String, RegionRecipe)>>)
        requires
            self.wf(),
        ensures
            r is None <==> self.spec_path().len() == 0,
            r matches Some(v) ==> distinct_entries(v@) && entries_map(v@) == self@.restrict(
                live_keys(doc@),
            ),
            r matches Some(v) ==> forall|a: int| 0 <= a < v@.len() ==> is_clamped(#[trigger] v@[a].1),
    {
        if self.path.as_str().is_empty() {
            return None;
        }
        let mut live: Vec<String> = Vec::new();
        let mut j: usize = 0;
        while j < doc.sections.len()
            invariant
                j <= doc.sections@.len(),
                live@.len() == j,
                forall|m: int| 0 <= m < j ==> #[trigger] live@[m]@ == hex_of(doc.sections@[m].hash@),
            decreases doc.sections.len() - j,
        {
            live.push(key(&doc.sections[j].hash));
            j = j + 1;
        }
        let mut out: Vec<(String, RegionRecipe)> = Vec::new();
        let mut i: usize = 0;
        proof {
            assert(self.recipes@.take(0) =~= Seq::<(String, RegionRecipe)>::empty());
            assert(entries_map(out@) =~= entries_map(self.recipes@.take(0)).restrict(
                live_keys(doc@),
            ));
        }
        while i < self.recipes.len()
            invariant
                i <= self.recipes@.len(),
                self.wf(),
                live@.len() == doc.sections@.len(),
                forall|m: int| 0 <= m < live@.len() ==> #[trigger] live@[m]@ == hex_of(
                    doc.sections@[m].hash@,
                ),
                distinct_entries(out@),
                forall|a: int| 0 <= a < out@.len() ==> is_clamped(#[trigger] out@[a].1),
                forall|a: int| 0 <= a < out@.len() ==> exists|b: int| 0 <= b < i && #[trigger] out@[a].0@ == self.recipes@[b].0@,
                entries_map(out@) == entries_map(self.recipes@.take(i as int)).restrict(
                    live_keys(doc@),
                ),
            decreases self.recipes.len() - i,
        {
            let mut found = false;
            let mut m: usize = 0;
            while m < live.len()
                invariant
                    m <= live@.len(),
                    i < self.recipes@.len(),
                    found == exists|x: int| 0 <= x < m && live@[x]@ == self.recipes@[i as int].0@,
                decreases live.len() - m,
            {
                if str_eq(live[m].as_str(), self.recipes[i].0.as_str()) {
                    found = true;
                }
                m = m + 1;
            }
            let ghost k = self.recipes@[i as int].0@;
            proof {
                assert(self.recipes@.take(i + 1).drop_last() =~= self.recipes@.take(i as int));
                lemma_live_keys(doc@, live@, k);
            }
            if found {
                let ghost before = out@;
                assert(is_clamped(self.recipes@[i as int].1));
                out.push((self.recipes[i].0.clone(), self.recipes[i].1));
                proof {
                    assert(out@.drop_last() =~= before);
                    assert forall|a: int, b: int| 0 <= a < b < out@.len() implies out@[a].0@ != out@[b].0@ by {
                        if b == out@.len() - 1 {
                            let c = choose|c: int| 0 <= c < i && #[trigger] before[a].0@ == self.recipes@[c].0@;
                            assert(self.recipes@[c].0@ != self.recipes@[i as int].0@);
                        }
                    }
                    assert forall|a: int| 0 <= a < out@.len() implies exists|b: int| 0 <= b < i + 1 && #[trigger] out@[a].0@ == self.recipes@[b].0@ by {
                        if a == out@.len() - 1 {
                            assert(out@[a].0@ == self.recipes@[i as int].0@);
                        } else {
                            let c = choose|c: int| 0 <= c < i && #[trigger] before[a].0@ == self.recipes@[c].0@;
                            assert(out@[a].0@ == self.recipes@[c].0@);
                        }
                    }
                    assert(entries_map(out@) =~= entries_map(self.recipes@.take(i + 1)).restrict(
                        live_keys(doc@),
                    ));
                }
            } else {
                proof {
                    assert forall|a: int| 0 <= a < out@.len() implies exists|b: int| 0 <= b < i + 1 && #[trigger] out@[a].0@ == self.recipes@[b].0@ by {
                        let c = choose|c: int| 0 <= c < i && #[trigger] out@[a].0@ == self.recipes@[c].0@;
                    }
                    assert(entries_map(out@) =~= entries_map(self.recipes@.take(i + 1)).restrict(
                        live_keys(doc@),
                    ));
                }
            }
            i = i + 1;
        }
        proof {
            assert(self.recipes@.take(self.recipes@.len() as int) =~= self.recipes@);
        }
        Some(out)
    }
}

/// The map a sidecar's entries load as: each recipe clamped, a later entry
/// winning.
pub open spec fn loaded_map(s: Seq<(String, RegionRecipe)>) -> Map<Seq<char>, RegionRecipe>
    decreases s.len(),
{
    if s.len() == 0 {
        Map::empty()
    } else {
        loaded_map(s.drop_last()).insert(s.last().0@, clamped_recipe(s.last().1))
    }
}

/// The cache keys of a document's current sections.
pub open spec fn live_keys(doc: DocView) -> Set<Seq<char>> {
    Set::new(|k: Seq<char>| exists|i: int| 0 <= i < doc.sections.len() && k == hex_of(doc.sections[i].hash))
}

proof fn lemma_live_keys(doc: DocView, live: Seq<String>, k: Seq<char>)
    requires
        live.len() == doc.sections.len(),
        forall|m: int| 0 <= m < live.len() ==> #[trigger] live[m]@ == hex_of(doc.sections[m].hash),
    ensures
        live_keys(doc).contains(k) == (exists|x: int| 0 <= x < live.len() && #[trigger] live[x]@ == k),
{
    if live_keys(doc).contains(k) {
        let i = choose|i: int| 0 <= i < doc.sections.len() && k == hex_of(doc.sections[i].hash);
        assert(live[i]@ == k);
    }
    if exists|x: int| 0 <= x < live.len() && #[trigger] live[x]@ == k {
        let x = choose|x: int| 0 <= x < live.len() && #[trigger] live[x]@ == k;
        assert(k == hex_of(doc.sections[x].hash));
    }
}

} // verus!
