//! Effect parameters: string-keyed maps kept as ordered entry lists.
//!
//! A `ParamMap` is one effect's parameter object (keys to JSON value text); an
//! `EffectParams` keeps one `ParamMap` per effect id. Both hold each key at most once.
use vstd::prelude::*;
use crate::text::str_equal;

verus! {

/// The map that an entry list denotes: a later entry wins over an earlier one with the same key.
pub open spec fn assoc_map<V>(s: Seq<(String, V)>) -> Map<Seq<char>, V>
    decreases s.len(),
{
    if s.len() == 0 {
        Map::empty()
    } else {
        assoc_map(s.drop_last()).insert(s.last().0@, s.last().1)
    }
}

/// No key occurs twice.
pub open spec fn keys_unique<V>(s: Seq<(String, V)>) -> bool {
    forall|i: int, j: int| 0 <= i < j < s.len() ==> s[i].0@ != s[j].0@
}

/// The index of the entry with key `k`, or -1.
pub open spec fn key_index<V>(s: Seq<(String, V)>, k: Seq<char>) -> int
    decreases s.len(),
{
    if s.len() == 0 {
        -1
    } else if s.last().0@ == k {
        s.len() - 1
    } else {
        key_index(s.drop_last(), k)
    }
}

pub proof fn lemma_key_index<V>(s: Seq<(String, V)>, k: Seq<char>)
    ensures
        -1 <= key_index(s, k) < s.len(),
        key_index(s, k) >= 0 ==> s[key_index(s, k)].0@ == k,
        key_index(s, k) >= 0 <==> exists|i: int| 0 <= i < s.len() && #[trigger] s[i].0@ == k,
        assoc_map(s).contains_key(k) <==> key_index(s, k) >= 0,
        key_index(s, k) >= 0 ==> assoc_map(s)[k] == s[key_index(s, k)].1,
    decreases s.len(),
{
    if s.len() > 0 {
        let t = s.drop_last();
        lemma_key_index(t, k);
        if s.last().0@ != k {
            assert forall|i: int| 0 <= i < s.len() && #[trigger] s[i].0@ == k implies 0 <= i < t.len() && t[i].0@ == k by {
                if i == s.len() - 1 {
                    assert(s[i] == s.last());
                } else {
                    assert(t[i] == s[i]);
                }
            }
            if key_index(t, k) >= 0 {
                let w = choose|i: int| 0 <= i < t.len() && #[trigger] t[i].0@ == k;
                assert(s[w] == t[w]);
            }
        } else {
            assert(s[s.len() - 1] == s.last());
        }
    }
}

/// With unique keys, the entry at `i` is what the map holds for its key.
pub proof fn lemma_unique_lookup<V>(s: Seq<(String, V)>, i: int)
    requires
        keys_unique(s),
        0 <= i < s.len(),
    ensures
        key_index(s, s[i].0@) == i,
        assoc_map(s).contains_key(s[i].0@),
        assoc_map(s)[s[i].0@] == s[i].1,
    decreases s.len(),
{
    lemma_key_index(s, s[i].0@);
    if i < s.len() - 1 {
        let t = s.drop_last();
        assert(t[i] == s[i]);
        assert(keys_unique(t)) by {
            assert forall|a: int, b: int| 0 <= a < b < t.len() implies t[a].0@ != t[b].0@ by {
                assert(t[a] == s[a] && t[b] == s[b]);
            }
        }
        lemma_unique_lookup(t, i);
        assert(s.last() == s[s.len() - 1]);
    }
}

/// Replacing the value of entry `i` replaces what the map holds for its key.
pub proof fn lemma_assoc_update<V>(s: Seq<(String, V)>, i: int, v: V)
    requires
        keys_unique(s),
        0 <= i < s.len(),
    ensures
        keys_unique(s.update(i, (s[i].0, v))),
        assoc_map(s.update(i, (s[i].0, v))) == assoc_map(s).insert(s[i].0@, v),
    decreases s.len(),
{
    let u = s.update(i, (s[i].0, v));
    assert(keys_unique(u)) by {
        assert forall|a: int, b: int| 0 <= a < b < u.len() implies u[a].0@ != u[b].0@ by {
            assert(u[a].0 == s[a].0 && u[b].0 == s[b].0);
        }
    }
    let t = s.drop_last();
    if i == s.len() - 1 {
        assert(u.drop_last() =~= t);
        assert(assoc_map(u) =~= assoc_map(s).insert(s[i].0@, v));
    } else {
        assert(keys_unique(t)) by {
            assert forall|a: int, b: int| 0 <= a < b < t.len() implies t[a].0@ != t[b].0@ by {
                assert(t[a] == s[a] && t[b] == s[b]);
            }
        }
        assert(t[i] == s[i]);
        lemma_assoc_update(t, i, v);
        assert(u.drop_last() =~= t.update(i, (t[i].0, v)));
        assert(u.last() == s.last());
        assert(s.last() == s[s.len() - 1]);
        assert(s.last().0@ != s[i].0@);
        assert(assoc_map(u) =~= assoc_map(s).insert(s[i].0@, v));
    }
}

/// Appending an entry with a new key keeps the keys unique.
pub proof fn lemma_push_unique<V>(s: Seq<(String, V)>, k: String, v: V)
    requires
        keys_unique(s),
        forall|i: int| 0 <= i < s.len() ==> #[trigger] s[i].0@ != k@,
    ensures
        keys_unique(s.push((k, v))),
        assoc_map(s.push((k, v))) == assoc_map(s).insert(k@, v),
{
    let u = s.push((k, v));
    assert(u.drop_last() =~= s);
    assert forall|a: int, b: int| 0 <= a < b < u.len() implies u[a].0@ != u[b].0@ by {
        assert(u[a] == s[a]);
        if b < s.len() {
            assert(u[b] == s[b]);
        }
    }
}

/// Finds the entry with key `k`, searching from the end.
fn find_key<V>(entries: &Vec<(String, V)>, k: &str) -> (r: Option<usize>)
    ensures
        match r {
            Some(i) => i as int == key_index(entries@, k@),
            None => key_index(entries@, k@) == -1,
        },
{
    proof {
        lemma_key_index(entries@, k@);
    }
    let mut i = entries.len();
    while i > 0
        invariant
            i <= entries@.len(),
            forall|j: int| i <= j < entries@.len() ==> #[trigger] entries@[j].0@ != k@,
        decreases i,
    {
        if str_equal(entries[i - 1].0.as_str(), k) {
            proof {
                lemma_key_index_last_match(entries@, k@, (i - 1) as int);
            }
            return Some(i - 1);
        }
        i = i - 1;
    }
    proof {
        lemma_key_index(entries@, k@);
        if key_index(entries@, k@) >= 0 {
            assert(entries@[key_index(entries@, k@)].0@ == k@);
        }
    }
    None
}

/// The last entry with key `k` is the one `key_index` finds.
pub proof fn lemma_key_index_last_match<V>(s: Seq<(String, V)>, k: Seq<char>, i: int)
    requires
        0 <= i < s.len(),
        s[i].0@ == k,
        forall|j: int| i < j < s.len() ==> #[trigger] s[j].0@ != k,
    ensures
        key_index(s, k) == i,
    decreases s.len(),
{
    if i < s.len() - 1 {
        let t = s.drop_last();
        assert(s.last() == s[s.len() - 1]);
        assert forall|j: int| i < j < t.len() implies #[trigger] t[j].0@ != k by {
            assert(t[j] == s[j]);
        }
        assert(t[i] == s[i]);
        lemma_key_index_last_match(t, k, i);
    } else {
        assert(s.last() == s[i]);
    }
}

/// One effect's parameters: keys to JSON value text.
#[derive(Debug)]
pub struct ParamMap {
    pub entries: Vec<(String, String)>,
}

impl View for ParamMap {
    type V = Map<Seq<char>, String>;

    open spec fn view(&self) -> Map<Seq<char>, String> {
        assoc_map(self.entries@)
    }
}

impl ParamMap {
    /// Each key occurs once.
    pub open spec fn wf(&self) -> bool {
        keys_unique(self.entries@)
    }

    /// An empty parameter object.
    pub fn new() -> (r: ParamMap)
        ensures
            r.wf(),
            r@ == Map::<Seq<char>, String>::empty(),
            r.entries@.len() == 0,
    {
        ParamMap { entries: Vec::new() }
    }

    /// The value stored under `key`.
    pub fn get(&self, key: &str) -> (r: Option<&String>)
        ensures
            match r {
                Some(v) => self@.contains_key(key@) && *v == self@[key@],
                None => !self@.contains_key(key@),
            },
    {
        proof {
            lemma_key_index(self.entries@, key@);
        }
        match find_key(&self.entries, key) {
            Some(i) => Some(&self.entries[i].1),
            None => None,
        }
    }

    /// Stores `value` under `key`, replacing what was there.
    pub fn insert(&mut self, key: String, value: String)
        requires
            old(self).wf(),
        ensures
            final(self).wf(),
            final(self)@ == old(self)@.insert(key@, value),
    {
        proof {
            lemma_key_index(self.entries@, key@);
        }
        match find_key(&self.entries, key.as_str()) {
            Some(i) => {
                proof {
                    lemma_assoc_update(self.entries@, i as int, value);
                }
                let k = self.entries[i].0.clone();
                self.entries.set(i, (k, value));
            },
            None => {
                proof {
                    assert forall|j: int| 0 <= j < self.entries@.len() implies #[trigger] self.entries@[j].0@ != key@ by {
                        if self.entries@[j].0@ == key@ {
                            lemma_key_index(self.entries@, key@);
                        }
                    }
                    lemma_push_unique(self.entries@, key, value);
                }
                self.entries.push((key, value));
            },
        }
    }

    /// Overwrites this object's keys with those of `other`, keeping the rest.
    pub fn merge(&mut self, other: &ParamMap)
        requires
            old(self).wf(),
        ensures
            final(self).wf(),
            final(self)@ == old(self)@.union_prefer_right(other@),
    {
        let ghost start = self@;
        let mut i: usize = 0;
        while i < other.entries.len()
            invariant
                self.wf(),
                i <= other.entries@.len(),
                self@ == start.union_prefer_right(assoc_map(other.entries@.take(i as int))),
            decreases other.entries.len() - i,
        {
            let k = other.entries[i].0.clone();
            let v = other.entries[i].1.clone();
            self.insert(k, v);
            proof {
                let s = other.entries@.take(i as int + 1);
                assert(s.drop_last() =~= other.entries@.take(i as int));
                assert(s.last() == other.entries@[i as int]);
                assert(self@ =~= start.union_prefer_right(assoc_map(s)));
            }
            i = i + 1;
        }
        proof {
            assert(other.entries@.take(i as int) =~= other.entries@);
        }
    }

    /// A copy with the same entries.
    pub fn duplicate(&self) -> (r: ParamMap)
        ensures
            r.entries@ == self.entries@,
            r@ == self@,
    {
        let mut entries: Vec<(String, String)> = Vec::new();
        let mut i: usize = 0;
        while i < self.entries.len()
            invariant
                i <= self.entries@.len(),
                entries@ == self.entries@.take(i as int),
            decreases self.entries.len() - i,
        {
            let k = self.entries[i].0.clone();
            let v = self.entries[i].1.clone();
            entries.push((k, v));
            proof {
                assert(entries@ =~= self.entries@.take(i as int + 1));
            }
            i = i + 1;
        }
        proof {
            assert(self.entries@.take(i as int) =~= self.entries@);
        }
        ParamMap { entries }
    }
}

/// The kind of control an effect parameter is set with.
#[derive(Clone, Copy, Debug, PartialEq, Eq, Structural)]
pub enum EffectParamKind {
    Slider,
}

/// Parameters stored per effect id.
#[derive(Debug)]
pub struct EffectParams {
    pub entries: Vec<(String, ParamMap)>,
}

/// The entries of a parameter object.
pub open spec fn param_entries(p: ParamMap) -> Seq<(String, String)> {
    p.entries@
}

impl View for EffectParams {
    type V = Map<Seq<char>, Seq<(String, String)>>;

    open spec fn view(&self) -> Map<Seq<char>, Seq<(String, String)>> {
        assoc_map(self.entries@).map_values(|p: ParamMap| param_entries(p))
    }
}

impl EffectParams {
    /// Each effect id occurs once, and each parameter object is well formed.
    pub open spec fn wf(&self) -> bool {
        &&& keys_unique(self.entries@)
        &&& forall|i: int| 0 <= i < self.entries@.len() ==> (#[trigger] self.entries@[i]).1.wf()
    }

    /// No parameters stored.
    pub fn new() -> (r: EffectParams)
        ensures
            r.wf(),
            r@ == Map::<Seq<char>, Seq<(String, String)>>::empty(),
    {
        let r = EffectParams { entries: Vec::new() };
        assert(r@ =~= Map::<Seq<char>, Seq<(String, String)>>::empty());
        r
    }

    /// Whether parameters are stored for `effect_id`.
    pub fn contains_key(&self, effect_id: &str) -> (b: bool)
        ensures
            b == self@.contains_key(effect_id@),
    {
        proof {
            lemma_key_index(self.entries@, effect_id@);
        }
        find_key(&self.entries, effect_id).is_some()
    }

    /// The parameters stored for `effect_id`.
    pub fn get(&self, effect_id: &str) -> (r: Option<&ParamMap>)
        requires
            self.wf(),
        ensures
            match r {
                Some(p) => self@.contains_key(effect_id@) && p.entries@ == self@[effect_id@] && p.wf(),
                None => !self@.contains_key(effect_id@),
            },
    {
        proof {
            lemma_key_index(self.entries@, effect_id@);
        }
        match find_key(&self.entries, effect_id) {
            Some(i) => Some(&self.entries[i].1),
            None => None,
        }
    }

    /// Stores `params` for `effect_id`, replacing what was there.
    pub fn insert(&mut self, effect_id: String, params: ParamMap)
        requires
            old(self).wf(),
            params.wf(),
        ensures
            final(self).wf(),
            final(self)@ == old(self)@.insert(effect_id@, params.entries@),
    {
        proof {
            lemma_key_index(self.entries@, effect_id@);
        }
        let ghost before = self.entries@;
        let ghost pe = params.entries@;
        match find_key(&self.entries, effect_id.as_str()) {
            Some(i) => {
                proof {
                    lemma_assoc_update(self.entries@, i as int, params);
                }
                let k = self.entries[i].0.clone();
                self.entries.set(i, (k, params));
                proof {
                    assert forall|j: int| 0 <= j < self.entries@.len() implies (#[trigger] self.entries@[j]).1.wf() by {
                        if j != i {
                            assert(self.entries@[j] == before[j]);
                        }
                    }
                }
            },
            None => {
                proof {
                    assert forall|j: int| 0 <= j < self.entries@.len() implies #[trigger] self.entries@[j].0@ != effect_id@ by {
                        if self.entries@[j].0@ == effect_id@ {
                            lemma_key_index(self.entries@, effect_id@);
                        }
                    }
                    lemma_push_unique(self.entries@, effect_id, params);
                }
                self.entries.push((effect_id, params));
                proof {
                    assert forall|j: int| 0 <= j < self.entries@.len() implies (#[trigger] self.entries@[j]).1.wf() by {
                        if j < before.len() {
                            assert(self.entries@[j] == before[j]);
                        }
                    }
                }
            },
        }
        proof {
            assert(self@ =~= assoc_map(before).map_values(|p: ParamMap| param_entries(p)).insert(effect_id@, pe));
        }
    }

    /// Merges `params` into what is stored for `effect_id`, which must be present.
    pub fn merge_into(&mut self, effect_id: &str, params: &ParamMap)
        requires
            old(self).wf(),
            old(self)@.contains_key(effect_id@),
        ensures
            final(self).wf(),
            final(self)@.dom() == old(self)@.dom(),
            forall|k: Seq<char>| k != effect_id@ ==> #[trigger] final(self)@.get(k) == old(self)@.get(k),
            assoc_map(final(self)@[effect_id@]) == assoc_map(old(self)@[effect_id@]).union_prefer_right(params@),
            keys_unique(final(self)@[effect_id@]),
    {
        proof {
            lemma_key_index(self.entries@, effect_id@);
        }
        let i = find_key(&self.entries, effect_id).unwrap();
        let mut p = self.entries[i].1.duplicate();
        assert(p.wf()) by {
            assert(self.entries@[i as int].1.wf());
        }
        p.merge(params);
        let k = self.entries[i].0.clone();
        let ghost pe = p.entries@;
        self.insert(k, p);
        proof {
            assert(final(self)@.dom() =~= old(self)@.dom());
        }
    }

    /// A copy with the same entries.
    pub fn duplicate(&self) -> (r: EffectParams)
        requires
            self.wf(),
        ensures
            r.wf(),
            r@ == self@,
    {
        let mut entries: Vec<(String, ParamMap)> = Vec::new();
        let mut i: usize = 0;
        while i < self.entries.len()
            invariant
                self.wf(),
                i <= self.entries@.len(),
                entries@.len() == i,
                forall|j: int| 0 <= j < i ==> (#[trigger] entries@[j]).0 == self.entries@[j].0
                    && entries@[j].1.entries@ == self.entries@[j].1.entries@,
            decreases self.entries.len() - i,
        {
            let k = self.entries[i].0.clone();
            let v = self.entries[i].1.duplicate();
            entries.push((k, v));
            i = i + 1;
        }
        let r = EffectParams { entries };
        proof {
            assert(keys_unique(r.entries@)) by {
                assert forall|a: int, b: int| 0 <= a < b < r.entries@.len() implies r.entries@[a].0@ != r.entries@[b].0@ by {
                    assert(r.entries@[a].0 == self.entries@[a].0);
                    assert(r.entries@[b].0 == self.entries@[b].0);
                }
            }
            assert forall|j: int| 0 <= j < r.entries@.len() implies (#[trigger] r.entries@[j]).1.wf() by {
                assert(self.entries@[j].1.wf());
            }
            lemma_assoc_same_keys(r.entries@, self.entries@);
            assert(r@ =~= self@);
        }
        r
    }
}

/// Two entry lists with the same keys in order and values with equal entries denote
/// maps with the same keys and values with equal entries at each key.
pub proof fn lemma_assoc_same_keys(a: Seq<(String, ParamMap)>, b: Seq<(String, ParamMap)>)
    requires
        a.len() == b.len(),
        forall|j: int| 0 <= j < a.len() ==> (#[trigger] a[j]).0@ == b[j].0@ && a[j].1.entries@ == b[j].1.entries@,
    ensures
        assoc_map(a).dom() == assoc_map(b).dom(),
        forall|k: Seq<char>| #[trigger] assoc_map(a).contains_key(k) ==> assoc_map(a)[k].entries@ == assoc_map(b)[k].entries@,
{
    assert forall|k: Seq<char>| #[trigger] assoc_map(a).contains_key(k) == assoc_map(b).contains_key(k)
        && (assoc_map(a).contains_key(k) ==> assoc_map(a)[k].entries@ == assoc_map(b)[k].entries@) by {
        lemma_same_key_index(a, b, k);
        lemma_key_index(a, k);
        lemma_key_index(b, k);
    }
    assert(assoc_map(a).dom() =~= assoc_map(b).dom());
}

proof fn lemma_same_key_index<V, W>(a: Seq<(String, V)>, b: Seq<(String, W)>, k: Seq<char>)
    requires
        a.len() == b.len(),
        forall|j: int| 0 <= j < a.len() ==> (#[trigger] a[j]).0@ == b[j].0@,
    ensures
        key_index(a, k) == key_index(b, k),
    decreases a.len(),
{
    if a.len() > 0 {
        assert(a.last() == a[a.len() - 1] && b.last() == b[b.len() - 1]);
        let ta = a.drop_last();
        let tb = b.drop_last();
        assert forall|j: int| 0 <= j < ta.len() implies (#[trigger] ta[j]).0@ == tb[j].0@ by {
            assert(ta[j] == a[j] && tb[j] == b[j]);
        }
        lemma_same_key_index(ta, tb, k);
    }
}

/// The default parameters of one effect.
#[derive(Debug)]
pub struct EffectDefaults {
    pub id: String,
    pub params: ParamMap,
}

/// The registered effects with their default parameters, in registration order.
#[derive(Debug)]
pub struct EffectCatalog {
    pub effects: Vec<EffectDefaults>,
}

/// The index of the first registered effect with id `id`, or -1.
pub open spec fn catalog_index(effects: Seq<EffectDefaults>, id: Seq<char>) -> int
    decreases effects.len(),
{
    if effects.len() == 0 {
        -1
    } else if effects[0].id@ == id {
        0
    } else {
        let r = catalog_index(effects.drop_first(), id);
        if r < 0 { -1 } else { r + 1 }
    }
}

impl EffectCatalog {
    /// Every default parameter object is well formed.
    pub open spec fn wf(&self) -> bool {
        forall|i: int| 0 <= i < self.effects@.len() ==> (#[trigger] self.effects@[i]).params.wf()
    }

    /// The default parameters of the first registered effect with this id.
    pub open spec fn defaults(&self, id: Seq<char>) -> Option<ParamMap> {
        let i = catalog_index(self.effects@, id);
        if i < 0 { None } else { Some(self.effects@[i].params) }
    }
}

pub proof fn lemma_catalog_index(effects: Seq<EffectDefaults>, id: Seq<char>)
    ensures
        -1 <= catalog_index(effects, id) < effects.len(),
        catalog_index(effects, id) >= 0 ==> effects[catalog_index(effects, id)].id@ == id,
        forall|j: int| 0 <= j < effects.len() && (catalog_index(effects, id) < 0 || j < catalog_index(effects, id))
            ==> #[trigger] effects[j].id@ != id,
    decreases effects.len(),
{
    if effects.len() > 0 && effects[0].id@ != id {
        let t = effects.drop_first();
        lemma_catalog_index(t, id);
        assert forall|j: int| 0 <= j < effects.len() && (catalog_index(effects, id) < 0 || j < catalog_index(effects, id))
            implies #[trigger] effects[j].id@ != id by {
            if j > 0 {
                assert(effects[j] == t[j - 1]);
            }
        }
        if catalog_index(t, id) >= 0 {
            assert(effects[catalog_index(t, id) + 1] == t[catalog_index(t, id)]);
        }
    }
}

/// The default parameters of effect `id`, as registered.
pub fn default_params_for_effect(catalog: &EffectCatalog, id: &str) -> (r: Option<ParamMap>)
    requires
        catalog.wf(),
    ensures
        match (r, catalog.defaults(id@)) {
            (Some(p), Some(d)) => p.entries@ == d.entries@ && p@ == d@ && p.wf(),
            (None, None) => true,
            _ => false,
        },
{
    proof {
        lemma_catalog_index(catalog.effects@, id@);
    }
    let mut i: usize = 0;
    while i < catalog.effects.len()
        invariant
            catalog.wf(),
            i <= catalog.effects@.len(),
            forall|j: int| 0 <= j < i ==> #[trigger] catalog.effects@[j].id@ != id@,
        decreases catalog.effects.len() - i,
    {
        if str_equal(catalog.effects[i].id.as_str(), id) {
            proof {
                lemma_catalog_index(catalog.effects@, id@);
                let c = catalog_index(catalog.effects@, id@);
                if c < 0 || c > i {
                    assert(catalog.effects@[i as int].id@ != id@);
                }
                assert(catalog.effects@[i as int].params.wf());
            }
            return Some(catalog.effects[i].params.duplicate());
        }
        i = i + 1;
    }
    proof {
        lemma_catalog_index(catalog.effects@, id@);
        let c = catalog_index(catalog.effects@, id@);
        if c >= 0 {
            assert(catalog.effects@[c].id@ == id@);
        }
    }
    None
}

} // verus!
