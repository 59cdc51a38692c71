//! A map from keys to values where keys holding `*` are wildcard patterns.
use vstd::prelude::*;
use crate::text::chars_of;

verus! {

/// Whether the wildcard pattern `p` matches all of `t`: `?` matches exactly
/// one character, `*` any number of characters (none included), every other
/// character itself.
pub open spec fn glob_match(p: Seq<char>, t: Seq<char>) -> bool
    decreases p.len() + t.len(),
{
    if p.len() == 0 {
        t.len() == 0
    } else if p[0] == '*' {
        glob_match(p.skip(1), t) || (t.len() > 0 && glob_match(p, t.skip(1)))
    } else if t.len() == 0 {
        false
    } else if p[0] == '?' || p[0] == t[0] {
        glob_match(p.skip(1), t.skip(1))
    } else {
        false
    }
}

/// Calls `wildmatch::WildMatch::new(pattern).matches(text)`, which the crate
/// documents as matching the whole text, `?` standing for one character and
/// `*` for any number of them, with no escapes (`glob_match`).
#[verifier::external_body]
fn wild_matches(pattern: &str, text: &str) -> (r: bool)
    ensures
        r == glob_match(pattern@, text@),
{
    wildmatch::WildMatch::new(pattern).matches(text)
}

/// Keys without `*` are looked up exactly; keys with `*` are patterns tried in
/// insertion order after the exact keys.
#[derive(Debug)]
pub struct WildMap<T> {
    exact_items: Vec<(String, T)>,
    wild_items: Vec<(String, T)>,
}

/// The key's characters and the value of an entry.
pub open spec fn entry_view<T>(e: (String, T)) -> (Seq<char>, T) {
    (e.0@, e.1)
}

/// `i` is the first entry of `items` whose key is `key`.
pub open spec fn first_exact<T>(items: Seq<(Seq<char>, T)>, key: Seq<char>, i: int) -> bool {
    &&& 0 <= i < items.len()
    &&& items[i].0 == key
    &&& forall|j: int| 0 <= j < i ==> items[j].0 != key
}

/// `i` is the first entry of `items` whose pattern matches `key`.
pub open spec fn first_wild<T>(items: Seq<(Seq<char>, T)>, key: Seq<char>, i: int) -> bool {
    &&& 0 <= i < items.len()
    &&& glob_match(items[i].0, key)
    &&& forall|j: int| 0 <= j < i ==> !glob_match(items[j].0, key)
}

/// The entry `get` finds for `key`: the first exact entry with that key, else
/// the first wildcard entry whose pattern matches it.
pub open spec fn lookup<T>(
    exact: Seq<(Seq<char>, T)>,
    wild: Seq<(Seq<char>, T)>,
    key: Seq<char>,
) -> Option<(Seq<char>, T)> {
    if exists|i: int| first_exact(exact, key, i) {
        Some(exact[choose|i: int| first_exact(exact, key, i)])
    } else if exists|i: int| first_wild(wild, key, i) {
        Some(wild[choose|i: int| first_wild(wild, key, i)])
    } else {
        None
    }
}

/// The key is a wildcard pattern: it holds `*`.
pub open spec fn is_wild_key(k: Seq<char>) -> bool {
    k.contains('*')
}

impl<T> Default for WildMap<T> {
    fn default() -> (r: WildMap<T>)
        ensures
            r.exact_view() == Seq::<(Seq<char>, T)>::empty(),
            r.wild_view() == Seq::<(Seq<char>, T)>::empty(),
    {
        WildMap::new()
    }
}

impl<T> WildMap<T> {
    /// The exact entries, in insertion order.
    pub closed spec fn exact_view(&self) -> Seq<(Seq<char>, T)> {
        self.exact_items@.map_values(|e: (String, T)| entry_view(e))
    }

    /// The wildcard entries, in insertion order.
    pub closed spec fn wild_view(&self) -> Seq<(Seq<char>, T)> {
        self.wild_items@.map_values(|e: (String, T)| entry_view(e))
    }

    pub fn new() -> (r: WildMap<T>)
        ensures
            r.exact_view() == Seq::<(Seq<char>, T)>::empty(),
            r.wild_view() == Seq::<(Seq<char>, T)>::empty(),
    {
        let r = WildMap { exact_items: Vec::new(), wild_items: Vec::new() };
        assert(r.exact_view() =~= Seq::<(Seq<char>, T)>::empty());
        assert(r.wild_view() =~= Seq::<(Seq<char>, T)>::empty());
        r
    }

    /// Adds an entry: to the wildcard entries when the key holds `*`, else to
    /// the exact ones.
    pub fn insert(&mut self, key: String, value: T)
        ensures
            is_wild_key(key@) ==> final(self).wild_view() == old(self).wild_view().push(
                (key@, value),
            ) && final(self).exact_view() == old(self).exact_view(),
            !is_wild_key(key@) ==> final(self).exact_view() == old(self).exact_view().push(
                (key@, value),
            ) && final(self).wild_view() == old(self).wild_view(),
    {
        let cs = chars_of(key.as_str());
        let mut i: usize = 0;
        while i < cs.len() && cs[i] != '*'
            invariant
                i <= cs@.len(),
                cs@ == key@,
                forall|j: int| 0 <= j < i ==> cs@[j] != '*',
            decreases cs.len() - i,
        {
            i = i + 1;
        }
        let ghost old_exact = self.exact_view();
        let ghost old_wild = self.wild_view();
        if i < cs.len() {
            assert(key@[i as int] == '*');
            self.wild_items.push((key, value));
            assert(self.wild_view() =~= old_wild.push((key@, value)));
            assert(self.exact_view() =~= old_exact);
        } else {
            assert(!key@.contains('*'));
            self.exact_items.push((key, value));
            assert(self.exact_view() =~= old_exact.push((key@, value)));
            assert(self.wild_view() =~= old_wild);
        }
    }

    /// The key and value found for `key`: the first exact entry with that
    /// key, else the first wildcard entry whose pattern matches it.
    pub fn get_more(&self, key: &str) -> (r: Option<(&str, &T)>)
        ensures
            match lookup(self.exact_view(), self.wild_view(), key@) {
                Some((k, v)) => r matches Some((rk, rv)) && rk@ == k && *rv == v,
                None => r is None,
            },
    {
        let kc = chars_of(key);
        let mut i: usize = 0;
        while i < self.exact_items.len()
            invariant
                kc@ == key@,
                i <= self.exact_view().len(),
                self.exact_view().len() == self.exact_items@.len(),
                forall|j: int| 0 <= j < i ==> self.exact_view()[j].0 != key@,
            decreases self.exact_items.len() - i,
        {
            let entry = &self.exact_items[i];
            let sk = chars_of(entry.0.as_str());
            if crate::sep::chars_equal(&sk, &kc) {
                assert(first_exact(self.exact_view(), key@, i as int));
                proof {
                    let c = choose|c: int| first_exact(self.exact_view(), key@, c);
                    lemma_first_exact_unique(self.exact_view(), key@, i as int, c);
                }
                return Some((entry.0.as_str(), &entry.1));
            }
            i = i + 1;
        }
        assert(!exists|c: int| first_exact(self.exact_view(), key@, c));
        let mut j: usize = 0;
        while j < self.wild_items.len()
            invariant
                j <= self.wild_view().len(),
                self.wild_view().len() == self.wild_items@.len(),
                forall|k: int| 0 <= k < j ==> !glob_match(self.wild_view()[k].0, key@),
                !exists|c: int| first_exact(self.exact_view(), key@, c),
            decreases self.wild_items.len() - j,
        {
            let entry = &self.wild_items[j];
            if wild_matches(entry.0.as_str(), key) {
                assert(first_wild(self.wild_view(), key@, j as int));
                proof {
                    let c = choose|c: int| first_wild(self.wild_view(), key@, c);
                    lemma_first_wild_unique(self.wild_view(), key@, j as int, c);
                }
                return Some((entry.0.as_str(), &entry.1));
            }
            j = j + 1;
        }
        assert(!exists|c: int| first_wild(self.wild_view(), key@, c));
        None
    }

    /// The value found for `key` (see `get_more`).
    pub fn get(&self, key: &str) -> (r: Option<&T>)
        ensures
            match lookup(self.exact_view(), self.wild_view(), key@) {
                Some((k, v)) => r == Some(&v),
                None => r is None,
            },
    {
        match self.get_more(key) {
            Some((_, v)) => Some(v),
            None => None,
        }
    }

    /// Number of entries.
    pub fn len(&self) -> (r: usize)
        requires
            self.exact_view().len() + self.wild_view().len() <= usize::MAX,
        ensures
            r == self.exact_view().len() + self.wild_view().len(),
    {
        self.exact_items.len() + self.wild_items.len()
    }

    pub fn is_empty(&self) -> (r: bool)
        ensures
            r == (self.exact_view().len() == 0 && self.wild_view().len() == 0),
    {
        self.exact_items.len() == 0 && self.wild_items.len() == 0
    }

    /// The exact entries, in insertion order.
    pub fn exact_items(&self) -> (r: &Vec<(String, T)>)
        ensures
            r@.map_values(|e: (String, T)| entry_view(e)) == self.exact_view(),
    {
        &self.exact_items
    }

    /// The wildcard entries, in insertion order.
    pub fn wild_items(&self) -> (r: &Vec<(String, T)>)
        ensures
            r@.map_values(|e: (String, T)| entry_view(e)) == self.wild_view(),
    {
        &self.wild_items
    }
}

proof fn lemma_first_exact_unique<T>(items: Seq<(Seq<char>, T)>, key: Seq<char>, i: int, j: int)
    requires
        first_exact(items, key, i),
        first_exact(items, key, j),
    ensures
        i == j,
{
}

proof fn lemma_first_wild_unique<T>(items: Seq<(Seq<char>, T)>, key: Seq<char>, i: int, j: int)
    requires
        first_wild(items, key, i),
        first_wild(items, key, j),
    ensures
        i == j,
{
}

/// A value stored under an exact key that was not there before is what a
/// lookup of that key finds.
pub proof fn law_get_after_insert<T>(
    exact: Seq<(Seq<char>, T)>,
    wild: Seq<(Seq<char>, T)>,
    key: Seq<char>,
    value: T,
)
    requires
        !is_wild_key(key),
        forall|i: int| 0 <= i < exact.len() ==> exact[i].0 != key,
    ensures
        lookup(exact.push((key, value)), wild, key) == Some((key, value)),
{
    let e = exact.push((key, value));
    assert(first_exact(e, key, exact.len() as int));
    let c = choose|c: int| first_exact(e, key, c);
    lemma_first_exact_unique(e, key, exact.len() as int, c);
}

/// Exact keys win over patterns: when an exact entry has the key, the
/// wildcard entries do not matter.
pub proof fn law_exact_before_wild<T>(
    exact: Seq<(Seq<char>, T)>,
    wild1: Seq<(Seq<char>, T)>,
    wild2: Seq<(Seq<char>, T)>,
    key: Seq<char>,
)
    requires
        exists|i: int| 0 <= i < exact.len() && exact[i].0 == key,
    ensures
        lookup(exact, wild1, key) == lookup(exact, wild2, key),
        lookup(exact, wild1, key) is Some,
{
    let i = choose|i: int| 0 <= i < exact.len() && exact[i].0 == key;
    lemma_first_exact_exists(exact, key, i);
}

proof fn lemma_first_exact_exists<T>(items: Seq<(Seq<char>, T)>, key: Seq<char>, i: int)
    requires
        0 <= i < items.len(),
        items[i].0 == key,
    ensures
        exists|c: int| first_exact(items, key, c),
    decreases i,
{
    if exists|j: int| 0 <= j < i && items[j].0 == key {
        let j = choose|j: int| 0 <= j < i && items[j].0 == key;
        lemma_first_exact_exists(items, key, j);
    } else {
        assert(first_exact(items, key, i));
    }
}

/// The sub-units of a unit, found by exact or wildcard key.
pub struct SubUnitManager<U> {
    subs_fpu: WildMap<U>,
}

impl<U> SubUnitManager<U> {
    /// The entries, exact and wildcard.
    pub closed spec fn units(&self) -> (Seq<(Seq<char>, U)>, Seq<(Seq<char>, U)>) {
        (self.subs_fpu.exact_view(), self.subs_fpu.wild_view())
    }

    pub fn new() -> (r: Self)
        ensures
            r.units() == (Seq::<(Seq<char>, U)>::empty(), Seq::<(Seq<char>, U)>::empty()),
    {
        SubUnitManager { subs_fpu: WildMap::new() }
    }

    /// Adds a sub-unit under `key`.
    pub fn add(&mut self, key: String, unit: U)
        ensures
            is_wild_key(key@) ==> final(self).units() == (old(self).units().0, old(
                self,
            ).units().1.push((key@, unit))),
            !is_wild_key(key@) ==> final(self).units() == (old(self).units().0.push(
                (key@, unit),
            ), old(self).units().1),
    {
        self.subs_fpu.insert(key, unit);
    }

    /// The sub-unit for `key`: the first exact entry, else the first matching
    /// wildcard entry.
    pub fn get(&self, key: &str) -> (r: Option<&U>)
        ensures
            match lookup(self.units().0, self.units().1, key@) {
                Some((k, v)) => r == Some(&v),
                None => r is None,
            },
    {
        self.subs_fpu.get(key)
    }
}

impl<U> Default for SubUnitManager<U> {
    fn default() -> (r: Self)
        ensures
            r.units() == (Seq::<(Seq<char>, U)>::empty(), Seq::<(Seq<char>, U)>::empty()),
    {
        SubUnitManager::new()
    }
}

} // verus!
