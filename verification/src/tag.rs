//! Rule annotations: tag key/value pairs kept in key order, merging of
//! inherited tags, and the `key:value` form of a tag.
use vstd::prelude::*;
use crate::text::{chars_of, push_char, string_of_chars};

verus! {

/// Strict lexicographic order of texts by character code (the order of `str`).
pub open spec fn lex_lt(a: Seq<char>, b: Seq<char>) -> bool
    decreases a.len(),
{
    if a.len() == 0 {
        b.len() > 0
    } else if b.len() == 0 {
        false
    } else if a[0] != b[0] {
        a[0] < b[0]
    } else {
        lex_lt(a.skip(1), b.skip(1))
    }
}

pub proof fn lemma_lex_irreflexive(a: Seq<char>)
    ensures
        !lex_lt(a, a),
    decreases a.len(),
{
    if a.len() > 0 {
        lemma_lex_irreflexive(a.skip(1));
    }
}

pub proof fn lemma_lex_transitive(a: Seq<char>, b: Seq<char>, c: Seq<char>)
    requires
        lex_lt(a, b),
        lex_lt(b, c),
    ensures
        lex_lt(a, c),
    decreases a.len(),
{
    if a.len() > 0 && b.len() > 0 && c.len() > 0 && a[0] == b[0] && b[0] == c[0] {
        lemma_lex_transitive(a.skip(1), b.skip(1), c.skip(1));
    }
}

/// Three-way comparison of texts: negative, zero or positive.
pub fn compare_text(a: &[char], b: &[char]) -> (r: i8)
    ensures
        r < 0 <==> lex_lt(a@, b@),
        r == 0 <==> a@ == b@,
        r > 0 <==> lex_lt(b@, a@),
{
    let mut i: usize = 0;
    assert(a@.skip(0) =~= a@ && b@.skip(0) =~= b@);
    assert(a@.take(0) =~= b@.take(0));
    while i < a.len() && i < b.len() && a[i] == b[i]
        invariant
            i <= a@.len(),
            i <= b@.len(),
            a@.take(i as int) == b@.take(i as int),
            lex_lt(a@, b@) == lex_lt(a@.skip(i as int), b@.skip(i as int)),
            lex_lt(b@, a@) == lex_lt(b@.skip(i as int), a@.skip(i as int)),
        decreases a.len() - i,
    {
        assert(a@.skip(i as int).skip(1) =~= a@.skip(i + 1));
        assert(b@.skip(i as int).skip(1) =~= b@.skip(i + 1));
        assert(a@.take(i + 1) =~= a@.take(i as int).push(a@[i as int]));
        assert(b@.take(i + 1) =~= b@.take(i as int).push(b@[i as int]));
        i = i + 1;
    }
    proof {
        lemma_lex_irreflexive(a@);
    }
    if i == a.len() && i == b.len() {
        assert(a@ =~= a@.take(i as int));
        assert(b@ =~= b@.take(i as int));
        0
    } else if i == a.len() {
        -1
    } else if i == b.len() {
        proof {
            if a@ == b@ {
                assert(a@.len() == b@.len());
            }
        }
        1
    } else if a[i] < b[i] {
        proof {
            if a@ == b@ {
                assert(a@[i as int] == b@[i as int]);
            }
        }
        -1
    } else {
        proof {
            if a@ == b@ {
                assert(a@[i as int] == b@[i as int]);
            }
        }
        1
    }
}

/// Tag pairs ordered by key, each key once (the order a `BTreeMap` keeps).
#[derive(Debug)]
pub struct TagKvs {
    entries: Vec<(String, String)>,
}

/// The key's and the value's characters of an entry.
pub open spec fn kv_view(e: (String, String)) -> (Seq<char>, Seq<char>) {
    (e.0@, e.1@)
}

/// The key and value characters of each entry.
pub open spec fn entries_view(s: Seq<(String, String)>) -> Seq<(Seq<char>, Seq<char>)> {
    s.map_values(|e: (String, String)| kv_view(e))
}

/// Keys strictly increase along `s`.
pub open spec fn keys_sorted(s: Seq<(Seq<char>, Seq<char>)>) -> bool {
    forall|i: int, j: int| 0 <= i < j < s.len() ==> lex_lt(s[i].0, s[j].0)
}

/// Whether some pair of `s` has key `k`.
pub open spec fn has_key(s: Seq<(Seq<char>, Seq<char>)>, k: Seq<char>) -> bool {
    exists|i: int| 0 <= i < s.len() && #[trigger] s[i].0 == k
}

/// An index of `s` whose key is `k`, where there is one.
pub open spec fn key_index(s: Seq<(Seq<char>, Seq<char>)>, k: Seq<char>) -> int {
    choose|i: int| 0 <= i < s.len() && #[trigger] s[i].0 == k
}

/// The pairs of `s` as a map from key to value.
pub open spec fn pairs_map(s: Seq<(Seq<char>, Seq<char>)>) -> Map<Seq<char>, Seq<char>> {
    Map::new(|k: Seq<char>| has_key(s, k), |k: Seq<char>| s[key_index(s, k)].1)
}

/// In sorted pairs a key sits at one index only.
proof fn lemma_key_unique(s: Seq<(Seq<char>, Seq<char>)>, i: int, j: int)
    requires
        keys_sorted(s),
        0 <= i < s.len(),
        0 <= j < s.len(),
        s[i].0 == s[j].0,
    ensures
        i == j,
{
    lemma_lex_irreflexive(s[i].0);
}

/// The map of sorted pairs holds the value of the pair at index `i` under its key.
proof fn lemma_map_at(s: Seq<(Seq<char>, Seq<char>)>, i: int)
    requires
        keys_sorted(s),
        0 <= i < s.len(),
    ensures
        pairs_map(s).contains_key(s[i].0),
        pairs_map(s)[s[i].0] == s[i].1,
{
    let k = s[i].0;
    assert(has_key(s, k));
    let j = key_index(s, k);
    lemma_key_unique(s, i, j);
}

/// Replacing the value of the pair at `i` replaces it in the map.
proof fn lemma_update_map(
    before: Seq<(Seq<char>, Seq<char>)>,
    i: int,
    key: Seq<char>,
    value: Seq<char>,
)
    requires
        keys_sorted(before),
        0 <= i < before.len(),
        before[i].0 == key,
    ensures
        keys_sorted(before.update(i, (key, value))),
        pairs_map(before.update(i, (key, value))) == pairs_map(before).insert(key, value),
{
    let after = before.update(i, (key, value));
    assert forall|a: int, b: int| 0 <= a < b < after.len() implies lex_lt(
        after[a].0,
        after[b].0,
    ) by {
        assert(after[a].0 == before[a].0 && after[b].0 == before[b].0);
    }
    let m = pairs_map(before).insert(key, value);
    assert forall|k: Seq<char>| #[trigger] pairs_map(after).contains_key(k) <==> m.contains_key(
        k,
    ) by {
        if has_key(before, k) {
            let j = key_index(before, k);
            assert(after[j].0 == k);
        }
        if has_key(after, k) {
            let j = key_index(after, k);
            assert(before[j].0 == k);
        }
    }
    assert forall|k: Seq<char>| pairs_map(after).contains_key(k) implies pairs_map(after)[k]
        == m[k] by {
        let j = key_index(after, k);
        lemma_map_at(after, j);
        if k != key {
            assert(before[j] == after[j]);
            lemma_map_at(before, j);
        } else {
            lemma_key_unique(after, i, j);
        }
    }
    assert(pairs_map(after) =~= m);
}

/// Putting a new pair at `i`, between smaller and larger keys, adds it to the map.
proof fn lemma_insert_map(
    before: Seq<(Seq<char>, Seq<char>)>,
    i: int,
    key: Seq<char>,
    value: Seq<char>,
)
    requires
        keys_sorted(before),
        0 <= i <= before.len(),
        forall|j: int| 0 <= j < i ==> lex_lt(#[trigger] before[j].0, key),
        forall|j: int| i <= j < before.len() ==> lex_lt(key, #[trigger] before[j].0),
    ensures
        keys_sorted(before.insert(i, (key, value))),
        pairs_map(before.insert(i, (key, value))) == pairs_map(before).insert(key, value),
{
    let after = before.insert(i, (key, value));
    assert forall|a: int, b: int| 0 <= a < b < after.len() implies lex_lt(
        after[a].0,
        after[b].0,
    ) by {
        if b < i {
            assert(after[a] == before[a] && after[b] == before[b]);
        } else if b == i {
            assert(after[a] == before[a]);
        } else if a == i {
            assert(after[b] == before[b - 1]);
        } else if a < i {
            assert(after[a] == before[a] && after[b] == before[b - 1]);
            lemma_lex_transitive(before[a].0, key, before[b - 1].0);
        } else {
            assert(after[a] == before[a - 1] && after[b] == before[b - 1]);
        }
    }
    let m = pairs_map(before).insert(key, value);
    assert forall|k: Seq<char>| #[trigger] pairs_map(after).contains_key(k) <==> m.contains_key(
        k,
    ) by {
        if has_key(before, k) {
            let j = key_index(before, k);
            if j < i {
                assert(after[j] == before[j]);
            } else {
                assert(after[j + 1] == before[j]);
            }
        }
        if k == key {
            assert(after[i].0 == key);
        }
        if has_key(after, k) && k != key {
            let j = key_index(after, k);
            if j < i {
                assert(before[j] == after[j]);
            } else if j > i {
                assert(before[j - 1] == after[j]);
            }
        }
    }
    assert forall|k: Seq<char>| pairs_map(after).contains_key(k) implies pairs_map(after)[k]
        == m[k] by {
        let j = key_index(after, k);
        lemma_map_at(after, j);
        if k != key {
            if j < i {
                assert(before[j] == after[j]);
                lemma_map_at(before, j);
            } else {
                assert(before[j - 1] == after[j]);
                lemma_map_at(before, j - 1);
            }
        } else {
            lemma_key_unique(after, i, j);
        }
    }
    assert(pairs_map(after) =~= m);
}

impl TagKvs {
    /// The pairs in key order.
    pub closed spec fn pairs(&self) -> Seq<(Seq<char>, Seq<char>)> {
        entries_view(self.entries@)
    }

    /// The pairs as a map.
    pub open spec fn as_map(&self) -> Map<Seq<char>, Seq<char>> {
        pairs_map(self.pairs())
    }

    /// Keys strictly increase.
    pub open spec fn wf(&self) -> bool {
        keys_sorted(self.pairs())
    }

    pub fn new() -> (r: TagKvs)
        ensures
            r.pairs() == Seq::<(Seq<char>, Seq<char>)>::empty(),
            r.wf(),
    {
        let r = TagKvs { entries: Vec::new() };
        assert(r.pairs() =~= Seq::<(Seq<char>, Seq<char>)>::empty());
        r
    }

    pub fn len(&self) -> (r: usize)
        ensures
            r == self.pairs().len(),
    {
        self.entries.len()
    }

    /// The pairs in key order.
    pub fn entries(&self) -> (r: &Vec<(String, String)>)
        ensures
            entries_view(r@) == self.pairs(),
    {
        &self.entries
    }

    /// Index of the first key not below `key`, and whether it equals `key`.
    fn position(&self, key: &str) -> (r: (usize, bool))
        requires
            self.wf(),
        ensures
            r.0 <= self.pairs().len(),
            forall|i: int| 0 <= i < r.0 ==> lex_lt(#[trigger] self.pairs()[i].0, key@),
            r.1 ==> r.0 < self.pairs().len() && self.pairs()[r.0 as int].0 == key@,
            !r.1 ==> forall|i: int|
                r.0 <= i < self.pairs().len() ==> lex_lt(key@, #[trigger] self.pairs()[i].0),
    {
        let kc = chars_of(key);
        let mut i: usize = 0;
        while i < self.entries.len()
            invariant
                kc@ == key@,
                self.wf(),
                i <= self.pairs().len(),
                self.pairs().len() == self.entries@.len(),
                forall|j: int| 0 <= j < i ==> lex_lt(#[trigger] self.pairs()[j].0, key@),
            decreases self.entries.len() - i,
        {
            let ec = chars_of(self.entries[i].0.as_str());
            let c = compare_text(&ec, &kc);
            assert(ec@ == self.pairs()[i as int].0);
            if c == 0 {
                return (i, true);
            } else if c > 0 {
                assert forall|j: int| i <= j < self.pairs().len() implies lex_lt(
                    key@,
                    #[trigger] self.pairs()[j].0,
                ) by {
                    if j > i {
                        lemma_lex_transitive(key@, self.pairs()[i as int].0, self.pairs()[j].0);
                    }
                }
                return (i, false);
            }
            i = i + 1;
        }
        (i, false)
    }

    /// The value stored under `key`.
    pub fn get(&self, key: &str) -> (r: Option<&String>)
        requires
            self.wf(),
        ensures
            match r {
                Some(v) => self.as_map().contains_key(key@) && self.as_map()[key@] == v@,
                None => !self.as_map().contains_key(key@),
            },
    {
        let (i, found) = self.position(key);
        proof {
            if found {
                lemma_map_at(self.pairs(), i as int);
            } else if has_key(self.pairs(), key@) {
                let j = key_index(self.pairs(), key@);
                lemma_lex_irreflexive(key@);
                if j < i {
                    assert(lex_lt(self.pairs()[j].0, key@));
                } else {
                    assert(lex_lt(key@, self.pairs()[j].0));
                }
            }
        }
        if found {
            Some(&self.entries[i].1)
        } else {
            None
        }
    }

    /// Stores `value` under `key`, replacing what was there.
    pub fn insert(&mut self, key: String, value: String)
        requires
            old(self).wf(),
        ensures
            final(self).wf(),
            final(self).as_map() == old(self).as_map().insert(key@, value@),
    {
        let (i, found) = self.position(key.as_str());
        let ghost before = self.pairs();
        let ghost kv = (key@, value@);
        if found {
            self.entries.set(i, (key, value));
            assert(self.pairs() =~= before.update(i as int, kv));
            proof {
                lemma_update_map(before, i as int, kv.0, kv.1);
            }
        } else {
            self.entries.insert(i, (key, value));
            assert(self.pairs() =~= before.insert(i as int, kv));
            proof {
                lemma_insert_map(before, i as int, kv.0, kv.1);
            }
        }
    }
}


/// Pairs of `s` up to `i`, one more step: the pair at `i` is new to the map.
proof fn lemma_map_take_step(s: Seq<(Seq<char>, Seq<char>)>, i: int)
    requires
        keys_sorted(s),
        0 <= i < s.len(),
    ensures
        keys_sorted(s.take(i)),
        !pairs_map(s.take(i)).contains_key(s[i].0),
        pairs_map(s.take(i + 1)) == pairs_map(s.take(i)).insert(s[i].0, s[i].1),
{
    let t = s.take(i);
    assert forall|a: int, b: int| 0 <= a < b < t.len() implies lex_lt(t[a].0, t[b].0) by {
        assert(t[a] == s[a] && t[b] == s[b]);
    }
    assert forall|j: int| 0 <= j < i implies lex_lt(#[trigger] t[j].0, s[i].0) by {
        assert(t[j] == s[j]);
    }
    if has_key(t, s[i].0) {
        let j = key_index(t, s[i].0);
        assert(t[j] == s[j]);
        lemma_lex_irreflexive(s[i].0);
    }
    lemma_insert_map(t, i, s[i].0, s[i].1);
    assert(t.insert(i, (s[i].0, s[i].1)) =~= s.take(i + 1));
}

impl Clone for TagKvs {
    fn clone(&self) -> (r: Self)
        ensures
            r.pairs() == self.pairs(),
    {
        let mut entries: Vec<(String, String)> = Vec::new();
        let mut i: usize = 0;
        while i < self.entries.len()
            invariant
                i <= self.entries@.len(),
                entries@.len() == i,
                self.pairs().len() == self.entries@.len(),
                entries_view(entries@) == self.pairs().take(i as int),
            decreases self.entries.len() - i,
        {
            let k = self.entries[i].0.clone();
            let v = self.entries[i].1.clone();
            let pair = (k, v);
            let ghost gp = pair;
            assert(kv_view(gp) == self.pairs()[i as int]);
            let ghost prev = entries@;
            entries.push(pair);
            assert(entries@ == prev.push(gp));
            assert(entries_view(entries@)[i as int] == kv_view(gp));
            i = i + 1;
            assert(entries_view(entries@) =~= self.pairs().take(i as int));
        }
        assert(self.pairs().take(i as int) =~= self.pairs());
        TagKvs { entries }
    }
}

/// What a `copy_raw` annotation holds, as text.
pub open spec fn copy_view(c: Option<(String, String)>) -> Option<(Seq<char>, Seq<char>)> {
    match c {
        Some(p) => Some((p.0@, p.1@)),
        None => None,
    }
}

fn clone_copy(c: &Option<(String, String)>) -> (r: Option<(String, String)>)
    ensures
        copy_view(r) == copy_view(*c),
{
    match c {
        Some(p) => Some((p.0.clone(), p.1.clone())),
        None => None,
    }
}

/// The two kinds of rule annotation.
#[derive(Debug)]
pub enum AnnEnum {
    Tags(TagKvs),
    Copy((String, String)),
}

/// The annotations of a rule: its tags and an optional raw-copy directive.
#[derive(Debug)]
pub struct AnnFun {
    pub tags: TagKvs,
    pub copy_raw: Option<(String, String)>,
}

impl Default for AnnFun {
    fn default() -> (r: Self)
        ensures
            r.tags.pairs() == Seq::<(Seq<char>, Seq<char>)>::empty(),
            r.tags.wf(),
            r.copy_raw is None,
    {
        AnnFun { tags: TagKvs::new(), copy_raw: None }
    }
}

impl Clone for AnnFun {
    fn clone(&self) -> (r: Self)
        ensures
            r.tags.pairs() == self.tags.pairs(),
            copy_view(r.copy_raw) == copy_view(self.copy_raw),
    {
        AnnFun { tags: self.tags.clone(), copy_raw: clone_copy(&self.copy_raw) }
    }
}

/// `new` is `old` after taking over what `other` annotates and `old` does
/// not: the tags whose keys `old` lacks, and the raw-copy directive when `old`
/// has none.
pub open spec fn ann_merged(old: AnnFun, other: Option<AnnFun>, new: AnnFun) -> bool {
    match other {
        None => {
            &&& new.tags.pairs() == old.tags.pairs()
            &&& new.copy_raw == old.copy_raw
        },
        Some(o) => {
            &&& new.tags.as_map() == o.tags.as_map().union_prefer_right(old.tags.as_map())
            &&& copy_view(new.copy_raw) == (if old.copy_raw is Some {
                copy_view(old.copy_raw)
            } else {
                copy_view(o.copy_raw)
            })
        },
    }
}

/// One tag as it leaves the library.
#[derive(Debug)]
pub struct WplTag {
    pub key: String,
    pub val: String,
}

impl AnnFun {
    /// Takes over what `other` annotates and `self` does not: the tags whose keys
    /// `self` lacks, and the raw-copy directive when `self` has none. What `self`
    /// already has is kept.
    pub fn merge_tags(&mut self, other: &Option<AnnFun>)
        requires
            old(self).tags.wf(),
            other matches Some(o) ==> o.tags.wf(),
        ensures
            final(self).tags.wf(),
            ann_merged(*old(self), *other, *final(self)),
    {
        match other {
            None => {},
            Some(o) => {
                let ghost own = self.tags.as_map();
                let ghost own_copy = self.copy_raw;
                let ghost theirs = o.tags.pairs();
                let n = o.tags.entries.len();
                let mut i: usize = 0;
                proof {
                    assert(pairs_map(theirs.take(0)) =~= Map::<Seq<char>, Seq<char>>::empty());
                    assert(Map::<Seq<char>, Seq<char>>::empty().union_prefer_right(own) =~= own);
                }
                while i < n
                    invariant
                        o.tags.wf(),
                        theirs == o.tags.pairs(),
                        self.tags.wf(),
                        self.copy_raw == own_copy,
                        n == theirs.len(),
                        i <= n,
                        self.tags.as_map() == pairs_map(theirs.take(i as int)).union_prefer_right(
                            own,
                        ),
                    decreases n - i,
                {
                    let k = &o.tags.entries[i].0;
                    let v = &o.tags.entries[i].1;
                    assert(theirs[i as int] == (k@, v@));
                    let ghost before = self.tags.as_map();
                    proof {
                        lemma_map_take_step(theirs, i as int);
                    }
                    let ghost a = pairs_map(theirs.take(i as int));
                    if self.tags.get(k.as_str()).is_none() {
                        self.tags.insert(k.clone(), v.clone());
                        assert(self.tags.as_map() =~= a.insert(k@, v@).union_prefer_right(own));
                    } else {
                        assert(own.contains_key(k@));
                        assert(self.tags.as_map() =~= a.insert(k@, v@).union_prefer_right(own));
                    }
                    i = i + 1;
                }
                assert(theirs.take(n as int) =~= theirs);
                if self.copy_raw.is_none() {
                    self.copy_raw = clone_copy(&o.copy_raw);
                }
            },
        }
    }

    /// The tags in key order.
    pub fn export_tags(&self) -> (r: Vec<WplTag>)
        ensures
            r@.len() == self.tags.pairs().len(),
            forall|i: int|
                0 <= i < r@.len() ==> (#[trigger] r@[i]).key@ == self.tags.pairs()[i].0
                    && r@[i].val@ == self.tags.pairs()[i].1,
    {
        let mut out: Vec<WplTag> = Vec::new();
        let mut i: usize = 0;
        while i < self.tags.entries.len()
            invariant
                i <= self.tags.entries@.len(),
                self.tags.pairs().len() == self.tags.entries@.len(),
                out@.len() == i,
                forall|j: int|
                    0 <= j < i ==> (#[trigger] out@[j]).key@ == self.tags.pairs()[j].0
                        && out@[j].val@ == self.tags.pairs()[j].1,
            decreases self.tags.entries.len() - i,
        {
            let k = self.tags.entries[i].0.clone();
            let v = self.tags.entries[i].1.clone();
            assert(self.tags.pairs()[i as int] == (k@, v@));
            out.push(WplTag::new(k, v));
            i = i + 1;
        }
        out
    }
}

/// No `:` in `s`.
pub open spec fn colon_free(s: Seq<char>) -> bool {
    forall|i: int| 0 <= i < s.len() ==> s[i] != ':'
}

/// `s` is a key, one `:` at `i`, and a value, neither holding another `:`.
pub open spec fn tag_split_at(s: Seq<char>, i: int) -> bool {
    &&& 0 <= i < s.len()
    &&& s[i] == ':'
    &&& colon_free(s.take(i))
    &&& colon_free(s.skip(i + 1))
}

/// The key and value that the text `key:value` stands for, if it has exactly one `:`.
pub open spec fn tag_of_text(s: Seq<char>) -> Option<(Seq<char>, Seq<char>)> {
    if exists|i: int| tag_split_at(s, i) {
        let i = choose|i: int| tag_split_at(s, i);
        Some((s.take(i), s.skip(i + 1)))
    } else {
        None
    }
}

impl Default for WplTag {
    fn default() -> (r: Self)
        ensures
            r.key@ == Seq::<char>::empty(),
            r.val@ == Seq::<char>::empty(),
    {
        WplTag { key: String::new(), val: String::new() }
    }
}

impl WplTag {
    pub fn new(key: String, val: String) -> (r: Self)
        ensures
            r.key == key,
            r.val == val,
    {
        WplTag { key, val }
    }

    pub fn key(&self) -> (r: &String)
        ensures
            *r == self.key,
    {
        &self.key
    }

    pub fn val(&self) -> (r: &String)
        ensures
            *r == self.val,
    {
        &self.val
    }

    /// The serialised form `key:value`.
    pub fn tag_text(&self) -> (r: String)
        ensures
            r@ == self.key@ + seq![':'] + self.val@,
    {
        let kc = chars_of(self.key.as_str());
        let vc = chars_of(self.val.as_str());
        let mut out = string_of_chars(kc.as_slice());
        push_char(&mut out, ':');
        let mut i: usize = 0;
        while i < vc.len()
            invariant
                i <= vc@.len(),
                out@ == kc@ + seq![':'] + vc@.take(i as int),
            decreases vc.len() - i,
        {
            push_char(&mut out, vc[i]);
            i = i + 1;
            assert(out@ =~= kc@ + seq![':'] + vc@.take(i as int));
        }
        assert(vc@.take(i as int) =~= vc@);
        out
    }

    /// Reads `key:value`; text with no `:` or more than one gives `None`.
    pub fn from_tag_text(s: &str) -> (r: Option<WplTag>)
        ensures
            match r {
                Some(t) => tag_of_text(s@) == Some((t.key@, t.val@)),
                None => tag_of_text(s@) is None,
            },
    {
        let cs = chars_of(s);
        let n = cs.len();
        let mut i: usize = 0;
        while i < n && cs[i] != ':'
            invariant
                n == cs@.len(),
                i <= n,
                colon_free(cs@.take(i as int)),
            decreases n - i,
        {
            assert(cs@.take(i + 1) =~= cs@.take(i as int).push(cs@[i as int]));
            i = i + 1;
        }
        if i == n {
            proof {
                assert(cs@.take(n as int) =~= cs@);
                assert forall|j: int| !tag_split_at(s@, j) by {
                    if 0 <= j < n {
                        assert(cs@[j] != ':');
                    }
                }
            }
            return None;
        }
        let mut j: usize = i + 1;
        while j < n && cs[j] != ':'
            invariant
                n == cs@.len(),
                i < n,
                cs@[i as int] == ':',
                i + 1 <= j <= n,
                colon_free(cs@.subrange(i + 1, j as int)),
            decreases n - j,
        {
            assert(cs@.subrange(i + 1, j + 1) =~= cs@.subrange(i + 1, j as int).push(
                cs@[j as int],
            ));
            j = j + 1;
        }
        if j < n {
            proof {
                assert forall|k: int| !tag_split_at(s@, k) by {
                    if tag_split_at(s@, k) {
                        if k < i {
                            assert(cs@.take(i as int)[k] == cs@[k]);
                        } else if k > i {
                            assert(s@.take(k)[i as int] == ':');
                        } else {
                            assert(s@.skip(k + 1)[j - k - 1] == ':');
                        }
                    }
                }
            }
            return None;
        }
        let key = string_of_chars(&cs.as_slice()[0..i]);
        let val = string_of_chars(&cs.as_slice()[i + 1..n]);
        proof {
            assert(cs@.subrange(i + 1, n as int) =~= cs@.skip(i + 1));
            assert(tag_split_at(s@, i as int));
            assert forall|k: int| tag_split_at(s@, k) implies k == i by {
                if k < i {
                    assert(cs@.take(i as int)[k] == cs@[k]);
                } else if k > i {
                    assert(s@.take(k)[i as int] == ':');
                }
            }
        }
        Some(WplTag::new(key, val))
    }
}

/// Reading back the text of a tag gives the tag, where neither key nor value holds `:`.
pub proof fn law_tag_text_round_trip(key: Seq<char>, val: Seq<char>)
    requires
        colon_free(key),
        colon_free(val),
    ensures
        tag_of_text(key + seq![':'] + val) == Some((key, val)),
{
    let s = key + seq![':'] + val;
    let i = key.len() as int;
    assert(s.take(i) =~= key);
    assert(s.skip(i + 1) =~= val);
    assert(tag_split_at(s, i));
    assert forall|k: int| tag_split_at(s, k) implies k == i by {
        if k < i {
            assert(s[k] == key[k]);
        } else if k > i {
            assert(s[k] == val[k - i - 1]);
        }
    }
}

/// Merging adds nothing a second time: merging the same annotations again leaves the tags as they are.
pub proof fn law_merge_tags_idempotent(
    theirs: Map<Seq<char>, Seq<char>>,
    own: Map<Seq<char>, Seq<char>>,
)
    ensures
        theirs.union_prefer_right(theirs.union_prefer_right(own)) == theirs.union_prefer_right(
            own,
        ),
{
    assert(theirs.union_prefer_right(theirs.union_prefer_right(own)) =~= theirs.union_prefer_right(
        own,
    ));
}

} // verus!
