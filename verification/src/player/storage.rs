//! The cache's manifest of stored tracks, its access bookkeeping, the order in
//! which entries are evicted when the disk pool overflows, and the names of
//! the playback slot files.
use vstd::prelude::*;
use crate::api::models::CacheManifestEntry;
use crate::text::{chars_of, concat_str, str_eq, texts, to_owned_string};

verus! {

broadcast use vstd::seq_lib::group_to_multiset_ensures;

/// `a` is evicted no later than `b`: it has been played fewer times, or as
/// often and was last accessed no later (least played first, then oldest).
pub open spec fn evicted_no_later(a: CacheManifestEntry, b: CacheManifestEntry) -> bool {
    a.play_count < b.play_count || (a.play_count == b.play_count && a.last_accessed
        <= b.last_accessed)
}

/// `x` inserted into `s` after the last element that is evicted no later
/// than `x` (scanning from the back), as a stable insertion sort does.
pub open spec fn insert_for_eviction(s: Seq<CacheManifestEntry>, x: CacheManifestEntry) -> Seq<
    CacheManifestEntry,
>
    decreases s.len(),
{
    if s.len() == 0 {
        seq![x]
    } else if evicted_no_later(s.last(), x) {
        s.push(x)
    } else {
        insert_for_eviction(s.drop_last(), x).push(s.last())
    }
}

/// `s` stably sorted into eviction order: least played first and, among
/// equally played entries, oldest access first; entries equal in both keep
/// their order.
pub open spec fn sort_for_eviction(s: Seq<CacheManifestEntry>) -> Seq<CacheManifestEntry>
    decreases s.len(),
{
    if s.len() == 0 {
        s
    } else {
        insert_for_eviction(sort_for_eviction(s.drop_last()), s.last())
    }
}

/// The entries of `s` appear in eviction order.
pub open spec fn ordered_for_eviction(s: Seq<CacheManifestEntry>) -> bool {
    forall|i: int, j: int| 0 <= i <= j < s.len() ==> evicted_no_later(#[trigger] s[i], #[trigger] s[j])
}

proof fn lemma_insert_split(s: Seq<CacheManifestEntry>, x: CacheManifestEntry, p: int)
    requires
        0 < p <= s.len(),
        !evicted_no_later(s[p - 1], x),
    ensures
        insert_for_eviction(s.take(p), x) + s.skip(p) == insert_for_eviction(s.take(p - 1), x) + s.skip(
            p - 1,
        ),
{
    let t = s.take(p);
    assert(t.drop_last() =~= s.take(p - 1));
    assert(t.last() == s[p - 1]);
    let a = insert_for_eviction(s.take(p - 1), x);
    assert(insert_for_eviction(t, x) == a.push(s[p - 1]));
    assert(a.push(s[p - 1]) + s.skip(p) =~= a + s.skip(p - 1));
}

/// The entries stably sorted into eviction order: least played first, then
/// oldest access first.
/// Whether `a` is evicted no later than `b`.
fn no_later_exec(a: &CacheManifestEntry, b: &CacheManifestEntry) -> (r: bool)
    ensures
        r == evicted_no_later(*a, *b),
{
    a.play_count < b.play_count || (a.play_count == b.play_count && a.last_accessed
        <= b.last_accessed)
}

pub fn sorted_for_eviction(entries: &[CacheManifestEntry]) -> (r: Vec<CacheManifestEntry>)
    ensures
        r@ == sort_for_eviction(entries@),
{
    let mut r: Vec<CacheManifestEntry> = Vec::new();
    let mut i: usize = 0;
    assert(entries@.take(0) =~= Seq::<CacheManifestEntry>::empty());
    while i < entries.len()
        invariant
            i <= entries.len(),
            r@ == sort_for_eviction(entries@.take(i as int)),
        decreases entries.len() - i,
    {
        let x = entries[i].duplicate();
        let mut p: usize = r.len();
        assert(r@.take(r.len() as int) =~= r@);
        assert(r@.skip(r.len() as int) =~= Seq::<CacheManifestEntry>::empty());
        assert(insert_for_eviction(r@, x) =~= insert_for_eviction(r@.take(p as int), x) + r@.skip(
            p as int,
        ));
        while p > 0 && !no_later_exec(&r[p - 1], &x)
            invariant
                p <= r.len(),
                insert_for_eviction(r@, x) == insert_for_eviction(r@.take(p as int), x) + r@.skip(
                    p as int,
                ),
            decreases p,
        {
            proof {
                lemma_insert_split(r@, x, p as int);
            }
            p = p - 1;
        }
        proof {
            let t = r@.take(p as int);
            if p > 0 {
                assert(t.last() == r@[p - 1]);
                assert(insert_for_eviction(t, x) == t.push(x));
            } else {
                assert(t.len() == 0);
                assert(insert_for_eviction(t, x) == seq![x]);
            }
            assert(insert_for_eviction(t, x) =~= t.push(x));
        }
        let ghost before = r@;
        r.insert(p, x);
        proof {
            assert(r@ =~= before.take(p as int).push(x) + before.skip(p as int));
            let taken = entries@.take(i + 1);
            assert(taken.drop_last() =~= entries@.take(i as int));
            assert(taken.last() == entries@[i as int]);
        }
        i = i + 1;
    }
    assert(entries@.take(entries.len() as int) =~= entries@);
    r
}

proof fn lemma_insert_ordered(s: Seq<CacheManifestEntry>, x: CacheManifestEntry)
    requires
        ordered_for_eviction(s),
    ensures
        ordered_for_eviction(insert_for_eviction(s, x)),
        insert_for_eviction(s, x).len() == s.len() + 1,
        forall|k: int|
            0 <= k < insert_for_eviction(s, x).len() ==> (#[trigger] insert_for_eviction(s, x)[k]
                == x || s.contains(insert_for_eviction(s, x)[k])),
    decreases s.len(),
{
    if s.len() == 0 {
    } else if evicted_no_later(s.last(), x) {
        let r = s.push(x);
        assert forall|i: int, j: int|
            0 <= i <= j < r.len() implies evicted_no_later(#[trigger] r[i], #[trigger] r[j]) by {
            if j == s.len() {
                if i < s.len() {
                    assert(evicted_no_later(s[i], s[s.len() - 1]));
                }
            }
        }
        assert forall|k: int| 0 <= k < r.len() implies (#[trigger] r[k] == x || s.contains(
            r[k],
        )) by {
            if k < s.len() {
                assert(s[k] == r[k]);
            }
        }
    } else {
        let t = s.drop_last();
        assert forall|i: int, j: int|
            0 <= i <= j < t.len() implies evicted_no_later(#[trigger] t[i], #[trigger] t[j]) by {
            assert(t[i] == s[i] && t[j] == s[j]);
        }
        lemma_insert_ordered(t, x);
        let a = insert_for_eviction(t, x);
        let r = a.push(s.last());
        assert forall|k: int| 0 <= k < a.len() implies evicted_no_later(a[k], s.last()) by {
            if a[k] == x {
            } else {
                assert(t.contains(a[k]));
                let m = choose|m: int| 0 <= m < t.len() && t[m] == a[k];
                assert(s[m] == t[m]);
            }
        }
        assert forall|i: int, j: int|
            0 <= i <= j < r.len() implies evicted_no_later(#[trigger] r[i], #[trigger] r[j]) by {
            if j == a.len() {
                if i < a.len() {
                    assert(evicted_no_later(a[i], s.last()));
                }
            } else {
                assert(r[i] == a[i] && r[j] == a[j]);
            }
        }
        assert forall|k: int| 0 <= k < r.len() implies (#[trigger] r[k] == x || s.contains(
            r[k],
        )) by {
            if k < a.len() {
                if a[k] != x {
                    assert(t.contains(a[k]));
                    let m = choose|m: int| 0 <= m < t.len() && t[m] == a[k];
                    assert(s[m] == t[m]);
                }
            } else {
                assert(s[s.len() - 1] == r[k]);
            }
        }
    }
}

proof fn lemma_insert_multiset(s: Seq<CacheManifestEntry>, x: CacheManifestEntry)
    ensures
        insert_for_eviction(s, x).to_multiset() =~= s.to_multiset().insert(x),
    decreases s.len(),
{
    if s.len() == 0 {
        assert(seq![x] =~= Seq::<CacheManifestEntry>::empty().push(x));
    } else if evicted_no_later(s.last(), x) {
    } else {
        let t = s.drop_last();
        lemma_insert_multiset(t, x);
        assert(t.push(s.last()) =~= s);
    }
}

/// Sorting for eviction yields the entries, each as often as before, in
/// eviction order.
pub proof fn sort_for_eviction_orders_and_permutes(s: Seq<CacheManifestEntry>)
    ensures
        ordered_for_eviction(sort_for_eviction(s)),
        sort_for_eviction(s).to_multiset() =~= s.to_multiset(),
        sort_for_eviction(s).len() == s.len(),
    decreases s.len(),
{
    if s.len() > 0 {
        let t = s.drop_last();
        sort_for_eviction_orders_and_permutes(t);
        lemma_insert_ordered(sort_for_eviction(t), s.last());
        lemma_insert_multiset(sort_for_eviction(t), s.last());
        assert(t.push(s.last()) =~= s);
    }
}

/// Eviction goes by play count first: in the eviction order an entry played
/// fewer times always comes before one played more often, whatever their
/// access times, and only entries played equally often are ordered by last
/// access, oldest first. The order holds every entry, each as often as before.
pub proof fn eviction_order_is_plays_then_age(s: Seq<CacheManifestEntry>)
    ensures
        sort_for_eviction(s).len() == s.len(),
        sort_for_eviction(s).to_multiset() =~= s.to_multiset(),
        forall|i: int, j: int|
            0 <= i < j < s.len() ==> {
                let a = #[trigger] sort_for_eviction(s)[i];
                let b = #[trigger] sort_for_eviction(s)[j];
                &&& a.play_count <= b.play_count
                &&& a.play_count == b.play_count ==> a.last_accessed <= b.last_accessed
            },
        forall|i: int, j: int|
            0 <= i < s.len() && 0 <= j < s.len() && #[trigger] sort_for_eviction(s)[i].play_count
                < #[trigger] sort_for_eviction(s)[j].play_count ==> i < j,
{
    sort_for_eviction_orders_and_permutes(s);
    let r = sort_for_eviction(s);
    assert forall|i: int, j: int|
        0 <= i < s.len() && 0 <= j < s.len() && #[trigger] r[i].play_count
            < #[trigger] r[j].play_count implies i < j by {
        if j <= i {
            assert(evicted_no_later(r[j], r[i]));
        }
    }
    assert forall|i: int, j: int| 0 <= i < j < s.len() implies {
        let a = #[trigger] r[i];
        let b = #[trigger] r[j];
        &&& a.play_count <= b.play_count
        &&& a.play_count == b.play_count ==> a.last_accessed <= b.last_accessed
    } by {
        assert(evicted_no_later(r[i], r[j]));
    }
}

/// The manifest of cached tracks, keyed by track id. It is held as a vector
/// of pairs in which no key occurs twice rather than as a `HashMap<String, _>`:
/// a hash map keyed by strings comes with no contract that says what it
/// holds, while the vector's contents are stated exactly; the vector's order
/// also fixes which of two entries that are equal in the eviction order goes
/// first.
pub struct Manifest {
    items: Vec<(String, CacheManifestEntry)>,
}

/// The map that a sequence of key/entry pairs describes, later pairs
/// overriding earlier ones with the same key.
pub open spec fn pairs_map(pairs: Seq<(String, CacheManifestEntry)>) -> Map<
    Seq<char>,
    CacheManifestEntry,
>
    decreases pairs.len(),
{
    if pairs.len() == 0 {
        Map::empty()
    } else {
        pairs_map(pairs.drop_last()).insert(pairs.last().0@, pairs.last().1)
    }
}

impl Manifest {
    /// No key occurs twice.
    pub closed spec fn wf(&self) -> bool {
        forall|i: int, j: int|
            0 <= i < j < self.items.len() ==> #[trigger] self.items[i].0@
                != #[trigger] self.items[j].0@
    }

    /// The position of key `k`.
    closed spec fn pos(&self, k: Seq<char>) -> int {
        choose|i: int| 0 <= i < self.items.len() && self.items[i].0@ == k
    }

    /// The manifest as a map from track id to entry.
    pub closed spec fn view(&self) -> Map<Seq<char>, CacheManifestEntry> {
        Map::new(
            |k: Seq<char>| exists|i: int| 0 <= i < self.items.len() && self.items[i].0@ == k,
            |k: Seq<char>| self.items[self.pos(k)].1,
        )
    }

    /// The entries in the manifest's own order.
    pub closed spec fn entries(&self) -> Seq<CacheManifestEntry> {
        self.items@.map_values(|p: (String, CacheManifestEntry)| p.1)
    }

    proof fn lemma_at(&self, i: int)
        requires
            self.wf(),
            0 <= i < self.items.len(),
        ensures
            self.view().contains_key(self.items[i].0@),
            self.view()[self.items[i].0@] == self.items[i].1,
    {
        let k = self.items[i].0@;
        assert(exists|j: int| 0 <= j < self.items.len() && self.items[j].0@ == k);
        let p = self.pos(k);
        if p != i {
            if p < i {
                assert(self.items[p].0@ != self.items[i].0@);
            } else {
                assert(self.items[i].0@ != self.items[p].0@);
            }
        }
    }

    /// Every entry of the manifest is among its entries, and no others are.
    pub proof fn entries_are_values(&self)
        requires
            self.wf(),
        ensures
            self.entries().len() == self.view().len(),
            forall|k: Seq<char>| #[trigger]
                self.view().contains_key(k) ==> self.entries().contains(self.view()[k]),
    {
        assert forall|k: Seq<char>| #[trigger]
            self.view().contains_key(k) implies self.entries().contains(self.view()[k]) by {
            let p = self.pos(k);
            self.lemma_at(p);
            assert(self.entries()[p] == self.view()[k]);
        }
        let keys = self.items@.map_values(|p: (String, CacheManifestEntry)| p.0@);
        assert(keys.no_duplicates()) by {
            assert forall|i: int, j: int|
                0 <= i < keys.len() && 0 <= j < keys.len() && i != j implies keys[i]
                != keys[j] by {
                if i < j {
                    assert(self.items[i].0@ != self.items[j].0@);
                } else {
                    assert(self.items[j].0@ != self.items[i].0@);
                }
            }
        }
        assert(self.view().dom() =~= keys.to_set()) by {
            assert forall|k: Seq<char>| self.view().dom().contains(k) implies keys.to_set().contains(k) by {
                let p = self.pos(k);
                assert(keys[p] == k);
            }
            assert forall|k: Seq<char>| keys.to_set().contains(k) implies self.view().dom().contains(k) by {
                let i = choose|i: int| 0 <= i < keys.len() && keys[i] == k;
                assert(self.items[i].0@ == k);
            }
        }
        keys.unique_seq_to_set();
    }

    /// An empty manifest.
    pub fn new() -> (m: Manifest)
        ensures
            m.wf(),
            m@ == Map::<Seq<char>, CacheManifestEntry>::empty(),
    {
        let m = Manifest { items: Vec::new() };
        assert(m@ =~= Map::<Seq<char>, CacheManifestEntry>::empty());
        m
    }

    /// The number of tracks in the manifest.
    pub fn len(&self) -> (n: usize)
        requires
            self.wf(),
        ensures
            n == self@.len(),
    {
        proof {
            self.entries_are_values();
        }
        self.items.len()
    }

    /// The position of `key`, if the manifest holds it.
    fn find(&self, key: &String) -> (r: Option<usize>)
        requires
            self.wf(),
        ensures
            match r {
                Some(i) => i < self.items.len() && self.items[i as int].0@ == key@,
                None => !self@.contains_key(key@),
            },
    {
        let mut i: usize = 0;
        while i < self.items.len()
            invariant
                i <= self.items.len(),
                forall|j: int| 0 <= j < i ==> self.items[j].0@ != key@,
            decreases self.items.len() - i,
        {
            if self.items[i].0 == *key {
                return Some(i);
            }
            i = i + 1;
        }
        None
    }

    /// Whether the manifest holds `key`.
    pub fn contains(&self, key: &str) -> (r: bool)
        requires
            self.wf(),
        ensures
            r == self@.contains_key(key@),
    {
        let k = to_owned_string(key);
        self.find(&k).is_some()
    }

    /// The ids among `ids` that the manifest holds, in their order: the
    /// answer to a client asking which of its tracks are cached.
    pub fn cached_among(&self, ids: &[String]) -> (r: Vec<String>)
        requires
            self.wf(),
        ensures
            texts(r@) == texts(ids@).filter(|k: Seq<char>| self@.contains_key(k)),
    {
        let ghost keys = texts(ids@);
        let ghost pred = |k: Seq<char>| self@.contains_key(k);
        let mut r: Vec<String> = Vec::new();
        let mut i: usize = 0;
        while i < ids.len()
            invariant
                i <= ids.len(),
                self.wf(),
                keys == texts(ids@),
                pred == (|k: Seq<char>| self@.contains_key(k)),
                texts(r@) == keys.take(i as int).filter(pred),
            decreases ids.len() - i,
        {
            proof {
                assert(keys.take(i + 1) =~= keys.take(i as int).push(keys[i as int]));
                keys.take(i as int).lemma_filter_push(keys[i as int], pred);
            }
            if self.contains(ids[i].as_str()) {
                let ghost before = r@;
                r.push(to_owned_string(ids[i].as_str()));
                assert(texts(r@) =~= texts(before).push(keys[i as int]));
            }
            i = i + 1;
        }
        assert(keys.take(ids.len() as int) =~= keys);
        r
    }

    /// The entry of `key`, if any.
    pub fn get(&self, key: &str) -> (r: Option<&CacheManifestEntry>)
        requires
            self.wf(),
        ensures
            match r {
                Some(e) => self@.contains_key(key@) && *e == self@[key@],
                None => !self@.contains_key(key@),
            },
    {
        let k = to_owned_string(key);
        match self.find(&k) {
            Some(i) => {
                proof {
                    self.lemma_at(i as int);
                }
                Some(&self.items[i].1)
            },
            None => None,
        }
    }

    /// Sets the entry of `key` to `e`.
    fn put(&mut self, key: String, e: CacheManifestEntry)
        requires
            old(self).wf(),
        ensures
            final(self).wf(),
            final(self)@ == old(self)@.insert(key@, e),
    {
        let ghost k = key@;
        match self.find(&key) {
            Some(i) => {
                self.items.set(i, (key, e));
                proof {
                    let o = *old(self);
                    assert forall|a: int, b: int|
                        0 <= a < b < self.items.len() implies #[trigger] self.items[a].0@
                        != #[trigger] self.items[b].0@ by {
                        assert(o.items[a].0@ != o.items[b].0@);
                    }
                    assert forall|q: Seq<char>| #[trigger]
                        self@.contains_key(q) == o@.insert(k, e).contains_key(q) by {
                        if q != k {
                            if o@.contains_key(q) {
                                let p = o.pos(q);
                                assert(self.items[p].0@ == q);
                            }
                            if self@.contains_key(q) {
                                let p = self.pos(q);
                                assert(o.items[p].0@ == q);
                            }
                        } else {
                            assert(self.items[i as int].0@ == k);
                        }
                    }
                    assert forall|q: Seq<char>| #[trigger]
                        self@.contains_key(q) implies self@[q] == o@.insert(k, e)[q] by {
                        let p = self.pos(q);
                        self.lemma_at(p);
                        if q != k {
                            o.lemma_at(p);
                        } else {
                            self.lemma_at(i as int);
                        }
                    }
                    assert(self@ =~= o@.insert(k, e));
                }
            },
            None => {
                self.items.push((key, e));
                proof {
                    let o = *old(self);
                    let n = o.items.len() as int;
                    assert forall|a: int, b: int|
                        0 <= a < b < self.items.len() implies #[trigger] self.items[a].0@
                        != #[trigger] self.items[b].0@ by {
                        if b == n {
                            if o.items[a].0@ == k {
                                o.lemma_at(a);
                            }
                        } else {
                            assert(o.items[a].0@ != o.items[b].0@);
                        }
                    }
                    assert forall|q: Seq<char>| #[trigger]
                        self@.contains_key(q) == o@.insert(k, e).contains_key(q) by {
                        if q != k {
                            if o@.contains_key(q) {
                                let p = o.pos(q);
                                assert(self.items[p].0@ == q);
                            }
                            if self@.contains_key(q) {
                                let p = self.pos(q);
                                assert(o.items[p].0@ == q);
                            }
                        } else {
                            assert(self.items[n].0@ == k);
                        }
                    }
                    assert forall|q: Seq<char>| #[trigger]
                        self@.contains_key(q) implies self@[q] == o@.insert(k, e)[q] by {
                        let p = self.pos(q);
                        self.lemma_at(p);
                        if q != k {
                            o.lemma_at(p);
                        } else {
                            self.lemma_at(n);
                        }
                    }
                    assert(self@ =~= o@.insert(k, e));
                }
            },
        }
    }

    /// Removes the entry of `key`, if any.
    pub fn remove(&mut self, key: &str)
        requires
            old(self).wf(),
        ensures
            final(self).wf(),
            final(self)@ == old(self)@.remove(key@),
    {
        let k = to_owned_string(key);
        match self.find(&k) {
            Some(i) => {
                self.items.remove(i);
                proof {
                    let o = *old(self);
                    assert forall|a: int, b: int|
                        0 <= a < b < self.items.len() implies #[trigger] self.items[a].0@
                        != #[trigger] self.items[b].0@ by {
                        let a2 = if a < i { a } else { a + 1 };
                        let b2 = if b < i { b } else { b + 1 };
                        assert(o.items[a2].0@ != o.items[b2].0@);
                    }
                    assert forall|q: Seq<char>| #[trigger]
                        self@.contains_key(q) == o@.remove(key@).contains_key(q) by {
                        if q != key@ {
                            if o@.contains_key(q) {
                                let p = o.pos(q);
                                assert(p != i);
                                if p < i {
                                    assert(self.items[p].0@ == q);
                                } else {
                                    assert(self.items[p - 1].0@ == q);
                                }
                            }
                            if self@.contains_key(q) {
                                let p = self.pos(q);
                                if p < i {
                                    assert(o.items[p].0@ == q);
                                } else {
                                    assert(o.items[p + 1].0@ == q);
                                }
                            }
                        } else {
                            if self@.contains_key(q) {
                                let p = self.pos(q);
                                let p2 = if p < i { p } else { p + 1 };
                                assert(o.items[p2].0@ == q);
                                if p2 < i {
                                    assert(o.items[p2].0@ != o.items[i as int].0@);
                                } else {
                                    assert(o.items[i as int].0@ != o.items[p2].0@);
                                }
                            }
                        }
                    }
                    assert forall|q: Seq<char>| #[trigger]
                        self@.contains_key(q) implies self@[q] == o@.remove(key@)[q] by {
                        let p = self.pos(q);
                        self.lemma_at(p);
                        let p2 = if p < i { p } else { p + 1 };
                        assert(o.items[p2] == self.items[p]);
                        o.lemma_at(p2);
                    }
                    assert(self@ =~= o@.remove(key@));
                }
            },
            None => {
                assert(self@ =~= old(self)@.remove(key@));
            },
        }
    }

    /// Records an access at time `now` to `track_id`, stored with
    /// `file_size` bytes: a new entry starts with one play; a known one gets
    /// its size and access time replaced and one more play.
    pub fn record_access(&mut self, track_id: &str, file_size: u64, now: i64)
        requires
            old(self).wf(),
            old(self)@.contains_key(track_id@) ==> old(self)@[track_id@].play_count < u64::MAX,
        ensures
            final(self).wf(),
            final(self)@.dom() == old(self)@.dom().insert(track_id@),
            final(self)@.remove(track_id@) == old(self)@.remove(track_id@),
            final(self)@[track_id@].file_size == file_size,
            final(self)@[track_id@].last_accessed == now,
            final(self)@[track_id@].play_count == if old(self)@.contains_key(track_id@) {
                old(self)@[track_id@].play_count + 1
            } else {
                1
            },
            final(self)@[track_id@].track_id@ == if old(self)@.contains_key(track_id@) {
                old(self)@[track_id@].track_id@
            } else {
                track_id@
            },
    {
        let k = to_owned_string(track_id);
        let e = match self.get(track_id) {
            Some(old_e) => CacheManifestEntry {
                track_id: old_e.track_id.clone(),
                file_size,
                last_accessed: now,
                play_count: old_e.play_count + 1,
            },
            None => {
                let id = to_owned_string(track_id);
                CacheManifestEntry { track_id: id, file_size, last_accessed: now, play_count: 1 }
            },
        };
        self.put(k, e);
        assert(self@.remove(track_id@) =~= old(self)@.remove(track_id@));
        assert(self@.dom() =~= old(self)@.dom().insert(track_id@));
    }

    /// Records an access to `track_id` at the current time (as
    /// `record_access` does with the clock's reading).
    pub fn update_access(&mut self, track_id: &str, file_size: u64)
        requires
            old(self).wf(),
            old(self)@.contains_key(track_id@) ==> old(self)@[track_id@].play_count < u64::MAX,
        ensures
            final(self).wf(),
            final(self)@.dom() == old(self)@.dom().insert(track_id@),
            final(self)@.remove(track_id@) == old(self)@.remove(track_id@),
            final(self)@[track_id@].file_size == file_size,
            final(self)@[track_id@].play_count == if old(self)@.contains_key(track_id@) {
                old(self)@[track_id@].play_count + 1
            } else {
                1
            },
            final(self)@[track_id@].track_id@ == if old(self)@.contains_key(track_id@) {
                old(self)@[track_id@].track_id@
            } else {
                track_id@
            },
    {
        let now = unix_now();
        self.record_access(track_id, file_size, now);
    }

    /// A manifest holding the given pairs; of two pairs with one key the later wins.
    pub fn from_pairs(pairs: Vec<(String, CacheManifestEntry)>) -> (m: Manifest)
        ensures
            m.wf(),
            m@ == pairs_map(pairs@),
    {
        let mut m = Manifest::new();
        let mut rest = pairs;
        let mut taken: Vec<(String, CacheManifestEntry)> = Vec::new();
        let ghost all = rest@;
        let mut i: usize = 0;
        while i < rest.len()
            invariant
                i <= rest.len(),
                rest@ == all,
                m.wf(),
                m@ == pairs_map(all.take(i as int)),
            decreases rest.len() - i,
        {
            let key = rest[i].0.clone();
            let entry = rest[i].1.duplicate();
            m.put(key, entry);
            proof {
                let t = all.take(i + 1);
                assert(t.drop_last() =~= all.take(i as int));
                assert(t.last() == all[i as int]);
            }
            i = i + 1;
        }
        assert(all.take(all.len() as int) =~= all);
        m
    }

    /// The manifest's pairs: each key once, with its entry.
    pub fn to_pairs(&self) -> (r: Vec<(String, CacheManifestEntry)>)
        requires
            self.wf(),
        ensures
            r.len() == self@.len(),
            forall|i: int|
                0 <= i < r.len() ==> #[trigger] self@.contains_key(r[i].0@) && self@[r[i].0@]
                    == r[i].1,
            forall|i: int, j: int| 0 <= i < j < r.len() ==> #[trigger] r[i].0@ != #[trigger] r[j].0@,
    {
        let mut r: Vec<(String, CacheManifestEntry)> = Vec::new();
        let mut i: usize = 0;
        while i < self.items.len()
            invariant
                i <= self.items.len(),
                self.wf(),
                r.len() == i,
                forall|j: int| 0 <= j < i ==> #[trigger] r[j].0@ == self.items[j].0@ && r[j].1 == self.items[j].1,
            decreases self.items.len() - i,
        {
            r.push((self.items[i].0.clone(), self.items[i].1.duplicate()));
            i = i + 1;
        }
        proof {
            self.entries_are_values();
            assert forall|j: int| 0 <= j < r.len() implies #[trigger] self@.contains_key(r[j].0@)
                && self@[r[j].0@] == r[j].1 by {
                assert(r[j].0@ == self.items[j].0@);
                self.lemma_at(j);
            }
            assert forall|a: int, b: int| 0 <= a < b < r.len() implies #[trigger] r[a].0@
                != #[trigger] r[b].0@ by {
                assert(r[a].0@ == self.items[a].0@);
                assert(r[b].0@ == self.items[b].0@);
            }
        }
        r
    }

    /// The entries, in the manifest's own order.
    pub fn entries_vec(&self) -> (r: Vec<CacheManifestEntry>)
        ensures
            r@ == self.entries(),
    {
        let mut r: Vec<CacheManifestEntry> = Vec::new();
        let mut i: usize = 0;
        while i < self.items.len()
            invariant
                i <= self.items.len(),
                r@ == self.entries().take(i as int),
            decreases self.items.len() - i,
        {
            r.push(self.items[i].1.duplicate());
            assert(self.entries().take(i + 1) =~= self.entries().take(i as int).push(
                self.items[i as int].1,
            ));
            i = i + 1;
        }
        assert(self.entries().take(self.items.len() as int) =~= self.entries());
        r
    }
}

/// `chrono::Utc::now().timestamp()`: the current time in whole seconds since
/// the Unix epoch. Nothing is stated of the value: it is read from the clock.
#[verifier::external_body]
fn unix_now() -> i64 {
    chrono::Utc::now().timestamp()
}

/// The cached files that eviction never removes: those of the playback slots.
pub open spec fn protected_slot(id: Seq<char>) -> bool {
    id == "current"@ || id == "next"@ || id == "prev"@
}

/// Whether `id` names a playback slot.
pub fn is_protected_slot(id: &str) -> (r: bool)
    ensures
        r == protected_slot(id@),
{
    str_eq(id, "current") || str_eq(id, "next") || str_eq(id, "prev")
}

/// The first index at or after `i` whose entry is not a playback slot.
pub open spec fn first_unprotected(s: Seq<CacheManifestEntry>, i: int) -> int
    decreases s.len() - i,
{
    if i >= s.len() || i < 0 {
        s.len() as int
    } else if !protected_slot(s[i].track_id@) {
        i
    } else {
        first_unprotected(s, i + 1)
    }
}

/// The entry offered after position `i` is the first one from `i` on that is
/// not a playback slot; every entry passed over on the way is a playback slot.
pub proof fn lemma_first_unprotected(s: Seq<CacheManifestEntry>, i: int)
    requires
        0 <= i <= s.len(),
    ensures
        i <= first_unprotected(s, i) <= s.len(),
        first_unprotected(s, i) < s.len() ==> !protected_slot(s[first_unprotected(s, i)].track_id@),
        forall|k: int| i <= k < first_unprotected(s, i) ==> protected_slot(#[trigger] s[k].track_id@),
    decreases s.len() - i,
{
    if i < s.len() && protected_slot(s[i].track_id@) {
        lemma_first_unprotected(s, i + 1);
    }
}

/// The eviction that makes room for `incoming_size` more bytes in a pool of
/// `max_pool_size` bytes that holds `current_size`: the manifest's entries are
/// offered least played and oldest first, the playback slots skipped, until
/// the pool fits.
pub struct EvictionPlan {
    candidates: Vec<CacheManifestEntry>,
    next: usize,
    current_size: u64,
    incoming_size: u64,
    max_pool_size: u64,
}

impl EvictionPlan {
    /// The entries in the order in which they are offered.
    pub closed spec fn candidates(&self) -> Seq<CacheManifestEntry> {
        self.candidates@
    }

    /// How many candidates have been passed over so far.
    pub closed spec fn next_index(&self) -> int {
        self.next as int
    }

    /// The bytes that the pool holds now.
    pub closed spec fn current_size(&self) -> int {
        self.current_size as int
    }

    /// The bytes about to be added.
    pub closed spec fn incoming_size(&self) -> int {
        self.incoming_size as int
    }

    /// The pool's capacity.
    pub closed spec fn max_pool_size(&self) -> int {
        self.max_pool_size as int
    }

    /// The pool has room for the incoming bytes.
    pub open spec fn fits(&self) -> bool {
        self.current_size() + self.incoming_size() <= self.max_pool_size()
    }

    /// The bookkeeping is consistent.
    pub closed spec fn wf(&self) -> bool {
        &&& self.next <= self.candidates.len()
        &&& self.current_size + self.incoming_size <= u64::MAX
    }

    /// Plans the eviction for a pool that holds `current_size` bytes; `None`
    /// when the incoming bytes already fit, in which case nothing is evicted.
    pub fn new(manifest: &Manifest, current_size: u64, incoming_size: u64, max_pool_size: u64) -> (r:
        Option<EvictionPlan>)
        requires
            manifest.wf(),
            current_size + incoming_size <= u64::MAX,
        ensures
            r is None <==> current_size + incoming_size <= max_pool_size,
            r matches Some(p) ==> {
                &&& p.wf()
                &&& p.candidates() == sort_for_eviction(manifest.entries())
                &&& p.next_index() == 0
                &&& p.current_size() == current_size
                &&& p.incoming_size() == incoming_size
                &&& p.max_pool_size() == max_pool_size
            },
    {
        if current_size + incoming_size <= max_pool_size {
            return None;
        }
        let entries = manifest.entries_vec();
        let candidates = sorted_for_eviction(entries.as_slice());
        Some(EvictionPlan { candidates, next: 0, current_size, incoming_size, max_pool_size })
    }

    /// The next entry to evict: `None` once the incoming bytes fit or the
    /// candidates are exhausted; playback slots are passed over.
    pub fn next_candidate(&mut self) -> (r: Option<CacheManifestEntry>)
        requires
            old(self).wf(),
        ensures
            final(self).wf(),
            final(self).candidates() == old(self).candidates(),
            final(self).current_size() == old(self).current_size(),
            final(self).incoming_size() == old(self).incoming_size(),
            final(self).max_pool_size() == old(self).max_pool_size(),
            old(self).fits() ==> r is None && final(self).next_index() == old(self).next_index(),
            !old(self).fits() ==> {
                let j = first_unprotected(old(self).candidates(), old(self).next_index());
                if j < old(self).candidates().len() {
                    r == Some(old(self).candidates()[j]) && final(self).next_index() == j + 1
                } else {
                    r is None && final(self).next_index() == old(self).candidates().len()
                }
            },
            r matches Some(e) ==> !protected_slot(e.track_id@),
    {
        if self.current_size + self.incoming_size <= self.max_pool_size {
            return None;
        }
        proof {
            lemma_first_unprotected(self.candidates@, self.next as int);
        }
        while self.next < self.candidates.len()
            invariant
                old(self).wf(),
                !old(self).fits(),
                old(self).next <= self.next <= self.candidates.len(),
                self.candidates@ == old(self).candidates@,
                self.current_size == old(self).current_size,
                self.incoming_size == old(self).incoming_size,
                self.max_pool_size == old(self).max_pool_size,
                first_unprotected(self.candidates@, old(self).next as int) == first_unprotected(
                    self.candidates@,
                    self.next as int,
                ),
            decreases self.candidates.len() - self.next,
        {
            let i = self.next;
            self.next = i + 1;
            if !is_protected_slot(self.candidates[i].track_id.as_str()) {
                return Some(self.candidates[i].duplicate());
            }
        }
        None
    }

    /// Books the removal of `entry`'s file: the pool shrinks by the entry's
    /// size and the manifest forgets it.
    pub fn removed(&mut self, manifest: &mut Manifest, entry: &CacheManifestEntry)
        requires
            old(self).wf(),
            old(manifest).wf(),
            entry.file_size <= old(self).current_size(),
        ensures
            final(self).wf(),
            final(manifest).wf(),
            final(manifest)@ == old(manifest)@.remove(entry.track_id@),
            final(self).current_size() == old(self).current_size() - entry.file_size,
            final(self).candidates() == old(self).candidates(),
            final(self).next_index() == old(self).next_index(),
            final(self).incoming_size() == old(self).incoming_size(),
            final(self).max_pool_size() == old(self).max_pool_size(),
    {
        self.current_size = self.current_size - entry.file_size;
        manifest.remove(entry.track_id.as_str());
    }

    /// Whether the pool holds at least `bytes` bytes, so that a file of that
    /// size can be booked as removed.
    pub fn size_at_least(&self, bytes: u64) -> (r: bool)
        ensures
            r == (bytes <= self.current_size()),
    {
        bytes <= self.current_size
    }

    /// Whether the incoming bytes fit now.
    pub fn pool_fits(&self) -> (r: bool)
        requires
            self.wf(),
        ensures
            r == self.fits(),
    {
        self.current_size + self.incoming_size <= self.max_pool_size
    }
}

/// What a whole eviction removes, step by step as `EvictionPlan` offers the
/// candidates `s` (in eviction order, from position `i`): while the pool of
/// `current` bytes does not have room for `incoming` more within `max`, the
/// next candidate that is not a playback slot is offered, and it is removed,
/// its size leaving the pool, when its file is there to remove (`present`).
pub open spec fn eviction_removes(
    s: Seq<CacheManifestEntry>,
    present: Seq<bool>,
    i: int,
    current: int,
    incoming: int,
    max: int,
) -> Seq<CacheManifestEntry>
    decreases s.len() - i,
{
    if current + incoming <= max || i < 0 || i >= s.len() {
        Seq::empty()
    } else {
        proof {
            lemma_first_unprotected(s, i);
        }
        let j = first_unprotected(s, i);
        if j >= s.len() {
            Seq::empty()
        } else if present[j] {
            seq![s[j]] + eviction_removes(s, present, j + 1, current - s[j].file_size, incoming, max)
        } else {
            eviction_removes(s, present, j + 1, current, incoming, max)
        }
    }
}

/// The candidates from position `i` on that eviction may take: those that are
/// not playback slots and whose files are there, in order.
pub open spec fn removable_candidates(s: Seq<CacheManifestEntry>, present: Seq<bool>, i: int) -> Seq<
    CacheManifestEntry,
>
    decreases s.len() - i,
{
    if i < 0 || i >= s.len() {
        Seq::empty()
    } else if !protected_slot(s[i].track_id@) && present[i] {
        seq![s[i]] + removable_candidates(s, present, i + 1)
    } else {
        removable_candidates(s, present, i + 1)
    }
}

/// The total size of the entries `q`.
pub open spec fn total_size(q: Seq<CacheManifestEntry>) -> int
    decreases q.len(),
{
    if q.len() == 0 {
        0
    } else {
        q[0].file_size + total_size(q.drop_first())
    }
}

/// The shortest prefix of `q` whose removal makes room for `incoming` bytes
/// in a pool of `current` bytes within `max`, or all of `q` when no prefix does.
pub open spec fn shortest_fitting_prefix(
    q: Seq<CacheManifestEntry>,
    current: int,
    incoming: int,
    max: int,
) -> Seq<CacheManifestEntry>
    decreases q.len(),
{
    if current + incoming <= max || q.len() == 0 {
        Seq::empty()
    } else {
        seq![q[0]] + shortest_fitting_prefix(q.drop_first(), current - q[0].file_size, incoming, max)
    }
}

proof fn lemma_skip_protected(s: Seq<CacheManifestEntry>, present: Seq<bool>, i: int, j: int)
    requires
        0 <= i <= j <= s.len(),
        forall|k: int| i <= k < j ==> protected_slot(#[trigger] s[k].track_id@),
    ensures
        removable_candidates(s, present, i) == removable_candidates(s, present, j),
    decreases j - i,
{
    if i < j {
        assert(protected_slot(s[i].track_id@));
        lemma_skip_protected(s, present, i + 1, j);
    }
}

proof fn lemma_eviction_is_prefix(
    s: Seq<CacheManifestEntry>,
    present: Seq<bool>,
    i: int,
    current: int,
    incoming: int,
    max: int,
)
    requires
        0 <= i <= s.len(),
        present.len() == s.len(),
    ensures
        eviction_removes(s, present, i, current, incoming, max) == shortest_fitting_prefix(
            removable_candidates(s, present, i),
            current,
            incoming,
            max,
        ),
    decreases s.len() - i,
{
    if current + incoming <= max || i >= s.len() {
    } else {
        lemma_first_unprotected(s, i);
        let j = first_unprotected(s, i);
        lemma_skip_protected(s, present, i, j);
        if j < s.len() {
            lemma_eviction_is_prefix(s, present, j + 1, current - s[j].file_size, incoming, max);
            lemma_eviction_is_prefix(s, present, j + 1, current, incoming, max);
            if present[j] {
                let q = removable_candidates(s, present, j);
                assert(q == seq![s[j]] + removable_candidates(s, present, j + 1));
                assert(q[0] == s[j]);
                assert(q.drop_first() =~= removable_candidates(s, present, j + 1));
            }
        }
    }
}

proof fn lemma_shortest_prefix(q: Seq<CacheManifestEntry>, current: int, incoming: int, max: int)
    ensures
        shortest_fitting_prefix(q, current, incoming, max) == q.take(
            shortest_fitting_prefix(q, current, incoming, max).len() as int,
        ),
        shortest_fitting_prefix(q, current, incoming, max).len() <= q.len(),
        ({
            let k = shortest_fitting_prefix(q, current, incoming, max).len() as int;
            &&& (current - total_size(q.take(k)) + incoming <= max || k == q.len())
            &&& forall|m: int|
                0 <= m < k ==> current - total_size(#[trigger] q.take(m)) + incoming > max
        }),
    decreases q.len(),
{
    let r = shortest_fitting_prefix(q, current, incoming, max);
    if current + incoming <= max || q.len() == 0 {
        assert(q.take(0) =~= Seq::<CacheManifestEntry>::empty());
    } else {
        let q2 = q.drop_first();
        let c2 = current - q[0].file_size;
        lemma_shortest_prefix(q2, c2, incoming, max);
        let r2 = shortest_fitting_prefix(q2, c2, incoming, max);
        let k = r.len() as int;
        assert(r == seq![q[0]] + r2);
        assert(r =~= q.take(k)) by {
            assert(r2 =~= q2.take(k - 1));
        }
        assert forall|m: int| 1 <= m <= q.len() implies total_size(#[trigger] q.take(m)) == q[0].file_size
            + total_size(q2.take(m - 1)) by {
            let t = q.take(m);
            assert(t[0] == q[0]);
            assert(t.drop_first() =~= q2.take(m - 1));
        }
        assert(q.take(0) =~= Seq::<CacheManifestEntry>::empty());
        assert forall|m: int| 0 <= m < k implies current - total_size(#[trigger] q.take(m))
            + incoming > max by {
            if m > 0 {
                assert(c2 - total_size(q2.take(m - 1)) + incoming > max);
            }
        }
    }
}

/// A whole eviction removes exactly the shortest prefix of the removable
/// candidates (least played and oldest first, playback slots and missing
/// files passed over) after whose removal the incoming bytes fit; when no
/// prefix makes room, it removes them all.
pub proof fn eviction_removes_shortest_prefix(
    s: Seq<CacheManifestEntry>,
    present: Seq<bool>,
    current: int,
    incoming: int,
    max: int,
)
    requires
        present.len() == s.len(),
    ensures
        ({
            let q = removable_candidates(s, present, 0);
            let r = eviction_removes(s, present, 0, current, incoming, max);
            let k = r.len() as int;
            &&& r == q.take(k)
            &&& (current - total_size(r) + incoming <= max || k == q.len())
            &&& forall|m: int|
                0 <= m < k ==> current - total_size(#[trigger] q.take(m)) + incoming > max
        }),
{
    lemma_eviction_is_prefix(s, present, 0, current, incoming, max);
    lemma_shortest_prefix(removable_candidates(s, present, 0), current, incoming, max);
}

/// A path separator: a slash, or a backslash as Windows also reads it.
pub open spec fn is_separator(c: char) -> bool {
    c == '/' || c == '\\'
}

/// `..` stands as a whole path component of `s` at index `i`.
pub open spec fn parent_component_at(s: Seq<char>, i: int) -> bool {
    &&& 0 <= i
    &&& i + 2 <= s.len()
    &&& s[i] == '.'
    &&& s[i + 1] == '.'
    &&& (i == 0 || is_separator(s[i - 1]))
    &&& (i + 2 == s.len() || is_separator(s[i + 2]))
}

/// A track id whose path stays inside the cache directory: it is not empty,
/// does not start with a separator (an absolute path), does not start with a
/// drive such as `C:`, and has no `..` component. Ids such as `artist/track`
/// are allowed.
pub open spec fn contained_track_id(id: Seq<char>) -> bool {
    &&& id.len() > 0
    &&& !is_separator(id[0])
    &&& !(id.len() >= 2 && id[1] == ':')
    &&& !(exists|i: int| #[trigger] parent_component_at(id, i))
}

fn is_separator_exec(c: char) -> (r: bool)
    ensures
        r == is_separator(c),
{
    c == '/' || c == '\\'
}

/// Whether `id` may name a file under the cache directory; a request naming
/// any other id is refused before a path is built from it.
pub fn is_contained_track_id(id: &str) -> (r: bool)
    ensures
        r == contained_track_id(id@),
{
    let v = chars_of(id);
    if v.len() == 0 || is_separator_exec(v[0]) || (v.len() >= 2 && v[1] == ':') {
        return false;
    }
    let mut i: usize = 0;
    while i < v.len() && v.len() - i >= 2
        invariant
            v@ == id@,
            i <= v.len(),
            forall|j: int| 0 <= j < i ==> !parent_component_at(id@, j),
        decreases v.len() - i,
    {
        if v[i] == '.' && v[i + 1] == '.' && (i == 0 || is_separator_exec(v[i - 1])) && (i + 2
            == v.len() || is_separator_exec(v[i + 2])) {
            assert(parent_component_at(id@, i as int));
            return false;
        }
        i = i + 1;
    }
    assert forall|j: int| !parent_component_at(id@, j) by {
        if 0 <= j && j >= i {
            assert(i >= v.len() || v.len() - i < 2);
        }
    }
    true
}

/// The file name of a playback slot: the slot's name with `.stream` appended.
pub fn slot_file_name(slot: &str) -> (r: String)
    ensures
        r@ == slot@ + ".stream"@,
{
    concat_str(slot, ".stream")
}

} // verus!
