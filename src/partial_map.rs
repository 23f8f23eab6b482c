//! A map from key to statistics, scoped to one chunk or to the whole run.
use vstd::prelude::*;
use crate::stats::{KeyStats, Summary, combine, summary_wf, lemma_combine_wf, MAX_UNITS};

verus! {

/// Map model of a partial result.
pub type StatsMap = Map<Seq<char>, Summary>;

/// Adds the statistics `s` of further observations of key `k` to `m`.
pub open spec fn absorb(m: StatsMap, k: Seq<char>, s: Summary) -> StatsMap {
    if m.contains_key(k) {
        m.insert(k, combine(m[k], s))
    } else {
        m.insert(k, s)
    }
}

/// The merge of two partial results: every key of either side, with the
/// statistics of both sides combined where the key is on both.
pub open spec fn merge_maps(a: StatsMap, b: StatsMap) -> StatsMap {
    Map::new(
        |k: Seq<char>| a.contains_key(k) || b.contains_key(k),
        |k: Seq<char>|
            if a.contains_key(k) && b.contains_key(k) {
                combine(a[k], b[k])
            } else if a.contains_key(k) {
                a[k]
            } else {
                b[k]
            },
    )
}

/// Every key's statistics are well formed.
pub open spec fn map_wf(m: StatsMap) -> bool {
    forall|k: Seq<char>| #[trigger] m.contains_key(k) ==> summary_wf(m[k])
}

/// The merge can be carried out without overflowing a count.
pub open spec fn mergeable(a: StatsMap, b: StatsMap) -> bool {
    forall|k: Seq<char>|
        a.contains_key(k) && b.contains_key(k) ==> #[trigger] a[k].count + #[trigger] b[k].count
            <= u64::MAX
}

/// Merging partial results is commutative.
pub proof fn lemma_merge_commutative(a: StatsMap, b: StatsMap)
    ensures
        merge_maps(a, b) == merge_maps(b, a),
{
    assert(merge_maps(a, b) =~= merge_maps(b, a));
}

/// Merging partial results is associative.
pub proof fn lemma_merge_associative(a: StatsMap, b: StatsMap, c: StatsMap)
    ensures
        merge_maps(merge_maps(a, b), c) == merge_maps(a, merge_maps(b, c)),
{
    assert(merge_maps(merge_maps(a, b), c) =~= merge_maps(a, merge_maps(b, c)));
}

/// Merging with an empty result changes nothing.
pub proof fn lemma_merge_empty(a: StatsMap)
    ensures
        merge_maps(a, Map::empty()) == a,
        merge_maps(Map::empty(), a) == a,
{
    assert(merge_maps(a, Map::empty()) =~= a);
    assert(merge_maps(Map::empty(), a) =~= a);
}

/// Adding one key's statistics is a merge with a one-key map.
pub proof fn lemma_absorb_is_merge(m: StatsMap, k: Seq<char>, s: Summary)
    ensures
        absorb(m, k, s) == merge_maps(m, map![k => s]),
{
    assert(absorb(m, k, s) =~= merge_maps(m, map![k => s]));
}

/// Merging well-formed results gives a well-formed result.
pub proof fn lemma_merge_wf(a: StatsMap, b: StatsMap)
    requires
        map_wf(a),
        map_wf(b),
    ensures
        map_wf(merge_maps(a, b)),
{
    assert forall|k: Seq<char>| #[trigger] merge_maps(a, b).contains_key(k) implies summary_wf(
        merge_maps(a, b)[k],
    ) by {
        if a.contains_key(k) && b.contains_key(k) {
            lemma_combine_wf(a[k], b[k]);
        }
    }
}

proof fn lemma_merge_insert_fresh(g: StatsMap, p: StatsMap, k: Seq<char>, s: Summary)
    requires
        !p.contains_key(k),
    ensures
        merge_maps(g, p.insert(k, s)) == absorb(merge_maps(g, p), k, s),
{
    assert(merge_maps(g, p.insert(k, s)) =~= absorb(merge_maps(g, p), k, s));
}

struct Entry {
    key: String,
    stats: KeyStats,
}

/// Statistics per key. Keys are unique; each key's statistics are well
/// formed.
pub struct PartialMap {
    entries: Vec<Entry>,
}

spec fn entries_map(s: Seq<Entry>) -> StatsMap
    decreases s.len(),
{
    if s.len() == 0 {
        Map::empty()
    } else {
        entries_map(s.drop_last()).insert(s.last().key@, s.last().stats@)
    }
}

spec fn keys_unique(s: Seq<Entry>) -> bool {
    forall|i: int, j: int|
        0 <= i < s.len() && 0 <= j < s.len() && i != j ==> #[trigger] s[i].key@ != #[trigger] s[j].key@
}

proof fn lemma_entries_map(s: Seq<Entry>)
    ensures
        forall|k: Seq<char>|
            #[trigger] entries_map(s).contains_key(k) <==> exists|i: int|
                0 <= i < s.len() && #[trigger] s[i].key@ == k,
        keys_unique(s) ==> forall|i: int|
            0 <= i < s.len() ==> #[trigger] entries_map(s)[s[i].key@] == s[i].stats@,
        keys_unique(s) ==> entries_map(s).dom().len() == s.len(),
        entries_map(s).dom().finite(),
    decreases s.len(),
{
    if s.len() > 0 {
        let t = s.drop_last();
        lemma_entries_map(t);
        assert forall|k: Seq<char>|
            #[trigger] entries_map(s).contains_key(k) <==> exists|i: int|
                0 <= i < s.len() && #[trigger] s[i].key@ == k by {
            if entries_map(s).contains_key(k) && k != s.last().key@ {
                let i = choose|i: int| 0 <= i < t.len() && #[trigger] t[i].key@ == k;
                assert(s[i].key@ == k);
            }
            if exists|i: int| 0 <= i < s.len() && #[trigger] s[i].key@ == k {
                let i = choose|i: int| 0 <= i < s.len() && #[trigger] s[i].key@ == k;
                if i < t.len() {
                    assert(t[i].key@ == k);
                }
            }
        }
        if keys_unique(s) {
            assert(keys_unique(t));
            assert forall|i: int| 0 <= i < s.len() implies #[trigger] entries_map(s)[s[i].key@]
                == s[i].stats@ by {
                if i < t.len() {
                    assert(t[i].key@ == s[i].key@);
                }
            }
            assert(!entries_map(t).contains_key(s.last().key@)) by {
                if entries_map(t).contains_key(s.last().key@) {
                    let i = choose|i: int| 0 <= i < t.len() && #[trigger] t[i].key@ == s.last().key@;
                    assert(s[i].key@ == s[s.len() - 1].key@);
                }
            }
        }
    }
}

proof fn lemma_entries_update(s: Seq<Entry>, i: int, e: Entry)
    requires
        keys_unique(s),
        0 <= i < s.len(),
        s[i].key@ == e.key@,
    ensures
        keys_unique(s.update(i, e)),
        entries_map(s.update(i, e)) == entries_map(s).insert(e.key@, e.stats@),
{
    let u = s.update(i, e);
    assert(keys_unique(u)) by {
        assert forall|a: int, b: int|
            0 <= a < u.len() && 0 <= b < u.len() && a != b implies #[trigger] u[a].key@
            != #[trigger] u[b].key@ by {
            assert(u[a].key@ == s[a].key@);
            assert(u[b].key@ == s[b].key@);
        }
    }
    lemma_entries_map(s);
    lemma_entries_map(u);
    assert forall|k: Seq<char>| #[trigger] entries_map(u).contains_key(k) <==> entries_map(
        s,
    ).insert(e.key@, e.stats@).contains_key(k) by {
        if entries_map(u).contains_key(k) {
            let j = choose|j: int| 0 <= j < u.len() && #[trigger] u[j].key@ == k;
            assert(s[j].key@ == k);
        }
        if entries_map(s).contains_key(k) {
            let j = choose|j: int| 0 <= j < s.len() && #[trigger] s[j].key@ == k;
            assert(u[j].key@ == k);
        }
        if k == e.key@ {
            assert(u[i].key@ == k);
        }
    }
    assert forall|k: Seq<char>| #[trigger] entries_map(u).contains_key(k) implies entries_map(u)[k]
        == entries_map(s).insert(e.key@, e.stats@)[k] by {
        let j = choose|j: int| 0 <= j < u.len() && #[trigger] u[j].key@ == k;
        assert(u[j].key@ == k);
        if j != i {
            assert(s[j].key@ == k);
        }
    }
    assert(entries_map(u) =~= entries_map(s).insert(e.key@, e.stats@));
}

impl View for PartialMap {
    type V = StatsMap;

    closed spec fn view(&self) -> StatsMap {
        entries_map(self.entries@)
    }
}

impl PartialMap {
    /// Keys are unique and every key's statistics are well formed.
    pub closed spec fn wf(&self) -> bool {
        &&& keys_unique(self.entries@)
        &&& forall|i: int| 0 <= i < self.entries@.len() ==> (#[trigger] self.entries@[i]).stats.wf()
    }

    proof fn lemma_view_wf(&self)
        requires
            self.wf(),
        ensures
            map_wf(self@),
            self@.dom().finite(),
            self@.dom().len() == self.entries@.len(),
    {
        lemma_entries_map(self.entries@);
        assert forall|k: Seq<char>| #[trigger] self@.contains_key(k) implies summary_wf(self@[k]) by {
            let i = choose|i: int| 0 <= i < self.entries@.len() && #[trigger] self.entries@[i].key@ == k;
            assert(self.entries@[i].stats.wf());
        }
    }

    /// Well-formed statistics for every key.
    pub proof fn lemma_wf(&self)
        requires
            self.wf(),
        ensures
            map_wf(self@),
            self@.dom().finite(),
    {
        self.lemma_view_wf();
    }

    /// An empty map.
    pub fn new() -> (r: PartialMap)
        ensures
            r.wf(),
            r@ == Map::<Seq<char>, Summary>::empty(),
    {
        let r = PartialMap { entries: Vec::new() };
        assert(r@ == entries_map(Seq::empty()));
        r
    }

    /// Number of keys.
    pub fn len(&self) -> (r: usize)
        requires
            self.wf(),
        ensures
            r == self@.dom().len(),
    {
        proof {
            self.lemma_view_wf();
        }
        self.entries.len()
    }

    fn find(&self, key: &String) -> (r: Option<usize>)
        requires
            self.wf(),
        ensures
            r is None ==> !self@.contains_key(key@),
            r is Some ==> r->0 < self.entries@.len() && self.entries@[r->0 as int].key@ == key@
                && self@.contains_key(key@),
    {
        proof {
            lemma_entries_map(self.entries@);
        }
        let mut i: usize = 0;
        while i < self.entries.len()
            invariant
                i <= self.entries@.len(),
                forall|j: int| 0 <= j < i ==> #[trigger] self.entries@[j].key@ != key@,
            decreases self.entries@.len() - i,
        {
            if self.entries[i].key == *key {
                proof {
                    lemma_entries_map(self.entries@);
                    assert(self.entries@[i as int].key@ == key@);
                }
                return Some(i);
            }
            i = i + 1;
        }
        None
    }

    /// Statistics of `key`, if it was observed.
    pub fn get(&self, key: &str) -> (r: Option<KeyStats>)
        requires
            self.wf(),
        ensures
            r is None <==> !self@.contains_key(key@),
            r is Some ==> r->0@ == self@[key@] && r->0.wf(),
    {
        proof {
            lemma_entries_map(self.entries@);
            self.lemma_view_wf();
        }
        let k = key.to_owned();
        match self.find(&k) {
            Some(i) => Some(self.entries[i].stats),
            None => None,
        }
    }

    /// Key and statistics of the `i`-th entry, in an order that is fixed for a
    /// given map.
    pub fn entry(&self, i: usize) -> (r: (String, KeyStats))
        requires
            self.wf(),
            i < self@.dom().len(),
        ensures
            self@.contains_key(r.0@),
            self@[r.0@] == r.1@,
            r.1.wf(),
            r.0@ == self.key_at(i as int),
    {
        proof {
            self.lemma_view_wf();
            lemma_entries_map(self.entries@);
        }
        (self.entries[i].key.clone(), self.entries[i].stats)
    }

    /// The key of the `i`-th entry.
    pub closed spec fn key_at(&self, i: int) -> Seq<char> {
        self.entries@[i].key@
    }

    /// The entries list every key exactly once.
    pub proof fn lemma_keys(&self)
        requires
            self.wf(),
        ensures
            forall|i: int, j: int|
                0 <= i < self@.dom().len() && 0 <= j < self@.dom().len() && i != j
                    ==> #[trigger] self.key_at(i) != #[trigger] self.key_at(j),
            forall|k: Seq<char>|
                #[trigger] self@.contains_key(k) ==> exists|i: int|
                    0 <= i < self@.dom().len() && #[trigger] self.key_at(i) == k,
    {
        self.lemma_view_wf();
        lemma_entries_map(self.entries@);
        assert forall|k: Seq<char>| #[trigger] self@.contains_key(k) implies exists|i: int|
            0 <= i < self@.dom().len() && #[trigger] self.key_at(i) == k by {
            let i = choose|i: int| 0 <= i < self.entries@.len() && #[trigger] self.entries@[i].key@ == k;
            assert(self.key_at(i) == k);
        }
    }

    /// Adds one observation of `value` under `key`.
    pub fn record(&mut self, key: String, value: i64)
        requires
            old(self).wf(),
            -MAX_UNITS <= value,
            old(self)@.contains_key(key@) ==> old(self)@[key@].count < u64::MAX,
        ensures
            final(self).wf(),
            final(self)@ == absorb(old(self)@, key@, crate::stats::single(value as int)),
    {
        let one = KeyStats::new(value);
        self.absorb_stats(key, &one);
    }

    fn absorb_stats(&mut self, key: String, s: &KeyStats)
        requires
            old(self).wf(),
            s.wf(),
            old(self)@.contains_key(key@) ==> old(self)@[key@].count + s@.count <= u64::MAX,
        ensures
            final(self).wf(),
            final(self)@ == absorb(old(self)@, key@, s@),
    {
        proof {
            lemma_entries_map(self.entries@);
        }
        match self.find(&key) {
            Some(i) => {
                let mut st = self.entries[i].stats;
                assert(st.wf());
                st.combine(s);
                proof {
                    lemma_entries_update(self.entries@, i as int, Entry { key, stats: st });
                }
                self.entries.set(i, Entry { key, stats: st });
            },
            None => {
                let ghost before = self.entries@;
                let ghost k = key@;
                self.entries.push(Entry { key, stats: *s });
                proof {
                    assert(self.entries@.drop_last() =~= before);
                    assert forall|a: int, b: int|
                        0 <= a < self.entries@.len() && 0 <= b < self.entries@.len() && a != b
                            implies #[trigger] self.entries@[a].key@
                        != #[trigger] self.entries@[b].key@ by {
                        if a < before.len() && b < before.len() {
                            assert(before[a].key@ != before[b].key@);
                        } else if a < before.len() {
                            assert(before[a].key@ != k);
                        } else {
                            assert(before[b].key@ != k);
                        }
                    }
                }
            },
        }
    }
}

/// Whether `partial` can be merged into `global` without a count
/// overflowing.
pub fn can_merge(global: &PartialMap, partial: &PartialMap) -> (r: bool)
    requires
        global.wf(),
        partial.wf(),
    ensures
        r == mergeable(global@, partial@),
{
    let mut i: usize = 0;
    while i < partial.entries.len()
        invariant
            global.wf(),
            partial.wf(),
            i <= partial.entries@.len(),
            forall|j: int|
                0 <= j < i && global@.contains_key(#[trigger] partial.entries@[j].key@)
                    ==> global@[partial.entries@[j].key@].count + partial.entries@[j].stats@.count
                    <= u64::MAX,
        decreases partial.entries@.len() - i,
    {
        match global.find(&partial.entries[i].key) {
            Some(g) => {
                let a = global.entries[g].stats.count();
                let b = partial.entries[i].stats.count();
                proof {
                    lemma_entries_map(global.entries@);
                }
                if a > u64::MAX - b {
                    proof {
                        lemma_entries_map(partial.entries@);
                        let k = partial.entries@[i as int].key@;
                        assert(partial@.contains_key(k));
                        assert(global@[k].count + partial@[k].count > u64::MAX);
                    }
                    return false;
                }
                proof {
                    lemma_entries_map(global.entries@);
                }
            },
            None => {},
        }
        i = i + 1;
    }
    proof {
        lemma_entries_map(partial.entries@);
        assert forall|k: Seq<char>|
            global@.contains_key(k) && partial@.contains_key(k) implies #[trigger] global@[k].count
            + #[trigger] partial@[k].count <= u64::MAX by {
            let j = choose|j: int|
                0 <= j < partial.entries@.len() && #[trigger] partial.entries@[j].key@ == k;
            assert(global@.contains_key(partial.entries@[j].key@));
        }
    }
    true
}

/// Merges the partial result `partial` into `global`.
pub fn merge_results(global: &mut PartialMap, partial: PartialMap)
    requires
        old(global).wf(),
        partial.wf(),
        mergeable(old(global)@, partial@),
    ensures
        final(global).wf(),
        final(global)@ == merge_maps(old(global)@, partial@),
{
    let ghost g0 = global@;
    let ghost es = partial.entries@;
    proof {
        lemma_entries_map(es);
        lemma_merge_empty(g0);
        assert(es.take(0) =~= Seq::<Entry>::empty());
        assert(entries_map(es.take(0)) == Map::<Seq<char>, Summary>::empty());
    }
    let mut i: usize = 0;
    while i < partial.entries.len()
        invariant
            global.wf(),
            partial.wf(),
            es == partial.entries@,
            i <= es.len(),
            mergeable(g0, partial@),
            global@ == merge_maps(g0, entries_map(es.take(i as int))),
            partial@ == entries_map(es),
            keys_unique(es),
        decreases es.len() - i,
    {
        let key = partial.entries[i].key.clone();
        let ghost pi = entries_map(es.take(i as int));
        proof {
            let t = es.take(i as int + 1);
            assert(t.drop_last() =~= es.take(i as int));
            assert(t.last() == es[i as int]);
            lemma_entries_map(es.take(i as int));
            assert(!pi.contains_key(key@)) by {
                if pi.contains_key(key@) {
                    let j = choose|j: int| 0 <= j < i && #[trigger] es.take(i as int)[j].key@ == key@;
                    assert(es[j].key@ == es[i as int].key@);
                }
            }
            lemma_merge_insert_fresh(g0, pi, key@, es[i as int].stats@);
            assert(es[i as int].stats.wf());
            assert(es[i as int].key@ == key@);
            lemma_entries_map(es);
            assert(partial@.contains_key(key@));
            assert(partial@[key@] == es[i as int].stats@);
        }
        global.absorb_stats(key, &partial.entries[i].stats);
        i = i + 1;
    }
    proof {
        assert(es.take(es.len() as int) =~= es);
    }
}

} // verus!
