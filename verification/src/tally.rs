//! A per-team counter keyed by team abbreviation: the crate's form of a
//! `HashMap<String, u32>` that only ever gets `+=` updates. Entries are
//! kept in first-insertion order with distinct keys.
use vstd::prelude::*;

use crate::text::str_eq;

verus! {

/// Adds `g` to the count of `k` (starting from 0 when absent).
pub open spec fn map_add(m: Map<Seq<char>, int>, k: Seq<char>, g: int) -> Map<Seq<char>, int> {
    m.insert(
        k,
        (if m.contains_key(k) {
            m[k]
        } else {
            0
        }) + g,
    )
}

/// The keys of the entries.
pub open spec fn keys_of(entries: Seq<(String, u32)>) -> Seq<Seq<char>> {
    entries.map_values(|e: (String, u32)| e.0@)
}

/// No two entries share a key.
pub open spec fn distinct_keys(entries: Seq<(String, u32)>) -> bool {
    forall|i: int, j: int|
        0 <= i < j < entries.len() ==> #[trigger] entries[i].0@ != #[trigger] entries[j].0@
}

/// The map the entries stand for.
pub open spec fn entries_map(entries: Seq<(String, u32)>) -> Map<Seq<char>, int>
    decreases entries.len(),
{
    if entries.len() == 0 {
        Map::empty()
    } else {
        entries_map(entries.drop_last()).insert(entries.last().0@, entries.last().1 as int)
    }
}

/// Every count of the map fits in a `u32`.
pub open spec fn fits_u32(m: Map<Seq<char>, int>) -> bool {
    forall|k: Seq<char>| #[trigger] m.contains_key(k) ==> 0 <= m[k] <= u32::MAX
}

/// A map is below another: same or fewer keys, no larger counts.
pub open spec fn map_le(a: Map<Seq<char>, int>, b: Map<Seq<char>, int>) -> bool {
    forall|k: Seq<char>| #[trigger] a.contains_key(k) ==> b.contains_key(k) && a[k] <= b[k]
}

/// Counts per team abbreviation.
#[derive(Debug)]
pub struct TeamTally {
    pub entries: Vec<(String, u32)>,
}

proof fn lemma_entries_map_facts(entries: Seq<(String, u32)>)
    requires
        distinct_keys(entries),
    ensures
        forall|i: int|
            #![trigger entries[i]]
            0 <= i < entries.len() ==> entries_map(entries).contains_key(entries[i].0@)
                && entries_map(entries)[entries[i].0@] == entries[i].1 as int,
        forall|k: Seq<char>| #[trigger]
            entries_map(entries).contains_key(k) ==> exists|i: int|
                0 <= i < entries.len() && entries[i].0@ == k,
    decreases entries.len(),
{
    if entries.len() > 0 {
        let p = entries.drop_last();
        assert(distinct_keys(p)) by {
            assert forall|i: int, j: int| 0 <= i < j < p.len() implies #[trigger] p[i].0@
                != #[trigger] p[j].0@ by {
                assert(p[i] == entries[i]);
                assert(p[j] == entries[j]);
            }
        }
        lemma_entries_map_facts(p);
        assert forall|i: int| #![trigger entries[i]] 0 <= i < entries.len() implies entries_map(
            entries,
        ).contains_key(entries[i].0@) && entries_map(entries)[entries[i].0@]
            == entries[i].1 as int by {
            if i < entries.len() - 1 {
                assert(p[i] == entries[i]);
                assert(entries_map(p).contains_key(p[i].0@) && entries_map(p)[p[i].0@]
                    == p[i].1 as int);
                assert(entries[i].0@ != entries[entries.len() - 1].0@);
            }
        }
        assert forall|k: Seq<char>| #[trigger]
            entries_map(entries).contains_key(k) implies exists|i: int|
            0 <= i < entries.len() && entries[i].0@ == k by {
            if k == entries.last().0@ {
                assert(entries[entries.len() - 1].0@ == k);
            } else {
                assert(entries_map(p).contains_key(k));
                let i = choose|i: int| 0 <= i < p.len() && p[i].0@ == k;
                assert(entries[i] == p[i]);
            }
        }
    }
}

proof fn lemma_entries_map_update(entries: Seq<(String, u32)>, i: int, v: u32)
    requires
        distinct_keys(entries),
        0 <= i < entries.len(),
    ensures
        entries_map(entries.update(i, (entries[i].0, v))) == entries_map(entries).insert(
            entries[i].0@,
            v as int,
        ),
        distinct_keys(entries.update(i, (entries[i].0, v))),
    decreases entries.len(),
{
    let u = entries.update(i, (entries[i].0, v));
    assert(distinct_keys(u)) by {
        assert forall|a: int, b: int| 0 <= a < b < u.len() implies #[trigger] u[a].0@
            != #[trigger] u[b].0@ by {
            assert(u[a].0@ == entries[a].0@);
            assert(u[b].0@ == entries[b].0@);
        }
    }
    let p = entries.drop_last();
    assert(distinct_keys(p)) by {
        assert forall|a: int, b: int| 0 <= a < b < p.len() implies #[trigger] p[a].0@
            != #[trigger] p[b].0@ by {
            assert(p[a] == entries[a]);
            assert(p[b] == entries[b]);
        }
    }
    if i == entries.len() - 1 {
        assert(u.drop_last() =~= p);
        assert(entries_map(u) =~= entries_map(entries).insert(entries[i].0@, v as int));
    } else {
        lemma_entries_map_update(p, i, v);
        assert(u.drop_last() =~= p.update(i, (entries[i].0, v)));
        assert(entries[i].0@ != entries.last().0@);
        assert(u.last() == entries.last());
        assert(entries_map(u) =~= entries_map(entries).insert(entries[i].0@, v as int));
    }
}

impl TeamTally {
    /// The map of counts the tally stands for.
    pub open spec fn view_map(&self) -> Map<Seq<char>, int> {
        entries_map(self.entries@)
    }

    /// The tally is well formed: each team at most once.
    pub open spec fn wf(&self) -> bool {
        distinct_keys(self.entries@)
    }

    /// An empty tally.
    pub fn new() -> (r: TeamTally)
        ensures
            r.wf(),
            r.view_map() == Map::<Seq<char>, int>::empty(),
    {
        TeamTally { entries: Vec::new() }
    }

    /// Number of teams counted.
    pub fn len(&self) -> (r: usize)
        requires
            self.wf(),
        ensures
            r == self.view_map().dom().len(),
    {
        proof {
            self.lemma_dom_len();
        }
        self.entries.len()
    }

    proof fn lemma_dom_len(&self)
        requires
            self.wf(),
        ensures
            self.view_map().dom().finite(),
            self.view_map().dom().len() == self.entries@.len(),
        decreases self.entries@.len(),
    {
        lemma_dom_len_of(self.entries@);
    }

    /// No team counted.
    pub fn is_empty(&self) -> (r: bool)
        requires
            self.wf(),
        ensures
            r == (self.view_map() == Map::<Seq<char>, int>::empty()),
    {
        proof {
            lemma_entries_map_facts(self.entries@);
            if self.entries@.len() > 0 {
                assert(self.view_map().contains_key(self.entries@[0].0@));
            } else {
                assert(self.view_map() =~= Map::<Seq<char>, int>::empty());
            }
        }
        self.entries.len() == 0
    }

    /// Position of `key`, if counted.
    fn find(&self, key: &str) -> (r: Option<usize>)
        requires
            self.wf(),
        ensures
            match r {
                Some(i) => i < self.entries@.len() && self.entries@[i as int].0@ == key@,
                None => forall|i: int|
                    0 <= i < self.entries@.len() ==> #[trigger] self.entries@[i].0@ != key@,
            },
    {
        let n = self.entries.len();
        let mut i: usize = 0;
        while i < n
            invariant
                n == self.entries@.len(),
                i <= n,
                forall|j: int| 0 <= j < i ==> #[trigger] self.entries@[j].0@ != key@,
            decreases n - i,
        {
            if str_eq(self.entries[i].0.as_str(), key) {
                return Some(i);
            }
            i = i + 1;
        }
        None
    }

    /// The count of `key`, if counted.
    pub fn get(&self, key: &str) -> (r: Option<u32>)
        requires
            self.wf(),
        ensures
            match r {
                Some(v) => self.view_map().contains_key(key@) && self.view_map()[key@] == v,
                None => !self.view_map().contains_key(key@),
            },
    {
        proof {
            lemma_entries_map_facts(self.entries@);
        }
        match self.find(key) {
            Some(i) => Some(self.entries[i].1),
            None => None,
        }
    }

    /// Adds `games` to the count of `team`.
    pub fn add(&mut self, team: &str, games: u32)
        requires
            old(self).wf(),
            fits_u32(map_add(old(self).view_map(), team@, games as int)),
        ensures
            final(self).wf(),
            final(self).view_map() == map_add(old(self).view_map(), team@, games as int),
    {
        proof {
            lemma_entries_map_facts(self.entries@);
        }
        match self.find(team) {
            Some(i) => {
                let cur = self.entries[i].1;
                let ghost m = map_add(old(self).view_map(), team@, games as int);
                assert(m.contains_key(team@));
                let nv: u32 = cur + games;
                let key = self.entries[i].0.clone();
                proof {
                    lemma_entries_map_update(self.entries@, i as int, nv);
                }
                self.entries.set(i, (key, nv));
                assert(self.view_map() =~= map_add(old(self).view_map(), team@, games as int));
            },
            None => {
                let ghost old_entries = self.entries@;
                let key = String::from_str(team);
                self.entries.push((key, games));
                proof {
                    assert(self.entries@.drop_last() =~= old_entries);
                    assert forall|a: int, b: int| 0 <= a < b < self.entries@.len() implies #[trigger] self.entries@[a].0@
                        != #[trigger] self.entries@[b].0@ by {
                        if b == self.entries@.len() - 1 {
                            assert(self.entries@[a] == old_entries[a]);
                        } else {
                            assert(self.entries@[a] == old_entries[a]);
                            assert(self.entries@[b] == old_entries[b]);
                        }
                    }
                    assert(!old(self).view_map().contains_key(team@)) by {
                        if old(self).view_map().contains_key(team@) {
                            let j = choose|j: int|
                                0 <= j < old_entries.len() && old_entries[j].0@ == team@;
                        }
                    }
                    assert(self.view_map() =~= map_add(
                        old(self).view_map(),
                        team@,
                        games as int,
                    ));
                }
            },
        }
    }
}

proof fn lemma_dom_len_of(entries: Seq<(String, u32)>)
    requires
        distinct_keys(entries),
    ensures
        entries_map(entries).dom().finite(),
        entries_map(entries).dom().len() == entries.len(),
    decreases entries.len(),
{
    if entries.len() > 0 {
        let p = entries.drop_last();
        assert(distinct_keys(p)) by {
            assert forall|a: int, b: int| 0 <= a < b < p.len() implies #[trigger] p[a].0@
                != #[trigger] p[b].0@ by {
                assert(p[a] == entries[a]);
                assert(p[b] == entries[b]);
            }
        }
        lemma_dom_len_of(p);
        lemma_entries_map_facts(p);
        assert(!entries_map(p).contains_key(entries.last().0@)) by {
            if entries_map(p).contains_key(entries.last().0@) {
                let j = choose|j: int| 0 <= j < p.len() && p[j].0@ == entries.last().0@;
                assert(entries[j] == p[j]);
            }
        }
        assert(entries_map(entries).dom() =~= entries_map(p).dom().insert(entries.last().0@));
    } else {
        assert(entries_map(entries).dom() =~= Set::<Seq<char>>::empty());
    }
}

/// Adding a non-negative amount only raises counts.
pub proof fn lemma_map_add_grows(m: Map<Seq<char>, int>, k: Seq<char>, g: int)
    requires
        g >= 0,
    ensures
        map_le(m, map_add(m, k, g)),
{
}

/// `map_le` is transitive.
pub proof fn lemma_map_le_trans(a: Map<Seq<char>, int>, b: Map<Seq<char>, int>, c: Map<Seq<char>, int>)
    requires
        map_le(a, b),
        map_le(b, c),
    ensures
        map_le(a, c),
{
}

/// A map below one whose counts fit in `u32` has non-negative counts
/// that fit too.
pub proof fn lemma_fits_below(a: Map<Seq<char>, int>, b: Map<Seq<char>, int>)
    requires
        map_le(a, b),
        fits_u32(b),
        forall|k: Seq<char>| #[trigger] a.contains_key(k) ==> a[k] >= 0,
    ensures
        fits_u32(a),
{
}

} // verus!
