//! The NHL client's in-memory response cache: response bodies keyed by
//! URL, each with the time it was stored and its time to live. Times are
//! milliseconds on a monotonic clock that the caller reads.
use vstd::prelude::*;

use crate::text::str_eq;

verus! {

/// Time to live of each kind of response, in milliseconds.
pub const TTL_SKATER_STATS_MS: u64 = 300_000;
pub const TTL_SCHEDULE_MS: u64 = 120_000;
pub const TTL_GAME_CENTER_MS: u64 = 120_000;
pub const TTL_BOXSCORE_LIVE_MS: u64 = 60_000;
pub const TTL_BOXSCORE_FINAL_MS: u64 = 86_400_000;
pub const TTL_PLAYOFF_CAROUSEL_MS: u64 = 900_000;
pub const TTL_PLAYER_GAME_LOG_MS: u64 = 600_000;
pub const TTL_PLAYER_DETAILS_MS: u64 = 1_800_000;
pub const TTL_STANDINGS_MS: u64 = 1_800_000;
pub const TTL_ROSTER_MS: u64 = 1_800_000;
pub const TTL_EDGE_MS: u64 = 1_800_000;
pub const TTL_SCORES_MS: u64 = 120_000;

/// How long a boxscore is kept: a day once the game is over (`FINAL` or
/// `OFF`), a minute otherwise.
pub fn boxscore_ttl_ms(game_state: &str) -> (r: u64)
    ensures
        r == if game_state@ == "FINAL"@ || game_state@ == "OFF"@ {
            TTL_BOXSCORE_FINAL_MS
        } else {
            TTL_BOXSCORE_LIVE_MS
        },
{
    if str_eq(game_state, "FINAL") || str_eq(game_state, "OFF") {
        TTL_BOXSCORE_FINAL_MS
    } else {
        TTL_BOXSCORE_LIVE_MS
    }
}

/// A cached response.
#[derive(Debug)]
pub struct CacheEntry {
    pub url: String,
    pub body: String,
    pub inserted_at_ms: u64,
    pub ttl_ms: u64,
}

/// More time than the entry's time to live has passed since it was
/// stored (no time has passed when the clock reads earlier).
pub open spec fn expired(e: CacheEntry, now: u64) -> bool {
    now > e.inserted_at_ms && now - e.inserted_at_ms > e.ttl_ms
}

/// The entry stored for `url`: the last one with that URL.
pub open spec fn entry_for(es: Seq<CacheEntry>, url: Seq<char>) -> Option<CacheEntry>
    decreases es.len(),
{
    if es.len() == 0 {
        None
    } else if es.last().url@ == url {
        Some(es.last())
    } else {
        entry_for(es.drop_last(), url)
    }
}

/// What a read of `url` at time `now` returns: the stored body while the
/// entry has not expired.
pub open spec fn lookup_spec(es: Seq<CacheEntry>, url: Seq<char>, now: u64) -> Option<Seq<char>> {
    match entry_for(es, url) {
        Some(e) => if expired(e, now) {
            None
        } else {
            Some(e.body@)
        },
        None => None,
    }
}

/// The entries whose URL is not `url`, in order.
pub open spec fn without_url(es: Seq<CacheEntry>, url: Seq<char>) -> Seq<CacheEntry>
    decreases es.len(),
{
    if es.len() == 0 {
        Seq::empty()
    } else if es.last().url@ == url {
        without_url(es.drop_last(), url)
    } else {
        without_url(es.drop_last(), url).push(es.last())
    }
}

/// The entries that have not expired at `now`, in order.
pub open spec fn fresh_at(es: Seq<CacheEntry>, now: u64) -> Seq<CacheEntry>
    decreases es.len(),
{
    if es.len() == 0 {
        Seq::empty()
    } else if expired(es.last(), now) {
        fresh_at(es.drop_last(), now)
    } else {
        fresh_at(es.drop_last(), now).push(es.last())
    }
}

/// No two entries share a URL.
pub open spec fn urls_distinct(es: Seq<CacheEntry>) -> bool {
    forall|i: int, j: int| 0 <= i < j < es.len() ==> #[trigger] es[i].url@ != #[trigger] es[j].url@
}

/// The response cache.
#[derive(Debug)]
pub struct ResponseCache {
    pub entries: Vec<CacheEntry>,
}

proof fn lemma_entry_for_push(w: Seq<CacheEntry>, x: CacheEntry, u: Seq<char>)
    ensures
        entry_for(w.push(x), u) == if x.url@ == u {
            Some(x)
        } else {
            entry_for(w, u)
        },
{
    assert(w.push(x).drop_last() =~= w);
    assert(w.push(x).last() == x);
}

proof fn lemma_entry_for_without(es: Seq<CacheEntry>, url: Seq<char>, other: Seq<char>)
    ensures
        entry_for(without_url(es, url), other) == if other == url {
            None
        } else {
            entry_for(es, other)
        },
    decreases es.len(),
{
    if es.len() > 0 {
        let p = es.drop_last();
        lemma_entry_for_without(p, url, other);
        if es.last().url@ != url {
            lemma_entry_for_push(without_url(p, url), es.last(), other);
        }
    }
}

proof fn lemma_without_url_distinct(es: Seq<CacheEntry>, url: Seq<char>)
    requires
        urls_distinct(es),
    ensures
        urls_distinct(without_url(es, url)),
        forall|i: int| 0 <= i < without_url(es, url).len() ==> #[trigger] without_url(es, url)[i].url@ != url,
        forall|i: int|
            0 <= i < without_url(es, url).len() ==> exists|j: int|
                0 <= j < es.len() && #[trigger] without_url(es, url)[i] == es[j],
    decreases es.len(),
{
    if es.len() > 0 {
        let p = es.drop_last();
        assert(urls_distinct(p)) by {
            assert forall|i: int, j: int| 0 <= i < j < p.len() implies #[trigger] p[i].url@
                != #[trigger] p[j].url@ by {
                assert(p[i] == es[i] && p[j] == es[j]);
            }
        }
        lemma_without_url_distinct(p, url);
        let w = without_url(p, url);
        assert forall|i: int| 0 <= i < w.len() implies exists|j: int|
            0 <= j < es.len() && #[trigger] w[i] == es[j] by {
            let j = choose|j: int| 0 <= j < p.len() && w[i] == p[j];
            assert(es[j] == p[j]);
        }
        if es.last().url@ != url {
            let q = w.push(es.last());
            assert forall|i: int, j: int| 0 <= i < j < q.len() implies #[trigger] q[i].url@
                != #[trigger] q[j].url@ by {
                if j == w.len() {
                    let k = choose|k: int| 0 <= k < p.len() && w[i] == p[k];
                    assert(es[k] == p[k]);
                    assert(es[k].url@ != es[es.len() - 1].url@);
                } else {
                    assert(q[i] == w[i] && q[j] == w[j]);
                }
            }
            assert forall|i: int| 0 <= i < q.len() implies exists|j: int|
                0 <= j < es.len() && #[trigger] q[i] == es[j] by {
                if i == w.len() {
                    assert(q[i] == es[es.len() - 1]);
                } else {
                    let j = choose|j: int| 0 <= j < es.len() && w[i] == es[j];
                    assert(q[i] == w[i]);
                }
            }
        }
    }
}

proof fn lemma_entry_for_fresh(es: Seq<CacheEntry>, now: u64, url: Seq<char>)
    requires
        urls_distinct(es),
    ensures
        entry_for(fresh_at(es, now), url) == match entry_for(es, url) {
            Some(e) => if expired(e, now) {
                None
            } else {
                Some(e)
            },
            None => None,
        },
    decreases es.len(),
{
    if es.len() > 0 {
        let p = es.drop_last();
        assert(urls_distinct(p)) by {
            assert forall|i: int, j: int| 0 <= i < j < p.len() implies #[trigger] p[i].url@
                != #[trigger] p[j].url@ by {
                assert(p[i] == es[i] && p[j] == es[j]);
            }
        }
        lemma_entry_for_fresh(p, now, url);
        if !expired(es.last(), now) {
            lemma_entry_for_push(fresh_at(p, now), es.last(), url);
        }
        if es.last().url@ == url {
            lemma_entry_for_absent(es, url);
        }
    }
}

proof fn lemma_entry_for_absent(es: Seq<CacheEntry>, url: Seq<char>)
    requires
        es.len() > 0,
        urls_distinct(es),
        es.last().url@ == url,
    ensures
        entry_for(es.drop_last(), url) is None,
{
    let p = es.drop_last();
    assert forall|i: int| 0 <= i < p.len() implies p[i] == es[i] by {}
    lemma_entry_for_none_if_absent(p, url, es);
}

proof fn lemma_entry_for_none_if_absent(p: Seq<CacheEntry>, url: Seq<char>, es: Seq<CacheEntry>)
    requires
        es.len() > 0,
        urls_distinct(es),
        es.last().url@ == url,
        p.len() <= es.len() - 1,
        forall|i: int| 0 <= i < p.len() ==> p[i] == es[i],
    ensures
        entry_for(p, url) is None,
    decreases p.len(),
{
    if p.len() > 0 {
        let k = p.len() - 1;
        assert(p[k] == es[k]);
        assert(es[k].url@ != es[es.len() - 1].url@);
        let q = p.drop_last();
        assert forall|i: int| 0 <= i < q.len() implies q[i] == es[i] by {
            assert(q[i] == p[i]);
        }
        lemma_entry_for_none_if_absent(q, url, es);
    }
}

proof fn lemma_fresh_at_distinct(es: Seq<CacheEntry>, now: u64)
    requires
        urls_distinct(es),
    ensures
        urls_distinct(fresh_at(es, now)),
        fresh_at(es, now).len() <= es.len(),
        forall|i: int|
            0 <= i < fresh_at(es, now).len() ==> exists|j: int|
                0 <= j < es.len() && #[trigger] fresh_at(es, now)[i] == es[j],
    decreases es.len(),
{
    if es.len() > 0 {
        let p = es.drop_last();
        assert(urls_distinct(p)) by {
            assert forall|i: int, j: int| 0 <= i < j < p.len() implies #[trigger] p[i].url@
                != #[trigger] p[j].url@ by {
                assert(p[i] == es[i] && p[j] == es[j]);
            }
        }
        lemma_fresh_at_distinct(p, now);
        let f = fresh_at(p, now);
        assert forall|i: int| 0 <= i < f.len() implies exists|j: int|
            0 <= j < es.len() && #[trigger] f[i] == es[j] by {
            let j = choose|j: int| 0 <= j < p.len() && f[i] == p[j];
            assert(es[j] == p[j]);
        }
        if !expired(es.last(), now) {
            let q = f.push(es.last());
            assert forall|i: int, j: int| 0 <= i < j < q.len() implies #[trigger] q[i].url@
                != #[trigger] q[j].url@ by {
                if j == f.len() {
                    let k = choose|k: int| 0 <= k < p.len() && f[i] == p[k];
                    assert(es[k] == p[k]);
                    assert(es[k].url@ != es[es.len() - 1].url@);
                } else {
                    assert(q[i] == f[i] && q[j] == f[j]);
                }
            }
            assert forall|i: int| 0 <= i < q.len() implies exists|j: int|
                0 <= j < es.len() && #[trigger] q[i] == es[j] by {
                if i == f.len() {
                    assert(q[i] == es[es.len() - 1]);
                } else {
                    let j = choose|j: int| 0 <= j < es.len() && f[i] == es[j];
                    assert(q[i] == f[i]);
                }
            }
        }
    }
}

impl ResponseCache {
    /// Well-formed: one entry per URL.
    pub open spec fn wf(&self) -> bool {
        urls_distinct(self.entries@)
    }

    /// An empty cache.
    pub fn new() -> (r: ResponseCache)
        ensures
            r.wf(),
            r.entries@.len() == 0,
    {
        ResponseCache { entries: Vec::new() }
    }

    /// Number of stored responses, expired ones included.
    pub fn len(&self) -> (r: usize)
        ensures
            r == self.entries@.len(),
    {
        self.entries.len()
    }

    /// The body stored for `url`, unless it has expired at `now`.
    pub fn lookup(&self, url: &str, now: u64) -> (r: Option<String>)
        requires
            self.wf(),
        ensures
            match r {
                Some(b) => lookup_spec(self.entries@, url@, now) == Some(b@),
                None => lookup_spec(self.entries@, url@, now) is None,
            },
    {
        let mut k: usize = self.entries.len();
        assert(self.entries@.take(k as int) =~= self.entries@);
        while k > 0
            invariant
                k <= self.entries@.len(),
                entry_for(self.entries@, url@) == entry_for(self.entries@.take(k as int), url@),
            decreases k,
        {
            let t = Ghost(self.entries@.take(k as int));
            assert(t@.drop_last() =~= self.entries@.take(k - 1));
            let e = &self.entries[k - 1];
            if str_eq(e.url.as_str(), url) {
                if now > e.inserted_at_ms && now - e.inserted_at_ms > e.ttl_ms {
                    return None;
                }
                return Some(e.body.clone());
            }
            k = k - 1;
        }
        None
    }

    /// Stores `body` for `url` at time `now` with time to live `ttl_ms`,
    /// replacing any earlier response for that URL.
    pub fn store(&mut self, url: &str, body: String, now: u64, ttl_ms: u64)
        requires
            old(self).wf(),
        ensures
            final(self).wf(),
            final(self).entries@ == without_url(old(self).entries@, url@).push(
                final(self).entries@.last(),
            ),
            final(self).entries@.last().url@ == url@,
            final(self).entries@.last().body == body,
            final(self).entries@.last().inserted_at_ms == now,
            final(self).entries@.last().ttl_ms == ttl_ms,
    {
        let ghost before = self.entries@;
        let mut kept: Vec<CacheEntry> = Vec::new();
        let mut old_entries: Vec<CacheEntry> = Vec::new();
        std::mem::swap(&mut old_entries, &mut self.entries);
        assert(old_entries@ == before);
        let n = old_entries.len();
        let mut i: usize = 0;
        assert(before.take(0) =~= Seq::<CacheEntry>::empty());
        while i < n
            invariant
                n == before.len(),
                i <= n,
                old_entries@ =~= before.skip(i as int),
                kept@ == without_url(before.take(i as int), url@),
            decreases n - i,
        {
            let e = old_entries.remove(0);
            proof {
                let t = before.take(i + 1);
                assert(t.drop_last() =~= before.take(i as int));
                assert(t.last() == before[i as int]);
                assert(e == before[i as int]);
            }
            if !str_eq(e.url.as_str(), url) {
                kept.push(e);
            }
            i = i + 1;
        }
        assert(before.take(n as int) =~= before);
        proof {
            lemma_without_url_distinct(before, url@);
        }
        let entry = CacheEntry { url: String::from_str(url), body, inserted_at_ms: now, ttl_ms };
        kept.push(entry);
        self.entries = kept;
        proof {
            let w = without_url(before, url@);
            let q = self.entries@;
            assert(q.drop_last() =~= w);
            assert forall|i: int, j: int| 0 <= i < j < q.len() implies #[trigger] q[i].url@
                != #[trigger] q[j].url@ by {
                if j == w.len() {
                    assert(q[i] == w[i]);
                } else {
                    assert(q[i] == w[i] && q[j] == w[j]);
                }
            }
            assert(q =~= w.push(q.last()));
        }
    }

    /// Drops the responses that have expired at `now`; returns how many
    /// were dropped.
    pub fn remove_expired(&mut self, now: u64) -> (removed: usize)
        requires
            old(self).wf(),
        ensures
            final(self).wf(),
            final(self).entries@ == fresh_at(old(self).entries@, now),
            removed == old(self).entries@.len() - final(self).entries@.len(),
    {
        let ghost before = self.entries@;
        let mut kept: Vec<CacheEntry> = Vec::new();
        let mut old_entries: Vec<CacheEntry> = Vec::new();
        std::mem::swap(&mut old_entries, &mut self.entries);
        let n = old_entries.len();
        let mut i: usize = 0;
        assert(before.take(0) =~= Seq::<CacheEntry>::empty());
        while i < n
            invariant
                n == before.len(),
                i <= n,
                old_entries@ =~= before.skip(i as int),
                kept@ == fresh_at(before.take(i as int), now),
            decreases n - i,
        {
            let e = old_entries.remove(0);
            proof {
                let t = before.take(i + 1);
                assert(t.drop_last() =~= before.take(i as int));
                assert(t.last() == before[i as int]);
                assert(e == before[i as int]);
            }
            if !(now > e.inserted_at_ms && now - e.inserted_at_ms > e.ttl_ms) {
                kept.push(e);
            }
            i = i + 1;
        }
        assert(before.take(n as int) =~= before);
        proof {
            lemma_fresh_at_distinct(before, now);
        }
        let removed = n - kept.len();
        self.entries = kept;
        removed
    }

    /// Empties the cache; returns how many responses it held.
    pub fn clear(&mut self) -> (removed: usize)
        ensures
            final(self).wf(),
            final(self).entries@.len() == 0,
            removed == old(self).entries@.len(),
    {
        let removed = self.entries.len();
        self.entries = Vec::new();
        removed
    }
}

/// A read right after a write gives the written body back, for as long
/// as the entry's time to live has not run out; reads of other URLs see
/// what they saw before.
pub proof fn lemma_read_after_write(
    es: Seq<CacheEntry>,
    stored: CacheEntry,
    later: u64,
    other: Seq<char>,
)
    requires
        !expired(stored, later),
        other != stored.url@,
    ensures
        lookup_spec(without_url(es, stored.url@).push(stored), stored.url@, later) == Some(
            stored.body@,
        ),
        lookup_spec(without_url(es, stored.url@).push(stored), other, later) == lookup_spec(
            es,
            other,
            later,
        ),
{
    let w = without_url(es, stored.url@);
    lemma_entry_for_push(w, stored, stored.url@);
    lemma_entry_for_push(w, stored, other);
    lemma_entry_for_without(es, stored.url@, other);
}

/// Dropping expired responses never changes what a read at that moment
/// returns.
pub proof fn lemma_cleanup_invisible_to_reads(es: Seq<CacheEntry>, now: u64, url: Seq<char>)
    requires
        urls_distinct(es),
    ensures
        lookup_spec(fresh_at(es, now), url, now) == lookup_spec(es, url, now),
{
    lemma_entry_for_fresh(es, now, url);
}

} // verus!
