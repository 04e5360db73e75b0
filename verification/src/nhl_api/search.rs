//! Player search by name: a case-insensitive substring match of the
//! player's full name.
use vstd::prelude::*;

use crate::infra::db::nhl_mirror::LeaderEntry;
use crate::text::{concat3, lowercase_of, to_lowercase};

verus! {

/// `needle` occurs in `hay` as a contiguous run of characters.
pub open spec fn occurs_in(needle: Seq<char>, hay: Seq<char>) -> bool {
    exists|i: int|
        0 <= i && i + needle.len() <= hay.len() && #[trigger] hay.subrange(i, i + needle.len())
            == needle
}

fn matches_at(hay: &str, needle: &str, i: usize) -> (r: bool)
    requires
        i + needle@.len() <= hay@.len(),
    ensures
        r == (hay@.subrange(i as int, i + needle@.len()) == needle@),
{
    let n = needle.unicode_len();
    let hn = hay.unicode_len();
    let mut k: usize = 0;
    while k < n
        invariant
            n == needle@.len(),
            hn == hay@.len(),
            i + needle@.len() <= hay@.len(),
            k <= n,
            forall|q: int| 0 <= q < k ==> hay@[i + q] == needle@[q],
        decreases n - k,
    {
        if hay.get_char(i + k) != needle.get_char(k) {
            assert(hay@.subrange(i as int, i + needle@.len())[k as int] != needle@[k as int]);
            return false;
        }
        k = k + 1;
    }
    assert(hay@.subrange(i as int, i + needle@.len()) =~= needle@);
    true
}

/// Whether `needle` occurs in `hay`.
pub fn occurs(needle: &str, hay: &str) -> (r: bool)
    ensures
        r == occurs_in(needle@, hay@),
{
    let hn = hay.unicode_len();
    let nn = needle.unicode_len();
    if nn > hn {
        return false;
    }
    let last = hn - nn;
    let mut i: usize = 0;
    while i <= last
        invariant
            hn == hay@.len(),
            nn == needle@.len(),
            last == hn - nn,
            nn <= hn,
            i <= last + 1,
            forall|j: int| 0 <= j < i ==> #[trigger] hay@.subrange(j, j + needle@.len()) != needle@,
        decreases last + 1 - i,
    {
        if matches_at(hay, needle, i) {
            return true;
        }
        if i == last {
            assert forall|j: int| 0 <= j && j + needle@.len() <= hay@.len() implies #[trigger] hay@.subrange(
                j,
                j + needle@.len(),
            ) != needle@ by {
                assert(j <= i);
            }
            return false;
        }
        i = i + 1;
    }
    false
}

/// The full name a search matches against: first and last name joined
/// by a space.
pub open spec fn full_name(e: LeaderEntry) -> Seq<char> {
    e.first_name@ + " "@ + e.last_name@
}

/// The players whose full name contains the query, ignoring case (both
/// sides are lower-cased), in order.
pub open spec fn name_matches(players: Seq<LeaderEntry>, query: Seq<char>) -> Seq<LeaderEntry>
    decreases players.len(),
{
    if players.len() == 0 {
        Seq::empty()
    } else {
        let p = name_matches(players.drop_last(), query);
        if occurs_in(lowercase_of(query), lowercase_of(full_name(players.last()))) {
            p.push(players.last())
        } else {
            p
        }
    }
}

/// The players of a roster whose full name contains `query`, ignoring
/// case, in roster order.
pub fn search_by_name(players: &Vec<LeaderEntry>, query: &str) -> (r: Vec<LeaderEntry>)
    ensures
        r@ == name_matches(players@, query@),
{
    let q = to_lowercase(query);
    let mut out: Vec<LeaderEntry> = Vec::new();
    let mut k: usize = 0;
    assert(players@.take(0) =~= Seq::<LeaderEntry>::empty());
    while k < players.len()
        invariant
            k <= players@.len(),
            q@ == lowercase_of(query@),
            out@ == name_matches(players@.take(k as int), query@),
        decreases players@.len() - k,
    {
        proof {
            let t = players@.take(k + 1);
            assert(t.drop_last() =~= players@.take(k as int));
            assert(t.last() == players@[k as int]);
        }
        let p = &players[k];
        let name = concat3(p.first_name.as_str(), " ", p.last_name.as_str());
        let lower = to_lowercase(name.as_str());
        if occurs(q.as_str(), lower.as_str()) {
            out.push(p.clone());
        }
        k = k + 1;
    }
    assert(players@.take(players@.len() as int) =~= players@);
    out
}

} // verus!
