//! Player lookups in a boxscore and totals over a player's game log.
use vstd::prelude::*;

use crate::domain::models::nhl::{BoxscorePlayer, GameBoxscore, GameLogEntry};
use crate::text::{last_word, last_word_of, lowercase_of, str_eq, to_lowercase};

verus! {

/// Goals and assists of a boxscore line (missing values count as 0).
pub open spec fn stat_pair(p: BoxscorePlayer) -> (i32, i32) {
    (
        match p.goals {
            Some(g) => g,
            None => 0,
        },
        match p.assists {
            Some(a) => a,
            None => 0,
        },
    )
}

/// The first line of the group with the given player id.
pub open spec fn find_id(ps: Seq<BoxscorePlayer>, id: i64) -> Option<BoxscorePlayer>
    decreases ps.len(),
{
    if ps.len() == 0 {
        None
    } else if ps[0].player_id as i64 == id {
        Some(ps[0])
    } else {
        find_id(ps.drop_first(), id)
    }
}

/// The lower-cased last word of a name (the whole name when it has no
/// word).
pub open spec fn search_key(name: Seq<char>) -> Seq<char> {
    lowercase_of(
        match last_word(name) {
            Some(w) => w,
            None => name,
        },
    )
}

/// The key a boxscore line is matched on: the lower-cased last word of its
/// lower-cased default name (of the empty string when there is no word).
pub open spec fn box_key(p: BoxscorePlayer) -> Seq<char> {
    lowercase_of(
        match last_word(lowercase_of(p.name.default@)) {
            Some(w) => w,
            None => ""@,
        },
    )
}

/// The first line of the group whose key is `key`.
pub open spec fn find_key(ps: Seq<BoxscorePlayer>, key: Seq<char>) -> Option<BoxscorePlayer>
    decreases ps.len(),
{
    if ps.len() == 0 {
        None
    } else if box_key(ps[0]) == key {
        Some(ps[0])
    } else {
        find_key(ps.drop_first(), key)
    }
}

/// The first of several optional results that is present.
pub open spec fn or_else(a: Option<BoxscorePlayer>, b: Option<BoxscorePlayer>) -> Option<BoxscorePlayer> {
    match a {
        Some(x) => Some(x),
        None => b,
    }
}

/// Search by id through home forwards, defense, goalies, then away
/// forwards, defense, goalies.
pub open spec fn find_id_in_boxscore(b: GameBoxscore, id: i64) -> Option<BoxscorePlayer> {
    let h = b.player_by_game_stats.home_team;
    let a = b.player_by_game_stats.away_team;
    or_else(
        find_id(h.forwards@, id),
        or_else(
            find_id(h.defense@, id),
            or_else(
                find_id(h.goalies@, id),
                or_else(
                    find_id(a.forwards@, id),
                    or_else(find_id(a.defense@, id), find_id(a.goalies@, id)),
                ),
            ),
        ),
    )
}

/// Search by name key in the same order.
pub open spec fn find_key_in_boxscore(b: GameBoxscore, key: Seq<char>) -> Option<BoxscorePlayer> {
    let h = b.player_by_game_stats.home_team;
    let a = b.player_by_game_stats.away_team;
    or_else(
        find_key(h.forwards@, key),
        or_else(
            find_key(h.defense@, key),
            or_else(
                find_key(h.goalies@, key),
                or_else(
                    find_key(a.forwards@, key),
                    or_else(find_key(a.defense@, key), find_key(a.goalies@, key)),
                ),
            ),
        ),
    )
}

/// Goals and assists of a player in a boxscore: by id when one is given
/// and found, otherwise by case-insensitive last name, `(0, 0)` when not
/// found.
pub open spec fn player_stats_spec(b: GameBoxscore, player_name: Seq<char>, nhl_id: Option<i64>) -> (
    i32,
    i32,
) {
    let by_id = match nhl_id {
        Some(id) => find_id_in_boxscore(b, id),
        None => None,
    };
    match by_id {
        Some(p) => stat_pair(p),
        None => match find_key_in_boxscore(b, search_key(player_name)) {
            Some(p) => stat_pair(p),
            None => (0, 0),
        },
    }
}

fn pair_of(p: &BoxscorePlayer) -> (r: (i32, i32))
    ensures
        r == stat_pair(*p),
{
    let g = match p.goals {
        Some(g) => g,
        None => 0,
    };
    let a = match p.assists {
        Some(a) => a,
        None => 0,
    };
    (g, a)
}

fn find_id_exec(ps: &Vec<BoxscorePlayer>, id: i64) -> (r: Option<(i32, i32)>)
    ensures
        match find_id(ps@, id) {
            Some(p) => r == Some(stat_pair(p)),
            None => r is None,
        },
{
    let mut i: usize = 0;
    assert(ps@.skip(0) =~= ps@);
    while i < ps.len()
        invariant
            i <= ps@.len(),
            find_id(ps@, id) == find_id(ps@.skip(i as int), id),
        decreases ps@.len() - i,
    {
        proof {
            assert(ps@.skip(i as int)[0] == ps@[i as int]);
            assert(ps@.skip(i as int).drop_first() =~= ps@.skip(i + 1));
        }
        if ps[i].player_id as i64 == id {
            return Some(pair_of(&ps[i]));
        }
        i = i + 1;
    }
    None
}

fn box_key_exec(p: &BoxscorePlayer) -> (r: String)
    ensures
        r@ == box_key(*p),
{
    let lower = to_lowercase(p.name.default.as_str());
    match last_word_of(lower.as_str()) {
        Some(w) => to_lowercase(w.as_str()),
        None => to_lowercase(""),
    }
}

fn find_key_exec(ps: &Vec<BoxscorePlayer>, key: &String) -> (r: Option<(i32, i32)>)
    ensures
        match find_key(ps@, key@) {
            Some(p) => r == Some(stat_pair(p)),
            None => r is None,
        },
{
    let mut i: usize = 0;
    assert(ps@.skip(0) =~= ps@);
    while i < ps.len()
        invariant
            i <= ps@.len(),
            find_key(ps@, key@) == find_key(ps@.skip(i as int), key@),
        decreases ps@.len() - i,
    {
        proof {
            assert(ps@.skip(i as int)[0] == ps@[i as int]);
            assert(ps@.skip(i as int).drop_first() =~= ps@.skip(i + 1));
        }
        let k = box_key_exec(&ps[i]);
        if str_eq(k.as_str(), key.as_str()) {
            return Some(pair_of(&ps[i]));
        }
        i = i + 1;
    }
    None
}

/// Finds a player's goals and assists in a boxscore: by NHL id first
/// (when given), then by case-insensitive last name; `(0, 0)` when the
/// player is not in the boxscore.
pub fn find_player_stats_by_name(
    boxscore: &GameBoxscore,
    _team_abbrev: &str,
    player_name: &str,
    nhl_id: Option<i64>,
) -> (r: (i32, i32))
    ensures
        r == player_stats_spec(*boxscore, player_name@, nhl_id),
{
    let h = &boxscore.player_by_game_stats.home_team;
    let a = &boxscore.player_by_game_stats.away_team;
    match nhl_id {
        Some(id) => {
            let found = match find_id_exec(&h.forwards, id) {
                Some(x) => Some(x),
                None => match find_id_exec(&h.defense, id) {
                    Some(x) => Some(x),
                    None => match find_id_exec(&h.goalies, id) {
                        Some(x) => Some(x),
                        None => match find_id_exec(&a.forwards, id) {
                            Some(x) => Some(x),
                            None => match find_id_exec(&a.defense, id) {
                                Some(x) => Some(x),
                                None => find_id_exec(&a.goalies, id),
                            },
                        },
                    },
                },
            };
            if let Some(x) = found {
                return x;
            }
        },
        None => {},
    }
    let last = match last_word_of(player_name) {
        Some(w) => w,
        None => String::from_str(player_name),
    };
    let key = to_lowercase(last.as_str());
    let found = match find_key_exec(&h.forwards, &key) {
        Some(x) => Some(x),
        None => match find_key_exec(&h.defense, &key) {
            Some(x) => Some(x),
            None => match find_key_exec(&h.goalies, &key) {
                Some(x) => Some(x),
                None => match find_key_exec(&a.forwards, &key) {
                    Some(x) => Some(x),
                    None => match find_key_exec(&a.defense, &key) {
                        Some(x) => Some(x),
                        None => find_key_exec(&a.goalies, &key),
                    },
                },
            },
        },
    };
    match found {
        Some(x) => x,
        None => (0, 0),
    }
}

// ---------------------------------------------------------------------------
// Game-log totals
// ---------------------------------------------------------------------------

/// Sum of goals (0), assists (1) or points (2) over log entries.
pub open spec fn log_sum(entries: Seq<GameLogEntry>, which: int) -> int
    decreases entries.len(),
{
    if entries.len() == 0 {
        0
    } else {
        log_sum(entries.drop_last(), which) + if which == 0 {
            entries.last().goals as int
        } else if which == 1 {
            entries.last().assists as int
        } else {
            entries.last().points as int
        }
    }
}

/// Goals, assists and points stay within `i32` while summed in order.
pub open spec fn log_fits(entries: Seq<GameLogEntry>) -> bool {
    forall|k: int|
        #![trigger entries.take(k)]
        0 <= k <= entries.len() ==> i32::MIN <= log_sum(entries.take(k), 0) <= i32::MAX
            && i32::MIN <= log_sum(entries.take(k), 1) <= i32::MAX && i32::MIN <= log_sum(
            entries.take(k),
            2,
        ) <= i32::MAX
}

fn sum_log(game_log: &[GameLogEntry], k: usize) -> (r: (i32, i32, i32))
    requires
        k <= game_log@.len(),
        log_fits(game_log@.take(k as int)),
    ensures
        r.0 == log_sum(game_log@.take(k as int), 0),
        r.1 == log_sum(game_log@.take(k as int), 1),
        r.2 == log_sum(game_log@.take(k as int), 2),
{
    let mut g: i32 = 0;
    let mut a: i32 = 0;
    let mut p: i32 = 0;
    let mut i: usize = 0;
    assert(game_log@.take(0) =~= Seq::<GameLogEntry>::empty());
    while i < k
        invariant
            k <= game_log@.len(),
            log_fits(game_log@.take(k as int)),
            i <= k,
            g == log_sum(game_log@.take(i as int), 0),
            a == log_sum(game_log@.take(i as int), 1),
            p == log_sum(game_log@.take(i as int), 2),
        decreases k - i,
    {
        let e = &game_log[i];
        proof {
            let t = game_log@.take(i + 1);
            assert(t.drop_last() =~= game_log@.take(i as int));
            assert(t.last() == *e);
            assert(game_log@.take(k as int).take(i + 1) =~= t);
            assert(i32::MIN <= log_sum(t, 0) <= i32::MAX);
            assert(i32::MIN <= log_sum(t, 1) <= i32::MAX);
            assert(i32::MIN <= log_sum(t, 2) <= i32::MAX);
        }
        g = g + e.goals;
        a = a + e.assists;
        p = p + e.points;
        i = i + 1;
    }
    (g, a, p)
}

/// Form over the first `num_games` entries of a game log (fewer when the
/// log is shorter): their goals, assists and points, and copies of the
/// entries.
pub fn calculate_form_from_game_log(game_log: &[GameLogEntry], num_games: usize) -> (r: (
    i32,
    i32,
    i32,
    Vec<GameLogEntry>,
))
    requires
        log_fits(
            game_log@.take(
                if num_games < game_log@.len() {
                    num_games as int
                } else {
                    game_log@.len() as int
                },
            ),
        ),
    ensures
        ({
            let k = if num_games < game_log@.len() {
                num_games as int
            } else {
                game_log@.len() as int
            };
            &&& r.0 == log_sum(game_log@.take(k), 0)
            &&& r.1 == log_sum(game_log@.take(k), 1)
            &&& r.2 == log_sum(game_log@.take(k), 2)
            &&& r.3@ == game_log@.take(k)
        }),
{
    let k: usize = if num_games < game_log.len() {
        num_games
    } else {
        game_log.len()
    };
    if k == 0 {
        assert(game_log@.take(0) =~= Seq::<GameLogEntry>::empty());
        return (0, 0, 0, Vec::new());
    }
    let (g, a, p) = sum_log(game_log, k);
    let mut copies: Vec<GameLogEntry> = Vec::new();
    let mut i: usize = 0;
    while i < k
        invariant
            k <= game_log@.len(),
            i <= k,
            copies@ =~= game_log@.take(i as int),
        decreases k - i,
    {
        copies.push(game_log[i].clone());
        assert(game_log@.take(i + 1) =~= game_log@.take(i as int).push(game_log@[i as int]));
        i = i + 1;
    }
    (g, a, p, copies)
}

/// Totals over a whole game log: goals, assists, points and the number of
/// games, truncated to `i32`.
pub fn calculate_totals_from_game_log(game_log: &[GameLogEntry]) -> (r: (i32, i32, i32, i32))
    requires
        log_fits(game_log@),
    ensures
        r.0 == log_sum(game_log@, 0),
        r.1 == log_sum(game_log@, 1),
        r.2 == log_sum(game_log@, 2),
        r.3 == game_log@.len() as i32,
{
    if game_log.len() == 0 {
        return (0, 0, 0, 0);
    }
    assert(game_log@.take(game_log@.len() as int) =~= game_log@);
    let (g, a, p) = sum_log(game_log, game_log.len());
    assert(game_log@.take(game_log@.len() as int) =~= game_log@);
    (g, a, p, game_log.len() as i32)
}

/// The last `num_games` entries of a game log (all of them when it is
/// shorter), most recent first.
pub open spec fn recent_window(game_log: Seq<GameLogEntry>, num_games: int) -> Seq<GameLogEntry> {
    let k = if num_games < game_log.len() {
        num_games
    } else {
        game_log.len() as int
    };
    game_log.skip(game_log.len() - k).reverse()
}

/// A player's recent form: goals, assists and points over the last
/// `num_games` entries of his game log, most recent first; zeros for an
/// empty log.
pub fn recent_form_totals(game_log: &[GameLogEntry], num_games: usize) -> (r: (i32, i32, i32))
    requires
        log_fits(recent_window(game_log@, num_games as int)),
    ensures
        r.0 == log_sum(recent_window(game_log@, num_games as int), 0),
        r.1 == log_sum(recent_window(game_log@, num_games as int), 1),
        r.2 == log_sum(recent_window(game_log@, num_games as int), 2),
{
    let n = game_log.len();
    let k: usize = if num_games < n {
        num_games
    } else {
        n
    };
    let ghost w = recent_window(game_log@, num_games as int);
    assert(w.len() == k);
    let mut recent: Vec<GameLogEntry> = Vec::new();
    let mut j: usize = 0;
    while j < k
        invariant
            k <= n,
            n == game_log@.len(),
            w == recent_window(game_log@, num_games as int),
            w.len() == k,
            j <= k,
            recent@ =~= w.take(j as int),
        decreases k - j,
    {
        assert(w[j as int] == game_log@[n - 1 - j]);
        recent.push(game_log[n - 1 - j].clone());
        assert(w.take(j + 1) =~= w.take(j as int).push(w[j as int]));
        j = j + 1;
    }
    assert(w.take(k as int) =~= w);
    let (g, a, p) = sum_log(recent.as_slice(), k);
    assert(recent@.take(k as int) =~= recent@);
    (g, a, p)
}

/// Whether a player has played in these playoffs (a non-empty game log),
/// with his goals, assists, points and games over the whole log; all
/// zeros when he has not.
pub fn playoff_participation(game_log: &[GameLogEntry]) -> (r: (bool, i32, i32, i32, i32))
    requires
        log_fits(game_log@),
    ensures
        r.0 == (game_log@.len() > 0),
        r.0 ==> r.1 == log_sum(game_log@, 0) && r.2 == log_sum(game_log@, 1) && r.3 == log_sum(
            game_log@,
            2,
        ) && r.4 == game_log@.len() as i32,
        !r.0 ==> r == (false, 0i32, 0i32, 0i32, 0i32),
{
    if game_log.len() == 0 {
        return (false, 0, 0, 0, 0);
    }
    let (g, a, p, games) = calculate_totals_from_game_log(game_log);
    (true, g, a, p, games)
}

// ---------------------------------------------------------------------------
// Laws of the player lookup
// ---------------------------------------------------------------------------

/// Every line of a boxscore: home forwards, defense and goalies, then away
/// forwards, defense and goalies.
pub open spec fn all_lines(b: GameBoxscore) -> Seq<BoxscorePlayer> {
    let h = b.player_by_game_stats.home_team;
    let a = b.player_by_game_stats.away_team;
    h.forwards@ + (h.defense@ + (h.goalies@ + (a.forwards@ + (a.defense@ + a.goalies@))))
}

proof fn lemma_find_key_concat(x: Seq<BoxscorePlayer>, y: Seq<BoxscorePlayer>, key: Seq<char>)
    ensures
        find_key(x + y, key) == or_else(find_key(x, key), find_key(y, key)),
    decreases x.len(),
{
    if x.len() == 0 {
        assert(x + y =~= y);
    } else {
        assert((x + y).drop_first() =~= x.drop_first() + y);
        assert((x + y)[0] == x[0]);
        lemma_find_key_concat(x.drop_first(), y, key);
    }
}

proof fn lemma_find_id_concat(x: Seq<BoxscorePlayer>, y: Seq<BoxscorePlayer>, id: i64)
    ensures
        find_id(x + y, id) == or_else(find_id(x, id), find_id(y, id)),
    decreases x.len(),
{
    if x.len() == 0 {
        assert(x + y =~= y);
    } else {
        assert((x + y).drop_first() =~= x.drop_first() + y);
        assert((x + y)[0] == x[0]);
        lemma_find_id_concat(x.drop_first(), y, id);
    }
}

proof fn lemma_boxscore_searches(b: GameBoxscore, key: Seq<char>, id: i64)
    ensures
        find_key_in_boxscore(b, key) == find_key(all_lines(b), key),
        find_id_in_boxscore(b, id) == find_id(all_lines(b), id),
{
    let h = b.player_by_game_stats.home_team;
    let a = b.player_by_game_stats.away_team;
    lemma_find_key_concat(a.defense@, a.goalies@, key);
    lemma_find_key_concat(a.forwards@, a.defense@ + a.goalies@, key);
    lemma_find_key_concat(h.goalies@, a.forwards@ + (a.defense@ + a.goalies@), key);
    lemma_find_key_concat(h.defense@, h.goalies@ + (a.forwards@ + (a.defense@ + a.goalies@)), key);
    lemma_find_key_concat(
        h.forwards@,
        h.defense@ + (h.goalies@ + (a.forwards@ + (a.defense@ + a.goalies@))),
        key,
    );
    lemma_find_id_concat(a.defense@, a.goalies@, id);
    lemma_find_id_concat(a.forwards@, a.defense@ + a.goalies@, id);
    lemma_find_id_concat(h.goalies@, a.forwards@ + (a.defense@ + a.goalies@), id);
    lemma_find_id_concat(h.defense@, h.goalies@ + (a.forwards@ + (a.defense@ + a.goalies@)), id);
    lemma_find_id_concat(
        h.forwards@,
        h.defense@ + (h.goalies@ + (a.forwards@ + (a.defense@ + a.goalies@))),
        id,
    );
}

proof fn lemma_find_key_first(ps: Seq<BoxscorePlayer>, key: Seq<char>, k: int)
    requires
        0 <= k < ps.len(),
        box_key(ps[k]) == key,
        forall|j: int| 0 <= j < k ==> box_key(#[trigger] ps[j]) != key,
    ensures
        find_key(ps, key) == Some(ps[k]),
    decreases k,
{
    if k > 0 {
        let t = ps.drop_first();
        assert(box_key(ps[0]) != key);
        assert forall|j: int| 0 <= j < k - 1 implies box_key(#[trigger] t[j]) != key by {
            assert(t[j] == ps[j + 1]);
        }
        assert(t[k - 1] == ps[k]);
        lemma_find_key_first(t, key, k - 1);
    }
}

proof fn lemma_find_key_none(ps: Seq<BoxscorePlayer>, key: Seq<char>)
    requires
        forall|j: int| 0 <= j < ps.len() ==> box_key(#[trigger] ps[j]) != key,
    ensures
        find_key(ps, key) is None,
    decreases ps.len(),
{
    if ps.len() > 0 {
        let t = ps.drop_first();
        assert(box_key(ps[0]) != key);
        assert forall|j: int| 0 <= j < t.len() implies box_key(#[trigger] t[j]) != key by {
            assert(t[j] == ps[j + 1]);
        }
        lemma_find_key_none(t, key);
    }
}

proof fn lemma_find_id_first(ps: Seq<BoxscorePlayer>, id: i64, k: int)
    requires
        0 <= k < ps.len(),
        ps[k].player_id as i64 == id,
        forall|j: int| 0 <= j < k ==> (#[trigger] ps[j]).player_id as i64 != id,
    ensures
        find_id(ps, id) == Some(ps[k]),
    decreases k,
{
    if k > 0 {
        let t = ps.drop_first();
        assert(ps[0].player_id as i64 != id);
        assert forall|j: int| 0 <= j < k - 1 implies (#[trigger] t[j]).player_id as i64 != id by {
            assert(t[j] == ps[j + 1]);
        }
        assert(t[k - 1] == ps[k]);
        lemma_find_id_first(t, id, k - 1);
    }
}

proof fn lemma_find_id_none(ps: Seq<BoxscorePlayer>, id: i64)
    requires
        forall|j: int| 0 <= j < ps.len() ==> (#[trigger] ps[j]).player_id as i64 != id,
    ensures
        find_id(ps, id) is None,
    decreases ps.len(),
{
    if ps.len() > 0 {
        let t = ps.drop_first();
        assert(ps[0].player_id as i64 != id);
        assert forall|j: int| 0 <= j < t.len() implies (#[trigger] t[j]).player_id as i64 != id by {
            assert(t[j] == ps[j + 1]);
        }
        lemma_find_id_none(t, id);
    }
}

/// No line of the boxscore carries the id searched for (or none is given).
pub open spec fn no_id_match(b: GameBoxscore, nhl_id: Option<i64>) -> bool {
    match nhl_id {
        Some(id) => forall|j: int|
            0 <= j < all_lines(b).len() ==> (#[trigger] all_lines(b)[j]).player_id as i64 != id,
        None => true,
    }
}

/// A lookup by id finds the first line, over all six groups, that carries
/// the id, and gives its goals and assists (missing ones counting 0).
pub proof fn lemma_stats_by_id(b: GameBoxscore, player_name: Seq<char>, id: i64, k: int)
    requires
        0 <= k < all_lines(b).len(),
        all_lines(b)[k].player_id as i64 == id,
        forall|j: int| 0 <= j < k ==> (#[trigger] all_lines(b)[j]).player_id as i64 != id,
    ensures
        player_stats_spec(b, player_name, Some(id)) == (
            match all_lines(b)[k].goals {
                Some(g) => g,
                None => 0i32,
            },
            match all_lines(b)[k].assists {
                Some(a) => a,
                None => 0i32,
            },
        ),
{
    lemma_boxscore_searches(b, search_key(player_name), id);
    lemma_find_id_first(all_lines(b), id, k);
}

/// Without an id match, a lookup finds the first line, over all six
/// groups, whose lower-cased last name is that of the searched name, and
/// gives its goals and assists (missing ones counting 0).
pub proof fn lemma_stats_by_last_name(b: GameBoxscore, player_name: Seq<char>, nhl_id: Option<i64>, k: int)
    requires
        no_id_match(b, nhl_id),
        0 <= k < all_lines(b).len(),
        box_key(all_lines(b)[k]) == search_key(player_name),
        forall|j: int| 0 <= j < k ==> box_key(#[trigger] all_lines(b)[j]) != search_key(player_name),
    ensures
        player_stats_spec(b, player_name, nhl_id) == (
            match all_lines(b)[k].goals {
                Some(g) => g,
                None => 0i32,
            },
            match all_lines(b)[k].assists {
                Some(a) => a,
                None => 0i32,
            },
        ),
{
    let id = match nhl_id {
        Some(i) => i,
        None => 0,
    };
    lemma_boxscore_searches(b, search_key(player_name), id);
    if nhl_id is Some {
        lemma_find_id_none(all_lines(b), id);
    }
    lemma_find_key_first(all_lines(b), search_key(player_name), k);
}

/// A player found neither by id nor by last name scores `(0, 0)`.
pub proof fn lemma_stats_not_found(b: GameBoxscore, player_name: Seq<char>, nhl_id: Option<i64>)
    requires
        no_id_match(b, nhl_id),
        forall|j: int| 0 <= j < all_lines(b).len() ==> box_key(#[trigger] all_lines(b)[j]) != search_key(player_name),
    ensures
        player_stats_spec(b, player_name, nhl_id) == (0i32, 0i32),
{
    let id = match nhl_id {
        Some(i) => i,
        None => 0,
    };
    lemma_boxscore_searches(b, search_key(player_name), id);
    if nhl_id is Some {
        lemma_find_id_none(all_lines(b), id);
    }
    lemma_find_key_none(all_lines(b), search_key(player_name));
}

} // verus!
