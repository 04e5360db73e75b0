//! The narrator used when no model credentials are configured, and the
//! headline block that the team-diagnosis narrative is written from.
use vstd::prelude::*;

use crate::domain::prediction::grade::{Grade, PlayerBucket};
use crate::text::{dec_int, dec_pad2, push_i64, push_pad2, push_str, push_u64, str_eq};

verus! {

/// Fallback narrator: every narrative is absent, so pages render their
/// static summary.
#[derive(Debug)]
pub struct NullNarrator;

// ---------------------------------------------------------------------------
// What the headline reads
// ---------------------------------------------------------------------------

/// How many rostered players a fantasy team has from one NHL team, and
/// the playoff points they brought.
#[derive(Debug)]
pub struct DiagnosisConcentration {
    pub nhl_team: String,
    pub rostered: i64,
    pub team_playoff_points: i64,
}

/// One of the caller's players who appeared yesterday.
#[derive(Debug)]
pub struct DiagnosisPlayerDay {
    pub name: String,
    pub nhl_team: String,
    pub goals: i64,
    pub assists: i64,
    pub points: i64,
}

/// One of the league's best fantasy teams of the day.
#[derive(Debug)]
pub struct DiagnosisTeamDay {
    pub team_name: String,
    pub goals: i64,
    pub assists: i64,
    pub points: i64,
}

/// What happened on the previous hockey date.
#[derive(Debug)]
pub struct DiagnosisYesterday {
    pub date: String,
    pub nhl_games: i64,
    pub completed_games: i64,
    pub my_goals: i64,
    pub my_assists: i64,
    pub my_points: i64,
    pub my_players: Vec<DiagnosisPlayerDay>,
    /// `"yesterday"` when the top three are yesterday's fantasy top three,
    /// anything else for the current playoff top three.
    pub league_top_three_source: String,
    pub league_top_three: Vec<DiagnosisTeamDay>,
}

/// The caller's standing in the league.
#[derive(Debug)]
pub struct DiagnosisView {
    pub league_rank: i64,
    pub league_size: i64,
    pub gap_to_first: i64,
    pub gap_to_third: i64,
    pub concentration_by_team: Vec<DiagnosisConcentration>,
    pub yesterday: DiagnosisYesterday,
}

/// One of a player's recent games.
#[derive(Debug)]
pub struct RecentGameLine {
    pub opponent: String,
    pub points: i64,
    pub toi_seconds: Option<i32>,
}

/// A player's breakdown. The projection and the expected remaining
/// points come already rendered (two and one decimals), and
/// `scratch_risk` says whether the player's chance of dressing is below
/// one.
#[derive(Debug)]
pub struct RosterBreakdown {
    pub games_played: i64,
    pub sog: i64,
    pub plus_minus: i64,
    pub toi_seconds_per_game: i32,
    pub projected_ppg: String,
    pub grade: Grade,
    pub scratch_risk: bool,
    pub remaining_points: String,
    pub bucket: PlayerBucket,
    pub recent_games: Vec<RecentGameLine>,
}

/// One of the caller's rostered players.
#[derive(Debug)]
pub struct DiagnosisPlayer {
    pub name: String,
    pub nhl_team: String,
    pub position: String,
    pub goals: i64,
    pub assists: i64,
    pub total_points: i64,
    pub breakdown: Option<RosterBreakdown>,
}

/// The caller's fantasy team.
#[derive(Debug)]
pub struct DiagnosisTeam {
    pub team_name: String,
    pub total_points: i64,
    pub players: Vec<DiagnosisPlayer>,
}

// ---------------------------------------------------------------------------
// The text
// ---------------------------------------------------------------------------

/// The first line: name, rank, points and gaps.
pub open spec fn rank_line(team: DiagnosisTeam, d: DiagnosisView) -> Seq<char> {
    "Caller's team: "@ + team.team_name@ + " · Rank #"@ + dec_int(d.league_rank as int)
        + " of "@ + dec_int(d.league_size as int) + " · "@ + dec_int(team.total_points as int)
        + " total pts · "@ + dec_int(d.gap_to_first as int) + " behind 1st · "@ + dec_int(
        d.gap_to_third as int,
    ) + " ahead of 3rd.\n"@
}

/// One concentration line.
pub open spec fn concentration_line(c: DiagnosisConcentration) -> Seq<char> {
    "  "@ + c.nhl_team@ + " · "@ + dec_int(c.rostered as int) + " players · "@ + dec_int(
        c.team_playoff_points as int,
    ) + " pts\n"@
}

/// The concentration lines of `cs`, in order.
pub open spec fn concentration_lines(cs: Seq<DiagnosisConcentration>) -> Seq<char>
    decreases cs.len(),
{
    if cs.len() == 0 {
        Seq::empty()
    } else {
        concentration_lines(cs.drop_last()) + concentration_line(cs.last())
    }
}

/// How many concentration lines the headline shows: at most twelve.
pub open spec fn shown_concentration(cs: Seq<DiagnosisConcentration>) -> Seq<DiagnosisConcentration> {
    if cs.len() <= 12 {
        cs
    } else {
        cs.take(12)
    }
}

/// Yesterday's summary line.
pub open spec fn yesterday_line(y: DiagnosisYesterday) -> Seq<char> {
    "  date "@ + y.date@ + " · NHL games "@ + dec_int(y.nhl_games as int) + " ("@ + dec_int(
        y.completed_games as int,
    ) + " completed) · caller "@ + dec_int(y.my_goals as int) + "G "@ + dec_int(
        y.my_assists as int,
    ) + "A "@ + dec_int(y.my_points as int) + "P\n"@
}

/// One of the caller's players of yesterday.
pub open spec fn my_player_line(p: DiagnosisPlayerDay) -> Seq<char> {
    "    "@ + p.name@ + " ("@ + p.nhl_team@ + ") · "@ + dec_int(p.goals as int) + "G "@ + dec_int(
        p.assists as int,
    ) + "A "@ + dec_int(p.points as int) + "P\n"@
}

/// The lines of the caller's players of yesterday, in order.
pub open spec fn my_player_lines(ps: Seq<DiagnosisPlayerDay>) -> Seq<char>
    decreases ps.len(),
{
    if ps.len() == 0 {
        Seq::empty()
    } else {
        my_player_lines(ps.drop_last()) + my_player_line(ps.last())
    }
}

/// The block of the caller's players of yesterday: "none appeared"
/// exactly when there are none.
pub open spec fn my_players_block(ps: Seq<DiagnosisPlayerDay>) -> Seq<char> {
    if ps.len() == 0 {
        "  caller players: none appeared\n"@
    } else {
        "  caller players:\n"@ + my_player_lines(ps)
    }
}

/// The heading of the top-three block.
pub open spec fn top_three_label(source: Seq<char>) -> Seq<char> {
    if source == "yesterday"@ {
        "yesterday fantasy top 3"@
    } else {
        "current playoff top 3 fallback"@
    }
}

/// The line of the top team at 1-based position `rank`.
pub open spec fn top_line(rank: int, t: DiagnosisTeamDay) -> Seq<char> {
    "    #"@ + dec_int(rank) + " "@ + t.team_name@ + " · "@ + dec_int(t.goals as int) + "G "@
        + dec_int(t.assists as int) + "A "@ + dec_int(t.points as int) + "P\n"@
}

/// The lines of the top teams, ranked 1, 2, … in order.
pub open spec fn top_lines(ts: Seq<DiagnosisTeamDay>) -> Seq<char>
    decreases ts.len(),
{
    if ts.len() == 0 {
        Seq::empty()
    } else {
        top_lines(ts.drop_last()) + top_line(ts.len() as int, ts.last())
    }
}

/// The pill text of a bucket.
pub open spec fn bucket_text(b: PlayerBucket) -> Seq<char> {
    match b {
        PlayerBucket::TooEarly => "TOO EARLY"@,
        PlayerBucket::Outperforming => "OUTPERFORMING"@,
        PlayerBucket::OnPace => "ON PACE"@,
        PlayerBucket::KeepFaith => "KEEP FAITH"@,
        PlayerBucket::FineButFragile => "FINE BUT FRAGILE"@,
        PlayerBucket::NeedMiracle => "NEED MIRACLE"@,
        PlayerBucket::ProblemAsset => "PROBLEM ASSET"@,
        PlayerBucket::TeamEliminated => "TEAM ELIMINATED"@,
    }
}

/// The letter of a grade, a dash when there is not enough data.
pub open spec fn grade_text(g: Grade) -> Seq<char> {
    match g {
        Grade::A => "A"@,
        Grade::B => "B"@,
        Grade::C => "C"@,
        Grade::D => "D"@,
        Grade::F => "F"@,
        Grade::NotEnoughData => "–"@,
    }
}

/// Whole minutes of `t` seconds, rounded toward zero.
pub open spec fn whole_minutes(t: int) -> int {
    if t >= 0 {
        t / 60
    } else {
        -((-t) / 60)
    }
}

/// The seconds past the whole minutes of `t` seconds, 0 when `t` is
/// negative.
pub open spec fn seconds_part(t: int) -> nat {
    if t >= 0 {
        (t % 60) as nat
    } else {
        0
    }
}

/// A time on ice as `m:ss`.
pub open spec fn clock(t: int) -> Seq<char> {
    dec_int(whole_minutes(t)) + ":"@ + dec_pad2(seconds_part(t))
}

/// A number with its sign, `+` for zero and above.
pub open spec fn signed_text(n: int) -> Seq<char> {
    if n >= 0 {
        "+"@ + dec_int(n)
    } else {
        dec_int(n)
    }
}

/// The summary line of a rostered player with a breakdown.
pub open spec fn roster_line(p: DiagnosisPlayer, b: RosterBreakdown) -> Seq<char> {
    "  ["@ + bucket_text(b.bucket) + "] "@ + p.name@ + " ("@ + p.nhl_team@ + " · "@ + p.position@
        + ") · "@ + dec_int(b.games_played as int) + " GP · "@ + dec_int(p.goals as int) + "G "@
        + dec_int(p.assists as int) + "A "@ + dec_int(p.total_points as int) + "P · SOG "@
        + dec_int(b.sog as int) + " · +/- "@ + signed_text(b.plus_minus as int) + " · TOI/gm "@
        + clock(b.toi_seconds_per_game as int) + " · proj "@ + b.projected_ppg@ + " PPG · grade "@
        + grade_text(b.grade) + (if b.scratch_risk {
        " (scratch risk)"@
    } else {
        ""@
    }) + " · remP "@ + b.remaining_points@ + "\n"@
}

/// One recent game: opponent, points and time on ice (`--` when unknown).
pub open spec fn recent_item(g: RecentGameLine) -> Seq<char> {
    "vs "@ + g.opponent@ + " "@ + dec_int(g.points as int) + "P TOI "@ + match g.toi_seconds {
        Some(s) => clock(s as int),
        None => "--"@,
    }
}

/// The recent games joined with ` | `.
pub open spec fn recent_items(gs: Seq<RecentGameLine>) -> Seq<char>
    decreases gs.len(),
{
    if gs.len() == 0 {
        Seq::empty()
    } else if gs.len() == 1 {
        recent_item(gs[0])
    } else {
        recent_items(gs.drop_last()) + " | "@ + recent_item(gs.last())
    }
}

/// The lines of one rostered player: none without a breakdown; else his
/// summary line, followed by his recent games when he has any.
pub open spec fn player_lines(p: DiagnosisPlayer) -> Seq<char> {
    match p.breakdown {
        None => Seq::empty(),
        Some(b) => roster_line(p, b) + if b.recent_games@.len() > 0 {
            "    recent: "@ + recent_items(b.recent_games@) + "\n"@
        } else {
            Seq::empty()
        },
    }
}

/// The roster lines of the players, in order.
pub open spec fn roster_lines(ps: Seq<DiagnosisPlayer>) -> Seq<char>
    decreases ps.len(),
{
    if ps.len() == 0 {
        Seq::empty()
    } else {
        roster_lines(ps.drop_last()) + player_lines(ps.last())
    }
}

/// The whole headline block.
pub open spec fn diagnosis_headline_spec(team: DiagnosisTeam, d: DiagnosisView) -> Seq<char> {
    let y = d.yesterday;
    rank_line(team, d) + "\nConcentration (rostered per NHL team, playoff pts from that team):\n"@
        + concentration_lines(shown_concentration(d.concentration_by_team@))
        + "\nYesterday:\n"@ + yesterday_line(y) + my_players_block(y.my_players@) + "  "@
        + top_three_label(y.league_top_three_source@) + ":\n"@ + top_lines(y.league_top_three@)
        + "\nRoster lines:\n"@ + roster_lines(team.players@)
}

// ---------------------------------------------------------------------------
// Building it
// ---------------------------------------------------------------------------

fn push_clock(s: &mut String, t: i32)
    ensures
        final(s)@ == old(s)@ + clock(t as int),
{
    let w: i64 = t as i64;
    let (m, sec): (i64, u64) = if w >= 0 {
        (w / 60, (w % 60) as u64)
    } else {
        (-((-w) / 60), 0)
    };
    push_i64(s, m);
    push_str(s, ":");
    push_pad2(s, sec);
    proof {
        assert(m == whole_minutes(t as int));
        assert(sec == seconds_part(t as int));
    }
}

fn push_rank_line(out: &mut String, team: &DiagnosisTeam, d: &DiagnosisView)
    ensures
        final(out)@ == old(out)@ + rank_line(*team, *d),
{
    let mut s = String::from_str("Caller's team: ");
    push_str(&mut s, team.team_name.as_str());
    push_str(&mut s, " · Rank #");
    push_i64(&mut s, d.league_rank);
    push_str(&mut s, " of ");
    push_i64(&mut s, d.league_size);
    push_str(&mut s, " · ");
    push_i64(&mut s, team.total_points);
    push_str(&mut s, " total pts · ");
    push_i64(&mut s, d.gap_to_first);
    push_str(&mut s, " behind 1st · ");
    push_i64(&mut s, d.gap_to_third);
    push_str(&mut s, " ahead of 3rd.\n");
    push_str(out, s.as_str());
}

fn push_concentration_lines(out: &mut String, cs: &Vec<DiagnosisConcentration>)
    ensures
        final(out)@ == old(out)@ + concentration_lines(shown_concentration(cs@)),
{
    let n: usize = if cs.len() <= 12 {
        cs.len()
    } else {
        12
    };
    let ghost start = out@;
    let mut i: usize = 0;
    assert(cs@.take(0) =~= Seq::<DiagnosisConcentration>::empty());
    assert(start + concentration_lines(cs@.take(0)) =~= start);
    while i < n
        invariant
            n <= cs@.len(),
            i <= n,
            out@ == start + concentration_lines(cs@.take(i as int)),
        decreases n - i,
    {
        let c = &cs[i];
        let mut s = String::from_str("  ");
        push_str(&mut s, c.nhl_team.as_str());
        push_str(&mut s, " · ");
        push_i64(&mut s, c.rostered);
        push_str(&mut s, " players · ");
        push_i64(&mut s, c.team_playoff_points);
        push_str(&mut s, " pts\n");
        push_str(out, s.as_str());
        proof {
            let t = cs@.take(i + 1);
            assert(t.drop_last() =~= cs@.take(i as int));
            assert(t.last() == cs@[i as int]);
            assert(out@ =~= start + concentration_lines(t));
        }
        i = i + 1;
    }
    assert(shown_concentration(cs@) =~= cs@.take(n as int));
}

fn push_yesterday(out: &mut String, y: &DiagnosisYesterday)
    ensures
        final(out)@ == old(out)@ + yesterday_line(*y) + my_players_block(y.my_players@) + "  "@
            + top_three_label(y.league_top_three_source@) + ":\n"@ + top_lines(
            y.league_top_three@,
        ),
{
    let ghost start = out@;
    let mut s = String::from_str("  date ");
    push_str(&mut s, y.date.as_str());
    push_str(&mut s, " · NHL games ");
    push_i64(&mut s, y.nhl_games);
    push_str(&mut s, " (");
    push_i64(&mut s, y.completed_games);
    push_str(&mut s, " completed) · caller ");
    push_i64(&mut s, y.my_goals);
    push_str(&mut s, "G ");
    push_i64(&mut s, y.my_assists);
    push_str(&mut s, "A ");
    push_i64(&mut s, y.my_points);
    push_str(&mut s, "P\n");
    push_str(out, s.as_str());
    let ghost after_line = out@;
    let ps = &y.my_players;
    if ps.len() == 0 {
        push_str(out, "  caller players: none appeared\n");
    } else {
        push_str(out, "  caller players:\n");
        let ghost base = out@;
        let mut i: usize = 0;
        assert(ps@.take(0) =~= Seq::<DiagnosisPlayerDay>::empty());
        assert(base + my_player_lines(ps@.take(0)) =~= base);
        while i < ps.len()
            invariant
                i <= ps@.len(),
                out@ == base + my_player_lines(ps@.take(i as int)),
            decreases ps@.len() - i,
        {
            let p = &ps[i];
            let mut s = String::from_str("    ");
            push_str(&mut s, p.name.as_str());
            push_str(&mut s, " (");
            push_str(&mut s, p.nhl_team.as_str());
            push_str(&mut s, ") · ");
            push_i64(&mut s, p.goals);
            push_str(&mut s, "G ");
            push_i64(&mut s, p.assists);
            push_str(&mut s, "A ");
            push_i64(&mut s, p.points);
            push_str(&mut s, "P\n");
            push_str(out, s.as_str());
            proof {
                let t = ps@.take(i + 1);
                assert(t.drop_last() =~= ps@.take(i as int));
                assert(t.last() == ps@[i as int]);
                assert(out@ =~= base + my_player_lines(t));
            }
            i = i + 1;
        }
        assert(ps@.take(ps@.len() as int) =~= ps@);
        assert(out@ =~= after_line + my_players_block(ps@));
    }
    let ghost after_block = out@;
    assert(after_block == start + yesterday_line(*y) + my_players_block(ps@));
    push_str(out, "  ");
    let from_yesterday = str_eq(y.league_top_three_source.as_str(), "yesterday");
    if from_yesterday {
        push_str(out, "yesterday fantasy top 3");
    } else {
        push_str(out, "current playoff top 3 fallback");
    }
    push_str(out, ":\n");
    let ghost base = out@;
    assert(base == after_block + "  "@ + top_three_label(y.league_top_three_source@) + ":\n"@);
    let ts = &y.league_top_three;
    let mut i: usize = 0;
    assert(ts@.take(0) =~= Seq::<DiagnosisTeamDay>::empty());
    assert(base + top_lines(ts@.take(0)) =~= base);
    while i < ts.len()
        invariant
            i <= ts@.len(),
            out@ == base + top_lines(ts@.take(i as int)),
        decreases ts@.len() - i,
    {
        let t = &ts[i];
        let mut s = String::from_str("    #");
        push_u64(&mut s, (i + 1) as u64);
        push_str(&mut s, " ");
        push_str(&mut s, t.team_name.as_str());
        push_str(&mut s, " · ");
        push_i64(&mut s, t.goals);
        push_str(&mut s, "G ");
        push_i64(&mut s, t.assists);
        push_str(&mut s, "A ");
        push_i64(&mut s, t.points);
        push_str(&mut s, "P\n");
        push_str(out, s.as_str());
        proof {
            let k = ts@.take(i + 1);
            assert(k.drop_last() =~= ts@.take(i as int));
            assert(k.last() == ts@[i as int]);
            assert(k.len() == i + 1);
            assert(out@ =~= base + top_lines(k));
        }
        i = i + 1;
    }
    assert(ts@.take(ts@.len() as int) =~= ts@);
}

fn push_recent_item(out: &mut String, g: &RecentGameLine)
    ensures
        final(out)@ == old(out)@ + recent_item(*g),
{
    let ghost start = out@;
    let mut s = String::from_str("vs ");
    push_str(&mut s, g.opponent.as_str());
    push_str(&mut s, " ");
    push_i64(&mut s, g.points);
    push_str(&mut s, "P TOI ");
    match g.toi_seconds {
        Some(t) => push_clock(&mut s, t),
        None => push_str(&mut s, "--"),
    }
    push_str(out, s.as_str());
}

fn push_bucket_text(s: &mut String, b: PlayerBucket)
    ensures
        final(s)@ == old(s)@ + bucket_text(b),
{
    match b {
        PlayerBucket::TooEarly => push_str(s, "TOO EARLY"),
        PlayerBucket::Outperforming => push_str(s, "OUTPERFORMING"),
        PlayerBucket::OnPace => push_str(s, "ON PACE"),
        PlayerBucket::KeepFaith => push_str(s, "KEEP FAITH"),
        PlayerBucket::FineButFragile => push_str(s, "FINE BUT FRAGILE"),
        PlayerBucket::NeedMiracle => push_str(s, "NEED MIRACLE"),
        PlayerBucket::ProblemAsset => push_str(s, "PROBLEM ASSET"),
        PlayerBucket::TeamEliminated => push_str(s, "TEAM ELIMINATED"),
    }
}

fn push_grade_text(s: &mut String, g: Grade)
    ensures
        final(s)@ == old(s)@ + grade_text(g),
{
    match g {
        Grade::A => push_str(s, "A"),
        Grade::B => push_str(s, "B"),
        Grade::C => push_str(s, "C"),
        Grade::D => push_str(s, "D"),
        Grade::F => push_str(s, "F"),
        Grade::NotEnoughData => push_str(s, "–"),
    }
}

fn push_signed(s: &mut String, n: i64)
    ensures
        final(s)@ == old(s)@ + signed_text(n as int),
{
    let ghost start = s@;
    if n >= 0 {
        push_str(s, "+");
        push_i64(s, n);
        assert(s@ =~= start + ("+"@ + dec_int(n as int)));
    } else {
        push_i64(s, n);
    }
}

fn push_roster_line(out: &mut String, p: &DiagnosisPlayer, b: &RosterBreakdown)
    ensures
        final(out)@ == old(out)@ + roster_line(*p, *b),
{
    let mut s = String::from_str("  [");
    push_bucket_text(&mut s, b.bucket);
    push_str(&mut s, "] ");
    push_str(&mut s, p.name.as_str());
    push_str(&mut s, " (");
    push_str(&mut s, p.nhl_team.as_str());
    push_str(&mut s, " · ");
    push_str(&mut s, p.position.as_str());
    push_str(&mut s, ") · ");
    push_i64(&mut s, b.games_played);
    push_str(&mut s, " GP · ");
    push_i64(&mut s, p.goals);
    push_str(&mut s, "G ");
    push_i64(&mut s, p.assists);
    push_str(&mut s, "A ");
    push_i64(&mut s, p.total_points);
    push_str(&mut s, "P · SOG ");
    push_i64(&mut s, b.sog);
    push_str(&mut s, " · +/- ");
    push_signed(&mut s, b.plus_minus);
    push_str(&mut s, " · TOI/gm ");
    push_clock(&mut s, b.toi_seconds_per_game);
    push_str(&mut s, " · proj ");
    push_str(&mut s, b.projected_ppg.as_str());
    push_str(&mut s, " PPG · grade ");
    push_grade_text(&mut s, b.grade);
    if b.scratch_risk {
        push_str(&mut s, " (scratch risk)");
    } else {
        push_str(&mut s, "");
    }
    push_str(&mut s, " · remP ");
    push_str(&mut s, b.remaining_points.as_str());
    push_str(&mut s, "\n");
    push_str(out, s.as_str());
}

fn push_recent_line(out: &mut String, gs: &Vec<RecentGameLine>)
    requires
        gs@.len() > 0,
    ensures
        final(out)@ == old(out)@ + ("    recent: "@ + recent_items(gs@) + "\n"@),
{
    let ghost before = out@;
    push_str(out, "    recent: ");
    let ghost base = out@;
    push_recent_item(out, &gs[0]);
    proof {
        assert(gs@.take(1) =~= seq![gs@[0]]);
        assert(out@ =~= base + recent_items(gs@.take(1)));
    }
    let mut i: usize = 1;
    while i < gs.len()
        invariant
            1 <= i <= gs@.len(),
            out@ == base + recent_items(gs@.take(i as int)),
        decreases gs@.len() - i,
    {
        push_str(out, " | ");
        push_recent_item(out, &gs[i]);
        proof {
            let t = gs@.take(i + 1);
            assert(t.drop_last() =~= gs@.take(i as int));
            assert(t.last() == gs@[i as int]);
            assert(out@ =~= base + recent_items(t));
        }
        i = i + 1;
    }
    push_str(out, "\n");
    proof {
        assert(gs@.take(gs@.len() as int) =~= gs@);
        assert(out@ =~= before + ("    recent: "@ + recent_items(gs@) + "\n"@));
    }
}

fn push_player_lines(out: &mut String, p: &DiagnosisPlayer)
    ensures
        final(out)@ == old(out)@ + player_lines(*p),
{
    let ghost start = out@;
    let b = match &p.breakdown {
        Some(b) => b,
        None => {
            assert(out@ =~= start + player_lines(*p));
            return ;
        },
    };
    push_roster_line(out, p, b);
    if b.recent_games.len() > 0 {
        push_recent_line(out, &b.recent_games);
        assert(out@ =~= start + player_lines(*p));
    } else {
        assert(out@ =~= start + player_lines(*p));
    }
}

/// The headline block the team-diagnosis narrative is written from (see
/// [`diagnosis_headline_spec`]): the caller's rank line; the first twelve
/// concentration lines; yesterday's summary, the caller's players who
/// appeared ("none appeared" when none did) and the top three; then one
/// summary line per rostered player with a breakdown, followed by his
/// recent games when he has any.
pub fn team_diagnosis_headline(team: &DiagnosisTeam, d: &DiagnosisView) -> (r: String)
    ensures
        r@ == diagnosis_headline_spec(*team, *d),
{
    let mut out = String::new();
    push_rank_line(&mut out, team, d);
    push_str(&mut out, "\nConcentration (rostered per NHL team, playoff pts from that team):\n");
    push_concentration_lines(&mut out, &d.concentration_by_team);
    push_str(&mut out, "\nYesterday:\n");
    push_yesterday(&mut out, &d.yesterday);
    push_str(&mut out, "\nRoster lines:\n");
    let ghost base = out@;
    let ps = &team.players;
    let mut i: usize = 0;
    assert(ps@.take(0) =~= Seq::<DiagnosisPlayer>::empty());
    assert(base + roster_lines(ps@.take(0)) =~= base);
    while i < ps.len()
        invariant
            i <= ps@.len(),
            out@ == base + roster_lines(ps@.take(i as int)),
        decreases ps@.len() - i,
    {
        push_player_lines(&mut out, &ps[i]);
        proof {
            let t = ps@.take(i + 1);
            assert(t.drop_last() =~= ps@.take(i as int));
            assert(t.last() == ps@[i as int]);
            assert(out@ =~= base + roster_lines(t));
        }
        i = i + 1;
    }
    assert(ps@.take(ps@.len() as int) =~= ps@);
    assert(out@ =~= diagnosis_headline_spec(*team, *d));
    out
}

} // verus!
