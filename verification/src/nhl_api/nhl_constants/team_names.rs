//! Full names of the current NHL teams by abbreviation.
use vstd::prelude::*;

use crate::text::str_eq;

verus! {

/// The team table: `(abbreviation, full name)`. The Arizona Coyotes
/// relocated to Utah after the 2023-24 season.
pub open spec fn team_table() -> Seq<(Seq<char>, Seq<char>)> {
    seq![
        ("ANA"@, "Anaheim Ducks"@),
        ("BOS"@, "Boston Bruins"@),
        ("BUF"@, "Buffalo Sabres"@),
        ("CGY"@, "Calgary Flames"@),
        ("CAR"@, "Carolina Hurricanes"@),
        ("CHI"@, "Chicago Blackhawks"@),
        ("COL"@, "Colorado Avalanche"@),
        ("CBJ"@, "Columbus Blue Jackets"@),
        ("DAL"@, "Dallas Stars"@),
        ("DET"@, "Detroit Red Wings"@),
        ("EDM"@, "Edmonton Oilers"@),
        ("FLA"@, "Florida Panthers"@),
        ("LAK"@, "Los Angeles Kings"@),
        ("MIN"@, "Minnesota Wild"@),
        ("MTL"@, "Montreal Canadiens"@),
        ("NSH"@, "Nashville Predators"@),
        ("NJD"@, "New Jersey Devils"@),
        ("NYI"@, "New York Islanders"@),
        ("NYR"@, "New York Rangers"@),
        ("OTT"@, "Ottawa Senators"@),
        ("PHI"@, "Philadelphia Flyers"@),
        ("PIT"@, "Pittsburgh Penguins"@),
        ("SJS"@, "San Jose Sharks"@),
        ("SEA"@, "Seattle Kraken"@),
        ("STL"@, "St. Louis Blues"@),
        ("TBL"@, "Tampa Bay Lightning"@),
        ("TOR"@, "Toronto Maple Leafs"@),
        ("UTA"@, "Utah Mammoth"@),
        ("VAN"@, "Vancouver Canucks"@),
        ("VGK"@, "Vegas Golden Knights"@),
        ("WSH"@, "Washington Capitals"@),
        ("WPG"@, "Winnipeg Jets"@)
    ]
}

/// Views of a list of string-slice pairs.
pub open spec fn pair_views(v: Seq<(&str, &str)>) -> Seq<(Seq<char>, Seq<char>)> {
    v.map_values(|p: (&str, &str)| (p.0@, p.1@))
}

/// The full name filed under `abbrev` in `table` (first match), if any.
pub open spec fn name_in(table: Seq<(Seq<char>, Seq<char>)>, abbrev: Seq<char>) -> Option<Seq<char>>
    decreases table.len(),
{
    if table.len() == 0 {
        None
    } else if table[0].0 == abbrev {
        Some(table[0].1)
    } else {
        name_in(table.drop_first(), abbrev)
    }
}

/// The full name of a team, `"Unknown Team"` for an abbreviation not in
/// the table.
pub open spec fn team_name_of(abbrev: Seq<char>) -> Seq<char> {
    match name_in(team_table(), abbrev) {
        Some(n) => n,
        None => "Unknown Team"@,
    }
}

/// The table of the 32 teams, abbreviation first.
pub fn get_team_names() -> (r: Vec<(&'static str, &'static str)>)
    ensures
        pair_views(r@) == team_table(),
{
    let mut v: Vec<(&'static str, &'static str)> = Vec::new();
    v.push(("ANA", "Anaheim Ducks"));
    v.push(("BOS", "Boston Bruins"));
    v.push(("BUF", "Buffalo Sabres"));
    v.push(("CGY", "Calgary Flames"));
    v.push(("CAR", "Carolina Hurricanes"));
    v.push(("CHI", "Chicago Blackhawks"));
    v.push(("COL", "Colorado Avalanche"));
    v.push(("CBJ", "Columbus Blue Jackets"));
    v.push(("DAL", "Dallas Stars"));
    v.push(("DET", "Detroit Red Wings"));
    v.push(("EDM", "Edmonton Oilers"));
    v.push(("FLA", "Florida Panthers"));
    v.push(("LAK", "Los Angeles Kings"));
    v.push(("MIN", "Minnesota Wild"));
    v.push(("MTL", "Montreal Canadiens"));
    v.push(("NSH", "Nashville Predators"));
    v.push(("NJD", "New Jersey Devils"));
    v.push(("NYI", "New York Islanders"));
    v.push(("NYR", "New York Rangers"));
    v.push(("OTT", "Ottawa Senators"));
    v.push(("PHI", "Philadelphia Flyers"));
    v.push(("PIT", "Pittsburgh Penguins"));
    v.push(("SJS", "San Jose Sharks"));
    v.push(("SEA", "Seattle Kraken"));
    v.push(("STL", "St. Louis Blues"));
    v.push(("TBL", "Tampa Bay Lightning"));
    v.push(("TOR", "Toronto Maple Leafs"));
    v.push(("UTA", "Utah Mammoth"));
    v.push(("VAN", "Vancouver Canucks"));
    v.push(("VGK", "Vegas Golden Knights"));
    v.push(("WSH", "Washington Capitals"));
    v.push(("WPG", "Winnipeg Jets"));
    assert(pair_views(v@) =~= team_table());
    v
}

/// The full name of a team from its abbreviation, `"Unknown Team"` when
/// it is not in the table.
pub fn get_team_name(abbrev: &str) -> (r: &'static str)
    ensures
        r@ == team_name_of(abbrev@),
{
    let table = get_team_names();
    let mut i: usize = 0;
    assert(pair_views(table@).skip(0) =~= pair_views(table@));
    while i < table.len()
        invariant
            i <= table@.len(),
            pair_views(table@) == team_table(),
            name_in(team_table(), abbrev@) == name_in(pair_views(table@).skip(i as int), abbrev@),
        decreases table@.len() - i,
    {
        proof {
            assert(pair_views(table@).skip(i as int)[0] == pair_views(table@)[i as int]);
            assert(pair_views(table@).skip(i as int).drop_first() =~= pair_views(table@).skip(
                i + 1,
            ));
        }
        if str_eq(table[i].0, abbrev) {
            return table[i].1;
        }
        i = i + 1;
    }
    "Unknown Team"
}

} // verus!
