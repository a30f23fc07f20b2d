//! Clans as the commands pass them around, and the search text of the clan
//! and player pickers.
use crate::args::{plain_words, season_letter, split_whitespace, trim_by, trim_in};
use crate::clan_detail::ClanTag;
use crate::region::{region_of, Region};
use crate::text::{parse_i32, parse_i32_spec};
use vstd::prelude::*;
use vstd::std_specs::convert::FromSpecImpl;

verus! {

/// A clan identified by server and id, with its tag and name.
#[derive(Debug, Clone)]
pub struct PartialClan {
    pub tag: ClanTag,
    pub region: Region,
    pub id: u64,
    pub name: String,
}

/// The short form of a clan that a picker hands back: its tag and server.
#[derive(Debug, Clone)]
pub struct AutoCompleteClan {
    pub tag: ClanTag,
    pub region: Region,
}

/// The same short form, as the newer picker names it.
#[derive(Debug, Clone)]
pub struct AutocompleteClan {
    pub tag: ClanTag,
    pub region: Region,
}

impl From<PartialClan> for AutoCompleteClan {
    fn from(v: PartialClan) -> (r: Self) {
        AutoCompleteClan { tag: v.tag, region: v.region }
    }
}

impl FromSpecImpl<PartialClan> for AutoCompleteClan {
    open spec fn obeys_from_spec() -> bool {
        true
    }

    open spec fn from_spec(v: PartialClan) -> Self {
        AutoCompleteClan { tag: v.tag, region: v.region }
    }
}

impl From<PartialClan> for AutocompleteClan {
    fn from(v: PartialClan) -> (r: Self) {
        AutocompleteClan { tag: v.tag, region: v.region }
    }
}

impl FromSpecImpl<PartialClan> for AutocompleteClan {
    open spec fn obeys_from_spec() -> bool {
        true
    }

    open spec fn from_spec(v: PartialClan) -> Self {
        AutocompleteClan { tag: v.tag, region: v.region }
    }
}

/// How a picker reads what the user typed: nothing gives `None`; one word is a
/// name on the Asia server; otherwise the first word names the server (Asia when
/// it names none) and the second is the name.
pub open spec fn region_query(input: Seq<char>) -> Option<(Region, Seq<char>)> {
    let w = plain_words(input);
    if w.len() == 0 {
        None
    } else if w.len() == 1 {
        Some((Region::Asia, w[0]))
    } else {
        Some(
            (
                match region_of(w[0]) {
                    Some(g) => g,
                    None => Region::Asia,
                },
                w[1],
            ),
        )
    }
}

/// Reads what the user typed into a player or clan picker.
pub fn parse_region_query(input: &str) -> (r: Option<(Region, String)>)
    ensures
        match (r, region_query(input@)) {
            (Some((g, name)), Some((g2, name2))) => g == g2 && name@ == name2,
            (None, None) => true,
            _ => false,
        },
{
    let mut words = split_whitespace(input);
    proof {
        assert(words@.len() == plain_words(input@).len());
    }
    if words.len() == 0 {
        None
    } else if words.len() == 1 {
        let name = words.remove(0);
        Some((Region::Asia, name))
    } else {
        let region = match Region::parse(words[0].as_str()) {
            Some(g) => g,
            None => Region::Asia,
        };
        let name = words.remove(1);
        Some((region, name))
    }
}

/// The season that a season argument names: `S22`, `s21` or `22`, with any
/// `s` or `S` around the number; -1 (the latest season) when no number is
/// left.
pub open spec fn season_arg_value(t: Seq<char>) -> i32 {
    match parse_i32_spec(trim_by(t, season_letter())) {
        Some(v) => v,
        None => -1i32,
    }
}

/// Reads the season argument of the prefix `clan` command.
pub fn parse_season_arg(arg: &str) -> (r: i32)
    ensures
        r == season_arg_value(arg@),
{
    let n = arg.unicode_len();
    proof {
        assert(arg@.subrange(0, n as int) =~= arg@);
    }
    let t = trim_in(arg, 0, n, true);
    match parse_i32(t.as_str()) {
        Some(v) => v,
        None => -1,
    }
}

/// The season that a season number asks for: itself when not negative; counted
/// back from the latest when negative (-1 is the latest), or the latest when
/// that goes below 0.
pub open spec fn resolved_season(current: u32, season: i32) -> u32 {
    if season >= 0 {
        season as u32
    } else if current + season + 1 >= 0 {
        (current + season + 1) as u32
    } else {
        current
    }
}

/// The season that the season command shows.
pub fn resolve_season(current: u32, season: i32) -> (r: u32)
    ensures
        r == resolved_season(current, season),
{
    if season >= 0 {
        season as u32
    } else {
        let back: i64 = current as i64 + season as i64 + 1;
        if back >= 0 {
            back as u32
        } else {
            current
        }
    }
}

/// A season argument with no number in it asks for the latest season.
pub proof fn lemma_season_word_is_latest(t: Seq<char>, current: u32)
    requires
        parse_i32_spec(trim_by(t, season_letter())) is None,
    ensures
        resolved_season(current, season_arg_value(t)) == current,
{
}

/// The season of the clan battle ladder: the given one when positive, else the
/// latest.
pub fn ladder_season(season: Option<i64>, current: u32) -> (r: u32)
    ensures
        r == match season {
            Some(s) => if s > 0 {
                s as u32
            } else {
                current
            },
            None => current,
        },
{
    let s = match season {
        Some(s) => s,
        None => -1,
    };
    if s > 0 {
        s as u32
    } else {
        current
    }
}

} // verus!
