//! Game servers and battle types, as users name them.
use crate::error::{IsacError, IsacInfo};
use crate::text::{ascii_lower, eq_ignore_ascii_case, str_eq_ignore_ascii_case};
use vstd::prelude::*;

verus! {

/// A World of Warships server.
#[derive(Debug, Clone, Copy, PartialEq, Eq, Structural, Hash)]
pub enum Region {
    Asia,
    Na,
    Eu,
}

/// The region that a user's word names: `asia`, `na` or `eu`, in any ASCII case.
pub open spec fn region_of(t: Seq<char>) -> Option<Region> {
    if eq_ignore_ascii_case(t, seq!['a', 's', 'i', 'a']) {
        Some(Region::Asia)
    } else if eq_ignore_ascii_case(t, seq!['n', 'a']) {
        Some(Region::Na)
    } else if eq_ignore_ascii_case(t, seq!['e', 'u']) {
        Some(Region::Eu)
    } else {
        None
    }
}

impl Default for Region {
    fn default() -> (r: Region)
        ensures
            r == Region::Asia,
    {
        Region::Asia
    }
}

impl Region {
    /// The server that a word names, if any.
    pub fn parse(value: &str) -> (r: Option<Region>)
        ensures
            r == region_of(value@),
    {
        proof {
            reveal_strlit("asia");
            reveal_strlit("na");
            reveal_strlit("eu");
        }
        if str_eq_ignore_ascii_case(value, "asia") {
            Some(Region::Asia)
        } else if str_eq_ignore_ascii_case(value, "na") {
            Some(Region::Na)
        } else if str_eq_ignore_ascii_case(value, "eu") {
            Some(Region::Eu)
        } else {
            None
        }
    }

    /// The lower-case name, as used in file paths.
    pub fn lower(&self) -> (r: &'static str)
        ensures
            r@ == lower_name(*self),
    {
        proof {
            reveal_strlit("asia");
            reveal_strlit("na");
            reveal_strlit("eu");
        }
        match self {
            Region::Asia => "asia",
            Region::Na => "na",
            Region::Eu => "eu",
        }
    }

    /// The upper-case name, as shown to users.
    pub fn upper(&self) -> (r: &'static str)
        ensures
            r@ == upper_name(*self),
    {
        proof {
            reveal_strlit("ASIA");
            reveal_strlit("NA");
            reveal_strlit("EU");
        }
        match self {
            Region::Asia => "ASIA",
            Region::Na => "NA",
            Region::Eu => "EU",
        }
    }
}

/// The server's name in lower case.
pub open spec fn lower_name(r: Region) -> Seq<char> {
    match r {
        Region::Asia => seq!['a', 's', 'i', 'a'],
        Region::Na => seq!['n', 'a'],
        Region::Eu => seq!['e', 'u'],
    }
}

/// A word names a server exactly when it is the server's lower-case name in
/// any ASCII case; the upper-case name names it too.
pub proof fn lemma_region_words(t: Seq<char>, r: Region)
    ensures
        region_of(t) == Some(r) <==> eq_ignore_ascii_case(t, lower_name(r)),
        region_of(lower_name(r)) == Some(r),
        region_of(upper_name(r)) == Some(r),
{
    let w = lower_name(r);
    assert(eq_ignore_ascii_case(w, w));
    assert(eq_ignore_ascii_case(upper_name(r), w));
    if eq_ignore_ascii_case(t, w) {
        assert(ascii_lower(t[0]) == ascii_lower(w[0]));
    }
    if region_of(t) == Some(r) {
        assert(ascii_lower(t[0]) == ascii_lower(t[0]));
    }
}

/// The server's name in upper case.
pub open spec fn upper_name(r: Region) -> Seq<char> {
    match r {
        Region::Asia => seq!['A', 'S', 'I', 'A'],
        Region::Na => seq!['N', 'A'],
        Region::Eu => seq!['E', 'U'],
    }
}

/// A battle type.
#[derive(Debug, Clone, Copy, PartialEq, Eq, Structural, Hash)]
pub enum Mode {
    Pvp,
    Solo,
    Div2,
    Div3,
    Rank,
}

impl Default for Mode {
    fn default() -> (r: Mode)
        ensures
            r == Mode::Pvp,
    {
        Mode::Pvp
    }
}

/// The battle type that a user's word names: `pvp`, `solo`, `div2`, `div3` or
/// `rank`, in any ASCII case.
pub open spec fn mode_of(t: Seq<char>) -> Option<Mode> {
    if eq_ignore_ascii_case(t, seq!['p', 'v', 'p']) {
        Some(Mode::Pvp)
    } else if eq_ignore_ascii_case(t, seq!['s', 'o', 'l', 'o']) {
        Some(Mode::Solo)
    } else if eq_ignore_ascii_case(t, seq!['d', 'i', 'v', '2']) {
        Some(Mode::Div2)
    } else if eq_ignore_ascii_case(t, seq!['d', 'i', 'v', '3']) {
        Some(Mode::Div3)
    } else if eq_ignore_ascii_case(t, seq!['r', 'a', 'n', 'k']) {
        Some(Mode::Rank)
    } else {
        None
    }
}

impl Mode {
    /// The battle type that a word names, if any.
    pub fn parse(value: &str) -> (r: Option<Mode>)
        ensures
            r == mode_of(value@),
    {
        proof {
            reveal_strlit("pvp");
            reveal_strlit("solo");
            reveal_strlit("div2");
            reveal_strlit("div3");
            reveal_strlit("rank");
        }
        if str_eq_ignore_ascii_case(value, "pvp") {
            Some(Mode::Pvp)
        } else if str_eq_ignore_ascii_case(value, "solo") {
            Some(Mode::Solo)
        } else if str_eq_ignore_ascii_case(value, "div2") {
            Some(Mode::Div2)
        } else if str_eq_ignore_ascii_case(value, "div3") {
            Some(Mode::Div3)
        } else if str_eq_ignore_ascii_case(value, "rank") {
            Some(Mode::Rank)
        } else {
            None
        }
    }
}

/// The word that names a battle type: `pvp`, `solo`, `div2`, `div3` or
/// `rank`.
pub open spec fn mode_word(m: Mode) -> Seq<char> {
    match m {
        Mode::Pvp => "pvp"@,
        Mode::Solo => "solo"@,
        Mode::Div2 => "div2"@,
        Mode::Div3 => "div3"@,
        Mode::Rank => "rank"@,
    }
}

/// A word names a battle type exactly when it is that type's word, in any
/// ASCII case; so each of the five words names its own type, and no two name
/// the same one.
pub proof fn lemma_mode_words(t: Seq<char>, m: Mode)
    ensures
        mode_of(t) == Some(m) <==> eq_ignore_ascii_case(t, mode_word(m)),
        mode_of(mode_word(m)) == Some(m),
{
    reveal_strlit("pvp");
    reveal_strlit("solo");
    reveal_strlit("div2");
    reveal_strlit("div3");
    reveal_strlit("rank");
    assert("pvp"@ =~= seq!['p', 'v', 'p']);
    assert("solo"@ =~= seq!['s', 'o', 'l', 'o']);
    assert("div2"@ =~= seq!['d', 'i', 'v', '2']);
    assert("div3"@ =~= seq!['d', 'i', 'v', '3']);
    assert("rank"@ =~= seq!['r', 'a', 'n', 'k']);
    let w = mode_word(m);
    assert(eq_ignore_ascii_case(w, w));
    if eq_ignore_ascii_case(t, w) {
        // the words differ from each other whatever the case
        assert(ascii_lower(t[0]) == ascii_lower(w[0]));
        if t.len() == 4 {
            assert(ascii_lower(t[3]) == ascii_lower(w[3]));
        }
    }
    if mode_of(t) == Some(m) {
        if t.len() > 0 {
            assert(ascii_lower(t[0]) == ascii_lower(t[0]));
        }
        if t.len() == 4 {
            assert(ascii_lower(t[3]) == ascii_lower(t[3]));
        }
    }
}

/// The server each Discord server uses by default, by Discord server id.
#[derive(Debug)]
pub struct GuildDefaultRegion(pub std::collections::HashMap<u64, Region>);

impl GuildDefaultRegion {
    /// The Discord server's default game server: the one set for it, else
    /// Asia; Asia outside any Discord server.
    pub fn get_default(&self, guild_id: Option<u64>) -> (r: Region)
        ensures
            r == match guild_id {
                Some(g) => if self.0@.contains_key(g) {
                    self.0@[g]
                } else {
                    Region::Asia
                },
                None => Region::Asia,
            },
    {
        proof {
            assert(vstd::std_specs::hash::obeys_key_model::<u64>());
        }
        match guild_id {
            Some(g) => match self.0.get(&g) {
                Some(r) => *r,
                None => Region::Asia,
            },
            None => Region::Asia,
        }
    }

    /// Sets the Discord server's default game server; only its
    /// administrators may.
    pub fn set_default(&mut self, guild_id: u64, region: Region, is_admin: bool) -> (r: Result<
        (),
        IsacError,
    >)
        ensures
            is_admin ==> r is Ok && final(self).0@ == old(self).0@.insert(guild_id, region),
            !is_admin ==> (r matches Err(IsacError::Info(IsacInfo::GeneralError { msg })) && msg@
                == "You need admin permission to do this"@) && final(self).0@ == old(self).0@,
    {
        proof {
            assert(vstd::std_specs::hash::obeys_key_model::<u64>());
        }
        if is_admin {
            self.0.insert(guild_id, region);
            Ok(())
        } else {
            Err(
                IsacError::Info(
                    IsacInfo::GeneralError {
                        msg: String::from_str("You need admin permission to do this"),
                    },
                ),
            )
        }
    }
}

/// The Discord server a setting is for; the command only works in one.
pub fn require_guild(guild_id: Option<u64>) -> (r: Result<u64, IsacError>)
    ensures
        guild_id matches Some(g) ==> r == Ok::<u64, IsacError>(g),
        guild_id is None ==> (r matches Err(IsacError::Info(IsacInfo::GeneralError { msg })) && msg@
            == "You have to use this command in a server"@),
{
    match guild_id {
        Some(g) => Ok(g),
        None => Err(
            IsacError::Info(
                IsacInfo::GeneralError {
                    msg: String::from_str("You have to use this command in a server"),
                },
            ),
        ),
    }
}

} // verus!
