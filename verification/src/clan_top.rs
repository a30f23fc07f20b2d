//! The clan battle ladder: paging through leagues and divisions, and the
//! lines shown for each clan.
use crate::region::{upper_name, Region};
use crate::text::{decimal_text, str_equals, u64_to_text};
use vstd::prelude::*;

verus! {

/// How many league and division steps the ladder has.
pub const LADDER_STEPS: usize = 13;

/// The league (0 is the highest, Hurricane) and division of each step, from
/// the lowest (Squall III) to the highest (Hurricane I).
pub open spec fn ladder_step(i: int) -> (u64, u64) {
    if i == 0 {
        (4, 3)
    } else if i == 1 {
        (4, 2)
    } else if i == 2 {
        (4, 1)
    } else if i == 3 {
        (3, 3)
    } else if i == 4 {
        (3, 2)
    } else if i == 5 {
        (3, 1)
    } else if i == 6 {
        (2, 3)
    } else if i == 7 {
        (2, 2)
    } else if i == 8 {
        (2, 1)
    } else if i == 9 {
        (1, 3)
    } else if i == 10 {
        (1, 2)
    } else if i == 11 {
        (1, 1)
    } else {
        (0, 1)
    }
}

/// The ladder's steps climb from Squall III to Hurricane I: step `i` below
/// the top is league `4 - i / 3` and division `3 - i % 3`, the top step is
/// Hurricane I, and no step is shown twice.
pub proof fn lemma_ladder_steps()
    ensures
        forall|i: int| 0 <= i < 12 ==> #[trigger] ladder_step(i) == ((4 - i / 3) as u64, (3 - i % 3) as u64),
        ladder_step(12) == (0u64, 1u64),
        forall|i: int, j: int|
            0 <= i < j < LADDER_STEPS ==> #[trigger] ladder_step(i) != #[trigger] ladder_step(j),
{
    assert forall|i: int| 0 <= i < 12 implies #[trigger] ladder_step(i) == ((4 - i / 3) as u64, (3 - i % 3) as u64) by {
        if i == 0 {
        } else if i == 1 {
        } else if i == 2 {
        } else if i == 3 {
        } else if i == 4 {
        } else if i == 5 {
        } else if i == 6 {
        } else if i == 7 {
        } else if i == 8 {
        } else if i == 9 {
        } else if i == 10 {
        } else {
        }
    }
    assert forall|i: int, j: int| 0 <= i < j < LADDER_STEPS implies #[trigger] ladder_step(i) != #[trigger] ladder_step(j) by {
        if j == 12 {
            assert(ladder_step(i).0 >= 1);
        } else {
            assert(ladder_step(i) == ((4 - i / 3) as u64, (3 - i % 3) as u64));
            assert(ladder_step(j) == ((4 - j / 3) as u64, (3 - j % 3) as u64));
            assert(i == 3 * (i / 3) + i % 3);
            assert(j == 3 * (j / 3) + j % 3);
        }
    }
}

fn step_at(i: usize) -> (r: (u64, u64))
    requires
        i < LADDER_STEPS,
    ensures
        r == ladder_step(i as int),
{
    if i == 0 {
        (4, 3)
    } else if i == 1 {
        (4, 2)
    } else if i == 2 {
        (4, 1)
    } else if i == 3 {
        (3, 3)
    } else if i == 4 {
        (3, 2)
    } else if i == 5 {
        (3, 1)
    } else if i == 6 {
        (2, 3)
    } else if i == 7 {
        (2, 2)
    } else if i == 8 {
        (2, 1)
    } else if i == 9 {
        (1, 3)
    } else if i == 10 {
        (1, 2)
    } else if i == 11 {
        (1, 1)
    } else {
        (0, 1)
    }
}

/// The name of a league.
pub open spec fn league_text(league: u64) -> Seq<char> {
    if league == 0 {
        "Hurricane"@
    } else if league == 1 {
        "Typhoon"@
    } else if league == 2 {
        "Storm"@
    } else if league == 3 {
        "Gale"@
    } else {
        "Squall"@
    }
}

/// The name of a division.
pub open spec fn division_text(division: u64) -> Seq<char> {
    if division == 1 {
        "I"@
    } else if division == 2 {
        "II"@
    } else {
        "III"@
    }
}

/// Each league has its own name, and a division's name is the roman numeral
/// of its number.
pub proof fn lemma_ladder_names(a: u64, b: u64, d: u64)
    requires
        a <= 4,
        b <= 4,
        1 <= d <= 3,
    ensures
        a != b ==> league_text(a) != league_text(b),
        crate::roulette::roman_value(division_text(d)) == d,
{
    reveal_strlit("Hurricane");
    reveal_strlit("Typhoon");
    reveal_strlit("Storm");
    reveal_strlit("Gale");
    reveal_strlit("Squall");
    reveal_strlit("I");
    reveal_strlit("II");
    reveal_strlit("III");
    reveal_with_fuel(crate::roulette::roman_value, 4);
    if a != b {
        assert(league_text(a)[0] != league_text(b)[0] || league_text(a).len() != league_text(b).len());
    }
    let t = division_text(d);
    if d == 2 {
        assert(t =~= seq!['I', 'I']);
        assert(t.drop_first() =~= seq!['I']);
    } else if d == 3 {
        assert(t =~= seq!['I', 'I', 'I']);
        assert(t.drop_first() =~= seq!['I', 'I']);
        assert(t.drop_first().drop_first() =~= seq!['I']);
    } else {
        assert(t =~= seq!['I']);
    }
}

/// The clan battle ladder's state; `client` is what fetches the pages.
pub struct ClanTopView<C> {
    pub client: C,
    pub ranks_index: usize,
    pub region: Region,
    pub season: u32,
    pub timeout: bool,
}

/// What a button press on the ladder asks for.
#[derive(Debug, Clone, Copy, PartialEq, Eq, Structural)]
pub enum LadderMove {
    /// One step down the ladder.
    Left,
    /// One step up the ladder.
    Right,
    /// Show the same step again.
    Stay,
}

impl<C> ClanTopView<C> {
    /// The step shown is one of the ladder's.
    pub open spec fn wf(self) -> bool {
        self.ranks_index < LADDER_STEPS
    }

    /// The step shown, from 0 (Squall III) to 12 (Hurricane I).
    pub open spec fn step(self) -> int {
        self.ranks_index as int
    }

    /// A ladder on its highest step, Hurricane I.
    pub fn new(client: C, region: Region, season: u32) -> (r: Self)
        ensures
            r.wf(),
            r.step() == 12,
            r.client == client,
            r.region == region,
            r.season == season,
            !r.timeout,
    {
        ClanTopView { client, ranks_index: 12, region, season, timeout: false }
    }

    /// What the button `custom_id` does.
    pub fn press_kind(custom_id: &str) -> (r: LadderMove)
        ensures
            custom_id@ == "clan_top_left"@ ==> r == LadderMove::Left,
            custom_id@ == "clan_top_right"@ ==> r == LadderMove::Right,
            custom_id@ != "clan_top_left"@ && custom_id@ != "clan_top_right"@ ==> r
                == LadderMove::Stay,
    {
        proof {
            reveal_strlit("clan_top_left");
            reveal_strlit("clan_top_right");
            assert("clan_top_left"@.len() != "clan_top_right"@.len());
        }
        if str_equals(custom_id, "clan_top_left") {
            LadderMove::Left
        } else if str_equals(custom_id, "clan_top_right") {
            LadderMove::Right
        } else {
            LadderMove::Stay
        }
    }

    /// Moves along the ladder: left one step down, right one step up. There
    /// must be a step to move to.
    pub fn on_press(&mut self, m: LadderMove)
        requires
            old(self).wf(),
            m == LadderMove::Left ==> old(self).step() > 0,
            m == LadderMove::Right ==> old(self).step() < 12,
        ensures
            final(self).wf(),
            m == LadderMove::Left ==> final(self).step() == old(self).step() - 1,
            m == LadderMove::Right ==> final(self).step() == old(self).step() + 1,
            m == LadderMove::Stay ==> final(self).step() == old(self).step(),
            final(self).region == old(self).region,
            final(self).season == old(self).season,
            final(self).timeout == old(self).timeout,
    {
        match m {
            LadderMove::Left => {
                self.ranks_index = self.ranks_index - 1;
            },
            LadderMove::Right => {
                self.ranks_index = self.ranks_index + 1;
            },
            LadderMove::Stay => {},
        }
    }

    /// The league of the step shown.
    pub fn league_name(&self) -> (r: &'static str)
        requires
            self.wf(),
        ensures
            r@ == league_text(ladder_step(self.step()).0),
    {
        let (league, _) = step_at(self.ranks_index);
        if league == 0 {
            "Hurricane"
        } else if league == 1 {
            "Typhoon"
        } else if league == 2 {
            "Storm"
        } else if league == 3 {
            "Gale"
        } else {
            "Squall"
        }
    }

    /// The division of the step shown.
    pub fn division_name(&self) -> (r: &'static str)
        requires
            self.wf(),
        ensures
            r@ == division_text(ladder_step(self.step()).1),
    {
        let (_, division) = step_at(self.ranks_index);
        if division == 1 {
            "I"
        } else if division == 2 {
            "II"
        } else {
            "III"
        }
    }

    /// The name of the server for the ladder's API.
    pub fn realm(&self, region: &Region) -> (r: &'static str)
        ensures
            r@ == realm_text(*region),
    {
        match region {
            Region::Asia => "sg",
            Region::Na => "us",
            Region::Eu => "eu",
        }
    }

    /// The page's title: league and division.
    pub fn title(&self) -> (r: String)
        requires
            self.wf(),
        ensures
            r@ == league_text(ladder_step(self.step()).0) + " "@ + division_text(
                ladder_step(self.step()).1,
            ),
    {
        let mut s = String::from_str(self.league_name());
        s.append(" ");
        s.append(self.division_name());
        s
    }

    /// The page's description: server and season.
    pub fn description(&self) -> (r: String)
        ensures
            r@ == upper_name(self.region) + " S"@ + decimal_text(self.season as nat),
    {
        let mut s = String::from_str(self.region.upper());
        s.append(" S");
        s.append(u64_to_text(self.season as u64).as_str());
        s
    }

    /// The path and query of the ladder page of the step shown.
    pub fn request_path(&self) -> (r: String)
        requires
            self.wf(),
        ensures
            r@ == "/api/ladder/structure/?season="@ + decimal_text(self.season as nat)
                + "&realm="@ + realm_text(self.region) + "&league="@ + decimal_text(
                ladder_step(self.step()).0 as nat,
            ) + "&division="@ + decimal_text(ladder_step(self.step()).1 as nat),
    {
        let (league, division) = step_at(self.ranks_index);
        let mut s = String::from_str("/api/ladder/structure/?season=");
        s.append(u64_to_text(self.season as u64).as_str());
        s.append("&realm=");
        s.append(self.realm(&self.region));
        s.append("&league=");
        s.append(u64_to_text(league).as_str());
        s.append("&division=");
        s.append(u64_to_text(division).as_str());
        s
    }

    /// Whether the two buttons are disabled: left on the highest step, right
    /// on the lowest, both once the ladder stopped listening.
    pub fn build(&self) -> (r: (bool, bool))
        ensures
            r.0 == (self.step() == 12 || self.timeout),
            r.1 == (self.step() == 0 || self.timeout),
    {
        (self.ranks_index == 12 || self.timeout, self.ranks_index == 0 || self.timeout)
    }

    /// Disables the buttons once the ladder stops listening.
    pub fn timeout(&mut self) -> (r: &Self)
        ensures
            final(self).timeout,
            final(self).ranks_index == old(self).ranks_index,
            final(self).region == old(self).region,
            final(self).season == old(self).season,
            *r == *final(self),
    {
        self.timeout = true;
        self
    }
}

/// The ladder API's name of a server.
pub open spec fn realm_text(region: Region) -> Seq<char> {
    match region {
        Region::Asia => "sg"@,
        Region::Na => "us"@,
        Region::Eu => "eu"@,
    }
}

/// The text with every `_` escaped for Discord's markdown.
pub open spec fn escape_underscores(s: Seq<char>) -> Seq<char>
    decreases s.len(),
{
    if s.len() == 0 {
        s
    } else {
        escape_underscores(s.drop_last()) + if s.last() == '_' {
            seq!['\\', '_']
        } else {
            seq![s.last()]
        }
    }
}

/// A clan's line on the ladder page: its escaped tag and rating.
pub open spec fn ladder_name(tag: Seq<char>, rating: u32) -> Seq<char> {
    "["@ + escape_underscores(tag) + "]    rating: "@ + decimal_text(rating as nat)
}

/// The clan's name line on the ladder page.
pub fn ladder_field_name(tag: &str, rating: u32) -> (r: String)
    ensures
        r@ == ladder_name(tag@, rating),
{
    let mut s = String::from_str("[");
    let n = tag.unicode_len();
    let mut i: usize = 0;
    proof {
        reveal_strlit("[");
    }
    while i < n
        invariant
            i <= n,
            n == tag@.len(),
            s@ == "["@ + escape_underscores(tag@.take(i as int)),
        decreases n - i,
    {
        proof {
            assert(tag@.take(i + 1).drop_last() =~= tag@.take(i as int));
            reveal_strlit("\\_");
        }
        let c = tag.get_char(i);
        if c == '_' {
            s.append("\\_");
        } else {
            s.append(tag.substring_char(i, i + 1));
        }
        i = i + 1;
        proof {
            assert(s@ =~= "["@ + escape_underscores(tag@.take(i as int)));
        }
    }
    proof {
        assert(tag@.take(i as int) =~= tag@);
    }
    s.append("]    rating: ");
    s.append(u64_to_text(rating as u64).as_str());
    s
}

/// What chrono's `DateTime::parse_from_str` with `%Y-%m-%d %H:%M:%S%z`,
/// turned into Unix seconds, gives for a text; `None` where it does not
/// parse.
pub uninterp spec fn ladder_time(s: Seq<char>) -> Option<i64>;

/// Reads the ladder's time of a clan's last battle, such as
/// `2023-07-13 13:39:41+00:00`, with chrono's `DateTime::parse_from_str`
/// and its Unix seconds from `timestamp`.
#[verifier::external_body]
fn parse_ladder_time(s: &str) -> (r: Option<i64>)
    ensures
        r == ladder_time(s@),
{
    match chrono::DateTime::parse_from_str(s, "%Y-%m-%d %H:%M:%S%z") {
        Ok(t) => Some(t.timestamp()),
        Err(_) => None,
    }
}

/// A clan's value line on the ladder page: battles and the time of the
/// last one, as a Discord time stamp.
pub open spec fn ladder_value(battles: u32, secs: i64) -> Seq<char> {
    "battles: "@ + decimal_text(battles as nat) + ", LBT: <t:"@ + signed_text(secs) + ":f>"@
}

/// A signed number in decimal.
pub open spec fn signed_text(n: i64) -> Seq<char> {
    if n < 0 {
        "-"@ + decimal_text((-n) as nat)
    } else {
        decimal_text(n as nat)
    }
}

fn i64_to_text(n: i64) -> (r: String)
    ensures
        r@ == signed_text(n),
{
    if n < 0 {
        let m: u64 = if n == i64::MIN {
            9223372036854775808u64
        } else {
            (-n) as u64
        };
        let mut s = String::from_str("-");
        s.append(u64_to_text(m).as_str());
        s
    } else {
        u64_to_text(n as u64)
    }
}

/// The clan's value line, or `None` where its time does not parse.
pub fn ladder_field_value(battles: u32, last_battle_at: &str) -> (r: Option<String>)
    ensures
        match ladder_time(last_battle_at@) {
            Some(t) => r matches Some(x) && x@ == ladder_value(battles, t),
            None => r is None,
        },
{
    match parse_ladder_time(last_battle_at) {
        Some(t) => Some(ladder_value_line(battles, t)),
        None => None,
    }
}

/// The clan's value line for its battles and the Unix seconds of its last
/// battle.
pub fn ladder_value_line(battles: u32, secs: i64) -> (r: String)
    ensures
        r@ == ladder_value(battles, secs),
{
    let mut s = String::from_str("battles: ");
    s.append(u64_to_text(battles as u64).as_str());
    s.append(", LBT: <t:");
    s.append(i64_to_text(secs).as_str());
    s.append(":f>");
    s
}

} // verus!
