//! The clan card: its members, the seasons it shows, its rename line and the
//! buttons under it.
use crate::clan::PartialClan;
use crate::clan_detail::ClanTag;
use crate::error::{IsacError, IsacInfo};
use crate::text::{lemma_text_lt_irreflexive, lowercase, text_less, text_lt, to_lowercase};
use vstd::prelude::*;

verus! {

/// What the clan card needs to know of a member.
#[derive(Debug, Clone)]
pub struct ClanMember {
    pub ign: String,
    /// When the member last played, in seconds since the Unix epoch.
    pub last_battle_time: u64,
    /// The clan battle season the member's numbers are for.
    pub season_id: u32,
    pub battles: u64,
}

/// A button under a message: its id, its label and whether it is disabled.
#[derive(Debug, Clone)]
pub struct ViewButton {
    pub custom_id: String,
    pub label: String,
    pub disabled: bool,
}

/// The member names ordered by their lower case, each with its key; names
/// with equal keys keep their order.
pub open spec fn by_key_insert(s: Seq<(Seq<char>, Seq<char>)>, x: (Seq<char>, Seq<char>)) -> Seq<
    (Seq<char>, Seq<char>),
> {
    s.insert(first_after_key(s, x.0), x)
}

/// Where an entry of key `key` goes: after every entry whose key is not
/// greater.
pub open spec fn first_after_key(s: Seq<(Seq<char>, Seq<char>)>, key: Seq<char>) -> int
    decreases s.len(),
{
    if s.len() == 0 {
        0
    } else if text_lt(key, s[0].0) {
        0
    } else {
        1 + first_after_key(s.drop_first(), key)
    }
}

/// The entries ordered by key, stably.
pub open spec fn sorted_by_key(s: Seq<(Seq<char>, Seq<char>)>) -> Seq<(Seq<char>, Seq<char>)>
    decreases s.len(),
{
    if s.len() == 0 {
        s
    } else {
        by_key_insert(sorted_by_key(s.drop_last()), s.last())
    }
}

/// Each member's name with the lower case of it as its key.
pub open spec fn keyed_names(m: Seq<ClanMember>) -> Seq<(Seq<char>, Seq<char>)> {
    Seq::new(m.len(), |i: int| (lowercase(m[i].ign@), m[i].ign@))
}

/// The names, one per line, each line ended.
pub open spec fn name_lines(s: Seq<(Seq<char>, Seq<char>)>) -> Seq<char>
    decreases s.len(),
{
    if s.len() == 0 {
        Seq::empty()
    } else {
        name_lines(s.drop_last()) + s.last().1 + seq!['\n']
    }
}

/// The members' table: their names ordered by lower case, in a code block.
pub open spec fn members_text(m: Seq<ClanMember>) -> Seq<char> {
    seq!['`', '`', '`', '\n'] + name_lines(sorted_by_key(keyed_names(m))) + seq![
        '\n',
        '`',
        '`',
        '`',
    ]
}

proof fn lemma_first_after_key_is(s: Seq<(Seq<char>, Seq<char>)>, key: Seq<char>, j: int)
    requires
        0 <= j <= s.len(),
        forall|m: int| 0 <= m < j ==> !text_lt(key, #[trigger] s[m].0),
        j < s.len() ==> text_lt(key, s[j].0),
    ensures
        first_after_key(s, key) == j,
    decreases j,
{
    if j > 0 {
        lemma_first_after_key_is(s.drop_first(), key, j - 1);
    }
}

proof fn lemma_first_after_key_bounds(s: Seq<(Seq<char>, Seq<char>)>, key: Seq<char>)
    ensures
        0 <= first_after_key(s, key) <= s.len(),
        forall|m: int| 0 <= m < first_after_key(s, key) ==> !text_lt(key, #[trigger] s[m].0),
        first_after_key(s, key) < s.len() ==> text_lt(key, s[first_after_key(s, key)].0),
    decreases s.len(),
{
    if s.len() > 0 && !text_lt(key, s[0].0) {
        lemma_first_after_key_bounds(s.drop_first(), key);
        assert forall|m: int| 0 <= m < first_after_key(s, key) implies !text_lt(
            key,
            #[trigger] s[m].0,
        ) by {
            if m > 0 {
                assert(s[m] == s.drop_first()[m - 1]);
            }
        }
    }
}

/// Whether the keys never go down.
pub open spec fn keys_ascending(s: Seq<(Seq<char>, Seq<char>)>) -> bool {
    forall|i: int, j: int| 0 <= i < j < s.len() ==> !text_lt(#[trigger] s[j].0, #[trigger] s[i].0)
}

/// The members' table lists the names by their lower case, never going
/// down, and lists each member once.
pub proof fn lemma_sorted_by_key_ascending(s: Seq<(Seq<char>, Seq<char>)>)
    ensures
        keys_ascending(sorted_by_key(s)),
        sorted_by_key(s).to_multiset() == s.to_multiset(),
        sorted_by_key(s).len() == s.len(),
    decreases s.len(),
{
    if s.len() > 0 {
        let p = s.drop_last();
        let x = s.last();
        lemma_sorted_by_key_ascending(p);
        let q = sorted_by_key(p);
        let j = first_after_key(q, x.0);
        lemma_first_after_key_bounds(q, x.0);
        q.insert_ensures(j, x);
        let t = q.insert(j, x);
        assert forall|a: int, b: int| 0 <= a < b < t.len() implies !text_lt(
            #[trigger] t[b].0,
            #[trigger] t[a].0,
        ) by {
            if a < j && b < j {
            } else if a < j && b == j {
            } else if a < j {
                assert(t[b] == q[b - 1]);
            } else if a == j {
                assert(t[b] == q[b - 1]);
                if text_lt(q[b - 1].0, x.0) {
                    if b - 1 == j {
                        lemma_text_lt_irreflexive(x.0);
                        crate::text::lemma_text_lt_transitive(x.0, q[j].0, x.0);
                    } else {
                        crate::text::lemma_text_lt_transitive(q[b - 1].0, x.0, q[j].0);
                    }
                }
            } else {
                assert(t[a] == q[a - 1]);
                assert(t[b] == q[b - 1]);
            }
        }
        vstd::seq_lib::to_multiset_insert(q, j, x);
        assert(s == p.push(x));
        vstd::seq_lib::to_multiset_build(p, x);
    }
}

/// What the clan card says when the clan wrote no description.
pub open spec fn no_description_text() -> Seq<char> {
    "This clan has no description"@
}

/// The clan card's state.
#[derive(Debug, Clone)]
pub struct ClanView {
    pub clan: PartialClan,
    pub description: String,
    pub members: Vec<ClanMember>,
    pub last_season_btn_disabled: bool,
    pub timeout: bool,
}

/// What a button press on the clan card asks for.
#[derive(Debug, Clone)]
pub enum ClanAction {
    /// Answer privately with the description.
    ShowDescription(String),
    /// Answer privately with the members' table.
    ShowMembers(String),
    /// Show the latest clan battle season; the season button is now disabled.
    LatestSeason,
    /// Nothing to do.
    Ignore,
}

impl ClanView {
    /// A fresh card; an empty description becomes a line that says so.
    pub fn new(clan: PartialClan, description: String, members: Vec<ClanMember>) -> (r: Self)
        ensures
            r.clan == clan,
            r.members@ == members@,
            description@.len() == 0 ==> r.description@ == no_description_text(),
            description@.len() > 0 ==> r.description@ == description@,
            !r.last_season_btn_disabled,
            !r.timeout,
    {
        let description = if description.as_str().unicode_len() == 0 {
            String::from_str("This clan has no description")
        } else {
            description
        };
        ClanView { clan, description, members, last_season_btn_disabled: false, timeout: false }
    }

    /// The members' names ordered by their lower case, one per line, in a
    /// code block.
    pub fn members_table(&self) -> (r: String)
        ensures
            r@ == members_text(self.members@),
    {
        let mut sorted: Vec<(String, String)> = Vec::new();
        let mut k: usize = 0;
        while k < self.members.len()
            invariant
                k <= self.members@.len(),
                sorted@.len() == k,
                forall|i: int|
                    0 <= i < k ==> (#[trigger] sorted@[i]).0@ == sorted_by_key(
                        keyed_names(self.members@).take(k as int),
                    )[i].0 && sorted@[i].1@ == sorted_by_key(
                        keyed_names(self.members@).take(k as int),
                    )[i].1,
                sorted_by_key(keyed_names(self.members@).take(k as int)).len() == k,
            decreases self.members@.len() - k,
        {
            let ghost before = sorted_by_key(keyed_names(self.members@).take(k as int));
            let ign = self.members[k].ign.clone();
            let key = to_lowercase(ign.as_str());
            let mut j: usize = 0;
            while j < sorted.len() && !text_less(key.as_str(), sorted[j].0.as_str())
                invariant
                    j <= sorted@.len(),
                    sorted@.len() == before.len(),
                    forall|i: int|
                        0 <= i < sorted@.len() ==> (#[trigger] sorted@[i]).0@ == before[i].0,
                    forall|m: int| 0 <= m < j ==> !text_lt(key@, #[trigger] before[m].0),
                decreases sorted@.len() - j,
            {
                j = j + 1;
            }
            proof {
                lemma_first_after_key_is(before, key@, j as int);
                let t = keyed_names(self.members@).take(k + 1);
                assert(t.drop_last() =~= keyed_names(self.members@).take(k as int));
                assert(t.last() == (key@, ign@));
            }
            sorted.insert(j, (key, ign));
            k = k + 1;
            proof {
                let after = sorted_by_key(keyed_names(self.members@).take(k as int));
                before.insert_ensures(j as int, (key@, ign@));
                assert forall|i: int| 0 <= i < k implies (#[trigger] sorted@[i]).0@ == after[i].0
                    && sorted@[i].1@ == after[i].1 by {
                    if i < j {
                    } else if i == j {
                    } else {
                        assert(after[i] == before[i - 1]);
                    }
                }
            }
        }
        let ghost all = sorted_by_key(keyed_names(self.members@));
        proof {
            assert(keyed_names(self.members@).take(k as int) =~= keyed_names(self.members@));
        }
        let mut out = String::from_str("```\n");
        let mut i: usize = 0;
        proof {
            reveal_strlit("```\n");
            assert(all.take(0) =~= Seq::<(Seq<char>, Seq<char>)>::empty());
        }
        while i < sorted.len()
            invariant
                i <= sorted@.len(),
                sorted@.len() == all.len(),
                forall|m: int| 0 <= m < sorted@.len() ==> (#[trigger] sorted@[m]).1@ == all[m].1,
                out@ == seq!['`', '`', '`', '\n'] + name_lines(all.take(i as int)),
            decreases sorted@.len() - i,
        {
            out.append(sorted[i].1.as_str());
            out.append("\n");
            proof {
                reveal_strlit("\n");
                assert(all.take(i + 1).drop_last() =~= all.take(i as int));
            }
            i = i + 1;
            proof {
                assert(out@ =~= seq!['`', '`', '`', '\n'] + name_lines(all.take(i as int)));
            }
        }
        out.append("\n```");
        proof {
            reveal_strlit("\n```");
            assert(all.take(i as int) =~= all);
            assert(out@ =~= members_text(self.members@));
        }
        out
    }

    /// Disables the buttons once the card stops listening.
    pub fn timeout(&mut self) -> (r: &Self)
        ensures
            final(self).timeout,
            final(self).last_season_btn_disabled,
            final(self).clan == old(self).clan,
            final(self).description@ == old(self).description@,
            final(self).members@ == old(self).members@,
            *r == *final(self),
    {
        self.timeout = true;
        self.last_season_btn_disabled = true;
        self
    }

    /// Disables the season button once it was pressed.
    pub fn pressed(&mut self) -> (r: &Self)
        ensures
            final(self).last_season_btn_disabled,
            final(self).timeout == old(self).timeout,
            final(self).clan == old(self).clan,
            final(self).description@ == old(self).description@,
            final(self).members@ == old(self).members@,
            *r == *final(self),
    {
        self.last_season_btn_disabled = true;
        self
    }

    /// The card's own buttons: description, members and latest season. The
    /// first two are disabled once the card timed out.
    pub fn build(&self) -> (r: Vec<ViewButton>)
        ensures
            r@.len() == 3,
            r@[0].custom_id@ == "clan_description"@ && r@[0].label@ == "Description"@
                && r@[0].disabled == self.timeout,
            r@[1].custom_id@ == "clan_members"@ && r@[1].label@ == "Members"@ && r@[1].disabled
                == self.timeout,
            r@[2].custom_id@ == "latest_season"@ && r@[2].label@ == "Latest season"@
                && r@[2].disabled == self.last_season_btn_disabled,
    {
        let mut r: Vec<ViewButton> = Vec::new();
        r.push(
            ViewButton {
                custom_id: String::from_str("clan_description"),
                label: String::from_str("Description"),
                disabled: self.timeout,
            },
        );
        r.push(
            ViewButton {
                custom_id: String::from_str("clan_members"),
                label: String::from_str("Members"),
                disabled: self.timeout,
            },
        );
        r.push(
            ViewButton {
                custom_id: String::from_str("latest_season"),
                label: String::from_str("Latest season"),
                disabled: self.last_season_btn_disabled,
            },
        );
        r
    }

    /// What a press of the button `custom_id` does: anyone may see the
    /// description and the members; only the one who asked may open the
    /// latest season, which disables its button.
    pub fn on_press(&mut self, custom_id: &str, by_author: bool) -> (r: ClanAction)
        ensures
            custom_id@ == "clan_description"@ ==> (r matches ClanAction::ShowDescription(d)
                && d@ == old(self).description@),
            custom_id@ == "clan_members"@ ==> (r matches ClanAction::ShowMembers(t) && t@
                == members_text(old(self).members@)),
            custom_id@ == "latest_season"@ && by_author ==> r is LatestSeason
                && final(self).last_season_btn_disabled,
            custom_id@ == "latest_season"@ && !by_author ==> r is Ignore
                && final(self).last_season_btn_disabled == old(self).last_season_btn_disabled,
            custom_id@ != "clan_description"@ && custom_id@ != "clan_members"@ && custom_id@
                != "latest_season"@ ==> r is Ignore && final(self).last_season_btn_disabled
                == old(self).last_season_btn_disabled,
            custom_id@ != "latest_season"@ ==> final(self).last_season_btn_disabled
                == old(self).last_season_btn_disabled,
            final(self).timeout == old(self).timeout,
            final(self).clan == old(self).clan,
            final(self).description@ == old(self).description@,
            final(self).members@ == old(self).members@,
    {
        proof {
            reveal_strlit("clan_description");
            reveal_strlit("clan_members");
            reveal_strlit("latest_season");
            assert("clan_description"@[5] != "clan_members"@[5]);
            assert("clan_description"@[0] != "latest_season"@[0]);
            assert("clan_members"@[0] != "latest_season"@[0]);
        }
        if crate::text::str_equals(custom_id, "clan_description") {
            ClanAction::ShowDescription(self.description.clone())
        } else if crate::text::str_equals(custom_id, "clan_members") {
            ClanAction::ShowMembers(self.members_table())
        } else if crate::text::str_equals(custom_id, "latest_season") {
            if by_author {
                self.pressed();
                ClanAction::LatestSeason
            } else {
                ClanAction::Ignore
            }
        } else {
            ClanAction::Ignore
        }
    }
}

/// How long after a member's last battle the member still counts as active:
/// ten days, in seconds.
pub const ACTIVE_WINDOW_SECS: u64 = 864000;

/// Whether the member played within the window before `now`. A last
/// battle after `now` (a clock behind the game's) counts as just played.
pub open spec fn is_active_member(m: ClanMember, now: u64) -> bool {
    let d: int = if now >= m.last_battle_time {
        now - m.last_battle_time
    } else {
        0
    };
    d <= ACTIVE_WINDOW_SECS
}

/// How many of the members are active.
pub open spec fn active_count(m: Seq<ClanMember>, now: u64) -> nat
    decreases m.len(),
{
    if m.len() == 0 {
        0
    } else {
        active_count(m.drop_last(), now) + if is_active_member(m.last(), now) {
            1nat
        } else {
            0nat
        }
    }
}

proof fn lemma_active_count_bound(m: Seq<ClanMember>, now: u64)
    ensures
        active_count(m, now) <= m.len(),
    decreases m.len(),
{
    if m.len() > 0 {
        lemma_active_count_bound(m.drop_last(), now);
    }
}

/// Counts the members who played in the ten days before `now`.
pub fn active_members(members: &Vec<ClanMember>, now: u64) -> (r: u32)
    requires
        members@.len() <= u32::MAX,
    ensures
        r == active_count(members@, now),
{
    let mut n: u32 = 0;
    let mut i: usize = 0;
    while i < members.len()
        invariant
            i <= members@.len(),
            members@.len() <= u32::MAX,
            n == active_count(members@.take(i as int), now),
        decreases members@.len() - i,
    {
        proof {
            assert(members@.take(i + 1).drop_last() =~= members@.take(i as int));
            lemma_active_count_bound(members@.take(i as int), now);
        }
        if now.saturating_sub(members[i].last_battle_time) <= ACTIVE_WINDOW_SECS {
            n = n + 1;
        }
        i = i + 1;
    }
    proof {
        assert(members@.take(i as int) =~= members@);
    }
    n
}

/// The season to remember when the members' numbers are for a newer season
/// than the one known: that of the first member, if it is newer.
pub fn newer_season(members: &Vec<ClanMember>, current: u32) -> (r: Option<u32>)
    ensures
        members@.len() > 0 && members@[0].season_id > current ==> r == Some(
            members@[0].season_id,
        ),
        !(members@.len() > 0 && members@[0].season_id > current) ==> r is None,
{
    if members.len() > 0 && members[0].season_id > current {
        Some(members[0].season_id)
    } else {
        None
    }
}

/// What the clan card needs to know of a season rating.
#[derive(Debug, Clone, Copy, PartialEq, Eq, Structural)]
pub struct SeasonRatingKey {
    pub season_number: u32,
    pub is_best_season_rating: bool,
}

/// A season line of the clan card: a rating, by its place among the
/// ratings, or a season without one.
#[derive(Debug, Clone, Copy, PartialEq, Eq, Structural)]
pub enum SeasonPick {
    Rated(usize),
    Missing(u32),
}

/// The places of the best ratings of `season` among the first `n` ratings,
/// in order.
pub open spec fn rated_in(r: Seq<SeasonRatingKey>, season: u32, n: int) -> Seq<SeasonPick>
    decreases n,
{
    if n <= 0 {
        Seq::empty()
    } else {
        let p = rated_in(r, season, n - 1);
        if r[n - 1].season_number == season && r[n - 1].is_best_season_rating {
            p.push(SeasonPick::Rated((n - 1) as usize))
        } else {
            p
        }
    }
}

/// The lines of one season: its best ratings, or one line saying it has none.
pub open spec fn season_block(r: Seq<SeasonRatingKey>, season: u32) -> Seq<SeasonPick> {
    let x = rated_in(r, season, r.len() as int);
    if x.len() == 0 {
        seq![SeasonPick::Missing(season)]
    } else {
        x
    }
}

/// The clan card's seasons: the four latest, newest first.
pub open spec fn season_picks(r: Seq<SeasonRatingKey>, current: u32) -> Seq<SeasonPick> {
    season_block(r, current) + season_block(r, (current - 1) as u32) + season_block(
        r,
        (current - 2) as u32,
    ) + season_block(r, (current - 3) as u32)
}

/// The season a line of the clan card is about.
pub open spec fn pick_season(r: Seq<SeasonRatingKey>, p: SeasonPick) -> int {
    match p {
        SeasonPick::Rated(i) => r[i as int].season_number as int,
        SeasonPick::Missing(s) => s as int,
    }
}

/// Whether every line is about season `season` and every rating line is a
/// best rating.
pub open spec fn block_of(r: Seq<SeasonRatingKey>, b: Seq<SeasonPick>, season: int) -> bool {
    forall|i: int|
        0 <= i < b.len() ==> pick_season(r, #[trigger] b[i]) == season && (b[i] matches SeasonPick::Rated(
            k,
        ) ==> k < r.len() && r[k as int].is_best_season_rating)
}

proof fn lemma_rated_in(r: Seq<SeasonRatingKey>, season: u32, n: int)
    requires
        0 <= n <= r.len(),
        r.len() <= usize::MAX,
    ensures
        block_of(r, rated_in(r, season, n), season as int),
    decreases n,
{
    if n > 0 {
        lemma_rated_in(r, season, n - 1);
    }
}

proof fn lemma_season_block(r: Seq<SeasonRatingKey>, season: u32)
    requires
        r.len() <= usize::MAX,
    ensures
        block_of(r, season_block(r, season), season as int),
        season_block(r, season).len() >= 1,
{
    lemma_rated_in(r, season, r.len() as int);
}

proof fn lemma_concat_blocks(
    r: Seq<SeasonRatingKey>,
    a: Seq<SeasonPick>,
    b: Seq<SeasonPick>,
    lo: int,
    season: int,
)
    requires
        forall|i: int| 0 <= i < a.len() ==> lo <= pick_season(r, #[trigger] a[i]),
        forall|i: int, j: int|
            0 <= i < j < a.len() ==> pick_season(r, #[trigger] a[i]) >= pick_season(r, #[trigger] a[j]),
        forall|i: int|
            0 <= i < a.len() ==> (#[trigger] a[i] matches SeasonPick::Rated(k) ==> k < r.len()
                && r[k as int].is_best_season_rating),
        block_of(r, b, season),
        season < lo,
    ensures
        forall|i: int, j: int|
            0 <= i < j < (a + b).len() ==> pick_season(r, #[trigger] (a + b)[i]) >= pick_season(
                r,
                #[trigger] (a + b)[j],
            ),
        forall|i: int| 0 <= i < (a + b).len() ==> season <= pick_season(r, #[trigger] (a + b)[i]),
        forall|i: int|
            0 <= i < (a + b).len() ==> (#[trigger] (a + b)[i] matches SeasonPick::Rated(k) ==> k
                < r.len() && r[k as int].is_best_season_rating),
{
    let c = a + b;
    assert forall|i: int, j: int| 0 <= i < j < c.len() implies pick_season(r, #[trigger] c[i])
        >= pick_season(r, #[trigger] c[j]) by {
        if j < a.len() {
        } else if i < a.len() {
            assert(c[j] == b[j - a.len()]);
        } else {
            assert(c[i] == b[i - a.len()]);
            assert(c[j] == b[j - a.len()]);
        }
    }
    assert forall|i: int| 0 <= i < c.len() implies season <= pick_season(r, #[trigger] c[i]) by {
        if i >= a.len() {
            assert(c[i] == b[i - a.len()]);
        }
    }
    assert forall|i: int| 0 <= i < c.len() implies (#[trigger] c[i] matches SeasonPick::Rated(k)
        ==> k < r.len() && r[k as int].is_best_season_rating) by {
        if i >= a.len() {
            assert(c[i] == b[i - a.len()]);
        }
    }
}

/// Whether some line is about season `s`.
pub open spec fn has_line_for(r: Seq<SeasonRatingKey>, p: Seq<SeasonPick>, s: int) -> bool {
    exists|i: int| 0 <= i < p.len() && pick_season(r, #[trigger] p[i]) == s
}

/// The clan card shows the four latest seasons, newest first: each of them
/// has a line, every line is about one of them, and every rating line is a
/// best rating.
pub proof fn lemma_season_picks_shape(r: Seq<SeasonRatingKey>, current: u32)
    requires
        3 <= current,
        r.len() <= usize::MAX,
    ensures
        ({
            let p = season_picks(r, current);
            &&& p.len() >= 4
            &&& forall|i: int|
                0 <= i < p.len() ==> current - 3 <= pick_season(r, #[trigger] p[i]) <= current
            &&& forall|i: int, j: int|
                0 <= i < j < p.len() ==> pick_season(r, #[trigger] p[i]) >= pick_season(
                    r,
                    #[trigger] p[j],
                )
            &&& forall|s: int| current - 3 <= s <= current ==> #[trigger] has_line_for(r, p, s)
            &&& forall|i: int|
                0 <= i < p.len() ==> (#[trigger] p[i] matches SeasonPick::Rated(k) ==> k < r.len()
                    && r[k as int].is_best_season_rating)
        }),
{
    let b0 = season_block(r, current);
    let b1 = season_block(r, (current - 1) as u32);
    let b2 = season_block(r, (current - 2) as u32);
    let b3 = season_block(r, (current - 3) as u32);
    lemma_season_block(r, current);
    lemma_season_block(r, (current - 1) as u32);
    lemma_season_block(r, (current - 2) as u32);
    lemma_season_block(r, (current - 3) as u32);
    lemma_concat_blocks(r, b0, b1, current as int, current - 1);
    lemma_concat_blocks(r, b0 + b1, b2, current - 1, current - 2);
    lemma_concat_blocks(r, b0 + b1 + b2, b3, current - 2, current - 3);
    let p = b0 + b1 + b2 + b3;
    assert(p == season_picks(r, current));
    assert forall|i: int| 0 <= i < p.len() implies pick_season(r, #[trigger] p[i]) <= current by {
        assert(0 <= 0 < i + 1);
        if i > 0 {
            assert(pick_season(r, p[0]) >= pick_season(r, p[i]));
        }
        assert(p[0] == b0[0]);
    }
    assert forall|s: int| current - 3 <= s <= current implies #[trigger] has_line_for(r, p, s) by {
        if s == current {
            assert(p[0] == b0[0]);
        } else if s == current - 1 {
            assert(p[b0.len() as int] == b1[0]);
        } else if s == current - 2 {
            assert(p[(b0.len() + b1.len()) as int] == b2[0]);
        } else {
            assert(p[(b0.len() + b1.len() + b2.len()) as int] == b3[0]);
        }
    }
}

/// The lines of one season.
fn season_lines(ratings: &Vec<SeasonRatingKey>, season: u32) -> (out: Vec<SeasonPick>)
    ensures
        out@ == season_block(ratings@, season),
{
    let mut out: Vec<SeasonPick> = Vec::new();
    let mut i: usize = 0;
    while i < ratings.len()
        invariant
            i <= ratings@.len(),
            out@ == rated_in(ratings@, season, i as int),
        decreases ratings@.len() - i,
    {
        let k = ratings[i];
        if k.season_number == season && k.is_best_season_rating {
            out.push(SeasonPick::Rated(i));
        }
        i = i + 1;
    }
    if out.len() == 0 {
        out.push(SeasonPick::Missing(season));
        proof {
            assert(out@ =~= seq![SeasonPick::Missing(season)]);
        }
    }
    out
}

/// The seasons the clan card shows: the four latest, newest first; for each,
/// its best ratings in the order given, or one line without a rating.
pub fn clan_seasons(ratings: &Vec<SeasonRatingKey>, current: u32) -> (r: Vec<SeasonPick>)
    requires
        3 <= current,
    ensures
        r@ == season_picks(ratings@, current),
{
    let mut out = season_lines(ratings, current);
    let mut d: u32 = 1;
    while d <= 3
        invariant
            1 <= d <= 4,
            3 <= current,
            out@ == if d == 1 {
                season_block(ratings@, current)
            } else if d == 2 {
                season_block(ratings@, current) + season_block(ratings@, (current - 1) as u32)
            } else if d == 3 {
                season_block(ratings@, current) + season_block(ratings@, (current - 1) as u32)
                    + season_block(ratings@, (current - 2) as u32)
            } else {
                season_picks(ratings@, current)
            },
        decreases 4 - d,
    {
        let mut more = season_lines(ratings, current - d);
        out.append(&mut more);
        d = d + 1;
    }
    out
}

/// The rename line of the clan card.
#[derive(Debug, Clone)]
pub struct ClanRename {
    pub tag: ClanTag,
    pub name: String,
    pub time: String,
}

/// The rename date as the clan card writes it, such as `May 15, 2015`:
/// chrono's `%B %e, %Y` of the UTC date of a Unix time.
pub uninterp spec fn month_day_year(secs: i64) -> Seq<char>;

/// The last second of the year 9999, in Unix time; chrono has a date for
/// every second from the epoch up to it.
pub const LAST_SECOND_OF_9999: i64 = 253402300799;

/// Formats a Unix time with chrono's `DateTime::from_timestamp` and
/// `format("%B %e, %Y")`. `from_timestamp` has no date for times beyond
/// chrono's range (years beyond 262142), and then this gives `None`.
#[verifier::external_body]
fn format_month_day_year(secs: i64) -> (r: Option<String>)
    ensures
        r matches Some(t) ==> t@ == month_day_year(secs),
        0 <= secs <= LAST_SECOND_OF_9999 ==> r is Some,
{
    chrono::DateTime::from_timestamp(secs, 0).map(|d| d.format("%B %e, %Y").to_string())
}

/// The Unix time of the rename, as the clan card takes it: the API's
/// `renamed_at`, or one second past the epoch when it is missing, read as
/// a signed number.
pub open spec fn rename_secs(renamed_at: Option<u64>) -> i64 {
    match renamed_at {
        Some(t) => t as i64,
        None => 1,
    }
}

/// The date of the rename; `None` only where chrono has no date for it.
pub fn rename_time(renamed_at: Option<u64>) -> (r: Option<String>)
    ensures
        r matches Some(t) ==> t@ == month_day_year(rename_secs(renamed_at)),
        0 <= rename_secs(renamed_at) <= LAST_SECOND_OF_9999 ==> r is Some,
{
    let secs: i64 = match renamed_at {
        Some(t) => t as i64,
        None => 1,
    };
    format_month_day_year(secs)
}

/// The rename line, when the clan has an old tag: the old tag, the old name
/// or an empty one, and the date text.
pub fn clan_rename(old_tag: Option<ClanTag>, old_name: Option<String>, time: String) -> (r: Option<
    ClanRename,
>)
    ensures
        old_tag is None ==> r is None,
        old_tag matches Some(t) ==> (r matches Some(x) && x.tag == t && x.time@ == time@ && (
        old_name matches Some(n) ==> x.name@ == n@) && (old_name is None ==> x.name@.len()
            == 0)),
{
    match old_tag {
        Some(tag) => {
            let name = match old_name {
                Some(n) => n,
                None => String::new(),
            };
            Some(ClanRename { tag, name, time })
        },
        None => None,
    }
}

/// The two seasons of the clan season card, best rating first: of the last
/// two ratings, the earlier one is `alpha` when it is the best rating of
/// its season.
pub fn season_pair<R>(ratings: Vec<(bool, R)>) -> (r: ((bool, R), (bool, R)))
    requires
        ratings@.len() >= 2,
    ensures
        ({
            let n = ratings@.len();
            let first = ratings@[n - 2];
            let second = ratings@[n - 1];
            if first.0 {
                r == (first, second)
            } else {
                r == (second, first)
            }
        }),
{
    let mut ratings = ratings;
    let ghost s = ratings@;
    let second = ratings.pop().unwrap();
    let first = ratings.pop().unwrap();
    proof {
        assert(second == s[s.len() - 1]);
        assert(first == s[s.len() - 2]);
    }
    if first.0 {
        (first, second)
    } else {
        (second, first)
    }
}

/// How many members the clan season card shows.
pub const SEASON_CARD_MEMBERS: usize = 20;

/// The members the clan season card shows: the 20 with most battles, most
/// first (equal ones keep their order), split into a left column of the
/// larger half and a right column.
pub open spec fn season_card_columns<M>(m: Seq<(u128, M)>) -> (Seq<(u128, M)>, Seq<(u128, M)>) {
    let o = crate::order::sorted_desc(m);
    let kept = if o.len() <= SEASON_CARD_MEMBERS {
        o
    } else {
        o.take(SEASON_CARD_MEMBERS as int)
    };
    let half: int = (kept.len() as int + 1) / 2;
    (kept.take(half), kept.skip(half))
}

/// Orders the members by battles, keeps 20 and splits them into two columns,
/// the left one taking the odd member out. Each member is keyed by its
/// battles.
pub fn season_card_members<M>(members: Vec<(u128, M)>) -> (r: (Vec<(u128, M)>, Vec<(u128, M)>))
    ensures
        r.0@ == season_card_columns(members@).0,
        r.1@ == season_card_columns(members@).1,
{
    let mut m = members;
    crate::order::sort_desc(&mut m);
    m.truncate(SEASON_CARD_MEMBERS);
    let len = m.len();
    let half = if len % 2 == 0 {
        len / 2
    } else {
        len / 2 + 1
    };
    let right = m.split_off(half);
    (m, right)
}

/// The ratings of `season`, in the order given; each is keyed by its
/// season number.
pub open spec fn ratings_of<R>(s: Seq<(u32, R)>, season: u32) -> Seq<(u32, R)>
    decreases s.len(),
{
    if s.len() == 0 {
        Seq::empty()
    } else {
        let p = ratings_of(s.drop_last(), season);
        if s.last().0 == season {
            p.push(s.last())
        } else {
            p
        }
    }
}

/// The ratings the season card draws: those of `season`, with `blank`
/// after a lone one so that there are two to compare.
pub open spec fn season_card_ratings<R>(s: Seq<(u32, R)>, season: u32, blank: (u32, R)) -> Seq<(u32, R)> {
    let f = ratings_of(s, season);
    if f.len() == 1 {
        f.push(blank)
    } else {
        f
    }
}

/// The clan's ratings of the season asked for. A clan without ratings, or
/// without one of that season, has no battles in it; a lone rating is paired
/// with `blank`.
pub fn season_ratings<R>(ratings: Option<Vec<(u32, R)>>, clan: PartialClan, season: u32, blank: (u32, R)) -> (r: Result<Vec<(u32, R)>, IsacError>)
    ensures
        match ratings {
            Some(v) if ratings_of(v@, season).len() > 0 => r matches Ok(w) && w@ == season_card_ratings(v@, season, blank),
            _ => r matches Err(IsacError::Info(IsacInfo::ClanNoBattle { clan: c, season: n })) && c == clan && n == season,
        },
        r matches Ok(w) ==> w@.len() >= 2,
{
    let v = match ratings {
        Some(v) => v,
        None => {
            return Err(IsacError::Info(IsacInfo::ClanNoBattle { clan, season }));
        },
    };
    let ghost s = v@;
    assert(s.len() == v.len());
    let mut rest = v;
    let mut out: Vec<(u32, R)> = Vec::new();
    let mut k: usize = 0;
    while rest.len() > 0
        invariant
            k <= s.len(),
            s.len() <= usize::MAX,
            rest@ == s.skip(k as int),
            out@ == ratings_of(s.take(k as int), season),
        decreases rest.len(),
    {
        let x = rest.remove(0);
        proof {
            assert(s.take(k as int + 1).drop_last() =~= s.take(k as int));
            assert(s.take(k as int + 1).last() == x);
            assert(rest@ =~= s.skip(k as int + 1));
        }
        if x.0 == season {
            out.push(x);
        }
        k = k + 1;
    }
    proof {
        assert(s.take(k as int) =~= s);
    }
    if out.len() == 0 {
        return Err(IsacError::Info(IsacInfo::ClanNoBattle { clan, season }));
    }
    if out.len() == 1 {
        out.push(blank);
    }
    Ok(out)
}

/// The members who played in the season, in the order given; each is keyed
/// by its battles.
pub open spec fn played_in<M>(s: Seq<(u64, M)>) -> Seq<(u64, M)>
    decreases s.len(),
{
    if s.len() == 0 {
        Seq::empty()
    } else {
        let p = played_in(s.drop_last());
        if s.last().0 != 0 {
            p.push(s.last())
        } else {
            p
        }
    }
}

/// Drops the members without a battle in the season.
pub fn season_players<M>(members: Vec<(u64, M)>) -> (r: Vec<(u64, M)>)
    ensures
        r@ == played_in(members@),
{
    let ghost s = members@;
    assert(s.len() == members.len());
    let mut rest = members;
    let mut out: Vec<(u64, M)> = Vec::new();
    let mut k: usize = 0;
    while rest.len() > 0
        invariant
            k <= s.len(),
            s.len() <= usize::MAX,
            rest@ == s.skip(k as int),
            out@ == played_in(s.take(k as int)),
        decreases rest.len(),
    {
        let x = rest.remove(0);
        proof {
            assert(s.take(k as int + 1).drop_last() =~= s.take(k as int));
            assert(s.take(k as int + 1).last() == x);
            assert(rest@ =~= s.skip(k as int + 1));
        }
        if x.0 != 0 {
            out.push(x);
        }
        k = k + 1;
    }
    proof {
        assert(s.take(k as int) =~= s);
    }
    out
}

} // verus!
