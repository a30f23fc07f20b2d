//! The player card: its buttons, and the clan battle seasons it can show.
use crate::clan_view::ViewButton;
use crate::order::{sort_desc, sorted_desc};
use crate::player::PartialPlayer;
use crate::text::str_equals;
use vstd::prelude::*;

verus! {

broadcast use vstd::seq_lib::group_to_multiset_ensures;

/// A player's numbers in one clan battle season, as the API gives them.
#[derive(Debug, Clone, Copy, PartialEq, Eq, Structural)]
pub struct CwSeasonStats {
    pub season_id: u32,
    pub battles: u64,
    pub wins: u64,
    pub damage_dealt: u64,
    pub frags: u64,
    pub art_agro: u64,
    pub damage_scouting: u64,
}

/// A line of the clan battle seasons card: the season's counts and its
/// average potential and scouting damage per battle.
#[derive(Debug, Clone, Copy, PartialEq, Eq, Structural)]
pub struct CwSeasonLine {
    pub season_id: u32,
    pub battles: u64,
    pub wins: u64,
    pub damage_dealt: u64,
    pub frags: u64,
    pub potential: u64,
    pub scout: u64,
}

/// The highest season id that is a real clan battle season; the API also
/// lists other events under larger ids.
pub const LAST_CW_SEASON_ID: u32 = 200;

/// The seasons kept, each keyed by its id, in their order.
pub open spec fn cw_kept(s: Seq<CwSeasonStats>) -> Seq<(u128, CwSeasonStats)>
    decreases s.len(),
{
    if s.len() == 0 {
        Seq::empty()
    } else {
        let p = cw_kept(s.drop_last());
        if s.last().season_id <= LAST_CW_SEASON_ID {
            p.push((s.last().season_id as u128, s.last()))
        } else {
            p
        }
    }
}

/// The line of a season.
pub open spec fn cw_line(s: CwSeasonStats) -> CwSeasonLine {
    CwSeasonLine {
        season_id: s.season_id,
        battles: s.battles,
        wins: s.wins,
        damage_dealt: s.damage_dealt,
        frags: s.frags,
        potential: s.art_agro / s.battles,
        scout: s.damage_scouting / s.battles,
    }
}

/// The card's lines: the real seasons, newest first (seasons listed twice
/// keep their order), each turned into its line.
pub open spec fn cw_lines(s: Seq<CwSeasonStats>) -> Seq<CwSeasonLine> {
    sorted_desc(cw_kept(s)).map_values(|e: (u128, CwSeasonStats)| cw_line(e.1))
}

proof fn lemma_cw_kept_from(s: Seq<CwSeasonStats>)
    ensures
        forall|i: int|
            0 <= i < cw_kept(s).len() ==> s.contains(#[trigger] cw_kept(s)[i].1) && cw_kept(
                s,
            )[i].1.season_id <= LAST_CW_SEASON_ID,
    decreases s.len(),
{
    if s.len() > 0 {
        lemma_cw_kept_from(s.drop_last());
        assert forall|i: int| 0 <= i < cw_kept(s).len() implies s.contains(
            #[trigger] cw_kept(s)[i].1,
        ) && cw_kept(s)[i].1.season_id <= LAST_CW_SEASON_ID by {
            if i < cw_kept(s.drop_last()).len() {
                let x = cw_kept(s.drop_last())[i].1;
                assert(s.drop_last().contains(x));
                let k = choose|k: int| 0 <= k < s.drop_last().len() && s.drop_last()[k] == x;
                assert(s[k] == x);
            } else {
                assert(s[s.len() - 1] == s.last());
            }
        }
    }
}

proof fn lemma_cw_kept_keys(s: Seq<CwSeasonStats>)
    ensures
        forall|i: int|
            0 <= i < cw_kept(s).len() ==> (#[trigger] cw_kept(s)[i]).0 == cw_kept(s)[i].1.season_id
                as u128 && cw_kept(s)[i].1.season_id <= LAST_CW_SEASON_ID,
    decreases s.len(),
{
    if s.len() > 0 {
        let p = cw_kept(s.drop_last());
        lemma_cw_kept_keys(s.drop_last());
        assert forall|i: int| 0 <= i < cw_kept(s).len() implies (#[trigger] cw_kept(s)[i]).0
            == cw_kept(s)[i].1.season_id as u128 && cw_kept(s)[i].1.season_id
            <= LAST_CW_SEASON_ID by {
            if i < p.len() {
                assert(cw_kept(s)[i] == p[i]);
            }
        }
    }
}

/// The clan battle seasons card lists real seasons only, newest first.
pub proof fn lemma_cw_lines_newest_first(s: Seq<CwSeasonStats>)
    ensures
        forall|i: int|
            0 <= i < cw_lines(s).len() ==> (#[trigger] cw_lines(s)[i]).season_id <= LAST_CW_SEASON_ID,
        forall|i: int, j: int|
            0 <= i < j < cw_lines(s).len() ==> (#[trigger] cw_lines(s)[i]).season_id >= (
            #[trigger] cw_lines(s)[j]).season_id,
{
    let k = cw_kept(s);
    let o = sorted_desc(k);
    crate::order::lemma_sorted_desc(k);
    lemma_cw_kept_keys(s);
    assert forall|i: int| 0 <= i < o.len() implies (#[trigger] o[i]).0 == o[i].1.season_id as u128
        && o[i].1.season_id <= LAST_CW_SEASON_ID by {
        assert(o.contains(o[i]));
        assert(o.to_multiset().count(o[i]) > 0);
        assert(k.to_multiset().count(o[i]) > 0);
        assert(k.contains(o[i]));
        let q = choose|q: int| 0 <= q < k.len() && k[q] == o[i];
        assert(k[q].0 == k[q].1.season_id as u128);
    }
    assert forall|i: int, j: int| 0 <= i < j < o.len() implies (#[trigger] o[i]).1.season_id
        >= (#[trigger] o[j]).1.season_id by {
        assert(o[i].0 >= o[j].0);
    }
}

/// Whether a line shows the counts of a season: its id, battles, wins,
/// damage and frags.
pub open spec fn shows_counts(l: CwSeasonLine, x: CwSeasonStats) -> bool {
    &&& l.season_id == x.season_id
    &&& l.battles == x.battles
    &&& l.wins == x.wins
    &&& l.damage_dealt == x.damage_dealt
    &&& l.frags == x.frags
}

proof fn lemma_cw_kept_has(s: Seq<CwSeasonStats>)
    ensures
        forall|j: int|
            0 <= j < s.len() && (#[trigger] s[j]).season_id <= LAST_CW_SEASON_ID ==> cw_kept(s).contains(
                (s[j].season_id as u128, s[j]),
            ),
    decreases s.len(),
{
    if s.len() > 0 {
        let p = s.drop_last();
        lemma_cw_kept_has(p);
        assert forall|j: int|
            0 <= j < s.len() && (#[trigger] s[j]).season_id <= LAST_CW_SEASON_ID implies cw_kept(s).contains(
                (s[j].season_id as u128, s[j]),
            ) by {
            if j < p.len() {
                assert(p[j] == s[j]);
                let q = choose|q: int| 0 <= q < cw_kept(p).len() && cw_kept(p)[q] == (p[j].season_id as u128, p[j]);
                assert(cw_kept(s)[q] == cw_kept(p)[q]);
            } else {
                assert(cw_kept(s).last() == (s[j].season_id as u128, s[j]));
            }
        }
    }
}

/// Whether a line shows the counts of one of the real seasons.
pub open spec fn from_real_season(s: Seq<CwSeasonStats>, l: CwSeasonLine) -> bool {
    exists|j: int| 0 <= j < s.len() && s[j].season_id <= LAST_CW_SEASON_ID && shows_counts(l, s[j])
}

/// Whether some line shows the counts of the season.
pub open spec fn has_line_of(lines: Seq<CwSeasonLine>, x: CwSeasonStats) -> bool {
    exists|i: int| 0 <= i < lines.len() && shows_counts(lines[i], x)
}

/// Each line of the card shows the counts of one of the player's real
/// seasons, and each real season has a line that shows its counts.
pub proof fn lemma_cw_lines_carry_counts(s: Seq<CwSeasonStats>)
    ensures
        forall|i: int| 0 <= i < cw_lines(s).len() ==> from_real_season(s, #[trigger] cw_lines(s)[i]),
        forall|j: int|
            0 <= j < s.len() && (#[trigger] s[j]).season_id <= LAST_CW_SEASON_ID ==> has_line_of(
                cw_lines(s),
                s[j],
            ),
{
    let k = cw_kept(s);
    let o = sorted_desc(k);
    let l = cw_lines(s);
    crate::order::lemma_sorted_desc(k);
    lemma_cw_kept_from(s);
    lemma_cw_kept_has(s);
    assert(l.len() == o.len());
    assert forall|i: int| 0 <= i < cw_lines(s).len() implies from_real_season(s, #[trigger] cw_lines(s)[i]) by {
        assert(l[i] == cw_line(o[i].1));
        assert(o.contains(o[i]));
        assert(o.to_multiset().count(o[i]) > 0);
        assert(k.to_multiset().count(o[i]) > 0);
        assert(k.contains(o[i]));
        let q = choose|q: int| 0 <= q < k.len() && k[q] == o[i];
        assert(s.contains(k[q].1));
        let j = choose|j: int| 0 <= j < s.len() && s[j] == k[q].1;
        assert(shows_counts(l[i], s[j]));
    }
    assert forall|j: int| 0 <= j < s.len() && (#[trigger] s[j]).season_id <= LAST_CW_SEASON_ID implies has_line_of(
        cw_lines(s),
        s[j],
    ) by {
        let e = (s[j].season_id as u128, s[j]);
        assert(k.contains(e));
        let q = choose|q: int| 0 <= q < k.len() && k[q] == e;
        assert(k.to_multiset().count(e) > 0);
        assert(o.to_multiset().count(e) > 0);
        assert(o.contains(e));
        let i = choose|i: int| 0 <= i < o.len() && o[i] == e;
        assert(l[i] == cw_line(o[i].1));
        assert(shows_counts(l[i], s[j]));
    }
}

/// The clan battle seasons card's lines. Every real season must have
/// battles, as the averages divide by them.
pub fn cw_season_lines(seasons: &Vec<CwSeasonStats>) -> (r: Vec<CwSeasonLine>)
    requires
        forall|i: int|
            0 <= i < seasons@.len() && (#[trigger] seasons@[i]).season_id <= LAST_CW_SEASON_ID
                ==> seasons@[i].battles > 0,
    ensures
        r@ == cw_lines(seasons@),
{
    let mut kept: Vec<(u128, CwSeasonStats)> = Vec::new();
    let mut i: usize = 0;
    while i < seasons.len()
        invariant
            i <= seasons@.len(),
            kept@ == cw_kept(seasons@.take(i as int)),
        decreases seasons@.len() - i,
    {
        proof {
            assert(seasons@.take(i + 1).drop_last() =~= seasons@.take(i as int));
        }
        let s = seasons[i];
        if s.season_id <= LAST_CW_SEASON_ID {
            kept.push((s.season_id as u128, s));
        }
        i = i + 1;
    }
    proof {
        assert(seasons@.take(i as int) =~= seasons@);
    }
    let ghost before = kept@;
    sort_desc(&mut kept);
    proof {
        crate::order::lemma_sorted_desc(before);
        lemma_cw_kept_from(seasons@);
        assert forall|m: int| 0 <= m < kept@.len() implies (#[trigger] kept@[m]).1.battles > 0 by {
            assert(kept@.contains(kept@[m]));
            assert(kept@.to_multiset().count(kept@[m]) > 0);
            assert(before.to_multiset().count(kept@[m]) > 0);
            assert(before.contains(kept@[m]));
            let k = choose|k: int| 0 <= k < before.len() && before[k] == kept@[m];
            assert(seasons@.contains(before[k].1));
        }
    }
    let mut out: Vec<CwSeasonLine> = Vec::new();
    let mut j: usize = 0;
    while j < kept.len()
        invariant
            j <= kept@.len(),
            forall|m: int| 0 <= m < kept@.len() ==> (#[trigger] kept@[m]).1.battles > 0,
            out@ == kept@.take(j as int).map_values(|e: (u128, CwSeasonStats)| cw_line(e.1)),
        decreases kept@.len() - j,
    {
        let s = kept[j].1;
        out.push(
            CwSeasonLine {
                season_id: s.season_id,
                battles: s.battles,
                wins: s.wins,
                damage_dealt: s.damage_dealt,
                frags: s.frags,
                potential: s.art_agro / s.battles,
                scout: s.damage_scouting / s.battles,
            },
        );
        j = j + 1;
        proof {
            assert(out@ =~= kept@.take(j as int).map_values(
                |e: (u128, CwSeasonStats)| cw_line(e.1),
            ));
        }
    }
    proof {
        assert(kept@.take(j as int) =~= kept@);
    }
    out
}

/// The player card's state; `overall_data` is what the card was drawn from.
#[derive(Debug, Clone)]
pub struct WwsView<D> {
    pub overall_data: D,
    pub player: PartialPlayer,
    pub by_tier_btn_disabled: bool,
    pub cw_btn_disabled: bool,
}

/// What a button press on the player card asks for.
#[derive(Debug, Clone, Copy, PartialEq, Eq, Structural)]
pub enum WwsAction {
    /// Draw the numbers by tier; the button is now disabled.
    ByTier,
    /// Draw the clan battle seasons; the button is now disabled.
    CwSeasons,
    /// Nothing to do.
    Ignore,
}

impl<D> WwsView<D> {
    /// A fresh card with both buttons enabled.
    pub fn new(overall_data: D, player: PartialPlayer) -> (r: Self)
        ensures
            r.overall_data == overall_data,
            r.player == player,
            !r.by_tier_btn_disabled,
            !r.cw_btn_disabled,
    {
        WwsView { overall_data, player, by_tier_btn_disabled: false, cw_btn_disabled: false }
    }

    /// The card's own buttons: by tier and clan battle seasons.
    pub fn build(&self) -> (r: Vec<ViewButton>)
        ensures
            r@.len() == 2,
            r@[0].custom_id@ == "overall_tier"@ && r@[0].label@ == "stats by tier"@
                && r@[0].disabled == self.by_tier_btn_disabled,
            r@[1].custom_id@ == "overall_cw"@ && r@[1].label@ == "CB seasons"@ && r@[1].disabled
                == self.cw_btn_disabled,
    {
        let mut r: Vec<ViewButton> = Vec::new();
        r.push(
            ViewButton {
                custom_id: String::from_str("overall_tier"),
                label: String::from_str("stats by tier"),
                disabled: self.by_tier_btn_disabled,
            },
        );
        r.push(
            ViewButton {
                custom_id: String::from_str("overall_cw"),
                label: String::from_str("CB seasons"),
                disabled: self.cw_btn_disabled,
            },
        );
        r
    }

    /// What a press of the button `custom_id` does; the pressed button is
    /// disabled.
    pub fn on_press(&mut self, custom_id: &str) -> (r: WwsAction)
        ensures
            custom_id@ == "overall_tier"@ ==> r == WwsAction::ByTier
                && final(self).by_tier_btn_disabled && final(self).cw_btn_disabled == old(
                self,
            ).cw_btn_disabled,
            custom_id@ == "overall_cw"@ ==> r == WwsAction::CwSeasons && final(self).cw_btn_disabled
                && final(self).by_tier_btn_disabled == old(self).by_tier_btn_disabled,
            custom_id@ != "overall_tier"@ && custom_id@ != "overall_cw"@ ==> r == WwsAction::Ignore
                && final(self).by_tier_btn_disabled == old(self).by_tier_btn_disabled
                && final(self).cw_btn_disabled == old(self).cw_btn_disabled,
            final(self).overall_data == old(self).overall_data,
            final(self).player == old(self).player,
    {
        proof {
            reveal_strlit("overall_tier");
            reveal_strlit("overall_cw");
            assert("overall_tier"@[8] != "overall_cw"@[8]);
        }
        if str_equals(custom_id, "overall_tier") {
            self.by_tier_btn_disabled = true;
            WwsAction::ByTier
        } else if str_equals(custom_id, "overall_cw") {
            self.cw_btn_disabled = true;
            WwsAction::CwSeasons
        } else {
            WwsAction::Ignore
        }
    }

    /// Disables both buttons once the card stops listening.
    pub fn timeout(&mut self) -> (r: &Self)
        ensures
            final(self).by_tier_btn_disabled,
            final(self).cw_btn_disabled,
            final(self).overall_data == old(self).overall_data,
            final(self).player == old(self).player,
            *r == *final(self),
    {
        self.by_tier_btn_disabled = true;
        self.cw_btn_disabled = true;
        self
    }
}

} // verus!
