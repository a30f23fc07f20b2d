//! The `roulette` command: ships picked at random for a division, each of
//! which can be picked again.
use crate::text::str_equals;
use rand::seq::IndexedRandom;
use vstd::prelude::*;

verus! {

/// How many players are in the division.
#[derive(Debug, Clone, Copy, PartialEq, Eq, Structural)]
pub enum RoulettePlayer {
    One,
    Two,
    Three,
}

impl RoulettePlayer {
    /// The number of players.
    pub open spec fn spec_count(self) -> usize {
        match self {
            RoulettePlayer::One => 1,
            RoulettePlayer::Two => 2,
            RoulettePlayer::Three => 3,
        }
    }

    /// The number of players.
    pub fn count(&self) -> (r: usize)
        ensures
            r == self.spec_count(),
    {
        match self {
            RoulettePlayer::One => 1,
            RoulettePlayer::Two => 2,
            RoulettePlayer::Three => 3,
        }
    }
}

/// A division has one to three players, and each choice a different number.
pub proof fn lemma_player_counts(a: RoulettePlayer, b: RoulettePlayer)
    ensures
        1 <= a.spec_count() <= 3,
        a != b ==> a.spec_count() != b.spec_count(),
{
}

/// The ships' tier.
#[derive(Debug, Clone, Copy, PartialEq, Eq, Structural)]
pub enum RouletteTier {
    I,
    II,
    III,
    IV,
    V,
    VI,
    VII,
    VIII,
    IX,
    X,
    XI,
}

impl RouletteTier {
    /// The tier as a number.
    pub open spec fn spec_value(self) -> u8 {
        match self {
            RouletteTier::I => 1,
            RouletteTier::II => 2,
            RouletteTier::III => 3,
            RouletteTier::IV => 4,
            RouletteTier::V => 5,
            RouletteTier::VI => 6,
            RouletteTier::VII => 7,
            RouletteTier::VIII => 8,
            RouletteTier::IX => 9,
            RouletteTier::X => 10,
            RouletteTier::XI => 11,
        }
    }

    /// The tier as a number.
    pub fn value(&self) -> (r: u8)
        ensures
            r == self.spec_value(),
    {
        match self {
            RouletteTier::I => 1,
            RouletteTier::II => 2,
            RouletteTier::III => 3,
            RouletteTier::IV => 4,
            RouletteTier::V => 5,
            RouletteTier::VI => 6,
            RouletteTier::VII => 7,
            RouletteTier::VIII => 8,
            RouletteTier::IX => 9,
            RouletteTier::X => 10,
            RouletteTier::XI => 11,
        }
    }
}

/// The value of a roman numeral digit: `I`, `V` or `X`.
pub open spec fn roman_digit(c: char) -> int {
    if c == 'I' {
        1
    } else if c == 'V' {
        5
    } else if c == 'X' {
        10
    } else {
        0
    }
}

/// The value of a roman numeral: the digits added up, except that a digit
/// smaller than the one after it is taken away.
pub open spec fn roman_value(s: Seq<char>) -> int
    decreases s.len(),
{
    if s.len() == 0 {
        0
    } else if s.len() >= 2 && roman_digit(s[0]) < roman_digit(s[1]) {
        roman_value(s.drop_first()) - roman_digit(s[0])
    } else {
        roman_digit(s[0]) + roman_value(s.drop_first())
    }
}

/// The name of a tier, its roman numeral.
pub open spec fn tier_numeral(t: RouletteTier) -> Seq<char> {
    match t {
        RouletteTier::I => seq!['I'],
        RouletteTier::II => seq!['I', 'I'],
        RouletteTier::III => seq!['I', 'I', 'I'],
        RouletteTier::IV => seq!['I', 'V'],
        RouletteTier::V => seq!['V'],
        RouletteTier::VI => seq!['V', 'I'],
        RouletteTier::VII => seq!['V', 'I', 'I'],
        RouletteTier::VIII => seq!['V', 'I', 'I', 'I'],
        RouletteTier::IX => seq!['I', 'X'],
        RouletteTier::X => seq!['X'],
        RouletteTier::XI => seq!['X', 'I'],
    }
}

/// A tier's number is the value of its roman numeral, so no two tiers share
/// a number and the roulette's pool holds only ships of the tier asked for.
pub proof fn lemma_tier_value_is_numeral(t: RouletteTier, u: RouletteTier)
    ensures
        t.spec_value() == roman_value(tier_numeral(t)),
        t != u ==> t.spec_value() != u.spec_value(),
{
    reveal_with_fuel(roman_value, 5);
    let n = tier_numeral(t);
    assert(n.len() <= 4);
    if n.len() >= 1 {
        let d1 = n.drop_first();
        if d1.len() >= 1 {
            let d2 = d1.drop_first();
            if d2.len() >= 1 {
                let d3 = d2.drop_first();
                assert(roman_value(d3) == (if d3.len() == 0 { 0 } else { roman_digit(d3[0]) }));
            }
        }
    }
    assert(t.spec_value() == roman_value(tier_numeral(t)));
}

/// What the roulette needs to know of a ship.
#[derive(Debug, Clone, Copy, PartialEq, Eq, Structural)]
pub struct RouletteShip {
    pub ship_id: u64,
    pub tier: u8,
    /// Whether the ship can be had in the game.
    pub available: bool,
}

/// The ships of the tier that can be had, in order.
pub open spec fn roulette_pool(ships: Seq<RouletteShip>, tier: u8) -> Seq<u64>
    decreases ships.len(),
{
    if ships.len() == 0 {
        Seq::empty()
    } else {
        let rest = roulette_pool(ships.drop_last(), tier);
        let s = ships.last();
        if s.tier == tier && s.available {
            rest.push(s.ship_id)
        } else {
            rest
        }
    }
}

/// Whether `id` is an available ship of the tier.
pub open spec fn available_of_tier(ships: Seq<RouletteShip>, id: u64, tier: u8) -> bool {
    exists|j: int| 0 <= j < ships.len() && ships[j].ship_id == id && ships[j].tier == tier && ships[j].available
}

proof fn lemma_pool_from(ships: Seq<RouletteShip>, tier: u8)
    ensures
        forall|k: int|
            0 <= k < roulette_pool(ships, tier).len() ==> available_of_tier(
                ships,
                #[trigger] roulette_pool(ships, tier)[k],
                tier,
            ),
    decreases ships.len(),
{
    if ships.len() > 0 {
        let p = ships.drop_last();
        lemma_pool_from(p, tier);
        let r = roulette_pool(ships, tier);
        assert forall|k: int| 0 <= k < r.len() implies available_of_tier(ships, #[trigger] r[k], tier) by {
            if k < roulette_pool(p, tier).len() {
                assert(r[k] == roulette_pool(p, tier)[k]);
                assert(available_of_tier(p, roulette_pool(p, tier)[k], tier));
                let j = choose|j: int|
                    0 <= j < p.len() && p[j].ship_id == roulette_pool(p, tier)[k] && p[j].tier == tier
                        && p[j].available;
                assert(ships[j] == p[j]);
            } else {
                assert(ships[ships.len() - 1] == ships.last());
            }
        }
    }
}

/// Every ship the roulette can draw for a tier is an available ship of that
/// tier, whose number is the value of the tier's roman numeral.
pub proof fn lemma_roulette_pool_of_tier(ships: Seq<RouletteShip>, t: RouletteTier)
    ensures
        t.spec_value() == roman_value(tier_numeral(t)),
        forall|k: int|
            0 <= k < roulette_pool(ships, t.spec_value()).len() ==> available_of_tier(
                ships,
                #[trigger] roulette_pool(ships, t.spec_value())[k],
                t.spec_value(),
            ),
{
    lemma_tier_value_is_numeral(t, t);
    lemma_pool_from(ships, t.spec_value());
}

/// The ids of the ships that the roulette picks from.
pub fn roulette_candidates(ships: &Vec<RouletteShip>, tier: RouletteTier) -> (r: Vec<u64>)
    ensures
        r@ == roulette_pool(ships@, tier.spec_value()),
{
    let t = tier.value();
    let mut out: Vec<u64> = Vec::new();
    let mut i: usize = 0;
    while i < ships.len()
        invariant
            i <= ships@.len(),
            t == tier.spec_value(),
            out@ == roulette_pool(ships@.take(i as int), t),
        decreases ships@.len() - i,
    {
        proof {
            assert(ships@.take(i + 1).drop_last() =~= ships@.take(i as int));
        }
        let s = ships[i];
        if s.tier == t && s.available {
            out.push(s.ship_id);
        }
        i = i + 1;
    }
    proof {
        assert(ships@.take(ships@.len() as int) =~= ships@);
    }
    out
}

/// `r` holds elements of `v` at distinct positions.
pub open spec fn drawn_without_repetition(v: Seq<u64>, r: Seq<u64>) -> bool {
    exists|idx: Seq<int>|
        {
            &&& idx.len() == r.len()
            &&& idx.no_duplicates()
            &&& forall|i: int|
                0 <= i < idx.len() ==> 0 <= #[trigger] idx[i] < v.len() && r[i] == v[idx[i]]
        }
}

/// Picks `min(amount, v.len())` elements at distinct positions of `v` at
/// random, with `IndexedRandom::choose_multiple` and the thread's generator.
/// Which ones and in what order is chance.
#[verifier::external_body]
fn choose_several(v: &Vec<u64>, amount: usize) -> (r: Vec<u64>)
    ensures
        r@.len() == if amount < v@.len() {
            amount as int
        } else {
            v@.len() as int
        },
        drawn_without_repetition(v@, r@),
{
    v.choose_multiple(&mut rand::rng(), amount).copied().collect()
}

/// Picks one element of `v` at random with `IndexedRandom::choose` and the
/// thread's generator; `None` only when `v` is empty. Which one is chance.
#[verifier::external_body]
fn choose_one(v: &Vec<u64>) -> (r: Option<u64>)
    ensures
        r.is_none() <==> v@.len() == 0,
        r.is_some() ==> v@.contains(r.unwrap()),
{
    v.choose(&mut rand::rng()).copied()
}

/// A button of the roulette: its id, its label and whether it is disabled.
#[derive(Debug, Clone)]
pub struct RouletteButton {
    pub custom_id: String,
    pub label: String,
    pub disabled: bool,
}

/// The roulette's state: the ships drawn for each player and its buttons.
#[derive(Debug, Clone)]
pub struct RouletteView {
    pub players: RoulettePlayer,
    pub candidates: Vec<u64>,
    pub ships: Vec<u64>,
    pub btn_1_disabled: bool,
    pub btn_2_disabled: bool,
    pub btn_3_disabled: bool,
}

impl RouletteView {
    /// Draws a ship for each player, all different, from the candidates.
    pub fn new(candidates: Vec<u64>, players: RoulettePlayer) -> (r: Self)
        ensures
            r.players == players,
            r.candidates@ == candidates@,
            r.ships@.len() == if players.spec_count() < candidates@.len() {
                players.spec_count() as int
            } else {
                candidates@.len() as int
            },
            drawn_without_repetition(candidates@, r.ships@),
            !r.btn_1_disabled && !r.btn_2_disabled && !r.btn_3_disabled,
    {
        let ships = choose_several(&candidates, players.count());
        RouletteView {
            players,
            candidates,
            ships,
            btn_1_disabled: false,
            btn_2_disabled: false,
            btn_3_disabled: false,
        }
    }

    /// Draws the ship of player `index` again, from all candidates.
    pub fn reroll(&mut self, index: usize)
        requires
            index < old(self).ships@.len(),
            old(self).candidates@.len() > 0,
        ensures
            final(self).ships@.len() == old(self).ships@.len(),
            old(self).candidates@.contains(final(self).ships@[index as int]),
            forall|i: int|
                0 <= i < old(self).ships@.len() && i != index ==> final(self).ships@[i] == old(
                    self,
                ).ships@[i],
            final(self).candidates@ == old(self).candidates@,
            final(self).players == old(self).players,
            final(self).btn_1_disabled == old(self).btn_1_disabled,
            final(self).btn_2_disabled == old(self).btn_2_disabled,
            final(self).btn_3_disabled == old(self).btn_3_disabled,
    {
        match choose_one(&self.candidates) {
            Some(id) => {
                self.ships.set(index, id);
            },
            None => {},
        }
    }

    /// Disables all buttons once the roulette stops listening.
    pub fn timeout(&mut self)
        ensures
            final(self).btn_1_disabled && final(self).btn_2_disabled && final(self).btn_3_disabled,
            final(self).ships@ == old(self).ships@,
            final(self).candidates@ == old(self).candidates@,
            final(self).players == old(self).players,
    {
        self.btn_1_disabled = true;
        self.btn_2_disabled = true;
        self.btn_3_disabled = true;
    }

    /// One re-draw button per player, in order.
    pub fn buttons(&self) -> (r: Vec<RouletteButton>)
        ensures
            r@.len() == self.players.spec_count(),
            r@[0].custom_id@ == "roulette_1"@ && r@[0].label@ == "1️⃣🔄"@ && r@[0].disabled
                == self.btn_1_disabled,
            r@.len() >= 2 ==> r@[1].custom_id@ == "roulette_2"@ && r@[1].label@ == "2️⃣🔄"@
                && r@[1].disabled == self.btn_2_disabled,
            r@.len() >= 3 ==> r@[2].custom_id@ == "roulette_3"@ && r@[2].label@ == "3️⃣🔄"@
                && r@[2].disabled == self.btn_3_disabled,
    {
        let mut r: Vec<RouletteButton> = Vec::new();
        r.push(
            RouletteButton {
                custom_id: String::from_str("roulette_1"),
                label: String::from_str("1️⃣🔄"),
                disabled: self.btn_1_disabled,
            },
        );
        let n = self.players.count();
        if n >= 2 {
            r.push(
                RouletteButton {
                    custom_id: String::from_str("roulette_2"),
                    label: String::from_str("2️⃣🔄"),
                    disabled: self.btn_2_disabled,
                },
            );
        }
        if n >= 3 {
            r.push(
                RouletteButton {
                    custom_id: String::from_str("roulette_3"),
                    label: String::from_str("3️⃣🔄"),
                    disabled: self.btn_3_disabled,
                },
            );
        }
        r
    }
}

/// The player whose ship a button press draws again: `roulette_1` to
/// `roulette_3` give 0 to 2; other ids none.
pub fn reroll_index(custom_id: &str) -> (r: Option<usize>)
    ensures
        custom_id@ == "roulette_1"@ ==> r == Some(0usize),
        custom_id@ == "roulette_2"@ ==> r == Some(1usize),
        custom_id@ == "roulette_3"@ ==> r == Some(2usize),
        custom_id@ != "roulette_1"@ && custom_id@ != "roulette_2"@ && custom_id@ != "roulette_3"@
            ==> r is None,
{
    proof {
        reveal_strlit("roulette_1");
        reveal_strlit("roulette_2");
        reveal_strlit("roulette_3");
        assert("roulette_1"@[9] != "roulette_2"@[9]);
        assert("roulette_1"@[9] != "roulette_3"@[9]);
        assert("roulette_2"@[9] != "roulette_3"@[9]);
    }
    if str_equals(custom_id, "roulette_1") {
        Some(0)
    } else if str_equals(custom_id, "roulette_2") {
        Some(1)
    } else if str_equals(custom_id, "roulette_3") {
        Some(2)
    } else {
        None
    }
}

/// The division size and tier a roulette is drawn for: three players and
/// tier X unless given.
pub fn roulette_defaults(players: Option<RoulettePlayer>, tier: Option<RouletteTier>) -> (r: (
    RoulettePlayer,
    RouletteTier,
))
    ensures
        r.0 == match players {
            Some(p) => p,
            None => RoulettePlayer::Three,
        },
        r.1 == match tier {
            Some(t) => t,
            None => RouletteTier::X,
        },
{
    let p = match players {
        Some(p) => p,
        None => RoulettePlayer::Three,
    };
    let t = match tier {
        Some(t) => t,
        None => RouletteTier::X,
    };
    (p, t)
}

/// The emoji of the `i`-th player.
pub open spec fn roulette_emoji(i: int) -> Seq<char> {
    if i == 0 {
        "1️⃣"@
    } else if i == 1 {
        "2️⃣"@
    } else {
        "3️⃣"@
    }
}

/// The roulette's text: each drawn ship after its player's emoji.
pub open spec fn roulette_lines(names: Seq<String>) -> Seq<char>
    decreases names.len(),
{
    if names.len() == 0 {
        Seq::empty()
    } else {
        roulette_lines(names.drop_last()) + roulette_emoji(names.len() - 1) + " "@
            + names.last()@ + "\n\n"@
    }
}

/// The text listing the drawn ships, given their names in order.
pub fn roulette_text(names: &Vec<String>) -> (r: String)
    requires
        names@.len() <= 3,
    ensures
        r@ == roulette_lines(names@),
{
    let mut out = String::new();
    let mut i: usize = 0;
    while i < names.len()
        invariant
            i <= names@.len(),
            names@.len() <= 3,
            out@ == roulette_lines(names@.take(i as int)),
        decreases names@.len() - i,
    {
        proof {
            assert(names@.take(i + 1).drop_last() =~= names@.take(i as int));
        }
        let e = if i == 0 {
            "1️⃣"
        } else if i == 1 {
            "2️⃣"
        } else {
            "3️⃣"
        };
        out.append(e);
        out.append(" ");
        out.append(names[i].as_str());
        out.append("\n\n");
        i = i + 1;
    }
    proof {
        assert(names@.take(i as int) =~= names@);
    }
    out
}

impl RouletteView {
    /// What a button press does: a player's button draws that player's ship
    /// again; other ids do nothing. The player must have a ship.
    pub fn on_press(&mut self, custom_id: &str)
        requires
            old(self).candidates@.len() > 0,
            custom_id@ == "roulette_1"@ ==> 0 < old(self).ships@.len(),
            custom_id@ == "roulette_2"@ ==> 1 < old(self).ships@.len(),
            custom_id@ == "roulette_3"@ ==> 2 < old(self).ships@.len(),
        ensures
            final(self).ships@.len() == old(self).ships@.len(),
            final(self).candidates@ == old(self).candidates@,
            final(self).players == old(self).players,
            custom_id@ == "roulette_1"@ ==> old(self).candidates@.contains(final(self).ships@[0]),
            custom_id@ == "roulette_2"@ ==> old(self).candidates@.contains(final(self).ships@[1]),
            custom_id@ == "roulette_3"@ ==> old(self).candidates@.contains(final(self).ships@[2]),
            forall|i: int|
                0 <= i < old(self).ships@.len() && !(i == 0 && custom_id@ == "roulette_1"@) && !(i
                    == 1 && custom_id@ == "roulette_2"@) && !(i == 2 && custom_id@ == "roulette_3"@)
                    ==> final(self).ships@[i] == old(self).ships@[i],
    {
        match reroll_index(custom_id) {
            Some(i) => {
                self.reroll(i);
            },
            None => {},
        }
    }
}

} // verus!
