//! Letting the user pick one of a few candidates (ships or players) with
//! numbered buttons.
use crate::text::{decimal_text, str_equals};
use vstd::prelude::*;

verus! {

/// The most candidates that can be offered.
pub const PICK_MAX: usize = 4;

/// The emoji of the `i`-th candidate.
pub open spec fn pick_emoji(i: int) -> Seq<char> {
    if i == 0 {
        "1️⃣"@
    } else if i == 1 {
        "2️⃣"@
    } else if i == 2 {
        "3️⃣"@
    } else {
        "4️⃣"@
    }
}

/// The id of the button of the `i`-th candidate.
pub open spec fn pick_id(i: int) -> Seq<char> {
    if i == 0 {
        "select_1"@
    } else if i == 1 {
        "select_2"@
    } else if i == 2 {
        "select_3"@
    } else {
        "select_4"@
    }
}

fn emoji_at(i: usize) -> (r: &'static str)
    requires
        i < PICK_MAX,
    ensures
        r@ == pick_emoji(i as int),
{
    if i == 0 {
        "1️⃣"
    } else if i == 1 {
        "2️⃣"
    } else if i == 2 {
        "3️⃣"
    } else {
        "4️⃣"
    }
}

fn id_at(i: usize) -> (r: &'static str)
    requires
        i < PICK_MAX,
    ensures
        r@ == pick_id(i as int),
{
    if i == 0 {
        "select_1"
    } else if i == 1 {
        "select_2"
    } else if i == 2 {
        "select_3"
    } else {
        "select_4"
    }
}

/// A button of the picker: its id and its emoji.
#[derive(Debug, Clone)]
pub struct PickButton {
    pub custom_id: String,
    pub emoji: String,
}

/// The picker: the candidates as they are shown.
#[derive(Debug, Clone)]
pub struct PickView {
    pub candidates: Vec<String>,
}

/// The picker's text: each candidate after its emoji, then the line to
/// refuse them all.
pub open spec fn pick_lines(c: Seq<String>) -> Seq<char>
    decreases c.len(),
{
    if c.len() == 0 {
        Seq::empty()
    } else {
        pick_lines(c.drop_last()) + pick_emoji(c.len() - 1) + " "@ + c.last()@ + "\n\n"@
    }
}

/// The text under the picker.
pub open spec fn pick_text(c: Seq<String>) -> Seq<char> {
    pick_lines(c) + "❌ None of above"@
}

impl PickView {
    /// A picker for at most four candidates.
    pub fn new(candidates: Vec<String>) -> (r: Self)
        requires
            candidates@.len() <= PICK_MAX,
        ensures
            r.candidates@ == candidates@,
    {
        PickView { candidates }
    }

    /// The text that lists the candidates.
    pub fn embed_text(&self) -> (r: String)
        requires
            self.candidates@.len() <= PICK_MAX,
        ensures
            r@ == pick_text(self.candidates@),
    {
        let mut out = String::new();
        let mut i: usize = 0;
        while i < self.candidates.len()
            invariant
                i <= self.candidates@.len(),
                self.candidates@.len() <= PICK_MAX,
                out@ == pick_lines(self.candidates@.take(i as int)),
            decreases self.candidates@.len() - i,
        {
            proof {
                assert(self.candidates@.take(i + 1).drop_last() =~= self.candidates@.take(i as int));
            }
            out.append(emoji_at(i));
            out.append(" ");
            out.append(self.candidates[i].as_str());
            out.append("\n\n");
            i = i + 1;
        }
        proof {
            assert(self.candidates@.take(i as int) =~= self.candidates@);
        }
        out.append("❌ None of above");
        out
    }

    /// One button per candidate, then the button that refuses them all.
    pub fn build(&self) -> (r: Vec<PickButton>)
        requires
            self.candidates@.len() <= PICK_MAX,
        ensures
            r@.len() == self.candidates@.len() + 1,
            forall|i: int|
                0 <= i < self.candidates@.len() ==> (#[trigger] r@[i]).custom_id@ == pick_id(i)
                    && r@[i].emoji@ == pick_emoji(i),
            r@.last().custom_id@ == "select_x"@,
            r@.last().emoji@ == "❌"@,
    {
        let mut r: Vec<PickButton> = Vec::new();
        let mut i: usize = 0;
        while i < self.candidates.len()
            invariant
                i <= self.candidates@.len(),
                self.candidates@.len() <= PICK_MAX,
                r@.len() == i,
                forall|k: int|
                    0 <= k < i ==> (#[trigger] r@[k]).custom_id@ == pick_id(k) && r@[k].emoji@
                        == pick_emoji(k),
            decreases self.candidates@.len() - i,
        {
            r.push(
                PickButton { custom_id: String::from_str(id_at(i)), emoji: String::from_str(emoji_at(i)) },
            );
            i = i + 1;
        }
        r.push(PickButton { custom_id: String::from_str("select_x"), emoji: String::from_str("❌") });
        r
    }
}

/// Which candidate a button id picks: `select_1` to `select_4` give 0 to 3;
/// any other id none.
pub open spec fn picked_index(id: Seq<char>) -> Option<u8> {
    if id == "select_1"@ {
        Some(0u8)
    } else if id == "select_2"@ {
        Some(1u8)
    } else if id == "select_3"@ {
        Some(2u8)
    } else if id == "select_4"@ {
        Some(3u8)
    } else {
        None
    }
}

/// The emoji of the `i`-th candidate is the keycap of the digit `i + 1`.
pub proof fn lemma_pick_emoji_keycap(i: int)
    requires
        0 <= i < PICK_MAX,
    ensures
        pick_emoji(i) == decimal_text((i + 1) as nat) + seq!['\u{FE0F}', '\u{20E3}'],
{
    reveal_strlit("1️⃣");
    reveal_strlit("2️⃣");
    reveal_strlit("3️⃣");
    reveal_strlit("4️⃣");
    assert(pick_emoji(i) =~= decimal_text((i + 1) as nat) + seq!['\u{FE0F}', '\u{20E3}']);
}

/// Pressing the button of the `i`-th candidate picks that candidate: the
/// button ids round-trip to their positions, so they are distinct, and
/// none is the id of the button that refuses them all.
pub proof fn lemma_pick_ids_round_trip(i: int, j: int)
    requires
        0 <= i < PICK_MAX,
        0 <= j < PICK_MAX,
    ensures
        pick_id(i) == "select_"@ + decimal_text((i + 1) as nat),
        picked_index(pick_id(i)) == Some(i as u8),
        i != j ==> pick_id(i) != pick_id(j),
        picked_index("select_x"@) is None,
{
    reveal_strlit("select_1");
    reveal_strlit("select_2");
    reveal_strlit("select_3");
    reveal_strlit("select_4");
    reveal_strlit("select_x");
    reveal_strlit("select_");
    assert(pick_id(i) =~= "select_"@ + decimal_text((i + 1) as nat));
    assert("select_1"@[7] != "select_2"@[7]);
    assert("select_1"@[7] != "select_3"@[7]);
    assert("select_1"@[7] != "select_4"@[7]);
    assert("select_2"@[7] != "select_3"@[7]);
    assert("select_2"@[7] != "select_4"@[7]);
    assert("select_3"@[7] != "select_4"@[7]);
    assert("select_x"@[7] != "select_1"@[7]);
    assert("select_x"@[7] != "select_2"@[7]);
    assert("select_x"@[7] != "select_3"@[7]);
    assert("select_x"@[7] != "select_4"@[7]);
    if i != j {
        assert(picked_index(pick_id(i)) != picked_index(pick_id(j)));
    }
}

/// Which candidate a button press picked: `select_1` to `select_4` give 0
/// to 3; `select_x` and any other id none.
pub fn pick_index(custom_id: &str) -> (r: Option<u8>)
    ensures
        r == picked_index(custom_id@),
        custom_id@ == "select_1"@ ==> r == Some(0u8),
        custom_id@ == "select_2"@ ==> r == Some(1u8),
        custom_id@ == "select_3"@ ==> r == Some(2u8),
        custom_id@ == "select_4"@ ==> r == Some(3u8),
        custom_id@ != "select_1"@ && custom_id@ != "select_2"@ && custom_id@ != "select_3"@
            && custom_id@ != "select_4"@ ==> r is None,
{
    proof {
        reveal_strlit("select_1");
        reveal_strlit("select_2");
        reveal_strlit("select_3");
        reveal_strlit("select_4");
        assert("select_1"@[7] != "select_2"@[7]);
        assert("select_1"@[7] != "select_3"@[7]);
        assert("select_1"@[7] != "select_4"@[7]);
        assert("select_2"@[7] != "select_3"@[7]);
        assert("select_2"@[7] != "select_4"@[7]);
        assert("select_3"@[7] != "select_4"@[7]);
    }
    if str_equals(custom_id, "select_1") {
        Some(0)
    } else if str_equals(custom_id, "select_2") {
        Some(1)
    } else if str_equals(custom_id, "select_3") {
        Some(2)
    } else if str_equals(custom_id, "select_4") {
        Some(3)
    } else {
        None
    }
}

/// What the search gave decides how the argument is taken: nothing found
/// is an error, one candidate is taken as it is, several are offered.
#[derive(Debug, Clone, Copy, PartialEq, Eq, Structural)]
pub enum Candidates {
    NotFound,
    Only,
    Pick,
}

/// How to go on with `n` candidates.
pub fn candidates_outcome(n: usize) -> (r: Candidates)
    ensures
        n == 0 ==> r == Candidates::NotFound,
        n == 1 ==> r == Candidates::Only,
        n >= 2 ==> r == Candidates::Pick,
{
    if n == 0 {
        Candidates::NotFound
    } else if n == 1 {
        Candidates::Only
    } else {
        Candidates::Pick
    }
}

} // verus!
