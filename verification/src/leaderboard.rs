//! Ship leaderboards: ordering the rows, ranking them, placing the asking
//! player and cutting the board to the rows that are shown.
use crate::account::Patrons;
use crate::clock::now_unix_secs;
use crate::error::{IsacError, IsacInfo};
use crate::region::Region;
use std::collections::HashMap;
use vstd::prelude::*;
use vstd::multiset::Multiset;

verus! {

broadcast use vstd::seq_lib::group_to_multiset_ensures;

/// How a row of the board is drawn.
#[derive(Debug, Clone, Copy, PartialEq, Eq, Structural)]
pub enum RowColor {
    /// No color set.
    Unset,
    /// Plain white.
    White,
    /// The row of the player who asked.
    Author,
    /// The row of a supporter.
    Patron,
}

impl RowColor {
    /// The CSS color of the row.
    pub open spec fn spec_css(self) -> Seq<char> {
        match self {
            RowColor::Unset => ""@,
            RowColor::White => "#fff"@,
            RowColor::Author => "#ffcc66"@,
            RowColor::Patron => "#e85a6b"@,
        }
    }

    /// The CSS color of the row.
    pub fn css(&self) -> (r: String)
        ensures
            r@ == self.spec_css(),
    {
        match self {
            RowColor::Unset => String::from_str(""),
            RowColor::White => String::from_str("#fff"),
            RowColor::Author => String::from_str("#ffcc66"),
            RowColor::Patron => String::from_str("#e85a6b"),
        }
    }

    /// The row color that a CSS color names; any other text is no color.
    pub open spec fn spec_from_css(css: Seq<char>) -> RowColor {
        if css == RowColor::White.spec_css() {
            RowColor::White
        } else if css == RowColor::Author.spec_css() {
            RowColor::Author
        } else if css == RowColor::Patron.spec_css() {
            RowColor::Patron
        } else {
            RowColor::Unset
        }
    }

    /// The row color that a CSS color names, as stored boards write it.
    pub fn from_css(css: &str) -> (r: RowColor)
        ensures
            r == RowColor::spec_from_css(css@),
    {
        if crate::text::str_equals(css, "#fff") {
            RowColor::White
        } else if crate::text::str_equals(css, "#ffcc66") {
            RowColor::Author
        } else if crate::text::str_equals(css, "#e85a6b") {
            RowColor::Patron
        } else {
            RowColor::Unset
        }
    }
}

/// Reading a row color back from its CSS color gives the same color.
pub proof fn lemma_from_css_inverts_css(c: RowColor)
    ensures
        RowColor::spec_from_css(c.spec_css()) == c,
{
    reveal_strlit("");
    reveal_strlit("#fff");
    reveal_strlit("#ffcc66");
    reveal_strlit("#e85a6b");
    assert("#fff"@ != "#ffcc66"@) by {
        assert("#fff"@.len() != "#ffcc66"@.len());
    }
    assert("#fff"@ != "#e85a6b"@) by {
        assert("#fff"@.len() != "#e85a6b"@.len());
    }
    assert("#ffcc66"@ != "#e85a6b"@) by {
        assert("#ffcc66"@[1] != "#e85a6b"@[1]);
    }
    assert(""@ != "#fff"@ && ""@ != "#ffcc66"@ && ""@ != "#e85a6b"@) by {
        assert(""@.len() == 0);
    }
}

/// A row of a ship leaderboard. `score` is the value the board is ordered
/// by, as an integer of the same order; `stats` is what is drawn.
#[derive(Debug, Clone)]
pub struct LeaderboardRow<T> {
    pub uid: u64,
    pub rank: u64,
    pub color: RowColor,
    pub score: u64,
    pub battles: u64,
    pub stats: T,
}

/// The row with another rank.
pub open spec fn with_rank<T>(r: LeaderboardRow<T>, rank: u64) -> LeaderboardRow<T> {
    LeaderboardRow {
        uid: r.uid,
        rank: rank,
        color: r.color,
        score: r.score,
        battles: r.battles,
        stats: r.stats,
    }
}

/// The row with another color.
pub open spec fn with_color<T>(r: LeaderboardRow<T>, color: RowColor) -> LeaderboardRow<T> {
    LeaderboardRow {
        uid: r.uid,
        rank: r.rank,
        color: color,
        score: r.score,
        battles: r.battles,
        stats: r.stats,
    }
}

/// Where a row of score `score` goes in a board ordered from the highest
/// score down: after every row that scores as much or more.
pub open spec fn first_below<T>(s: Seq<LeaderboardRow<T>>, score: u64) -> int
    decreases s.len(),
{
    if s.len() == 0 {
        0
    } else if s[0].score < score {
        0
    } else {
        1 + first_below(s.drop_first(), score)
    }
}

/// The board with the row put in its place.
pub open spec fn insert_by_score<T>(s: Seq<LeaderboardRow<T>>, r: LeaderboardRow<T>) -> Seq<
    LeaderboardRow<T>,
> {
    s.insert(first_below(s, r.score), r)
}

/// The rows ordered from the highest score down; rows of equal score keep
/// their order.
pub open spec fn sorted_by_score<T>(s: Seq<LeaderboardRow<T>>) -> Seq<LeaderboardRow<T>>
    decreases s.len(),
{
    if s.len() == 0 {
        s
    } else {
        insert_by_score(sorted_by_score(s.drop_last()), s.last())
    }
}

/// Whether the rows go from the highest score down.
pub open spec fn descending<T>(s: Seq<LeaderboardRow<T>>) -> bool {
    forall|i: int, j: int| 0 <= i < j < s.len() ==> s[i].score >= s[j].score
}

proof fn lemma_first_below_bounds<T>(s: Seq<LeaderboardRow<T>>, score: u64)
    ensures
        0 <= first_below(s, score) <= s.len(),
        forall|m: int| 0 <= m < first_below(s, score) ==> s[m].score >= score,
        first_below(s, score) < s.len() ==> s[first_below(s, score)].score < score,
    decreases s.len(),
{
    if s.len() > 0 && s[0].score >= score {
        lemma_first_below_bounds(s.drop_first(), score);
        assert forall|m: int| 0 <= m < first_below(s, score) implies s[m].score >= score by {
            if m > 0 {
                assert(s[m] == s.drop_first()[m - 1]);
            }
        }
    }
}

proof fn lemma_first_below_is<T>(s: Seq<LeaderboardRow<T>>, score: u64, j: int)
    requires
        0 <= j <= s.len(),
        forall|m: int| 0 <= m < j ==> s[m].score >= score,
        j < s.len() ==> s[j].score < score,
    ensures
        first_below(s, score) == j,
    decreases j,
{
    if j > 0 {
        lemma_first_below_is(s.drop_first(), score, j - 1);
    }
}

proof fn lemma_insert_keeps_descending<T>(s: Seq<LeaderboardRow<T>>, r: LeaderboardRow<T>)
    requires
        descending(s),
    ensures
        descending(insert_by_score(s, r)),
        insert_by_score(s, r).len() == s.len() + 1,
{
    let j = first_below(s, r.score);
    lemma_first_below_bounds(s, r.score);
    let t = insert_by_score(s, r);
    s.insert_ensures(j, r);
    assert forall|a: int, b: int| 0 <= a < b < t.len() implies t[a].score >= t[b].score by {
        if a < j && b < j {
        } else if a < j && b == j {
        } else if a < j {
            assert(t[b] == s[b - 1]);
        } else if a == j {
            assert(t[b] == s[b - 1]);
            assert(s[j].score < r.score);
        } else {
            assert(t[a] == s[a - 1]);
            assert(t[b] == s[b - 1]);
        }
    }
}

/// Sorting the rows gives rows from the highest score down.
pub proof fn lemma_sorted_by_score_descending<T>(s: Seq<LeaderboardRow<T>>)
    ensures
        descending(sorted_by_score(s)),
        sorted_by_score(s).len() == s.len(),
    decreases s.len(),
{
    if s.len() > 0 {
        lemma_sorted_by_score_descending(s.drop_last());
        lemma_insert_keeps_descending(sorted_by_score(s.drop_last()), s.last());
    }
}

/// Sorting the rows neither adds, drops nor repeats a row.
pub proof fn lemma_sorted_by_score_permutes<T>(s: Seq<LeaderboardRow<T>>)
    ensures
        sorted_by_score(s).to_multiset() == s.to_multiset(),
    decreases s.len(),
{
    if s.len() > 0 {
        let p = s.drop_last();
        lemma_sorted_by_score_permutes(p);
        lemma_sorted_by_score_descending(p);
        lemma_first_below_bounds(sorted_by_score(p), s.last().score);
        vstd::seq_lib::to_multiset_insert(
            sorted_by_score(p),
            first_below(sorted_by_score(p), s.last().score),
            s.last(),
        );
        assert(s == p.push(s.last()));
        vstd::seq_lib::to_multiset_build(p, s.last());
    }
}

/// Orders the rows from the highest score down, keeping the order of rows
/// of equal score.
pub fn sort_by_score<T>(rows: &mut Vec<LeaderboardRow<T>>)
    ensures
        final(rows)@ == sorted_by_score(old(rows)@),
{
    let ghost orig = rows@;
    assert(orig.len() == rows.len());
    let mut src: Vec<LeaderboardRow<T>> = Vec::new();
    std::mem::swap(&mut src, rows);
    let mut out: Vec<LeaderboardRow<T>> = Vec::new();
    let mut k: usize = 0;
    while src.len() > 0
        invariant
            k <= orig.len(),
            orig.len() <= usize::MAX,
            src@ == orig.skip(k as int),
            out@ == sorted_by_score(orig.take(k as int)),
        decreases src@.len(),
    {
        let x = src.remove(0);
        proof {
            assert(x == orig[k as int]);
            assert(orig.take(k + 1).drop_last() =~= orig.take(k as int));
            assert(orig.take(k + 1).last() == orig[k as int]);
            assert(src@ =~= orig.skip(k + 1));
        }
        let mut j: usize = 0;
        while j < out.len() && out[j].score >= x.score
            invariant
                j <= out@.len(),
                forall|m: int| 0 <= m < j ==> out@[m].score >= x.score,
            decreases out@.len() - j,
        {
            j = j + 1;
        }
        proof {
            lemma_first_below_is(out@, x.score, j as int);
        }
        out.insert(j, x);
        k = k + 1;
    }
    proof {
        assert(orig.take(k as int) =~= orig);
    }
    *rows = out;
}

/// The rows ranked 1, 2, 3... in their order.
pub open spec fn ranked<T>(s: Seq<LeaderboardRow<T>>) -> Seq<LeaderboardRow<T>> {
    Seq::new(s.len(), |i: int| with_rank(s[i], (i + 1) as u64))
}

/// Ranks the rows 1, 2, 3... in their order.
pub fn assign_ranks<T>(rows: &mut Vec<LeaderboardRow<T>>)
    ensures
        final(rows)@ == ranked(old(rows)@),
{
    let ghost orig = rows@;
    assert(orig.len() == rows.len());
    let mut src: Vec<LeaderboardRow<T>> = Vec::new();
    std::mem::swap(&mut src, rows);
    let mut out: Vec<LeaderboardRow<T>> = Vec::new();
    let mut k: usize = 0;
    while src.len() > 0
        invariant
            k <= orig.len(),
            orig.len() <= usize::MAX,
            src@ == orig.skip(k as int),
            out@ == ranked(orig.take(k as int)),
        decreases src@.len(),
    {
        let x = src.remove(0);
        proof {
            assert(x == orig[k as int]);
            assert(src@ =~= orig.skip(k + 1));
        }
        let r = LeaderboardRow {
            uid: x.uid,
            rank: (k + 1) as u64,
            color: x.color,
            score: x.score,
            battles: x.battles,
            stats: x.stats,
        };
        out.push(r);
        k = k + 1;
        proof {
            assert(out@ =~= ranked(orig.take(k as int)));
        }
    }
    proof {
        assert(orig.take(k as int) =~= orig);
    }
    *rows = out;
}

/// Orders the rows from the highest score down and ranks them.
pub fn rank_by_score<T>(rows: &mut Vec<LeaderboardRow<T>>)
    ensures
        final(rows)@ == ranked(sorted_by_score(old(rows)@)),
{
    sort_by_score(rows);
    assign_ranks(rows);
}

/// The first row of the player, if any.
pub open spec fn uid_index<T>(s: Seq<LeaderboardRow<T>>, uid: u64) -> Option<int>
    decreases s.len(),
{
    if s.len() == 0 {
        None
    } else if s[0].uid == uid {
        Some(0)
    } else {
        match uid_index(s.drop_first(), uid) {
            Some(i) => Some(i + 1),
            None => None,
        }
    }
}

proof fn lemma_uid_index_is<T>(s: Seq<LeaderboardRow<T>>, uid: u64, j: int)
    requires
        0 <= j <= s.len(),
        forall|m: int| 0 <= m < j ==> s[m].uid != uid,
    ensures
        j < s.len() && s[j].uid == uid ==> uid_index(s, uid) == Some(j),
        j == s.len() ==> uid_index(s, uid) is None,
    decreases j,
{
    if j > 0 {
        lemma_uid_index_is(s.drop_first(), uid, j - 1);
    }
}

/// Where the player's first row is on the board.
pub fn find_uid<T>(rows: &Vec<LeaderboardRow<T>>, uid: u64) -> (r: Option<usize>)
    ensures
        match r {
            Some(i) => uid_index(rows@, uid) == Some(i as int),
            None => uid_index(rows@, uid) is None,
        },
        r matches Some(i) ==> i < rows@.len() && rows@[i as int].uid == uid,
        r is None ==> forall|m: int| 0 <= m < rows@.len() ==> rows@[m].uid != uid,
{
    let mut i: usize = 0;
    while i < rows.len()
        invariant
            i <= rows@.len(),
            forall|m: int| 0 <= m < i ==> rows@[m].uid != uid,
        decreases rows@.len() - i,
    {
        if rows[i].uid == uid {
            proof {
                lemma_uid_index_is(rows@, uid, i as int);
            }
            return Some(i);
        }
        i = i + 1;
    }
    proof {
        lemma_uid_index_is(rows@, uid, i as int);
    }
    None
}

/// Whether a row of that score makes it onto the board: it beats the last
/// row, or the board is empty.
pub open spec fn beats_last<T>(s: Seq<LeaderboardRow<T>>, score: u64) -> bool {
    s.len() == 0 || score > s.last().score
}

/// What placing the asking player's row does to the board: where it beats
/// the last row, the row joins, the board is ordered and ranked again.
pub open spec fn placed<T>(s: Seq<LeaderboardRow<T>>, row: LeaderboardRow<T>) -> Seq<
    LeaderboardRow<T>,
> {
    if beats_last(s, row.score) {
        ranked(sorted_by_score(s.push(row)))
    } else {
        s
    }
}

/// Puts the asking player's row on the board if it beats the last row, and
/// says where the player's first row then is.
pub fn place_author<T>(rows: &mut Vec<LeaderboardRow<T>>, row: LeaderboardRow<T>) -> (r: Option<
    usize,
>)
    ensures
        final(rows)@ == placed(old(rows)@, row),
        beats_last(old(rows)@, row.score) ==> match r {
            Some(i) => uid_index(final(rows)@, row.uid) == Some(i as int),
            None => uid_index(final(rows)@, row.uid) is None,
        },
        !beats_last(old(rows)@, row.score) ==> r is None,
{
    let n = rows.len();
    let in_top = if n == 0 {
        true
    } else {
        row.score > rows[n - 1].score
    };
    if in_top {
        let uid = row.uid;
        rows.push(row);
        rank_by_score(rows);
        find_uid(rows, uid)
    } else {
        None
    }
}

/// How many rows a board shows, besides the asking player's row moved up.
pub const BOARD_ROWS: usize = 15;

/// The first `n` rows, or all of them if there are fewer.
pub open spec fn cut<T>(s: Seq<T>, n: int) -> Seq<T> {
    if n <= s.len() {
        s.take(n)
    } else {
        s
    }
}

/// The shown part of a ship's board: the asking player's row is marked,
/// and where it lies below the first 15 rows it takes the place of the
/// 16th row once it has been taken out.
pub open spec fn board_cut<T>(s: Seq<LeaderboardRow<T>>, author: Option<int>) -> Seq<
    LeaderboardRow<T>,
> {
    match author {
        None => cut(s, BOARD_ROWS as int),
        Some(i) => {
            let h = s.update(i, with_color(s[i], RowColor::Author));
            if i >= BOARD_ROWS {
                cut(h.remove(i).update(BOARD_ROWS as int, h[i]), BOARD_ROWS + 1)
            } else {
                cut(h, BOARD_ROWS as int)
            }
        },
    }
}

/// Marks the asking player's row and cuts the board to what is shown.
/// Below the first 15 rows, the board must hold a row after the player's
/// own once that has been taken out.
pub fn cut_board<T>(rows: &mut Vec<LeaderboardRow<T>>, author: Option<usize>)
    requires
        author matches Some(i) ==> i < old(rows)@.len(),
        author matches Some(i) ==> (i >= BOARD_ROWS ==> BOARD_ROWS + 1 < old(rows)@.len()),
    ensures
        final(rows)@ == board_cut(
            old(rows)@,
            match author {
                Some(i) => Some(i as int),
                None => None,
            },
        ),
{
    let mut n: usize = BOARD_ROWS;
    match author {
        Some(i) => {
            let x = rows.remove(i);
            let marked = LeaderboardRow {
                uid: x.uid,
                rank: x.rank,
                color: RowColor::Author,
                score: x.score,
                battles: x.battles,
                stats: x.stats,
            };
            if i >= BOARD_ROWS {
                rows.set(BOARD_ROWS, marked);
                n = BOARD_ROWS + 1;
            } else {
                rows.insert(i, marked);
            }
        },
        None => {},
    }
    rows.truncate(n);
    proof {
        match author {
            Some(i) => {
                let s = old(rows)@;
                let h = s.update(i as int, with_color(s[i as int], RowColor::Author));
                if i >= BOARD_ROWS {
                    assert(h.remove(i as int) =~= s.remove(i as int));
                } else {
                    assert(s.remove(i as int).insert(i as int, h[i as int]) =~= h);
                }
            },
            None => {},
        }
    }
}

/// The rows with supporters' rows colored as such.
pub open spec fn patrons_marked<T>(s: Seq<LeaderboardRow<T>>, patrons: Patrons) -> Seq<
    LeaderboardRow<T>,
> {
    Seq::new(
        s.len(),
        |i: int|
            if patrons.has_player(s[i].uid) {
                with_color(s[i], RowColor::Patron)
            } else {
                s[i]
            },
    )
}

/// Colors the supporters' rows.
pub fn mark_patrons<T>(rows: &mut Vec<LeaderboardRow<T>>, patrons: &Patrons)
    ensures
        final(rows)@ == patrons_marked(old(rows)@, *patrons),
{
    let ghost orig = rows@;
    assert(orig.len() == rows.len());
    let mut src: Vec<LeaderboardRow<T>> = Vec::new();
    std::mem::swap(&mut src, rows);
    let mut out: Vec<LeaderboardRow<T>> = Vec::new();
    let mut k: usize = 0;
    while src.len() > 0
        invariant
            k <= orig.len(),
            orig.len() <= usize::MAX,
            src@ == orig.skip(k as int),
            out@ == patrons_marked(orig.take(k as int), *patrons),
        decreases src@.len(),
    {
        let x = src.remove(0);
        proof {
            assert(x == orig[k as int]);
            assert(src@ =~= orig.skip(k + 1));
        }
        if patrons.check_player(&x.uid) {
            out.push(
                LeaderboardRow {
                    uid: x.uid,
                    rank: x.rank,
                    color: RowColor::Patron,
                    score: x.score,
                    battles: x.battles,
                    stats: x.stats,
                },
            );
        } else {
            out.push(x);
        }
        k = k + 1;
        proof {
            assert(out@ =~= patrons_marked(orig.take(k as int), *patrons));
        }
    }
    proof {
        assert(orig.take(k as int) =~= orig);
    }
    *rows = out;
}

/// The rows of players with at least `min` battles, in their order.
pub open spec fn with_min_battles<T>(s: Seq<LeaderboardRow<T>>, min: u64) -> Seq<
    LeaderboardRow<T>,
>
    decreases s.len(),
{
    if s.len() == 0 {
        s
    } else {
        let p = with_min_battles(s.drop_last(), min);
        if s.last().battles >= min {
            p.push(s.last())
        } else {
            p
        }
    }
}

/// Keeps the rows of players with at least `min` battles.
pub fn keep_min_battles<T>(rows: &mut Vec<LeaderboardRow<T>>, min: u64)
    ensures
        final(rows)@ == with_min_battles(old(rows)@, min),
{
    let ghost orig = rows@;
    assert(orig.len() == rows.len());
    let mut src: Vec<LeaderboardRow<T>> = Vec::new();
    std::mem::swap(&mut src, rows);
    let mut out: Vec<LeaderboardRow<T>> = Vec::new();
    let mut k: usize = 0;
    while src.len() > 0
        invariant
            k <= orig.len(),
            orig.len() <= usize::MAX,
            src@ == orig.skip(k as int),
            out@ == with_min_battles(orig.take(k as int), min),
        decreases src@.len(),
    {
        let x = src.remove(0);
        proof {
            assert(x == orig[k as int]);
            assert(src@ =~= orig.skip(k + 1));
            assert(orig.take(k + 1).drop_last() =~= orig.take(k as int));
        }
        if x.battles >= min {
            out.push(x);
        }
        k = k + 1;
    }
    proof {
        assert(orig.take(k as int) =~= orig);
    }
    *rows = out;
}

/// Whether some row of `s` is the player's.
pub open spec fn has_uid<T>(s: Seq<LeaderboardRow<T>>, uid: u64) -> bool {
    exists|j: int| 0 <= j < s.len() && s[j].uid == uid
}

/// The rows with every row of a player after that player's first row left
/// out.
pub open spec fn dedup_uid<T>(s: Seq<LeaderboardRow<T>>) -> Seq<LeaderboardRow<T>>
    decreases s.len(),
{
    if s.len() == 0 {
        s
    } else {
        let p = dedup_uid(s.drop_last());
        if has_uid(s.drop_last(), s.last().uid) {
            p
        } else {
            p.push(s.last())
        }
    }
}

/// Whether `x` is among the first `n` numbers of `v`.
fn seen_before(v: &Vec<u64>, x: u64) -> (r: bool)
    ensures
        r == v@.contains(x),
{
    let mut i: usize = 0;
    while i < v.len()
        invariant
            i <= v@.len(),
            forall|m: int| 0 <= m < i ==> v@[m] != x,
        decreases v@.len() - i,
    {
        if v[i] == x {
            assert(v@[i as int] == x);
            return true;
        }
        i = i + 1;
    }
    false
}

/// Leaves out every row of a player after that player's first row, as
/// several Discord users may have linked the same game account.
pub fn dedup_by_uid<T>(rows: &mut Vec<LeaderboardRow<T>>)
    ensures
        final(rows)@ == dedup_uid(old(rows)@),
{
    let ghost orig = rows@;
    assert(orig.len() == rows.len());
    let mut src: Vec<LeaderboardRow<T>> = Vec::new();
    std::mem::swap(&mut src, rows);
    let mut out: Vec<LeaderboardRow<T>> = Vec::new();
    let mut seen: Vec<u64> = Vec::new();
    let mut k: usize = 0;
    while src.len() > 0
        invariant
            k <= orig.len(),
            orig.len() <= usize::MAX,
            src@ == orig.skip(k as int),
            out@ == dedup_uid(orig.take(k as int)),
            seen@.len() == k,
            forall|j: int| 0 <= j < k ==> seen@[j] == orig[j].uid,
        decreases src@.len(),
    {
        let x = src.remove(0);
        let ghost t = orig.take(k + 1);
        proof {
            assert(x == orig[k as int]);
            assert(src@ =~= orig.skip(k + 1));
            assert(t.drop_last() =~= orig.take(k as int));
        }
        let uid = x.uid;
        let repeated = seen_before(&seen, uid);
        proof {
            if repeated {
                let j = choose|j: int| 0 <= j < seen@.len() && seen@[j] == uid;
                assert(t.drop_last()[j].uid == uid);
            }
            if has_uid(t.drop_last(), uid) {
                let j = choose|j: int| 0 <= j < t.drop_last().len() && t.drop_last()[j].uid == uid;
                assert(seen@[j] == uid);
            }
            assert(repeated == has_uid(t.drop_last(), t.last().uid));
        }
        if !repeated {
            out.push(x);
        }
        seen.push(uid);
        k = k + 1;
    }
    proof {
        assert(orig.take(k as int) =~= orig);
    }
    *rows = out;
}

/// Every player kept is a player of the rows given.
proof fn lemma_dedup_uid_from<T>(s: Seq<LeaderboardRow<T>>)
    ensures
        forall|i: int| 0 <= i < dedup_uid(s).len() ==> has_uid(s, #[trigger] dedup_uid(s)[i].uid),
    decreases s.len(),
{
    if s.len() > 0 {
        lemma_dedup_uid_from(s.drop_last());
        let p = dedup_uid(s.drop_last());
        assert forall|i: int| 0 <= i < dedup_uid(s).len() implies has_uid(s, #[trigger] dedup_uid(s)[i].uid) by {
            if i < p.len() {
                assert(dedup_uid(s)[i] == p[i]);
                assert(has_uid(s.drop_last(), p[i].uid));
                let j = choose|j: int| 0 <= j < s.drop_last().len() && s.drop_last()[j].uid == p[i].uid;
                assert(s[j].uid == p[i].uid);
            } else {
                assert(s[s.len() - 1].uid == dedup_uid(s)[i].uid);
            }
        }
    }
}

/// No player has two rows once the later rows of each player are left out.
pub proof fn lemma_dedup_uid_distinct<T>(s: Seq<LeaderboardRow<T>>)
    ensures
        forall|i: int, j: int|
            0 <= i < j < dedup_uid(s).len() ==> #[trigger] dedup_uid(s)[i].uid != #[trigger] dedup_uid(s)[j].uid,
    decreases s.len(),
{
    if s.len() > 0 {
        lemma_dedup_uid_distinct(s.drop_last());
        lemma_dedup_uid_from(s.drop_last());
        let p = dedup_uid(s.drop_last());
        if !has_uid(s.drop_last(), s.last().uid) {
            assert forall|i: int, j: int|
                0 <= i < j < dedup_uid(s).len() implies #[trigger] dedup_uid(s)[i].uid != #[trigger] dedup_uid(s)[j].uid by {
                if j == p.len() {
                    assert(has_uid(s.drop_last(), p[i].uid));
                } else {
                    assert(dedup_uid(s)[i] == p[i] && dedup_uid(s)[j] == p[j]);
                }
            }
        }
    }
}

/// The shown part of a server's board: where the asking player's row lies
/// below the first 15 rows, it swaps places with the 16th row and the board
/// keeps 16 rows.
pub open spec fn server_cut<T>(s: Seq<LeaderboardRow<T>>, author: Option<int>) -> Seq<
    LeaderboardRow<T>,
> {
    match author {
        Some(i) => if i >= BOARD_ROWS {
            cut(
                s.update(BOARD_ROWS as int, s[i]).update(i, s[BOARD_ROWS as int]),
                BOARD_ROWS + 1,
            )
        } else {
            cut(s, BOARD_ROWS as int)
        },
        None => cut(s, BOARD_ROWS as int),
    }
}

/// Cuts a server's board to what is shown.
pub fn cut_server_board<T>(rows: &mut Vec<LeaderboardRow<T>>, author: Option<usize>)
    requires
        author matches Some(i) ==> i < old(rows)@.len(),
    ensures
        final(rows)@ == server_cut(
            old(rows)@,
            match author {
                Some(i) => Some(i as int),
                None => None,
            },
        ),
{
    let ghost s = rows@;
    match author {
        Some(i) => {
            if i >= BOARD_ROWS {
                let a = rows.remove(i);
                rows.truncate(BOARD_ROWS);
                rows.push(a);
                proof {
                    let w = s.update(BOARD_ROWS as int, s[i as int]).update(
                        i as int,
                        s[BOARD_ROWS as int],
                    );
                    assert(w.take(BOARD_ROWS + 1) =~= s.take(BOARD_ROWS as int).push(s[i as int]));
                    assert(rows@ =~= s.take(BOARD_ROWS as int).push(s[i as int]));
                }
                return ;
            }
        },
        None => {},
    }
    rows.truncate(BOARD_ROWS);
}

/// The first 15 rows colored: the asking player's row as such, else a
/// supporter's row as such; the rows after them as they were.
pub open spec fn server_colored<T>(
    s: Seq<LeaderboardRow<T>>,
    patrons: Patrons,
    author_uid: Option<u64>,
) -> Seq<LeaderboardRow<T>> {
    Seq::new(
        s.len(),
        |i: int|
            if i >= BOARD_ROWS {
                s[i]
            } else if author_uid == Some(s[i].uid) {
                with_color(s[i], RowColor::Author)
            } else if patrons.has_player(s[i].uid) {
                with_color(s[i], RowColor::Patron)
            } else {
                s[i]
            },
    )
}

/// Colors the first 15 rows of a server's board.
pub fn color_server_rows<T>(
    rows: &mut Vec<LeaderboardRow<T>>,
    patrons: &Patrons,
    author_uid: Option<u64>,
)
    ensures
        final(rows)@ == server_colored(old(rows)@, *patrons, author_uid),
{
    let ghost orig = rows@;
    assert(orig.len() == rows.len());
    let mut src: Vec<LeaderboardRow<T>> = Vec::new();
    std::mem::swap(&mut src, rows);
    let mut out: Vec<LeaderboardRow<T>> = Vec::new();
    let mut k: usize = 0;
    while src.len() > 0
        invariant
            k <= orig.len(),
            orig.len() <= usize::MAX,
            src@ == orig.skip(k as int),
            out@ == server_colored(orig.take(k as int), *patrons, author_uid),
        decreases src@.len(),
    {
        let x = src.remove(0);
        proof {
            assert(x == orig[k as int]);
            assert(src@ =~= orig.skip(k + 1));
        }
        let is_author = match author_uid {
            Some(u) => u == x.uid,
            None => false,
        };
        if k >= BOARD_ROWS {
            out.push(x);
        } else if is_author {
            out.push(
                LeaderboardRow {
                    uid: x.uid,
                    rank: x.rank,
                    color: RowColor::Author,
                    score: x.score,
                    battles: x.battles,
                    stats: x.stats,
                },
            );
        } else if patrons.check_player(&x.uid) {
            out.push(
                LeaderboardRow {
                    uid: x.uid,
                    rank: x.rank,
                    color: RowColor::Patron,
                    score: x.score,
                    battles: x.battles,
                    stats: x.stats,
                },
            );
        } else {
            out.push(x);
        }
        k = k + 1;
        proof {
            assert(out@ =~= server_colored(orig.take(k as int), *patrons, author_uid));
        }
    }
    proof {
        assert(orig.take(k as int) =~= orig);
    }
    *rows = out;
}

/// The fewest battles on a ship that put a member on the server's board.
pub const SERVER_MIN_BATTLES: u64 = 10;

/// A server's board from its members' rows: members with enough battles,
/// ordered, one row per player, ranked, cut and colored.
pub open spec fn server_board_rows<T>(
    s: Seq<LeaderboardRow<T>>,
    patrons: Patrons,
    author_uid: Option<u64>,
) -> Seq<LeaderboardRow<T>> {
    let ordered = ranked(dedup_uid(sorted_by_score(with_min_battles(s, SERVER_MIN_BATTLES))));
    let author = match author_uid {
        Some(u) => uid_index(ordered, u),
        None => None,
    };
    server_colored(server_cut(ordered, author), patrons, author_uid)
}

/// A found row is on the board.
proof fn lemma_uid_index_in<T>(s: Seq<LeaderboardRow<T>>, uid: u64)
    ensures
        uid_index(s, uid) matches Some(i) ==> 0 <= i < s.len() && s[i].uid == uid,
    decreases s.len(),
{
    if s.len() > 0 {
        lemma_uid_index_in(s.drop_first(), uid);
    }
}

/// No player has two rows on a server's board.
pub proof fn lemma_server_board_distinct<T>(
    s: Seq<LeaderboardRow<T>>,
    patrons: Patrons,
    author_uid: Option<u64>,
)
    ensures
        forall|i: int, j: int|
            0 <= i < j < server_board_rows(s, patrons, author_uid).len() ==> #[trigger] server_board_rows(
                s,
                patrons,
                author_uid,
            )[i].uid != #[trigger] server_board_rows(s, patrons, author_uid)[j].uid,
{
    let d = dedup_uid(sorted_by_score(with_min_battles(s, SERVER_MIN_BATTLES)));
    lemma_dedup_uid_distinct(sorted_by_score(with_min_battles(s, SERVER_MIN_BATTLES)));
    let o = ranked(d);
    assert forall|i: int, j: int| 0 <= i < j < o.len() implies #[trigger] o[i].uid != #[trigger] o[j].uid by {
        assert(o[i].uid == d[i].uid && o[j].uid == d[j].uid);
    }
    let author = match author_uid {
        Some(u) => uid_index(o, u),
        None => None,
    };
    if let Some(u) = author_uid {
        lemma_uid_index_in(o, u);
    }
    let c = server_cut(o, author);
    assert forall|i: int, j: int| 0 <= i < j < c.len() implies #[trigger] c[i].uid != #[trigger] c[j].uid by {
        match author {
            Some(a) => {
                if a >= BOARD_ROWS {
                    let t = o.update(BOARD_ROWS as int, o[a]).update(a, o[BOARD_ROWS as int]);
                    let ii = if i == BOARD_ROWS { a } else if i == a { BOARD_ROWS as int } else { i };
                    let jj = if j == BOARD_ROWS { a } else if j == a { BOARD_ROWS as int } else { j };
                    assert(t[i] == o[ii] && t[j] == o[jj]);
                    assert(ii != jj);
                    assert(c[i] == t[i] && c[j] == t[j]);
                    if ii < jj {
                        assert(o[ii].uid != o[jj].uid);
                    } else {
                        assert(o[jj].uid != o[ii].uid);
                    }
                } else {
                    assert(c[i] == o[i] && c[j] == o[j]);
                }
            },
            None => {
                assert(c[i] == o[i] && c[j] == o[j]);
            },
        }
    }
    let r = server_colored(c, patrons, author_uid);
    assert(r == server_board_rows(s, patrons, author_uid));
    assert forall|i: int, j: int| 0 <= i < j < r.len() implies #[trigger] r[i].uid != #[trigger] r[j].uid by {
        assert(r[i].uid == c[i].uid && r[j].uid == c[j].uid);
    }
}

/// The Discord server whose board is asked for; the board only exists in
/// one.
pub fn server_guild(guild_id: Option<u64>) -> (r: Result<u64, IsacError>)
    ensures
        guild_id matches Some(g) ==> r == Ok::<u64, IsacError>(g),
        guild_id is None ==> (r matches Err(IsacError::Info(IsacInfo::GeneralError { msg })) && msg@
            == "Not a server"@),
{
    match guild_id {
        Some(g) => Ok(g),
        None => Err(IsacError::Info(IsacInfo::GeneralError { msg: String::from_str("Not a server") })),
    }
}

/// Builds a server's board from its members' rows.
pub fn server_board<T>(
    rows: &mut Vec<LeaderboardRow<T>>,
    patrons: &Patrons,
    author_uid: Option<u64>,
)
    ensures
        final(rows)@ == server_board_rows(old(rows)@, *patrons, author_uid),
        forall|i: int, j: int|
            0 <= i < j < final(rows)@.len() ==> #[trigger] final(rows)@[i].uid != #[trigger] final(rows)@[j].uid,
{
    proof {
        lemma_server_board_distinct(rows@, *patrons, author_uid);
    }
    keep_min_battles(rows, SERVER_MIN_BATTLES);
    sort_by_score(rows);
    dedup_by_uid(rows);
    assign_ranks(rows);
    let author = match author_uid {
        Some(u) => find_uid(rows, u),
        None => None,
    };
    cut_server_board(rows, author);
    color_server_rows(rows, patrons, author_uid);
}

/// A ship's cached board and when it was fetched, in Unix seconds.
#[derive(Debug, Clone)]
pub struct ShipLeaderboardShip<T> {
    pub players: Vec<LeaderboardRow<T>>,
    pub last_updated_at: u64,
}

/// How long a cached board stays fresh, in seconds.
pub const BOARD_FRESH_SECS: u64 = 3600;

/// Whether a board fetched at `at` is still fresh at `now`. A board fetched
/// after `now` (a clock set back) is of age 0.
pub open spec fn fresh_at(at: u64, now: u64) -> bool {
    let age: int = if now >= at {
        now - at
    } else {
        0
    };
    age <= BOARD_FRESH_SECS
}

/// The cached boards of each server, by ship id.
#[derive(Debug)]
pub struct ShipLeaderboard<T> {
    pub asia: HashMap<u64, ShipLeaderboardShip<T>>,
    pub na: HashMap<u64, ShipLeaderboardShip<T>>,
    pub eu: HashMap<u64, ShipLeaderboardShip<T>>,
}

impl<T> ShipLeaderboard<T> {
    /// The cached boards of a server.
    pub open spec fn boards(self, region: Region) -> Map<u64, ShipLeaderboardShip<T>> {
        match region {
            Region::Asia => self.asia@,
            Region::Na => self.na@,
            Region::Eu => self.eu@,
        }
    }

    /// No board cached.
    pub fn new() -> (r: Self)
        ensures
            forall|region: Region| r.boards(region) == Map::<u64, ShipLeaderboardShip<T>>::empty(),
    {
        ShipLeaderboard { asia: HashMap::new(), na: HashMap::new(), eu: HashMap::new() }
    }

    /// The board of the ship at `now`: a copy of the cached rows, unless
    /// none is cached or, when `timeout_check` is set, the cached one is
    /// stale.
    pub fn get_ship_at(&self, region: &Region, ship_id: &u64, timeout_check: bool, now: u64) -> (r:
        Option<Vec<LeaderboardRow<T>>>) where T: Clone
        ensures
            match r {
                Some(v) => self.boards(*region).contains_key(*ship_id) && (!timeout_check
                    || fresh_at(self.boards(*region)[*ship_id].last_updated_at, now)) && v@.len()
                    == self.boards(*region)[*ship_id].players@.len() && forall|i: int|
                    #![trigger v@[i]]
                    0 <= i < v@.len() ==> cloned::<LeaderboardRow<T>>(
                        self.boards(*region)[*ship_id].players@[i],
                        v@[i],
                    ),
                None => !self.boards(*region).contains_key(*ship_id) || (timeout_check
                    && !fresh_at(self.boards(*region)[*ship_id].last_updated_at, now)),
            },
    {
        proof {
            assert(vstd::std_specs::hash::obeys_key_model::<u64>());
        }
        let m = match region {
            Region::Asia => &self.asia,
            Region::Na => &self.na,
            Region::Eu => &self.eu,
        };
        match m.get(ship_id) {
            Some(ship) => {
                if !timeout_check || now.saturating_sub(ship.last_updated_at) <= BOARD_FRESH_SECS {
                    Some(ship.players.clone())
                } else {
                    None
                }
            },
            None => None,
        }
    }

    /// The board of the ship, checked against the clock when
    /// `timeout_check` is set; with a clock set before the Unix epoch no
    /// board counts as fresh.
    pub fn get_ship(&self, region: &Region, ship_id: &u64, timeout_check: bool) -> (r: Option<
        Vec<LeaderboardRow<T>>,
    >) where T: Clone
        ensures
            r matches Some(v) ==> self.boards(*region).contains_key(*ship_id) && v@.len()
                == self.boards(*region)[*ship_id].players@.len() && forall|i: int|
                #![trigger v@[i]]
                0 <= i < v@.len() ==> cloned::<LeaderboardRow<T>>(
                    self.boards(*region)[*ship_id].players@[i],
                    v@[i],
                ),
            !self.boards(*region).contains_key(*ship_id) ==> r is None,
            !timeout_check && self.boards(*region).contains_key(*ship_id) ==> r is Some,
    {
        if !timeout_check {
            return self.get_ship_at(region, ship_id, false, 0);
        }
        match now_unix_secs() {
            Some(now) => self.get_ship_at(region, ship_id, true, now),
            None => None,
        }
    }

    /// Caches the ship's board, replacing the one cached before.
    pub fn insert(&mut self, region: &Region, ship_id: u64, ship: ShipLeaderboardShip<T>)
        ensures
            final(self).boards(*region) == old(self).boards(*region).insert(ship_id, ship),
            forall|other: Region| other != *region ==> final(self).boards(other) == old(self).boards(other),
    {
        proof {
            assert(vstd::std_specs::hash::obeys_key_model::<u64>());
        }
        match region {
            Region::Asia => {
                self.asia.insert(ship_id, ship);
            },
            Region::Na => {
                self.na.insert(ship_id, ship);
            },
            Region::Eu => {
                self.eu.insert(ship_id, ship);
            },
        }
    }
}

impl<T: Clone> ShipLeaderboard<T> {
    /// Ranks a freshly fetched board by score, keeps it as the ship's board
    /// fetched at `now`, and hands back a copy of the ranked rows.
    pub fn cache_board_at(&mut self, region: &Region, ship_id: u64, rows: Vec<LeaderboardRow<T>>, now: u64) -> (r:
        Vec<LeaderboardRow<T>>)
        ensures
            final(self).boards(*region).contains_key(ship_id),
            final(self).boards(*region)[ship_id].last_updated_at == now,
            final(self).boards(*region)[ship_id].players@ == ranked(sorted_by_score(rows@)),
            forall|k: u64| k != ship_id ==> #[trigger] final(self).boards(*region).contains_key(k)
                == old(self).boards(*region).contains_key(k) && (old(self).boards(*region).contains_key(k)
                ==> final(self).boards(*region)[k] == old(self).boards(*region)[k]),
            forall|other: Region| other != *region ==> final(self).boards(other) == old(self).boards(other),
            r@.len() == rows@.len(),
            forall|i: int| #![trigger r@[i]] 0 <= i < r@.len() ==> cloned::<LeaderboardRow<T>>(
                ranked(sorted_by_score(rows@))[i],
                r@[i],
            ),
    {
        let ghost given = rows@;
        let mut rows = rows;
        rank_by_score(&mut rows);
        proof {
            lemma_sorted_by_score_descending(given);
        }
        let shown = rows.clone();
        self.insert(region, ship_id, ShipLeaderboardShip { players: rows, last_updated_at: now });
        shown
    }

    /// Ranks and keeps a freshly fetched board, fetched now by the clock;
    /// with a clock set before the Unix epoch it is kept as fetched at 0.
    pub fn cache_board(&mut self, region: &Region, ship_id: u64, rows: Vec<LeaderboardRow<T>>) -> (r:
        Vec<LeaderboardRow<T>>)
        ensures
            final(self).boards(*region).contains_key(ship_id),
            final(self).boards(*region)[ship_id].players@ == ranked(sorted_by_score(rows@)),
            forall|other: Region| other != *region ==> final(self).boards(other) == old(self).boards(other),
            r@.len() == rows@.len(),
            forall|i: int| #![trigger r@[i]] 0 <= i < r@.len() ==> cloned::<LeaderboardRow<T>>(
                ranked(sorted_by_score(rows@))[i],
                r@[i],
            ),
    {
        let now = match now_unix_secs() {
            Some(t) => t,
            None => 0,
        };
        self.cache_board_at(region, ship_id, rows, now)
    }
}

/// The boards of the Kokomi service are cached the same way.
pub type KokomiShipLeaderboard<T> = ShipLeaderboard<T>;

/// The token the Kokomi service asks for, or the error that it is not set.
pub fn kokomi_token(token: Option<String>) -> (r: Result<String, IsacError>)
    ensures
        token matches Some(t) ==> (r matches Ok(x) && x@ == t@),
        token is None ==> (r matches Err(IsacError::Info(IsacInfo::GeneralError { msg })) && msg@
            == "Kokomi API token not set in env"@),
{
    match token {
        Some(t) => Ok(t),
        None => Err(
            IsacError::Info(
                IsacInfo::GeneralError { msg: String::from_str("Kokomi API token not set in env") },
            ),
        ),
    }
}

/// Checks the Kokomi service's status: anything but `"ok"` is an error that
/// carries the service's message, or says the error is unknown.
pub fn kokomi_status(status: Option<&str>, message: Option<&str>) -> (r: Result<(), IsacError>)
    ensures
        (status matches Some(s) && s@ == "ok"@) ==> r is Ok,
        !(status matches Some(s) && s@ == "ok"@) ==> (r matches Err(
            IsacError::Info(IsacInfo::GeneralError { msg }),
        ) && msg@ == "Kokomi API error: "@ + match message {
            Some(m) => m@,
            None => "Unknown error"@,
        }),
{
    let ok = match status {
        Some(s) => crate::text::str_equals(s, "ok"),
        None => false,
    };
    if ok {
        Ok(())
    } else {
        let mut msg = String::from_str("Kokomi API error: ");
        match message {
            Some(m) => msg.append(m),
            None => msg.append("Unknown error"),
        }
        Err(IsacError::Info(IsacInfo::GeneralError { msg }))
    }
}

/// The error when the service has no board for the ship.
pub fn empty_board_error(ship_name: &str) -> (r: IsacError)
    ensures
        r matches IsacError::Info(IsacInfo::GeneralError { msg }) && msg@
            == "No one on the leaderboard of `"@ + ship_name@ + "` yet"@,
{
    let mut msg = String::from_str("No one on the leaderboard of `");
    msg.append(ship_name);
    msg.append("` yet");
    IsacError::Info(IsacInfo::GeneralError { msg })
}

/// A clan tag as a board row shows it: in square brackets, or nothing.
pub fn bracketed_tag(tag: Option<&str>) -> (r: String)
    ensures
        tag matches Some(t) ==> r@ == "["@ + t@ + "]"@,
        tag is None ==> r@.len() == 0,
{
    match tag {
        Some(t) => {
            let mut s = String::from_str("[");
            s.append(t);
            s.append("]");
            s
        },
        None => String::new(),
    }
}

/// A board row's player name, or `Unknown` when the service gives none.
pub fn kokomi_ign(username: Option<&str>) -> (r: String)
    ensures
        username matches Some(u) ==> r@ == u@,
        username is None ==> r@ == "Unknown"@,
{
    match username {
        Some(u) => String::from_str(u),
        None => String::from_str("Unknown"),
    }
}

/// The asking player's row is always on the shown board, marked: at its
/// own place among the first 15 rows, else as the 16th row.
pub proof fn lemma_board_shows_author<T>(s: Seq<LeaderboardRow<T>>, i: int)
    requires
        0 <= i < s.len(),
        i >= BOARD_ROWS ==> BOARD_ROWS + 1 < s.len(),
    ensures
        ({
            let b = board_cut(s, Some(i));
            let pos = if i < BOARD_ROWS {
                i
            } else {
                BOARD_ROWS as int
            };
            &&& pos < b.len()
            &&& b[pos] == with_color(s[i], RowColor::Author)
            &&& b.len() <= BOARD_ROWS + 1
        }),
{
    let h = s.update(i, with_color(s[i], RowColor::Author));
    if i >= BOARD_ROWS {
        h.remove_ensures(i);
    }
}

/// On a server's board the asking player's row is always shown: at its own
/// place among the first 15 rows, else as the 16th row.
pub proof fn lemma_server_board_shows_author<T>(s: Seq<LeaderboardRow<T>>, i: int)
    requires
        0 <= i < s.len(),
    ensures
        ({
            let b = server_cut(s, Some(i));
            let pos = if i < BOARD_ROWS {
                i
            } else {
                BOARD_ROWS as int
            };
            &&& pos < b.len()
            &&& b[pos] == s[i]
            &&& b.len() <= BOARD_ROWS + 1
        }),
{
}

/// Ranking numbers the rows 1, 2, 3... and changes nothing else.
pub proof fn lemma_ranked_numbers<T>(s: Seq<LeaderboardRow<T>>)
    requires
        s.len() <= usize::MAX,
    ensures
        ranked(s).len() == s.len(),
        forall|i: int|
            0 <= i < s.len() ==> (#[trigger] ranked(s)[i]).rank == i + 1 && ranked(s)[i].uid
                == s[i].uid && ranked(s)[i].score == s[i].score && ranked(s)[i].stats == s[i].stats,
{
}

proof fn lemma_uid_index_some<T>(s: Seq<LeaderboardRow<T>>, uid: u64, j: int)
    requires
        0 <= j < s.len(),
        s[j].uid == uid,
    ensures
        uid_index(s, uid) is Some,
    decreases j,
{
    if s[0].uid != uid {
        lemma_uid_index_some(s.drop_first(), uid, j - 1);
    }
}

/// A row that beats the last row of the board ends up on it: after placing
/// it, the board holds a row of that player.
pub proof fn lemma_placed_author_found<T>(s: Seq<LeaderboardRow<T>>, row: LeaderboardRow<T>)
    requires
        beats_last(s, row.score),
        s.len() < usize::MAX,
    ensures
        uid_index(placed(s, row), row.uid) is Some,
{
    let t = s.push(row);
    lemma_sorted_by_score_permutes(t);
    lemma_sorted_by_score_descending(t);
    let o = sorted_by_score(t);
    assert(t[t.len() - 1] == row);
    assert(t.contains(row));
    assert(t.to_multiset().count(row) > 0);
    assert(o.to_multiset().count(row) > 0);
    assert(o.contains(row));
    let j = choose|j: int| 0 <= j < o.len() && o[j] == row;
    assert(ranked(o)[j].uid == row.uid);
    lemma_uid_index_some(ranked(o), row.uid, j);
}

} // verus!
