//! Reading the statistics site's pages: the links, numbers and dates in
//! them, the clans a player was in and the player's rename history.
use crate::args::{plain_words, split_whitespace};
use crate::error::{IsacError, IsacInfo};
use crate::text::{
    decimal_text, is_white_space, is_whitespace, parse_u64, parse_u64_spec, text_less, text_lt,
    u64_to_text,
};
use vstd::prelude::*;

verus! {

/// What `regex::Regex::new(pattern)` and then `captures(text)` give: `None`
/// when the pattern does not compile or finds no match; else the text of
/// each group of the leftmost match, `None` for a group that took no part.
pub uninterp spec fn regex_groups(pattern: Seq<char>, text: Seq<char>) -> Option<
    Seq<Option<Seq<char>>>,
>;

/// The groups as texts.
pub open spec fn groups_view(r: Option<Vec<Option<String>>>) -> Option<Seq<Option<Seq<char>>>> {
    match r {
        Some(v) => Some(
            v@.map_values(
                |g: Option<String>|
                    match g {
                        Some(s) => Some(s@),
                        None => None,
                    },
            ),
        ),
        None => None,
    }
}

/// Runs `regex::Regex::new(pattern)` and `captures(text)`, handing back each
/// group's text.
#[verifier::external_body]
fn captures(pattern: &str, text: &str) -> (r: Option<Vec<Option<String>>>)
    ensures
        groups_view(r) == regex_groups(pattern@, text@),
{
    match regex::Regex::new(pattern) {
        Ok(re) => re.captures(text).map(
            |c| c.iter().map(|m| m.map(|x| x.as_str().to_string())).collect(),
        ),
        Err(_) => None,
    }
}

/// The text of group `i`, if the pattern matched and the group took part.
pub open spec fn group_of(g: Option<Seq<Option<Seq<char>>>>, i: int) -> Option<Seq<char>> {
    match g {
        Some(v) => if 0 <= i < v.len() {
            v[i]
        } else {
            None
        },
        None => None,
    }
}

fn group_at(r: &Option<Vec<Option<String>>>, i: usize) -> (t: Option<String>)
    ensures
        match t {
            Some(x) => group_of(groups_view(*r), i as int) == Some(x@),
            None => group_of(groups_view(*r), i as int) is None,
        },
{
    match r {
        Some(v) => if i < v.len() {
            match &v[i] {
                Some(s) => Some(s.clone()),
                None => None,
            }
        } else {
            None
        },
        None => None,
    }
}

/// The pattern of a clan link.
pub open spec fn clan_link_pattern() -> Seq<char> {
    "/clan/(\\d+),"@
}

/// The pattern of a player link.
pub open spec fn player_link_pattern() -> Seq<char> {
    "/player/(\\d+),"@
}

/// The pattern of a player link with the player's name.
pub open spec fn player_name_pattern() -> Seq<char> {
    "/player/(\\d+),([^/]+)/"@
}

/// The pattern of a color code.
pub open spec fn color_pattern() -> Seq<char> {
    "#[a-zA-Z\\d]{6}"@
}

/// The number that group `i` of a match writes, if it is a `u64`.
pub open spec fn group_u64(g: Option<Seq<Option<Seq<char>>>>, i: int) -> Option<u64> {
    match group_of(g, i) {
        Some(t) => parse_u64_spec(t),
        None => None,
    }
}

/// The clan id in a clan link such as `/clan/2000004,PANTS/`.
pub fn clan_uid_of(href: &str) -> (r: Option<u64>)
    ensures
        r == group_u64(regex_groups(clan_link_pattern(), href@), 1),
{
    let g = captures("/clan/(\\d+),", href);
    match group_at(&g, 1) {
        Some(t) => parse_u64(t.as_str()),
        None => None,
    }
}

/// The player id in a player link such as `/player/2022515210,B2U/`.
pub fn player_uid_of(href: &str) -> (r: Option<u64>)
    ensures
        r == group_u64(regex_groups(player_link_pattern(), href@), 1),
{
    let g = captures("/player/(\\d+),", href);
    match group_at(&g, 1) {
        Some(t) => parse_u64(t.as_str()),
        None => None,
    }
}

/// The id in a player link with a name: 0 when it is no `u64` or the link
/// is no such link.
pub open spec fn link_uid(href: Seq<char>) -> u64 {
    let g = regex_groups(player_name_pattern(), href);
    match (group_of(g, 1), group_of(g, 2)) {
        (Some(_), Some(_)) => match group_u64(g, 1) {
            Some(u) => u,
            None => 0,
        },
        _ => 0,
    }
}

/// The name in a player link, `---` when the link is no player link.
pub open spec fn link_ign(href: Seq<char>) -> Seq<char> {
    let g = regex_groups(player_name_pattern(), href);
    match (group_of(g, 1), group_of(g, 2)) {
        (Some(_), Some(name)) => name,
        _ => "---"@,
    }
}

/// A player link's id and name: the id 0 when it is no `u64`; `(0, "---")`
/// when the link is not a player link.
pub fn player_link(href: &str) -> (r: (u64, String))
    ensures
        r.0 == link_uid(href@),
        r.1@ == link_ign(href@),
{
    let g = captures("/player/(\\d+),([^/]+)/", href);
    match (group_at(&g, 1), group_at(&g, 2)) {
        (Some(uid), Some(name)) => {
            let u = match parse_u64(uid.as_str()) {
                Some(u) => u,
                None => 0,
            };
            (u, name)
        },
        _ => (0, String::from_str("---")),
    }
}

/// The first color code in a style, such as `#02C9B3`.
pub fn color_code_of(style: &str) -> (r: Option<String>)
    ensures
        match r {
            Some(c) => group_of(regex_groups(color_pattern(), style@), 0) == Some(c@),
            None => group_of(regex_groups(color_pattern(), style@), 0) is None,
        },
{
    let g = captures("#[a-zA-Z\\d]{6}", style);
    group_at(&g, 0)
}

/// The text with its white space and `%` signs taken out.
pub open spec fn stat_chars(s: Seq<char>) -> Seq<char>
    decreases s.len(),
{
    if s.len() == 0 {
        s
    } else {
        let p = stat_chars(s.drop_last());
        if is_white_space(s.last()) || s.last() == '%' {
            p
        } else {
            p.push(s.last())
        }
    }
}

/// A statistic's text as the board shows it, such as `57.1` for ` 57.1 %`.
pub fn stat_text(s: &str) -> (r: String)
    ensures
        r@ == stat_chars(s@),
{
    let n = s.unicode_len();
    let mut out = String::new();
    let mut i: usize = 0;
    while i < n
        invariant
            i <= n,
            n == s@.len(),
            out@ == stat_chars(s@.take(i as int)),
        decreases n - i,
    {
        proof {
            assert(s@.take(i + 1).drop_last() =~= s@.take(i as int));
        }
        let c = s.get_char(i);
        if !(is_whitespace(c) || c == '%') {
            out.append(s.substring_char(i, i + 1));
        }
        i = i + 1;
        proof {
            assert(out@ =~= stat_chars(s@.take(i as int)));
        }
    }
    proof {
        assert(s@.take(i as int) =~= s@);
    }
    out
}

/// The text with its spaces taken out.
pub open spec fn without_spaces(s: Seq<char>) -> Seq<char>
    decreases s.len(),
{
    if s.len() == 0 {
        s
    } else {
        let p = without_spaces(s.drop_last());
        if s.last() == ' ' {
            p
        } else {
            p.push(s.last())
        }
    }
}

/// A battle count as the board writes it, such as `1 234`; `None` where it
/// is no `u64`.
pub fn battles_of(s: &str) -> (r: Option<u64>)
    ensures
        r == parse_u64_spec(without_spaces(s@)),
{
    let n = s.unicode_len();
    let mut out = String::new();
    let mut i: usize = 0;
    while i < n
        invariant
            i <= n,
            n == s@.len(),
            out@ == without_spaces(s@.take(i as int)),
        decreases n - i,
    {
        proof {
            assert(s@.take(i + 1).drop_last() =~= s@.take(i as int));
        }
        if s.get_char(i) != ' ' {
            out.append(s.substring_char(i, i + 1));
        }
        i = i + 1;
        proof {
            assert(out@ =~= without_spaces(s@.take(i as int)));
        }
    }
    proof {
        assert(s@.take(i as int) =~= s@);
    }
    parse_u64(out.as_str())
}

/// A statistic of a board row: its text and its color code.
#[derive(Debug, Clone)]
pub struct BoardStat {
    pub value: String,
    pub color: String,
}

/// A row of a ship's board on the statistics site.
#[derive(Debug, Clone)]
pub struct NumberRow {
    pub rank: u64,
    pub clan: String,
    pub uid: u64,
    pub ign: String,
    pub battles: u64,
    pub pr: BoardStat,
    pub winrate: BoardStat,
    pub frags: BoardStat,
    pub dmg: BoardStat,
    pub planes: BoardStat,
}

/// The texts of a board row's cells: the rank; each link of the player cell
/// as its text and target; the battles; and the style and text of the
/// personal rating, win rate, frags, damage and planes cells, in this order.
#[derive(Debug, Clone)]
pub struct NumberCells {
    pub rank_text: String,
    pub links: Vec<(String, String)>,
    pub battles_text: String,
    pub stats: Vec<(String, String)>,
}

/// The color code a style holds, if any.
pub open spec fn style_color(style: Seq<char>) -> Option<Seq<char>> {
    group_of(regex_groups(color_pattern(), style), 0)
}

/// Whether a row can be read: the player cell has a link, the battles are a
/// number and each of the five statistics has a color.
pub open spec fn cells_readable(c: NumberCells) -> bool {
    &&& c.links@.len() > 0
    &&& parse_u64_spec(without_spaces(c.battles_text@)) is Some
    &&& c.stats@.len() >= 5
    &&& forall|i: int| 0 <= i < 5 ==> (#[trigger] style_color(c.stats@[i].0@)) is Some
}

/// Whether `b` is the statistic of a cell with this style and text.
pub open spec fn is_board_stat(b: BoardStat, cell: (String, String)) -> bool {
    &&& b.value@ == stat_chars(cell.1@)
    &&& style_color(cell.0@) == Some(b.color@)
}

/// Whether `r` is what a readable row's cells say: the rank, 0 when it is no
/// number; the clan from the first of two links, else none; the player from
/// the last of two links, else the first; the battles; the statistics.
pub open spec fn is_number_row(c: NumberCells, r: NumberRow) -> bool {
    let two = c.links@.len() == 2;
    let href = if two { c.links@[1].1@ } else { c.links@[0].1@ };
    &&& r.rank == match parse_u64_spec(c.rank_text@) {
        Some(n) => n,
        None => 0,
    }
    &&& r.clan@ == if two { c.links@[0].0@ } else { Seq::empty() }
    &&& r.uid == link_uid(href)
    &&& r.ign@ == link_ign(href)
    &&& Some(r.battles) == parse_u64_spec(without_spaces(c.battles_text@))
    &&& is_board_stat(r.pr, c.stats@[0])
    &&& is_board_stat(r.winrate, c.stats@[1])
    &&& is_board_stat(r.frags, c.stats@[2])
    &&& is_board_stat(r.dmg, c.stats@[3])
    &&& is_board_stat(r.planes, c.stats@[4])
}

fn board_stat(cell: &(String, String)) -> (r: Option<BoardStat>)
    ensures
        match r {
            Some(b) => is_board_stat(b, *cell),
            None => style_color(cell.0@) is None,
        },
{
    match color_code_of(cell.0.as_str()) {
        Some(color) => Some(BoardStat { value: stat_text(cell.1.as_str()), color }),
        None => None,
    }
}

/// Reads a board row from its cells' texts.
pub fn number_row_of(c: &NumberCells) -> (r: NumberRow)
    requires
        cells_readable(*c),
    ensures
        is_number_row(*c, r),
{
    let rank = match parse_u64(c.rank_text.as_str()) {
        Some(n) => n,
        None => 0,
    };
    let two = c.links.len() == 2;
    let clan = if two {
        c.links[0].0.clone()
    } else {
        String::new()
    };
    let href = if two {
        c.links[1].1.as_str()
    } else {
        c.links[0].1.as_str()
    };
    let (uid, ign) = player_link(href);
    let battles = match battles_of(c.battles_text.as_str()) {
        Some(b) => b,
        None => 0,
    };
    assert(style_color(c.stats@[0].0@) is Some);
    assert(style_color(c.stats@[1].0@) is Some);
    assert(style_color(c.stats@[2].0@) is Some);
    assert(style_color(c.stats@[3].0@) is Some);
    assert(style_color(c.stats@[4].0@) is Some);
    let pr = board_stat(&c.stats[0]).unwrap();
    let winrate = board_stat(&c.stats[1]).unwrap();
    let frags = board_stat(&c.stats[2]).unwrap();
    let dmg = board_stat(&c.stats[3]).unwrap();
    let planes = board_stat(&c.stats[4]).unwrap();
    NumberRow { rank, clan, uid, ign, battles, pr, winrate, frags, dmg, planes }
}

/// Reads a board row from its cells' texts; `None` when the row cannot be
/// read (see `cells_readable`).
pub fn number_row(c: &NumberCells) -> (r: Option<NumberRow>)
    ensures
        cells_readable(*c) ==> (r matches Some(x) && is_number_row(*c, x)),
        !cells_readable(*c) ==> r is None,
{
    if c.links.len() == 0 || c.stats.len() < 5 {
        return None;
    }
    if battles_of(c.battles_text.as_str()).is_none() {
        return None;
    }
    let mut i: usize = 0;
    while i < 5
        invariant
            i <= 5,
            c.stats@.len() >= 5,
            forall|j: int| 0 <= j < i ==> (#[trigger] style_color(c.stats@[j].0@)) is Some,
        decreases 5 - i,
    {
        if color_code_of(c.stats[i].0.as_str()).is_none() {
            assert(style_color(c.stats@[i as int].0@) is None);
            return None;
        }
        i = i + 1;
    }
    Some(number_row_of(c))
}

/// Which table of the transfers section holds the player's clans: the only
/// one, or the second of two; no table means no history, more than two that
/// the page was not understood.
pub fn transfer_table(n: usize) -> (r: Result<usize, IsacError>)
    ensures
        n == 0 ==> (r matches Err(IsacError::Info(IsacInfo::GeneralError { msg })) && msg@
            == "No transfer history"@),
        n == 1 ==> r == Ok::<usize, IsacError>(0),
        n == 2 ==> r == Ok::<usize, IsacError>(1),
        n > 2 ==> (r matches Err(IsacError::Info(IsacInfo::GeneralError { msg })) && msg@
            == "Parsing failed, tables.len() = "@ + decimal_text(n as nat)),
{
    if n == 0 {
        Err(IsacError::Info(IsacInfo::GeneralError { msg: String::from_str("No transfer history") }))
    } else if n == 1 {
        Ok(0)
    } else if n == 2 {
        Ok(1)
    } else {
        let mut msg = String::from_str("Parsing failed, tables.len() = ");
        msg.append(u64_to_text(n as u64).as_str());
        Err(IsacError::Info(IsacInfo::GeneralError { msg }))
    }
}

/// A clan's tag as a transfers table cell shows it: its first word, or
/// `[]` when it has none.
pub fn clan_name_of(inner_html: &str) -> (r: String)
    ensures
        plain_words(inner_html@).len() > 0 ==> r@ == plain_words(inner_html@)[0],
        plain_words(inner_html@).len() == 0 ==> r@ == "[]"@,
{
    let mut w = split_whitespace(inner_html);
    if w.len() > 0 {
        w.remove(0)
    } else {
        String::from_str("[]")
    }
}

/// The clans a player was in: one entry per clan id, ids increasing, each
/// with the smallest of the tags seen for it.
pub open spec fn clan_records_hold(input: Seq<(u64, String)>, r: Seq<(u64, String)>) -> bool {
    &&& forall|i: int, j: int| 0 <= i < j < r.len() ==> r[i].0 < r[j].0
    &&& forall|i: int| 0 <= i < r.len() ==> input.contains(#[trigger] r[i])
    &&& records_cover(input, r, input.len() as int)
}

/// Every one of the first `k` entries has an entry of its id whose tag is
/// not greater.
pub open spec fn records_cover(input: Seq<(u64, String)>, r: Seq<(u64, String)>, k: int) -> bool {
    forall|m: int|
        0 <= m < k ==> exists|i: int|
            0 <= i < r.len() && r[i].0 == (#[trigger] input[m]).0 && !text_lt(input[m].1@, r[i].1@)
}

/// Orders the clans by id and keeps one entry per id, the one with the
/// smallest tag, as sorting the pairs and dropping repeated ids does.
pub fn clan_records(input: &Vec<(u64, String)>) -> (r: Vec<(u64, String)>)
    ensures
        clan_records_hold(input@, r@),
{
    let mut out: Vec<(u64, String)> = Vec::new();
    let mut k: usize = 0;
    while k < input.len()
        invariant
            k <= input@.len(),
            forall|i: int, j: int| 0 <= i < j < out@.len() ==> out@[i].0 < out@[j].0,
            forall|i: int| 0 <= i < out@.len() ==> input@.contains(#[trigger] out@[i]),
            records_cover(input@, out@, k as int),
        decreases input@.len() - k,
    {
        let uid = input[k].0;
        let mut j: usize = 0;
        while j < out.len() && out[j].0 < uid
            invariant
                j <= out@.len(),
                forall|m: int| 0 <= m < j ==> out@[m].0 < uid,
            decreases out@.len() - j,
        {
            j = j + 1;
        }
        let ghost before = out@;
        proof {
            assert(input@.contains(input@[k as int]));
        }
        if j < out.len() && out[j].0 == uid {
            if text_less(input[k].1.as_str(), out[j].1.as_str()) {
                let e = (uid, input[k].1.clone());
                proof {
                    assert(e == input@[k as int]);
                }
                out.set(j, e);
                proof {
                    assert forall|m: int| 0 <= m < k + 1 implies exists|i: int|
                        0 <= i < out@.len() && out@[i].0 == (#[trigger] input@[m]).0 && !text_lt(
                            input@[m].1@,
                            out@[i].1@,
                        ) by {
                        if m == k {
                            crate::text::lemma_text_lt_irreflexive(input@[m].1@);
                            assert(out@[j as int] == input@[m]);
                        } else {
                            let i = choose|i: int|
                                0 <= i < before.len() && before[i].0 == input@[m].0 && !text_lt(
                                    input@[m].1@,
                                    before[i].1@,
                                );
                            if i == j {
                                if text_lt(input@[m].1@, input@[k as int].1@) {
                                    crate::text::lemma_text_lt_transitive(
                                        input@[m].1@,
                                        input@[k as int].1@,
                                        before[i].1@,
                                    );
                                }
                                assert(out@[i].0 == input@[m].0);
                            } else {
                                assert(out@[i] == before[i]);
                            }
                        }
                    }
                    assert forall|i: int| 0 <= i < out@.len() implies input@.contains(
                        #[trigger] out@[i],
                    ) by {
                        if i != j {
                            assert(out@[i] == before[i]);
                        }
                    }
                }
            } else {
                proof {
                    assert forall|m: int| 0 <= m < k + 1 implies exists|i: int|
                        0 <= i < out@.len() && out@[i].0 == (#[trigger] input@[m]).0 && !text_lt(
                            input@[m].1@,
                            out@[i].1@,
                        ) by {
                        if m == k {
                            assert(out@[j as int].0 == input@[m].0);
                        }
                    }
                }
            }
        } else {
            let e = (uid, input[k].1.clone());
            proof {
                assert(e == input@[k as int]);
            }
            out.insert(j, e);
            proof {
                before.insert_ensures(j as int, e);
                assert forall|a: int, b: int| 0 <= a < b < out@.len() implies out@[a].0
                    < out@[b].0 by {
                    if a < j && b < j {
                    } else if a < j && b == j {
                    } else if a < j {
                        assert(out@[b] == before[b - 1]);
                    } else if a == j {
                        assert(out@[b] == before[b - 1]);
                    } else {
                        assert(out@[a] == before[a - 1]);
                        assert(out@[b] == before[b - 1]);
                    }
                }
                assert forall|i: int| 0 <= i < out@.len() implies input@.contains(
                    #[trigger] out@[i],
                ) by {
                    if i < j {
                        assert(out@[i] == before[i]);
                    } else if i > j {
                        assert(out@[i] == before[i - 1]);
                    }
                }
                assert forall|m: int| 0 <= m < k + 1 implies exists|i: int|
                    0 <= i < out@.len() && out@[i].0 == (#[trigger] input@[m]).0 && !text_lt(
                        input@[m].1@,
                        out@[i].1@,
                    ) by {
                    if m == k {
                        crate::text::lemma_text_lt_irreflexive(input@[m].1@);
                        assert(out@[j as int] == input@[m]);
                    } else {
                        let i = choose|i: int|
                            0 <= i < before.len() && before[i].0 == input@[m].0 && !text_lt(
                                input@[m].1@,
                                before[i].1@,
                            );
                        if i < j {
                            assert(out@[i] == before[i]);
                        } else {
                            assert(out@[i + 1] == before[i]);
                        }
                    }
                }
            }
        }
        k = k + 1;
    }
    out
}

/// What chrono's `NaiveDate::parse_from_str(s, "%d.%m.%Y")` reads from a
/// text: the day as `num_days_from_ce` counts it and the date written with
/// `format("%Y.%m.%d")`; `None` where the text does not parse.
pub uninterp spec fn dmy_date(s: Seq<char>) -> Option<(i32, Seq<char>)>;

/// Reads a date such as `31.12.2019` with chrono.
#[verifier::external_body]
fn parse_dmy(s: &str) -> (r: Option<(i32, String)>)
    ensures
        match r {
            Some((d, t)) => dmy_date(s@) == Some((d, t@)),
            None => dmy_date(s@) is None,
        },
{
    chrono::NaiveDate::parse_from_str(s, "%d.%m.%Y").ok().map(
        |d| (chrono::Datelike::num_days_from_ce(&d), d.format("%Y.%m.%d").to_string()),
    )
}

/// Why a row of a clan's transfers could not be read.
#[derive(Debug, Clone, Copy, PartialEq, Eq, Structural)]
pub enum RenameFault {
    /// The player cell links to no player.
    NoPlayerLink,
    /// The player link's id is no `u64`.
    BadUid,
    /// The date does not read as `day.month.year`.
    BadDate,
}

/// A row of a clan's transfers: the player's name on that date, for the
/// player asked about; other players' rows are skipped.
pub fn rename_entry(player_href: &str, player_uid: u64, date_text: &str, ign: &str) -> (r: Result<
    Option<(i32, String, String)>,
    RenameFault,
>)
    ensures
        ({
            let g = regex_groups(player_link_pattern(), player_href@);
            match group_of(g, 1) {
                None => r == Err::<Option<(i32, String, String)>, RenameFault>(
                    RenameFault::NoPlayerLink,
                ),
                Some(t) => match parse_u64_spec(t) {
                    None => r == Err::<Option<(i32, String, String)>, RenameFault>(
                        RenameFault::BadUid,
                    ),
                    Some(u) => if u != player_uid {
                        r matches Ok(None)
                    } else {
                        match dmy_date(date_text@) {
                            None => r == Err::<Option<(i32, String, String)>, RenameFault>(
                                RenameFault::BadDate,
                            ),
                            Some((d, text)) => r matches Ok(Some((d2, t2, n2))) && d2 == d && t2@
                                == text && n2@ == ign@,
                        }
                    },
                },
            }
        }),
{
    let g = captures("/player/(\\d+),", player_href);
    let t = match group_at(&g, 1) {
        Some(t) => t,
        None => {
            return Err(RenameFault::NoPlayerLink);
        },
    };
    let u = match parse_u64(t.as_str()) {
        Some(u) => u,
        None => {
            return Err(RenameFault::BadUid);
        },
    };
    if u != player_uid {
        return Ok(None);
    }
    match parse_dmy(date_text) {
        Some((d, text)) => Ok(Some((d, text, String::from_str(ign)))),
        None => Err(RenameFault::BadDate),
    }
}

/// A name the player had in a clan, and when.
#[derive(Debug, Clone)]
pub struct HistoryEntry {
    /// The day, as `num_days_from_ce` counts it.
    pub day: i32,
    /// The date as the history writes it.
    pub date: String,
    pub ign: String,
    pub clan_tag: String,
}

/// The entries keyed so that the earliest day comes first.
pub open spec fn history_keyed(s: Seq<HistoryEntry>) -> Seq<(u128, HistoryEntry)> {
    Seq::new(s.len(), |i: int| ((0x7fff_ffff - s[i].day) as u128, s[i]))
}

/// The history's lines, one per entry: name, clan tag and date.
pub open spec fn history_lines(s: Seq<(u128, HistoryEntry)>) -> Seq<char>
    decreases s.len(),
{
    if s.len() == 0 {
        Seq::empty()
    } else {
        history_lines(s.drop_last()) + s.last().1.ign@ + " "@ + s.last().1.clan_tag@ + ", "@
            + s.last().1.date@ + "\n"@
    }
}

/// The rename history: the entries from the earliest day on (entries of one
/// day in the order given), in a code block.
pub open spec fn history_text_of(s: Seq<HistoryEntry>) -> Seq<char> {
    "```py\n"@ + history_lines(crate::order::sorted_desc(history_keyed(s))) + "\n```"@
}

/// Writes the rename history.
pub fn history_text(entries: Vec<HistoryEntry>) -> (r: String)
    ensures
        r@ == history_text_of(entries@),
{
    let ghost orig = entries@;
    let mut src = entries;
    let mut keyed: Vec<(u128, HistoryEntry)> = Vec::new();
    let mut k: usize = 0;
    assert(orig.len() == src.len());
    while src.len() > 0
        invariant
            k <= orig.len(),
            orig.len() <= usize::MAX,
            src@ == orig.skip(k as int),
            keyed@ == history_keyed(orig.take(k as int)),
        decreases src@.len(),
    {
        let e = src.remove(0);
        proof {
            assert(e == orig[k as int]);
            assert(src@ =~= orig.skip(k + 1));
        }
        let key: u128 = (0x7fff_ffffi64 - e.day as i64) as u128;
        keyed.push((key, e));
        k = k + 1;
        proof {
            assert(keyed@ =~= history_keyed(orig.take(k as int)));
        }
    }
    proof {
        assert(orig.take(k as int) =~= orig);
    }
    crate::order::sort_desc(&mut keyed);
    let ghost all = keyed@;
    let mut out = String::from_str("```py\n");
    let mut i: usize = 0;
    proof {
        reveal_strlit("```py\n");
        assert(all.take(0) =~= Seq::<(u128, HistoryEntry)>::empty());
    }
    while i < keyed.len()
        invariant
            i <= keyed@.len(),
            keyed@ == all,
            out@ == "```py\n"@ + history_lines(all.take(i as int)),
        decreases keyed@.len() - i,
    {
        proof {
            assert(all.take(i + 1).drop_last() =~= all.take(i as int));
        }
        out.append(keyed[i].1.ign.as_str());
        out.append(" ");
        out.append(keyed[i].1.clan_tag.as_str());
        out.append(", ");
        out.append(keyed[i].1.date.as_str());
        out.append("\n");
        i = i + 1;
        proof {
            assert(out@ =~= "```py\n"@ + history_lines(all.take(i as int)));
        }
    }
    proof {
        assert(all.take(i as int) =~= all);
    }
    out.append("\n```");
    out
}

} // verus!
