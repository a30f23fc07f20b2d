//! The colours that rate a statistic, from "Bad" to "Super Unicum".
use crate::args::{trim_quotes, trim_quotes_str};
use crate::error::IsacError;
use crate::text::str_equals;
use vstd::prelude::*;

verus! {

#[derive(Debug, Clone, Copy, PartialEq, Eq, Structural)]
pub enum ColorStats {
    SuperUnicum,
    Unicum,
    Great,
    VeryGood,
    Good,
    Average,
    BelowAverage,
    Bad,
    Grey,
    White,
}

/// The rating that a hex colour code names, as the statistics site writes them.
/// `#A00DC5` is the site's other shade of "Super Unicum".
pub open spec fn color_of_code(t: Seq<char>) -> Option<ColorStats> {
    if t == seq!['#', '9', 'D', '4', '2', 'F', '3'] || t == seq!['#', 'A', '0', '0', 'D', 'C', '5'] {
        Some(ColorStats::SuperUnicum)
    } else if t == seq!['#', 'D', '0', '4', '2', 'F', '3'] {
        Some(ColorStats::Unicum)
    } else if t == seq!['#', '0', '2', 'C', '9', 'B', '3'] {
        Some(ColorStats::Great)
    } else if t == seq!['#', '3', '1', '8', '0', '0', '0'] {
        Some(ColorStats::VeryGood)
    } else if t == seq!['#', '4', '4', 'B', '3', '0', '0'] {
        Some(ColorStats::Good)
    } else if t == seq!['#', 'F', 'F', 'C', '7', '1', 'F'] {
        Some(ColorStats::Average)
    } else if t == seq!['#', 'F', 'E', '7', '9', '0', '3'] {
        Some(ColorStats::BelowAverage)
    } else if t == seq!['#', 'F', 'E', '0', 'E', '0', '0'] {
        Some(ColorStats::Bad)
    } else {
        None
    }
}

impl ColorStats {
    /// Reads a colour code, ignoring double quotes around it.
    pub fn parse(s: &str) -> (r: Result<ColorStats, IsacError>)
        ensures
            color_of_code(trim_quotes(s@)) matches Some(c) ==> (r matches Ok(x) && x == c),
            color_of_code(trim_quotes(s@)) is None ==> (r matches Err(IsacError::UnknownError(m))
                && m@ == seq!['U', 'n', 'k', 'n', 'o', 'w', 'n', ' ', 'v', 'a', 'l', 'u', 'e']),
    {
        let t = trim_quotes_str(s);
        let t = t.as_str();
        proof {
            reveal_strlit("#9D42F3");
            reveal_strlit("#A00DC5");
            reveal_strlit("#D042F3");
            reveal_strlit("#02C9B3");
            reveal_strlit("#318000");
            reveal_strlit("#44B300");
            reveal_strlit("#FFC71F");
            reveal_strlit("#FE7903");
            reveal_strlit("#FE0E00");
            reveal_strlit("Unknown value");
            assert("#9D42F3"@ =~= seq!['#', '9', 'D', '4', '2', 'F', '3']);
            assert("#A00DC5"@ =~= seq!['#', 'A', '0', '0', 'D', 'C', '5']);
            assert("#D042F3"@ =~= seq!['#', 'D', '0', '4', '2', 'F', '3']);
            assert("#02C9B3"@ =~= seq!['#', '0', '2', 'C', '9', 'B', '3']);
            assert("#318000"@ =~= seq!['#', '3', '1', '8', '0', '0', '0']);
            assert("#44B300"@ =~= seq!['#', '4', '4', 'B', '3', '0', '0']);
            assert("#FFC71F"@ =~= seq!['#', 'F', 'F', 'C', '7', '1', 'F']);
            assert("#FE7903"@ =~= seq!['#', 'F', 'E', '7', '9', '0', '3']);
            assert("#FE0E00"@ =~= seq!['#', 'F', 'E', '0', 'E', '0', '0']);
            assert("Unknown value"@ =~= seq!['U', 'n', 'k', 'n', 'o', 'w', 'n', ' ', 'v', 'a', 'l', 'u', 'e']);
        }
        if str_equals(t, "#9D42F3") || str_equals(t, "#A00DC5") {
            Ok(ColorStats::SuperUnicum)
        } else if str_equals(t, "#D042F3") {
            Ok(ColorStats::Unicum)
        } else if str_equals(t, "#02C9B3") {
            Ok(ColorStats::Great)
        } else if str_equals(t, "#318000") {
            Ok(ColorStats::VeryGood)
        } else if str_equals(t, "#44B300") {
            Ok(ColorStats::Good)
        } else if str_equals(t, "#FFC71F") {
            Ok(ColorStats::Average)
        } else if str_equals(t, "#FE7903") {
            Ok(ColorStats::BelowAverage)
        } else if str_equals(t, "#FE0E00") {
            Ok(ColorStats::Bad)
        } else {
            Err(IsacError::UnknownError(String::from_str("Unknown value")))
        }
    }
}

impl std::str::FromStr for ColorStats {
    type Err = IsacError;

    fn from_str(s: &str) -> (r: Result<Self, Self::Err>)
        ensures
            color_of_code(trim_quotes(s@)) matches Some(c) ==> (r matches Ok(x) && x == c),
            color_of_code(trim_quotes(s@)) is None ==> (r matches Err(IsacError::UnknownError(m))
                && m@ == seq!['U', 'n', 'k', 'n', 'o', 'w', 'n', ' ', 'v', 'a', 'l', 'u', 'e']),
    {
        ColorStats::parse(s)
    }
}

/// The color of a personal rating: the first band it reaches.
pub open spec fn pr_color_of(v: i64) -> ColorStats {
    if v >= 2450 {
        ColorStats::SuperUnicum
    } else if v >= 2100 {
        ColorStats::Unicum
    } else if v >= 1750 {
        ColorStats::Great
    } else if v >= 1550 {
        ColorStats::VeryGood
    } else if v >= 1350 {
        ColorStats::Good
    } else if v >= 1100 {
        ColorStats::Average
    } else if v >= 750 {
        ColorStats::BelowAverage
    } else if v >= -1 {
        ColorStats::Bad
    } else {
        ColorStats::White
    }
}

/// The rating color of a personal rating, truncated to a whole number.
pub fn pr_color(v: i64) -> (r: ColorStats)
    ensures
        r == pr_color_of(v),
{
    if v >= 2450 {
        ColorStats::SuperUnicum
    } else if v >= 2100 {
        ColorStats::Unicum
    } else if v >= 1750 {
        ColorStats::Great
    } else if v >= 1550 {
        ColorStats::VeryGood
    } else if v >= 1350 {
        ColorStats::Good
    } else if v >= 1100 {
        ColorStats::Average
    } else if v >= 750 {
        ColorStats::BelowAverage
    } else if v >= -1 {
        ColorStats::Bad
    } else {
        ColorStats::White
    }
}

/// The color of an account's average damage: the first band it reaches.
pub open spec fn overall_dmg_color_of(v: i64) -> ColorStats {
    if v >= 48500 {
        ColorStats::Unicum
    } else if v >= 38000 {
        ColorStats::Great
    } else if v >= 28500 {
        ColorStats::Good
    } else if v >= 23000 {
        ColorStats::Average
    } else if v >= 16000 {
        ColorStats::BelowAverage
    } else if v >= -1 {
        ColorStats::Bad
    } else {
        ColorStats::White
    }
}

/// The rating color of an account's average damage, truncated to a whole number.
pub fn overall_dmg_color(v: i64) -> (r: ColorStats)
    ensures
        r == overall_dmg_color_of(v),
{
    if v >= 48500 {
        ColorStats::Unicum
    } else if v >= 38000 {
        ColorStats::Great
    } else if v >= 28500 {
        ColorStats::Good
    } else if v >= 23000 {
        ColorStats::Average
    } else if v >= 16000 {
        ColorStats::BelowAverage
    } else if v >= -1 {
        ColorStats::Bad
    } else {
        ColorStats::White
    }
}

/// The color of an average base experience: the first band it reaches.
pub open spec fn exp_color_of(v: i64) -> ColorStats {
    if v >= 1500 {
        ColorStats::SuperUnicum
    } else if v >= 1350 {
        ColorStats::Unicum
    } else if v >= 1200 {
        ColorStats::Great
    } else if v >= 1050 {
        ColorStats::VeryGood
    } else if v >= 900 {
        ColorStats::Good
    } else if v >= 750 {
        ColorStats::Average
    } else if v >= 600 {
        ColorStats::BelowAverage
    } else if v >= -1 {
        ColorStats::Bad
    } else {
        ColorStats::White
    }
}

/// The rating color of an average base experience, truncated to a whole number.
pub fn exp_color(v: i64) -> (r: ColorStats)
    ensures
        r == exp_color_of(v),
{
    if v >= 1500 {
        ColorStats::SuperUnicum
    } else if v >= 1350 {
        ColorStats::Unicum
    } else if v >= 1200 {
        ColorStats::Great
    } else if v >= 1050 {
        ColorStats::VeryGood
    } else if v >= 900 {
        ColorStats::Good
    } else if v >= 750 {
        ColorStats::Average
    } else if v >= 600 {
        ColorStats::BelowAverage
    } else if v >= -1 {
        ColorStats::Bad
    } else {
        ColorStats::White
    }
}

/// How good a rating colour is, from 1 for "Bad" to 8 for "Super Unicum";
/// 0 for the colours that rate nothing.
pub open spec fn rating_rank(c: ColorStats) -> int {
    match c {
        ColorStats::SuperUnicum => 8,
        ColorStats::Unicum => 7,
        ColorStats::Great => 6,
        ColorStats::VeryGood => 5,
        ColorStats::Good => 4,
        ColorStats::Average => 3,
        ColorStats::BelowAverage => 2,
        ColorStats::Bad => 1,
        ColorStats::Grey => 0,
        ColorStats::White => 0,
    }
}

/// A better number never gets a worse colour: for every number from -1 up,
/// the personal rating, damage and experience colours rate it, and rate a
/// larger number at least as well.
pub proof fn lemma_colors_rise_with_value(v: i64, w: i64)
    requires
        -1 <= v <= w,
    ensures
        rating_rank(pr_color_of(v)) >= 1,
        rating_rank(overall_dmg_color_of(v)) >= 1,
        rating_rank(exp_color_of(v)) >= 1,
        rating_rank(pr_color_of(v)) <= rating_rank(pr_color_of(w)),
        rating_rank(overall_dmg_color_of(v)) <= rating_rank(overall_dmg_color_of(w)),
        rating_rank(exp_color_of(v)) <= rating_rank(exp_color_of(w)),
{
}

} // verus!
