//! Links for redeeming bonus codes: the `code` command.
use crate::args::{plain_words, split_whitespace};
use crate::error::{IsacError, IsacInfo};
use crate::text::is_ascii_alphanumeric;
use vstd::prelude::*;

verus! {

/// At most this many codes are accepted at once.
pub const MAX_CODES: usize = 10;

/// Buttons per row.
pub const CODES_PER_ROW: usize = 5;

/// A link button: its label and the page it opens.
#[derive(Debug, Clone)]
pub struct CodeButton {
    pub label: String,
    pub url: String,
}

/// A code is kept when it is at most 80 characters, all ASCII letters or digits.
pub open spec fn is_code(w: Seq<char>) -> bool {
    &&& w.len() <= 80
    &&& forall|i: int| 0 <= i < w.len() ==> is_ascii_alphanumeric(#[trigger] w[i])
}

/// The words that are codes, in order.
pub open spec fn codes_of(w: Seq<Seq<char>>) -> Seq<Seq<char>>
    decreases w.len(),
{
    if w.len() == 0 {
        Seq::empty()
    } else if is_code(w.last()) {
        codes_of(w.drop_last()).push(w.last())
    } else {
        codes_of(w.drop_last())
    }
}

/// The page that redeems a code.
pub open spec fn redeem_url(code: Seq<char>) -> Seq<char> {
    "https://wargaming.net/shop/redeem/?bonus_mode="@ + code
}

/// The message when more codes are given than one answer can hold.
pub open spec fn too_many_codes_text() -> Seq<char> {
    "Too many codes, max 10 codes at once"@
}

/// The buttons are the codes in order, five to a row, each labelled with the
/// code and opening its redeem page.
pub open spec fn rows_hold(rows: Seq<Vec<CodeButton>>, codes: Seq<Seq<char>>) -> bool {
    &&& rows.len() == (codes.len() + 4) / 5
    &&& forall|r: int|
        0 <= r < rows.len() ==> (#[trigger] rows[r])@.len() == if 5 * r + 5 <= codes.len() {
            5
        } else {
            codes.len() - 5 * r
        }
    &&& forall|r: int, c: int|
        0 <= r < rows.len() && 0 <= c < rows[r]@.len() ==> (#[trigger] rows[r]@[c]).label@ == codes[5
            * r + c] && rows[r]@[c].url@ == redeem_url(codes[5 * r + c])
}

fn is_code_exec(w: &str) -> (r: bool)
    ensures
        r == is_code(w@),
{
    let n = w.unicode_len();
    if n > 80 {
        return false;
    }
    let mut i: usize = 0;
    while i < n
        invariant
            n == w@.len(),
            i <= n,
            forall|j: int| 0 <= j < i ==> is_ascii_alphanumeric(#[trigger] w@[j]),
        decreases n - i,
    {
        let c = w.get_char(i);
        if !(('0' <= c && c <= '9') || ('a' <= c && c <= 'z') || ('A' <= c && c <= 'Z')) {
            return false;
        }
        i = i + 1;
    }
    true
}

/// The link buttons for the codes in `codes`, split at white space; words that
/// are no code are left out. `None` for an empty text (the command then shows
/// its usage); an error for more than ten codes.
pub fn bonus_code_rows(codes: &str) -> (r: Result<Option<Vec<Vec<CodeButton>>>, IsacError>)
    ensures
        codes@.len() == 0 ==> r matches Ok(None),
        codes@.len() > 0 && codes_of(plain_words(codes@)).len() > MAX_CODES ==> (r matches Err(
            IsacError::Info(IsacInfo::GeneralError { msg }),
        ) && msg@ == too_many_codes_text()),
        codes@.len() > 0 && codes_of(plain_words(codes@)).len() <= MAX_CODES ==> (r matches Ok(
            Some(rows),
        ) && rows_hold(rows@, codes_of(plain_words(codes@)))),
{
    if codes.unicode_len() == 0 {
        return Ok(None);
    }
    let words = split_whitespace(codes);
    let ghost w = words@.map_values(|t: String| t@);
    let mut kept: Vec<String> = Vec::new();
    let mut i: usize = 0;
    while i < words.len()
        invariant
            i <= words@.len(),
            w == words@.map_values(|t: String| t@),
            kept@.map_values(|t: String| t@) == codes_of(w.take(i as int)),
        decreases words@.len() - i,
    {
        proof {
            assert(w.take(i + 1).drop_last() =~= w.take(i as int));
        }
        if is_code_exec(words[i].as_str()) {
            kept.push(words[i].clone());
            proof {
                assert(kept@.map_values(|t: String| t@) =~= codes_of(w.take(i as int)).push(w[i as int]));
            }
        }
        i = i + 1;
    }
    proof {
        assert(w.take(words@.len() as int) =~= w);
    }
    let ghost k = kept@.map_values(|t: String| t@);
    if kept.len() > MAX_CODES {
        proof {
            reveal_strlit("Too many codes, max 10 codes at once");
        }
        return Err(
            IsacError::Info(
                IsacInfo::GeneralError { msg: String::from_str("Too many codes, max 10 codes at once") },
            ),
        );
    }
    let mut rows: Vec<Vec<CodeButton>> = Vec::new();
    let mut start: usize = 0;
    while start < kept.len()
        invariant
            k == kept@.map_values(|t: String| t@),
            kept@.len() <= MAX_CODES,
            start <= k.len(),
            start < k.len() ==> start == 5 * rows@.len(),
            rows@.len() == (start + 4) / 5,
            start == k.len() || start == 5 * rows@.len(),
            forall|r: int|
                0 <= r < rows@.len() ==> (#[trigger] rows@[r])@.len() == if 5 * r + 5 <= k.len() {
                    5
                } else {
                    k.len() - 5 * r
                },
            forall|r: int, c: int|
                0 <= r < rows@.len() && 0 <= c < rows@[r]@.len() ==> (#[trigger] rows@[r]@[c]).label@
                    == k[5 * r + c] && rows@[r]@[c].url@ == redeem_url(k[5 * r + c]),
        decreases kept@.len() - start,
    {
        let end = if start + CODES_PER_ROW <= kept.len() {
            start + CODES_PER_ROW
        } else {
            kept.len()
        };
        let mut row: Vec<CodeButton> = Vec::new();
        let mut j: usize = start;
        while j < end
            invariant
                k == kept@.map_values(|t: String| t@),
                start <= j <= end,
                end <= kept@.len(),
                row@.len() == j - start,
                forall|c: int|
                    0 <= c < row@.len() ==> (#[trigger] row@[c]).label@ == k[start + c] && row@[c].url@
                        == redeem_url(k[start + c]),
            decreases end - j,
        {
            let mut url = String::from_str("https://wargaming.net/shop/redeem/?bonus_mode=");
            url.append(kept[j].as_str());
            row.push(CodeButton { label: kept[j].clone(), url });
            j = j + 1;
        }
        rows.push(row);
        start = end;
    }
    proof {
        assert(rows@.len() == (k.len() + 4) / 5);
    }
    Ok(Some(rows))
}

} // verus!
