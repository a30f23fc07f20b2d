//! The arguments of a prefix command: splitting the message into words and
//! picking the words that name a battle type, a number of days or a region.
use crate::error::{IsacError, IsacHelp, IsacInfo};
use crate::player::PartialPlayer;
use crate::region::{mode_of, region_of, Mode, Region};
use crate::text::{is_white_space, is_whitespace, parse_u32, parse_u32_spec};
use vstd::prelude::*;

verus! {

/// First index at or after `i` that holds no white space, or the length.
pub open spec fn skip_white(s: Seq<char>, i: int) -> int
    decreases s.len() - i,
{
    if i < 0 || i >= s.len() {
        s.len() as int
    } else if is_white_space(s[i]) {
        skip_white(s, i + 1)
    } else {
        i
    }
}

/// First index at or after `i` that holds white space, or the length.
pub open spec fn run_end(s: Seq<char>, i: int) -> int
    decreases s.len() - i,
{
    if i < 0 || i >= s.len() {
        s.len() as int
    } else if is_white_space(s[i]) {
        i
    } else {
        run_end(s, i + 1)
    }
}

/// First index at or after `i` that holds a double quote, or the length.
pub open spec fn quote_at_or_after(s: Seq<char>, i: int) -> int
    decreases s.len() - i,
{
    if i < 0 || i >= s.len() {
        s.len() as int
    } else if s[i] == '"' {
        i
    } else {
        quote_at_or_after(s, i + 1)
    }
}

/// End of the word that starts at `p`: a double-quoted part holding at least
/// one character and no quote, quotes included; otherwise the run of
/// characters up to the next white space.
pub open spec fn word_end(s: Seq<char>, p: int) -> int {
    if 0 <= p < s.len() && s[p] == '"' {
        let q = quote_at_or_after(s, p + 1);
        if q < s.len() && q > p + 1 {
            q + 1
        } else {
            run_end(s, p)
        }
    } else {
        run_end(s, p)
    }
}

/// First index at or after `i` whose character `p` does not accept, or the length.
pub open spec fn leading_end(t: Seq<char>, i: int, p: spec_fn(char) -> bool) -> int
    decreases t.len() - i,
{
    if i < 0 || i >= t.len() {
        t.len() as int
    } else if p(t[i]) {
        leading_end(t, i + 1, p)
    } else {
        i
    }
}

/// Largest `k <= j` such that `p` does not accept `t[k - 1]`, or 0.
pub open spec fn trailing_start(t: Seq<char>, j: int, p: spec_fn(char) -> bool) -> int
    decreases j,
{
    if j <= 0 || j > t.len() {
        0
    } else if p(t[j - 1]) {
        trailing_start(t, j - 1, p)
    } else {
        j
    }
}

/// The text without the characters that `p` accepts at its start and at its
/// end, as `str::trim_matches` gives it.
pub open spec fn trim_by(t: Seq<char>, p: spec_fn(char) -> bool) -> Seq<char> {
    let a = leading_end(t, 0, p);
    let b = trailing_start(t, t.len() as int, p);
    if a < b {
        t.subrange(a, b)
    } else {
        Seq::empty()
    }
}

/// Accepts the double quote.
pub open spec fn quote_char() -> spec_fn(char) -> bool {
    |c: char| c == '"'
}

/// Accepts `s` and `S`, which may stand around a season number.
pub open spec fn season_letter() -> spec_fn(char) -> bool {
    |c: char| c == 's' || c == 'S'
}

/// The text without the double quotes at its start and at its end.
pub open spec fn trim_quotes(t: Seq<char>) -> Seq<char> {
    trim_by(t, quote_char())
}

/// The run of non-white-space characters from `i` ends within the text, at
/// white space or at its end.
pub proof fn lemma_run_end(s: Seq<char>, i: int)
    requires
        0 <= i <= s.len(),
    ensures
        i <= run_end(s, i) <= s.len(),
        i < s.len() && !is_white_space(s[i]) ==> run_end(s, i) > i,
        forall|k: int| i <= k < run_end(s, i) ==> !is_white_space(#[trigger] s[k]),
        run_end(s, i) < s.len() ==> is_white_space(s[run_end(s, i)]),
    decreases s.len() - i,
{
    if i < s.len() && !is_white_space(s[i]) {
        lemma_run_end(s, i + 1);
    }
}

/// The next double quote from `i` is within the text, with none before it.
pub proof fn lemma_quote_at_or_after(s: Seq<char>, i: int)
    requires
        0 <= i <= s.len(),
    ensures
        i <= quote_at_or_after(s, i) <= s.len(),
        forall|k: int| i <= k < quote_at_or_after(s, i) ==> #[trigger] s[k] != '"',
        quote_at_or_after(s, i) < s.len() ==> s[quote_at_or_after(s, i)] == '"',
    decreases s.len() - i,
{
    if i < s.len() && s[i] != '"' {
        lemma_quote_at_or_after(s, i + 1);
    }
}

/// A word that starts at a non-white-space character is not empty.
pub proof fn lemma_word_end(s: Seq<char>, p: int)
    requires
        0 <= p < s.len(),
        !is_white_space(s[p]),
    ensures
        p < word_end(s, p) <= s.len(),
{
    lemma_run_end(s, p);
    if p + 1 <= s.len() {
        lemma_quote_at_or_after(s, p + 1);
    }
}

/// The words of `s` from index `i` on, as the pattern
/// `"[^"]+"|\S+` finds them, each stripped of its outer double quotes.
pub open spec fn words_from(s: Seq<char>, i: int) -> Seq<Seq<char>>
    decreases s.len() - i,
{
    if i < 0 || i >= s.len() {
        Seq::empty()
    } else if is_white_space(s[i]) {
        words_from(s, i + 1)
    } else {
        let e = word_end(s, i);
        proof {
            lemma_word_end(s, i);
        }
        seq![trim_quotes(s.subrange(i, e))] + words_from(s, e)
    }
}

/// The arguments of a message: white-space separated words, a part in double
/// quotes kept whole, the quotes around each word taken off.
pub open spec fn words(s: Seq<char>) -> Seq<Seq<char>> {
    words_from(s, 0)
}

/// The white-space separated words of `s` from index `i` on, as
/// `str::split_whitespace` yields them.
pub open spec fn plain_words_from(s: Seq<char>, i: int) -> Seq<Seq<char>>
    decreases s.len() - i,
{
    if i < 0 || i >= s.len() {
        Seq::empty()
    } else if is_white_space(s[i]) {
        plain_words_from(s, i + 1)
    } else {
        let e = run_end(s, i);
        proof {
            lemma_run_end(s, i);
        }
        seq![s.subrange(i, e)] + plain_words_from(s, e)
    }
}

/// The white-space separated words of a text, as `str::split_whitespace`
/// gives them.
pub open spec fn plain_words(s: Seq<char>) -> Seq<Seq<char>> {
    plain_words_from(s, 0)
}

/// Splits at white space, as `str::split_whitespace` does.
pub fn split_whitespace(input: &str) -> (r: Vec<String>)
    ensures
        r@.map_values(|t: String| t@) == plain_words(input@),
{
    let n = input.unicode_len();
    let ghost s = input@;
    let mut out: Vec<String> = Vec::new();
    let mut i: usize = 0;
    while i < n
        invariant
            n == s.len(),
            s == input@,
            i <= n,
            out@.map_values(|t: String| t@) + plain_words_from(s, i as int) == plain_words(s),
        decreases n - i,
    {
        if is_whitespace(input.get_char(i)) {
            i = i + 1;
        } else {
            proof {
                lemma_run_end(s, i as int);
            }
            let e = Args::run_end_at(input, n, i);
            let w = String::from_str(input.substring_char(i, e));
            let ghost before = out@.map_values(|t: String| t@);
            out.push(w);
            proof {
                assert(out@.map_values(|t: String| t@) =~= before.push(s.subrange(i as int, e as int)));
                assert(before + plain_words_from(s, i as int) =~= before.push(s.subrange(i as int, e as int))
                    + plain_words_from(s, e as int));
            }
            i = e;
        }
    }
    out
}

/// The arguments of a prefix command, in order.
#[derive(Clone, Debug)]
pub struct Args(pub Vec<String>);

/// Index of the last element that `p` holds of, or -1.
pub open spec fn last_index_where(v: Seq<Seq<char>>, p: spec_fn(Seq<char>) -> bool) -> int
    decreases v.len(),
{
    if v.len() == 0 {
        -1
    } else if p(v.last()) {
        v.len() - 1
    } else {
        last_index_where(v.drop_last(), p)
    }
}

/// The last index that `last_index_where` finds holds a match, and none
/// after it does.
pub proof fn lemma_last_index_where(v: Seq<Seq<char>>, p: spec_fn(Seq<char>) -> bool)
    ensures
        -1 <= last_index_where(v, p) < v.len(),
        last_index_where(v, p) >= 0 ==> p(v[last_index_where(v, p)]),
        forall|k: int| last_index_where(v, p) < k < v.len() ==> !p(#[trigger] v[k]),
    decreases v.len(),
{
    if v.len() > 0 && !p(v.last()) {
        lemma_last_index_where(v.drop_last(), p);
        assert forall|k: int| last_index_where(v, p) < k < v.len() implies !p(#[trigger] v[k]) by {
            if k < v.len() - 1 {
                assert(v[k] == v.drop_last()[k]);
            }
        }
    }
}

/// `r` is `Some` of the index `k`, or `None` when `k` is -1.
pub open spec fn is_index_option(r: Option<usize>, k: int) -> bool {
    match r {
        Some(i) => i as int == k,
        None => k < 0,
    }
}

/// Accepts the words that name a battle type.
pub open spec fn mode_word() -> spec_fn(Seq<char>) -> bool {
    |t: Seq<char>| names_mode(t)
}

/// Accepts the words that are a number of days from 1 to 100.
pub open spec fn day_word() -> spec_fn(Seq<char>) -> bool {
    |t: Seq<char>| names_day(t)
}

/// Whether the word names a battle type.
pub open spec fn names_mode(t: Seq<char>) -> bool {
    mode_of(t) is Some
}

/// Whether the word is a number from 1 to 100.
pub open spec fn names_day(t: Seq<char>) -> bool {
    parse_u32_spec(t) matches Some(v) && 1 <= v <= 100
}

/// The element that `check` reads for a signed index: from the front for
/// `index >= 0`, from the back (`-1` is the last) for a negative one.
pub open spec fn checked_index(len: int, index: int) -> Option<int> {
    if index < 0 {
        if -index <= len {
            Some(len + index)
        } else {
            None
        }
    } else if index < len {
        Some(index)
    } else {
        None
    }
}

impl Args {
    /// The arguments' texts.
    pub open spec fn view(&self) -> Seq<Seq<char>> {
        self.0@.map_values(|t: String| t@)
    }

    /// Splits a message into arguments: white-space separated words, where a
    /// part in double quotes may hold white space.
    pub fn parse(input: &str) -> (r: Args)
        ensures
            r@ == words(input@),
    {
        let n = input.unicode_len();
        let ghost s = input@;
        let mut out: Vec<String> = Vec::new();
        let mut i: usize = 0;
        while i < n
            invariant
                n == s.len(),
                s == input@,
                i <= n,
                out@.map_values(|t: String| t@) + words_from(s, i as int) == words(s),
            decreases n - i,
        {
            let c = input.get_char(i);
            if is_whitespace(c) {
                i = i + 1;
            } else {
                proof {
                    lemma_word_end(s, i as int);
                }
                let e = Self::word_end_at(input, n, i);
                let w = trim_in(input, i, e, false);
                let ghost before = out@.map_values(|t: String| t@);
                out.push(w);
                proof {
                    assert(out@.map_values(|t: String| t@) =~= before.push(
                        trim_quotes(s.subrange(i as int, e as int)),
                    ));
                    assert(words_from(s, i as int) == seq![trim_quotes(s.subrange(i as int, e as int))]
                        + words_from(s, e as int));
                    assert(before + words_from(s, i as int) =~= before.push(
                        trim_quotes(s.subrange(i as int, e as int)),
                    ) + words_from(s, e as int));
                }
                i = e;
            }
        }
        Args(out)
    }

    fn run_end_at(input: &str, n: usize, i: usize) -> (r: usize)
        requires
            n == input@.len(),
            i <= n,
        ensures
            r == run_end(input@, i as int),
        decreases n - i,
    {
        if i < n && !is_whitespace(input.get_char(i)) {
            Self::run_end_at(input, n, i + 1)
        } else {
            i
        }
    }

    fn quote_at_or_after_at(input: &str, n: usize, i: usize) -> (r: usize)
        requires
            n == input@.len(),
            i <= n,
        ensures
            r == quote_at_or_after(input@, i as int),
        decreases n - i,
    {
        if i < n && input.get_char(i) != '"' {
            Self::quote_at_or_after_at(input, n, i + 1)
        } else {
            i
        }
    }

    fn word_end_at(input: &str, n: usize, p: usize) -> (r: usize)
        requires
            n == input@.len(),
            p < n,
        ensures
            r == word_end(input@, p as int),
    {
        if input.get_char(p) == '"' {
            let q = Self::quote_at_or_after_at(input, n, p + 1);
            if q < n && q > p + 1 {
                return q + 1;
            }
        }
        Self::run_end_at(input, n, p)
    }


}

/// Whether `c` is trimmed: a season letter when `season`, else a double quote.
fn trimmed_char(c: char, season: bool) -> (r: bool)
    ensures
        r == if season {
            season_letter()(c)
        } else {
            quote_char()(c)
        },
{
    if season {
        c == 's' || c == 'S'
    } else {
        c == '"'
    }
}

/// The characters of `input` in `[a0, e)` without the trimmed characters at
/// both ends: season letters when `season`, else double quotes.
pub fn trim_in(input: &str, a0: usize, e: usize, season: bool) -> (r: String)
    requires
        a0 <= e <= input@.len(),
    ensures
        r@ == trim_by(input@.subrange(a0 as int, e as int), if season {
            season_letter()
        } else {
            quote_char()
        }),
{
    let ghost t = input@.subrange(a0 as int, e as int);
    let ghost p = if season {
        season_letter()
    } else {
        quote_char()
    };
    let mut a: usize = a0;
    while a < e && trimmed_char(input.get_char(a), season)
        invariant
            a0 <= a <= e,
            e <= input@.len(),
            t == input@.subrange(a0 as int, e as int),
            p == (if season {
                season_letter()
            } else {
                quote_char()
            }),
            leading_end(t, (a - a0) as int, p) == leading_end(t, 0, p),
        decreases e - a,
    {
        assert(t[(a - a0) as int] == input@[a as int]);
        a = a + 1;
    }
    proof {
        if a < e {
            assert(t[(a - a0) as int] == input@[a as int]);
        }
    }
    let mut b: usize = e;
    while b > a0 && trimmed_char(input.get_char(b - 1), season)
        invariant
            a0 <= b <= e,
            e <= input@.len(),
            t == input@.subrange(a0 as int, e as int),
            p == (if season {
                season_letter()
            } else {
                quote_char()
            }),
            trailing_start(t, (b - a0) as int, p) == trailing_start(t, t.len() as int, p),
        decreases b,
    {
        assert(t[(b - 1 - a0) as int] == input@[b - 1]);
        b = b - 1;
    }
    proof {
        if b > a0 {
            assert(t[(b - 1 - a0) as int] == input@[b - 1]);
        }
    }
    if a < b {
        let r = String::from_str(input.substring_char(a, b));
        proof {
            assert(r@ =~= t.subrange((a - a0) as int, (b - a0) as int));
        }
        r
    } else {
        String::new()
    }
}

/// The text without the double quotes at its start and at its end, as
/// `str::trim_matches('"')` gives it.
pub fn trim_quotes_str(input: &str) -> (r: String)
    ensures
        r@ == trim_quotes(input@),
{
    let n = input.unicode_len();
    proof {
        assert(input@.subrange(0, n as int) =~= input@);
    }
    trim_in(input, 0, n, false)
}

impl Args {
    /// Whether no argument is left.
    pub fn is_empty(&self) -> (r: bool)
        ensures
            r == (self@.len() == 0),
    {
        self.0.len() == 0
    }

    /// How many arguments are left.
    pub fn len(&self) -> (r: usize)
        ensures
            r == self@.len(),
    {
        self.0.len()
    }

    /// Removes the argument at `index`; `LackOfArguments` when there is none.
    pub fn remove(&mut self, index: usize) -> (r: Result<String, IsacError>)
        ensures
            index < old(self)@.len() ==> {
                &&& r matches Ok(t) && t@ == old(self)@[index as int]
                &&& final(self)@ == old(self)@.remove(index as int)
            },
            index >= old(self)@.len() ==> {
                &&& r matches Err(IsacError::Help(IsacHelp::LackOfArguments))
                &&& final(self)@ == old(self)@
            },
    {
        if index < self.0.len() {
            let t = self.0.remove(index);
            proof {
                assert(self@ =~= old(self)@.remove(index as int));
            }
            Ok(t)
        } else {
            Err(IsacError::Help(IsacHelp::LackOfArguments))
        }
    }

    /// The argument at `index`, counted from the back when negative (`-1` is the
    /// last); `LackOfArguments` when there is none.
    pub fn check(&self, index: isize) -> (r: Result<&str, IsacError>)
        ensures
            checked_index(self@.len() as int, index as int) matches Some(k) ==> r matches Ok(t)
                && t@ == self@[k],
            checked_index(self@.len() as int, index as int) is None ==> r matches Err(
                IsacError::Help(IsacHelp::LackOfArguments),
            ),
    {
        let len = self.0.len();
        let k: usize = if index < 0 {
            let back = (-(index + 1)) as usize + 1;
            if back <= len {
                len - back
            } else {
                return Err(IsacError::Help(IsacHelp::LackOfArguments));
            }
        } else {
            index as usize
        };
        if k < len {
            Ok(self.0[k].as_str())
        } else {
            Err(IsacError::Help(IsacHelp::LackOfArguments))
        }
    }

    /// Index of the last argument that `names_day` or `names_mode` accepts.
    fn rposition(&self, days: bool) -> (r: Option<usize>)
        ensures
            days ==> is_index_option(r, last_index_where(self@, day_word())),
            !days ==> is_index_option(r, last_index_where(self@, mode_word())),
    {
        let ghost p = if days { day_word() } else { mode_word() };
        proof {
            lemma_last_index_where(self@, p);
        }
        let mut i = self.0.len();
        while i > 0
            invariant
                i <= self@.len(),
                self@.len() == self.0@.len(),
                forall|k: int| i <= k < self@.len() ==> !p(#[trigger] self@[k]),
                -1 <= last_index_where(self@, p) < self@.len(),
                last_index_where(self@, p) >= 0 ==> p(self@[last_index_where(self@, p)]),
                forall|k: int| last_index_where(self@, p) < k < self@.len() ==> !p(#[trigger] self@[k]),
                p == (if days { day_word() } else { mode_word() }),
            decreases i,
        {
            let t = self.0[i - 1].as_str();
            proof {
                assert(t@ == self@[i - 1]);
            }
            let hit = if days {
                match parse_u32(t) {
                    Some(v) => 1 <= v && v <= 100,
                    None => false,
                }
            } else {
                Mode::parse(t).is_some()
            };
            if hit {
                return Some(i - 1);
            }
            i = i - 1;
        }
        None
    }

    /// Takes out the last argument that names a battle type and returns it.
    pub fn parse_mode(&mut self) -> (r: Option<Mode>)
        ensures
            ({
                let k = last_index_where(old(self)@, mode_word());
                &&& k >= 0 ==> r == mode_of(old(self)@[k]) && r is Some && final(self)@
                    == old(self)@.remove(k)
                &&& k < 0 ==> r is None && final(self)@ == old(self)@
            }),
    {
        proof {
            lemma_last_index_where(self@, mode_word());
        }
        match self.rposition(false) {
            Some(k) => {
                let t = self.remove(k);
                match t {
                    Ok(t) => Mode::parse(t.as_str()),
                    Err(_) => None,
                }
            },
            None => None,
        }
    }

    /// Takes out the last argument that is a number from 1 to 100 and returns
    /// it, for the number of days of `recent`.
    pub fn parse_day(&mut self) -> (r: Option<u64>)
        ensures
            ({
                let k = last_index_where(old(self)@, day_word());
                &&& k >= 0 ==> r == Some(parse_u32_spec(old(self)@[k])->0 as u64) && final(self)@ == old(self)@.remove(k)
                &&& k < 0 ==> r is None && final(self)@ == old(self)@
            }),
    {
        proof {
            lemma_last_index_where(self@, day_word());
        }
        match self.rposition(true) {
            Some(k) => {
                let t = self.remove(k);
                match t {
                    Ok(t) => match parse_u32(t.as_str()) {
                        Some(v) => Some(v as u64),
                        None => None,
                    },
                    Err(_) => None,
                }
            },
            None => None,
        }
    }

    /// Reads a region from the first argument and takes it out; keeps the
    /// arguments and answers `default` (the server's region) when the first
    /// argument names none. `LackOfArguments` when there are no arguments.
    pub fn parse_region(&mut self, default: Region) -> (r: Result<Region, IsacError>)
        ensures
            old(self)@.len() == 0 ==> (r matches Err(IsacError::Help(IsacHelp::LackOfArguments))
                && final(self)@ == old(self)@),
            old(self)@.len() > 0 ==> match region_of(old(self)@[0]) {
                Some(g) => r == Ok::<Region, IsacError>(g) && final(self)@ == old(self)@.remove(0),
                None => r == Ok::<Region, IsacError>(default) && final(self)@ == old(self)@,
            },
    {
        let parsed = match self.check(0) {
            Ok(first) => Region::parse(first),
            Err(e) => {
                return Err(e);
            },
        };
        match parsed {
            Some(g) => {
                let _ = self.remove(0);
                Ok(g)
            },
            None => Ok(default),
        }
    }

    /// Takes out all arguments joined by single spaces, as a ship name is read;
    /// `LackOfArguments` when there are none.
    pub fn take_rest(&mut self) -> (r: Result<String, IsacError>)
        ensures
            old(self)@.len() == 0 ==> (r matches Err(IsacError::Help(IsacHelp::LackOfArguments))
                && final(self)@ == old(self)@),
            old(self)@.len() > 0 ==> (r matches Ok(t) && t@ == join_spaced(old(self)@) && final(self)@.len() == 0),
    {
        if self.0.len() == 0 {
            return Err(IsacError::Help(IsacHelp::LackOfArguments));
        }
        let mut out = String::new();
        let mut i: usize = 0;
        while i < self.0.len()
            invariant
                i <= self@.len(),
                self@.len() == self.0@.len(),
                out@ == join_spaced(self@.take(i as int)),
            decreases self@.len() - i,
        {
            proof {
                reveal_strlit(" ");
                assert(self@.take(i + 1).drop_last() =~= self@.take(i as int));
            }
            if i > 0 {
                out.append(" ");
            }
            out.append(self.0[i].as_str());
            i = i + 1;
        }
        proof {
            assert(self@.take(i as int) =~= self@);
        }
        self.0 = Vec::new();
        proof {
            assert(self@ =~= Seq::<Seq<char>>::empty());
        }
        Ok(out)
    }
}

/// The words joined by single spaces.
pub open spec fn join_spaced(v: Seq<Seq<char>>) -> Seq<char>
    decreases v.len(),
{
    if v.len() == 0 {
        Seq::empty()
    } else if v.len() == 1 {
        v[0]
    } else {
        join_spaced(v.drop_last()) + seq![' '] + v.last()
    }
}

impl From<Args> for Vec<String> {
    fn from(value: Args) -> (r: Vec<String>) {
        value.0
    }
}

impl vstd::std_specs::convert::FromSpecImpl<Args> for Vec<String> {
    open spec fn obeys_from_spec() -> bool {
        true
    }

    open spec fn from_spec(value: Args) -> Vec<String> {
        value.0
    }
}

impl std::str::FromStr for Args {
    type Err = IsacError;

    fn from_str(input: &str) -> (r: Result<Self, Self::Err>)
        ensures
            r matches Ok(a) && a@ == words(input@),
    {
        Ok(Args::parse(input))
    }
}

impl Args {
    /// Takes the account linked to the user that the first argument names
    /// (or the caller, for `me`), consuming that argument; a user without a
    /// linked account is an error that names the user, if known.
    pub fn take_linked(&mut self, linked: Option<PartialPlayer>, user_name: Option<String>) -> (r:
        Result<PartialPlayer, IsacError>)
        requires
            old(self)@.len() > 0,
        ensures
            linked matches Some(p) ==> r == Ok::<PartialPlayer, IsacError>(p) && final(self)@
                == old(self)@.remove(0),
            linked is None ==> (r matches Err(IsacError::Info(IsacInfo::UserNotLinked { user_name: u }))
                && u == user_name) && final(self)@ == old(self)@,
    {
        match linked {
            Some(p) => {
                let _ = self.remove(0);
                Ok(p)
            },
            None => Err(IsacError::Info(IsacInfo::UserNotLinked { user_name })),
        }
    }

    /// The player that a name search found: none found is an error that
    /// names the search; one is taken; of several, the one picked. The name
    /// argument is consumed when a player is taken.
    pub fn take_found(&mut self, region: Region, uids: &Vec<u64>, picked: usize) -> (r: Result<
        PartialPlayer,
        IsacError,
    >)
        requires
            old(self)@.len() > 0,
            uids@.len() >= 2 ==> picked < uids@.len(),
        ensures
            uids@.len() == 0 ==> (r matches Err(
                IsacError::Info(IsacInfo::PlayerIgnNotFound { ign, region: g }),
            ) && ign@ == old(self)@[0] && g == region) && final(self)@ == old(self)@,
            uids@.len() == 1 ==> r == Ok::<PartialPlayer, IsacError>(
                PartialPlayer { region, uid: uids@[0] },
            ) && final(self)@ == old(self)@.remove(0),
            uids@.len() >= 2 ==> r == Ok::<PartialPlayer, IsacError>(
                PartialPlayer { region, uid: uids@[picked as int] },
            ) && final(self)@ == old(self)@.remove(0),
    {
        if uids.len() == 0 {
            let ign = String::from_str(self.0[0].as_str());
            proof {
                assert(ign@ == self@[0]);
            }
            return Err(IsacError::Info(IsacInfo::PlayerIgnNotFound { ign, region }));
        }
        let uid = if uids.len() == 1 {
            uids[0]
        } else {
            uids[picked]
        };
        let _ = self.remove(0);
        Ok(PartialPlayer { region, uid })
    }
}

/// Whether a word may name a Discord user: it holds `<`, `@` or `>`, as a
/// mention does, or it is all ASCII digits, as an id is (the empty word
/// counts as all digits).
pub open spec fn looks_like_user(s: Seq<char>) -> bool {
    (exists|i: int| 0 <= i < s.len() && (s[i] == '<' || s[i] == '@' || s[i] == '>')) || (forall|i: int|
        0 <= i < s.len() ==> crate::text::is_ascii_digit(#[trigger] s[i]))
}

/// Whether the word is worth looking up as a Discord user.
pub fn may_be_user(s: &str) -> (r: bool)
    ensures
        r == looks_like_user(s@),
{
    let n = s.unicode_len();
    let mut i: usize = 0;
    let mut marked = false;
    let mut digits = true;
    while i < n
        invariant
            i <= n,
            n == s@.len(),
            marked == (exists|j: int| 0 <= j < i && (s@[j] == '<' || s@[j] == '@' || s@[j] == '>')),
            digits == (forall|j: int| 0 <= j < i ==> crate::text::is_ascii_digit(#[trigger] s@[j])),
        decreases n - i,
    {
        let c = s.get_char(i);
        if c == '<' || c == '@' || c == '>' {
            marked = true;
        }
        if !('0' <= c && c <= '9') {
            digits = false;
        }
        i = i + 1;
    }
    marked || digits
}

/// The error for a word that names no Discord user.
pub fn not_a_user_error(s: &str) -> (r: IsacError)
    ensures
        r matches IsacError::Info(IsacInfo::GeneralError { msg }) && msg@ == "`"@ + s@
            + "` is not a valid user, please enter a pign like <@930855839961591849> or a Discord User ID"@,
{
    let mut msg = String::from_str("`");
    msg.append(s);
    msg.append(
        "` is not a valid user, please enter a pign like <@930855839961591849> or a Discord User ID",
    );
    IsacError::Info(IsacInfo::GeneralError { msg })
}

/// Reads an account id argument; anything but a `u64` is refused.
pub fn parse_uid_arg(arg: &str) -> (r: Result<u64, IsacError>)
    ensures
        match crate::text::parse_u64_spec(arg@) {
            Some(u) => r == Ok::<u64, IsacError>(u),
            None => r matches Err(IsacError::Info(IsacInfo::GeneralError { msg })) && msg@
                == "Not a valid uid"@,
        },
{
    match crate::text::parse_u64(arg) {
        Some(u) => Ok(u),
        None => Err(IsacError::Info(IsacInfo::GeneralError { msg: String::from_str("Not a valid uid") })),
    }
}

impl Args {
    /// The battle type and number of days of the prefix `recent` command:
    /// the last battle-type word (default random battles) and then the last
    /// number (default one day), each taken out.
    pub fn recent_options(&mut self) -> (r: (Mode, u64))
        ensures
            ({
                let v = old(self)@;
                let m = last_index_where(v, mode_word());
                let v1 = if m >= 0 {
                    v.remove(m)
                } else {
                    v
                };
                let d = last_index_where(v1, day_word());
                &&& r.0 == (if m >= 0 {
                    mode_of(v[m]).unwrap()
                } else {
                    Mode::Pvp
                })
                &&& final(self)@ == (if d >= 0 {
                    v1.remove(d)
                } else {
                    v1
                })
                &&& d >= 0 ==> r.1 == parse_u32_spec(v1[d]).unwrap() as u64
                &&& d < 0 ==> r.1 == 1
            }),
    {
        let mode = match self.parse_mode() {
            Some(m) => m,
            None => Mode::Pvp,
        };
        let day = match self.parse_day() {
            Some(d) => d,
            None => 1,
        };
        (mode, day)
    }
}

} // verus!
