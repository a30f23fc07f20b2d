# isac

The core of ISAC, a Discord bot that shows World of Warships statistics,
written in Verus. The functions in `src/` carry contracts that Verus proves,
except the few small wrappers marked `#[verifier::external_body]`: they make
one call into `std`, `chrono`, `rand`, `regex` or `lru`, and their contracts
are taken on trust from those crates' documentation and sources. Reading the
clock (`clock::now_unix_secs`) promises nothing of the time it reads.

## Layout

- `src/` — the verified library.
  - `args`, `text`, `region`: reading command arguments (words, quoted
    parts, servers, battle types, numbers, days).
  - `leaderboard`, `order`: ship boards — stable ordering by score, ranks,
    placing the asking player, cutting the board to what is shown, supporter
    colors, the server board, the board cache.
  - `recent`, `search_cache`, `lru_vector`: a player's daily snapshots and
    the date lookups of the `recent` command; the per-user lookup history
    and its in-memory cache (over the `lru` crate).
  - `clan_view`, `clan_top`, `wws_view`, `pick`, `roulette`, `bonus_code`:
    the state and decisions behind the interactive messages (buttons,
    pickers, paging, texts).
  - `scrape`: reading links, numbers and dates out of the statistics site's
    pages (with the `regex` and `chrono` crates) and writing the rename
    history.
  - `account`, `player`, `clan`, `clan_detail`, `api`, `color`, `dogtag`,
    `error`, `clock`: the shared data and small rules.
- `tests/` — tests on concrete values.
- `app/` — the state files on disk (serde copies of the library's types),
  the floating point statistics and their colors, and reading the Kokomi
  service's answers.

Laws that relate several functions are public proof functions named
`lemma_*`, next to the functions they are about.
