//! The players each Discord user looked up lately, for the player picker:
//! a few users are kept in memory, the others on disk.
use crate::lru_vector::{put_result, LruVector};
use crate::text::{decimal_text, u64_to_text};
use lru::LruCache;
use vstd::prelude::*;

verus! {

/// `lru::LruCache`, whose contents Verus does not see; `cache_entries`
/// and `cache_cap` name them.
#[verifier::external_type_specification]
#[verifier::external_body]
#[verifier::reject_recursive_types(K)]
#[verifier::reject_recursive_types(V)]
#[verifier::reject_recursive_types(S)]
pub struct ExLruCache<K, V, S>(LruCache<K, V, S>);

/// The hasher that `lru::LruCache` uses by default.
#[verifier::external_type_specification]
#[verifier::external_body]
pub struct ExLruHasher(lru::DefaultHasher);

/// A user's recent lookups.
pub struct UserSearchCache {
    pub user_id: u64,
    pub autocomplete_player: LruVector<String>,
}

/// How many lookups are kept per user.
pub const USER_LOOKUPS: usize = 15;

/// Where a user's lookups are stored.
pub open spec fn user_cache_path(user_id: u64) -> Seq<char> {
    "./web_src/cache/user_search_history/"@ + decimal_text(user_id as nat) + ".json"@
}

impl UserSearchCache {
    /// No lookups yet.
    pub fn new(user_id: u64) -> (r: Self)
        ensures
            r.user_id == user_id,
            r.autocomplete_player@.len() == 0,
            r.autocomplete_player.cap() == USER_LOOKUPS,
    {
        UserSearchCache { user_id, autocomplete_player: LruVector::new(USER_LOOKUPS) }
    }

    /// The file of a user's lookups.
    pub fn get_path(user_id: &u64) -> (r: String)
        ensures
            r@ == user_cache_path(*user_id),
    {
        let mut p = String::from_str("./web_src/cache/user_search_history/");
        p.append(u64_to_text(*user_id).as_str());
        p.append(".json");
        p
    }
}

/// The entries of the cache, most recently used first.
pub uninterp spec fn cache_entries(c: LruCache<u64, UserSearchCache>) -> Seq<(u64, UserSearchCache)>;

/// The most entries the cache holds; it was made with this.
pub uninterp spec fn cache_cap(c: LruCache<u64, UserSearchCache>) -> nat;

/// Where `k` is among the entries, or their number when it is not.
pub open spec fn key_index(s: Seq<(u64, UserSearchCache)>, k: u64) -> int
    decreases s.len(),
{
    if s.len() == 0 {
        0
    } else if s[0].0 == k {
        0
    } else {
        1 + key_index(s.drop_first(), k)
    }
}

/// Makes a cache for `cap` entries with `LruCache::new`.
#[verifier::external_body]
fn lru_new(cap: usize) -> (r: LruCache<u64, UserSearchCache>)
    requires
        cap > 0,
    ensures
        cache_entries(r) == Seq::<(u64, UserSearchCache)>::empty(),
        cache_cap(r) == cap,
{
    LruCache::new(std::num::NonZeroUsize::new(cap).unwrap())
}

/// `LruCache::push`: an entry of the same key has its value replaced and
/// the old pair handed back; else, in a full cache, the least recently used
/// entry leaves and is handed back. Either way the pushed entry becomes the
/// most recently used.
#[verifier::external_body]
fn lru_push(c: &mut LruCache<u64, UserSearchCache>, k: u64, v: UserSearchCache) -> (r: Option<
    (u64, UserSearchCache),
>)
    ensures
        cache_cap(*final(c)) == cache_cap(*old(c)),
        ({
            let s = cache_entries(*old(c));
            let i = key_index(s, k);
            if i < s.len() {
                cache_entries(*final(c)) == seq![(k, v)] + s.remove(i) && r == Some(s[i])
            } else if s.len() >= cache_cap(*old(c)) && s.len() > 0 {
                cache_entries(*final(c)) == seq![(k, v)] + s.drop_last() && r == Some(s.last())
            } else {
                cache_entries(*final(c)) == seq![(k, v)] + s && r is None
            }
        }),
{
    c.push(k, v)
}

/// `LruCache::get`: the entry of `k`, which becomes the most recently used;
/// nothing changes when there is none.
#[verifier::external_body]
fn lru_get<'a>(c: &'a mut LruCache<u64, UserSearchCache>, k: &u64) -> (r: Option<
    &'a UserSearchCache,
>)
    ensures
        cache_cap(*final(c)) == cache_cap(*old(c)),
        ({
            let s = cache_entries(*old(c));
            let i = key_index(s, *k);
            if i < s.len() {
                cache_entries(*final(c)) == seq![s[i]] + s.remove(i) && r == Some(&s[i].1)
            } else {
                cache_entries(*final(c)) == s && r is None
            }
        }),
{
    c.get(k)
}

/// `LruCache::pop`: takes the entry of `k` out and hands its value back; the
/// other entries keep their order. Nothing changes when there is none.
#[verifier::external_body]
fn lru_pop(c: &mut LruCache<u64, UserSearchCache>, k: &u64) -> (r: Option<UserSearchCache>)
    ensures
        cache_cap(*final(c)) == cache_cap(*old(c)),
        ({
            let s = cache_entries(*old(c));
            let i = key_index(s, *k);
            if i < s.len() {
                cache_entries(*final(c)) == s.remove(i) && r == Some(s[i].1)
            } else {
                cache_entries(*final(c)) == s && r is None
            }
        }),
{
    c.pop(k)
}

/// The users whose lookups are in memory, at most 50, most recently used
/// first.
pub struct SearchCache {
    pub users: LruCache<u64, UserSearchCache>,
}

/// How many users' lookups are kept in memory.
pub const CACHED_USERS: usize = 50;

/// Whether no key occurs twice among the entries.
pub open spec fn distinct_keys(s: Seq<(u64, UserSearchCache)>) -> bool {
    forall|i: int, j: int| 0 <= i < j < s.len() ==> s[i].0 != s[j].0
}

impl SearchCache {
    /// The cache's entries.
    pub open spec fn entries(self) -> Seq<(u64, UserSearchCache)> {
        cache_entries(self.users)
    }

    /// The cache holds at most 50 users, each once.
    pub open spec fn wf(self) -> bool {
        &&& cache_cap(self.users) == CACHED_USERS
        &&& self.entries().len() <= CACHED_USERS
        &&& distinct_keys(self.entries())
    }

    /// An empty cache.
    pub fn new() -> (r: Self)
        ensures
            r.wf(),
            r.entries().len() == 0,
    {
        SearchCache { users: lru_new(CACHED_USERS) }
    }

    /// The user's lookups if they are in memory; they become the most
    /// recently used.
    pub fn get(&mut self, user_id: &u64) -> (r: Option<&UserSearchCache>)
        requires
            old(self).wf(),
        ensures
            final(self).wf(),
            ({
                let s = old(self).entries();
                let i = key_index(s, *user_id);
                if i < s.len() {
                    final(self).entries() == seq![s[i]] + s.remove(i) && r == Some(&s[i].1)
                } else {
                    final(self).entries() == s && r is None
                }
            }),
    {
        let ghost s = self.entries();
        let r = lru_get(&mut self.users, user_id);
        proof {
            lemma_key_index_bounds(s, *user_id);
            let i = key_index(s, *user_id);
            if i < s.len() {
                let t = seq![s[i]] + s.remove(i);
                assert forall|a: int, b: int| 0 <= a < b < t.len() implies t[a].0 != t[b].0 by {
                    if a == 0 {
                        if b - 1 < i {
                            assert(t[b] == s[b - 1]);
                        } else {
                            assert(t[b] == s[b]);
                        }
                    } else {
                        let pa = if a - 1 < i { a - 1 } else { a };
                        let pb = if b - 1 < i { b - 1 } else { b };
                        assert(t[a] == s[pa]);
                        assert(t[b] == s[pb]);
                    }
                }
            }
        }
        r
    }

    /// Puts the user's lookups in memory. Hands back the lookups that had to
    /// leave to make room, which are to be saved, unless they are the same
    /// user's.
    pub fn push_save(&mut self, user_id: u64, cache: UserSearchCache) -> (r: Option<UserSearchCache>)
        requires
            old(self).wf(),
        ensures
            final(self).wf(),
            ({
                let s = old(self).entries();
                let i = key_index(s, user_id);
                if i < s.len() {
                    final(self).entries() == seq![(user_id, cache)] + s.remove(i) && r is None
                } else if s.len() >= CACHED_USERS {
                    final(self).entries() == seq![(user_id, cache)] + s.drop_last() && r == Some(
                        s.last().1,
                    )
                } else {
                    final(self).entries() == seq![(user_id, cache)] + s && r is None
                }
            }),
    {
        let ghost s = self.entries();
        let ghost c = cache;
        let pushed = lru_push(&mut self.users, user_id, cache);
        proof {
            lemma_key_index_bounds(s, user_id);
            let i = key_index(s, user_id);
            let t = self.entries();
            if i < s.len() {
                assert forall|a: int, b: int| 0 <= a < b < t.len() implies t[a].0 != t[b].0 by {
                    if a == 0 {
                        if b - 1 < i {
                            assert(t[b] == s[b - 1]);
                        } else {
                            assert(t[b] == s[b]);
                        }
                    } else {
                        let pa = if a - 1 < i { a - 1 } else { a };
                        let pb = if b - 1 < i { b - 1 } else { b };
                        assert(t[a] == s[pa]);
                        assert(t[b] == s[pb]);
                    }
                }
            } else {
                assert forall|a: int, b: int| 0 <= a < b < t.len() implies t[a].0 != t[b].0 by {
                    if a == 0 {
                        assert(t[b] == s[b - 1]);
                    } else {
                        assert(t[a] == s[a - 1]);
                        assert(t[b] == s[b - 1]);
                    }
                }
            }
        }
        match pushed {
            Some((evicted_id, evicted)) => {
                if evicted_id != user_id {
                    Some(evicted)
                } else {
                    None
                }
            },
            None => None,
        }
    }
}

/// The lookups a user had before a new one: those in memory, else those
/// stored on disk, if any.
pub open spec fn lookups_before(s: Seq<(u64, UserSearchCache)>, user_id: u64, stored: Option<UserSearchCache>) -> Option<UserSearchCache> {
    let i = key_index(s, user_id);
    if i < s.len() {
        Some(s[i].1)
    } else {
        stored
    }
}

impl SearchCache {
    /// Records that the user looked `lookup` up: it goes in front of the
    /// user's lookups (those in memory, else `stored`, those on disk, else
    /// none), and the user becomes the most recently used. Hands back the
    /// lookups of the user who had to leave to make room, which are to be
    /// saved.
    pub fn record_lookup(&mut self, user_id: u64, stored: Option<UserSearchCache>, lookup: String) -> (r: Option<UserSearchCache>)
        requires
            old(self).wf(),
        ensures
            final(self).wf(),
            ({
                let s = old(self).entries();
                let i = key_index(s, user_id);
                let e = final(self).entries();
                &&& e.len() > 0
                &&& e[0].0 == user_id
                &&& match lookups_before(s, user_id, stored) {
                    Some(b) => {
                        &&& e[0].1.user_id == b.user_id
                        &&& e[0].1.autocomplete_player@ == put_result(b.autocomplete_player@, lookup@, b.autocomplete_player.cap())
                        &&& e[0].1.autocomplete_player.cap() == b.autocomplete_player.cap()
                    },
                    None => {
                        &&& e[0].1.user_id == user_id
                        &&& e[0].1.autocomplete_player@ == put_result(Seq::empty(), lookup@, USER_LOOKUPS as nat)
                        &&& e[0].1.autocomplete_player.cap() == USER_LOOKUPS
                    },
                }
                &&& if i < s.len() {
                    e.drop_first() == s.remove(i) && r is None
                } else if s.len() >= CACHED_USERS {
                    e.drop_first() == s.drop_last() && r == Some(s.last().1)
                } else {
                    e.drop_first() == s && r is None
                }
            }),
    {
        let ghost s = self.entries();
        proof {
            lemma_key_index_bounds(s, user_id);
        }
        let ghost i = key_index(s, user_id);
        let in_memory = lru_pop(&mut self.users, &user_id);
        let ghost t = self.entries();
        proof {
            if i < s.len() {
                assert(t == s.remove(i));
                assert forall|a: int, b: int| 0 <= a < b < t.len() implies t[a].0 != t[b].0 by {
                    let pa = if a < i { a } else { a + 1 };
                    let pb = if b < i { b } else { b + 1 };
                    assert(t[a] == s[pa]);
                    assert(t[b] == s[pb]);
                }
                assert forall|m: int| 0 <= m < t.len() implies t[m].0 != user_id by {
                    let pm = if m < i { m } else { m + 1 };
                    assert(t[m] == s[pm]);
                }
            }
            lemma_key_index_bounds(t, user_id);
            if key_index(t, user_id) < t.len() {
                assert(t[key_index(t, user_id)].0 == user_id);
            }
        }
        let mut c = match in_memory {
            Some(c) => c,
            None => match stored {
                Some(c) => c,
                None => UserSearchCache::new(user_id),
            },
        };
        c.autocomplete_player.put(lookup);
        self.push_save(user_id, c)
    }
}

proof fn lemma_key_index_bounds(s: Seq<(u64, UserSearchCache)>, k: u64)
    ensures
        0 <= key_index(s, k) <= s.len(),
        key_index(s, k) < s.len() ==> s[key_index(s, k)].0 == k,
        forall|m: int| 0 <= m < key_index(s, k) ==> s[m].0 != k,
    decreases s.len(),
{
    if s.len() > 0 && s[0].0 != k {
        lemma_key_index_bounds(s.drop_first(), k);
        assert forall|m: int| 0 <= m < key_index(s, k) implies s[m].0 != k by {
            if m > 0 {
                assert(s[m] == s.drop_first()[m - 1]);
            }
        }
    }
}

/// A user's lookups that were just put in memory are what the next look-up
/// finds, and finding them changes nothing.
pub proof fn lemma_get_after_push(rest: Seq<(u64, UserSearchCache)>, user_id: u64, cache: UserSearchCache)
    ensures
        ({
            let s = seq![(user_id, cache)] + rest;
            &&& key_index(s, user_id) == 0
            &&& s[0].1 == cache
            &&& seq![s[0]] + s.remove(0) == s
        }),
{
    let s = seq![(user_id, cache)] + rest;
    assert(seq![s[0]] + s.remove(0) =~= s);
}

} // verus!
