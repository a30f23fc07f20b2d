//! The snapshots of a player's statistics that the `recent` command compares
//! against, one per day at most.
use crate::clock::now_unix_secs;
use crate::error::{IsacError, IsacInfo};
use crate::player::PartialPlayer;
use crate::region::{lower_name, Mode};
use crate::text::{decimal_text, u64_to_text};
use std::collections::BTreeMap;
use vstd::prelude::*;
use vstd::std_specs::cmp::OrdSpec;
use vstd::std_specs::iter::IteratorSpec;

verus! {

broadcast use vstd::std_specs::btree::group_btree_axioms;

/// Days without a request after which a player's snapshots stop being taken.
pub const RECENT_LAST_REQUEST_LIMIT: u64 = 14;

/// Seconds in a day.
pub const DAY_SECS: u64 = 86400;

/// When the player last asked: supporters are always tracked.
#[derive(Debug, Clone, Copy, PartialEq, Eq, Structural)]
pub enum PlayerSnapshotsType {
    Premium,
    Normal(u64),
}

/// A player's snapshots, keyed by the Unix time they were taken at.
#[derive(Debug)]
pub struct PlayerSnapshots<S> {
    pub player: PartialPlayer,
    /// Unix time of the latest snapshot.
    pub last_update_at: u64,
    pub last_request: PlayerSnapshotsType,
    pub data: BTreeMap<u64, S>,
}

/// The smallest key at or after `t`, if any.
pub open spec fn is_first_key_at_or_after<S>(m: Map<u64, S>, t: u64, k: u64) -> bool {
    &&& m.contains_key(k)
    &&& k >= t
    &&& forall|k2: u64| m.contains_key(k2) && k2 >= t ==> k <= k2
}

/// The largest key.
pub open spec fn is_last_key<S>(m: Map<u64, S>, k: u64) -> bool {
    &&& m.contains_key(k)
    &&& forall|k2: u64| m.contains_key(k2) ==> k2 <= k
}

/// Whether the numbers go strictly up.
pub open spec fn strictly_increasing(s: Seq<u64>) -> bool {
    forall|i: int, j: int| 0 <= i < j < s.len() ==> s[i] < s[j]
}

/// The file that holds a player's snapshots.
pub open spec fn snapshots_path(player: PartialPlayer) -> Seq<char> {
    "./recent_DB/players/"@ + lower_name(player.region) + "/"@ + decimal_text(player.uid as nat)
        + ".json"@
}

/// Keys that `cmp_spec` orders as less are less.
proof fn lemma_increasing_keys<S>(r: Seq<(&u64, &S)>)
    requires
        vstd::std_specs::btree::increasing_seq(r.map_values(|kv: (&u64, &S)| *kv.0)),
    ensures
        forall|i: int, j: int| 0 <= i < j < r.len() ==> *(#[trigger] r[i]).0 < *(#[trigger] r[j]).0,
{
    let keys = r.map_values(|kv: (&u64, &S)| *kv.0);
    assert forall|i: int, j: int| 0 <= i < j < r.len() implies *(#[trigger] r[i]).0 < *(#[trigger] r[j]).0 by {
        assert(keys[i].cmp_spec(&keys[j]) is Less);
    }
}

impl<S: Clone> PlayerSnapshots<S> {
    /// A new player: no snapshot, never updated, last asked at time 0.
    pub fn init(player: PartialPlayer) -> (r: Self)
        ensures
            r.player == player,
            r.last_update_at == 0,
            r.last_request == PlayerSnapshotsType::Normal(0),
            r.data@ == Map::<u64, S>::empty(),
    {
        PlayerSnapshots {
            player,
            last_update_at: 0,
            last_request: PlayerSnapshotsType::Normal(0),
            data: BTreeMap::new(),
        }
    }

    /// The snapshot taken exactly at `timestamp`, else the first one after it;
    /// `None` when all are older.
    pub fn get_date(&self, timestamp: &u64) -> (r: Option<(u64, S)>)
        ensures
            r matches Some((k, v)) ==> is_first_key_at_or_after(self.data@, *timestamp, k)
                && cloned(self.data@[k], v),
            r is None ==> forall|k: u64| self.data@.contains_key(k) ==> k < *timestamp,
    {
        if let Some(v) = self.data.get(timestamp) {
            return Some((*timestamp, v.clone()));
        }
        let ghost m = self.data@;
        let iter = self.data.iter();
        proof {
            lemma_increasing_keys(iter.remaining());
        }
        for kv in it: iter
            invariant
                m == self.data@,
                forall|i: int|
                    0 <= i < it.seq().len() ==> m.contains_key(*(#[trigger] it.seq()[i]).0) && m[*it.seq()[i].0]
                        == *it.seq()[i].1,
                forall|i: int, j: int|
                    0 <= i < j < it.seq().len() ==> *(#[trigger] it.seq()[i]).0 < *(#[trigger] it.seq()[j]).0,
                forall|i: int| 0 <= i < it.index() ==> *(#[trigger] it.seq()[i]).0 < *timestamp,
                forall|k: u64|
                    #[trigger] m.contains_key(k) && k >= *timestamp ==> exists|j: int|
                        it.index() <= j < it.seq().len() && *(#[trigger] it.seq()[j]).0 == k,
        {
            proof {
                if it.index() == 0 {
                    assert forall|k: u64| #[trigger] m.contains_key(k) && k >= *timestamp implies exists|j: int|
                        it.index() <= j < it.seq().len() && *(#[trigger] it.seq()[j]).0 == k by {
                        assert(it.seq().contains((&k, &m[k])));
                    }
                }
            }
            let (date, data) = kv;
            if *date >= *timestamp {
                proof {
                    assert forall|k2: u64| m.contains_key(k2) && k2 >= *timestamp implies *date <= k2 by {
                        let j = choose|j: int| it.index() <= j < it.seq().len() && *(#[trigger] it.seq()[j]).0 == k2;
                        if j > it.index() {
                            assert(*it.seq()[it.index()].0 < *it.seq()[j].0);
                        }
                    }
                }
                return Some((*date, data.clone()));
            }
        }
        proof {
            assert forall|k: u64| m.contains_key(k) implies k < *timestamp by {
                if k >= *timestamp {
                    assert(m.contains_key(k) && k >= *timestamp);
                }
            }
        }
        None
    }

    /// The latest snapshot; `None` only when there is none.
    pub fn latest_snapshot(&self) -> (r: Option<S>)
        ensures
            r matches Some(v) ==> exists|k: u64| is_last_key(self.data@, k) && cloned(self.data@[k], v),
            r is None ==> self.data@.dom().len() == 0,
    {
        let ghost m = self.data@;
        let iter = self.data.iter();
        proof {
            lemma_increasing_keys(iter.remaining());
        }
        let mut last: Option<&S> = None;
        let mut last_key: u64 = 0;
        for kv in it: iter
            invariant
                m == self.data@,
                forall|i: int|
                    0 <= i < it.seq().len() ==> m.contains_key(*(#[trigger] it.seq()[i]).0) && m[*it.seq()[i].0]
                        == *it.seq()[i].1,
                last matches Some(v) ==> m.contains_key(last_key) && m[last_key] == *v,
                forall|k: u64|
                    #[trigger] m.contains_key(k) ==> (last is Some && k <= last_key) || exists|j: int|
                        it.index() <= j < it.seq().len() && *(#[trigger] it.seq()[j]).0 == k,
                forall|i: int, j: int|
                    0 <= i < j < it.seq().len() ==> *(#[trigger] it.seq()[i]).0 < *(#[trigger] it.seq()[j]).0,
                forall|i: int| 0 <= i < it.index() ==> *(#[trigger] it.seq()[i]).0 <= last_key,
                last is Some <==> it.index() > 0,
                it.index() > 0 ==> last_key == *it.seq()[it.index() - 1].0,
        {
            let (date, data) = kv;
            proof {
                assert(kv == it.seq()[it.index()]);
                if it.index() > 0 {
                    assert(last_key < *date);
                }
                assert forall|k: u64| #[trigger] m.contains_key(k) implies (k <= *date) || exists|j: int|
                    it.index() + 1 <= j < it.seq().len() && *(#[trigger] it.seq()[j]).0 == k by {
                    if !(last is Some && k <= last_key) {
                        let j = choose|j: int| it.index() <= j < it.seq().len() && *(#[trigger] it.seq()[j]).0 == k;
                        if j > it.index() {
                            assert(it.index() + 1 <= j);
                        }
                    }
                }
            }
            last = Some(data);
            last_key = *date;
        }
        proof {
            if m.dom().len() > 0 {
                let k = m.dom().choose();
                assert(m.contains_key(k));
            }
            if last is Some {
                assert(is_last_key(m, last_key));
            }
        }
        match last {
            Some(v) => Some(v.clone()),
            None => None,
        }
    }

    /// The times of the snapshots taken before `timestamp`, oldest first: the
    /// dates a user may pick instead.
    pub fn available_dates(&self, timestamp: &u64) -> (r: Vec<u64>)
        ensures
            strictly_increasing(r@),
            forall|k: u64| r@.contains(k) <==> self.data@.contains_key(k) && k < *timestamp,
    {
        let ghost m = self.data@;
        let iter = self.data.iter();
        proof {
            lemma_increasing_keys(iter.remaining());
        }
        let mut out: Vec<u64> = Vec::new();
        for kv in it: iter
            invariant
                m == self.data@,
                forall|i: int|
                    0 <= i < it.seq().len() ==> m.contains_key(*(#[trigger] it.seq()[i]).0),
                forall|i: int, j: int|
                    0 <= i < j < it.seq().len() ==> *(#[trigger] it.seq()[i]).0 < *(#[trigger] it.seq()[j]).0,
                strictly_increasing(out@),
                forall|i: int, j: int|
                    0 <= i < out@.len() && it.index() <= j < it.seq().len() ==> #[trigger] out@[i]
                        < *(#[trigger] it.seq()[j]).0,
                forall|i: int| 0 <= i < out@.len() ==> m.contains_key(#[trigger] out@[i]) && out@[i] < *timestamp,
                forall|k: u64|
                    #[trigger] m.contains_key(k) && k < *timestamp ==> out@.contains(k) || exists|j: int|
                        it.index() <= j < it.seq().len() && *(#[trigger] it.seq()[j]).0 == k,
        {
            let (date, _data) = kv;
            proof {
                assert(kv == it.seq()[it.index()]);
            }
            let ghost before = out@;
            if *date < *timestamp {
                out.push(*date);
                proof {
                    assert forall|i: int, j: int| 0 <= i < j < out@.len() implies out@[i] < out@[j] by {
                        if j == out@.len() - 1 {
                            assert(out@[i] == before[i]);
                        } else {
                            assert(out@[i] == before[i]);
                            assert(out@[j] == before[j]);
                        }
                    }
                    assert forall|i: int, j: int|
                        0 <= i < out@.len() && it.index() + 1 <= j < it.seq().len() implies #[trigger] out@[i]
                            < *(#[trigger] it.seq()[j]).0 by {
                        if i < before.len() {
                            assert(out@[i] == before[i]);
                        }
                    }
                    assert forall|k: u64|
                        #[trigger] m.contains_key(k) && k < *timestamp implies out@.contains(k) || exists|j: int|
                            it.index() + 1 <= j < it.seq().len() && *(#[trigger] it.seq()[j]).0 == k by {
                        if before.contains(k) {
                            let q = choose|q: int| 0 <= q < before.len() && before[q] == k;
                            assert(out@[q] == k);
                        } else {
                            let j = choose|j: int| it.index() <= j < it.seq().len() && *(#[trigger] it.seq()[j]).0 == k;
                            if j == it.index() {
                                assert(out@[out@.len() - 1] == k);
                            }
                        }
                    }
                }
            } else {
                proof {
                    assert forall|k: u64|
                        #[trigger] m.contains_key(k) && k < *timestamp implies out@.contains(k) || exists|j: int|
                            it.index() + 1 <= j < it.seq().len() && *(#[trigger] it.seq()[j]).0 == k by {
                        if !out@.contains(k) {
                            let j = choose|j: int| it.index() <= j < it.seq().len() && *(#[trigger] it.seq()[j]).0 == k;
                        }
                    }
                }
            }
        }
        proof {
            assert forall|k: u64| out@.contains(k) implies m.contains_key(k) && k < *timestamp by {
                let q = choose|q: int| 0 <= q < out@.len() && out@[q] == k;
            }
            assert forall|k: u64| m.contains_key(k) && k < *timestamp implies out@.contains(k) by {
                assert(m.contains_key(k) && k < *timestamp);
            }
        }
        out
    }

    /// Records that the player asked at `now`: supporters are marked as such.
    pub fn update_last_request_at(&mut self, is_premium: bool, now: u64)
        ensures
            final(self).last_request == if is_premium {
                PlayerSnapshotsType::Premium
            } else {
                PlayerSnapshotsType::Normal(now)
            },
            final(self).player == old(self).player,
            final(self).last_update_at == old(self).last_update_at,
            final(self).data@ == old(self).data@,
    {
        self.last_request = if is_premium {
            PlayerSnapshotsType::Premium
        } else {
            PlayerSnapshotsType::Normal(now)
        };
    }

    /// Records that the player asked now. Tells whether the clock could be
    /// read; when it is set before the Unix epoch, a player who is no
    /// supporter is left as was.
    pub fn update_last_request(&mut self, is_premium: bool) -> (r: bool)
        ensures
            is_premium ==> final(self).last_request == PlayerSnapshotsType::Premium,
            !is_premium && r ==> final(self).last_request is Normal,
            !is_premium && !r ==> final(self).last_request == old(self).last_request,
            is_premium ==> r,
            final(self).player == old(self).player,
            final(self).last_update_at == old(self).last_update_at,
            final(self).data@ == old(self).data@,
    {
        if is_premium {
            self.update_last_request_at(true, 0);
            return true;
        }
        match now_unix_secs() {
            Some(now) => {
                self.update_last_request_at(false, now);
                true
            },
            None => false,
        }
    }

    /// Adds a snapshot taken at `now`.
    pub fn insert_at(&mut self, ships: S, now: u64)
        ensures
            final(self).data@ == old(self).data@.insert(now, ships),
            final(self).last_update_at == now,
            final(self).player == old(self).player,
            final(self).last_request == old(self).last_request,
    {
        self.data.insert(now, ships);
        self.last_update_at = now;
    }

    /// Adds a snapshot taken now. Tells whether the clock could be read;
    /// when it is set before the Unix epoch nothing is added.
    pub fn insert(&mut self, ships: S) -> (r: bool)
        ensures
            r ==> exists|now: u64|
                final(self).data@ == old(self).data@.insert(now, ships) && final(self).last_update_at == now,
            !r ==> final(self).data@ == old(self).data@ && final(self).last_update_at == old(
                self,
            ).last_update_at,
            final(self).player == old(self).player,
            final(self).last_request == old(self).last_request,
    {
        match now_unix_secs() {
            Some(now) => {
                self.insert_at(ships, now);
                true
            },
            None => false,
        }
    }

    /// Whether snapshots are still taken for this player at `now`: always for
    /// supporters, otherwise when the last request is less than 14 days old.
    pub fn is_active_at(&self, now: u64) -> (r: bool)
        requires
            self.last_request matches PlayerSnapshotsType::Normal(t) ==> t <= now,
        ensures
            r == match self.last_request {
                PlayerSnapshotsType::Premium => true,
                PlayerSnapshotsType::Normal(t) => now - t < RECENT_LAST_REQUEST_LIMIT * DAY_SECS,
            },
    {
        match self.last_request {
            PlayerSnapshotsType::Premium => true,
            PlayerSnapshotsType::Normal(t) => now - t < RECENT_LAST_REQUEST_LIMIT * DAY_SECS,
        }
    }

    /// Handles a request at `now` with the player's current statistics: tells
    /// whether the player was still tracked, records the request, and adds the
    /// current statistics as a snapshot when the latest is over a day old.
    pub fn record_request_at(&mut self, is_premium: bool, current: S, now: u64) -> (is_active: bool)
        requires
            old(self).last_request matches PlayerSnapshotsType::Normal(t) ==> t <= now,
            old(self).last_update_at <= now,
        ensures
            is_active == match old(self).last_request {
                PlayerSnapshotsType::Premium => true,
                PlayerSnapshotsType::Normal(t) => now - t < RECENT_LAST_REQUEST_LIMIT * DAY_SECS,
            },
            final(self).last_request == if is_premium {
                PlayerSnapshotsType::Premium
            } else {
                PlayerSnapshotsType::Normal(now)
            },
            now - old(self).last_update_at > DAY_SECS ==> final(self).data@ == old(self).data@.insert(
                now,
                current,
            ) && final(self).last_update_at == now,
            now - old(self).last_update_at <= DAY_SECS ==> final(self).data@ == old(self).data@
                && final(self).last_update_at == old(self).last_update_at,
            final(self).player == old(self).player,
    {
        let is_active = self.is_active_at(now);
        self.update_last_request_at(is_premium, now);
        if now - self.last_update_at > DAY_SECS {
            self.insert_at(current, now);
        }
        is_active
    }

    /// The file that holds the player's snapshots.
    pub fn get_path(player: &PartialPlayer) -> (r: String)
        ensures
            r@ == snapshots_path(*player),
    {
        let mut p = String::from_str("./recent_DB/players/");
        p.append(player.region.lower());
        p.append("/");
        let uid = u64_to_text(player.uid);
        p.append(uid.as_str());
        p.append(".json");
        p
    }
}

/// The most days back that a user may ask for: 90 for supporters, 30
/// otherwise.
pub fn recent_max_day(is_patron: bool) -> (r: u64)
    ensures
        r == if is_patron {
            90u64
        } else {
            30u64
        },
{
    if is_patron {
        90
    } else {
        30
    }
}

/// The message when a number of days outside 1 to the maximum is asked for.
pub open spec fn day_limit_text(day: u64, max_day: u64) -> Seq<char> {
    "**"@ + decimal_text(day as nat) + "** is illegal, min: **1** max: **"@ + decimal_text(
        max_day as nat,
    ) + "**"@
}

/// Refuses a number of days below 1 or above the maximum.
pub fn check_day(day: u64, max_day: u64) -> (r: Result<(), IsacError>)
    ensures
        1 <= day <= max_day ==> r is Ok,
        (day < 1 || day > max_day) ==> (r matches Err(IsacError::Info(IsacInfo::NeedPremium { msg }))
            && msg@ == day_limit_text(day, max_day)),
{
    if day < 1 || day > max_day {
        let mut msg = String::from_str("**");
        msg.append(u64_to_text(day).as_str());
        msg.append("** is illegal, min: **1** max: **");
        msg.append(u64_to_text(max_day).as_str());
        msg.append("**");
        Err(IsacError::Info(IsacInfo::NeedPremium { msg }))
    } else {
        Ok(())
    }
}

/// The Unix time `day` days before `now`.
pub fn target_time(now: u64, day: u64) -> (r: u64)
    requires
        day * DAY_SECS <= now,
    ensures
        r == now - day * DAY_SECS,
{
    now - day * DAY_SECS
}

/// How many days ago, rounded up, time `t` was at `now`.
pub open spec fn days_between(now: u64, t: u64) -> nat {
    ((now - t + DAY_SECS - 1) / DAY_SECS as int) as nat
}

/// Days ago, rounded up. Dividing in floating point gives
/// the same for spans below 2^53 seconds.
pub fn days_ago(now: u64, t: u64) -> (r: u64)
    requires
        t <= now,
    ensures
        r == days_between(now, t),
{
    let d = now - t;
    d / DAY_SECS + if d % DAY_SECS == 0 {
        0
    } else {
        1
    }
}

/// The days that a user is offered: the distinct ones, smallest first, at most 25.
pub open spec fn day_options_hold(days: Seq<u64>, r: Seq<u64>) -> bool {
    &&& strictly_increasing(r)
    &&& r.len() <= 25
    &&& forall|i: int| 0 <= i < r.len() ==> days.contains(#[trigger] r[i])
    &&& forall|x: u64| days.contains(x) ==> r.contains(x) || (r.len() == 25 && x > r.last())
}

/// Sorts the days, drops repeats and keeps the first 25.
pub fn day_options(days: &Vec<u64>) -> (r: Vec<u64>)
    ensures
        day_options_hold(days@, r@),
{
    let mut out: Vec<u64> = Vec::new();
    let mut done = false;
    while out.len() < 25 && !done
        invariant
            out@.len() <= 25,
            strictly_increasing(out@),
            forall|i: int| 0 <= i < out@.len() ==> days@.contains(#[trigger] out@[i]),
            forall|x: u64| days@.contains(x) && out@.len() > 0 && x <= out@.last() ==> out@.contains(x),
            done ==> forall|x: u64| days@.contains(x) ==> out@.contains(x),
        decreases 25 - out@.len(), if done { 0int } else { 1int },
    {
        // the smallest day above the last one taken
        let mut best: Option<u64> = None;
        let mut j: usize = 0;
        while j < days.len()
            invariant
                j <= days@.len(),
                strictly_increasing(out@),
                best matches Some(b) ==> days@.contains(b) && (out@.len() == 0 || b > out@.last()),
                forall|i: int|
                    0 <= i < j && (out@.len() == 0 || days@[i] > out@.last()) ==> (best matches Some(b) && b
                        <= #[trigger] days@[i]),
            decreases days@.len() - j,
        {
            let x = days[j];
            let above = out.len() == 0 || x > out[out.len() - 1];
            if above {
                match best {
                    Some(b) => {
                        if x < b {
                            best = Some(x);
                        }
                    },
                    None => {
                        best = Some(x);
                    },
                }
            }
            j = j + 1;
        }
        match best {
            Some(b) => {
                let ghost before = out@;
                out.push(b);
                proof {
                    assert forall|i: int, k: int| 0 <= i < k < out@.len() implies out@[i] < out@[k] by {
                        if k == out@.len() - 1 && i < before.len() {
                            assert(out@[i] == before[i]);
                        }
                    }
                    assert forall|x: u64| days@.contains(x) && out@.len() > 0 && x <= out@.last() implies out@.contains(x) by {
                        if before.len() > 0 && x <= before.last() {
                            let q = choose|q: int| 0 <= q < before.len() && before[q] == x;
                            assert(out@[q] == x);
                        } else if x == b {
                            assert(out@[out@.len() - 1] == x);
                        } else {
                            let q = choose|q: int| 0 <= q < days@.len() && days@[q] == x;
                            assert(b <= days@[q]);
                        }
                    }
                    assert forall|i: int| 0 <= i < out@.len() implies days@.contains(#[trigger] out@[i]) by {
                        if i < before.len() {
                            assert(out@[i] == before[i]);
                        }
                    }
                }
            },
            None => {
                proof {
                    assert forall|x: u64| days@.contains(x) implies out@.contains(x) by {
                        let q = choose|q: int| 0 <= q < days@.len() && days@[q] == x;
                        assert(days@[q] == x);
                    }
                }
                done = true;
            },
        }
    }
    proof {
        assert forall|x: u64| days@.contains(x) implies out@.contains(x) || (out@.len() == 25 && x
            > out@.last()) by {
            if !done && out@.len() == 25 && !(x > out@.last()) {
                assert(x <= out@.last());
            }
        }
    }
    out
}

/// What the bot says when the chosen day gave no battles.
pub open spec fn ask_day_text(
    ign: Seq<char>,
    mode_upper: Seq<char>,
    ship_name: Option<Seq<char>>,
    current_day: u64,
    has_choices: bool,
    is_active: bool,
) -> Seq<char> {
    let ship = match ship_name {
        Some(n) => " in **"@ + n + "**"@,
        None => Seq::empty(),
    };
    "`"@ + ign + "` played 0 battle"@ + ship + " in **"@ + mode_upper + "** last **"@
        + decimal_text(current_day as nat) + "** day."@ + (if has_choices {
        "\nChoose an older date?"@
    } else {
        Seq::empty()
    }) + (if !is_active {
        "```\nYou didn't use this command in the last 14 days, so ISAC stopped tracking your account, plz play a game and try it again```"@
    } else {
        Seq::empty()
    })
}

/// The message that asks for another day: who played no battle, in which
/// ship and mode, over how many days; whether older days can be chosen;
/// and, for a player no longer tracked, why.
pub fn ask_day_message(
    ign: &str,
    mode_upper: &str,
    ship_name: Option<&str>,
    current_day: u64,
    has_choices: bool,
    is_active: bool,
) -> (r: String)
    ensures
        r@ == ask_day_text(
            ign@,
            mode_upper@,
            match ship_name {
                Some(n) => Some(n@),
                None => None,
            },
            current_day,
            has_choices,
            is_active,
        ),
{
    let mut s = String::from_str("`");
    s.append(ign);
    s.append("` played 0 battle");
    match ship_name {
        Some(n) => {
            s.append(" in **");
            s.append(n);
            s.append("**");
        },
        None => {},
    }
    s.append(" in **");
    s.append(mode_upper);
    s.append("** last **");
    s.append(u64_to_text(current_day).as_str());
    s.append("** day.");
    if has_choices {
        s.append("\nChoose an older date?");
    }
    if !is_active {
        s.append(
            "```\nYou didn't use this command in the last 14 days, so ISAC stopped tracking your account, plz play a game and try it again```",
        );
    }
    proof {
        let ship: Seq<char> = match ship_name {
            Some(n) => " in **"@ + n@ + "**"@,
            None => Seq::empty(),
        };
        assert(s@ =~= ask_day_text(
            ign@,
            mode_upper@,
            match ship_name {
                Some(n) => Some(n@),
                None => None,
            },
            current_day,
            has_choices,
            is_active,
        ));
    }
    s
}

/// Whether `x` days back reaches a snapshot taken before `target`.
pub open spec fn offered_day<S>(m: Map<u64, S>, target: u64, now: u64, x: u64) -> bool {
    exists|k: u64| m.contains_key(k) && k < target && #[trigger] days_between(now, k) == x
}

/// The days that a user is offered when nothing was found at `target`: those
/// reaching an older snapshot, distinct, smallest first, at most 25.
pub open spec fn day_picks<S>(m: Map<u64, S>, target: u64, now: u64, r: Seq<u64>) -> bool {
    &&& strictly_increasing(r)
    &&& r.len() <= 25
    &&& forall|i: int| 0 <= i < r.len() ==> offered_day(m, target, now, #[trigger] r[i])
    &&& forall|x: u64| offered_day(m, target, now, x) ==> r.contains(x) || (r.len() == 25 && x > r.last())
}

/// Who and what the recent command asks about, for its messages.
#[derive(Debug, Clone)]
pub struct DayAsk {
    pub ign: String,
    pub mode_upper: String,
    pub ship_name: Option<String>,
    /// Whether the player is still tracked.
    pub is_active: bool,
}

/// What the recent command does after looking for a snapshot.
#[derive(Debug)]
pub enum DayAction {
    /// Show the change since the snapshot, taken this many days back.
    Show { exact_day: u64 },
    /// Ask for another day among these.
    Ask { options: Vec<u64>, message: String },
    /// Say so and stop: there is no other day to offer.
    Cancel { message: String },
}

/// The time a number of days asked for reaches back to; the days must be
/// between 1 and the maximum.
pub fn day_target(day: u64, max_day: u64, now: u64) -> (r: Result<u64, IsacError>)
    requires
        max_day * DAY_SECS <= now,
    ensures
        1 <= day <= max_day ==> r == Ok::<u64, IsacError>((now - day * DAY_SECS) as u64),
        (day < 1 || day > max_day) ==> (r matches Err(IsacError::Info(IsacInfo::NeedPremium { msg }))
            && msg@ == day_limit_text(day, max_day)),
{
    match check_day(day, max_day) {
        Ok(()) => {
            assert(day * DAY_SECS <= max_day * DAY_SECS) by (nonlinear_arith)
                requires
                    day <= max_day,
            ;
            Ok(target_time(now, day))
        },
        Err(e) => Err(e),
    }
}

/// The days back of the given snapshot times.
fn days_back(now: u64, times: &Vec<u64>) -> (r: Vec<u64>)
    requires
        forall|i: int| 0 <= i < times@.len() ==> times@[i] <= now,
    ensures
        r@.len() == times@.len(),
        forall|i: int| 0 <= i < r@.len() ==> r@[i] == days_between(now, #[trigger] times@[i]),
{
    let mut out: Vec<u64> = Vec::new();
    let mut i: usize = 0;
    while i < times.len()
        invariant
            i <= times@.len(),
            out@.len() == i,
            forall|j: int| 0 <= j < times@.len() ==> times@[j] <= now,
            forall|j: int| 0 <= j < i ==> out@[j] == days_between(now, #[trigger] times@[j]),
        decreases times@.len() - i,
    {
        let d = days_ago(now, times[i]);
        out.push(d);
        i = i + 1;
    }
    out
}

impl<S: Clone> PlayerSnapshots<S> {
    /// One round of the recent command after looking at `target`: with
    /// `found`, the time of the snapshot there that differs from the current
    /// statistics, show it; else offer the days of older snapshots, or stop
    /// when there is none.
    pub fn day_after_lookup(&self, ask: &DayAsk, day: u64, target: u64, now: u64, found: Option<u64>) -> (r:
        DayAction)
        requires
            target <= now,
            found matches Some(t) ==> t <= now,
        ensures
            found matches Some(t) ==> r matches DayAction::Show { exact_day } && exact_day == days_between(now, t),
            found is None ==> match r {
                DayAction::Ask { options, message } => {
                    &&& options@.len() > 0
                    &&& day_picks(self.data@, target, now, options@)
                    &&& message@ == ask_day_text(ask.ign@, ask.mode_upper@, match ask.ship_name {
                        Some(n) => Some(n@),
                        None => None,
                    }, day, true, ask.is_active)
                },
                DayAction::Cancel { message } => {
                    &&& forall|k: u64| self.data@.contains_key(k) ==> k >= target
                    &&& message@ == ask_day_text(ask.ign@, ask.mode_upper@, match ask.ship_name {
                        Some(n) => Some(n@),
                        None => None,
                    }, day, false, ask.is_active)
                },
                DayAction::Show { .. } => false,
            },
    {
        match found {
            Some(t) => DayAction::Show { exact_day: days_ago(now, t) },
            None => {
                let times = self.available_dates(&target);
                proof {
                    assert forall|i: int| 0 <= i < times@.len() implies times@[i] <= now by {
                        assert(times@.contains(times@[i]));
                    }
                }
                let days = days_back(now, &times);
                let options = day_options(&days);
                let ghost m = self.data@;
                proof {
                    assert forall|x: u64| days@.contains(x) <==> offered_day(m, target, now, x) by {
                        if days@.contains(x) {
                            let i = choose|i: int| 0 <= i < days@.len() && days@[i] == x;
                            assert(times@.contains(times@[i]));
                            assert(days_between(now, times@[i]) == x);
                        }
                        if offered_day(m, target, now, x) {
                            let k = choose|k: u64| m.contains_key(k) && k < target && #[trigger] days_between(now, k) == x;
                            assert(times@.contains(k));
                            let i = choose|i: int| 0 <= i < times@.len() && times@[i] == k;
                            assert(days@[i] == days_between(now, times@[i]));
                            assert(days@.contains(x));
                        }
                    }
                }
                let ship: Option<&str> = match &ask.ship_name {
                    Some(n) => Some(n.as_str()),
                    None => None,
                };
                let has_choices = options.len() > 0;
                let message = ask_day_message(ask.ign.as_str(), ask.mode_upper.as_str(), ship, day, has_choices, ask.is_active);
                if has_choices {
                    DayAction::Ask { options, message }
                } else {
                    proof {
                        assert forall|k: u64| m.contains_key(k) implies k >= target by {
                            if k < target {
                                assert(offered_day(m, target, now, days_between(now, k) as u64));
                                assert(days@.contains(days_between(now, k) as u64));
                            }
                        }
                    }
                    DayAction::Cancel { message }
                }
            },
        }
    }
}

/// The user's answer to the question for another day: the day picked, or
/// `Cancelled` when no answer came.
pub fn day_answer(picked: Option<u64>) -> (r: Result<u64, IsacError>)
    ensures
        picked matches Some(d) ==> r == Ok::<u64, IsacError>(d),
        picked is None ==> r matches Err(IsacError::Cancelled),
{
    match picked {
        Some(d) => Ok(d),
        None => Err(IsacError::Cancelled),
    }
}

/// How many ships the recent card lists at most.
pub const RECENT_OMIT_LIMIT: usize = 50;

/// A ship's line of the recent card, with what it is ordered by.
#[derive(Debug, Clone)]
pub struct RecentShip<T> {
    pub battles: u64,
    pub tier: u32,
    pub line: T,
}

/// The line's place in the order: most battles first, then highest tier.
pub open spec fn recent_key<T>(s: RecentShip<T>) -> u128 {
    ((s.battles as u128) * 0x1_0000_0000 + (s.tier as u128)) as u128
}

/// The lines keyed by their place in the order.
pub open spec fn recent_keyed<T>(s: Seq<RecentShip<T>>) -> Seq<(u128, RecentShip<T>)> {
    Seq::new(s.len(), |i: int| (recent_key(s[i]), s[i]))
}

/// The recent card's ships: most battles first, then highest tier (equal
/// ones keep their order), at most 50.
pub open spec fn recent_order<T>(s: Seq<RecentShip<T>>) -> Seq<RecentShip<T>> {
    let o = crate::order::sorted_desc(recent_keyed(s));
    let n: int = if o.len() < RECENT_OMIT_LIMIT {
        o.len() as int
    } else {
        RECENT_OMIT_LIMIT as int
    };
    o.take(n).map_values(|e: (u128, RecentShip<T>)| e.1)
}

/// Orders the recent card's ships and keeps the first 50.
pub fn recent_ships<T>(ships: Vec<RecentShip<T>>) -> (r: Vec<RecentShip<T>>)
    ensures
        r@ == recent_order(ships@),
{
    let ghost orig = ships@;
    let mut src = ships;
    let mut keyed: Vec<(u128, RecentShip<T>)> = Vec::new();
    let mut k: usize = 0;
    assert(orig.len() == src.len());
    while src.len() > 0
        invariant
            k <= orig.len(),
            orig.len() <= usize::MAX,
            src@ == orig.skip(k as int),
            keyed@ == recent_keyed(orig.take(k as int)),
        decreases src@.len(),
    {
        let x = src.remove(0);
        proof {
            assert(x == orig[k as int]);
            assert(src@ =~= orig.skip(k + 1));
        }
        let key: u128 = (x.battles as u128) * 0x1_0000_0000 + (x.tier as u128);
        keyed.push((key, x));
        k = k + 1;
        proof {
            assert(keyed@ =~= recent_keyed(orig.take(k as int)));
        }
    }
    proof {
        assert(orig.take(k as int) =~= orig);
    }
    crate::order::sort_desc(&mut keyed);
    keyed.truncate(RECENT_OMIT_LIMIT);
    let ghost kept = keyed@;
    let mut out: Vec<RecentShip<T>> = Vec::new();
    let mut j: usize = 0;
    assert(kept.len() == keyed.len());
    while keyed.len() > 0
        invariant
            j <= kept.len(),
            kept.len() <= usize::MAX,
            keyed@ == kept.skip(j as int),
            out@ == kept.take(j as int).map_values(|e: (u128, RecentShip<T>)| e.1),
        decreases keyed@.len(),
    {
        let e = keyed.remove(0);
        proof {
            assert(e == kept[j as int]);
            assert(keyed@ =~= kept.skip(j + 1));
        }
        out.push(e.1);
        j = j + 1;
        proof {
            assert(out@ =~= kept.take(j as int).map_values(|e: (u128, RecentShip<T>)| e.1));
        }
    }
    proof {
        assert(kept.take(j as int) =~= kept);
        let o = crate::order::sorted_desc(recent_keyed(orig));
        if o.len() >= RECENT_OMIT_LIMIT {
            assert(kept =~= o.take(RECENT_OMIT_LIMIT as int));
        } else {
            assert(kept =~= o.take(o.len() as int));
        }
    }
    out
}

/// The recent card's numbers for each battle type.
#[derive(Debug, Clone)]
pub struct RecentTemplateDiv<S> {
    pub pvp: Option<S>,
    pub pvp_solo: Option<S>,
    pub pvp_div2: Option<S>,
    pub pvp_div3: Option<S>,
    pub rank_solo: Option<S>,
}

impl<S> RecentTemplateDiv<S> {
    /// The numbers of one battle type.
    pub fn get_mode(&self, mode: &Mode) -> (r: Option<&S>)
        ensures
            r == match *mode {
                Mode::Pvp => match self.pvp {
                    Some(x) => Some(&x),
                    None => None,
                },
                Mode::Solo => match self.pvp_solo {
                    Some(x) => Some(&x),
                    None => None,
                },
                Mode::Div2 => match self.pvp_div2 {
                    Some(x) => Some(&x),
                    None => None,
                },
                Mode::Div3 => match self.pvp_div3 {
                    Some(x) => Some(&x),
                    None => None,
                },
                Mode::Rank => match self.rank_solo {
                    Some(x) => Some(&x),
                    None => None,
                },
            },
    {
        match mode {
            Mode::Pvp => self.pvp.as_ref(),
            Mode::Solo => self.pvp_solo.as_ref(),
            Mode::Div2 => self.pvp_div2.as_ref(),
            Mode::Div3 => self.pvp_div3.as_ref(),
            Mode::Rank => self.rank_solo.as_ref(),
        }
    }
}

/// A snapshot taken later than all others becomes the latest one, and is
/// what a look-up at its own time finds.
pub proof fn lemma_newest_snapshot_is_latest<S>(m: Map<u64, S>, now: u64, ships: S)
    requires
        forall|k: u64| m.contains_key(k) ==> k <= now,
    ensures
        is_last_key(m.insert(now, ships), now),
        is_first_key_at_or_after(m.insert(now, ships), now, now),
        m.insert(now, ships)[now] == ships,
{
}

/// Where some snapshot is not older than `t`, there is an earliest such
/// one, which is what a look-up at `t` finds; so a look-up finds nothing
/// only when every snapshot is older, and then all of them are offered as
/// older dates.
pub proof fn lemma_lookup_finds_a_date<S>(m: Map<u64, S>, t: u64, k: u64)
    requires
        m.contains_key(k),
        k >= t,
    ensures
        exists|f: u64| is_first_key_at_or_after(m, t, f) && f <= k,
{
    lemma_first_key_exists(m, t, k);
}

proof fn lemma_first_key_exists<S>(m: Map<u64, S>, t: u64, k: u64)
    requires
        m.contains_key(k),
        k >= t,
    ensures
        exists|f: u64| is_first_key_at_or_after(m, t, f) && f <= k,
    decreases k - t,
{
    if forall|k2: u64| m.contains_key(k2) && k2 >= t ==> k <= k2 {
        assert(is_first_key_at_or_after(m, t, k));
    } else {
        let k2 = choose|k2: u64| m.contains_key(k2) && k2 >= t && !(k <= k2);
        lemma_first_key_exists(m, t, k2);
    }
}

} // verus!
