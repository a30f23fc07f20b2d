//! Which Discord users linked which game accounts, and who supports the bot.
use crate::player::PartialPlayer;
use crate::text::{decimal_text, u64_to_text};
use std::collections::HashMap;
use vstd::prelude::*;
use vstd::std_specs::hash::obeys_key_model;

verus! {

/// The game account that each Discord user linked, by Discord user id.
#[derive(Debug)]
pub struct Linked(pub HashMap<u64, PartialPlayer>);

impl Linked {
    /// The account that the user linked; `None` if not linked.
    pub fn get(&self, user_id: &u64) -> (r: Option<PartialPlayer>)
        ensures
            self.0@.contains_key(*user_id) ==> r == Some(self.0@[*user_id]),
            !self.0@.contains_key(*user_id) ==> r is None,
    {
        match self.0.get(user_id) {
            Some(p) => Some(*p),
            None => None,
        }
    }
}

/// A supporter.
#[derive(Debug, Clone)]
pub struct Patron {
    pub discord_id: u64,
    pub uid: u64,
    /// Discord user name.
    pub discord_name: String,
    /// Nickname in the server, if set.
    pub discord_nick: Option<String>,
}

/// The supporters.
#[derive(Debug, Clone)]
pub struct Patrons(pub Vec<Patron>);

impl Patrons {
    /// Whether some supporter owns the game account `uid`.
    pub open spec fn has_player(self, uid: u64) -> bool {
        exists|i: int| 0 <= i < self.0@.len() && #[trigger] self.0@[i].uid == uid
    }

    /// Whether the Discord user is a supporter.
    pub fn check_user(&self, discord_id: &u64) -> (r: bool)
        ensures
            r == exists|i: int| 0 <= i < self.0@.len() && #[trigger] self.0@[i].discord_id == *discord_id,
    {
        let mut i: usize = 0;
        while i < self.0.len()
            invariant
                i <= self.0@.len(),
                forall|j: int| 0 <= j < i ==> #[trigger] self.0@[j].discord_id != *discord_id,
            decreases self.0@.len() - i,
        {
            if self.0[i].discord_id == *discord_id {
                return true;
            }
            i = i + 1;
        }
        false
    }

    /// Whether the game account belongs to a supporter.
    pub fn check_player(&self, uid: &u64) -> (r: bool)
        ensures
            r == self.has_player(*uid),
    {
        let mut i: usize = 0;
        while i < self.0.len()
            invariant
                i <= self.0@.len(),
                forall|j: int| 0 <= j < i ==> #[trigger] self.0@[j].uid != *uid,
            decreases self.0@.len() - i,
        {
            if self.0[i].uid == *uid {
                return true;
            }
            i = i + 1;
        }
        false
    }
}

/// Settings that change seldom.
#[derive(Debug, Clone, Copy)]
pub struct LittleConstant {
    /// The latest clan battle season.
    pub clan_season: u32,
}

impl Default for LittleConstant {
    /// Season 5; the first `clan` command updates it.
    fn default() -> (r: LittleConstant)
        ensures
            r.clan_season == 5,
    {
        LittleConstant { clan_season: 5 }
    }
}

impl Linked {
    /// The Discord users who linked the account, each once, in no
    /// particular order.
    pub fn users_of(&self, player: &PartialPlayer) -> (r: Vec<u64>)
        ensures
            r@.no_duplicates(),
            forall|k: u64| #[trigger] r@.contains(k) <==> (self.0@.contains_key(k) && self.0@[k] == *player),
    {
        proof {
            assert(obeys_key_model::<u64>());
        }
        let ghost m0 = self.0@;
        let mut out: Vec<u64> = Vec::new();
        for k in it: self.0.keys()
            invariant
                it.seq().unref().to_set() == m0.dom(),
                it.seq().unref().no_duplicates(),
                self.0@ == m0,
                out@.no_duplicates(),
                forall|j: int| 0 <= j < out@.len() ==> m0.dom().contains(#[trigger] out@[j]),
                forall|j: int| 0 <= j < out@.len() ==> m0[#[trigger] out@[j]] == *player,
                forall|x: u64|
                    m0.dom().contains(x) && m0[x] == *player ==> #[trigger] out@.contains(x)
                        || exists|j: int|
                        it.index() <= j < it.seq().len() && #[trigger] it.seq().unref()[j] == x,
                forall|x: u64|
                    #[trigger] out@.contains(x) ==> exists|j: int|
                        0 <= j < it.index() && it.seq().unref()[j] == x,
        {
            proof {
                assert(it.seq().unref()[it.index() as int] == *k);
                assert(it.seq().unref().to_set().contains(*k));
            }
            let ghost before = out@;
            match self.0.get(k) {
                Some(v) => {
                    if *v == *player {
                        proof {
                            assert(!out@.contains(*k)) by {
                                if out@.contains(*k) {
                                    let q = choose|q: int|
                                        0 <= q < it.index() && it.seq().unref()[q] == *k;
                                    assert(it.seq().unref()[q] == it.seq().unref()[it.index() as int]);
                                }
                            }
                        }
                        out.push(*k);
                    }
                },
                None => {},
            }
            proof {
                assert forall|x: u64| #[trigger] out@.contains(x) implies exists|j: int|
                    0 <= j < it.index() + 1 && it.seq().unref()[j] == x by {
                    if x == *k {
                        assert(it.seq().unref()[it.index() as int] == x);
                    } else {
                        assert(before.contains(x));
                    }
                }
                assert forall|x: u64|
                    m0.dom().contains(x) && m0[x] == *player implies #[trigger] out@.contains(x)
                        || exists|j: int|
                        it.index() + 1 <= j < it.seq().len() && #[trigger] it.seq().unref()[j] == x by {
                    if x == *k {
                        assert(out@.last() == x);
                    } else if !before.contains(x) {
                        let q = choose|q: int|
                            it.index() <= q < it.seq().len() && #[trigger] it.seq().unref()[q] == x;
                        assert(q != it.index());
                    } else {
                        let q = choose|q: int| 0 <= q < before.len() && before[q] == x;
                        assert(out@[q] == x);
                    }
                }
            }
        }
        proof {
            assert forall|x: u64| #[trigger] out@.contains(x) implies (m0.dom().contains(x) && m0[x]
                == *player) by {
                let q = choose|q: int| 0 <= q < out@.len() && out@[q] == x;
                assert(m0.dom().contains(out@[q]));
            }
        }
        out
    }
}

/// The mentions of the users, one per line.
pub open spec fn mention_lines(ids: Seq<u64>) -> Seq<char>
    decreases ids.len(),
{
    if ids.len() == 0 {
        Seq::empty()
    } else if ids.len() == 1 {
        "<@"@ + decimal_text(ids[0] as nat) + ">"@
    } else {
        mention_lines(ids.drop_last()) + "\n<@"@ + decimal_text(ids.last() as nat) + ">"@
    }
}

/// Mentions the users, one per line.
pub fn mentions(ids: &Vec<u64>) -> (r: String)
    ensures
        r@ == mention_lines(ids@),
{
    let mut out = String::new();
    let mut i: usize = 0;
    while i < ids.len()
        invariant
            i <= ids@.len(),
            out@ == mention_lines(ids@.take(i as int)),
        decreases ids@.len() - i,
    {
        proof {
            assert(ids@.take(i + 1).drop_last() =~= ids@.take(i as int));
        }
        if i > 0 {
            out.append("\n");
        }
        out.append("<@");
        out.append(u64_to_text(ids[i]).as_str());
        out.append(">");
        i = i + 1;
        proof {
            reveal_strlit("\n");
            reveal_strlit("<@");
            reveal_strlit("\n<@");
            assert(out@ =~= mention_lines(ids@.take(i as int)));
        }
    }
    proof {
        assert(ids@.take(i as int) =~= ids@);
    }
    out
}

/// What the supporters' list needs to know of a member of the server.
#[derive(Debug, Clone)]
pub struct GuildMember {
    pub discord_id: u64,
    pub name: String,
    pub nick: Option<String>,
    pub roles: Vec<u64>,
}

/// Whether the member has either supporter role.
pub open spec fn has_supporter_role(m: GuildMember, patreon_role: u64, supporter_role: u64) -> bool {
    m.roles@.contains(patreon_role) || m.roles@.contains(supporter_role)
}

/// The supporter entry of a member: the account the member linked, or 0.
pub open spec fn patron_of(m: GuildMember, linked: Map<u64, PartialPlayer>) -> Patron {
    Patron {
        discord_id: m.discord_id,
        uid: if linked.contains_key(m.discord_id) {
            linked[m.discord_id].uid
        } else {
            0
        },
        discord_name: m.name,
        discord_nick: m.nick,
    }
}

/// The supporters among the members, in their order.
pub open spec fn supporters(
    ms: Seq<GuildMember>,
    linked: Map<u64, PartialPlayer>,
    patreon_role: u64,
    supporter_role: u64,
) -> Seq<Patron>
    decreases ms.len(),
{
    if ms.len() == 0 {
        Seq::empty()
    } else {
        let p = supporters(ms.drop_last(), linked, patreon_role, supporter_role);
        if has_supporter_role(ms.last(), patreon_role, supporter_role) {
            p.push(patron_of(ms.last(), linked))
        } else {
            p
        }
    }
}

fn has_role(roles: &Vec<u64>, role: u64) -> (r: bool)
    ensures
        r == roles@.contains(role),
{
    let mut i: usize = 0;
    while i < roles.len()
        invariant
            i <= roles@.len(),
            forall|j: int| 0 <= j < i ==> roles@[j] != role,
        decreases roles@.len() - i,
    {
        if roles[i] == role {
            return true;
        }
        i = i + 1;
    }
    false
}

/// The supporters: the members with the Patreon or the supporter role,
/// each with the account that they linked (0 when none).
pub fn patrons_from_members(
    members: &Vec<GuildMember>,
    linked: &Linked,
    patreon_role: u64,
    supporter_role: u64,
) -> (r: Patrons)
    ensures
        r.0@ == supporters(members@, linked.0@, patreon_role, supporter_role),
{
    let mut out: Vec<Patron> = Vec::new();
    let mut i: usize = 0;
    while i < members.len()
        invariant
            i <= members@.len(),
            out@ == supporters(members@.take(i as int), linked.0@, patreon_role, supporter_role),
        decreases members@.len() - i,
    {
        proof {
            assert(members@.take(i + 1).drop_last() =~= members@.take(i as int));
        }
        let m = &members[i];
        if has_role(&m.roles, patreon_role) || has_role(&m.roles, supporter_role) {
            let uid = match linked.get(&m.discord_id) {
                Some(p) => p.uid,
                None => 0,
            };
            let nick = match &m.nick {
                Some(n) => Some(n.clone()),
                None => None,
            };
            out.push(Patron { discord_id: m.discord_id, uid, discord_name: m.name.clone(), discord_nick: nick });
        }
        i = i + 1;
    }
    proof {
        assert(members@.take(i as int) =~= members@);
    }
    Patrons(out)
}

} // verus!
