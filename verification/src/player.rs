//! Players: the short form that identifies one, the full profile, dog tags
//! and the banners of supporters.
use crate::dogtag::{dogtag_path, Dogtag};
use crate::error::{IsacError, IsacInfo};
use crate::region::Region;
use crate::text::{decimal_text, u64_to_text};
use std::collections::HashMap;
use vstd::prelude::*;
use vstd::std_specs::hash::obeys_key_model;

verus! {

/// A player identified by server and account id.
#[derive(Debug, Clone, Copy, PartialEq, Eq, Structural, Hash)]
pub struct PartialPlayer {
    pub region: Region,
    pub uid: u64,
}

impl Default for PartialPlayer {
    fn default() -> (r: PartialPlayer)
        ensures
            r.region == Region::Asia,
            r.uid == 0,
    {
        PartialPlayer { region: Region::Asia, uid: 0 }
    }
}

/// A player's profile.
#[derive(Debug)]
pub struct Player {
    pub partial_player: PartialPlayer,
    pub uid: u64,
    pub ign: String,
    pub region: Region,
    pub karma: u64,
    /// The emblem or dog tag picture.
    pub dogtag: String,
    /// The dog tag's background picture.
    pub dogtag_bg: String,
    pub premium: bool,
    pub banner: String,
}

impl Default for Player {
    /// An unknown player: name `Unknown_Player`, everything else empty or zero.
    fn default() -> (r: Player)
        ensures
            r.partial_player == (PartialPlayer { region: Region::Asia, uid: 0 }),
            r.uid == 0,
            r.ign@ == "Unknown_Player"@,
            r.region == Region::Asia,
            r.karma == 0,
            r.dogtag@.len() == 0,
            r.dogtag_bg@.len() == 0,
            !r.premium,
            r.banner@.len() == 0,
    {
        Player {
            partial_player: PartialPlayer::default(),
            uid: 0,
            ign: String::from_str("Unknown_Player"),
            region: Region::Asia,
            karma: 0,
            dogtag: String::new(),
            dogtag_bg: String::new(),
            premium: false,
            banner: String::new(),
        }
    }
}

/// The parts of a player's dog tag.
#[derive(Debug, Clone, Copy, PartialEq, Eq, Structural)]
pub struct PlayerDogTag {
    pub texture_id: u64,
    pub symbol_id: u64,
    pub border_color_id: u64,
    pub background_color_id: u64,
    pub background_id: u64,
}

/// The picture of a dog tag part, or the empty text when there is none.
pub open spec fn dogtag_picture(dogtags: Map<u64, String>, id: u64) -> Seq<char> {
    if id != 0 && dogtags.contains_key(id) {
        dogtag_path(dogtags[id]@)
    } else {
        Seq::empty()
    }
}

impl PlayerDogTag {
    /// The symbol's picture; empty when not found.
    pub fn get_symbol(&self, dogtags: &Dogtag) -> (r: String)
        ensures
            r@ == dogtag_picture(dogtags.0@, self.symbol_id),
    {
        match dogtags.get(self.symbol_id) {
            Some(p) => p,
            None => String::new(),
        }
    }

    /// The background's picture; empty when not found.
    pub fn get_background(&self, dogtags: &Dogtag) -> (r: String)
        ensures
            r@ == dogtag_picture(dogtags.0@, self.background_id),
    {
        match dogtags.get(self.background_id) {
            Some(p) => p,
            None => String::new(),
        }
    }
}

/// A supporter's custom profile banner.
#[derive(Debug)]
pub struct BannerData {
    pub url: String,
    /// The Discord user name, kept for reference.
    pub name: String,
    pub discord_id: u64,
}

impl Clone for BannerData {
    fn clone(&self) -> (r: Self)
        ensures
            r == *self,
    {
        BannerData { url: self.url.clone(), name: self.name.clone(), discord_id: self.discord_id }
    }
}

impl Default for BannerData {
    fn default() -> (r: BannerData)
        ensures
            r.url@ == "./user_data/banner/patreon_default.png"@,
            r.name@.len() == 0,
            r.discord_id == 0,
    {
        BannerData {
            url: String::from_str("./user_data/banner/patreon_default.png"),
            name: String::new(),
            discord_id: 0,
        }
    }
}

/// The banners of supporters, by account id.
#[derive(Debug)]
pub struct Banner(pub HashMap<u64, BannerData>);

impl Banner {
    /// A copy of the banner of the account, if it has one.
    pub fn get(&self, uid: &u64) -> (r: Option<BannerData>)
        ensures
            self.0@.contains_key(*uid) ==> r == Some(self.0@[*uid]),
            !self.0@.contains_key(*uid) ==> r is None,
    {
        match self.0.get(uid) {
            Some(b) => Some(b.clone()),
            None => None,
        }
    }
}

/// The banners with every banner of the Discord user taken out.
pub open spec fn without_user(m: Map<u64, BannerData>, discord_id: u64) -> Map<u64, BannerData> {
    m.restrict(m.dom().filter(|k: u64| m[k].discord_id != discord_id))
}

impl Banner {
    /// Gives the supporter's account `uid` the banner `data`, taking out every
    /// banner the same Discord user set before; hands back those taken out,
    /// whose files can then be deleted.
    pub fn replace_user(&mut self, discord_id: u64, uid: u64, data: BannerData) -> (r: Vec<
        BannerData,
    >)
        ensures
            final(self).0@ == without_user(old(self).0@, discord_id).insert(uid, data),
            exists|ks: Seq<u64>|
                {
                    &&& ks.no_duplicates()
                    &&& ks.to_set() == old(self).0@.dom().filter(
                        |k: u64| old(self).0@[k].discord_id == discord_id,
                    )
                    &&& r@.len() == ks.len()
                    &&& forall|j: int| 0 <= j < ks.len() ==> r@[j] == old(self).0@[#[trigger] ks[j]]
                },
    {
        proof {
            assert(obeys_key_model::<u64>());
        }
        let ghost m0 = self.0@;
        let mut keys: Vec<u64> = Vec::new();
        for k in it: self.0.keys()
            invariant
                it.seq().unref().to_set() == m0.dom(),
                it.seq().len() == m0.dom().len(),
                it.seq().unref().no_duplicates(),
                self.0@ == m0,
                keys@.no_duplicates(),
                forall|j: int| 0 <= j < keys@.len() ==> m0.dom().contains(#[trigger] keys@[j]),
                forall|j: int| 0 <= j < keys@.len() ==> m0[#[trigger] keys@[j]].discord_id == discord_id,
                forall|x: u64|
                    m0.dom().contains(x) && m0[x].discord_id == discord_id ==> #[trigger] keys@.contains(x)
                        || exists|j: int|
                        it.index() <= j < it.seq().len() && #[trigger] it.seq().unref()[j] == x,
                forall|x: u64|
                    #[trigger] keys@.contains(x) ==> exists|j: int|
                        0 <= j < it.index() && it.seq().unref()[j] == x,
        {
            proof {
                assert(it.seq().unref()[it.index() as int] == *k);
                assert(it.seq().unref().to_set().contains(*k));
            }
            let ghost before = keys@;
            match self.0.get(k) {
                Some(v) => {
                    if v.discord_id == discord_id {
                        proof {
                            assert(!keys@.contains(*k)) by {
                                if keys@.contains(*k) {
                                    let q = choose|q: int|
                                        0 <= q < it.index() && it.seq().unref()[q] == *k;
                                    assert(it.seq().unref()[q] == it.seq().unref()[it.index() as int]);
                                }
                            }
                        }
                        keys.push(*k);
                    }
                },
                None => {},
            }
            proof {
                assert forall|x: u64| #[trigger] keys@.contains(x) implies exists|j: int|
                    0 <= j < it.index() + 1 && it.seq().unref()[j] == x by {
                    if x == *k {
                        assert(it.seq().unref()[it.index() as int] == x);
                    } else {
                        assert(before.contains(x));
                    }
                }
                assert forall|x: u64|
                    m0.dom().contains(x) && m0[x].discord_id == discord_id implies #[trigger] keys@.contains(x)
                        || exists|j: int|
                        it.index() + 1 <= j < it.seq().len() && #[trigger] it.seq().unref()[j] == x by {
                    if x == *k {
                        assert(keys@.last() == x);
                    } else if !before.contains(x) {
                        let q = choose|q: int|
                            it.index() <= q < it.seq().len() && #[trigger] it.seq().unref()[q] == x;
                        assert(q != it.index());
                    } else {
                        let q = choose|q: int| 0 <= q < before.len() && before[q] == x;
                        assert(keys@[q] == x);
                    }
                }
            }
        }
        let ghost sel = m0.dom().filter(|k: u64| m0[k].discord_id == discord_id);
        proof {
            assert forall|x: u64| sel.contains(x) <==> keys@.contains(x) by {
                if keys@.contains(x) {
                    let q = choose|q: int| 0 <= q < keys@.len() && keys@[q] == x;
                    assert(m0.dom().contains(keys@[q]));
                }
            }
        }
        let mut removed: Vec<BannerData> = Vec::new();
        let mut i: usize = 0;
        while i < keys.len()
            invariant
                i <= keys@.len(),
                keys@.no_duplicates(),
                forall|j: int| 0 <= j < keys@.len() ==> m0.dom().contains(#[trigger] keys@[j]),
                forall|j: int| 0 <= j < keys@.len() ==> m0[#[trigger] keys@[j]].discord_id == discord_id,
                self.0@ == m0.remove_keys(keys@.take(i as int).to_set()),
                removed@.len() == i,
                forall|j: int| 0 <= j < i ==> (#[trigger] removed@[j]) == m0[keys@[j]],
            decreases keys@.len() - i,
        {
            let key = keys[i];
            proof {
                assert(!keys@.take(i as int).contains(key)) by {
                    if keys@.take(i as int).contains(key) {
                        let q = choose|q: int| 0 <= q < i && keys@.take(i as int)[q] == key;
                        assert(keys@[q] == keys@[i as int]);
                    }
                }
                assert(self.0@.contains_key(key));
            }
            match self.0.remove(&key) {
                Some(v) => {
                    removed.push(v);
                },
                None => {},
            }
            proof {
                let a = keys@.take(i + 1);
                let b = keys@.take(i as int);
                assert forall|x: u64| a.to_set().contains(x) <==> b.to_set().insert(key).contains(x) by {
                    if a.contains(x) {
                        let q = choose|q: int| 0 <= q < a.len() && a[q] == x;
                        if q < i {
                            assert(b[q] == x);
                        }
                    }
                    if b.contains(x) {
                        let q = choose|q: int| 0 <= q < b.len() && b[q] == x;
                        assert(a[q] == x);
                    }
                    if x == key {
                        assert(a[i as int] == x);
                    }
                }
                assert(a.to_set() =~= b.to_set().insert(key));
            }
            i = i + 1;
        }
        self.0.insert(uid, data);
        proof {
            assert(keys@.take(i as int) =~= keys@);
            assert(m0.remove_keys(keys@.to_set()) =~= without_user(m0, discord_id));
            assert(keys@.to_set() =~= sel);
            assert(forall|j: int| 0 <= j < keys@.len() ==> removed@[j] == m0[#[trigger] keys@[j]]);
        }
        removed
    }
}

/// The file type of an uploaded banner: what follows `image/` in its content
/// type, up to the next `/`.
pub open spec fn image_subtype(ct: Seq<char>) -> Option<Seq<char>> {
    let prefix = "image/"@;
    if ct.len() >= prefix.len() && ct.take(prefix.len() as int) == prefix {
        let rest = ct.skip(prefix.len() as int);
        Some(rest.take(first_slash(rest)))
    } else {
        None
    }
}

/// The index of the first `/`, or the length when there is none.
pub open spec fn first_slash(s: Seq<char>) -> int
    decreases s.len(),
{
    if s.len() == 0 {
        0
    } else if s[0] == '/' {
        0
    } else {
        1 + first_slash(s.drop_first())
    }
}

proof fn lemma_first_slash_is(s: Seq<char>, j: int)
    requires
        0 <= j <= s.len(),
        forall|m: int| 0 <= m < j ==> s[m] != '/',
        j < s.len() ==> s[j] == '/',
    ensures
        first_slash(s) == j,
    decreases j,
{
    if j > 0 {
        lemma_first_slash_is(s.drop_first(), j - 1);
    }
}

fn not_image_error() -> (r: IsacError)
    ensures
        r matches IsacError::Info(IsacInfo::GeneralError { msg }) && msg@
            == "Invalid or non-image file type"@,
{
    IsacError::Info(
        IsacInfo::GeneralError { msg: String::from_str("Invalid or non-image file type") },
    )
}

/// The file type of an uploaded banner, or the error that the upload is
/// not an image.
pub fn banner_file_type(content_type: Option<&str>) -> (r: Result<String, IsacError>)
    ensures
        match content_type {
            Some(ct) => match image_subtype(ct@) {
                Some(t) => r matches Ok(x) && x@ == t,
                None => r matches Err(IsacError::Info(IsacInfo::GeneralError { msg })) && msg@
                    == "Invalid or non-image file type"@,
            },
            None => r matches Err(IsacError::Info(IsacInfo::GeneralError { msg })) && msg@
                == "Invalid or non-image file type"@,
        },
{
    let ct = match content_type {
        Some(ct) => ct,
        None => {
            return Err(not_image_error());
        },
    };
    proof {
        reveal_strlit("image/");
    }
    let prefix = "image/";
    let n = ct.unicode_len();
    if n < 6 {
        return Err(not_image_error());
    }
    let mut i: usize = 0;
    while i < 6
        invariant
            i <= 6,
            n == ct@.len(),
            n >= 6,
            prefix@ == "image/"@,
            prefix@.len() == 6,
            forall|m: int| 0 <= m < i ==> ct@[m] == prefix@[m],
            content_type == Some(ct),
        decreases 6 - i,
    {
        if ct.get_char(i) != prefix.get_char(i) {
            proof {
                assert(ct@.take(6)[i as int] != "image/"@[i as int]);
                assert(ct@.take(6) != "image/"@);
                assert(image_subtype(ct@) is None);
            }
            return Err(not_image_error());
        }
        i = i + 1;
    }
    proof {
        assert(ct@.take(6) =~= "image/"@);
    }
    let mut j: usize = 6;
    while j < n && ct.get_char(j) != '/'
        invariant
            6 <= j <= n,
            n == ct@.len(),
            forall|m: int| 6 <= m < j ==> ct@[m] != '/',
        decreases n - j,
    {
        j = j + 1;
    }
    proof {
        let rest = ct@.skip(6);
        lemma_first_slash_is(rest, j - 6);
        assert(rest.take(j - 6) =~= ct@.subrange(6, j as int));
    }
    Ok(String::from_str(ct.substring_char(6, j)))
}

/// Where a supporter's banner is stored: by Discord user id and file type.
pub open spec fn banner_path(discord_id: u64, file_type: Seq<char>) -> Seq<char> {
    "./user_data/banner/"@ + decimal_text(discord_id as nat) + "."@ + file_type
}

/// The path of a supporter's banner file.
pub fn banner_file_path(discord_id: u64, file_type: &str) -> (r: String)
    ensures
        r@ == banner_path(discord_id, file_type@),
{
    let mut p = String::from_str("./user_data/banner/");
    p.append(u64_to_text(discord_id).as_str());
    p.append(".");
    p.append(file_type);
    p
}

/// Only supporters may upload a banner.
pub fn check_supporter(is_supporter: bool) -> (r: Result<(), IsacError>)
    ensures
        is_supporter ==> r is Ok,
        !is_supporter ==> (r matches Err(IsacError::Info(IsacInfo::NeedPremium { msg })) && msg@.len()
            == 0),
{
    if is_supporter {
        Ok(())
    } else {
        Err(IsacError::Info(IsacInfo::NeedPremium { msg: String::new() }))
    }
}

/// The log line of a banner upload: who, the picture's size and the file's
/// size in whole kilobytes.
pub open spec fn upload_log(discord_id: u64, width: u32, height: u32, size: u32) -> Seq<char> {
    "<@"@ + decimal_text(discord_id as nat) + ">, width: "@ + decimal_text(width as nat)
        + " height: "@ + decimal_text(height as nat) + ", size: "@ + decimal_text(
        (size / 1000) as nat,
    ) + " KB"@
}

/// Writes the log line of a banner upload; a missing width or height is 0.
pub fn upload_log_text(discord_id: u64, width: Option<u32>, height: Option<u32>, size: u32) -> (r:
    String)
    ensures
        r@ == upload_log(
            discord_id,
            match width {
                Some(w) => w,
                None => 0,
            },
            match height {
                Some(h) => h,
                None => 0,
            },
            size,
        ),
{
    let w = match width {
        Some(w) => w,
        None => 0,
    };
    let h = match height {
        Some(h) => h,
        None => 0,
    };
    let mut s = String::from_str("<@");
    s.append(u64_to_text(discord_id).as_str());
    s.append(">, width: ");
    s.append(u64_to_text(w as u64).as_str());
    s.append(" height: ");
    s.append(u64_to_text(h as u64).as_str());
    s.append(", size: ");
    s.append(u64_to_text((size / 1000) as u64).as_str());
    s.append(" KB");
    s
}

} // verus!
