//! A clan's details as the clan API reports them, mainly for its rename history.
use crate::api::{unknown_error_text, Status};
use crate::error::{IsacError, IsacInfo};
use std::collections::HashMap;
use vstd::prelude::*;
use vstd::std_specs::hash::obeys_key_model;

verus! {

/// A clan's tag, such as `PANTS`.
#[derive(Debug, Clone)]
pub struct ClanTag(pub String);

impl ClanTag {
    /// The tag in square brackets, such as `[PANTS]`.
    pub fn with_brackets(&self) -> (r: String)
        ensures
            r@ == seq!['['] + self.0@ + seq![']'],
    {
        proof {
            reveal_strlit("[");
            reveal_strlit("]");
        }
        let mut s = String::from_str("[");
        s.append(self.0.as_str());
        s.append("]");
        s
    }
}

#[derive(Debug)]
pub struct ClanDetail {
    pub members_count: u32,
    pub name: String,
    pub creator_name: String,
    pub created_at: u64,
    pub tag: ClanTag,
    pub updated_at: u64,
    pub leader_name: String,
    pub members_ids: Vec<u64>,
    pub creator_id: u64,
    pub clan_id: u64,
    pub old_name: Option<String>,
    pub is_clan_disbanded: bool,
    pub renamed_at: Option<u64>,
    pub old_tag: Option<ClanTag>,
    pub leader_id: u64,
    pub description: String,
}

/// The clan API's answer: a status and, when it is `"ok"`, one clan keyed by its id.
#[derive(Debug)]
pub struct ClanDetailAPIRes {
    pub status: Status,
    pub data: HashMap<u64, ClanDetail>,
}

impl ClanDetailAPIRes {
    /// The clan, after checking that the status is `"ok"`; otherwise the API's
    /// error message.
    pub fn data(self) -> (r: Result<ClanDetail, IsacError>)
        requires
            self.status.status@ == seq!['o', 'k'] ==> self.data@.len() > 0,
        ensures
            self.status.status@ != seq!['o', 'k'] ==> (r matches Err(
                IsacError::Info(IsacInfo::APIError { msg }),
            ) && (self.status.error matches Some(e) ==> msg@ == e.message@) && (
            self.status.error is None ==> msg@ == unknown_error_text())),
            self.status.status@ == seq!['o', 'k'] ==> (r matches Ok(d) && exists|k: u64|
                self.data@.contains_key(k) && self.data@[k] == d),
    {
        if !self.status.ok() {
            let ghost err = self.status.error;
            let msg = self.status.err_msg();
            return Err(IsacError::Info(IsacInfo::APIError { msg }));
        }
        let mut data = self.data;
        let ghost m = data@;
        proof {
            assert(obeys_key_model::<u64>());
            assert(m.dom().finite());
            assert(m.dom().len() > 0);
            let k0 = m.dom().choose();
            assert(m.contains_key(k0));
        }
        let mut key: u64 = 0;
        let mut found = false;
        for k in it: data.keys()
            invariant
                found ==> m.contains_key(key),
                it.index() > 0 ==> found,
                it.seq().unref().to_set() == m.dom(),
                it.seq().len() == m.dom().len(),
        {
            proof {
                assert(it.seq().unref()[it.index()] == *k);
                assert(it.seq().unref().to_set().contains(*k));
            }
            key = *k;
            found = true;
        }
        match data.remove(&key) {
            Some(d) => Ok(d),
            None => {
                proof {
                    assert(false);
                }
                Err(IsacError::Cancelled)
            },
        }
    }
}

} // verus!
