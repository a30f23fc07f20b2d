//! The errors that commands answer with.
use crate::clan::PartialClan;
use crate::region::Region;
use vstd::prelude::*;

verus! {

/// Hints shown when a command was used the wrong way.
#[derive(Debug, Clone, Copy, PartialEq, Eq, Structural)]
pub enum IsacHelp {
    LackOfArguments,
}

/// Messages for the user about why a request could not be served.
#[derive(Debug, Clone)]
pub enum IsacInfo {
    GeneralError { msg: String },
    APIError { msg: String },
    UserNotLinked { user_name: Option<String> },
    NeedPremium { msg: String },
    PlayerIgnNotFound { ign: String, region: Region },
    ClanNoBattle { clan: PartialClan, season: u32 },
}

#[derive(Debug, Clone)]
pub enum IsacError {
    Help(IsacHelp),
    Info(IsacInfo),
    UnknownError(String),
    Cancelled,
}

} // verus!
