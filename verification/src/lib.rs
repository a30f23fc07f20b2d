//! Verified core logic of ISAC, a World of Warships statistics bot.
pub mod lru_vector;
pub mod text;
pub mod error;
pub mod region;
pub mod args;
pub mod api;
pub mod clan_detail;
pub mod color;
pub mod dogtag;
pub mod player;
pub mod account;
pub mod clock;
pub mod recent;
pub mod clan;
pub mod bonus_code;
pub mod roulette;
pub mod leaderboard;
pub mod clan_view;
pub mod order;
pub mod wws_view;
pub mod pick;
pub mod clan_top;
pub mod search_cache;
pub mod scrape;
