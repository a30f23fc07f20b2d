use isac::error::{IsacError, IsacInfo};
use isac::player::PartialPlayer;
use isac::recent::{
    ask_day_message, check_day, day_answer, day_options, day_target, days_ago, recent_max_day,
    recent_ships, target_time, DayAction, DayAsk, PlayerSnapshots, PlayerSnapshotsType, RecentShip, RecentTemplateDiv,
};
use isac::region::{Mode, Region};

fn player() -> PartialPlayer {
    PartialPlayer { region: Region::Eu, uid: 566 }
}

fn snapshots() -> PlayerSnapshots<&'static str> {
    let mut s = PlayerSnapshots::init(player());
    s.insert_at("day1", 100);
    s.insert_at("day2", 200);
    s.insert_at("day3", 300);
    s
}

#[test]
fn get_date_exact_or_next() {
    let s = snapshots();
    assert_eq!(s.get_date(&200), Some((200, "day2")));
    assert_eq!(s.get_date(&150), Some((200, "day2")));
    assert_eq!(s.get_date(&0), Some((100, "day1")));
    assert_eq!(s.get_date(&301), None);
}

#[test]
fn available_dates_are_older_ones() {
    let s = snapshots();
    assert_eq!(s.available_dates(&250), vec![100, 200]);
    assert_eq!(s.available_dates(&100), Vec::<u64>::new());
    assert_eq!(s.available_dates(&1000), vec![100, 200, 300]);
}

#[test]
fn latest_snapshot_is_newest() {
    let s = snapshots();
    assert_eq!(s.latest_snapshot(), Some("day3"));
    let empty: PlayerSnapshots<&str> = PlayerSnapshots::init(player());
    assert_eq!(empty.latest_snapshot(), None);
}

#[test]
fn newest_insert_becomes_latest() {
    let mut s = snapshots();
    s.insert_at("day4", 400);
    assert_eq!(s.latest_snapshot(), Some("day4"));
    assert_eq!(s.get_date(&400), Some((400, "day4")));
    assert_eq!(s.last_update_at, 400);
}

#[test]
fn record_request_tracks_activity() {
    let day = 86400u64;
    let mut s: PlayerSnapshots<&str> = PlayerSnapshots::init(player());
    s.last_request = PlayerSnapshotsType::Normal(0);
    // last asked 13 days ago: still active; the snapshot is over a day old
    let now = 13 * day;
    assert!(s.record_request_at(false, "now", now));
    assert_eq!(s.last_request, PlayerSnapshotsType::Normal(now));
    assert_eq!(s.latest_snapshot(), Some("now"));
    // a second request the same day adds nothing
    assert!(s.record_request_at(true, "later", now + 10));
    assert_eq!(s.latest_snapshot(), Some("now"));
    assert_eq!(s.last_request, PlayerSnapshotsType::Premium);
    let mut old: PlayerSnapshots<&str> = PlayerSnapshots::init(player());
    assert!(!old.record_request_at(false, "x", 14 * day));
}

#[test]
fn snapshot_path() {
    assert_eq!(
        PlayerSnapshots::<()>::get_path(&player()),
        "./recent_DB/players/eu/566.json"
    );
}

#[test]
fn day_limits() {
    assert_eq!(recent_max_day(true), 90);
    assert_eq!(recent_max_day(false), 30);
    assert!(check_day(30, 30).is_ok());
    assert!(check_day(1, 30).is_ok());
    assert!(check_day(90, 90).is_ok());
    assert!(check_day(91, 90).is_err());
    match check_day(0, 30) {
        Err(IsacError::Info(IsacInfo::NeedPremium { msg })) => {
            assert_eq!(msg, "**0** is illegal, min: **1** max: **30**")
        }
        _ => panic!("expected NeedPremium"),
    }
    match check_day(31, 30) {
        Err(IsacError::Info(IsacInfo::NeedPremium { msg })) => {
            assert_eq!(msg, "**31** is illegal, min: **1** max: **30**")
        }
        _ => panic!("expected NeedPremium"),
    }
    assert_eq!(target_time(10 * 86400, 3), 7 * 86400);
    assert_eq!(days_ago(86400 * 5, 86400 * 5), 0);
    assert_eq!(days_ago(86400 * 5, 86400 * 4), 1);
    assert_eq!(days_ago(86400 * 5, 86400 * 4 - 1), 2);
    assert_eq!(days_ago(1000, 999), 1);
}

#[test]
fn day_options_sorted_distinct_at_most_25() {
    assert_eq!(day_options(&vec![5, 3, 5, 1, 3]), vec![1, 3, 5]);
    let many: Vec<u64> = (0..40).rev().collect();
    assert_eq!(day_options(&many), (0..25).collect::<Vec<u64>>());
    assert!(day_options(&vec![]).is_empty());
}

#[test]
fn ask_day_texts() {
    assert_eq!(
        ask_day_message("B2U", "PVP", None, 1, false, true),
        "`B2U` played 0 battle in **PVP** last **1** day."
    );
    assert_eq!(
        ask_day_message("B2U", "SOLO", Some("Yamato"), 7, true, false),
        "`B2U` played 0 battle in **Yamato** in **SOLO** last **7** day.\nChoose an older date?```\nYou didn't use this command in the last 14 days, so ISAC stopped tracking your account, plz play a game and try it again```"
    );
}

#[test]
fn recent_ships_order_by_battles_then_tier() {
    let ships = vec![
        RecentShip { battles: 3, tier: 8, line: "a" },
        RecentShip { battles: 5, tier: 6, line: "b" },
        RecentShip { battles: 3, tier: 10, line: "c" },
        RecentShip { battles: 3, tier: 8, line: "d" },
    ];
    let lines: Vec<&str> = recent_ships(ships).into_iter().map(|s| s.line).collect();
    assert_eq!(lines, vec!["b", "c", "a", "d"]);
    let many: Vec<_> = (0..60u64).map(|i| RecentShip { battles: i, tier: 1, line: i }).collect();
    let kept = recent_ships(many);
    assert_eq!(kept.len(), 50);
    assert_eq!(kept[0].line, 59);
    assert_eq!(kept[49].line, 10);
}

#[test]
fn recent_div_by_mode() {
    let div = RecentTemplateDiv { pvp: Some(1), pvp_solo: None, pvp_div2: Some(2), pvp_div3: Some(3), rank_solo: Some(4) };
    assert_eq!(div.get_mode(&Mode::Pvp), Some(&1));
    assert_eq!(div.get_mode(&Mode::Solo), None);
    assert_eq!(div.get_mode(&Mode::Rank), Some(&4));
}

#[test]
fn clock_based_updates() {
    let mut s: PlayerSnapshots<&str> = PlayerSnapshots::init(player());
    assert!(s.insert("now"));
    assert!(s.last_update_at > 1_600_000_000);
    assert_eq!(s.latest_snapshot(), Some("now"));
    assert!(s.update_last_request(false));
    assert!(matches!(s.last_request, PlayerSnapshotsType::Normal(t) if t >= s.last_update_at));
    assert!(s.update_last_request(true));
    assert_eq!(s.last_request, PlayerSnapshotsType::Premium);
}

fn ask() -> DayAsk {
    DayAsk { ign: "B2U".to_string(), mode_upper: "PVP".to_string(), ship_name: None, is_active: true }
}

#[test]
fn day_round_refuses_shows_asks_or_cancels() {
    let now = 100 * 86400;
    assert_eq!(day_target(3, 30, now).ok(), Some(97 * 86400));
    assert!(matches!(day_target(0, 30, now), Err(IsacError::Info(IsacInfo::NeedPremium { .. }))));
    assert!(matches!(day_target(31, 30, now), Err(IsacError::Info(IsacInfo::NeedPremium { .. }))));
    let mut s = PlayerSnapshots::init(player());
    s.insert_at("a", 90 * 86400);
    s.insert_at("b", 95 * 86400 - 5);
    s.insert_at("c", 99 * 86400);
    match s.day_after_lookup(&ask(), 1, 99 * 86400, now, Some(99 * 86400)) {
        DayAction::Show { exact_day } => assert_eq!(exact_day, 1),
        _ => panic!("expected Show"),
    }
    match s.day_after_lookup(&ask(), 1, 99 * 86400, now, None) {
        DayAction::Ask { options, message } => {
            assert_eq!(options, vec![6, 10]);
            assert_eq!(message, "`B2U` played 0 battle in **PVP** last **1** day.\nChoose an older date?");
        }
        _ => panic!("expected Ask"),
    }
    match s.day_after_lookup(&ask(), 10, 90 * 86400, now, None) {
        DayAction::Cancel { message } => {
            assert_eq!(message, "`B2U` played 0 battle in **PVP** last **10** day.")
        }
        _ => panic!("expected Cancel"),
    }
    assert_eq!(day_answer(Some(6)).ok(), Some(6));
    assert!(matches!(day_answer(None), Err(IsacError::Cancelled)));
}
