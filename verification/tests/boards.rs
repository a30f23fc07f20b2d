use isac::account::{Patron, Patrons};
use isac::error::{IsacError, IsacInfo};
use isac::leaderboard::{
    assign_ranks, bracketed_tag, cut_board, cut_server_board, dedup_by_uid, empty_board_error,
    find_uid, keep_min_battles, kokomi_ign, kokomi_status, kokomi_token, mark_patrons,
    place_author, rank_by_score, server_board, server_guild, sort_by_score, LeaderboardRow, RowColor,
    ShipLeaderboard, ShipLeaderboardShip,
};
use isac::region::Region;

fn row(uid: u64, score: u64) -> LeaderboardRow<&'static str> {
    LeaderboardRow { uid, rank: 0, color: RowColor::Unset, score, battles: 100, stats: "" }
}

fn tagged(uid: u64, score: u64, tag: &'static str) -> LeaderboardRow<&'static str> {
    LeaderboardRow { uid, rank: 0, color: RowColor::Unset, score, battles: 100, stats: tag }
}

fn uids<T>(rows: &[LeaderboardRow<T>]) -> Vec<u64> {
    rows.iter().map(|r| r.uid).collect()
}

fn patron(uid: u64) -> Patron {
    Patron { discord_id: uid + 1000, uid, discord_name: "p".to_string(), discord_nick: None }
}

#[test]
fn sort_by_score_is_descending_and_stable() {
    let mut rows = vec![tagged(1, 5, "a"), tagged(2, 9, "b"), tagged(3, 5, "c"), tagged(4, 7, "d"), tagged(5, 9, "e")];
    sort_by_score(&mut rows);
    assert_eq!(uids(&rows), vec![2, 5, 4, 1, 3]);
    let tags: Vec<&str> = rows.iter().map(|r| r.stats).collect();
    assert_eq!(tags, vec!["b", "e", "d", "a", "c"]);
}

#[test]
fn ranks_count_from_one() {
    let mut rows = vec![row(7, 1), row(8, 2), row(9, 3)];
    assign_ranks(&mut rows);
    let ranks: Vec<u64> = rows.iter().map(|r| r.rank).collect();
    assert_eq!(ranks, vec![1, 2, 3]);
    let mut rows2 = vec![row(1, 1), row(2, 3), row(3, 2)];
    rank_by_score(&mut rows2);
    assert_eq!(uids(&rows2), vec![2, 3, 1]);
    assert_eq!(rows2.iter().map(|r| r.rank).collect::<Vec<_>>(), vec![1, 2, 3]);
}

#[test]
fn find_uid_gives_first_row() {
    let rows = vec![row(1, 9), row(2, 8), row(2, 7)];
    assert_eq!(find_uid(&rows, 2), Some(1));
    assert_eq!(find_uid(&rows, 3), None);
}

#[test]
fn place_author_only_when_beating_last() {
    let mut rows = vec![row(1, 90), row(2, 80), row(3, 70)];
    assign_ranks(&mut rows);
    assert_eq!(place_author(&mut rows, row(9, 60)), None);
    assert_eq!(uids(&rows), vec![1, 2, 3]);
    assert_eq!(place_author(&mut rows, row(9, 85)), Some(1));
    assert_eq!(uids(&rows), vec![1, 9, 2, 3]);
    assert_eq!(rows[1].rank, 2);
    assert_eq!(rows[3].rank, 4);
    let mut empty: Vec<LeaderboardRow<&str>> = vec![];
    assert_eq!(place_author(&mut empty, row(5, 0)), Some(0));
    assert_eq!(empty[0].rank, 1);
}

#[test]
fn cut_board_keeps_fifteen_and_marks_author() {
    let mut rows: Vec<_> = (0..20).map(|i| row(i, 100 - i)).collect();
    cut_board(&mut rows, Some(3));
    assert_eq!(rows.len(), 15);
    assert_eq!(rows[3].uid, 3);
    assert_eq!(rows[3].color, RowColor::Author);
    let mut plain: Vec<_> = (0..20).map(|i| row(i, 100 - i)).collect();
    cut_board(&mut plain, None);
    assert_eq!(uids(&plain), (0..15).collect::<Vec<u64>>());
}

#[test]
fn cut_board_moves_low_author_to_sixteenth() {
    let mut rows: Vec<_> = (0..30).map(|i| row(i, 100 - i)).collect();
    cut_board(&mut rows, Some(22));
    assert_eq!(rows.len(), 16);
    assert_eq!(rows[15].uid, 22);
    assert_eq!(rows[15].color, RowColor::Author);
    assert_eq!(uids(&rows[..15]), (0..15).collect::<Vec<u64>>());
    // the author at the 16th place takes the place of the row after it
    let mut at16: Vec<_> = (0..18).map(|i| row(i, 100 - i)).collect();
    cut_board(&mut at16, Some(15));
    assert_eq!(rows.len(), 16);
    assert_eq!(at16[15].uid, 15);
    assert_eq!(at16.len(), 16);
}

#[test]
fn server_cut_swaps_author_into_sixteenth() {
    let mut rows: Vec<_> = (0..30).map(|i| row(i, 100 - i)).collect();
    cut_server_board(&mut rows, Some(20));
    assert_eq!(rows.len(), 16);
    assert_eq!(rows[15].uid, 20);
    assert_eq!(uids(&rows[..15]), (0..15).collect::<Vec<u64>>());
    let mut top: Vec<_> = (0..30).map(|i| row(i, 100 - i)).collect();
    cut_server_board(&mut top, Some(4));
    assert_eq!(top.len(), 15);
}

#[test]
fn patrons_are_colored() {
    let mut rows = vec![row(1, 3), row(2, 2), row(3, 1)];
    let patrons = Patrons(vec![patron(2)]);
    mark_patrons(&mut rows, &patrons);
    assert_eq!(rows[0].color, RowColor::Unset);
    assert_eq!(rows[1].color, RowColor::Patron);
    assert_eq!(RowColor::Patron.css(), "#e85a6b");
    assert_eq!(RowColor::Author.css(), "#ffcc66");
    assert_eq!(RowColor::White.css(), "#fff");
    assert_eq!(RowColor::Unset.css(), "");
}

#[test]
fn server_board_filters_dedups_and_colors() {
    let mut rows = vec![
        LeaderboardRow { uid: 1, rank: 0, color: RowColor::White, score: 50, battles: 5, stats: () },
        LeaderboardRow { uid: 2, rank: 0, color: RowColor::White, score: 40, battles: 10, stats: () },
        LeaderboardRow { uid: 2, rank: 0, color: RowColor::White, score: 40, battles: 10, stats: () },
        LeaderboardRow { uid: 3, rank: 0, color: RowColor::White, score: 60, battles: 30, stats: () },
        LeaderboardRow { uid: 4, rank: 0, color: RowColor::White, score: 20, battles: 11, stats: () },
    ];
    let patrons = Patrons(vec![patron(4)]);
    server_board(&mut rows, &patrons, Some(2));
    assert_eq!(uids(&rows), vec![3, 2, 4]);
    assert_eq!(rows.iter().map(|r| r.rank).collect::<Vec<_>>(), vec![1, 2, 3]);
    assert_eq!(rows[0].color, RowColor::White);
    assert_eq!(rows[1].color, RowColor::Author);
    assert_eq!(rows[2].color, RowColor::Patron);
}

#[test]
fn server_board_leaves_sixteenth_row_uncolored() {
    let mut rows: Vec<_> = (0..20u64)
        .map(|i| LeaderboardRow { uid: i, rank: 0, color: RowColor::White, score: 100 - i, battles: 10, stats: () })
        .collect();
    let patrons = Patrons(vec![]);
    server_board(&mut rows, &patrons, Some(18));
    assert_eq!(rows.len(), 16);
    assert_eq!(rows[15].uid, 18);
    assert_eq!(rows[15].rank, 19);
    assert_eq!(rows[15].color, RowColor::White);
}

#[test]
fn min_battles_and_dedup() {
    let mut rows = vec![row(1, 1), row(2, 1)];
    rows[0].battles = 9;
    keep_min_battles(&mut rows, 10);
    assert_eq!(uids(&rows), vec![2]);
    let mut d = vec![row(1, 1), row(1, 1), row(2, 1), row(1, 1)];
    dedup_by_uid(&mut d);
    assert_eq!(uids(&d), vec![1, 2]);
}

#[test]
fn server_board_shows_each_account_once() {
    let mut rows = vec![row(7, 50), row(8, 50), row(7, 50), row(9, 40)];
    let patrons = Patrons(vec![]);
    server_board(&mut rows, &patrons, None);
    assert_eq!(uids(&rows), vec![7, 8, 9]);
    assert_eq!(rows.iter().map(|r| r.rank).collect::<Vec<_>>(), vec![1, 2, 3]);
}

#[test]
fn kokomi_answers() {
    assert!(kokomi_status(Some("ok"), None).is_ok());
    match kokomi_status(Some("error"), Some("boom")) {
        Err(IsacError::Info(IsacInfo::GeneralError { msg })) => assert_eq!(msg, "Kokomi API error: boom"),
        _ => panic!(),
    }
    match kokomi_status(None, None) {
        Err(IsacError::Info(IsacInfo::GeneralError { msg })) => assert_eq!(msg, "Kokomi API error: Unknown error"),
        _ => panic!(),
    }
    match kokomi_token(None) {
        Err(IsacError::Info(IsacInfo::GeneralError { msg })) => assert_eq!(msg, "Kokomi API token not set in env"),
        _ => panic!(),
    }
    assert_eq!(kokomi_token(Some("t".to_string())).ok(), Some("t".to_string()));
    match empty_board_error("Yamato") {
        IsacError::Info(IsacInfo::GeneralError { msg }) => assert_eq!(msg, "No one on the leaderboard of `Yamato` yet"),
        _ => panic!(),
    }
    assert_eq!(bracketed_tag(Some("PANTS")), "[PANTS]");
    assert_eq!(bracketed_tag(None), "");
    assert_eq!(kokomi_ign(None), "Unknown");
    assert_eq!(kokomi_ign(Some("B2U")), "B2U");
}

#[test]
fn cached_board_freshness() {
    let mut lb: ShipLeaderboard<&str> = ShipLeaderboard::new();
    lb.insert(&Region::Eu, 42, ShipLeaderboardShip { players: vec![row(1, 1)], last_updated_at: 1000 });
    assert_eq!(lb.get_ship_at(&Region::Eu, &42, true, 4600).map(|v| v.len()), Some(1));
    assert!(lb.get_ship_at(&Region::Eu, &42, true, 4601).is_none());
    assert_eq!(lb.get_ship_at(&Region::Eu, &42, false, 999_999).map(|v| v.len()), Some(1));
    assert!(lb.get_ship_at(&Region::Asia, &42, false, 1000).is_none());
    assert!(lb.get_ship_at(&Region::Eu, &43, false, 1000).is_none());
    assert!(lb.get_ship(&Region::Eu, &42, false).is_some());
    // a board stamped after the clock's now is of age 0
    assert!(lb.get_ship_at(&Region::Eu, &42, true, 10).is_some());
}

#[test]
fn server_board_needs_a_server() {
    assert_eq!(server_guild(Some(7)).ok(), Some(7));
    match server_guild(None) {
        Err(IsacError::Info(IsacInfo::GeneralError { msg })) => assert_eq!(msg, "Not a server"),
        _ => panic!("expected GeneralError"),
    }
}

#[test]
fn row_colors_read_back_from_css() {
    for c in [RowColor::Unset, RowColor::White, RowColor::Author, RowColor::Patron] {
        assert_eq!(RowColor::from_css(&c.css()), c);
    }
    assert_eq!(RowColor::from_css("#123456"), RowColor::Unset);
}

#[test]
fn fetched_board_is_ranked_and_cached() {
    let mut b: ShipLeaderboard<&'static str> = ShipLeaderboard::new();
    let shown = b.cache_board_at(&Region::Eu, 5, vec![row(1, 10), row(2, 30)], 1000);
    assert_eq!(uids(&shown), vec![2, 1]);
    assert_eq!(shown.iter().map(|r| r.rank).collect::<Vec<_>>(), vec![1, 2]);
    let cached = b.get_ship_at(&Region::Eu, &5, true, 1500).expect("fresh");
    assert_eq!(uids(&cached), vec![2, 1]);
    assert!(b.get_ship_at(&Region::Eu, &5, true, 1000 + 3601).is_none());
    assert!(b.get_ship_at(&Region::Asia, &5, false, 1500).is_none());
}
