use isac::clan::PartialClan;
use isac::clan_detail::ClanTag;
use isac::clan_top::{ladder_field_name, ladder_field_value, ClanTopView, LadderMove};
use isac::clan_view::{
    active_members, clan_rename, clan_seasons, newer_season, rename_time, season_card_members,
    season_pair, season_players, season_ratings, ClanAction, ClanMember, ClanView, SeasonPick, SeasonRatingKey,
};
use isac::error::{IsacError, IsacInfo};
use isac::region::Region;

fn member(ign: &str, last: u64, season: u32) -> ClanMember {
    ClanMember { ign: ign.to_string(), last_battle_time: last, season_id: season, battles: 1 }
}

fn clan() -> PartialClan {
    PartialClan { tag: ClanTag("PANTS".to_string()), region: Region::Asia, id: 2000004, name: "Dont Cap".to_string() }
}

#[test]
fn clan_view_default_description() {
    let v = ClanView::new(clan(), String::new(), vec![]);
    assert_eq!(v.description, "This clan has no description");
    let w = ClanView::new(clan(), "hi".to_string(), vec![]);
    assert_eq!(w.description, "hi");
    assert!(!w.timeout && !w.last_season_btn_disabled);
}

#[test]
fn members_table_sorted_case_insensitively() {
    let v = ClanView::new(
        clan(),
        String::new(),
        vec![member("bob", 0, 1), member("Alice", 0, 1), member("alice", 0, 1), member("Émile", 0, 1), member("Carl", 0, 1)],
    );
    assert_eq!(v.members_table(), "```\nAlice\nalice\nbob\nCarl\nÉmile\n\n```");
    let empty = ClanView::new(clan(), String::new(), vec![]);
    assert_eq!(empty.members_table(), "```\n\n```");
}

#[test]
fn clan_view_buttons_and_presses() {
    let mut v = ClanView::new(clan(), "desc".to_string(), vec![member("z", 0, 1)]);
    let b = v.build();
    assert_eq!(b.len(), 3);
    assert_eq!(b[0].custom_id, "clan_description");
    assert_eq!(b[1].label, "Members");
    assert!(!b[2].disabled);
    match v.on_press("clan_description", false) {
        ClanAction::ShowDescription(d) => assert_eq!(d, "desc"),
        _ => panic!(),
    }
    match v.on_press("clan_members", false) {
        ClanAction::ShowMembers(t) => assert_eq!(t, "```\nz\n\n```"),
        _ => panic!(),
    }
    assert!(matches!(v.on_press("latest_season", false), ClanAction::Ignore));
    assert!(!v.last_season_btn_disabled);
    assert!(matches!(v.on_press("latest_season", true), ClanAction::LatestSeason));
    assert!(v.build()[2].disabled);
    assert!(matches!(v.on_press("other", true), ClanAction::Ignore));
    v.timeout();
    assert!(v.build().iter().all(|b| b.disabled));
}

#[test]
fn active_members_within_ten_days() {
    let now = 10_000_000u64;
    let ms = vec![member("a", now - 864000, 1), member("b", now - 864001, 1), member("c", now, 1)];
    assert_eq!(active_members(&ms, now), 2);
    // a last battle after the clock's now counts as just played
    assert_eq!(active_members(&vec![member("d", now + 5, 1)], now), 1);
}

#[test]
fn newer_season_from_first_member() {
    assert_eq!(newer_season(&vec![member("a", 0, 25)], 24), Some(25));
    assert_eq!(newer_season(&vec![member("a", 0, 24)], 24), None);
    assert_eq!(newer_season(&vec![], 24), None);
}

#[test]
fn clan_seasons_fill_missing_ones() {
    let ratings = vec![
        SeasonRatingKey { season_number: 22, is_best_season_rating: true },
        SeasonRatingKey { season_number: 24, is_best_season_rating: true },
        SeasonRatingKey { season_number: 24, is_best_season_rating: false },
        SeasonRatingKey { season_number: 19, is_best_season_rating: true },
    ];
    assert_eq!(
        clan_seasons(&ratings, 24),
        vec![SeasonPick::Rated(1), SeasonPick::Missing(23), SeasonPick::Rated(0), SeasonPick::Missing(21)]
    );
    let top = vec![SeasonRatingKey { season_number: u32::MAX - 1, is_best_season_rating: true }];
    assert_eq!(
        clan_seasons(&top, u32::MAX),
        vec![
            SeasonPick::Missing(u32::MAX),
            SeasonPick::Rated(0),
            SeasonPick::Missing(u32::MAX - 2),
            SeasonPick::Missing(u32::MAX - 3)
        ]
    );
}

#[test]
fn rename_date_text() {
    assert_eq!(rename_time(Some(1431648000)), Some("May 15, 2015".to_string()));
    assert_eq!(rename_time(Some(1688000000)), Some("June 29, 2023".to_string()));
    assert_eq!(rename_time(None), Some("January  1, 1970".to_string()));
    assert_eq!(rename_time(Some(u64::MAX / 2)), None);
    let r = clan_rename(Some(ClanTag("OLD".to_string())), None, "May 15, 2015".to_string()).unwrap();
    assert_eq!(r.tag.0, "OLD");
    assert_eq!(r.name, "");
    assert!(clan_rename(None, Some("x".to_string()), String::new()).is_none());
}

#[test]
fn season_pair_best_first() {
    let ((a, x), (b, y)) = season_pair(vec![(true, "old"), (false, "first"), (true, "second")]);
    assert!(a && !b);
    assert_eq!((x, y), ("second", "first"));
    let ((c, u), (_, w)) = season_pair(vec![(true, "first"), (false, "second")]);
    assert!(c);
    assert_eq!((u, w), ("first", "second"));
}

#[test]
fn season_card_columns_split_twenty() {
    let members: Vec<(u128, u32)> = (0..25u32).map(|i| (i as u128, i)).collect();
    let (left, right) = season_card_members(members);
    assert_eq!(left.len(), 10);
    assert_eq!(right.len(), 10);
    assert_eq!(left[0].1, 24);
    assert_eq!(right[9].1, 5);
    let (l3, r3) = season_card_members(vec![(1u128, 'a'), (3, 'b'), (2, 'c')]);
    assert_eq!(l3.iter().map(|m| m.1).collect::<String>(), "bc");
    assert_eq!(r3.iter().map(|m| m.1).collect::<String>(), "a");
}

#[test]
fn clan_top_paging() {
    let mut v = ClanTopView::new((), Region::Eu, 27);
    assert_eq!(v.title(), "Hurricane I");
    assert_eq!(v.description(), "EU S27");
    assert_eq!(v.request_path(), "/api/ladder/structure/?season=27&realm=eu&league=0&division=1");
    assert_eq!(v.build(), (true, false));
    v.on_press(ClanTopView::<()>::press_kind("clan_top_left"));
    assert_eq!(v.title(), "Typhoon I");
    v.on_press(LadderMove::Left);
    assert_eq!(v.title(), "Typhoon II");
    v.on_press(ClanTopView::<()>::press_kind("clan_top_right"));
    assert_eq!(v.title(), "Typhoon I");
    assert_eq!(ClanTopView::<()>::press_kind("other"), LadderMove::Stay);
    assert_eq!(v.realm(&Region::Asia), "sg");
    assert_eq!(v.realm(&Region::Na), "us");
    v.timeout();
    assert_eq!(v.build(), (true, true));
}

#[test]
fn clan_top_fields() {
    assert_eq!(ladder_field_name("A_B_", 1234), r"[A\_B\_]    rating: 1234");
    assert_eq!(
        ladder_field_value(12, "2023-07-13 13:39:41+00:00"),
        Some("battles: 12, LBT: <t:1689255581:f>".to_string())
    );
    assert_eq!(
        ladder_field_value(1, "2023-07-13 15:39:41+02:00"),
        Some("battles: 1, LBT: <t:1689255581:f>".to_string())
    );
    assert_eq!(ladder_field_value(1, "yesterday"), None);
}

#[test]
fn season_ratings_of_the_season_asked() {
    let r = season_ratings(Some(vec![(20, "a"), (21, "b"), (21, "c")]), clan(), 21, (21, "blank")).ok().unwrap();
    assert_eq!(r, vec![(21, "b"), (21, "c")]);
    let lone = season_ratings(Some(vec![(20, "a"), (21, "b")]), clan(), 21, (21, "blank")).ok().unwrap();
    assert_eq!(lone, vec![(21, "b"), (21, "blank")]);
    match season_ratings(Some(vec![(20, "a")]), clan(), 21, (21, "blank")) {
        Err(IsacError::Info(IsacInfo::ClanNoBattle { clan: c, season })) => {
            assert_eq!(c.id, 2000004);
            assert_eq!(season, 21);
        }
        _ => panic!("expected ClanNoBattle"),
    }
    assert!(matches!(
        season_ratings::<&str>(None, clan(), 3, (3, "blank")),
        Err(IsacError::Info(IsacInfo::ClanNoBattle { season: 3, .. }))
    ));
}

#[test]
fn season_players_drop_members_without_battles() {
    let m = season_players(vec![(3, "a"), (0, "b"), (7, "c")]);
    assert_eq!(m, vec![(3, "a"), (7, "c")]);
}
