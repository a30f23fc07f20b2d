use std::collections::HashMap;

use isac::account::{mentions, patrons_from_members, GuildMember, Linked, LittleConstant, Patron, Patrons};
use isac::api::{ErrorDetail, Status};
use isac::bonus_code::bonus_code_rows;
use isac::clan::{ladder_season, parse_region_query, parse_season_arg, resolve_season, AutocompleteClan, PartialClan};
use isac::clan_detail::{ClanDetail, ClanDetailAPIRes, ClanTag};
use isac::color::ColorStats;
use isac::dogtag::Dogtag;
use isac::error::{IsacError, IsacInfo};
use isac::pick::{candidates_outcome, pick_index, Candidates, PickView};
use isac::player::{banner_file_path, banner_file_type, check_supporter, Banner, BannerData, PartialPlayer, Player, PlayerDogTag};
use isac::region::Region;
use isac::roulette::{
    reroll_index, roulette_candidates, roulette_defaults, roulette_text, RoulettePlayer, RouletteShip, RouletteTier,
    RouletteView,
};
use isac::text::{text_less, u64_to_text};
use isac::wws_view::{cw_season_lines, CwSeasonStats, WwsAction, WwsView};

#[test]
fn status_and_error_detail() {
    let ok = Status { status: "ok".to_string(), error: None };
    assert!(ok.ok());
    let bad = Status { status: "error".to_string(), error: Some(ErrorDetail::from_text("INVALID_SEARCH")) };
    assert!(!bad.ok());
    assert_eq!(bad.err_msg(), "INVALID_SEARCH");
    let none = Status { status: "error".to_string(), error: None };
    assert_eq!(none.err_msg(), "Unknown Error");
    let d = ErrorDetail::from_parts(None, None, Some("search".to_string()), None);
    assert_eq!(d.code, 0);
    assert_eq!(d.message, "");
    assert_eq!(d.field, Some("search".to_string()));
}

fn detail(old_tag: Option<&str>) -> ClanDetail {
    ClanDetail {
        members_count: 1,
        name: "n".to_string(),
        creator_name: "c".to_string(),
        created_at: 0,
        tag: ClanTag("NEW".to_string()),
        updated_at: 0,
        leader_name: "l".to_string(),
        members_ids: vec![1],
        creator_id: 1,
        clan_id: 9,
        old_name: None,
        is_clan_disbanded: false,
        renamed_at: None,
        old_tag: old_tag.map(|t| ClanTag(t.to_string())),
        leader_id: 1,
        description: String::new(),
    }
}

#[test]
fn clan_detail_data_checks_status() {
    let mut data = HashMap::new();
    data.insert(9u64, detail(Some("OLD")));
    let res = ClanDetailAPIRes { status: Status { status: "ok".to_string(), error: None }, data };
    let d = res.data().ok().expect("ok status");
    assert_eq!(d.clan_id, 9);
    let err = ClanDetailAPIRes {
        status: Status { status: "error".to_string(), error: Some(ErrorDetail::from_text("NOT_FOUND")) },
        data: HashMap::new(),
    };
    match err.data() {
        Err(IsacError::Info(IsacInfo::APIError { msg })) => assert_eq!(msg, "NOT_FOUND"),
        _ => panic!("expected APIError"),
    }
    assert_eq!(ClanTag("PANTS".to_string()).with_brackets(), "[PANTS]");
}

#[test]
fn color_codes() {
    assert_eq!("#9D42F3".parse::<ColorStats>().ok(), Some(ColorStats::SuperUnicum));
    assert_eq!(ColorStats::parse("\"#A00DC5\"").ok(), Some(ColorStats::SuperUnicum));
    assert_eq!(ColorStats::parse("#FE0E00").ok(), Some(ColorStats::Bad));
    assert!(matches!(ColorStats::parse("#123456"), Err(IsacError::UnknownError(m)) if m == "Unknown value"));
}

#[test]
fn bonus_codes_in_rows_of_five() {
    assert!(matches!(bonus_code_rows(""), Ok(None)));
    let rows = bonus_code_rows("A1 B2 C3 D4 E5 F6 bad-code G7").ok().flatten().expect("rows");
    assert_eq!(rows.len(), 2);
    assert_eq!(rows[0].len(), 5);
    assert_eq!(rows[1].len(), 2);
    assert_eq!(rows[1][1].label, "G7");
    assert_eq!(rows[0][0].url, "https://wargaming.net/shop/redeem/?bonus_mode=A1");
    let many = (0..11).map(|i| format!("C{i}")).collect::<Vec<_>>().join(" ");
    match bonus_code_rows(&many) {
        Err(IsacError::Info(IsacInfo::GeneralError { msg })) => assert_eq!(msg, "Too many codes, max 10 codes at once"),
        _ => panic!("expected too many codes"),
    }
}

#[test]
fn dogtag_pictures() {
    let mut m = HashMap::new();
    m.insert(5u64, "abc".to_string());
    let d = Dogtag(m);
    assert_eq!(d.get(5), Some("./wowsinfo_data/live/shared/dogtags/abc.png".to_string()));
    assert_eq!(d.get(0), None);
    assert_eq!(d.get(6), None);
    let tag = PlayerDogTag { texture_id: 0, symbol_id: 5, border_color_id: 0, background_color_id: 0, background_id: 7 };
    assert_eq!(tag.get_symbol(&d), "./wowsinfo_data/live/shared/dogtags/abc.png");
    assert_eq!(tag.get_background(&d), "");
}

#[test]
fn player_defaults() {
    let p = Player::default();
    assert_eq!(p.ign, "Unknown_Player");
    assert_eq!(PartialPlayer::default(), PartialPlayer { region: Region::Asia, uid: 0 });
    assert_eq!(LittleConstant::default().clan_season, 5);
    assert_eq!(BannerData::default().url, "./user_data/banner/patreon_default.png");
}

#[test]
fn banner_replacement() {
    let mut b = Banner(HashMap::new());
    b.0.insert(1, BannerData { url: "a.png".to_string(), name: "u".to_string(), discord_id: 77 });
    b.0.insert(2, BannerData { url: "b.png".to_string(), name: "u".to_string(), discord_id: 77 });
    b.0.insert(3, BannerData { url: "c.png".to_string(), name: "v".to_string(), discord_id: 88 });
    let mut removed = b.replace_user(77, 4, BannerData { url: "d.png".to_string(), name: "u".to_string(), discord_id: 77 });
    removed.sort_by(|x, y| x.url.cmp(&y.url));
    assert_eq!(removed.iter().map(|x| x.url.as_str()).collect::<Vec<_>>(), vec!["a.png", "b.png"]);
    assert_eq!(b.0.len(), 2);
    assert_eq!(b.get(&4).map(|x| x.url), Some("d.png".to_string()));
    assert_eq!(b.get(&3).map(|x| x.url), Some("c.png".to_string()));
    assert!(b.get(&1).is_none());
}

#[test]
fn banner_upload_checks() {
    assert_eq!(banner_file_type(Some("image/png")).ok(), Some("png".to_string()));
    assert_eq!(banner_file_type(Some("image/svg+xml/extra")).ok(), Some("svg+xml".to_string()));
    assert_eq!(banner_file_type(Some("image/")).ok(), Some(String::new()));
    for bad in [Some("text/plain"), Some("imag"), None] {
        match banner_file_type(bad) {
            Err(IsacError::Info(IsacInfo::GeneralError { msg })) => assert_eq!(msg, "Invalid or non-image file type"),
            _ => panic!("expected refusal"),
        }
    }
    assert_eq!(banner_file_path(42, "png"), "./user_data/banner/42.png");
    assert!(check_supporter(true).is_ok());
    assert!(matches!(check_supporter(false), Err(IsacError::Info(IsacInfo::NeedPremium { msg })) if msg.is_empty()));
}

#[test]
fn linked_users_and_patrons() {
    let p = PartialPlayer { region: Region::Na, uid: 10 };
    let mut m = HashMap::new();
    m.insert(1u64, p);
    m.insert(2u64, PartialPlayer { region: Region::Eu, uid: 10 });
    m.insert(3u64, p);
    let linked = Linked(m);
    let mut users = linked.users_of(&p);
    users.sort();
    assert_eq!(users, vec![1, 3]);
    assert_eq!(linked.get(&2), Some(PartialPlayer { region: Region::Eu, uid: 10 }));
    assert_eq!(mentions(&vec![1, 3]), "<@1>\n<@3>");
    assert_eq!(mentions(&vec![]), "");
    let members = vec![
        GuildMember { discord_id: 1, name: "a".to_string(), nick: Some("A".to_string()), roles: vec![5, 9] },
        GuildMember { discord_id: 4, name: "b".to_string(), nick: None, roles: vec![6] },
        GuildMember { discord_id: 7, name: "c".to_string(), nick: None, roles: vec![] },
    ];
    let patrons = patrons_from_members(&members, &linked, 9, 6);
    assert_eq!(patrons.0.len(), 2);
    assert_eq!((patrons.0[0].discord_id, patrons.0[0].uid), (1, 10));
    assert_eq!((patrons.0[1].discord_id, patrons.0[1].uid), (4, 0));
    assert_eq!(patrons.0[0].discord_nick, Some("A".to_string()));
    assert!(patrons.check_user(&4));
    assert!(!patrons.check_user(&7));
    assert!(patrons.check_player(&10));
    let none = Patrons(vec![Patron { discord_id: 1, uid: 2, discord_name: String::new(), discord_nick: None }]);
    assert!(!none.check_player(&3));
}

#[test]
fn clan_queries_and_seasons() {
    assert_eq!(parse_region_query(""), None);
    assert_eq!(parse_region_query("PANTS"), Some((Region::Asia, "PANTS".to_string())));
    assert_eq!(parse_region_query("eu RAIN x"), Some((Region::Eu, "RAIN".to_string())));
    assert_eq!(parse_region_query("mars RAIN"), Some((Region::Asia, "RAIN".to_string())));
    assert_eq!(parse_season_arg("S22"), 22);
    assert_eq!(parse_season_arg("s21"), 21);
    assert_eq!(parse_season_arg("-1"), -1);
    assert_eq!(parse_season_arg("latest"), -1);
    assert_eq!(resolve_season(25, parse_season_arg("latest")), 25);
    assert_eq!(resolve_season(25, parse_season_arg("0")), 0);
    assert_eq!(resolve_season(25, 3), 3);
    assert_eq!(resolve_season(25, -1), 25);
    assert_eq!(resolve_season(25, -3), 23);
    assert_eq!(resolve_season(2, -10), 2);
    assert_eq!(ladder_season(Some(20), 25), 20);
    assert_eq!(ladder_season(Some(-1), 25), 25);
    assert_eq!(ladder_season(None, 25), 25);
    let c = PartialClan { tag: ClanTag("T".to_string()), region: Region::Na, id: 1, name: "n".to_string() };
    let a: AutocompleteClan = c.into();
    assert_eq!(a.tag.0, "T");
    assert_eq!(a.region, Region::Na);
}

#[test]
fn pick_view_texts() {
    let v = PickView::new(vec!["Yamato".to_string(), "Musashi".to_string()]);
    assert_eq!(v.embed_text(), "1️⃣ Yamato\n\n2️⃣ Musashi\n\n❌ None of above");
    let b = v.build();
    assert_eq!(b.len(), 3);
    assert_eq!(b[1].custom_id, "select_2");
    assert_eq!(b[2].custom_id, "select_x");
    assert_eq!(pick_index("select_1"), Some(0));
    assert_eq!(pick_index("select_4"), Some(3));
    assert_eq!(pick_index("select_x"), None);
    assert_eq!(candidates_outcome(0), Candidates::NotFound);
    assert_eq!(candidates_outcome(1), Candidates::Only);
    assert_eq!(candidates_outcome(4), Candidates::Pick);
}

#[test]
fn roulette_draws_distinct_ships() {
    let ships = vec![
        RouletteShip { ship_id: 1, tier: 10, available: true },
        RouletteShip { ship_id: 2, tier: 10, available: false },
        RouletteShip { ship_id: 3, tier: 9, available: true },
        RouletteShip { ship_id: 4, tier: 10, available: true },
        RouletteShip { ship_id: 5, tier: 10, available: true },
    ];
    let pool = roulette_candidates(&ships, RouletteTier::X);
    assert_eq!(pool, vec![1, 4, 5]);
    let mut v = RouletteView::new(pool.clone(), RoulettePlayer::Three);
    assert_eq!(v.ships.len(), 3);
    let mut sorted = v.ships.clone();
    sorted.sort();
    assert_eq!(sorted, vec![1, 4, 5]);
    let second = v.ships[1];
    v.on_press("roulette_1");
    assert!(pool.contains(&v.ships[0]));
    assert_eq!(v.ships[1], second);
    let few = RouletteView::new(vec![7], RoulettePlayer::Two);
    assert_eq!(few.ships, vec![7]);
    assert_eq!(few.buttons().len(), 2);
    assert_eq!(reroll_index("roulette_3"), Some(2));
    assert_eq!(reroll_index("x"), None);
    assert_eq!(roulette_defaults(None, None).0, RoulettePlayer::Three);
    assert_eq!(roulette_defaults(Some(RoulettePlayer::One), None).1, RouletteTier::X);
    assert_eq!(roulette_text(&vec!["A".to_string(), "B".to_string()]), "1️⃣ A\n\n2️⃣ B\n\n");
    v.timeout();
    assert!(v.buttons().iter().all(|b| b.disabled));
}

#[test]
fn wws_view_and_cw_seasons() {
    let mut v = WwsView::new(0u8, PartialPlayer { region: Region::Asia, uid: 1 });
    assert_eq!(v.on_press("overall_tier"), WwsAction::ByTier);
    assert!(v.by_tier_btn_disabled && !v.cw_btn_disabled);
    assert_eq!(v.on_press("nothing"), WwsAction::Ignore);
    assert_eq!(v.on_press("overall_cw"), WwsAction::CwSeasons);
    assert_eq!(v.build()[1].label, "CB seasons");
    let s = |id: u32, battles: u64| CwSeasonStats {
        season_id: id,
        battles,
        wins: 1,
        damage_dealt: 2,
        frags: 3,
        art_agro: 1000,
        damage_scouting: 300,
    };
    let lines = cw_season_lines(&vec![s(20, 10), s(1001, 0), s(24, 3), s(22, 4)]);
    assert_eq!(lines.iter().map(|l| l.season_id).collect::<Vec<_>>(), vec![24, 22, 20]);
    assert_eq!(lines[0].potential, 333);
    assert_eq!(lines[2].scout, 30);
}

#[test]
fn text_order_and_numbers() {
    assert!(text_less("Apple", "apple"));
    assert!(text_less("app", "apple"));
    assert!(!text_less("apple", "apple"));
    assert!(text_less("z", "é"));
    assert_eq!(u64_to_text(0), "0");
    assert_eq!(u64_to_text(18446744073709551615), "18446744073709551615");
}

#[test]
fn guild_regions_and_upload_log() {
    use_guild_regions();
    assert_eq!(
        isac::player::upload_log_text(42, Some(980), None, 123_456),
        "<@42>, width: 980 height: 0, size: 123 KB"
    );
}

fn use_guild_regions() {
    let mut g = isac::region::GuildDefaultRegion(HashMap::new());
    assert_eq!(g.get_default(Some(1)), Region::Asia);
    assert_eq!(g.get_default(None), Region::Asia);
    assert!(g.set_default(1, Region::Eu, true).is_ok());
    assert_eq!(g.get_default(Some(1)), Region::Eu);
    match g.set_default(1, Region::Na, false) {
        Err(IsacError::Info(IsacInfo::GeneralError { msg })) => assert_eq!(msg, "You need admin permission to do this"),
        _ => panic!(),
    }
    assert_eq!(g.get_default(Some(1)), Region::Eu);
    assert_eq!(isac::region::require_guild(Some(5)).ok(), Some(5));
    assert!(isac::region::require_guild(None).is_err());
}

/// The API's error record, as it arrives when the clan source is down.
#[test]
fn clan_detail_res_can_deserialize() {
    let err_json = r#"
    {
        "status": "error",
        "error": {
            "code": 504,
            "message": "SOURCE_NOT_AVAILABLE",
            "field": null,
            "value": null
        }
    }"#;
    let v: serde_json::Value = serde_json::from_str(err_json).expect("valid JSON");
    let e = &v["error"];
    let detail = ErrorDetail::from_parts(
        e["code"].as_u64().map(|c| c as u16),
        e["message"].as_str().map(|m| m.to_string()),
        e["field"].as_str().map(|m| m.to_string()),
        e["value"].as_str().map(|m| m.to_string()),
    );
    assert_eq!(detail.code, 504);
    let res = ClanDetailAPIRes {
        status: Status { status: v["status"].as_str().unwrap().to_string(), error: Some(detail) },
        data: HashMap::new(),
    };
    assert!(!res.status.ok());
    match res.data() {
        Err(IsacError::Info(IsacInfo::APIError { msg })) => assert_eq!(msg, "SOURCE_NOT_AVAILABLE"),
        _ => panic!("expected APIError"),
    }
}
